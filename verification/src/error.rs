//! The reasons for which an operation on a game is refused.
use vstd::prelude::*;

verus! {

/// Why an operation was refused.
#[derive(Copy, Clone, Debug, PartialEq, Eq, Structural)]
pub enum GameError {
    /// The community has no game.
    NoSession,
    /// The community already has a game.
    AlreadyExists,
    /// The question set holds no question.
    EmptyQuestionSet,
    /// The question set is worth more points than a score can hold.
    QuestionSetTooLarge,
    /// Another team already answers in that channel.
    DuplicateChannel,
    /// Another team already has that name.
    DuplicateName,
    /// No team has that name.
    NoTeam,
    /// The game is not being configured any more.
    InvalidState,
    /// The game has no team.
    NoTeams,
    /// The game has already ended.
    AlreadyEnded,
    /// The game has not ended yet.
    NotEnded,
}

/// The kinds of reasons.
#[derive(Copy, Clone, Debug, PartialEq, Eq, Structural)]
pub enum ErrorKind {
    /// What the operation is about does not exist.
    NotFound,
    /// What the operation would create exists already.
    Conflict,
    /// The game is not in a state that allows the operation.
    InvalidState,
    /// Something that the operation needs is missing.
    Precondition,
}

impl GameError {
    /// The kind of each reason.
    pub open spec fn kind_of(self) -> ErrorKind {
        match self {
            GameError::NoSession | GameError::NoTeam => ErrorKind::NotFound,
            GameError::AlreadyExists | GameError::DuplicateChannel | GameError::DuplicateName =>
                ErrorKind::Conflict,
            GameError::InvalidState | GameError::AlreadyEnded | GameError::NotEnded =>
                ErrorKind::InvalidState,
            GameError::EmptyQuestionSet | GameError::QuestionSetTooLarge | GameError::NoTeams =>
                ErrorKind::Precondition,
        }
    }

    /// The kind of the reason.
    pub fn kind(&self) -> (kind: ErrorKind)
        ensures
            kind == self.kind_of(),
    {
        match self {
            GameError::NoSession | GameError::NoTeam => ErrorKind::NotFound,
            GameError::AlreadyExists | GameError::DuplicateChannel | GameError::DuplicateName =>
                ErrorKind::Conflict,
            GameError::InvalidState | GameError::AlreadyEnded | GameError::NotEnded =>
                ErrorKind::InvalidState,
            GameError::EmptyQuestionSet | GameError::QuestionSetTooLarge | GameError::NoTeams =>
                ErrorKind::Precondition,
        }
    }
}

} // verus!
