//! What a game tells its players and its operator.
//!
//! The game sends nothing itself: each operation returns the notifications
//! that are to be sent, in order, and the caller delivers them.
use vstd::prelude::*;

verus! {

/// Who receives a notification.
#[derive(Clone, Debug)]
pub enum Audience {
    /// The operator whose command is being answered.
    Operator,
    /// The channels named, in this order.
    Channels(Vec<u64>),
}

/// What a notification says.
#[derive(Clone, Debug)]
pub enum Message {
    /// The game starts.
    GameStarting,
    /// The accepted answers of the current question, slot by slot, and the
    /// number of questions that follow it.
    AnswerList { question: String, answers: Vec<Vec<String>>, remaining: usize },
    /// A user found an answer; the team's total is given in halves of a point.
    AnswerFound { finder: u64, answer: String, team_total: u64 },
    /// Every answer of the current question was found.
    AllAnswersFound { finished: bool },
    /// No question is left.
    GameFinished,
}

/// A notification: what is said, and to whom.
#[derive(Clone, Debug)]
pub struct Notification {
    pub audience: Audience,
    pub message: Message,
}

/// An audience, as plain data.
pub enum AudienceModel {
    Operator,
    Channels(Seq<u64>),
}

/// A message, as plain data.
pub enum MessageModel {
    GameStarting,
    AnswerList { question: Seq<char>, answers: Seq<Seq<Seq<char>>>, remaining: nat },
    AnswerFound { finder: u64, answer: Seq<char>, team_total: u64 },
    AllAnswersFound { finished: bool },
    GameFinished,
}

/// A notification, as plain data.
pub struct NotificationModel {
    pub audience: AudienceModel,
    pub message: MessageModel,
}

impl View for Audience {
    type V = AudienceModel;

    open spec fn view(&self) -> AudienceModel {
        match *self {
            Audience::Operator => AudienceModel::Operator,
            Audience::Channels(channels) => AudienceModel::Channels(channels@),
        }
    }
}

impl View for Message {
    type V = MessageModel;

    open spec fn view(&self) -> MessageModel {
        match *self {
            Message::GameStarting => MessageModel::GameStarting,
            Message::AnswerList { question, answers, remaining } => MessageModel::AnswerList {
                question: question@,
                answers: answers.deep_view(),
                remaining: remaining as nat,
            },
            Message::AnswerFound { finder, answer, team_total } => MessageModel::AnswerFound {
                finder,
                answer: answer@,
                team_total,
            },
            Message::AllAnswersFound { finished } => MessageModel::AllAnswersFound { finished },
            Message::GameFinished => MessageModel::GameFinished,
        }
    }
}

impl View for Notification {
    type V = NotificationModel;

    open spec fn view(&self) -> NotificationModel {
        NotificationModel { audience: self.audience@, message: self.message@ }
    }
}

impl DeepView for Notification {
    type V = NotificationModel;

    open spec fn deep_view(&self) -> NotificationModel {
        self.view()
    }
}

} // verus!
