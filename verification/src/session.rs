//! The game of one community.
//!
//! A session is created with a question set, is given its teams, is started,
//! and then takes the messages of the team channels one by one: a message
//! that answers the current question scores for the team of its channel. The
//! session sends nothing itself; every operation returns the notifications
//! that the caller is to deliver.
use crate::deck::{
    checked_deck_worth, deck_wf, deck_worth, lemma_loaded_deck, load_deck, loaded_deck,
};
use crate::error::GameError;
use crate::notice::{
    Audience, AudienceModel, Message, MessageModel, Notification, NotificationModel,
};
use crate::question::{
    lemma_answer_scores_once, lemma_first_index, lemma_match_keeps_wf, lemma_match_takes_points,
    lemma_no_index, AnswerModel, Question, QuestionModel,
};
use crate::sums::{
    lemma_sum_bounds, lemma_sum_push, lemma_sum_swap_removed, lemma_sum_update, map_sum, sum,
    swap_removed,
};
use crate::team::{lemma_credit_keeps_total, lemma_fresh_team, Team, TeamModel};
use crate::text::normalized;
use vstd::prelude::*;

verus! {

/// Lifecycle of a game: it is configured, then started, then ended, and never
/// goes back.
#[derive(Copy, Clone, Debug, PartialEq, Eq, Structural)]
pub enum GameState {
    Configuring,
    Started,
    Ended,
}

/// The game of one community: its teams in the order in which they were
/// added, the channel of its operator, its state, and its deck, whose last
/// question is the current one.
#[derive(Clone, Debug)]
pub struct GuildConfig {
    pub teams: Vec<Team>,
    pub admin_channel: u64,
    pub state: GameState,
    pub questions: Vec<Question>,
}

/// What a session is, as plain data.
pub struct SessionModel {
    pub teams: Seq<TeamModel>,
    pub admin_channel: u64,
    pub state: GameState,
    pub questions: Seq<QuestionModel>,
}

impl View for GuildConfig {
    type V = SessionModel;

    open spec fn view(&self) -> SessionModel {
        SessionModel {
            teams: self.teams.deep_view(),
            admin_channel: self.admin_channel,
            state: self.state,
            questions: self.questions.deep_view(),
        }
    }
}

impl DeepView for GuildConfig {
    type V = SessionModel;

    open spec fn deep_view(&self) -> SessionModel {
        self.view()
    }
}

impl SessionModel {
    /// The channels of the teams, in the order of the teams.
    pub open spec fn channels(self) -> Seq<u64> {
        self.teams.map_values(|t: TeamModel| t.channel)
    }

    /// The names of the teams, in the order of the teams.
    pub open spec fn names(self) -> Seq<Seq<char>> {
        self.teams.map_values(|t: TeamModel| t.name)
    }

    /// The totals of the teams, in the order of the teams.
    pub open spec fn totals(self) -> Seq<nat> {
        self.teams.map_values(|t: TeamModel| t.total_points as nat)
    }

    /// The channels that hear what concerns every player: the team channels,
    /// then the operator's channel.
    pub open spec fn broadcast(self) -> Seq<u64> {
        self.channels().push(self.admin_channel)
    }

    /// The team that answers in `channel`.
    pub open spec fn team_on(self, channel: u64) -> Option<int> {
        self.channels().index_of_first(channel)
    }

    /// The team called `name`.
    pub open spec fn team_named(self, name: Seq<char>) -> Option<int> {
        self.names().index_of_first(name)
    }

    /// Every team and every question is well formed, no two teams share a
    /// name or a channel, and the points that the teams have, together with
    /// those that the deck still holds, fit in a score.
    pub open spec fn wf(self) -> bool {
        &&& forall|i: int| 0 <= i < self.teams.len() ==> (#[trigger] self.teams[i]).wf()
        &&& self.channels().no_duplicates()
        &&& self.names().no_duplicates()
        &&& deck_wf(self.questions)
        &&& sum(self.totals()) + deck_worth(self.questions) <= u64::MAX
    }

    /// A game that has not ended has a current question.
    pub open spec fn playable(self) -> bool {
        !(self.state is Ended) ==> self.questions.len() > 0
    }

    /// The accepted answers of the current question, and the number of
    /// questions that follow it.
    pub open spec fn answer_list(self) -> MessageModel {
        MessageModel::AnswerList {
            question: self.questions.last().name,
            answers: self.questions.last().disclosed(),
            remaining: (self.questions.len() - 1) as nat,
        }
    }

    /// The session that a question set gives, or why it gives none.
    pub open spec fn created(admin_channel: u64, document: Seq<QuestionModel>) -> Result<
        SessionModel,
        GameError,
    > {
        if document.len() == 0 {
            Err(GameError::EmptyQuestionSet)
        } else if deck_worth(loaded_deck(document)) > u64::MAX {
            Err(GameError::QuestionSetTooLarge)
        } else {
            Ok(
                SessionModel {
                    teams: Seq::empty(),
                    admin_channel,
                    state: GameState::Configuring,
                    questions: loaded_deck(document),
                },
            )
        }
    }

    /// The session with one more team, or why the team is refused.
    pub open spec fn with_team(self, name: Seq<char>, channel: u64) -> Result<
        SessionModel,
        GameError,
    > {
        if self.channels().contains(channel) {
            Err(GameError::DuplicateChannel)
        } else if self.names().contains(name) {
            Err(GameError::DuplicateName)
        } else {
            Ok(SessionModel { teams: self.teams.push(TeamModel::fresh(name, channel)), ..self })
        }
    }

    /// The session without the team called `name`, the last team in its
    /// place, or why no team is removed.
    pub open spec fn without_team(self, name: Seq<char>) -> Result<SessionModel, GameError> {
        match self.team_named(name) {
            Some(at) => Ok(SessionModel { teams: swap_removed(self.teams, at), ..self }),
            None => Err(GameError::NoTeam),
        }
    }

    /// The started session with what it announces, or why it does not start.
    pub open spec fn started(self) -> Result<(SessionModel, Seq<NotificationModel>), GameError> {
        if !(self.state is Configuring) {
            Err(GameError::InvalidState)
        } else if self.teams.len() == 0 {
            Err(GameError::NoTeams)
        } else {
            Ok(
                (
                    SessionModel { state: GameState::Started, ..self },
                    seq![
                        NotificationModel {
                            audience: AudienceModel::Channels(self.broadcast()),
                            message: MessageModel::GameStarting,
                        },
                        NotificationModel {
                            audience: AudienceModel::Operator,
                            message: self.answer_list(),
                        },
                    ],
                ),
            )
        }
    }

    /// The ended session, or why it does not end.
    pub open spec fn ended(self) -> Result<SessionModel, GameError> {
        if self.state is Ended {
            Err(GameError::AlreadyEnded)
        } else {
            Ok(SessionModel { state: GameState::Ended, ..self })
        }
    }

    /// The session after a message, and what it announces.
    ///
    /// Nothing happens unless the game is started and the message comes from
    /// a team channel. A started game without a question ends. A message
    /// whose normal form no slot of the current question accepts changes
    /// nothing. Otherwise the answer is taken out of the first slot that
    /// accepts it, its points are credited to the author in the team of the
    /// channel, and every player hears of it. When that solves the question,
    /// the question leaves the deck and every player hears of that too; then
    /// the operator is told that the game is over, and the game ends, or is
    /// given the answers of the next question.
    pub open spec fn on_message(self, channel: u64, author: u64, text: Seq<char>) -> (
        SessionModel,
        Seq<NotificationModel>,
    ) {
        if !(self.state is Started) {
            (self, Seq::empty())
        } else {
            match self.team_on(channel) {
                None => (self, Seq::empty()),
                Some(team) => if self.questions.len() == 0 {
                    (SessionModel { state: GameState::Ended, ..self }, Seq::empty())
                } else {
                    let normal = normalized(text);
                    let current = self.questions.last();
                    match current.matched(normal) {
                        None => (self, Seq::empty()),
                        Some((at, points)) => self.on_answer(team, author, normal, at),
                    }
                },
            }
        }
    }

    /// The session after each of the messages, a channel, an author and a
    /// text each, in order.
    pub open spec fn after_messages(self, messages: Seq<(u64, u64, Seq<char>)>) -> SessionModel
        decreases messages.len(),
    {
        if messages.len() == 0 {
            self
        } else {
            let last = messages.last();
            self.after_messages(messages.drop_last()).on_message(last.0, last.1, last.2).0
        }
    }

    /// The session after the author scored for the team at `team` with the
    /// answer `normal` to the slot at `at` of the current question, and what
    /// it announces.
    pub open spec fn on_answer(self, team: int, author: u64, normal: Seq<char>, at: int) -> (
        SessionModel,
        Seq<NotificationModel>,
    ) {
        let current = self.questions.last();
        let answered = current.after_match(at, normal);
        let scored = self.teams.update(
            team,
            self.teams[team].credited(author, current.slots[at].points()),
        );
        let everyone = AudienceModel::Channels(self.broadcast());
        let operator = AudienceModel::Channels(seq![self.admin_channel]);
        let found = NotificationModel {
            audience: everyone,
            message: MessageModel::AnswerFound {
                finder: author,
                answer: normal,
                team_total: scored[team].total_points,
            },
        };
        if !answered.solved() {
            (
                SessionModel {
                    teams: scored,
                    questions: self.questions.update(self.questions.len() - 1, answered),
                    ..self
                },
                seq![found],
            )
        } else {
            let rest = self.questions.drop_last();
            let finished = rest.len() == 0;
            let all_found = NotificationModel {
                audience: everyone,
                message: MessageModel::AllAnswersFound { finished },
            };
            if finished {
                (
                    SessionModel { teams: scored, questions: rest, state: GameState::Ended, ..self },
                    seq![
                        found,
                        all_found,
                        NotificationModel { audience: operator, message: MessageModel::GameFinished },
                    ],
                )
            } else {
                let next = SessionModel { teams: scored, questions: rest, ..self };
                (
                    next,
                    seq![
                        found,
                        all_found,
                        NotificationModel { audience: operator, message: next.answer_list() },
                    ],
                )
            }
        }
    }
}

/// A sequence without repetition has none after one element is removed.
pub proof fn lemma_swap_removed_no_duplicates<T>(s: Seq<T>, at: int)
    requires
        0 <= at < s.len(),
        s.no_duplicates(),
    ensures
        swap_removed(s, at).no_duplicates(),
        forall|x: T| #[trigger] swap_removed(s, at).contains(x) ==> s.contains(x) && x != s[at],
{
    let after = swap_removed(s, at);
    assert forall|i: int, j: int| 0 <= i < after.len() && 0 <= j < after.len() && i != j implies after[i] != after[j] by {
        let oi = if i == at { s.len() - 1 } else { i };
        let oj = if j == at { s.len() - 1 } else { j };
        assert(after[i] == s[oi]);
        assert(after[j] == s[oj]);
    }
    assert forall|x: T| #[trigger] after.contains(x) implies s.contains(x) && x != s[at] by {
        let i = choose|i: int| 0 <= i < after.len() && after[i] == x;
        let oi = if i == at { s.len() - 1 } else { i };
        assert(after[i] == s[oi]);
    }
}

/// A session made from a question set is well formed and has a current
/// question.
pub proof fn lemma_created_wf(admin_channel: u64, document: Seq<QuestionModel>)
    ensures
        SessionModel::created(admin_channel, document) matches Ok(s) ==> s.wf() && s.playable(),
{
    lemma_loaded_deck(document);
    if let Ok(s) = SessionModel::created(admin_channel, document) {
        assert(s.totals() =~= Seq::<nat>::empty());
    }
}

/// Adding a team keeps a session well formed.
pub proof fn lemma_with_team_wf(s: SessionModel, name: Seq<char>, channel: u64)
    requires
        s.wf(),
    ensures
        s.with_team(name, channel) matches Ok(t) ==> t.wf() && (s.playable() ==> t.playable()),
{
    if let Ok(t) = s.with_team(name, channel) {
        let fresh = TeamModel::fresh(name, channel);
        assert(t.channels() =~= s.channels().push(channel));
        assert(t.names() =~= s.names().push(name));
        assert(t.totals() =~= s.totals().push(0));
        lemma_sum_push(s.totals(), 0);
        lemma_fresh_team(name, channel);
        assert forall|i: int| 0 <= i < t.teams.len() implies (#[trigger] t.teams[i]).wf() by {
            if i < s.teams.len() {
                assert(s.teams[i].wf());
            }
        }
    }
}

/// Removing a team keeps a session well formed, keeps every other team as it
/// was, and keeps no team twice.
pub proof fn lemma_without_team_wf(s: SessionModel, name: Seq<char>)
    requires
        s.wf(),
    ensures
        s.without_team(name) matches Ok(t) ==> {
            &&& t.wf()
            &&& (s.playable() ==> t.playable())
            &&& t.teams.len() == s.teams.len() - 1
            &&& !t.names().contains(name)
            &&& forall|i: int|
                0 <= i < s.teams.len() && s.teams[i].name != name ==> t.teams.contains(
                    #[trigger] s.teams[i],
                )
            &&& forall|i: int| 0 <= i < t.teams.len() ==> s.teams.contains(#[trigger] t.teams[i])
        },
{
    if let Ok(t) = s.without_team(name) {
        s.names().index_of_first_ensures(name);
        let at = s.team_named(name)->0;
        assert(t.channels() =~= swap_removed(s.channels(), at));
        assert(t.names() =~= swap_removed(s.names(), at));
        assert(t.totals() =~= swap_removed(s.totals(), at));
        lemma_swap_removed_no_duplicates(s.channels(), at);
        lemma_swap_removed_no_duplicates(s.names(), at);
        lemma_sum_swap_removed(s.totals(), at);
        assert forall|i: int| 0 <= i < t.teams.len() implies (#[trigger] t.teams[i]).wf()
            && s.teams.contains(t.teams[i]) by {
            let oi = if i == at { s.teams.len() - 1 } else { i };
            assert(t.teams[i] == s.teams[oi]);
            assert(s.teams[oi].wf());
        }
        assert forall|i: int| 0 <= i < s.teams.len() && s.teams[i].name != name implies t.teams.contains(
            #[trigger] s.teams[i],
        ) by {
            assert(s.names()[i] == s.teams[i].name);
            if i == s.teams.len() - 1 {
                assert(t.teams[at] == s.teams[i]);
            } else {
                assert(t.teams[i] == s.teams[i]);
            }
        }
    }
}

/// Taking the current question off the deck keeps a session well formed.
pub proof fn lemma_drop_current_wf(s: SessionModel)
    requires
        s.wf(),
        s.questions.len() > 0,
    ensures
        (SessionModel { questions: s.questions.drop_last(), ..s }).wf(),
        deck_worth(s.questions.drop_last()) + s.questions.last().worth() == deck_worth(
            s.questions,
        ),
{
    let t = SessionModel { questions: s.questions.drop_last(), ..s };
    let each = s.questions.map_values(|q: QuestionModel| q.worth());
    assert(t.questions.map_values(|q: QuestionModel| q.worth()) =~= each.drop_last());
    assert(t.channels() =~= s.channels());
    assert(t.names() =~= s.names());
    assert(t.totals() =~= s.totals());
    assert forall|i: int| 0 <= i < t.questions.len() implies (#[trigger] t.questions[i]).wf() by {
        assert(s.questions[i].wf());
    }
}

/// A message keeps a session well formed, and a session that has a current
/// question while it runs keeps one.
pub proof fn lemma_on_message_wf(s: SessionModel, channel: u64, author: u64, text: Seq<char>)
    requires
        s.wf(),
    ensures
        s.on_message(channel, author, text).0.wf(),
        s.playable() ==> s.on_message(channel, author, text).0.playable(),
{
    let after = s.on_message(channel, author, text).0;
    if s.state is Started && s.team_on(channel) is Some && s.questions.len() > 0 {
        let team = s.team_on(channel)->0;
        let normal = normalized(text);
        let current = s.questions.last();
        s.channels().index_of_first_ensures(channel);
        if let Some((at, points)) = current.matched(normal) {
            current.acceptance(normal).index_of_first_ensures(true);
            let at = current.acceptance(normal).index_of_first(true)->0;
            lemma_answer_wf(s, team, author, normal, at);
        } else {
            assert(after == s);
        }
    } else if s.state is Started && s.team_on(channel) is Some {
        assert(after.channels() =~= s.channels());
        assert(after.names() =~= s.names());
        assert(after.totals() =~= s.totals());
    } else {
        assert(after == s);
    }
}

/// An answer that the current question accepts moves its points from the
/// deck to the team, and keeps a session well formed.
pub proof fn lemma_answer_wf(s: SessionModel, team: int, author: u64, normal: Seq<char>, at: int)
    requires
        s.wf(),
        0 <= team < s.teams.len(),
        s.questions.len() > 0,
        0 <= at < s.questions.last().slots.len(),
        s.questions.last().slots[at].accepts(normal),
    ensures
        s.teams[team].total_points + s.questions.last().slots[at].points() <= u64::MAX,
        s.on_answer(team, author, normal, at).0.wf(),
        !(s.state is Ended) ==> s.on_answer(team, author, normal, at).0.playable(),
        sum(s.on_answer(team, author, normal, at).0.totals()) + deck_worth(
            s.on_answer(team, author, normal, at).0.questions,
        ) <= sum(s.totals()) + deck_worth(s.questions),
{
    let current = s.questions.last();
    let last = s.questions.len() - 1;
    let points = current.slots[at].points();
    let answered = current.after_match(at, normal);
    let after = s.on_answer(team, author, normal, at).0;
    let each = s.questions.map_values(|q: QuestionModel| q.worth());
    lemma_match_takes_points(current, at, normal);
    lemma_match_keeps_wf(current, at, normal);
    assert(s.questions[last].wf());
    lemma_sum_bounds(each, last);
    lemma_sum_bounds(s.totals(), team);
    assert(s.teams[team].wf());
    let credited = s.teams[team].credited(author, points);
    lemma_credit_keeps_total(s.teams[team], author, points);
    assert(after.channels() =~= s.channels());
    assert(after.names() =~= s.names());
    assert(after.totals() =~= s.totals().update(team, credited.total_points as nat));
    lemma_sum_update(s.totals(), team, credited.total_points as nat);
    assert forall|i: int| 0 <= i < after.teams.len() implies (#[trigger] after.teams[i]).wf() by {
        if i != team {
            assert(s.teams[i].wf());
        }
    }
    let with_answer = s.questions.update(last, answered);
    assert(with_answer.map_values(|q: QuestionModel| q.worth()) =~= each.update(
        last,
        answered.worth(),
    ));
    lemma_sum_update(each, last, answered.worth());
    assert(deck_wf(with_answer)) by {
        assert forall|i: int| 0 <= i < with_answer.len() implies (#[trigger] with_answer[i]).wf() by {
            if i != last {
                assert(s.questions[i].wf());
            }
        }
    }
    if answered.solved() {
        let middle = SessionModel { teams: after.teams, questions: with_answer, ..s };
        assert(middle.channels() =~= s.channels());
        assert(middle.names() =~= s.names());
        assert(middle.totals() =~= after.totals());
        assert(middle.wf());
        lemma_drop_current_wf(middle);
        assert(with_answer.drop_last() =~= s.questions.drop_last());
    }
}

impl GuildConfig {
    /// Makes the session of a question set, given in the order in which it is
    /// to be played. The set is loaded: texts in normal form, group sizes
    /// set, the first question put last. An empty set is refused, and so is
    /// one that is worth more points than a score can hold.
    pub fn new(admin_channel: u64, document: &Vec<Question>) -> (made: Result<
        GuildConfig,
        GameError,
    >)
        ensures
            SessionModel::created(admin_channel, document.deep_view()) == (match made {
                Ok(session) => Ok(session@),
                Err(reason) => Err(reason),
            }),
            made matches Ok(session) ==> session@.wf() && session@.playable(),
    {
        if document.len() == 0 {
            return Err(GameError::EmptyQuestionSet);
        }
        let questions = load_deck(document);
        proof {
            lemma_created_wf(admin_channel, document.deep_view());
        }
        match checked_deck_worth(&questions) {
            None => Err(GameError::QuestionSetTooLarge),
            Some(_) => {
                let teams: Vec<Team> = Vec::new();
                assert(teams.deep_view() =~= Seq::<TeamModel>::empty());
                Ok(GuildConfig { teams, admin_channel, state: GameState::Configuring, questions })
            },
        }
    }

    /// The index of the team that answers in `channel`.
    pub fn team_on(&self, channel: u64) -> (found: Option<usize>)
        ensures
            match found {
                Some(at) => at < self.teams.len() && self@.team_on(channel) == Some(at as int),
                None => self@.team_on(channel) is None,
            },
            found is Some <==> self@.channels().contains(channel),
    {
        let ghost channels = self@.channels();
        let mut i: usize = 0;
        while i < self.teams.len()
            invariant
                i <= self.teams.len(),
                channels == self@.channels(),
                forall|j: int| 0 <= j < i ==> channels[j] != channel,
            decreases self.teams.len() - i,
        {
            if self.teams[i].channel == channel {
                proof {
                    lemma_first_index(channels, channel, i as int);
                }
                return Some(i);
            }
            i += 1;
        }
        proof {
            lemma_no_index(channels, channel);
        }
        None
    }

    /// The index of the team called `name`.
    pub fn team_named(&self, name: &String) -> (found: Option<usize>)
        ensures
            match found {
                Some(at) => at < self.teams.len() && self@.team_named(name@) == Some(at as int),
                None => self@.team_named(name@) is None,
            },
            found is Some <==> self@.names().contains(name@),
    {
        let ghost names = self@.names();
        let mut i: usize = 0;
        while i < self.teams.len()
            invariant
                i <= self.teams.len(),
                names == self@.names(),
                forall|j: int| 0 <= j < i ==> names[j] != name@,
            decreases self.teams.len() - i,
        {
            if self.teams[i].name == *name {
                proof {
                    lemma_first_index(names, name@, i as int);
                }
                return Some(i);
            }
            i += 1;
        }
        proof {
            lemma_no_index(names, name@);
        }
        None
    }

    /// The channels that hear what concerns every player: the team channels
    /// in the order of the teams, then the operator's channel.
    pub fn broadcast_channels(&self) -> (channels: Vec<u64>)
        ensures
            channels@ == self@.broadcast(),
    {
        let mut channels: Vec<u64> = Vec::new();
        let mut i: usize = 0;
        while i < self.teams.len()
            invariant
                i <= self.teams.len(),
                channels.len() == i,
                forall|j: int| 0 <= j < i ==> channels[j] == self@.channels()[j],
            decreases self.teams.len() - i,
        {
            channels.push(self.teams[i].channel);
            i += 1;
        }
        channels.push(self.admin_channel);
        assert(channels@ =~= self@.broadcast());
        channels
    }

    /// The current question: the last of the deck.
    pub fn current(&self) -> (current: Option<&Question>)
        ensures
            match current {
                Some(question) => self.questions.len() > 0 && question@
                    == self@.questions.last(),
                None => self.questions.len() == 0,
            },
    {
        if self.questions.len() == 0 {
            None
        } else {
            Some(&self.questions[self.questions.len() - 1])
        }
    }

    /// Tells whether there is a current question with no open slot.
    pub fn is_current_solved(&self) -> (yes: bool)
        ensures
            yes == (self@.questions.len() > 0 && self@.questions.last().solved()),
    {
        match self.current() {
            Some(question) => question.is_solved(),
            None => false,
        }
    }

    /// Takes the current question off the deck and returns it; `None` where
    /// the deck is empty.
    pub fn advance(&mut self) -> (taken: Option<Question>)
        ensures
            match taken {
                Some(question) => old(self)@.questions.len() > 0 && question@
                    == old(self)@.questions.last() && final(self)@ == (SessionModel {
                    questions: old(self)@.questions.drop_last(),
                    ..old(self)@
                }),
                None => old(self)@.questions.len() == 0 && final(self)@ == old(self)@,
            },
            old(self)@.wf() ==> final(self)@.wf(),
    {
        proof {
            if self@.wf() && self@.questions.len() > 0 {
                lemma_drop_current_wf(self@);
            }
        }
        let taken = self.questions.pop();
        assert(self.questions.deep_view() =~= old(self).questions.deep_view().drop_last()
            || taken is None);
        taken
    }

    /// The accepted answers of the current question, slot by slot, and the
    /// number of questions that follow it.
    pub fn answer_list(&self) -> (list: Message)
        requires
            self.questions.len() > 0,
        ensures
            list@ == self@.answer_list(),
    {
        let current = &self.questions[self.questions.len() - 1];
        Message::AnswerList {
            question: current.name.clone(),
            answers: current.disclose(),
            remaining: self.questions.len() - 1,
        }
    }

    /// Tells whether a team called `name` that answers in `channel` can be
    /// added, and if not, why.
    pub fn check_team(&self, name: &String, channel: u64) -> (checked: Result<(), GameError>)
        ensures
            match checked {
                Ok(_) => self@.with_team(name@, channel) is Ok,
                Err(reason) => self@.with_team(name@, channel) == Err::<SessionModel, GameError>(
                    reason,
                ),
            },
    {
        if self.team_on(channel).is_some() {
            return Err(GameError::DuplicateChannel);
        }
        if self.team_named(name).is_some() {
            return Err(GameError::DuplicateName);
        }
        Ok(())
    }

    /// Adds a team that answers in `channel`. A channel that a team already
    /// answers in is refused, then a name that a team already has.
    pub fn add_team(&mut self, name: String, channel: u64) -> (added: Result<(), GameError>)
        ensures
            old(self)@.with_team(name@, channel) == (match added {
                Ok(_) => Ok(final(self)@),
                Err(reason) => Err(reason),
            }),
            added is Err ==> final(self)@ == old(self)@,
            old(self)@.wf() ==> final(self)@.wf(),
            old(self)@.playable() ==> final(self)@.playable(),
    {
        proof {
            if self@.wf() {
                lemma_with_team_wf(self@, name@, channel);
            }
        }
        match self.check_team(&name, channel) {
            Err(reason) => {
                return Err(reason);
            },
            Ok(_) => {},
        }
        let ghost fresh = TeamModel::fresh(name@, channel);
        self.teams.push(Team::new(name, channel));
        assert(self.teams.deep_view() =~= old(self).teams.deep_view().push(fresh));
        Ok(())
    }

    /// Removes the team called `name`. The last team takes its place, so the
    /// order of the teams is not kept.
    pub fn remove_team(&mut self, name: &str) -> (removed: Result<(), GameError>)
        ensures
            old(self)@.without_team(name@) == (match removed {
                Ok(_) => Ok(final(self)@),
                Err(reason) => Err(reason),
            }),
            removed is Err ==> final(self)@ == old(self)@,
            old(self)@.wf() ==> final(self)@.wf(),
            old(self)@.playable() ==> final(self)@.playable(),
    {
        proof {
            if self@.wf() {
                lemma_without_team_wf(self@, name@);
            }
        }
        let wanted = name.to_owned();
        match self.team_named(&wanted) {
            None => Err(GameError::NoTeam),
            Some(at) => {
                self.teams.swap_remove(at);
                assert(self.teams.deep_view() =~= swap_removed(
                    old(self).teams.deep_view(),
                    at as int,
                ));
                Ok(())
            },
        }
    }

    /// Starts the game. It must be in configuration, and have a team. Every
    /// player is told that the game starts, and the operator is given the
    /// answers of the current question.
    pub fn start(&mut self) -> (announced: Result<Vec<Notification>, GameError>)
        requires
            old(self)@.playable(),
        ensures
            old(self)@.started() == (match announced {
                Ok(notices) => Ok((final(self)@, notices.deep_view())),
                Err(reason) => Err(reason),
            }),
            announced is Err ==> final(self)@ == old(self)@,
            old(self)@.wf() ==> final(self)@.wf(),
            final(self)@.playable(),
    {
        match self.state {
            GameState::Configuring => {},
            _ => {
                return Err(GameError::InvalidState);
            },
        }
        if self.teams.len() == 0 {
            return Err(GameError::NoTeams);
        }
        self.state = GameState::Started;
        let mut notices: Vec<Notification> = Vec::new();
        notices.push(
            Notification {
                audience: Audience::Channels(self.broadcast_channels()),
                message: Message::GameStarting,
            },
        );
        notices.push(Notification { audience: Audience::Operator, message: self.answer_list() });
        proof {
            assert(self@.channels() =~= old(self)@.channels());
            assert(self@.names() =~= old(self)@.names());
            assert(self@.totals() =~= old(self)@.totals());
            assert(notices.deep_view() =~= old(self)@.started()->Ok_0.1);
        }
        Ok(notices)
    }

    /// Ends the game, whatever is left of the deck.
    pub fn end(&mut self) -> (ended: Result<(), GameError>)
        ensures
            old(self)@.ended() == (match ended {
                Ok(_) => Ok(final(self)@),
                Err(reason) => Err(reason),
            }),
            ended is Err ==> final(self)@ == old(self)@,
            old(self)@.wf() ==> final(self)@.wf(),
            final(self)@.playable(),
    {
        match self.state {
            GameState::Ended => Err(GameError::AlreadyEnded),
            _ => {
                self.state = GameState::Ended;
                proof {
                    assert(self@.channels() =~= old(self)@.channels());
                    assert(self@.names() =~= old(self)@.names());
                    assert(self@.totals() =~= old(self)@.totals());
                }
                Ok(())
            },
        }
    }

    /// Takes a message that `author` wrote in `channel`, and returns what is
    /// to be announced, in order.
    pub fn handle_message(&mut self, channel: u64, author: u64, text: &str) -> (notices: Vec<
        Notification,
    >)
        requires
            old(self)@.wf(),
        ensures
            (final(self)@, notices.deep_view()) == old(self)@.on_message(channel, author, text@),
            final(self)@.wf(),
            old(self)@.playable() ==> final(self)@.playable(),
    {
        let mut notices: Vec<Notification> = Vec::new();
        proof {
            lemma_on_message_wf(self@, channel, author, text@);
            assert(notices.deep_view() =~= Seq::<NotificationModel>::empty());
        }
        match self.state {
            GameState::Started => {},
            _ => {
                return notices;
            },
        }
        let team = match self.team_on(channel) {
            Some(team) => team,
            None => {
                return notices;
            },
        };
        if self.questions.len() == 0 {
            self.state = GameState::Ended;
            return notices;
        }
        let normal = Question::normalize_string(text);
        let last = self.questions.len() - 1;
        let (at, points) = match self.questions[last].find_slot(&normal) {
            Some(found) => found,
            None => {
                return notices;
            },
        };
        let ghost before = self@;
        let ghost current = before.questions.last();
        proof {
            current.acceptance(normal@).index_of_first_ensures(true);
            lemma_answer_wf(before, team as int, author, normal@, at as int);
            assert(before.teams[team as int].wf());
        }
        self.questions[last].consume_match(at, &normal);
        self.teams[team].credit(author, points);
        let team_total = self.teams[team].total_points;
        proof {
            assert(self.questions.deep_view() =~= before.questions.update(
                last as int,
                current.after_match(at as int, normal@),
            ));
            assert(self.teams.deep_view() =~= before.teams.update(
                team as int,
                before.teams[team as int].credited(author, points),
            ));
            assert(self@.channels() =~= before.channels());
        }
        notices.push(
            Notification {
                audience: Audience::Channels(self.broadcast_channels()),
                message: Message::AnswerFound { finder: author, answer: normal, team_total },
            },
        );
        if self.questions[last].is_solved() {
            self.advance();
            let finished = self.questions.len() == 0;
            notices.push(
                Notification {
                    audience: Audience::Channels(self.broadcast_channels()),
                    message: Message::AllAnswersFound { finished },
                },
            );
            proof {
                assert(self.questions.deep_view() =~= before.questions.drop_last());
            }
            let mut operator: Vec<u64> = Vec::new();
            operator.push(self.admin_channel);
            if finished {
                self.state = GameState::Ended;
                notices.push(
                    Notification {
                        audience: Audience::Channels(operator),
                        message: Message::GameFinished,
                    },
                );
            } else {
                notices.push(
                    Notification {
                        audience: Audience::Channels(operator),
                        message: self.answer_list(),
                    },
                );
            }
            proof {
                assert(self@.channels() =~= before.channels());
                assert(notices.deep_view() =~= before.on_answer(
                    team as int,
                    author,
                    normal@,
                    at as int,
                ).1);
            }
        } else {
            proof {
                assert(notices.deep_view() =~= before.on_answer(
                    team as int,
                    author,
                    normal@,
                    at as int,
                ).1);
            }
        }
        notices
    }

    /// For each team, in the order of the teams: its name, its total in
    /// halves of a point, and the `limit` users with the lowest points,
    /// lowest first.
    pub fn standings(&self, limit: usize) -> (table: Vec<(String, u64, Vec<(u64, u64)>)>)
        ensures
            table.len() == self.teams.len(),
            forall|i: int|
                0 <= i < table.len() ==> {
                    &&& (#[trigger] table[i]).0@ == self@.teams[i].name
                    &&& table[i].1 == self@.teams[i].total_points
                    &&& self@.teams[i].is_ranking(table[i].2@, limit as nat)
                },
    {
        let mut table: Vec<(String, u64, Vec<(u64, u64)>)> = Vec::new();
        let mut i: usize = 0;
        while i < self.teams.len()
            invariant
                i <= self.teams.len(),
                table.len() == i,
                forall|j: int|
                    0 <= j < i ==> {
                        &&& (#[trigger] table[j]).0@ == self@.teams[j].name
                        &&& table[j].1 == self@.teams[j].total_points
                        &&& self@.teams[j].is_ranking(table[j].2@, limit as nat)
                    },
            decreases self.teams.len() - i,
        {
            let team = &self.teams[i];
            table.push((team.name.clone(), team.total_points, team.ranked_view(limit)));
            i += 1;
        }
        table
    }
}

/// A message changes nothing and announces nothing where the game is not
/// started, where no team answers in its channel, or where no slot of the
/// current question accepts its normal form.
pub proof fn lemma_message_without_effect(
    s: SessionModel,
    channel: u64,
    author: u64,
    text: Seq<char>,
)
    requires
        !(s.state is Started) || !s.channels().contains(channel) || (s.questions.len() > 0
            && s.questions.last().matched(normalized(text)) is None),
    ensures
        s.on_message(channel, author, text) == (s, Seq::<NotificationModel>::empty()),
{
    s.channels().index_of_first_ensures(channel);
}

/// A message that scores leaves the game running or ended, and moves
/// exactly the points of its slot from the deck to the author and to the
/// team of its channel; every other team, and every other user of that
/// team, has what it had.
pub proof fn lemma_message_scores(s: SessionModel, channel: u64, author: u64, text: Seq<char>)
    requires
        s.wf(),
        s.state is Started,
        s.team_on(channel) is Some,
        s.questions.len() > 0,
        s.questions.last().matched(normalized(text)) is Some,
    ensures
        ({
            let after = s.on_message(channel, author, text).0;
            let team = s.team_on(channel)->0;
            let found = s.questions.last().matched(normalized(text))->0;
            let points = found.1;
            &&& 0 <= team < s.teams.len()
            &&& after.teams.len() == s.teams.len()
            &&& after.teams[team].total_points == s.teams[team].total_points + points
            &&& after.teams[team].points_of(author) == s.teams[team].points_of(author) + points
            &&& forall|other: u64|
                other != author ==> after.teams[team].points_of(other) == s.teams[team].points_of(
                    other,
                )
            &&& forall|i: int| 0 <= i < s.teams.len() && i != team ==> after.teams[i] == s.teams[i]
            &&& sum(after.totals()) + deck_worth(after.questions) <= sum(s.totals()) + deck_worth(
                s.questions,
            )
            &&& sum(after.totals()) == sum(s.totals()) + points
        }),
{
    let normal = normalized(text);
    let current = s.questions.last();
    let team = s.team_on(channel)->0;
    s.channels().index_of_first_ensures(channel);
    current.acceptance(normal).index_of_first_ensures(true);
    let at = current.acceptance(normal).index_of_first(true)->0;
    let points = current.slots[at].points();
    lemma_answer_wf(s, team, author, normal, at);
    assert(s.teams[team].wf());
    lemma_credit_keeps_total(s.teams[team], author, points);
    let after = s.on_message(channel, author, text).0;
    assert(after.totals() =~= s.totals().update(
        team,
        (s.teams[team].total_points + points) as nat,
    ));
    lemma_sum_update(s.totals(), team, (s.teams[team].total_points + points) as nat);
}

/// The same answer scores once: after a message has scored with a text that
/// stands once in the current question, and the question is still open, a
/// second message with the same text, from whomever and in whichever
/// channel, changes nothing and announces nothing.
pub proof fn lemma_second_message_scores_nothing(
    s: SessionModel,
    channel: u64,
    author: u64,
    other_channel: u64,
    other_author: u64,
    text: Seq<char>,
)
    requires
        s.state is Started,
        s.team_on(channel) is Some,
        s.questions.len() > 0,
        s.questions.last().matched(normalized(text)) is Some,
        ({
            let current = s.questions.last();
            let found = current.matched(normalized(text))->0;
            let at = found.0;
            &&& forall|j: int|
                0 <= j < current.slots.len() && j != at ==> !(#[trigger] current.slots[j]).accepts(
                    normalized(text),
                )
            &&& current.slots[at] matches AnswerModel::Group(aliases, _) ==> forall|i: int, j: int|
                0 <= i < j < aliases.len() ==> !(aliases[i] == normalized(text) && aliases[j]
                    == normalized(text))
            &&& !current.after_match(at, normalized(text)).solved()
        }),
    ensures
        ({
            let first = s.on_message(channel, author, text).0;
            first.on_message(other_channel, other_author, text) == (
                first,
                Seq::<NotificationModel>::empty(),
            )
        }),
{
    let normal = normalized(text);
    let current = s.questions.last();
    current.acceptance(normal).index_of_first_ensures(true);
    let at = current.acceptance(normal).index_of_first(true)->0;
    lemma_answer_scores_once(current, at, normal);
    let first = s.on_message(channel, author, text).0;
    assert(first.questions.last() == current.after_match(at, normal));
    lemma_message_without_effect(first, other_channel, other_author, text);
}

/// Removing a team leaves the messages of every other team with the team
/// they went to: a channel of another team is still the channel of that
/// team, which is as it was, and the channel of the removed team is the
/// channel of no team.
pub proof fn lemma_without_team_routes(s: SessionModel, name: Seq<char>, channel: u64)
    requires
        s.wf(),
        s.without_team(name) is Ok,
    ensures
        ({
            let t = s.without_team(name)->Ok_0;
            match s.team_on(channel) {
                Some(at) => if s.teams[at].name == name {
                    t.team_on(channel) is None
                } else {
                    t.team_on(channel) is Some && t.teams[t.team_on(channel)->0] == s.teams[at]
                },
                None => t.team_on(channel) is None,
            }
        }),
{
    let t = s.without_team(name)->Ok_0;
    s.names().index_of_first_ensures(name);
    s.channels().index_of_first_ensures(channel);
    t.channels().index_of_first_ensures(channel);
    let gone = s.team_named(name)->0;
    assert(t.channels() =~= swap_removed(s.channels(), gone));
    lemma_swap_removed_no_duplicates(s.channels(), gone);
    match s.team_on(channel) {
        Some(at) => {
            assert(s.names()[at] == s.teams[at].name);
            assert(s.names()[gone] == name);
            if s.teams[at].name == name {
                assert(at == gone);
                if t.channels().contains(channel) {
                    assert(channel != s.channels()[gone]);
                }
            } else {
                let to = if at == s.teams.len() - 1 {
                    gone
                } else {
                    at
                };
                assert(t.teams[to] == s.teams[at]);
                assert(t.channels()[to] == channel);
                let found = t.team_on(channel)->0;
                assert(t.channels()[found] == channel);
                assert(found == to);
            }
        },
        None => {
            if t.channels().contains(channel) {
                assert(s.channels().contains(channel));
            }
        },
    }
}

/// After any messages, from any channels and authors, a session is well
/// formed: the total of every team is the sum of its users' points, no two
/// teams share a name or a channel, and the points of the teams and of the
/// deck together have not grown.
pub proof fn lemma_messages_keep_wf(s: SessionModel, messages: Seq<(u64, u64, Seq<char>)>)
    requires
        s.wf(),
    ensures
        s.after_messages(messages).wf(),
        s.playable() ==> s.after_messages(messages).playable(),
        forall|i: int|
            0 <= i < s.after_messages(messages).teams.len() ==> (#[trigger] s.after_messages(
                messages,
            ).teams[i]).total_points == map_sum(s.after_messages(messages).teams[i].leaderboard),
    decreases messages.len(),
{
    if messages.len() > 0 {
        let last = messages.last();
        lemma_messages_keep_wf(s, messages.drop_last());
        lemma_on_message_wf(s.after_messages(messages.drop_last()), last.0, last.1, last.2);
    }
    let after = s.after_messages(messages);
    assert forall|i: int| 0 <= i < after.teams.len() implies (#[trigger] after.teams[i]).total_points
        == map_sum(after.teams[i].leaderboard) by {
        assert(after.teams[i].wf());
    }
}

/// Of any number of messages with the same text, the first alone scores:
/// where the text stands once in the current question, and the question is
/// still open after it, the session after all the messages is the session
/// after the first.
pub proof fn lemma_same_answer_scores_once(
    s: SessionModel,
    messages: Seq<(u64, u64, Seq<char>)>,
    text: Seq<char>,
)
    requires
        messages.len() > 0,
        forall|i: int| 0 <= i < messages.len() ==> (#[trigger] messages[i]).2 == text,
        s.state is Started,
        s.team_on(messages[0].0) is Some,
        s.questions.len() > 0,
        s.questions.last().matched(normalized(text)) is Some,
        ({
            let current = s.questions.last();
            let found = current.matched(normalized(text))->0;
            let at = found.0;
            &&& forall|j: int|
                0 <= j < current.slots.len() && j != at ==> !(#[trigger] current.slots[j]).accepts(
                    normalized(text),
                )
            &&& current.slots[at] matches AnswerModel::Group(aliases, _) ==> forall|i: int, j: int|
                0 <= i < j < aliases.len() ==> !(aliases[i] == normalized(text) && aliases[j]
                    == normalized(text))
            &&& !current.after_match(at, normalized(text)).solved()
        }),
    ensures
        s.after_messages(messages) == s.on_message(messages[0].0, messages[0].1, text).0,
    decreases messages.len(),
{
    let first = messages[0];
    if messages.len() == 1 {
        assert(messages.drop_last().len() == 0);
        assert(s.after_messages(messages.drop_last()) == s);
    } else {
        let before = messages.drop_last();
        let last = messages.last();
        assert(before[0] == first);
        assert forall|i: int| 0 <= i < before.len() implies (#[trigger] before[i]).2 == text by {
            assert(before[i] == messages[i]);
        }
        lemma_same_answer_scores_once(s, before, text);
        lemma_second_message_scores_nothing(s, first.0, first.1, last.0, last.1, text);
    }
}

} // verus!
