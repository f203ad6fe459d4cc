//! The games of all communities.
//!
//! Each community has at most one game. Every operation names the community
//! and works on its game alone: the games of the other communities are never
//! touched. Every game in the registry is well formed, and has a current
//! question until it ends.
use crate::error::GameError;
use crate::notice::{Notification, NotificationModel};
use crate::question::{Question, QuestionModel};
use crate::session::{GameState, GuildConfig, SessionModel};
use std::collections::HashMap;
use vstd::prelude::*;
use vstd::std_specs::hash::group_hash_axioms;

verus! {

/// The games, by community.
pub struct Data {
    games: HashMap<u64, GuildConfig>,
}

impl View for Data {
    type V = Map<u64, SessionModel>;

    closed spec fn view(&self) -> Map<u64, SessionModel> {
        self.games@.map_values(|session: GuildConfig| session@)
    }
}

/// Every game is well formed, and has a current question until it ends.
pub open spec fn all_sound(games: Map<u64, SessionModel>) -> bool {
    forall|guild: u64| #[trigger]
        games.contains_key(guild) ==> games[guild].wf() && games[guild].playable()
}

impl Data {
    #[verifier::type_invariant]
    spec fn sound(self) -> bool {
        all_sound(self@)
    }

    /// No community has a game.
    pub fn new() -> (data: Data)
        ensures
            data@ == Map::<u64, SessionModel>::empty(),
    {
        broadcast use group_hash_axioms;

        let games: HashMap<u64, GuildConfig> = HashMap::new();
        assert(games@.map_values(|session: GuildConfig| session@) =~= Map::<
            u64,
            SessionModel,
        >::empty());
        Data { games }
    }

    /// Tells whether the community has a game.
    pub fn contains(&self, guild: u64) -> (yes: bool)
        ensures
            yes == self@.contains_key(guild),
    {
        broadcast use group_hash_axioms;

        self.games.contains_key(&guild)
    }

    /// The game of the community.
    pub fn session(&self, guild: u64) -> (found: Option<&GuildConfig>)
        ensures
            all_sound(self@),
            match found {
                Some(session) => self@.contains_key(guild) && session@ == self@[guild],
                None => !self@.contains_key(guild),
            },
    {
        broadcast use group_hash_axioms;

        proof {
            use_type_invariant(self);
        }
        self.games.get(&guild)
    }

    /// Takes the game of the community out of the registry.
    fn take(&mut self, guild: u64) -> (found: Option<GuildConfig>)
        ensures
            all_sound(old(self)@),
            final(self)@ == old(self)@.remove(guild),
            match found {
                Some(session) => old(self)@.contains_key(guild) && session@ == old(self)@[guild],
                None => !old(self)@.contains_key(guild),
            },
    {
        broadcast use group_hash_axioms;

        proof {
            use_type_invariant(&*self);
        }
        let mut games: HashMap<u64, GuildConfig> = HashMap::new();
        assert(games@.map_values(|session: GuildConfig| session@) =~= Map::<
            u64,
            SessionModel,
        >::empty());
        core::mem::swap(&mut self.games, &mut games);
        let found = games.remove(&guild);
        assert(games@.map_values(|session: GuildConfig| session@) =~= old(
            self,
        ).games@.map_values(|session: GuildConfig| session@).remove(guild));
        core::mem::swap(&mut self.games, &mut games);
        assert(self.games@.map_values(|session: GuildConfig| session@) =~= old(
            self,
        ).games@.map_values(|session: GuildConfig| session@).remove(guild));
        found
    }

    /// Puts a game into the registry.
    fn put(&mut self, guild: u64, session: GuildConfig)
        requires
            session@.wf(),
            session@.playable(),
        ensures
            final(self)@ == old(self)@.insert(guild, session@),
    {
        broadcast use group_hash_axioms;

        proof {
            use_type_invariant(&*self);
        }
        let mut games: HashMap<u64, GuildConfig> = HashMap::new();
        assert(games@.map_values(|session: GuildConfig| session@) =~= Map::<
            u64,
            SessionModel,
        >::empty());
        core::mem::swap(&mut self.games, &mut games);
        let ghost model = session@;
        games.insert(guild, session);
        assert(games@.map_values(|session: GuildConfig| session@) =~= old(
            self,
        ).games@.map_values(|session: GuildConfig| session@).insert(guild, model));
        core::mem::swap(&mut self.games, &mut games);
        assert(self.games@.map_values(|session: GuildConfig| session@) =~= old(
            self,
        ).games@.map_values(|session: GuildConfig| session@).insert(guild, model));
    }
}

/// The games after a game was made for a community from a question set, or
/// why none was made.
pub open spec fn created_in(
    games: Map<u64, SessionModel>,
    guild: u64,
    admin_channel: u64,
    document: Seq<QuestionModel>,
) -> Result<Map<u64, SessionModel>, GameError> {
    if games.contains_key(guild) {
        Err(GameError::AlreadyExists)
    } else {
        match SessionModel::created(admin_channel, document) {
            Ok(session) => Ok(games.insert(guild, session)),
            Err(reason) => Err(reason),
        }
    }
}

/// The games after the game of a community was deleted, or why it was not.
pub open spec fn deleted_from(games: Map<u64, SessionModel>, guild: u64) -> Result<
    Map<u64, SessionModel>,
    GameError,
> {
    if !games.contains_key(guild) {
        Err(GameError::NoSession)
    } else if !(games[guild].state is Ended) {
        Err(GameError::NotEnded)
    } else {
        Ok(games.remove(guild))
    }
}

/// The games after an operation on the game of a community, given what the
/// operation makes of that game; a community without a game is refused.
pub open spec fn changed_in(
    games: Map<u64, SessionModel>,
    guild: u64,
    outcome: Result<SessionModel, GameError>,
) -> Result<Map<u64, SessionModel>, GameError> {
    if !games.contains_key(guild) {
        Err(GameError::NoSession)
    } else {
        match outcome {
            Ok(session) => Ok(games.insert(guild, session)),
            Err(reason) => Err(reason),
        }
    }
}

/// The games after the game of a community was started, with what it
/// announces, or why it was not started.
pub open spec fn started_in(games: Map<u64, SessionModel>, guild: u64) -> Result<
    (Map<u64, SessionModel>, Seq<NotificationModel>),
    GameError,
> {
    if !games.contains_key(guild) {
        Err(GameError::NoSession)
    } else {
        match games[guild].started() {
            Ok((session, notices)) => Ok((games.insert(guild, session), notices)),
            Err(reason) => Err(reason),
        }
    }
}

/// The games after a message in a community, and what is announced. A
/// community without a game hears nothing.
pub open spec fn message_in(
    games: Map<u64, SessionModel>,
    guild: u64,
    channel: u64,
    author: u64,
    text: Seq<char>,
) -> (Map<u64, SessionModel>, Seq<NotificationModel>) {
    if !games.contains_key(guild) {
        (games, Seq::empty())
    } else {
        let step = games[guild].on_message(channel, author, text);
        (games.insert(guild, step.0), step.1)
    }
}

impl Data {
    /// Makes the game of a community from a question set, given in the order
    /// in which it is to be played. A community that has a game is refused,
    /// then an empty set, then a set worth more than a score can hold.
    pub fn create(
        &mut self,
        guild: u64,
        admin_channel: u64,
        document: &Vec<Question>,
    ) -> (created: Result<(), GameError>)
        ensures
            created_in(old(self)@, guild, admin_channel, document.deep_view()) == (match created {
                Ok(_) => Ok(final(self)@),
                Err(reason) => Err(reason),
            }),
            created is Err ==> final(self)@ == old(self)@,
    {
        if self.contains(guild) {
            return Err(GameError::AlreadyExists);
        }
        match GuildConfig::new(admin_channel, document) {
            Err(reason) => Err(reason),
            Ok(session) => {
                self.put(guild, session);
                Ok(())
            },
        }
    }

    /// Deletes the game of a community. The game must have ended.
    pub fn delete(&mut self, guild: u64) -> (deleted: Result<(), GameError>)
        ensures
            deleted_from(old(self)@, guild) == (match deleted {
                Ok(_) => Ok(final(self)@),
                Err(reason) => Err(reason),
            }),
            deleted is Err ==> final(self)@ == old(self)@,
    {
        match self.take(guild) {
            None => {
                assert(self@ =~= old(self)@);
                Err(GameError::NoSession)
            },
            Some(session) => {
                match session.state {
                    GameState::Ended => Ok(()),
                    _ => {
                        self.put(guild, session);
                        assert(self@ =~= old(self)@);
                        Err(GameError::NotEnded)
                    },
                }
            },
        }
    }

    /// Ends the game of a community, whatever is left of its deck.
    pub fn end(&mut self, guild: u64) -> (ended: Result<(), GameError>)
        ensures
            !old(self)@.contains_key(guild) ==> ended == Err::<(), GameError>(
                GameError::NoSession,
            ),
            old(self)@.contains_key(guild) ==> changed_in(
                old(self)@,
                guild,
                old(self)@[guild].ended(),
            ) == (match ended {
                Ok(_) => Ok(final(self)@),
                Err(reason) => Err(reason),
            }),
            ended is Err ==> final(self)@ == old(self)@,
    {
        match self.take(guild) {
            None => {
                assert(self@ =~= old(self)@);
                Err(GameError::NoSession)
            },
            Some(mut session) => {
                let ended = session.end();
                self.put(guild, session);
                assert(self@ =~= old(self)@.insert(guild, session@));
                assert(ended is Err ==> self@ =~= old(self)@);
                ended
            },
        }
    }

    /// Starts the game of a community. It must be in configuration and have
    /// a team. Returns what is to be announced.
    pub fn start(&mut self, guild: u64) -> (announced: Result<Vec<Notification>, GameError>)
        ensures
            started_in(old(self)@, guild) == (match announced {
                Ok(notices) => Ok((final(self)@, notices.deep_view())),
                Err(reason) => Err(reason),
            }),
            announced is Err ==> final(self)@ == old(self)@,
    {
        match self.take(guild) {
            None => {
                assert(self@ =~= old(self)@);
                Err(GameError::NoSession)
            },
            Some(mut session) => {
                let announced = session.start();
                self.put(guild, session);
                assert(self@ =~= old(self)@.insert(guild, session@));
                assert(announced is Err ==> self@ =~= old(self)@);
                announced
            },
        }
    }

    /// Tells whether a team called `name` that answers in `channel` can be
    /// added to the game of a community, and if not, why.
    pub fn check_team(&self, guild: u64, name: &str, channel: u64) -> (checked: Result<
        (),
        GameError,
    >)
        ensures
            !self@.contains_key(guild) ==> checked == Err::<(), GameError>(GameError::NoSession),
            self@.contains_key(guild) ==> (match checked {
                Ok(_) => self@[guild].with_team(name@, channel) is Ok,
                Err(reason) => self@[guild].with_team(name@, channel) == Err::<
                    SessionModel,
                    GameError,
                >(reason),
            }),
    {
        match self.session(guild) {
            None => Err(GameError::NoSession),
            Some(session) => {
                let wanted = name.to_owned();
                session.check_team(&wanted, channel)
            },
        }
    }

    /// Adds a team to the game of a community.
    pub fn add_team(&mut self, guild: u64, name: String, channel: u64) -> (added: Result<
        (),
        GameError,
    >)
        ensures
            !old(self)@.contains_key(guild) ==> added == Err::<(), GameError>(
                GameError::NoSession,
            ),
            old(self)@.contains_key(guild) ==> changed_in(
                old(self)@,
                guild,
                old(self)@[guild].with_team(name@, channel),
            ) == (match added {
                Ok(_) => Ok(final(self)@),
                Err(reason) => Err(reason),
            }),
            added is Err ==> final(self)@ == old(self)@,
    {
        match self.take(guild) {
            None => {
                assert(self@ =~= old(self)@);
                Err(GameError::NoSession)
            },
            Some(mut session) => {
                let added = session.add_team(name, channel);
                self.put(guild, session);
                assert(self@ =~= old(self)@.insert(guild, session@));
                assert(added is Err ==> self@ =~= old(self)@);
                added
            },
        }
    }

    /// Removes a team from the game of a community.
    pub fn remove_team(&mut self, guild: u64, name: &str) -> (removed: Result<(), GameError>)
        ensures
            !old(self)@.contains_key(guild) ==> removed == Err::<(), GameError>(
                GameError::NoSession,
            ),
            old(self)@.contains_key(guild) ==> changed_in(
                old(self)@,
                guild,
                old(self)@[guild].without_team(name@),
            ) == (match removed {
                Ok(_) => Ok(final(self)@),
                Err(reason) => Err(reason),
            }),
            removed is Err ==> final(self)@ == old(self)@,
    {
        match self.take(guild) {
            None => {
                assert(self@ =~= old(self)@);
                Err(GameError::NoSession)
            },
            Some(mut session) => {
                let removed = session.remove_team(name);
                self.put(guild, session);
                assert(self@ =~= old(self)@.insert(guild, session@));
                assert(removed is Err ==> self@ =~= old(self)@);
                removed
            },
        }
    }

    /// Takes a message that `author` wrote in `channel` of a community, and
    /// returns what is to be announced, in order.
    pub fn handle_message(&mut self, guild: u64, channel: u64, author: u64, text: &str) -> (notices:
        Vec<Notification>)
        ensures
            (final(self)@, notices.deep_view()) == message_in(
                old(self)@,
                guild,
                channel,
                author,
                text@,
            ),
    {
        match self.take(guild) {
            None => {
                let notices: Vec<Notification> = Vec::new();
                assert(self@ =~= old(self)@);
                assert(notices.deep_view() =~= Seq::<NotificationModel>::empty());
                notices
            },
            Some(mut session) => {
                let notices = session.handle_message(channel, author, text);
                self.put(guild, session);
                assert(self@ =~= old(self)@.insert(guild, session@));
                notices
            },
        }
    }

    /// The standings of the game of a community: for each team, its name,
    /// its total in halves of a point, and the `limit` users with the lowest
    /// points, lowest first.
    pub fn standings(&self, guild: u64, limit: usize) -> (table: Result<
        Vec<(String, u64, Vec<(u64, u64)>)>,
        GameError,
    >)
        ensures
            match table {
                Err(reason) => reason == GameError::NoSession && !self@.contains_key(guild),
                Ok(table) => {
                    &&& self@.contains_key(guild)
                    &&& table.len() == self@[guild].teams.len()
                    &&& forall|i: int|
                        0 <= i < table.len() ==> {
                            &&& (#[trigger] table[i]).0@ == self@[guild].teams[i].name
                            &&& table[i].1 == self@[guild].teams[i].total_points
                            &&& self@[guild].teams[i].is_ranking(table[i].2@, limit as nat)
                        }
                },
            },
    {
        match self.session(guild) {
            None => Err(GameError::NoSession),
            Some(session) => Ok(session.standings(limit)),
        }
    }
}

} // verus!
