//! Teams and their scores.
//!
//! A team keeps, for each user who scored for it, the points of that user, and
//! the total of them. Points are counted in halves. `credit` is the only
//! function that changes a score, and it changes both together.
use crate::sums::{
    lemma_map_sum_bounds, lemma_map_sum_empty, lemma_map_sum_insert, lemma_sum_push, map_sum, sum,
};
use std::collections::HashMap;
use vstd::prelude::*;
use vstd::std_specs::hash::group_hash_axioms;
use vstd::std_specs::iter::IteratorSpec;

verus! {

/// A team: its name, the channel whose messages count for it, and its scores.
#[derive(Clone, Debug)]
pub struct Team {
    pub name: String,
    pub leaderboard: HashMap<u64, u64>,
    pub total_points: u64,
    pub channel: u64,
}

/// What a team is, as plain data.
pub struct TeamModel {
    pub name: Seq<char>,
    pub leaderboard: Map<u64, u64>,
    pub total_points: u64,
    pub channel: u64,
}

impl View for Team {
    type V = TeamModel;

    open spec fn view(&self) -> TeamModel {
        TeamModel {
            name: self.name@,
            leaderboard: self.leaderboard@,
            total_points: self.total_points,
            channel: self.channel,
        }
    }
}

impl DeepView for Team {
    type V = TeamModel;

    open spec fn deep_view(&self) -> TeamModel {
        self.view()
    }
}

impl TeamModel {
    /// A team that nobody has scored for yet.
    pub open spec fn fresh(name: Seq<char>, channel: u64) -> TeamModel {
        TeamModel { name, leaderboard: Map::empty(), total_points: 0, channel }
    }

    /// The total is the sum of the users' points.
    pub open spec fn wf(self) -> bool {
        &&& self.leaderboard.dom().finite()
        &&& self.total_points == map_sum(self.leaderboard)
    }

    /// The points of a user, zero for one who has not scored.
    pub open spec fn points_of(self, user: u64) -> u64 {
        if self.leaderboard.contains_key(user) {
            self.leaderboard[user]
        } else {
            0
        }
    }

    /// The team after `points` were credited to `user`.
    pub open spec fn credited(self, user: u64, points: u64) -> TeamModel {
        TeamModel {
            leaderboard: self.leaderboard.insert(user, (self.points_of(user) + points) as u64),
            total_points: (self.total_points + points) as u64,
            ..self
        }
    }

    /// `ranking` lists users of the team with their points, no user twice,
    /// lowest points first, and holds the `limit` users with the lowest
    /// points, or all users where there are fewer.
    pub open spec fn is_ranking(self, ranking: Seq<(u64, u64)>, limit: nat) -> bool {
        &&& ranking.len() == if limit <= self.leaderboard.len() {
            limit
        } else {
            self.leaderboard.len()
        }
        &&& forall|i: int|
            0 <= i < ranking.len() ==> self.leaderboard.contains_key((#[trigger] ranking[i]).0)
                && self.leaderboard[ranking[i].0] == ranking[i].1
        &&& forall|i: int, j: int|
            0 <= i < j < ranking.len() ==> (#[trigger] ranking[i]).0 != (#[trigger] ranking[j]).0
        &&& forall|i: int, j: int|
            0 <= i < j < ranking.len() ==> (#[trigger] ranking[i]).1 <= (#[trigger] ranking[j]).1
        &&& forall|user: u64, i: int|
            #![trigger self.leaderboard.contains_key(user), ranking[i]]
            self.leaderboard.contains_key(user) && 0 <= i < ranking.len() ==> self.leaderboard[user]
                >= ranking[i].1 || exists|j: int|
                0 <= j < ranking.len() && (#[trigger] ranking[j]).0 == user
    }
}

/// The entries are sorted by points, lowest first, between `from` and `to`.
pub open spec fn sorted_between(entries: Seq<(u64, u64)>, from: int, to: int) -> bool {
    forall|i: int, j: int|
        from <= i < j < to ==> (#[trigger] entries[i]).1 <= (#[trigger] entries[j]).1
}

/// The entries are the entries of the map, each key once.
pub open spec fn lists_all(entries: Seq<(u64, u64)>, m: Map<u64, u64>) -> bool {
    &&& entries.len() == m.len()
    &&& forall|i: int|
        0 <= i < entries.len() ==> m.contains_key((#[trigger] entries[i]).0) && m[entries[i].0]
            == entries[i].1
    &&& forall|i: int, j: int|
        0 <= i < j < entries.len() ==> (#[trigger] entries[i]).0 != (#[trigger] entries[j]).0
    &&& forall|user: u64| #[trigger]
        m.contains_key(user) ==> exists|j: int|
            0 <= j < entries.len() && (#[trigger] entries[j]).0 == user
}

/// Exchanging two entries keeps the list a list of all entries of the map.
pub proof fn lemma_exchange_lists_all(entries: Seq<(u64, u64)>, m: Map<u64, u64>, a: int, b: int)
    requires
        lists_all(entries, m),
        0 <= a < entries.len(),
        0 <= b < entries.len(),
    ensures
        lists_all(entries.update(a, entries[b]).update(b, entries[a]), m),
{
    let after = entries.update(a, entries[b]).update(b, entries[a]);
    assert forall|user: u64| #[trigger] m.contains_key(user) implies exists|j: int|
        0 <= j < after.len() && (#[trigger] after[j]).0 == user by {
        let j = choose|j: int| 0 <= j < entries.len() && (#[trigger] entries[j]).0 == user;
        if j == a {
            assert(after[b].0 == user);
        } else if j == b {
            assert(after[a].0 == user);
        } else {
            assert(after[j].0 == user);
        }
    }
    assert forall|i: int, j: int| 0 <= i < j < after.len() implies (#[trigger] after[i]).0 != (
    #[trigger] after[j]).0 by {
        let oi = if i == a { b } else if i == b { a } else { i };
        let oj = if j == a { b } else if j == b { a } else { j };
        assert(after[i] == entries[oi]);
        assert(after[j] == entries[oj]);
        if oi < oj {
            assert(entries[oi].0 != entries[oj].0);
        } else {
            assert(entries[oj].0 != entries[oi].0);
        }
    }
    assert forall|i: int| 0 <= i < after.len() implies m.contains_key((#[trigger] after[i]).0)
        && m[after[i].0] == after[i].1 by {
        let oi = if i == a { b } else if i == b { a } else { i };
        assert(after[i] == entries[oi]);
    }
}

/// After a credit the total is still the sum of the users' points: both grew
/// by the points credited.
pub proof fn lemma_credit_keeps_total(team: TeamModel, user: u64, points: u64)
    requires
        team.wf(),
        team.total_points + points <= u64::MAX,
    ensures
        team.credited(user, points).wf(),
        team.credited(user, points).total_points == team.total_points + points,
        team.credited(user, points).points_of(user) == team.points_of(user) + points,
        forall|other: u64|
            other != user ==> team.credited(user, points).points_of(other) == team.points_of(
                other,
            ),
{
    if team.leaderboard.contains_key(user) {
        lemma_map_sum_bounds(team.leaderboard, user);
    }
    lemma_map_sum_insert(team.leaderboard, user, (team.points_of(user) + points) as u64);
}

/// The team after each of the credits, a user and points each, in order.
pub open spec fn credited_each(team: TeamModel, credits: Seq<(u64, u64)>) -> TeamModel
    decreases credits.len(),
{
    if credits.len() == 0 {
        team
    } else {
        credited_each(team, credits.drop_last()).credited(credits.last().0, credits.last().1)
    }
}

/// The points of a list of credits.
pub open spec fn credit_points(credits: Seq<(u64, u64)>) -> Seq<nat> {
    credits.map_values(|credit: (u64, u64)| credit.1 as nat)
}

/// After any credits, in any order and to any users, the total is the sum of
/// the users' points, and has grown by the sum of what was credited.
pub proof fn lemma_credits_keep_total(team: TeamModel, credits: Seq<(u64, u64)>)
    requires
        team.wf(),
        team.total_points + sum(credit_points(credits)) <= u64::MAX,
    ensures
        credited_each(team, credits).wf(),
        credited_each(team, credits).total_points == team.total_points + sum(
            credit_points(credits),
        ),
    decreases credits.len(),
{
    if credits.len() > 0 {
        let before = credits.drop_last();
        assert(credit_points(credits) =~= credit_points(before).push(credits.last().1 as nat));
        lemma_sum_push(credit_points(before), credits.last().1 as nat);
        lemma_credits_keep_total(team, before);
        lemma_credit_keeps_total(
            credited_each(team, before),
            credits.last().0,
            credits.last().1,
        );
    }
}

/// A team that nobody has scored for yet is well formed.
pub proof fn lemma_fresh_team(name: Seq<char>, channel: u64)
    ensures
        TeamModel::fresh(name, channel).wf(),
        TeamModel::fresh(name, channel).total_points == 0,
{
    lemma_map_sum_empty();
}

impl Team {
    /// A team that nobody has scored for yet.
    pub fn new(name: String, channel: u64) -> (team: Team)
        ensures
            team@ == TeamModel::fresh(name@, channel),
            team@.wf(),
    {
        broadcast use group_hash_axioms;

        proof {
            lemma_fresh_team(name@, channel);
        }
        Team { name, leaderboard: HashMap::new(), total_points: 0, channel }
    }

    /// Credits `points` to `user`: the user's points and the team's total
    /// both grow by `points`.
    pub fn credit(&mut self, user: u64, points: u64)
        requires
            old(self)@.wf(),
            old(self).total_points + points <= u64::MAX,
        ensures
            final(self)@ == old(self)@.credited(user, points),
            final(self)@.wf(),
    {
        broadcast use group_hash_axioms;

        let had: u64 = match self.leaderboard.get(&user) {
            Some(points) => *points,
            None => 0,
        };
        proof {
            lemma_credit_keeps_total(self@, user, points);
        }
        self.leaderboard.insert(user, had + points);
        self.total_points = self.total_points + points;
    }

    /// The users of the team with their points, in no particular order.
    pub fn entries(&self) -> (entries: Vec<(u64, u64)>)
        ensures
            lists_all(entries@, self@.leaderboard),
    {
        broadcast use group_hash_axioms;

        let mut entries: Vec<(u64, u64)> = Vec::new();
        let it = self.leaderboard.iter();
        let ghost all = it.remaining();
        for pair in iter: it
            invariant
                all == iter.seq(),
                entries.len() == iter.index(),
                forall|i: int|
                    0 <= i < entries.len() ==> (#[trigger] entries[i]).0 == *all[i].0
                        && entries[i].1 == *all[i].1,
        {
            let (user, points) = pair;
            entries.push((*user, *points));
        }
        proof {
            let m = self.leaderboard@;
            assert forall|user: u64| #[trigger] m.contains_key(user) implies exists|j: int|
                0 <= j < entries.len() && (#[trigger] entries[j]).0 == user by {
                assert(all.contains((&user, &m[user])));
                let j = choose|j: int| 0 <= j < all.len() && all[j] == (&user, &m[user]);
                assert(entries[j].0 == user);
            }
            assert forall|i: int, j: int| 0 <= i < j < entries.len() implies (
            #[trigger] entries[i]).0 != (#[trigger] entries[j]).0 by {
                if entries[i].0 == entries[j].0 {
                    assert(m.contains_key(*all[i].0));
                    assert(m.contains_key(*all[j].0));
                    assert(all[i] == all[j]);
                }
            }
        }
        entries
    }

    /// The `limit` users with the lowest points, lowest first, each with the
    /// points. Which of two users with equal points comes first is not fixed.
    pub fn ranked_view(&self, limit: usize) -> (ranking: Vec<(u64, u64)>)
        ensures
            self@.is_ranking(ranking@, limit as nat),
    {
        let mut ranking = self.entries();
        let ghost m = self@.leaderboard;
        let mut i: usize = 1;
        while i < ranking.len()
            invariant
                1 <= i,
                lists_all(ranking@, m),
                sorted_between(ranking@, 0, i as int) || ranking.len() == 0,
            decreases ranking.len() - i,
        {
            let mut j: usize = i;
            while j > 0 && ranking[j - 1].1 > ranking[j].1
                invariant
                    j <= i < ranking.len(),
                    lists_all(ranking@, m),
                    sorted_between(ranking@, 0, j as int),
                    sorted_between(ranking@, j as int, i + 1),
                    forall|a: int, b: int|
                        0 <= a < j && j < b <= i ==> (#[trigger] ranking[a]).1 <= (
                        #[trigger] ranking[b]).1,
                decreases j,
            {
                let low = ranking[j];
                let high = ranking[j - 1];
                proof {
                    lemma_exchange_lists_all(ranking@, m, j - 1, j as int);
                }
                ranking[j - 1] = low;
                ranking[j] = high;
                j -= 1;
            }
            i += 1;
        }
        let ghost full = ranking@;
        ranking.truncate(limit);
        proof {
            let kept = ranking@;
            assert(sorted_between(full, 0, full.len() as int));
            assert forall|i: int| 0 <= i < kept.len() implies #[trigger] kept[i] == full[i] by {}
            assert forall|user: u64, i: int|
                #![trigger m.contains_key(user), kept[i]]
                m.contains_key(user) && 0 <= i < kept.len() implies m[user] >= kept[i].1
                || exists|j: int| 0 <= j < kept.len() && (#[trigger] kept[j]).0 == user by {
                let at = choose|j: int| 0 <= j < full.len() && (#[trigger] full[j]).0 == user;
                if at < kept.len() {
                    assert(kept[at].0 == user);
                } else {
                    assert(full[i].1 <= full[at].1);
                }
            }
            assert(self@.is_ranking(kept, limit as nat));
        }
        ranking
    }
}

} // verus!
