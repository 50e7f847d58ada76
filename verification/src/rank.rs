//! Ordering rated players: each team's list from the highest cost down, and
//! the most valuable player.
//!
//! A cost is held here as a `u32` key. The key may be any encoding whose order
//! is the order of the costs; this module compares keys and nothing else.

use vstd::prelude::*;
use std::collections::HashMap;
use crate::model::{Team, UserInfo};
use crate::scores::MatchScores;

verus! {

/// A player and the key of the player's match cost.
#[derive(Clone, Copy, Debug, PartialEq, Eq, Structural)]
pub struct RatedPlayer {
    pub user_id: u32,
    pub team: Team,
    pub cost: u32,
}

/// A user id and the key of that player's match cost.
pub type PlayerResult = (u32, u32);

/// The players of one team, from the highest cost down.
pub type TeamResult = Vec<PlayerResult>;

/// The players of `team`, in the order given.
pub open spec fn members(players: Seq<RatedPlayer>, team: Team) -> Seq<PlayerResult>
    decreases players.len(),
{
    if players.len() == 0 {
        Seq::empty()
    } else if players.last().team == team {
        members(players.drop_last(), team).push((players.last().user_id, players.last().cost))
    } else {
        members(players.drop_last(), team)
    }
}

/// `sorted` with `entry` put behind every entry that costs as much or more.
pub open spec fn insert_by_cost(sorted: Seq<PlayerResult>, entry: PlayerResult) -> Seq<
    PlayerResult,
>
    decreases sorted.len(),
{
    if sorted.len() == 0 {
        seq![entry]
    } else if sorted.last().1 >= entry.1 {
        sorted.push(entry)
    } else {
        insert_by_cost(sorted.drop_last(), entry).push(sorted.last())
    }
}

/// The entries from the highest cost down; entries of equal cost keep the
/// order they came in.
pub open spec fn sort_by_cost(entries: Seq<PlayerResult>) -> Seq<PlayerResult>
    decreases entries.len(),
{
    if entries.len() == 0 {
        Seq::empty()
    } else {
        insert_by_cost(sort_by_cost(entries.drop_last()), entries.last())
    }
}

/// Whether no entry costs more than one before it.
pub open spec fn descending(entries: Seq<PlayerResult>) -> bool {
    forall|i: int, j: int| 0 <= i <= j < entries.len() ==> entries[i].1 >= entries[j].1
}

/// The entries of cost `cost`, in the order given.
pub open spec fn with_cost(entries: Seq<PlayerResult>, cost: u32) -> Seq<PlayerResult>
    decreases entries.len(),
{
    if entries.len() == 0 {
        Seq::empty()
    } else if entries.last().1 == cost {
        with_cost(entries.drop_last(), cost).push(entries.last())
    } else {
        with_cost(entries.drop_last(), cost)
    }
}

/// Inserting adds one entry and keeps a descending list descending.
pub proof fn lemma_insert_descending(sorted: Seq<PlayerResult>, entry: PlayerResult)
    requires
        descending(sorted),
    ensures
        descending(insert_by_cost(sorted, entry)),
        insert_by_cost(sorted, entry).len() == sorted.len() + 1,
        insert_by_cost(sorted, entry).to_multiset() == sorted.to_multiset().insert(entry),
    decreases sorted.len(),
{
    broadcast use vstd::seq_lib::group_to_multiset_ensures;

    let result = insert_by_cost(sorted, entry);
    if sorted.len() == 0 {
        assert(result == Seq::<PlayerResult>::empty().push(entry));
    } else if sorted.last().1 >= entry.1 {
        assert forall|i: int, j: int| 0 <= i <= j < result.len() implies result[i].1
            >= result[j].1 by {
            if j == sorted.len() && i < j {
                assert(sorted[i].1 >= sorted[sorted.len() - 1].1);
            }
        }
    } else {
        let front = sorted.drop_last();
        let inner = insert_by_cost(front, entry);
        assert(descending(front));
        lemma_insert_descending(front, entry);
        assert(sorted == front.push(sorted.last()));
        assert forall|i: int, j: int| 0 <= i <= j < result.len() implies result[i].1
            >= result[j].1 by {
            if j == inner.len() && i < j {
                // what stands before the last entry is the new entry or one of `front`
                assert(inner.to_multiset().count(inner[i]) > 0);
                if inner[i] != entry {
                    assert(front.to_multiset().count(inner[i]) > 0);
                    let k = choose|k: int| 0 <= k < front.len() && front[k] == inner[i];
                    assert(sorted[k].1 >= sorted[sorted.len() - 1].1);
                }
            }
        }
    }
}

/// The sorted list is descending and holds the same entries, each as often.
pub proof fn lemma_sort_descending(entries: Seq<PlayerResult>)
    ensures
        descending(sort_by_cost(entries)),
        sort_by_cost(entries).len() == entries.len(),
        sort_by_cost(entries).to_multiset() == entries.to_multiset(),
    decreases entries.len(),
{
    broadcast use vstd::seq_lib::group_to_multiset_ensures;

    if entries.len() > 0 {
        lemma_sort_descending(entries.drop_last());
        lemma_insert_descending(sort_by_cost(entries.drop_last()), entries.last());
        assert(entries == entries.drop_last().push(entries.last()));
    }
}

/// Inserting puts the entry behind those of its own cost and leaves the
/// entries of every other cost as they were.
pub proof fn lemma_insert_stable(sorted: Seq<PlayerResult>, entry: PlayerResult, cost: u32)
    ensures
        with_cost(insert_by_cost(sorted, entry), cost) == (if entry.1 == cost {
            with_cost(sorted, cost).push(entry)
        } else {
            with_cost(sorted, cost)
        }),
    decreases sorted.len(),
{
    let result = insert_by_cost(sorted, entry);
    if sorted.len() == 0 {
        assert(result.drop_last() == sorted);
    } else if sorted.last().1 >= entry.1 {
        assert(result.drop_last() == sorted);
    } else {
        lemma_insert_stable(sorted.drop_last(), entry, cost);
        assert(result.drop_last() == insert_by_cost(sorted.drop_last(), entry));
    }
}

/// Sorting is stable: the entries of any one cost stand in the sorted list
/// in the order in which they came.
pub proof fn lemma_sort_stable(entries: Seq<PlayerResult>, cost: u32)
    ensures
        with_cost(sort_by_cost(entries), cost) == with_cost(entries, cost),
    decreases entries.len(),
{
    if entries.len() > 0 {
        lemma_sort_stable(entries.drop_last(), cost);
        lemma_insert_stable(sort_by_cost(entries.drop_last()), entries.last(), cost);
    }
}

/// Puts `entry` into a list behind every entry that costs as much or more.
pub fn insert_sorted(list: &mut TeamResult, entry: PlayerResult)
    ensures
        final(list)@ == insert_by_cost(old(list)@, entry),
{
    let ghost before = list@;
    let mut position: usize = list.len();
    proof {
        assert(before.take(position as int) == before);
        assert(insert_by_cost(before, entry) + before.skip(position as int) == insert_by_cost(
            before,
            entry,
        ));
    }
    while position > 0 && list[position - 1].1 < entry.1
        invariant
            position <= list.len(),
            list@ == before,
            insert_by_cost(before, entry) == insert_by_cost(before.take(position as int), entry)
                + before.skip(position as int),
        decreases position,
    {
        proof {
            let head = before.take(position as int);
            assert(head.drop_last() == before.take(position - 1));
            assert(head.last() == before[position - 1]);
            assert(insert_by_cost(head, entry) + before.skip(position as int) == insert_by_cost(
                before.take(position - 1),
                entry,
            ) + before.skip(position - 1));
        }
        position = position - 1;
    }
    proof {
        let head = before.take(position as int);
        assert(insert_by_cost(head, entry) == head.push(entry)) by {
            if position > 0 {
                assert(head.last() == before[position - 1]);
            }
        }
        assert(before.insert(position as int, entry) == head.push(entry) + before.skip(
            position as int,
        ));
    }
    list.insert(position, entry);
}

/// The players of `team`, from the highest cost down.
pub fn team_result(players: &Vec<RatedPlayer>, team: Team) -> (list: TeamResult)
    ensures
        list@ == sort_by_cost(members(players@, team)),
{
    let mut list: TeamResult = Vec::new();
    let mut i: usize = 0;
    while i < players.len()
        invariant
            i <= players.len(),
            list@ == sort_by_cost(members(players@.take(i as int), team)),
        decreases players.len() - i,
    {
        let player = players[i];
        proof {
            let now = players@.take(i + 1);
            assert(now.drop_last() == players@.take(i as int));
            assert(now.last() == player);
        }
        if player.team == team {
            proof {
                let entries = members(players@.take(i + 1), team);
                assert(entries.drop_last() == members(players@.take(i as int), team));
            }
            insert_sorted(&mut list, (player.user_id, player.cost));
        }
        i = i + 1;
    }
    proof {
        assert(players@.take(players@.len() as int) == players@);
    }
    list
}

/// The highest cost among the first `n` players; zero where there is none.
pub open spec fn highest(players: Seq<RatedPlayer>, n: int) -> u32
    decreases n,
{
    if n <= 0 {
        0
    } else if players[n - 1].cost > highest(players, n - 1) {
        players[n - 1].cost
    } else {
        highest(players, n - 1)
    }
}

/// Where the most valuable of the first `n` players stands: the latest one
/// whose cost was above everything before it.
pub open spec fn mvp_position(players: Seq<RatedPlayer>, n: int) -> Option<int>
    decreases n,
{
    if n <= 0 {
        None
    } else if players[n - 1].cost > highest(players, n - 1) {
        Some(n - 1)
    } else {
        mvp_position(players, n - 1)
    }
}

/// The user id of the most valuable player, if any player has a cost above
/// zero.
pub open spec fn mvp_of(players: Seq<RatedPlayer>) -> Option<u32> {
    match mvp_position(players, players.len() as int) {
        Some(i) => Some(players[i].user_id),
        None => None,
    }
}

/// The avatar shown for the most valuable of the first `n` players: that of
/// the latest player who set a new highest cost and is known in `users`;
/// empty where there is no such player.
pub open spec fn mvp_avatar(players: Seq<RatedPlayer>, users: Map<u32, UserInfo>, n: int) -> Seq<
    char,
>
    decreases n,
{
    if n <= 0 {
        Seq::empty()
    } else if players[n - 1].cost > highest(players, n - 1) && users.contains_key(
        players[n - 1].user_id,
    ) {
        users[players[n - 1].user_id].avatar_url@
    } else {
        mvp_avatar(players, users, n - 1)
    }
}

/// No player costs more than the most valuable one, and of the players that
/// cost as much it is the first. There is none only where every cost is zero.
pub proof fn lemma_mvp_is_highest(players: Seq<RatedPlayer>, n: int)
    requires
        0 <= n <= players.len(),
    ensures
        forall|j: int| 0 <= j < n ==> (#[trigger] players[j]).cost <= highest(players, n),
        match mvp_position(players, n) {
            Some(i) => {
                &&& 0 <= i < n
                &&& players[i].cost == highest(players, n)
                &&& players[i].cost > 0
                &&& forall|j: int| 0 <= j < i ==> (#[trigger] players[j]).cost < players[i].cost
            },
            None => highest(players, n) == 0,
        },
    decreases n,
{
    if n > 0 {
        lemma_mvp_is_highest(players, n - 1);
    }
}

/// Which shape a result has, and what it lists.
pub enum MatchOutcome {
    TeamVS {
        blue: Seq<PlayerResult>,
        red: Seq<PlayerResult>,
        mvp: Option<u32>,
        mvp_avatar_url: Seq<char>,
        match_scores: MatchScores,
    },
    HeadToHead { players: Seq<PlayerResult>, mvp: Option<u32>, mvp_avatar_url: Seq<char> },
}

/// The rating of a match.
#[derive(Debug)]
pub enum MatchResult {
    TeamVS {
        blue: TeamResult,
        red: TeamResult,
        /// The user id of the most valuable player.
        mvp: Option<u32>,
        mvp_avatar_url: String,
        match_scores: MatchScores,
    },
    HeadToHead {
        players: TeamResult,
        /// The user id of the most valuable player.
        mvp: Option<u32>,
        mvp_avatar_url: String,
    },
}

impl View for MatchResult {
    type V = MatchOutcome;

    open spec fn view(&self) -> MatchOutcome {
        match *self {
            MatchResult::TeamVS { blue, red, mvp, mvp_avatar_url, match_scores } => {
                MatchOutcome::TeamVS {
                    blue: blue@,
                    red: red@,
                    mvp,
                    mvp_avatar_url: mvp_avatar_url@,
                    match_scores,
                }
            },
            MatchResult::HeadToHead { players, mvp, mvp_avatar_url } => MatchOutcome::HeadToHead {
                players: players@,
                mvp,
                mvp_avatar_url: mvp_avatar_url@,
            },
        }
    }
}

impl MatchOutcome {
    /// Everyone the result lists.
    pub open spec fn listed(self) -> Seq<PlayerResult> {
        match self {
            MatchOutcome::TeamVS { blue, red, .. } => blue + red,
            MatchOutcome::HeadToHead { players, .. } => players,
        }
    }
}

impl MatchResult {
    pub fn team(
        mvp: Option<u32>,
        mvp_avatar_url: String,
        match_scores: MatchScores,
        blue: TeamResult,
        red: TeamResult,
    ) -> (result: MatchResult)
        ensures
            result@ == (MatchOutcome::TeamVS {
                blue: blue@,
                red: red@,
                mvp,
                mvp_avatar_url: mvp_avatar_url@,
                match_scores,
            }),
    {
        MatchResult::TeamVS { blue, red, mvp, mvp_avatar_url, match_scores }
    }

    pub fn solo(mvp: Option<u32>, mvp_avatar_url: String, players: TeamResult) -> (result:
        MatchResult)
        ensures
            result@ == (MatchOutcome::HeadToHead {
                players: players@,
                mvp,
                mvp_avatar_url: mvp_avatar_url@,
            }),
    {
        MatchResult::HeadToHead { players, mvp, mvp_avatar_url }
    }
}

/// What rated players are ranked to: two lists and the won games where the
/// match was played team against team, else one list of the players without
/// a team; either way with the most valuable player of all.
pub open spec fn ranked(
    players: Seq<RatedPlayer>,
    team_vs: bool,
    match_scores: MatchScores,
    users: Map<u32, UserInfo>,
) -> MatchOutcome {
    let mvp = mvp_of(players);
    let mvp_avatar_url = mvp_avatar(players, users, players.len() as int);
    if team_vs {
        MatchOutcome::TeamVS {
            blue: sort_by_cost(members(players, Team::Blue)),
            red: sort_by_cost(members(players, Team::Red)),
            mvp,
            mvp_avatar_url,
            match_scores,
        }
    } else {
        MatchOutcome::HeadToHead {
            players: sort_by_cost(members(players, Team::NoTeam)),
            mvp,
            mvp_avatar_url,
        }
    }
}

/// Finds the most valuable player and the avatar to show for it.
pub fn most_valuable(players: &Vec<RatedPlayer>, users: &HashMap<u32, UserInfo>) -> (found: (
    Option<u32>,
    String,
))
    ensures
        found.0 == mvp_of(players@),
        found.1@ == mvp_avatar(players@, users@, players@.len() as int),
{
    broadcast use vstd::std_specs::hash::group_hash_axioms;

    let mut highest_cost: u32 = 0;
    let mut mvp: Option<u32> = None;
    let mut avatar = String::new();
    let mut i: usize = 0;
    while i < players.len()
        invariant
            i <= players.len(),
            highest_cost == highest(players@, i as int),
            mvp == (match mvp_position(players@, i as int) {
                Some(k) => Some(players@[k].user_id),
                None => None,
            }),
            avatar@ == mvp_avatar(players@, users@, i as int),
        decreases players.len() - i,
    {
        let player = players[i];
        if player.cost > highest_cost {
            highest_cost = player.cost;
            mvp = Some(player.user_id);
            match users.get(&player.user_id) {
                Some(user) => {
                    avatar = user.avatar_url.clone();
                },
                None => {},
            }
        }
        i = i + 1;
    }
    (mvp, avatar)
}

/// Ranks rated players into the result of the match.
pub fn rank_players(
    players: &Vec<RatedPlayer>,
    team_vs: bool,
    match_scores: MatchScores,
    users: &HashMap<u32, UserInfo>,
) -> (result: MatchResult)
    ensures
        result@ == ranked(players@, team_vs, match_scores, users@),
{
    let (mvp, mvp_avatar_url) = most_valuable(players, users);
    if team_vs {
        let blue = team_result(players, Team::Blue);
        let red = team_result(players, Team::Red);
        MatchResult::team(mvp, mvp_avatar_url, match_scores, blue, red)
    } else {
        let list = team_result(players, Team::NoTeam);
        MatchResult::solo(mvp, mvp_avatar_url, list)
    }
}

/// Every entry of a team's members is one of the players, with that team.
pub proof fn lemma_members_are_players(
    players: Seq<RatedPlayer>,
    team: Team,
    entry: PlayerResult,
)
    requires
        members(players, team).contains(entry),
    ensures
        exists|i: int|
            0 <= i < players.len() && (#[trigger] players[i]).user_id == entry.0 && players[i].cost
                == entry.1 && players[i].team == team,
    decreases players.len(),
{
    let list = members(players, team);
    let k = choose|k: int| 0 <= k < list.len() && list[k] == entry;
    if players.len() > 0 {
        let before = players.drop_last();
        if players.last().team == team && k == list.len() - 1 {
            assert(players[players.len() - 1].user_id == entry.0);
        } else {
            assert(members(before, team)[k] == entry);
            lemma_members_are_players(before, team, entry);
            let i = choose|i: int|
                0 <= i < before.len() && (#[trigger] before[i]).user_id == entry.0 && before[i].cost
                    == entry.1 && before[i].team == team;
            assert(players[i] == before[i]);
        }
    }
}

/// Everyone a result lists is one of the rated players, with the cost that
/// player was rated with.
pub proof fn lemma_listed_are_players(
    players: Seq<RatedPlayer>,
    team_vs: bool,
    match_scores: MatchScores,
    users: Map<u32, UserInfo>,
    k: int,
)
    requires
        0 <= k < ranked(players, team_vs, match_scores, users).listed().len(),
    ensures
        exists|i: int|
            0 <= i < players.len() && (#[trigger] players[i]).user_id == ranked(
                players,
                team_vs,
                match_scores,
                users,
            ).listed()[k].0 && players[i].cost == ranked(
                players,
                team_vs,
                match_scores,
                users,
            ).listed()[k].1,
{
    broadcast use vstd::seq_lib::group_to_multiset_ensures;

    let listed = ranked(players, team_vs, match_scores, users).listed();
    let entry = listed[k];
    let blue = sort_by_cost(members(players, Team::Blue));
    let red = sort_by_cost(members(players, Team::Red));
    let solo = sort_by_cost(members(players, Team::NoTeam));
    let team = if !team_vs {
        Team::NoTeam
    } else if k < blue.len() {
        Team::Blue
    } else {
        Team::Red
    };
    let sorted = sort_by_cost(members(players, team));
    if team_vs && k >= blue.len() {
        assert(sorted[k - blue.len()] == entry);
    } else {
        assert(sorted[k] == entry);
    }
    assert(sorted.contains(entry));
    lemma_sort_descending(members(players, team));
    assert(members(players, team).to_multiset().count(entry) > 0);
    lemma_members_are_players(players, team, entry);
}

/// Each list of a result runs from the highest cost down, and players of
/// equal cost stand in it in the order in which they were rated.
pub proof fn lemma_lists_are_sorted(
    players: Seq<RatedPlayer>,
    team_vs: bool,
    match_scores: MatchScores,
    users: Map<u32, UserInfo>,
)
    ensures
        match ranked(players, team_vs, match_scores, users) {
            MatchOutcome::TeamVS { blue, red, .. } => {
                &&& descending(blue)
                &&& descending(red)
                &&& forall|cost: u32| #[trigger]
                    with_cost(blue, cost) == with_cost(members(players, Team::Blue), cost)
                &&& forall|cost: u32| #[trigger]
                    with_cost(red, cost) == with_cost(members(players, Team::Red), cost)
            },
            MatchOutcome::HeadToHead { players: list, .. } => {
                &&& descending(list)
                &&& forall|cost: u32| #[trigger]
                    with_cost(list, cost) == with_cost(members(players, Team::NoTeam), cost)
            },
        },
{
    lemma_sort_descending(members(players, Team::Blue));
    lemma_sort_descending(members(players, Team::Red));
    lemma_sort_descending(members(players, Team::NoTeam));
    assert forall|cost: u32| #[trigger]
        with_cost(sort_by_cost(members(players, Team::Blue)), cost) == with_cost(
            members(players, Team::Blue),
            cost,
        ) by {
        lemma_sort_stable(members(players, Team::Blue), cost);
    }
    assert forall|cost: u32| #[trigger]
        with_cost(sort_by_cost(members(players, Team::Red)), cost) == with_cost(
            members(players, Team::Red),
            cost,
        ) by {
        lemma_sort_stable(members(players, Team::Red), cost);
    }
    assert forall|cost: u32| #[trigger]
        with_cost(sort_by_cost(members(players, Team::NoTeam)), cost) == with_cost(
            members(players, Team::NoTeam),
            cost,
        ) by {
        lemma_sort_stable(members(players, Team::NoTeam), cost);
    }
}

/// Nobody a result lists costs more than the most valuable player, and where
/// a listed player has a cost above zero there is a most valuable player.
pub proof fn lemma_mvp_tops_the_lists(
    players: Seq<RatedPlayer>,
    team_vs: bool,
    match_scores: MatchScores,
    users: Map<u32, UserInfo>,
    k: int,
)
    requires
        0 <= k < ranked(players, team_vs, match_scores, users).listed().len(),
    ensures
        match mvp_position(players, players.len() as int) {
            Some(i) => 0 <= i < players.len() && ranked(
                players,
                team_vs,
                match_scores,
                users,
            ).listed()[k].1 <= players[i].cost,
            None => ranked(players, team_vs, match_scores, users).listed()[k].1 == 0,
        },
{
    lemma_listed_are_players(players, team_vs, match_scores, users, k);
    lemma_mvp_is_highest(players, players.len() as int);
    let entry = ranked(players, team_vs, match_scores, users).listed()[k];
    let i = choose|i: int|
        0 <= i < players.len() && (#[trigger] players[i]).user_id == entry.0 && players[i].cost
            == entry.1;
    assert(players[i].cost <= highest(players, players.len() as int));
}

} // verus!
