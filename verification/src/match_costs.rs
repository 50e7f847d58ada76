//! The rating of a whole match.

use vstd::prelude::*;
use std::collections::HashMap;
use crate::cost::PlayerTally;
use crate::model::{Game, TeamType, UserInfo};
use crate::rank::{
    lemma_listed_are_players, rank_players, ranked, MatchOutcome, MatchResult, RatedPlayer,
};
use crate::tally::{
    lemma_players_are_participants, match_appearances, participated, seen, tally_match, MatchTally,
};

verus! {

/// That `rated` holds, for each player of the tally in turn, the player's
/// team and a cost that `evaluate` gave for the player's record.
pub open spec fn rated_by<F: Fn(&PlayerTally, usize) -> u32>(
    evaluate: F,
    tally: MatchTally,
    rated: Seq<RatedPlayer>,
) -> bool {
    &&& rated.len() == tally.players@.len()
    &&& forall|i: int|
        0 <= i < rated.len() ==> {
            let r = #[trigger] rated[i];
            &&& r.user_id == tally.players@[i].user_id
            &&& r.team == tally.players@[i].team
            &&& evaluate.ensures((&tally.players@[i], tally.games), r.cost)
        }
}

/// Has `evaluate` give each player of a tally a cost.
///
/// `evaluate` gets the player's record and the number of games, and returns
/// the key of the player's match cost.
pub fn rate_players<F: Fn(&PlayerTally, usize) -> u32>(tally: &MatchTally, evaluate: &F) -> (rated:
    Vec<RatedPlayer>)
    requires
        tally.wf(),
        forall|player: &PlayerTally, games: usize|
            player.wf() && games > 0 ==> #[trigger] evaluate.requires((player, games)),
    ensures
        rated_by(*evaluate, *tally, rated@),
{
    let mut rated: Vec<RatedPlayer> = Vec::new();
    let mut i: usize = 0;
    while i < tally.players.len()
        invariant
            i <= tally.players.len(),
            tally.wf(),
            forall|player: &PlayerTally, games: usize|
                player.wf() && games > 0 ==> #[trigger] evaluate.requires((player, games)),
            rated@.len() == i,
            forall|k: int|
                0 <= k < i ==> {
                    let r = #[trigger] rated@[k];
                    &&& r.user_id == tally.players@[k].user_id
                    &&& r.team == tally.players@[k].team
                    &&& evaluate.ensures((&tally.players@[k], tally.games), r.cost)
                },
        decreases tally.players.len() - i,
    {
        let player = &tally.players[i];
        assert(tally.players@[i as int].wf());
        let cost = evaluate(player, tally.games);
        rated.push(RatedPlayer { user_id: player.user_id, team: player.team, cost });
        i = i + 1;
    }
    rated
}

/// That `outcome` is a rating of the match: the ranking of the players of
/// its tally, each with a cost that `evaluate` gave for the player's record.
pub open spec fn is_rating<F: Fn(&PlayerTally, usize) -> u32>(
    games: Seq<Game>,
    finished: bool,
    users: Map<u32, UserInfo>,
    evaluate: F,
    outcome: MatchOutcome,
) -> bool {
    exists|tally: MatchTally, rated: Seq<RatedPlayer>|
        tally.is_tally_of(games, finished) && #[trigger] rated_by(evaluate, tally, rated)
            && outcome == ranked(rated, tally.team_vs, tally.match_scores, users)
}

/// Rates a match.
///
/// The games are those after the warmups, in the order of play, and at least
/// one. `evaluate` turns a player's record and the number of games into the
/// key of the player's match cost.
pub fn process_match<F: Fn(&PlayerTally, usize) -> u32>(
    games: &[Game],
    finished: bool,
    users: &HashMap<u32, UserInfo>,
    evaluate: F,
) -> (result: MatchResult)
    requires
        games@.len() > 0,
        forall|player: &PlayerTally, n: usize|
            player.wf() && n > 0 ==> #[trigger] evaluate.requires((player, n)),
    ensures
        is_rating(games@, finished, users@, evaluate, result@),
        result@ is TeamVS <==> games@[0].team_type == TeamType::TeamVS,
        forall|k: int|
            0 <= k < result@.listed().len() ==> participated(
                games@,
                (#[trigger] result@.listed()[k]).0,
            ),
{
    let tally = tally_match(games, finished);
    let rated = rate_players(&tally, &evaluate);
    let result = rank_players(&rated, tally.team_vs, tally.match_scores, users);
    proof {
        assert(rated_by(evaluate, tally, rated@));
        assert forall|k: int| 0 <= k < result@.listed().len() implies participated(
            games@,
            (#[trigger] result@.listed()[k]).0,
        ) by {
            lemma_listed_are_players(rated@, tally.team_vs, tally.match_scores, users@, k);
            let entry = result@.listed()[k];
            let i = choose|i: int|
                0 <= i < rated@.len() && (#[trigger] rated@[i]).user_id == entry.0 && rated@[i].cost
                    == entry.1;
            let apps = match_appearances(games@, games@.len() as int);
            assert(tally.players@[i].user_id == seen(apps)[i]);
            assert(seen(apps).contains(entry.0));
            lemma_players_are_participants(games@, entry.0);
        }
    }
    result
}

} // verus!
