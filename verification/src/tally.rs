//! The collecting pass: from the games of a match to one record per player.
//!
//! The pass reads the valid scores in the order of play. What it gathers is
//! stated over that flat sequence of appearances: who was seen, in which
//! order, with which team, which point costs and which mod combinations.

use vstd::prelude::*;
use crate::cost::{exponent, PlayerTally, PointCost};
use crate::game::{lemma_sum_bounds, lemma_valid_is_counted, score_sum, valid_count, winner};
use crate::index::{
    combo_members, combos_insert, combos_new, index_entries, index_get, index_insert, index_new,
    ComboSet, PlayerIndex,
};
use crate::model::{Game, Score, Team, TeamType};
use crate::scores::MatchScores;

verus! {

/// One valid score, as the pass records it.
pub struct Appearance {
    pub user_id: u32,
    pub team: Team,
    /// The mod combination, NoFail set aside.
    pub combination: u32,
    pub cost: PointCost,
}

/// The point cost of the `i`-th score of a game.
pub open spec fn cost_in(scores: Seq<Score>, i: int) -> PointCost {
    PointCost {
        score: scores[i].score,
        game_total: score_sum(scores, scores.len() as int) as u128,
        game_players: valid_count(scores, scores.len() as int) as usize,
        tiebreaker: false,
    }
}

/// What the `i`-th score of a game is recorded as.
pub open spec fn appearance(scores: Seq<Score>, i: int) -> Appearance {
    Appearance {
        user_id: scores[i].user_id,
        team: scores[i].team,
        combination: scores[i].combination(),
        cost: cost_in(scores, i),
    }
}

/// The appearances among the first `n` scores of a game.
pub open spec fn game_appearances(scores: Seq<Score>, n: int) -> Seq<Appearance>
    decreases n,
{
    if n <= 0 {
        Seq::empty()
    } else if scores[n - 1].valid() {
        game_appearances(scores, n - 1).push(appearance(scores, n - 1))
    } else {
        game_appearances(scores, n - 1)
    }
}

/// The appearances in the first `g` games, in the order of play.
pub open spec fn match_appearances(games: Seq<Game>, g: int) -> Seq<Appearance>
    decreases g,
{
    if g <= 0 {
        Seq::empty()
    } else {
        match_appearances(games, g - 1) + game_appearances(
            games[g - 1].scores@,
            games[g - 1].scores@.len() as int,
        )
    }
}

/// The players that appear, each once, in the order in which they were first
/// seen.
pub open spec fn seen(apps: Seq<Appearance>) -> Seq<u32>
    decreases apps.len(),
{
    if apps.len() == 0 {
        Seq::empty()
    } else if seen(apps.drop_last()).contains(apps.last().user_id) {
        seen(apps.drop_last())
    } else {
        seen(apps.drop_last()).push(apps.last().user_id)
    }
}

/// The team of a player's first appearance.
pub open spec fn team_of(apps: Seq<Appearance>, user_id: u32) -> Team
    decreases apps.len(),
{
    if apps.len() == 0 {
        Team::NoTeam
    } else if seen(apps.drop_last()).contains(user_id) {
        team_of(apps.drop_last(), user_id)
    } else if apps.last().user_id == user_id {
        apps.last().team
    } else {
        Team::NoTeam
    }
}

/// A player's point costs, one for each appearance.
pub open spec fn costs_of(apps: Seq<Appearance>, user_id: u32) -> Seq<PointCost>
    decreases apps.len(),
{
    if apps.len() == 0 {
        Seq::empty()
    } else if apps.last().user_id == user_id {
        costs_of(apps.drop_last(), user_id).push(apps.last().cost)
    } else {
        costs_of(apps.drop_last(), user_id)
    }
}

/// The mod combinations a player appeared with.
pub open spec fn combos_of(apps: Seq<Appearance>, user_id: u32) -> Set<u32>
    decreases apps.len(),
{
    if apps.len() == 0 {
        Set::empty()
    } else if apps.last().user_id == user_id {
        combos_of(apps.drop_last(), user_id).insert(apps.last().combination)
    } else {
        combos_of(apps.drop_last(), user_id)
    }
}

/// Whether one of the first `n` scores of a game is a valid score of the
/// player.
pub open spec fn played_in(scores: Seq<Score>, user_id: u32, n: int) -> bool
    decreases n,
{
    n > 0 && (played_in(scores, user_id, n - 1) || (scores[n - 1].valid() && scores[n
        - 1].user_id == user_id))
}

/// Whether the player has a valid score in one of the first `g` games.
pub open spec fn played_before(games: Seq<Game>, user_id: u32, g: int) -> bool
    decreases g,
{
    g > 0 && (played_before(games, user_id, g - 1) || played_in(
        games[g - 1].scores@,
        user_id,
        games[g - 1].scores@.len() as int,
    ))
}

/// Whether the player has a valid score anywhere in the match.
pub open spec fn participated(games: Seq<Game>, user_id: u32) -> bool {
    exists|g: int, s: int|
        0 <= g < games.len() && 0 <= s < games[g].scores@.len() && (#[trigger] games[g].scores@[s]).valid()
            && games[g].scores@[s].user_id == user_id
}

/// The won games after the first `g` games.
pub open spec fn won_games(games: Seq<Game>, g: int) -> MatchScores
    decreases g,
{
    if g <= 0 {
        MatchScores(0, 0)
    } else {
        won_games(games, g - 1).with_win(winner(games[g - 1].scores@))
    }
}

/// Whether the last game counts as the deciding tiebreaker: the match is
/// over, had more than two games, and was won by one game.
pub open spec fn tiebreaker_applies(games: Seq<Game>, finished: bool) -> bool {
    finished && games.len() > 2 && won_games(games, games.len() as int).gap() == 1
}

/// The costs with the tiebreaker weighting on the latest one.
pub open spec fn decide_last(costs: Seq<PointCost>) -> Seq<PointCost> {
    if costs.len() > 0 {
        costs.update(costs.len() - 1, costs.last().decided())
    } else {
        costs
    }
}

/// A player's point costs once the tiebreaker has been looked at: where it
/// applies, the latest cost of everyone who scored in the last game carries
/// its weighting.
pub open spec fn final_costs(games: Seq<Game>, finished: bool, user_id: u32) -> Seq<PointCost> {
    let plain = costs_of(match_appearances(games, games.len() as int), user_id);
    if tiebreaker_applies(games, finished) && played_in(
        games.last().scores@,
        user_id,
        games.last().scores@.len() as int,
    ) {
        decide_last(plain)
    } else {
        plain
    }
}

/// The cost recorded for a valid score is well formed.
pub proof fn lemma_cost_in_wf(scores: Seq<Score>, i: int)
    requires
        0 <= i < scores.len() <= usize::MAX,
        scores[i].valid(),
    ensures
        cost_in(scores, i).wf(),
        cost_in(scores, i).game_total == score_sum(scores, scores.len() as int),
        cost_in(scores, i).game_players == valid_count(scores, scores.len() as int),
{
    let n = scores.len() as int;
    lemma_sum_bounds(scores, Team::NoTeam, n);
    lemma_valid_is_counted(scores, i, n);
    assert(valid_count(scores, n) * u32::MAX <= 0xffff_ffff_ffff_ffff * 0xffff_ffff)
        by (nonlinear_arith)
        requires
            0 <= valid_count(scores, n) <= 0xffff_ffff_ffff_ffff,
    ;
}

/// A player who has not been seen has no point cost and no mod combination.
pub proof fn lemma_unseen(apps: Seq<Appearance>, user_id: u32)
    requires
        !seen(apps).contains(user_id),
    ensures
        costs_of(apps, user_id) == Seq::<PointCost>::empty(),
        combos_of(apps, user_id) == Set::<u32>::empty(),
    decreases apps.len(),
{
    if apps.len() > 0 {
        let before = apps.drop_last();
        let last = apps.last().user_id;
        if seen(before).contains(user_id) {
            let i = choose|i: int| 0 <= i < seen(before).len() && seen(before)[i] == user_id;
            assert(seen(apps)[i] == user_id);
        }
        if last == user_id {
            if !seen(before).contains(last) {
                assert(seen(apps)[seen(before).len() as int] == user_id);
            }
        }
        lemma_unseen(before, user_id);
    }
}

/// A player has used finitely many mod combinations.
pub proof fn lemma_combos_finite(apps: Seq<Appearance>, user_id: u32)
    ensures
        combos_of(apps, user_id).finite(),
    decreases apps.len(),
{
    if apps.len() > 0 {
        lemma_combos_finite(apps.drop_last(), user_id);
    }
}

/// That the records, the index and the combination set hold what the pass
/// has gathered from the appearances `apps`.
pub open spec fn collected(
    players: Seq<PlayerTally>,
    index: Map<u32, usize>,
    combos: Set<(u32, u32)>,
    apps: Seq<Appearance>,
) -> bool {
    &&& players.len() == seen(apps).len()
    &&& forall|i: int|
        0 <= i < players.len() ==> {
            let p = #[trigger] players[i];
            &&& p.user_id == seen(apps)[i]
            &&& index.contains_key(p.user_id)
            &&& index[p.user_id] == i
            &&& p.team == team_of(apps, p.user_id)
            &&& p.point_costs@ == costs_of(apps, p.user_id)
            &&& p.mod_combinations == combos_of(apps, p.user_id).len()
            &&& p.mod_combinations <= p.point_costs@.len()
            &&& forall|k: int| 0 <= k < p.point_costs@.len() ==> (#[trigger] p.point_costs@[k]).wf()
        }
    &&& forall|user_id: u32| #[trigger]
        index.contains_key(user_id) ==> index[user_id] < players.len()
            && players[index[user_id] as int].user_id == user_id
    &&& forall|user_id: u32, combination: u32|
        combos.contains((user_id, combination)) <==> #[trigger] combos_of(apps, user_id).contains(
            combination,
        )
}

/// Takes one appearance into the records.
fn record(
    players: &mut Vec<PlayerTally>,
    index: &mut PlayerIndex,
    combos: &mut ComboSet,
    user_id: u32,
    team: Team,
    combination: u32,
    cost: PointCost,
    Ghost(apps): Ghost<Seq<Appearance>>,
)
    requires
        collected(old(players)@, index_entries(*old(index)), combo_members(*old(combos)), apps),
        cost.wf(),
    ensures
        collected(
            final(players)@,
            index_entries(*final(index)),
            combo_members(*final(combos)),
            apps.push(Appearance { user_id, team, combination, cost }),
        ),
{
    let ghost app = Appearance { user_id, team, combination, cost };
    let ghost after = apps.push(app);
    let ghost old_players = players@;
    let ghost old_index = index_entries(*index);
    proof {
        assert(after.drop_last() == apps);
        assert(after.last() == app);
        lemma_combos_finite(apps, user_id);
        assert forall|u: u32| seen(apps).contains(u) <==> old_index.contains_key(u) by {
            if seen(apps).contains(u) {
                let i = choose|i: int| 0 <= i < seen(apps).len() && seen(apps)[i] == u;
                assert(old_players[i].user_id == u);
            }
            if old_index.contains_key(u) {
                assert(seen(apps)[old_index[u] as int] == u);
            }
        }
    }
    let ghost old_combos = combo_members(*combos);
    let fresh = combos_insert(combos, user_id, combination);
    proof {
        assert forall|u: u32, m: u32|
            combo_members(*combos).contains((u, m)) <==> #[trigger] combos_of(after, u).contains(
                m,
            ) by {
            assert(old_combos.contains((u, m)) <==> combos_of(apps, u).contains(m));
        }
    }
    match index_get(index, user_id) {
        Some(position) => {
            players[position].point_costs.push(cost);
            let played = players[position].point_costs.len();
            assert(players@[position as int].mod_combinations < played);
            if fresh {
                players[position].mod_combinations = players[position].mod_combinations + 1;
            }
            proof {
                assert(seen(after) == seen(apps));
                assert forall|i: int| 0 <= i < players@.len() implies {
                    let p = #[trigger] players@[i];
                    &&& p.team == team_of(after, p.user_id)
                    &&& p.point_costs@ == costs_of(after, p.user_id)
                    &&& p.mod_combinations == combos_of(after, p.user_id).len()
                } by {
                    let p = players@[i];
                    assert(p.user_id == old_players[i].user_id);
                    assert(seen(apps).contains(p.user_id));
                }
            }
        },
        None => {
            let mut point_costs: Vec<PointCost> = Vec::new();
            point_costs.push(cost);
            let position = players.len();
            players.push(PlayerTally { user_id, team, point_costs, mod_combinations: 1 });
            index_insert(index, user_id, position);
            proof {
                lemma_unseen(apps, user_id);
                assert(seen(after) == seen(apps).push(user_id));
                assert(combos_of(after, user_id) == Set::<u32>::empty().insert(combination));
                assert(costs_of(after, user_id) == Seq::<PointCost>::empty().push(cost));
                assert forall|i: int| 0 <= i < old_players.len() implies {
                    let p = #[trigger] players@[i];
                    &&& p.user_id != user_id
                    &&& p.team == team_of(after, p.user_id)
                } by {
                    assert(players@[i] == old_players[i]);
                    assert(seen(apps).contains(old_players[i].user_id));
                }
            }
        },
    }
}

/// What the collecting pass returns.
#[derive(Debug)]
pub struct MatchTally {
    /// One record for each player with a valid score, in the order in which
    /// the players were first seen.
    pub players: Vec<PlayerTally>,
    /// The games each team has won.
    pub match_scores: MatchScores,
    /// Whether the first game was played team against team.
    pub team_vs: bool,
    /// The number of games.
    pub games: usize,
    /// Whether the last game was weighted as the deciding tiebreaker.
    pub tiebreaker: bool,
}

impl MatchTally {
    /// That this is what the games of a match amount to.
    pub open spec fn is_tally_of(self, games: Seq<Game>, finished: bool) -> bool {
        let apps = match_appearances(games, games.len() as int);
        &&& self.games == games.len()
        &&& self.team_vs == (games[0].team_type == TeamType::TeamVS)
        &&& self.match_scores == won_games(games, games.len() as int)
        &&& self.tiebreaker == tiebreaker_applies(games, finished)
        &&& self.players@.len() == seen(apps).len()
        &&& forall|i: int|
            0 <= i < self.players@.len() ==> {
                let p = #[trigger] self.players@[i];
                &&& p.user_id == seen(apps)[i]
                &&& p.team == team_of(apps, p.user_id)
                &&& p.point_costs@ == final_costs(games, finished, p.user_id)
                &&& p.mod_combinations == combos_of(apps, p.user_id).len()
            }
    }

    /// That the match has a game, and every player a point cost, each well
    /// formed.
    pub open spec fn wf(self) -> bool {
        &&& self.games > 0
        &&& forall|i: int| 0 <= i < self.players@.len() ==> (#[trigger] self.players@[i]).wf()
    }
}

/// That the records hold what was gathered from `apps`, with the tiebreaker
/// weighting on the latest cost of each player who has a valid score among
/// the first `n` of `scores`.
pub open spec fn weighted(
    players: Seq<PlayerTally>,
    index: Map<u32, usize>,
    apps: Seq<Appearance>,
    scores: Seq<Score>,
    n: int,
) -> bool {
    &&& players.len() == seen(apps).len()
    &&& forall|i: int|
        0 <= i < players.len() ==> {
            let p = #[trigger] players[i];
            &&& p.user_id == seen(apps)[i]
            &&& index.contains_key(p.user_id)
            &&& index[p.user_id] == i
            &&& p.team == team_of(apps, p.user_id)
            &&& p.point_costs@ == (if played_in(scores, p.user_id, n) {
                decide_last(costs_of(apps, p.user_id))
            } else {
                costs_of(apps, p.user_id)
            })
            &&& p.mod_combinations == combos_of(apps, p.user_id).len()
            &&& forall|k: int| 0 <= k < p.point_costs@.len() ==> (#[trigger] p.point_costs@[k]).wf()
        }
    &&& forall|user_id: u32| #[trigger]
        index.contains_key(user_id) ==> index[user_id] < players.len()
            && players[index[user_id] as int].user_id == user_id
}

/// Puts the tiebreaker weighting on the latest cost of every player with a
/// valid score among `scores`.
fn weight_tiebreaker(
    players: &mut Vec<PlayerTally>,
    index: &PlayerIndex,
    scores: &Vec<Score>,
    Ghost(apps): Ghost<Seq<Appearance>>,
)
    requires
        weighted(old(players)@, index_entries(*index), apps, scores@, 0),
    ensures
        weighted(final(players)@, index_entries(*index), apps, scores@, scores@.len() as int),
{
    let mut s: usize = 0;
    while s < scores.len()
        invariant
            s <= scores.len(),
            weighted(players@, index_entries(*index), apps, scores@, s as int),
        decreases scores.len() - s,
    {
        let score = scores[s];
        let ghost before = players@;
        if score.is_valid() {
            match index_get(index, score.user_id) {
                Some(position) => {
                    let played = players[position].point_costs.len();
                    if played > 0 {
                        players[position].point_costs[played - 1].tiebreaker = true;
                    }
                    proof {
                        let p = before[position as int];
                        let plain = costs_of(apps, p.user_id);
                        assert(players@[position as int].point_costs@ == decide_last(plain));
                        assert forall|i: int| 0 <= i < players@.len() && i != position implies {
                            let q = #[trigger] players@[i];
                            q == before[i] && q.user_id != score.user_id
                        } by {}
                    }
                },
                None => {
                    proof {
                        assert forall|i: int| 0 <= i < players@.len() implies (
                        #[trigger] players@[i]).user_id != score.user_id by {}
                    }
                },
            }
        }
        s = s + 1;
    }
}

/// Gathers the games of a match into one record per player.
pub fn tally_match(games: &[Game], finished: bool) -> (tally: MatchTally)
    requires
        games@.len() > 0,
    ensures
        tally.is_tally_of(games@, finished),
        tally.wf(),
{
    let mut players: Vec<PlayerTally> = Vec::new();
    let mut index = index_new();
    let mut combos = combos_new();
    let mut match_scores = MatchScores::new();
    let mut g: usize = 0;
    while g < games.len()
        invariant
            g <= games.len(),
            collected(
                players@,
                index_entries(index),
                combo_members(combos),
                match_appearances(games@, g as int),
            ),
            match_scores == won_games(games@, g as int),
        decreases games.len() - g,
    {
        let game = &games[g];
        let totals = game.totals();
        let ghost earlier = match_appearances(games@, g as int);
        let mut s: usize = 0;
        while s < game.scores.len()
            invariant
                s <= game.scores.len(),
                totals.of(game.scores@),
                earlier == match_appearances(games@, g as int),
                collected(
                    players@,
                    index_entries(index),
                    combo_members(combos),
                    earlier + game_appearances(game.scores@, s as int),
                ),
            decreases game.scores.len() - s,
        {
            let score = game.scores[s];
            if score.is_valid() {
                let ghost apps = earlier + game_appearances(game.scores@, s as int);
                let cost = PointCost {
                    score: score.score,
                    game_total: totals.total,
                    game_players: totals.players,
                    tiebreaker: false,
                };
                proof {
                    lemma_cost_in_wf(game.scores@, s as int);
                    assert(cost == cost_in(game.scores@, s as int));
                }
                record(
                    &mut players,
                    &mut index,
                    &mut combos,
                    score.user_id,
                    score.team,
                    score.mod_combination(),
                    cost,
                    Ghost(apps),
                );
                proof {
                    assert(apps.push(appearance(game.scores@, s as int)) == earlier
                        + game_appearances(game.scores@, s + 1));
                }
            }
            s = s + 1;
        }
        match_scores.incr(totals.winner());
        g = g + 1;
    }
    let tiebreaker = finished && games.len() > 2 && match_scores.difference() == 1;
    let ghost apps = match_appearances(games@, games@.len() as int);
    if tiebreaker {
        weight_tiebreaker(&mut players, &index, &games[games.len() - 1].scores, Ghost(apps));
    }
    proof {
        assert forall|i: int| 0 <= i < players@.len() implies (#[trigger] players@[i]).wf() by {
            let p = players@[i];
            assert(seen(apps).contains(p.user_id));
            lemma_seen_iff_cost(apps, p.user_id);
        }
    }
    MatchTally {
        players,
        match_scores,
        team_vs: games[0].team_type == TeamType::TeamVS,
        games: games.len(),
        tiebreaker,
    }
}

/// The point costs of a player over two runs of appearances are those of
/// the first followed by those of the second.
pub proof fn lemma_costs_concat(a: Seq<Appearance>, b: Seq<Appearance>, user_id: u32)
    ensures
        costs_of(a + b, user_id) == costs_of(a, user_id) + costs_of(b, user_id),
    decreases b.len(),
{
    if b.len() == 0 {
        assert(a + b == a);
    } else {
        assert((a + b).drop_last() == a + b.drop_last());
        assert((a + b).last() == b.last());
        lemma_costs_concat(a, b.drop_last(), user_id);
    }
}

/// A player is among those seen exactly if the player has a point cost.
pub proof fn lemma_seen_iff_cost(apps: Seq<Appearance>, user_id: u32)
    ensures
        seen(apps).contains(user_id) <==> costs_of(apps, user_id).len() > 0,
    decreases apps.len(),
{
    if apps.len() > 0 {
        let before = apps.drop_last();
        let last = apps.last().user_id;
        lemma_seen_iff_cost(before, user_id);
        if seen(before).contains(user_id) {
            let i = choose|i: int| 0 <= i < seen(before).len() && seen(before)[i] == user_id;
            assert(seen(apps)[i] == user_id);
        } else if last == user_id {
            assert(seen(apps)[seen(before).len() as int] == user_id);
        } else if seen(apps).contains(user_id) {
            let i = choose|i: int| 0 <= i < seen(apps).len() && seen(apps)[i] == user_id;
            assert(seen(before)[i] == user_id);
        }
    }
}

/// A game gives a player a point cost exactly if the player has a valid
/// score in it.
pub proof fn lemma_game_cost_iff_played(scores: Seq<Score>, user_id: u32, n: int)
    requires
        0 <= n <= scores.len(),
    ensures
        costs_of(game_appearances(scores, n), user_id).len() > 0 <==> played_in(scores, user_id, n),
    decreases n,
{
    if n > 0 {
        lemma_game_cost_iff_played(scores, user_id, n - 1);
        if scores[n - 1].valid() {
            let before = game_appearances(scores, n - 1);
            let now = game_appearances(scores, n);
            assert(now.drop_last() == before);
            assert(now.last() == appearance(scores, n - 1));
        }
    }
}

/// The first `g` games give a player a point cost exactly if the player has
/// a valid score in one of them.
pub proof fn lemma_match_cost_iff_played(games: Seq<Game>, user_id: u32, g: int)
    requires
        0 <= g <= games.len(),
    ensures
        costs_of(match_appearances(games, g), user_id).len() > 0 <==> played_before(
            games,
            user_id,
            g,
        ),
    decreases g,
{
    if g > 0 {
        let scores = games[g - 1].scores@;
        lemma_match_cost_iff_played(games, user_id, g - 1);
        lemma_game_cost_iff_played(scores, user_id, scores.len() as int);
        lemma_costs_concat(
            match_appearances(games, g - 1),
            game_appearances(scores, scores.len() as int),
            user_id,
        );
    }
}

/// `played_in` holds exactly if one of the scores it ranges over is a valid
/// score of the player.
pub proof fn lemma_played_in(scores: Seq<Score>, user_id: u32, n: int)
    requires
        0 <= n <= scores.len(),
    ensures
        played_in(scores, user_id, n) <==> exists|s: int|
            0 <= s < n && (#[trigger] scores[s]).valid() && scores[s].user_id == user_id,
    decreases n,
{
    if n > 0 {
        lemma_played_in(scores, user_id, n - 1);
        if scores[n - 1].valid() && scores[n - 1].user_id == user_id {
            assert(0 <= n - 1 < n && scores[n - 1].valid());
        }
    }
}

/// Whether the player has a valid score in one of the first `g` games, said
/// of the scores themselves.
pub open spec fn participated_before(games: Seq<Game>, user_id: u32, g: int) -> bool {
    exists|h: int, s: int|
        0 <= h < g && 0 <= s < games[h].scores@.len() && (#[trigger] games[h].scores@[s]).valid()
            && games[h].scores@[s].user_id == user_id
}

/// `played_before` and `participated_before` say the same.
pub proof fn lemma_played_before(games: Seq<Game>, user_id: u32, g: int)
    requires
        0 <= g <= games.len(),
    ensures
        played_before(games, user_id, g) <==> participated_before(games, user_id, g),
    decreases g,
{
    if g > 0 {
        let scores = games[g - 1].scores@;
        lemma_played_before(games, user_id, g - 1);
        lemma_played_in(scores, user_id, scores.len() as int);
        if played_before(games, user_id, g - 1) {
            let (h, s) = choose|h: int, s: int|
                0 <= h < g - 1 && 0 <= s < games[h].scores@.len() && (
                #[trigger] games[h].scores@[s]).valid() && games[h].scores@[s].user_id == user_id;
            assert(0 <= h < g && games[h].scores@[s].valid());
        }
        if played_in(scores, user_id, scores.len() as int) {
            let s = choose|s: int|
                0 <= s < scores.len() && (#[trigger] scores[s]).valid() && scores[s].user_id
                    == user_id;
            assert(0 <= g - 1 < g && games[g - 1].scores@[s].valid());
        }
        if participated_before(games, user_id, g) {
            let (h, s) = choose|h: int, s: int|
                0 <= h < g && 0 <= s < games[h].scores@.len() && (
                #[trigger] games[h].scores@[s]).valid() && games[h].scores@[s].user_id == user_id;
            if h < g - 1 {
                assert(0 <= h < g - 1 && games[h].scores@[s].valid());
            } else {
                assert(scores[s].valid());
            }
        }
    }
}

/// The players of a tally are exactly those with a valid score somewhere in
/// the match: nobody is listed who never scored, and nobody who scored is
/// left out.
pub proof fn lemma_players_are_participants(games: Seq<Game>, user_id: u32)
    ensures
        seen(match_appearances(games, games.len() as int)).contains(user_id) <==> participated(
            games,
            user_id,
        ),
{
    let n = games.len() as int;
    lemma_seen_iff_cost(match_appearances(games, n), user_id);
    lemma_match_cost_iff_played(games, user_id, n);
    lemma_played_before(games, user_id, n);
    if participated(games, user_id) {
        let (h, s) = choose|h: int, s: int|
            0 <= h < games.len() && 0 <= s < games[h].scores@.len() && (
            #[trigger] games[h].scores@[s]).valid() && games[h].scores@[s].user_id == user_id;
        assert(0 <= h < n && games[h].scores@[s].valid());
    }
    if participated_before(games, user_id, n) {
        let (h, s) = choose|h: int, s: int|
            0 <= h < n && 0 <= s < games[h].scores@.len() && (#[trigger] games[h].scores@[s]).valid()
                && games[h].scores@[s].user_id == user_id;
        assert(0 <= h < games.len() && games[h].scores@[s].valid());
    }
}

/// A game in which nobody scored above zero adds no appearance, so no point
/// cost to anyone, and is won by neither team.
pub proof fn lemma_empty_game(games: Seq<Game>, g: int, user_id: u32)
    requires
        0 <= g < games.len(),
        forall|s: int| 0 <= s < games[g].scores@.len() ==> !(#[trigger] games[g].scores@[s]).valid(),
    ensures
        match_appearances(games, g + 1) == match_appearances(games, g),
        costs_of(match_appearances(games, g + 1), user_id) == costs_of(
            match_appearances(games, g),
            user_id,
        ),
        won_games(games, g + 1) == won_games(games, g),
{
    let scores = games[g].scores@;
    lemma_no_appearance(scores, scores.len() as int);
    crate::game::lemma_no_valid_score(scores, scores.len() as int);
    assert(match_appearances(games, g) + Seq::<Appearance>::empty() == match_appearances(games, g));
}

/// Scores of zero are no appearances.
pub proof fn lemma_no_appearance(scores: Seq<Score>, n: int)
    requires
        0 <= n <= scores.len(),
        forall|s: int| 0 <= s < n ==> !(#[trigger] scores[s]).valid(),
    ensures
        game_appearances(scores, n) == Seq::<Appearance>::empty(),
    decreases n,
{
    if n > 0 {
        lemma_no_appearance(scores, n - 1);
        assert(!scores[n - 1].valid());
    }
}

/// Whether no player has two valid scores in the game.
pub open spec fn listed_once(scores: Seq<Score>) -> bool {
    forall|i: int, j: int|
        0 <= i < j < scores.len() && (#[trigger] scores[i]).valid() && (#[trigger] scores[j]).valid()
            ==> scores[i].user_id != scores[j].user_id
}

/// A game that lists nobody twice gives a player at most one point cost.
pub proof fn lemma_one_cost_a_game(scores: Seq<Score>, user_id: u32, n: int)
    requires
        0 <= n <= scores.len(),
        listed_once(scores),
    ensures
        costs_of(game_appearances(scores, n), user_id).len() <= 1,
    decreases n,
{
    if n > 0 {
        lemma_one_cost_a_game(scores, user_id, n - 1);
        if scores[n - 1].valid() {
            let before = game_appearances(scores, n - 1);
            let now = game_appearances(scores, n);
            assert(now.drop_last() == before);
            assert(now.last() == appearance(scores, n - 1));
            if scores[n - 1].user_id == user_id {
                lemma_game_cost_iff_played(scores, user_id, n - 1);
                lemma_played_in(scores, user_id, n - 1);
                if played_in(scores, user_id, n - 1) {
                    let s = choose|s: int|
                        0 <= s < n - 1 && (#[trigger] scores[s]).valid() && scores[s].user_id
                            == user_id;
                    assert(scores[s].user_id != scores[n - 1].user_id);
                }
            }
        }
    }
}

/// Where no game lists a player twice, a player has at most one point cost
/// for each game.
pub proof fn lemma_costs_within_games(games: Seq<Game>, user_id: u32, g: int)
    requires
        0 <= g <= games.len(),
        forall|h: int| 0 <= h < games.len() ==> listed_once(#[trigger] games[h].scores@),
    ensures
        costs_of(match_appearances(games, g), user_id).len() <= g,
    decreases g,
{
    if g > 0 {
        let scores = games[g - 1].scores@;
        lemma_costs_within_games(games, user_id, g - 1);
        lemma_one_cost_a_game(scores, user_id, scores.len() as int);
        lemma_costs_concat(
            match_appearances(games, g - 1),
            game_appearances(scores, scores.len() as int),
            user_id,
        );
    }
}

/// Where no game lists a player twice, the participation exponent of every
/// player lies between zero and one.
pub proof fn lemma_exponent_within_one(games: Seq<Game>, finished: bool, user_id: u32)
    requires
        forall|h: int| 0 <= h < games.len() ==> listed_once(#[trigger] games[h].scores@),
    ensures
        ({
            let played = final_costs(games, finished, user_id).len() as int;
            let fraction = exponent(played, games.len() as int);
            0 <= fraction.0 <= fraction.1 && fraction.1 > 0
        }),
{
    lemma_costs_within_games(games, user_id, games.len() as int);
}

} // verus!
