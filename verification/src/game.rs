//! What one game adds up to: its total, its valid scorers, and its winner.

use vstd::prelude::*;
use crate::model::{Game, Score, Team};

verus! {

/// The sum of the first `n` scores. Scores of zero add nothing, so this is
/// also the sum over the valid ones.
pub open spec fn score_sum(scores: Seq<Score>, n: int) -> int
    decreases n,
{
    if n <= 0 {
        0
    } else {
        score_sum(scores, n - 1) + scores[n - 1].score
    }
}

/// How many of the first `n` scores are valid.
pub open spec fn valid_count(scores: Seq<Score>, n: int) -> int
    decreases n,
{
    if n <= 0 {
        0
    } else {
        valid_count(scores, n - 1) + if scores[n - 1].valid() { 1int } else { 0int }
    }
}

/// The sum of those of the first `n` scores that were set for `team`.
pub open spec fn team_sum(scores: Seq<Score>, team: Team, n: int) -> int
    decreases n,
{
    if n <= 0 {
        0
    } else {
        team_sum(scores, team, n - 1) + if scores[n - 1].team == team {
            scores[n - 1].score as int
        } else {
            0int
        }
    }
}

/// The team with the higher sum; neither where the sums are equal, as they
/// are when nobody scored.
pub open spec fn winner_by(blue: int, red: int) -> Team {
    if blue > red {
        Team::Blue
    } else if red > blue {
        Team::Red
    } else {
        Team::NoTeam
    }
}

/// The team that won the game.
pub open spec fn winner(scores: Seq<Score>) -> Team {
    winner_by(
        team_sum(scores, Team::Blue, scores.len() as int),
        team_sum(scores, Team::Red, scores.len() as int),
    )
}

/// The sums of one game.
#[derive(Clone, Copy, Debug, PartialEq, Eq, Structural)]
pub struct GameTotals {
    /// The sum of all scores.
    pub total: u128,
    /// The number of valid scorers.
    pub players: usize,
    /// The sum of the scores set for the blue team.
    pub blue: u128,
    /// The sum of the scores set for the red team.
    pub red: u128,
}

impl GameTotals {
    /// That these are the sums of `scores`.
    pub open spec fn of(self, scores: Seq<Score>) -> bool {
        &&& self.total == score_sum(scores, scores.len() as int)
        &&& self.players == valid_count(scores, scores.len() as int)
        &&& self.blue == team_sum(scores, Team::Blue, scores.len() as int)
        &&& self.red == team_sum(scores, Team::Red, scores.len() as int)
    }

    pub fn winner(&self) -> (team: Team)
        ensures
            team == winner_by(self.blue as int, self.red as int),
    {
        if self.blue > self.red {
            Team::Blue
        } else if self.red > self.blue {
            Team::Red
        } else {
            Team::NoTeam
        }
    }
}

/// The sums stay within what their number of terms allows, and a team's sum
/// within the total.
pub proof fn lemma_sum_bounds(scores: Seq<Score>, team: Team, n: int)
    requires
        0 <= n <= scores.len(),
    ensures
        0 <= valid_count(scores, n) <= n,
        0 <= team_sum(scores, team, n) <= score_sum(scores, n),
        score_sum(scores, n) <= valid_count(scores, n) * u32::MAX,
    decreases n,
{
    if n > 0 {
        lemma_sum_bounds(scores, team, n - 1);
        assert((valid_count(scores, n - 1) + 1) * u32::MAX == valid_count(scores, n - 1)
            * u32::MAX + u32::MAX) by (nonlinear_arith);
    }
}

/// A valid score among the first `n` is counted, and is part of the sum.
pub proof fn lemma_valid_is_counted(scores: Seq<Score>, i: int, n: int)
    requires
        0 <= i < n <= scores.len(),
        scores[i].valid(),
    ensures
        valid_count(scores, n) > 0,
        scores[i].score <= score_sum(scores, n),
    decreases n,
{
    lemma_sum_bounds(scores, Team::NoTeam, n - 1);
    if i < n - 1 {
        lemma_valid_is_counted(scores, i, n - 1);
    }
}

/// Where no score is valid, the game has no total, no scorer and no winner.
pub proof fn lemma_no_valid_score(scores: Seq<Score>, n: int)
    requires
        0 <= n <= scores.len(),
        forall|i: int| 0 <= i < n ==> !(#[trigger] scores[i]).valid(),
    ensures
        score_sum(scores, n) == 0,
        valid_count(scores, n) == 0,
        team_sum(scores, Team::Blue, n) == 0,
        team_sum(scores, Team::Red, n) == 0,
        n == scores.len() ==> winner(scores) == Team::NoTeam,
    decreases n,
{
    if n > 0 {
        lemma_no_valid_score(scores, n - 1);
        assert(!scores[n - 1].valid());
    }
}

impl Game {
    /// Adds up the game.
    pub fn totals(&self) -> (totals: GameTotals)
        ensures
            totals.of(self.scores@),
    {
        let mut totals = GameTotals { total: 0, players: 0, blue: 0, red: 0 };
        let mut i: usize = 0;
        while i < self.scores.len()
            invariant
                i <= self.scores.len(),
                totals.total == score_sum(self.scores@, i as int),
                totals.players == valid_count(self.scores@, i as int),
                totals.blue == team_sum(self.scores@, Team::Blue, i as int),
                totals.red == team_sum(self.scores@, Team::Red, i as int),
            decreases self.scores.len() - i,
        {
            proof {
                lemma_sum_bounds(self.scores@, Team::Blue, i as int);
                lemma_sum_bounds(self.scores@, Team::Red, i as int);
                assert(valid_count(self.scores@, i as int) * u32::MAX <= i * u32::MAX)
                    by (nonlinear_arith)
                    requires
                        valid_count(self.scores@, i as int) <= i,
                ;
                assert(i * u32::MAX <= usize::MAX * u32::MAX) by (nonlinear_arith)
                    requires
                        i <= usize::MAX,
                ;
                assert(usize::MAX * u32::MAX <= 0xffff_ffff_ffff_ffff * 0xffff_ffff)
                    by (nonlinear_arith)
                    requires
                        usize::MAX <= 0xffff_ffff_ffff_ffff,
                ;
            }
            let score = self.scores[i];
            totals.total = totals.total + score.score as u128;
            if score.score > 0 {
                totals.players = totals.players + 1;
            }
            match score.team {
                Team::Blue => {
                    totals.blue = totals.blue + score.score as u128;
                },
                Team::Red => {
                    totals.red = totals.red + score.score as u128;
                },
                Team::NoTeam => {},
            }
            i = i + 1;
        }
        totals
    }
}

} // verus!
