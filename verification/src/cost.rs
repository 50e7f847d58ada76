//! The terms a match cost is made of, as exact integers and fractions.
//!
//! A player's match cost is
//! `mean(point costs) * mod factor * 1.4 ^ (exponent ^ 0.6)`.
//! Everything but the last power is rational, and this module says what each
//! rational is.

use vstd::prelude::*;
use crate::model::Team;

verus! {

/// One player's showing in one game: the score, and the game it is measured
/// against.
///
/// Its value is `score / average + 1/2`, where `average` is the game's total
/// divided by the number of its valid scorers. Under the tiebreaker weighting
/// the value is doubled and the flat half is taken off again once.
#[derive(Clone, Copy, Debug, PartialEq, Eq, Structural)]
pub struct PointCost {
    /// The player's score in the game.
    pub score: u32,
    /// The sum of all scores of the game.
    pub game_total: u128,
    /// How many players of the game scored above zero.
    pub game_players: usize,
    /// Whether the game counts as the deciding tiebreaker for this player.
    pub tiebreaker: bool,
}

impl PointCost {
    /// A record as the collecting pass makes it: the score is a valid one of
    /// the game whose figures it carries.
    pub open spec fn wf(self) -> bool {
        &&& 0 < self.score
        &&& self.score <= self.game_total
        &&& 0 < self.game_players
        &&& self.game_total <= self.game_players * u32::MAX
    }

    /// The score times the number of the game's valid scorers: over the
    /// game's total, the score relative to the average.
    pub open spec fn relative(self) -> int {
        self.score * self.game_players
    }

    /// The numerator of the value over `denom()`:
    /// `weight * score / (total / players) + 1/2`, brought to one fraction.
    pub open spec fn numer(self) -> int {
        if self.tiebreaker {
            4 * self.relative() + self.game_total
        } else {
            2 * self.relative() + self.game_total
        }
    }

    /// Twice the game's total.
    pub open spec fn denom(self) -> int {
        2 * self.game_total
    }

    /// The same record with the tiebreaker weighting switched on.
    pub open spec fn decided(self) -> PointCost {
        PointCost { tiebreaker: true, ..self }
    }

    pub fn numerator(&self) -> (n: u128)
        requires
            self.wf(),
        ensures
            n == self.numer(),
    {
        let weight: u128 = if self.tiebreaker { 4 } else { 2 };
        let score: u128 = self.score as u128;
        let players: u128 = self.game_players as u128;
        assert(score * players <= 0xffff_ffff * 0xffff_ffff_ffff_ffff) by (nonlinear_arith)
            requires
                score <= 0xffff_ffff,
                players <= 0xffff_ffff_ffff_ffff,
        ;
        assert(self.game_total <= 0xffff_ffff_ffff_ffff * 0xffff_ffff) by (nonlinear_arith)
            requires
                self.game_total <= self.game_players * 0xffff_ffff,
                self.game_players <= 0xffff_ffff_ffff_ffff,
        ;
        let relative: u128 = score * players;
        weight * relative + self.game_total
    }

    pub fn denominator(&self) -> (d: u128)
        requires
            self.wf(),
        ensures
            d == self.denom(),
            d > 0,
    {
        assert(self.game_total <= 0xffff_ffff_ffff_ffff * 0xffff_ffff) by (nonlinear_arith)
            requires
                self.game_total <= self.game_players * 0xffff_ffff,
                self.game_players <= 0xffff_ffff_ffff_ffff,
        ;
        2 * self.game_total
    }
}

/// Every point cost is worth more than the flat half: `numer / denom > 1/2`.
pub proof fn lemma_point_cost_above_half(cost: PointCost)
    requires
        cost.wf(),
    ensures
        cost.denom() > 0,
        2 * cost.numer() > cost.denom(),
{
    assert(cost.relative() > 0) by (nonlinear_arith)
        requires
            cost.relative() == cost.score * cost.game_players,
            cost.score > 0,
            cost.game_players > 0,
    ;
}

/// The tiebreaker weighting doubles the value and takes the flat half off:
/// `decided = 2 * plain - 1/2`, over the common denominator.
pub proof fn lemma_tiebreaker_doubles(cost: PointCost)
    requires
        !cost.tiebreaker,
    ensures
        cost.decided().denom() == cost.denom(),
        2 * cost.decided().numer() == 4 * cost.numer() - cost.denom(),
{
}

/// The number of mod combinations that earn nothing.
pub const FREE_COMBINATIONS: usize = 2;

/// What each further mod combination adds to the factor, in hundredths.
pub const MOD_BONUS_PERCENT: u128 = 2;

/// How many mod combinations beyond the free ones a count of `combinations`
/// holds.
pub open spec fn bonus_steps(combinations: int) -> int {
    if combinations > FREE_COMBINATIONS { combinations - FREE_COMBINATIONS } else { 0 }
}

/// The factor on every point cost of a player, in hundredths:
/// `100 + 2 * bonus_steps`.
pub open spec fn mod_percent(combinations: int) -> int {
    100 + MOD_BONUS_PERCENT * bonus_steps(combinations)
}

/// The participation exponent as a fraction: `(played - 1) / (games - 1)`,
/// and zero where the match has a single game or the player none.
pub open spec fn exponent(played: int, games: int) -> (int, int) {
    if games <= 1 || played <= 0 {
        (0, 1)
    } else {
        (played - 1, games - 1)
    }
}

pub fn mod_bonus_steps(combinations: usize) -> (steps: usize)
    ensures
        steps == bonus_steps(combinations as int),
{
    if combinations > FREE_COMBINATIONS {
        combinations - FREE_COMBINATIONS
    } else {
        0
    }
}

pub fn mod_factor_percent(combinations: usize) -> (percent: u128)
    ensures
        percent == mod_percent(combinations as int),
{
    let steps: u128 = mod_bonus_steps(combinations) as u128;
    100 + MOD_BONUS_PERCENT * steps
}

pub fn participation_exponent(played: usize, games: usize) -> (fraction: (usize, usize))
    ensures
        fraction.0 == exponent(played as int, games as int).0,
        fraction.1 == exponent(played as int, games as int).1,
        fraction.1 > 0,
{
    if games <= 1 || played == 0 {
        (0, 1)
    } else {
        (played - 1, games - 1)
    }
}

/// Up to two distinct combinations the factor is one; each further
/// combination adds two hundredths.
pub proof fn lemma_mod_factor(combinations: int)
    requires
        combinations >= 0,
    ensures
        combinations <= 2 ==> mod_percent(combinations) == 100,
        combinations >= 2 ==> mod_percent(combinations) == 100 + 2 * (combinations - 2),
{
}

/// A player who was in every game of a match of several games has exponent
/// one; a player who was in one game has exponent zero.
pub proof fn lemma_participation_scale(played: int, games: int)
    requires
        games > 1,
        played >= 1,
    ensures
        exponent(played, games).1 > 0,
        played == games ==> exponent(played, games).0 == exponent(played, games).1,
        played == 1 ==> exponent(played, games).0 == 0,
{
}

/// In a match of one game the exponent is zero, however often the player is
/// listed.
pub proof fn lemma_single_game(played: int)
    ensures
        exponent(played, 1) == (0int, 1int),
{
}

/// What the collecting pass knows of one player.
#[derive(Debug)]
pub struct PlayerTally {
    pub user_id: u32,
    /// The team of the player's first valid score.
    pub team: Team,
    /// One entry for each valid score, in the order of play.
    pub point_costs: Vec<PointCost>,
    /// How many distinct mod combinations the player used, NoFail set aside.
    pub mod_combinations: usize,
}

impl PlayerTally {
    /// That the player has a point cost, and every one is well formed.
    pub open spec fn wf(self) -> bool {
        &&& self.point_costs@.len() > 0
        &&& forall|k: int|
            0 <= k < self.point_costs@.len() ==> (#[trigger] self.point_costs@[k]).wf()
    }

    pub fn games_played(&self) -> (n: usize)
        ensures
            n == self.point_costs@.len(),
    {
        self.point_costs.len()
    }

    /// How many mod combinations of the player earn a bonus.
    pub fn mod_bonus_steps(&self) -> (steps: usize)
        ensures
            steps == bonus_steps(self.mod_combinations as int),
    {
        mod_bonus_steps(self.mod_combinations)
    }

    /// The factor on the player's point costs, in hundredths.
    pub fn mod_factor_percent(&self) -> (percent: u128)
        ensures
            percent == mod_percent(self.mod_combinations as int),
    {
        mod_factor_percent(self.mod_combinations)
    }

    /// The participation exponent in a match of `games` games.
    pub fn participation_exponent(&self, games: usize) -> (fraction: (usize, usize))
        ensures
            fraction.0 == exponent(self.point_costs@.len() as int, games as int).0,
            fraction.1 == exponent(self.point_costs@.len() as int, games as int).1,
            fraction.1 > 0,
    {
        participation_exponent(self.point_costs.len(), games)
    }
}

} // verus!
