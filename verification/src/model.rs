//! The input of a rating: games, and the score records in them.

use vstd::prelude::*;

verus! {

/// The side a score was set for.
#[derive(Clone, Copy, Debug, PartialEq, Eq, Structural)]
pub enum Team {
    NoTeam,
    Blue,
    Red,
}

/// How the players of a game were grouped.
#[derive(Clone, Copy, Debug, PartialEq, Eq, Structural)]
pub enum TeamType {
    HeadToHead,
    TagCoop,
    TeamVS,
    TagTeamVS,
}

/// The bit of a mod combination that stands for NoFail.
pub const NO_FAIL: u32 = 1;

/// One player's result in one game.
#[derive(Clone, Copy, Debug, PartialEq, Eq, Structural)]
pub struct Score {
    pub user_id: u32,
    pub score: u32,
    /// The mod combination as a bit mask.
    pub mods: u32,
    pub team: Team,
}

/// One played beatmap of a match.
#[derive(Clone, Debug)]
pub struct Game {
    pub team_type: TeamType,
    pub scores: Vec<Score>,
}

/// What is shown of a user.
#[derive(Clone, Debug)]
pub struct UserInfo {
    pub avatar_url: String,
}

impl Score {
    /// A score of zero stands for a player who did not submit.
    pub open spec fn valid(self) -> bool {
        self.score > 0
    }

    /// The mod combination without the NoFail bit, which does not tell two
    /// combinations apart.
    pub open spec fn combination(self) -> u32 {
        self.mods & !NO_FAIL
    }

    pub fn is_valid(&self) -> (r: bool)
        ensures
            r == self.valid(),
    {
        self.score > 0
    }

    pub fn mod_combination(&self) -> (r: u32)
        ensures
            r == self.combination(),
    {
        self.mods & !NO_FAIL
    }
}

/// NoFail does not tell two mod combinations apart: with or without it, a
/// score counts for the same combination, which never holds the NoFail bit.
pub proof fn lemma_no_fail_is_set_aside(score: Score)
    ensures
        (Score { mods: score.mods | NO_FAIL, ..score }).combination() == score.combination(),
        (Score { mods: score.mods & !NO_FAIL, ..score }).combination() == score.combination(),
        score.combination() & NO_FAIL == 0,
{
    let mods = score.mods;
    assert((mods | 1) & !1u32 == mods & !1u32) by (bit_vector);
    assert((mods & !1u32) & !1u32 == mods & !1u32) by (bit_vector);
    assert((mods & !1u32) & 1 == 0) by (bit_vector);
}

} // verus!
