//! The tally of won games.

use vstd::prelude::*;
use crate::model::Team;

verus! {

/// How many games each team has won; each count stops at 255.
#[derive(Clone, Copy, Debug, PartialEq, Eq, Structural)]
pub struct MatchScores(pub u8, pub u8);

/// One more, up to the most a `u8` holds.
pub open spec fn saturating_succ(n: u8) -> u8 {
    if n < u8::MAX { (n + 1) as u8 } else { n }
}

impl MatchScores {
    /// The tally after `team` has won one more game.
    pub open spec fn with_win(self, team: Team) -> MatchScores {
        match team {
            Team::Blue => MatchScores(saturating_succ(self.0), self.1),
            Team::Red => MatchScores(self.0, saturating_succ(self.1)),
            Team::NoTeam => self,
        }
    }

    /// The distance between the two counts.
    pub open spec fn gap(self) -> int {
        if self.0 >= self.1 { self.0 - self.1 } else { self.1 - self.0 }
    }

    pub fn new() -> (r: MatchScores)
        ensures
            r == MatchScores(0, 0),
    {
        MatchScores(0, 0)
    }

    pub fn incr(&mut self, team: Team)
        ensures
            *final(self) == old(self).with_win(team),
    {
        match team {
            Team::Blue => {
                if self.0 < u8::MAX {
                    self.0 = self.0 + 1;
                }
            },
            Team::Red => {
                if self.1 < u8::MAX {
                    self.1 = self.1 + 1;
                }
            },
            Team::NoTeam => {},
        }
    }

    pub fn blue(self) -> (r: u8)
        ensures
            r == self.0,
    {
        self.0
    }

    pub fn red(self) -> (r: u8)
        ensures
            r == self.1,
    {
        self.1
    }

    pub fn difference(&self) -> (r: u8)
        ensures
            r == self.gap(),
    {
        if self.0 >= self.1 {
            self.0 - self.1
        } else {
            self.1 - self.0
        }
    }
}

} // verus!
