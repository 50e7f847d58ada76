//! The arguments of the match cost command.

use vstd::prelude::*;
use crate::mapset::chars_of;

verus! {

/// How many games are left out as warmups where no number is given.
pub const DEFAULT_WARMUPS: usize = 2;

/// What a decimal digit stands for.
pub open spec fn digit(c: char) -> Option<int> {
    if '0' <= c && c <= '9' {
        Some(c as int - '0' as int)
    } else {
        None
    }
}

/// The number that the first `n` characters spell, if they are all digits.
pub open spec fn digits_value(text: Seq<char>, n: int) -> Option<int>
    decreases n,
{
    if n <= 0 {
        Some(0)
    } else {
        match (digits_value(text, n - 1), digit(text[n - 1])) {
            (Some(value), Some(d)) => Some(10 * value + d),
            _ => None,
        }
    }
}

/// The count that a text spells: an optional `+`, then one or more decimal
/// digits and nothing else, for a number that a `usize` holds.
pub open spec fn count_of(text: Seq<char>) -> Option<usize> {
    let body = if text.len() > 0 && text[0] == '+' {
        text.skip(1)
    } else {
        text
    };
    if body.len() == 0 {
        None
    } else {
        match digits_value(body, body.len() as int) {
            Some(value) => if value <= usize::MAX {
                Some(value as usize)
            } else {
                None
            },
            None => None,
        }
    }
}

/// No run of digits spells a number below zero.
pub proof fn lemma_digits_not_negative(text: Seq<char>, n: int)
    ensures
        digits_value(text, n) is Some ==> digits_value(text, n)->0 >= 0,
    decreases n,
{
    if n > 0 {
        lemma_digits_not_negative(text, n - 1);
    }
}

/// A longer run of digits spells no smaller a number, and a run that stops
/// being digits spells none.
pub proof fn lemma_digits_grow(text: Seq<char>, m: int, n: int)
    requires
        0 <= m <= n,
    ensures
        digits_value(text, m) is None ==> digits_value(text, n) is None,
        digits_value(text, n) is Some ==> digits_value(text, m) is Some && digits_value(text, m)->0
            <= digits_value(text, n)->0,
    decreases n - m,
{
    if m < n {
        lemma_digits_grow(text, m, n - 1);
        lemma_digits_not_negative(text, n - 1);
    }
}

/// Reads a count as `str::parse` reads a `usize`.
pub fn parse_count(text: &str) -> (count: Option<usize>)
    ensures
        count == count_of(text@),
{
    let chars = chars_of(text);
    let start: usize = if chars.len() > 0 && chars[0] == '+' {
        1
    } else {
        0
    };
    if start == chars.len() {
        return None;
    }
    let ghost body = if start == 1 {
        text@.skip(1)
    } else {
        text@
    };
    let mut value: usize = 0;
    let mut i: usize = start;
    while i < chars.len()
        invariant
            start <= i <= chars.len(),
            chars@ == text@,
            body == text@.skip(start as int),
            start == (if text@.len() > 0 && text@[0] == '+' { 1int } else { 0int }),
            digits_value(body, i - start) == Some(value as int),
        decreases chars.len() - i,
    {
        let c = chars[i];
        proof {
            assert(text@.skip(0) == text@);
            assert(body[i - start] == c);
            lemma_digits_grow(body, i - start + 1, body.len() as int);
        }
        if !('0' <= c && c <= '9') {
            assert(digits_value(body, i - start + 1) is None);
            return None;
        }
        let d: usize = (c as u8 - '0' as u8) as usize;
        assert(digits_value(body, i - start + 1) == Some(10 * value + d));
        if value > (usize::MAX - d) / 10 {
            return None;
        }
        value = 10 * value + d;
        i = i + 1;
    }
    Some(value)
}

/// What the match cost command was asked for.
#[derive(Clone, Copy, Debug, PartialEq, Eq, Structural)]
pub struct MatchCostArgs {
    pub match_id: u32,
    /// How many games to leave out as warmups.
    pub warmups: usize,
}

/// What is answered where the first argument names no match.
pub const NO_MATCH_ID: &'static str =
    "The first argument must be either a match id or the multiplayer link to a match";

impl MatchCostArgs {
    /// The number of warmups that an argument asks for: the count it spells,
    /// and the default where there is no argument or it spells none.
    pub open spec fn warmups_of(argument: Option<Seq<char>>) -> usize {
        match argument {
            Some(text) => match count_of(text) {
                Some(count) => count,
                None => DEFAULT_WARMUPS,
            },
            None => DEFAULT_WARMUPS,
        }
    }

    /// Reads the arguments: the match that the first argument was found to
    /// name, if it names one, and the second argument as it was typed.
    pub fn args(match_id: Option<u32>, warmups: Option<&str>) -> (args: Result<
        MatchCostArgs,
        &'static str,
    >)
        ensures
            match match_id {
                Some(id) => args == Ok::<MatchCostArgs, &'static str>(
                    MatchCostArgs {
                        match_id: id,
                        warmups: Self::warmups_of(
                            match warmups {
                                Some(text) => Some(text@),
                                None => None,
                            },
                        ),
                    },
                ),
                None => args == Err::<MatchCostArgs, &'static str>(NO_MATCH_ID),
            },
    {
        let match_id = match match_id {
            Some(id) => id,
            None => {
                return Err(NO_MATCH_ID);
            },
        };
        let warmups = match warmups {
            Some(text) => match parse_count(text) {
                Some(count) => count,
                None => DEFAULT_WARMUPS,
            },
            None => DEFAULT_WARMUPS,
        };
        Ok(MatchCostArgs { match_id, warmups })
    }
}

} // verus!
