//! The mapset of a background guessing game: its artist and title, and the
//! title as players are expected to type it.

use vstd::prelude::*;
use vstd::string::*;

verus! {

/// Whether `std` counts the character as white space.
pub uninterp spec fn white_space(c: char) -> bool;

/// `char::is_whitespace`: whether the character has the Unicode property
/// White_Space. Nothing is claimed of which characters those are.
#[verifier::external_body]
fn is_white_space(c: char) -> (r: bool)
    ensures
        r == white_space(c),
{
    c.is_whitespace()
}

/// `String::make_ascii_lowercase`: the letters `A` to `Z` become `a` to `z` in
/// place, and every other character stays.
#[verifier::external_body]
fn make_lowercase(text: &mut String)
    ensures
        final(text)@ == lowercase(old(text)@),
{
    text.make_ascii_lowercase();
}

/// The character in lower case, where it is an ASCII capital.
pub open spec fn lower(c: char) -> char {
    if 'A' <= c && c <= 'Z' {
        ((c as u8) + 32) as char
    } else {
        c
    }
}

/// The text with its ASCII capitals in lower case.
pub open spec fn lowercase(text: Seq<char>) -> Seq<char> {
    Seq::new(text.len(), |i: int| lower(text[i]))
}

/// Whether `pattern` stands in `text` at place `i`.
pub open spec fn stands_at(text: Seq<char>, pattern: Seq<char>, i: int) -> bool {
    0 <= i && i + pattern.len() <= text.len() && text.subrange(i, i + pattern.len()) == pattern
}

/// The first place at or after `from` where `pattern` stands in `text`.
pub open spec fn find_from(text: Seq<char>, pattern: Seq<char>, from: int) -> Option<int>
    decreases text.len() - from,
{
    if from < 0 || from + pattern.len() > text.len() {
        None
    } else if stands_at(text, pattern, from) {
        Some(from)
    } else if from < text.len() {
        find_from(text, pattern, from + 1)
    } else {
        None
    }
}

/// The first place where `pattern` stands in `text`.
pub open spec fn find(text: Seq<char>, pattern: Seq<char>) -> Option<int> {
    find_from(text, pattern, 0)
}

/// The last place among the first `n` where `c` stands in `text`.
pub open spec fn rfind_char(text: Seq<char>, c: char, n: int) -> Option<int>
    decreases n,
{
    if n <= 0 {
        None
    } else if text[n - 1] == c {
        Some(n - 1)
    } else {
        rfind_char(text, c, n - 1)
    }
}

/// Where the first `n` characters end once white space at their end is cut.
pub open spec fn trim_end(text: Seq<char>, n: int) -> int
    decreases n,
{
    if n > 0 && white_space(text[n - 1]) {
        trim_end(text, n - 1)
    } else {
        n
    }
}

/// Where the characters from `from` up to `to` begin once white space at
/// their start is cut.
pub open spec fn trim_start(text: Seq<char>, from: int, to: int) -> int
    decreases to - from,
{
    if from < to && white_space(text[from]) {
        trim_start(text, from + 1, to)
    } else {
        from
    }
}

/// The first `n` characters without white space at either end.
pub open spec fn trimmed(text: Seq<char>, n: int) -> Seq<char> {
    text.subrange(trim_start(text, 0, trim_end(text, n)), trim_end(text, n))
}

/// `feat.`
pub open spec fn feat() -> Seq<char> {
    seq!['f', 'e', 'a', 't', '.']
}

/// `ft.`
pub open spec fn ft() -> Seq<char> {
    seq!['f', 't', '.']
}

/// Where the naming of featured artists begins: at the first `feat.`, or,
/// where there is none, at the first `ft.`.
pub open spec fn featuring(text: Seq<char>) -> Option<int> {
    if find(text, feat()) is Some {
        find(text, feat())
    } else {
        find(text, ft())
    }
}

/// The length of `text` up to the naming of featured artists.
pub open spec fn cut(text: Seq<char>) -> int {
    match featuring(text) {
        Some(i) => i,
        None => text.len() as int,
    }
}

/// The title as it is expected to be typed.
///
/// Where the title has an opening bracket and, at or behind it, a closing
/// one, everything from the first `(` to the last `)` is left out, then what
/// names featured artists, then white space at both ends. Else, where it
/// names featured artists, the title up to there without white space at its
/// end. Else there is no such title.
pub open spec fn adjusted(title: Seq<char>) -> Option<Seq<char>> {
    let open = find(title, seq!['(']);
    let close = rfind_char(title, ')', title.len() as int);
    if open is Some && close is Some && open->0 <= close->0 {
        let rest = title.subrange(0, open->0) + title.subrange(close->0 + 1, title.len() as int);
        Some(trimmed(rest, cut(rest)))
    } else {
        match featuring(title) {
            Some(i) => Some(title.subrange(0, trim_end(title, i))),
            None => None,
        }
    }
}

/// The characters of a string.
pub fn chars_of(text: &str) -> (chars: Vec<char>)
    ensures
        chars@ == text@,
{
    let mut chars: Vec<char> = Vec::new();
    for c in it: text.chars()
        invariant
            chars@ == it.seq().take(it.index() as int),
    {
        chars.push(c);
    }
    chars
}

/// The first place at or after `from` where `pattern` stands in `text`.
pub fn position_from(text: &Vec<char>, pattern: &Vec<char>, from: usize) -> (found: Option<usize>)
    ensures
        match found {
            Some(i) => find_from(text@, pattern@, from as int) == Some(i as int) && i
                + pattern@.len() <= text@.len(),
            None => find_from(text@, pattern@, from as int) is None,
        },
{
    if pattern.len() > text.len() || from > text.len() - pattern.len() {
        return None;
    }
    let last = text.len() - pattern.len();
    let mut i: usize = from;
    while i <= last
        invariant
            from <= i <= last + 1,
            last == text.len() - pattern.len(),
            find_from(text@, pattern@, from as int) == find_from(text@, pattern@, i as int),
        decreases last + 1 - i,
    {
        let mut k: usize = 0;
        while k < pattern.len() && text[i + k] == pattern[k]
            invariant
                i <= last,
                last == text.len() - pattern.len(),
                k <= pattern.len(),
                text@.subrange(i as int, i + k) == pattern@.subrange(0, k as int),
            decreases pattern.len() - k,
        {
            proof {
                assert(text@.subrange(i as int, i + k + 1) == text@.subrange(i as int, i + k).push(
                    text@[i + k],
                ));
                assert(pattern@.subrange(0, k + 1) == pattern@.subrange(0, k as int).push(
                    pattern@[k as int],
                ));
            }
            k = k + 1;
        }
        if k == pattern.len() {
            proof {
                assert(pattern@.subrange(0, k as int) == pattern@);
            }
            return Some(i);
        }
        proof {
            let window = text@.subrange(i as int, i + pattern.len());
            assert(window[k as int] == text@[i + k]);
            assert(window != pattern@);
        }
        i = i + 1;
    }
    None
}

/// The last place where `c` stands in `text`.
pub fn last_position(text: &Vec<char>, c: char) -> (found: Option<usize>)
    ensures
        match found {
            Some(i) => rfind_char(text@, c, text@.len() as int) == Some(i as int) && i
                < text@.len(),
            None => rfind_char(text@, c, text@.len() as int) is None,
        },
{
    let mut n: usize = text.len();
    while n > 0 && text[n - 1] != c
        invariant
            n <= text.len(),
            rfind_char(text@, c, text@.len() as int) == rfind_char(text@, c, n as int),
        decreases n,
    {
        n = n - 1;
    }
    if n > 0 {
        Some(n - 1)
    } else {
        None
    }
}

/// Where the first `n` characters end once white space at their end is cut.
pub fn end_trimmed(text: &Vec<char>, n: usize) -> (end: usize)
    requires
        n <= text@.len(),
    ensures
        end == trim_end(text@, n as int),
        end <= n,
{
    let mut end: usize = n;
    while end > 0 && is_white_space(text[end - 1])
        invariant
            end <= n <= text@.len(),
            trim_end(text@, n as int) == trim_end(text@, end as int),
        decreases end,
    {
        end = end - 1;
    }
    end
}

/// Where the characters from `from` up to `to` begin once white space at
/// their start is cut.
pub fn start_trimmed(text: &Vec<char>, from: usize, to: usize) -> (start: usize)
    requires
        from <= to <= text@.len(),
    ensures
        start == trim_start(text@, from as int, to as int),
        from <= start <= to,
{
    let mut start: usize = from;
    while start < to && is_white_space(text[start])
        invariant
            from <= start <= to <= text@.len(),
            trim_start(text@, from as int, to as int) == trim_start(text@, start as int, to as int),
        decreases to - start,
    {
        start = start + 1;
    }
    start
}

/// Where the naming of featured artists begins.
pub fn featuring_at(text: &Vec<char>) -> (found: Option<usize>)
    ensures
        match found {
            Some(i) => featuring(text@) == Some(i as int) && i <= text@.len(),
            None => featuring(text@) is None,
        },
{
    let long = vec!['f', 'e', 'a', 't', '.'];
    let short = vec!['f', 't', '.'];
    assert(long@ == feat());
    assert(short@ == ft());
    match position_from(text, &long, 0) {
        Some(i) => Some(i),
        None => position_from(text, &short, 0),
    }
}

/// The title without everything from place `first` to place `last`, without
/// what names featured artists, and without white space at its ends.
fn without_span(title: &str, length: usize, first: usize, last: usize) -> (short: String)
    requires
        first <= last < length,
        length == title@.len(),
    ensures
        short@ == ({
            let rest = title@.subrange(0, first as int) + title@.subrange(
                last + 1,
                length as int,
            );
            trimmed(rest, cut(rest))
        }),
{
    let head = title.substring_char(0, first);
    let tail = title.substring_char(last + 1, length);
    let mut rest = String::from_str(head);
    rest.append(tail);
    let rest_chars = chars_of(rest.as_str());
    let cut = match featuring_at(&rest_chars) {
        Some(i) => i,
        None => rest_chars.len(),
    };
    let end = end_trimmed(&rest_chars, cut);
    let start = start_trimmed(&rest_chars, 0, end);
    rest.as_str().substring_char(start, end).to_owned()
}

/// The title up to what names featured artists, if it names any.
fn without_featuring(title: &str, chars: &Vec<char>) -> (short: Option<String>)
    requires
        chars@ == title@,
    ensures
        match short {
            Some(text) => featuring(title@) is Some && text@ == title@.subrange(
                0,
                trim_end(title@, featuring(title@)->0),
            ),
            None => featuring(title@) is None,
        },
{
    match featuring_at(chars) {
        Some(i) => {
            let end = end_trimmed(chars, i);
            Some(title.substring_char(0, end).to_owned())
        },
        None => None,
    }
}

/// The title as it is expected to be typed, if it differs from the title.
pub fn adjust_title(title: &str) -> (short: Option<String>)
    ensures
        match short {
            Some(text) => adjusted(title@) == Some(text@),
            None => adjusted(title@) is None,
        },
{
    let chars = chars_of(title);
    let bracket = vec!['('];
    assert(bracket@ == seq!['(']);
    match position_from(&chars, &bracket, 0) {
        Some(first) => {
            match last_position(&chars, ')') {
                Some(last) => {
                    if first <= last {
                        Some(without_span(title, chars.len(), first, last))
                    } else {
                        without_featuring(title, &chars)
                    }
                },
                None => without_featuring(title, &chars),
            }
        },
        None => without_featuring(title, &chars),
    }
}

/// What a mapset is known by.
pub struct MapsetView {
    pub mapset_id: u32,
    pub artist: Seq<char>,
    pub title: Seq<char>,
    pub title_adjusted: Option<Seq<char>>,
}

impl MapsetView {
    /// The title to guess: the adjusted one where there is one.
    pub open spec fn shown_title(self) -> Seq<char> {
        match self.title_adjusted {
            Some(short) => short,
            None => self.title,
        }
    }
}

/// A mapset whose background is to be guessed.
pub struct GameMapset {
    pub mapset_id: u32,
    artist: String,
    title: String,
    title_adjusted: Option<String>,
}

impl View for GameMapset {
    type V = MapsetView;

    closed spec fn view(&self) -> MapsetView {
        MapsetView {
            mapset_id: self.mapset_id,
            artist: self.artist@,
            title: self.title@,
            title_adjusted: match self.title_adjusted {
                Some(short) => Some(short@),
                None => None,
            },
        }
    }
}

impl GameMapset {
    /// A mapset from its artist and title as they are stored: both are
    /// brought to lower case, and the title is adjusted.
    pub fn new(mapset_id: u32, artist: String, title: String) -> (mapset: GameMapset)
        ensures
            mapset@ == (MapsetView {
                mapset_id,
                artist: lowercase(artist@),
                title: lowercase(title@),
                title_adjusted: adjusted(lowercase(title@)),
            }),
    {
        let mut artist = artist;
        let mut title = title;
        make_lowercase(&mut title);
        make_lowercase(&mut artist);
        let title_adjusted = adjust_title(title.as_str());
        GameMapset { mapset_id, artist, title, title_adjusted }
    }

    pub fn title(&self) -> (title: &str)
        ensures
            title@ == self@.shown_title(),
    {
        match &self.title_adjusted {
            Some(short) => short.as_str(),
            None => self.title.as_str(),
        }
    }

    pub fn artist(&self) -> (artist: &str)
        ensures
            artist@ == self@.artist,
    {
        self.artist.as_str()
    }
}

} // verus!
