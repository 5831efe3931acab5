//! The regular expressions that recognise timetable text, and the calls into
//! the `regex` crate that evaluate them.

use regex::Regex;
use vstd::prelude::*;
use vstd::utf8::encode_utf8;

verus! {

/// A week header: the word "Week", whitespace, and the week's number.
pub const WEEK_PATTERN: &'static str = r"Week\s+(\d+)";

/// A teacher's name: a title, whitespace, and the rest of the line.
pub const TEACHER_PATTERN: &'static str = r"^(Mr|Ms|Mrs|Miss)\s+.*$";

/// A room code: two or three capitals, digits, and at most one more capital.
pub const ROOM_PATTERN: &'static str = r"^[A-Z]{2,3}\d+[A-Z]?$";

/// A class code: a digit, a capital, and anything after them.
pub const CLASS_PATTERN: &'static str = r"^\d[A-Z].*$";

/// A student's name followed by the form code in parentheses.
pub const NAME_FORM_PATTERN: &'static str = r"^(.+?)\s*\(([0-9]{2,4}[A-Z0-9]*)\)$";

/// A form code on its own: two to four digits, then capitals or digits.
pub const FORM_PATTERN: &'static str = r"^[0-9]{2,4}[A-Z0-9]*$";

/// The `fill` attribute of an element: the word, an equals sign, and a value
/// in double or single quotes.
pub const FILL_PATTERN: &'static str = r#"fill\s*=\s*(?:"[^"]*"|'[^']*')"#;

/// Whether the `regex` crate finds a match of `pattern` somewhere in `text`;
/// `None` when it rejects `pattern`.
pub uninterp spec fn regex_is_match(pattern: Seq<char>, text: Seq<char>) -> Option<bool>;

/// The capture groups of the leftmost match of `pattern` in `text`, as the
/// `regex` crate reports them: group 0 is the whole match, and a group that
/// took no part in the match is `None`. The result is `None` when the crate
/// rejects `pattern` or finds no match.
pub uninterp spec fn regex_captures(pattern: Seq<char>, text: Seq<char>) -> Option<
    Seq<Option<Seq<char>>>,
>;

/// Where the leftmost match of `pattern` in `text` begins and ends, as the
/// `regex` crate reports it: two offsets into the bytes of `text` as UTF-8.
/// The result is `None` when the crate rejects `pattern` or finds no match.
pub uninterp spec fn regex_find(pattern: Seq<char>, text: Seq<char>) -> Option<(int, int)>;

/// What `groups` holds, as plain sequences.
pub open spec fn groups_view(groups: Option<Vec<Option<String>>>) -> Option<Seq<Option<Seq<char>>>> {
    match groups {
        Some(v) => Some(
            Seq::new(
                v@.len(),
                |i: int|
                    match v@[i] {
                        Some(s) => Some(s@),
                        None => None,
                    },
            ),
        ),
        None => None,
    }
}

/// Compiles `pattern` with `Regex::new` and asks `Regex::is_match` whether it
/// matches anywhere in `text`. The contract only names the answer; it claims
/// nothing about which texts a pattern matches.
#[verifier::external_body]
pub(crate) fn is_match(pattern: &str, text: &str) -> (r: Option<bool>)
    ensures
        r == regex_is_match(pattern@, text@),
{
    match Regex::new(pattern) {
        Ok(re) => Some(re.is_match(text)),
        Err(_) => None,
    }
}

/// Compiles `pattern` with `Regex::new`, searches `text` with
/// `Regex::captures`, and copies out the text of every group of the leftmost
/// match. The contract only names the answer.
#[verifier::external_body]
pub(crate) fn captures(pattern: &str, text: &str) -> (r: Option<Vec<Option<String>>>)
    ensures
        groups_view(r) == regex_captures(pattern@, text@),
{
    let re = Regex::new(pattern).ok()?;
    let caps = re.captures(text)?;
    Some(caps.iter().map(|m| m.map(|m| m.as_str().to_string())).collect())
}

/// What an optional span holds.
pub open spec fn span_view(span: Option<(usize, usize)>) -> Option<(int, int)> {
    match span {
        Some(s) => Some((s.0 as int, s.1 as int)),
        None => None,
    }
}

/// Compiles `pattern` with `Regex::new`, searches `text` with `Regex::find`,
/// and returns `Match::start` and `Match::end` of the leftmost match. The
/// contract names the answer and adds what the crate promises of every
/// match: it begins no later than it ends, and it ends within the text.
#[verifier::external_body]
pub(crate) fn find_span(pattern: &str, text: &str) -> (r: Option<(usize, usize)>)
    ensures
        span_view(r) == regex_find(pattern@, text@),
        match r {
            Some((start, end)) => start <= end <= encode_utf8(text@).len(),
            None => true,
        },
{
    let re = Regex::new(pattern).ok()?;
    let m = re.find(text)?;
    Some((m.start(), m.end()))
}

/// Whether `pattern` is accepted by the engine and matches in `text`.
pub open spec fn pattern_found(pattern: Seq<char>, text: Seq<char>) -> bool {
    regex_is_match(pattern, text) == Some(true)
}

/// Whether `pattern` matches in `text`. A pattern that the engine rejects
/// matches nothing.
pub fn found(pattern: &str, text: &str) -> (r: bool)
    ensures
        r == pattern_found(pattern@, text@),
{
    match is_match(pattern, text) {
        Some(b) => b,
        None => false,
    }
}

} // verus!
