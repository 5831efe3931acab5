//! Tokens: text items annotated with everything the patterns say about them.
//! The grid, lesson and student logic reads tokens only, so it never has to
//! ask the pattern engine anything itself.

use crate::parser::{item_views, TextItem, TextItemView};
use crate::pattern::{
    captures, found, groups_view, pattern_found, regex_captures, CLASS_PATTERN, FORM_PATTERN,
    NAME_FORM_PATTERN, ROOM_PATTERN, TEACHER_PATTERN, WEEK_PATTERN,
};
use crate::text::{from_chars, lowercase_of, to_chars, to_lowercase, trim, trimmed};
use vstd::prelude::*;

verus! {

/// A week header found in a text item.
pub struct WeekHeader {
    /// The header as it stands in the text, such as "Week 3".
    pub name: Vec<char>,
    /// The week's number; 0 when the digits are not a number that fits.
    pub number: u32,
}

/// What a `WeekHeader` holds.
pub struct WeekHeaderView {
    pub name: Seq<char>,
    pub number: int,
}

impl View for WeekHeader {
    type V = WeekHeaderView;

    open spec fn view(&self) -> WeekHeaderView {
        WeekHeaderView { name: self.name@, number: self.number as int }
    }
}

/// A student name with the form code that followed it in parentheses.
pub struct NameAndForm {
    pub name: Vec<char>,
    pub form: Vec<char>,
}

/// What a `NameAndForm` holds.
pub struct NameAndFormView {
    pub name: Seq<char>,
    pub form: Seq<char>,
}

impl View for NameAndForm {
    type V = NameAndFormView;

    open spec fn view(&self) -> NameAndFormView {
        NameAndFormView { name: self.name@, form: self.form@ }
    }
}

/// A text item together with what the patterns say about its text.
pub struct Token {
    pub x: i64,
    pub y: i64,
    /// The item's text without surrounding whitespace.
    pub text: Vec<char>,
    /// The item's whole text in lowercase.
    pub lower: Vec<char>,
    /// The trimmed text has the shape of a room code.
    pub is_room: bool,
    /// The trimmed text has the shape of a teacher's name.
    pub is_teacher: bool,
    /// The trimmed text has the shape of a class code.
    pub is_class_code: bool,
    /// The trimmed text has the shape of a form code.
    pub is_form_code: bool,
    /// The week header in the text, if there is one.
    pub week: Option<WeekHeader>,
    /// The name and form code, if the trimmed text is "name (form)".
    pub student: Option<NameAndForm>,
}

/// What a `Token` holds.
pub struct TokenView {
    pub x: int,
    pub y: int,
    pub text: Seq<char>,
    pub lower: Seq<char>,
    pub is_room: bool,
    pub is_teacher: bool,
    pub is_class_code: bool,
    pub is_form_code: bool,
    pub week: Option<WeekHeaderView>,
    pub student: Option<NameAndFormView>,
}

impl View for Token {
    type V = TokenView;

    open spec fn view(&self) -> TokenView {
        TokenView {
            x: self.x as int,
            y: self.y as int,
            text: self.text@,
            lower: self.lower@,
            is_room: self.is_room,
            is_teacher: self.is_teacher,
            is_class_code: self.is_class_code,
            is_form_code: self.is_form_code,
            week: match self.week {
                Some(h) => Some(h@),
                None => None,
            },
            student: match self.student {
                Some(s) => Some(s@),
                None => None,
            },
        }
    }
}

/// The views of a list of borrowed tokens.
pub open spec fn token_views(tokens: Seq<&Token>) -> Seq<TokenView> {
    tokens.map_values(|t: &Token| t@)
}

/// The views of a list of tokens.
pub open spec fn owned_token_views(tokens: Seq<Token>) -> Seq<TokenView> {
    tokens.map_values(|t: Token| t@)
}

/// Whether `c` is one of the digits `0` to `9`.
pub open spec fn is_digit(c: char) -> bool {
    '0' <= c && c <= '9'
}

/// The number that the decimal digits `s` write.
pub open spec fn decimal_value(s: Seq<char>) -> nat
    decreases s.len(),
{
    if s.len() == 0 {
        0
    } else {
        decimal_value(s.drop_last()) * 10 + ((s.last() as u32) - ('0' as u32)) as nat
    }
}

/// Whether every character of `s` is a digit `0` to `9`.
pub open spec fn all_digits(s: Seq<char>) -> bool {
    forall|i: int| 0 <= i < s.len() ==> is_digit(#[trigger] s[i])
}

/// The number that `s` writes, as `u32` parses it: an optional `+`, then one
/// or more digits `0` to `9`, with a value that fits. Anything else reads as 0.
pub open spec fn week_number(s: Seq<char>) -> int {
    let digits = if s.len() > 0 && s[0] == '+' {
        s.skip(1)
    } else {
        s
    };
    if digits.len() > 0 && all_digits(digits) && decimal_value(digits) <= u32::MAX {
        decimal_value(digits) as int
    } else {
        0
    }
}

proof fn lemma_decimal_value_monotone(s: Seq<char>, k: int)
    requires
        0 <= k <= s.len(),
    ensures
        decimal_value(s.take(k)) <= decimal_value(s),
    decreases s.len() - k,
{
    if k < s.len() {
        lemma_decimal_value_monotone(s.drop_last(), k);
        assert(s.drop_last().take(k) =~= s.take(k));
    } else {
        assert(s.take(k) =~= s);
    }
}

/// Reads a week number: see `week_number`.
pub fn parse_week_number(s: &Vec<char>) -> (n: u32)
    ensures
        n == week_number(s@),
{
    let start: usize = if s.len() > 0 && s[0] == '+' {
        1
    } else {
        0
    };
    let ghost digits = s@.skip(start as int);
    assert(s@.skip(0) =~= s@);
    if start == s.len() {
        return 0;
    }
    let mut value: u32 = 0;
    let mut i: usize = start;
    while i < s.len()
        invariant
            start <= i <= s.len(),
            digits == s@.skip(start as int),
            digits == (if s@.len() > 0 && s@[0] == '+' {
                s@.skip(1)
            } else {
                s@
            }),
            forall|j: int| 0 <= j < i - start ==> is_digit(#[trigger] digits[j]),
            value == decimal_value(digits.take(i - start)),
        decreases s.len() - i,
    {
        let c = s[i];
        assert(digits[i - start] == c);
        if !('0' <= c && c <= '9') {
            return 0;
        }
        let d: u32 = (c as u32) - ('0' as u32);
        proof {
            assert(digits.take(i + 1 - start).drop_last() =~= digits.take(i - start));
            assert(digits.take(i + 1 - start).last() == c);
        }
        if value > (u32::MAX - d) / 10 {
            proof {
                lemma_decimal_value_monotone(digits, i + 1 - start);
            }
            return 0;
        }
        value = value * 10 + d;
        i += 1;
    }
    assert(digits.take(i - start) =~= digits);
    value
}

/// The header that the groups of a week-header match describe: group 0 is
/// the header's text and group 1 its digits. A missing group 0 reads as
/// "Unknown Week", a missing group 1 as week 0.
pub open spec fn week_header_of(groups: Option<Seq<Option<Seq<char>>>>) -> Option<WeekHeaderView> {
    match groups {
        None => None,
        Some(g) => Some(
            WeekHeaderView {
                name: if g.len() > 0 && g[0] is Some {
                    g[0]->0
                } else {
                    "Unknown Week"@
                },
                number: if g.len() > 1 && g[1] is Some {
                    week_number(g[1]->0)
                } else {
                    0
                },
            },
        ),
    }
}

/// Builds the week header from the groups of a week-header match.
pub fn week_header_from_groups(groups: &Option<Vec<Option<String>>>) -> (r: Option<WeekHeader>)
    ensures
        (match r {
            Some(h) => Some(h@),
            None => None,
        }) == week_header_of(groups_view(*groups)),
{
    match groups {
        None => None,
        Some(g) => {
            let name = if g.len() > 0 && g[0].is_some() {
                to_chars(g[0].as_ref().unwrap().as_str())
            } else {
                to_chars("Unknown Week")
            };
            let number = if g.len() > 1 && g[1].is_some() {
                parse_week_number(&to_chars(g[1].as_ref().unwrap().as_str()))
            } else {
                0
            };
            Some(WeekHeader { name, number })
        },
    }
}

/// The name and form code that the groups of a "name (form)" match describe:
/// group 1 without surrounding whitespace, and group 2. There is none unless
/// both groups took part in the match.
pub open spec fn name_and_form_of(groups: Option<Seq<Option<Seq<char>>>>) -> Option<
    NameAndFormView,
> {
    match groups {
        Some(g) if g.len() > 2 && g[1] is Some && g[2] is Some => Some(
            NameAndFormView { name: trimmed(g[1]->0), form: g[2]->0 },
        ),
        _ => None,
    }
}

/// Builds the name and form code from the groups of a "name (form)" match.
pub fn name_and_form_from_groups(groups: &Option<Vec<Option<String>>>) -> (r: Option<NameAndForm>)
    ensures
        (match r {
            Some(s) => Some(s@),
            None => None,
        }) == name_and_form_of(groups_view(*groups)),
{
    match groups {
        None => None,
        Some(g) => {
            if g.len() > 2 && g[1].is_some() && g[2].is_some() {
                let name = trim(&to_chars(g[1].as_ref().unwrap().as_str()));
                let form = to_chars(g[2].as_ref().unwrap().as_str());
                Some(NameAndForm { name, form })
            } else {
                None
            }
        },
    }
}

/// The token of an item: its position, its trimmed and lowercased text, and
/// what each pattern says of it. The week header is looked for in the whole
/// text, everything else in the trimmed text.
pub open spec fn annotation(item: TextItemView) -> TokenView {
    let text = trimmed(item.text);
    TokenView {
        x: item.x,
        y: item.y,
        text,
        lower: lowercase_of(item.text),
        is_room: pattern_found(ROOM_PATTERN@, text),
        is_teacher: pattern_found(TEACHER_PATTERN@, text),
        is_class_code: pattern_found(CLASS_PATTERN@, text),
        is_form_code: pattern_found(FORM_PATTERN@, text),
        week: week_header_of(regex_captures(WEEK_PATTERN@, item.text)),
        student: name_and_form_of(regex_captures(NAME_FORM_PATTERN@, text)),
    }
}

/// The tokens of a list of items.
pub open spec fn annotations(items: Seq<TextItemView>) -> Seq<TokenView> {
    items.map_values(|item: TextItemView| annotation(item))
}

/// Annotates one item.
pub fn annotate(item: &TextItem) -> (t: Token)
    ensures
        t@ == annotation(item@),
{
    let text = trim(&to_chars(item.text.as_str()));
    let trimmed_text = from_chars(&text);
    let lower = to_chars(to_lowercase(item.text.as_str()).as_str());
    let week = week_header_from_groups(&captures(WEEK_PATTERN, item.text.as_str()));
    let student = name_and_form_from_groups(&captures(NAME_FORM_PATTERN, trimmed_text.as_str()));
    Token {
        x: item.x,
        y: item.y,
        text,
        lower,
        is_room: found(ROOM_PATTERN, trimmed_text.as_str()),
        is_teacher: found(TEACHER_PATTERN, trimmed_text.as_str()),
        is_class_code: found(CLASS_PATTERN, trimmed_text.as_str()),
        is_form_code: found(FORM_PATTERN, trimmed_text.as_str()),
        week,
        student,
    }
}

/// Annotates every item of a list.
pub fn annotate_all(items: &Vec<&TextItem>) -> (tokens: Vec<Token>)
    ensures
        owned_token_views(tokens@) == annotations(item_views(items@)),
{
    let mut tokens: Vec<Token> = Vec::new();
    let mut i: usize = 0;
    while i < items.len()
        invariant
            i <= items.len(),
            tokens.len() == i,
            forall|j: int| 0 <= j < i ==> (#[trigger] tokens@[j])@ == annotation(items@[j]@),
        decreases items.len() - i,
    {
        tokens.push(annotate(items[i]));
        i += 1;
    }
    assert(owned_token_views(tokens@) =~= annotations(item_views(items@)));
    tokens
}

} // verus!
