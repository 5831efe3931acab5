//! Finding the student's name and form code among the tokens of a week.

use crate::arith::{distance, within};
use crate::lesson::{borrow_all, in_reading_order, reading_order};
use crate::parser::{item_views, opt_view, TextItem, UNITS_PER_POINT};
use crate::text::{byte_len, byte_length, from_chars};
use crate::token::{annotate_all, annotations, token_views, NameAndFormView, Token, TokenView};
use crate::words::{begins_with_title, has_reserved_word, has_title_prefix, holds_reserved_word};
use vstd::prelude::*;

verus! {

/// Only this many tokens, counted in reading order, are looked at.
pub const SCAN_LIMIT: usize = 50;

/// Two tokens stand on one line when their `y` differ by less than this:
/// 5 points.
pub const LINE_REACH: i64 = 5 * UNITS_PER_POINT;

/// A name must be longer than this many bytes of UTF-8.
pub const SHORTEST_NAME: usize = 3;

/// Whether token `t` reads "name (form)" with a name long enough.
pub open spec fn names_student(t: TokenView) -> bool {
    t.student is Some && byte_len(t.student->0.name) > SHORTEST_NAME
}

/// The name and form of the first token that reads "name (form)".
pub open spec fn first_named(tokens: Seq<TokenView>) -> Option<NameAndFormView>
    decreases tokens.len(),
{
    if tokens.len() == 0 {
        None
    } else {
        match first_named(tokens.drop_last()) {
            Some(s) => Some(s),
            None => if names_student(tokens.last()) {
                tokens.last().student
            } else {
                None
            },
        }
    }
}

/// Whether token `t` can be the form code: not blank, free of reserved
/// words, and of the shape of a form code.
pub open spec fn is_form_candidate(t: TokenView) -> bool {
    t.text.len() > 0 && !has_reserved_word(t.text) && t.is_form_code
}

/// The position of the first token that can be the form code.
pub open spec fn first_form(tokens: Seq<TokenView>) -> Option<int>
    decreases tokens.len(),
{
    if tokens.len() == 0 {
        None
    } else {
        match first_form(tokens.drop_last()) {
            Some(i) => Some(i),
            None => if is_form_candidate(tokens.last()) {
                Some(tokens.len() - 1)
            } else {
                None
            },
        }
    }
}

/// Whether token `t` can be the name that belongs to a form code at height
/// `y`: on the same line, longer than three bytes, with a space in it, free of
/// reserved words, and not beginning with a teacher's title.
pub open spec fn is_name_candidate(t: TokenView, y: int) -> bool {
    &&& distance(t.y, y) < LINE_REACH
    &&& byte_len(t.text) > SHORTEST_NAME
    &&& t.text.contains(' ')
    &&& !has_reserved_word(t.text)
    &&& !has_title_prefix(t.text)
}

/// The text of the last token of `tokens` that can be the name for a form
/// code at height `y`.
pub open spec fn name_before(tokens: Seq<TokenView>, y: int) -> Option<Seq<char>>
    decreases tokens.len(),
{
    if tokens.len() == 0 {
        None
    } else if is_name_candidate(tokens.last(), y) {
        Some(tokens.last().text)
    } else {
        name_before(tokens.drop_last(), y)
    }
}

/// The tokens that are looked at: the first fifty in reading order.
pub open spec fn scanned(tokens: Seq<TokenView>) -> Seq<TokenView> {
    let sorted = in_reading_order(tokens);
    if sorted.len() > SCAN_LIMIT {
        sorted.take(SCAN_LIMIT as int)
    } else {
        sorted
    }
}

/// The student's name and form code. A token that reads "name (form)" gives
/// both. Failing that, the first token that can be a form code gives the
/// form, and the nearest token before it on the same line that can be a name
/// gives the name.
pub open spec fn student_info(tokens: Seq<TokenView>) -> (Option<Seq<char>>, Option<Seq<char>>) {
    let s = scanned(tokens);
    match first_named(s) {
        Some(found) => (Some(found.name), Some(found.form)),
        None => match first_form(s) {
            Some(i) => (name_before(s.take(i), s[i].y), Some(s[i].text)),
            None => (None, None),
        },
    }
}

/// Whether `text` holds the character `c`.
fn has_char(text: &Vec<char>, c: char) -> (r: bool)
    ensures
        r == text@.contains(c),
{
    let mut i: usize = 0;
    while i < text.len()
        invariant
            i <= text.len(),
            forall|j: int| 0 <= j < i ==> text@[j] != c,
        decreases text.len() - i,
    {
        if text[i] == c {
            return true;
        }
        i += 1;
    }
    false
}

/// Whether token `t` can be the name that belongs to a form code at height
/// `y`.
pub fn can_be_name(t: &Token, y: i64) -> (r: bool)
    ensures
        r == is_name_candidate(t@, y as int),
{
    within(t.y, y, LINE_REACH) && byte_length(&t.text) > SHORTEST_NAME && has_char(&t.text, ' ')
        && !holds_reserved_word(&t.text) && !begins_with_title(&t.text)
}

/// Whether token `t` can be the form code.
pub fn can_be_form(t: &Token) -> (r: bool)
    ensures
        r == is_form_candidate(t@),
{
    t.text.len() > 0 && !holds_reserved_word(&t.text) && t.is_form_code
}

/// Finds the student's name and form code among the tokens of a week.
pub fn student_from_tokens(tokens: &Vec<&Token>) -> (info: (Option<String>, Option<String>))
    ensures
        (opt_view(info.0), opt_view(info.1)) == student_info(token_views(tokens@)),
{
    let sorted = reading_order(tokens);
    let limit: usize = if sorted.len() > SCAN_LIMIT {
        SCAN_LIMIT
    } else {
        sorted.len()
    };
    let ghost s = scanned(token_views(tokens@));
    assert(s =~= token_views(sorted@).take(limit as int));
    let mut i: usize = 0;
    while i < limit
        invariant
            i <= limit <= sorted.len(),
            s == scanned(token_views(tokens@)),
            s == token_views(sorted@).take(limit as int),
            first_named(s.take(i as int)) is None,
        decreases limit - i,
    {
        let t = sorted[i];
        proof {
            assert(s.take(i + 1).drop_last() =~= s.take(i as int));
            assert(s.take(i + 1).last() == t@);
        }
        match &t.student {
            Some(found) => {
                if byte_length(&found.name) > SHORTEST_NAME {
                    proof {
                        lemma_first_named_settled(s, i + 1);
                    }
                    return (Some(from_chars(&found.name)), Some(from_chars(&found.form)));
                }
            },
            None => {},
        }
        i += 1;
    }
    assert(s.take(limit as int) =~= s);
    let mut k: usize = 0;
    while k < limit
        invariant
            k <= limit <= sorted.len(),
            s == scanned(token_views(tokens@)),
            s == token_views(sorted@).take(limit as int),
            first_named(s) is None,
            first_form(s.take(k as int)) is None,
        decreases limit - k,
    {
        let t = sorted[k];
        proof {
            assert(s.take(k + 1).drop_last() =~= s.take(k as int));
            assert(s.take(k + 1).last() == t@);
        }
        if can_be_form(t) {
            proof {
                lemma_first_form_settled(s, k + 1);
            }
            let mut name: Option<String> = None;
            let mut j: usize = k;
            while j > 0 && name.is_none()
                invariant
                    j <= k < limit <= sorted.len(),
                    s == token_views(sorted@).take(limit as int),
                    t == sorted@[k as int],
                    name is None ==> name_before(s.take(k as int), t.y as int) == name_before(
                        s.take(j as int),
                        t.y as int,
                    ),
                    name is Some ==> Some(name->0@) == name_before(s.take(k as int), t.y as int),
                decreases j + (if name is None { 1int } else { 0int }),
            {
                let prev = sorted[j - 1];
                proof {
                    assert(s.take(j as int).drop_last() =~= s.take(j - 1));
                    assert(s.take(j as int).last() == prev@);
                }
                if can_be_name(prev, t.y) {
                    name = Some(from_chars(&prev.text));
                } else {
                    j -= 1;
                }
            }
            return (name, Some(from_chars(&t.text)));
        }
        k += 1;
    }
    assert(s.take(limit as int) =~= s);
    (None, None)
}

/// Once a token reads "name (form)", later tokens do not change the answer.
proof fn lemma_first_named_settled(tokens: Seq<TokenView>, i: int)
    requires
        0 <= i <= tokens.len(),
        first_named(tokens.take(i)) is Some,
    ensures
        first_named(tokens) == first_named(tokens.take(i)),
    decreases tokens.len() - i,
{
    if i < tokens.len() {
        assert(tokens.take(i + 1).drop_last() =~= tokens.take(i));
        lemma_first_named_settled(tokens, i + 1);
    } else {
        assert(tokens.take(i) =~= tokens);
    }
}

/// Once a form code has been found, later tokens do not change the answer.
proof fn lemma_first_form_settled(tokens: Seq<TokenView>, i: int)
    requires
        0 <= i <= tokens.len(),
        first_form(tokens.take(i)) is Some,
    ensures
        first_form(tokens) == first_form(tokens.take(i)),
    decreases tokens.len() - i,
{
    if i < tokens.len() {
        assert(tokens.take(i + 1).drop_last() =~= tokens.take(i));
        lemma_first_form_settled(tokens, i + 1);
    } else {
        assert(tokens.take(i) =~= tokens);
    }
}

/// Finds the student's name and form code among the text items of a week.
pub fn extract_student_info(items: &Vec<&TextItem>) -> (info: (Option<String>, Option<String>))
    ensures
        (opt_view(info.0), opt_view(info.1)) == student_info(annotations(item_views(items@))),
{
    let tokens = annotate_all(items);
    student_from_tokens(&borrow_all(&tokens))
}

} // verus!
