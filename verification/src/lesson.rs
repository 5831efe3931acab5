//! Turning the tokens of one grid cell into a lesson: the tokens are read
//! top to bottom, then left to right, and each one is given to a field of
//! the lesson by a fixed order of rules.

use crate::order::{
    key_before, key_views, lemma_stable_order_sorts, position_views, sort_positions, stable_order,
};
use crate::parser::{item_views, Lesson, LessonView, TextItem};
use crate::text::{append_chars, from_chars, to_chars};
use crate::token::{
    annotate_all, annotations, owned_token_views, token_views, Token, TokenView,
};
use crate::words::{is_day_name, is_location_indicator, names_a_day, names_a_location};
use vstd::prelude::*;

verus! {

/// The field of a lesson that a token fills.
#[derive(Debug, Clone, Copy, PartialEq, Eq, Structural)]
pub enum Field {
    /// The token is blank, a weekday name or a location indicator.
    Skipped,
    Room,
    Teacher,
    ClassCode,
    /// The token is part of the subject.
    Subject,
}

/// Whether a token never contributes to a lesson.
pub open spec fn is_skipped(t: TokenView) -> bool {
    t.text.len() == 0 || is_day_name(t.text) || is_location_indicator(t.text)
}

/// The field that token `t` fills, the first rule that applies deciding:
/// skipped tokens fill nothing; a room code fills the room unless the room
/// is known already; then teacher, then class code; anything else is part of
/// the subject.
pub open spec fn field_of(t: TokenView, room_known: bool) -> Field {
    if is_skipped(t) {
        Field::Skipped
    } else if t.is_room && !room_known {
        Field::Room
    } else if t.is_teacher {
        Field::Teacher
    } else if t.is_class_code {
        Field::ClassCode
    } else {
        Field::Subject
    }
}

/// The field that token `t` fills: see `field_of`.
pub fn classify(t: &Token, room_known: bool) -> (f: Field)
    ensures
        f == field_of(t@, room_known),
{
    if t.text.len() == 0 || names_a_day(&t.text) || names_a_location(&t.text) {
        Field::Skipped
    } else if t.is_room && !room_known {
        Field::Room
    } else if t.is_teacher {
        Field::Teacher
    } else if t.is_class_code {
        Field::ClassCode
    } else {
        Field::Subject
    }
}

/// What has been gathered for a cell so far.
pub struct Cell {
    pub room: Option<Seq<char>>,
    pub teacher: Option<Seq<char>>,
    pub class_code: Option<Seq<char>>,
    pub subject_parts: Seq<Seq<char>>,
}

/// The cell after one more token: the first room code stays, a later
/// teacher or class code replaces an earlier one, and subject parts pile up
/// in order.
pub open spec fn cell_with(cell: Cell, t: TokenView) -> Cell {
    match field_of(t, cell.room is Some) {
        Field::Skipped => cell,
        Field::Room => Cell { room: Some(t.text), ..cell },
        Field::Teacher => Cell { teacher: Some(t.text), ..cell },
        Field::ClassCode => Cell { class_code: Some(t.text), ..cell },
        Field::Subject => Cell { subject_parts: cell.subject_parts.push(t.text), ..cell },
    }
}

/// The cell after the tokens `tokens`, taken in the order given.
pub open spec fn cell_after(tokens: Seq<TokenView>) -> Cell
    decreases tokens.len(),
{
    if tokens.len() == 0 {
        Cell { room: None, teacher: None, class_code: None, subject_parts: Seq::empty() }
    } else {
        cell_with(cell_after(tokens.drop_last()), tokens.last())
    }
}

/// The parts with a single space between neighbours.
pub open spec fn joined(parts: Seq<Seq<char>>) -> Seq<char>
    decreases parts.len(),
{
    if parts.len() == 0 {
        Seq::empty()
    } else if parts.len() == 1 {
        parts[0]
    } else {
        joined(parts.drop_last()) + seq![' '] + parts.last()
    }
}

/// The lesson that a cell amounts to: subject, room and teacher read
/// "Unknown" when nothing was found for them, the class code is empty.
pub open spec fn lesson_of_cell(cell: Cell, day_index: int, period_index: int) -> LessonView {
    LessonView {
        subject: if cell.subject_parts.len() == 0 {
            "Unknown"@
        } else {
            joined(cell.subject_parts)
        },
        room: match cell.room {
            Some(r) => r,
            None => "Unknown"@,
        },
        teacher: match cell.teacher {
            Some(t) => t,
            None => "Unknown"@,
        },
        class_code: match cell.class_code {
            Some(c) => c,
            None => Seq::empty(),
        },
        day_index,
        period_index,
    }
}

/// The keys by which tokens are put in reading order: down the page first,
/// then across.
pub open spec fn position_keys(tokens: Seq<TokenView>) -> Seq<(int, int)> {
    tokens.map_values(|t: TokenView| (t.y, t.x))
}

/// The tokens in reading order: by ascending `y`, then ascending `x`;
/// tokens at one position keep their order.
pub open spec fn in_reading_order(tokens: Seq<TokenView>) -> Seq<TokenView> {
    stable_order(position_keys(tokens)).map_values(|i: int| tokens[i])
}

/// The lesson made of the tokens of one cell.
pub open spec fn lesson_of(tokens: Seq<TokenView>, day_index: int, period_index: int) -> LessonView {
    lesson_of_cell(cell_after(in_reading_order(tokens)), day_index, period_index)
}

/// Reading order rearranges the tokens and drops none: every token keeps
/// its place among the tokens at its own position, and no token stands
/// before one that lies higher up the page, or at the same height further
/// left.
pub proof fn lemma_reading_order_sorted(tokens: Seq<TokenView>)
    ensures
        in_reading_order(tokens).len() == tokens.len(),
        forall|i: int|
            0 <= i < tokens.len() ==> in_reading_order(tokens).contains(#[trigger] tokens[i]),
        forall|i: int|
            0 <= i < tokens.len() ==> tokens.contains(#[trigger] in_reading_order(tokens)[i]),
        forall|i: int, j: int|
            0 <= i < j < tokens.len() ==> !key_before(
                ((#[trigger] in_reading_order(tokens)[j]).y, in_reading_order(tokens)[j].x),
                ((#[trigger] in_reading_order(tokens)[i]).y, in_reading_order(tokens)[i].x),
            ),
{
    let keys = position_keys(tokens);
    let o = stable_order(keys);
    let sorted = in_reading_order(tokens);
    lemma_stable_order_sorts(keys);
    assert forall|i: int| 0 <= i < tokens.len() implies sorted.contains(#[trigger] tokens[i]) by {
        assert(o.contains(i));
        let k = choose|k: int| 0 <= k < o.len() && o[k] == i;
        assert(sorted[k] == tokens[i]);
    }
    assert forall|i: int| 0 <= i < tokens.len() implies tokens.contains(
        #[trigger] sorted[i],
    ) by {
        assert(sorted[i] == tokens[o[i]]);
    }
    assert forall|i: int, j: int| 0 <= i < j < tokens.len() implies !key_before(
        ((#[trigger] sorted[j]).y, sorted[j].x),
        ((#[trigger] sorted[i]).y, sorted[i].x),
    ) by {
        assert(!key_before(keys[o[j]], keys[o[i]]));
    }
}

/// The tokens in reading order.
pub fn reading_order<'a>(tokens: &Vec<&'a Token>) -> (sorted: Vec<&'a Token>)
    ensures
        token_views(sorted@) == in_reading_order(token_views(tokens@)),
        sorted.len() == tokens.len(),
{
    let mut keys: Vec<(i128, i128)> = Vec::new();
    let mut i: usize = 0;
    while i < tokens.len()
        invariant
            i <= tokens.len(),
            keys.len() == i,
            forall|j: int|
                0 <= j < i ==> #[trigger] keys@[j] == (tokens@[j].y as i128, tokens@[j].x as i128),
        decreases tokens.len() - i,
    {
        keys.push((tokens[i].y as i128, tokens[i].x as i128));
        i += 1;
    }
    assert(key_views(keys@) =~= position_keys(token_views(tokens@)));
    let order = sort_positions(&keys);
    let mut sorted: Vec<&Token> = Vec::new();
    let mut k: usize = 0;
    while k < order.len()
        invariant
            k <= order.len(),
            order.len() == tokens.len(),
            sorted.len() == k,
            forall|j: int| 0 <= j < order.len() ==> order@[j] < tokens.len(),
            forall|j: int| 0 <= j < k ==> #[trigger] sorted@[j] == tokens@[order@[j] as int],
        decreases order.len() - k,
    {
        sorted.push(tokens[order[k]]);
        k += 1;
    }
    proof {
        let o = stable_order(position_keys(token_views(tokens@)));
        assert(o == position_views(order@));
        assert forall|j: int| 0 <= j < sorted.len() implies token_views(sorted@)[j]
            == in_reading_order(token_views(tokens@))[j] by {
            assert(o[j] == order@[j] as int);
        }
        assert(token_views(sorted@) =~= in_reading_order(token_views(tokens@)));
    }
    sorted
}

/// Builds the lesson of one cell from its tokens.
pub fn lesson_from_tokens(tokens: &Vec<&Token>, day_index: usize, period_index: usize) -> (lesson:
    Lesson)
    ensures
        lesson@ == lesson_of(token_views(tokens@), day_index as int, period_index as int),
{
    let sorted = reading_order(tokens);
    let ghost views = token_views(sorted@);
    let mut room: Option<String> = None;
    let mut teacher: Option<String> = None;
    let mut class_code: Option<String> = None;
    let mut subject: Vec<char> = Vec::new();
    let mut has_subject = false;
    let mut i: usize = 0;
    while i < sorted.len()
        invariant
            i <= sorted.len(),
            views == token_views(sorted@),
            crate::parser::opt_view(room) == cell_after(views.take(i as int)).room,
            crate::parser::opt_view(teacher) == cell_after(views.take(i as int)).teacher,
            crate::parser::opt_view(class_code) == cell_after(views.take(i as int)).class_code,
            subject@ == joined(cell_after(views.take(i as int)).subject_parts),
            has_subject == (cell_after(views.take(i as int)).subject_parts.len() > 0),
        decreases sorted.len() - i,
    {
        let t = sorted[i];
        proof {
            assert(views.take(i + 1).drop_last() =~= views.take(i as int));
            assert(views.take(i + 1).last() == t@);
        }
        let ghost before = cell_after(views.take(i as int));
        match classify(t, room.is_some()) {
            Field::Skipped => {},
            Field::Room => {
                room = Some(from_chars(&t.text));
            },
            Field::Teacher => {
                teacher = Some(from_chars(&t.text));
            },
            Field::ClassCode => {
                class_code = Some(from_chars(&t.text));
            },
            Field::Subject => {
                if has_subject {
                    subject.push(' ');
                }
                append_chars(&mut subject, &t.text);
                proof {
                    let parts = before.subject_parts.push(t@.text);
                    assert(parts.drop_last() =~= before.subject_parts);
                    if before.subject_parts.len() > 0 {
                        assert(subject@ =~= joined(before.subject_parts) + seq![' '] + t@.text);
                    } else {
                        assert(subject@ =~= t@.text);
                    }
                }
                has_subject = true;
            },
        }
        i += 1;
    }
    assert(views.take(sorted.len() as int) =~= views);
    Lesson {
        subject: if has_subject {
            from_chars(&subject)
        } else {
            from_chars(&to_chars("Unknown"))
        },
        room: match room {
            Some(r) => r,
            None => from_chars(&to_chars("Unknown")),
        },
        teacher: match teacher {
            Some(t) => t,
            None => from_chars(&to_chars("Unknown")),
        },
        class_code: match class_code {
            Some(c) => c,
            None => String::new(),
        },
        day_index,
        period_index,
    }
}

/// Borrows every token of a list.
pub fn borrow_all<'a>(tokens: &'a Vec<Token>) -> (refs: Vec<&'a Token>)
    ensures
        token_views(refs@) == owned_token_views(tokens@),
{
    let mut refs: Vec<&Token> = Vec::new();
    let mut i: usize = 0;
    while i < tokens.len()
        invariant
            i <= tokens.len(),
            refs.len() == i,
            forall|j: int| 0 <= j < i ==> #[trigger] refs@[j] == tokens@[j],
        decreases tokens.len() - i,
    {
        refs.push(&tokens[i]);
        i += 1;
    }
    assert(token_views(refs@) =~= owned_token_views(tokens@));
    refs
}

/// Builds the lesson of one cell from the text items that fell into it.
pub fn parse_lesson_content(items: Vec<&TextItem>, day_index: usize, period_index: usize) -> (lesson:
    Lesson)
    ensures
        lesson@ == lesson_of(
            annotations(item_views(items@)),
            day_index as int,
            period_index as int,
        ),
{
    let tokens = annotate_all(&items);
    lesson_from_tokens(&borrow_all(&tokens), day_index, period_index)
}

} // verus!
