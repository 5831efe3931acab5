//! Locating the timetable grid in the tokens of one week, and reading a
//! lesson out of every cell that holds something.

use crate::arith::{distance, divide, quotient_toward_zero, within};
use crate::lesson::{borrow_all, lesson_from_tokens, lesson_of};
use crate::parser::{
    item_views, lesson_views, Lesson, LessonView, TextItem, UNITS_PER_POINT,
};
use crate::text::{contains, eq_ignore_ascii_case, eq_ignoring_ascii_case, has_substring};
use crate::token::{annotate_all, annotations, token_views, Token, TokenView};
use crate::words::{
    day_name, day_name_chars, day_name_lower, day_name_lower_chars, is_day_name, is_marker,
    is_row_marker, marker_period, marker_period_index, marks_row, names_a_day, names_a_marker,
    DAY_COUNT, MARKER_COUNT, PERIOD_COUNT,
};
use vstd::prelude::*;

verus! {

/// A token belongs to a column when it is less than this far, sideways, from
/// the column's anchor: 45 points.
pub const COLUMN_REACH: i64 = 45 * UNITS_PER_POINT;

/// A token belongs to a row when it is less than this far, up or down, from
/// the row's anchor: 25 points.
pub const ROW_REACH: i64 = 25 * UNITS_PER_POINT;

/// A teacher's name belongs to a row when it is below the row's anchor by
/// less than this: 35 points.
pub const TEACHER_REACH: i64 = 35 * UNITS_PER_POINT;

/// A day's index and the `x` of its column, or a period's index and the `y`
/// of its row.
pub type Anchor = (usize, i64);

/// What a list of anchors holds.
pub open spec fn anchor_views(anchors: Seq<Anchor>) -> Seq<(int, int)> {
    anchors.map_values(|a: Anchor| (a.0 as int, a.1 as int))
}

/// Whether token `t` heads the column of weekday `d`: its text is the day's
/// name, ASCII case aside, or its lowercase text holds the lowercase name.
pub open spec fn is_day_header(t: TokenView, d: int) -> bool {
    eq_ignoring_ascii_case(t.text, day_name(d)) || has_substring(t.lower, day_name_lower(d))
}

/// The `x` of the first token that heads the column of weekday `d`.
pub open spec fn day_column(tokens: Seq<TokenView>, d: int) -> Option<int>
    decreases tokens.len(),
{
    if tokens.len() == 0 {
        None
    } else {
        match day_column(tokens.drop_last(), d) {
            Some(x) => Some(x),
            None => if is_day_header(tokens.last(), d) {
                Some(tokens.last().x)
            } else {
                None
            },
        }
    }
}

/// The columns of the first `n` weekdays: for each day that has a header, in
/// the order of the days, the day and the header's `x`.
pub open spec fn day_columns_of_first(tokens: Seq<TokenView>, n: nat) -> Seq<(int, int)>
    decreases n,
{
    if n == 0 {
        Seq::empty()
    } else {
        let before = day_columns_of_first(tokens, (n - 1) as nat);
        match day_column(tokens, n - 1) {
            Some(x) => before.push((n - 1, x)),
            None => before,
        }
    }
}

/// The columns of the grid.
pub open spec fn day_columns(tokens: Seq<TokenView>) -> Seq<(int, int)> {
    day_columns_of_first(tokens, DAY_COUNT as nat)
}

/// The `y` of every token that marks a row for entry `m` of the marker
/// table, in the order of the tokens.
pub open spec fn marker_ys(tokens: Seq<TokenView>, m: int) -> Seq<int>
    decreases tokens.len(),
{
    if tokens.len() == 0 {
        Seq::empty()
    } else {
        let before = marker_ys(tokens.drop_last(), m);
        if marks_row(tokens.last().text, m) {
            before.push(tokens.last().y)
        } else {
            before
        }
    }
}

/// The sum of `ys`.
pub open spec fn total(ys: Seq<int>) -> int
    decreases ys.len(),
{
    if ys.len() == 0 {
        0
    } else {
        total(ys.drop_last()) + ys.last()
    }
}

/// The mean of `ys`, rounded toward zero.
pub open spec fn mean(ys: Seq<int>) -> int {
    quotient_toward_zero(total(ys), ys.len() as int)
}

/// Whether `rows` holds an anchor for `period`.
pub open spec fn has_anchor(rows: Seq<(int, int)>, period: int) -> bool {
    exists|i: int| 0 <= i < rows.len() && (#[trigger] rows[i]).0 == period
}

/// The rows found by the first `n` entries of the marker table. An entry
/// gives a row when some token marks it and no earlier entry has given a row
/// for the same period; the row lies at the mean `y` of the entry's tokens.
pub open spec fn period_rows_of_first(tokens: Seq<TokenView>, n: nat) -> Seq<(int, int)>
    decreases n,
{
    if n == 0 {
        Seq::empty()
    } else {
        let before = period_rows_of_first(tokens, (n - 1) as nat);
        let ys = marker_ys(tokens, n - 1);
        if ys.len() > 0 && !has_anchor(before, marker_period(n - 1)) {
            before.push((marker_period(n - 1), mean(ys)))
        } else {
            before
        }
    }
}

/// The rows of the grid.
pub open spec fn period_rows(tokens: Seq<TokenView>) -> Seq<(int, int)> {
    period_rows_of_first(tokens, MARKER_COUNT as nat)
}

/// Whether `t` lies in the primary window round `(x0, y0)`: within reach of
/// the column and of the row, and neither a weekday name nor a period
/// marker, whatever the case of its letters.
pub open spec fn in_primary_window(t: TokenView, x0: int, y0: int) -> bool {
    &&& distance(t.x, x0) < COLUMN_REACH
    &&& distance(t.y, y0) < ROW_REACH
    &&& !is_day_name(t.text)
    &&& !is_marker(t.text)
}

/// Whether `t` lies in the secondary window below `(x0, y0)`: a teacher's
/// name within reach of the column, strictly below the row's anchor and
/// within the teacher's reach of it.
pub open spec fn in_secondary_window(t: TokenView, x0: int, y0: int) -> bool {
    &&& distance(t.x, x0) < COLUMN_REACH
    &&& t.y > y0
    &&& t.y - y0 < TEACHER_REACH
    &&& t.is_teacher
}

/// Whether `t` belongs to the cell anchored at `(x0, y0)`.
pub open spec fn in_cell(t: TokenView, x0: int, y0: int) -> bool {
    in_primary_window(t, x0, y0) || in_secondary_window(t, x0, y0)
}

/// The tokens of the cell anchored at `(x0, y0)`, in the order of `tokens`.
pub open spec fn cell_tokens(tokens: Seq<TokenView>, x0: int, y0: int) -> Seq<TokenView>
    decreases tokens.len(),
{
    if tokens.len() == 0 {
        Seq::empty()
    } else {
        let before = cell_tokens(tokens.drop_last(), x0, y0);
        if in_cell(tokens.last(), x0, y0) {
            before.push(tokens.last())
        } else {
            before
        }
    }
}

/// The lesson of the cell where column `col` meets row `row`; none when no
/// token belongs to the cell.
pub open spec fn cell_lesson(tokens: Seq<TokenView>, col: (int, int), row: (int, int)) -> Option<
    LessonView,
> {
    let members = cell_tokens(tokens, col.1, row.1);
    if members.len() == 0 {
        None
    } else {
        Some(lesson_of(members, col.0, row.0))
    }
}

/// The lessons of column `col` in the first `n` rows, top row first.
pub open spec fn column_lessons(
    tokens: Seq<TokenView>,
    col: (int, int),
    rows: Seq<(int, int)>,
    n: nat,
) -> Seq<LessonView>
    decreases n,
{
    if n == 0 || n > rows.len() {
        Seq::empty()
    } else {
        let before = column_lessons(tokens, col, rows, (n - 1) as nat);
        match cell_lesson(tokens, col, rows[n - 1]) {
            Some(lesson) => before.push(lesson),
            None => before,
        }
    }
}

/// The lessons of the first `n` columns, column after column.
pub open spec fn grid_lessons(
    tokens: Seq<TokenView>,
    cols: Seq<(int, int)>,
    rows: Seq<(int, int)>,
    n: nat,
) -> Seq<LessonView>
    decreases n,
{
    if n == 0 || n > cols.len() {
        Seq::empty()
    } else {
        grid_lessons(tokens, cols, rows, (n - 1) as nat) + column_lessons(
            tokens,
            cols[n - 1],
            rows,
            rows.len(),
        )
    }
}

/// The lessons of a week: one for every cell of the grid that holds a token,
/// the columns in the order of the days and the rows of each column in the
/// order in which the marker table found them.
pub open spec fn week_lessons(tokens: Seq<TokenView>) -> Seq<LessonView> {
    let cols = day_columns(tokens);
    grid_lessons(tokens, cols, period_rows(tokens), cols.len())
}

/// The column of a weekday lies at the first of its headers: no token before
/// that one heads the day; and there is no column when no token does.
pub proof fn lemma_day_column_is_first(tokens: Seq<TokenView>, d: int)
    ensures
        match day_column(tokens, d) {
            Some(x) => exists|i: int|
                0 <= i < tokens.len() && is_day_header(#[trigger] tokens[i], d) && tokens[i].x == x
                    && forall|j: int| 0 <= j < i ==> !is_day_header(#[trigger] tokens[j], d),
            None => forall|i: int|
                0 <= i < tokens.len() ==> !is_day_header(#[trigger] tokens[i], d),
        },
    decreases tokens.len(),
{
    if tokens.len() > 0 {
        let rest = tokens.drop_last();
        lemma_day_column_is_first(rest, d);
        match day_column(rest, d) {
            Some(x) => {
                let i = choose|i: int|
                    0 <= i < rest.len() && is_day_header(#[trigger] rest[i], d) && rest[i].x == x
                        && forall|j: int| 0 <= j < i ==> !is_day_header(#[trigger] rest[j], d);
                assert(tokens[i] == rest[i]);
                assert forall|j: int| 0 <= j < i implies !is_day_header(
                    #[trigger] tokens[j],
                    d,
                ) by {
                    assert(tokens[j] == rest[j]);
                }
            },
            None => {
                assert forall|j: int| 0 <= j < rest.len() implies !is_day_header(
                    #[trigger] tokens[j],
                    d,
                ) by {
                    assert(tokens[j] == rest[j]);
                }
                if is_day_header(tokens.last(), d) {
                    assert(tokens[tokens.len() - 1] == tokens.last());
                }
            },
        }
    }
}

/// Once a header has been found, later tokens do not change the column.
proof fn lemma_day_column_settled(tokens: Seq<TokenView>, d: int, i: int)
    requires
        0 <= i <= tokens.len(),
        day_column(tokens.take(i), d) is Some,
    ensures
        day_column(tokens, d) == day_column(tokens.take(i), d),
    decreases tokens.len() - i,
{
    if i < tokens.len() {
        assert(tokens.take(i + 1).drop_last() =~= tokens.take(i));
        lemma_day_column_settled(tokens, d, i + 1);
    } else {
        assert(tokens.take(i) =~= tokens);
    }
}

/// Whether token `t` heads the column of weekday `d`.
pub fn heads_day(t: &Token, d: usize) -> (r: bool)
    requires
        d < DAY_COUNT,
    ensures
        r == is_day_header(t@, d as int),
{
    eq_ignore_ascii_case(&t.text, &day_name_chars(d)) || contains(
        &t.lower,
        &day_name_lower_chars(d),
    )
}

/// Finds the columns of the grid.
pub fn find_day_columns(tokens: &Vec<&Token>) -> (cols: Vec<Anchor>)
    ensures
        anchor_views(cols@) == day_columns(token_views(tokens@)),
{
    let ghost views = token_views(tokens@);
    let mut cols: Vec<Anchor> = Vec::new();
    let mut d: usize = 0;
    while d < DAY_COUNT
        invariant
            d <= DAY_COUNT,
            views == token_views(tokens@),
            anchor_views(cols@) == day_columns_of_first(views, d as nat),
        decreases DAY_COUNT - d,
    {
        let mut found: Option<i64> = None;
        let mut i: usize = 0;
        while i < tokens.len() && found.is_none()
            invariant
                i <= tokens.len(),
                d < DAY_COUNT,
                views == token_views(tokens@),
                (match found {
                    Some(x) => Some(x as int),
                    None => None,
                }) == day_column(views.take(i as int), d as int),
            decreases tokens.len() - i,
        {
            proof {
                assert(views.take(i + 1).drop_last() =~= views.take(i as int));
                assert(views.take(i + 1).last() == tokens@[i as int]@);
            }
            if heads_day(tokens[i], d) {
                found = Some(tokens[i].x);
            }
            i += 1;
        }
        proof {
            if found.is_some() {
                lemma_day_column_settled(views, d as int, i as int);
            } else {
                assert(views.take(i as int) =~= views);
            }
        }
        match found {
            Some(x) => {
                proof {
                    assert(anchor_views(cols@.push((d, x))) =~= anchor_views(cols@).push(
                        (d as int, x as int),
                    ));
                }
                cols.push((d, x));
            },
            None => {},
        }
        d += 1;
    }
    cols
}

/// The mean of values that fit in 64 bits fits in 64 bits.
proof fn lemma_mean_bounds(sum: int, n: int)
    requires
        n > 0,
        n * i64::MIN <= sum <= n * i64::MAX,
    ensures
        i64::MIN <= quotient_toward_zero(sum, n) <= i64::MAX,
{
    if sum >= 0 {
        assert(0 <= sum / n <= i64::MAX) by (nonlinear_arith)
            requires
                n > 0,
                0 <= sum <= n * i64::MAX,
        ;
    } else {
        assert(0 <= (-sum) / n <= -i64::MIN) by (nonlinear_arith)
            requires
                n > 0,
                0 <= -sum <= n * (-i64::MIN),
        ;
    }
}

/// The mean `y` of the tokens that mark a row for entry `m` of the marker
/// table; none when no token does.
pub fn marker_row(tokens: &Vec<&Token>, m: usize) -> (y: Option<i64>)
    requires
        m < MARKER_COUNT,
    ensures
        y is Some <==> marker_ys(token_views(tokens@), m as int).len() > 0,
        y is Some ==> y->0 == mean(marker_ys(token_views(tokens@), m as int)),
{
    let ghost views = token_views(tokens@);
    let mut sum: i128 = 0;
    let mut count: usize = 0;
    let mut i: usize = 0;
    while i < tokens.len()
        invariant
            i <= tokens.len(),
            m < MARKER_COUNT,
            views == token_views(tokens@),
            count == marker_ys(views.take(i as int), m as int).len(),
            count <= i,
            sum == total(marker_ys(views.take(i as int), m as int)),
            count * i64::MIN <= sum <= count * i64::MAX,
        decreases tokens.len() - i,
    {
        proof {
            assert(views.take(i + 1).drop_last() =~= views.take(i as int));
            assert(views.take(i + 1).last() == tokens@[i as int]@);
            let grown = marker_ys(views.take(i as int), m as int).push(tokens@[i as int].y as int);
            assert(grown.drop_last() =~= marker_ys(views.take(i as int), m as int));
        }
        if is_row_marker(&tokens[i].text, m) {
            sum = sum + tokens[i].y as i128;
            count += 1;
        }
        i += 1;
    }
    assert(views.take(i as int) =~= views);
    if count == 0 {
        None
    } else {
        let n: i128 = count as i128;
        proof {
            lemma_mean_bounds(sum as int, n as int);
        }
        Some(divide(sum, n) as i64)
    }
}

/// Whether `rows` holds an anchor for `period`.
pub fn has_row(rows: &Vec<Anchor>, period: usize) -> (r: bool)
    ensures
        r == has_anchor(anchor_views(rows@), period as int),
{
    let mut i: usize = 0;
    while i < rows.len()
        invariant
            i <= rows.len(),
            forall|j: int| 0 <= j < i ==> (#[trigger] anchor_views(rows@)[j]).0 != period,
        decreases rows.len() - i,
    {
        if rows[i].0 == period {
            assert(anchor_views(rows@)[i as int].0 == period);
            return true;
        }
        i += 1;
    }
    false
}

/// Finds the rows of the grid.
pub fn find_period_rows(tokens: &Vec<&Token>) -> (rows: Vec<Anchor>)
    ensures
        anchor_views(rows@) == period_rows(token_views(tokens@)),
{
    let ghost views = token_views(tokens@);
    let mut rows: Vec<Anchor> = Vec::new();
    let mut m: usize = 0;
    while m < MARKER_COUNT
        invariant
            m <= MARKER_COUNT,
            views == token_views(tokens@),
            anchor_views(rows@) == period_rows_of_first(views, m as nat),
        decreases MARKER_COUNT - m,
    {
        let period = marker_period_index(m);
        match marker_row(tokens, m) {
            Some(y) => {
                if !has_row(&rows, period) {
                    proof {
                        assert(anchor_views(rows@.push((period, y))) =~= anchor_views(rows@).push(
                            (period as int, y as int),
                        ));
                    }
                    rows.push((period, y));
                }
            },
            None => {},
        }
        m += 1;
    }
    rows
}

/// Whether token `t` belongs to the cell anchored at `(x0, y0)`.
pub fn belongs_to_cell(t: &Token, x0: i64, y0: i64) -> (r: bool)
    ensures
        r == in_cell(t@, x0 as int, y0 as int),
{
    if !within(t.x, x0, COLUMN_REACH) {
        return false;
    }
    if within(t.y, y0, ROW_REACH) && !names_a_day(&t.text) && !names_a_marker(&t.text) {
        return true;
    }
    t.is_teacher && t.y > y0 && (t.y as i128 - y0 as i128) < TEACHER_REACH as i128
}

/// The tokens of the cell anchored at `(x0, y0)`.
pub fn cell_members<'a>(tokens: &Vec<&'a Token>, x0: i64, y0: i64) -> (members: Vec<&'a Token>)
    ensures
        token_views(members@) == cell_tokens(token_views(tokens@), x0 as int, y0 as int),
{
    let ghost views = token_views(tokens@);
    let mut members: Vec<&Token> = Vec::new();
    let mut i: usize = 0;
    while i < tokens.len()
        invariant
            i <= tokens.len(),
            views == token_views(tokens@),
            token_views(members@) == cell_tokens(views.take(i as int), x0 as int, y0 as int),
        decreases tokens.len() - i,
    {
        proof {
            assert(views.take(i + 1).drop_last() =~= views.take(i as int));
            assert(views.take(i + 1).last() == tokens@[i as int]@);
            assert(token_views(members@.push(tokens@[i as int])) =~= token_views(members@).push(
                tokens@[i as int]@,
            ));
        }
        if belongs_to_cell(tokens[i], x0, y0) {
            members.push(tokens[i]);
        }
        i += 1;
    }
    assert(views.take(i as int) =~= views);
    members
}

/// What an optional lesson holds.
pub open spec fn opt_lesson_view(lesson: Option<Lesson>) -> Option<LessonView> {
    match lesson {
        Some(l) => Some(l@),
        None => None,
    }
}

/// The lesson of the cell where column `col` meets row `row`; none when no
/// token belongs to the cell.
pub fn lesson_for_cell(tokens: &Vec<&Token>, col: Anchor, row: Anchor) -> (lesson: Option<Lesson>)
    ensures
        opt_lesson_view(lesson) == cell_lesson(
            token_views(tokens@),
            (col.0 as int, col.1 as int),
            (row.0 as int, row.1 as int),
        ),
{
    let members = cell_members(tokens, col.1, row.1);
    if members.len() == 0 {
        None
    } else {
        Some(lesson_from_tokens(&members, col.0, row.0))
    }
}

/// Reads the lessons of a week out of its tokens.
pub fn lessons_from_tokens(tokens: &Vec<&Token>) -> (lessons: Vec<Lesson>)
    ensures
        lesson_views(lessons@) == week_lessons(token_views(tokens@)),
        lessons.len() <= DAY_COUNT * PERIOD_COUNT,
        forall|i: int|
            0 <= i < lessons.len() ==> (#[trigger] lessons@[i]).day_index < DAY_COUNT
                && lessons@[i].period_index < PERIOD_COUNT,
{
    let ghost views = token_views(tokens@);
    proof {
        lemma_week_lessons_in_grid(views);
    }
    let cols = find_day_columns(tokens);
    let rows = find_period_rows(tokens);
    let ghost cv = anchor_views(cols@);
    let ghost rv = anchor_views(rows@);
    let mut lessons: Vec<Lesson> = Vec::new();
    let mut c: usize = 0;
    while c < cols.len()
        invariant
            c <= cols.len(),
            views == token_views(tokens@),
            cv == anchor_views(cols@),
            rv == anchor_views(rows@),
            lesson_views(lessons@) == grid_lessons(views, cv, rv, c as nat),
        decreases cols.len() - c,
    {
        let ghost start = lesson_views(lessons@);
        let mut r: usize = 0;
        while r < rows.len()
            invariant
                r <= rows.len(),
                c < cols.len(),
                views == token_views(tokens@),
                cv == anchor_views(cols@),
                rv == anchor_views(rows@),
                lesson_views(lessons@) == start + column_lessons(views, cv[c as int], rv, r as nat),
            decreases rows.len() - r,
        {
            let ghost before = lesson_views(lessons@);
            match lesson_for_cell(tokens, cols[c], rows[r]) {
                Some(lesson) => {
                    proof {
                        assert(lesson_views(lessons@.push(lesson)) =~= before.push(lesson@));
                        assert(before.push(lesson@) =~= start + column_lessons(
                            views,
                            cv[c as int],
                            rv,
                            r as nat,
                        ).push(lesson@));
                    }
                    lessons.push(lesson);
                },
                None => {},
            }
            r += 1;
        }
        c += 1;
    }
    proof {
        assert forall|i: int| 0 <= i < lessons.len() implies (#[trigger] lessons@[i]).day_index
            < DAY_COUNT && lessons@[i].period_index < PERIOD_COUNT by {
            assert(lesson_views(lessons@)[i] == lessons@[i]@);
        }
    }
    lessons
}

/// Reads the lessons of a week out of its text items.
pub fn parse_week_items(items: &Vec<&TextItem>) -> (lessons: Vec<Lesson>)
    ensures
        lesson_views(lessons@) == week_lessons(annotations(item_views(items@))),
        lessons.len() <= DAY_COUNT * PERIOD_COUNT,
        forall|i: int|
            0 <= i < lessons.len() ==> (#[trigger] lessons@[i]).day_index < DAY_COUNT
                && lessons@[i].period_index < PERIOD_COUNT,
{
    let tokens = annotate_all(items);
    lessons_from_tokens(&borrow_all(&tokens))
}

/// The columns stand in ascending order of their days, one column a day at
/// most, and every day is a weekday.
pub proof fn lemma_day_columns_ascending(tokens: Seq<TokenView>)
    ensures
        day_columns(tokens).len() <= DAY_COUNT,
        forall|i: int|
            0 <= i < day_columns(tokens).len() ==> 0 <= (#[trigger] day_columns(tokens)[i]).0
                < DAY_COUNT,
        forall|i: int, j: int|
            0 <= i < j < day_columns(tokens).len() ==> (#[trigger] day_columns(tokens)[i]).0 < (
            #[trigger] day_columns(tokens)[j]).0,
{
    lemma_day_columns_of_first(tokens, DAY_COUNT as nat);
}

proof fn lemma_day_columns_of_first(tokens: Seq<TokenView>, n: nat)
    ensures
        day_columns_of_first(tokens, n).len() <= n,
        forall|i: int|
            0 <= i < day_columns_of_first(tokens, n).len() ==> 0 <= (
            #[trigger] day_columns_of_first(tokens, n)[i]).0 < n,
        forall|i: int, j: int|
            0 <= i < j < day_columns_of_first(tokens, n).len() ==> (
            #[trigger] day_columns_of_first(tokens, n)[i]).0 < (#[trigger] day_columns_of_first(
                tokens,
                n,
            )[j]).0,
    decreases n,
{
    if n > 0 {
        lemma_day_columns_of_first(tokens, (n - 1) as nat);
    }
}

/// No two rows stand for the same period: a period that several markers
/// name is anchored once, by the first of them that some token matches. The
/// rows stand in ascending order of their periods, and every period is one
/// of the six.
pub proof fn lemma_period_rows_distinct(tokens: Seq<TokenView>)
    ensures
        period_rows(tokens).len() <= PERIOD_COUNT,
        forall|i: int|
            0 <= i < period_rows(tokens).len() ==> 0 <= (#[trigger] period_rows(tokens)[i]).0
                < PERIOD_COUNT,
        forall|i: int, j: int|
            0 <= i < j < period_rows(tokens).len() ==> (#[trigger] period_rows(tokens)[i]).0 < (
            #[trigger] period_rows(tokens)[j]).0,
{
    lemma_period_rows_of_first(tokens, MARKER_COUNT as nat);
    let rows = period_rows(tokens);
    if rows.len() > 0 {
        lemma_ascending_reaches(rows, rows.len() - 1);
    }
}

proof fn lemma_period_rows_of_first(tokens: Seq<TokenView>, n: nat)
    requires
        n <= MARKER_COUNT,
    ensures
        forall|i: int|
            0 <= i < period_rows_of_first(tokens, n).len() ==> 0 <= (
            #[trigger] period_rows_of_first(tokens, n)[i]).0 < PERIOD_COUNT && (n > 0
                ==> period_rows_of_first(tokens, n)[i].0 <= marker_period(n - 1)),
        forall|i: int, j: int|
            0 <= i < j < period_rows_of_first(tokens, n).len() ==> (
            #[trigger] period_rows_of_first(tokens, n)[i]).0 < (#[trigger] period_rows_of_first(
                tokens,
                n,
            )[j]).0,
    decreases n,
{
    if n > 0 {
        lemma_period_rows_of_first(tokens, (n - 1) as nat);
        let before = period_rows_of_first(tokens, (n - 1) as nat);
        let rows = period_rows_of_first(tokens, n);
        let period = marker_period(n - 1);
        if rows.len() > before.len() {
            assert forall|i: int| 0 <= i < before.len() implies (#[trigger] before[i]).0
                < period by {
                assert(!has_anchor(before, period));
            }
        }
    }
}

/// In a list of anchors in strictly ascending order, starting at 0 or
/// above, the anchor at place `i` is at least `i`.
proof fn lemma_ascending_reaches(anchors: Seq<(int, int)>, i: int)
    requires
        0 <= i < anchors.len(),
        forall|k: int| 0 <= k < anchors.len() ==> 0 <= (#[trigger] anchors[k]).0,
        forall|k: int, l: int|
            0 <= k < l < anchors.len() ==> (#[trigger] anchors[k]).0 < (#[trigger] anchors[l]).0,
    ensures
        anchors[i].0 >= i,
    decreases i,
{
    if i > 0 {
        lemma_ascending_reaches(anchors, i - 1);
    }
}

/// The tokens of a cell are those that lie in one of its two windows: the
/// cell is empty exactly when no token does.
pub proof fn lemma_cell_tokens_are_members(tokens: Seq<TokenView>, x0: int, y0: int)
    ensures
        forall|i: int|
            0 <= i < cell_tokens(tokens, x0, y0).len() ==> in_cell(
                #[trigger] cell_tokens(tokens, x0, y0)[i],
                x0,
                y0,
            ) && tokens.contains(cell_tokens(tokens, x0, y0)[i]),
        forall|i: int|
            0 <= i < tokens.len() && in_cell(#[trigger] tokens[i], x0, y0) ==> cell_tokens(
                tokens,
                x0,
                y0,
            ).contains(tokens[i]),
        cell_tokens(tokens, x0, y0).len() == 0 <==> forall|i: int|
            0 <= i < tokens.len() ==> !in_cell(#[trigger] tokens[i], x0, y0),
    decreases tokens.len(),
{
    if tokens.len() > 0 {
        let rest = tokens.drop_last();
        lemma_cell_tokens_are_members(rest, x0, y0);
        let before = cell_tokens(rest, x0, y0);
        let all = cell_tokens(tokens, x0, y0);
        assert forall|i: int| 0 <= i < all.len() implies in_cell(#[trigger] all[i], x0, y0)
            && tokens.contains(all[i]) by {
            if i < before.len() {
                assert(all[i] == before[i]);
                assert(rest.contains(before[i]));
                let k = choose|k: int| 0 <= k < rest.len() && rest[k] == before[i];
                assert(tokens[k] == before[i]);
            } else {
                assert(all[i] == tokens[tokens.len() - 1]);
            }
        }
        assert forall|i: int|
            0 <= i < tokens.len() && in_cell(#[trigger] tokens[i], x0, y0) implies all.contains(
            tokens[i],
        ) by {
            if i < rest.len() {
                assert(rest[i] == tokens[i]);
                assert(before.contains(rest[i]));
                let k = choose|k: int| 0 <= k < before.len() && before[k] == rest[i];
                assert(all[k] == tokens[i]);
            } else {
                assert(all[all.len() - 1] == tokens[i]);
            }
        }
        if all.len() == 0 {
            assert forall|i: int| 0 <= i < tokens.len() implies !in_cell(
                #[trigger] tokens[i],
                x0,
                y0,
            ) by {
                if in_cell(tokens[i], x0, y0) {
                    assert(all.contains(tokens[i]));
                }
            }
        } else {
            assert(in_cell(all[0], x0, y0) && tokens.contains(all[0]));
        }
    }
}

/// A cell with no token in either of its windows gives no lesson, and a
/// cell with a token in one of them gives a lesson at the cell's day and
/// period.
pub proof fn lemma_cell_lesson_exists(tokens: Seq<TokenView>, col: (int, int), row: (int, int))
    ensures
        cell_lesson(tokens, col, row) is None <==> forall|i: int|
            0 <= i < tokens.len() ==> !in_cell(#[trigger] tokens[i], col.1, row.1),
        cell_lesson(tokens, col, row) is Some ==> cell_lesson(tokens, col, row)->0.day_index
            == col.0 && cell_lesson(tokens, col, row)->0.period_index == row.0,
{
    lemma_cell_tokens_are_members(tokens, col.1, row.1);
}

proof fn lemma_column_lessons(
    tokens: Seq<TokenView>,
    col: (int, int),
    rows: Seq<(int, int)>,
    n: nat,
)
    requires
        n <= rows.len(),
    ensures
        column_lessons(tokens, col, rows, n).len() <= n,
        forall|i: int|
            0 <= i < column_lessons(tokens, col, rows, n).len() ==> (#[trigger] column_lessons(
                tokens,
                col,
                rows,
                n,
            )[i]).day_index == col.0 && exists|r: int|
                0 <= r < n && column_lessons(tokens, col, rows, n)[i].period_index == (
                #[trigger] rows[r]).0,
    decreases n,
{
    if n > 0 {
        lemma_column_lessons(tokens, col, rows, (n - 1) as nat);
        let before = column_lessons(tokens, col, rows, (n - 1) as nat);
        let all = column_lessons(tokens, col, rows, n);
        assert forall|i: int| 0 <= i < all.len() implies (#[trigger] all[i]).day_index == col.0
            && exists|r: int| 0 <= r < n && all[i].period_index == (#[trigger] rows[r]).0 by {
            if i < before.len() {
                assert(all[i] == before[i]);
                let r = choose|r: int|
                    0 <= r < n - 1 && before[i].period_index == (#[trigger] rows[r]).0;
                assert(all[i].period_index == rows[r].0);
            } else {
                assert(all[i].period_index == rows[n - 1].0);
            }
        }
    }
}

proof fn lemma_grid_lessons(
    tokens: Seq<TokenView>,
    cols: Seq<(int, int)>,
    rows: Seq<(int, int)>,
    n: nat,
)
    requires
        n <= cols.len(),
    ensures
        grid_lessons(tokens, cols, rows, n).len() <= n * rows.len(),
        forall|i: int|
            0 <= i < grid_lessons(tokens, cols, rows, n).len() ==> (exists|c: int|
                0 <= c < n && (#[trigger] grid_lessons(tokens, cols, rows, n)[i]).day_index == (
                #[trigger] cols[c]).0) && (exists|r: int|
                0 <= r < rows.len() && grid_lessons(tokens, cols, rows, n)[i].period_index == (
                #[trigger] rows[r]).0),
    decreases n,
{
    if n > 0 {
        lemma_grid_lessons(tokens, cols, rows, (n - 1) as nat);
        lemma_column_lessons(tokens, cols[n - 1], rows, rows.len());
        let before = grid_lessons(tokens, cols, rows, (n - 1) as nat);
        let column = column_lessons(tokens, cols[n - 1], rows, rows.len());
        let all = grid_lessons(tokens, cols, rows, n);
        assert(all.len() <= n * rows.len()) by (nonlinear_arith)
            requires
                all.len() == before.len() + column.len(),
                before.len() <= (n - 1) * rows.len(),
                column.len() <= rows.len(),
        ;
        assert forall|i: int| 0 <= i < all.len() implies (exists|c: int|
            0 <= c < n && (#[trigger] all[i]).day_index == (#[trigger] cols[c]).0) && (exists|
            r: int,
        | 0 <= r < rows.len() && all[i].period_index == (#[trigger] rows[r]).0) by {
            if i < before.len() {
                assert(all[i] == before[i]);
                let c = choose|c: int|
                    0 <= c < n - 1 && before[i].day_index == (#[trigger] cols[c]).0;
                assert(all[i].day_index == cols[c].0);
            } else {
                assert(all[i] == column[i - before.len()]);
                assert(all[i].day_index == cols[n - 1].0);
            }
        }
    }
}

/// Whether lesson `a` lies in an earlier cell than lesson `b`: on an earlier
/// day, or on the same day in an earlier period.
pub open spec fn cell_before(a: LessonView, b: LessonView) -> bool {
    a.day_index < b.day_index || (a.day_index == b.day_index && a.period_index < b.period_index)
}

/// Whether the anchors stand in strictly ascending order of their indices.
pub open spec fn anchors_ascend(anchors: Seq<(int, int)>) -> bool {
    forall|k: int, l: int|
        0 <= k < l < anchors.len() ==> (#[trigger] anchors[k]).0 < (#[trigger] anchors[l]).0
}

proof fn lemma_column_lessons_ascend(
    tokens: Seq<TokenView>,
    col: (int, int),
    rows: Seq<(int, int)>,
    n: nat,
)
    requires
        n <= rows.len(),
        anchors_ascend(rows),
    ensures
        forall|i: int, j: int|
            0 <= i < j < column_lessons(tokens, col, rows, n).len() ==> (
            #[trigger] column_lessons(tokens, col, rows, n)[i]).period_index < (
            #[trigger] column_lessons(tokens, col, rows, n)[j]).period_index,
    decreases n,
{
    if n > 0 {
        lemma_column_lessons_ascend(tokens, col, rows, (n - 1) as nat);
        lemma_column_lessons(tokens, col, rows, (n - 1) as nat);
        let before = column_lessons(tokens, col, rows, (n - 1) as nat);
        let all = column_lessons(tokens, col, rows, n);
        assert forall|i: int, j: int| 0 <= i < j < all.len() implies (#[trigger] all[i]).period_index
            < (#[trigger] all[j]).period_index by {
            if j < before.len() {
                assert(all[i] == before[i] && all[j] == before[j]);
            } else {
                assert(all[i] == before[i]);
                let r = choose|r: int|
                    0 <= r < n - 1 && before[i].period_index == (#[trigger] rows[r]).0;
                assert(rows[r].0 < rows[n - 1].0);
                assert(all[j].period_index == rows[n - 1].0);
            }
        }
    }
}

proof fn lemma_grid_lessons_ascend(
    tokens: Seq<TokenView>,
    cols: Seq<(int, int)>,
    rows: Seq<(int, int)>,
    n: nat,
)
    requires
        n <= cols.len(),
        anchors_ascend(cols),
        anchors_ascend(rows),
    ensures
        forall|i: int, j: int|
            0 <= i < j < grid_lessons(tokens, cols, rows, n).len() ==> cell_before(
                #[trigger] grid_lessons(tokens, cols, rows, n)[i],
                #[trigger] grid_lessons(tokens, cols, rows, n)[j],
            ),
    decreases n,
{
    if n > 0 {
        lemma_grid_lessons_ascend(tokens, cols, rows, (n - 1) as nat);
        lemma_grid_lessons(tokens, cols, rows, (n - 1) as nat);
        lemma_column_lessons(tokens, cols[n - 1], rows, rows.len());
        lemma_column_lessons_ascend(tokens, cols[n - 1], rows, rows.len());
        let before = grid_lessons(tokens, cols, rows, (n - 1) as nat);
        let column = column_lessons(tokens, cols[n - 1], rows, rows.len());
        let all = grid_lessons(tokens, cols, rows, n);
        assert forall|i: int, j: int| 0 <= i < j < all.len() implies cell_before(
            #[trigger] all[i],
            #[trigger] all[j],
        ) by {
            if j < before.len() {
                assert(all[i] == before[i] && all[j] == before[j]);
            } else if i >= before.len() {
                assert(all[i] == column[i - before.len()]);
                assert(all[j] == column[j - before.len()]);
            } else {
                assert(all[i] == before[i]);
                assert(all[j] == column[j - before.len()]);
                let c = choose|c: int|
                    0 <= c < n - 1 && before[i].day_index == (#[trigger] cols[c]).0;
                assert(cols[c].0 < cols[n - 1].0);
            }
        }
    }
}

/// The lessons of a week come in the order of their cells, day by day and
/// within a day period by period: no two lessons share a day and a period.
pub proof fn lemma_week_lessons_ascend(tokens: Seq<TokenView>)
    ensures
        forall|i: int, j: int|
            0 <= i < j < week_lessons(tokens).len() ==> cell_before(
                #[trigger] week_lessons(tokens)[i],
                #[trigger] week_lessons(tokens)[j],
            ),
{
    lemma_day_columns_ascending(tokens);
    lemma_period_rows_distinct(tokens);
    let cols = day_columns(tokens);
    lemma_grid_lessons_ascend(tokens, cols, period_rows(tokens), cols.len());
}

/// A week has thirty lessons at most, one for each cell of the grid that
/// holds a token; the day of every lesson is one of the five weekdays and
/// its period one of the six.
pub proof fn lemma_week_lessons_in_grid(tokens: Seq<TokenView>)
    ensures
        week_lessons(tokens).len() <= DAY_COUNT * PERIOD_COUNT,
        forall|i: int|
            0 <= i < week_lessons(tokens).len() ==> 0 <= (#[trigger] week_lessons(
                tokens,
            )[i]).day_index < DAY_COUNT && 0 <= week_lessons(tokens)[i].period_index
                < PERIOD_COUNT,
{
    let cols = day_columns(tokens);
    let rows = period_rows(tokens);
    let lessons = week_lessons(tokens);
    lemma_day_columns_ascending(tokens);
    lemma_period_rows_distinct(tokens);
    lemma_grid_lessons(tokens, cols, rows, cols.len());
    assert(lessons.len() <= 30) by (nonlinear_arith)
        requires
            lessons.len() <= cols.len() * rows.len(),
            cols.len() <= 5,
            rows.len() <= 6,
    ;
    assert forall|i: int| 0 <= i < lessons.len() implies 0 <= (#[trigger] lessons[i]).day_index
        < DAY_COUNT && 0 <= lessons[i].period_index < PERIOD_COUNT by {
        let c = choose|c: int|
            0 <= c < cols.len() && lessons[i].day_index == (#[trigger] cols[c]).0;
        let r = choose|r: int|
            0 <= r < rows.len() && lessons[i].period_index == (#[trigger] rows[r]).0;
    }
}

} // verus!
