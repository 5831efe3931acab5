//! Laying out a week as a page: where every box and every line of text of
//! the timetable goes, and how the map is set into the finished drawing.
//! The layout is a list of shapes; painting them is left to the caller.

use crate::arith::{clamp, clamped, distance, quotient_toward_zero};
use crate::config::{best_mapping, Config};
use crate::parser::{in_grid, Lesson, LessonView, Week, WeekView};
use crate::text::{
    append_chars, byte_len, byte_length, ends_with, find, first_occurrence, from_chars,
    has_prefix, has_suffix, occurs_at, same_str, split_words, starts_with, text_views, to_chars,
    trim, trimmed, words_of,
};
use crate::words::{day_name, day_name_chars, DAY_COUNT, PERIOD_COUNT};
use vstd::prelude::*;

verus! {

/// Width of the page.
pub const PAGE_WIDTH: i32 = 794;

/// Height of the page.
pub const PAGE_HEIGHT: i32 = 1123;

/// Height of the part of the page that the timetable takes.
pub const TIMETABLE_HEIGHT: i32 = 650;

/// Room for the period labels, left of the grid.
pub const LEFT_MARGIN: i64 = 60;

/// Room for the student's name and the week, above the grid.
pub const TOP_MARGIN: i64 = 80;

/// Room right of the grid.
pub const RIGHT_MARGIN: i64 = 30;

/// Room for the date, below the grid.
pub const BOTTOM_MARGIN: i64 = 40;

/// Height of the bar that stands for break, and of the one for lunch.
pub const GAP_HEIGHT: i64 = 24;

/// Room between a cell's box and the cell's edge.
pub const CELL_PADDING: i64 = 3;

/// Width of the coloured strip on the right of a cell.
pub const LABEL_WIDTH: i64 = 30;

/// A subject longer than this many bytes is broken into lines.
pub const LINE_LIMIT: usize = 18;

/// What a shape is, which decides how it is painted.
#[derive(Debug, Clone, Copy, PartialEq, Eq, Structural)]
pub enum ShapeKind {
    /// The student's name and form, top left.
    StudentHeader,
    /// The week's name, top centre.
    WeekLabel,
    /// A weekday's name above its column.
    DayHeader,
    /// A period's name left of its row.
    PeriodLabel,
    /// The bar that stands for break or lunch.
    GapBox,
    /// The words on such a bar.
    GapLabel,
    /// The white box of a lesson.
    CellBox,
    /// The coloured strip of a lesson.
    LabelBox,
    /// A line of a lesson's subject.
    Subject,
    /// A lesson's room.
    Room,
    /// A lesson's teacher.
    Teacher,
    /// The upright label on a lesson's strip.
    ClassLabel,
    /// The date at the foot of the page.
    Footer,
}

/// A box or a line of text on the page. A box has a size and a fill colour
/// and no text; a line of text has no size, and a colour only where its kind
/// does not decide it.
#[derive(Debug)]
pub struct Shape {
    pub kind: ShapeKind,
    pub x: i64,
    pub y: i64,
    pub width: i64,
    pub height: i64,
    pub text: String,
    pub color: String,
}

/// What a `Shape` holds.
pub struct ShapeView {
    pub kind: ShapeKind,
    pub x: int,
    pub y: int,
    pub width: int,
    pub height: int,
    pub text: Seq<char>,
    pub color: Seq<char>,
}

impl View for Shape {
    type V = ShapeView;

    open spec fn view(&self) -> ShapeView {
        ShapeView {
            kind: self.kind,
            x: self.x as int,
            y: self.y as int,
            width: self.width as int,
            height: self.height as int,
            text: self.text@,
            color: self.color@,
        }
    }
}

/// The views of a list of shapes.
pub open spec fn shape_views(shapes: Seq<Shape>) -> Seq<ShapeView> {
    shapes.map_values(|s: Shape| s@)
}

/// A line of text at `(x, y)`.
pub open spec fn text_at(
    kind: ShapeKind,
    x: int,
    y: int,
    text: Seq<char>,
    color: Seq<char>,
) -> ShapeView {
    ShapeView { kind, x, y, width: 0, height: 0, text, color }
}

/// A box with its corner at `(x, y)`.
pub open spec fn box_at(
    kind: ShapeKind,
    x: int,
    y: int,
    width: int,
    height: int,
    color: Seq<char>,
) -> ShapeView {
    ShapeView { kind, x, y, width, height, text: Seq::empty(), color }
}

/// Width of a column on a page of width `width`: a fifth of what the
/// margins leave, rounded toward zero.
pub open spec fn column_width(width: int) -> int {
    quotient_toward_zero(width - LEFT_MARGIN - RIGHT_MARGIN, DAY_COUNT as int)
}

/// Height of a row on a page of height `height`: a sixth of what the
/// margins and the two bars leave, rounded toward zero.
pub open spec fn row_height(height: int) -> int {
    quotient_toward_zero(
        height - TOP_MARGIN - BOTTOM_MARGIN - 2 * GAP_HEIGHT,
        PERIOD_COUNT as int,
    )
}

/// Half of `v`, rounded toward zero.
pub open spec fn half(v: int) -> int {
    quotient_toward_zero(v, 2)
}

/// Where the column of weekday `day` begins.
pub open spec fn column_left(day: int, width: int) -> int {
    LEFT_MARGIN + day * column_width(width)
}

/// Where the row of `period` begins: break lies after the third period,
/// lunch after the fifth.
pub open spec fn row_top(period: int, height: int) -> int {
    TOP_MARGIN + period * row_height(height) + (if period > 2 {
        GAP_HEIGHT as int
    } else {
        0
    }) + (if period > 4 {
        GAP_HEIGHT as int
    } else {
        0
    })
}

/// The quotient `a / b` rounded toward zero.
fn divide(a: i64, b: i64) -> (q: i64)
    requires
        b > 0,
        a > i64::MIN,
    ensures
        q == quotient_toward_zero(a as int, b as int),
        -distance(a as int, 0) <= q <= distance(a as int, 0),
{
    crate::arith::divide(a as i128, b as i128) as i64
}

/// The product of a small count and a length.
fn times(count: i64, length: i64) -> (p: i64)
    requires
        0 <= count <= 8,
        -0x1_0000_0000 <= length <= 0x1_0000_0000,
    ensures
        p == count * length,
        -0x8_0000_0000 <= p <= 0x8_0000_0000,
{
    assert(-0x8_0000_0000 <= count * length <= 0x8_0000_0000) by (nonlinear_arith)
        requires
            0 <= count <= 8,
            -0x1_0000_0000 <= length <= 0x1_0000_0000,
    ;
    count * length
}

/// Width of a column on a page of width `width`.
pub fn column_width_of(width: i32) -> (w: i64)
    ensures
        w == column_width(width as int),
        -0x1_0000_0000 <= w <= 0x1_0000_0000,
{
    divide(width as i64 - LEFT_MARGIN - RIGHT_MARGIN, 5)
}

/// Height of a row on a page of height `height`.
pub fn row_height_of(height: i32) -> (h: i64)
    ensures
        h == row_height(height as int),
        -0x1_0000_0000 <= h <= 0x1_0000_0000,
{
    divide(height as i64 - TOP_MARGIN - BOTTOM_MARGIN - 2 * GAP_HEIGHT, 6)
}

/// Where the column of weekday `day` begins.
pub fn column_left_of(day: usize, width: i32) -> (x: i64)
    requires
        day < DAY_COUNT,
    ensures
        x == column_left(day as int, width as int),
        -0x10_0000_0000 <= x <= 0x10_0000_0000,
{
    LEFT_MARGIN + times(day as i64, column_width_of(width))
}

/// Where the row of `period` begins.
pub fn row_top_of(period: usize, height: i32) -> (y: i64)
    requires
        period < PERIOD_COUNT,
    ensures
        y == row_top(period as int, height as int),
        -0x10_0000_0000 <= y <= 0x10_0000_0000,
{
    let mut y = TOP_MARGIN + times(period as i64, row_height_of(height));
    if period > 2 {
        y = y + GAP_HEIGHT;
    }
    if period > 4 {
        y = y + GAP_HEIGHT;
    }
    y
}

/// A line of text at `(x, y)`.
fn text_shape(kind: ShapeKind, x: i64, y: i64, text: String, color: String) -> (s: Shape)
    ensures
        s@ == text_at(kind, x as int, y as int, text@, color@),
{
    Shape { kind, x, y, width: 0, height: 0, text, color }
}

/// A box with its corner at `(x, y)`.
fn box_shape(kind: ShapeKind, x: i64, y: i64, width: i64, height: i64, color: String) -> (s: Shape)
    ensures
        s@ == box_at(kind, x as int, y as int, width as int, height as int, color@),
{
    Shape { kind, x, y, width, height, text: String::new(), color }
}

/// The line that names the student: name and form, the name alone, or a
/// general title.
pub open spec fn student_heading(week: WeekView) -> Seq<char> {
    match (week.student_name, week.form) {
        (Some(name), Some(form)) => name + " ("@ + form + ")"@,
        (Some(name), None) => name,
        _ => "Student Timetable"@,
    }
}

/// The line that names the student.
pub fn heading_of(week: &Week) -> (r: String)
    ensures
        r@ == student_heading(week@),
{
    match (&week.student_name, &week.form) {
        (Some(name), Some(form)) => {
            let mut r = name.clone();
            r.append(" (");
            r.append(form.as_str());
            r.append(")");
            r
        },
        (Some(name), None) => name.clone(),
        _ => "Student Timetable".to_string(),
    }
}

/// The header of weekday `day`, centred above its column.
pub open spec fn day_header(day: int, width: int) -> ShapeView {
    text_at(
        ShapeKind::DayHeader,
        column_left(day, width) + half(column_width(width)),
        TOP_MARGIN - 15,
        day_name(day),
        Seq::empty(),
    )
}

/// The headers of the first `n` weekdays.
pub open spec fn day_headers(width: int, n: nat) -> Seq<ShapeView>
    decreases n,
{
    if n == 0 {
        Seq::empty()
    } else {
        day_headers(width, (n - 1) as nat).push(day_header(n - 1, width))
    }
}

/// What stands above the grid: the student, the week, and the weekdays.
pub open spec fn header_shapes(week: WeekView, width: int) -> Seq<ShapeView> {
    seq![
        text_at(ShapeKind::StudentHeader, LEFT_MARGIN as int, 30, student_heading(week), Seq::empty()),
        text_at(ShapeKind::WeekLabel, half(width), 30, week.week_name, Seq::empty()),
    ] + day_headers(width, DAY_COUNT as nat)
}

/// Lays out what stands above the grid.
pub fn draw_header(week: &Week, width: i32) -> (shapes: Vec<Shape>)
    ensures
        shape_views(shapes@) == header_shapes(week@, width as int),
{
    let mut shapes: Vec<Shape> = Vec::new();
    shapes.push(text_shape(ShapeKind::StudentHeader, LEFT_MARGIN, 30, heading_of(week), String::new()));
    shapes.push(
        text_shape(
            ShapeKind::WeekLabel,
            divide(width as i64, 2),
            30,
            week.week_name.clone(),
            String::new(),
        ),
    );
    let ghost top = shape_views(shapes@);
    assert(top =~= seq![
        text_at(ShapeKind::StudentHeader, LEFT_MARGIN as int, 30, student_heading(week@), Seq::empty()),
        text_at(ShapeKind::WeekLabel, half(width as int), 30, week@.week_name, Seq::empty()),
    ]);
    let mut d: usize = 0;
    while d < DAY_COUNT
        invariant
            d <= DAY_COUNT,
            shape_views(shapes@) == top + day_headers(width as int, d as nat),
        decreases DAY_COUNT - d,
    {
        let cw = column_width_of(width);
        let x = column_left_of(d, width) + divide(cw, 2);
        let shape = text_shape(
            ShapeKind::DayHeader,
            x,
            TOP_MARGIN - 15,
            from_chars(&day_name_chars(d)),
            String::new(),
        );
        proof {
            assert(shape_views(shapes@.push(shape)) =~= shape_views(shapes@).push(shape@));
            assert((top + day_headers(width as int, d as nat)).push(shape@) =~= top + day_headers(
                width as int,
                d as nat,
            ).push(shape@));
        }
        shapes.push(shape);
        d += 1;
    }
    shapes
}

/// The name of `period`.
pub open spec fn period_label(period: int) -> Seq<char> {
    if period == 0 {
        "PD"@
    } else if period == 1 {
        "L1"@
    } else if period == 2 {
        "L2"@
    } else if period == 3 {
        "L3"@
    } else if period == 4 {
        "L4"@
    } else {
        "L5"@
    }
}

/// The name of `period`.
pub fn period_label_of(period: usize) -> (r: String)
    ensures
        r@ == period_label(period as int),
{
    if period == 0 {
        "PD".to_string()
    } else if period == 1 {
        "L1".to_string()
    } else if period == 2 {
        "L2".to_string()
    } else if period == 3 {
        "L3".to_string()
    } else if period == 4 {
        "L4".to_string()
    } else {
        "L5".to_string()
    }
}

/// The bar below `period` and the words on it.
pub open spec fn gap_shapes(period: int, words: Seq<char>, width: int, height: int) -> Seq<ShapeView> {
    let bar_top = row_top(period, height) + row_height(height) + CELL_PADDING;
    let content_width = column_width(width) * 5;
    seq![
        box_at(
            ShapeKind::GapBox,
            LEFT_MARGIN + CELL_PADDING,
            bar_top,
            content_width - 2 * CELL_PADDING,
            GAP_HEIGHT - 2 * CELL_PADDING,
            "#eeeeee"@,
        ),
        text_at(
            ShapeKind::GapLabel,
            LEFT_MARGIN + half(content_width),
            bar_top + 10,
            words,
            Seq::empty(),
        ),
    ]
}

/// What the row of `period` shows left of and below its cells: the period's
/// name, and under the third and the fifth period the bars for break and for
/// lunch.
pub open spec fn period_shapes(period: int, width: int, height: int) -> Seq<ShapeView> {
    let label = text_at(
        ShapeKind::PeriodLabel,
        30,
        row_top(period, height) + half(row_height(height)),
        period_label(period),
        Seq::empty(),
    );
    if period == 2 {
        seq![label] + gap_shapes(period, "Break (11:00 - 11:30)"@, width, height)
    } else if period == 4 {
        seq![label] + gap_shapes(period, "Lunch (13:30 - 14:10)"@, width, height)
    } else {
        seq![label]
    }
}

/// What the first `n` rows show left of and below their cells.
pub open spec fn rows_shapes(width: int, height: int, n: nat) -> Seq<ShapeView>
    decreases n,
{
    if n == 0 {
        Seq::empty()
    } else {
        rows_shapes(width, height, (n - 1) as nat) + period_shapes(n - 1, width, height)
    }
}

/// Lays out the name of `period` and the bar below it, if it has one.
pub fn draw_period(period: usize, width: i32, height: i32) -> (shapes: Vec<Shape>)
    requires
        period < PERIOD_COUNT,
    ensures
        shape_views(shapes@) == period_shapes(period as int, width as int, height as int),
{
    let top = row_top_of(period, height);
    let rh = row_height_of(height);
    let mut shapes: Vec<Shape> = Vec::new();
    shapes.push(
        text_shape(
            ShapeKind::PeriodLabel,
            30,
            top + divide(rh, 2),
            period_label_of(period),
            String::new(),
        ),
    );
    if period == 2 || period == 4 {
        let bar_top = top + rh + CELL_PADDING;
        let content_width = times(5, column_width_of(width));
        let words = if period == 2 {
            "Break (11:00 - 11:30)".to_string()
        } else {
            "Lunch (13:30 - 14:10)".to_string()
        };
        shapes.push(
            box_shape(
                ShapeKind::GapBox,
                LEFT_MARGIN + CELL_PADDING,
                bar_top,
                content_width - 2 * CELL_PADDING,
                GAP_HEIGHT - 2 * CELL_PADDING,
                "#eeeeee".to_string(),
            ),
        );
        shapes.push(
            text_shape(
                ShapeKind::GapLabel,
                LEFT_MARGIN + divide(content_width, 2),
                bar_top + 10,
                words,
                String::new(),
            ),
        );
    }
    assert(shape_views(shapes@) =~= period_shapes(period as int, width as int, height as int));
    shapes
}

/// The lines in progress after the words `words`: a word joins the line
/// while line and word together stay under the limit, else it begins a new
/// line.
pub open spec fn fill_lines(words: Seq<Seq<char>>) -> (Seq<Seq<char>>, Seq<char>)
    decreases words.len(),
{
    if words.len() == 0 {
        (Seq::empty(), Seq::empty())
    } else {
        let (lines, current) = fill_lines(words.drop_last());
        let word = words.last();
        if current.len() == 0 {
            (lines, word)
        } else if byte_len(current) + byte_len(word) < LINE_LIMIT {
            (lines, current + seq![' '] + word)
        } else {
            (lines.push(current), word)
        }
    }
}

/// The words set into lines.
pub open spec fn wrapped(words: Seq<Seq<char>>) -> Seq<Seq<char>> {
    let (lines, current) = fill_lines(words);
    if current.len() > 0 {
        lines.push(current)
    } else {
        lines
    }
}

/// Whether a subject is broken into lines: it is longer than the limit and
/// has more than one word.
pub open spec fn is_wrapped(subject: Seq<char>) -> bool {
    byte_len(subject) > LINE_LIMIT && words_of(subject).len() > 1
}

/// Sets words into lines.
pub fn wrap_words(words: &Vec<Vec<char>>) -> (lines: Vec<Vec<char>>)
    ensures
        text_views(lines@) == wrapped(text_views(words@)),
{
    let ghost views = text_views(words@);
    let mut lines: Vec<Vec<char>> = Vec::new();
    let mut current: Vec<char> = Vec::new();
    let mut i: usize = 0;
    assert(text_views(lines@) =~= Seq::<Seq<char>>::empty());
    while i < words.len()
        invariant
            i <= words.len(),
            views == text_views(words@),
            (text_views(lines@), current@) == fill_lines(views.take(i as int)),
        decreases words.len() - i,
    {
        proof {
            assert(views.take(i + 1).drop_last() =~= views.take(i as int));
            assert(views.take(i + 1).last() == words@[i as int]@);
        }
        let word = &words[i];
        if current.len() == 0 {
            current = copy_chars(word);
        } else {
            let held = byte_length(&current);
            let more = byte_length(word);
            if held < LINE_LIMIT && more < LINE_LIMIT - held {
                current.push(' ');
                append_chars(&mut current, word);
            } else {
                proof {
                    assert(text_views(lines@.push(current)) =~= text_views(lines@).push(current@));
                }
                lines.push(current);
                current = copy_chars(word);
            }
        }
        i += 1;
    }
    assert(views.take(i as int) =~= views);
    if current.len() > 0 {
        proof {
            assert(text_views(lines@.push(current)) =~= text_views(lines@).push(current@));
        }
        lines.push(current);
    }
    lines
}

/// A copy of `text`.
fn copy_chars(text: &Vec<char>) -> (r: Vec<char>)
    ensures
        r@ == text@,
{
    let mut r: Vec<char> = Vec::new();
    append_chars(&mut r, text);
    assert(r@ =~= text@);
    r
}

/// The lines of a subject in a cell whose corner is `(x, y)`: the subject
/// whole, or its words set into lines eleven apart. A line that would fall
/// beyond what 64 bits can take is held at the limit.
pub open spec fn subject_shapes(subject: Seq<char>, x: int, y: int) -> Seq<ShapeView> {
    if is_wrapped(subject) {
        let lines = wrapped(words_of(subject));
        Seq::new(
            lines.len(),
            |i: int|
                text_at(
                    ShapeKind::Subject,
                    x + CELL_PADDING + 5,
                    clamped(y + CELL_PADDING + 12 + i * 11),
                    lines[i],
                    Seq::empty(),
                ),
        )
    } else {
        seq![
            text_at(
                ShapeKind::Subject,
                x + CELL_PADDING + 5,
                y + CELL_PADDING + 14,
                subject,
                Seq::empty(),
            ),
        ]
    }
}

/// Lays out the lines of a subject.
fn draw_subject(subject: &String, x: i64, y: i64) -> (shapes: Vec<Shape>)
    requires
        -0x10_0000_0000 <= x <= 0x10_0000_0000,
        -0x10_0000_0000 <= y <= 0x10_0000_0000,
    ensures
        shape_views(shapes@) == subject_shapes(subject@, x as int, y as int),
{
    let chars = to_chars(subject.as_str());
    let words = split_words(&chars);
    let mut shapes: Vec<Shape> = Vec::new();
    if byte_length(&chars) > LINE_LIMIT && words.len() > 1 {
        let lines = wrap_words(&words);
        let mut i: usize = 0;
        while i < lines.len()
            invariant
                i <= lines.len(),
                -0x10_0000_0000 <= x <= 0x10_0000_0000,
                -0x10_0000_0000 <= y <= 0x10_0000_0000,
                shapes.len() == i,
                forall|j: int|
                    0 <= j < i ==> (#[trigger] shapes@[j])@ == text_at(
                        ShapeKind::Subject,
                        x + CELL_PADDING + 5,
                        clamped(y + CELL_PADDING + 12 + j * 11),
                        lines@[j]@,
                        Seq::empty(),
                    ),
            decreases lines.len() - i,
        {
            let line_y: i128 = y as i128 + CELL_PADDING as i128 + 12 + 11 * (i as i128);
            shapes.push(
                text_shape(
                    ShapeKind::Subject,
                    x + CELL_PADDING + 5,
                    clamp(line_y),
                    from_chars(&lines[i]),
                    String::new(),
                ),
            );
            i += 1;
        }
        assert(shape_views(shapes@) =~= subject_shapes(subject@, x as int, y as int));
    } else {
        shapes.push(
            text_shape(
                ShapeKind::Subject,
                x + CELL_PADDING + 5,
                y + CELL_PADDING + 14,
                from_chars(&chars),
                String::new(),
            ),
        );
        assert(shape_views(shapes@) =~= subject_shapes(subject@, x as int, y as int));
    }
    shapes
}

/// Whether a room is none: nothing was found for it, or only the word that
/// stands for no room.
pub open spec fn is_unknown_room(room: Seq<char>) -> bool {
    room == "Unknown"@ || room == "DEFAULT"@
}

/// The colours of a lesson's strip and of the label on it: grey for an
/// unknown room, else the colours of the mapping that styles the room, else
/// white and near-black.
pub open spec fn lesson_colors(config: Config, room: Seq<char>) -> (Seq<char>, Seq<char>) {
    if is_unknown_room(room) {
        ("#e0e0e0"@, "#4a4a4a"@)
    } else {
        match best_mapping(config.mappings@, room) {
            Some(i) => (config.mappings@[i].bg_color@, config.mappings@[i].fg_color@),
            None => ("#ffffff"@, "#231f20"@),
        }
    }
}

/// The words on a lesson's strip: the class code if there is one, else the
/// subject for an unknown room, else the room.
pub open spec fn strip_text(lesson: LessonView) -> Seq<char> {
    if lesson.class_code.len() > 0 {
        lesson.class_code
    } else if is_unknown_room(lesson.room) {
        lesson.subject
    } else {
        lesson.room
    }
}

/// The room of a lesson, unless it is unknown.
pub open spec fn room_shapes(lesson: LessonView, x: int, y: int, height: int) -> Seq<ShapeView> {
    if lesson.room == "Unknown"@ {
        Seq::empty()
    } else {
        seq![
            text_at(
                ShapeKind::Room,
                x + CELL_PADDING + 5,
                y + row_height(height) - CELL_PADDING - 22,
                lesson.room,
                Seq::empty(),
            ),
        ]
    }
}

/// The teacher of a lesson, unless unknown.
pub open spec fn teacher_shapes(lesson: LessonView, x: int, y: int, height: int) -> Seq<ShapeView> {
    if lesson.teacher == "Unknown"@ {
        Seq::empty()
    } else {
        seq![
            text_at(
                ShapeKind::Teacher,
                x + CELL_PADDING + 5,
                y + row_height(height) - CELL_PADDING - 8,
                lesson.teacher,
                Seq::empty(),
            ),
        ]
    }
}

/// The two boxes of a lesson: the white box, and right of it the strip in
/// the room's colour.
pub open spec fn cell_boxes(x: int, y: int, strip_color: Seq<char>, width: int, height: int) -> Seq<
    ShapeView,
> {
    seq![
        box_at(
            ShapeKind::CellBox,
            x + CELL_PADDING,
            y + CELL_PADDING,
            column_width(width) - LABEL_WIDTH - 2 * CELL_PADDING,
            row_height(height) - 2 * CELL_PADDING,
            "#ffffff"@,
        ),
        box_at(
            ShapeKind::LabelBox,
            x + column_width(width) - LABEL_WIDTH - CELL_PADDING,
            y + CELL_PADDING,
            LABEL_WIDTH as int,
            row_height(height) - 2 * CELL_PADDING,
            strip_color,
        ),
    ]
}

/// The label on a lesson's strip, at the strip's middle.
pub open spec fn strip_label(
    lesson: LessonView,
    x: int,
    y: int,
    color: Seq<char>,
    width: int,
    height: int,
) -> ShapeView {
    text_at(
        ShapeKind::ClassLabel,
        x + column_width(width) - LABEL_WIDTH - CELL_PADDING + half(LABEL_WIDTH as int) - 2,
        y + half(row_height(height)),
        strip_text(lesson),
        color,
    )
}

/// Everything that shows a lesson: its two boxes, the lines of its subject,
/// its room and its teacher where they are known, and the label on its
/// strip.
pub open spec fn lesson_shapes(lesson: LessonView, config: Config, width: int, height: int) -> Seq<
    ShapeView,
> {
    let x = column_left(lesson.day_index, width);
    let y = row_top(lesson.period_index, height);
    let colors = lesson_colors(config, lesson.room);
    cell_boxes(x, y, colors.0, width, height) + subject_shapes(lesson.subject, x, y) + room_shapes(
        lesson,
        x,
        y,
        height,
    ) + teacher_shapes(lesson, x, y, height) + seq![
        strip_label(lesson, x, y, colors.1, width, height),
    ]
}

/// Lays out one lesson.
pub fn draw_lesson(lesson: &Lesson, config: &Config, width: i32, height: i32) -> (shapes: Vec<Shape>)
    requires
        lesson.day_index < DAY_COUNT,
        lesson.period_index < PERIOD_COUNT,
    ensures
        shape_views(shapes@) == lesson_shapes(lesson@, *config, width as int, height as int),
{
    let x = column_left_of(lesson.day_index, width);
    let y = row_top_of(lesson.period_index, height);
    let cw = column_width_of(width);
    let rh = row_height_of(height);
    let unknown = same_str(lesson.room.as_str(), "Unknown") || same_str(lesson.room.as_str(), "DEFAULT");
    let (strip_color, label_color) = if unknown {
        ("#e0e0e0".to_string(), "#4a4a4a".to_string())
    } else {
        match config.get_style_for_room(lesson.room.as_str()) {
            Some(m) => (m.bg_color.clone(), m.fg_color.clone()),
            None => ("#ffffff".to_string(), "#231f20".to_string()),
        }
    };
    let ghost colors = lesson_colors(*config, lesson@.room);
    assert(strip_color@ == colors.0 && label_color@ == colors.1);
    let mut shapes: Vec<Shape> = Vec::new();
    shapes.push(
        box_shape(
            ShapeKind::CellBox,
            x + CELL_PADDING,
            y + CELL_PADDING,
            cw - LABEL_WIDTH - 2 * CELL_PADDING,
            rh - 2 * CELL_PADDING,
            "#ffffff".to_string(),
        ),
    );
    let label_x = x + cw - LABEL_WIDTH - CELL_PADDING;
    shapes.push(
        box_shape(
            ShapeKind::LabelBox,
            label_x,
            y + CELL_PADDING,
            LABEL_WIDTH,
            rh - 2 * CELL_PADDING,
            strip_color,
        ),
    );
    assert(shape_views(shapes@) =~= cell_boxes(
        x as int,
        y as int,
        colors.0,
        width as int,
        height as int,
    ));
    let mut subject = draw_subject(&lesson.subject, x, y);
    let ghost boxes = shape_views(shapes@);
    let ghost lines = shape_views(subject@);
    shapes.append(&mut subject);
    assert(shape_views(shapes@) =~= boxes + lines);
    if !same_str(lesson.room.as_str(), "Unknown") {
        shapes.push(
            text_shape(
                ShapeKind::Room,
                x + CELL_PADDING + 5,
                y + rh - CELL_PADDING - 22,
                lesson.room.clone(),
                String::new(),
            ),
        );
    }
    assert(shape_views(shapes@) =~= boxes + lines + room_shapes(
        lesson@,
        x as int,
        y as int,
        height as int,
    ));
    if !same_str(lesson.teacher.as_str(), "Unknown") {
        shapes.push(
            text_shape(
                ShapeKind::Teacher,
                x + CELL_PADDING + 5,
                y + rh - CELL_PADDING - 8,
                lesson.teacher.clone(),
                String::new(),
            ),
        );
    }
    assert(shape_views(shapes@) =~= boxes + lines + room_shapes(
        lesson@,
        x as int,
        y as int,
        height as int,
    ) + teacher_shapes(lesson@, x as int, y as int, height as int));
    let words = if lesson.class_code.as_str().is_empty() == false {
        lesson.class_code.clone()
    } else if unknown {
        lesson.subject.clone()
    } else {
        lesson.room.clone()
    };
    shapes.push(
        text_shape(
            ShapeKind::ClassLabel,
            label_x + divide(LABEL_WIDTH, 2) - 2,
            y + divide(rh, 2),
            words,
            label_color,
        ),
    );
    assert(shape_views(shapes@) =~= lesson_shapes(
        lesson@,
        *config,
        width as int,
        height as int,
    ));
    shapes
}

/// The shapes of the first `n` lessons, lesson after lesson.
pub open spec fn lessons_shapes(
    lessons: Seq<LessonView>,
    config: Config,
    width: int,
    height: int,
    n: nat,
) -> Seq<ShapeView>
    decreases n,
{
    if n == 0 || n > lessons.len() {
        Seq::empty()
    } else {
        lessons_shapes(lessons, config, width, height, (n - 1) as nat) + lesson_shapes(
            lessons[n - 1],
            config,
            width,
            height,
        )
    }
}

/// The line at the foot of the page that says when the page was made.
pub open spec fn footer_shape(updated: Seq<char>, width: int, height: int) -> ShapeView {
    text_at(
        ShapeKind::Footer,
        width - RIGHT_MARGIN,
        height - 10,
        "Updated: "@ + updated,
        Seq::empty(),
    )
}

/// The timetable of a week on a page of the given size: what stands above
/// the grid, the names of the periods with the bars for break and lunch,
/// the lessons in their order, and the date `updated` at the foot.
pub open spec fn timetable_shapes(
    week: WeekView,
    config: Config,
    width: int,
    height: int,
    updated: Seq<char>,
) -> Seq<ShapeView> {
    header_shapes(week, width) + rows_shapes(width, height, PERIOD_COUNT as nat) + lessons_shapes(
        week.lessons,
        config,
        width,
        height,
        week.lessons.len(),
    ) + seq![footer_shape(updated, width, height)]
}

/// Lays out the timetable of a week whose lessons all lie in the grid.
pub fn draw_timetable_grid(
    week: &Week,
    config: &Config,
    width: i32,
    height: i32,
    updated: &str,
) -> (shapes: Vec<Shape>)
    requires
        in_grid(week@.lessons),
    ensures
        shape_views(shapes@) == timetable_shapes(
            week@,
            *config,
            width as int,
            height as int,
            updated@,
        ),
{
    let mut shapes = draw_header(week, width);
    let ghost header = shape_views(shapes@);
    let mut p: usize = 0;
    assert(header + Seq::<ShapeView>::empty() =~= header);
    while p < PERIOD_COUNT
        invariant
            p <= PERIOD_COUNT,
            shape_views(shapes@) == header + rows_shapes(width as int, height as int, p as nat),
        decreases PERIOD_COUNT - p,
    {
        let mut row = draw_period(p, width, height);
        let ghost before = shape_views(shapes@);
        let ghost added = shape_views(row@);
        shapes.append(&mut row);
        assert(shape_views(shapes@) =~= before + added);
        assert(before + added =~= header + (rows_shapes(width as int, height as int, p as nat)
            + added));
        p += 1;
    }
    let ghost frame = shape_views(shapes@);
    let ghost lessons = week@.lessons;
    let mut i: usize = 0;
    assert(frame + Seq::<ShapeView>::empty() =~= frame);
    while i < week.lessons.len()
        invariant
            i <= week.lessons.len(),
            lessons == week@.lessons,
            in_grid(lessons),
            shape_views(shapes@) == frame + lessons_shapes(
                lessons,
                *config,
                width as int,
                height as int,
                i as nat,
            ),
        decreases week.lessons.len() - i,
    {
        let lesson = &week.lessons[i];
        assert(lessons[i as int] == lesson@);
        let mut cell = draw_lesson(lesson, config, width, height);
        let ghost before = shape_views(shapes@);
        let ghost added = shape_views(cell@);
        shapes.append(&mut cell);
        assert(shape_views(shapes@) =~= before + added);
        assert(before + added =~= frame + (lessons_shapes(
            lessons,
            *config,
            width as int,
            height as int,
            i as nat,
        ) + added));
        i += 1;
    }
    let mut words = "Updated: ".to_string();
    words.append(updated);
    let footer = text_shape(
        ShapeKind::Footer,
        width as i64 - RIGHT_MARGIN,
        height as i64 - 10,
        words,
        String::new(),
    );
    let ghost before = shape_views(shapes@);
    shapes.push(footer);
    assert(shape_views(shapes@) =~= before.push(footer@));
    shapes
}

/// The tag that opens the frame in which the map is set: below the
/// timetable, as wide as the page, with a margin of 20 above and below.
pub const MAP_FRAME_OPEN: &'static str = "<svg x=\"0\" y=\"670\" width=\"794\" height=\"433\">";

/// The tag that closes a drawing.
pub const DRAWING_CLOSE: &'static str = "</svg>";

/// What is left of `s` from its first `c` on; nothing when `c` is not in it.
pub open spec fn from_first(s: Seq<char>, c: char) -> Seq<char>
    decreases s.len(),
{
    if s.len() == 0 || s[0] == c {
        s
    } else {
        from_first(s.drop_first(), c)
    }
}

/// The map as it is set into the page: what precedes its first tag is
/// dropped, and so is a leading XML declaration, up to the `?>` that ends it.
pub open spec fn map_body(map: Seq<char>) -> Seq<char> {
    let tags = from_first(map, '<');
    if has_prefix(tags, "<?xml"@) {
        match first_occurrence(tags, "?>"@) {
            Some(i) => tags.skip(i + "?>"@.len()),
            None => tags,
        }
    } else {
        tags
    }
}

/// The drawing `document` with the map set into it. The drawing's closing
/// tag, if it ends with one, is taken off; the map follows in a frame of its
/// own, unless it is blank; and the closing tag is put on again.
pub open spec fn with_map(document: Seq<char>, map: Seq<char>) -> Seq<char> {
    let open = if has_suffix(document, DRAWING_CLOSE@) {
        document.take(document.len() - DRAWING_CLOSE@.len())
    } else {
        document
    };
    let filled = if trimmed(map).len() == 0 {
        open
    } else {
        open + MAP_FRAME_OPEN@ + map_body(map) + DRAWING_CLOSE@
    };
    filled + DRAWING_CLOSE@
}

/// Drops what precedes the first `c`.
fn skip_to(s: &Vec<char>, c: char) -> (r: Vec<char>)
    ensures
        r@ == from_first(s@, c),
{
    let mut i: usize = 0;
    assert(s@.skip(0) =~= s@);
    while i < s.len() && s[i] != c
        invariant
            i <= s.len(),
            from_first(s@, c) == from_first(s@.skip(i as int), c),
        decreases s.len() - i,
    {
        proof {
            assert(s@.skip(i as int).drop_first() =~= s@.skip(i + 1));
        }
        i += 1;
    }
    let mut r: Vec<char> = Vec::new();
    let mut k: usize = i;
    while k < s.len()
        invariant
            i <= k <= s.len(),
            r@ =~= s@.subrange(i as int, k as int),
        decreases s.len() - k,
    {
        r.push(s[k]);
        k += 1;
    }
    assert(r@ =~= s@.skip(i as int));
    r
}

/// The part of `s` from position `from` on.
fn tail_of(s: &Vec<char>, from: usize) -> (r: Vec<char>)
    requires
        from <= s.len(),
    ensures
        r@ == s@.skip(from as int),
{
    let mut r: Vec<char> = Vec::new();
    let mut k: usize = from;
    while k < s.len()
        invariant
            from <= k <= s.len(),
            r@ =~= s@.subrange(from as int, k as int),
        decreases s.len() - k,
    {
        r.push(s[k]);
        k += 1;
    }
    assert(r@ =~= s@.skip(from as int));
    r
}

/// Sets the map into the finished drawing of the timetable.
pub fn embed_map(document: &str, map_content: &str) -> (r: String)
    ensures
        r@ == with_map(document@, map_content@),
{
    let close = to_chars(DRAWING_CLOSE);
    let mut out = to_chars(document);
    if ends_with(&out, &close) {
        let keep = out.len() - close.len();
        out.truncate(keep);
        assert(out@ =~= document@.take(document@.len() - DRAWING_CLOSE@.len()));
    }
    let map = to_chars(map_content);
    if trim(&map).len() > 0 {
        let tags = skip_to(&map, '<');
        let body = if starts_with(&tags, &to_chars("<?xml")) {
            let end = to_chars("?>");
            proof {
                reveal_strlit("?>");
            }
            match find(&tags, &end) {
                Some(i) => {
                    assert(occurs_at(tags@, end@, i as int));
                    assert(i + end.len() <= tags.len());
                    tail_of(&tags, i + end.len())
                },
                None => tags,
            }
        } else {
            tags
        };
        append_chars(&mut out, &to_chars(MAP_FRAME_OPEN));
        append_chars(&mut out, &body);
        append_chars(&mut out, &close);
    }
    append_chars(&mut out, &close);
    from_chars(&out)
}

} // verus!
