//! The fixed vocabulary of a timetable page: weekday names, period markers,
//! and the words that are never lesson content or student names.

use crate::text::{
    contains, eq_ignore_ascii_case, eq_ignoring_ascii_case, has_prefix, has_substring, same_text,
    starts_with, to_chars,
};
use vstd::prelude::*;

verus! {

/// Number of weekdays on a timetable.
pub const DAY_COUNT: usize = 5;

/// Number of periods in a day.
pub const PERIOD_COUNT: usize = 6;

/// Number of entries in the table of period markers.
pub const MARKER_COUNT: usize = 13;

/// Number of entries in the table of reserved words.
pub const RESERVED_COUNT: usize = 12;

/// The name of weekday `d`, Monday being 0.
pub open spec fn day_name(d: int) -> Seq<char> {
    if d == 0 {
        "Monday"@
    } else if d == 1 {
        "Tuesday"@
    } else if d == 2 {
        "Wednesday"@
    } else if d == 3 {
        "Thursday"@
    } else {
        "Friday"@
    }
}

/// The name of weekday `d` in lowercase.
pub open spec fn day_name_lower(d: int) -> Seq<char> {
    if d == 0 {
        "monday"@
    } else if d == 1 {
        "tuesday"@
    } else if d == 2 {
        "wednesday"@
    } else if d == 3 {
        "thursday"@
    } else {
        "friday"@
    }
}

/// The name of weekday `d`.
pub fn day_name_chars(d: usize) -> (r: Vec<char>)
    requires
        d < DAY_COUNT,
    ensures
        r@ == day_name(d as int),
{
    if d == 0 {
        to_chars("Monday")
    } else if d == 1 {
        to_chars("Tuesday")
    } else if d == 2 {
        to_chars("Wednesday")
    } else if d == 3 {
        to_chars("Thursday")
    } else {
        to_chars("Friday")
    }
}

/// The name of weekday `d` in lowercase.
pub fn day_name_lower_chars(d: usize) -> (r: Vec<char>)
    requires
        d < DAY_COUNT,
    ensures
        r@ == day_name_lower(d as int),
{
    if d == 0 {
        to_chars("monday")
    } else if d == 1 {
        to_chars("tuesday")
    } else if d == 2 {
        to_chars("wednesday")
    } else if d == 3 {
        to_chars("thursday")
    } else {
        to_chars("friday")
    }
}

/// Whether `text` is a weekday name, in any mix of ASCII upper and lower case.
pub open spec fn is_day_name(text: Seq<char>) -> bool {
    exists|d: int| 0 <= d < DAY_COUNT && eq_ignoring_ascii_case(text, #[trigger] day_name(d))
}

/// Whether `text` is a weekday name, in any mix of ASCII upper and lower case.
pub fn names_a_day(text: &Vec<char>) -> (r: bool)
    ensures
        r == is_day_name(text@),
{
    let mut d: usize = 0;
    while d < DAY_COUNT
        invariant
            d <= DAY_COUNT,
            forall|e: int| 0 <= e < d ==> !eq_ignoring_ascii_case(text@, #[trigger] day_name(e)),
        decreases DAY_COUNT - d,
    {
        if eq_ignore_ascii_case(text, &day_name_chars(d)) {
            return true;
        }
        d += 1;
    }
    false
}

/// The text of entry `m` of the marker table. The table lists, in this order,
/// PD, Reg, L1, 1, L2, 2, L3, 3, L4, 4, L4/, L5, 5.
pub open spec fn marker_text(m: int) -> Seq<char> {
    if m == 0 {
        "PD"@
    } else if m == 1 {
        "Reg"@
    } else if m == 2 {
        "L1"@
    } else if m == 3 {
        "1"@
    } else if m == 4 {
        "L2"@
    } else if m == 5 {
        "2"@
    } else if m == 6 {
        "L3"@
    } else if m == 7 {
        "3"@
    } else if m == 8 {
        "L4"@
    } else if m == 9 {
        "4"@
    } else if m == 10 {
        "L4/"@
    } else if m == 11 {
        "L5"@
    } else {
        "5"@
    }
}

/// The period that entry `m` of the marker table stands for.
pub open spec fn marker_period(m: int) -> int {
    if m <= 1 {
        0
    } else if m <= 3 {
        1
    } else if m <= 5 {
        2
    } else if m <= 7 {
        3
    } else if m <= 10 {
        4
    } else {
        5
    }
}

/// The text of entry `m` of the marker table.
pub fn marker_chars(m: usize) -> (r: Vec<char>)
    requires
        m < MARKER_COUNT,
    ensures
        r@ == marker_text(m as int),
{
    if m == 0 {
        to_chars("PD")
    } else if m == 1 {
        to_chars("Reg")
    } else if m == 2 {
        to_chars("L1")
    } else if m == 3 {
        to_chars("1")
    } else if m == 4 {
        to_chars("L2")
    } else if m == 5 {
        to_chars("2")
    } else if m == 6 {
        to_chars("L3")
    } else if m == 7 {
        to_chars("3")
    } else if m == 8 {
        to_chars("L4")
    } else if m == 9 {
        to_chars("4")
    } else if m == 10 {
        to_chars("L4/")
    } else if m == 11 {
        to_chars("L5")
    } else {
        to_chars("5")
    }
}

/// The period that entry `m` of the marker table stands for.
pub fn marker_period_index(m: usize) -> (p: usize)
    requires
        m < MARKER_COUNT,
    ensures
        p == marker_period(m as int),
        p < PERIOD_COUNT,
{
    if m <= 1 {
        0
    } else if m <= 3 {
        1
    } else if m <= 5 {
        2
    } else if m <= 7 {
        3
    } else if m <= 10 {
        4
    } else {
        5
    }
}

/// Whether `text` is one of the period markers, in any mix of ASCII upper
/// and lower case.
pub open spec fn is_marker(text: Seq<char>) -> bool {
    exists|m: int|
        0 <= m < MARKER_COUNT && eq_ignoring_ascii_case(text, #[trigger] marker_text(m))
}

/// Whether `text` is one of the period markers, in any mix of ASCII upper
/// and lower case.
pub fn names_a_marker(text: &Vec<char>) -> (r: bool)
    ensures
        r == is_marker(text@),
{
    let mut m: usize = 0;
    while m < MARKER_COUNT
        invariant
            m <= MARKER_COUNT,
            forall|e: int|
                0 <= e < m ==> !eq_ignoring_ascii_case(text@, #[trigger] marker_text(e)),
        decreases MARKER_COUNT - m,
    {
        if eq_ignore_ascii_case(text, &marker_chars(m)) {
            return true;
        }
        m += 1;
    }
    false
}

/// Whether `text` marks a row for entry `m` of the marker table: it is the
/// marker itself or, for a marker of two characters, begins with it.
pub open spec fn marks_row(text: Seq<char>, m: int) -> bool {
    text == marker_text(m) || (marker_text(m).len() == 2 && has_prefix(text, marker_text(m)))
}

/// Whether `text` marks a row for entry `m` of the marker table.
pub fn is_row_marker(text: &Vec<char>, m: usize) -> (r: bool)
    requires
        m < MARKER_COUNT,
    ensures
        r == marks_row(text@, m as int),
{
    let marker = marker_chars(m);
    same_text(text, &marker) || (marker.len() == 2 && starts_with(text, &marker))
}

/// Whether `text` is a word that says where a lesson is held without naming
/// a room.
pub open spec fn is_location_indicator(text: Seq<char>) -> bool {
    text == "DEFAULT"@ || text == "DS"@
}

/// Whether `text` is a word that says where a lesson is held without naming
/// a room.
pub fn names_a_location(text: &Vec<char>) -> (r: bool)
    ensures
        r == is_location_indicator(text@),
{
    same_text(text, &to_chars("DEFAULT")) || same_text(text, &to_chars("DS"))
}

/// Entry `k` of the table of words that never stand in a student's name.
pub open spec fn reserved_word(k: int) -> Seq<char> {
    if k == 0 {
        "Week"@
    } else if k == 1 {
        "Term"@
    } else if 2 <= k <= 6 {
        day_name(k - 2)
    } else if k == 7 {
        "Page"@
    } else if k == 8 {
        "of"@
    } else if k == 9 {
        "Personal"@
    } else if k == 10 {
        "Development"@
    } else {
        "Intervention"@
    }
}

/// Entry `k` of the table of reserved words.
pub fn reserved_word_chars(k: usize) -> (r: Vec<char>)
    requires
        k < RESERVED_COUNT,
    ensures
        r@ == reserved_word(k as int),
{
    if k == 0 {
        to_chars("Week")
    } else if k == 1 {
        to_chars("Term")
    } else if 2 <= k && k <= 6 {
        day_name_chars(k - 2)
    } else if k == 7 {
        to_chars("Page")
    } else if k == 8 {
        to_chars("of")
    } else if k == 9 {
        to_chars("Personal")
    } else if k == 10 {
        to_chars("Development")
    } else {
        to_chars("Intervention")
    }
}

/// Whether a reserved word stands somewhere in `text`.
pub open spec fn has_reserved_word(text: Seq<char>) -> bool {
    exists|k: int| 0 <= k < RESERVED_COUNT && has_substring(text, #[trigger] reserved_word(k))
}

/// Whether a reserved word stands somewhere in `text`.
pub fn holds_reserved_word(text: &Vec<char>) -> (r: bool)
    ensures
        r == has_reserved_word(text@),
{
    let mut k: usize = 0;
    while k < RESERVED_COUNT
        invariant
            k <= RESERVED_COUNT,
            forall|e: int| 0 <= e < k ==> !has_substring(text@, #[trigger] reserved_word(e)),
        decreases RESERVED_COUNT - k,
    {
        if contains(text, &reserved_word_chars(k)) {
            return true;
        }
        k += 1;
    }
    false
}

/// Whether `text` begins with a teacher's title.
pub open spec fn has_title_prefix(text: Seq<char>) -> bool {
    has_prefix(text, "Mr"@) || has_prefix(text, "Ms"@) || has_prefix(text, "Mrs"@) || has_prefix(
        text,
        "Miss"@,
    )
}

/// Whether `text` begins with a teacher's title.
pub fn begins_with_title(text: &Vec<char>) -> (r: bool)
    ensures
        r == has_title_prefix(text@),
{
    starts_with(text, &to_chars("Mr")) || starts_with(text, &to_chars("Ms")) || starts_with(
        text,
        &to_chars("Mrs"),
    ) || starts_with(text, &to_chars("Miss"))
}

} // verus!
