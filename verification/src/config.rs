//! Room styles and lesson overrides: which colours a room code gets, and
//! which lessons are corrected by hand after parsing.

use crate::parser::{in_grid, week_views, Lesson, LessonView, Week, WeekView};
use crate::text::{
    has_prefix, lowercase_of, same_text, starts_with, to_chars, to_lowercase, to_uppercase,
    uppercase_of,
};
use vstd::prelude::*;

verus! {

/// Configuration for timetable formatting and room mappings.
#[derive(Debug)]
pub struct Config {
    /// Rules that give room codes their style.
    pub mappings: Vec<Mapping>,
    /// Corrections to single lessons.
    pub overrides: Vec<Override>,
}

/// Maps a room code prefix to visual styling and map element.
#[derive(Debug)]
pub struct Mapping {
    /// Room code prefix to match: "MA" matches MA1, MA2 and so on.
    pub prefix: String,
    /// Background colour for cell and map.
    pub bg_color: String,
    /// Colour of labels.
    pub fg_color: String,
    /// Identifier of the map element to highlight.
    pub map_id: String,
    /// Name of the department.
    pub label: Option<String>,
}

/// Override for a specific lesson in the timetable.
#[derive(Debug, Clone)]
pub struct Override {
    /// Week number, counted from 1.
    pub week: usize,
    /// Day name, whole or cut to three letters.
    pub day: String,
    /// Period: PD, or L1 to L5.
    pub period: String,
    pub subject: Option<String>,
    pub room: Option<String>,
    pub teacher: Option<String>,
    pub class_code: Option<String>,
}

/// What became of one override.
#[derive(Debug, Clone, Copy, PartialEq, Eq, Structural)]
pub enum OverrideOutcome {
    /// The lesson was found and changed.
    Applied,
    /// The week number is 0 or beyond the last week.
    WeekOutOfRange,
    /// The day is not a weekday name.
    UnknownDay,
    /// The period is not a period name.
    UnknownPeriod,
    /// The week holds no lesson at that day and period.
    NoLesson,
}

/// The label colour of a mapping that names none.
pub fn default_fg_color() -> (r: String)
    ensures
        r@ == "#231f20"@,
{
    "#231f20".to_string()
}

/// The position of the mapping that styles `room`: the one whose prefix is
/// the longest among those that `room` begins with, and the last of these
/// where several are equally long.
pub open spec fn best_mapping(mappings: Seq<Mapping>, room: Seq<char>) -> Option<int>
    decreases mappings.len(),
{
    if mappings.len() == 0 {
        None
    } else {
        let before = best_mapping(mappings.drop_last(), room);
        let prefix = mappings.last().prefix@;
        if has_prefix(room, prefix) && (before is None || mappings[before->0].prefix@.len()
            <= prefix.len()) {
            Some(mappings.len() - 1)
        } else {
            before
        }
    }
}

/// Whether mapping `i` is the one with the longest prefix that `room` begins
/// with, and the last of these where several are equally long; with `None`,
/// whether `room` begins with no prefix at all.
pub open spec fn is_longest_match(mappings: Seq<Mapping>, room: Seq<char>, best: Option<int>) -> bool {
    match best {
        Some(i) => {
            &&& 0 <= i < mappings.len()
            &&& has_prefix(room, mappings[i].prefix@)
            &&& forall|j: int|
                0 <= j < mappings.len() && has_prefix(room, (#[trigger] mappings[j]).prefix@)
                    ==> mappings[j].prefix@.len() <= mappings[i].prefix@.len()
            &&& forall|j: int|
                i < j < mappings.len() && has_prefix(room, (#[trigger] mappings[j]).prefix@)
                    ==> mappings[j].prefix@.len() < mappings[i].prefix@.len()
        },
        None => forall|j: int|
            0 <= j < mappings.len() ==> !has_prefix(room, (#[trigger] mappings[j]).prefix@),
    }
}

/// The mapping that styles `room` has a prefix of `room`, no matching prefix
/// is longer, and none after it is as long.
pub proof fn lemma_best_mapping_is_longest(mappings: Seq<Mapping>, room: Seq<char>)
    ensures
        is_longest_match(mappings, room, best_mapping(mappings, room)),
    decreases mappings.len(),
{
    if mappings.len() > 0 {
        let rest = mappings.drop_last();
        let n = rest.len() as int;
        lemma_best_mapping_is_longest(rest, room);
        let before = best_mapping(rest, room);
        let best = best_mapping(mappings, room);
        match best {
            Some(i) => {
                assert forall|j: int|
                    0 <= j < mappings.len() && has_prefix(
                        room,
                        (#[trigger] mappings[j]).prefix@,
                    ) implies mappings[j].prefix@.len() <= mappings[i].prefix@.len() by {
                    if j < n {
                        assert(rest[j] == mappings[j]);
                        if before is Some {
                            assert(rest[before->0] == mappings[before->0]);
                        }
                    }
                }
                assert forall|j: int|
                    i < j < mappings.len() && has_prefix(
                        room,
                        (#[trigger] mappings[j]).prefix@,
                    ) implies mappings[j].prefix@.len() < mappings[i].prefix@.len() by {
                    if j < n {
                        assert(rest[j] == mappings[j]);
                        assert(rest[i] == mappings[i]);
                    }
                }
                if i < n {
                    assert(rest[i] == mappings[i]);
                }
            },
            None => {
                assert forall|j: int| 0 <= j < mappings.len() implies !has_prefix(
                    room,
                    (#[trigger] mappings[j]).prefix@,
                ) by {
                    if j < n {
                        assert(rest[j] == mappings[j]);
                    }
                }
            },
        }
    }
}

/// The day that a lowercase day name stands for, whole or cut to three
/// letters.
pub open spec fn day_index_of(lower: Seq<char>) -> Option<int> {
    if lower == "monday"@ || lower == "mon"@ {
        Some(0)
    } else if lower == "tuesday"@ || lower == "tue"@ {
        Some(1)
    } else if lower == "wednesday"@ || lower == "wed"@ {
        Some(2)
    } else if lower == "thursday"@ || lower == "thu"@ {
        Some(3)
    } else if lower == "friday"@ || lower == "fri"@ {
        Some(4)
    } else {
        None
    }
}

/// The period that an uppercase period name stands for.
pub open spec fn period_index_of(upper: Seq<char>) -> Option<int> {
    if upper == "PD"@ {
        Some(0)
    } else if upper == "L1"@ {
        Some(1)
    } else if upper == "L2"@ {
        Some(2)
    } else if upper == "L3"@ {
        Some(3)
    } else if upper == "L4"@ {
        Some(4)
    } else if upper == "L5"@ {
        Some(5)
    } else {
        None
    }
}

/// What an optional index holds.
pub open spec fn opt_index_view(i: Option<usize>) -> Option<int> {
    match i {
        Some(v) => Some(v as int),
        None => None,
    }
}

/// The day that a lowercase day name stands for.
pub fn parse_day(lower: &str) -> (r: Option<usize>)
    ensures
        opt_index_view(r) == day_index_of(lower@),
{
    let name = to_chars(lower);
    if same_text(&name, &to_chars("monday")) || same_text(&name, &to_chars("mon")) {
        Some(0)
    } else if same_text(&name, &to_chars("tuesday")) || same_text(&name, &to_chars("tue")) {
        Some(1)
    } else if same_text(&name, &to_chars("wednesday")) || same_text(&name, &to_chars("wed")) {
        Some(2)
    } else if same_text(&name, &to_chars("thursday")) || same_text(&name, &to_chars("thu")) {
        Some(3)
    } else if same_text(&name, &to_chars("friday")) || same_text(&name, &to_chars("fri")) {
        Some(4)
    } else {
        None
    }
}

/// The period that an uppercase period name stands for.
pub fn parse_period(upper: &str) -> (r: Option<usize>)
    ensures
        opt_index_view(r) == period_index_of(upper@),
{
    let name = to_chars(upper);
    if same_text(&name, &to_chars("PD")) {
        Some(0)
    } else if same_text(&name, &to_chars("L1")) {
        Some(1)
    } else if same_text(&name, &to_chars("L2")) {
        Some(2)
    } else if same_text(&name, &to_chars("L3")) {
        Some(3)
    } else if same_text(&name, &to_chars("L4")) {
        Some(4)
    } else if same_text(&name, &to_chars("L5")) {
        Some(5)
    } else {
        None
    }
}

/// The position of the first lesson at `day` and `period`.
pub open spec fn first_lesson_at(lessons: Seq<LessonView>, day: int, period: int) -> Option<int>
    decreases lessons.len(),
{
    if lessons.len() == 0 {
        None
    } else {
        match first_lesson_at(lessons.drop_last(), day, period) {
            Some(i) => Some(i),
            None => if lessons.last().day_index == day && lessons.last().period_index == period {
                Some(lessons.len() - 1)
            } else {
                None
            },
        }
    }
}

/// `new` where there is one, else `old`.
pub open spec fn replaced(old: Seq<char>, new: Option<String>) -> Seq<char> {
    match new {
        Some(s) => s@,
        None => old,
    }
}

/// The lesson with every field that `rule` names set to the rule's value.
pub open spec fn overridden(lesson: LessonView, rule: Override) -> LessonView {
    LessonView {
        subject: replaced(lesson.subject, rule.subject),
        room: replaced(lesson.room, rule.room),
        teacher: replaced(lesson.teacher, rule.teacher),
        class_code: replaced(lesson.class_code, rule.class_code),
        day_index: lesson.day_index,
        period_index: lesson.period_index,
    }
}

/// What becomes of `rule` on `weeks`, the day and the period being what the
/// rule's names stand for.
pub open spec fn outcome_at(
    weeks: Seq<WeekView>,
    rule: Override,
    day: Option<int>,
    period: Option<int>,
) -> OverrideOutcome {
    if rule.week == 0 || rule.week > weeks.len() {
        OverrideOutcome::WeekOutOfRange
    } else if day is None {
        OverrideOutcome::UnknownDay
    } else if period is None {
        OverrideOutcome::UnknownPeriod
    } else if first_lesson_at(weeks[rule.week - 1].lessons, day->0, period->0) is None {
        OverrideOutcome::NoLesson
    } else {
        OverrideOutcome::Applied
    }
}

/// The weeks after `rule`: when it applies, the first lesson of its week at
/// its day and period is overridden; nothing else changes.
pub open spec fn weeks_with(
    weeks: Seq<WeekView>,
    rule: Override,
    day: Option<int>,
    period: Option<int>,
) -> Seq<WeekView> {
    if outcome_at(weeks, rule, day, period) == OverrideOutcome::Applied {
        let week = weeks[rule.week - 1];
        let i = first_lesson_at(week.lessons, day->0, period->0)->0;
        weeks.update(
            rule.week - 1,
            WeekView { lessons: week.lessons.update(i, overridden(week.lessons[i], rule)), ..week },
        )
    } else {
        weeks
    }
}

/// The day that `rule` names: its day in lowercase, read as a day name.
pub open spec fn rule_day(rule: Override) -> Option<int> {
    day_index_of(lowercase_of(rule.day@))
}

/// The period that `rule` names: its period in uppercase, read as a period
/// name.
pub open spec fn rule_period(rule: Override) -> Option<int> {
    period_index_of(uppercase_of(rule.period@))
}

/// The weeks after the rules `rules`, applied one after the other.
pub open spec fn weeks_after(weeks: Seq<WeekView>, rules: Seq<Override>) -> Seq<WeekView>
    decreases rules.len(),
{
    if rules.len() == 0 {
        weeks
    } else {
        let rule = rules.last();
        weeks_with(weeks_after(weeks, rules.drop_last()), rule, rule_day(rule), rule_period(rule))
    }
}

/// What becomes of each of the rules `rules`, applied one after the other.
pub open spec fn outcomes_of(weeks: Seq<WeekView>, rules: Seq<Override>) -> Seq<OverrideOutcome>
    decreases rules.len(),
{
    if rules.len() == 0 {
        Seq::empty()
    } else {
        let rule = rules.last();
        outcomes_of(weeks, rules.drop_last()).push(
            outcome_at(
                weeks_after(weeks, rules.drop_last()),
                rule,
                rule_day(rule),
                rule_period(rule),
            ),
        )
    }
}

/// Whether `after` has the shape of `before`: as many weeks, each with its
/// name, student and form, and as many lessons, each at its day and period.
pub open spec fn same_shape(before: Seq<WeekView>, after: Seq<WeekView>) -> bool {
    &&& after.len() == before.len()
    &&& forall|w: int|
        0 <= w < before.len() ==> {
            &&& (#[trigger] after[w]).week_name == before[w].week_name
            &&& after[w].student_name == before[w].student_name
            &&& after[w].form == before[w].form
            &&& after[w].lessons.len() == before[w].lessons.len()
            &&& forall|l: int|
                0 <= l < before[w].lessons.len() ==> (#[trigger] after[w].lessons[l]).day_index
                    == before[w].lessons[l].day_index && after[w].lessons[l].period_index
                    == before[w].lessons[l].period_index
        }
}

/// Weeks of the same shape lie in the grid together.
pub proof fn lemma_same_shape_keeps_grid(before: Seq<WeekView>, after: Seq<WeekView>, w: int)
    requires
        same_shape(before, after),
        0 <= w < before.len(),
        in_grid(before[w].lessons),
    ensures
        in_grid(after[w].lessons),
{
    assert forall|l: int| 0 <= l < after[w].lessons.len() implies 0 <= (
    #[trigger] after[w].lessons[l]).day_index < 5 && 0 <= after[w].lessons[l].period_index
        < 6 by {
        assert(0 <= before[w].lessons[l].day_index < 5);
    }
}

/// Overrides change what lessons say, never where they are: the weeks keep
/// their number, their names and students, and every lesson keeps its day
/// and its period.
pub proof fn lemma_overrides_keep_shape(weeks: Seq<WeekView>, rules: Seq<Override>)
    ensures
        same_shape(weeks, weeks_after(weeks, rules)),
    decreases rules.len(),
{
    if rules.len() > 0 {
        lemma_overrides_keep_shape(weeks, rules.drop_last());
        let rule = rules.last();
        let before = weeks_after(weeks, rules.drop_last());
        let day = rule_day(rule);
        let period = rule_period(rule);
        let after = weeks_with(before, rule, day, period);
        if outcome_at(before, rule, day, period) == OverrideOutcome::Applied {
            let week = before[rule.week - 1];
            lemma_first_lesson_in_range(week.lessons, day->0, period->0);
        }
        assert(same_shape(weeks, after));
    }
}

/// The first lesson at a day and period, where there is one, is a lesson of
/// the list at that day and period.
proof fn lemma_first_lesson_in_range(lessons: Seq<LessonView>, day: int, period: int)
    ensures
        first_lesson_at(lessons, day, period) is Some ==> 0 <= first_lesson_at(
            lessons,
            day,
            period,
        )->0 < lessons.len() && lessons[first_lesson_at(lessons, day, period)->0].day_index == day
            && lessons[first_lesson_at(lessons, day, period)->0].period_index == period,
    decreases lessons.len(),
{
    if lessons.len() > 0 {
        lemma_first_lesson_in_range(lessons.drop_last(), day, period);
    }
}

/// Finds the first lesson at `day` and `period`.
pub fn find_lesson(lessons: &Vec<Lesson>, day: usize, period: usize) -> (r: Option<usize>)
    ensures
        opt_index_view(r) == first_lesson_at(
            crate::parser::lesson_views(lessons@),
            day as int,
            period as int,
        ),
        r is Some ==> r->0 < lessons.len(),
{
    let ghost views = crate::parser::lesson_views(lessons@);
    let mut i: usize = 0;
    while i < lessons.len()
        invariant
            i <= lessons.len(),
            views == crate::parser::lesson_views(lessons@),
            first_lesson_at(views.take(i as int), day as int, period as int) is None,
        decreases lessons.len() - i,
    {
        proof {
            assert(views.take(i + 1).drop_last() =~= views.take(i as int));
            assert(views.take(i + 1).last() == lessons@[i as int]@);
        }
        if lessons[i].day_index == day && lessons[i].period_index == period {
            proof {
                lemma_first_lesson_settled(views, day as int, period as int, i + 1);
            }
            return Some(i);
        }
        i += 1;
    }
    assert(views.take(i as int) =~= views);
    None
}

/// Once a lesson has been found, later lessons do not change the answer.
proof fn lemma_first_lesson_settled(lessons: Seq<LessonView>, day: int, period: int, i: int)
    requires
        0 <= i <= lessons.len(),
        first_lesson_at(lessons.take(i), day, period) is Some,
    ensures
        first_lesson_at(lessons, day, period) == first_lesson_at(lessons.take(i), day, period),
    decreases lessons.len() - i,
{
    if i < lessons.len() {
        assert(lessons.take(i + 1).drop_last() =~= lessons.take(i));
        lemma_first_lesson_settled(lessons, day, period, i + 1);
    } else {
        assert(lessons.take(i) =~= lessons);
    }
}

/// Sets every field of `lesson` that `rule` names.
pub fn override_lesson(lesson: &mut Lesson, rule: &Override)
    ensures
        final(lesson)@ == overridden(old(lesson)@, *rule),
{
    match &rule.subject {
        Some(subject) => {
            lesson.subject = subject.clone();
        },
        None => {},
    }
    match &rule.room {
        Some(room) => {
            lesson.room = room.clone();
        },
        None => {},
    }
    match &rule.teacher {
        Some(teacher) => {
            lesson.teacher = teacher.clone();
        },
        None => {},
    }
    match &rule.class_code {
        Some(class_code) => {
            lesson.class_code = class_code.clone();
        },
        None => {},
    }
}

/// Applies one override, the day and the period being what its names stand
/// for, and says what became of it.
pub fn apply_override(
    weeks: &mut Vec<Week>,
    rule: &Override,
    day: Option<usize>,
    period: Option<usize>,
) -> (outcome: OverrideOutcome)
    ensures
        outcome == outcome_at(
            week_views(old(weeks)@),
            *rule,
            opt_index_view(day),
            opt_index_view(period),
        ),
        week_views(final(weeks)@) == weeks_with(
            week_views(old(weeks)@),
            *rule,
            opt_index_view(day),
            opt_index_view(period),
        ),
{
    if rule.week == 0 || rule.week > weeks.len() {
        return OverrideOutcome::WeekOutOfRange;
    }
    let day_index = match day {
        Some(d) => d,
        None => {
            return OverrideOutcome::UnknownDay;
        },
    };
    let period_index = match period {
        Some(p) => p,
        None => {
            return OverrideOutcome::UnknownPeriod;
        },
    };
    let w = rule.week - 1;
    match find_lesson(&weeks[w].lessons, day_index, period_index) {
        Some(i) => {
            override_lesson(&mut weeks[w].lessons[i], rule);
            proof {
                let before = week_views(old(weeks)@);
                let week = before[w as int];
                let changed = WeekView {
                    lessons: week.lessons.update(
                        i as int,
                        overridden(week.lessons[i as int], *rule),
                    ),
                    ..week
                };
                assert(weeks@[w as int]@.lessons =~= changed.lessons);
                assert(week_views(weeks@) =~= before.update(w as int, changed));
            }
            OverrideOutcome::Applied
        },
        None => OverrideOutcome::NoLesson,
    }
}

impl Config {
    /// Finds the mapping that styles a room code: the one with the longest
    /// prefix that the code begins with, and the last of these where several
    /// are equally long. Prefixes are measured in characters; among prefixes
    /// of one room code that orders them as their length in bytes does.
    pub fn get_style_for_room(&self, room_code: &str) -> (r: Option<&Mapping>)
        ensures
            match best_mapping(self.mappings@, room_code@) {
                Some(i) => r == Some(&self.mappings@[i]),
                None => r is None,
            },
            is_longest_match(
                self.mappings@,
                room_code@,
                best_mapping(self.mappings@, room_code@),
            ),
    {
        proof {
            lemma_best_mapping_is_longest(self.mappings@, room_code@);
        }
        let room = to_chars(room_code);
        let mut best: Option<usize> = None;
        let mut best_len: usize = 0;
        let mut i: usize = 0;
        while i < self.mappings.len()
            invariant
                i <= self.mappings.len(),
                room@ == room_code@,
                opt_index_view(best) == best_mapping(self.mappings@.take(i as int), room_code@),
                best is Some ==> best->0 < i && best_len == self.mappings@[best->0 as int].prefix@.len(),
            decreases self.mappings.len() - i,
        {
            proof {
                assert(self.mappings@.take(i + 1).drop_last() =~= self.mappings@.take(i as int));
                assert(self.mappings@.take(i + 1).last() == self.mappings@[i as int]);
            }
            let prefix = to_chars(self.mappings[i].prefix.as_str());
            if starts_with(&room, &prefix) && (best.is_none() || best_len <= prefix.len()) {
                best = Some(i);
                best_len = prefix.len();
            }
            i += 1;
        }
        assert(self.mappings@.take(i as int) =~= self.mappings@);
        match best {
            Some(b) => Some(&self.mappings[b]),
            None => None,
        }
    }

    /// Applies the overrides to the weeks, one after the other, and says what
    /// became of each.
    pub fn apply_overrides(&self, weeks: &mut Vec<Week>) -> (outcomes: Vec<OverrideOutcome>)
        ensures
            week_views(final(weeks)@) == weeks_after(week_views(old(weeks)@), self.overrides@),
            outcomes@ == outcomes_of(week_views(old(weeks)@), self.overrides@),
            same_shape(week_views(old(weeks)@), week_views(final(weeks)@)),
    {
        proof {
            lemma_overrides_keep_shape(week_views(old(weeks)@), self.overrides@);
        }
        let mut outcomes: Vec<OverrideOutcome> = Vec::new();
        let mut i: usize = 0;
        while i < self.overrides.len()
            invariant
                i <= self.overrides.len(),
                week_views(weeks@) == weeks_after(
                    week_views(old(weeks)@),
                    self.overrides@.take(i as int),
                ),
                outcomes@ == outcomes_of(week_views(old(weeks)@), self.overrides@.take(i as int)),
            decreases self.overrides.len() - i,
        {
            proof {
                assert(self.overrides@.take(i + 1).drop_last() =~= self.overrides@.take(i as int));
                assert(self.overrides@.take(i + 1).last() == self.overrides@[i as int]);
            }
            let rule = &self.overrides[i];
            let day = parse_day(to_lowercase(rule.day.as_str()).as_str());
            let period = parse_period(to_uppercase(rule.period.as_str()).as_str());
            let outcome = apply_override(weeks, rule, day, period);
            outcomes.push(outcome);
            i += 1;
        }
        assert(self.overrides@.take(i as int) =~= self.overrides@);
        outcomes
    }
}

} // verus!
