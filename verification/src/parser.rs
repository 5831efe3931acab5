//! The timetable's data: positioned text as it comes off a page, and the
//! lessons and weeks reconstructed from it.

use vstd::prelude::*;

verus! {

/// Coordinates are whole numbers of this many units per page point.
pub const UNITS_PER_POINT: i64 = 1000;

/// A piece of text and the page position at which it was shown, in
/// thousandths of a point.
#[derive(Debug, Clone)]
pub struct TextItem {
    pub x: i64,
    pub y: i64,
    pub text: String,
}

/// What a `TextItem` holds.
pub struct TextItemView {
    pub x: int,
    pub y: int,
    pub text: Seq<char>,
}

impl View for TextItem {
    type V = TextItemView;

    open spec fn view(&self) -> TextItemView {
        TextItemView { x: self.x as int, y: self.y as int, text: self.text@ }
    }
}

/// The views of a list of borrowed items.
pub open spec fn item_views(items: Seq<&TextItem>) -> Seq<TextItemView> {
    items.map_values(|item: &TextItem| item@)
}

/// The views of a list of items.
pub open spec fn owned_item_views(items: Seq<TextItem>) -> Seq<TextItemView> {
    items.map_values(|item: TextItem| item@)
}

/// A single lesson entry in the timetable.
#[derive(Debug, Clone)]
pub struct Lesson {
    /// Subject name, or "Unknown".
    pub subject: String,
    /// Room code, or "Unknown".
    pub room: String,
    /// Teacher name, or "Unknown".
    pub teacher: String,
    /// Class code; empty when none was found.
    pub class_code: String,
    /// Day of week (0 = Monday, 4 = Friday).
    pub day_index: usize,
    /// Period (0 = PD, 1 = L1, up to 5 = L5).
    pub period_index: usize,
}

/// What a `Lesson` holds.
pub struct LessonView {
    pub subject: Seq<char>,
    pub room: Seq<char>,
    pub teacher: Seq<char>,
    pub class_code: Seq<char>,
    pub day_index: int,
    pub period_index: int,
}

impl View for Lesson {
    type V = LessonView;

    open spec fn view(&self) -> LessonView {
        LessonView {
            subject: self.subject@,
            room: self.room@,
            teacher: self.teacher@,
            class_code: self.class_code@,
            day_index: self.day_index as int,
            period_index: self.period_index as int,
        }
    }
}

/// The views of a list of lessons.
pub open spec fn lesson_views(lessons: Seq<Lesson>) -> Seq<LessonView> {
    lessons.map_values(|l: Lesson| l@)
}

/// Whether every lesson lies in the grid: its day is one of the five
/// weekdays and its period one of the six.
pub open spec fn in_grid(lessons: Seq<LessonView>) -> bool {
    forall|i: int|
        0 <= i < lessons.len() ==> 0 <= (#[trigger] lessons[i]).day_index < 5 && 0
            <= lessons[i].period_index < 6
}

/// A week of timetable data.
#[derive(Debug, Clone)]
pub struct Week {
    /// The week's lessons, column by column.
    pub lessons: Vec<Lesson>,
    /// The header text that introduced the week, such as "Week 1".
    pub week_name: String,
    /// Student name, when one was found.
    pub student_name: Option<String>,
    /// Form code, when one was found.
    pub form: Option<String>,
}

/// What a `Week` holds.
pub struct WeekView {
    pub lessons: Seq<LessonView>,
    pub week_name: Seq<char>,
    pub student_name: Option<Seq<char>>,
    pub form: Option<Seq<char>>,
}

/// What an optional string holds.
pub open spec fn opt_view(s: Option<String>) -> Option<Seq<char>> {
    match s {
        Some(t) => Some(t@),
        None => None,
    }
}

impl View for Week {
    type V = WeekView;

    open spec fn view(&self) -> WeekView {
        WeekView {
            lessons: lesson_views(self.lessons@),
            week_name: self.week_name@,
            student_name: opt_view(self.student_name),
            form: opt_view(self.form),
        }
    }
}

/// The views of a list of weeks.
pub open spec fn week_views(weeks: Seq<Week>) -> Seq<WeekView> {
    weeks.map_values(|w: Week| w@)
}

impl Week {
    /// Whether every lesson of the week lies in the grid.
    pub fn lessons_in_grid(&self) -> (r: bool)
        ensures
            r == in_grid(self@.lessons),
    {
        let mut i: usize = 0;
        while i < self.lessons.len()
            invariant
                i <= self.lessons.len(),
                forall|j: int|
                    0 <= j < i ==> (#[trigger] self.lessons@[j]).day_index < 5
                        && self.lessons@[j].period_index < 6,
            decreases self.lessons.len() - i,
        {
            if self.lessons[i].day_index >= 5 || self.lessons[i].period_index >= 6 {
                assert(lesson_views(self.lessons@)[i as int] == self.lessons@[i as int]@);
                return false;
            }
            i += 1;
        }
        assert forall|j: int| 0 <= j < self@.lessons.len() implies 0 <= (
        #[trigger] self@.lessons[j]).day_index < 5 && 0 <= self@.lessons[j].period_index < 6 by {
            assert(self@.lessons[j] == self.lessons@[j]@);
        }
        true
    }
}

} // verus!
