use timetable_core::arith::{add_clamped, clamp, divide, within};
use timetable_core::config::{find_lesson, override_lesson, Override};
use timetable_core::grid::{belongs_to_cell, cell_members, has_row, heads_day, marker_row};
use timetable_core::lesson::{borrow_all, lesson_from_tokens, reading_order};
use timetable_core::order::sort_positions;
use timetable_core::parser::{Lesson, TextItem, Week};
use timetable_core::pattern::found;
use timetable_core::segment::{belongs_to_week, find_week_headers, weeks_from_tokens};
use timetable_core::student::{can_be_form, can_be_name, student_from_tokens};
use timetable_core::text::{byte_length, ends_with, find, matches_at, same_text, split_words, to_chars};
use timetable_core::token::{
    annotate, annotate_all, name_and_form_from_groups, week_header_from_groups, Token,
};
use timetable_core::words::{
    begins_with_title, holds_reserved_word, is_row_marker, marker_chars, marker_period_index,
    names_a_day, names_a_location, names_a_marker,
};

fn item(x: i64, y: i64, text: &str) -> TextItem {
    TextItem { x: x * 1000, y: y * 1000, text: text.to_string() }
}

fn token(x: i64, y: i64, text: &str) -> Token {
    annotate(&item(x, y, text))
}

fn chars(s: &str) -> Vec<char> {
    s.chars().collect()
}

fn groups(parts: &[Option<&str>]) -> Option<Vec<Option<String>>> {
    Some(parts.iter().map(|p| p.map(|s| s.to_string())).collect())
}

fn lesson(day_index: usize, period_index: usize, subject: &str) -> Lesson {
    Lesson {
        subject: subject.into(),
        room: "R1".into(),
        teacher: "T".into(),
        class_code: "C".into(),
        day_index,
        period_index,
    }
}

#[test]
fn positions_sort_by_key_and_keep_ties_in_order() {
    let keys = vec![(5, 0), (1, 9), (5, -1), (1, 9), (0, 0), (1, 8)];
    assert_eq!(sort_positions(&keys), vec![4, 5, 1, 3, 2, 0]);
    assert_eq!(sort_positions(&Vec::new()), Vec::<usize>::new());
    assert_eq!(sort_positions(&vec![(i128::MAX, i128::MIN), (i128::MIN, i128::MAX)]), vec![1, 0]);
}

#[test]
fn reading_order_goes_down_then_across() {
    let tokens = vec![token(9, 2, "c"), token(5, 1, "b"), token(9, 2, "d"), token(1, 1, "a")];
    let sorted = reading_order(&borrow_all(&tokens));
    let texts: Vec<String> = sorted.iter().map(|t| t.text.iter().collect()).collect();
    assert_eq!(texts, vec!["a", "b", "c", "d"]);
}

#[test]
fn lesson_is_built_from_tokens_whatever_their_flags_say() {
    let mut odd = token(0, 0, "Monday");
    odd.is_room = true;
    let mut both = token(0, 1, "Both");
    both.is_room = true;
    both.is_teacher = true;
    let mut again = token(0, 2, "Again");
    again.is_room = true;
    again.is_teacher = true;
    let tokens = vec![again, both, odd];
    let lesson = lesson_from_tokens(&borrow_all(&tokens), 2, 3);
    assert_eq!(lesson.room, "Both");
    assert_eq!(lesson.teacher, "Again");
    assert_eq!(lesson.subject, "Unknown");
    assert_eq!((lesson.day_index, lesson.period_index), (2, 3));
}

#[test]
fn week_header_is_read_from_the_groups() {
    assert!(week_header_from_groups(&None).is_none());
    let header = week_header_from_groups(&groups(&[Some("Week 7"), Some("7")])).unwrap();
    assert_eq!((header.name, header.number), (chars("Week 7"), 7));
    let header = week_header_from_groups(&groups(&[None, Some("x")])).unwrap();
    assert_eq!((header.name, header.number), (chars("Unknown Week"), 0));
    let header = week_header_from_groups(&groups(&[Some("Week")])).unwrap();
    assert_eq!((header.name, header.number), (chars("Week"), 0));
    let header = week_header_from_groups(&groups(&[])).unwrap();
    assert_eq!((header.name, header.number), (chars("Unknown Week"), 0));
}

#[test]
fn name_and_form_need_both_groups() {
    assert!(name_and_form_from_groups(&None).is_none());
    assert!(name_and_form_from_groups(&groups(&[Some("a (1)"), Some("a")])).is_none());
    assert!(name_and_form_from_groups(&groups(&[Some("a"), None, Some("11")])).is_none());
    assert!(name_and_form_from_groups(&groups(&[Some("a"), Some("a"), None])).is_none());
    let found = name_and_form_from_groups(&groups(&[None, Some(" Al \t"), Some("11X")])).unwrap();
    assert_eq!((found.name, found.form), (chars("Al"), chars("11X")));
}

#[test]
fn patterns_match_as_the_engine_says() {
    assert!(found(r"^\d+$", "123"));
    assert!(!found(r"^\d+$", "12a"));
    assert!(!found(r"(", "("));
    assert!(found(r"\s", "a\u{a0}b"));
}

#[test]
fn words_of_the_vocabulary() {
    assert!(names_a_day(&chars("WEDNESDAY")));
    assert!(!names_a_day(&chars("Wed")));
    assert!(!names_a_day(&chars("Sunday")));
    assert!(names_a_marker(&chars("Reg")));
    assert!(names_a_marker(&chars("L4/")));
    assert!(names_a_marker(&chars("reg")));
    assert!(names_a_marker(&chars("pd")));
    assert!(names_a_marker(&chars("l4/")));
    assert!(!names_a_marker(&chars("L4/5")));
    assert!(!names_a_marker(&chars("L6")));
    assert!(!names_a_marker(&chars("")));
    assert!(names_a_location(&chars("DS")));
    assert!(!names_a_location(&chars("ds")));
    assert!(holds_reserved_word(&chars("Page 1 of 3")));
    assert!(holds_reserved_word(&chars("Professor")));
    assert!(!holds_reserved_word(&chars("week")));
    assert!(begins_with_title(&chars("Mrs Example")));
    assert!(begins_with_title(&chars("Missing")));
    assert!(!begins_with_title(&chars("mr example")));
    let table: Vec<(String, usize)> = (0..13)
        .map(|m| (marker_chars(m).iter().collect(), marker_period_index(m)))
        .collect();
    let expected = [
        ("PD", 0),
        ("Reg", 0),
        ("L1", 1),
        ("1", 1),
        ("L2", 2),
        ("2", 2),
        ("L3", 3),
        ("3", 3),
        ("L4", 4),
        ("4", 4),
        ("L4/", 4),
        ("L5", 5),
        ("5", 5),
    ];
    assert_eq!(table.len(), expected.len());
    for (got, want) in table.iter().zip(expected.iter()) {
        assert_eq!((got.0.as_str(), got.1), *want);
    }
}

#[test]
fn two_letter_markers_match_what_begins_with_them() {
    assert!(is_row_marker(&chars("PD"), 0));
    assert!(is_row_marker(&chars("PD/Reg"), 0));
    assert!(!is_row_marker(&chars("Reg 1"), 1));
    assert!(is_row_marker(&chars("Reg"), 1));
    assert!(!is_row_marker(&chars("12"), 3));
    assert!(is_row_marker(&chars("L4/"), 8));
    assert!(is_row_marker(&chars("L4/"), 10));
    assert!(!is_row_marker(&chars("L4/5"), 10));
}

#[test]
fn marker_row_is_none_without_markers() {
    let tokens = vec![token(0, 10, "L1"), token(0, 21, "L1 "), token(0, 5, "1")];
    let refs = borrow_all(&tokens);
    assert_eq!(marker_row(&refs, 2), Some(15_500));
    assert_eq!(marker_row(&refs, 3), Some(5_000));
    assert_eq!(marker_row(&refs, 0), None);
    assert!(has_row(&vec![(1, 15_500)], 1));
    assert!(!has_row(&vec![(1, 15_500)], 2));
    assert!(!has_row(&Vec::new(), 0));
}

#[test]
fn day_header_is_the_name_or_text_that_holds_it() {
    assert!(heads_day(&token(0, 0, " tuesday "), 1));
    assert!(heads_day(&token(0, 0, "Every TUESDAY morning"), 1));
    assert!(!heads_day(&token(0, 0, "Tues"), 1));
    assert!(!heads_day(&token(0, 0, "Tuesday"), 2));
}

#[test]
fn cell_takes_both_windows() {
    let tokens = vec![
        token(100, 100, "Inside"),
        token(100, 130, "Mr Below"),
        token(100, 130, "Too low"),
        token(100, 100, "L1"),
        token(100, 100, "Friday"),
        token(100, 99, "Mr Inside"),
        token(100, 100, "Mr Level"),
        token(146, 110, "Mr Aside"),
    ];
    let refs = borrow_all(&tokens);
    let members = cell_members(&refs, 100_000, 100_000);
    let texts: Vec<String> = members.iter().map(|t| t.text.iter().collect()).collect();
    assert_eq!(texts, vec!["Inside", "Mr Below", "Mr Inside", "Mr Level"]);
    assert!(belongs_to_cell(&tokens[1], 100_000, 100_000));
    assert!(!belongs_to_cell(&tokens[1], 100_000, 95_000));
    assert!(belongs_to_cell(&token(0, 0, "far"), i64::MIN + 1, 24_999) == false);
    assert!(!belongs_to_cell(&token(0, 0, "far"), i64::MAX, i64::MIN));
}

#[test]
fn week_bands_are_half_open() {
    assert!(belongs_to_week(100, 100, Some(200), true));
    assert!(belongs_to_week(199, 100, Some(200), true));
    assert!(!belongs_to_week(200, 100, Some(200), true));
    assert!(!belongs_to_week(99, 100, Some(200), true));
    assert!(belongs_to_week(i64::MAX, 100, None, true));
    assert!(belongs_to_week(200, 200, Some(100), false));
    assert!(belongs_to_week(101, 200, Some(100), false));
    assert!(!belongs_to_week(100, 200, Some(100), false));
    assert!(!belongs_to_week(201, 200, Some(100), false));
    assert!(belongs_to_week(i64::MIN, 200, None, false));
}

#[test]
fn week_headers_are_sorted_by_number() {
    let src = vec![
        item(0, 0, "Week 3"),
        item(0, 1, "no header"),
        item(0, 2, "Week 1"),
        item(0, 3, "Week 3 again"),
        item(0, 4, "Week 2"),
    ];
    let items: Vec<&TextItem> = src.iter().collect();
    let tokens = annotate_all(&items);
    let refs = borrow_all(&tokens);
    assert_eq!(find_week_headers(&refs), vec![2, 4, 0, 3]);
    assert!(weeks_from_tokens(&refs).is_empty());
}

#[test]
fn student_candidates() {
    assert!(can_be_form(&token(0, 0, "11XX")));
    assert!(!can_be_form(&token(0, 0, "")));
    assert!(!can_be_form(&token(0, 0, "Alex")));
    let mut reserved = token(0, 0, "Term");
    reserved.is_form_code = true;
    assert!(!can_be_form(&reserved));
    assert!(can_be_name(&token(0, 10, "Ann Example"), 14_999));
    assert!(!can_be_name(&token(0, 10, "Ann Example"), 15_000));
    assert!(can_be_name(&token(0, 10, "Ann Example"), 5_001));
    assert!(!can_be_name(&token(0, 10, "Ann Example"), 5_000));
    assert!(!can_be_name(&token(0, 10, "A B"), 10_000));
    assert!(can_be_name(&token(0, 10, "A \u{e9}"), 10_000));
    assert!(!can_be_name(&token(0, 10, "AnnExample"), 10_000));
    assert!(!can_be_name(&token(0, 10, "Ms Example"), 10_000));
    assert!(!can_be_name(&token(0, 10, "Ann of Example"), 10_000));
}

#[test]
fn student_pattern_goes_before_separate_fragments() {
    let tokens = vec![token(0, 0, "Ann Example"), token(50, 0, "10A"), token(0, 9, "Bob Sample (11B)")];
    let info = student_from_tokens(&borrow_all(&tokens));
    assert_eq!(info, (Some("Bob Sample".to_string()), Some("11B".to_string())));
}

#[test]
fn text_positions_and_lengths() {
    let text = chars("a\u{e9}\u{20ac}z");
    assert_eq!(byte_length(&text), 7);
    assert_eq!(byte_length(&Vec::new()), 0);
    assert!(matches_at(&text, &chars("\u{20ac}z"), 2));
    assert!(!matches_at(&text, &chars("\u{20ac}z"), 3));
    assert!(!matches_at(&text, &chars("z"), usize::MAX));
    assert!(matches_at(&text, &chars(""), 4));
    assert!(!matches_at(&text, &chars(""), 5));
    assert!(same_text(&text, &to_chars("a\u{e9}\u{20ac}z")));
    assert!(!same_text(&text, &chars("a")));
    assert_eq!(find(&chars("abcabc"), &chars("bc")), Some(1));
    assert_eq!(find(&chars("abcabc"), &chars("")), Some(0));
    assert_eq!(find(&chars("abcabc"), &chars("cb")), None);
    assert_eq!(find(&chars("ab"), &chars("abc")), None);
    assert!(ends_with(&chars("drawing</svg>"), &chars("</svg>")));
    assert!(!ends_with(&chars("</svg> "), &chars("</svg>")));
    assert!(!ends_with(&chars("g>"), &chars("</svg>")));
    let words: Vec<String> =
        split_words(&chars("  two\u{2003}words \n")).iter().map(|w| w.iter().collect()).collect();
    assert_eq!(words, vec!["two", "words"]);
    assert!(split_words(&chars(" \t ")).is_empty());
}

#[test]
fn lessons_are_found_and_overridden_by_place() {
    let mut lessons = vec![lesson(0, 0, "a"), lesson(3, 1, "b"), lesson(3, 1, "c")];
    assert_eq!(find_lesson(&lessons, 3, 1), Some(1));
    assert_eq!(find_lesson(&lessons, 1, 3), None);
    assert_eq!(find_lesson(&Vec::new(), 0, 0), None);
    let rule = Override {
        week: 9,
        day: "any".into(),
        period: "any".into(),
        subject: Some("new".into()),
        room: None,
        teacher: Some(String::new()),
        class_code: None,
    };
    override_lesson(&mut lessons[2], &rule);
    assert_eq!(lessons[2].subject, "new");
    assert_eq!(lessons[2].room, "R1");
    assert_eq!(lessons[2].teacher, "");
    assert_eq!(lessons[2].class_code, "C");
    assert_eq!((lessons[2].day_index, lessons[2].period_index), (3, 1));
}

#[test]
fn week_knows_whether_its_lessons_lie_in_the_grid() {
    let mut week = Week {
        lessons: vec![lesson(4, 5, "a"), lesson(0, 0, "b")],
        week_name: "Week 1".into(),
        student_name: None,
        form: None,
    };
    assert!(week.lessons_in_grid());
    week.lessons.push(lesson(5, 0, "c"));
    assert!(!week.lessons_in_grid());
    week.lessons[2] = lesson(0, 6, "c");
    assert!(!week.lessons_in_grid());
    week.lessons.clear();
    assert!(week.lessons_in_grid());
}

#[test]
fn whole_number_arithmetic() {
    assert!(within(10, 14, 5));
    assert!(within(14, 10, 5));
    assert!(!within(10, 15, 5));
    assert!(!within(i64::MIN, i64::MAX, i64::MAX));
    assert!(!within(3, 3, 0));
    assert_eq!(clamp(i128::MAX), i64::MAX);
    assert_eq!(clamp(i64::MIN as i128 - 1), i64::MIN);
    assert_eq!(clamp(-7), -7);
    assert_eq!(add_clamped(i64::MAX, 1), i64::MAX);
    assert_eq!(add_clamped(i64::MIN, -1), i64::MIN);
    assert_eq!(add_clamped(2, -5), -3);
    assert_eq!(divide(7, 2), 3);
    assert_eq!(divide(-7, 2), -3);
    assert_eq!(divide(-1, 5), 0);
    assert_eq!(divide(0, 9), 0);
    assert_eq!(divide(i128::MAX, 1), i128::MAX);
}
