use timetable_core::config::{
    apply_override, default_fg_color, parse_day, parse_period, Config, Mapping, Override,
    OverrideOutcome,
};
use timetable_core::parser::{Lesson, Week};

fn mapping(prefix: &str, bg_color: &str, fg_color: &str, map_id: &str) -> Mapping {
    Mapping {
        prefix: prefix.to_string(),
        bg_color: bg_color.to_string(),
        fg_color: fg_color.to_string(),
        map_id: map_id.to_string(),
        label: None,
    }
}

fn rule(week: usize, day: &str, period: &str) -> Override {
    Override {
        week,
        day: day.to_string(),
        period: period.to_string(),
        subject: None,
        room: None,
        teacher: None,
        class_code: None,
    }
}

fn one_week() -> Vec<Week> {
    let lessons = vec![Lesson {
        subject: "Maths".into(),
        room: "MA3".into(),
        teacher: "Mr A".into(),
        class_code: "MA3".into(),
        day_index: 3,
        period_index: 1,
    }];
    vec![Week { lessons, week_name: "Week 1".into(), student_name: None, form: None }]
}

#[test]
fn test_get_style_for_room_longest_prefix() {
    let cfg = Config {
        mappings: vec![
            mapping("M", "#fff", "#000", "M_rooms"),
            mapping("MA", "#abc", "#111", "MA_rooms"),
        ],
        overrides: vec![],
    };
    let m = cfg.get_style_for_room("MA12").unwrap();
    assert_eq!(m.prefix, "MA");
    assert_eq!(m.bg_color, "#abc");
}

#[test]
fn test_default_fg_color() {
    let cfg = Config {
        mappings: vec![mapping("EN", "#ddeeff", &default_fg_color(), "EN_rooms")],
        overrides: vec![],
    };
    let m = cfg.get_style_for_room("EN4").unwrap();
    assert_eq!(m.fg_color, "#231f20");
}

#[test]
fn test_apply_overrides_updates_lesson() {
    let mut weeks = one_week();
    let mut r = rule(1, "Thursday", "L1");
    r.room = Some("SC6".into());
    r.teacher = Some("Mr Test B".into());
    let cfg = Config { mappings: vec![], overrides: vec![r] };
    cfg.apply_overrides(&mut weeks);

    let lesson = &weeks[0].lessons[0];
    assert_eq!(lesson.room, "SC6");
    assert_eq!(lesson.teacher, "Mr Test B");
}

#[test]
fn style_lookup_does_not_depend_on_the_order_of_the_mappings() {
    let cfg = Config {
        mappings: vec![
            mapping("MA1", "#1", "#0", "a"),
            mapping("M", "#2", "#0", "b"),
            mapping("MA", "#3", "#0", "c"),
            mapping("SC", "#4", "#0", "d"),
        ],
        overrides: vec![],
    };
    assert_eq!(cfg.get_style_for_room("MA12").unwrap().bg_color, "#1");
    assert_eq!(cfg.get_style_for_room("MA2").unwrap().bg_color, "#3");
    assert_eq!(cfg.get_style_for_room("MU1").unwrap().bg_color, "#2");
    assert!(cfg.get_style_for_room("EN1").is_none());
}

#[test]
fn style_lookup_takes_the_last_of_equal_prefixes() {
    let cfg = Config {
        mappings: vec![
            mapping("MA", "#first", "#0", "a"),
            mapping("MA", "#second", "#0", "b"),
            mapping("", "#empty", "#0", "c"),
        ],
        overrides: vec![],
    };
    assert_eq!(cfg.get_style_for_room("MA1").unwrap().bg_color, "#second");
    assert_eq!(cfg.get_style_for_room("ZZ").unwrap().bg_color, "#empty");
}

#[test]
fn overrides_report_what_became_of_them() {
    let mut weeks = one_week();
    let mut applied = rule(1, "THU", "l1");
    applied.subject = Some("Physics".into());
    applied.class_code = Some("9P".into());
    let cfg = Config {
        mappings: vec![],
        overrides: vec![
            rule(0, "Thursday", "L1"),
            rule(2, "Thursday", "L1"),
            rule(1, "Thurs", "L1"),
            rule(1, "Thursday", "L6"),
            rule(1, "Friday", "L1"),
            applied,
        ],
    };
    let outcomes = cfg.apply_overrides(&mut weeks);
    assert_eq!(
        outcomes,
        vec![
            OverrideOutcome::WeekOutOfRange,
            OverrideOutcome::WeekOutOfRange,
            OverrideOutcome::UnknownDay,
            OverrideOutcome::UnknownPeriod,
            OverrideOutcome::NoLesson,
            OverrideOutcome::Applied,
        ]
    );
    let lesson = &weeks[0].lessons[0];
    assert_eq!(lesson.subject, "Physics");
    assert_eq!(lesson.room, "MA3");
    assert_eq!(lesson.teacher, "Mr A");
    assert_eq!(lesson.class_code, "9P");
}

#[test]
fn override_changes_the_first_matching_lesson_only() {
    let mut weeks = one_week();
    weeks[0].lessons.push(Lesson {
        subject: "Art".into(),
        room: "AR1".into(),
        teacher: "Ms B".into(),
        class_code: String::new(),
        day_index: 3,
        period_index: 1,
    });
    let mut r = rule(1, "thu", "L1");
    r.room = Some("SC6".into());
    let outcome = apply_override(&mut weeks, &r, Some(3), Some(1));
    assert_eq!(outcome, OverrideOutcome::Applied);
    assert_eq!(weeks[0].lessons[0].room, "SC6");
    assert_eq!(weeks[0].lessons[1].room, "AR1");
    assert_eq!(apply_override(&mut weeks, &r, None, Some(1)), OverrideOutcome::UnknownDay);
    assert_eq!(apply_override(&mut weeks, &r, Some(3), None), OverrideOutcome::UnknownPeriod);
}

#[test]
fn day_and_period_names_are_read_exactly() {
    assert_eq!(parse_day("monday"), Some(0));
    assert_eq!(parse_day("tue"), Some(1));
    assert_eq!(parse_day("wednesday"), Some(2));
    assert_eq!(parse_day("thu"), Some(3));
    assert_eq!(parse_day("fri"), Some(4));
    assert_eq!(parse_day("Monday"), None);
    assert_eq!(parse_day("saturday"), None);
    assert_eq!(parse_period("PD"), Some(0));
    assert_eq!(parse_period("L1"), Some(1));
    assert_eq!(parse_period("L5"), Some(5));
    assert_eq!(parse_period("l5"), None);
    assert_eq!(parse_period("L6"), None);
}
