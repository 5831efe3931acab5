use timetable_core::config::{Config, Mapping, Override, OverrideOutcome};
use timetable_core::extract::{Operand, Operation};
use timetable_core::processor::highlights_for;
use timetable_core::renderer::{draw_timetable_grid, ShapeKind};
use timetable_core::segment::parse_pages;

fn show(ops: &mut Vec<Operation>, x: i64, y: i64, text: &str) {
    let number = |v: i64| Operand::Number(v);
    ops.push(Operation { operator: "BT".into(), operands: vec![] });
    ops.push(Operation {
        operator: "Tm".into(),
        operands: vec![
            number(1000),
            number(0),
            number(0),
            number(1000),
            number(x * 1000),
            number(y * 1000),
        ],
    });
    let hidden: Vec<u8> = text.bytes().map(|b| b.wrapping_sub(29)).collect();
    ops.push(Operation { operator: "Tj".into(), operands: vec![Operand::Text(hidden)] });
    ops.push(Operation { operator: "ET".into(), operands: vec![] });
}

const DAYS: [&str; 5] = ["Monday", "Tuesday", "Wednesday", "Thursday", "Friday"];
const PERIODS: [&str; 6] = ["PD", "L1", "L2", "L3", "L4", "L5"];

fn week_page(number: u32, top: i64, skip: Option<(usize, usize)>) -> Vec<Operation> {
    let mut ops = Vec::new();
    show(&mut ops, 300, top, &format!("Timetable for Week {}", number));
    show(&mut ops, 20, top + 5, "Alex Testington");
    show(&mut ops, 140, top + 6, "11XX");
    for (d, day) in DAYS.iter().enumerate() {
        show(&mut ops, 100 + 100 * d as i64, top + 30, day);
    }
    for (p, period) in PERIODS.iter().enumerate() {
        let y = top + 80 + 60 * p as i64;
        show(&mut ops, 20, y, period);
        for d in 0..5 {
            if skip == Some((d, p)) {
                continue;
            }
            let x = 100 + 100 * d as i64;
            show(&mut ops, x, y + 28, &format!("Mr Teacher {}{}", d, p));
            show(&mut ops, x + 10, y + 8, &format!("MA{}{}", d, p));
            show(&mut ops, x, y - 6, "Applied");
            show(&mut ops, x + 40, y - 6, "Maths");
            show(&mut ops, x, y + 8, &format!("9X{}", p));
        }
    }
    ops
}

#[test]
fn whole_document_is_read_week_by_week() {
    let mut first_page = week_page(2, 1000, None);
    first_page.extend(week_page(1, 0, Some((2, 3))));
    let pages = vec![(1, first_page), (2, Vec::new()), (3, week_page(3, 40, None))];
    let weeks = parse_pages(&pages);
    let names: Vec<&str> = weeks.iter().map(|w| w.week_name.as_str()).collect();
    assert_eq!(names, vec!["Week 1", "Week 2", "Week 3"]);
    assert_eq!(weeks[0].lessons.len(), 29);
    assert_eq!(weeks[1].lessons.len(), 30);
    assert_eq!(weeks[2].lessons.len(), 30);
    for week in &weeks {
        assert!(week.lessons_in_grid());
        assert_eq!(week.student_name.as_deref(), Some("Alex Testington"));
        assert_eq!(week.form.as_deref(), Some("11XX"));
    }
    assert!(!weeks[0].lessons.iter().any(|l| l.day_index == 2 && l.period_index == 3));
    let lesson = &weeks[1].lessons[6 * 4 + 5];
    assert_eq!((lesson.day_index, lesson.period_index), (4, 5));
    assert_eq!(lesson.subject, "Applied Maths");
    assert_eq!(lesson.room, "MA45");
    assert_eq!(lesson.class_code, "9X5");
    assert_eq!(lesson.teacher, "Mr Teacher 45");
}

#[test]
fn read_weeks_can_be_corrected_and_laid_out() {
    let pages = vec![(1, week_page(1, 0, None))];
    let mut weeks = parse_pages(&pages);
    let config = Config {
        mappings: vec![Mapping {
            prefix: "MA".into(),
            bg_color: "#fcdcd8".into(),
            fg_color: "#e8a490".into(),
            map_id: "Maths_Rooms".into(),
            label: None,
        }],
        overrides: vec![Override {
            week: 1,
            day: "Fri".into(),
            period: "pd".into(),
            subject: Some("Assembly".into()),
            room: Some("Unknown".into()),
            teacher: None,
            class_code: Some(String::new()),
        }],
    };
    assert_eq!(config.apply_overrides(&mut weeks), vec![OverrideOutcome::Applied]);
    assert_eq!(weeks[0].lessons[24].subject, "Assembly");
    assert_eq!(weeks[0].lessons[24].teacher, "Mr Teacher 40");

    let highlights = highlights_for(&weeks[0], &config);
    assert_eq!(highlights.len(), 1);
    assert_eq!(highlights[0].id, "Maths_Rooms");

    let shapes = draw_timetable_grid(&weeks[0], &config, 794, 650, "today");
    let boxes = shapes.iter().filter(|s| s.kind == ShapeKind::CellBox).count();
    assert_eq!(boxes, 30);
    let grey = shapes
        .iter()
        .filter(|s| s.kind == ShapeKind::LabelBox && s.color == "#e0e0e0")
        .count();
    assert_eq!(grey, 1);
    let rooms = shapes.iter().filter(|s| s.kind == ShapeKind::Room).count();
    assert_eq!(rooms, 29);
    let label = shapes
        .iter()
        .find(|s| s.kind == ShapeKind::ClassLabel && s.text == "Assembly")
        .unwrap();
    assert_eq!((label.x, label.y, label.color.as_str()), (740, 120, "#4a4a4a"));
}
