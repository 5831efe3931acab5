use timetable_core::config::{Config, Mapping};
use timetable_core::parser::{Lesson, Week};
use timetable_core::renderer::{
    column_left_of, column_width_of, draw_lesson, draw_timetable_grid, embed_map,
    heading_of, row_height_of, row_top_of, wrap_words, Shape, ShapeKind,
};
use timetable_core::text::{split_words, to_chars};

fn sample_config() -> Config {
    Config {
        mappings: vec![
            Mapping {
                prefix: "MA".into(),
                bg_color: "#fcdcd8".into(),
                fg_color: "#e8a490".into(),
                map_id: "Maths_Rooms".into(),
                label: Some("Maths".into()),
            },
            Mapping {
                prefix: "SC".into(),
                bg_color: "#fad7e6".into(),
                fg_color: "#e68cb8".into(),
                map_id: "Science_Rooms".into(),
                label: Some("Science".into()),
            },
        ],
        overrides: vec![],
    }
}

fn sample_week() -> Week {
    let lessons = vec![
        Lesson {
            subject: "Maths".into(),
            room: "MA3".into(),
            teacher: "Ms Test A".into(),
            class_code: "MA3".into(),
            day_index: 0,
            period_index: 1,
        },
        Lesson {
            subject: "Science".into(),
            room: "SC8".into(),
            teacher: "Mr Test B".into(),
            class_code: "SC8".into(),
            day_index: 1,
            period_index: 2,
        },
    ];

    Week {
        lessons,
        week_name: "Week Test".into(),
        student_name: Some("Test Student".into()),
        form: Some("9X1".into()),
    }
}

fn lesson_on(subject: &str) -> Lesson {
    Lesson {
        subject: subject.into(),
        room: "Unknown".into(),
        teacher: "Unknown".into(),
        class_code: "9Z".into(),
        day_index: 0,
        period_index: 0,
    }
}

fn plain(shape: &Shape) -> (ShapeKind, i64, i64, i64, i64, &str, &str) {
    (shape.kind, shape.x, shape.y, shape.width, shape.height, shape.text.as_str(), shape.color.as_str())
}

fn lines(words: &str) -> Vec<String> {
    wrap_words(&split_words(&to_chars(words))).iter().map(|l| l.iter().collect()).collect()
}

#[test]
fn timetable_shows_student_subject_and_room() {
    let week = sample_week();
    let shapes = draw_timetable_grid(&week, &sample_config(), 794, 650, "01 January 2026");
    let texts: Vec<&str> = shapes.iter().map(|s| s.text.as_str()).collect();
    assert!(texts.contains(&"Test Student (9X1)"));
    assert!(texts.contains(&"Maths"));
    assert!(texts.contains(&"MA3"));
    assert_eq!(shapes.len(), 2 + 5 + 6 + 4 + 2 * 6 + 1);
    assert_eq!(plain(&shapes[0]), (ShapeKind::StudentHeader, 60, 30, 0, 0, "Test Student (9X1)", ""));
    assert_eq!(plain(&shapes[1]), (ShapeKind::WeekLabel, 397, 30, 0, 0, "Week Test", ""));
    assert_eq!(
        plain(shapes.last().unwrap()),
        (ShapeKind::Footer, 764, 640, 0, 0, "Updated: 01 January 2026", "")
    );
}

#[test]
fn day_headers_stand_above_the_middle_of_their_columns() {
    let shapes = draw_timetable_grid(&sample_week(), &sample_config(), 794, 650, "");
    let headers: Vec<(i64, i64, &str)> = shapes
        .iter()
        .filter(|s| s.kind == ShapeKind::DayHeader)
        .map(|s| (s.x, s.y, s.text.as_str()))
        .collect();
    assert_eq!(
        headers,
        vec![
            (130, 65, "Monday"),
            (270, 65, "Tuesday"),
            (410, 65, "Wednesday"),
            (550, 65, "Thursday"),
            (690, 65, "Friday"),
        ]
    );
}

#[test]
fn periods_leave_room_for_break_and_lunch() {
    let shapes = draw_timetable_grid(&sample_week(), &sample_config(), 794, 650, "");
    let rows: Vec<_> = shapes[7..17].iter().map(plain).collect();
    assert_eq!(
        rows,
        vec![
            (ShapeKind::PeriodLabel, 30, 120, 0, 0, "PD", ""),
            (ShapeKind::PeriodLabel, 30, 200, 0, 0, "L1", ""),
            (ShapeKind::PeriodLabel, 30, 280, 0, 0, "L2", ""),
            (ShapeKind::GapBox, 63, 323, 694, 18, "", "#eeeeee"),
            (ShapeKind::GapLabel, 410, 333, 0, 0, "Break (11:00 - 11:30)", ""),
            (ShapeKind::PeriodLabel, 30, 384, 0, 0, "L3", ""),
            (ShapeKind::PeriodLabel, 30, 464, 0, 0, "L4", ""),
            (ShapeKind::GapBox, 63, 507, 694, 18, "", "#eeeeee"),
            (ShapeKind::GapLabel, 410, 517, 0, 0, "Lunch (13:30 - 14:10)", ""),
            (ShapeKind::PeriodLabel, 30, 568, 0, 0, "L5", ""),
        ]
    );
}

#[test]
fn grid_measures_follow_the_page() {
    assert_eq!(column_width_of(794), 140);
    assert_eq!(row_height_of(650), 80);
    assert_eq!(column_left_of(0, 794), 60);
    assert_eq!(column_left_of(4, 794), 620);
    assert_eq!(row_top_of(0, 650), 80);
    assert_eq!(row_top_of(2, 650), 240);
    assert_eq!(row_top_of(3, 650), 344);
    assert_eq!(row_top_of(5, 650), 528);
    assert_eq!(column_width_of(0), -18);
    assert_eq!(row_height_of(0), -28);
    assert_eq!(column_left_of(4, i32::MIN), 60 - 4 * 429496747);
}

#[test]
fn lesson_is_drawn_in_its_cell() {
    let week = sample_week();
    let shapes = draw_lesson(&week.lessons[0], &sample_config(), 794, 650);
    let got: Vec<_> = shapes.iter().map(plain).collect();
    assert_eq!(
        got,
        vec![
            (ShapeKind::CellBox, 63, 163, 104, 74, "", "#ffffff"),
            (ShapeKind::LabelBox, 167, 163, 30, 74, "", "#fcdcd8"),
            (ShapeKind::Subject, 68, 177, 0, 0, "Maths", ""),
            (ShapeKind::Room, 68, 215, 0, 0, "MA3", ""),
            (ShapeKind::Teacher, 68, 229, 0, 0, "Ms Test A", ""),
            (ShapeKind::ClassLabel, 180, 200, 0, 0, "MA3", "#e8a490"),
        ]
    );
}

#[test]
fn unknown_room_is_grey_and_labelled_with_the_subject() {
    let lesson = Lesson {
        subject: "Assembly".into(),
        room: "Unknown".into(),
        teacher: "Unknown".into(),
        class_code: String::new(),
        day_index: 4,
        period_index: 5,
    };
    let got_shapes = draw_lesson(&lesson, &sample_config(), 794, 650);
    let got: Vec<_> = got_shapes.iter().map(plain).collect();
    assert_eq!(
        got,
        vec![
            (ShapeKind::CellBox, 623, 531, 104, 74, "", "#ffffff"),
            (ShapeKind::LabelBox, 727, 531, 30, 74, "", "#e0e0e0"),
            (ShapeKind::Subject, 628, 545, 0, 0, "Assembly", ""),
            (ShapeKind::ClassLabel, 740, 568, 0, 0, "Assembly", "#4a4a4a"),
        ]
    );
}

#[test]
fn unmapped_and_default_rooms_get_their_own_colours() {
    let mut lesson = Lesson {
        subject: "Drama".into(),
        room: "DR1".into(),
        teacher: "Unknown".into(),
        class_code: String::new(),
        day_index: 0,
        period_index: 0,
    };
    let shapes = draw_lesson(&lesson, &sample_config(), 794, 650);
    assert_eq!(shapes[1].color, "#ffffff");
    assert_eq!(plain(&shapes[3]), (ShapeKind::Room, 68, 135, 0, 0, "DR1", ""));
    assert_eq!(plain(&shapes[4]), (ShapeKind::ClassLabel, 180, 120, 0, 0, "DR1", "#231f20"));

    lesson.room = "DEFAULT".into();
    let shapes = draw_lesson(&lesson, &sample_config(), 794, 650);
    assert_eq!(shapes[1].color, "#e0e0e0");
    assert_eq!(plain(&shapes[3]), (ShapeKind::Room, 68, 135, 0, 0, "DEFAULT", ""));
    assert_eq!(plain(&shapes[4]), (ShapeKind::ClassLabel, 180, 120, 0, 0, "Drama", "#4a4a4a"));
}

#[test]
fn long_subject_is_set_in_lines() {
    assert_eq!(
        lines("Personal Development Intervention"),
        vec!["Personal", "Development", "Intervention"]
    );
    assert_eq!(lines("Art and  Design\tTechnology"), vec!["Art and Design", "Technology"]);
    assert_eq!(lines("a b c d e f g h i j"), vec!["a b c d e f g h i", "j"]);
    assert_eq!(lines("  "), Vec::<String>::new());

    let shapes = draw_lesson(&lesson_on("Art and Design Technology"), &sample_config(), 794, 650);
    let got: Vec<_> = shapes[2..4].iter().map(plain).collect();
    assert_eq!(
        got,
        vec![
            (ShapeKind::Subject, 68, 95, 0, 0, "Art and Design", ""),
            (ShapeKind::Subject, 68, 106, 0, 0, "Technology", ""),
        ]
    );
    assert_eq!(shapes.len(), 5);
}

#[test]
fn short_or_single_word_subject_stays_whole() {
    let shapes = draw_lesson(&lesson_on("Eighteen bytes ok!"), &sample_config(), 794, 650);
    assert_eq!(shapes.len(), 4);
    assert_eq!(plain(&shapes[2]), (ShapeKind::Subject, 68, 97, 0, 0, "Eighteen bytes ok!", ""));
    let shapes = draw_lesson(&lesson_on("Supercalifragilistic"), &sample_config(), 794, 650);
    assert_eq!(shapes.len(), 4);
    assert_eq!(shapes[2].text, "Supercalifragilistic");
}

#[test]
fn heading_names_the_student() {
    let mut week = sample_week();
    assert_eq!(heading_of(&week), "Test Student (9X1)");
    week.form = None;
    assert_eq!(heading_of(&week), "Test Student");
    week.student_name = None;
    week.form = Some("9X1".into());
    assert_eq!(heading_of(&week), "Student Timetable");
}

#[test]
fn drawing_without_map_keeps_a_single_root() {
    let svg = embed_map("<svg><g id=\"timetable\"/></svg>", "");
    assert_eq!(svg, "<svg><g id=\"timetable\"/></svg>");
    assert_eq!(svg.matches("<svg").count(), 1);
    assert_eq!(embed_map("<svg></svg>", " \n\t"), "<svg></svg>");
}

#[test]
fn map_is_set_into_a_frame_of_its_own() {
    let svg = embed_map("<svg><g/></svg>", "<svg><g id=\"Maths_Rooms\"/></svg>");
    assert_eq!(
        svg,
        "<svg><g/><svg x=\"0\" y=\"670\" width=\"794\" height=\"433\"><svg><g id=\"Maths_Rooms\"/></svg></svg></svg>"
    );
}

#[test]
fn map_loses_its_declaration_and_what_precedes_its_first_tag() {
    let frame = "<svg x=\"0\" y=\"670\" width=\"794\" height=\"433\">";
    assert_eq!(
        embed_map("<svg></svg>", "\u{feff}<?xml version=\"1.0\"?>\n<svg/>"),
        format!("<svg>{}\n<svg/></svg></svg>", frame)
    );
    assert_eq!(
        embed_map("<svg></svg>", "<?xml version=\"1.0\" <svg/>"),
        format!("<svg>{}<?xml version=\"1.0\" <svg/></svg></svg>", frame)
    );
    assert_eq!(embed_map("<svg></svg>", "no tags"), format!("<svg>{}</svg></svg>", frame));
    assert_eq!(embed_map("open", "<a/>"), format!("open{}<a/></svg></svg>", frame));
}
