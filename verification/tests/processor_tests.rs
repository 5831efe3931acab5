use timetable_core::config::{Config, Mapping};
use timetable_core::parser::{Lesson, Week};
use timetable_core::processor::{
    apply_replacements, attribute, fill_attribute, find_element_starts, find_elements,
    find_tag_end, highlight_map, highlights_for, is_named, order_replacements, plan_fill,
    process_map_text, splice, MapError, MapHighlight, MapNode, Replacement,
};

const MAP: &str = r###"<?xml version="1.0"?>
<svg>
    <g id="Maths_Rooms">
        <path fill="#000000" d="M0" />
    </g>
    <g id="Other">
        <rect fill="#ffffff" />
    </g>
</svg>"###;

fn replacement(start: usize, end: usize, text: &str) -> Replacement {
    Replacement { start, end, text: text.as_bytes().to_vec() }
}

fn lesson(room: &str) -> Lesson {
    Lesson {
        subject: "S".into(),
        room: room.into(),
        teacher: "T".into(),
        class_code: String::new(),
        day_index: 0,
        period_index: 0,
    }
}

fn mapping(prefix: &str, bg_color: &str, map_id: &str) -> Mapping {
    Mapping {
        prefix: prefix.into(),
        bg_color: bg_color.into(),
        fg_color: "#000".into(),
        map_id: map_id.into(),
        label: None,
    }
}

#[test]
fn highlight_replaces_the_fill_of_the_chosen_element() {
    let highlights = vec![MapHighlight { id: "Maths_Rooms".into(), color: "#ff0000".into() }];
    let elements = vec![vec![MAP.find("<path").unwrap()]];
    let out = highlight_map(&MAP.as_bytes().to_vec(), &highlights, &elements);
    let out = String::from_utf8(out).unwrap();
    assert!(out.contains("fill=\"#ff0000\""));
    assert_eq!(out, MAP.replace("fill=\"#000000\"", "fill=\"#ff0000\""));
}

#[test]
fn highlight_without_elements_changes_nothing() {
    let highlights = vec![MapHighlight { id: "Maths_Rooms".into(), color: "#ff0000".into() }];
    let out = highlight_map(&MAP.as_bytes().to_vec(), &highlights, &Vec::new());
    assert_eq!(out, MAP.as_bytes());
    let out = highlight_map(&MAP.as_bytes().to_vec(), &Vec::new(), &vec![vec![0]]);
    assert_eq!(out, MAP.as_bytes());
}

#[test]
fn first_highlight_wins_where_two_share_an_element() {
    let content = "<a><b fill='x'/><c fill = \"y\" /></a>";
    let b = content.find("<b").unwrap();
    let c = content.find("<c").unwrap();
    let highlights = vec![
        MapHighlight { id: "one".into(), color: "red".into() },
        MapHighlight { id: "two".into(), color: "blue".into() },
    ];
    let elements = vec![vec![b, c], vec![c, b]];
    let out = highlight_map(&content.as_bytes().to_vec(), &highlights, &elements);
    assert_eq!(
        String::from_utf8(out).unwrap(),
        "<a><b fill=\"red\"/><c fill=\"red\" /></a>"
    );
}

#[test]
fn fill_attribute_quotes_the_colour() {
    assert_eq!(fill_attribute("#fcdcd8"), b"fill=\"#fcdcd8\"".to_vec());
    assert_eq!(fill_attribute(""), b"fill=\"\"".to_vec());
}

#[test]
fn tag_end_is_the_first_closing_byte() {
    let bytes = b"<a b='1'><c>".to_vec();
    assert_eq!(find_tag_end(&bytes, 0), Some(8));
    assert_eq!(find_tag_end(&bytes, 8), Some(8));
    assert_eq!(find_tag_end(&bytes, 9), Some(11));
    assert_eq!(find_tag_end(&bytes, 12), None);
    assert_eq!(find_tag_end(&bytes, 100), None);
}

#[test]
fn plan_fill_looks_only_inside_the_opening_tag() {
    let content = b"<g id=\"a\"><path fill=\"#000\"/></g>".to_vec();
    assert!(plan_fill(&content, 0, "red").is_none());
    let planned = plan_fill(&content, 10, "red").unwrap();
    assert_eq!((planned.start, planned.end), (16, 27));
    assert_eq!(planned.text, b"fill=\"red\"".to_vec());
    assert!(plan_fill(&b"<path fill=\"#000\"".to_vec(), 0, "red").is_none());
    assert!(plan_fill(&vec![b'<', 0xff, b'>'], 0, "red").is_none());
    assert!(plan_fill(&content, 1000, "red").is_none());
}

#[test]
fn replacements_are_made_from_the_end_and_once_per_start() {
    let planned = vec![
        replacement(2, 3, "a"),
        replacement(9, 9, "b"),
        replacement(2, 4, "c"),
        replacement(5, 6, "d"),
        replacement(9, 10, "e"),
    ];
    let ordered = order_replacements(&planned);
    let got: Vec<(usize, usize, &[u8])> =
        ordered.iter().map(|r| (r.start, r.end, r.text.as_slice())).collect();
    assert_eq!(
        got,
        vec![(9, 9, b"b".as_slice()), (5, 6, b"d".as_slice()), (2, 3, b"a".as_slice())]
    );
    assert!(order_replacements(&Vec::new()).is_empty());
}

#[test]
fn splice_puts_the_new_bytes_in_place_of_the_old() {
    let bytes = b"0123456789".to_vec();
    assert_eq!(splice(bytes.clone(), &replacement(2, 5, "abcd")), b"01abcd56789".to_vec());
    assert_eq!(splice(bytes.clone(), &replacement(0, 10, "")), b"".to_vec());
    assert_eq!(splice(bytes.clone(), &replacement(10, 10, "x")), b"0123456789x".to_vec());
    assert_eq!(splice(bytes.clone(), &replacement(4, 4, "-")), b"0123-456789".to_vec());
}

#[test]
fn replacement_outside_the_bytes_is_not_made() {
    let bytes = b"0123456789".to_vec();
    assert_eq!(splice(bytes.clone(), &replacement(5, 4, "x")), bytes);
    assert_eq!(splice(bytes.clone(), &replacement(5, 11, "x")), bytes);
    let first = replacement(8, 10, "");
    let second = replacement(7, 9, "x");
    let both = vec![&first, &second];
    assert_eq!(apply_replacements(bytes.clone(), &both), b"01234567".to_vec());
}

#[test]
fn week_highlights_name_every_map_element_once() {
    let config = Config {
        mappings: vec![
            mapping("MA", "#m", "Maths_Rooms"),
            mapping("SC", "#s", "Science_Rooms"),
            mapping("MA1", "#m1", "Maths_Rooms"),
        ],
        overrides: vec![],
    };
    let week = Week {
        lessons: vec![lesson("SC8"), lesson("MA3"), lesson("Unknown"), lesson("MA12"), lesson("SC1")],
        week_name: "Week 1".into(),
        student_name: None,
        form: None,
    };
    let got: Vec<(String, String)> =
        highlights_for(&week, &config).into_iter().map(|h| (h.id, h.color)).collect();
    assert_eq!(
        got,
        vec![
            ("Science_Rooms".to_string(), "#s".to_string()),
            ("Maths_Rooms".to_string(), "#m".to_string()),
        ]
    );
}

fn node(start: usize, subtree: usize, id: Option<&str>, data_name: Option<&str>, has_fill: bool) -> MapNode {
    let mut attributes = vec![("d".to_string(), "M0".to_string())];
    if let Some(id) = id {
        attributes.push(("id".to_string(), id.to_string()));
    }
    if let Some(name) = data_name {
        attributes.push(("data-name".to_string(), name.to_string()));
    }
    if has_fill {
        attributes.push(("fill".to_string(), "#000".to_string()));
    }
    MapNode { start, subtree, attributes }
}

#[test]
fn attribute_is_the_first_of_its_name() {
    let pair = |name: &str, value: &str| (name.to_string(), value.to_string());
    let n = MapNode {
        start: 0,
        subtree: 1,
        attributes: vec![pair("id", "one"), pair("fill", ""), pair("id", "two"), pair("ID", "x")],
    };
    assert_eq!(attribute(&n, "id"), Some(&"one".to_string()));
    assert_eq!(attribute(&n, "fill"), Some(&String::new()));
    assert_eq!(attribute(&n, "ID"), Some(&"x".to_string()));
    assert_eq!(attribute(&n, "data-name"), None);
    assert!(is_named(&n, &"one".to_string()));
    assert!(!is_named(&n, &"two".to_string()));
    let bare = MapNode { start: 0, subtree: 1, attributes: vec![] };
    assert_eq!(attribute(&bare, "id"), None);
    assert!(!is_named(&bare, &String::new()));
}

#[test]
fn attributes_are_found_by_their_name_without_prefix() {
    let map = "<svg xmlns:a=\"urn:a\"><g a:id=\"A\"><path a:fill=\"x\" fill=\"y\"/></g></svg>";
    let highlights = vec![MapHighlight { id: "A".into(), color: "red".into() }];
    assert_eq!(
        process_map_text(map, &highlights).unwrap(),
        "<svg xmlns:a=\"urn:a\"><g a:id=\"A\"><path a:fill=\"red\" fill=\"y\"/></g></svg>"
    );
}

#[test]
fn process_map_replaces_fill() {
    let highlights = vec![MapHighlight { id: "Maths_Rooms".into(), color: "#ff0000".into() }];
    let out = process_map_text(MAP, &highlights).unwrap();
    assert!(out.contains("fill=\"#ff0000\""));
    assert_eq!(out, MAP.replace("fill=\"#000000\"", "fill=\"#ff0000\""));
}

#[test]
fn map_is_recoloured_by_id_or_by_name_with_everything_inside() {
    let map = "<svg fill=\"none\"><g data-name=\"A\" fill=\"a\"><g><path fill='b'/>text</g></g>\
               <g id=\"A\"><path fill=\"c\"/></g><g id=\"B\"><path d=\"\"/><path fill=\"d\"/></g></svg>";
    let highlights = vec![
        MapHighlight { id: "A".into(), color: "red".into() },
        MapHighlight { id: "B".into(), color: "blue".into() },
        MapHighlight { id: "C".into(), color: "green".into() },
    ];
    let out = process_map_text(map, &highlights).unwrap();
    assert_eq!(
        out,
        "<svg fill=\"none\"><g data-name=\"A\" fill=\"red\"><g><path fill=\"red\"/>text</g></g>\
         <g id=\"A\"><path fill=\"c\"/></g><g id=\"B\"><path d=\"\"/><path fill=\"blue\"/></g></svg>"
    );
    assert_eq!(process_map_text(map, &Vec::new()).unwrap(), map);
}

#[test]
fn map_that_is_not_xml_is_refused() {
    let highlights = vec![MapHighlight { id: "A".into(), color: "red".into() }];
    assert!(matches!(process_map_text("<svg><g></svg>", &highlights), Err(MapError::Xml(_))));
    assert!(matches!(process_map_text("", &highlights), Err(MapError::Xml(_))));
}

#[test]
fn elements_are_the_filled_nodes_of_the_first_named_subtree() {
    let nodes = vec![
        node(0, 7, None, None, true),
        node(5, 3, Some("x"), Some("A"), true),
        node(9, 1, None, None, false),
        node(12, 1, Some("A"), None, true),
        node(20, 2, Some("A"), None, false),
        node(25, 1, None, None, true),
        node(30, 9, Some("B"), None, true),
    ];
    assert_eq!(find_element_starts(&nodes, &"A".to_string()), vec![5, 12]);
    assert_eq!(find_element_starts(&nodes, &"x".to_string()), vec![5, 12]);
    assert_eq!(find_element_starts(&nodes, &"B".to_string()), vec![30]);
    assert_eq!(find_element_starts(&nodes, &"C".to_string()), Vec::<usize>::new());
    assert_eq!(find_element_starts(&Vec::new(), &"A".to_string()), Vec::<usize>::new());
    let highlights = vec![
        MapHighlight { id: "B".into(), color: "b".into() },
        MapHighlight { id: "?".into(), color: "q".into() },
        MapHighlight { id: "A".into(), color: "a".into() },
    ];
    assert_eq!(find_elements(&nodes, &highlights), vec![vec![30], vec![], vec![5, 12]]);
}
