use timetable_core::extract::{
    decode_bromcom_text, decode_text_object, extract_text_from_page, move_cursor, Operand,
    Operation,
};
use timetable_core::text::{
    contains, eq_ignore_ascii_case, from_chars, starts_with, to_chars, trim,
};

fn op(name: &str, operands: Vec<Operand>) -> Operation {
    Operation { operator: name.to_string(), operands }
}

fn obscure(text: &str) -> Vec<u8> {
    text.bytes().map(|b| b.wrapping_sub(29)).collect()
}

#[test]
fn decode_shifts_every_character_by_29() {
    assert_eq!(decode_bromcom_text(":HHN"), "Week");
    assert_eq!(decode_bromcom_text(""), "");
}

#[test]
fn decode_drops_nul_characters_first() {
    assert_eq!(decode_bromcom_text("\0:\0H\0HN\0"), "Week");
}

#[test]
fn decode_wraps_at_256_and_uses_the_low_byte() {
    assert_eq!(decode_bromcom_text("\u{ff}"), "\u{1c}");
    assert_eq!(decode_bromcom_text("\u{e3}"), "\u{0}");
    assert_eq!(decode_bromcom_text("\u{100}"), "\u{1d}");
    assert_eq!(decode_bromcom_text("\u{141}"), "^");
}

#[test]
fn decode_is_undone_by_the_inverse_shift() {
    let hidden = "Plain ASCII text, 0-9 ~!";
    let decoded = decode_bromcom_text(hidden);
    assert_eq!(decoded.chars().count(), hidden.len());
    let back: String = decoded.chars().map(|c| ((c as u32 as u8).wrapping_sub(29)) as char).collect();
    assert_eq!(back, hidden);
}

#[test]
fn text_object_needs_valid_utf8() {
    assert_eq!(decode_text_object(&Operand::Text(b"abc".to_vec())), Some("abc".to_string()));
    assert_eq!(decode_text_object(&Operand::Text(vec![0xc3, 0xa9])), Some("\u{e9}".to_string()));
    assert_eq!(decode_text_object(&Operand::Text(vec![0xff])), None);
    assert_eq!(decode_text_object(&Operand::Number(5)), None);
    assert_eq!(decode_text_object(&Operand::Array(Vec::new())), None);
    assert_eq!(decode_text_object(&Operand::Other), None);
}

#[test]
fn extraction_follows_the_cursor() {
    let ops = vec![
        op("BT", vec![]),
        op(
            "Tm",
            vec![
                Operand::Number(1000),
                Operand::Number(0),
                Operand::Number(0),
                Operand::Number(1000),
                Operand::Number(72_500),
                Operand::Number(700_000),
            ],
        ),
        op("Tj", vec![Operand::Text(obscure("Week"))]),
        op("Td", vec![Operand::Number(10_000), Operand::Number(-20_000)]),
        op(
            "TJ",
            vec![Operand::Array(vec![
                Operand::Text(obscure("Te")),
                Operand::Number(-250),
                Operand::Text(vec![0xff]),
                Operand::Text(obscure("st")),
            ])],
        ),
        op("TD", vec![Operand::Number(500), Operand::Number(500)]),
        op("Tj", vec![Operand::Text(obscure("A"))]),
        op("ET", vec![]),
        op("BT", vec![]),
        op("Tj", vec![Operand::Text(obscure("B"))]),
    ];
    let items = extract_text_from_page(&ops);
    let got: Vec<(i64, i64, &str)> = items.iter().map(|i| (i.x, i.y, i.text.as_str())).collect();
    assert_eq!(
        got,
        vec![
            (72_500, 700_000, "Week"),
            (82_500, 680_000, "Test"),
            (83_000, 680_500, "A"),
            (0, 0, "B"),
        ]
    );
}

#[test]
fn malformed_operations_are_passed_over() {
    let ops = vec![
        op("Tm", vec![Operand::Number(1), Operand::Number(2)]),
        op(
            "Tm",
            vec![
                Operand::Number(1),
                Operand::Number(0),
                Operand::Number(0),
                Operand::Number(1),
                Operand::Other,
                Operand::Number(9),
            ],
        ),
        op(
            "Tm",
            vec![
                Operand::Other,
                Operand::Number(0),
                Operand::Number(0),
                Operand::Number(1),
                Operand::Number(8),
                Operand::Number(9),
            ],
        ),
        op("Td", vec![Operand::Number(5)]),
        op("Td", vec![Operand::Number(5), Operand::Text(vec![])]),
        op("Tj", vec![]),
        op("Tj", vec![Operand::Number(3)]),
        op("Tj", vec![Operand::Text(vec![0xff])]),
        op("TJ", vec![]),
        op("TJ", vec![Operand::Text(obscure("x"))]),
        op("Tf", vec![Operand::Other, Operand::Number(12_000)]),
        op("TJ", vec![Operand::Array(vec![])]),
    ];
    let items = extract_text_from_page(&ops);
    assert_eq!(items.len(), 1);
    assert_eq!((items[0].x, items[0].y, items[0].text.as_str()), (0, 0, ""));
}

#[test]
fn empty_page_has_no_text() {
    assert!(extract_text_from_page(&Vec::new()).is_empty());
}

#[test]
fn cursor_moves_stop_at_the_limits_of_the_coordinates() {
    let step = op("Td", vec![Operand::Number(i64::MAX), Operand::Number(i64::MIN)]);
    assert_eq!(move_cursor((10, -10), &step), (i64::MAX, i64::MIN));
    assert_eq!(move_cursor((-10, 10), &step), (i64::MAX - 10, i64::MIN + 10));
    assert_eq!(move_cursor((3, 4), &op("BT", vec![])), (0, 0));
    assert_eq!(move_cursor((3, 4), &op("Tj", vec![Operand::Text(vec![])])), (3, 4));
}

#[test]
fn trim_removes_whitespace_at_both_ends_only() {
    let trimmed = trim(&to_chars(" \t a b\u{a0}\n"));
    assert_eq!(from_chars(&trimmed), "a b");
    assert_eq!(from_chars(&trim(&to_chars("   "))), "");
    assert_eq!(from_chars(&trim(&to_chars(""))), "");
    assert_eq!(from_chars(&trim(&to_chars("abc"))), "abc");
}

#[test]
fn chars_and_strings_convert_both_ways() {
    assert_eq!(to_chars("a\u{e9}z"), vec!['a', '\u{e9}', 'z']);
    assert_eq!(from_chars(&vec!['a', '\u{e9}', 'z']), "a\u{e9}z");
}

#[test]
fn prefix_substring_and_case_tests() {
    let text = to_chars("L4/5");
    assert!(starts_with(&text, &to_chars("L4")));
    assert!(starts_with(&text, &to_chars("")));
    assert!(!starts_with(&text, &to_chars("4")));
    assert!(!starts_with(&to_chars("L"), &to_chars("L4")));
    assert!(contains(&text, &to_chars("4/")));
    assert!(contains(&text, &to_chars("5")));
    assert!(contains(&text, &to_chars("")));
    assert!(!contains(&text, &to_chars("45")));
    assert!(!contains(&to_chars(""), &to_chars("a")));
    assert!(eq_ignore_ascii_case(&to_chars("MoNdAy"), &to_chars("monday")));
    assert!(!eq_ignore_ascii_case(&to_chars("Monday"), &to_chars("Mondays")));
    assert!(!eq_ignore_ascii_case(&to_chars("\u{c9}"), &to_chars("\u{e9}")));
}

#[test]
fn whitespace_is_the_twenty_five_characters_with_the_property() {
    let mut count = 0;
    for code in 0..=0x10ffffu32 {
        let c = match char::from_u32(code) {
            Some(c) => c,
            None => continue,
        };
        let listed = matches!(
            code,
            0x09..=0x0d
                | 0x20
                | 0x85
                | 0xa0
                | 0x1680
                | 0x2000..=0x200a
                | 0x2028
                | 0x2029
                | 0x202f
                | 0x205f
                | 0x3000
        );
        assert_eq!(trim(&vec![c]).is_empty(), listed, "U+{:04X}", code);
        if listed {
            count += 1;
            assert_eq!(trim(&vec![c, 'a', c, 'b', c]), vec!['a', c, 'b']);
        }
    }
    assert_eq!(count, 25);
}
