//! Reading positioned text out of a page's content operations: following the
//! text cursor, gathering the strings that are shown, and undoing the
//! character shift that hides them.

use crate::arith::{add_clamped, clamped};
use crate::parser::{owned_item_views, TextItem, TextItemView};
use crate::text::{push_char, same_text, to_chars};
use vstd::prelude::*;
use vstd::utf8::{decode_utf8, valid_utf8};

verus! {

/// An operand of a content operation.
#[derive(Debug)]
pub enum Operand {
    /// A number, in thousandths.
    Number(i64),
    /// A string, as the bytes that the page holds.
    Text(Vec<u8>),
    /// An array of operands.
    Array(Vec<Operand>),
    /// Anything else.
    Other,
}

/// A content operation: an operator with its operands.
#[derive(Debug)]
pub struct Operation {
    pub operator: String,
    pub operands: Vec<Operand>,
}

/// How far every character code is moved to hide the text.
pub const SHIFT: u32 = 29;

/// The character that the hidden character `c` stands for: the low byte of
/// its code, plus 29, modulo 256.
pub open spec fn shifted(c: char) -> char {
    ((((c as u32) % 256 + SHIFT) % 256) as u8) as char
}

/// The character that hides `c`: the low byte of its code, minus 29, modulo
/// 256.
pub open spec fn unshifted(c: char) -> char {
    ((((c as u32) % 256 + 256 - SHIFT) % 256) as u8) as char
}

/// The text that the hidden text `s` stands for: its NUL characters are
/// dropped and every other character is shifted.
pub open spec fn decoded_text(s: Seq<char>) -> Seq<char> {
    s.filter(|c: char| c != '\0').map_values(|c: char| shifted(c))
}

/// The text that hides `s`: every character shifted back.
pub open spec fn encoded_text(s: Seq<char>) -> Seq<char> {
    s.map_values(|c: char| unshifted(c))
}

/// The character that the hidden character `c` stands for.
pub fn shift_char(c: char) -> (r: char)
    ensures
        r == shifted(c),
{
    let code: u32 = (c as u32) % 256;
    (((code + SHIFT) % 256) as u8) as char
}

/// Undoes the character shift of a hidden text.
pub fn decode_bromcom_text(text: &str) -> (r: String)
    ensures
        r@ == decoded_text(text@),
{
    let ghost keep = |c: char| c != '\0';
    let mut r = String::new();
    for c in it: text.chars()
        invariant
            it.seq() == text@,
            keep == (|c: char| c != '\0'),
            r@ == it.seq().take(it.index()).filter(keep).map_values(|c: char| shifted(c)),
    {
        proof {
            let seen = text@.take(it.index());
            assert(text@.take(it.index() + 1) =~= seen.push(c));
            seen.lemma_filter_push(c, keep);
            if c != '\0' {
                assert(seen.filter(keep).push(c).map_values(|c: char| shifted(c))
                    =~= seen.filter(keep).map_values(|c: char| shifted(c)).push(shifted(c)));
            }
        }
        if c != '\0' {
            push_char(&mut r, shift_char(c));
        }
    }
    assert(text@.take(text@.len() as int) =~= text@);
    r
}

/// Decoding an ASCII text without NUL characters keeps its length and moves
/// every character code up by 29, modulo 256; shifting every character back
/// by 29, modulo 256, gives the hidden text back.
pub proof fn lemma_decode_reversible(s: Seq<char>)
    requires
        forall|i: int| 0 <= i < s.len() ==> 0 < (#[trigger] s[i]) as u32 && (s[i] as u32) < 128,
    ensures
        decoded_text(s).len() == s.len(),
        forall|i: int|
            0 <= i < s.len() ==> (#[trigger] decoded_text(s)[i]) as u32 == ((s[i] as u32) + 29)
                % 256,
        encoded_text(decoded_text(s)) == s,
{
    let keep = |c: char| c != '\0';
    lemma_filter_keeps_all(s, keep);
    assert forall|i: int| 0 <= i < s.len() implies unshifted(shifted(#[trigger] s[i]))
        == s[i] by {
        lemma_shift_reversible(s[i]);
    }
    assert(encoded_text(decoded_text(s)) =~= s);
}

/// A filter that every item passes changes nothing.
proof fn lemma_filter_keeps_all(s: Seq<char>, keep: spec_fn(char) -> bool)
    requires
        forall|i: int| 0 <= i < s.len() ==> keep(#[trigger] s[i]),
    ensures
        s.filter(keep) == s,
    decreases s.len(),
{
    reveal(Seq::filter);
    if s.len() > 0 {
        lemma_filter_keeps_all(s.drop_last(), keep);
        assert(s.drop_last().push(s.last()) =~= s);
    }
}

/// Shifting an ASCII character and shifting it back gives the character
/// again.
proof fn lemma_shift_reversible(c: char)
    requires
        (c as u32) < 128,
    ensures
        shifted(c) as u32 == (c as u32) + 29,
        unshifted(shifted(c)) == c,
{
    let code = c as u32;
    let up = (((code % 256 + SHIFT) % 256) as u8);
    assert(up == code + 29);
    assert((up as char) as u32 == up as u32);
    let down = ((((up as u32) % 256 + 256 - SHIFT) % 256) as u8);
    assert(down == code);
    vstd::utf8::char_u32_cast(c, code);
    assert((down as char) == c);
}

/// `String::from_utf8`: the bytes become a string exactly when they are
/// valid UTF-8, and the string then holds the characters that they encode.
#[verifier::external_body]
pub(crate) fn string_from_utf8(bytes: &Vec<u8>) -> (r: Option<String>)
    ensures
        r is Some <==> valid_utf8(bytes@),
        r is Some ==> r->0@ == decode_utf8(bytes@),
{
    String::from_utf8(bytes.clone()).ok()
}

/// The text of a string operand whose bytes are valid UTF-8; any other
/// operand has none.
pub open spec fn operand_text(operand: Operand) -> Option<Seq<char>> {
    match operand {
        Operand::Text(bytes) => if valid_utf8(bytes@) {
            Some(decode_utf8(bytes@))
        } else {
            None
        },
        _ => None,
    }
}

/// The text of a string operand.
pub fn decode_text_object(operand: &Operand) -> (r: Option<String>)
    ensures
        crate::parser::opt_view(r) == operand_text(*operand),
{
    match operand {
        Operand::Text(bytes) => string_from_utf8(bytes),
        _ => None,
    }
}

/// The texts of the string operands among `items`, one after the other.
/// Whatever else stands in the array is passed over.
pub open spec fn array_text(items: Seq<Operand>) -> Seq<char>
    decreases items.len(),
{
    if items.len() == 0 {
        Seq::empty()
    } else {
        match operand_text(items.last()) {
            Some(s) => array_text(items.drop_last()) + s,
            None => array_text(items.drop_last()),
        }
    }
}

/// The number that operand `i` of `op` holds, if it holds one.
pub open spec fn number_at(op: Operation, i: int) -> Option<int> {
    match op.operands@[i] {
        Operand::Number(n) => Some(n as int),
        _ => None,
    }
}

/// Whether the operands of `op` are `n` numbers.
pub open spec fn has_numbers(op: Operation, n: int) -> bool {
    op.operands@.len() == n && forall|i: int| 0 <= i < n ==> number_at(op, i) is Some
}

/// The cursor after operation `op`. Begin-text puts it at the origin. A
/// set-matrix with six numbers puts it where the last two say; the first
/// four, which scale and rotate, do not move it. A move with two numbers adds
/// them to the cursor, held to what 64 bits can take. Any other operation,
/// and any of these with other operands, leaves the cursor where it is.
pub open spec fn cursor_after(cursor: (int, int), op: Operation) -> (int, int) {
    if op.operator@ == "BT"@ {
        (0, 0)
    } else if op.operator@ == "Tm"@ {
        if has_numbers(op, 6) {
            (number_at(op, 4)->0, number_at(op, 5)->0)
        } else {
            cursor
        }
    } else if op.operator@ == "Td"@ || op.operator@ == "TD"@ {
        if has_numbers(op, 2) {
            (clamped(cursor.0 + number_at(op, 0)->0), clamped(cursor.1 + number_at(op, 1)->0))
        } else {
            cursor
        }
    } else {
        cursor
    }
}

/// The text that operation `op` shows, decoded. A show-text shows its first
/// operand, if that is a string of valid UTF-8. A show-text-array shows the
/// strings of its first operand, an array, one after the other. Nothing else
/// shows text.
pub open spec fn shown_text(op: Operation) -> Option<Seq<char>> {
    if op.operator@ == "Tj"@ {
        if op.operands@.len() > 0 {
            match operand_text(op.operands@[0]) {
                Some(s) => Some(decoded_text(s)),
                None => None,
            }
        } else {
            None
        }
    } else if op.operator@ == "TJ"@ {
        if op.operands@.len() > 0 {
            match op.operands@[0] {
                Operand::Array(items) => Some(decoded_text(array_text(items@))),
                _ => None,
            }
        } else {
            None
        }
    } else {
        None
    }
}

/// The cursor after the operations `ops`, starting from the origin.
pub open spec fn cursor_at_end(ops: Seq<Operation>) -> (int, int)
    decreases ops.len(),
{
    if ops.len() == 0 {
        (0, 0)
    } else {
        cursor_after(cursor_at_end(ops.drop_last()), ops.last())
    }
}

/// The text items that the operations `ops` show, in the order in which they
/// are shown, each at the place where the cursor stood.
pub open spec fn extracted(ops: Seq<Operation>) -> Seq<TextItemView>
    decreases ops.len(),
{
    if ops.len() == 0 {
        Seq::empty()
    } else {
        let before = extracted(ops.drop_last());
        let cursor = cursor_at_end(ops.drop_last());
        match shown_text(ops.last()) {
            Some(text) => before.push(TextItemView { x: cursor.0, y: cursor.1, text }),
            None => before,
        }
    }
}

/// The number that operand `i` of `op` holds, if it holds one.
fn operand_number(op: &Operation, i: usize) -> (r: Option<i64>)
    requires
        i < op.operands@.len(),
    ensures
        (match r {
            Some(n) => Some(n as int),
            None => None,
        }) == number_at(*op, i as int),
{
    match &op.operands[i] {
        Operand::Number(n) => Some(*n),
        _ => None,
    }
}

/// Whether the operands of `op` are `n` numbers.
fn all_numbers(op: &Operation, n: usize) -> (r: bool)
    ensures
        r == has_numbers(*op, n as int),
{
    if op.operands.len() != n {
        return false;
    }
    let mut i: usize = 0;
    while i < n
        invariant
            i <= n,
            op.operands@.len() == n,
            forall|j: int| 0 <= j < i ==> number_at(*op, j) is Some,
        decreases n - i,
    {
        if operand_number(op, i).is_none() {
            return false;
        }
        i += 1;
    }
    true
}

/// The cursor after operation `op`.
pub fn move_cursor(cursor: (i64, i64), op: &Operation) -> (r: (i64, i64))
    ensures
        (r.0 as int, r.1 as int) == cursor_after((cursor.0 as int, cursor.1 as int), *op),
{
    let name = to_chars(op.operator.as_str());
    if same_text(&name, &to_chars("BT")) {
        (0, 0)
    } else if same_text(&name, &to_chars("Tm")) {
        if all_numbers(op, 6) {
            match (operand_number(op, 4), operand_number(op, 5)) {
                (Some(e), Some(f)) => (e, f),
                _ => cursor,
            }
        } else {
            cursor
        }
    } else if same_text(&name, &to_chars("Td")) || same_text(&name, &to_chars("TD")) {
        if all_numbers(op, 2) {
            match (operand_number(op, 0), operand_number(op, 1)) {
                (Some(tx), Some(ty)) => (add_clamped(cursor.0, tx), add_clamped(cursor.1, ty)),
                _ => cursor,
            }
        } else {
            cursor
        }
    } else {
        cursor
    }
}

/// The strings of an array, one after the other.
fn concat_array(items: &Vec<Operand>) -> (r: String)
    ensures
        r@ == array_text(items@),
{
    let mut r = String::new();
    let mut i: usize = 0;
    while i < items.len()
        invariant
            i <= items.len(),
            r@ == array_text(items@.take(i as int)),
        decreases items.len() - i,
    {
        proof {
            assert(items@.take(i + 1).drop_last() =~= items@.take(i as int));
            assert(items@.take(i + 1).last() == items@[i as int]);
        }
        match decode_text_object(&items[i]) {
            Some(s) => {
                r.append(s.as_str());
            },
            None => {},
        }
        i += 1;
    }
    assert(items@.take(i as int) =~= items@);
    r
}

/// The text that operation `op` shows, decoded.
pub fn text_shown(op: &Operation) -> (r: Option<String>)
    ensures
        crate::parser::opt_view(r) == shown_text(*op),
{
    let name = to_chars(op.operator.as_str());
    if same_text(&name, &to_chars("Tj")) {
        if op.operands.len() > 0 {
            match decode_text_object(&op.operands[0]) {
                Some(s) => Some(decode_bromcom_text(s.as_str())),
                None => None,
            }
        } else {
            None
        }
    } else if same_text(&name, &to_chars("TJ")) {
        if op.operands.len() > 0 {
            match &op.operands[0] {
                Operand::Array(items) => Some(decode_bromcom_text(concat_array(items).as_str())),
                _ => None,
            }
        } else {
            None
        }
    } else {
        None
    }
}

/// Reads the text items out of the content operations of one page.
pub fn extract_text_from_page(ops: &Vec<Operation>) -> (items: Vec<TextItem>)
    ensures
        owned_item_views(items@) == extracted(ops@),
{
    let mut items: Vec<TextItem> = Vec::new();
    let mut cursor: (i64, i64) = (0, 0);
    let mut i: usize = 0;
    while i < ops.len()
        invariant
            i <= ops.len(),
            (cursor.0 as int, cursor.1 as int) == cursor_at_end(ops@.take(i as int)),
            owned_item_views(items@) == extracted(ops@.take(i as int)),
        decreases ops.len() - i,
    {
        proof {
            assert(ops@.take(i + 1).drop_last() =~= ops@.take(i as int));
            assert(ops@.take(i + 1).last() == ops@[i as int]);
        }
        match text_shown(&ops[i]) {
            Some(text) => {
                let item = TextItem { x: cursor.0, y: cursor.1, text };
                proof {
                    assert(owned_item_views(items@.push(item)) =~= owned_item_views(items@).push(
                        item@,
                    ));
                }
                items.push(item);
            },
            None => {},
        }
        cursor = move_cursor(cursor, &ops[i]);
        i += 1;
    }
    assert(ops@.take(i as int) =~= ops@);
    items
}

} // verus!
