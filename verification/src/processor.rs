//! Highlighting departments on a map: the `fill` attribute of every chosen
//! element gives way to the department's colour. The map is handled as the
//! bytes of its text, and places in it are offsets into those bytes.

use crate::config::{best_mapping, Config};
use crate::extract::string_from_utf8;
use crate::order::{key_views, position_views, sort_positions, stable_order};
use crate::parser::{LessonView, Week, WeekView};
use crate::text::same_str;
use crate::pattern::{find_span, regex_find, FILL_PATTERN};
use vstd::prelude::*;
use vstd::utf8::{decode_utf8, decode_utf8_encode_utf8, encode_utf8, valid_utf8};

verus! {

/// A department to highlight on the map.
#[derive(Debug, Clone)]
pub struct MapHighlight {
    /// Identifier or name of the map element.
    pub id: String,
    /// The colour to fill it with.
    pub color: String,
}

/// What a `MapHighlight` holds.
pub struct MapHighlightView {
    pub id: Seq<char>,
    pub color: Seq<char>,
}

impl View for MapHighlight {
    type V = MapHighlightView;

    open spec fn view(&self) -> MapHighlightView {
        MapHighlightView { id: self.id@, color: self.color@ }
    }
}

/// The views of a list of highlights.
pub open spec fn highlight_views(hs: Seq<MapHighlight>) -> Seq<MapHighlightView> {
    hs.map_values(|h: MapHighlight| h@)
}

/// Whether one of the highlights is for the element `id`.
pub open spec fn has_highlight(hs: Seq<MapHighlightView>, id: Seq<char>) -> bool {
    exists|k: int| 0 <= k < hs.len() && (#[trigger] hs[k]).id == id
}

/// The highlights that the first `n` lessons call for: one for the map
/// element of every mapping that styles a lesson's room, in the background
/// colour of the mapping that asked for the element first.
pub open spec fn highlights_of_first(lessons: Seq<LessonView>, config: Config, n: nat) -> Seq<
    MapHighlightView,
>
    decreases n,
{
    if n == 0 || n > lessons.len() {
        Seq::empty()
    } else {
        let before = highlights_of_first(lessons, config, (n - 1) as nat);
        match best_mapping(config.mappings@, lessons[n - 1].room) {
            Some(i) => {
                let mapping = config.mappings@[i];
                if has_highlight(before, mapping.map_id@) {
                    before
                } else {
                    before.push(MapHighlightView { id: mapping.map_id@, color: mapping.bg_color@ })
                }
            },
            None => before,
        }
    }
}

/// The highlights that a week calls for.
pub open spec fn week_highlights(week: WeekView, config: Config) -> Seq<MapHighlightView> {
    highlights_of_first(week.lessons, config, week.lessons.len())
}

/// Whether one of the highlights is for the element `id`.
fn highlights_hold(hs: &Vec<MapHighlight>, id: &String) -> (r: bool)
    ensures
        r == has_highlight(highlight_views(hs@), id@),
{
    let mut k: usize = 0;
    while k < hs.len()
        invariant
            k <= hs.len(),
            forall|j: int| 0 <= j < k ==> (#[trigger] highlight_views(hs@)[j]).id != id@,
        decreases hs.len() - k,
    {
        if hs[k].id == *id {
            assert(highlight_views(hs@)[k as int].id == id@);
            return true;
        }
        k += 1;
    }
    false
}

/// Gathers the highlights that a week calls for.
pub fn highlights_for(week: &Week, config: &Config) -> (hs: Vec<MapHighlight>)
    ensures
        highlight_views(hs@) == week_highlights(week@, *config),
{
    let mut hs: Vec<MapHighlight> = Vec::new();
    let mut i: usize = 0;
    assert(highlight_views(hs@) =~= Seq::<MapHighlightView>::empty());
    while i < week.lessons.len()
        invariant
            i <= week.lessons.len(),
            highlight_views(hs@) == highlights_of_first(week@.lessons, *config, i as nat),
        decreases week.lessons.len() - i,
    {
        assert(week@.lessons[i as int] == week.lessons@[i as int]@);
        match config.get_style_for_room(week.lessons[i].room.as_str()) {
            Some(mapping) => {
                if !highlights_hold(&hs, &mapping.map_id) {
                    let h = MapHighlight {
                        id: mapping.map_id.clone(),
                        color: mapping.bg_color.clone(),
                    };
                    proof {
                        assert(highlight_views(hs@.push(h)) =~= highlight_views(hs@).push(h@));
                    }
                    hs.push(h);
                }
            },
            None => {},
        }
        i += 1;
    }
    hs
}

/// A stretch of the map's bytes, from `start` up to `end`, and the bytes to
/// put in its place.
#[derive(Debug)]
pub struct Replacement {
    pub start: usize,
    pub end: usize,
    pub text: Vec<u8>,
}

/// What a `Replacement` holds.
pub struct ReplacementView {
    pub start: int,
    pub end: int,
    pub text: Seq<u8>,
}

impl View for Replacement {
    type V = ReplacementView;

    open spec fn view(&self) -> ReplacementView {
        ReplacementView { start: self.start as int, end: self.end as int, text: self.text@ }
    }
}

/// The views of a list of replacements.
pub open spec fn replacement_views(rs: Seq<Replacement>) -> Seq<ReplacementView> {
    rs.map_values(|r: Replacement| r@)
}

/// The views of a list of borrowed replacements.
pub open spec fn borrowed_replacement_views(rs: Seq<&Replacement>) -> Seq<ReplacementView> {
    rs.map_values(|r: &Replacement| r@)
}

/// The byte that closes a tag.
pub const TAG_CLOSE: u8 = 0x3e;

/// The bytes of a `fill` attribute for `color`: the word, an equals sign,
/// and the colour in double quotes.
pub open spec fn fill_attribute_bytes(color: Seq<char>) -> Seq<u8> {
    encode_utf8("fill=\""@ + color + "\""@)
}

/// The bytes of a `fill` attribute for `color`.
pub fn fill_attribute(color: &str) -> (r: Vec<u8>)
    ensures
        r@ == fill_attribute_bytes(color@),
{
    let mut s = "fill=\"".to_string();
    s.append(color);
    s.append("\"");
    s.as_str().as_bytes_vec()
}

/// The place of the first tag-closing byte at `from` or after it.
pub open spec fn tag_end(bytes: Seq<u8>, from: int) -> Option<int>
    decreases bytes.len() - from,
{
    if from < 0 || from >= bytes.len() {
        None
    } else if bytes[from] == TAG_CLOSE {
        Some(from)
    } else {
        tag_end(bytes, from + 1)
    }
}

/// Finds the first tag-closing byte at `from` or after it.
pub fn find_tag_end(bytes: &Vec<u8>, from: usize) -> (r: Option<usize>)
    ensures
        (match r {
            Some(e) => Some(e as int),
            None => None,
        }) == tag_end(bytes@, from as int),
        r is Some ==> from <= r->0 < bytes.len(),
{
    let mut i: usize = from;
    while i < bytes.len()
        invariant
            from <= i,
            tag_end(bytes@, from as int) == tag_end(bytes@, i as int),
        decreases bytes.len() - i,
    {
        if bytes[i] == TAG_CLOSE {
            return Some(i);
        }
        i += 1;
    }
    None
}

/// The replacement that recolours the element whose opening tag begins at
/// `from`: the tag reaches up to the first tag-closing byte, and the first
/// `fill` attribute in it gives way to one with `color`. There is none when
/// the tag is not closed, is not valid UTF-8, or has no `fill` attribute.
pub open spec fn planned_fill(bytes: Seq<u8>, from: int, color: Seq<char>) -> Option<
    ReplacementView,
> {
    match tag_end(bytes, from) {
        None => None,
        Some(e) => {
            let tag = bytes.subrange(from, e + 1);
            if valid_utf8(tag) {
                match regex_find(FILL_PATTERN@, decode_utf8(tag)) {
                    Some(span) => Some(
                        ReplacementView {
                            start: from + span.0,
                            end: from + span.1,
                            text: fill_attribute_bytes(color),
                        },
                    ),
                    None => None,
                }
            } else {
                None
            }
        },
    }
}

/// What an optional replacement holds.
pub open spec fn opt_replacement_view(r: Option<Replacement>) -> Option<ReplacementView> {
    match r {
        Some(v) => Some(v@),
        None => None,
    }
}

/// Plans the replacement that recolours the element whose opening tag begins
/// at `from`.
pub fn plan_fill(bytes: &Vec<u8>, from: usize, color: &str) -> (r: Option<Replacement>)
    ensures
        opt_replacement_view(r) == planned_fill(bytes@, from as int, color@),
        r is Some ==> r->0.start <= r->0.end <= bytes.len(),
{
    let e = match find_tag_end(bytes, from) {
        Some(e) => e,
        None => {
            return None;
        },
    };
    let mut tag: Vec<u8> = Vec::new();
    let mut i: usize = from;
    while i <= e
        invariant
            from <= i <= e + 1,
            e < bytes.len(),
            tag@ == bytes@.subrange(from as int, i as int),
        decreases e + 1 - i,
    {
        tag.push(bytes[i]);
        assert(tag@ =~= bytes@.subrange(from as int, i + 1));
        i += 1;
    }
    let text = match string_from_utf8(&tag) {
        Some(text) => text,
        None => {
            return None;
        },
    };
    proof {
        decode_utf8_encode_utf8(tag@);
    }
    match find_span(FILL_PATTERN, text.as_str()) {
        Some((start, end)) => Some(
            Replacement { start: from + start, end: from + end, text: fill_attribute(color) },
        ),
        None => None,
    }
}

/// The keys that put replacements in descending order of their starts.
pub open spec fn start_keys(rs: Seq<ReplacementView>) -> Seq<(int, int)> {
    rs.map_values(|r: ReplacementView| (-r.start, 0int))
}

/// The replacements in descending order of their starts; those with the
/// same start keep their order.
pub open spec fn by_descending_start(rs: Seq<ReplacementView>) -> Seq<ReplacementView> {
    stable_order(start_keys(rs)).map_values(|i: int| rs[i])
}

/// The replacements without those that start where the one before them
/// starts.
pub open spec fn without_repeats(rs: Seq<ReplacementView>) -> Seq<ReplacementView>
    decreases rs.len(),
{
    if rs.len() == 0 {
        Seq::empty()
    } else {
        let before = without_repeats(rs.drop_last());
        if rs.len() > 1 && rs[rs.len() - 2].start == rs.last().start {
            before
        } else {
            before.push(rs.last())
        }
    }
}

/// The replacements in the order in which they are made: from the end of
/// the map toward its beginning, and for each start only the replacement
/// that was planned first.
pub open spec fn in_working_order(rs: Seq<ReplacementView>) -> Seq<ReplacementView> {
    without_repeats(by_descending_start(rs))
}

/// Puts the replacements in the order in which they are made.
pub fn order_replacements<'a>(planned: &'a Vec<Replacement>) -> (ordered: Vec<&'a Replacement>)
    ensures
        borrowed_replacement_views(ordered@) == in_working_order(replacement_views(planned@)),
{
    let ghost views = replacement_views(planned@);
    let mut keys: Vec<(i128, i128)> = Vec::new();
    let mut i: usize = 0;
    while i < planned.len()
        invariant
            i <= planned.len(),
            keys.len() == i,
            forall|j: int|
                0 <= j < i ==> (#[trigger] keys@[j]).0 == -(planned@[j].start as int)
                    && keys@[j].1 == 0,
        decreases planned.len() - i,
    {
        keys.push((-(planned[i].start as i128), 0));
        i += 1;
    }
    assert(key_views(keys@) =~= start_keys(views));
    let order = sort_positions(&keys);
    let ghost sorted = by_descending_start(views);
    assert(sorted.len() == planned.len());
    let mut ordered: Vec<&Replacement> = Vec::new();
    let mut k: usize = 0;
    while k < order.len()
        invariant
            k <= order.len(),
            order.len() == planned.len(),
            views == replacement_views(planned@),
            sorted == by_descending_start(views),
            position_views(order@) == stable_order(start_keys(views)),
            forall|j: int| 0 <= j < order.len() ==> order@[j] < planned.len(),
            borrowed_replacement_views(ordered@) == without_repeats(sorted.take(k as int)),
        decreases order.len() - k,
    {
        let r = &planned[order[k]];
        proof {
            assert(sorted.take(k + 1).drop_last() =~= sorted.take(k as int));
            assert(position_views(order@)[k as int] == order@[k as int] as int);
            assert(sorted.take(k + 1).last() == r@);
            if k > 0 {
                assert(position_views(order@)[k - 1] == order@[k - 1] as int);
                assert(sorted.take(k + 1)[k - 1] == planned@[order@[k - 1] as int]@);
            }
            assert(borrowed_replacement_views(ordered@.push(r)) =~= borrowed_replacement_views(
                ordered@,
            ).push(r@));
        }
        if !(k > 0 && planned[order[k - 1]].start == r.start) {
            ordered.push(r);
        }
        k += 1;
    }
    assert(sorted.take(k as int) =~= sorted);
    ordered
}

/// The bytes with replacement `r` made, if it lies within them: what stands
/// from `start` up to `end` gives way to the replacement's bytes. A
/// replacement that ends before it starts, or beyond the bytes, is not made.
pub open spec fn spliced(bytes: Seq<u8>, r: ReplacementView) -> Seq<u8> {
    if r.start <= r.end <= bytes.len() {
        bytes.subrange(0, r.start) + r.text + bytes.subrange(r.end, bytes.len() as int)
    } else {
        bytes
    }
}

/// The bytes with the replacements `rs` made one after the other.
pub open spec fn all_spliced(bytes: Seq<u8>, rs: Seq<ReplacementView>) -> Seq<u8>
    decreases rs.len(),
{
    if rs.len() == 0 {
        bytes
    } else {
        spliced(all_spliced(bytes, rs.drop_last()), rs.last())
    }
}

/// Makes one replacement, if it lies within the bytes.
pub fn splice(bytes: Vec<u8>, r: &Replacement) -> (out: Vec<u8>)
    ensures
        out@ == spliced(bytes@, r@),
{
    if !(r.start <= r.end && r.end <= bytes.len()) {
        return bytes;
    }
    let mut out: Vec<u8> = Vec::new();
    let mut i: usize = 0;
    while i < r.start
        invariant
            i <= r.start <= r.end <= bytes.len(),
            out@ == bytes@.subrange(0, i as int),
        decreases r.start - i,
    {
        out.push(bytes[i]);
        assert(out@ =~= bytes@.subrange(0, i + 1));
        i += 1;
    }
    let mut j: usize = 0;
    while j < r.text.len()
        invariant
            j <= r.text.len(),
            out@ == bytes@.subrange(0, r.start as int) + r.text@.subrange(0, j as int),
        decreases r.text.len() - j,
    {
        out.push(r.text[j]);
        assert(out@ =~= bytes@.subrange(0, r.start as int) + r.text@.subrange(0, j + 1));
        j += 1;
    }
    assert(r.text@.subrange(0, r.text.len() as int) =~= r.text@);
    let mut k: usize = r.end;
    while k < bytes.len()
        invariant
            r.end <= k <= bytes.len(),
            out@ == bytes@.subrange(0, r.start as int) + r.text@ + bytes@.subrange(
                r.end as int,
                k as int,
            ),
        decreases bytes.len() - k,
    {
        out.push(bytes[k]);
        assert(out@ =~= bytes@.subrange(0, r.start as int) + r.text@ + bytes@.subrange(
            r.end as int,
            k + 1,
        ));
        k += 1;
    }
    out
}

/// Makes the replacements one after the other.
pub fn apply_replacements(bytes: Vec<u8>, rs: &Vec<&Replacement>) -> (out: Vec<u8>)
    ensures
        out@ == all_spliced(bytes@, borrowed_replacement_views(rs@)),
{
    let ghost views = borrowed_replacement_views(rs@);
    let ghost input = bytes@;
    let mut out = bytes;
    let mut i: usize = 0;
    while i < rs.len()
        invariant
            i <= rs.len(),
            views == borrowed_replacement_views(rs@),
            out@ == all_spliced(input, views.take(i as int)),
        decreases rs.len() - i,
    {
        proof {
            assert(views.take(i + 1).drop_last() =~= views.take(i as int));
            assert(views.take(i + 1).last() == rs@[i as int]@);
        }
        out = splice(out, rs[i]);
        i += 1;
    }
    assert(views.take(i as int) =~= views);
    out
}

/// The replacements planned for one department: one for each of its
/// elements, given by the start of its opening tag, that has a `fill`
/// attribute to replace.
pub open spec fn planned_for(bytes: Seq<u8>, color: Seq<char>, starts: Seq<usize>) -> Seq<
    ReplacementView,
>
    decreases starts.len(),
{
    if starts.len() == 0 {
        Seq::empty()
    } else {
        let before = planned_for(bytes, color, starts.drop_last());
        match planned_fill(bytes, starts.last() as int, color) {
            Some(r) => before.push(r),
            None => before,
        }
    }
}

/// The elements of department `i`; a department beyond the list has none.
pub open spec fn elements_of(elements: Seq<Seq<usize>>, i: int) -> Seq<usize> {
    if 0 <= i < elements.len() {
        elements[i]
    } else {
        Seq::empty()
    }
}

/// What a list of lists of starts holds.
pub open spec fn starts_views(elements: Seq<Vec<usize>>) -> Seq<Seq<usize>> {
    elements.map_values(|starts: Vec<usize>| starts@)
}

/// The replacements planned for the first `n` departments, department after
/// department.
pub open spec fn planned_all(
    bytes: Seq<u8>,
    highlights: Seq<MapHighlight>,
    elements: Seq<Seq<usize>>,
    n: nat,
) -> Seq<ReplacementView>
    decreases n,
{
    if n == 0 || n > highlights.len() {
        Seq::empty()
    } else {
        planned_all(bytes, highlights, elements, (n - 1) as nat) + planned_for(
            bytes,
            highlights[n - 1].color@,
            elements_of(elements, n - 1),
        )
    }
}

/// The map with every department highlighted.
pub open spec fn highlighted(
    bytes: Seq<u8>,
    highlights: Seq<MapHighlight>,
    elements: Seq<Seq<usize>>,
) -> Seq<u8> {
    all_spliced(
        bytes,
        in_working_order(planned_all(bytes, highlights, elements, highlights.len())),
    )
}

/// Highlights the departments on the map. `elements` lists, for each
/// department in turn, where the opening tags of its elements begin.
pub fn highlight_map(
    content: &Vec<u8>,
    highlights: &Vec<MapHighlight>,
    elements: &Vec<Vec<usize>>,
) -> (out: Vec<u8>)
    ensures
        out@ == highlighted(content@, highlights@, starts_views(elements@)),
{
    let ghost lists = starts_views(elements@);
    let mut planned: Vec<Replacement> = Vec::new();
    let mut h: usize = 0;
    assert(replacement_views(planned@) =~= Seq::<ReplacementView>::empty());
    while h < highlights.len()
        invariant
            h <= highlights.len(),
            lists == starts_views(elements@),
            replacement_views(planned@) == planned_all(content@, highlights@, lists, h as nat),
        decreases highlights.len() - h,
    {
        let ghost start = replacement_views(planned@);
        if h < elements.len() {
            let starts = &elements[h];
            assert(elements_of(lists, h as int) == starts@);
            let mut e: usize = 0;
            while e < starts.len()
                invariant
                    e <= starts.len(),
                    h < highlights.len(),
                    replacement_views(planned@) == start + planned_for(
                        content@,
                        highlights@[h as int].color@,
                        starts@.take(e as int),
                    ),
                decreases starts.len() - e,
            {
                proof {
                    assert(starts@.take(e + 1).drop_last() =~= starts@.take(e as int));
                    assert(starts@.take(e + 1).last() == starts@[e as int]);
                }
                let ghost before = replacement_views(planned@);
                match plan_fill(content, starts[e], highlights[h].color.as_str()) {
                    Some(r) => {
                        proof {
                            assert(replacement_views(planned@.push(r)) =~= before.push(r@));
                            assert(before.push(r@) =~= start + planned_for(
                                content@,
                                highlights@[h as int].color@,
                                starts@.take(e as int),
                            ).push(r@));
                        }
                        planned.push(r);
                    },
                    None => {},
                }
                e += 1;
            }
            assert(starts@.take(e as int) =~= starts@);
        } else {
            assert(start + Seq::<ReplacementView>::empty() =~= start);
        }
        h += 1;
    }
    let ordered = order_replacements(&planned);
    let mut bytes: Vec<u8> = Vec::new();
    let mut i: usize = 0;
    while i < content.len()
        invariant
            i <= content.len(),
            bytes@ == content@.take(i as int),
        decreases content.len() - i,
    {
        bytes.push(content[i]);
        assert(bytes@ =~= content@.take(i + 1));
        i += 1;
    }
    assert(content@.take(content.len() as int) =~= content@);
    apply_replacements(bytes, &ordered)
}

/// A node of the map, as its XML gives it.
#[derive(Debug)]
pub struct MapNode {
    /// Where the node begins in the bytes of the map.
    pub start: usize,
    /// How many nodes the node's subtree holds, the node itself among them.
    pub subtree: usize,
    /// The node's attributes in the order in which they are written, each
    /// with its name, without prefix, and its value.
    pub attributes: Vec<(String, String)>,
}

/// What a `MapNode` holds.
pub struct MapNodeView {
    pub start: usize,
    pub subtree: usize,
    pub attributes: Seq<(Seq<char>, Seq<char>)>,
}

/// What a list of attributes holds.
pub open spec fn attribute_views(attributes: Seq<(String, String)>) -> Seq<(Seq<char>, Seq<char>)> {
    attributes.map_values(|a: (String, String)| (a.0@, a.1@))
}

impl View for MapNode {
    type V = MapNodeView;

    open spec fn view(&self) -> MapNodeView {
        MapNodeView {
            start: self.start,
            subtree: self.subtree,
            attributes: attribute_views(self.attributes@),
        }
    }
}

/// The views of a list of nodes.
pub open spec fn node_views(nodes: Seq<MapNode>) -> Seq<MapNodeView> {
    nodes.map_values(|n: MapNode| n@)
}

/// The error with which `roxmltree` rejects a text.
#[verifier::external_type_specification]
#[verifier::external_body]
pub struct ExXmlError(roxmltree::Error);

/// Why a map could not be highlighted.
#[derive(Debug)]
pub enum MapError {
    /// The map is not well-formed XML.
    Xml(roxmltree::Error),
    /// A replacement cut a character in two: the result is no text.
    Encoding,
}

/// The nodes of the XML text `content` in document order, as `roxmltree`
/// reads them; `None` when it rejects the text.
pub uninterp spec fn xml_nodes(content: Seq<char>) -> Option<Seq<MapNodeView>>;

/// What the outcome of reading a map holds.
pub open spec fn parsed_view(r: Result<Vec<MapNode>, roxmltree::Error>) -> Option<Seq<MapNodeView>> {
    match r {
        Ok(nodes) => Some(node_views(nodes@)),
        Err(_) => None,
    }
}

/// Reads `content` with `roxmltree::Document::parse` and lists what
/// `Document::descendants` yields: of each node where `Node::range` begins,
/// how many nodes `Node::descendants` yields for it, and for each of its
/// `Node::attributes` the `Attribute::name` and `Attribute::value`. The
/// contract only names the answer.
#[verifier::external_body]
pub(crate) fn parse_nodes(content: &str) -> (r: Result<Vec<MapNode>, roxmltree::Error>)
    ensures
        parsed_view(r) == xml_nodes(content@),
{
    let doc = roxmltree::Document::parse(content)?;
    Ok(
        doc.descendants().map(
            |n|
                MapNode {
                    start: n.range().start,
                    subtree: n.descendants().count(),
                    attributes: n.attributes().map(
                        |a| (a.name().to_string(), a.value().to_string()),
                    ).collect(),
                },
        ).collect(),
    )
}

/// The value of the first attribute called `name`.
pub open spec fn attribute_value(
    attributes: Seq<(Seq<char>, Seq<char>)>,
    name: Seq<char>,
) -> Option<Seq<char>>
    decreases attributes.len(),
{
    if attributes.len() == 0 {
        None
    } else if attributes[0].0 == name {
        Some(attributes[0].1)
    } else {
        attribute_value(attributes.drop_first(), name)
    }
}

/// Whether a node goes by the name `id`: as its `id` or as its `data-name`.
pub open spec fn names_node(node: MapNodeView, id: Seq<char>) -> bool {
    attribute_value(node.attributes, "id"@) == Some(id) || attribute_value(
        node.attributes,
        "data-name"@,
    ) == Some(id)
}

/// Whether a node has a `fill` attribute.
pub open spec fn has_fill(node: MapNodeView) -> bool {
    attribute_value(node.attributes, "fill"@) is Some
}

/// The value of the node's first attribute called `name`.
pub fn attribute<'a>(node: &'a MapNode, name: &str) -> (r: Option<&'a String>)
    ensures
        (match r {
            Some(v) => Some(v@),
            None => None,
        }) == attribute_value(node@.attributes, name@),
{
    let ghost views = node@.attributes;
    let mut i: usize = 0;
    assert(views.skip(0) =~= views);
    while i < node.attributes.len()
        invariant
            i <= node.attributes.len(),
            views == node@.attributes,
            attribute_value(views, name@) == attribute_value(views.skip(i as int), name@),
        decreases node.attributes.len() - i,
    {
        proof {
            assert(views.skip(i as int)[0] == views[i as int]);
            assert(views.skip(i as int).drop_first() =~= views.skip(i + 1));
        }
        if same_str(node.attributes[i].0.as_str(), name) {
            return Some(&node.attributes[i].1);
        }
        i += 1;
    }
    None
}

/// Whether a node goes by the name `id`.
pub fn is_named(node: &MapNode, id: &String) -> (r: bool)
    ensures
        r == names_node(node@, id@),
{
    is_text(attribute(node, "id"), id) || is_text(attribute(node, "data-name"), id)
}

/// The position of the first node that goes by the name `id`.
pub open spec fn first_named_node(nodes: Seq<MapNodeView>, id: Seq<char>) -> Option<int>
    decreases nodes.len(),
{
    if nodes.len() == 0 {
        None
    } else {
        match first_named_node(nodes.drop_last(), id) {
            Some(i) => Some(i),
            None => if names_node(nodes.last(), id) {
                Some(nodes.len() - 1)
            } else {
                None
            },
        }
    }
}

/// Where the subtree of node `i` ends: behind as many nodes as it holds, or
/// at the end of the list if that comes first.
pub open spec fn subtree_end(nodes: Seq<MapNodeView>, i: int) -> int {
    if i + nodes[i].subtree <= nodes.len() {
        i + nodes[i].subtree
    } else {
        nodes.len() as int
    }
}

/// The starts of the nodes from `from` up to `to` that have a `fill`
/// attribute.
pub open spec fn fill_starts(nodes: Seq<MapNodeView>, from: int, to: int) -> Seq<usize>
    decreases to - from,
{
    if to <= from {
        Seq::empty()
    } else {
        let before = fill_starts(nodes, from, to - 1);
        if has_fill(nodes[to - 1]) {
            before.push(nodes[to - 1].start)
        } else {
            before
        }
    }
}

/// The elements of the department that goes by the name `id`: the first
/// node of that name and everything in its subtree, as far as it has a
/// `fill` attribute.
pub open spec fn element_starts(nodes: Seq<MapNodeView>, id: Seq<char>) -> Seq<usize> {
    match first_named_node(nodes, id) {
        Some(i) => fill_starts(nodes, i, subtree_end(nodes, i)),
        None => Seq::empty(),
    }
}

/// The elements of every department, in the order of the departments.
pub open spec fn elements_for(nodes: Seq<MapNodeView>, highlights: Seq<MapHighlight>) -> Seq<
    Seq<usize>,
> {
    Seq::new(highlights.len(), |h: int| element_starts(nodes, highlights[h].id@))
}

/// Whether `value` is the text `id`.
fn is_text(value: Option<&String>, id: &String) -> (r: bool)
    ensures
        r == ((match value {
            Some(v) => Some(v@),
            None => None,
        }) == Some(id@)),
{
    match value {
        Some(v) => *v == *id,
        None => false,
    }
}

/// Once a node of the name has been found, later nodes do not change the
/// answer.
proof fn lemma_first_named_node_settled(nodes: Seq<MapNodeView>, id: Seq<char>, i: int)
    requires
        0 <= i <= nodes.len(),
        first_named_node(nodes.take(i), id) is Some,
    ensures
        first_named_node(nodes, id) == first_named_node(nodes.take(i), id),
    decreases nodes.len() - i,
{
    if i < nodes.len() {
        assert(nodes.take(i + 1).drop_last() =~= nodes.take(i));
        lemma_first_named_node_settled(nodes, id, i + 1);
    } else {
        assert(nodes.take(i) =~= nodes);
    }
}

/// Finds the elements of the department that goes by the name `id`.
pub fn find_element_starts(nodes: &Vec<MapNode>, id: &String) -> (starts: Vec<usize>)
    ensures
        starts@ == element_starts(node_views(nodes@), id@),
{
    let ghost views = node_views(nodes@);
    let mut starts: Vec<usize> = Vec::new();
    let mut i: usize = 0;
    while i < nodes.len()
        invariant
            i <= nodes.len(),
            views == node_views(nodes@),
            starts@ == Seq::<usize>::empty(),
            first_named_node(views.take(i as int), id@) is None,
        decreases nodes.len() - i,
    {
        proof {
            assert(views.take(i + 1).drop_last() =~= views.take(i as int));
            assert(views.take(i + 1).last() == nodes@[i as int]@);
        }
        if is_named(&nodes[i], id) {
            proof {
                lemma_first_named_node_settled(views, id@, i + 1);
            }
            let end: usize = if nodes[i].subtree <= nodes.len() - i {
                i + nodes[i].subtree
            } else {
                nodes.len()
            };
            let mut k: usize = i;
            while k < end
                invariant
                    i <= k <= end <= nodes.len(),
                    views == node_views(nodes@),
                    starts@ == fill_starts(views, i as int, k as int),
                decreases end - k,
            {
                if attribute(&nodes[k], "fill").is_some() {
                    starts.push(nodes[k].start);
                }
                k += 1;
            }
            return starts;
        }
        i += 1;
    }
    assert(views.take(i as int) =~= views);
    starts
}

/// Finds the elements of every department.
pub fn find_elements(nodes: &Vec<MapNode>, highlights: &Vec<MapHighlight>) -> (elements: Vec<
    Vec<usize>,
>)
    ensures
        starts_views(elements@) == elements_for(node_views(nodes@), highlights@),
{
    let mut elements: Vec<Vec<usize>> = Vec::new();
    let mut h: usize = 0;
    while h < highlights.len()
        invariant
            h <= highlights.len(),
            elements.len() == h,
            forall|j: int|
                0 <= j < h ==> (#[trigger] elements@[j])@ == element_starts(
                    node_views(nodes@),
                    highlights@[j].id@,
                ),
        decreases highlights.len() - h,
    {
        elements.push(find_element_starts(nodes, &highlights[h].id));
        h += 1;
    }
    assert(starts_views(elements@) =~= elements_for(node_views(nodes@), highlights@));
    elements
}

/// The bytes of the map `content` with every department highlighted, the
/// nodes of the map being `nodes`.
pub open spec fn processed_map(
    content: Seq<char>,
    nodes: Seq<MapNodeView>,
    highlights: Seq<MapHighlight>,
) -> Seq<u8> {
    highlighted(encode_utf8(content), highlights, elements_for(nodes, highlights))
}

/// Highlights the departments on the map `content`. The map is read as XML;
/// for each department, the first node that goes by its name is looked up,
/// and the `fill` attribute of every node in that node's subtree gives way
/// to the department's colour. The result is an error when the map is not
/// well-formed XML, or when the replacements leave bytes that are no text.
pub fn process_map_text(content: &str, highlights: &Vec<MapHighlight>) -> (r: Result<
    String,
    MapError,
>)
    ensures
        match xml_nodes(content@) {
            None => r is Err && r->Err_0 is Xml,
            Some(nodes) => {
                let out = processed_map(content@, nodes, highlights@);
                if valid_utf8(out) {
                    r is Ok && r->Ok_0@ == decode_utf8(out)
                } else {
                    r is Err && r->Err_0 is Encoding
                }
            },
        },
{
    let nodes = match parse_nodes(content) {
        Ok(nodes) => nodes,
        Err(e) => {
            return Err(MapError::Xml(e));
        },
    };
    let elements = find_elements(&nodes, highlights);
    let out = highlight_map(&content.as_bytes_vec(), highlights, &elements);
    match string_from_utf8(&out) {
        Some(text) => Ok(text),
        None => Err(MapError::Encoding),
    }
}

} // verus!
