//! Parting the tokens of a page into weeks: every week header opens a band
//! of the page that reaches to the next header, and each band is read as a
//! week of its own.

use crate::extract::{extract_text_from_page, extracted, Operation};
use crate::grid::{lemma_week_lessons_in_grid, lessons_from_tokens, week_lessons};
use crate::lesson::borrow_all;
use crate::order::{
    key_views, lemma_stable_order_sorts, position_views, sort_positions, stable_order,
};
use crate::parser::{
    in_grid, item_views, owned_item_views, week_views, TextItem, TextItemView, Week, WeekView,
};
use crate::student::{student_from_tokens, student_info};
use crate::text::{from_chars, to_chars};
use crate::token::{annotate_all, annotations, token_views, Token, TokenView};
use vstd::prelude::*;

verus! {

/// The positions of the tokens that hold a week header, in ascending order.
pub open spec fn header_positions(tokens: Seq<TokenView>) -> Seq<int>
    decreases tokens.len(),
{
    if tokens.len() == 0 {
        Seq::empty()
    } else {
        let before = header_positions(tokens.drop_last());
        if tokens.last().week is Some {
            before.push(tokens.len() - 1)
        } else {
            before
        }
    }
}

/// The number of the week that token `t` announces; 0 when it announces none.
pub open spec fn header_number(t: TokenView) -> int {
    match t.week {
        Some(h) => h.number,
        None => 0,
    }
}

/// The name of the week that token `t` announces; "Unknown Week" when it
/// announces none.
pub open spec fn header_name(t: TokenView) -> Seq<char> {
    match t.week {
        Some(h) => h.name,
        None => "Unknown Week"@,
    }
}

/// The keys by which the headers at `positions` are ordered: their week
/// numbers.
pub open spec fn header_keys(tokens: Seq<TokenView>, positions: Seq<int>) -> Seq<(int, int)> {
    positions.map_values(|p: int| (header_number(tokens[p]), 0int))
}

/// The positions of the week headers in ascending order of their week
/// numbers, whatever their place on the page; headers with the same number
/// keep the order of the page.
pub open spec fn week_headers(tokens: Seq<TokenView>) -> Seq<int> {
    let positions = header_positions(tokens);
    stable_order(header_keys(tokens, positions)).map_values(|i: int| positions[i])
}

/// How many tokens have a `y` greater than `y`.
pub open spec fn count_beyond(tokens: Seq<TokenView>, y: int) -> nat
    decreases tokens.len(),
{
    if tokens.len() == 0 {
        0
    } else {
        count_beyond(tokens.drop_last(), y) + if tokens.last().y > y {
            1nat
        } else {
            0nat
        }
    }
}

/// How many tokens have a `y` less than `y`.
pub open spec fn count_short_of(tokens: Seq<TokenView>, y: int) -> nat
    decreases tokens.len(),
{
    if tokens.len() == 0 {
        0
    } else {
        count_short_of(tokens.drop_last(), y) + if tokens.last().y < y {
            1nat
        } else {
            0nat
        }
    }
}

/// Whether `y` grows down the page. Two headers or more decide by the first
/// two: the second week lies below the first. A single header decides by
/// majority: more tokens have a greater `y` than a smaller one.
pub open spec fn reads_downward(tokens: Seq<TokenView>, headers: Seq<int>) -> bool {
    if headers.len() > 1 {
        tokens[headers[1]].y > tokens[headers[0]].y
    } else {
        let y = tokens[headers[0]].y;
        count_beyond(tokens, y) > count_short_of(tokens, y)
    }
}

/// Whether a token at height `y` belongs to the week whose header stands at
/// `start` and whose successor's header stands at `end`; the last week has
/// no end. The header's own line belongs to the week, the next header's line
/// does not.
pub open spec fn in_week(y: int, start: int, end: Option<int>, downward: bool) -> bool {
    if downward {
        start <= y && (end is Some ==> y < end->0)
    } else {
        y <= start && (end is Some ==> y > end->0)
    }
}

/// The tokens of one week, in the order of the page.
pub open spec fn week_tokens(
    tokens: Seq<TokenView>,
    start: int,
    end: Option<int>,
    downward: bool,
) -> Seq<TokenView>
    decreases tokens.len(),
{
    if tokens.len() == 0 {
        Seq::empty()
    } else {
        let before = week_tokens(tokens.drop_last(), start, end, downward);
        if in_week(tokens.last().y, start, end, downward) {
            before.push(tokens.last())
        } else {
            before
        }
    }
}

/// Where the week of header `i` ends: at the next header, if there is one.
pub open spec fn week_end(tokens: Seq<TokenView>, headers: Seq<int>, i: int) -> Option<int> {
    if i + 1 < headers.len() {
        Some(tokens[headers[i + 1]].y)
    } else {
        None
    }
}

/// The week of header `i`; none when its band holds no lesson.
pub open spec fn week_at(
    tokens: Seq<TokenView>,
    headers: Seq<int>,
    downward: bool,
    i: int,
) -> Option<WeekView> {
    let header = tokens[headers[i]];
    let members = week_tokens(tokens, header.y, week_end(tokens, headers, i), downward);
    let lessons = week_lessons(members);
    if lessons.len() == 0 {
        None
    } else {
        let info = student_info(members);
        Some(
            WeekView {
                lessons,
                week_name: header_name(header),
                student_name: info.0,
                form: info.1,
            },
        )
    }
}

/// The weeks of the first `n` headers, in the order of the headers.
pub open spec fn weeks_of_first(
    tokens: Seq<TokenView>,
    headers: Seq<int>,
    downward: bool,
    n: nat,
) -> Seq<WeekView>
    decreases n,
{
    if n == 0 {
        Seq::empty()
    } else {
        let before = weeks_of_first(tokens, headers, downward, (n - 1) as nat);
        match week_at(tokens, headers, downward, n - 1) {
            Some(week) => before.push(week),
            None => before,
        }
    }
}

/// The weeks of a page: one for every week header whose band holds a lesson,
/// in ascending order of the week numbers.
pub open spec fn page_weeks(tokens: Seq<TokenView>) -> Seq<WeekView> {
    let headers = week_headers(tokens);
    if headers.len() == 0 {
        Seq::empty()
    } else {
        weeks_of_first(tokens, headers, reads_downward(tokens, headers), headers.len())
    }
}

/// The number of the week that token `t` announces; 0 when it announces none.
pub fn announced_number(t: &Token) -> (n: u32)
    ensures
        n == header_number(t@),
{
    match &t.week {
        Some(h) => h.number,
        None => 0,
    }
}

/// Finds the week headers and puts them in ascending order of their week
/// numbers.
pub fn find_week_headers(tokens: &Vec<&Token>) -> (headers: Vec<usize>)
    ensures
        position_views(headers@) == week_headers(token_views(tokens@)),
        forall|i: int| 0 <= i < headers.len() ==> headers@[i] < tokens.len(),
{
    let ghost views = token_views(tokens@);
    let mut positions: Vec<usize> = Vec::new();
    let mut keys: Vec<(i128, i128)> = Vec::new();
    let mut i: usize = 0;
    while i < tokens.len()
        invariant
            i <= tokens.len(),
            views == token_views(tokens@),
            position_views(positions@) == header_positions(views.take(i as int)),
            forall|j: int| 0 <= j < positions.len() ==> positions@[j] < i,
            keys.len() == positions.len(),
            forall|j: int|
                0 <= j < keys.len() ==> #[trigger] keys@[j] == (
                    header_number(views[positions@[j] as int]) as i128,
                    0i128,
                ),
        decreases tokens.len() - i,
    {
        proof {
            assert(views.take(i + 1).drop_last() =~= views.take(i as int));
            assert(views.take(i + 1).last() == tokens@[i as int]@);
            assert(position_views(positions@.push(i)) =~= position_views(positions@).push(
                i as int,
            ));
        }
        if tokens[i].week.is_some() {
            positions.push(i);
            keys.push((announced_number(tokens[i]) as i128, 0));
        }
        i += 1;
    }
    assert(views.take(i as int) =~= views);
    assert(key_views(keys@) =~= header_keys(views, position_views(positions@)));
    let order = sort_positions(&keys);
    let mut headers: Vec<usize> = Vec::new();
    let mut k: usize = 0;
    while k < order.len()
        invariant
            k <= order.len(),
            order.len() == positions.len(),
            headers.len() == k,
            forall|j: int| 0 <= j < order.len() ==> order@[j] < positions.len(),
            forall|j: int| 0 <= j < positions.len() ==> positions@[j] < tokens.len(),
            forall|j: int| 0 <= j < k ==> #[trigger] headers@[j] == positions@[order@[j] as int],
        decreases order.len() - k,
    {
        headers.push(positions[order[k]]);
        k += 1;
    }
    proof {
        let o = stable_order(header_keys(views, position_views(positions@)));
        assert(o == position_views(order@));
        assert forall|j: int| 0 <= j < headers.len() implies position_views(headers@)[j]
            == week_headers(views)[j] by {
            assert(o[j] == order@[j] as int);
        }
        assert(position_views(headers@) =~= week_headers(views));
    }
    headers
}

/// Whether `y` grows down the page, judged by a single header at height `y`.
fn majority_beyond(tokens: &Vec<&Token>, y: i64) -> (r: bool)
    ensures
        r == (count_beyond(token_views(tokens@), y as int) > count_short_of(
            token_views(tokens@),
            y as int,
        )),
{
    let ghost views = token_views(tokens@);
    let mut beyond: usize = 0;
    let mut short: usize = 0;
    let mut i: usize = 0;
    while i < tokens.len()
        invariant
            i <= tokens.len(),
            views == token_views(tokens@),
            beyond == count_beyond(views.take(i as int), y as int),
            short == count_short_of(views.take(i as int), y as int),
            beyond + short <= i,
        decreases tokens.len() - i,
    {
        proof {
            assert(views.take(i + 1).drop_last() =~= views.take(i as int));
            assert(views.take(i + 1).last() == tokens@[i as int]@);
        }
        if tokens[i].y > y {
            beyond += 1;
        } else if tokens[i].y < y {
            short += 1;
        }
        i += 1;
    }
    assert(views.take(i as int) =~= views);
    beyond > short
}

/// Whether a token at height `y` belongs to the week between `start` and
/// `end`.
pub fn belongs_to_week(y: i64, start: i64, end: Option<i64>, downward: bool) -> (r: bool)
    ensures
        r == in_week(
            y as int,
            start as int,
            match end {
                Some(e) => Some(e as int),
                None => None,
            },
            downward,
        ),
{
    if downward {
        start <= y && match end {
            Some(e) => y < e,
            None => true,
        }
    } else {
        y <= start && match end {
            Some(e) => y > e,
            None => true,
        }
    }
}

/// The tokens of the week between `start` and `end`.
fn week_members<'a>(tokens: &Vec<&'a Token>, start: i64, end: Option<i64>, downward: bool) -> (members:
    Vec<&'a Token>)
    ensures
        token_views(members@) == week_tokens(
            token_views(tokens@),
            start as int,
            match end {
                Some(e) => Some(e as int),
                None => None,
            },
            downward,
        ),
{
    let ghost views = token_views(tokens@);
    let ghost end_view = match end {
        Some(e) => Some(e as int),
        None => None,
    };
    let mut members: Vec<&Token> = Vec::new();
    let mut i: usize = 0;
    while i < tokens.len()
        invariant
            i <= tokens.len(),
            views == token_views(tokens@),
            end_view == (match end {
                Some(e) => Some(e as int),
                None => None,
            }),
            token_views(members@) == week_tokens(
                views.take(i as int),
                start as int,
                end_view,
                downward,
            ),
        decreases tokens.len() - i,
    {
        proof {
            assert(views.take(i + 1).drop_last() =~= views.take(i as int));
            assert(views.take(i + 1).last() == tokens@[i as int]@);
            assert(token_views(members@.push(tokens@[i as int])) =~= token_views(members@).push(
                tokens@[i as int]@,
            ));
        }
        if belongs_to_week(tokens[i].y, start, end, downward) {
            members.push(tokens[i]);
        }
        i += 1;
    }
    assert(views.take(i as int) =~= views);
    members
}

/// What an optional week holds.
pub open spec fn opt_week_view(week: Option<Week>) -> Option<WeekView> {
    match week {
        Some(w) => Some(w@),
        None => None,
    }
}

/// Reads the week of header `i`; none when its band holds no lesson.
fn read_week(tokens: &Vec<&Token>, headers: &Vec<usize>, downward: bool, i: usize) -> (week: Option<
    Week,
>)
    requires
        i < headers.len(),
        forall|j: int| 0 <= j < headers.len() ==> headers@[j] < tokens.len(),
    ensures
        opt_week_view(week) == week_at(
            token_views(tokens@),
            position_views(headers@),
            downward,
            i as int,
        ),
{
    let header = tokens[headers[i]];
    let end = if i + 1 < headers.len() {
        Some(tokens[headers[i + 1]].y)
    } else {
        None
    };
    let members = week_members(tokens, header.y, end, downward);
    let lessons = lessons_from_tokens(&members);
    if lessons.len() == 0 {
        None
    } else {
        let info = student_from_tokens(&members);
        let week_name = match &header.week {
            Some(h) => from_chars(&h.name),
            None => from_chars(&to_chars("Unknown Week")),
        };
        Some(Week { lessons, week_name, student_name: info.0, form: info.1 })
    }
}

/// Whether every week holds a lesson and all its lessons lie in the grid.
pub open spec fn all_in_grid(weeks: Seq<WeekView>) -> bool {
    forall|i: int|
        0 <= i < weeks.len() ==> (#[trigger] weeks[i]).lessons.len() > 0 && in_grid(
            weeks[i].lessons,
        )
}

/// Reads the weeks of a page out of its tokens.
pub fn weeks_from_tokens(tokens: &Vec<&Token>) -> (weeks: Vec<Week>)
    ensures
        week_views(weeks@) == page_weeks(token_views(tokens@)),
        all_in_grid(week_views(weeks@)),
{
    let ghost views = token_views(tokens@);
    proof {
        lemma_page_weeks_in_grid(views);
    }
    let headers = find_week_headers(tokens);
    let mut weeks: Vec<Week> = Vec::new();
    if headers.len() == 0 {
        assert(week_views(weeks@) =~= Seq::<WeekView>::empty());
        return weeks;
    }
    let downward = if headers.len() > 1 {
        tokens[headers[1]].y > tokens[headers[0]].y
    } else {
        majority_beyond(tokens, tokens[headers[0]].y)
    };
    let ghost hv = position_views(headers@);
    assert(downward == reads_downward(views, hv));
    let mut i: usize = 0;
    while i < headers.len()
        invariant
            i <= headers.len(),
            views == token_views(tokens@),
            hv == position_views(headers@),
            forall|j: int| 0 <= j < headers.len() ==> headers@[j] < tokens.len(),
            week_views(weeks@) == weeks_of_first(views, hv, downward, i as nat),
        decreases headers.len() - i,
    {
        match read_week(tokens, &headers, downward, i) {
            Some(week) => {
                proof {
                    assert(week_views(weeks@.push(week)) =~= week_views(weeks@).push(week@));
                }
                weeks.push(week);
            },
            None => {},
        }
        i += 1;
    }
    weeks
}

/// Borrows every item of a list.
pub fn borrow_items<'a>(items: &'a Vec<TextItem>) -> (refs: Vec<&'a TextItem>)
    ensures
        item_views(refs@) == owned_item_views(items@),
{
    let mut refs: Vec<&TextItem> = Vec::new();
    let mut i: usize = 0;
    while i < items.len()
        invariant
            i <= items.len(),
            refs.len() == i,
            forall|j: int| 0 <= j < i ==> #[trigger] refs@[j] == items@[j],
        decreases items.len() - i,
    {
        refs.push(&items[i]);
        i += 1;
    }
    assert(item_views(refs@) =~= owned_item_views(items@));
    refs
}

/// Whether `weeks` is what a page with the text items `items` reads as.
pub open spec fn is_reading_of(items: Seq<TextItemView>, weeks: Seq<WeekView>) -> bool {
    weeks == page_weeks(annotations(items))
}

/// Reading a page is a function of its text items: two readings of the same
/// items hold the same weeks, in the same order, with the same fields.
pub proof fn lemma_reading_is_determined(
    items: Seq<TextItemView>,
    again: Seq<TextItemView>,
    weeks: Seq<WeekView>,
    weeks_again: Seq<WeekView>,
)
    requires
        items == again,
        is_reading_of(items, weeks),
        is_reading_of(again, weeks_again),
    ensures
        weeks == weeks_again,
{
}

/// Reads the weeks of a page out of its text items. The page number plays no
/// part in the result.
pub fn process_page_text(items: Vec<TextItem>, _page_num: u32) -> (weeks: Vec<Week>)
    ensures
        is_reading_of(owned_item_views(items@), week_views(weeks@)),
        all_in_grid(week_views(weeks@)),
{
    let tokens = annotate_all(&borrow_items(&items));
    weeks_from_tokens(&borrow_all(&tokens))
}

/// The weeks of a document: those of its pages, page after page. A page is
/// its number and its content operations.
pub open spec fn document_weeks(pages: Seq<(u32, Vec<Operation>)>) -> Seq<WeekView>
    decreases pages.len(),
{
    if pages.len() == 0 {
        Seq::empty()
    } else {
        document_weeks(pages.drop_last()) + page_weeks(annotations(extracted(pages.last().1@)))
    }
}

/// Reads the weeks of a document out of the content operations of its pages.
pub fn parse_pages(pages: &Vec<(u32, Vec<Operation>)>) -> (weeks: Vec<Week>)
    ensures
        week_views(weeks@) == document_weeks(pages@),
        all_in_grid(week_views(weeks@)),
{
    let mut weeks: Vec<Week> = Vec::new();
    let mut i: usize = 0;
    assert(week_views(weeks@) =~= Seq::<WeekView>::empty());
    while i < pages.len()
        invariant
            i <= pages.len(),
            week_views(weeks@) == document_weeks(pages@.take(i as int)),
            all_in_grid(week_views(weeks@)),
        decreases pages.len() - i,
    {
        proof {
            assert(pages@.take(i + 1).drop_last() =~= pages@.take(i as int));
            assert(pages@.take(i + 1).last() == pages@[i as int]);
        }
        let items = extract_text_from_page(&pages[i].1);
        let ghost before = weeks@;
        let mut found = process_page_text(items, pages[i].0);
        let ghost added = found@;
        weeks.append(&mut found);
        assert(week_views(before + added) =~= week_views(before) + week_views(added));
        assert forall|k: int| 0 <= k < weeks.len() implies (#[trigger] week_views(
            weeks@,
        )[k]).lessons.len() > 0 && in_grid(week_views(weeks@)[k].lessons) by {
            if k < before.len() {
                assert(week_views(weeks@)[k] == week_views(before)[k]);
            } else {
                assert(week_views(weeks@)[k] == week_views(added)[k - before.len()]);
            }
        }
        i += 1;
    }
    assert(pages@.take(i as int) =~= pages@);
    weeks
}

/// Every week of a page holds at least one lesson, and all its lessons lie
/// in the grid.
pub proof fn lemma_page_weeks_in_grid(tokens: Seq<TokenView>)
    ensures
        all_in_grid(page_weeks(tokens)),
{
    let headers = week_headers(tokens);
    if headers.len() > 0 {
        lemma_weeks_of_first_in_grid(
            tokens,
            headers,
            reads_downward(tokens, headers),
            headers.len(),
        );
    }
}

proof fn lemma_weeks_of_first_in_grid(
    tokens: Seq<TokenView>,
    headers: Seq<int>,
    downward: bool,
    n: nat,
)
    ensures
        all_in_grid(weeks_of_first(tokens, headers, downward, n)),
    decreases n,
{
    if n > 0 {
        lemma_weeks_of_first_in_grid(tokens, headers, downward, (n - 1) as nat);
        let header = tokens[headers[n - 1]];
        let members = week_tokens(tokens, header.y, week_end(tokens, headers, n - 1), downward);
        lemma_week_lessons_in_grid(members);
    }
}

/// Which of the first `n` headers give a week: those whose band holds a
/// lesson, in the order of the headers.
pub open spec fn kept_headers(
    tokens: Seq<TokenView>,
    headers: Seq<int>,
    downward: bool,
    n: nat,
) -> Seq<int>
    decreases n,
{
    if n == 0 {
        Seq::empty()
    } else {
        let before = kept_headers(tokens, headers, downward, (n - 1) as nat);
        if week_at(tokens, headers, downward, n - 1) is Some {
            before.push(n - 1)
        } else {
            before
        }
    }
}

/// Where the header of each week of a page stands among the tokens, week
/// after week.
pub open spec fn week_header_positions(tokens: Seq<TokenView>) -> Seq<int> {
    let headers = week_headers(tokens);
    if headers.len() == 0 {
        Seq::empty()
    } else {
        kept_headers(
            tokens,
            headers,
            reads_downward(tokens, headers),
            headers.len(),
        ).map_values(|i: int| headers[i])
    }
}

/// The weeks of a page come in ascending order of their week numbers,
/// wherever their headers stand on the page: every week is that of a header,
/// whose name it bears, and no week's header announces a lower number than
/// the header of the week before it.
pub proof fn lemma_weeks_ascending(tokens: Seq<TokenView>)
    ensures
        week_header_positions(tokens).len() == page_weeks(tokens).len(),
        forall|i: int|
            0 <= i < page_weeks(tokens).len() ==> {
                &&& 0 <= #[trigger] week_header_positions(tokens)[i] < tokens.len()
                &&& tokens[week_header_positions(tokens)[i]].week is Some
                &&& page_weeks(tokens)[i].week_name == header_name(
                    tokens[week_header_positions(tokens)[i]],
                )
            },
        forall|i: int, j: int|
            0 <= i < j < page_weeks(tokens).len() ==> header_number(
                tokens[#[trigger] week_header_positions(tokens)[i]],
            ) <= header_number(tokens[#[trigger] week_header_positions(tokens)[j]]),
{
    let headers = week_headers(tokens);
    if headers.len() > 0 {
        let downward = reads_downward(tokens, headers);
        lemma_week_headers_ascending(tokens);
        lemma_kept_headers(tokens, headers, downward, headers.len());
        let kept = kept_headers(tokens, headers, downward, headers.len());
        let positions = week_header_positions(tokens);
        assert forall|i: int| 0 <= i < page_weeks(tokens).len() implies {
            &&& 0 <= #[trigger] positions[i] < tokens.len()
            &&& tokens[positions[i]].week is Some
            &&& page_weeks(tokens)[i].week_name == header_name(tokens[positions[i]])
        } by {
            assert(positions[i] == headers[kept[i]]);
            assert(week_at(tokens, headers, downward, kept[i]) == Some(page_weeks(tokens)[i]));
        }
        assert forall|i: int, j: int| 0 <= i < j < page_weeks(tokens).len() implies header_number(
            tokens[#[trigger] positions[i]],
        ) <= header_number(tokens[#[trigger] positions[j]]) by {
            assert(kept[i] < kept[j]);
            assert(positions[i] == headers[kept[i]]);
            assert(positions[j] == headers[kept[j]]);
        }
    }
}

/// The kept headers are headers, in ascending order, one for each week.
proof fn lemma_kept_headers(tokens: Seq<TokenView>, headers: Seq<int>, downward: bool, n: nat)
    ensures
        kept_headers(tokens, headers, downward, n).len() == weeks_of_first(
            tokens,
            headers,
            downward,
            n,
        ).len(),
        forall|i: int|
            0 <= i < kept_headers(tokens, headers, downward, n).len() ==> 0 <= (
            #[trigger] kept_headers(tokens, headers, downward, n)[i]) < n && week_at(
                tokens,
                headers,
                downward,
                kept_headers(tokens, headers, downward, n)[i],
            ) == Some(weeks_of_first(tokens, headers, downward, n)[i]),
        forall|i: int, j: int|
            0 <= i < j < kept_headers(tokens, headers, downward, n).len() ==> (
            #[trigger] kept_headers(tokens, headers, downward, n)[i]) < (#[trigger] kept_headers(
                tokens,
                headers,
                downward,
                n,
            )[j]),
    decreases n,
{
    if n > 0 {
        lemma_kept_headers(tokens, headers, downward, (n - 1) as nat);
    }
}

/// The week headers stand in ascending order of their week numbers: each is
/// the position of a token that announces a week, every such token is
/// listed, and no header announces a lower number than the one before it.
pub proof fn lemma_week_headers_ascending(tokens: Seq<TokenView>)
    ensures
        forall|i: int|
            0 <= i < week_headers(tokens).len() ==> 0 <= #[trigger] week_headers(tokens)[i]
                < tokens.len() && tokens[week_headers(tokens)[i]].week is Some,
        forall|p: int|
            0 <= p < tokens.len() && tokens[p].week is Some ==> week_headers(tokens).contains(p),
        forall|i: int, j: int|
            0 <= i < j < week_headers(tokens).len() ==> header_number(
                tokens[#[trigger] week_headers(tokens)[i]],
            ) <= header_number(tokens[#[trigger] week_headers(tokens)[j]]),
{
    let positions = header_positions(tokens);
    let keys = header_keys(tokens, positions);
    let o = stable_order(keys);
    let headers = week_headers(tokens);
    lemma_stable_order_sorts(keys);
    lemma_header_positions(tokens);
    assert forall|p: int| 0 <= p < tokens.len() && tokens[p].week is Some implies headers.contains(
        p,
    ) by {
        assert(positions.contains(p));
        let k = choose|k: int| 0 <= k < positions.len() && positions[k] == p;
        assert(o.contains(k));
        let i = choose|i: int| 0 <= i < o.len() && o[i] == k;
        assert(headers[i] == p);
    }
    assert forall|i: int, j: int| 0 <= i < j < headers.len() implies header_number(
        tokens[#[trigger] headers[i]],
    ) <= header_number(tokens[#[trigger] headers[j]]) by {
        assert(!crate::order::key_before(keys[o[j]], keys[o[i]]));
    }
}

/// The header positions are exactly the positions of the tokens that
/// announce a week.
proof fn lemma_header_positions(tokens: Seq<TokenView>)
    ensures
        forall|k: int|
            0 <= k < header_positions(tokens).len() ==> 0 <= #[trigger] header_positions(tokens)[k]
                < tokens.len() && tokens[header_positions(tokens)[k]].week is Some,
        forall|p: int|
            0 <= p < tokens.len() && tokens[p].week is Some ==> header_positions(tokens).contains(
                p,
            ),
    decreases tokens.len(),
{
    if tokens.len() > 0 {
        let rest = tokens.drop_last();
        lemma_header_positions(rest);
        let before = header_positions(rest);
        let all = header_positions(tokens);
        assert forall|p: int| 0 <= p < tokens.len() && tokens[p].week is Some implies all.contains(
            p,
        ) by {
            if p < tokens.len() - 1 {
                assert(rest[p] == tokens[p]);
                assert(before.contains(p));
                let k = choose|k: int| 0 <= k < before.len() && before[k] == p;
                assert(all[k] == p);
            } else {
                assert(all[all.len() - 1] == p);
            }
        }
        assert forall|k: int| 0 <= k < all.len() implies 0 <= #[trigger] all[k] < tokens.len()
            && tokens[all[k]].week is Some by {
            if k < before.len() {
                assert(all[k] == before[k]);
                assert(rest[before[k]] == tokens[before[k]]);
            }
        }
    }
}

} // verus!
