//! The pages the tool reads, from their HTML: the fan sheet's tables, the
//! shop's product lists, the official card list and card pages, and the
//! official Q&A pages.
use vstd::prelude::*;
use crate::text::{chars_of, chars_of_string, contains, contains_str, join, join_chars, parse_u32, parse_u32_chars, string_of, trim, trim_chars};
use crate::model::{opt_view, views};
use crate::html::{
    HtmlNode, NodeV, content_in, content_in_exec, element_text, element_text_exec, end_exec, end_of, first_within,
    first_within_exec, html_nodes, node_attr, node_attr_exec, nodes_view, parse_html, select_doc, select_doc_exec,
    select_within, select_within_exec, text_pieces, text_pieces_exec, alt_lines_in, alt_lines_exec, is_element, parent_of,
};
use crate::sheet::SheetCard;
use crate::spreadsheet::{TableCell, retrieve_spreadsheet_data, table_cards};
use crate::price_check::YuyuteiRow;
use crate::hololive::{HololiveCard, InfoRow};
use crate::qna::QnaEntry;
use vstd::pervasive::VecAdditionalExecFns;

verus! {

// ---------------------------------------------------------------------------
// the fan sheet's table
// ---------------------------------------------------------------------------
pub type CellV = (Seq<char>, Seq<char>, Option<Seq<char>>);

/// A cell: its text, its text with a line break for each `br` (trimmed),
/// and the `src` of its first image.
pub open spec fn cell_of(h: Seq<char>, d: int) -> CellV {
    let ns = html_nodes(h);
    (
        element_text(ns, d),
        trim(content_in(ns, d, end_of(ns, d))),
        match first_within(h, d, "img"@) {
            Some(m) => node_attr(ns, m, "src"@),
            None => None,
        },
    )
}

/// The cells of each row of the page's first table; none without a table.
pub open spec fn sheet_rows_of(h: Seq<char>) -> Option<Seq<Seq<CellV>>> {
    let tables = select_doc(h, "table"@);
    if tables.len() == 0 {
        None
    } else {
        Some(
            select_within(h, tables[0], "tr"@).map_values(
                |r: int| select_within(h, r, "td"@).map_values(|d: int| cell_of(h, d)),
            ),
        )
    }
}

pub open spec fn cell_view(c: TableCell) -> CellV {
    (c.text@, c.content@, opt_view(c.img_src))
}

pub open spec fn table_view(rows: Seq<Vec<TableCell>>) -> Seq<Seq<CellV>> {
    rows.map_values(|r: Vec<TableCell>| r@.map_values(|c: TableCell| cell_view(c)))
}

fn cell_exec(html: &str, ns: &Vec<HtmlNode>, d: usize) -> (r: TableCell)
    requires
        nodes_view(ns@) == html_nodes(html@),
        d < ns.len(),
    ensures
        cell_view(r) == cell_of(html@, d as int),
{
    let end = end_exec(ns, d);
    let text = element_text_exec(ns, d);
    let content = string_of(&trim_chars(&content_in_exec(ns, d, end)));
    let img = first_within_exec(html, ns, d, "img");
    let img_src = match img {
        Some(m) => node_attr_exec(ns, m, "src"),
        None => None,
    };
    TableCell { text, content, img_src }
}

/// The rows of the page's first table, as cells.
pub fn sheet_table_rows(html: &str) -> (r: Option<Vec<Vec<TableCell>>>)
    ensures
        match sheet_rows_of(html@) {
            Some(rows) => r matches Some(v) && table_view(v@) == rows,
            None => r is None,
        },
{
    let ns = parse_html(html);
    let ghost v = nodes_view(ns@);
    let tables = select_doc_exec(html, &ns, "table");
    if tables.len() == 0 {
        assert(tables@.map_values(|i: usize| i as int).len() == 0);
        return None;
    }
    assert(tables@.map_values(|i: usize| i as int)[0] == tables@[0] as int);
    let t = tables[0];
    let trs = select_within_exec(html, &ns, t, "tr");
    let ghost tv = trs@.map_values(|i: usize| i as int);
    let ghost fr = |r: int| select_within(html@, r, "td"@).map_values(|d: int| cell_of(html@, d));
    let mut rows: Vec<Vec<TableCell>> = Vec::new();
    let mut i: usize = 0;
    while i < trs.len()
        invariant
            v == nodes_view(ns@),
            nodes_view(ns@) == html_nodes(html@),
            i <= trs.len(),
            tv == trs@.map_values(|i: usize| i as int),
            forall|j: int| 0 <= j < trs@.len() ==> #[trigger] trs@[j] < ns.len(),
            fr == (|r: int| select_within(html@, r, "td"@).map_values(|d: int| cell_of(html@, d))),
            table_view(rows@) == tv.take(i as int).map_values(fr),
        decreases trs.len() - i,
    {
        let tds = select_within_exec(html, &ns, trs[i], "td");
        let ghost dv = tds@.map_values(|i: usize| i as int);
        let mut cells: Vec<TableCell> = Vec::new();
        let mut j: usize = 0;
        while j < tds.len()
            invariant
                v == nodes_view(ns@),
                nodes_view(ns@) == html_nodes(html@),
                j <= tds.len(),
                dv == tds@.map_values(|i: usize| i as int),
                forall|q: int| 0 <= q < tds@.len() ==> #[trigger] tds@[q] < ns.len(),
                cells@.map_values(|c: TableCell| cell_view(c)) == dv.take(j as int).map_values(|d: int| cell_of(html@, d)),
            decreases tds.len() - j,
        {
            let ghost before = cells@;
            let c = cell_exec(html, &ns, tds[j]);
            cells.push(c);
            assert(dv[j as int] == tds@[j as int] as int);
            assert(cells@.map_values(|c: TableCell| cell_view(c)) =~= before.map_values(|c: TableCell| cell_view(c)).push(cell_view(c)));
            assert(dv.take(j + 1).map_values(|d: int| cell_of(html@, d)) =~= dv.take(j as int).map_values(|d: int| cell_of(html@, d)).push(cell_of(html@, dv[j as int])));
            j = j + 1;
        }
        assert(dv.take(j as int) =~= dv);
        let ghost before = rows@;
        assert(tv[i as int] == trs@[i as int] as int);
        assert(fr(tv[i as int]) == dv.map_values(|d: int| cell_of(html@, d)));
        rows.push(cells);
        assert(table_view(rows@) =~= table_view(before).push(dv.map_values(|d: int| cell_of(html@, d))));
        assert(tv.take(i + 1).map_values(fr) =~= tv.take(i as int).map_values(fr).push(fr(tv[i as int])));
        i = i + 1;
    }
    assert(tv.take(i as int) =~= tv);
    Some(rows)
}

/// Reads the cards of a sheet's page: the rows of its first table under the
/// header row; none without a table or a header row.
pub fn retrieve_spreadsheet_html(html: &str) -> (r: Option<Vec<SheetCard>>)
    ensures
        match sheet_rows_of(html@) {
            Some(rows) => exists|t: Seq<Vec<TableCell>>| table_view(t) == rows && table_cards(t, r),
            None => r is None,
        },
{
    match sheet_table_rows(html) {
        Some(rows) => {
            let r = retrieve_spreadsheet_data(&rows);
            assert(table_cards(rows@, r));
            r
        },
        None => None,
    }
}


// ---------------------------------------------------------------------------
// the shop's product list
// ---------------------------------------------------------------------------
pub type RowV = (Seq<char>, Seq<char>, Seq<char>, Option<Seq<char>>, Option<Seq<char>>);

pub open spec fn row_view(r: YuyuteiRow) -> RowV {
    (r.number@, r.name@, r.rarity@, opt_view(r.url), opt_view(r.img_src))
}

pub open spec fn rows_view(v: Seq<YuyuteiRow>) -> Seq<RowV> {
    v.map_values(|r: YuyuteiRow| row_view(r))
}

/// A product of a list: its number (first `span`), its page (the `href` of
/// its first `a`), and, when `full`, its name (first `h4`) and the `src` of
/// the first image of that link. None where one of these elements is
/// missing (where the tool stops).
pub open spec fn shop_card(h: Seq<char>, c: int, rarity: Seq<char>, full: bool) -> Option<RowV> {
    let ns = html_nodes(h);
    match (first_within(h, c, "span"@), first_within(h, c, "a"@)) {
        (Some(sp), Some(a)) => if full {
            match (first_within(h, c, "h4"@), first_within(h, a, "img"@)) {
                (Some(t), Some(i)) => Some(
                    (element_text(ns, sp), element_text(ns, t), rarity, node_attr(ns, a, "href"@), node_attr(ns, i, "src"@)),
                ),
                _ => None,
            }
        } else {
            Some((element_text(ns, sp), Seq::empty(), rarity, node_attr(ns, a, "href"@), None))
        },
        _ => None,
    }
}

pub open spec fn shop_cards(h: Seq<char>, cs: Seq<int>, rarity: Seq<char>, full: bool) -> Option<Seq<RowV>>
    decreases cs.len(),
{
    if cs.len() == 0 {
        Some(Seq::empty())
    } else {
        match (shop_cards(h, cs.drop_last(), rarity, full), shop_card(h, cs.last(), rarity, full)) {
            (Some(rs), Some(r)) => Some(rs.push(r)),
            _ => None,
        }
    }
}

/// A list of one rarity: the text of its first `h3 span` is the rarity, its
/// `.card-product` elements the products.
pub open spec fn shop_list(h: Seq<char>, l: int, full: bool) -> Option<Seq<RowV>> {
    match first_within(h, l, "h3 span"@) {
        Some(t) => shop_cards(h, select_within(h, l, ".card-product"@), element_text(html_nodes(h), t), full),
        None => None,
    }
}

pub open spec fn shop_lists(h: Seq<char>, ls: Seq<int>, full: bool) -> Option<Seq<RowV>>
    decreases ls.len(),
{
    if ls.len() == 0 {
        Some(Seq::empty())
    } else {
        match (shop_lists(h, ls.drop_last(), full), shop_list(h, ls.last(), full)) {
            (Some(a), Some(b)) => Some(a + b),
            _ => None,
        }
    }
}

/// The last page number: the text of the first `.pagination li:nth-last-child(2) a`,
/// when there is one; none when it is not a number.
pub open spec fn last_page_of(h: Seq<char>) -> Option<Option<u32>> {
    let ns = html_nodes(h);
    let s = select_doc(h, ".pagination li:nth-last-child(2) a"@);
    if s.len() == 0 {
        Some(None)
    } else {
        match parse_u32(element_text(ns, s[0])) {
            Some(n) => Some(Some(n)),
            None => None,
        }
    }
}

/// A page of the shop's list: the products of each `#card-list3` list in
/// order, and (when `full`) the last page number.
pub open spec fn shop_page_of(h: Seq<char>, full: bool) -> Option<(Seq<RowV>, Option<u32>)> {
    let rows = shop_lists(h, select_doc(h, "#card-list3"@), full);
    let last = if full {
        last_page_of(h)
    } else {
        Some(None)
    };
    match (rows, last) {
        (Some(r), Some(m)) => Some((r, m)),
        _ => None,
    }
}

proof fn lemma_shop_cards_stop(h: Seq<char>, cs: Seq<int>, k: int, rarity: Seq<char>, full: bool)
    requires
        0 <= k <= cs.len(),
        shop_cards(h, cs.take(k), rarity, full) is None,
    ensures
        shop_cards(h, cs, rarity, full) is None,
    decreases cs.len() - k,
{
    if k < cs.len() {
        assert(cs.take(k + 1).drop_last() =~= cs.take(k));
        lemma_shop_cards_stop(h, cs, k + 1, rarity, full);
    } else {
        assert(cs.take(k) =~= cs);
    }
}

proof fn lemma_shop_lists_stop(h: Seq<char>, ls: Seq<int>, k: int, full: bool)
    requires
        0 <= k <= ls.len(),
        shop_lists(h, ls.take(k), full) is None,
    ensures
        shop_lists(h, ls, full) is None,
    decreases ls.len() - k,
{
    if k < ls.len() {
        assert(ls.take(k + 1).drop_last() =~= ls.take(k));
        lemma_shop_lists_stop(h, ls, k + 1, full);
    } else {
        assert(ls.take(k) =~= ls);
    }
}

fn shop_card_exec(html: &str, ns: &Vec<HtmlNode>, c: usize, rarity: &String, full: bool) -> (r: Option<YuyuteiRow>)
    requires
        nodes_view(ns@) == html_nodes(html@),
        c < ns.len(),
    ensures
        match r {
            Some(row) => shop_card(html@, c as int, rarity@, full) == Some(row_view(row)),
            None => shop_card(html@, c as int, rarity@, full) is None,
        },
{
    let sp = first_within_exec(html, ns, c, "span");
    let a = first_within_exec(html, ns, c, "a");
    match (sp, a) {
        (Some(sp), Some(a)) => {
            if full {
                let h = first_within_exec(html, ns, c, "h4");
                let i = first_within_exec(html, ns, a, "img");
                match (h, i) {
                    (Some(h), Some(i)) => Some(
                        YuyuteiRow {
                            number: element_text_exec(ns, sp),
                            name: element_text_exec(ns, h),
                            rarity: rarity.clone(),
                            url: node_attr_exec(ns, a, "href"),
                            img_src: node_attr_exec(ns, i, "src"),
                        },
                    ),
                    _ => None,
                }
            } else {
                let row = YuyuteiRow {
                    number: element_text_exec(ns, sp),
                    name: String::new(),
                    rarity: rarity.clone(),
                    url: node_attr_exec(ns, a, "href"),
                    img_src: None,
                };
                assert(row.name@ =~= Seq::<char>::empty());
                Some(row)
            }
        },
        _ => None,
    }
}

fn shop_list_exec(html: &str, ns: &Vec<HtmlNode>, l: usize, full: bool) -> (r: Option<Vec<YuyuteiRow>>)
    requires
        nodes_view(ns@) == html_nodes(html@),
        l < ns.len(),
    ensures
        match r {
            Some(v) => shop_list(html@, l as int, full) == Some(rows_view(v@)),
            None => shop_list(html@, l as int, full) is None,
        },
{
    let ghost v = nodes_view(ns@);
    let h = match first_within_exec(html, ns, l, "h3 span") {
        Some(h) => h,
        None => {
            return None;
        },
    };
    let rarity = element_text_exec(ns, h);
    let cards = select_within_exec(html, ns, l, ".card-product");
    let ghost cv = cards@.map_values(|i: usize| i as int);
    assert(shop_list(html@, l as int, full) == shop_cards(html@, cv, rarity@, full));
    let mut out: Vec<YuyuteiRow> = Vec::new();
    let mut i: usize = 0;
    assert(cv.take(0) =~= Seq::<int>::empty());
    assert(rows_view(out@) =~= Seq::<RowV>::empty());
    while i < cards.len()
        invariant
            v == nodes_view(ns@),
            nodes_view(ns@) == html_nodes(html@),
            i <= cards.len(),
            cv == cards@.map_values(|i: usize| i as int),
            shop_list(html@, l as int, full) == shop_cards(html@, cv, rarity@, full),
            forall|q: int| 0 <= q < cards@.len() ==> #[trigger] cards@[q] < ns.len(),
            shop_cards(html@, cv.take(i as int), rarity@, full) == Some(rows_view(out@)),
        decreases cards.len() - i,
    {
        assert(cv.take(i + 1).drop_last() =~= cv.take(i as int));
        assert(cv.take(i + 1).last() == cards@[i as int] as int);
        match shop_card_exec(html, ns, cards[i], &rarity, full) {
            Some(row) => {
                let ghost before = out@;
                out.push(row);
                assert(rows_view(out@) =~= rows_view(before).push(row_view(row)));
            },
            None => {
                proof {
                    lemma_shop_cards_stop(html@, cv, i + 1, rarity@, full);
                }
                return None;
            },
        }
        i = i + 1;
    }
    assert(cv.take(i as int) =~= cv);
    Some(out)
}

/// Reads a page of the shop's product list: its products and, when `full`,
/// the last page number; none where the page lacks an element the tool
/// needs (where it stops).
pub fn yuyutei_page(html: &str, full: bool) -> (r: Option<(Vec<YuyuteiRow>, Option<u32>)>)
    ensures
        match r {
            Some((rows, m)) => shop_page_of(html@, full) == Some((rows_view(rows@), m)),
            None => shop_page_of(html@, full) is None,
        },
{
    let ns = parse_html(html);
    let ghost v = nodes_view(ns@);
    let lists = select_doc_exec(html, &ns, "#card-list3");
    let ghost lv = lists@.map_values(|i: usize| i as int);
    let mut out: Vec<YuyuteiRow> = Vec::new();
    let mut i: usize = 0;
    assert(lv.take(0) =~= Seq::<int>::empty());
    assert(rows_view(out@) =~= Seq::<RowV>::empty());
    while i < lists.len()
        invariant
            v == nodes_view(ns@),
            nodes_view(ns@) == html_nodes(html@),
            i <= lists.len(),
            lv == lists@.map_values(|i: usize| i as int),
            lv == select_doc(html@, "#card-list3"@),
            v == html_nodes(html@),
            forall|q: int| 0 <= q < lists@.len() ==> 0 <= #[trigger] lists@[q] < ns.len(),
            shop_lists(html@, lv.take(i as int), full) == Some(rows_view(out@)),
        decreases lists.len() - i,
    {
        assert(lv.take(i + 1).drop_last() =~= lv.take(i as int));
        assert(lv.take(i + 1).last() == lists@[i as int] as int);
        match shop_list_exec(html, &ns, lists[i], full) {
            Some(mut rows) => {
                let ghost before = out@;
                let ghost added = rows@;
                out.append(&mut rows);
                assert(rows_view(out@) =~= rows_view(before) + rows_view(added));
            },
            None => {
                proof {
                    lemma_shop_lists_stop(html@, lv, i + 1, full);
                }
                return None;
            },
        }
        i = i + 1;
    }
    assert(lv.take(i as int) =~= lv);
    let last: Option<u32> = if full {
        let pages = select_doc_exec(html, &ns, ".pagination li:nth-last-child(2) a");
        if pages.len() == 0 {
            None
        } else {
            assert(pages@.map_values(|i: usize| i as int)[0] == pages@[0] as int);
            match parse_u32_chars(&chars_of_string(&element_text_exec(&ns, pages[0]))) {
                Some(n) => Some(n),
                None => {
                    return None;
                },
            }
        }
    } else {
        None
    };
    Some((out, last))
}


// ---------------------------------------------------------------------------
// the official card list
// ---------------------------------------------------------------------------
pub type InfoV = (Seq<char>, Seq<char>, Seq<char>);

pub struct SiteCardV {
    pub card_number: Seq<char>,
    pub name: Option<Seq<char>>,
    pub rows: Seq<InfoV>,
    pub extra: Option<Seq<char>>,
    pub oshi_skills: Seq<(bool, Seq<Seq<char>>)>,
    pub keywords: Seq<Seq<char>>,
    pub arts: Seq<Seq<char>>,
}

pub open spec fn skills_view(v: Seq<(bool, Vec<String>)>) -> Seq<(bool, Seq<Seq<char>>)> {
    v.map_values(|e: (bool, Vec<String>)| (e.0, views(e.1@)))
}

pub open spec fn info_view(r: InfoRow) -> InfoV {
    (r.key@, r.text@, r.img_alts@)
}

pub open spec fn site_card_view(c: HololiveCard) -> SiteCardV {
    SiteCardV {
        card_number: c.card_number@,
        name: opt_view(c.name),
        rows: c.rows@.map_values(|r: InfoRow| info_view(r)),
        extra: opt_view(c.extra),
        oshi_skills: skills_view(c.oshi_skills@),
        keywords: views(c.keywords@),
        arts: views(c.arts@),
    }
}

/// The `alt` texts of the element children of `p` among the nodes in `[lo, hi)`.
pub open spec fn child_alts(ns: Seq<NodeV>, p: int, lo: int, hi: int) -> Seq<Seq<char>>
    decreases hi - lo,
{
    if hi <= lo {
        Seq::empty()
    } else {
        let rest = child_alts(ns, p, lo, hi - 1);
        if is_element(ns, hi - 1) && parent_of(ns, hi - 1) == Some(p) && node_attr(ns, hi - 1, "alt"@) is Some {
            rest.push(node_attr(ns, hi - 1, "alt"@)->0)
        } else {
            rest
        }
    }
}

/// A row of the card's information: the texts of a `dt` and its `dd`, and
/// the `alt` texts of the `dd`'s element children joined by spaces.
pub open spec fn info_row_of(ns: Seq<NodeV>, k: int, v: int) -> InfoV {
    (element_text(ns, k), element_text(ns, v), join(child_alts(ns, v, v + 1, end_of(ns, v)), " "@))
}

/// The `dt`/`dd` elements taken two by two (an odd last one left out).
pub open spec fn info_rows_of(ns: Seq<NodeV>, sel: Seq<int>) -> Seq<InfoV> {
    Seq::new(sel.len() / 2, |i: int| info_row_of(ns, sel[2 * i], sel[2 * i + 1]))
}

pub open spec fn opt_text(ns: Seq<NodeV>, k: Option<int>) -> Option<Seq<char>> {
    match k {
        Some(x) => Some(element_text(ns, x)),
        None => None,
    }
}

pub open spec fn skill_of(ns: Seq<NodeV>, special: bool, k: int) -> (bool, Seq<Seq<char>>) {
    (special, text_pieces(ns, k + 1, end_of(ns, k)))
}

pub open spec fn lines_of(ns: Seq<NodeV>, k: int) -> Seq<char> {
    alt_lines_in(ns, k, end_of(ns, k))
}

/// The card that a link of the list shows, with the number `number`.
pub open spec fn site_card_of(h: Seq<char>, a: int, number: Seq<char>) -> SiteCardV {
    let ns = html_nodes(h);
    SiteCardV {
        card_number: number,
        name: opt_text(ns, first_within(h, a, ".name"@)),
        rows: info_rows_of(ns, select_within(h, a, ".info dl :is(dt, dd)"@)),
        extra: opt_text(ns, first_within(h, a, ".extra p:nth-child(2)"@)),
        oshi_skills: select_within(h, a, ".oshi.skill p:nth-child(2)"@).map_values(|k: int| skill_of(ns, false, k))
            + select_within(h, a, ".sp.skill p:nth-child(2)"@).map_values(|k: int| skill_of(ns, true, k)),
        keywords: select_within(h, a, ".keyword p:nth-child(2)"@).map_values(|k: int| lines_of(ns, k)),
        arts: select_within(h, a, ".sp.arts p:nth-child(2)"@).map_values(|k: int| lines_of(ns, k)),
    }
}

/// The cards of the links, with the `href` of each link; links without a
/// `.number` are left out.
pub open spec fn site_cards_of(h: Seq<char>, links: Seq<int>) -> Seq<(SiteCardV, Option<Seq<char>>)>
    decreases links.len(),
{
    if links.len() == 0 {
        Seq::empty()
    } else {
        let rest = site_cards_of(h, links.drop_last());
        let a = links.last();
        match first_within(h, a, ".number"@) {
            Some(n) => rest.push((site_card_of(h, a, element_text(html_nodes(h), n)), node_attr(html_nodes(h), a, "href"@))),
            None => rest,
        }
    }
}

/// The title of the site's front page, which it answers past the last page.
pub open spec fn front_page_titles(html: Seq<char>) -> bool {
    contains(html, "<title>hololive OFFICIAL CARD GAME｜ホロライブプロダクション</title>"@) || contains(
        html,
        "<title>hololive OFFICIAL CARD GAME｜hololive production</title>"@,
    )
}

/// A page of the card list: none past the last page; else the cards of its
/// `li a` links.
pub open spec fn site_list_page_of(html: Seq<char>) -> Option<Seq<(SiteCardV, Option<Seq<char>>)>> {
    if front_page_titles(html) {
        None
    } else {
        Some(site_cards_of(html, select_doc(html, "li a"@)))
    }
}

fn opt_text_exec(ns: &Vec<HtmlNode>, k: Option<usize>) -> (r: Option<String>)
    requires
        k matches Some(x) ==> x < ns.len(),
    ensures
        opt_view(r) == opt_text(nodes_view(ns@), match k {
            Some(x) => Some(x as int),
            None => None,
        }),
{
    match k {
        Some(x) => Some(element_text_exec(ns, x)),
        None => None,
    }
}

fn child_alts_exec(ns: &Vec<HtmlNode>, p: usize) -> (r: Vec<Vec<char>>)
    requires
        p < ns.len(),
    ensures
        r@.map_values(|w: Vec<char>| w@) == child_alts(nodes_view(ns@), p as int, p + 1, end_of(nodes_view(ns@), p as int)),
{
    let ghost v = nodes_view(ns@);
    let end = end_exec(ns, p);
    let mut out: Vec<Vec<char>> = Vec::new();
    let mut j = p + 1;
    assert(out@.map_values(|w: Vec<char>| w@) =~= Seq::<Seq<char>>::empty());
    while j < end
        invariant
            v == nodes_view(ns@),
            p + 1 <= j <= end <= ns.len(),
            out@.map_values(|w: Vec<char>| w@) == child_alts(v, p as int, p + 1, j as int),
        decreases end - j,
    {
        assert(v[j as int] == crate::html::node_view(ns@[j as int]));
        let pj = crate::html::parent_exec_pub(ns, j);
        if ns[j].tag.is_some() && pj == Some(p) {
            match node_attr_exec(ns, j, "alt") {
                Some(a) => {
                    let ghost before = out@;
                    out.push(chars_of_string(&a));
                    assert(out@.map_values(|w: Vec<char>| w@) =~= before.map_values(|w: Vec<char>| w@).push(a@));
                },
                None => {},
            }
        }
        j = j + 1;
    }
    out
}

fn info_rows_exec(html: &str, ns: &Vec<HtmlNode>, a: usize) -> (r: Vec<InfoRow>)
    requires
        nodes_view(ns@) == html_nodes(html@),
        a < ns.len(),
    ensures
        r@.map_values(|x: InfoRow| info_view(x)) == info_rows_of(nodes_view(ns@), select_within(html@, a as int, ".info dl :is(dt, dd)"@)),
{
    let ghost v = nodes_view(ns@);
    let sel = select_within_exec(html, ns, a, ".info dl :is(dt, dd)");
    let ghost sv = sel@.map_values(|i: usize| i as int);
    let ghost want = info_rows_of(v, sv);
    let n = sel.len() / 2;
    let mut out: Vec<InfoRow> = Vec::new();
    let mut i: usize = 0;
    while i < n
        invariant
            v == nodes_view(ns@),
            nodes_view(ns@) == html_nodes(html@),
            n == sel.len() / 2,
            i <= n,
            sv == sel@.map_values(|i: usize| i as int),
            want == info_rows_of(v, sv),
            forall|q: int| 0 <= q < sel@.len() ==> #[trigger] sel@[q] < ns.len(),
            out@.map_values(|x: InfoRow| info_view(x)) == want.take(i as int),
        decreases n - i,
    {
        let k = sel[2 * i];
        let d = sel[2 * i + 1];
        let alts = child_alts_exec(ns, d);
        let row = InfoRow {
            key: element_text_exec(ns, k),
            text: element_text_exec(ns, d),
            img_alts: string_of(&join_chars(&alts, &chars_of(" "))),
        };
        assert(sv[2 * i] == k as int);
        assert(sv[2 * i + 1] == d as int);
        assert(info_view(row) == info_row_of(v, k as int, d as int));
        let ghost before = out@;
        out.push(row);
        assert(want[i as int] == info_row_of(v, sv[2 * i], sv[2 * i + 1]));
        assert(out@.map_values(|x: InfoRow| info_view(x)) =~= before.map_values(|x: InfoRow| info_view(x)).push(info_view(row)));
        assert(out@.map_values(|x: InfoRow| info_view(x)) =~= want.take(i + 1));
        i = i + 1;
    }
    assert(want.take(i as int) =~= want);
    out
}

fn skills_exec(html: &str, ns: &Vec<HtmlNode>, a: usize, sel: &str, special: bool, out: &mut Vec<(bool, Vec<String>)>)
    requires
        nodes_view(ns@) == html_nodes(html@),
        a < ns.len(),
    ensures
        skills_view(final(out)@) == skills_view(old(out)@) + select_within(html@, a as int, sel@).map_values(
            |k: int| skill_of(nodes_view(ns@), special, k),
        ),
{
    let ghost v = nodes_view(ns@);
    let ghost o0 = skills_view(out@);
    let sel = select_within_exec(html, ns, a, sel);
    let ghost sv = sel@.map_values(|i: usize| i as int);
    let mut i: usize = 0;
    while i < sel.len()
        invariant
            v == nodes_view(ns@),
            nodes_view(ns@) == html_nodes(html@),
            i <= sel.len(),
            sv == sel@.map_values(|i: usize| i as int),
            forall|q: int| 0 <= q < sel@.len() ==> #[trigger] sel@[q] < ns.len(),
            skills_view(out@) == o0 + sv.take(i as int).map_values(|k: int| skill_of(v, special, k)),
        decreases sel.len() - i,
    {
        let k = sel[i];
        let end = end_exec(ns, k);
        let pieces = text_pieces_exec(ns, k + 1, end);
        let ghost before = out@;
        out.push((special, pieces));
        assert(sv[i as int] == k as int);
        assert(skills_view(out@) =~= skills_view(before).push((special, views(pieces@))));
        assert(sv.take(i + 1).map_values(|k: int| skill_of(v, special, k)) =~= sv.take(i as int).map_values(
            |k: int| skill_of(v, special, k),
        ).push(skill_of(v, special, sv[i as int])));
        i = i + 1;
    }
    assert(sv.take(i as int) =~= sv);
}

fn lines_exec(html: &str, ns: &Vec<HtmlNode>, a: usize, sel: &str) -> (r: Vec<String>)
    requires
        nodes_view(ns@) == html_nodes(html@),
        a < ns.len(),
    ensures
        views(r@) == select_within(html@, a as int, sel@).map_values(|k: int| lines_of(nodes_view(ns@), k)),
{
    let ghost v = nodes_view(ns@);
    let sel = select_within_exec(html, ns, a, sel);
    let ghost sv = sel@.map_values(|i: usize| i as int);
    let mut out: Vec<String> = Vec::new();
    let mut i: usize = 0;
    assert(views(out@) =~= Seq::<Seq<char>>::empty());
    while i < sel.len()
        invariant
            v == nodes_view(ns@),
            nodes_view(ns@) == html_nodes(html@),
            i <= sel.len(),
            sv == sel@.map_values(|i: usize| i as int),
            forall|q: int| 0 <= q < sel@.len() ==> #[trigger] sel@[q] < ns.len(),
            views(out@) == sv.take(i as int).map_values(|k: int| lines_of(v, k)),
        decreases sel.len() - i,
    {
        let k = sel[i];
        let end = end_exec(ns, k);
        let l = alt_lines_exec(ns, k, end);
        let ghost before = out@;
        out.push(l);
        assert(sv[i as int] == k as int);
        assert(views(out@) =~= views(before).push(l@));
        assert(sv.take(i + 1).map_values(|k: int| lines_of(v, k)) =~= sv.take(i as int).map_values(|k: int| lines_of(v, k)).push(
            lines_of(v, sv[i as int]),
        ));
        i = i + 1;
    }
    assert(sv.take(i as int) =~= sv);
    out
}

fn site_card_exec(html: &str, ns: &Vec<HtmlNode>, a: usize, number: String) -> (r: HololiveCard)
    requires
        nodes_view(ns@) == html_nodes(html@),
        a < ns.len(),
    ensures
        site_card_view(r) == site_card_of(html@, a as int, number@),
{
    let ghost v = nodes_view(ns@);
    let name = opt_text_exec(ns, first_within_exec(html, ns, a, ".name"));
    let rows = info_rows_exec(html, ns, a);
    let extra = opt_text_exec(ns, first_within_exec(html, ns, a, ".extra p:nth-child(2)"));
    let mut oshi_skills: Vec<(bool, Vec<String>)> = Vec::new();
    assert(skills_view(oshi_skills@) =~= Seq::<(bool, Seq<Seq<char>>)>::empty());
    skills_exec(html, ns, a, ".oshi.skill p:nth-child(2)", false, &mut oshi_skills);
    skills_exec(html, ns, a, ".sp.skill p:nth-child(2)", true, &mut oshi_skills);
    let keywords = lines_exec(html, ns, a, ".keyword p:nth-child(2)");
    let arts = lines_exec(html, ns, a, ".sp.arts p:nth-child(2)");
    let r = HololiveCard { card_number: number, name, rows, extra, oshi_skills, keywords, arts };
    assert(site_card_view(r).oshi_skills =~= site_card_of(html@, a as int, number@).oshi_skills);
    r
}

/// Reads a page of the official card list: none past the last page; else
/// each card its links show, with the link's `href`.
pub fn site_list_page(html: &str) -> (r: Option<Vec<(HololiveCard, Option<String>)>>)
    ensures
        match r {
            Some(v) => site_list_page_of(html@) == Some(v@.map_values(|e: (HololiveCard, Option<String>)| (site_card_view(e.0), opt_view(e.1)))),
            None => site_list_page_of(html@) is None,
        },
{
    let hv = chars_of(html);
    if contains_str(&hv, "<title>hololive OFFICIAL CARD GAME｜ホロライブプロダクション</title>")
        || contains_str(&hv, "<title>hololive OFFICIAL CARD GAME｜hololive production</title>") {
        return None;
    }
    let ns = parse_html(html);
    let ghost v = nodes_view(ns@);
    let links = select_doc_exec(html, &ns, "li a");
    let ghost lv = links@.map_values(|i: usize| i as int);
    let ghost f = |e: (HololiveCard, Option<String>)| (site_card_view(e.0), opt_view(e.1));
    let mut out: Vec<(HololiveCard, Option<String>)> = Vec::new();
    let mut i: usize = 0;
    assert(lv.take(0) =~= Seq::<int>::empty());
    assert(out@.map_values(f) =~= Seq::<(SiteCardV, Option<Seq<char>>)>::empty());
    while i < links.len()
        invariant
            v == nodes_view(ns@),
            nodes_view(ns@) == html_nodes(html@),
            i <= links.len(),
            lv == links@.map_values(|i: usize| i as int),
            f == (|e: (HololiveCard, Option<String>)| (site_card_view(e.0), opt_view(e.1))),
            forall|q: int| 0 <= q < links@.len() ==> 0 <= #[trigger] links@[q] < ns.len(),
            out@.map_values(f) == site_cards_of(html@, lv.take(i as int)),
        decreases links.len() - i,
    {
        assert(lv.take(i + 1).drop_last() =~= lv.take(i as int));
        assert(lv.take(i + 1).last() == links@[i as int] as int);
        let a = links[i];
        match first_within_exec(html, &ns, a, ".number") {
            Some(n) => {
                let number = element_text_exec(&ns, n);
                let card = site_card_exec(html, &ns, a, number);
                let href = node_attr_exec(&ns, a, "href");
                let ghost before = out@;
                out.push((card, href));
                assert(out@.map_values(f) =~= before.map_values(f).push(f((card, href))));
            },
            None => {},
        }
        i = i + 1;
    }
    assert(lv.take(i as int) =~= lv);
    Some(out)
}

/// The illustrator a card's page names: the text of its first `.ill-name span`, or empty.
pub open spec fn illustrator_of_page(html: Seq<char>) -> Seq<char> {
    let ns = html_nodes(html);
    let s = select_doc(html, ".ill-name span"@);
    if s.len() > 0 {
        element_text(ns, s[0])
    } else {
        Seq::empty()
    }
}

/// Reads the illustrator from a card's page.
pub fn illustrator_page(html: &str) -> (r: String)
    ensures
        r@ == illustrator_of_page(html@),
{
    let ns = parse_html(html);
    let s = select_doc_exec(html, &ns, ".ill-name span");
    if s.len() > 0 {
        assert(s@.map_values(|i: usize| i as int)[0] == s@[0] as int);
        element_text_exec(&ns, s[0])
    } else {
        String::new()
    }
}

// ---------------------------------------------------------------------------
// the official Q&A pages
// ---------------------------------------------------------------------------
pub type EntryV = (Seq<char>, Option<Seq<char>>, Option<Seq<char>>, Option<Seq<char>>);

pub open spec fn entry_view(e: QnaEntry) -> EntryV {
    (e.title@, opt_view(e.question), opt_view(e.answer), opt_view(e.relation))
}

pub open spec fn qna_entry_of(h: Seq<char>, item: int, title: int) -> EntryV {
    let ns = html_nodes(h);
    (
        element_text(ns, title),
        opt_text(ns, first_within(h, item, ".qa-List_Txt-Q"@)),
        opt_text(ns, first_within(h, item, ".qa-List_Txt-A"@)),
        opt_text(ns, first_within(h, item, ".relation"@)),
    )
}

/// The entries of the items, up to the first item without a title; and
/// whether every item had one.
pub open spec fn qna_items_of(h: Seq<char>, items: Seq<int>) -> (Seq<EntryV>, bool)
    decreases items.len(),
{
    if items.len() == 0 {
        (Seq::empty(), true)
    } else {
        let (es, ok) = qna_items_of(h, items.drop_last());
        if !ok {
            (es, false)
        } else {
            match first_within(h, items.last(), ".qa-List_Ttl"@) {
                Some(t) => (es.push(qna_entry_of(h, items.last(), t)), true),
                None => (es, false),
            }
        }
    }
}

/// A Q&A page: past the last page (the front page, or "Page not found"),
/// nothing and stop; else the entries of its `.qa-List_Item`s, and whether
/// to go on (every item had a title).
pub open spec fn qna_page_of(html: Seq<char>) -> (Seq<EntryV>, bool) {
    if front_page_titles(html) || contains(html, "Page not found"@) {
        (Seq::empty(), false)
    } else {
        qna_items_of(html, select_doc(html, ".qa-List_Item"@))
    }
}

/// Reads a Q&A page: its entries, and whether to read the next page.
pub fn qna_page(html: &str) -> (r: (Vec<QnaEntry>, bool))
    ensures
        (r.0@.map_values(|e: QnaEntry| entry_view(e)), r.1) == qna_page_of(html@),
{
    let hv = chars_of(html);
    if contains_str(&hv, "<title>hololive OFFICIAL CARD GAME｜ホロライブプロダクション</title>")
        || contains_str(&hv, "<title>hololive OFFICIAL CARD GAME｜hololive production</title>")
        || contains_str(&hv, "Page not found") {
        let out: Vec<QnaEntry> = Vec::new();
        assert(out@.map_values(|e: QnaEntry| entry_view(e)) =~= Seq::<EntryV>::empty());
        return (out, false);
    }
    let ns = parse_html(html);
    let ghost v = nodes_view(ns@);
    let items = select_doc_exec(html, &ns, ".qa-List_Item");
    let ghost iv = items@.map_values(|i: usize| i as int);
    let mut out: Vec<QnaEntry> = Vec::new();
    let mut i: usize = 0;
    assert(iv.take(0) =~= Seq::<int>::empty());
    assert(out@.map_values(|e: QnaEntry| entry_view(e)) =~= Seq::<EntryV>::empty());
    while i < items.len()
        invariant
            v == nodes_view(ns@),
            nodes_view(ns@) == html_nodes(html@),
            v == html_nodes(html@),
            !(front_page_titles(html@) || contains(html@, "Page not found"@)),
            i <= items.len(),
            iv == items@.map_values(|i: usize| i as int),
            iv == select_doc(html@, ".qa-List_Item"@),
            forall|q: int| 0 <= q < items@.len() ==> 0 <= #[trigger] items@[q] < ns.len(),
            qna_items_of(html@, iv.take(i as int)) == (out@.map_values(|e: QnaEntry| entry_view(e)), true),
        decreases items.len() - i,
    {
        assert(iv.take(i + 1).drop_last() =~= iv.take(i as int));
        assert(iv.take(i + 1).last() == items@[i as int] as int);
        let it = items[i];
        match first_within_exec(html, &ns, it, ".qa-List_Ttl") {
            Some(t) => {
                let e = QnaEntry {
                    title: element_text_exec(&ns, t),
                    question: opt_text_exec(&ns, first_within_exec(html, &ns, it, ".qa-List_Txt-Q")),
                    answer: opt_text_exec(&ns, first_within_exec(html, &ns, it, ".qa-List_Txt-A")),
                    relation: opt_text_exec(&ns, first_within_exec(html, &ns, it, ".relation")),
                };
                let ghost before = out@;
                out.push(e);
                assert(out@.map_values(|e: QnaEntry| entry_view(e)) =~= before.map_values(|e: QnaEntry| entry_view(e)).push(entry_view(e)));
            },
            None => {
                proof {
                    lemma_qna_items_stop(html@, iv, i + 1);
                }
                return (out, false);
            },
        }
        i = i + 1;
    }
    assert(iv.take(i as int) =~= iv);
    (out, true)
}

proof fn lemma_qna_items_stop(h: Seq<char>, items: Seq<int>, k: int)
    requires
        0 <= k <= items.len(),
        !qna_items_of(h, items.take(k)).1,
    ensures
        qna_items_of(h, items) == qna_items_of(h, items.take(k)),
    decreases items.len() - k,
{
    if k < items.len() {
        assert(items.take(k + 1).drop_last() =~= items.take(k));
        lemma_qna_items_stop(h, items, k + 1);
    } else {
        assert(items.take(k) =~= items);
    }
}

} // verus!
