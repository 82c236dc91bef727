//! HTML pages as a flat list of nodes in document order, the elements that
//! `scraper` selects in them, and the texts and attributes that are read.
use scraper::{ElementRef, Html, Selector};
use vstd::prelude::*;
use crate::text::{chars_of, chars_of_string, eq, push_all, string_of};

verus! {

/// A node of a parsed page: an element's tag and attributes, or a text
/// node's text (tag none), and the position of its parent in the list.
#[derive(Debug, Clone)]
pub struct HtmlNode {
    pub tag: Option<String>,
    pub text: String,
    pub attrs: Vec<(String, String)>,
    pub parent: Option<usize>,
}

pub type NodeV = (Option<Seq<char>>, Seq<char>, Seq<(Seq<char>, Seq<char>)>, Option<int>);

pub open spec fn attrs_view(a: Seq<(String, String)>) -> Seq<(Seq<char>, Seq<char>)> {
    a.map_values(|p: (String, String)| (p.0@, p.1@))
}

pub open spec fn node_view(n: HtmlNode) -> NodeV {
    (
        match n.tag {
            Some(t) => Some(t@),
            None => None,
        },
        n.text@,
        attrs_view(n.attrs@),
        match n.parent {
            Some(p) => Some(p as int),
            None => None,
        },
    )
}

pub open spec fn nodes_view(v: Seq<HtmlNode>) -> Seq<NodeV> {
    v.map_values(|n: HtmlNode| node_view(n))
}

/// The nodes of a page as `scraper` parses it, in document order.
pub uninterp spec fn html_nodes(html: Seq<char>) -> Seq<NodeV>;

/// `scraper::Html::parse_document`, then every node of the tree in document
/// order (`descendants` of the root): an element as its name and attributes,
/// a text node as its text, any other node as neither; each with the
/// position of its parent. The contract names the result.
#[verifier::external_body]
pub(crate) fn parse_html(html: &str) -> (r: Vec<HtmlNode>)
    ensures
        nodes_view(r@) == html_nodes(html@),
{
    let doc = Html::parse_document(html);
    let all: Vec<_> = doc.tree.root().descendants().collect();
    all.iter().map(|n| {
        let e = n.value().as_element();
        HtmlNode {
            tag: e.map(|e| e.name().into()),
            text: n.value().as_text().map(|t| t.to_string()).unwrap_or_default(),
            attrs: e.map(|e| e.attrs().map(|(k, v)| (k.into(), v.into())).collect()).unwrap_or_default(),
            parent: n.parent().and_then(|p| all.iter().position(|m| *m == p)),
        }
    }).collect()
}

// ---------------------------------------------------------------------------
// the tree
// ---------------------------------------------------------------------------
/// The parent of node `k`, when it comes before `k`.
pub open spec fn parent_of(ns: Seq<NodeV>, k: int) -> Option<int> {
    if 0 <= k < ns.len() {
        match ns[k].3 {
            Some(p) => if 0 <= p < k {
                Some(p)
            } else {
                None
            },
            None => None,
        }
    } else {
        None
    }
}

/// Node `k` lies inside node `i`: `i` is its parent, or its parent's, and so on.
pub open spec fn inside(ns: Seq<NodeV>, k: int, i: int) -> bool
    decreases k,
{
    match parent_of(ns, k) {
        Some(p) => p == i || inside(ns, p, i),
        None => false,
    }
}

/// The first node from `j` on that does not lie inside node `i`: node `i`'s
/// contents are the nodes after it up to there.
pub open spec fn run_end(ns: Seq<NodeV>, i: int, j: int) -> int
    decreases ns.len() - j,
{
    if j < 0 || j >= ns.len() || !inside(ns, j, i) {
        j
    } else {
        run_end(ns, i, j + 1)
    }
}

/// The end of the contents of node `e`.
pub open spec fn end_of(ns: Seq<NodeV>, e: int) -> int {
    run_end(ns, e, e + 1)
}

/// The value of the first attribute named `name`.
pub open spec fn attr_value(attrs: Seq<(Seq<char>, Seq<char>)>, name: Seq<char>) -> Option<Seq<char>>
    decreases attrs.len(),
{
    if attrs.len() == 0 {
        None
    } else if attrs[0].0 == name {
        Some(attrs[0].1)
    } else {
        attr_value(attrs.drop_first(), name)
    }
}

pub open spec fn is_element(ns: Seq<NodeV>, k: int) -> bool {
    0 <= k < ns.len() && ns[k].0 is Some
}

/// The attribute `name` of node `k`.
pub open spec fn node_attr(ns: Seq<NodeV>, k: int, name: Seq<char>) -> Option<Seq<char>> {
    if 0 <= k < ns.len() {
        attr_value(ns[k].2, name)
    } else {
        None
    }
}

/// The parent of node `k`, when it comes before it.
pub fn parent_exec_pub(ns: &Vec<HtmlNode>, k: usize) -> (r: Option<usize>)
    ensures
        match r {
            Some(p) => parent_of(nodes_view(ns@), k as int) == Some(p as int),
            None => parent_of(nodes_view(ns@), k as int) is None,
        },
{
    parent_exec(ns, k)
}

fn parent_exec(ns: &Vec<HtmlNode>, k: usize) -> (r: Option<usize>)
    ensures
        match r {
            Some(p) => parent_of(nodes_view(ns@), k as int) == Some(p as int),
            None => parent_of(nodes_view(ns@), k as int) is None,
        },
{
    if k < ns.len() {
        assert(nodes_view(ns@)[k as int] == node_view(ns@[k as int]));
        match ns[k].parent {
            Some(p) => if p < k {
                Some(p)
            } else {
                None
            },
            None => None,
        }
    } else {
        None
    }
}

fn inside_exec(ns: &Vec<HtmlNode>, k: usize, i: usize) -> (r: bool)
    ensures
        r == inside(nodes_view(ns@), k as int, i as int),
{
    let ghost v = nodes_view(ns@);
    let mut cur = k;
    loop
        invariant
            v == nodes_view(ns@),
            inside(v, k as int, i as int) == inside(v, cur as int, i as int),
        decreases cur,
    {
        match parent_exec(ns, cur) {
            Some(p) => {
                if p == i {
                    return true;
                }
                cur = p;
            },
            None => {
                return false;
            },
        }
    }
}

/// The end of the contents of node `e`.
pub fn end_exec(ns: &Vec<HtmlNode>, e: usize) -> (r: usize)
    requires
        e < ns.len(),
    ensures
        r as int == end_of(nodes_view(ns@), e as int),
        e < r <= ns.len(),
{
    let ghost v = nodes_view(ns@);
    let mut j = e + 1;
    while j < ns.len() && inside_exec(ns, j, e)
        invariant
            v == nodes_view(ns@),
            e < j <= ns.len(),
            run_end(v, e as int, e + 1) == run_end(v, e as int, j as int),
        decreases ns.len() - j,
    {
        j = j + 1;
    }
    j
}

fn attr_exec(attrs: &Vec<(String, String)>, name: &str) -> (r: Option<String>)
    ensures
        match r {
            Some(s) => attr_value(attrs_view(attrs@), name@) == Some(s@),
            None => attr_value(attrs_view(attrs@), name@) is None,
        },
{
    let ghost av = attrs_view(attrs@);
    let n = chars_of(name);
    let mut k: usize = 0;
    assert(av.skip(0) =~= av);
    while k < attrs.len()
        invariant
            k <= attrs.len(),
            av == attrs_view(attrs@),
            n@ == name@,
            attr_value(av, name@) == attr_value(av.skip(k as int), name@),
        decreases attrs.len() - k,
    {
        assert(av.skip(k as int).drop_first() =~= av.skip(k + 1));
        assert(av.skip(k as int)[0] == av[k as int]);
        if eq(&chars_of_string(&attrs[k].0), &n) {
            return Some(attrs[k].1.clone());
        }
        k = k + 1;
    }
    assert(av.skip(k as int) =~= Seq::<(Seq<char>, Seq<char>)>::empty());
    None
}

/// The attribute `name` of node `k`.
pub fn node_attr_exec(ns: &Vec<HtmlNode>, k: usize, name: &str) -> (r: Option<String>)
    requires
        k < ns.len(),
    ensures
        match r {
            Some(s) => node_attr(nodes_view(ns@), k as int, name@) == Some(s@),
            None => node_attr(nodes_view(ns@), k as int, name@) is None,
        },
{
    assert(nodes_view(ns@)[k as int] == node_view(ns@[k as int]));
    attr_exec(&ns[k].attrs, name)
}

// ---------------------------------------------------------------------------
// selections
// ---------------------------------------------------------------------------
pub open spec fn positions_view(r: Option<Vec<usize>>) -> Option<Seq<int>> {
    match r {
        Some(v) => Some(v@.map_values(|k: usize| k as int)),
        None => None,
    }
}

/// The elements of the page that `scraper` selects with `selector` over the
/// whole document, in the order it gives them, as positions among the nodes
/// of `html_nodes`; none where it refuses the selector.
pub uninterp spec fn html_selected(html: Seq<char>, selector: Seq<char>) -> Option<Seq<int>>;

/// `scraper::Html::parse_document`, `Selector::parse` and `Html::select`;
/// each element selected is given by its position among the nodes in
/// document order. The contract names the result.
#[verifier::external_body]
fn select_document(html: &str, selector: &str) -> (r: Option<Vec<usize>>)
    ensures
        positions_view(r) == html_selected(html@, selector@),
{
    let doc = Html::parse_document(html);
    let sel = Selector::parse(selector).ok()?;
    let all: Vec<_> = doc.tree.root().descendants().collect();
    doc.select(&sel).map(|e| all.iter().position(|n| *n == *e)).collect()
}

/// The elements inside node `scope` that `scraper` selects with `selector`
/// (`ElementRef::select`), in the order it gives them, as positions among the
/// nodes of `html_nodes`; none where it refuses the selector or `scope` is
/// not an element.
pub uninterp spec fn html_selected_in(html: Seq<char>, scope: int, selector: Seq<char>) -> Option<Seq<int>>;

/// `scraper::Html::parse_document`, `Selector::parse`, `ElementRef::wrap` of
/// the node at position `scope`, and `ElementRef::select`; each element
/// selected is given by its position among the nodes in document order. The
/// contract names the result.
#[verifier::external_body]
fn select_element(html: &str, scope: usize, selector: &str) -> (r: Option<Vec<usize>>)
    ensures
        positions_view(r) == html_selected_in(html@, scope as int, selector@),
{
    let doc = Html::parse_document(html);
    let sel = Selector::parse(selector).ok()?;
    let all: Vec<_> = doc.tree.root().descendants().collect();
    let e = ElementRef::wrap(*all.get(scope)?)?;
    e.select(&sel).map(|m| all.iter().position(|n| *n == *m)).collect()
}

/// Every position stands among `n` nodes.
pub open spec fn among(v: Seq<int>, n: int) -> bool {
    forall|i: int| 0 <= i < v.len() ==> 0 <= #[trigger] v[i] < n
}

/// A selection read against the page's nodes: nothing where the selector was
/// refused or a position falls outside the nodes.
pub open spec fn checked(r: Option<Seq<int>>, n: int) -> Seq<int> {
    match r {
        Some(v) => if among(v, n) {
            v
        } else {
            Seq::empty()
        },
        None => Seq::empty(),
    }
}

/// What `selector` selects in the page.
pub open spec fn select_doc(html: Seq<char>, selector: Seq<char>) -> Seq<int> {
    checked(html_selected(html, selector), html_nodes(html).len() as int)
}

/// What `selector` selects inside node `e` of the page.
pub open spec fn select_within(html: Seq<char>, e: int, selector: Seq<char>) -> Seq<int> {
    checked(html_selected_in(html, e, selector), html_nodes(html).len() as int)
}

/// The first element inside node `e` that `selector` selects.
pub open spec fn first_within(html: Seq<char>, e: int, selector: Seq<char>) -> Option<int> {
    let s = select_within(html, e, selector);
    if s.len() > 0 {
        Some(s[0])
    } else {
        None
    }
}

fn checked_exec(r: Option<Vec<usize>>, n: usize) -> (out: Vec<usize>)
    ensures
        out@.map_values(|k: usize| k as int) == checked(positions_view(r), n as int),
        forall|j: int| 0 <= j < out@.len() ==> #[trigger] out@[j] < n,
{
    let ghost rv = positions_view(r);
    match r {
        Some(v) => {
            let ghost pv = v@.map_values(|k: usize| k as int);
            assert(rv == Some(pv));
            let mut i: usize = 0;
            while i < v.len()
                invariant
                    rv == Some(pv),
                    rv == positions_view(r),
                    i <= v.len(),
                    pv == v@.map_values(|k: usize| k as int),
                    forall|j: int| 0 <= j < i ==> v@[j] < n,
                decreases v.len() - i,
            {
                if v[i] >= n {
                    assert(pv[i as int] == v@[i as int] as int);
                    assert(!among(pv, n as int));
                    let e: Vec<usize> = Vec::new();
                    assert(e@.map_values(|k: usize| k as int) =~= Seq::<int>::empty());
                    return e;
                }
                i = i + 1;
            }
            assert(among(pv, n as int)) by {
                assert forall|j: int| 0 <= j < pv.len() implies 0 <= #[trigger] pv[j] < n as int by {
                    assert(pv[j] == v@[j] as int);
                }
            }
            v
        },
        None => {
            let e: Vec<usize> = Vec::new();
            assert(e@.map_values(|k: usize| k as int) =~= Seq::<int>::empty());
            e
        },
    }
}

/// What `selector` selects in the page whose nodes are `ns`.
pub fn select_doc_exec(html: &str, ns: &Vec<HtmlNode>, selector: &str) -> (r: Vec<usize>)
    requires
        nodes_view(ns@) == html_nodes(html@),
    ensures
        r@.map_values(|k: usize| k as int) == select_doc(html@, selector@),
        forall|j: int| 0 <= j < r@.len() ==> #[trigger] r@[j] < ns.len(),
{
    assert(nodes_view(ns@).len() == ns@.len());
    checked_exec(select_document(html, selector), ns.len())
}

/// What `selector` selects inside node `e` of the page whose nodes are `ns`.
pub fn select_within_exec(html: &str, ns: &Vec<HtmlNode>, e: usize, selector: &str) -> (r: Vec<usize>)
    requires
        nodes_view(ns@) == html_nodes(html@),
    ensures
        r@.map_values(|k: usize| k as int) == select_within(html@, e as int, selector@),
        forall|j: int| 0 <= j < r@.len() ==> #[trigger] r@[j] < ns.len(),
{
    assert(nodes_view(ns@).len() == ns@.len());
    checked_exec(select_element(html, e, selector), ns.len())
}

/// The first element inside node `e` that `selector` selects.
pub fn first_within_exec(html: &str, ns: &Vec<HtmlNode>, e: usize, selector: &str) -> (r: Option<usize>)
    requires
        nodes_view(ns@) == html_nodes(html@),
    ensures
        match r {
            Some(k) => first_within(html@, e as int, selector@) == Some(k as int) && k < ns.len(),
            None => first_within(html@, e as int, selector@) is None,
        },
{
    let s = select_within_exec(html, ns, e, selector);
    if s.len() > 0 {
        assert(s@.map_values(|k: usize| k as int)[0] == s@[0] as int);
        Some(s[0])
    } else {
        None
    }
}

// ---------------------------------------------------------------------------
// texts
// ---------------------------------------------------------------------------
/// The texts of the text nodes in `[lo, hi)`, run together.
pub open spec fn text_in(ns: Seq<NodeV>, lo: int, hi: int) -> Seq<char>
    decreases hi - lo,
{
    if hi <= lo {
        Seq::empty()
    } else {
        text_in(ns, lo, hi - 1) + if 0 <= hi - 1 < ns.len() && ns[hi - 1].0 is None {
            ns[hi - 1].1
        } else {
            Seq::empty()
        }
    }
}

/// The text of element `e`: the texts inside it, run together.
pub open spec fn element_text(ns: Seq<NodeV>, e: int) -> Seq<char> {
    text_in(ns, e + 1, end_of(ns, e))
}

/// The texts of the text nodes in `[lo, hi)`, one by one.
pub open spec fn text_pieces(ns: Seq<NodeV>, lo: int, hi: int) -> Seq<Seq<char>>
    decreases hi - lo,
{
    if hi <= lo {
        Seq::empty()
    } else if 0 <= hi - 1 < ns.len() && ns[hi - 1].0 is None {
        text_pieces(ns, lo, hi - 1).push(ns[hi - 1].1)
    } else {
        text_pieces(ns, lo, hi - 1)
    }
}

/// The texts in `[lo, hi)` with a line break for each `br` element.
pub open spec fn content_in(ns: Seq<NodeV>, lo: int, hi: int) -> Seq<char>
    decreases hi - lo,
{
    if hi <= lo {
        Seq::empty()
    } else {
        content_in(ns, lo, hi - 1) + if 0 <= hi - 1 < ns.len() && ns[hi - 1].0 is None {
            ns[hi - 1].1
        } else if 0 <= hi - 1 < ns.len() && ns[hi - 1].0 == Some("br"@) {
            seq!['\n']
        } else {
            Seq::empty()
        }
    }
}

/// A line for each text node and each `alt` attribute of an element in `[lo, hi)`.
pub open spec fn alt_lines_in(ns: Seq<NodeV>, lo: int, hi: int) -> Seq<char>
    decreases hi - lo,
{
    if hi <= lo {
        Seq::empty()
    } else {
        alt_lines_in(ns, lo, hi - 1) + if 0 <= hi - 1 < ns.len() && ns[hi - 1].0 is None {
            ns[hi - 1].1.push('\n')
        } else {
            match node_attr(ns, hi - 1, "alt"@) {
                Some(a) => a.push('\n'),
                None => Seq::empty(),
            }
        }
    }
}

pub fn text_in_exec(ns: &Vec<HtmlNode>, lo: usize, hi: usize) -> (r: String)
    requires
        hi <= ns.len(),
    ensures
        r@ == text_in(nodes_view(ns@), lo as int, hi as int),
{
    let ghost v = nodes_view(ns@);
    let mut out: Vec<char> = Vec::new();
    let mut j = lo;
    if hi <= lo {
        return string_of(&out);
    }
    while j < hi
        invariant
            v == nodes_view(ns@),
            lo <= j <= hi <= ns.len(),
            out@ == text_in(v, lo as int, j as int),
        decreases hi - j,
    {
        assert(v[j as int] == node_view(ns@[j as int]));
        if ns[j].tag.is_none() {
            push_all(&mut out, &chars_of_string(&ns[j].text));
        } else {
            assert(out@ =~= out@ + Seq::<char>::empty());
        }
        j = j + 1;
    }
    string_of(&out)
}

/// The text of element `e`.
pub fn element_text_exec(ns: &Vec<HtmlNode>, e: usize) -> (r: String)
    requires
        e < ns.len(),
    ensures
        r@ == element_text(nodes_view(ns@), e as int),
{
    let end = end_exec(ns, e);
    text_in_exec(ns, e + 1, end)
}

pub fn text_pieces_exec(ns: &Vec<HtmlNode>, lo: usize, hi: usize) -> (r: Vec<String>)
    requires
        hi <= ns.len(),
    ensures
        r@.map_values(|s: String| s@) == text_pieces(nodes_view(ns@), lo as int, hi as int),
{
    let ghost v = nodes_view(ns@);
    let mut out: Vec<String> = Vec::new();
    if hi <= lo {
        assert(out@.map_values(|s: String| s@) =~= Seq::<Seq<char>>::empty());
        return out;
    }
    let mut j = lo;
    assert(out@.map_values(|s: String| s@) =~= Seq::<Seq<char>>::empty());
    while j < hi
        invariant
            v == nodes_view(ns@),
            lo <= j <= hi <= ns.len(),
            out@.map_values(|s: String| s@) == text_pieces(v, lo as int, j as int),
        decreases hi - j,
    {
        assert(v[j as int] == node_view(ns@[j as int]));
        if ns[j].tag.is_none() {
            let ghost before = out@;
            out.push(ns[j].text.clone());
            assert(out@.map_values(|s: String| s@) =~= before.map_values(|s: String| s@).push(ns@[j as int].text@));
        }
        j = j + 1;
    }
    out
}

pub fn content_in_exec(ns: &Vec<HtmlNode>, lo: usize, hi: usize) -> (r: Vec<char>)
    requires
        hi <= ns.len(),
    ensures
        r@ == content_in(nodes_view(ns@), lo as int, hi as int),
{
    let ghost v = nodes_view(ns@);
    let mut out: Vec<char> = Vec::new();
    if hi <= lo {
        return out;
    }
    let mut j = lo;
    let br = chars_of("br");
    while j < hi
        invariant
            v == nodes_view(ns@),
            br@ == "br"@,
            lo <= j <= hi <= ns.len(),
            out@ == content_in(v, lo as int, j as int),
        decreases hi - j,
    {
        assert(v[j as int] == node_view(ns@[j as int]));
        match &ns[j].tag {
            None => {
                push_all(&mut out, &chars_of_string(&ns[j].text));
            },
            Some(t) => {
                if eq(&chars_of_string(t), &br) {
                    out.push('\n');
                } else {
                    assert(out@ =~= out@ + Seq::<char>::empty());
                }
            },
        }
        j = j + 1;
    }
    out
}

pub fn alt_lines_exec(ns: &Vec<HtmlNode>, lo: usize, hi: usize) -> (r: String)
    requires
        hi <= ns.len(),
    ensures
        r@ == alt_lines_in(nodes_view(ns@), lo as int, hi as int),
{
    let ghost v = nodes_view(ns@);
    let mut out: Vec<char> = Vec::new();
    if hi <= lo {
        return string_of(&out);
    }
    let mut j = lo;
    while j < hi
        invariant
            v == nodes_view(ns@),
            lo <= j <= hi <= ns.len(),
            out@ == alt_lines_in(v, lo as int, j as int),
        decreases hi - j,
    {
        assert(v[j as int] == node_view(ns@[j as int]));
        if ns[j].tag.is_none() {
            push_all(&mut out, &chars_of_string(&ns[j].text));
            out.push('\n');
        } else {
            match node_attr_exec(ns, j, "alt") {
                Some(a) => {
                    push_all(&mut out, &chars_of_string(&a));
                    out.push('\n');
                },
                None => {
                    assert(out@ =~= out@ + Seq::<char>::empty());
                },
            }
        }
        j = j + 1;
    }
    string_of(&out)
}

} // verus!
