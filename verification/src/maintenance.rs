//! Upkeep of the card database: merging printings that show the same image,
//! dropping what nothing refers to, and listing the image files still in use.
use std::collections::BTreeSet;
use vstd::prelude::*;
use crate::text::{chars_of_string, contains, eq, starts_with, starts_with_str};
use crate::model::{Card, CardIllustration, CardIllustrationView, CardView, Language, Localized, Order, SheetCell, TextPair, char_views, compare_text, lemma_btree_iter_sorted, lemma_text_order_antisymmetric, lemma_text_order_chain, lemma_text_order_reflexive, opt_cells, opt_set, opt_view, push_unique, push_unique_exec, text_order, views};
use crate::images::{PROXIES_FOLDER, first_id, least_id};
use crate::spreadsheet::{card_views};
use crate::sheet::{text_get};
use crate::img_hash::{can_merge, merge_allowed};


















use vstd::pervasive::VecAdditionalExecFns;
use vstd::std_specs::btree::spec_btree_keys_iter;
use vstd::std_specs::iter::IteratorSpec;

verus! {

broadcast use {vstd::std_specs::btree::group_btree_axioms, vstd::laws_cmp::group_laws_cmp};

// ---------------------------------------------------------------------------
// the order in which printings are merged
// ---------------------------------------------------------------------------
/// The first Deck Log id of a printing in a language, or the largest id.
pub open spec fn first_or_max(ids: Option<Set<u32>>) -> u32 {
    match ids {
        Some(s) => match least_id(s) {
            Some(m) => m,
            None => u32::MAX,
        },
        None => u32::MAX,
    }
}

/// The release order of a printing: its first id in either language.
pub open spec fn release_rank(il: CardIllustrationView) -> u32 {
    let a = first_or_max(il.manage_id.0);
    let b = first_or_max(il.manage_id.1);
    if a <= b {
        a
    } else {
        b
    }
}

/// `a` comes after `x`: by rarity, then by release order.
pub open spec fn merge_after(a: CardIllustrationView, x: CardIllustrationView) -> bool {
    text_order(a.rarity, x.rarity) == Order::Greater || (text_order(a.rarity, x.rarity) == Order::Equal
        && release_rank(a) > release_rank(x))
}

/// Where `x` goes among `r`: after every printing that does not come after it.
pub open spec fn merge_pos(r: Seq<CardIllustrationView>, x: CardIllustrationView, i: int) -> int
    decreases r.len() - i,
{
    if i < 0 || i >= r.len() {
        r.len() as int
    } else if merge_after(r[i], x) {
        i
    } else {
        merge_pos(r, x, i + 1)
    }
}

/// The printings ordered by rarity, then by release order; printings that
/// tie keep their first order (a stable sort).
pub open spec fn merge_order(ils: Seq<CardIllustrationView>) -> Seq<CardIllustrationView>
    decreases ils.len(),
{
    if ils.len() == 0 {
        ils
    } else {
        let r = merge_order(ils.drop_last());
        r.insert(merge_pos(r, ils.last(), 0), ils.last())
    }
}

proof fn lemma_merge_pos_bounds(r: Seq<CardIllustrationView>, x: CardIllustrationView, i: int)
    requires
        0 <= i <= r.len(),
    ensures
        i <= merge_pos(r, x, i) <= r.len(),
    decreases r.len() - i,
{
    if i < r.len() && !merge_after(r[i], x) {
        lemma_merge_pos_bounds(r, x, i + 1);
    }
}

proof fn lemma_merge_order_len(ils: Seq<CardIllustrationView>)
    ensures
        merge_order(ils).len() == ils.len(),
    decreases ils.len(),
{
    if ils.len() > 0 {
        lemma_merge_order_len(ils.drop_last());
        lemma_merge_pos_bounds(merge_order(ils.drop_last()), ils.last(), 0);
    }
}

/// Where each printing of `merge_order(ils)` stood in `ils`.
pub open spec fn merge_perm(ils: Seq<CardIllustrationView>) -> Seq<usize>
    decreases ils.len(),
{
    if ils.len() == 0 {
        Seq::empty()
    } else {
        let r = merge_order(ils.drop_last());
        merge_perm(ils.drop_last()).insert(merge_pos(r, ils.last(), 0), (ils.len() - 1) as usize)
    }
}

/// Ordering moves the printings: each one of the order is the printing of
/// `ils` at the position `merge_perm` gives.
pub proof fn lemma_merge_perm(ils: Seq<CardIllustrationView>)
    requires
        ils.len() <= usize::MAX,
    ensures
        merge_order(ils).len() == ils.len(),
        merge_perm(ils).len() == ils.len(),
        forall|k: int|
            0 <= k < ils.len() ==> (#[trigger] merge_perm(ils)[k]) < ils.len() && merge_order(ils)[k] == ils[merge_perm(ils)[k] as int],
    decreases ils.len(),
{
    lemma_merge_order_len(ils);
    if ils.len() > 0 {
        let init = ils.drop_last();
        lemma_merge_perm(init);
        let r = merge_order(init);
        let p = merge_perm(init);
        let q = merge_pos(r, ils.last(), 0);
        lemma_merge_pos_bounds(r, ils.last(), 0);
        assert forall|k: int| 0 <= k < ils.len() implies (#[trigger] merge_perm(ils)[k]) < ils.len() && merge_order(ils)[k]
            == ils[merge_perm(ils)[k] as int] by {
            if k < q {
                assert(merge_perm(ils)[k] == p[k]);
                assert(merge_order(ils)[k] == r[k]);
                assert(init[p[k] as int] == ils[p[k] as int]);
            } else if k == q {
                assert(merge_perm(ils)[k] == (ils.len() - 1) as usize);
                assert(merge_order(ils)[k] == ils.last());
            } else {
                assert(merge_perm(ils)[k] == p[k - 1]);
                assert(merge_order(ils)[k] == r[k - 1]);
                assert(init[p[k - 1] as int] == ils[p[k - 1] as int]);
            }
        }
    }
}

/// The printings are in merge order: none comes after a later one.
pub open spec fn merge_sorted(ils: Seq<CardIllustrationView>) -> bool {
    forall|k: int, l: int| 0 <= k < l < ils.len() ==> !merge_after(ils[k], ils[l])
}

proof fn lemma_merge_after_irreflexive(a: CardIllustrationView)
    ensures
        !merge_after(a, a),
{
    lemma_text_order_reflexive(a.rarity);
}

proof fn lemma_merge_after_transitive(a: CardIllustrationView, b: CardIllustrationView, c: CardIllustrationView)
    requires
        merge_after(a, b),
        merge_after(b, c),
    ensures
        merge_after(a, c),
{
    lemma_text_order_antisymmetric(a.rarity, b.rarity);
    lemma_text_order_antisymmetric(b.rarity, c.rarity);
    lemma_text_order_antisymmetric(a.rarity, c.rarity);
    lemma_text_order_chain(c.rarity, b.rarity, a.rarity);
}

proof fn lemma_merge_pos_before(r: Seq<CardIllustrationView>, x: CardIllustrationView, i: int)
    requires
        0 <= i <= r.len(),
    ensures
        forall|k: int| i <= k < merge_pos(r, x, i) ==> !merge_after(#[trigger] r[k], x),
        merge_pos(r, x, i) < r.len() ==> merge_after(r[merge_pos(r, x, i)], x),
    decreases r.len() - i,
{
    if i < r.len() && !merge_after(r[i], x) {
        lemma_merge_pos_before(r, x, i + 1);
    }
}

/// Ordering for the merge gives printings in merge order.
pub proof fn lemma_merge_order_sorted(ils: Seq<CardIllustrationView>)
    ensures
        merge_sorted(merge_order(ils)),
    decreases ils.len(),
{
    if ils.len() > 0 {
        let x = ils.last();
        lemma_merge_order_sorted(ils.drop_last());
        let r = merge_order(ils.drop_last());
        let q = merge_pos(r, x, 0);
        lemma_merge_pos_bounds(r, x, 0);
        lemma_merge_pos_before(r, x, 0);
        let t = r.insert(q, x);
        assert forall|k: int, l: int| 0 <= k < l < t.len() implies !merge_after(t[k], t[l]) by {
            if l < q {
                assert(t[k] == r[k] && t[l] == r[l]);
            } else if l == q {
                assert(t[k] == r[k] && t[l] == x);
            } else if k < q {
                assert(t[k] == r[k] && t[l] == r[l - 1]);
            } else if k == q {
                assert(t[k] == x && t[l] == r[l - 1]);
                // x is not after anything from r[q] on: r[q] comes after x
                assert(merge_after(r[q], x));
                if merge_after(x, r[l - 1]) {
                    lemma_merge_after_transitive(r[q], x, r[l - 1]);
                    if l - 1 == q {
                        lemma_merge_after_irreflexive(r[q]);
                    }
                }
            } else {
                assert(t[k] == r[k - 1] && t[l] == r[l - 1]);
            }
        }
    }
}

fn first_or_max_of(ids: &Option<BTreeSet<u32>>) -> (r: u32)
    ensures
        r == first_or_max(opt_set(*ids)),
{
    match first_id(ids) {
        Some(m) => m,
        None => u32::MAX,
    }
}

fn release_rank_of(il: &CardIllustration) -> (r: u32)
    ensures
        r == release_rank(il@),
{
    let a = first_or_max_of(&il.manage_id.japanese);
    let b = first_or_max_of(&il.manage_id.english);
    if a <= b {
        a
    } else {
        b
    }
}

fn merge_after_of(a: &CardIllustration, x_rarity: &Vec<char>, x_rank: u32) -> (r: bool)
    ensures
        forall|x: CardIllustrationView| x.rarity == x_rarity@ && release_rank(x) == x_rank ==> r == merge_after(a@, x),
{
    match compare_text(&chars_of_string(&a.rarity), x_rarity) {
        Order::Greater => true,
        Order::Equal => release_rank_of(a) > x_rank,
        Order::Less => false,
    }
}

/// Orders a card's printings by rarity, then by release order; returns where
/// each printing of the new order stood before.
pub fn sort_for_merge(ils: &mut Vec<CardIllustration>) -> (perm: Vec<usize>)
    ensures
        final(ils)@.map_values(|i: CardIllustration| i@) == merge_order(old(ils)@.map_values(|i: CardIllustration| i@)),
        perm@ == merge_perm(old(ils)@.map_values(|i: CardIllustration| i@)),
{
    let ghost v = ils@.map_values(|i: CardIllustration| i@);
    let len0 = ils.len();
    assert(v.len() == len0);
    let mut src: Vec<CardIllustration> = Vec::new();
    std::mem::swap(&mut src, ils);
    let mut r: Vec<CardIllustration> = Vec::new();
    let mut perm: Vec<usize> = Vec::new();
    let mut n: usize = 0;
    let ghost mut i: int = 0;
    assert(src@.map_values(|x: CardIllustration| x@) =~= v.skip(0));
    assert(r@.map_values(|x: CardIllustration| x@) =~= merge_order(v.take(0)));
    assert(perm@ =~= merge_perm(v.take(0)));
    while src.len() > 0
        invariant
            0 <= i <= v.len(),
            v.len() <= usize::MAX,
            n == i,
            src@.map_values(|x: CardIllustration| x@) == v.skip(i),
            r@.map_values(|x: CardIllustration| x@) == merge_order(v.take(i)),
            perm@ == merge_perm(v.take(i)),
        decreases src.len(),
    {
        let ghost sv = src@;
        assert(sv.map_values(|x: CardIllustration| x@).len() == sv.len());
        assert(i < v.len());
        let il = src.remove(0);
        assert(il@ == v[i]) by {
            assert(il == sv[0]);
            assert(sv.map_values(|x: CardIllustration| x@)[0] == sv[0]@);
            assert(v.skip(i)[0] == v[i]);
        }
        assert(src@.map_values(|x: CardIllustration| x@) =~= v.skip(i + 1)) by {
            assert(src@ =~= sv.remove(0));
            assert forall|j: int| 0 <= j < src@.len() implies src@[j]@ == v.skip(i + 1)[j] by {
                assert(src@[j] == sv[j + 1]);
                assert(sv.map_values(|x: CardIllustration| x@)[j + 1] == v.skip(i)[j + 1]);
            }
        }
        let rarity = chars_of_string(&il.rarity);
        let rank = release_rank_of(&il);
        let ghost r0 = r@.map_values(|x: CardIllustration| x@);
        let mut p: usize = 0;
        while p < r.len() && !merge_after_of(&r[p], &rarity, rank)
            invariant
                p <= r.len(),
                r0 == r@.map_values(|x: CardIllustration| x@),
                rarity@ == il@.rarity,
                rank == release_rank(il@),
                merge_pos(r0, il@, 0) == merge_pos(r0, il@, p as int),
            decreases r.len() - p,
        {
            assert(r0[p as int] == r@[p as int]@);
            p = p + 1;
        }
        proof {
            if p < r.len() {
                assert(r0[p as int] == r@[p as int]@);
            }
        }
        r.insert(p, il);
        proof {
            lemma_merge_perm(v.take(i));
        }
        perm.insert(p, n);
        n = n + 1;
        proof {
            assert(r@.map_values(|x: CardIllustration| x@) =~= r0.insert(p as int, il@));
            assert(v.take(i + 1).drop_last() =~= v.take(i));
            assert(v.take(i + 1).last() == v[i]);
            i = i + 1;
        }
    }
    assert(v.take(i) =~= v) by {
        assert(v.skip(i).len() == 0);
    }
    *ils = r;
    perm
}

// ---------------------------------------------------------------------------
// merging two printings
// ---------------------------------------------------------------------------
/// Deck Log ids of both printings in a language; none only when neither has any.
pub open spec fn ids_union(a: Option<Set<u32>>, b: Option<Set<u32>>) -> Option<Set<u32>> {
    match b {
        Some(sb) => match a {
            Some(sa) => Some(sa.union(sb)),
            None => Some(sb),
        },
        None => a,
    }
}

/// An image path under the proxy folder.
pub open spec fn is_proxy(p: Seq<char>) -> bool {
    starts_with(p, PROXIES_FOLDER@)
}

/// A path that is under the proxy folder.
pub open spec fn proxy_path(p: Option<Seq<char>>) -> bool {
    p matches Some(x) && is_proxy(x)
}

/// The kept printing takes the other's image in a language when it has none,
/// or when its own is a proxy and the other's is not.
pub open spec fn takes_image(a: CardIllustrationView, b: CardIllustrationView, language: Language) -> bool {
    text_get(a.img_path, language) is None || (proxy_path(text_get(a.img_path, language)) && text_get(
        b.img_path,
        language,
    ) is Some && !proxy_path(text_get(b.img_path, language)))
}

pub open spec fn pick<T>(take: bool, a: Option<T>, b: Option<T>) -> Option<T> {
    if take {
        b
    } else {
        a
    }
}

pub open spec fn or_else<T>(a: Option<T>, b: Option<T>) -> Option<T> {
    if a is Some {
        a
    } else {
        b
    }
}

pub open spec fn cells_or_empty(c: Option<Seq<(u64, Seq<char>)>>) -> Seq<(u64, Seq<char>)> {
    match c {
        Some(v) => v,
        None => Seq::empty(),
    }
}

/// Printing `a` with what `b` adds to it: both printings' ids, `b`'s image
/// where `a` takes it, `b`'s hash, illustrator, links and art index where `a`
/// has none, and the sheet cells of both (none when there are none).
pub open spec fn merged_il(a: CardIllustrationView, b: CardIllustrationView) -> CardIllustrationView {
    let tj = takes_image(a, b, Language::Japanese);
    let te = takes_image(a, b, Language::English);
    let cells = cells_or_empty(a.ogbajoj_sheet_cells) + cells_or_empty(b.ogbajoj_sheet_cells);
    CardIllustrationView {
        manage_id: (ids_union(a.manage_id.0, b.manage_id.0), ids_union(a.manage_id.1, b.manage_id.1)),
        img_path: (pick(tj, a.img_path.0, b.img_path.0), pick(te, a.img_path.1, b.img_path.1)),
        img_last_modified: (
            pick(tj, a.img_last_modified.0, b.img_last_modified.0),
            pick(te, a.img_last_modified.1, b.img_last_modified.1),
        ),
        img_hash: if a.img_hash.len() == 0 {
            b.img_hash
        } else {
            a.img_hash
        },
        illustrator: or_else(a.illustrator, b.illustrator),
        yuyutei_sell_url: or_else(a.yuyutei_sell_url, b.yuyutei_sell_url),
        tcgplayer_product_id: or_else(a.tcgplayer_product_id, b.tcgplayer_product_id),
        delta_art_index: or_else(a.delta_art_index, b.delta_art_index),
        ogbajoj_sheet_cells: if cells.len() == 0 {
            None
        } else {
            Some(cells)
        },
        ..a
    }
}

fn union_ids(a: Option<BTreeSet<u32>>, b: Option<BTreeSet<u32>>) -> (r: Option<BTreeSet<u32>>)
    ensures
        opt_set(r) == ids_union(opt_set(a), opt_set(b)),
{
    match b {
        Some(sb) => match a {
            Some(mut sa) => {
                let ghost a0 = sa@;
                let ghost q = spec_btree_keys_iter(&sb).remaining().unref();
                proof {
                    lemma_btree_iter_sorted(&sb);
                }
                for x in it: sb.iter()
                    invariant
                        q == spec_btree_keys_iter(&sb).remaining().unref(),
                        q.to_set() == sb@,
                        it.seq().unref() == q,
                        sa@ == a0.union(q.take(it.index() as int).to_set()),
                {
                    let ghost k = it.index();
                    sa.insert(*x);
                    proof {
                        assert(q.take(k + 1) =~= q.take(k).push(q[k]));
                        q.take(k).lemma_push_to_set_commute(q[k]);
                        assert(q.take(k + 1).to_set() =~= q.take(k).to_set().insert(q[k]));
                    }
                }
                proof {
                    assert(q.take(q.len() as int) =~= q);
                    assert(sa@ =~= a0.union(sb@));
                }
                Some(sa)
            },
            None => Some(sb),
        },
        None => a,
    }
}

fn is_proxy_of(p: &Option<String>) -> (r: bool)
    ensures
        r == proxy_path(opt_view(*p)),
{
    match p {
        Some(x) => starts_with_str(&chars_of_string(x), PROXIES_FOLDER),
        None => false,
    }
}

fn takes_image_of(a: &CardIllustration, b: &CardIllustration, language: Language) -> (r: bool)
    ensures
        r == takes_image(a@, b@, language),
{
    let pa = a.img_path.value(language);
    let pb = b.img_path.value(language);
    pa.is_none() || (is_proxy_of(pa) && pb.is_some() && !is_proxy_of(pb))
}

/// Merges printing `b` into printing `a`.
pub fn merge_illustrations(a: CardIllustration, b: CardIllustration) -> (r: CardIllustration)
    ensures
        r@ == merged_il(a@, b@),
{
    let tj = takes_image_of(&a, &b, Language::Japanese);
    let te = takes_image_of(&a, &b, Language::English);
    let CardIllustration {
        card_number,
        manage_id,
        rarity,
        illustrator,
        img_path,
        img_last_modified,
        img_hash,
        ogbajoj_sheet_cells,
        yuyutei_sell_url,
        tcgplayer_product_id,
        delta_art_index,
    } = a;
    let b_hash_needed = img_hash.as_str().is_empty();
    let ids = Localized {
        japanese: union_ids(manage_id.japanese, b.manage_id.japanese),
        english: union_ids(manage_id.english, b.manage_id.english),
    };
    let path = Localized {
        japanese: if tj { b.img_path.japanese } else { img_path.japanese },
        english: if te { b.img_path.english } else { img_path.english },
    };
    let modified = Localized {
        japanese: if tj { b.img_last_modified.japanese } else { img_last_modified.japanese },
        english: if te { b.img_last_modified.english } else { img_last_modified.english },
    };
    let mut cells: Vec<(u64, SheetCell)> = match ogbajoj_sheet_cells {
        Some(v) => v,
        None => Vec::new(),
    };
    let mut more: Vec<(u64, SheetCell)> = match b.ogbajoj_sheet_cells {
        Some(v) => v,
        None => Vec::new(),
    };
    let ghost c0 = cells@;
    let ghost m0 = more@;
    let ghost combined = cells_or_empty(a@.ogbajoj_sheet_cells) + cells_or_empty(b@.ogbajoj_sheet_cells);
    proof {
        assert(cells_or_empty(a@.ogbajoj_sheet_cells).len() == c0.len());
        assert(cells_or_empty(b@.ogbajoj_sheet_cells).len() == m0.len());
        assert forall|k: int| 0 <= k < c0.len() implies cells_or_empty(a@.ogbajoj_sheet_cells)[k] == (c0[k].0, c0[k].1.text()) by {}
        assert forall|k: int| 0 <= k < m0.len() implies cells_or_empty(b@.ogbajoj_sheet_cells)[k] == (m0[k].0, m0[k].1.text()) by {}
    }
    cells.append(&mut more);
    let cells_out = if cells.len() == 0 {
        None
    } else {
        Some(cells)
    };
    proof {
        if combined.len() > 0 {
            let cv = opt_cells(cells_out)->0;
            assert(cv.len() == combined.len());
            assert forall|k: int| 0 <= k < cv.len() implies cv[k] == combined[k] by {
                if k < c0.len() {
                    assert(cells@[k] == c0[k]);
                } else {
                    assert(cells@[k] == m0[k - c0.len()]);
                }
            }
            assert(cv =~= combined);
        }
    }
    CardIllustration {
        card_number,
        manage_id: ids,
        rarity,
        illustrator: if illustrator.is_some() { illustrator } else { b.illustrator },
        img_path: path,
        img_last_modified: modified,
        img_hash: if b_hash_needed { b.img_hash } else { img_hash },
        ogbajoj_sheet_cells: cells_out,
        yuyutei_sell_url: if yuyutei_sell_url.is_some() { yuyutei_sell_url } else { b.yuyutei_sell_url },
        tcgplayer_product_id: if tcgplayer_product_id.is_some() { tcgplayer_product_id } else { b.tcgplayer_product_id },
        delta_art_index: if delta_art_index.is_some() { delta_art_index } else { b.delta_art_index },
    }
}

// ---------------------------------------------------------------------------
// merging the printings of a card
// ---------------------------------------------------------------------------
/// `d` holds a distance for every ordered pair of `n` printings.
pub open spec fn table_fits(d: Seq<Seq<u64>>, n: nat) -> bool {
    d.len() == n && forall|a: int| 0 <= a < n ==> (#[trigger] d[a]).len() == n
}

/// Each printing's hash is that of a first printing, all below `n`.
pub open spec fn sources_fit(srcs: Seq<usize>, n: nat) -> bool {
    forall|k: int| 0 <= k < srcs.len() ==> (#[trigger] srcs[k]) < n
}

/// The merge pass over a card's printings, from printing `i` against
/// printing `j`: a later printing of the same number and rarity that may be
/// merged (`d` giving the distance between the first printings whose hashes
/// the two now carry, `srcs` naming them) is merged into printing `i` and
/// removed; the result holds the printings, their hash sources, and the
/// number of merges.
pub open spec fn merge_from(
    ils: Seq<CardIllustrationView>,
    srcs: Seq<usize>,
    d: Seq<Seq<u64>>,
    i: int,
    j: int,
) -> (Seq<CardIllustrationView>, Seq<usize>, nat)
    decreases ils.len() - i, ils.len() - j,
{
    if i < 0 || i >= ils.len() || j <= i {
        (ils, srcs, 0)
    } else if j >= ils.len() {
        merge_from(ils, srcs, d, i + 1, i + 2)
    } else if ils[i].card_number != ils[j].card_number || ils[i].rarity != ils[j].rarity {
        merge_from(ils, srcs, d, i, j + 1)
    } else if merge_allowed(ils[i], ils[j], true, d[srcs[i] as int][srcs[j] as int]) {
        let s2 = if ils[i].img_hash.len() == 0 {
            srcs.update(i, srcs[j])
        } else {
            srcs
        };
        let r = merge_from(ils.update(i, merged_il(ils[i], ils[j])).remove(j), s2.remove(j), d, i, j);
        (r.0, r.1, r.2 + 1)
    } else {
        merge_from(ils, srcs, d, i, j + 1)
    }
}

proof fn lemma_least_exists(s: Set<u32>, x: u32)
    requires
        s.contains(x),
    ensures
        least_id(s) matches Some(m) && s.contains(m) && forall|y: u32| s.contains(y) ==> m <= y,
    decreases x,
{
    if forall|y: u32| s.contains(y) ==> x <= y {
    } else {
        let y = choose|y: u32| s.contains(y) && !(x <= y);
        lemma_least_exists(s, y);
    }
}

/// The first id of both printings' ids is the smaller of their first ids.
proof fn lemma_first_of_union(a: Option<Set<u32>>, b: Option<Set<u32>>)
    ensures
        first_or_max(ids_union(a, b)) == if first_or_max(a) <= first_or_max(b) {
            first_or_max(a)
        } else {
            first_or_max(b)
        },
{
    let fa = first_or_max(a);
    let fb = first_or_max(b);
    let m = if fa <= fb { fa } else { fb };
    // a present set with an element has its least as first id
    if let Some(sa) = a {
        if exists|x: u32| sa.contains(x) {
            let x = choose|x: u32| sa.contains(x);
            lemma_least_exists(sa, x);
        } else {
            assert(least_id(sa) is None);
        }
    }
    if let Some(sb) = b {
        if exists|x: u32| sb.contains(x) {
            let x = choose|x: u32| sb.contains(x);
            lemma_least_exists(sb, x);
        } else {
            assert(least_id(sb) is None);
        }
    }
    match (a, b) {
        (Some(sa), Some(sb)) => {
            let u = sa.union(sb);
            if exists|x: u32| u.contains(x) {
                let x = choose|x: u32| u.contains(x);
                lemma_least_exists(u, x);
                let lu = least_id(u)->0;
                if sa.contains(lu) {
                    assert(least_id(sa) is Some);
                } else {
                    assert(least_id(sb) is Some);
                }
                if fa <= fb {
                    assert(least_id(sa) is Some || fa == u32::MAX);
                    if least_id(sa) is Some {
                        assert(u.contains(fa));
                    } else {
                        assert(least_id(sb) is Some ==> u.contains(fb));
                    }
                } else {
                    assert(u.contains(fb));
                }
            } else {
                assert forall|x: u32| !sa.contains(x) && !sb.contains(x) by {
                    assert(sa.contains(x) || sb.contains(x) ==> u.contains(x));
                }
                assert(least_id(u) is None);
            }
        },
        _ => {},
    }
}

/// A merged printing is released when the first of the two was.
proof fn lemma_merged_rank(a: CardIllustrationView, b: CardIllustrationView)
    ensures
        release_rank(merged_il(a, b)) == if release_rank(a) <= release_rank(b) {
            release_rank(a)
        } else {
            release_rank(b)
        },
        merged_il(a, b).rarity == a.rarity,
{
    lemma_first_of_union(a.manage_id.0, b.manage_id.0);
    lemma_first_of_union(a.manage_id.1, b.manage_id.1);
}

/// The merge pass keeps printings in merge order.
proof fn lemma_merge_from_sorted(ils: Seq<CardIllustrationView>, srcs: Seq<usize>, d: Seq<Seq<u64>>, i: int, j: int)
    requires
        merge_sorted(ils),
    ensures
        merge_sorted(merge_from(ils, srcs, d, i, j).0),
    decreases ils.len() - i, ils.len() - j,
{
    if i < 0 || i >= ils.len() || j <= i {
    } else if j >= ils.len() {
        lemma_merge_from_sorted(ils, srcs, d, i + 1, i + 2);
    } else if ils[i].card_number != ils[j].card_number || ils[i].rarity != ils[j].rarity {
        lemma_merge_from_sorted(ils, srcs, d, i, j + 1);
    } else if merge_allowed(ils[i], ils[j], true, d[srcs[i] as int][srcs[j] as int]) {
        let s2 = if ils[i].img_hash.len() == 0 {
            srcs.update(i, srcs[j])
        } else {
            srcs
        };
        let m = merged_il(ils[i], ils[j]);
        lemma_merged_rank(ils[i], ils[j]);
        lemma_text_order_reflexive(ils[i].rarity);
        assert(!merge_after(ils[i], ils[j]));
        assert(release_rank(m) == release_rank(ils[i]));
        let t = ils.update(i, m).remove(j);
        assert forall|k: int, l: int| 0 <= k < l < t.len() implies !merge_after(t[k], t[l]) by {
            let k0 = if k < j { k } else { k + 1 };
            let l0 = if l < j { l } else { l + 1 };
            assert(k0 < l0);
            assert(!merge_after(ils[k0], ils[l0]));
            if k0 == i {
                assert(t[k] == m && t[l] == ils[l0]);
            } else if l0 == i {
                assert(t[k] == ils[k0] && t[l] == m);
            } else {
                assert(t[k] == ils[k0] && t[l] == ils[l0]);
            }
        }
        lemma_merge_from_sorted(t, s2.remove(j), d, i, j);
    } else {
        lemma_merge_from_sorted(ils, srcs, d, i, j + 1);
    }
}

/// After the merge, each card's printings are in merge order: by rarity,
/// then by release order.
pub proof fn lemma_merged_sorted(ils: Seq<CardIllustrationView>, d: Seq<Seq<u64>>)
    ensures
        merge_sorted(merged_ils(ils, d).0),
{
    lemma_merge_order_sorted(ils);
    lemma_merge_from_sorted(merge_order(ils), merge_perm(ils), d, 0, 1);
}

/// The printings of a card after they are ordered by rarity and release
/// order and then merged; each first carries its own hash, and `d` is read
/// by the positions before ordering.
pub open spec fn merged_ils(ils: Seq<CardIllustrationView>, d: Seq<Seq<u64>>) -> (Seq<CardIllustrationView>, nat) {
    let r = merge_from(merge_order(ils), merge_perm(ils), d, 0, 1);
    (r.0, r.2)
}

proof fn lemma_merge_from_done(ils: Seq<CardIllustrationView>, srcs: Seq<usize>, d: Seq<Seq<u64>>, i: int, j: int)
    requires
        i >= ils.len(),
    ensures
        merge_from(ils, srcs, d, i, j) == (ils, srcs, 0nat),
{
}

/// Orders the printings of a card by rarity, then by release order, and
/// merges those that show the same image; `d` gives the distance between the
/// hashes of every two of its printings, in their order before the call.
/// Returns the number of merges.
pub fn merge_card_illustrations(ils: &mut Vec<CardIllustration>, d: &Vec<Vec<u64>>) -> (n: usize)
    requires
        table_fits(d@.map_values(|r: Vec<u64>| r@), old(ils)@.len()),
    ensures
        (final(ils)@.map_values(|i: CardIllustration| i@), n as nat) == merged_ils(
            old(ils)@.map_values(|i: CardIllustration| i@),
            d@.map_values(|r: Vec<u64>| r@),
        ),
        merge_sorted(final(ils)@.map_values(|i: CardIllustration| i@)),
{
    proof {
        lemma_merged_sorted(ils@.map_values(|i: CardIllustration| i@), d@.map_values(|r: Vec<u64>| r@));
    }
    let ghost dv = d@.map_values(|r: Vec<u64>| r@);
    let ghost v0 = ils@.map_values(|i: CardIllustration| i@);
    let n0 = ils.len();
    assert(v0.len() == n0);
    let mut srcs = sort_for_merge(ils);
    proof {
        lemma_merge_perm(v0);
        assert(ils@.map_values(|i: CardIllustration| i@).len() == ils@.len());
    }
    let ghost goal = merge_from(merge_order(v0), srcs@, dv, 0, 1);
    let mut count: usize = 0;
    let mut i: usize = 0;
    let mut j: usize = 1;
    while i < ils.len()
        invariant
            table_fits(dv, n0 as nat),
            dv == d@.map_values(|r: Vec<u64>| r@),
            srcs@.len() == ils@.len(),
            sources_fit(srcs@, n0 as nat),
            count + ils@.len() == n0,
            i <= ils@.len(),
            i < ils@.len() ==> i < j <= ils@.len(),
            merge_from(ils@.map_values(|x: CardIllustration| x@), srcs@, dv, i as int, j as int).0 == goal.0,
            merge_from(ils@.map_values(|x: CardIllustration| x@), srcs@, dv, i as int, j as int).2 + count == goal.2,
        decreases ils@.len() - i, ils@.len() - j,
    {
        let ghost cur = ils@.map_values(|x: CardIllustration| x@);
        if j >= ils.len() {
            i = i + 1;
            j = if i < ils.len() {
                i + 1
            } else {
                i
            };
            proof {
                if i >= ils@.len() {
                    lemma_merge_from_done(cur, srcs@, dv, i as int, j as int);
                    lemma_merge_from_done(cur, srcs@, dv, i as int, i + 1);
                }
            }
        } else {
            assert(cur[i as int] == ils@[i as int]@);
            assert(cur[j as int] == ils@[j as int]@);
            if !(ils[i].card_number == ils[j].card_number) || !(ils[i].rarity == ils[j].rarity) {
                j = j + 1;
            } else {
                let si = srcs[i];
                let sj = srcs[j];
                assert(si < n0 && sj < n0);
                assert(dv[si as int].len() == n0);
                assert(dv[si as int] == d@[si as int]@);
                let dist = d[si][sj];
                if can_merge(&ils[i], &ils[j], true, dist) {
                    let b = ils.remove(j);
                    let ghost after_remove = ils@;
                    let mut a = CardIllustration::default();
                    ils.set_and_swap(i, &mut a);
                    assert(a == after_remove[i as int]);
                    let a_empty = a.img_hash.as_str().is_empty();
                    let m = merge_illustrations(a, b);
                    ils.set(i, m);
                    let ghost s0 = srcs@;
                    if a_empty {
                        srcs.set(i, sj);
                    }
                    srcs.remove(j);
                    proof {
                        assert(ils@.map_values(|x: CardIllustration| x@) =~= cur.update(i as int, merged_il(cur[i as int], cur[j as int])).remove(j as int));
                        let s2 = if cur[i as int].img_hash.len() == 0 {
                            s0.update(i as int, s0[j as int])
                        } else {
                            s0
                        };
                        assert(srcs@ =~= s2.remove(j as int));
                    }
                    count = count + 1;
                } else {
                    j = j + 1;
                }
            }
        }
    }
    proof {
        lemma_merge_from_done(ils@.map_values(|x: CardIllustration| x@), srcs@, dv, i as int, j as int);
    }
    count
}

// ---------------------------------------------------------------------------
// over the whole database
// ---------------------------------------------------------------------------
/// Every card has a distance table that fits its printings.
pub open spec fn tables_fit(db: Seq<CardView>, dists: Seq<Seq<Seq<u64>>>) -> bool {
    dists.len() == db.len() && forall|c: int| 0 <= c < db.len() ==> table_fits(#[trigger] dists[c], db[c].illustrations.len())
}

pub open spec fn table_views(dists: Seq<Vec<Vec<u64>>>) -> Seq<Seq<Seq<u64>>> {
    Seq::new(dists.len(), |c: int| dists[c]@.map_values(|r: Vec<u64>| r@))
}

/// Orders, card by card, the printings by rarity and then by release order,
/// and merges those that show the same image; `dists[c]` gives the distance
/// between the hashes of every two printings of card `c`, in their order
/// before the call. Returns the number of merges per card.
pub fn merge_similar_cards(all_cards: &mut Vec<Card>, dists: &Vec<Vec<Vec<u64>>>) -> (r: Vec<usize>)
    requires
        tables_fit(card_views(old(all_cards)@), table_views(dists@)),
    ensures
        final(all_cards)@.len() == old(all_cards)@.len(),
        r@.len() == old(all_cards)@.len(),
        forall|c: int| 0 <= c < old(all_cards)@.len() ==> (#[trigger] card_views(final(all_cards)@)[c]) == (CardView {
            illustrations: merged_ils(card_views(old(all_cards)@)[c].illustrations, table_views(dists@)[c]).0,
            ..card_views(old(all_cards)@)[c]
        }),
        forall|c: int| 0 <= c < old(all_cards)@.len() ==> (#[trigger] r@[c]) as nat == merged_ils(
            card_views(old(all_cards)@)[c].illustrations,
            table_views(dists@)[c],
        ).1,
        forall|c: int| 0 <= c < final(all_cards)@.len() ==> merge_sorted(#[trigger] card_views(final(all_cards)@)[c].illustrations),
{
    let ghost before = card_views(all_cards@);
    let ghost tv = table_views(dists@);
    let mut counts: Vec<usize> = Vec::new();
    let mut c: usize = 0;
    while c < all_cards.len()
        invariant
            c <= all_cards.len(),
            all_cards@.len() == before.len(),
            counts@.len() == c,
            tv == table_views(dists@),
            tables_fit(before, tv),
            forall|k: int| 0 <= k < c ==> #[trigger] all_cards@[k]@ == (CardView {
                illustrations: merged_ils(before[k].illustrations, tv[k]).0,
                ..before[k]
            }),
            forall|k: int| 0 <= k < c ==> (#[trigger] counts@[k]) as nat == merged_ils(before[k].illustrations, tv[k]).1,
            forall|k: int| c <= k < all_cards@.len() ==> #[trigger] all_cards@[k]@ == before[k],
        decreases all_cards.len() - c,
    {
        let ghost mid = all_cards@;
        let mut card = Card::default();
        all_cards.set_and_swap(c, &mut card);
        assert(card@ == before[c as int]);
        assert(tv[c as int] == dists@[c as int]@.map_values(|r: Vec<u64>| r@));
        assert(table_fits(tv[c as int], before[c as int].illustrations.len()));
        let n = merge_card_illustrations(&mut card.illustrations, &dists[c]);
        all_cards.set(c, card);
        counts.push(n);
        assert(all_cards@ == mid.update(c as int, card));
        c = c + 1;
    }
    proof {
        assert forall|c: int| 0 <= c < all_cards@.len() implies merge_sorted(#[trigger] card_views(all_cards@)[c].illustrations) by {
            assert(card_views(all_cards@)[c] == all_cards@[c]@);
            lemma_merged_sorted(before[c].illustrations, tv[c]);
        }
    }
    counts
}

// ---------------------------------------------------------------------------
// garbage collection
// ---------------------------------------------------------------------------
/// A printing is kept while Deck Log or the fan sheet knows it.
pub open spec fn referenced(il: CardIllustrationView) -> bool {
    il.manage_id.0 is Some || il.manage_id.1 is Some || il.ogbajoj_sheet_cells is Some
}

/// The printings that are kept, in order.
pub open spec fn kept_ils(ils: Seq<CardIllustrationView>) -> Seq<CardIllustrationView> {
    ils.filter(|il: CardIllustrationView| referenced(il))
}

/// The cards after unreferenced printings are dropped, then cards left
/// without printings.
pub open spec fn collected(db: Seq<CardView>) -> Seq<CardView> {
    Seq::new(db.len(), |c: int| CardView { illustrations: kept_ils(db[c].illustrations), ..db[c] }).filter(
        |c: CardView| c.illustrations.len() > 0,
    )
}

fn keep_referenced(ils: &mut Vec<CardIllustration>)
    ensures
        final(ils)@.map_values(|i: CardIllustration| i@) == kept_ils(old(ils)@.map_values(|i: CardIllustration| i@)),
{
    let ghost v = ils@.map_values(|i: CardIllustration| i@);
    let mut src: Vec<CardIllustration> = Vec::new();
    std::mem::swap(&mut src, ils);
    let mut out: Vec<CardIllustration> = Vec::new();
    let ghost mut i: int = 0;
    assert(src@.map_values(|x: CardIllustration| x@) =~= v.skip(0));
    assert(v.take(0).filter(|il: CardIllustrationView| referenced(il)) =~= Seq::<CardIllustrationView>::empty());
    while src.len() > 0
        invariant
            0 <= i <= v.len(),
            src@.map_values(|x: CardIllustration| x@) == v.skip(i),
            out@.map_values(|x: CardIllustration| x@) == v.take(i).filter(|il: CardIllustrationView| referenced(il)),
        decreases src.len(),
    {
        let ghost sv = src@;
        assert(sv.map_values(|x: CardIllustration| x@).len() == sv.len());
        assert(i < v.len());
        let il = src.remove(0);
        assert(il@ == v[i]) by {
            assert(il == sv[0]);
            assert(sv.map_values(|x: CardIllustration| x@)[0] == sv[0]@);
            assert(v.skip(i)[0] == v[i]);
        }
        assert(src@.map_values(|x: CardIllustration| x@) =~= v.skip(i + 1)) by {
            assert(src@ =~= sv.remove(0));
            assert forall|j: int| 0 <= j < src@.len() implies src@[j]@ == v.skip(i + 1)[j] by {
                assert(src@[j] == sv[j + 1]);
                assert(sv.map_values(|x: CardIllustration| x@)[j + 1] == v.skip(i)[j + 1]);
            }
        }
        let ghost o = out@.map_values(|x: CardIllustration| x@);
        proof {
            assert(v.take(i + 1) =~= v.take(i).push(v[i]));
            v.take(i).lemma_filter_push(v[i], |il: CardIllustrationView| referenced(il));
        }
        if il.manage_id.japanese.is_some() || il.manage_id.english.is_some() || il.ogbajoj_sheet_cells.is_some() {
            out.push(il);
            assert(out@.map_values(|x: CardIllustration| x@) =~= o.push(v[i]));
        }
        proof {
            i = i + 1;
        }
    }
    assert(v.take(i) =~= v) by {
        assert(v.skip(i).len() == 0);
    }
    *ils = out;
}

/// Drops the printings that neither Deck Log nor the fan sheet knows, then
/// the cards left without printings.
pub fn collect_unreferenced(all_cards: &mut Vec<Card>)
    ensures
        card_views(final(all_cards)@) == collected(card_views(old(all_cards)@)),
{
    let ghost before = card_views(all_cards@);
    let ghost pruned = Seq::new(before.len(), |c: int| CardView { illustrations: kept_ils(before[c].illustrations), ..before[c] });
    let mut src: Vec<Card> = Vec::new();
    std::mem::swap(&mut src, all_cards);
    let mut out: Vec<Card> = Vec::new();
    let ghost mut i: int = 0;
    assert(card_views(src@) =~= before.skip(0));
    assert(pruned.take(0).filter(|c: CardView| c.illustrations.len() > 0) =~= Seq::<CardView>::empty());
    while src.len() > 0
        invariant
            0 <= i <= before.len(),
            pruned == Seq::new(before.len(), |c: int| CardView { illustrations: kept_ils(before[c].illustrations), ..before[c] }),
            card_views(src@) == before.skip(i),
            card_views(out@) == pruned.take(i).filter(|c: CardView| c.illustrations.len() > 0),
        decreases src.len(),
    {
        let ghost sv = src@;
        assert(card_views(sv).len() == sv.len());
        assert(i < before.len());
        let mut card = src.remove(0);
        assert(card@ == before[i]) by {
            assert(card == sv[0]);
            assert(card_views(sv)[0] == sv[0]@);
            assert(before.skip(i)[0] == before[i]);
        }
        assert(card_views(src@) =~= before.skip(i + 1)) by {
            assert(src@ =~= sv.remove(0));
            assert forall|j: int| 0 <= j < src@.len() implies src@[j]@ == before.skip(i + 1)[j] by {
                assert(src@[j] == sv[j + 1]);
                assert(card_views(sv)[j + 1] == before.skip(i)[j + 1]);
            }
        }
        let ghost c0 = card@;
        keep_referenced(&mut card.illustrations);
        assert(card@ == pruned[i]);
        let ghost o = card_views(out@);
        proof {
            assert(pruned.take(i + 1) =~= pruned.take(i).push(pruned[i]));
            pruned.take(i).lemma_filter_push(pruned[i], |c: CardView| c.illustrations.len() > 0);
        }
        if card.illustrations.len() > 0 {
            out.push(card);
            assert(card_views(out@) =~= o.push(pruned[i]));
        }
        proof {
            i = i + 1;
        }
    }
    assert(pruned.take(i) =~= pruned) by {
        assert(before.skip(i).len() == 0);
    }
    *all_cards = out;
}

/// The image paths of every printing in `language`, in order.
pub open spec fn image_paths_in(db: Seq<CardView>, language: Language) -> Seq<Seq<char>>
    decreases db.len(),
{
    if db.len() == 0 {
        Seq::empty()
    } else {
        image_paths_in(db.drop_last(), language) + paths_of(db.last().illustrations, language)
    }
}

pub open spec fn paths_of(ils: Seq<CardIllustrationView>, language: Language) -> Seq<Seq<char>>
    decreases ils.len(),
{
    if ils.len() == 0 {
        Seq::empty()
    } else {
        let rest = paths_of(ils.drop_last(), language);
        match text_get(ils.last().img_path, language) {
            Some(p) => rest.push(p),
            None => rest,
        }
    }
}

/// The image paths still in use in `language`: the files to keep.
pub fn referenced_image_paths(all_cards: &Vec<Card>, language: Language) -> (r: Vec<String>)
    ensures
        views(r@) == image_paths_in(card_views(all_cards@), language),
{
    let ghost db = card_views(all_cards@);
    let mut out: Vec<String> = Vec::new();
    let mut c: usize = 0;
    while c < all_cards.len()
        invariant
            c <= all_cards.len(),
            db == card_views(all_cards@),
            views(out@) == image_paths_in(db.take(c as int), language),
        decreases all_cards.len() - c,
    {
        let card = &all_cards[c];
        assert(db[c as int] == card@);
        let ghost base = views(out@);
        let ghost ils = card@.illustrations;
        let mut k: usize = 0;
        while k < card.illustrations.len()
            invariant
                k <= card.illustrations.len(),
                card@ == db[c as int],
                ils == card@.illustrations,
                views(out@) == base + paths_of(ils.take(k as int), language),
            decreases card.illustrations.len() - k,
        {
            assert(ils.take(k + 1).drop_last() =~= ils.take(k as int));
            assert(ils.take(k + 1).last() == card.illustrations@[k as int]@);
            let ghost o = views(out@);
            match card.illustrations[k].img_path.value(language) {
                Some(p) => {
                    out.push(p.clone());
                    assert(views(out@) =~= o.push(p@));
                },
                None => {},
            }
            k = k + 1;
        }
        assert(ils.take(k as int) =~= ils);
        assert(db.take(c + 1).drop_last() =~= db.take(c as int));
        assert(db.take(c + 1).last() == card@);
        c = c + 1;
    }
    assert(db.take(c as int) =~= db);
    out
}

// ---------------------------------------------------------------------------
// laws
// ---------------------------------------------------------------------------
proof fn lemma_merge_from_count(ils: Seq<CardIllustrationView>, srcs: Seq<usize>, d: Seq<Seq<u64>>, i: int, j: int)
    ensures
        merge_from(ils, srcs, d, i, j).0.len() + merge_from(ils, srcs, d, i, j).2 == ils.len(),
    decreases ils.len() - i, ils.len() - j,
{
    if i < 0 || i >= ils.len() || j <= i {
    } else if j >= ils.len() {
        lemma_merge_from_count(ils, srcs, d, i + 1, i + 2);
    } else if ils[i].card_number != ils[j].card_number || ils[i].rarity != ils[j].rarity {
        lemma_merge_from_count(ils, srcs, d, i, j + 1);
    } else if merge_allowed(ils[i], ils[j], true, d[srcs[i] as int][srcs[j] as int]) {
        let s2 = if ils[i].img_hash.len() == 0 {
            srcs.update(i, srcs[j])
        } else {
            srcs
        };
        lemma_merge_from_count(ils.update(i, merged_il(ils[i], ils[j])).remove(j), s2.remove(j), d, i, j);
    } else {
        lemma_merge_from_count(ils, srcs, d, i, j + 1);
    }
}

/// Merging only folds printings into others: the printings left and the
/// merges made add up to the printings there were.
pub proof fn lemma_merge_counts(ils: Seq<CardIllustrationView>, d: Seq<Seq<u64>>)
    ensures
        merged_ils(ils, d).0.len() + merged_ils(ils, d).1 == ils.len(),
{
    lemma_merge_order_len(ils);
    lemma_merge_from_count(merge_order(ils), merge_perm(ils), d, 0, 1);
}

/// After garbage collection every card has a printing, and every printing is
/// known to Deck Log or to the fan sheet.
pub proof fn lemma_collected_referenced(db: Seq<CardView>)
    ensures
        forall|c: int| 0 <= c < collected(db).len() ==> (#[trigger] collected(db)[c]).illustrations.len() > 0,
        forall|c: int, k: int|
            0 <= c < collected(db).len() && 0 <= k < collected(db)[c].illustrations.len() ==> referenced(
                #[trigger] collected(db)[c].illustrations[k],
            ),
{
    let pruned = Seq::new(db.len(), |c: int| CardView { illustrations: kept_ils(db[c].illustrations), ..db[c] });
    let p = |c: CardView| c.illustrations.len() > 0;
    assert forall|c: int| 0 <= c < collected(db).len() implies (#[trigger] collected(db)[c]).illustrations.len() > 0 by {
        assert(p(pruned.filter(p)[c]));
    }
    assert forall|c: int, k: int|
        0 <= c < collected(db).len() && 0 <= k < collected(db)[c].illustrations.len() implies referenced(
            #[trigger] collected(db)[c].illustrations[k],
        ) by {
        let x = collected(db)[c];
        assert(pruned.filter(p).contains(x));
        pruned.lemma_filter_contains_rev(p, x);
        assert(pruned.contains(x));
        let m = choose|m: int| 0 <= m < pruned.len() && pruned[m] == x;
        let q = |il: CardIllustrationView| referenced(il);
        assert(x.illustrations == db[m].illustrations.filter(q));
        assert(q(db[m].illustrations.filter(q)[k]));
    }
}

// ---------------------------------------------------------------------------
// tags named differently in English
// ---------------------------------------------------------------------------
pub open spec fn pairs_of_tags(tags: Seq<TextPair>) -> Seq<(Seq<char>, Seq<char>)>
    decreases tags.len(),
{
    if tags.len() == 0 {
        Seq::empty()
    } else {
        let rest = pairs_of_tags(tags.drop_last());
        match tags.last() {
            (Some(jp), Some(en)) => rest.push((jp, en)),
            _ => rest,
        }
    }
}

/// The tags that have both a Japanese and an English name, card by card.
pub open spec fn tag_pairs(db: Seq<CardView>) -> Seq<(Seq<char>, Seq<char>)>
    decreases db.len(),
{
    if db.len() == 0 {
        Seq::empty()
    } else {
        tag_pairs(db.drop_last()) + pairs_of_tags(db.last().tags)
    }
}

/// The English names given to the Japanese tag `jp`, each once, first seen first.
pub open spec fn english_names(ps: Seq<(Seq<char>, Seq<char>)>, jp: Seq<char>) -> Seq<Seq<char>>
    decreases ps.len(),
{
    if ps.len() == 0 {
        Seq::empty()
    } else {
        let rest = english_names(ps.drop_last(), jp);
        if ps.last().0 == jp {
            push_unique(rest, ps.last().1)
        } else {
            rest
        }
    }
}

/// The Japanese tags, each once, first seen first.
pub open spec fn japanese_tags(ps: Seq<(Seq<char>, Seq<char>)>) -> Seq<Seq<char>>
    decreases ps.len(),
{
    if ps.len() == 0 {
        Seq::empty()
    } else {
        push_unique(japanese_tags(ps.drop_last()), ps.last().0)
    }
}

/// The Japanese tags among `jps` that have more than one English name, with those names.
pub open spec fn tag_report(jps: Seq<Seq<char>>, ps: Seq<(Seq<char>, Seq<char>)>) -> Seq<(Seq<char>, Seq<Seq<char>>)>
    decreases jps.len(),
{
    if jps.len() == 0 {
        Seq::empty()
    } else {
        let rest = tag_report(jps.drop_last(), ps);
        let ns = english_names(ps, jps.last());
        if ns.len() > 1 {
            rest.push((jps.last(), ns))
        } else {
            rest
        }
    }
}

pub open spec fn names_view(r: Seq<(Vec<char>, Vec<Vec<char>>)>) -> Seq<(Seq<char>, Seq<Seq<char>>)> {
    Seq::new(r.len(), |k: int| (r[k].0@, char_views(r[k].1@)))
}

pub open spec fn pair_views(v: Seq<(Vec<char>, Vec<char>)>) -> Seq<(Seq<char>, Seq<char>)> {
    Seq::new(v.len(), |k: int| (v[k].0@, v[k].1@))
}

fn collect_tag_pairs(all_cards: &Vec<Card>) -> (r: Vec<(Vec<char>, Vec<char>)>)
    ensures
        pair_views(r@) == tag_pairs(card_views(all_cards@)),
{
    let ghost db = card_views(all_cards@);
    let mut out: Vec<(Vec<char>, Vec<char>)> = Vec::new();
    let mut c: usize = 0;
    while c < all_cards.len()
        invariant
            c <= all_cards.len(),
            db == card_views(all_cards@),
            pair_views(out@) == tag_pairs(db.take(c as int)),
        decreases all_cards.len() - c,
    {
        let card = &all_cards[c];
        assert(db[c as int] == card@);
        let ghost base = pair_views(out@);
        let ghost tags = card@.tags;
        let mut k: usize = 0;
        while k < card.tags.len()
            invariant
                k <= card.tags.len(),
                card@ == db[c as int],
                tags == card@.tags,
                pair_views(out@) == base + pairs_of_tags(tags.take(k as int)),
            decreases card.tags.len() - k,
        {
            assert(tags.take(k + 1).drop_last() =~= tags.take(k as int));
            assert(tags.take(k + 1).last() == card.tags@[k as int].texts());
            let t = &card.tags[k];
            match (&t.japanese, &t.english) {
                (Some(jp), Some(en)) => {
                    let ghost o = pair_views(out@);
                    out.push((chars_of_string(jp), chars_of_string(en)));
                    assert(pair_views(out@) =~= o.push((jp@, en@)));
                },
                _ => {},
            }
            k = k + 1;
        }
        assert(tags.take(k as int) =~= tags);
        assert(db.take(c + 1).drop_last() =~= db.take(c as int));
        assert(db.take(c + 1).last() == card@);
        c = c + 1;
    }
    assert(db.take(c as int) =~= db);
    out
}

fn english_names_of(ps: &Vec<(Vec<char>, Vec<char>)>, jp: &Vec<char>) -> (r: Vec<Vec<char>>)
    ensures
        char_views(r@) == english_names(pair_views(ps@), jp@),
{
    let ghost pv = pair_views(ps@);
    let mut out: Vec<Vec<char>> = Vec::new();
    let mut k: usize = 0;
    while k < ps.len()
        invariant
            k <= ps.len(),
            pv == pair_views(ps@),
            char_views(out@) == english_names(pv.take(k as int), jp@),
        decreases ps.len() - k,
    {
        assert(pv.take(k + 1).drop_last() =~= pv.take(k as int));
        assert(pv.take(k + 1).last() == (ps@[k as int].0@, ps@[k as int].1@));
        if eq(&ps[k].0, jp) {
            push_unique_exec(&mut out, ps[k].1.clone());
        }
        k = k + 1;
    }
    assert(pv.take(k as int) =~= pv);
    out
}

/// The Japanese tags that carry more than one English name, each with those
/// names, first seen first.
pub fn check_tags_consistency(all_cards: &Vec<Card>) -> (r: Vec<(Vec<char>, Vec<Vec<char>>)>)
    ensures
        names_view(r@) == tag_report(japanese_tags(tag_pairs(card_views(all_cards@))), tag_pairs(card_views(all_cards@))),
{
    let ps = collect_tag_pairs(all_cards);
    let ghost pv = pair_views(ps@);
    let mut jps: Vec<Vec<char>> = Vec::new();
    let mut k: usize = 0;
    while k < ps.len()
        invariant
            k <= ps.len(),
            pv == pair_views(ps@),
            char_views(jps@) == japanese_tags(pv.take(k as int)),
        decreases ps.len() - k,
    {
        assert(pv.take(k + 1).drop_last() =~= pv.take(k as int));
        assert(pv.take(k + 1).last() == (ps@[k as int].0@, ps@[k as int].1@));
        push_unique_exec(&mut jps, ps[k].0.clone());
        k = k + 1;
    }
    assert(pv.take(k as int) =~= pv);
    let ghost jv = char_views(jps@);
    let mut out: Vec<(Vec<char>, Vec<Vec<char>>)> = Vec::new();
    let mut m: usize = 0;
    while m < jps.len()
        invariant
            m <= jps.len(),
            pv == pair_views(ps@),
            jv == char_views(jps@),
            names_view(out@) == tag_report(jv.take(m as int), pv),
        decreases jps.len() - m,
    {
        assert(jv.take(m + 1).drop_last() =~= jv.take(m as int));
        assert(jv.take(m + 1).last() == jps@[m as int]@);
        let ns = english_names_of(&ps, &jps[m]);
        if ns.len() > 1 {
            let ghost o = names_view(out@);
            out.push((jps[m].clone(), ns));
            assert(names_view(out@) =~= o.push((jv[m as int], char_views(ns@))));
        }
        m = m + 1;
    }
    assert(jv.take(m as int) =~= jv);
    out
}


/// `id` is among the Deck Log ids.
pub open spec fn has_id(ids: Option<Set<u32>>, id: u32) -> bool {
    ids matches Some(s) && s.contains(id)
}

/// A field that the kept printing may lack: its own value where it has one,
/// else the other printing's.
pub open spec fn kept_or_taken<T>(m: Option<T>, a: Option<T>, b: Option<T>) -> bool {
    &&& a is Some ==> m == a
    &&& a is None ==> m == b
}

/// Merging `b` into `a` keeps what `a` has and takes what it lacks: the shop
/// page, illustrator, TCGplayer product and holoDelta art of `b` where `a`
/// has none, and `b`'s hash where `a` has none; the number and rarity of
/// `a`; every Deck Log id of either, in each language; the sheet cells of
/// `a` then those of `b`, none only when neither has any.
pub proof fn lemma_merged_printing(a: CardIllustrationView, b: CardIllustrationView)
    ensures
        kept_or_taken(merged_il(a, b).yuyutei_sell_url, a.yuyutei_sell_url, b.yuyutei_sell_url),
        kept_or_taken(merged_il(a, b).illustrator, a.illustrator, b.illustrator),
        kept_or_taken(merged_il(a, b).tcgplayer_product_id, a.tcgplayer_product_id, b.tcgplayer_product_id),
        kept_or_taken(merged_il(a, b).delta_art_index, a.delta_art_index, b.delta_art_index),
        a.img_hash.len() > 0 ==> merged_il(a, b).img_hash == a.img_hash,
        a.img_hash.len() == 0 ==> merged_il(a, b).img_hash == b.img_hash,
        merged_il(a, b).card_number == a.card_number,
        merged_il(a, b).rarity == a.rarity,
        forall|id: u32|
            has_id(merged_il(a, b).manage_id.0, id) == (has_id(a.manage_id.0, id) || has_id(b.manage_id.0, id)),
        forall|id: u32|
            has_id(merged_il(a, b).manage_id.1, id) == (has_id(a.manage_id.1, id) || has_id(b.manage_id.1, id)),
        (merged_il(a, b).manage_id.0 is None) == (a.manage_id.0 is None && b.manage_id.0 is None),
        (merged_il(a, b).manage_id.1 is None) == (a.manage_id.1 is None && b.manage_id.1 is None),
        (merged_il(a, b).ogbajoj_sheet_cells is None) == (cells_or_empty(a.ogbajoj_sheet_cells).len() == 0
            && cells_or_empty(b.ogbajoj_sheet_cells).len() == 0),
        merged_il(a, b).ogbajoj_sheet_cells matches Some(x) ==> x == cells_or_empty(a.ogbajoj_sheet_cells)
            + cells_or_empty(b.ogbajoj_sheet_cells),
{
    let m = merged_il(a, b);
    let cells = cells_or_empty(a.ogbajoj_sheet_cells) + cells_or_empty(b.ogbajoj_sheet_cells);
    assert((cells.len() == 0) == (cells_or_empty(a.ogbajoj_sheet_cells).len() == 0 && cells_or_empty(
        b.ogbajoj_sheet_cells,
    ).len() == 0));
}

/// The image a merged printing shows in a language: the kept printing's when
/// it has an official one (not a proxy); the other's when the kept one has
/// none, or has a proxy where the other has an official image. The date of
/// the image goes with it.
pub proof fn lemma_merged_image(a: CardIllustrationView, b: CardIllustrationView, language: Language)
    ensures
        text_get(a.img_path, language) is None ==> text_get(merged_il(a, b).img_path, language) == text_get(
            b.img_path,
            language,
        ) && text_get(merged_il(a, b).img_last_modified, language) == text_get(b.img_last_modified, language),
        (text_get(a.img_path, language) matches Some(p) && !is_proxy(p)) ==> text_get(
            merged_il(a, b).img_path,
            language,
        ) == text_get(a.img_path, language) && text_get(merged_il(a, b).img_last_modified, language) == text_get(
            a.img_last_modified,
            language,
        ),
        (text_get(a.img_path, language) matches Some(p) && is_proxy(p)) && (text_get(b.img_path, language) matches Some(
            q,
        ) && !is_proxy(q)) ==> text_get(merged_il(a, b).img_path, language) == text_get(b.img_path, language),
        (text_get(a.img_path, language) matches Some(p) && is_proxy(p)) && !(text_get(b.img_path, language) matches Some(
            q,
        ) && !is_proxy(q)) ==> text_get(merged_il(a, b).img_path, language) == text_get(a.img_path, language),
{
}

} // verus!
