//! Shop pages of Yuyutei: which product page sells which printing.
use vstd::prelude::*;
use crate::text::{chars_of_string, contains, contains_str, eq, string_of};
use crate::model::{Card, CardIllustration, CardIllustrationView, CardView, opt_view, sorted_ids, sorted_ids_of};
use crate::spreadsheet::{card_views};
use crate::images::{choice_to_make, distance_table, pairs};

























use vstd::pervasive::VecAdditionalExecFns;

use indexmap::IndexMap;

verus! {

#[verifier::external_type_specification]
#[verifier::external_body]
#[verifier::reject_recursive_types(K)]
#[verifier::reject_recursive_types(V)]
#[verifier::reject_recursive_types(S)]
pub struct ExIndexMap<K, V, S>(IndexMap<K, V, S>);

/// A product found on a shop page: its card number, rarity and image.
pub type ProductView = (Seq<char>, Seq<char>, Seq<char>);

/// The entries of a map from product page address to product, in the order
/// of the map.
pub uninterp spec fn product_map_entries(m: IndexMap<String, (String, String, String)>) -> Seq<
    (Seq<char>, ProductView),
>;

pub open spec fn product_view(p: (String, String, String)) -> ProductView {
    (p.0@, p.1@, p.2@)
}

/// The position of the entry with key `k`.
pub open spec fn entry_index(es: Seq<(Seq<char>, ProductView)>, k: Seq<char>) -> Option<int> {
    if exists|i: int| 0 <= i < es.len() && (#[trigger] es[i]).0 == k {
        Some(choose|i: int| 0 <= i < es.len() && (#[trigger] es[i]).0 == k)
    } else {
        None
    }
}

/// No two entries have the same key, and their number fits in `usize`.
pub open spec fn keys_distinct(es: Seq<(Seq<char>, ProductView)>) -> bool {
    &&& forall|i: int, j: int| 0 <= i < j < es.len() ==> es[i].0 != es[j].0
    &&& es.len() <= usize::MAX
}

/// Calls `IndexMap::new`: a map without entries.
#[verifier::external_body]
pub(crate) fn product_map_new() -> (r: IndexMap<String, (String, String, String)>)
    ensures
        product_map_entries(r) == Seq::<(Seq<char>, ProductView)>::empty(),
        keys_distinct(product_map_entries(r)),
{
    IndexMap::new()
}

/// Calls `IndexMap::entry` and `Entry::or_insert`: a key that is not in the
/// map is added at its end with the value; otherwise the map is unchanged.
#[verifier::external_body]
pub(crate) fn product_map_insert_if_absent(
    m: &mut IndexMap<String, (String, String, String)>,
    k: String,
    v: (String, String, String),
)
    requires
        keys_distinct(product_map_entries(*old(m))),
    ensures
        keys_distinct(product_map_entries(*final(m))),
        product_map_entries(*final(m)) == (if entry_index(product_map_entries(*old(m)), k@) is Some {
            product_map_entries(*old(m))
        } else {
            product_map_entries(*old(m)).push((k@, product_view(v)))
        }),
{
    m.entry(k).or_insert(v);
}

/// Calls `IndexMap::shift_remove`: the entry with the key is taken out, the
/// entries after it keeping their order, and its value returned.
#[verifier::external_body]
pub(crate) fn product_map_shift_remove(m: &mut IndexMap<String, (String, String, String)>, k: &String) -> (r:
    Option<(String, String, String)>)
    requires
        keys_distinct(product_map_entries(*old(m))),
    ensures
        keys_distinct(product_map_entries(*final(m))),
        match entry_index(product_map_entries(*old(m)), k@) {
            Some(i) => r matches Some(v) && product_view(v) == product_map_entries(*old(m))[i].1
                && product_map_entries(*final(m)) == product_map_entries(*old(m)).remove(i),
            None => r is None && product_map_entries(*final(m)) == product_map_entries(*old(m)),
        },
{
    m.shift_remove(k)
}

/// Calls `IntoIterator::into_iter` of the map: its entries in order.
#[verifier::external_body]
pub(crate) fn product_map_into_entries(m: IndexMap<String, (String, String, String)>) -> (r: Vec<
    (String, (String, String, String)),
>)
    ensures
        r@.map_values(|e: (String, (String, String, String))| (e.0@, product_view(e.1)))
            == product_map_entries(m),
{
    m.into_iter().collect()
}

/// One product of a shop page, as the page shows it.
#[derive(Debug, Clone)]
pub struct YuyuteiRow {
    pub number: String,
    pub name: String,
    pub rarity: String,
    pub url: Option<String>,
    pub img_src: Option<String>,
}

/// The product pages of the rows: products from before an errata are left
/// out, and a page seen again keeps its first product.
pub open spec fn collected_products(rows: Seq<YuyuteiRow>) -> Seq<(Seq<char>, ProductView)>
    decreases rows.len(),
{
    if rows.len() == 0 {
        Seq::empty()
    } else {
        let es = collected_products(rows.drop_last());
        let r = rows.last();
        if contains(r.name@, "エラッタ前"@) {
            es
        } else {
            match (r.url, r.img_src) {
                (Some(u), Some(i)) => if entry_index(es, u@) is Some {
                    es
                } else {
                    es.push((u@, (r.number@, r.rarity@, i@)))
                },
                _ => es,
            }
        }
    }
}

/// The product pages of the shop's rows, by page address.
pub fn collect_yuyutei_urls(rows: &Vec<YuyuteiRow>) -> (r: IndexMap<String, (String, String, String)>)
    ensures
        product_map_entries(r) == collected_products(rows@),
        keys_distinct(product_map_entries(r)),
{
    let mut m = product_map_new();
    let mut i: usize = 0;
    while i < rows.len()
        invariant
            i <= rows.len(),
            keys_distinct(product_map_entries(m)),
            product_map_entries(m) == collected_products(rows@.take(i as int)),
        decreases rows.len() - i,
    {
        let r = &rows[i];
        proof {
            assert(rows@.take(i + 1).drop_last() == rows@.take(i as int));
            assert(rows@.take(i + 1).last() == *r);
        }
        if !contains_str(&chars_of_string(&r.name), "エラッタ前") {
            match (&r.url, &r.img_src) {
                (Some(u), Some(img)) => {
                    product_map_insert_if_absent(
                        &mut m,
                        u.clone(),
                        (r.number.clone(), r.rarity.clone(), img.clone()),
                    );
                },
                _ => {},
            }
        }
        i = i + 1;
    }
    assert(rows@.take(i as int) == rows@);
    m
}


// ---------------------------------------------------------------------------
// the printings of the database, one after another
// ---------------------------------------------------------------------------
/// The positions of the printings of the first `n` cards, card by card.
pub open spec fn positions(db: Seq<CardView>, n: int) -> Seq<(int, int)>
    decreases n,
{
    if n <= 0 || n > db.len() {
        Seq::empty()
    } else {
        positions(db, n - 1) + Seq::new(db[n - 1].illustrations.len(), |i: int| (n - 1, i))
    }
}

/// The database with the shop page of one printing replaced.
pub open spec fn with_yuyutei_url(db: Seq<CardView>, c: int, i: int, u: Option<Seq<char>>) -> Seq<CardView> {
    db.update(
        c,
        CardView {
            illustrations: db[c].illustrations.update(
                i,
                CardIllustrationView { yuyutei_sell_url: u, ..db[c].illustrations[i] },
            ),
            ..db[c]
        },
    )
}



/// Sets the shop page of one printing.
fn set_yuyutei_url(db: &mut Vec<Card>, c: usize, i: usize, u: Option<String>)
    requires
        c < old(db)@.len(),
        i < old(db)@[c as int].illustrations@.len(),
    ensures
        card_views(final(db)@) == with_yuyutei_url(card_views(old(db)@), c as int, i as int, opt_view(u)),
        final(db)@.len() == old(db)@.len(),
        forall|k: int|
            0 <= k < old(db)@.len() ==> (#[trigger] final(db)@[k]).illustrations@.len() == old(
                db,
            )@[k].illustrations@.len(),
{
    let ghost d0 = db@;
    let mut card = Card::default();
    db.set_and_swap(c, &mut card);
    let ghost il0 = card.illustrations@;
    let ghost cv0 = card@;
    let mut il = CardIllustration::default();
    card.illustrations.set_and_swap(i, &mut il);
    il.yuyutei_sell_url = u;
    let ghost ilv = il@;
    card.illustrations.set(i, il);
    proof {
        assert(card.illustrations@ == il0.update(i as int, il));
        assert(card@.illustrations =~= cv0.illustrations.update(i as int, ilv));
    }
    let ghost cv = card@;
    db.set(c, card);
    proof {
        assert(db@ == d0.update(c as int, card));
        assert(card_views(db@) =~= card_views(d0).update(c as int, cv));
        assert forall|k: int| 0 <= k < d0.len() implies (#[trigger] db@[k]).illustrations@.len()
            == d0[k].illustrations@.len() by {
            if k == c {
                assert(cv.illustrations.len() == card.illustrations@.len());
            }
        }
    }
}

// ---------------------------------------------------------------------------
// quick mode
// ---------------------------------------------------------------------------
/// The key of a printing's image: its Japanese image path, or empty.
pub open spec fn image_key(il: CardIllustrationView) -> Seq<char> {
    match il.img_path.0 {
        Some(p) => p,
        None => Seq::empty(),
    }
}

/// The value of the first entry with key `k`.
pub open spec fn assoc_get(m: Seq<(Seq<char>, Seq<char>)>, k: Seq<char>) -> Option<Seq<char>>
    decreases m.len(),
{
    if m.len() == 0 {
        None
    } else if m[0].0 == k {
        Some(m[0].1)
    } else {
        assoc_get(m.drop_first(), k)
    }
}

/// `m` with `(k, v)` added unless `k` has a value.
pub open spec fn assoc_insert(m: Seq<(Seq<char>, Seq<char>)>, k: Seq<char>, v: Seq<char>) -> Seq<
    (Seq<char>, Seq<char>),
> {
    if assoc_get(m, k) is Some {
        m
    } else {
        m.push((k, v))
    }
}

/// The products left, the number of pages already known, and the page of
/// each image already known.
pub type KnownState = (Seq<(Seq<char>, ProductView)>, nat, Seq<(Seq<char>, Seq<char>)>);

/// A printing with a shop page: its page is taken out of the products, and
/// its image is known to be sold there.
pub open spec fn known_step(st: KnownState, il: CardIllustrationView) -> KnownState {
    let (es, n, known) = st;
    match il.yuyutei_sell_url {
        Some(u) => {
            let (es2, n2) = match entry_index(es, u) {
                Some(i) => (es.remove(i), n + 1),
                None => (es, n),
            };
            (es2, n2, assoc_insert(known, image_key(il), u))
        },
        None => st,
    }
}

pub open spec fn known_all(st: KnownState, db: Seq<CardView>, ps: Seq<(int, int)>) -> KnownState
    decreases ps.len(),
{
    if ps.len() == 0 {
        st
    } else {
        known_step(known_all(st, db, ps.drop_last()), db[ps.last().0].illustrations[ps.last().1])
    }
}

/// The products grouped by card number and rarity, each group's pages and
/// images in the order of the products.
pub type ProductGroups = Seq<((Seq<char>, Seq<char>), Seq<(Seq<char>, Seq<char>)>)>;

pub open spec fn group_index(g: ProductGroups, key: (Seq<char>, Seq<char>)) -> Option<int>
    decreases g.len(),
{
    if g.len() == 0 {
        None
    } else if g.last().0 == key {
        Some(g.len() - 1)
    } else {
        group_index(g.drop_last(), key)
    }
}

pub open spec fn grouped_products(es: Seq<(Seq<char>, ProductView)>) -> ProductGroups
    decreases es.len(),
{
    if es.len() == 0 {
        Seq::empty()
    } else {
        let g = grouped_products(es.drop_last());
        let (u, (number, rarity, img)) = es.last();
        match group_index(g, (number, rarity)) {
            Some(i) => g.update(i, (g[i].0, g[i].1.push((u, img)))),
            None => g.push(((number, rarity), seq![(u, img)])),
        }
    }
}

/// `Vec::swap_remove(0)`: the first element goes and the last takes its place.
pub open spec fn swap_remove_first<A>(s: Seq<A>) -> Seq<A> {
    s.update(0, s.last()).drop_last()
}

/// The cards, the groups left, the images known, and the number of pages set.
pub type QuickState = (Seq<CardView>, ProductGroups, Seq<(Seq<char>, Seq<char>)>, nat);

/// A printing without a shop page takes the page of its image if known,
/// otherwise the first page of its card number and rarity.
pub open spec fn quick_step(st: QuickState, p: (int, int)) -> QuickState {
    let (db, g, known, n) = st;
    let il = db[p.0].illustrations[p.1];
    if il.yuyutei_sell_url is Some {
        st
    } else {
        match assoc_get(known, image_key(il)) {
            Some(u) => (with_yuyutei_url(db, p.0, p.1, Some(u)), g, known, n),
            None => match group_index(g, (il.card_number, il.rarity)) {
                Some(gi) => if g[gi].1.len() > 0 {
                    let u = g[gi].1[0].0;
                    (
                        with_yuyutei_url(db, p.0, p.1, Some(u)),
                        g.update(gi, (g[gi].0, swap_remove_first(g[gi].1))),
                        assoc_insert(known, image_key(il), u),
                        n + 1,
                    )
                } else {
                    st
                },
                None => st,
            },
        }
    }
}

pub open spec fn quick_all(st: QuickState, ps: Seq<(int, int)>) -> QuickState
    decreases ps.len(),
{
    if ps.len() == 0 {
        st
    } else {
        quick_step(quick_all(st, ps.drop_last()), ps.last())
    }
}


pub open spec fn known_view(v: Seq<(String, String)>) -> Seq<(Seq<char>, Seq<char>)> {
    v.map_values(|e: (String, String)| (e.0@, e.1@))
}

pub open spec fn product_groups_view(g: Seq<((String, String), Vec<(String, String)>)>) -> ProductGroups {
    g.map_values(|e: ((String, String), Vec<(String, String)>)| ((e.0.0@, e.0.1@), known_view(e.1@)))
}

fn assoc_get_exec(m: &Vec<(String, String)>, k: &Vec<char>) -> (r: Option<usize>)
    ensures
        match r {
            Some(i) => i < m@.len() && assoc_get(known_view(m@), k@) == Some(m@[i as int].1@),
            None => assoc_get(known_view(m@), k@).is_none(),
        },
{
    let ghost v = known_view(m@);
    let mut i: usize = 0;
    assert(v.skip(0) == v);
    while i < m.len()
        invariant
            i <= m.len(),
            v == known_view(m@),
            assoc_get(v, k@) == assoc_get(v.skip(i as int), k@),
        decreases m.len() - i,
    {
        assert(v.skip(i as int)[0] == v[i as int]);
        assert(v.skip(i as int).drop_first() == v.skip(i + 1));
        if eq(&chars_of_string(&m[i].0), k) {
            return Some(i);
        }
        i = i + 1;
    }
    None
}

fn assoc_insert_exec(m: &mut Vec<(String, String)>, k: &Vec<char>, v: &String)
    ensures
        known_view(final(m)@) == assoc_insert(known_view(old(m)@), k@, v@),
{
    if assoc_get_exec(m, k).is_none() {
        let ghost before = m@;
        m.push((string_of(k), v.clone()));
        assert(known_view(m@) == known_view(before).push((k@, v@)));
    }
}

fn image_key_exec(il: &CardIllustration) -> (r: Vec<char>)
    ensures
        r@ == image_key(il@),
{
    match &il.img_path.japanese {
        Some(p) => chars_of_string(p),
        None => Vec::new(),
    }
}

proof fn lemma_positions_step(db: Seq<CardView>, c: int)
    requires
        0 <= c < db.len(),
    ensures
        positions(db, c + 1) == positions(db, c) + Seq::new(db[c].illustrations.len(), |i: int| (c, i)),
{
}

proof fn lemma_positions_mono(db: Seq<CardView>, a: int, b: int)
    requires
        0 <= a <= b <= db.len(),
    ensures
        positions(db, a).len() <= positions(db, b).len(),
    decreases b - a,
{
    if a < b {
        lemma_positions_mono(db, a, b - 1);
    }
}

proof fn lemma_positions_bounds(db: Seq<CardView>, n: int)
    ensures
        forall|k: int|
            0 <= k < positions(db, n).len() ==> 0 <= (#[trigger] positions(db, n)[k]).0 < db.len() && 0
                <= positions(db, n)[k].1 < db[positions(db, n)[k].0].illustrations.len(),
    decreases n,
{
    if 0 < n <= db.len() {
        lemma_positions_bounds(db, n - 1);
        let p = positions(db, n);
        assert forall|k: int| 0 <= k < p.len() implies 0 <= (#[trigger] p[k]).0 < db.len() && 0 <= p[k].1
            < db[p[k].0].illustrations.len() by {
            if k >= positions(db, n - 1).len() {
                assert(p[k] == (n - 1, k - positions(db, n - 1).len()));
            } else {
                assert(p[k] == positions(db, n - 1)[k]);
            }
        }
    }
}

/// Takes the pages that printings already have out of the products, and
/// notes the page of each image; returns how many were taken.
fn take_known_pages(db: &Vec<Card>, urls: &mut IndexMap<String, (String, String, String)>) -> (r: (
    usize,
    Vec<(String, String)>,
))
    requires
        keys_distinct(product_map_entries(*old(urls))),
    ensures
        keys_distinct(product_map_entries(*final(urls))),
        known_all(
            (product_map_entries(*old(urls)), 0, Seq::empty()),
            card_views(db@),
            positions(card_views(db@), db@.len() as int),
        ) == (product_map_entries(*final(urls)), r.0 as nat, known_view(r.1@)),
{
    let ghost d = card_views(db@);
    let ghost init: KnownState = (product_map_entries(*urls), 0, Seq::empty());
    let mut skipped: usize = 0;
    let mut known: Vec<(String, String)> = Vec::new();
    let mut c: usize = 0;
    while c < db.len()
        invariant
            c <= db.len(),
            d == card_views(db@),
            keys_distinct(product_map_entries(*urls)),
            known_all(init, d, positions(d, c as int)) == (
                product_map_entries(*urls),
                skipped as nat,
                known_view(known@),
            ),
            skipped + product_map_entries(*urls).len() == init.0.len(),
            init.0.len() <= usize::MAX,
        decreases db.len() - c,
    {
        proof {
            lemma_positions_step(d, c as int);
        }
        assert(d[c as int] == db@[c as int]@);
        let mut i: usize = 0;
        while i < db[c].illustrations.len()
            invariant
                c < db.len(),
                d == card_views(db@),
                i <= db@[c as int].illustrations@.len(),
                keys_distinct(product_map_entries(*urls)),
                positions(d, c + 1) == positions(d, c as int) + Seq::new(d[c as int].illustrations.len(), |ii: int| (c as int, ii)),
                known_all(init, d, positions(d, c as int) + Seq::new(i as nat, |ii: int| (c as int, ii)))
                    == (product_map_entries(*urls), skipped as nat, known_view(known@)),
                skipped + product_map_entries(*urls).len() == init.0.len(),
                init.0.len() <= usize::MAX,
            decreases db@[c as int].illustrations@.len() - i,
        {
            let il = &db[c].illustrations[i];
            let ghost ps = positions(d, c as int) + Seq::new(i as nat, |ii: int| (c as int, ii));
            let ghost ps2 = positions(d, c as int) + Seq::new((i + 1) as nat, |ii: int| (c as int, ii));
            assert(ps2.drop_last() == ps);
            assert(ps2.last() == (c as int, i as int));
            assert(d[c as int].illustrations[i as int] == il@);
            match &il.yuyutei_sell_url {
                Some(u) => {
                    if product_map_shift_remove(urls, u).is_some() {
                        skipped = skipped + 1;
                    }
                    assoc_insert_exec(&mut known, &image_key_exec(il), u);
                },
                None => {},
            }
            i = i + 1;
        }
        assert(Seq::new(d[c as int].illustrations.len(), |ii: int| (c as int, ii)) == Seq::new(
            i as nat,
            |ii: int| (c as int, ii),
        ));
        c = c + 1;
    }
    (skipped, known)
}

pub fn find_product_group(g: &Vec<((String, String), Vec<(String, String)>)>, number: &String, rarity: &String) -> (r:
    Option<usize>)
    ensures
        match r {
            Some(i) => i < g@.len() && group_index(product_groups_view(g@), (number@, rarity@)) == Some(i as int),
            None => group_index(product_groups_view(g@), (number@, rarity@)).is_none(),
        },
{
    let ghost v = product_groups_view(g@);
    let mut i: usize = g.len();
    assert(v.take(i as int) == v);
    while i > 0
        invariant
            i <= g.len(),
            v == product_groups_view(g@),
            group_index(v, (number@, rarity@)) == group_index(v.take(i as int), (number@, rarity@)),
        decreases i,
    {
        let ghost t = v.take(i as int);
        assert(t.last() == v[i - 1]);
        assert(t.drop_last() == v.take(i - 1));
        if g[i - 1].0.0 == *number && g[i - 1].0.1 == *rarity {
            return Some(i - 1);
        }
        i = i - 1;
    }
    None
}

/// Groups the products by card number and rarity.
fn group_products(es: Vec<(String, (String, String, String))>) -> (r: Vec<((String, String), Vec<(String, String)>)>)
    ensures
        product_groups_view(r@) == grouped_products(
            es@.map_values(|e: (String, (String, String, String))| (e.0@, product_view(e.1))),
        ),
{
    let ghost ev = es@.map_values(|e: (String, (String, String, String))| (e.0@, product_view(e.1)));
    let mut g: Vec<((String, String), Vec<(String, String)>)> = Vec::new();
    let mut k: usize = 0;
    while k < es.len()
        invariant
            k <= es.len(),
            ev == es@.map_values(|e: (String, (String, String, String))| (e.0@, product_view(e.1))),
            product_groups_view(g@) == grouped_products(ev.take(k as int)),
        decreases es.len() - k,
    {
        let (u, (number, rarity, img)) = &es[k];
        proof {
            assert(ev.take(k + 1).drop_last() == ev.take(k as int));
            assert(ev.take(k + 1).last() == ev[k as int]);
        }
        let ghost g0 = product_groups_view(g@);
        match find_product_group(&g, number, rarity) {
            Some(i) => {
                let mut tmp: ((String, String), Vec<(String, String)>) = ((String::new(), String::new()), Vec::new());
                g.set_and_swap(i, &mut tmp);
                let ghost before = tmp.1@;
                tmp.1.push((u.clone(), img.clone()));
                assert(known_view(tmp.1@) == known_view(before).push((u@, img@)));
                let ghost mid = g@;
                g.set(i, tmp);
                proof {
                    assert(g@ == mid.update(i as int, tmp));
                    assert(product_groups_view(g@) =~= g0.update(i as int, (g0[i as int].0, g0[i as int].1.push((u@, img@)))));
                }
            },
            None => {
                let mut v: Vec<(String, String)> = Vec::new();
                v.push((u.clone(), img.clone()));
                assert(known_view(v@) == seq![(u@, img@)]);
                let ghost before = g@;
                g.push(((number.clone(), rarity.clone()), v));
                assert(product_groups_view(g@) == product_groups_view(before).push(((number@, rarity@), seq![(u@, img@)])));
            },
        }
        k = k + 1;
    }
    assert(ev.take(k as int) == ev);
    g
}


/// Gives the printings without a shop page a page; see `quick_step`.
fn assign_quick(
    db: &mut Vec<Card>,
    groups: &mut Vec<((String, String), Vec<(String, String)>)>,
    known: &mut Vec<(String, String)>,
) -> (r: usize)
    requires
        positions(card_views(old(db)@), old(db)@.len() as int).len() <= usize::MAX,
    ensures
        quick_all(
            (card_views(old(db)@), product_groups_view(old(groups)@), known_view(old(known)@), 0),
            positions(card_views(old(db)@), old(db)@.len() as int),
        ) == (card_views(final(db)@), product_groups_view(final(groups)@), known_view(final(known)@), r as nat),
{
    let ghost d0 = card_views(db@);
    let ghost init: QuickState = (d0, product_groups_view(groups@), known_view(known@), 0);
    proof {
        lemma_positions_bounds(d0, d0.len() as int);
    }
    let mut n: usize = 0;
    let mut c: usize = 0;
    while c < db.len()
        invariant
            c <= db.len(),
            db@.len() == d0.len(),
            forall|k: int| 0 <= k < d0.len() ==> (#[trigger] db@[k]).illustrations@.len() == d0[k].illustrations.len(),
            quick_all(init, positions(d0, c as int)) == (
                card_views(db@),
                product_groups_view(groups@),
                known_view(known@),
                n as nat,
            ),
            n <= positions(d0, c as int).len(),
            positions(d0, d0.len() as int).len() <= usize::MAX,
        decreases db.len() - c,
    {
        proof {
            lemma_positions_step(d0, c as int);
            lemma_positions_mono(d0, c + 1, d0.len() as int);
        }
        let mut i: usize = 0;
        while i < db[c].illustrations.len()
            invariant
                c < db.len(),
                db@.len() == d0.len(),
                forall|k: int| 0 <= k < d0.len() ==> (#[trigger] db@[k]).illustrations@.len() == d0[k].illustrations.len(),
                i <= db@[c as int].illustrations@.len(),
                positions(d0, c + 1) == positions(d0, c as int) + Seq::new(d0[c as int].illustrations.len(), |ii: int| (c as int, ii)),
                quick_all(init, positions(d0, c as int) + Seq::new(i as nat, |ii: int| (c as int, ii))) == (
                    card_views(db@),
                    product_groups_view(groups@),
                    known_view(known@),
                    n as nat,
                ),
                n <= positions(d0, c as int).len() + i,
                positions(d0, c as int).len() + d0[c as int].illustrations.len() <= usize::MAX,
            decreases db@[c as int].illustrations@.len() - i,
        {
            let ghost ps = positions(d0, c as int) + Seq::new(i as nat, |ii: int| (c as int, ii));
            let ghost ps2 = positions(d0, c as int) + Seq::new((i + 1) as nat, |ii: int| (c as int, ii));
            assert(ps2.drop_last() == ps);
            assert(ps2.last() == (c as int, i as int));
            assert(card_views(db@)[c as int] == db@[c as int]@);
            assert(card_views(db@)[c as int].illustrations[i as int] == db@[c as int].illustrations@[i as int]@);
            if db[c].illustrations[i].yuyutei_sell_url.is_none() {
                let key = image_key_exec(&db[c].illustrations[i]);
                match assoc_get_exec(known, &key) {
                    Some(ki) => {
                        let u = known[ki].1.clone();
                        set_yuyutei_url(db, c, i, Some(u));
                    },
                    None => {
                        let number = db[c].illustrations[i].card_number.clone();
                        let rarity = db[c].illustrations[i].rarity.clone();
                        match find_product_group(groups, &number, &rarity) {
                            Some(gi) => {
                                if groups[gi].1.len() > 0 {
                                    let ghost g0 = product_groups_view(groups@);
                                    let mut tmp: ((String, String), Vec<(String, String)>) = (
                                        (String::new(), String::new()),
                                        Vec::new(),
                                    );
                                    groups.set_and_swap(gi, &mut tmp);
                                    let ghost before = tmp.1@;
                                    let (u, _img) = tmp.1.swap_remove(0);
                                    assert(known_view(tmp.1@) == swap_remove_first(known_view(before))) by {
                                        assert(known_view(tmp.1@) =~= swap_remove_first(known_view(before)));
                                    }
                                    let ghost mid = groups@;
                                    groups.set(gi, tmp);
                                    proof {
                                        assert(groups@ == mid.update(gi as int, tmp));
                                        assert(product_groups_view(groups@) =~= g0.update(
                                            gi as int,
                                            (g0[gi as int].0, swap_remove_first(g0[gi as int].1)),
                                        ));
                                    }
                                    set_yuyutei_url(db, c, i, Some(u.clone()));
                                    assoc_insert_exec(known, &key, &u);
                                    n = n + 1;
                                }
                            },
                            None => {},
                        }
                    },
                }
            }
            i = i + 1;
        }
        assert(Seq::new(d0[c as int].illustrations.len(), |ii: int| (c as int, ii)) == Seq::new(
            i as nat,
            |ii: int| (c as int, ii),
        ));
        c = c + 1;
    }
    n
}

/// What setting the shop pages did.
#[derive(Debug)]
pub struct YuyuteiReport {
    /// The number of pages set.
    pub updated: usize,
    /// The number of pages that printings already had.
    pub skipped: usize,
    /// The pages left unmatched, by card number and rarity.
    pub unmatched: Vec<((String, String), Vec<(String, String)>)>,
}

/// The groups that still have pages.
pub open spec fn nonempty_groups(g: ProductGroups) -> ProductGroups {
    g.filter(|e: ((Seq<char>, Seq<char>), Seq<(Seq<char>, Seq<char>)>)| e.1.len() > 0)
}

pub fn unmatched_groups(g: Vec<((String, String), Vec<(String, String)>)>) -> (r: Vec<((String, String), Vec<(String, String)>)>)
    ensures
        product_groups_view(r@) == nonempty_groups(product_groups_view(g@)),
{
    let ghost gv = product_groups_view(g@);
    let ghost f = |e: ((Seq<char>, Seq<char>), Seq<(Seq<char>, Seq<char>)>)| e.1.len() > 0;
    let mut out: Vec<((String, String), Vec<(String, String)>)> = Vec::new();
    let mut k: usize = 0;
    let mut g = g;
    let len = g.len();
    while k < len
        invariant
            k <= len,
            len == g@.len(),
            gv.len() == len,
            forall|m: int| k <= m < len ==> (#[trigger] product_groups_view(g@)[m]) == gv[m],
            f == (|e: ((Seq<char>, Seq<char>), Seq<(Seq<char>, Seq<char>)>)| e.1.len() > 0),
            product_groups_view(out@) == gv.take(k as int).filter(f),
        decreases len - k,
    {
        proof {
            assert(gv.take(k + 1) == gv.take(k as int).push(gv[k as int]));
            gv.take(k as int).lemma_filter_push(gv[k as int], f);
        }
        let mut tmp: ((String, String), Vec<(String, String)>) = ((String::new(), String::new()), Vec::new());
        let ghost before_g = g@;
        g.set_and_swap(k, &mut tmp);
        assert(product_groups_view(before_g)[k as int] == gv[k as int]);
        proof {
            assert forall|m: int| k < m < len implies (#[trigger] product_groups_view(g@)[m]) == gv[m] by {
                assert(g@[m] == before_g[m]);
                assert(product_groups_view(before_g)[m] == gv[m]);
            }
        }
        if tmp.1.len() > 0 {
            let ghost ob = out@;
            out.push(tmp);
            assert(product_groups_view(out@) == product_groups_view(ob).push(gv[k as int]));
        }
        k = k + 1;
    }
    assert(gv.take(k as int) == gv);
    out
}

/// The quick way: printings that already have a shop page keep it, and its
/// page is taken out; each other printing takes the page of the same image if
/// one is known, or else the first page of its card number and rarity.
pub fn yuyutei_quick(db: &mut Vec<Card>, urls: IndexMap<String, (String, String, String)>) -> (r: YuyuteiReport)
    requires
        keys_distinct(product_map_entries(urls)),
        positions(card_views(old(db)@), old(db)@.len() as int).len() <= usize::MAX,
    ensures
        ({
            let d0 = card_views(old(db)@);
            let (es, skipped, known) = known_all(
                (product_map_entries(urls), 0, Seq::empty()),
                d0,
                positions(d0, d0.len() as int),
            );
            let (d1, g1, _k, n) = quick_all(
                (d0, grouped_products(es), known, 0),
                positions(d0, d0.len() as int),
            );
            &&& card_views(final(db)@) == d1
            &&& r.updated == n
            &&& r.skipped == skipped
            &&& product_groups_view(r.unmatched@) == nonempty_groups(g1)
        }),
{
    let mut urls = urls;
    let (skipped, mut known) = take_known_pages(db, &mut urls);
    let es = product_map_into_entries(urls);
    let mut groups = group_products(es);
    let updated = assign_quick(db, &mut groups, &mut known);
    YuyuteiReport { updated, skipped, unmatched: unmatched_groups(groups) }
}


// ---------------------------------------------------------------------------
// matching by images
// ---------------------------------------------------------------------------
/// Clears the shop pages of all printings.
pub fn clear_yuyutei_urls(db: &mut Vec<Card>)
    ensures
        card_views(final(db)@) == card_views(old(db)@).map_values(
            |c: CardView|
                CardView {
                    illustrations: c.illustrations.map_values(
                        |il: CardIllustrationView| CardIllustrationView { yuyutei_sell_url: None, ..il },
                    ),
                    ..c
                },
        ),
{
    let ghost d0 = card_views(db@);
    let ghost f = |c: CardView|
        CardView {
            illustrations: c.illustrations.map_values(
                |il: CardIllustrationView| CardIllustrationView { yuyutei_sell_url: None, ..il },
            ),
            ..c
        };
    let mut c: usize = 0;
    while c < db.len()
        invariant
            c <= db.len(),
            db@.len() == d0.len(),
            f == (|c: CardView|
                CardView {
                    illustrations: c.illustrations.map_values(
                        |il: CardIllustrationView| CardIllustrationView { yuyutei_sell_url: None, ..il },
                    ),
                    ..c
                }),
            forall|k: int| 0 <= k < c ==> #[trigger] card_views(db@)[k] == f(d0[k]),
            forall|k: int| c <= k < d0.len() ==> #[trigger] card_views(db@)[k] == d0[k],
        decreases db.len() - c,
    {
        assert(card_views(db@)[c as int] == db@[c as int]@);
        let mut i: usize = 0;
        while i < db[c].illustrations.len()
            invariant
                c < db.len(),
                db@.len() == d0.len(),
                i <= db@[c as int].illustrations@.len(),
                db@[c as int].illustrations@.len() == d0[c as int].illustrations.len(),
                card_views(db@)[c as int] == (CardView {
                    illustrations: card_views(db@)[c as int].illustrations,
                    ..d0[c as int]
                }),
                forall|k: int| 0 <= k < c ==> #[trigger] card_views(db@)[k] == f(d0[k]),
                forall|k: int| c < k < d0.len() ==> #[trigger] card_views(db@)[k] == d0[k],
                forall|k: int|
                    0 <= k < i ==> #[trigger] card_views(db@)[c as int].illustrations[k] == (CardIllustrationView {
                        yuyutei_sell_url: None,
                        ..d0[c as int].illustrations[k]
                    }),
                forall|k: int|
                    i <= k < d0[c as int].illustrations.len() ==> #[trigger] card_views(
                        db@,
                    )[c as int].illustrations[k] == d0[c as int].illustrations[k],
            decreases db@[c as int].illustrations@.len() - i,
        {
            let ghost before = card_views(db@);
            set_yuyutei_url(db, c, i, None);
            proof {
                assert forall|k: int| 0 <= k < d0.len() && k != c implies #[trigger] card_views(db@)[k]
                    == before[k] by {}
            }
            i = i + 1;
        }
        proof {
            assert(card_views(db@)[c as int].illustrations =~= d0[c as int].illustrations.map_values(
                |il: CardIllustrationView| CardIllustrationView { yuyutei_sell_url: None, ..il },
            ));
        }
        c = c + 1;
    }
    assert(card_views(db@) =~= d0.map_values(f));
}

/// The printings of a card grouped by rarity, each rarity where it first appears.
pub open spec fn rarity_groups_of(ils: Seq<CardIllustrationView>, n: int) -> Seq<(Seq<char>, Seq<int>)>
    decreases n,
{
    if n <= 0 || n > ils.len() {
        Seq::empty()
    } else {
        let g = rarity_groups_of(ils, n - 1);
        let r = ils[n - 1].rarity;
        if exists|k: int| 0 <= k < g.len() && (#[trigger] g[k]).0 == r {
            let k = choose|k: int| 0 <= k < g.len() && (#[trigger] g[k]).0 == r;
            g.update(k, (r, g[k].1.push(n - 1)))
        } else {
            g.push((r, seq![n - 1]))
        }
    }
}

pub open spec fn rarity_groups_view(g: Seq<(String, Vec<usize>)>) -> Seq<(Seq<char>, Seq<int>)> {
    g.map_values(|e: (String, Vec<usize>)| (e.0@, e.1@.map_values(|i: usize| i as int)))
}

pub open spec fn distinct_rarities(g: Seq<(Seq<char>, Seq<int>)>) -> bool {
    forall|a: int, b: int| 0 <= a < b < g.len() ==> g[a].0 != g[b].0
}

/// Groups the printings of a card by rarity.
pub fn rarity_groups(card: &Card) -> (r: Vec<(String, Vec<usize>)>)
    ensures
        rarity_groups_view(r@) == rarity_groups_of(card@.illustrations, card@.illustrations.len() as int),
        distinct_rarities(rarity_groups_view(r@)),
{
    let ghost ils = card@.illustrations;
    let mut g: Vec<(String, Vec<usize>)> = Vec::new();
    let mut i: usize = 0;
    while i < card.illustrations.len()
        invariant
            i <= card.illustrations.len(),
            ils == card@.illustrations,
            rarity_groups_view(g@) == rarity_groups_of(ils, i as int),
            distinct_rarities(rarity_groups_view(g@)),
        decreases card.illustrations.len() - i,
    {
        let r = &card.illustrations[i].rarity;
        assert(ils[i as int].rarity == r@);
        let ghost g0 = rarity_groups_view(g@);
        let mut k: usize = 0;
        while k < g.len() && !(g[k].0 == *r)
            invariant
                k <= g.len(),
                g0 == rarity_groups_view(g@),
                forall|q: int| 0 <= q < k ==> g0[q].0 != r@,
            decreases g.len() - k,
        {
            k = k + 1;
        }
        if k < g.len() {
            assert(g0[k as int].0 == r@);
            let mut tmp: (String, Vec<usize>) = (String::new(), Vec::new());
            g.set_and_swap(k, &mut tmp);
            let ghost before = tmp.1@;
            tmp.1.push(i);
            assert(tmp.1@.map_values(|x: usize| x as int) == before.map_values(|x: usize| x as int).push(i as int));
            let ghost mid = g@;
            g.set(k, tmp);
            proof {
                let kk = choose|q: int| 0 <= q < g0.len() && (#[trigger] g0[q]).0 == r@;
                assert(kk == k);
                assert(g@ == mid.update(k as int, tmp));
                assert(rarity_groups_view(g@) =~= g0.update(k as int, (r@, g0[k as int].1.push(i as int))));
            }
        } else {
            let mut v: Vec<usize> = Vec::new();
            v.push(i);
            assert(v@.map_values(|x: usize| x as int) =~= seq![i as int]);
            let ghost before = g@;
            g.push((r.clone(), v));
            assert(rarity_groups_view(g@) == rarity_groups_view(before).push((r@, seq![i as int])));
        }
        i = i + 1;
    }
    g
}

/// `a` comes after `b` in lexicographic order.
pub open spec fn ids_after(a: Seq<u32>, b: Seq<u32>) -> bool
    decreases a.len(),
{
    if a.len() == 0 {
        false
    } else if b.len() == 0 {
        true
    } else if a[0] != b[0] {
        a[0] > b[0]
    } else {
        ids_after(a.drop_first(), b.drop_first())
    }
}

/// The order of optional id lists: none first, then lexicographic.
pub open spec fn opt_ids_after(a: Option<Seq<u32>>, b: Option<Seq<u32>>) -> bool {
    match (a, b) {
        (Some(x), Some(y)) => ids_after(x, y),
        (Some(_), None) => true,
        _ => false,
    }
}

/// A pair key: the distance, then the Japanese Deck Log ids in order.
pub type PairKey = (u64, Option<Seq<u32>>);

pub open spec fn key_after(a: PairKey, b: PairKey) -> bool {
    a.0 > b.0 || (a.0 == b.0 && opt_ids_after(a.1, b.1))
}

pub open spec fn insert_pos_by_key(r: Seq<((int, int), PairKey)>, k: PairKey, i: int) -> int
    decreases r.len() - i,
{
    if i < 0 || i >= r.len() {
        r.len() as int
    } else if key_after(r[i].1, k) {
        i
    } else {
        insert_pos_by_key(r, k, i + 1)
    }
}

/// The pairs ordered by key, pairs with equal keys in their first order.
pub open spec fn sort_by_pair_key(s: Seq<((int, int), PairKey)>) -> Seq<((int, int), PairKey)>
    decreases s.len(),
{
    if s.len() == 0 {
        s
    } else {
        let r = sort_by_pair_key(s.drop_last());
        r.insert(insert_pos_by_key(r, s.last().1, 0), s.last())
    }
}

proof fn lemma_insert_pos_by_key(r: Seq<((int, int), PairKey)>, k: PairKey, i: int)
    requires
        0 <= i <= r.len(),
    ensures
        i <= insert_pos_by_key(r, k, i) <= r.len(),
    decreases r.len() - i,
{
    if i < r.len() && !key_after(r[i].1, k) {
        lemma_insert_pos_by_key(r, k, i + 1);
    }
}

pub proof fn lemma_sort_by_pair_key_keeps(s: Seq<((int, int), PairKey)>, pred: spec_fn(((int, int), PairKey)) -> bool)
    requires
        forall|i: int| 0 <= i < s.len() ==> pred(#[trigger] s[i]),
    ensures
        forall|i: int| 0 <= i < sort_by_pair_key(s).len() ==> pred(#[trigger] sort_by_pair_key(s)[i]),
        sort_by_pair_key(s).len() == s.len(),
    decreases s.len(),
{
    if s.len() > 0 {
        lemma_sort_by_pair_key_keeps(s.drop_last(), pred);
        let r = sort_by_pair_key(s.drop_last());
        lemma_insert_pos_by_key(r, s.last().1, 0);
        let p = insert_pos_by_key(r, s.last().1, 0);
        let t = r.insert(p, s.last());
        assert forall|i: int| 0 <= i < t.len() implies pred(#[trigger] t[i]) by {
            if i < p {
                assert(t[i] == r[i]);
            } else if i == p {
                assert(t[i] == s[s.len() - 1]);
            } else {
                assert(t[i] == r[i - 1]);
            }
        }
    }
}

pub open spec fn opt_ids_view(o: Option<Vec<u32>>) -> Option<Seq<u32>> {
    match o {
        Some(v) => Some(v@),
        None => None,
    }
}

pub open spec fn pair_entry_view(e: ((usize, usize), u64, Option<Vec<u32>>)) -> ((int, int), PairKey) {
    ((e.0.0 as int, e.0.1 as int), (e.1, opt_ids_view(e.2)))
}

fn ids_after_exec(a: &Vec<u32>, b: &Vec<u32>) -> (r: bool)
    ensures
        r == ids_after(a@, b@),
{
    let mut i: usize = 0;
    assert(a@.skip(0) == a@);
    assert(b@.skip(0) == b@);
    while i < a.len() && i < b.len() && a[i] == b[i]
        invariant
            i <= a.len(),
            i <= b.len(),
            ids_after(a@, b@) == ids_after(a@.skip(i as int), b@.skip(i as int)),
        decreases a.len() - i,
    {
        assert(a@.skip(i as int).drop_first() == a@.skip(i + 1));
        assert(b@.skip(i as int).drop_first() == b@.skip(i + 1));
        i = i + 1;
    }
    if i == a.len() {
        false
    } else if i == b.len() {
        true
    } else {
        assert(a@.skip(i as int)[0] == a@[i as int]);
        assert(b@.skip(i as int)[0] == b@[i as int]);
        a[i] > b[i]
    }
}

fn key_after_exec(a: &((usize, usize), u64, Option<Vec<u32>>), b: &((usize, usize), u64, Option<Vec<u32>>)) -> (r: bool)
    ensures
        r == key_after(pair_entry_view(*a).1, pair_entry_view(*b).1),
{
    if a.1 != b.1 {
        a.1 > b.1
    } else {
        match (&a.2, &b.2) {
            (Some(x), Some(y)) => ids_after_exec(x, y),
            (Some(_), None) => true,
            _ => false,
        }
    }
}

fn copy_ids(o: &Option<Vec<u32>>) -> (r: Option<Vec<u32>>)
    ensures
        opt_ids_view(r) == opt_ids_view(*o),
{
    match o {
        Some(v) => {
            let mut w: Vec<u32> = Vec::new();
            let mut i: usize = 0;
            while i < v.len()
                invariant
                    i <= v.len(),
                    w@ == v@.take(i as int),
                decreases v.len() - i,
            {
                w.push(v[i]);
                assert(v@.take(i + 1) == v@.take(i as int).push(v@[i as int]));
                i = i + 1;
            }
            assert(v@.take(i as int) == v@);
            Some(w)
        },
        None => None,
    }
}

/// Sorts the pairs by distance, then by Japanese Deck Log ids, keeping the
/// first order of equal pairs.
pub fn sort_pairs(s: Vec<((usize, usize), u64, Option<Vec<u32>>)>) -> (r: Vec<((usize, usize), u64, Option<Vec<u32>>)>)
    ensures
        r@.map_values(|e: ((usize, usize), u64, Option<Vec<u32>>)| pair_entry_view(e)) == sort_by_pair_key(
            s@.map_values(|e: ((usize, usize), u64, Option<Vec<u32>>)| pair_entry_view(e)),
        ),
{
    let ghost sv = s@.map_values(|e: ((usize, usize), u64, Option<Vec<u32>>)| pair_entry_view(e));
    let mut r: Vec<((usize, usize), u64, Option<Vec<u32>>)> = Vec::new();
    let mut i: usize = 0;
    while i < s.len()
        invariant
            i <= s.len(),
            sv == s@.map_values(|e: ((usize, usize), u64, Option<Vec<u32>>)| pair_entry_view(e)),
            r@.map_values(|e: ((usize, usize), u64, Option<Vec<u32>>)| pair_entry_view(e)) == sort_by_pair_key(sv.take(i as int)),
        decreases s.len() - i,
    {
        let e = ((s[i].0.0, s[i].0.1), s[i].1, copy_ids(&s[i].2));
        assert(pair_entry_view(e) == sv[i as int]);
        let ghost rv = r@.map_values(|e: ((usize, usize), u64, Option<Vec<u32>>)| pair_entry_view(e));
        let mut p: usize = 0;
        while p < r.len() && !key_after_exec(&r[p], &e)
            invariant
                p <= r.len(),
                rv == r@.map_values(|e: ((usize, usize), u64, Option<Vec<u32>>)| pair_entry_view(e)),
                insert_pos_by_key(rv, pair_entry_view(e).1, 0) == insert_pos_by_key(rv, pair_entry_view(e).1, p as int),
            decreases r.len() - p,
        {
            assert(rv[p as int] == pair_entry_view(r@[p as int]));
            p = p + 1;
        }
        if p < r.len() {
            assert(rv[p as int] == pair_entry_view(r@[p as int]));
        }
        let ghost before = r@;
        r.insert(p, e);
        proof {
            assert(sv.take(i + 1).drop_last() == sv.take(i as int));
            assert(sv.take(i + 1).last() == sv[i as int]);
            assert(r@.map_values(|e: ((usize, usize), u64, Option<Vec<u32>>)| pair_entry_view(e)) =~= rv.insert(
                p as int,
                pair_entry_view(e),
            ));
        }
        i = i + 1;
    }
    assert(sv.take(i as int) == sv);
    r
}


/// Pages other than `u`.
pub open spec fn other_page(u: Seq<char>) -> spec_fn((Seq<char>, Seq<char>)) -> bool {
    |p: (Seq<char>, Seq<char>)| p.0 != u
}

/// The smallest distance at which each page was set so far.
pub open spec fn best_get(m: Seq<(Seq<char>, u64)>, k: Seq<char>) -> Option<u64>
    decreases m.len(),
{
    if m.len() == 0 {
        None
    } else if m[0].0 == k {
        Some(m[0].1)
    } else {
        best_get(m.drop_first(), k)
    }
}

/// `m` with the value of `k` set to `v`.
pub open spec fn best_set(m: Seq<(Seq<char>, u64)>, k: Seq<char>, v: u64) -> Seq<(Seq<char>, u64)>
    decreases m.len(),
{
    if m.len() == 0 {
        seq![(k, v)]
    } else if m[0].0 == k {
        m.update(0, (k, v))
    } else {
        seq![m[0]] + best_set(m.drop_first(), k, v)
    }
}

/// The key of a pair: its distance, and the printing's Japanese ids in order.
pub open spec fn image_pair_key(il: CardIllustrationView, d: u64) -> PairKey {
    (
        d,
        match il.manage_id.0 {
            Some(s) => Some(sorted_ids(s)),
            None => None,
        },
    )
}

/// The pairs (page, printing) of a group with their keys, before sorting.
pub open spec fn image_pairs(
    db: Seq<CardView>,
    c: int,
    idxs: Seq<int>,
    pages: Seq<(Seq<char>, Seq<char>)>,
    dists: Seq<Vec<u64>>,
) -> Seq<((int, int), PairKey)> {
    pairs(pages.len() as int, idxs.len() as int).map_values(
        |e: (int, int)| (e, image_pair_key(db[c].illustrations[idxs[e.1]], dists[e.0]@[e.1])),
    )
}

/// The cards, the pages left, the best distance of each page set, and the
/// number of pages set.
pub type ImageMatchState = (Seq<CardView>, Seq<(Seq<char>, Seq<char>)>, Seq<(Seq<char>, u64)>, nat);

/// One pair, best first: a printing without a page takes the page unless
/// the page went to another printing at a smaller distance.
pub open spec fn image_match_step(
    st: ImageMatchState,
    c: int,
    idxs: Seq<int>,
    pages: Seq<(Seq<char>, Seq<char>)>,
    e: ((int, int), PairKey),
) -> ImageMatchState {
    let (db, left, best, n) = st;
    let (k, j) = e.0;
    let d = e.1.0;
    let u = pages[k].0;
    let i = idxs[j];
    let il = db[c].illustrations[i];
    let m = match best_get(best, u) {
        Some(x) => x,
        None => u64::MAX,
    };
    if il.yuyutei_sell_url is None && m >= d {
        (
            with_yuyutei_url(db, c, i, Some(u)),
            left.filter(other_page(u)),
            best_set(
                best,
                u,
                if d < m {
                    d
                } else {
                    m
                },
            ),
            n + 1,
        )
    } else {
        st
    }
}

pub open spec fn image_match_all(
    st: ImageMatchState,
    c: int,
    idxs: Seq<int>,
    pages: Seq<(Seq<char>, Seq<char>)>,
    es: Seq<((int, int), PairKey)>,
) -> ImageMatchState
    decreases es.len(),
{
    if es.len() == 0 {
        st
    } else {
        image_match_step(image_match_all(st, c, idxs, pages, es.drop_last()), c, idxs, pages, es.last())
    }
}

/// The outcome for one group: nothing without pages or printings; one page
/// and one printing go together; otherwise the pairs are taken best first.
pub open spec fn image_match_outcome(
    db: Seq<CardView>,
    c: int,
    idxs: Seq<int>,
    pages: Seq<(Seq<char>, Seq<char>)>,
    dists: Seq<Vec<u64>>,
) -> ImageMatchState {
    if pages.len() == 0 || idxs.len() == 0 {
        (db, pages, Seq::empty(), 0)
    } else if pages.len() == 1 && idxs.len() == 1 {
        (with_yuyutei_url(db, c, idxs[0], Some(pages[0].0)), Seq::empty(), Seq::empty(), 1)
    } else {
        image_match_all(
            (db, pages, Seq::empty(), 0),
            c,
            idxs,
            pages,
            sort_by_pair_key(image_pairs(db, c, idxs, pages, dists)),
        )
    }
}

fn best_get_exec(m: &Vec<(String, u64)>, k: &String) -> (r: Option<u64>)
    ensures
        r == best_get(m@.map_values(|e: (String, u64)| (e.0@, e.1)), k@),
{
    let ghost v = m@.map_values(|e: (String, u64)| (e.0@, e.1));
    let mut i: usize = 0;
    assert(v.skip(0) == v);
    while i < m.len()
        invariant
            i <= m.len(),
            v == m@.map_values(|e: (String, u64)| (e.0@, e.1)),
            best_get(v, k@) == best_get(v.skip(i as int), k@),
        decreases m.len() - i,
    {
        assert(v.skip(i as int)[0] == v[i as int]);
        assert(v.skip(i as int).drop_first() == v.skip(i + 1));
        if m[i].0 == *k {
            return Some(m[i].1);
        }
        i = i + 1;
    }
    None
}

proof fn lemma_best_set_found(m: Seq<(Seq<char>, u64)>, k: Seq<char>, v: u64, i: int)
    requires
        0 <= i < m.len(),
        m[i].0 == k,
        forall|j: int| 0 <= j < i ==> m[j].0 != k,
    ensures
        best_set(m, k, v) == m.update(i, (k, v)),
    decreases i,
{
    if i > 0 {
        lemma_best_set_found(m.drop_first(), k, v, i - 1);
        assert(seq![m[0]] + m.drop_first().update(i - 1, (k, v)) =~= m.update(i, (k, v)));
    }
}

proof fn lemma_best_set_absent(m: Seq<(Seq<char>, u64)>, k: Seq<char>, v: u64)
    requires
        forall|j: int| 0 <= j < m.len() ==> m[j].0 != k,
    ensures
        best_set(m, k, v) == m.push((k, v)),
    decreases m.len(),
{
    if m.len() > 0 {
        lemma_best_set_absent(m.drop_first(), k, v);
        assert(seq![m[0]] + m.drop_first().push((k, v)) =~= m.push((k, v)));
    }
}

fn best_set_exec(m: &mut Vec<(String, u64)>, k: &String, v: u64)
    ensures
        final(m)@.map_values(|e: (String, u64)| (e.0@, e.1)) == best_set(
            old(m)@.map_values(|e: (String, u64)| (e.0@, e.1)),
            k@,
            v,
        ),
{
    let ghost mv = m@.map_values(|e: (String, u64)| (e.0@, e.1));
    let mut i: usize = 0;
    while i < m.len() && !(m[i].0 == *k)
        invariant
            i <= m.len(),
            mv == m@.map_values(|e: (String, u64)| (e.0@, e.1)),
            forall|j: int| 0 <= j < i ==> mv[j].0 != k@,
        decreases m.len() - i,
    {
        i = i + 1;
    }
    if i < m.len() {
        proof {
            lemma_best_set_found(mv, k@, v, i as int);
        }
        let ghost before = m@;
        m.set(i, (k.clone(), v));
        assert(m@.map_values(|e: (String, u64)| (e.0@, e.1)) =~= mv.update(i as int, (k@, v)));
    } else {
        proof {
            lemma_best_set_absent(mv, k@, v);
        }
        let ghost before = m@;
        m.push((k.clone(), v));
        assert(m@.map_values(|e: (String, u64)| (e.0@, e.1)) =~= mv.push((k@, v)));
    }
}

fn remove_page(left: &mut Vec<(String, String)>, u: &String)
    ensures
        known_view(final(left)@) == known_view(old(left)@).filter(other_page(u@)),
{
    let ghost lv = known_view(left@);
    let ghost f = other_page(u@);
    let mut out: Vec<(String, String)> = Vec::new();
    let mut i: usize = 0;
    while i < left.len()
        invariant
            i <= left.len(),
            lv == known_view(left@),
            f == other_page(u@),
            known_view(out@) == lv.take(i as int).filter(f),
        decreases left.len() - i,
    {
        proof {
            assert(lv.take(i + 1) == lv.take(i as int).push(lv[i as int]));
            lv.take(i as int).lemma_filter_push(lv[i as int], f);
        }
        if !(left[i].0 == *u) {
            let ghost ob = out@;
            out.push((left[i].0.clone(), left[i].1.clone()));
            assert(known_view(out@) == known_view(ob).push(lv[i as int]));
        }
        i = i + 1;
    }
    assert(lv.take(i as int) == lv);
    *left = out;
}


fn copy_pages(v: &Vec<(String, String)>) -> (r: Vec<(String, String)>)
    ensures
        known_view(r@) == known_view(v@),
{
    let mut out: Vec<(String, String)> = Vec::new();
    let mut i: usize = 0;
    while i < v.len()
        invariant
            i <= v.len(),
            known_view(out@) == known_view(v@).take(i as int),
        decreases v.len() - i,
    {
        let ghost ob = out@;
        out.push((v[i].0.clone(), v[i].1.clone()));
        assert(known_view(v@).take(i + 1) == known_view(v@).take(i as int).push(known_view(v@)[i as int]));
        assert(known_view(out@) == known_view(ob).push(known_view(v@)[i as int]));
        i = i + 1;
    }
    assert(known_view(v@).take(i as int) == known_view(v@));
    out
}

pub open spec fn idx_view(v: Seq<usize>) -> Seq<int> {
    v.map_values(|i: usize| i as int)
}

/// Matches the shop pages of a card number and rarity with the printings
/// `idxs` of card `c` of that rarity; `dists` gives each page's image
/// distance to each printing and is read only when there is more than one
/// page or printing. The pages that are set leave `pages`.
pub fn match_yuyutei_images(
    db: &mut Vec<Card>,
    c: usize,
    idxs: &Vec<usize>,
    pages: &mut Vec<(String, String)>,
    dists: &Vec<Vec<u64>>,
) -> (r: usize)
    requires
        c < old(db)@.len(),
        forall|j: int| 0 <= j < idxs@.len() ==> (#[trigger] idxs@[j]) < old(db)@[c as int].illustrations@.len(),
        choice_to_make(old(pages)@.len() as int, idxs@.len() as int) ==> distance_table(dists@, old(pages)@.len() as int, idxs@.len() as int),
    ensures
        ({
            let (d1, left, _best, n) = image_match_outcome(
                card_views(old(db)@),
                c as int,
                idx_view(idxs@),
                known_view(old(pages)@),
                dists@,
            );
            &&& card_views(final(db)@) == d1
            &&& known_view(final(pages)@) == left
            &&& r == n
        }),
{
    let ghost d0 = card_views(db@);
    let ghost iv = idx_view(idxs@);
    let pages0 = copy_pages(pages);
    let ghost pv = known_view(pages0@);
    if pages.len() == 0 || idxs.len() == 0 {
        return 0;
    }
    if pages.len() == 1 && idxs.len() == 1 {
        let u = pages[0].0.clone();
        set_yuyutei_url(db, c, idxs[0], Some(u));
        pages.swap_remove(0);
        assert(known_view(pages@) =~= Seq::<(Seq<char>, Seq<char>)>::empty());
        return 1;
    }
    // every pair with its key
    let mut entries: Vec<((usize, usize), u64, Option<Vec<u32>>)> = Vec::new();
    let ghost f = |e: (int, int)| (e, image_pair_key(d0[c as int].illustrations[iv[e.1]], dists@[e.0]@[e.1]));
    let ghost ev = |e: ((usize, usize), u64, Option<Vec<u32>>)| pair_entry_view(e);
    let mut k: usize = 0;
    while k < pages0.len()
        invariant
            k <= pages0.len(),
            pv == known_view(pages0@),
            d0 == card_views(db@),
            c < db@.len(),
            iv == idx_view(idxs@),
            forall|j: int| 0 <= j < idxs@.len() ==> (#[trigger] idxs@[j]) < db@[c as int].illustrations@.len(),
            distance_table(dists@, pages0@.len() as int, idxs@.len() as int),
            f == (|e: (int, int)| (e, image_pair_key(d0[c as int].illustrations[iv[e.1]], dists@[e.0]@[e.1]))),
            ev == (|e: ((usize, usize), u64, Option<Vec<u32>>)| pair_entry_view(e)),
            entries@.map_values(ev) == pairs(k as int, idxs@.len() as int).map_values(f),
            forall|q: int| 0 <= q < entries@.len() ==> (#[trigger] entries@[q]).0.0 < pages0@.len() && entries@[q].0.1 < idxs@.len(),
        decreases pages0.len() - k,
    {
        let mut j: usize = 0;
        while j < idxs.len()
            invariant
                k < pages0.len(),
                j <= idxs.len(),
                pv == known_view(pages0@),
                d0 == card_views(db@),
                c < db@.len(),
                iv == idx_view(idxs@),
                forall|jj: int| 0 <= jj < idxs@.len() ==> (#[trigger] idxs@[jj]) < db@[c as int].illustrations@.len(),
                distance_table(dists@, pages0@.len() as int, idxs@.len() as int),
                f == (|e: (int, int)| (e, image_pair_key(d0[c as int].illustrations[iv[e.1]], dists@[e.0]@[e.1]))),
                ev == (|e: ((usize, usize), u64, Option<Vec<u32>>)| pair_entry_view(e)),
                entries@.map_values(ev) == pairs(k as int, idxs@.len() as int).map_values(f) + Seq::new(
                    j as nat,
                    |jj: int| (k as int, jj),
                ).map_values(f),
                forall|q: int| 0 <= q < entries@.len() ==> (#[trigger] entries@[q]).0.0 < pages0@.len() && entries@[q].0.1 < idxs@.len(),
            decreases idxs.len() - j,
        {
            let i = idxs[j];
            assert(d0[c as int] == db@[c as int]@);
            let il = &db[c].illustrations[i];
            assert(d0[c as int].illustrations[i as int] == il@);
            let ids = match &il.manage_id.japanese {
                Some(set) => Some(sorted_ids_of(set)),
                None => None,
            };
            let d = dists[k][j];
            assert(dists@[k as int]@[j as int] == d);
            let e = ((k, j), d, ids);
            assert(ev(e) == f((k as int, j as int)));
            let ghost before = entries@;
            entries.push(e);
            proof {
                assert(entries@.map_values(ev) == before.map_values(ev).push(ev(e)));
                assert(Seq::new((j + 1) as nat, |jj: int| (k as int, jj)).map_values(f) =~= Seq::new(
                    j as nat,
                    |jj: int| (k as int, jj),
                ).map_values(f).push(f((k as int, j as int))));
            }
            j = j + 1;
        }
        proof {
            assert(pairs(k + 1, idxs@.len() as int) == pairs(k as int, idxs@.len() as int) + Seq::new(
                idxs@.len(),
                |jj: int| (k as int, jj),
            ));
            assert(pairs(k + 1, idxs@.len() as int).map_values(f) =~= pairs(k as int, idxs@.len() as int).map_values(
                f,
            ) + Seq::new(idxs@.len(), |jj: int| (k as int, jj)).map_values(f));
        }
        k = k + 1;
    }
    let ghost ip = image_pairs(d0, c as int, iv, pv, dists@);
    assert(entries@.map_values(ev) == ip);
    let ghost np = pages0@.len();
    let ghost nl = idxs@.len();
    proof {
        assert forall|q: int| 0 <= q < ip.len() implies (#[trigger] ip[q]).0.0 < np && 0 <= ip[q].0.0
            && 0 <= ip[q].0.1 < nl by {
            assert(ip[q] == ev(entries@[q]));
        }
        lemma_sort_by_pair_key_keeps(ip, |e: ((int, int), PairKey)| 0 <= e.0.0 < np && 0 <= e.0.1 < nl);
    }
    let sorted = sort_pairs(entries);
    let ghost sv = sort_by_pair_key(ip);
    let mut best: Vec<(String, u64)> = Vec::new();
    let mut n: usize = 0;
    let ghost init: ImageMatchState = (d0, pv, Seq::empty(), 0);
    let ghost bv = |e: (String, u64)| (e.0@, e.1);
    let mut m: usize = 0;
    while m < sorted.len()
        invariant
            m <= sorted.len(),
            n <= m,
            sorted@.map_values(ev) == sv,
            ev == (|e: ((usize, usize), u64, Option<Vec<u32>>)| pair_entry_view(e)),
            bv == (|e: (String, u64)| (e.0@, e.1)),
            pv == known_view(pages0@),
            iv == idx_view(idxs@),
            c < db@.len(),
            forall|jj: int| 0 <= jj < idxs@.len() ==> (#[trigger] idxs@[jj]) < db@[c as int].illustrations@.len(),
            forall|q: int| 0 <= q < sv.len() ==> (#[trigger] sv[q]).0.0 < pv.len() && 0 <= sv[q].0.0
                && 0 <= sv[q].0.1 < iv.len(),
            init == (d0, pv, Seq::<(Seq<char>, u64)>::empty(), 0nat),
            image_match_all(init, c as int, iv, pv, sv.take(m as int)) == (
                card_views(db@),
                known_view(pages@),
                best@.map_values(bv),
                n as nat,
            ),
        decreases sorted.len() - m,
    {
        let ((k, j), d, _) = &sorted[m];
        let (k, j, d) = (*k, *j, *d);
        assert(sv[m as int] == ev(sorted@[m as int]));
        proof {
            assert(sv.take(m + 1).drop_last() == sv.take(m as int));
            assert(sv.take(m + 1).last() == sv[m as int]);
        }
        let u = &pages0[k].0;
        assert(pv[k as int].0 == u@);
        let i = idxs[j];
        assert(iv[j as int] == i as int);
        assert(card_views(db@)[c as int] == db@[c as int]@);
        assert(card_views(db@)[c as int].illustrations[i as int] == db@[c as int].illustrations@[i as int]@);
        let mn = match best_get_exec(&best, u) {
            Some(x) => x,
            None => u64::MAX,
        };
        let ghost st = image_match_all(init, c as int, iv, pv, sv.take(m as int));
        assert(image_match_all(init, c as int, iv, pv, sv.take(m + 1)) == image_match_step(st, c as int, iv, pv, sv[m as int]));
        assert(sv[m as int].0 == (k as int, j as int));
        assert(sv[m as int].1.0 == d);
        if db[c].illustrations[i].yuyutei_sell_url.is_none() && mn >= d {
            assert(st.0[c as int].illustrations[i as int].yuyutei_sell_url is None);
            assert(best_get(st.2, u@) == best_get(best@.map_values(|e: (String, u64)| (e.0@, e.1)), u@));
            set_yuyutei_url(db, c, i, Some(u.clone()));
            assert(card_views(db@) == with_yuyutei_url(st.0, c as int, i as int, Some(u@)));
            remove_page(pages, u);
            assert(known_view(pages@) == st.1.filter(other_page(u@)));
            best_set_exec(
                &mut best,
                u,
                if d < mn {
                    d
                } else {
                    mn
                },
            );
            n = n + 1;
            assert(best@.map_values(bv) == best_set(st.2, u@, if d < mn { d } else { mn }));
            assert(image_match_step(st, c as int, iv, pv, sv[m as int]) == (card_views(db@), known_view(pages@), best@.map_values(bv), n as nat));
        } else {
            assert(!(st.0[c as int].illustrations[i as int].yuyutei_sell_url is None && mn >= d));
            assert(image_match_step(st, c as int, iv, pv, sv[m as int]) == st);
        }
        m = m + 1;
    }
    assert(sv.take(m as int) == sv);
    n
}


/// What images mode compares the printings of rarity group `j` of card `c`
/// with: the pages of the product group of that card's number and that
/// rarity, where there is one.
pub open spec fn images_group(db: Seq<CardView>, g: ProductGroups, c: int, j: int) -> Option<int> {
    let ils = db[c].illustrations;
    group_index(g, (db[c].card_number, rarity_groups_of(ils, ils.len() as int)[j].0))
}

/// One step of images mode: the printings of rarity group `j` of card `c`
/// (as `rarity_groups` gives them) are matched with the pages of the product
/// group of that card number and rarity, and the pages that are set leave
/// that group; with no such group nothing changes. `dists` gives each page's
/// image distance to each printing of the rarity group.
pub fn yuyutei_images_step(
    db: &mut Vec<Card>,
    groups: &mut Vec<((String, String), Vec<(String, String)>)>,
    c: usize,
    j: usize,
    dists: &Vec<Vec<u64>>,
) -> (r: usize)
    requires
        c < old(db)@.len(),
        j < rarity_groups_of(old(db)@[c as int]@.illustrations, old(db)@[c as int]@.illustrations.len() as int).len(),
        ({
            let ils = old(db)@[c as int]@.illustrations;
            let idxs = rarity_groups_of(ils, ils.len() as int)[j as int].1;
            match images_group(card_views(old(db)@), product_groups_view(old(groups)@), c as int, j as int) {
                Some(g) => {
                    let pages = product_groups_view(old(groups)@)[g].1;
                    choice_to_make(pages.len() as int, idxs.len() as int) ==> distance_table(dists@, pages.len() as int, idxs.len() as int)
                },
                None => true,
            }
        }),
    ensures
        ({
            let d0 = card_views(old(db)@);
            let g0 = product_groups_view(old(groups)@);
            let ils = d0[c as int].illustrations;
            let idxs = rarity_groups_of(ils, ils.len() as int)[j as int].1;
            match images_group(d0, g0, c as int, j as int) {
                Some(g) => {
                    let (d1, left, _best, n) = image_match_outcome(d0, c as int, idxs, g0[g].1, dists@);
                    &&& card_views(final(db)@) == d1
                    &&& product_groups_view(final(groups)@) == g0.update(g, (g0[g].0, left))
                    &&& r == n
                },
                None => {
                    &&& final(db)@ == old(db)@
                    &&& final(groups)@ == old(groups)@
                    &&& r == 0
                },
            }
        }),
{
    let ghost d0 = card_views(db@);
    let ghost g0 = product_groups_view(groups@);
    assert(d0[c as int] == db@[c as int]@);
    let rg = rarity_groups(&db[c]);
    assert(rarity_groups_view(rg@)[j as int] == (rg@[j as int].0@, rg@[j as int].1@.map_values(|i: usize| i as int)));
    let rarity = &rg[j].0;
    let idxs = &rg[j].1;
    let g = match find_product_group(groups, &db[c].card_number, rarity) {
        Some(g) => g,
        None => {
            return 0;
        },
    };
    proof {
        let ils = db@[c as int]@.illustrations;
        assert forall|q: int| 0 <= q < idxs@.len() implies (#[trigger] idxs@[q]) < db@[c as int].illustrations@.len() by {
            lemma_rarity_groups_in_range(ils, ils.len() as int, j as int, q);
            assert(rarity_groups_view(rg@)[j as int].1[q] == idxs@[q] as int);
        }
        assert(idx_view(idxs@) =~= rarity_groups_of(ils, ils.len() as int)[j as int].1);
    }
    let mut entry: ((String, String), Vec<(String, String)>) = ((String::new(), String::new()), Vec::new());
    groups.set_and_swap(g, &mut entry);
    let ghost mid = groups@;
    let n = match_yuyutei_images(db, c, idxs, &mut entry.1, dists);
    groups.set(g, entry);
    proof {
        assert(product_groups_view(groups@) =~= g0.update(g as int, (g0[g as int].0, known_view(entry.1@))));
    }
    n
}

/// Each index of a rarity group is a printing of the card.
proof fn lemma_rarity_groups_in_range(ils: Seq<CardIllustrationView>, n: int, j: int, q: int)
    requires
        0 <= j < rarity_groups_of(ils, n).len(),
        0 <= q < rarity_groups_of(ils, n)[j].1.len(),
    ensures
        0 <= rarity_groups_of(ils, n)[j].1[q] < n <= ils.len(),
    decreases n,
{
    if n <= 0 || n > ils.len() {
    } else {
        let g = rarity_groups_of(ils, n - 1);
        let r = ils[n - 1].rarity;
        if exists|k: int| 0 <= k < g.len() && (#[trigger] g[k]).0 == r {
            let k = choose|k: int| 0 <= k < g.len() && (#[trigger] g[k]).0 == r;
            if j == k {
                if q < g[k].1.len() {
                    lemma_rarity_groups_in_range(ils, n - 1, j, q);
                }
            } else {
                lemma_rarity_groups_in_range(ils, n - 1, j, q);
            }
        } else {
            if j < g.len() {
                lemma_rarity_groups_in_range(ils, n - 1, j, q);
            }
        }
    }
}

/// The product pages grouped by card number and rarity, for matching by images.
pub fn group_yuyutei_urls(urls: IndexMap<String, (String, String, String)>) -> (r: Vec<((String, String), Vec<(String, String)>)>)
    ensures
        product_groups_view(r@) == grouped_products(product_map_entries(urls)),
{
    group_products(product_map_into_entries(urls))
}

} // verus!
