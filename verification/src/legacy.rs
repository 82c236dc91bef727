//! The first form of the card list: one entry per Deck Log printing, keyed
//! by its Deck Log id, with its image, proxy image and shop page.
//!
//! The list is held as pairs of id and entry in strictly increasing order of
//! id, as a map ordered by id would hold them.
use vstd::prelude::*;
use crate::text::{chars_of, chars_of_string, eq_ignore_ascii_case, eq_ignore_ascii_case_chars, parse_u32, parse_u32_chars, push_all, replace, replace_str, string_of};
use crate::model::{copy_opt_string, opt_view, views};
use crate::images::{ProxyEntry, pairs, parse_http_date, up_to_date};
use crate::price_check::{YuyuteiRow, ProductView, entry_index, keys_distinct, product_map_entries, product_map_insert_if_absent, product_map_into_entries, product_map_new, product_map_shift_remove, product_view};






use vstd::pervasive::VecAdditionalExecFns;

verus! {

/// A number Deck Log gives either as text or as a number.
#[derive(Debug, Clone)]
pub enum StringOrNumber {
    Text(String),
    Number(u32),
}

/// A printing as Deck Log lists it, with what was learned of it since.
#[derive(Debug, Clone)]
pub struct CardEntry {
    pub manage_id: String,
    pub card_number: String,
    pub rare: String,
    pub img: String,
    pub max: StringOrNumber,
    pub deck_type: String,
    pub img_last_modified: Option<String>,
    pub img_proxy_en: Option<String>,
    pub yuyutei_sell_url: Option<String>,
}

pub enum NumberView {
    Text(Seq<char>),
    Number(u32),
}

pub struct EntryView {
    pub manage_id: Seq<char>,
    pub card_number: Seq<char>,
    pub rare: Seq<char>,
    pub img: Seq<char>,
    pub max: NumberView,
    pub deck_type: Seq<char>,
    pub img_last_modified: Option<Seq<char>>,
    pub img_proxy_en: Option<Seq<char>>,
    pub yuyutei_sell_url: Option<Seq<char>>,
}

impl View for CardEntry {
    type V = EntryView;

    open spec fn view(&self) -> EntryView {
        EntryView {
            manage_id: self.manage_id@,
            card_number: self.card_number@,
            rare: self.rare@,
            img: self.img@,
            max: match self.max {
                StringOrNumber::Text(s) => NumberView::Text(s@),
                StringOrNumber::Number(n) => NumberView::Number(n),
            },
            deck_type: self.deck_type@,
            img_last_modified: opt_view(self.img_last_modified),
            img_proxy_en: opt_view(self.img_proxy_en),
            yuyutei_sell_url: opt_view(self.yuyutei_sell_url),
        }
    }
}

pub type EntryList = Seq<(u32, EntryView)>;

pub open spec fn list_view(db: Seq<(u32, CardEntry)>) -> EntryList {
    Seq::new(db.len(), |k: int| (db[k].0, db[k].1@))
}

/// The ids are strictly increasing: one entry per id.
pub open spec fn list_ordered(db: EntryList) -> bool {
    forall|a: int, b: int| 0 <= a < b < db.len() ==> db[a].0 < db[b].0
}

/// The position of the entry with id `key`, from `i` on.
pub open spec fn find_entry(db: EntryList, key: u32, i: int) -> Option<int>
    decreases db.len() - i,
{
    if i < 0 || i >= db.len() {
        None
    } else if db[i].0 == key {
        Some(i)
    } else {
        find_entry(db, key, i + 1)
    }
}

/// Where an entry with id `key` goes: before the first with a greater id.
pub open spec fn entry_pos(db: EntryList, key: u32, i: int) -> int
    decreases db.len() - i,
{
    if i < 0 || i >= db.len() {
        db.len() as int
    } else if db[i].0 > key {
        i
    } else {
        entry_pos(db, key, i + 1)
    }
}

proof fn lemma_find_entry_bounds(db: EntryList, key: u32, i: int)
    ensures
        find_entry(db, key, i) matches Some(k) ==> 0 <= k < db.len() && i <= k && db[k].0 == key,
        find_entry(db, key, i) is None && 0 <= i ==> forall|k: int| i <= k < db.len() ==> db[k].0 != key,
    decreases db.len() - i,
{
    if 0 <= i < db.len() {
        lemma_find_entry_bounds(db, key, i + 1);
    }
}

proof fn lemma_entry_pos_bounds(db: EntryList, key: u32, i: int)
    requires
        0 <= i <= db.len(),
    ensures
        i <= entry_pos(db, key, i) <= db.len(),
        forall|k: int| i <= k < entry_pos(db, key, i) ==> db[k].0 <= key,
        entry_pos(db, key, i) < db.len() ==> db[entry_pos(db, key, i)].0 > key,
    decreases db.len() - i,
{
    if i < db.len() && db[i].0 <= key {
        lemma_entry_pos_bounds(db, key, i + 1);
    }
}

/// Finds the entry with id `key`.
pub fn find_entry_index(db: &Vec<(u32, CardEntry)>, key: u32) -> (r: Option<usize>)
    ensures
        match r {
            Some(i) => find_entry(list_view(db@), key, 0) == Some(i as int) && i < db@.len(),
            None => find_entry(list_view(db@), key, 0) is None,
        },
{
    let ghost dv = list_view(db@);
    proof {
        lemma_find_entry_bounds(dv, key, 0);
    }
    let mut i: usize = 0;
    while i < db.len()
        invariant
            i <= db.len(),
            dv == list_view(db@),
            find_entry(dv, key, 0) == find_entry(dv, key, i as int),
        decreases db.len() - i,
    {
        if db[i].0 == key {
            return Some(i);
        }
        i = i + 1;
    }
    None
}

fn entry_pos_index(db: &Vec<(u32, CardEntry)>, key: u32) -> (r: usize)
    ensures
        r as int == entry_pos(list_view(db@), key, 0),
{
    let ghost dv = list_view(db@);
    let mut i: usize = 0;
    while i < db.len()
        invariant
            i <= db.len(),
            dv == list_view(db@),
            entry_pos(dv, key, 0) == entry_pos(dv, key, i as int),
        decreases db.len() - i,
    {
        if db[i].0 > key {
            return i;
        }
        i = i + 1;
    }
    i
}

// ---------------------------------------------------------------------------
// reading Deck Log's pages
// ---------------------------------------------------------------------------
/// A listed printing's id and amount read as numbers (the tool stops otherwise).
pub open spec fn entry_readable(e: EntryView) -> bool {
    &&& parse_u32(e.manage_id) is Some
    &&& e.max matches NumberView::Text(s) ==> parse_u32(s) is Some
}

/// Whether a listed printing's id and amount read as numbers.
pub fn entry_is_readable(e: &CardEntry) -> (r: bool)
    ensures
        r == entry_readable(e@),
{
    if parse_u32_chars(&chars_of_string(&e.manage_id)).is_none() {
        return false;
    }
    match &e.max {
        StringOrNumber::Text(s) => parse_u32_chars(&chars_of_string(s)).is_some(),
        StringOrNumber::Number(_) => true,
    }
}

/// Whether every listed printing's id and amount read as numbers.
pub fn entries_readable(entries: &Vec<CardEntry>) -> (r: bool)
    ensures
        r == forall|k: int| 0 <= k < entries@.len() ==> entry_readable((#[trigger] entries@[k])@),
{
    let mut i: usize = 0;
    while i < entries.len()
        invariant
            i <= entries.len(),
            forall|k: int| 0 <= k < i ==> entry_readable((#[trigger] entries@[k])@),
        decreases entries.len() - i,
    {
        if !entry_is_readable(&entries[i]) {
            return false;
        }
        i = i + 1;
    }
    true
}

/// A listed printing as it is kept: with its deck type, a `.webp` image
/// unless the original images are kept, and its amount as a number.
pub open spec fn listed_entry(e: EntryView, deck_type: Seq<char>, optimized_original_images: bool) -> EntryView {
    EntryView {
        deck_type,
        img: if optimized_original_images {
            e.img
        } else {
            replace(e.img, ".png"@, ".webp"@)
        },
        max: match e.max {
            NumberView::Text(s) => NumberView::Number(parse_u32(s)->0),
            NumberView::Number(n) => NumberView::Number(n),
        },
        ..e
    }
}

/// The list after a listed printing: the entry with its id takes the
/// listed number, rarity, image, amount and deck type, or the printing is
/// added in its place.
pub open spec fn entry_step(db: EntryList, e: EntryView, deck_type: Seq<char>, optimized_original_images: bool) -> EntryList {
    let key = parse_u32(e.manage_id)->0;
    let n = listed_entry(e, deck_type, optimized_original_images);
    match find_entry(db, key, 0) {
        Some(i) => db.update(
            i,
            (key, EntryView { card_number: n.card_number, rare: n.rare, img: n.img, max: n.max, deck_type: n.deck_type, ..db[i].1 }),
        ),
        None => db.insert(entry_pos(db, key, 0), (key, n)),
    }
}

pub open spec fn entry_steps(db: EntryList, es: Seq<EntryView>, deck_type: Seq<char>, optimized_original_images: bool) -> EntryList
    decreases es.len(),
{
    if es.len() == 0 {
        db
    } else {
        entry_step(entry_steps(db, es.drop_last(), deck_type, optimized_original_images), es.last(), deck_type, optimized_original_images)
    }
}

pub open spec fn entry_views(es: Seq<CardEntry>) -> Seq<EntryView> {
    Seq::new(es.len(), |k: int| es[k]@)
}

/// Reads one page of printings listed by Deck Log under a deck type into
/// the list; returns their ids, in order.
pub fn retrieve_card_info(
    db: &mut Vec<(u32, CardEntry)>,
    entries: Vec<CardEntry>,
    deck_type: &String,
    optimized_original_images: bool,
) -> (r: Vec<u32>)
    requires
        forall|k: int| 0 <= k < entries@.len() ==> entry_readable((#[trigger] entries@[k])@),
    ensures
        list_view(final(db)@) == entry_steps(list_view(old(db)@), entry_views(entries@), deck_type@, optimized_original_images),
        r@ == Seq::new(entries@.len(), |k: int| parse_u32(entries@[k]@.manage_id)->0),
{
    let ghost d0 = list_view(db@);
    let ghost ev = entry_views(entries@);
    let mut keys: Vec<u32> = Vec::new();
    let mut src = entries;
    let ghost mut i: int = 0;
    assert(entry_views(src@) =~= ev.skip(0));
    while src.len() > 0
        invariant
            0 <= i <= ev.len(),
            entry_views(src@) == ev.skip(i),
            forall|k: int| 0 <= k < ev.len() ==> entry_readable(#[trigger] ev[k]),
            list_view(db@) == entry_steps(d0, ev.take(i), deck_type@, optimized_original_images),
            keys@ == Seq::new(i as nat, |k: int| parse_u32(ev[k].manage_id)->0),
        decreases src.len(),
    {
        let ghost sv = src@;
        assert(entry_views(sv).len() == sv.len());
        assert(i < ev.len());
        let mut e = src.remove(0);
        assert(e@ == ev[i]) by {
            assert(e == sv[0]);
            assert(entry_views(sv)[0] == sv[0]@);
            assert(ev.skip(i)[0] == ev[i]);
        }
        assert(entry_views(src@) =~= ev.skip(i + 1)) by {
            assert(src@ =~= sv.remove(0));
            assert forall|j: int| 0 <= j < src@.len() implies src@[j]@ == ev.skip(i + 1)[j] by {
                assert(src@[j] == sv[j + 1]);
                assert(entry_views(sv)[j + 1] == ev.skip(i)[j + 1]);
            }
        }
        assert(entry_readable(ev[i]));
        let ghost dcur = list_view(db@);
        e.deck_type = deck_type.clone();
        if !optimized_original_images {
            proof {
                reveal_strlit(".png");
            }
            e.img = string_of(&replace_str(&chars_of_string(&e.img), ".png", ".webp"));
        }
        let max = match &e.max {
            StringOrNumber::Text(s) => match parse_u32_chars(&chars_of_string(s)) {
                Some(n) => n,
                None => 0,
            },
            StringOrNumber::Number(n) => *n,
        };
        e.max = StringOrNumber::Number(max);
        let key = match parse_u32_chars(&chars_of_string(&e.manage_id)) {
            Some(k) => k,
            None => 0,
        };
        assert(e@ == listed_entry(ev[i], deck_type@, optimized_original_images));
        assert(key == parse_u32(ev[i].manage_id)->0);
        keys.push(key);
        proof {
            lemma_find_entry_bounds(dcur, key, 0);
        }
        match find_entry_index(db, key) {
            Some(j) => {
                let (k0, mut old) = db.remove(j);
                let CardEntry { card_number, rare, img, max, deck_type: dt, .. } = e;
                old.card_number = card_number;
                old.rare = rare;
                old.img = img;
                old.max = max;
                old.deck_type = dt;
                db.insert(j, (k0, old));
                let ghost n = listed_entry(ev[i], deck_type@, optimized_original_images);
                assert(list_view(db@) =~= dcur.update(
                    j as int,
                    (key, EntryView { card_number: n.card_number, rare: n.rare, img: n.img, max: n.max, deck_type: n.deck_type, ..dcur[j as int].1 }),
                ));
            },
            None => {
                let p = entry_pos_index(db, key);
                proof {
                    lemma_entry_pos_bounds(dcur, key, 0);
                }
                db.insert(p, (key, e));
                assert(list_view(db@) =~= dcur.insert(p as int, (key, listed_entry(ev[i], deck_type@, optimized_original_images))));
            },
        }
        proof {
            assert(ev.take(i + 1).drop_last() =~= ev.take(i));
            assert(ev.take(i + 1).last() == ev[i]);
            i = i + 1;
        }
        assert(keys@ =~= Seq::new(i as nat, |k: int| parse_u32(ev[k].manage_id)->0));
    }
    assert(ev.take(i) =~= ev) by {
        assert(ev.skip(i).len() == 0);
    }
    keys
}

/// Reading a listed printing keeps the list in strictly increasing order of
/// id, and the printing's id is then in it.
pub proof fn lemma_entry_step_ordered(db: EntryList, e: EntryView, deck_type: Seq<char>, optimized_original_images: bool)
    requires
        list_ordered(db),
        entry_readable(e),
    ensures
        list_ordered(entry_step(db, e, deck_type, optimized_original_images)),
        find_entry(entry_step(db, e, deck_type, optimized_original_images), parse_u32(e.manage_id)->0, 0) is Some,
{
    let key = parse_u32(e.manage_id)->0;
    let r = entry_step(db, e, deck_type, optimized_original_images);
    lemma_find_entry_bounds(db, key, 0);
    match find_entry(db, key, 0) {
        Some(i) => {
            assert forall|a: int, b: int| 0 <= a < b < r.len() implies r[a].0 < r[b].0 by {
                assert(r[a].0 == db[a].0);
                assert(r[b].0 == db[b].0);
            }
            lemma_find_entry_bounds(r, key, 0);
            assert(r[i].0 == key);
        },
        None => {
            let p = entry_pos(db, key, 0);
            lemma_entry_pos_bounds(db, key, 0);
            assert forall|k: int| 0 <= k < p implies db[k].0 < key by {
                assert(db[k].0 != key);
            }
            assert forall|a: int, b: int| 0 <= a < b < r.len() implies r[a].0 < r[b].0 by {
                if b < p {
                } else if b == p {
                } else if a < p {
                    assert(db[a].0 < key);
                    assert(db[p].0 <= db[b - 1].0);
                } else if a == p {
                    assert(db[p].0 > key);
                    assert(db[p].0 <= db[b - 1].0);
                } else {
                }
            }
            lemma_find_entry_bounds(r, key, 0);
            assert(r[p].0 == key);
        },
    }
}

// ---------------------------------------------------------------------------
// official images
// ---------------------------------------------------------------------------
/// The address of a printing's official image (the site serves `.png`).
pub open spec fn entry_image_url(img: Seq<char>) -> Seq<char> {
    "https://hololive-official-cardgame.com/wp-content/images/cardlist/"@ + replace(img, ".webp"@, ".png"@)
}

/// The file a printing's image is kept in: the image path, as `.webp`
/// unless the original images are kept.
pub open spec fn entry_image_file(img: Seq<char>, optimized_original_images: bool) -> Seq<char> {
    if optimized_original_images {
        img
    } else {
        replace(img, ".png"@, ".webp"@)
    }
}

/// Whether to download a printing's official image.
#[derive(Debug, Clone)]
pub enum EntryDownload {
    /// The image we have is not older than the site's.
    UpToDate,
    /// The image is to be fetched from `url` and kept as `file`; its date
    /// becomes `last_modified`.
    Download { url: String, file: String, last_modified: Option<String> },
}

/// Whether and how to download a printing's image, given the date the site
/// gives for it.
pub open spec fn entry_download_is(
    e: EntryView,
    site_last_modified: Option<Seq<char>>,
    force_download: bool,
    optimized_original_images: bool,
    d: EntryDownload,
) -> bool {
    if up_to_date(site_last_modified, e.img_last_modified) && !force_download {
        d is UpToDate
    } else {
        d matches EntryDownload::Download { url, file, last_modified } && url@ == entry_image_url(e.img) && file@
            == entry_image_file(e.img, optimized_original_images) && opt_view(last_modified) == (if site_last_modified is Some {
            site_last_modified
        } else {
            e.img_last_modified
        })
    }
}

/// The address to ask for a printing's image date.
pub fn entry_image_url_of(e: &CardEntry) -> (r: String)
    ensures
        r@ == entry_image_url(e.img@),
{
    proof {
        reveal_strlit(".webp");
    }
    let mut v = chars_of("https://hololive-official-cardgame.com/wp-content/images/cardlist/");
    push_all(&mut v, &replace_str(&chars_of_string(&e.img), ".webp", ".png"));
    string_of(&v)
}

/// Decides whether to download a printing's official image.
pub fn entry_download(
    e: &CardEntry,
    site_last_modified: Option<String>,
    force_download: bool,
    optimized_original_images: bool,
) -> (r: EntryDownload)
    ensures
        entry_download_is(e@, opt_view(site_last_modified), force_download, optimized_original_images, r),
{
    let newer_known = match (&site_last_modified, &e.img_last_modified) {
        (Some(s), Some(o)) => match (parse_http_date(s.as_str()), parse_http_date(o.as_str())) {
            (Some(a), Some(b)) => a <= b,
            _ => false,
        },
        _ => false,
    };
    if newer_known && !force_download {
        return EntryDownload::UpToDate;
    }
    let file = if optimized_original_images {
        e.img.clone()
    } else {
        proof {
            reveal_strlit(".png");
        }
        string_of(&replace_str(&chars_of_string(&e.img), ".png", ".webp"))
    };
    let last_modified = match site_last_modified {
        Some(s) => Some(s),
        None => copy_opt_string(&e.img_last_modified),
    };
    EntryDownload::Download { url: entry_image_url_of(e), file, last_modified }
}

/// Records the date of a downloaded image.
pub fn record_entry_last_modified(db: &mut Vec<(u32, CardEntry)>, i: usize, last_modified: Option<String>)
    requires
        i < old(db)@.len(),
    ensures
        list_view(final(db)@) == list_view(old(db)@).update(
            i as int,
            (old(db)@[i as int].0, EntryView { img_last_modified: opt_view(last_modified), ..old(db)@[i as int].1@ }),
        ),
{
    let ghost d0 = list_view(db@);
    let (k, mut e) = db.remove(i);
    e.img_last_modified = last_modified;
    db.insert(i, (k, e));
    assert(list_view(db@) =~= d0.update(i as int, (k, e@)));
}

// ---------------------------------------------------------------------------
// proxy images
// ---------------------------------------------------------------------------
/// The file lies under a folder, or is a file, named `blanks`.
pub open spec fn under_blanks(components: Seq<String>) -> bool {
    exists|i: int| 0 <= i < components.len() && eq_ignore_ascii_case((#[trigger] components[i])@, "blanks"@)
}

/// A proxy file outside the blanks, with a stem.
pub open spec fn proxy_usable(e: ProxyEntry) -> bool {
    !under_blanks(e.components@) && e.is_file && e.stem is Some
}

/// The first path of each file stem, in the order the stems are first seen.
pub open spec fn stem_paths(es: Seq<ProxyEntry>) -> Seq<(Seq<char>, Seq<char>)>
    decreases es.len(),
{
    if es.len() == 0 {
        Seq::empty()
    } else {
        let rest = stem_paths(es.drop_last());
        let e = es.last();
        if proxy_usable(e) && stem_lookup(rest, e.stem->0@) is None {
            rest.push((e.stem->0@, e.path@))
        } else {
            rest
        }
    }
}

/// The path recorded for a stem.
pub open spec fn stem_lookup(m: Seq<(Seq<char>, Seq<char>)>, stem: Seq<char>) -> Option<Seq<char>>
    decreases m.len(),
{
    if m.len() == 0 {
        None
    } else if m.last().0 == stem {
        Some(m.last().1)
    } else {
        stem_lookup(m.drop_last(), stem)
    }
}

pub open spec fn pair_text_views(v: Seq<(String, String)>) -> Seq<(Seq<char>, Seq<char>)> {
    Seq::new(v.len(), |k: int| (v[k].0@, v[k].1@))
}

fn under_blanks_exec(components: &Vec<String>) -> (r: bool)
    ensures
        r == under_blanks(components@),
{
    let blanks = chars_of("blanks");
    let mut i: usize = 0;
    while i < components.len()
        invariant
            i <= components.len(),
            blanks@ == "blanks"@,
            forall|k: int| 0 <= k < i ==> !eq_ignore_ascii_case((#[trigger] components@[k])@, "blanks"@),
        decreases components.len() - i,
    {
        if eq_ignore_ascii_case_chars(&chars_of_string(&components[i]), &blanks) {
            return true;
        }
        i = i + 1;
    }
    false
}

fn stem_lookup_exec(m: &Vec<(String, String)>, stem: &String) -> (r: Option<String>)
    ensures
        opt_view(r) == stem_lookup(pair_text_views(m@), stem@),
{
    let ghost mv = pair_text_views(m@);
    let mut j: usize = m.len();
    assert(mv.take(j as int) =~= mv);
    while j > 0
        invariant
            j <= m.len(),
            mv == pair_text_views(m@),
            stem_lookup(mv, stem@) == stem_lookup(mv.take(j as int), stem@),
        decreases j,
    {
        assert(mv.take(j as int).drop_last() =~= mv.take(j - 1));
        assert(mv.take(j as int).last() == mv[j - 1]);
        if m[j - 1].0 == *stem {
            return Some(m[j - 1].1.clone());
        }
        j = j - 1;
    }
    None
}

/// The first path of each file stem among the files found under the proxy folder.
pub fn proxy_stem_paths(entries: &Vec<ProxyEntry>) -> (r: Vec<(String, String)>)
    ensures
        pair_text_views(r@) == stem_paths(entries@),
{
    let mut out: Vec<(String, String)> = Vec::new();
    let mut k: usize = 0;
    while k < entries.len()
        invariant
            k <= entries.len(),
            pair_text_views(out@) == stem_paths(entries@.take(k as int)),
        decreases entries.len() - k,
    {
        assert(entries@.take(k + 1).drop_last() =~= entries@.take(k as int));
        assert(entries@.take(k + 1).last() == entries@[k as int]);
        let e = &entries[k];
        if !under_blanks_exec(&e.components) && e.is_file {
            match &e.stem {
                Some(st) => {
                    if stem_lookup_exec(&out, st).is_none() {
                        let ghost o = pair_text_views(out@);
                        out.push((st.clone(), e.path.clone()));
                        assert(pair_text_views(out@) =~= o.push((st@, e.path@)));
                    }
                },
                None => {},
            }
        }
        k = k + 1;
    }
    assert(entries@.take(k as int) =~= entries@);
    out
}

/// The stem of the last component of a path: its name without the last
/// extension.
pub uninterp spec fn path_file_stem(p: Seq<char>) -> Option<Seq<char>>;

/// `std::path::Path::file_stem` of the path, read as text.
#[verifier::external_body]
pub(crate) fn file_stem_of(p: &str) -> (r: Option<String>)
    ensures
        opt_view(r) == path_file_stem(p@),
{
    std::path::Path::new(p).file_stem().and_then(|s| s.to_str()).map(|s| s.to_string())
}

/// The proxy file for a printing: the one with its image's stem (an image
/// without a stem looks for an empty stem).
pub open spec fn entry_proxy(stems: Seq<(Seq<char>, Seq<char>)>, e: EntryView) -> Option<Seq<char>> {
    stem_lookup(
        stems,
        match path_file_stem(e.img) {
            Some(s) => s,
            None => Seq::empty(),
        },
    )
}

/// The proxy file for a printing, and the name its `.webp` is kept under.
pub fn entry_proxy_of(stems: &Vec<(String, String)>, e: &CardEntry) -> (r: Option<(String, String)>)
    ensures
        match entry_proxy(pair_text_views(stems@), e@) {
            Some(p) => r matches Some((src, dst)) && src@ == p && dst@ == replace(e@.img, ".png"@, ".webp"@),
            None => r is None,
        },
{
    let stem = match file_stem_of(e.img.as_str()) {
        Some(s) => s,
        None => String::new(),
    };
    match stem_lookup_exec(stems, &stem) {
        Some(p) => {
            proof {
                reveal_strlit(".png");
            }
            Some((p, string_of(&replace_str(&chars_of_string(&e.img), ".png", ".webp"))))
        },
        None => None,
    }
}

/// Records the proxy image of a printing.
pub fn record_entry_proxy(db: &mut Vec<(u32, CardEntry)>, i: usize, img_proxy_en: Option<String>)
    requires
        i < old(db)@.len(),
    ensures
        list_view(final(db)@) == list_view(old(db)@).update(
            i as int,
            (old(db)@[i as int].0, EntryView { img_proxy_en: opt_view(img_proxy_en), ..old(db)@[i as int].1@ }),
        ),
{
    let ghost d0 = list_view(db@);
    let (k, mut e) = db.remove(i);
    e.img_proxy_en = img_proxy_en;
    db.insert(i, (k, e));
    assert(list_view(db@) =~= d0.update(i as int, (k, e@)));
}

// ---------------------------------------------------------------------------
// shop pages
// ---------------------------------------------------------------------------
/// The shop's product pages by address, each with its card number and
/// rarity, in the order first seen (a page seen again keeps its first product).
pub open spec fn scraped_urls(rows: Seq<(Seq<char>, Seq<char>, Seq<char>)>) -> Seq<(Seq<char>, ProductView)>
    decreases rows.len(),
{
    if rows.len() == 0 {
        Seq::empty()
    } else {
        let es = scraped_urls(rows.drop_last());
        let (u, n, r) = rows.last();
        if entry_index(es, u) is Some {
            es
        } else {
            es.push((u, (n, r, Seq::empty())))
        }
    }
}

/// The value of the first pair with key `k`.
pub open spec fn assoc_get(m: Seq<(Seq<char>, Seq<char>)>, k: Seq<char>) -> Option<Seq<char>>
    decreases m.len(),
{
    if m.len() == 0 {
        None
    } else {
        match assoc_get(m.drop_last(), k) {
            Some(v) => Some(v),
            None => if m.last().0 == k {
                Some(m.last().1)
            } else {
                None
            },
        }
    }
}

/// The pages still unknown, the number of known ones, and the page of each
/// image, first known first.
pub type KnownState = (Seq<(Seq<char>, ProductView)>, nat, Seq<(Seq<char>, Seq<char>)>);

/// An entry with a shop page takes it off the unknown pages, and its image
/// is known to be sold there unless it was known already.
pub open spec fn known_step(st: KnownState, e: EntryView) -> KnownState {
    let (es, n, ex) = st;
    match e.yuyutei_sell_url {
        Some(u) => {
            let (es2, n2) = match entry_index(es, u) {
                Some(i) => (es.remove(i), n + 1),
                None => (es, n),
            };
            (
                es2,
                n2,
                if assoc_get(ex, e.img) is None {
                    ex.push((e.img, u))
                } else {
                    ex
                },
            )
        },
        None => st,
    }
}

pub open spec fn known_urls(st: KnownState, db: EntryList) -> KnownState
    decreases db.len(),
{
    if db.len() == 0 {
        st
    } else {
        known_step(known_urls(st, db.drop_last()), db.last().1)
    }
}

/// Pages grouped by card number and rarity, groups and pages in first order.
pub type Groups = Seq<((Seq<char>, Seq<char>), Seq<Seq<char>>)>;

pub open spec fn group_find(g: Groups, key: (Seq<char>, Seq<char>), i: int) -> Option<int>
    decreases g.len() - i,
{
    if i < 0 || i >= g.len() {
        None
    } else if g[i].0 == key {
        Some(i)
    } else {
        group_find(g, key, i + 1)
    }
}

proof fn lemma_group_find_bounds(g: Groups, key: (Seq<char>, Seq<char>), i: int)
    ensures
        group_find(g, key, i) matches Some(k) ==> 0 <= k < g.len() && g[k].0 == key,
    decreases g.len() - i,
{
    if 0 <= i < g.len() {
        lemma_group_find_bounds(g, key, i + 1);
    }
}

pub open spec fn grouped(es: Seq<(Seq<char>, ProductView)>) -> Groups
    decreases es.len(),
{
    if es.len() == 0 {
        Seq::empty()
    } else {
        let g = grouped(es.drop_last());
        let (u, p) = es.last();
        let key = (p.0, p.1);
        match group_find(g, key, 0) {
            Some(i) => g.update(i, (key, g[i].1.push(u))),
            None => g.push((key, seq![u])),
        }
    }
}

/// The list, the pages left, the page of each image, and the number of entries given a page.
pub type AssignState = (EntryList, Groups, Seq<(Seq<char>, Seq<char>)>, nat);

/// Entry `i`, when it has no shop page, takes that of an entry with the same
/// image, else the first page left for its number and rarity.
pub open spec fn assign_step(st: AssignState, i: int) -> AssignState {
    let (db, g, ex, n) = st;
    let e = db[i].1;
    if e.yuyutei_sell_url is Some {
        st
    } else {
        match assoc_get(ex, e.img) {
            Some(u) => (db.update(i, (db[i].0, EntryView { yuyutei_sell_url: Some(u), ..e })), g, ex, n),
            None => match group_find(g, (e.card_number, e.rare), 0) {
                Some(j) => if g[j].1.len() > 0 {
                    let u = g[j].1[0];
                    (
                        db.update(i, (db[i].0, EntryView { yuyutei_sell_url: Some(u), ..e })),
                        g.update(j, (g[j].0, g[j].1.drop_first())),
                        ex.push((e.img, u)),
                        n + 1,
                    )
                } else {
                    st
                },
                None => st,
            },
        }
    }
}

pub open spec fn assign_all(st: AssignState, k: int) -> AssignState
    decreases k,
{
    if k <= 0 {
        st
    } else {
        assign_step(assign_all(st, k - 1), k - 1)
    }
}

/// The outcome of matching shop pages to entries.
pub struct LegacyYuyuteiReport {
    /// Entries given a page of their own.
    pub updated: usize,
    /// Pages that entries had already.
    pub skipped: usize,
    /// Pages no entry took, by card number and rarity.
    pub missing: Vec<(String, String, Vec<String>)>,
}

pub open spec fn missing_view(m: Seq<(String, String, Vec<String>)>) -> Groups {
    Seq::new(m.len(), |k: int| ((m[k].0@, m[k].1@), views(m[k].2@)))
}

/// The shop pages read into the list, and the report.
pub open spec fn yuyutei_outcome(db: EntryList, rows: Seq<(Seq<char>, Seq<char>, Seq<char>)>) -> (EntryList, nat, nat, Groups) {
    let known = known_urls((scraped_urls(rows), 0, Seq::empty()), db);
    let a = assign_all((db, grouped(known.0), known.2, 0), db.len() as int);
    (a.0, a.3, known.1, a.1.filter(|g: ((Seq<char>, Seq<char>), Seq<Seq<char>>)| g.1.len() > 0))
}

fn assoc_get_exec(m: &Vec<(String, String)>, k: &String) -> (r: Option<String>)
    ensures
        opt_view(r) == assoc_get(pair_text_views(m@), k@),
{
    let ghost mv = pair_text_views(m@);
    let mut i: usize = 0;
    assert(mv.take(0) =~= Seq::<(Seq<char>, Seq<char>)>::empty());
    while i < m.len()
        invariant
            i <= m.len(),
            mv == pair_text_views(m@),
            assoc_get(mv.take(i as int), k@) is None,
        decreases m.len() - i,
    {
        assert(mv.take(i + 1).drop_last() =~= mv.take(i as int));
        assert(mv.take(i + 1).last() == mv[i as int]);
        if m[i].0 == *k {
            proof {
                lemma_assoc_get_prefix(mv, k@, i + 1);
            }
            return Some(m[i].1.clone());
        }
        i = i + 1;
    }
    assert(mv.take(i as int) =~= mv);
    None
}

proof fn lemma_assoc_get_prefix(m: Seq<(Seq<char>, Seq<char>)>, k: Seq<char>, j: int)
    requires
        0 < j <= m.len(),
        assoc_get(m.take(j), k) is Some,
    ensures
        assoc_get(m, k) == assoc_get(m.take(j), k),
    decreases m.len() - j,
{
    if j == m.len() {
        assert(m.take(j) =~= m);
    } else {
        assert(m.take(j + 1).drop_last() =~= m.take(j));
        lemma_assoc_get_prefix(m, k, j + 1);
    }
}

pub open spec fn group_views(g: Seq<((String, String), Vec<String>)>) -> Groups {
    Seq::new(g.len(), |k: int| ((g[k].0.0@, g[k].0.1@), views(g[k].1@)))
}

fn group_find_exec(g: &Vec<((String, String), Vec<String>)>, n: &String, r: &String) -> (res: Option<usize>)
    ensures
        match res {
            Some(j) => group_find(group_views(g@), (n@, r@), 0) == Some(j as int) && j < g@.len(),
            None => group_find(group_views(g@), (n@, r@), 0) is None,
        },
{
    let ghost gv = group_views(g@);
    let mut i: usize = 0;
    while i < g.len()
        invariant
            i <= g.len(),
            gv == group_views(g@),
            group_find(gv, (n@, r@), 0) == group_find(gv, (n@, r@), i as int),
        decreases g.len() - i,
    {
        if g[i].0.0 == *n && g[i].0.1 == *r {
            return Some(i);
        }
        i = i + 1;
    }
    None
}

/// Matches the shop's product pages to the entries: pages already taken are
/// set aside, then each entry without a page takes the page of an entry with
/// the same image, else the first page left for its number and rarity.
/// `rows` are the pages found, as address, card number and rarity.
pub fn yuyutei(db: &mut Vec<(u32, CardEntry)>, rows: &Vec<(String, String, String)>) -> (r: LegacyYuyuteiReport)
    ensures
        (list_view(final(db)@), r.updated as nat, r.skipped as nat, missing_view(r.missing@)) == yuyutei_outcome(
            list_view(old(db)@),
            triple_text_views(rows@),
        ),
{
    let ghost d0 = list_view(db@);
    let ghost rv = triple_text_views(rows@);
    let mut m = product_map_new();
    let mut i: usize = 0;
    while i < rows.len()
        invariant
            i <= rows.len(),
            rv == triple_text_views(rows@),
            keys_distinct(product_map_entries(m)),
            product_map_entries(m) == scraped_urls(rv.take(i as int)),
        decreases rows.len() - i,
    {
        assert(rv.take(i + 1).drop_last() =~= rv.take(i as int));
        assert(rv.take(i + 1).last() == rv[i as int]);
        let row = &rows[i];
        let ghost before = product_map_entries(m);
        product_map_insert_if_absent(&mut m, row.0.clone(), (row.1.clone(), row.2.clone(), String::new()));
        i = i + 1;
    }
    assert(rv.take(i as int) =~= rv);
    // pages already taken
    let mut skipped: usize = 0;
    let mut existing: Vec<(String, String)> = Vec::new();
    let mut k: usize = 0;
    while k < db.len()
        invariant
            k <= db.len(),
            d0 == list_view(db@),
            keys_distinct(product_map_entries(m)),
            skipped <= k,
            (product_map_entries(m), skipped as nat, pair_text_views(existing@)) == known_urls(
                (scraped_urls(rv), 0, Seq::empty()),
                d0.take(k as int),
            ),
        decreases db.len() - k,
    {
        assert(d0.take(k + 1).drop_last() =~= d0.take(k as int));
        assert(d0.take(k + 1).last() == d0[k as int]);
        let e = &db[k].1;
        match &e.yuyutei_sell_url {
            Some(u) => {
                if product_map_shift_remove(&mut m, u).is_some() {
                    skipped = skipped + 1;
                }
                if assoc_get_exec(&existing, &e.img).is_none() {
                    let ghost x0 = pair_text_views(existing@);
                    existing.push((e.img.clone(), u.clone()));
                    assert(pair_text_views(existing@) =~= x0.push((e.img@, u@)));
                }
            },
            None => {},
        }
        k = k + 1;
    }
    assert(d0.take(k as int) =~= d0);
    let ghost known = known_urls((scraped_urls(rv), 0, Seq::empty()), d0);
    // the pages left, by number and rarity
    let entries = product_map_into_entries(m);
    let ghost ev = entries@.map_values(|e: (String, (String, String, String))| (e.0@, product_view(e.1)));
    let mut groups: Vec<((String, String), Vec<String>)> = Vec::new();
    let mut j: usize = 0;
    while j < entries.len()
        invariant
            j <= entries.len(),
            ev == entries@.map_values(|e: (String, (String, String, String))| (e.0@, product_view(e.1))),
            group_views(groups@) == grouped(ev.take(j as int)),
        decreases entries.len() - j,
    {
        assert(ev.take(j + 1).drop_last() =~= ev.take(j as int));
        assert(ev.take(j + 1).last() == ev[j as int]);
        let e = &entries[j];
        let ghost g0 = group_views(groups@);
        proof {
            lemma_group_find_bounds(g0, ((e.1).0@, (e.1).1@), 0);
        }
        match group_find_exec(&groups, &(e.1).0, &(e.1).1) {
            Some(gi) => {
                let (key, mut urls) = groups.remove(gi);
                let ghost u0 = urls@;
                assert(views(u0) == g0[gi as int].1);
                urls.push(e.0.clone());
                assert(views(urls@) =~= views(u0).push(e.0@));
                groups.insert(gi, (key, urls));
                assert(group_views(groups@) =~= g0.update(gi as int, (g0[gi as int].0, g0[gi as int].1.push(e.0@))));
            },
            None => {
                let mut urls: Vec<String> = Vec::new();
                urls.push(e.0.clone());
                assert(views(urls@) =~= seq![e.0@]);
                groups.push((((e.1).0.clone(), (e.1).1.clone()), urls));
                assert(group_views(groups@) =~= g0.push((((e.1).0@, (e.1).1@), seq![e.0@])));
            },
        }
        j = j + 1;
    }
    assert(ev.take(j as int) =~= ev);
    // entries without a page
    let mut updated: usize = 0;
    let mut c: usize = 0;
    while c < db.len()
        invariant
            c <= db.len(),
            db@.len() == d0.len(),
            updated <= c,
            (list_view(db@), group_views(groups@), pair_text_views(existing@), updated as nat) == assign_all(
                (d0, grouped(known.0), known.2, 0),
                c as int,
            ),
            forall|x: int| c <= x < db@.len() ==> (#[trigger] list_view(db@)[x]) == d0[x],
        decreases db.len() - c,
    {
        let ghost st = (list_view(db@), group_views(groups@), pair_text_views(existing@), updated as nat);
        assert(list_view(db@)[c as int] == d0[c as int]);
        if db[c].1.yuyutei_sell_url.is_none() {
            let img = db[c].1.img.clone();
            match assoc_get_exec(&existing, &img) {
                Some(u) => {
                    let (key, mut e) = db.remove(c);
                    e.yuyutei_sell_url = Some(u);
                    db.insert(c, (key, e));
                    assert(list_view(db@) =~= st.0.update(c as int, (key, e@)));
                },
                None => {
                    let number = db[c].1.card_number.clone();
                    let rare = db[c].1.rare.clone();
                    match group_find_exec(&groups, &number, &rare) {
                        Some(gi) => {
                            if groups[gi].1.len() > 0 {
                                let ghost g0 = group_views(groups@);
                                let (gkey, mut urls) = groups.remove(gi);
                                let u = urls.remove(0);
                                assert(views(urls@) =~= g0[gi as int].1.drop_first());
                                groups.insert(gi, (gkey, urls));
                                assert(group_views(groups@) =~= g0.update(gi as int, (g0[gi as int].0, g0[gi as int].1.drop_first())));
                                let (key, mut e) = db.remove(c);
                                e.yuyutei_sell_url = Some(u.clone());
                                db.insert(c, (key, e));
                                assert(list_view(db@) =~= st.0.update(c as int, (key, e@)));
                                let ghost x0 = pair_text_views(existing@);
                                existing.push((img, u));
                                assert(pair_text_views(existing@) =~= x0.push((st.0[c as int].1.img, g0[gi as int].1[0])));
                                updated = updated + 1;
                            }
                        },
                        None => {},
                    }
                },
            }
        }
        c = c + 1;
    }
    // pages no entry took
    let ghost gv = group_views(groups@);
    let ghost f = |g: ((Seq<char>, Seq<char>), Seq<Seq<char>>)| g.1.len() > 0;
    let mut missing: Vec<(String, String, Vec<String>)> = Vec::new();
    let mut q: usize = 0;
    while q < groups.len()
        invariant
            q <= groups.len(),
            gv == group_views(groups@),
            f == (|g: ((Seq<char>, Seq<char>), Seq<Seq<char>>)| g.1.len() > 0),
            missing_view(missing@) == gv.take(q as int).filter(f),
        decreases groups.len() - q,
    {
        proof {
            assert(gv.take(q + 1) =~= gv.take(q as int).push(gv[q as int]));
            gv.take(q as int).lemma_filter_push(gv[q as int], f);
        }
        if groups[q].1.len() > 0 {
            let ghost m0 = missing_view(missing@);
            missing.push(((groups[q].0).0.clone(), (groups[q].0).1.clone(), groups[q].1.clone()));
            assert(missing_view(missing@) =~= m0.push(gv[q as int]));
        }
        q = q + 1;
    }
    assert(gv.take(q as int) =~= gv);
    LegacyYuyuteiReport { updated, skipped, missing }
}

pub open spec fn triple_text_views(v: Seq<(String, String, String)>) -> Seq<(Seq<char>, Seq<char>, Seq<char>)> {
    Seq::new(v.len(), |k: int| (v[k].0@, v[k].1@, v[k].2@))
}


/// The shop's products that link to a page, as page address, card number and rarity.
pub open spec fn linked_rows(rows: Seq<YuyuteiRow>) -> Seq<(Seq<char>, Seq<char>, Seq<char>)>
    decreases rows.len(),
{
    if rows.len() == 0 {
        Seq::empty()
    } else {
        let rest = linked_rows(rows.drop_last());
        match rows.last().url {
            Some(u) => rest.push((u@, rows.last().number@, rows.last().rarity@)),
            None => rest,
        }
    }
}

/// The products that link to a page, as the first tool keeps them.
pub fn legacy_rows(rows: &Vec<YuyuteiRow>) -> (r: Vec<(String, String, String)>)
    ensures
        triple_text_views(r@) == linked_rows(rows@),
{
    let mut out: Vec<(String, String, String)> = Vec::new();
    let mut i: usize = 0;
    assert(triple_text_views(out@) =~= Seq::<(Seq<char>, Seq<char>, Seq<char>)>::empty());
    while i < rows.len()
        invariant
            i <= rows.len(),
            triple_text_views(out@) == linked_rows(rows@.take(i as int)),
        decreases rows.len() - i,
    {
        assert(rows@.take(i + 1).drop_last() =~= rows@.take(i as int));
        assert(rows@.take(i + 1).last() == rows@[i as int]);
        match &rows[i].url {
            Some(u) => {
                let ghost before = out@;
                out.push((u.clone(), rows[i].number.clone(), rows[i].rarity.clone()));
                assert(triple_text_views(out@) =~= triple_text_views(before).push((u@, rows@[i as int].number@, rows@[i as int].rarity@)));
            },
            None => {},
        }
        i = i + 1;
    }
    assert(rows@.take(i as int) =~= rows@);
    out
}

} // verus!
