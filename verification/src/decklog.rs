//! Deck Log: the printings it lists, read into the card database one by one.
//!
//! Deck Log gives each printing a unique id per language. Reading a listed
//! printing moves its id away from printings of other cards, writes the
//! card's kind, level and amount, and finds the printing it stands for (by
//! id, then by image, then the first one without an id) or adds it.
use std::collections::BTreeSet;
use vstd::prelude::*;
use crate::text::{chars_of_string, contains, lowercase, replace, replace_str, string_of, trim};
use crate::model::{BloomLevel, Card, CardIllustration, CardIllustrationView, CardType, CardView, Language, Localized, blank_card_view, blank_illustration_view, opt_set};
use crate::sheet::{sheet_bloom_level, text_get, text_set};
use crate::spreadsheet::{
    card_views, cards_distinct, find_card, find_card_index, lemma_cards_distinct_push, lemma_cards_distinct_update,
    lemma_find_card_bounds,
};
use crate::hololive::{bloom_level_of, buzz, card_type_from_str, card_type_of, limited};
use crate::images::{first_id, insert_pos, least_id, lemma_stable_sort_keeps, stable_sort};




























use vstd::pervasive::VecAdditionalExecFns;

verus! {

broadcast use {vstd::std_specs::btree::group_btree_axioms, vstd::laws_cmp::group_laws_cmp};

/// A printing as Deck Log lists it.
#[derive(Debug, Clone)]
pub struct DeckLogCard {
    pub manage_id: Option<u32>,
    pub card_number: String,
    pub card_kind: String,
    pub name: String,
    pub rare: String,
    pub img: String,
    pub bloom_level: String,
    pub max: u32,
}

impl DeckLogCard {
    /// The card type that the listed kind names.
    pub fn card_type(&self) -> (r: CardType)
        ensures
            r == card_type_from_str(self.card_kind@),
    {
        card_type_of(&self.card_kind)
    }

    /// The bloom level that the listed level names.
    pub fn bloom_level(&self) -> (r: Option<BloomLevel>)
        ensures
            r == sheet_bloom_level(self.bloom_level@),
    {
        bloom_level_of(&self.bloom_level)
    }

    /// The listed kind names a buzz holomem.
    pub fn buzz(&self) -> (r: bool)
        ensures
            r == contains(lowercase(trim(self.card_kind@)), "buzz"@),
    {
        buzz(&self.card_kind)
    }

    /// The listed kind names a limited support card.
    pub fn limited(&self) -> (r: bool)
        ensures
            r == contains(lowercase(trim(self.card_kind@)), "limited"@),
    {
        limited(&self.card_kind)
    }
}

// ---------------------------------------------------------------------------
// ids per language
// ---------------------------------------------------------------------------
pub type IdPair = (Option<Set<u32>>, Option<Set<u32>>);

/// The ids of a printing in `language`.
pub open spec fn ids_get(m: IdPair, language: Language) -> Option<Set<u32>> {
    match language {
        Language::Japanese => m.0,
        Language::English => m.1,
    }
}

/// The ids with those of `language` replaced.
pub open spec fn ids_set(m: IdPair, language: Language, v: Option<Set<u32>>) -> IdPair {
    match language {
        Language::Japanese => (v, m.1),
        Language::English => (m.0, v),
    }
}

/// The ids without `id`; a set that loses its last id becomes none.
pub open spec fn without_id(ids: Option<Set<u32>>, id: u32) -> Option<Set<u32>> {
    match ids {
        Some(s) => if s.contains(id) {
            if s.remove(id).is_empty() {
                None
            } else {
                Some(s.remove(id))
            }
        } else {
            ids
        },
        None => None,
    }
}

/// The ids with `id` added, when there is one.
pub open spec fn with_id(ids: Option<Set<u32>>, id: Option<u32>) -> Option<Set<u32>> {
    match id {
        Some(x) => match ids {
            Some(s) => Some(s.insert(x)),
            None => Some(Set::empty().insert(x)),
        },
        None => ids,
    }
}

fn without_id_exec(ids: Option<BTreeSet<u32>>, id: u32) -> (r: Option<BTreeSet<u32>>)
    ensures
        opt_set(r) == without_id(opt_set(ids), id),
{
    match ids {
        Some(mut s) => {
            if s.contains(&id) {
                s.remove(&id);
                if s.is_empty() {
                    None
                } else {
                    Some(s)
                }
            } else {
                Some(s)
            }
        },
        None => None,
    }
}

fn with_id_exec(ids: Option<BTreeSet<u32>>, id: Option<u32>) -> (r: Option<BTreeSet<u32>>)
    ensures
        opt_set(r) == with_id(opt_set(ids), id),
{
    match id {
        Some(x) => match ids {
            Some(mut s) => {
                s.insert(x);
                Some(s)
            },
            None => {
                let mut s = BTreeSet::new();
                s.insert(x);
                Some(s)
            },
        },
        None => ids,
    }
}

/// Takes out the ids of `language`, leaving none.
fn take_ids(m: &mut Localized<BTreeSet<u32>>, language: Language) -> (r: Option<BTreeSet<u32>>)
    ensures
        r == old(m).get(language),
        *final(m) == old(m).with(language, None),
{
    match language {
        Language::Japanese => m.japanese.take(),
        Language::English => m.english.take(),
    }
}

// ---------------------------------------------------------------------------
// moving an id away from the printings of other cards
// ---------------------------------------------------------------------------
/// A printing of another card than `number` loses `id` in `language`.
pub open spec fn released_il(il: CardIllustrationView, number: Seq<char>, id: u32, language: Language) -> CardIllustrationView {
    if il.card_number != number {
        CardIllustrationView {
            manage_id: ids_set(il.manage_id, language, without_id(ids_get(il.manage_id, language), id)),
            ..il
        }
    } else {
        il
    }
}

pub open spec fn released_ils(ils: Seq<CardIllustrationView>, number: Seq<char>, id: u32, language: Language) -> Seq<CardIllustrationView> {
    Seq::new(ils.len(), |k: int| released_il(ils[k], number, id, language))
}

/// The database after a listed printing's id left every printing of another card.
pub open spec fn released(db: Seq<CardView>, dl: DeckLogCard, language: Language) -> Seq<CardView> {
    match dl.manage_id {
        Some(id) => Seq::new(
            db.len(),
            |c: int| CardView { illustrations: released_ils(db[c].illustrations, dl.card_number@, id, language), ..db[c] },
        ),
        None => db,
    }
}

fn release_il(il: &mut CardIllustration, number: &String, id: u32, language: Language)
    ensures
        final(il)@ == released_il(old(il)@, number@, id, language),
{
    if !(il.card_number == *number) {
        let ids = take_ids(&mut il.manage_id, language);
        let ids = without_id_exec(ids, id);
        il.manage_id.set(language, ids);
    }
}

fn release_card(card: &mut Card, number: &String, id: u32, language: Language)
    ensures
        final(card)@ == (CardView { illustrations: released_ils(old(card)@.illustrations, number@, id, language), ..old(card)@ }),
{
    let ghost before = card@;
    let mut k: usize = 0;
    while k < card.illustrations.len()
        invariant
            k <= card.illustrations.len(),
            card@.illustrations.len() == before.illustrations.len(),
            card@ == (CardView { illustrations: card@.illustrations, ..before }),
            forall|j: int| 0 <= j < k ==> card@.illustrations[j] == released_il(before.illustrations[j], number@, id, language),
            forall|j: int| k <= j < card@.illustrations.len() ==> card@.illustrations[j] == before.illustrations[j],
        decreases card.illustrations.len() - k,
    {
        let ghost mid = card@;
        let mut il = CardIllustration::default();
        card.illustrations.set_and_swap(k, &mut il);
        assert(il@ == mid.illustrations[k as int]);
        release_il(&mut il, number, id, language);
        card.illustrations.set(k, il);
        assert(card@.illustrations =~= mid.illustrations.update(k as int, il@));
        k = k + 1;
    }
    assert(card@.illustrations =~= released_ils(before.illustrations, number@, id, language));
}

/// Moves a listed printing's id away from every printing of another card.
pub fn release_id(all_cards: &mut Vec<Card>, dl: &DeckLogCard, language: Language)
    ensures
        card_views(final(all_cards)@) == released(card_views(old(all_cards)@), *dl, language),
{
    let ghost before = card_views(all_cards@);
    match dl.manage_id {
        Some(id) => {
            let mut c: usize = 0;
            while c < all_cards.len()
                invariant
                    c <= all_cards.len(),
                    all_cards@.len() == before.len(),
                    dl.manage_id == Some(id),
                    forall|j: int| 0 <= j < c ==> #[trigger] all_cards@[j]@ == (CardView {
                        illustrations: released_ils(before[j].illustrations, dl.card_number@, id, language),
                        ..before[j]
                    }),
                    forall|j: int| c <= j < all_cards@.len() ==> #[trigger] all_cards@[j]@ == before[j],
                decreases all_cards.len() - c,
            {
                let ghost mid = all_cards@;
                let mut card = Card::default();
                all_cards.set_and_swap(c, &mut card);
                assert(card@ == before[c as int]);
                release_card(&mut card, &dl.card_number, id, language);
                all_cards.set(c, card);
                assert(all_cards@ == mid.update(c as int, card));
                c = c + 1;
            }
            assert(card_views(all_cards@) =~= released(before, *dl, language));
        },
        None => {},
    }
}

// ---------------------------------------------------------------------------
// the listed card and printing
// ---------------------------------------------------------------------------
/// The image path of a listed printing: `.png` images become `.webp` unless
/// the original images are kept.
pub open spec fn listed_img(dl: DeckLogCard, optimized_original_images: bool) -> Seq<char> {
    if optimized_original_images {
        dl.img@
    } else {
        replace(dl.img@, ".png"@, ".webp"@)
    }
}

/// The amount of a card in `language` with a new value.
pub open spec fn amount_set(m: (Option<u32>, Option<u32>), language: Language, v: Option<u32>) -> (Option<u32>, Option<u32>) {
    match language {
        Language::Japanese => (v, m.1),
        Language::English => (m.0, v),
    }
}

/// The most copies of a card a deck may hold: one for an oshi.
pub open spec fn listed_max(dl: DeckLogCard) -> u32 {
    if card_type_from_str(dl.card_kind@) == CardType::OshiHoloMember {
        if dl.max < 1 {
            dl.max
        } else {
            1
        }
    } else {
        dl.max
    }
}

/// The card's fields that Deck Log gives.
pub open spec fn listed_card_fields(c: CardView, dl: DeckLogCard, language: Language) -> CardView {
    CardView {
        card_number: dl.card_number@,
        name: text_set(c.name, language, Some(dl.name@)),
        card_type: card_type_from_str(dl.card_kind@),
        max_amount: amount_set(c.max_amount, language, Some(listed_max(dl))),
        bloom_level: sheet_bloom_level(dl.bloom_level@),
        buzz: contains(lowercase(trim(dl.card_kind@)), "buzz"@),
        limited: contains(lowercase(trim(dl.card_kind@)), "limited"@),
        ..c
    }
}

/// Whether a printing is the listed one by the rule of a search: by id
/// (`0`), by image (`1`), or as one without an id (`2`).
pub open spec fn il_matches(il: CardIllustrationView, search: int, id: Option<u32>, img: Seq<char>, language: Language) -> bool {
    if search == 0 {
        match id {
            Some(x) => ids_get(il.manage_id, language) matches Some(s) && s.contains(x),
            None => ids_get(il.manage_id, language) is None,
        }
    } else if search == 1 {
        text_get(il.img_path, language) == Some(img)
    } else {
        ids_get(il.manage_id, language) is None
    }
}

/// The first printing from `i` on that a search finds.
pub open spec fn find_il(
    ils: Seq<CardIllustrationView>,
    search: int,
    id: Option<u32>,
    img: Seq<char>,
    language: Language,
    i: int,
) -> Option<int>
    decreases ils.len() - i,
{
    if i < 0 || i >= ils.len() {
        None
    } else if il_matches(ils[i], search, id, img, language) {
        Some(i)
    } else {
        find_il(ils, search, id, img, language, i + 1)
    }
}

/// The printing that a listed one stands for: the first with its id, else
/// the first with its image, else the first without an id.
pub open spec fn listed_target(ils: Seq<CardIllustrationView>, id: Option<u32>, img: Seq<char>, language: Language) -> Option<int> {
    match find_il(ils, 0, id, img, language, 0) {
        Some(k) => Some(k),
        None => match find_il(ils, 1, id, img, language, 0) {
            Some(k) => Some(k),
            None => find_il(ils, 2, id, img, language, 0),
        },
    }
}

/// A printing with what Deck Log gives of it: number, id, rarity and image.
pub open spec fn listed_il(il: CardIllustrationView, dl: DeckLogCard, img: Seq<char>, language: Language) -> CardIllustrationView {
    CardIllustrationView {
        card_number: dl.card_number@,
        manage_id: ids_set(il.manage_id, language, with_id(ids_get(il.manage_id, language), dl.manage_id)),
        rarity: dl.rare@,
        img_path: text_set(il.img_path, language, Some(img)),
        ..il
    }
}

/// The printings after a listed one was found and updated, or added.
pub open spec fn listed_ils(ils: Seq<CardIllustrationView>, dl: DeckLogCard, img: Seq<char>, language: Language) -> Seq<CardIllustrationView> {
    match listed_target(ils, dl.manage_id, img, language) {
        Some(k) => ils.update(k, listed_il(ils[k], dl, img, language)),
        None => ils.push(listed_il(blank_illustration_view(), dl, img, language)),
    }
}

proof fn lemma_find_il_bounds(
    ils: Seq<CardIllustrationView>,
    search: int,
    id: Option<u32>,
    img: Seq<char>,
    language: Language,
    i: int,
)
    ensures
        find_il(ils, search, id, img, language, i) matches Some(k) ==> 0 <= k < ils.len() && i <= k,
    decreases ils.len() - i,
{
    if 0 <= i < ils.len() {
        lemma_find_il_bounds(ils, search, id, img, language, i + 1);
    }
}

fn il_matches_exec(il: &CardIllustration, search: u8, id: Option<u32>, img: &String, language: Language) -> (r: bool)
    ensures
        r == il_matches(il@, search as int, id, img@, language),
{
    if search == 0 {
        match id {
            Some(x) => match il.manage_id.value(language) {
                Some(s) => s.contains(&x),
                None => false,
            },
            None => il.manage_id.value(language).is_none(),
        }
    } else if search == 1 {
        match il.img_path.value(language) {
            Some(p) => *p == *img,
            None => false,
        }
    } else {
        il.manage_id.value(language).is_none()
    }
}

fn find_il_exec(ils: &Vec<CardIllustration>, search: u8, id: Option<u32>, img: &String, language: Language) -> (r: Option<usize>)
    ensures
        match r {
            Some(k) => find_il(ils@.map_values(|i: CardIllustration| i@), search as int, id, img@, language, 0) == Some(k as int),
            None => find_il(ils@.map_values(|i: CardIllustration| i@), search as int, id, img@, language, 0) is None,
        },
{
    let ghost v = ils@.map_values(|i: CardIllustration| i@);
    let mut k: usize = 0;
    while k < ils.len()
        invariant
            k <= ils.len(),
            v == ils@.map_values(|i: CardIllustration| i@),
            find_il(v, search as int, id, img@, language, 0) == find_il(v, search as int, id, img@, language, k as int),
        decreases ils.len() - k,
    {
        if il_matches_exec(&ils[k], search, id, img, language) {
            return Some(k);
        }
        k = k + 1;
    }
    None
}

/// Finds the printing a listed one stands for and writes what Deck Log gives
/// of it, or adds it.
fn apply_listed_il(ils: &mut Vec<CardIllustration>, dl: &DeckLogCard, img: &String, language: Language)
    ensures
        final(ils)@.map_values(|i: CardIllustration| i@) == listed_ils(old(ils)@.map_values(|i: CardIllustration| i@), *dl, img@, language),
{
    let ghost v = ils@.map_values(|i: CardIllustration| i@);
    proof {
        lemma_find_il_bounds(v, 0, dl.manage_id, img@, language, 0);
        lemma_find_il_bounds(v, 1, dl.manage_id, img@, language, 0);
        lemma_find_il_bounds(v, 2, dl.manage_id, img@, language, 0);
    }
    let target = match find_il_exec(ils, 0, dl.manage_id, img, language) {
        Some(k) => Some(k),
        None => match find_il_exec(ils, 1, dl.manage_id, img, language) {
            Some(k) => Some(k),
            None => find_il_exec(ils, 2, dl.manage_id, img, language),
        },
    };
    let mut il = CardIllustration::default();
    match target {
        Some(k) => {
            ils.set_and_swap(k, &mut il);
            assert(il@ == v[k as int]);
        },
        None => {},
    }
    il.card_number = dl.card_number.clone();
    let ids = take_ids(&mut il.manage_id, language);
    let ids = with_id_exec(ids, dl.manage_id);
    il.manage_id.set(language, ids);
    il.rarity = dl.rare.clone();
    il.img_path.set(language, Some(img.clone()));
    match target {
        Some(k) => {
            let ghost mid = ils@;
            ils.set(k, il);
            assert(ils@.map_values(|i: CardIllustration| i@) =~= v.update(k as int, il@));
        },
        None => {
            let ghost mid = ils@;
            ils.push(il);
            assert(ils@.map_values(|i: CardIllustration| i@) =~= v.push(il@));
        },
    }
}

// ---------------------------------------------------------------------------
// ordering the printings by id
// ---------------------------------------------------------------------------
/// The order key of a printing: none before the smallest id in `language`.
pub open spec fn il_key(il: CardIllustrationView, language: Language) -> u64 {
    match ids_get(il.manage_id, language) {
        Some(s) => match least_id(s) {
            Some(m) => (m + 1) as u64,
            None => 0,
        },
        None => 0,
    }
}

pub open spec fn keyed(ils: Seq<CardIllustrationView>, language: Language) -> Seq<(CardIllustrationView, u64)> {
    Seq::new(ils.len(), |k: int| (ils[k], il_key(ils[k], language)))
}

/// The printings ordered from oldest to latest by their ids in `language`,
/// printings with equal keys in their first order.
pub open spec fn sorted_ils(ils: Seq<CardIllustrationView>, language: Language) -> Seq<CardIllustrationView> {
    let s = stable_sort(keyed(ils, language));
    Seq::new(s.len(), |k: int| s[k].0)
}

fn il_key_exec(il: &CardIllustration, language: Language) -> (r: u64)
    ensures
        r == il_key(il@, language),
{
    match first_id(il.manage_id.value(language)) {
        Some(m) => m as u64 + 1,
        None => 0,
    }
}

/// Orders printings from oldest to latest by their ids in `language`.
fn sort_ils(ils: &mut Vec<CardIllustration>, language: Language)
    ensures
        final(ils)@.map_values(|i: CardIllustration| i@) == sorted_ils(old(ils)@.map_values(|i: CardIllustration| i@), language),
{
    let ghost v = ils@.map_values(|i: CardIllustration| i@);
    let mut src: Vec<CardIllustration> = Vec::new();
    std::mem::swap(&mut src, ils);
    let mut r: Vec<CardIllustration> = Vec::new();
    let ghost mut i: int = 0;
    assert(src@.map_values(|x: CardIllustration| x@) =~= v.skip(0));
    assert(keyed(r@.map_values(|x: CardIllustration| x@), language) =~= stable_sort(keyed(v.take(0), language)));
    while src.len() > 0
        invariant
            0 <= i <= v.len(),
            src@.map_values(|x: CardIllustration| x@) == v.skip(i),
            keyed(r@.map_values(|x: CardIllustration| x@), language) == stable_sort(keyed(v.take(i), language)),
        decreases src.len(),
    {
        let ghost sv = src@;
        assert(sv.map_values(|x: CardIllustration| x@).len() == sv.len());
        assert(i < v.len());
        let il = src.remove(0);
        assert(il@ == v[i]) by {
            assert(il == sv[0]);
            assert(sv.map_values(|x: CardIllustration| x@)[0] == sv[0]@);
            assert(v.skip(i)[0] == v[i]);
        }
        assert(src@.map_values(|x: CardIllustration| x@) =~= v.skip(i + 1)) by {
            assert(src@ =~= sv.remove(0));
            assert forall|j: int| 0 <= j < src@.len() implies src@[j]@ == v.skip(i + 1)[j] by {
                assert(src@[j] == sv[j + 1]);
                assert(sv.map_values(|x: CardIllustration| x@)[j + 1] == v.skip(i)[j + 1]);
            }
        }
        let k = il_key_exec(&il, language);
        let ghost r0 = keyed(r@.map_values(|x: CardIllustration| x@), language);
        let mut p: usize = 0;
        while p < r.len() && il_key_exec(&r[p], language) <= k
            invariant
                p <= r.len(),
                r0 == keyed(r@.map_values(|x: CardIllustration| x@), language),
                insert_pos(r0, k, 0) == insert_pos(r0, k, p as int),
            decreases r.len() - p,
        {
            p = p + 1;
        }
        let ghost rv = r@.map_values(|x: CardIllustration| x@);
        r.insert(p, il);
        proof {
            assert(r@.map_values(|x: CardIllustration| x@) =~= rv.insert(p as int, il@));
            assert(keyed(rv.insert(p as int, il@), language) =~= r0.insert(p as int, (il@, k)));
            assert(v.take(i + 1) =~= v.take(i).push(v[i]));
            assert(keyed(v.take(i + 1), language) =~= keyed(v.take(i), language).push((v[i], k)));
            assert(keyed(v.take(i + 1), language).drop_last() =~= keyed(v.take(i), language));
            i = i + 1;
        }
    }
    assert(v.take(i) =~= v) by {
        assert(v.skip(i).len() == 0);
    }
    let ghost s = stable_sort(keyed(v, language));
    assert(r@.map_values(|x: CardIllustration| x@) =~= sorted_ils(v, language)) by {
        let rv = r@.map_values(|x: CardIllustration| x@);
        assert(keyed(rv, language) == s);
        assert forall|k: int| 0 <= k < rv.len() implies rv[k] == s[k].0 by {
            assert(keyed(rv, language)[k] == (rv[k], il_key(rv[k], language)));
        }
    }
    *ils = r;
}

// ---------------------------------------------------------------------------
// reading a listed printing into the database
// ---------------------------------------------------------------------------
/// A card after a listed printing of it was read.
pub open spec fn listed_card(c: CardView, dl: DeckLogCard, img: Seq<char>, language: Language) -> CardView {
    let c1 = listed_card_fields(c, dl, language);
    CardView { illustrations: sorted_ils(listed_ils(c1.illustrations, dl, img, language), language), ..c1 }
}

/// The database after a listed printing was read: its id leaves the
/// printings of other cards, then its card (added when missing) gets the
/// listed fields and printing.
pub open spec fn decklog_applied(db: Seq<CardView>, dl: DeckLogCard, language: Language, optimized_original_images: bool) -> Seq<CardView> {
    let img = listed_img(dl, optimized_original_images);
    let db1 = released(db, dl, language);
    match find_card(db1, dl.card_number@, 0) {
        Some(i) => db1.update(i, listed_card(db1[i], dl, img, language)),
        None => db1.push(listed_card(blank_card_view(), dl, img, language)),
    }
}

fn apply_listed_card(card: &mut Card, dl: &DeckLogCard, img: &String, language: Language)
    ensures
        final(card)@ == listed_card(old(card)@, *dl, img@, language),
{
    let card_type = dl.card_type();
    card.card_number = dl.card_number.clone();
    card.name.set(language, Some(dl.name.clone()));
    let max = match card_type {
        CardType::OshiHoloMember => if dl.max < 1 {
            dl.max
        } else {
            1
        },
        _ => dl.max,
    };
    card.card_type = card_type;
    card.max_amount.set(language, Some(max));
    card.bloom_level = dl.bloom_level();
    card.buzz = dl.buzz();
    card.limited = dl.limited();
    let ghost c1 = card@;
    apply_listed_il(&mut card.illustrations, dl, img, language);
    sort_ils(&mut card.illustrations, language);
    assert(card@ == (CardView { illustrations: card@.illustrations, ..c1 }));
}

/// Reads one printing listed by Deck Log into the database.
pub fn apply_decklog_card(
    all_cards: &mut Vec<Card>,
    dl: &DeckLogCard,
    language: Language,
    optimized_original_images: bool,
)
    ensures
        card_views(final(all_cards)@) == decklog_applied(card_views(old(all_cards)@), *dl, language, optimized_original_images),
{
    let img = if optimized_original_images {
        dl.img.clone()
    } else {
        proof {
            reveal_strlit(".png");
        }
        string_of(&replace_str(&chars_of_string(&dl.img), ".png", ".webp"))
    };
    release_id(all_cards, dl, language);
    let ghost db1 = card_views(all_cards@);
    proof {
        lemma_find_card_bounds(db1, dl.card_number@, 0);
    }
    match find_card_index(all_cards, &dl.card_number) {
        Some(i) => {
            let mut card = Card::default();
            all_cards.set_and_swap(i, &mut card);
            assert(card@ == db1[i as int]);
            apply_listed_card(&mut card, dl, &img, language);
            let ghost mid = all_cards@;
            all_cards.set(i, card);
            assert(card_views(all_cards@) =~= db1.update(i as int, card@));
        },
        None => {
            let mut card = Card::default();
            apply_listed_card(&mut card, dl, &img, language);
            all_cards.push(card);
            assert(card_views(all_cards@) =~= db1.push(card@));
        },
    }
}

// ---------------------------------------------------------------------------
// the printings that were listed
// ---------------------------------------------------------------------------
/// `e` is an id of `s`.
pub open spec fn id_in(s: Set<u32>, e: Option<u32>) -> bool {
    e matches Some(x) && s.contains(x)
}

/// One of `ids` is an id of `s`.
pub open spec fn any_id_in(s: Set<u32>, ids: Seq<Option<u32>>) -> bool {
    exists|k: int| 0 <= k < ids.len() && #[trigger] id_in(s, ids[k])
}

/// A printing carries one of the listed ids in `language`; a listed printing
/// without an id selects the printings without one.
pub open spec fn is_listed(il: CardIllustrationView, ids: Seq<Option<u32>>, language: Language) -> bool {
    match ids_get(il.manage_id, language) {
        Some(s) => any_id_in(s, ids),
        None => ids.contains(None),
    }
}

/// The listed printings of the cards, as card number and position, in order.
pub open spec fn listed_of_card(c: CardView, ids: Seq<Option<u32>>, language: Language, k: int) -> Seq<(Seq<char>, usize)>
    decreases k,
{
    if k <= 0 {
        Seq::empty()
    } else {
        let rest = listed_of_card(c, ids, language, k - 1);
        if is_listed(c.illustrations[k - 1], ids, language) {
            rest.push((c.card_number, (k - 1) as usize))
        } else {
            rest
        }
    }
}

pub open spec fn listed_printings(db: Seq<CardView>, ids: Seq<Option<u32>>, language: Language) -> Seq<(Seq<char>, usize)>
    decreases db.len(),
{
    if db.len() == 0 {
        Seq::empty()
    } else {
        listed_printings(db.drop_last(), ids, language) + listed_of_card(
            db.last(),
            ids,
            language,
            db.last().illustrations.len() as int,
        )
    }
}

/// Ids are ordered as numbers are.
proof fn lemma_ids_ordered()
    ensures
        vstd::laws_cmp::obeys_cmp::<u32>(),
{
}

fn is_listed_exec(il: &CardIllustration, ids: &Vec<Option<u32>>, language: Language) -> (r: bool)
    ensures
        r == is_listed(il@, ids@, language),
{
    match il.manage_id.value(language) {
        Some(s) => {
            assert(ids_get(il@.manage_id, language) == Some(s@));
            let mut k: usize = 0;
            while k < ids.len()
                invariant
                    k <= ids.len(),
                    ids_get(il@.manage_id, language) == Some(s@),
                    forall|j: int| 0 <= j < k ==> !id_in(s@, #[trigger] ids@[j]),
                decreases ids.len() - k,
            {
                match ids[k] {
                    Some(x) => {
                        if s.contains(&x) {
                            proof {
                                lemma_ids_ordered();
                            }
                            assert(s@.contains(x));
                            assert(id_in(s@, ids@[k as int]));
                            assert(any_id_in(s@, ids@));
                            return true;
                        }
                    },
                    None => {},
                }
                k = k + 1;
            }
            false
        },
        None => {
            assert(ids_get(il@.manage_id, language) is None);
            let mut k: usize = 0;
            while k < ids.len()
                invariant
                    k <= ids.len(),
                    ids_get(il@.manage_id, language) is None,
                    forall|j: int| 0 <= j < k ==> ids@[j] is Some,
                decreases ids.len() - k,
            {
                if ids[k].is_none() {
                    assert(ids@[k as int] == None::<u32>);
                    assert(ids@.contains(None));
                    return true;
                }
                k = k + 1;
            }
            assert(!ids@.contains(None));
            false
        },
    }
}

/// The printings that carry a listed id, as card number and position.
pub fn listed_printings_of(all_cards: &Vec<Card>, ids: &Vec<Option<u32>>, language: Language) -> (r: Vec<(String, usize)>)
    ensures
        r@.map_values(|e: (String, usize)| (e.0@, e.1)) == listed_printings(card_views(all_cards@), ids@, language),
{
    let ghost db = card_views(all_cards@);
    let mut out: Vec<(String, usize)> = Vec::new();
    let mut c: usize = 0;
    while c < all_cards.len()
        invariant
            c <= all_cards.len(),
            db == card_views(all_cards@),
            out@.map_values(|e: (String, usize)| (e.0@, e.1)) == listed_printings(db.take(c as int), ids@, language),
        decreases all_cards.len() - c,
    {
        let card = &all_cards[c];
        assert(db[c as int] == card@);
        let ghost base = out@.map_values(|e: (String, usize)| (e.0@, e.1));
        let mut k: usize = 0;
        while k < card.illustrations.len()
            invariant
                k <= card.illustrations.len(),
                card@ == db[c as int],
                out@.map_values(|e: (String, usize)| (e.0@, e.1)) == base + listed_of_card(card@, ids@, language, k as int),
            decreases card.illustrations.len() - k,
        {
            assert(card@.illustrations[k as int] == card.illustrations@[k as int]@);
            if is_listed_exec(&card.illustrations[k], ids, language) {
                let ghost o = out@;
                out.push((card.card_number.clone(), k));
                assert(out@.map_values(|e: (String, usize)| (e.0@, e.1)) =~= o.map_values(|e: (String, usize)| (e.0@, e.1)).push((card@.card_number, k)));
            }
            k = k + 1;
        }
        assert(db.take(c + 1).drop_last() =~= db.take(c as int));
        assert(db.take(c + 1).last() == card@);
        c = c + 1;
    }
    assert(db.take(c as int) =~= db);
    out
}

/// The database after reading the listed printings in order, and the ids read.
pub open spec fn decklog_read(db: Seq<CardView>, cards: Seq<DeckLogCard>, language: Language, optimized_original_images: bool) -> Seq<CardView>
    decreases cards.len(),
{
    if cards.len() == 0 {
        db
    } else {
        decklog_applied(decklog_read(db, cards.drop_last(), language, optimized_original_images), cards.last(), language, optimized_original_images)
    }
}

/// Reads the printings that Deck Log listed, in order, into the database,
/// and returns the printings that carry one of their ids, as card number and
/// position.
pub fn retrieve_card_info_from_decklog(
    all_cards: &mut Vec<Card>,
    cards: &Vec<DeckLogCard>,
    language: Language,
    optimized_original_images: bool,
) -> (r: Vec<(String, usize)>)
    ensures
        card_views(final(all_cards)@) == decklog_read(card_views(old(all_cards)@), cards@, language, optimized_original_images),
        r@.map_values(|e: (String, usize)| (e.0@, e.1)) == listed_printings(
            card_views(final(all_cards)@),
            cards@.map_values(|d: DeckLogCard| d.manage_id),
            language,
        ),
        cards_distinct(card_views(old(all_cards)@)) ==> cards_distinct(card_views(final(all_cards)@)),
{
    let ghost db0 = card_views(all_cards@);
    proof {
        if cards_distinct(db0) {
            lemma_decklog_read_distinct(db0, cards@, language, optimized_original_images);
        }
    }
    let mut ids: Vec<Option<u32>> = Vec::new();
    let mut k: usize = 0;
    while k < cards.len()
        invariant
            k <= cards.len(),
            card_views(all_cards@) == decklog_read(db0, cards@.take(k as int), language, optimized_original_images),
            ids@ == cards@.take(k as int).map_values(|d: DeckLogCard| d.manage_id),
        decreases cards.len() - k,
    {
        assert(cards@.take(k + 1).drop_last() =~= cards@.take(k as int));
        apply_decklog_card(all_cards, &cards[k], language, optimized_original_images);
        ids.push(cards[k].manage_id);
        assert(ids@ =~= cards@.take(k + 1).map_values(|d: DeckLogCard| d.manage_id));
        k = k + 1;
    }
    assert(cards@.take(k as int) =~= cards@);
    listed_printings_of(all_cards, &ids, language)
}

// ---------------------------------------------------------------------------
// laws
// ---------------------------------------------------------------------------
/// Reading Deck Log's printings keeps card numbers distinct: a card is added
/// only where no card has its number, and no card's number changes.
pub proof fn lemma_decklog_read_distinct(db: Seq<CardView>, cards: Seq<DeckLogCard>, language: Language, optimized_original_images: bool)
    requires
        cards_distinct(db),
    ensures
        cards_distinct(decklog_read(db, cards, language, optimized_original_images)),
    decreases cards.len(),
{
    if cards.len() > 0 {
        lemma_decklog_read_distinct(db, cards.drop_last(), language, optimized_original_images);
        let d = decklog_read(db, cards.drop_last(), language, optimized_original_images);
        let dl = cards.last();
        let db1 = released(d, dl, language);
        assert(cards_distinct(db1)) by {
            assert forall|a: int, b: int| 0 <= a < b < db1.len() implies db1[a].card_number != db1[b].card_number by {
                assert(db1[a].card_number == d[a].card_number);
                assert(db1[b].card_number == d[b].card_number);
            }
        }
        lemma_find_card_bounds(db1, dl.card_number@, 0);
        let img = listed_img(dl, optimized_original_images);
        match find_card(db1, dl.card_number@, 0) {
            Some(i) => lemma_cards_distinct_update(db1, i, listed_card(db1[i], dl, img, language)),
            None => lemma_cards_distinct_push(db1, listed_card(blank_card_view(), dl, img, language)),
        }
    }
}

/// A printing carries `id` in `language`.
pub open spec fn carries_id(il: CardIllustrationView, id: u32, language: Language) -> bool {
    ids_get(il.manage_id, language) matches Some(s) && s.contains(id)
}

/// A printing carries `id` only where it is a printing of `number`.
pub open spec fn id_only_with(il: CardIllustrationView, number: Seq<char>, id: u32, language: Language) -> bool {
    il.card_number != number ==> !carries_id(il, id, language)
}

pub open spec fn id_pred(number: Seq<char>, id: u32, language: Language) -> spec_fn((CardIllustrationView, u64)) -> bool {
    |p: (CardIllustrationView, u64)| id_only_with(p.0, number, id, language)
}

proof fn lemma_released_il(il: CardIllustrationView, number: Seq<char>, id: u32, language: Language)
    ensures
        id_only_with(released_il(il, number, id, language), number, id, language),
{
    if il.card_number != number {
        match ids_get(il.manage_id, language) {
            Some(s) => {
                if s.contains(id) {
                    assert(!s.remove(id).contains(id));
                }
            },
            None => {},
        }
    }
}

/// After Deck Log lists a printing with an id, no printing of another card
/// carries that id any more in that language: an id belongs to one card.
pub proof fn lemma_listed_id_moves(db: Seq<CardView>, dl: DeckLogCard, language: Language, optimized_original_images: bool)
    requires
        dl.manage_id is Some,
    ensures
        forall|c: int, k: int|
            0 <= c < decklog_applied(db, dl, language, optimized_original_images).len()
                && 0 <= k < decklog_applied(db, dl, language, optimized_original_images)[c].illustrations.len()
                ==> id_only_with(
                #[trigger] decklog_applied(db, dl, language, optimized_original_images)[c].illustrations[k],
                dl.card_number@,
                dl.manage_id->0,
                language,
            ),
{
    let id = dl.manage_id->0;
    let n = dl.card_number@;
    let img = listed_img(dl, optimized_original_images);
    let db1 = released(db, dl, language);
    let r = decklog_applied(db, dl, language, optimized_original_images);
    assert forall|c: int, k: int| 0 <= c < db1.len() && 0 <= k < db1[c].illustrations.len() implies id_only_with(
        #[trigger] db1[c].illustrations[k],
        n,
        id,
        language,
    ) by {
        lemma_released_il(db[c].illustrations[k], n, id, language);
    }
    lemma_find_card_bounds(db1, n, 0);
    let base = match find_card(db1, n, 0) {
        Some(i) => db1[i],
        None => blank_card_view(),
    };
    let c1 = listed_card_fields(base, dl, language);
    let ils2 = listed_ils(c1.illustrations, dl, img, language);
    lemma_find_il_bounds(c1.illustrations, 0, dl.manage_id, img, language, 0);
    lemma_find_il_bounds(c1.illustrations, 1, dl.manage_id, img, language, 0);
    lemma_find_il_bounds(c1.illustrations, 2, dl.manage_id, img, language, 0);
    let pred = id_pred(n, id, language);
    assert forall|k: int| 0 <= k < keyed(ils2, language).len() implies pred(#[trigger] keyed(ils2, language)[k]) by {
        assert(keyed(ils2, language)[k].0 == ils2[k]);
        match listed_target(c1.illustrations, dl.manage_id, img, language) {
            Some(t) => {
                if k != t {
                    assert(ils2[k] == c1.illustrations[k]);
                }
            },
            None => {
                if k < c1.illustrations.len() {
                    assert(ils2[k] == c1.illustrations[k]);
                }
            },
        }
    }
    lemma_stable_sort_keeps(keyed(ils2, language), pred);
    let sorted = sorted_ils(ils2, language);
    assert forall|k: int| 0 <= k < sorted.len() implies id_only_with(#[trigger] sorted[k], n, id, language) by {
        assert(pred(stable_sort(keyed(ils2, language))[k]));
    }
}


/// The first card with number `key` from `i` on is the first one of `db`
/// that comes before the end, when `db` and `d` agree on numbers before it.
proof fn lemma_find_card_same_prefix(db: Seq<CardView>, d: Seq<CardView>, key: Seq<char>, i: int, j: int)
    requires
        0 <= i <= j,
        j < db.len(),
        j < d.len(),
        db[j].card_number == key,
        d[j].card_number == key,
        forall|k: int| i <= k < j ==> #[trigger] db[k].card_number != key,
        forall|k: int| i <= k < j ==> #[trigger] d[k].card_number == db[k].card_number,
    ensures
        find_card(d, key, i) == Some(j),
    decreases j - i,
{
    if i < j {
        assert(db[i].card_number != key);
        assert(d[i].card_number == db[i].card_number);
        lemma_find_card_same_prefix(db, d, key, i + 1, j);
    }
}

proof fn lemma_find_card_none_before(db: Seq<CardView>, key: Seq<char>, i: int)
    requires
        0 <= i,
        find_card(db, key, i) is None,
    ensures
        forall|k: int| i <= k < db.len() ==> #[trigger] db[k].card_number != key,
    decreases db.len() - i,
{
    if i < db.len() {
        lemma_find_card_none_before(db, key, i + 1);
    }
}

proof fn lemma_find_card_first(db: Seq<CardView>, key: Seq<char>, i: int)
    requires
        0 <= i,
        find_card(db, key, i) is Some,
    ensures
        forall|k: int| i <= k < find_card(db, key, i)->0 ==> #[trigger] db[k].card_number != key,
    decreases db.len() - i,
{
    if i < db.len() && db[i].card_number != key {
        lemma_find_card_first(db, key, i + 1);
    }
}

/// After Deck Log lists a card, the database holds a card with its number,
/// and that card is Buzz exactly when the listed kind, trimmed and in lower
/// case, says "buzz", and limited exactly when it says "limited"; its type
/// is the one the kind names, its name in the language is the listed name,
/// and a deck may hold the listed number of it, but at most one oshi.
pub proof fn lemma_listed_card_kind(db: Seq<CardView>, dl: DeckLogCard, language: Language, optimized_original_images: bool)
    ensures
        ({
            let r = decklog_applied(db, dl, language, optimized_original_images);
            find_card(r, dl.card_number@, 0) matches Some(i) && 0 <= i < r.len() && r[i].card_number == dl.card_number@
                && r[i].buzz == contains(lowercase(trim(dl.card_kind@)), "buzz"@) && r[i].limited == contains(
                lowercase(trim(dl.card_kind@)),
                "limited"@,
            ) && r[i].card_type == card_type_from_str(dl.card_kind@) && text_get(r[i].name, language) == Some(
                dl.name@,
            ) && (match language {
                Language::Japanese => r[i].max_amount.0,
                Language::English => r[i].max_amount.1,
            }) == Some(
                if r[i].card_type == CardType::OshiHoloMember && dl.max >= 1 {
                    1u32
                } else {
                    dl.max
                },
            )
        }),
{
    let n = dl.card_number@;
    let img = listed_img(dl, optimized_original_images);
    let db1 = released(db, dl, language);
    let r = decklog_applied(db, dl, language, optimized_original_images);
    lemma_find_card_bounds(db1, n, 0);
    match find_card(db1, n, 0) {
        Some(i) => {
            lemma_find_card_first(db1, n, 0);
            assert(r == db1.update(i, listed_card(db1[i], dl, img, language)));
            lemma_find_card_same_prefix(db1, r, n, 0, i);
        },
        None => {
            lemma_find_card_none_before(db1, n, 0);
            assert(r == db1.push(listed_card(blank_card_view(), dl, img, language)));
            lemma_find_card_same_prefix(r, r, n, 0, db1.len() as int);
        },
    }
}

} // verus!
