//! Cards of the holoDelta simulator: how their data is checked against ours,
//! and which of their art indexes stands for which of our printings.
use vstd::prelude::*;
use crate::text::{chars_of, chars_of_string, eq, push_all, split_once, split_once_str, string_of};
use crate::model::{BloomLevel, CardIllustration, CardIllustrationView, CardType, CardView, Color, SupportType, opt_view, sorted_ids_of, views};
use crate::spreadsheet::{card_views, find_card, find_card_index, lemma_find_card_bounds};
use crate::images::{distance_table, pairs};
use crate::price_check::{PairKey, image_pair_key, lemma_sort_by_pair_key_keeps, pair_entry_view, sort_by_pair_key, sort_pairs};










use vstd::pervasive::VecAdditionalExecFns;



verus! {

/// An art of a holoDelta card.
#[derive(Debug, Clone)]
pub struct Art {
    pub art_index: u32,
    pub cost: String,
    pub damage: u32,
    pub has_effect: bool,
    pub has_plus: bool,
}

/// What holoDelta knows of one art of a card in one language.
#[derive(Debug, Clone, Copy, PartialEq, Eq, Structural)]
pub struct CardArtInfo {
    pub proxy: bool,
    pub unrevealed: bool,
}

/// The art of a card in English and in Japanese.
#[derive(Debug, Clone, Copy, PartialEq, Eq, Structural)]
pub struct CardArtLangs {
    pub en: Option<CardArtInfo>,
    pub ja: Option<CardArtInfo>,
}

/// The color of a holoDelta card: one or several color names.
#[derive(Debug, Clone)]
pub enum CardColor {
    Single(String),
    Multiple(Vec<String>),
}

/// A skill of a holoDelta oshi.
#[derive(Debug, Clone, Copy, PartialEq, Eq, Structural)]
pub struct Skill {
    pub cost: i32,
    pub sp: bool,
}

/// A holoDelta card.
#[derive(Debug, Clone)]
pub struct Card {
    pub arts: Option<Vec<Art>>,
    pub baton_pass_cost: Option<u32>,
    pub buzz: Option<bool>,
    /// The arts of the card by art index.
    pub card_art: Option<Vec<(String, CardArtLangs)>>,
    pub card_limit: Option<i32>,
    pub card_type: Option<String>,
    pub color: Option<CardColor>,
    pub effect: Option<String>,
    pub hp: Option<u32>,
    pub level: Option<i32>,
    pub name: Option<Vec<String>>,
    pub tags: Option<Vec<String>>,
    pub skills: Option<Vec<Skill>>,
    pub support_type: Option<String>,
}

/// A difference between holoDelta's card and ours.
#[derive(Debug, Clone, Copy, PartialEq, Eq, Structural)]
pub enum CardMismatch {
    Number,
    BatonPass,
    Buzz,
    CardLimit,
    CardType,
    Color,
    Hp,
    Level,
}

/// The name holoDelta gives a color.
pub open spec fn color_name(c: Color) -> Seq<char> {
    match c {
        Color::White => "White"@,
        Color::Green => "Green"@,
        Color::Red => "Red"@,
        Color::Blue => "Blue"@,
        Color::Purple => "Purple"@,
        Color::Yellow => "Yellow"@,
        Color::Colorless => "Colorless"@,
    }
}

/// The names of a card's colors, colorless left out.
pub open spec fn color_names(cs: Seq<Color>) -> Seq<Seq<char>>
    decreases cs.len(),
{
    if cs.len() == 0 {
        Seq::empty()
    } else {
        let rest = color_names(cs.drop_last());
        if cs.last() == Color::Colorless {
            rest
        } else {
            rest.push(color_name(cs.last()))
        }
    }
}

/// The color names of a holoDelta card.
pub open spec fn delta_color_names(c: Option<CardColor>) -> Seq<Seq<char>> {
    match c {
        Some(CardColor::Single(s)) => seq![s@],
        Some(CardColor::Multiple(v)) => views(v@),
        None => Seq::empty(),
    }
}

/// The card type and support type holoDelta gives a card type.
pub open spec fn delta_type_names(t: CardType) -> (Option<Seq<char>>, Option<Seq<char>>) {
    match t {
        CardType::OshiHoloMember => (Some("Oshi"@), None),
        CardType::HoloMember => (Some("Holomem"@), None),
        CardType::Support(SupportType::Staff) => (Some("Support"@), Some("Staff"@)),
        CardType::Support(SupportType::Item) => (Some("Support"@), Some("Item"@)),
        CardType::Support(SupportType::Event) => (Some("Support"@), Some("Event"@)),
        CardType::Support(SupportType::Tool) => (Some("Support"@), Some("Tool"@)),
        CardType::Support(SupportType::Mascot) => (Some("Support"@), Some("Mascot"@)),
        CardType::Support(SupportType::Fan) => (Some("Support"@), Some("Fan"@)),
        CardType::Cheer => (Some("Cheer"@), None),
        CardType::Other => (Some("Other"@), None),
    }
}

/// The level holoDelta gives a bloom level.
pub open spec fn delta_level(b: Option<BloomLevel>) -> Option<i32> {
    match b {
        Some(BloomLevel::Debut) => Some(0i32),
        Some(BloomLevel::First) => Some(1i32),
        Some(BloomLevel::Second) => Some(2i32),
        Some(BloomLevel::Spot) => Some(-1i32),
        None => None,
    }
}

/// The number of copies of a card that a banlist allows.
pub open spec fn banlist_get(b: Seq<(Seq<char>, i32)>, k: Seq<char>) -> Option<i32>
    decreases b.len(),
{
    if b.len() == 0 {
        None
    } else if b[0].0 == k {
        Some(b[0].1)
    } else {
        banlist_get(b.drop_first(), k)
    }
}

pub open spec fn or_zero(o: Option<i32>) -> int {
    match o {
        Some(v) => v as int,
        None => 0,
    }
}

/// holoDelta's card limit for a card type: -1 means any number, which is 20
/// for cheers and 50 otherwise; an oshi counts at most 1.
pub open spec fn card_limit_mismatch(
    d: Card,
    number: Seq<char>,
    amount: u32,
    card_type: CardType,
    banlist: Seq<(Seq<char>, i32)>,
) -> bool {
    let a = (amount as i32) as int;
    match card_type {
        CardType::OshiHoloMember => a != (if or_zero(d.card_limit) < 1 {
            or_zero(d.card_limit)
        } else {
            1
        }),
        CardType::Cheer => a != (match d.card_limit {
            Some(l) => if l == -1 {
                20
            } else {
                l as int
            },
            None => 0,
        }),
        _ => a != (match d.card_limit {
            Some(l) => if l == -1 {
                50
            } else {
                l as int
            },
            None => 0,
        }) && a != or_zero(banlist_get(banlist, number)),
    }
}

pub open spec fn push_if(s: Seq<CardMismatch>, b: bool, m: CardMismatch) -> Seq<CardMismatch> {
    if b {
        s.push(m)
    } else {
        s
    }
}

/// The differences between holoDelta's card `d` and ours, in this order:
/// number, baton pass, buzz, card limit, card type, color, HP and level.
pub open spec fn card_mismatches(
    d: Card,
    number: Seq<char>,
    card: CardView,
    banlist: Seq<(Seq<char>, i32)>,
) -> Seq<CardMismatch> {
    let s0 = push_if(Seq::empty(), card.card_number != number, CardMismatch::Number);
    let s1 = push_if(
        s0,
        (card.baton_pass.len() as u32) as int != (match d.baton_pass_cost {
            Some(v) => v as int,
            None => 0,
        }),
        CardMismatch::BatonPass,
    );
    let s2 = push_if(
        s1,
        card.buzz != (match d.buzz {
            Some(b) => b,
            None => false,
        }),
        CardMismatch::Buzz,
    );
    let s3 = push_if(
        s2,
        card_limit_mismatch(d, number, card.max_amount.0->0, card.card_type, banlist),
        CardMismatch::CardLimit,
    );
    let s4 = push_if(
        s3,
        delta_type_names(card.card_type) != (opt_view(d.card_type), opt_view(d.support_type)),
        CardMismatch::CardType,
    );
    let s5 = push_if(s4, color_names(card.colors) != delta_color_names(d.color), CardMismatch::Color);
    let s6 = push_if(
        s5,
        card.hp as int != (match d.hp {
            Some(v) => v as int,
            None => 0,
        }),
        CardMismatch::Hp,
    );
    push_if(s6, delta_level(card.bloom_level) != d.level, CardMismatch::Level)
}

fn push_if_exec(v: &mut Vec<CardMismatch>, b: bool, m: CardMismatch)
    ensures
        final(v)@ == push_if(old(v)@, b, m),
{
    if b {
        v.push(m);
    }
}

fn color_name_exec(c: Color) -> (r: &'static str)
    ensures
        r@ == color_name(c),
{
    match c {
        Color::White => "White",
        Color::Green => "Green",
        Color::Red => "Red",
        Color::Blue => "Blue",
        Color::Purple => "Purple",
        Color::Yellow => "Yellow",
        Color::Colorless => "Colorless",
    }
}

fn colors_differ(cs: &Vec<Color>, d: &Option<CardColor>) -> (r: bool)
    ensures
        r == (color_names(cs@) != delta_color_names(*d)),
{
    let mut names: Vec<String> = Vec::new();
    let mut i: usize = 0;
    while i < cs.len()
        invariant
            i <= cs.len(),
            views(names@) == color_names(cs@.take(i as int)),
        decreases cs.len() - i,
    {
        assert(cs@.take(i + 1).drop_last() == cs@.take(i as int));
        if cs[i] != Color::Colorless {
            let ghost before = names@;
            names.push(String::from_str(color_name_exec(cs[i])));
            assert(views(names@) == views(before).push(color_name(cs@[i as int])));
        }
        i = i + 1;
    }
    assert(cs@.take(i as int) == cs@);
    let other: Vec<String> = match d {
        Some(CardColor::Single(s)) => {
            let mut v: Vec<String> = Vec::new();
            v.push(s.clone());
            assert(views(v@) == seq![s@]);
            v
        },
        Some(CardColor::Multiple(v)) => {
            let mut w: Vec<String> = Vec::new();
            let mut k: usize = 0;
            while k < v.len()
                invariant
                    k <= v.len(),
                    views(w@) == views(v@).take(k as int),
                decreases v.len() - k,
            {
                let ghost before = w@;
                w.push(v[k].clone());
                assert(views(v@).take(k + 1) == views(v@).take(k as int).push(v@[k as int]@));
                assert(views(w@) == views(before).push(v@[k as int]@));
                k = k + 1;
            }
            assert(views(v@).take(k as int) == views(v@));
            w
        },
        None => Vec::new(),
    };
    assert(views(other@) == delta_color_names(*d));
    // compare the two lists
    if names.len() != other.len() {
        assert(views(names@).len() != views(other@).len());
        return true;
    }
    let mut k: usize = 0;
    while k < names.len()
        invariant
            k <= names.len(),
            names.len() == other.len(),
            forall|q: int| 0 <= q < k ==> names@[q]@ == other@[q]@,
            views(names@) == color_names(cs@),
            views(other@) == delta_color_names(*d),
        decreases names.len() - k,
    {
        if !(names[k] == other[k]) {
            assert(views(names@)[k as int] != views(other@)[k as int]);
            return true;
        }
        k = k + 1;
    }
    assert(views(names@) =~= views(other@));
    false
}

fn opt_string_eq_str(o: &Option<String>, s: Option<&str>) -> (r: bool)
    ensures
        r == (opt_view(*o) == match s {
            Some(t) => Some(t@),
            None => None::<Seq<char>>,
        }),
{
    match (o, s) {
        (Some(a), Some(b)) => eq(&chars_of_string(a), &chars_of(b)),
        (None, None) => true,
        _ => false,
    }
}

fn delta_type_names_exec(t: CardType) -> (r: (Option<&'static str>, Option<&'static str>))
    ensures
        (match r.0 {
            Some(a) => Some(a@),
            None => None::<Seq<char>>,
        }, match r.1 {
            Some(b) => Some(b@),
            None => None::<Seq<char>>,
        }) == delta_type_names(t),
{
    match t {
        CardType::OshiHoloMember => (Some("Oshi"), None),
        CardType::HoloMember => (Some("Holomem"), None),
        CardType::Support(SupportType::Staff) => (Some("Support"), Some("Staff")),
        CardType::Support(SupportType::Item) => (Some("Support"), Some("Item")),
        CardType::Support(SupportType::Event) => (Some("Support"), Some("Event")),
        CardType::Support(SupportType::Tool) => (Some("Support"), Some("Tool")),
        CardType::Support(SupportType::Mascot) => (Some("Support"), Some("Mascot")),
        CardType::Support(SupportType::Fan) => (Some("Support"), Some("Fan")),
        CardType::Cheer => (Some("Cheer"), None),
        CardType::Other => (Some("Other"), None),
    }
}

fn banlist_get_exec(b: &Vec<(String, i32)>, k: &String) -> (r: Option<i32>)
    ensures
        r == banlist_get(b@.map_values(|e: (String, i32)| (e.0@, e.1)), k@),
{
    let ghost v = b@.map_values(|e: (String, i32)| (e.0@, e.1));
    let mut i: usize = 0;
    assert(v.skip(0) == v);
    while i < b.len()
        invariant
            i <= b.len(),
            v == b@.map_values(|e: (String, i32)| (e.0@, e.1)),
            banlist_get(v, k@) == banlist_get(v.skip(i as int), k@),
        decreases b.len() - i,
    {
        assert(v.skip(i as int)[0] == v[i as int]);
        assert(v.skip(i as int).drop_first() == v.skip(i + 1));
        if b[i].0 == *k {
            return Some(b[i].1);
        }
        i = i + 1;
    }
    None
}

impl Card {
    /// The differences between this holoDelta card and our card `card` of
    /// number `card_number`; see `card_mismatches`.
    pub fn verify_card(&self, card_number: &String, card: &crate::model::Card, banlist: &Vec<(String, i32)>) -> (r:
        Vec<CardMismatch>)
        requires
            card.max_amount.japanese is Some,
        ensures
            r@ == card_mismatches(
                *self,
                card_number@,
                card@,
                banlist@.map_values(|e: (String, i32)| (e.0@, e.1)),
            ),
    {
        let mut out: Vec<CardMismatch> = Vec::new();
        push_if_exec(&mut out, !(card.card_number == *card_number), CardMismatch::Number);
        let baton = match self.baton_pass_cost {
            Some(v) => v,
            None => 0,
        };
        push_if_exec(&mut out, card.baton_pass.len() as u32 != baton, CardMismatch::BatonPass);
        let buzz = match self.buzz {
            Some(b) => b,
            None => false,
        };
        push_if_exec(&mut out, card.buzz != buzz, CardMismatch::Buzz);
        let amount = match card.max_amount.japanese {
            Some(a) => a,
            None => 0,
        };
        let a: i64 = (amount as i32) as i64;
        let limit: i64 = match self.card_limit {
            Some(l) => l as i64,
            None => 0,
        };
        let limit_mismatch = match card.card_type {
            CardType::OshiHoloMember => a != (if limit < 1 {
                limit
            } else {
                1
            }),
            CardType::Cheer => a != match self.card_limit {
                Some(l) => if l == -1 {
                    20
                } else {
                    l as i64
                },
                None => 0,
            },
            _ => {
                let banned: i64 = match banlist_get_exec(banlist, card_number) {
                    Some(v) => v as i64,
                    None => 0,
                };
                a != match self.card_limit {
                    Some(l) => if l == -1 {
                        50
                    } else {
                        l as i64
                    },
                    None => 0,
                } && a != banned
            },
        };
        push_if_exec(&mut out, limit_mismatch, CardMismatch::CardLimit);
        let (t, st) = delta_type_names_exec(card.card_type);
        let type_mismatch = !(opt_string_eq_str(&self.card_type, t) && opt_string_eq_str(
            &self.support_type,
            st,
        ));
        push_if_exec(&mut out, type_mismatch, CardMismatch::CardType);
        push_if_exec(&mut out, colors_differ(&card.colors, &self.color), CardMismatch::Color);
        let hp = match self.hp {
            Some(v) => v,
            None => 0,
        };
        push_if_exec(&mut out, card.hp != hp, CardMismatch::Hp);
        let level: Option<i32> = match card.bloom_level {
            Some(BloomLevel::Debut) => Some(0),
            Some(BloomLevel::First) => Some(1),
            Some(BloomLevel::Second) => Some(2),
            Some(BloomLevel::Spot) => Some(-1),
            None => None,
        };
        push_if_exec(&mut out, level != self.level, CardMismatch::Level);
        out
    }
}


/// How much further than the best match an image may be to show the same art.
pub const DIST_TOLERANCE: u64 = 100;

/// The database with the holoDelta art index of one printing replaced.
pub open spec fn with_delta_index(db: Seq<CardView>, c: int, i: int, a: Option<u32>) -> Seq<CardView> {
    db.update(
        c,
        CardView {
            illustrations: db[c].illustrations.update(
                i,
                CardIllustrationView { delta_art_index: a, ..db[c].illustrations[i] },
            ),
            ..db[c]
        },
    )
}

/// The database with no holoDelta art index on the printings of card `c`.
pub open spec fn delta_cleared(db: Seq<CardView>, c: int) -> Seq<CardView> {
    db.update(
        c,
        CardView {
            illustrations: db[c].illustrations.map_values(
                |il: CardIllustrationView| CardIllustrationView { delta_art_index: None, ..il },
            ),
            ..db[c]
        },
    )
}

fn set_delta_index(db: &mut Vec<crate::model::Card>, c: usize, i: usize, a: Option<u32>)
    requires
        c < old(db)@.len(),
        i < old(db)@[c as int].illustrations@.len(),
    ensures
        card_views(final(db)@) == with_delta_index(card_views(old(db)@), c as int, i as int, a),
        final(db)@.len() == old(db)@.len(),
        forall|k: int|
            0 <= k < old(db)@.len() ==> (#[trigger] final(db)@[k]).illustrations@.len() == old(
                db,
            )@[k].illustrations@.len(),
{
    let ghost d0 = db@;
    let mut card = crate::model::Card::default();
    db.set_and_swap(c, &mut card);
    let ghost il0 = card.illustrations@;
    let ghost cv0 = card@;
    let mut il = CardIllustration::default();
    card.illustrations.set_and_swap(i, &mut il);
    il.delta_art_index = a;
    let ghost ilv = il@;
    card.illustrations.set(i, il);
    proof {
        assert(card.illustrations@ == il0.update(i as int, il));
        assert(card@.illustrations =~= cv0.illustrations.update(i as int, ilv));
    }
    let ghost cv = card@;
    db.set(c, card);
    proof {
        assert(db@ == d0.update(c as int, card));
        assert(card_views(db@) =~= card_views(d0).update(c as int, cv));
        assert forall|k: int| 0 <= k < d0.len() implies (#[trigger] db@[k]).illustrations@.len()
            == d0[k].illustrations@.len() by {
            if k == c {
                assert(cv.illustrations.len() == card.illustrations@.len());
            }
        }
    }
}

/// The best distance at which each art index was set so far.
pub open spec fn art_best_get(m: Seq<(u32, u64)>, k: u32) -> Option<u64>
    decreases m.len(),
{
    if m.len() == 0 {
        None
    } else if m[0].0 == k {
        Some(m[0].1)
    } else {
        art_best_get(m.drop_first(), k)
    }
}

pub open spec fn art_best_set(m: Seq<(u32, u64)>, k: u32, v: u64) -> Seq<(u32, u64)>
    decreases m.len(),
{
    if m.len() == 0 {
        seq![(k, v)]
    } else if m[0].0 == k {
        m.update(0, (k, v))
    } else {
        seq![m[0]] + art_best_set(m.drop_first(), k, v)
    }
}

/// The cards, the best distance of each art index set, and the number set.
pub type DeltaState = (Seq<CardView>, Seq<(u32, u64)>, nat);

/// One pair (art, printing), best first: a printing without an art index
/// takes the art's unless the art went to a printing that is nearer by more
/// than the tolerance.
pub open spec fn delta_step(st: DeltaState, c: int, arts: Seq<u32>, e: ((int, int), PairKey)) -> DeltaState {
    let (db, best, n) = st;
    let (k, j) = e.0;
    let d = e.1.0;
    let a = arts[k];
    let m: u64 = match art_best_get(best, a) {
        Some(x) => x,
        None => (u64::MAX - DIST_TOLERANCE) as u64,
    };
    if db[c].illustrations[j].delta_art_index is None && m + DIST_TOLERANCE >= d {
        (
            with_delta_index(db, c, j, Some(a)),
            art_best_set(
                best,
                a,
                if d < m {
                    d
                } else {
                    m
                },
            ),
            n + 1,
        )
    } else {
        st
    }
}

pub open spec fn delta_all(st: DeltaState, c: int, arts: Seq<u32>, es: Seq<((int, int), PairKey)>) -> DeltaState
    decreases es.len(),
{
    if es.len() == 0 {
        st
    } else {
        delta_step(delta_all(st, c, arts, es.drop_last()), c, arts, es.last())
    }
}

/// The pairs (art, printing) of card `c` with their keys, before sorting.
pub open spec fn delta_pairs(db: Seq<CardView>, c: int, arts: Seq<u32>, dists: Seq<Vec<u64>>) -> Seq<
    ((int, int), PairKey),
> {
    pairs(arts.len() as int, db[c].illustrations.len() as int).map_values(
        |e: (int, int)| (e, image_pair_key(db[c].illustrations[e.1], dists[e.0]@[e.1])),
    )
}

/// The outcome of matching the arts of card `c`: the art indexes are cleared,
/// then the pairs are taken best first.
pub open spec fn delta_outcome(db: Seq<CardView>, c: int, arts: Seq<u32>, dists: Seq<Vec<u64>>) -> DeltaState {
    let d1 = delta_cleared(db, c);
    delta_all((d1, Seq::empty(), 0), c, arts, sort_by_pair_key(delta_pairs(d1, c, arts, dists)))
}

proof fn lemma_art_best_set_found(m: Seq<(u32, u64)>, k: u32, v: u64, i: int)
    requires
        0 <= i < m.len(),
        m[i].0 == k,
        forall|j: int| 0 <= j < i ==> m[j].0 != k,
    ensures
        art_best_set(m, k, v) == m.update(i, (k, v)),
    decreases i,
{
    if i > 0 {
        lemma_art_best_set_found(m.drop_first(), k, v, i - 1);
        assert(seq![m[0]] + m.drop_first().update(i - 1, (k, v)) =~= m.update(i, (k, v)));
    }
}

proof fn lemma_art_best_set_absent(m: Seq<(u32, u64)>, k: u32, v: u64)
    requires
        forall|j: int| 0 <= j < m.len() ==> m[j].0 != k,
    ensures
        art_best_set(m, k, v) == m.push((k, v)),
    decreases m.len(),
{
    if m.len() > 0 {
        lemma_art_best_set_absent(m.drop_first(), k, v);
        assert(seq![m[0]] + m.drop_first().push((k, v)) =~= m.push((k, v)));
    }
}

fn art_best_lookup(m: &Vec<(u32, u64)>, k: u32) -> (r: (Option<usize>, Option<u64>))
    ensures
        r.1 == art_best_get(m@, k),
        match r.0 {
            Some(i) => i < m@.len() && m@[i as int].0 == k && forall|j: int| 0 <= j < i ==> m@[j].0 != k,
            None => forall|j: int| 0 <= j < m@.len() ==> m@[j].0 != k,
        },
{
    let mut i: usize = 0;
    assert(m@.skip(0) == m@);
    while i < m.len()
        invariant
            i <= m.len(),
            art_best_get(m@, k) == art_best_get(m@.skip(i as int), k),
            forall|j: int| 0 <= j < i ==> m@[j].0 != k,
        decreases m.len() - i,
    {
        assert(m@.skip(i as int)[0] == m@[i as int]);
        assert(m@.skip(i as int).drop_first() == m@.skip(i + 1));
        if m[i].0 == k {
            return (Some(i), Some(m[i].1));
        }
        i = i + 1;
    }
    (None, None)
}

/// Clears the holoDelta art indexes of card `c`, then gives its printings the
/// art indexes `arts` of holoDelta's card by image distance; `dists` gives
/// each art's distance to each printing. Returns the number of indexes set.
pub fn match_delta_arts(db: &mut Vec<crate::model::Card>, c: usize, arts: &Vec<u32>, dists: &Vec<Vec<u64>>) -> (r: usize)
    requires
        c < old(db)@.len(),
        distance_table(dists@, arts@.len() as int, old(db)@[c as int].illustrations@.len() as int),
    ensures
        ({
            let (d1, _best, n) = delta_outcome(card_views(old(db)@), c as int, arts@, dists@);
            &&& card_views(final(db)@) == d1
            &&& r == n
        }),
{
    let ghost d0 = card_views(db@);
    // clear the art indexes of the card
    let mut i: usize = 0;
    proof {
        let il0 = d0[c as int].illustrations;
        assert(Seq::new(
            il0.len(),
            |k: int|
                if k < 0 {
                    CardIllustrationView { delta_art_index: None, ..il0[k] }
                } else {
                    il0[k]
                },
        ) =~= il0);
        assert(d0.update(c as int, CardView { illustrations: il0, ..d0[c as int] }) =~= d0);
    }
    while i < db[c].illustrations.len()
        invariant
            c < db@.len(),
            i <= db@[c as int].illustrations@.len(),
            db@.len() == d0.len(),
            db@[c as int].illustrations@.len() == d0[c as int].illustrations.len(),
            card_views(db@) == d0.update(
                c as int,
                CardView {
                    illustrations: Seq::new(
                        d0[c as int].illustrations.len(),
                        |k: int|
                            if k < i {
                                CardIllustrationView { delta_art_index: None, ..d0[c as int].illustrations[k] }
                            } else {
                                d0[c as int].illustrations[k]
                            },
                    ),
                    ..d0[c as int]
                },
            ),
        decreases db@[c as int].illustrations@.len() - i,
    {
        let ghost before = card_views(db@);
        set_delta_index(db, c, i, None);
        proof {
            assert(card_views(db@) =~= d0.update(
                c as int,
                CardView {
                    illustrations: Seq::new(
                        d0[c as int].illustrations.len(),
                        |k: int|
                            if k < i + 1 {
                                CardIllustrationView { delta_art_index: None, ..d0[c as int].illustrations[k] }
                            } else {
                                d0[c as int].illustrations[k]
                            },
                    ),
                    ..d0[c as int]
                },
            )) by {
                assert(before[c as int].illustrations.update(
                    i as int,
                    CardIllustrationView { delta_art_index: None, ..before[c as int].illustrations[i as int] },
                ) =~= Seq::new(
                    d0[c as int].illustrations.len(),
                    |k: int|
                        if k < i + 1 {
                            CardIllustrationView { delta_art_index: None, ..d0[c as int].illustrations[k] }
                        } else {
                            d0[c as int].illustrations[k]
                        },
                ));
            }
        }
        i = i + 1;
    }
    let ghost d1 = delta_cleared(d0, c as int);
    assert(card_views(db@) =~= d1) by {
        assert(Seq::new(
            d0[c as int].illustrations.len(),
            |k: int|
                if k < i {
                    CardIllustrationView { delta_art_index: None, ..d0[c as int].illustrations[k] }
                } else {
                    d0[c as int].illustrations[k]
                },
        ) =~= d0[c as int].illustrations.map_values(
            |il: CardIllustrationView| CardIllustrationView { delta_art_index: None, ..il },
        ));
    }
    let nl = db[c].illustrations.len();
    // every pair with its key
    let mut entries: Vec<((usize, usize), u64, Option<Vec<u32>>)> = Vec::new();
    let ghost f = |e: (int, int)| (e, image_pair_key(d1[c as int].illustrations[e.1], dists@[e.0]@[e.1]));
    let ghost ev = |e: ((usize, usize), u64, Option<Vec<u32>>)| pair_entry_view(e);
    let mut k: usize = 0;
    while k < arts.len()
        invariant
            k <= arts.len(),
            d1 == card_views(db@),
            c < db@.len(),
            nl == db@[c as int].illustrations@.len(),
            distance_table(dists@, arts@.len() as int, nl as int),
            f == (|e: (int, int)| (e, image_pair_key(d1[c as int].illustrations[e.1], dists@[e.0]@[e.1]))),
            ev == (|e: ((usize, usize), u64, Option<Vec<u32>>)| pair_entry_view(e)),
            entries@.map_values(ev) == pairs(k as int, nl as int).map_values(f),
            forall|q: int| 0 <= q < entries@.len() ==> (#[trigger] entries@[q]).0.0 < arts@.len() && entries@[q].0.1 < nl,
        decreases arts.len() - k,
    {
        let mut j: usize = 0;
        while j < nl
            invariant
                k < arts.len(),
                j <= nl,
                d1 == card_views(db@),
                c < db@.len(),
                nl == db@[c as int].illustrations@.len(),
                distance_table(dists@, arts@.len() as int, nl as int),
                f == (|e: (int, int)| (e, image_pair_key(d1[c as int].illustrations[e.1], dists@[e.0]@[e.1]))),
                ev == (|e: ((usize, usize), u64, Option<Vec<u32>>)| pair_entry_view(e)),
                entries@.map_values(ev) == pairs(k as int, nl as int).map_values(f) + Seq::new(
                    j as nat,
                    |jj: int| (k as int, jj),
                ).map_values(f),
                forall|q: int| 0 <= q < entries@.len() ==> (#[trigger] entries@[q]).0.0 < arts@.len() && entries@[q].0.1 < nl,
            decreases nl - j,
        {
            assert(d1[c as int] == db@[c as int]@);
            let il = &db[c].illustrations[j];
            assert(d1[c as int].illustrations[j as int] == il@);
            let ids = match &il.manage_id.japanese {
                Some(set) => Some(sorted_ids_of(set)),
                None => None,
            };
            let d = dists[k][j];
            assert(dists@[k as int]@[j as int] == d);
            let e = ((k, j), d, ids);
            assert(ev(e) == f((k as int, j as int)));
            let ghost before = entries@;
            entries.push(e);
            proof {
                assert(entries@.map_values(ev) == before.map_values(ev).push(ev(e)));
                assert(Seq::new((j + 1) as nat, |jj: int| (k as int, jj)).map_values(f) =~= Seq::new(
                    j as nat,
                    |jj: int| (k as int, jj),
                ).map_values(f).push(f((k as int, j as int))));
            }
            j = j + 1;
        }
        proof {
            assert(pairs(k + 1, nl as int) == pairs(k as int, nl as int) + Seq::new(nl as nat, |jj: int| (k as int, jj)));
            assert(pairs(k + 1, nl as int).map_values(f) =~= pairs(k as int, nl as int).map_values(f) + Seq::new(
                nl as nat,
                |jj: int| (k as int, jj),
            ).map_values(f));
        }
        k = k + 1;
    }
    let ghost ip = delta_pairs(d1, c as int, arts@, dists@);
    assert(entries@.map_values(ev) == ip);
    let ghost na = arts@.len();
    proof {
        assert forall|q: int| 0 <= q < ip.len() implies (#[trigger] ip[q]).0.0 < na && 0 <= ip[q].0.0
            && 0 <= ip[q].0.1 < nl by {
            assert(ip[q] == ev(entries@[q]));
        }
        lemma_sort_by_pair_key_keeps(ip, |e: ((int, int), PairKey)| 0 <= e.0.0 < na && 0 <= e.0.1 < nl);
    }
    let sorted = sort_pairs(entries);
    let ghost sv = sort_by_pair_key(ip);
    let mut best: Vec<(u32, u64)> = Vec::new();
    let mut n: usize = 0;
    let ghost init: DeltaState = (d1, Seq::empty(), 0);
    let mut m: usize = 0;
    while m < sorted.len()
        invariant
            m <= sorted.len(),
            n <= m,
            sorted@.map_values(ev) == sv,
            ev == (|e: ((usize, usize), u64, Option<Vec<u32>>)| pair_entry_view(e)),
            c < db@.len(),
            nl == db@[c as int].illustrations@.len(),
            forall|q: int| 0 <= q < sv.len() ==> (#[trigger] sv[q]).0.0 < na && 0 <= sv[q].0.0 && 0 <= sv[q].0.1 < nl,
            na == arts@.len(),
            init == (d1, Seq::<(u32, u64)>::empty(), 0nat),
            delta_all(init, c as int, arts@, sv.take(m as int)) == (card_views(db@), best@, n as nat),
        decreases sorted.len() - m,
    {
        let ((k, j), d, _) = &sorted[m];
        let (k, j, d) = (*k, *j, *d);
        assert(sv[m as int] == ev(sorted@[m as int]));
        proof {
            assert(sv.take(m + 1).drop_last() == sv.take(m as int));
            assert(sv.take(m + 1).last() == sv[m as int]);
        }
        let a = arts[k];
        let ghost st = delta_all(init, c as int, arts@, sv.take(m as int));
        assert(card_views(db@)[c as int] == db@[c as int]@);
        assert(card_views(db@)[c as int].illustrations[j as int] == db@[c as int].illustrations@[j as int]@);
        let (pos, found) = art_best_lookup(&best, a);
        let mn: u64 = match found {
            Some(x) => x,
            None => u64::MAX - DIST_TOLERANCE,
        };
        let close = d <= DIST_TOLERANCE || mn >= d - DIST_TOLERANCE;
        if db[c].illustrations[j].delta_art_index.is_none() && close {
            set_delta_index(db, c, j, Some(a));
            let v = if d < mn {
                d
            } else {
                mn
            };
            match pos {
                Some(p) => {
                    proof {
                        lemma_art_best_set_found(best@, a, v, p as int);
                    }
                    best.set(p, (a, v));
                },
                None => {
                    proof {
                        lemma_art_best_set_absent(best@, a, v);
                    }
                    best.push((a, v));
                },
            }
            n = n + 1;
        }
        m = m + 1;
    }
    assert(sv.take(m as int) == sv);
    n
}


/// The art indexes of a holoDelta card that have a Japanese image.
pub open spec fn ja_art_indexes(arts: Option<Vec<(String, CardArtLangs)>>) -> Seq<Seq<char>> {
    match arts {
        Some(v) => v@.filter(|e: (String, CardArtLangs)| e.1.ja is Some).map_values(
            |e: (String, CardArtLangs)| e.0@,
        ),
        None => Seq::empty(),
    }
}

impl Card {
    /// The number of arts of the card.
    pub fn art_count(&self) -> (r: usize)
        ensures
            r == match self.card_art {
                Some(v) => v@.len(),
                None => 0,
            },
    {
        match &self.card_art {
            Some(v) => v.len(),
            None => 0,
        }
    }

    /// The art indexes of the card that have a Japanese image, in order.
    pub fn ja_art_indexes(&self) -> (r: Vec<String>)
        ensures
            views(r@) == ja_art_indexes(self.card_art),
    {
        let mut out: Vec<String> = Vec::new();
        match &self.card_art {
            Some(v) => {
                let ghost f = |e: (String, CardArtLangs)| e.1.ja is Some;
                let ghost g = |e: (String, CardArtLangs)| e.0@;
                let mut i: usize = 0;
                while i < v.len()
                    invariant
                        i <= v.len(),
                        f == (|e: (String, CardArtLangs)| e.1.ja is Some),
                        g == (|e: (String, CardArtLangs)| e.0@),
                        views(out@) == v@.take(i as int).filter(f).map_values(g),
                    decreases v.len() - i,
                {
                    proof {
                        assert(v@.take(i + 1) == v@.take(i as int).push(v@[i as int]));
                        v@.take(i as int).lemma_filter_push(v@[i as int], f);
                    }
                    if v[i].1.ja.is_some() {
                        let ghost before = out@;
                        out.push(v[i].0.clone());
                        assert(views(out@) == views(before).push(g(v@[i as int])));
                        assert(v@.take(i + 1).filter(f).map_values(g) =~= v@.take(i as int).filter(f).map_values(g).push(g(v@[i as int])));
                    }
                    i = i + 1;
                }
                assert(v@.take(i as int) == v@);
            },
            None => {},
        }
        out
    }
}

/// The path of the Japanese image of art `idx` of card `<set>-<num>` in the
/// holoDelta repository.
pub open spec fn delta_image_path(card_number: Seq<char>, idx: Seq<char>) -> Seq<char> {
    let (set, num) = split_once(card_number, "-"@)->0;
    "cardFronts\\"@ + set + "\\ja\\"@ + num + "\\"@ + idx + ".webp"@
}

/// The path of the Japanese image of an art of a card; the card number has
/// a `-` between set and number.
pub fn delta_image_path_of(card_number: &String, idx: &String) -> (r: String)
    requires
        split_once(card_number@, "-"@) is Some,
    ensures
        r@ == delta_image_path(card_number@, idx@),
{
    match split_once_str(&chars_of_string(card_number), "-") {
        Some((set, num)) => {
            let mut v = chars_of("cardFronts\\");
            push_all(&mut v, &set);
            push_all(&mut v, &chars_of("\\ja\\"));
            push_all(&mut v, &num);
            push_all(&mut v, &chars_of("\\"));
            push_all(&mut v, &chars_of_string(idx));
            push_all(&mut v, &chars_of(".webp"));
            string_of(&v)
        },
        None => String::new(),
    }
}


// ---------------------------------------------------------------------------
// a whole import
// ---------------------------------------------------------------------------
/// A holoDelta card for the import: its number, the art indexes that have a
/// Japanese image, and each art image's distance to each printing of our
/// card of that number.
pub open spec fn delta_entry_view(e: (String, Vec<u32>, Vec<Vec<u64>>)) -> (Seq<char>, Seq<u32>, Seq<Vec<u64>>) {
    (e.0@, e.1@, e.2@)
}

/// One holoDelta card: our card of its number gets its art indexes, when
/// there is one and the distances fit its printings; other cards are left
/// as they are. Also the number of indexes set.
pub open spec fn delta_run_step(db: Seq<CardView>, e: (Seq<char>, Seq<u32>, Seq<Vec<u64>>)) -> (Seq<CardView>, nat) {
    match find_card(db, e.0, 0) {
        Some(c) => if distance_table(e.2, e.1.len() as int, db[c].illustrations.len() as int) {
            let (d1, _b, n) = delta_outcome(db, c, e.1, e.2);
            (d1, n)
        } else {
            (db, 0)
        },
        None => (db, 0),
    }
}

/// The holoDelta cards in turn, with the number of indexes set for each.
pub open spec fn delta_run(db: Seq<CardView>, es: Seq<(Seq<char>, Seq<u32>, Seq<Vec<u64>>)>) -> (Seq<CardView>, Seq<nat>)
    decreases es.len(),
{
    if es.len() == 0 {
        (db, Seq::empty())
    } else {
        let (d, ns) = delta_run(db, es.drop_last());
        let (d2, n) = delta_run_step(d, es.last());
        (d2, ns.push(n))
    }
}

/// Matching the arts of one card changes no other card.
proof fn lemma_delta_all_others(st: DeltaState, c: int, arts: Seq<u32>, es: Seq<((int, int), PairKey)>, i: int)
    requires
        0 <= c < st.0.len(),
        0 <= i < st.0.len(),
        i != c,
    ensures
        delta_all(st, c, arts, es).0.len() == st.0.len(),
        delta_all(st, c, arts, es).0[i] == st.0[i],
    decreases es.len(),
{
    if es.len() > 0 {
        lemma_delta_all_others(st, c, arts, es.drop_last(), i);
    }
}

/// A holoDelta import changes only the cards whose numbers holoDelta has:
/// every other card is left as it was, and no card is added or removed.
pub proof fn lemma_delta_run_untouched(db: Seq<CardView>, es: Seq<(Seq<char>, Seq<u32>, Seq<Vec<u64>>)>, i: int)
    requires
        0 <= i < db.len(),
        forall|k: int| 0 <= k < es.len() ==> (#[trigger] es[k]).0 != db[i].card_number,
    ensures
        delta_run(db, es).0.len() == db.len(),
        delta_run(db, es).0[i] == db[i],
    decreases es.len(),
{
    if es.len() > 0 {
        let pre = es.drop_last();
        assert forall|k: int| 0 <= k < pre.len() implies (#[trigger] pre[k]).0 != db[i].card_number by {
            assert(pre[k] == es[k]);
        }
        lemma_delta_run_untouched(db, pre, i);
        let d = delta_run(db, pre).0;
        let e = es.last();
        assert(e == es[es.len() - 1]);
        lemma_find_card_bounds(d, e.0, 0);
        match find_card(d, e.0, 0) {
            Some(c) => {
                if distance_table(e.2, e.1.len() as int, d[c].illustrations.len() as int) {
                    assert(c != i);
                    let d1 = delta_cleared(d, c);
                    assert(d1[i] == d[i]);
                    lemma_delta_all_others((d1, Seq::empty(), 0), c, e.1, sort_by_pair_key(delta_pairs(d1, c, e.1, e.2)), i);
                }
            },
            None => {},
        }
    }
}

/// Imports holoDelta's art indexes card by card (see `delta_run`); returns
/// the number of indexes set for each holoDelta card.
pub fn import_delta_arts(db: &mut Vec<crate::model::Card>, entries: &Vec<(String, Vec<u32>, Vec<Vec<u64>>)>) -> (r: Vec<usize>)
    ensures
        ({
            let (d, ns) = delta_run(card_views(old(db)@), entries@.map_values(|e: (String, Vec<u32>, Vec<Vec<u64>>)| delta_entry_view(e)));
            &&& card_views(final(db)@) == d
            &&& r@.map_values(|n: usize| n as nat) == ns
        }),
{
    let ghost d0 = card_views(db@);
    let ghost ev = entries@.map_values(|e: (String, Vec<u32>, Vec<Vec<u64>>)| delta_entry_view(e));
    let mut out: Vec<usize> = Vec::new();
    let mut k: usize = 0;
    assert(ev.take(0) =~= Seq::<(Seq<char>, Seq<u32>, Seq<Vec<u64>>)>::empty());
    assert(out@.map_values(|n: usize| n as nat) =~= Seq::<nat>::empty());
    while k < entries.len()
        invariant
            k <= entries.len(),
            ev == entries@.map_values(|e: (String, Vec<u32>, Vec<Vec<u64>>)| delta_entry_view(e)),
            delta_run(d0, ev.take(k as int)) == (card_views(db@), out@.map_values(|n: usize| n as nat)),
        decreases entries.len() - k,
    {
        assert(ev.take(k + 1).drop_last() =~= ev.take(k as int));
        assert(ev.take(k + 1).last() == ev[k as int]);
        assert(ev[k as int] == delta_entry_view(entries@[k as int]));
        let e = &entries[k];
        let ghost dk = card_views(db@);
        proof {
            lemma_find_card_bounds(dk, e.0@, 0);
        }
        let mut n: usize = 0;
        match find_card_index(db, &e.0) {
            Some(c) => {
                let m = db[c].illustrations.len();
                let mut fits = e.2.len() == e.1.len();
                let mut q: usize = 0;
                while fits && q < e.2.len()
                    invariant
                        q <= e.2.len(),
                        fits ==> forall|t: int| 0 <= t < q ==> (#[trigger] e.2@[t])@.len() == m,
                        fits ==> e.2@.len() == e.1@.len(),
                        !fits ==> !distance_table(e.2@, e.1@.len() as int, m as int),
                    decreases e.2.len() - q,
                {
                    if e.2[q].len() != m {
                        fits = false;
                    }
                    q = q + 1;
                }
                assert(dk[c as int].illustrations.len() == m);
                if fits {
                    n = match_delta_arts(db, c, &e.1, &e.2);
                }
            },
            None => {},
        }
        let ghost before = out@;
        out.push(n);
        assert(out@.map_values(|n: usize| n as nat) =~= before.map_values(|n: usize| n as nat).push(n as nat));
        k = k + 1;
    }
    assert(ev.take(k as int) =~= ev);
    out
}

} // verus!
