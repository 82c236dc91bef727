//! Image hashes of card printings: their textual form, and how two of them
//! compare component by component.
//!
//! A hash reads `version|KEY=value|KEY=value...`. The `H32` component is a
//! perceptual hash in base64; the `*CYM` components are average colors as
//! six hex digits. Two hashes compare only when their versions agree, and
//! then only on the components that both hold in a readable form.
use image_hasher::ImageHash;
use vstd::prelude::*;
use crate::text::{chars_of, chars_of_string, contains, eq, find, join, join_chars, lemma_find_is, occurs_at, push_all, split, split_char, split_once, split_once_str, string_of};
use crate::model::{CardIllustration, CardIllustrationView, Color, opt_view};
use crate::images::{DIST_TOLERANCE_DIFF_RARITY, DIST_TOLERANCE_SAME_RARITY};






verus! {

/// A component of an image hash.
#[derive(Debug, Clone, Copy, PartialEq, Eq, Structural)]
pub enum HashComponent {
    FullImageHash,
    FullImageCym,
    ArtBoxCym,
    EmblemCym,
    AltOshiLifeCym,
}

/// The key a component is written under.
pub open spec fn component_key(c: HashComponent) -> Seq<char> {
    match c {
        HashComponent::FullImageHash => "H32"@,
        HashComponent::FullImageCym => "CYM"@,
        HashComponent::ArtBoxCym => "A_CYM"@,
        HashComponent::EmblemCym => "E_CYM"@,
        HashComponent::AltOshiLifeCym => "L_CYM"@,
    }
}

/// The components hashed for a card: two for every card, more for the two
/// printings that differ from others of their card only in details.
pub open spec fn components_for(card_number: Seq<char>) -> Seq<HashComponent> {
    if card_number == "hBP01-007"@ {
        seq![
            HashComponent::FullImageHash,
            HashComponent::FullImageCym,
            HashComponent::EmblemCym,
            HashComponent::AltOshiLifeCym,
        ]
    } else if card_number == "hBP01-104"@ {
        seq![HashComponent::FullImageHash, HashComponent::FullImageCym, HashComponent::ArtBoxCym]
    } else {
        seq![HashComponent::FullImageHash, HashComponent::FullImageCym]
    }
}

/// Every component, in the order hashes are compared.
pub open spec fn all_components() -> Seq<HashComponent> {
    seq![
        HashComponent::FullImageHash,
        HashComponent::FullImageCym,
        HashComponent::ArtBoxCym,
        HashComponent::EmblemCym,
        HashComponent::AltOshiLifeCym,
    ]
}

impl HashComponent {
    /// The key the component is written under.
    pub fn format_key(&self) -> (r: &'static str)
        ensures
            r@ == component_key(*self),
    {
        match self {
            HashComponent::FullImageHash => "H32",
            HashComponent::FullImageCym => "CYM",
            HashComponent::ArtBoxCym => "A_CYM",
            HashComponent::EmblemCym => "E_CYM",
            HashComponent::AltOshiLifeCym => "L_CYM",
        }
    }

    /// The components hashed for a card.
    pub fn component_list(card_number: &str) -> (r: Vec<HashComponent>)
        ensures
            r@ == components_for(card_number@),
    {
        let n = chars_of(card_number);
        let mut list = vec![HashComponent::FullImageHash, HashComponent::FullImageCym];
        if eq(&n, &chars_of("hBP01-007")) {
            list.push(HashComponent::EmblemCym);
            list.push(HashComponent::AltOshiLifeCym);
        } else if eq(&n, &chars_of("hBP01-104")) {
            list.push(HashComponent::ArtBoxCym);
        }
        assert(list@ =~= components_for(card_number@));
        list
    }

    /// Every component, in the order hashes are compared.
    pub fn full_component_list() -> (r: Vec<HashComponent>)
        ensures
            r@ == all_components(),
    {
        let r = vec![
            HashComponent::FullImageHash,
            HashComponent::FullImageCym,
            HashComponent::ArtBoxCym,
            HashComponent::EmblemCym,
            HashComponent::AltOshiLifeCym,
        ];
        assert(r@ =~= all_components());
        r
    }
}

// ---------------------------------------------------------------------------
// the textual form
// ---------------------------------------------------------------------------
/// The key under which a hash's first part, its version, is read.
pub open spec fn version_key() -> Seq<char> {
    "version"@
}

pub open spec fn entry_text(e: (Seq<char>, Seq<char>)) -> Seq<char> {
    e.0 + "="@ + e.1
}

/// `version|k1=v1|k2=v2...`.
pub open spec fn components_text(version: Seq<char>, entries: Seq<(Seq<char>, Seq<char>)>) -> Seq<char> {
    version + "|"@ + join(Seq::new(entries.len(), |k: int| entry_text(entries[k])), "|"@)
}

pub open spec fn entry_views(es: Seq<(String, String)>) -> Seq<(Seq<char>, Seq<char>)> {
    Seq::new(es.len(), |k: int| (es[k].0@, es[k].1@))
}

/// Writes a hash from its version and its components.
pub fn format_components(version: &str, map: &Vec<(String, String)>) -> (r: String)
    ensures
        r@ == components_text(version@, entry_views(map@)),
{
    let ghost ev = entry_views(map@);
    let mut parts: Vec<Vec<char>> = Vec::new();
    let mut k: usize = 0;
    while k < map.len()
        invariant
            k <= map.len(),
            ev == entry_views(map@),
            parts@.len() == k,
            forall|j: int| 0 <= j < k ==> #[trigger] parts@[j]@ == entry_text(ev[j]),
        decreases map.len() - k,
    {
        let mut p = chars_of_string(&map[k].0);
        push_all(&mut p, &chars_of("="));
        push_all(&mut p, &chars_of_string(&map[k].1));
        parts.push(p);
        k = k + 1;
    }
    let joined = join_chars(&parts, &chars_of("|"));
    assert(parts@.map_values(|p: Vec<char>| p@) =~= Seq::new(ev.len(), |j: int| entry_text(ev[j])));
    let mut out = chars_of(version);
    push_all(&mut out, &chars_of("|"));
    push_all(&mut out, &joined);
    string_of(&out)
}

/// The entries of a hash's parts: the first is the version, each other one
/// must read `key=value`.
pub open spec fn part_entries(parts: Seq<Seq<char>>) -> Option<Seq<(Seq<char>, Seq<char>)>>
    decreases parts.len(),
{
    if parts.len() == 0 {
        Some(Seq::empty())
    } else {
        match part_entries(parts.drop_last()) {
            None => None,
            Some(es) => if parts.len() == 1 {
                Some(es.push((version_key(), parts[0])))
            } else {
                match split_once(parts.last(), "="@) {
                    Some(kv) => Some(es.push(kv)),
                    None => None,
                }
            },
        }
    }
}

/// The entries of a hash, in order; none when a part has no `=`.
pub open spec fn components_of(s: Seq<char>) -> Option<Seq<(Seq<char>, Seq<char>)>> {
    part_entries(split(s, "|"@))
}

/// The value of the last entry with key `k`: a later entry overrides an
/// earlier one.
pub open spec fn entries_get(es: Seq<(Seq<char>, Seq<char>)>, k: Seq<char>) -> Option<Seq<char>>
    decreases es.len(),
{
    if es.len() == 0 {
        None
    } else if es.last().0 == k {
        Some(es.last().1)
    } else {
        entries_get(es.drop_last(), k)
    }
}

proof fn lemma_part_entries_none(parts: Seq<Seq<char>>, j: int)
    requires
        0 <= j <= parts.len(),
        part_entries(parts.take(j)) is None,
    ensures
        part_entries(parts) is None,
    decreases parts.len() - j,
{
    if j == parts.len() {
        assert(parts.take(j) =~= parts);
    } else {
        assert(parts.take(j + 1).drop_last() =~= parts.take(j));
        lemma_part_entries_none(parts, j + 1);
    }
}

/// Reads a hash into its entries, the version first.
pub fn parse_components(s: &str) -> (r: Option<Vec<(String, String)>>)
    ensures
        match r {
            Some(es) => components_of(s@) == Some(entry_views(es@)),
            None => components_of(s@) is None,
        },
{
    let parts = split_char(&chars_of(s), '|');
    proof {
        reveal_strlit("|");
        assert("|"@ =~= seq!['|']);
    }
    let ghost pv = split(s@, "|"@);
    assert(parts@.len() == pv.len());
    let mut es: Vec<(String, String)> = Vec::new();
    let mut i: usize = 0;
    while i < parts.len()
        invariant
            i <= parts.len(),
            parts@.len() == pv.len(),
            pv == split(s@, "|"@),
            forall|k: int| 0 <= k < parts@.len() ==> #[trigger] parts@[k]@ == pv[k],
            part_entries(pv.take(i as int)) == Some(entry_views(es@)),
        decreases parts.len() - i,
    {
        assert(pv.take(i + 1).drop_last() =~= pv.take(i as int));
        assert(pv.take(i + 1).last() == parts@[i as int]@);
        if i == 0 {
            proof {
                reveal_strlit("version");
            }
            es.push((String::from_str("version"), string_of(&parts[0])));
            assert(entry_views(es@) =~= Seq::<(Seq<char>, Seq<char>)>::empty().push((version_key(), pv[0])));
        } else {
            match split_once_str(&parts[i], "=") {
                Some((k, v)) => {
                    let ghost e0 = entry_views(es@);
                    es.push((string_of(&k), string_of(&v)));
                    assert(entry_views(es@) =~= e0.push((k@, v@)));
                },
                None => {
                    proof {
                        lemma_part_entries_none(pv, i + 1);
                    }
                    return None;
                },
            }
        }
        i = i + 1;
    }
    assert(pv.take(i as int) =~= pv);
    Some(es)
}

/// The value of the last entry with key `k`.
pub fn component_value(es: &Vec<(String, String)>, k: &str) -> (r: Option<String>)
    ensures
        opt_view(r) == entries_get(entry_views(es@), k@),
{
    let ghost ev = entry_views(es@);
    let key = chars_of(k);
    let mut j: usize = es.len();
    assert(ev.take(j as int) =~= ev);
    while j > 0
        invariant
            j <= es.len(),
            ev == entry_views(es@),
            key@ == k@,
            entries_get(ev, k@) == entries_get(ev.take(j as int), k@),
        decreases j,
    {
        assert(ev.take(j as int).drop_last() =~= ev.take(j - 1));
        assert(ev.take(j as int).last() == ev[j - 1]);
        if eq(&chars_of_string(&es[j - 1].0), &key) {
            return Some(es[j - 1].1.clone());
        }
        j = j - 1;
    }
    None
}

// ---------------------------------------------------------------------------
// comparing two hashes
// ---------------------------------------------------------------------------
/// The number of bits in which two perceptual hashes, written in base64,
/// differ; none when either text is not a hash.
pub uninterp spec fn hash_bit_distance(a: Seq<char>, b: Seq<char>) -> Option<u32>;

/// `image_hasher::ImageHash::from_base64` on both texts, then
/// `ImageHash::dist` on the two hashes: the Hamming distance of their bits.
/// The contract names the result; it says nothing of which texts decode.
#[verifier::external_body]
fn hash_bits_apart(a: &str, b: &str) -> (r: Option<u32>)
    ensures
        r == hash_bit_distance(a@, b@),
{
    match (ImageHash::<Box<[u8]>>::from_base64(a), ImageHash::<Box<[u8]>>::from_base64(b)) {
        (Ok(x), Ok(y)) => Some(x.dist(&y)),
        _ => None,
    }
}

/// The value of a hex digit.
pub open spec fn hex_value(c: char) -> Option<u8> {
    if '0' <= c && c <= '9' {
        Some((c as u32 - '0' as u32) as u8)
    } else if 'a' <= c && c <= 'f' {
        Some((c as u32 - 'a' as u32 + 10) as u8)
    } else if 'A' <= c && c <= 'F' {
        Some((c as u32 - 'A' as u32 + 10) as u8)
    } else {
        None
    }
}

/// A byte written as two hex digits, as `u8::from_str_radix` reads it: a
/// leading `+` may stand for the first digit.
pub open spec fn hex_byte(a: char, b: char) -> Option<u8> {
    if a == '+' {
        hex_value(b)
    } else {
        match (hex_value(a), hex_value(b)) {
            (Some(x), Some(y)) => Some((x * 16 + y) as u8),
            _ => None,
        }
    }
}

/// An average color written as `CCYYMM` in hex.
pub open spec fn cym_of(s: Seq<char>) -> Option<(u8, u8, u8)> {
    if s.len() == 6 {
        match (hex_byte(s[0], s[1]), hex_byte(s[2], s[3]), hex_byte(s[4], s[5])) {
            (Some(c), Some(y), Some(m)) => Some((c, y, m)),
            _ => None,
        }
    } else {
        None
    }
}

fn hex_value_of(c: char) -> (r: Option<u8>)
    ensures
        r == hex_value(c),
{
    if '0' <= c && c <= '9' {
        Some((c as u32 - '0' as u32) as u8)
    } else if 'a' <= c && c <= 'f' {
        Some((c as u32 - 'a' as u32 + 10) as u8)
    } else if 'A' <= c && c <= 'F' {
        Some((c as u32 - 'A' as u32 + 10) as u8)
    } else {
        None
    }
}

fn hex_byte_of(a: char, b: char) -> (r: Option<u8>)
    ensures
        r == hex_byte(a, b),
{
    if a == '+' {
        hex_value_of(b)
    } else {
        match (hex_value_of(a), hex_value_of(b)) {
            (Some(x), Some(y)) => Some(x * 16 + y),
            _ => None,
        }
    }
}

/// Reads an average color written as `CCYYMM` in hex.
pub fn parse_cym(s: &String) -> (r: Option<(u8, u8, u8)>)
    ensures
        r == cym_of(s@),
{
    let v = chars_of_string(s);
    if v.len() == 6 {
        match (hex_byte_of(v[0], v[1]), hex_byte_of(v[2], v[3]), hex_byte_of(v[4], v[5])) {
            (Some(c), Some(y), Some(m)) => Some((c, y, m)),
            _ => None,
        }
    } else {
        None
    }
}

/// How two hashes differ in one component.
#[derive(Debug, Clone, Copy, PartialEq, Eq, Structural)]
pub enum ComponentDelta {
    /// The perceptual hashes differ in `bits` bits.
    HashBits { component: HashComponent, bits: u32 },
    /// The average colors differ by these amounts of cyan, yellow and magenta.
    Color { component: HashComponent, dc: i16, dy: i16, dm: i16 },
}

/// How two hashes' entries differ in a component, when both hold it readably.
pub open spec fn component_delta(
    c: HashComponent,
    e1: Seq<(Seq<char>, Seq<char>)>,
    e2: Seq<(Seq<char>, Seq<char>)>,
) -> Option<ComponentDelta> {
    match (entries_get(e1, component_key(c)), entries_get(e2, component_key(c))) {
        (Some(a), Some(b)) => if c == HashComponent::FullImageHash {
            match hash_bit_distance(a, b) {
                Some(d) => Some(ComponentDelta::HashBits { component: c, bits: d }),
                None => None,
            }
        } else {
            match (cym_of(a), cym_of(b)) {
                (Some((c1, y1, m1)), Some((c2, y2, m2))) => Some(
                    ComponentDelta::Color {
                        component: c,
                        dc: (c1 - c2) as i16,
                        dy: (y1 - y2) as i16,
                        dm: (m1 - m2) as i16,
                    },
                ),
                _ => None,
            }
        },
        _ => None,
    }
}

/// The differences in the components `cs` that both hashes hold readably, in order.
pub open spec fn deltas_over(
    cs: Seq<HashComponent>,
    e1: Seq<(Seq<char>, Seq<char>)>,
    e2: Seq<(Seq<char>, Seq<char>)>,
) -> Seq<ComponentDelta>
    decreases cs.len(),
{
    if cs.len() == 0 {
        Seq::empty()
    } else {
        let rest = deltas_over(cs.drop_last(), e1, e2);
        match component_delta(cs.last(), e1, e2) {
            Some(d) => rest.push(d),
            None => rest,
        }
    }
}

/// How two hashes differ: none when either is unreadable or their versions
/// differ; else the differences in every component both hold readably.
pub open spec fn hash_deltas(h1: Seq<char>, h2: Seq<char>) -> Option<Seq<ComponentDelta>> {
    match (components_of(h1), components_of(h2)) {
        (Some(e1), Some(e2)) => if entries_get(e1, version_key()) is Some && entries_get(e1, version_key())
            == entries_get(e2, version_key()) {
            Some(deltas_over(all_components(), e1, e2))
        } else {
            None
        },
        _ => None,
    }
}

fn component_delta_of(c: HashComponent, e1: &Vec<(String, String)>, e2: &Vec<(String, String)>) -> (r: Option<ComponentDelta>)
    ensures
        r == component_delta(c, entry_views(e1@), entry_views(e2@)),
{
    let key = c.format_key();
    match (component_value(e1, key), component_value(e2, key)) {
        (Some(a), Some(b)) => if c == HashComponent::FullImageHash {
            match hash_bits_apart(a.as_str(), b.as_str()) {
                Some(d) => Some(ComponentDelta::HashBits { component: c, bits: d }),
                None => None,
            }
        } else {
            match (parse_cym(&a), parse_cym(&b)) {
                (Some((c1, y1, m1)), Some((c2, y2, m2))) => Some(
                    ComponentDelta::Color {
                        component: c,
                        dc: c1 as i16 - c2 as i16,
                        dy: y1 as i16 - y2 as i16,
                        dm: m1 as i16 - m2 as i16,
                    },
                ),
                _ => None,
            }
        },
        _ => None,
    }
}

/// Compares two hashes component by component.
pub fn component_deltas(h1: &str, h2: &str) -> (r: Option<Vec<ComponentDelta>>)
    ensures
        match r {
            Some(v) => hash_deltas(h1@, h2@) == Some(v@),
            None => hash_deltas(h1@, h2@) is None,
        },
{
    let e1 = match parse_components(h1) {
        Some(e) => e,
        None => {
            return None;
        },
    };
    let e2 = match parse_components(h2) {
        Some(e) => e,
        None => {
            return None;
        },
    };
    proof {
        reveal_strlit("version");
    }
    match (component_value(&e1, "version"), component_value(&e2, "version")) {
        (Some(v1), Some(v2)) => {
            if !(v1 == v2) {
                return None;
            }
        },
        _ => {
            return None;
        },
    }
    let cs = HashComponent::full_component_list();
    let mut out: Vec<ComponentDelta> = Vec::new();
    let mut i: usize = 0;
    while i < cs.len()
        invariant
            i <= cs.len(),
            cs@ == all_components(),
            out@ == deltas_over(cs@.take(i as int), entry_views(e1@), entry_views(e2@)),
        decreases cs.len() - i,
    {
        assert(cs@.take(i + 1).drop_last() =~= cs@.take(i as int));
        match component_delta_of(cs[i], &e1, &e2) {
            Some(d) => out.push(d),
            None => {},
        }
        i = i + 1;
    }
    assert(cs@.take(i as int) =~= cs@);
    Some(out)
}

// ---------------------------------------------------------------------------
// merging printings by their hashes
// ---------------------------------------------------------------------------
/// Two printings may be merged at a hash distance of `dist`: where both
/// carry Deck Log ids in a language their images must be identical, and the
/// distance must be within the tolerance, a wider one for printings of the
/// same rarity (manual crops).
pub open spec fn merge_allowed(into: CardIllustrationView, from: CardIllustrationView, same_rarity: bool, dist: u64) -> bool {
    let id_clash = (into.manage_id.0 is Some && from.manage_id.0 is Some) || (into.manage_id.1 is Some
        && from.manage_id.1 is Some);
    !(id_clash && dist != 0) && dist <= (if same_rarity {
        DIST_TOLERANCE_SAME_RARITY
    } else {
        DIST_TOLERANCE_DIFF_RARITY
    })
}

/// Whether `from` may be merged into `into`, their hashes being `dist` apart.
pub fn can_merge(into: &CardIllustration, from: &CardIllustration, same_rarity: bool, dist: u64) -> (r: bool)
    ensures
        r == merge_allowed(into@, from@, same_rarity, dist),
{
    if into.manage_id.japanese.is_some() && from.manage_id.japanese.is_some() && dist != 0 {
        return false;
    }
    if into.manage_id.english.is_some() && from.manage_id.english.is_some() && dist != 0 {
        return false;
    }
    dist <= if same_rarity {
        DIST_TOLERANCE_SAME_RARITY
    } else {
        DIST_TOLERANCE_DIFF_RARITY
    }
}

// ---------------------------------------------------------------------------
// reading back what was written
// ---------------------------------------------------------------------------
/// The first occurrence of a one-character separator after a part without it.
proof fn lemma_find_after(a: Seq<char>, c: char, b: Seq<char>)
    requires
        !a.contains(c),
    ensures
        find(a + seq![c] + b, seq![c]) == Some(a.len() as int),
        (a + seq![c] + b).take(a.len() as int) == a,
        (a + seq![c] + b).skip(a.len() as int + 1) == b,
{
    let s = a + seq![c] + b;
    assert(s.subrange(a.len() as int, a.len() as int + 1) =~= seq![c]);
    assert forall|j: int| 0 <= j < a.len() implies !occurs_at(s, seq![c], j) by {
        if occurs_at(s, seq![c], j) {
            assert(s.subrange(j, j + 1)[0] == s[j]);
            assert(a[j] == c);
        }
    }
    lemma_find_is(s, seq![c], a.len() as int);
    assert(s.take(a.len() as int) =~= a);
    assert(s.skip(a.len() as int + 1) =~= b);
}

/// A text without the separator is not split.
proof fn lemma_find_none(a: Seq<char>, c: char)
    requires
        !a.contains(c),
    ensures
        find(a, seq![c]) is None,
{
    if contains(a, seq![c]) {
        let i = choose|i: int| occurs_at(a, seq![c], i);
        assert(a.subrange(i, i + 1)[0] == a[i]);
    }
}

/// Joining parts that hold no separator: the first part, the separator, the rest joined.
proof fn lemma_join_front(ps: Seq<Seq<char>>, sep: Seq<char>)
    requires
        ps.len() >= 2,
    ensures
        join(ps, sep) == ps[0] + sep + join(ps.drop_first(), sep),
    decreases ps.len(),
{
    if ps.len() == 2 {
        assert(ps.drop_last() =~= seq![ps[0]]);
        assert(ps.drop_first() =~= seq![ps[1]]);
        assert(join(ps.drop_last(), sep) == ps[0]);
        assert(join(ps.drop_first(), sep) == ps[1]);
        assert(join(ps, sep) =~= ps[0] + sep + ps[1]);
    } else {
        lemma_join_front(ps.drop_last(), sep);
        assert(ps.drop_last().drop_first() =~= ps.drop_first().drop_last());
        assert(ps.drop_first().last() == ps.last());
        assert(join(ps, sep) =~= ps[0] + sep + join(ps.drop_first(), sep));
    }
}

/// Splitting joined parts that hold no separator gives the parts back.
proof fn lemma_split_join(ps: Seq<Seq<char>>, c: char)
    requires
        ps.len() >= 1,
        forall|k: int| 0 <= k < ps.len() ==> !(#[trigger] ps[k]).contains(c),
    ensures
        split(join(ps, seq![c]), seq![c]) == ps,
    decreases ps.len(),
{
    if ps.len() == 1 {
        lemma_find_none(ps[0], c);
        assert(split(ps[0], seq![c]) =~= ps);
    } else {
        lemma_join_front(ps, seq![c]);
        let rest = ps.drop_first();
        lemma_split_join(rest, c);
        lemma_find_after(ps[0], c, join(rest, seq![c]));
        assert(split(join(ps, seq![c]), seq![c]) =~= seq![ps[0]] + rest);
        assert(seq![ps[0]] + rest =~= ps);
    }
}

/// The parts of a text written by `format_components`.
pub open spec fn written_parts(version: Seq<char>, entries: Seq<(Seq<char>, Seq<char>)>) -> Seq<Seq<char>> {
    seq![version] + Seq::new(entries.len(), |k: int| entry_text(entries[k]))
}

proof fn lemma_part_entries_written(version: Seq<char>, entries: Seq<(Seq<char>, Seq<char>)>)
    requires
        forall|k: int| 0 <= k < entries.len() ==> !(#[trigger] entries[k]).0.contains('='),
    ensures
        part_entries(written_parts(version, entries)) == Some(seq![(version_key(), version)] + entries),
    decreases entries.len(),
{
    let ps = written_parts(version, entries);
    if entries.len() == 0 {
        assert(ps =~= seq![version]);
        assert(ps.drop_last() =~= Seq::<Seq<char>>::empty());
        assert(part_entries(ps.drop_last()) == Some(Seq::<(Seq<char>, Seq<char>)>::empty()));
        assert(seq![(version_key(), version)] + entries =~= seq![(version_key(), version)]);
        assert(Seq::<(Seq<char>, Seq<char>)>::empty().push((version_key(), version)) =~= seq![(version_key(), version)]);
    } else {
        let e = entries.last();
        lemma_part_entries_written(version, entries.drop_last());
        assert(ps.drop_last() =~= written_parts(version, entries.drop_last()));
        assert(ps.last() == entry_text(e));
        assert(!e.0.contains('='));
        lemma_find_after(e.0, '=', e.1);
        assert("="@ =~= seq!['=']) by {
            reveal_strlit("=");
        }
        assert(entry_text(e) == e.0 + seq!['='] + e.1);
        assert(split_once(ps.last(), "="@) == Some((e.0, e.1)));
        assert(ps.len() >= 2);
        assert(seq![(version_key(), version)] + entries =~= (seq![(version_key(), version)] + entries.drop_last()).push(e));
    }
}

/// A hash written by `format_components` reads back as its version and its
/// components, when the version and the values hold no `|` and the keys
/// hold neither `|` nor `=`, and there is at least one component.
pub proof fn lemma_components_round_trip(version: Seq<char>, entries: Seq<(Seq<char>, Seq<char>)>)
    requires
        entries.len() > 0,
        !version.contains('|'),
        forall|k: int|
            0 <= k < entries.len() ==> !(#[trigger] entries[k]).0.contains('|') && !entries[k].0.contains('=')
                && !entries[k].1.contains('|'),
    ensures
        components_of(components_text(version, entries)) == Some(seq![(version_key(), version)] + entries),
{
    let ts = Seq::new(entries.len(), |k: int| entry_text(entries[k]));
    assert("|"@ =~= seq!['|']) by {
        reveal_strlit("|");
    }
    assert("="@ =~= seq!['=']) by {
        reveal_strlit("=");
    }
    let ps = written_parts(version, entries);
    assert forall|k: int| 0 <= k < ps.len() implies !(#[trigger] ps[k]).contains('|') by {
        if k > 0 {
            let e = entries[k - 1];
            assert(ps[k] == e.0 + seq!['='] + e.1);
            if ps[k].contains('|') {
                let j = choose|j: int| 0 <= j < ps[k].len() && ps[k][j] == '|';
                if j < e.0.len() {
                    assert(e.0[j] == '|');
                } else if j > e.0.len() {
                    assert(e.1[j - e.0.len() - 1] == '|');
                }
            }
        }
    }
    lemma_join_front(ps, seq!['|']);
    assert(ps.drop_first() =~= ts);
    assert(components_text(version, entries) == join(ps, seq!['|']));
    lemma_split_join(ps, '|');
    lemma_part_entries_written(version, entries);
}


/// When to merge two printings `dist` apart: printings that both carry Deck
/// Log ids in a language merge only when their images are identical; others
/// within 100 (138 for printings of the same rarity), and never beyond.
pub proof fn lemma_merge_allowed(into: CardIllustrationView, from: CardIllustrationView, same_rarity: bool, dist: u64)
    ensures
        (into.manage_id.0 is Some && from.manage_id.0 is Some) || (into.manage_id.1 is Some && from.manage_id.1 is Some)
            ==> (merge_allowed(into, from, same_rarity, dist) == (dist == 0)),
        !((into.manage_id.0 is Some && from.manage_id.0 is Some) || (into.manage_id.1 is Some
            && from.manage_id.1 is Some)) ==> (merge_allowed(into, from, same_rarity, dist) == (dist <= if same_rarity {
            138u64
        } else {
            100u64
        })),
{
}

} // verus!
