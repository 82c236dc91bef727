//! The card model: languages, localized values, card kinds, powers and cells.
use std::collections::BTreeSet;
use vstd::prelude::*;
use crate::text::{all_digits, ascii_lowercase, chars_of, chars_of_string, contains, contains_str, decimal, decimal_chars, ends_with, ends_with_str, eq, eq_ignore_ascii_case, eq_ignore_ascii_case_chars, is_digit, lemma_decimal_digits, lemma_parse_decimal, lemma_split_nonempty, lowercase, parse_u32, parse_u32_chars, parse_uint, parse_uint_chars, push_all, split, split_char, string_of, to_lowercase, trim_end_matches, trim_end_matches_chars, trim_start_matches, trim_start_matches_chars};
use vstd::std_specs::btree::{increasing_seq, spec_btree_keys_iter};
use vstd::std_specs::iter::IteratorSpec;
use vstd::std_specs::cmp::OrdSpec;






verus! {

broadcast use vstd::std_specs::btree::group_btree_axioms;

/// A result of comparing two values.
#[derive(Debug, Clone, Copy, PartialEq, Eq, Structural)]
pub enum Order {
    Less,
    Equal,
    Greater,
}

/// The order of `a` and `b` from their ranks.
pub open spec fn compare_int(a: int, b: int) -> Order {
    if a < b {
        Order::Less
    } else if a == b {
        Order::Equal
    } else {
        Order::Greater
    }
}

pub fn compare_u64(a: u64, b: u64) -> (r: Order)
    ensures
        r == compare_int(a as int, b as int),
{
    if a < b {
        Order::Less
    } else if a == b {
        Order::Equal
    } else {
        Order::Greater
    }
}

/// Lexicographic order of character sequences, by code point (the order of `String`).
pub open spec fn text_order(a: Seq<char>, b: Seq<char>) -> Order
    decreases a.len(),
{
    if a.len() == 0 {
        if b.len() == 0 {
            Order::Equal
        } else {
            Order::Less
        }
    } else if b.len() == 0 {
        Order::Greater
    } else if a[0] < b[0] {
        Order::Less
    } else if a[0] > b[0] {
        Order::Greater
    } else {
        text_order(a.drop_first(), b.drop_first())
    }
}

/// The reverse of an order.
pub open spec fn flip(o: Order) -> Order {
    match o {
        Order::Less => Order::Greater,
        Order::Equal => Order::Equal,
        Order::Greater => Order::Less,
    }
}

/// Every text is equal to itself.
pub proof fn lemma_text_order_reflexive(a: Seq<char>)
    ensures
        text_order(a, a) == Order::Equal,
    decreases a.len(),
{
    if a.len() > 0 {
        lemma_text_order_reflexive(a.drop_first());
    }
}

/// Swapping two texts reverses their order.
pub proof fn lemma_text_order_antisymmetric(a: Seq<char>, b: Seq<char>)
    ensures
        text_order(a, b) == flip(text_order(b, a)),
    decreases a.len(),
{
    if a.len() > 0 && b.len() > 0 && a[0] == b[0] {
        lemma_text_order_antisymmetric(a.drop_first(), b.drop_first());
    }
}

/// Three comparisons that a transitive order allows: when `a` is not after
/// `b` and `b` not after `c`, `a` is before `c` if either step is strict,
/// and equal to it otherwise.
pub open spec fn order_chain(ab: Order, bc: Order, ac: Order) -> bool {
    (ab != Order::Greater && bc != Order::Greater) ==> if ab == Order::Less || bc == Order::Less {
        ac == Order::Less
    } else {
        ac == Order::Equal
    }
}

/// The order of texts is transitive.
pub proof fn lemma_text_order_chain(a: Seq<char>, b: Seq<char>, c: Seq<char>)
    ensures
        order_chain(text_order(a, b), text_order(b, c), text_order(a, c)),
    decreases a.len(),
{
    if a.len() > 0 && b.len() > 0 && c.len() > 0 && a[0] == b[0] && b[0] == c[0] {
        lemma_text_order_chain(a.drop_first(), b.drop_first(), c.drop_first());
    }
}

/// Compares two character sequences the way `String`'s `Ord` does.
pub fn compare_text(a: &Vec<char>, b: &Vec<char>) -> (r: Order)
    ensures
        r == text_order(a@, b@),
{
    let mut i: usize = 0;
    assert(a@.skip(0) == a@);
    assert(b@.skip(0) == b@);
    while i < a.len() && i < b.len() && a[i] == b[i]
        invariant
            i <= a.len(),
            i <= b.len(),
            text_order(a@, b@) == text_order(a@.skip(i as int), b@.skip(i as int)),
        decreases a.len() - i,
    {
        assert(a@.skip(i as int).drop_first() == a@.skip(i + 1));
        assert(b@.skip(i as int).drop_first() == b@.skip(i + 1));
        i = i + 1;
    }
    assert(i < a.len() ==> a@.skip(i as int)[0] == a@[i as int]);
    assert(i < b.len() ==> b@.skip(i as int)[0] == b@[i as int]);
    let ghost sa = a@.skip(i as int);
    let ghost sb = b@.skip(i as int);
    if i == a.len() {
        assert(sa.len() == 0);
        if i == b.len() {
            assert(sb.len() == 0);
            Order::Equal
        } else {
            Order::Less
        }
    } else if i == b.len() {
        assert(sb.len() == 0);
        Order::Greater
    } else if a[i] < b[i] {
        assert(sa[0] < sb[0]);
        Order::Less
    } else {
        assert(a@[i as int] != b@[i as int]);
        assert(sa[0] > sb[0]);
        Order::Greater
    }
}

/// The language of a card release.
#[derive(Debug, Clone, Copy, PartialEq, Eq, Structural)]
pub enum Language {
    Japanese,
    English,
}

/// A value that may exist in Japanese, in English, or in both.
#[derive(Debug, Clone)]
pub struct Localized<T> {
    pub japanese: Option<T>,
    pub english: Option<T>,
}

impl<T> Localized<T> {
    /// The value in `language`.
    pub open spec fn get(self, language: Language) -> Option<T> {
        match language {
            Language::Japanese => self.japanese,
            Language::English => self.english,
        }
    }

    /// `self` with the value in `language` replaced by `v`.
    pub open spec fn with(self, language: Language, v: Option<T>) -> Self {
        match language {
            Language::Japanese => Localized { japanese: v, english: self.english },
            Language::English => Localized { japanese: self.japanese, english: v },
        }
    }

    pub fn new(language: Language, value: T) -> (r: Self)
        ensures
            r == (Localized { japanese: None::<T>, english: None::<T> }).with(
                language,
                Some(value),
            ),
    {
        match language {
            Language::Japanese => Localized::jp(value),
            Language::English => Localized::en(value),
        }
    }

    pub fn both(jp: T, en: T) -> (r: Self)
        ensures
            r.japanese == Some(jp),
            r.english == Some(en),
    {
        Localized { japanese: Some(jp), english: Some(en) }
    }

    pub fn jp(jp: T) -> (r: Self)
        ensures
            r.japanese == Some(jp),
            r.english.is_none(),
    {
        Localized { japanese: Some(jp), english: None }
    }

    pub fn en(en: T) -> (r: Self)
        ensures
            r.japanese.is_none(),
            r.english == Some(en),
    {
        Localized { japanese: None, english: Some(en) }
    }

    pub fn value(&self, language: Language) -> (r: &Option<T>)
        ensures
            *r == self.get(language),
    {
        match language {
            Language::Japanese => &self.japanese,
            Language::English => &self.english,
        }
    }

    pub fn value_mut(&mut self, language: Language) -> (r: &mut Option<T>)
        ensures
            *r == old(self).get(language),
            *final(self) == old(self).with(language, *final(r)),
    {
        match language {
            Language::Japanese => &mut self.japanese,
            Language::English => &mut self.english,
        }
    }

    /// Replaces the value in `language`.
    pub fn set(&mut self, language: Language, v: Option<T>)
        ensures
            *final(self) == old(self).with(language, v),
    {
        match language {
            Language::Japanese => self.japanese = v,
            Language::English => self.english = v,
        }
    }

    pub fn has_value(&self) -> (r: bool)
        ensures
            r == (self.japanese.is_some() || self.english.is_some()),
    {
        self.japanese.is_some() || self.english.is_some()
    }

    pub fn empty() -> (r: Self)
        ensures
            r.japanese.is_none(),
            r.english.is_none(),
    {
        Localized { japanese: None, english: None }
    }
}

/// The order key of an optional text: present values first, in text order.
pub open spec fn opt_text_order(a: Option<Seq<char>>, b: Option<Seq<char>>) -> Order {
    match (a, b) {
        (Some(x), Some(y)) => text_order(x, y),
        (Some(_), None) => Order::Less,
        (None, Some(_)) => Order::Greater,
        (None, None) => Order::Equal,
    }
}

pub open spec fn opt_view(o: Option<String>) -> Option<Seq<char>> {
    match o {
        Some(s) => Some(s@),
        None => None,
    }
}

impl Localized<String> {
    /// The Japanese and English texts.
    pub open spec fn texts(self) -> (Option<Seq<char>>, Option<Seq<char>>) {
        (opt_view(self.japanese), opt_view(self.english))
    }

    /// The order of localized texts: by Japanese, then English, where a
    /// missing text comes after any present one.
    pub open spec fn spec_order(self, other: Self) -> Order {
        let c = opt_text_order(opt_view(self.japanese), opt_view(other.japanese));
        if c != Order::Equal {
            c
        } else {
            opt_text_order(opt_view(self.english), opt_view(other.english))
        }
    }

    pub fn compare_localized(&self, other: &Self) -> (r: Order)
        ensures
            r == self.spec_order(*other),
    {
        let c = compare_opt_string(&self.japanese, &other.japanese);
        if c != Order::Equal {
            c
        } else {
            compare_opt_string(&self.english, &other.english)
        }
    }
}

pub fn compare_opt_string(a: &Option<String>, b: &Option<String>) -> (r: Order)
    ensures
        r == opt_text_order(opt_view(*a), opt_view(*b)),
{
    match (a, b) {
        (Some(x), Some(y)) => {
            let xv = chars_of_string(x);
            let yv = chars_of_string(y);
            compare_text(&xv, &yv)
        },
        (Some(_), None) => Order::Less,
        (None, Some(_)) => Order::Greater,
        (None, None) => Order::Equal,
    }
}

/// A copy of an optional string.
pub fn copy_opt_string(o: &Option<String>) -> (r: Option<String>)
    ensures
        r == *o,
{
    match o {
        Some(s) => Some(s.clone()),
        None => None,
    }
}

/// A copy of a localized text.
pub fn copy_localized(l: &Localized<String>) -> (r: Localized<String>)
    ensures
        r == *l,
{
    Localized { japanese: copy_opt_string(&l.japanese), english: copy_opt_string(&l.english) }
}

/// The kind of support card.
#[derive(Debug, Clone, Copy, PartialEq, Eq, Structural)]
pub enum SupportType {
    Staff,
    Item,
    Event,
    Tool,
    Mascot,
    Fan,
}

/// The kind of card.
#[derive(Debug, Clone, Copy, PartialEq, Eq, Structural)]
pub enum CardType {
    OshiHoloMember,
    HoloMember,
    Support(SupportType),
    Cheer,
    Other,
}

impl Default for CardType {
    fn default() -> (r: Self)
        ensures
            r == CardType::Other,
    {
        CardType::Other
    }
}

pub open spec fn support_rank(s: SupportType) -> int {
    match s {
        SupportType::Staff => 0,
        SupportType::Item => 1,
        SupportType::Event => 2,
        SupportType::Tool => 3,
        SupportType::Mascot => 4,
        SupportType::Fan => 5,
    }
}

/// The rank of a card type in declaration order, support kinds inside supports.
pub open spec fn card_type_rank(t: CardType) -> int {
    match t {
        CardType::OshiHoloMember => 0,
        CardType::HoloMember => 10,
        CardType::Support(s) => 20 + support_rank(s),
        CardType::Cheer => 30,
        CardType::Other => 40,
    }
}

pub fn card_type_rank_of(t: CardType) -> (r: u64)
    ensures
        r == card_type_rank(t),
{
    match t {
        CardType::OshiHoloMember => 0,
        CardType::HoloMember => 10,
        CardType::Support(s) => 20 + match s {
            SupportType::Staff => 0,
            SupportType::Item => 1,
            SupportType::Event => 2,
            SupportType::Tool => 3,
            SupportType::Mascot => 4,
            SupportType::Fan => 5,
        },
        CardType::Cheer => 30,
        CardType::Other => 40,
    }
}

/// A card color.
#[derive(Debug, Clone, Copy, PartialEq, Eq, Structural)]
pub enum Color {
    White,
    Green,
    Red,
    Blue,
    Purple,
    Yellow,
    Colorless,
}

pub open spec fn color_rank(c: Color) -> int {
    match c {
        Color::White => 0,
        Color::Green => 1,
        Color::Red => 2,
        Color::Blue => 3,
        Color::Purple => 4,
        Color::Yellow => 5,
        Color::Colorless => 6,
    }
}

pub fn color_rank_of(c: Color) -> (r: u64)
    ensures
        r == color_rank(c),
{
    match c {
        Color::White => 0,
        Color::Green => 1,
        Color::Red => 2,
        Color::Blue => 3,
        Color::Purple => 4,
        Color::Yellow => 5,
        Color::Colorless => 6,
    }
}

/// A bloom level of a holomem.
#[derive(Debug, Clone, Copy, PartialEq, Eq, Structural)]
pub enum BloomLevel {
    Debut,
    First,
    Second,
    Spot,
}

pub open spec fn bloom_rank(b: BloomLevel) -> int {
    match b {
        BloomLevel::Debut => 0,
        BloomLevel::First => 1,
        BloomLevel::Second => 2,
        BloomLevel::Spot => 3,
    }
}

/// The kind of an oshi skill.
#[derive(Debug, Clone, Copy, PartialEq, Eq, Structural)]
pub enum OshiSkillKind {
    Normal,
    Special,
    Stage,
}

impl Default for OshiSkillKind {
    fn default() -> (r: Self)
        ensures
            r == OshiSkillKind::Normal,
    {
        OshiSkillKind::Normal
    }
}

/// The kind of a keyword effect.
#[derive(Debug, Clone, Copy, PartialEq, Eq, Structural)]
pub enum KeywordEffect {
    Collab,
    Bloom,
    Gift,
    Other,
}

impl Default for KeywordEffect {
    fn default() -> (r: Self)
        ensures
            r == KeywordEffect::Other,
    {
        KeywordEffect::Other
    }
}

/// The failure to read a number from text.
#[derive(Debug, Clone, Copy, PartialEq, Eq, Structural)]
pub struct ParseNumberError;

/// The holo power cost of an oshi skill.
#[derive(Debug, Clone, Copy, PartialEq, Eq, Structural)]
pub enum HoloPower {
    X,
    Basic(u32),
}

/// How a holo power is read from text.
pub open spec fn parse_holo_power(s: Seq<char>) -> Option<HoloPower> {
    if eq_ignore_ascii_case(s, "x"@) {
        Some(HoloPower::X)
    } else {
        match parse_u32(s) {
            Some(n) => Some(HoloPower::Basic(n)),
            None => None,
        }
    }
}

/// How a holo power is written as text.
pub open spec fn holo_power_text(p: HoloPower) -> Seq<char> {
    match p {
        HoloPower::Basic(n) => decimal(n as nat),
        HoloPower::X => "x"@,
    }
}

impl HoloPower {
    /// Reads a holo power: `x` in any case, or a number.
    pub fn try_from_text(value: &str) -> (r: Result<HoloPower, ParseNumberError>)
        ensures
            match r {
                Ok(p) => parse_holo_power(value@) == Some(p),
                Err(_) => parse_holo_power(value@).is_none(),
            },
    {
        let v = chars_of(value);
        Self::parse_chars(&v)
    }

    pub fn parse_chars(v: &Vec<char>) -> (r: Result<HoloPower, ParseNumberError>)
        ensures
            match r {
                Ok(p) => parse_holo_power(v@) == Some(p),
                Err(_) => parse_holo_power(v@).is_none(),
            },
    {
        let x = chars_of("x");
        if eq_ignore_ascii_case_chars(v, &x) {
            Ok(HoloPower::X)
        } else {
            match parse_u32_chars(v) {
                Some(n) => Ok(HoloPower::Basic(n)),
                None => Err(ParseNumberError),
            }
        }
    }

    /// Writes a holo power: the number, or `x`.
    pub fn to_text(&self) -> (r: String)
        ensures
            r@ == holo_power_text(*self),
    {
        match self {
            HoloPower::Basic(n) => {
                let d = decimal_chars(*n as u64);
                string_of(&d)
            },
            HoloPower::X => String::from_str("x"),
        }
    }
}

/// The damage of an art.
#[derive(Debug, Clone, Copy, PartialEq, Eq, Structural)]
pub enum ArtPower {
    Basic(u32),
    Plus(u32),
    Minus(u32),
    Multiple(u32),
    Uncertain,
}

impl Default for ArtPower {
    fn default() -> (r: Self)
        ensures
            r == ArtPower::Uncertain,
    {
        ArtPower::Uncertain
    }
}

/// How an art power is read from text.
pub open spec fn parse_art_power(s: Seq<char>) -> Option<ArtPower> {
    if s == "?"@ {
        Some(ArtPower::Uncertain)
    } else if ends_with(s, "+"@) {
        match parse_u32(trim_end_matches(s, "+"@)) {
            Some(n) => Some(ArtPower::Plus(n)),
            None => None,
        }
    } else if ends_with(s, "-"@) {
        match parse_u32(trim_end_matches(s, "-"@)) {
            Some(n) => Some(ArtPower::Minus(n)),
            None => None,
        }
    } else if ends_with(s, "x"@) {
        match parse_u32(trim_end_matches(s, "x"@)) {
            Some(n) => Some(ArtPower::Multiple(n)),
            None => None,
        }
    } else {
        match parse_u32(s) {
            Some(n) => Some(ArtPower::Basic(n)),
            None => None,
        }
    }
}

/// How an art power is written as text.
pub open spec fn art_power_text(p: ArtPower) -> Seq<char> {
    match p {
        ArtPower::Basic(n) => decimal(n as nat),
        ArtPower::Plus(n) => decimal(n as nat) + "+"@,
        ArtPower::Minus(n) => decimal(n as nat) + "-"@,
        ArtPower::Multiple(n) => decimal(n as nat) + "x"@,
        ArtPower::Uncertain => "?"@,
    }
}

fn parse_u32_or_error(v: &Vec<char>) -> (r: Result<u32, ParseNumberError>)
    ensures
        match r {
            Ok(n) => parse_u32(v@) == Some(n),
            Err(_) => parse_u32(v@).is_none(),
        },
{
    match parse_u32_chars(v) {
        Some(n) => Ok(n),
        None => Err(ParseNumberError),
    }
}

impl ArtPower {
    /// Reads an art power: `?`, or a number with an optional `+`, `-` or `x` after it.
    pub fn try_from_text(value: &str) -> (r: Result<ArtPower, ParseNumberError>)
        ensures
            match r {
                Ok(p) => parse_art_power(value@) == Some(p),
                Err(_) => parse_art_power(value@).is_none(),
            },
    {
        let v = chars_of(value);
        Self::parse_chars(&v)
    }

    pub fn parse_chars(v: &Vec<char>) -> (r: Result<ArtPower, ParseNumberError>)
        ensures
            match r {
                Ok(p) => parse_art_power(v@) == Some(p),
                Err(_) => parse_art_power(v@).is_none(),
            },
    {
        let q = chars_of("?");
        if eq(v, &q) {
            Ok(ArtPower::Uncertain)
        } else if ends_with_str(v, "+") {
            let n = parse_u32_or_error(&trim_end_matches_chars(v, "+"))?;
            Ok(ArtPower::Plus(n))
        } else if ends_with_str(v, "-") {
            let n = parse_u32_or_error(&trim_end_matches_chars(v, "-"))?;
            Ok(ArtPower::Minus(n))
        } else if ends_with_str(v, "x") {
            let n = parse_u32_or_error(&trim_end_matches_chars(v, "x"))?;
            Ok(ArtPower::Multiple(n))
        } else {
            let n = parse_u32_or_error(v)?;
            Ok(ArtPower::Basic(n))
        }
    }

    /// Writes an art power: the number and its suffix, or `?`.
    pub fn to_text(&self) -> (r: String)
        ensures
            r@ == art_power_text(*self),
    {
        match self {
            ArtPower::Basic(n) => string_of(&decimal_chars(*n as u64)),
            ArtPower::Plus(n) => {
                let mut d = decimal_chars(*n as u64);
                push_all(&mut d, &chars_of("+"));
                string_of(&d)
            },
            ArtPower::Minus(n) => {
                let mut d = decimal_chars(*n as u64);
                push_all(&mut d, &chars_of("-"));
                string_of(&d)
            },
            ArtPower::Multiple(n) => {
                let mut d = decimal_chars(*n as u64);
                push_all(&mut d, &chars_of("x"));
                string_of(&d)
            },
            ArtPower::Uncertain => String::from_str("?"),
        }
    }
}


/// Writing a holo power and reading it back gives the same holo power.
pub proof fn lemma_holo_power_round_trip(p: HoloPower)
    ensures
        parse_holo_power(holo_power_text(p)) == Some(p),
{
    reveal_strlit("x");
    match p {
        HoloPower::X => {
            assert(ascii_lowercase("x"@) == "x"@);
        },
        HoloPower::Basic(n) => {
            lemma_decimal_digits(n as nat);
            lemma_parse_decimal(n as nat, u32::MAX as nat);
            let d = decimal(n as nat);
            if eq_ignore_ascii_case(d, "x"@) {
                assert(ascii_lowercase(d)[0] == ascii_lowercase("x"@)[0]);
                assert(is_digit(d[0]));
            }
        },
    }
}

/// Removing a suffix that a number does not end with leaves it unchanged.
pub proof fn lemma_trim_suffix_of_number(n: nat, c: char)
    requires
        !is_digit(c),
    ensures
        trim_end_matches(decimal(n) + seq![c], seq![c]) == decimal(n),
        ends_with(decimal(n) + seq![c], seq![c]),
{
    let d = decimal(n);
    lemma_decimal_digits(n);
    let s = d + seq![c];
    assert(s.subrange(s.len() - 1, s.len() as int) == seq![c]);
    assert(s.take(s.len() - 1) == d);
    assert(!ends_with(d, seq![c])) by {
        if ends_with(d, seq![c]) {
            assert(d.subrange(d.len() - 1, d.len() as int)[0] == d[d.len() - 1]);
            assert(is_digit(d[d.len() - 1]));
        }
    }
    assert(ends_with(s, seq![c]));
    assert(trim_end_matches(s, seq![c]) == trim_end_matches(d, seq![c]));
    assert(trim_end_matches(d, seq![c]) == d);
}

/// Writing an art power and reading it back gives the same art power.
pub proof fn lemma_art_power_round_trip(p: ArtPower)
    ensures
        parse_art_power(art_power_text(p)) == Some(p),
{
    reveal_strlit("?");
    reveal_strlit("+");
    reveal_strlit("-");
    reveal_strlit("x");
    assert("+"@ == seq!['+']);
    assert("-"@ == seq!['-']);
    assert("x"@ == seq!['x']);
    match p {
        ArtPower::Uncertain => {
            assert(art_power_text(p) == "?"@);
            assert(parse_art_power("?"@) == Some(ArtPower::Uncertain));
            assert(p == ArtPower::Uncertain);
            assert(parse_art_power(art_power_text(p)) == Some(p));
        },
        ArtPower::Basic(n) => {
            let d = decimal(n as nat);
            lemma_decimal_digits(n as nat);
            lemma_parse_decimal(n as nat, u32::MAX as nat);
            assert(d != "?"@) by {
                if d == "?"@ {
                    assert(is_digit(d[0]));
                }
            }
            assert(!ends_with(d, "+"@) && !ends_with(d, "-"@) && !ends_with(d, "x"@)) by {
                let l = d.len() - 1;
                assert(is_digit(d[l]));
                if ends_with(d, "+"@) || ends_with(d, "-"@) || ends_with(d, "x"@) {
                    assert(d.subrange(l, d.len() as int)[0] == d[l]);
                }
            }
            assert(parse_art_power(art_power_text(p)) == Some(p));
        },
        ArtPower::Plus(n) => {
            lemma_art_suffix(n as nat, '+');
            assert(parse_art_power(art_power_text(p)) == Some(p));
        },
        ArtPower::Minus(n) => {
            lemma_art_suffix(n as nat, '-');
            assert(!ends_with(decimal(n as nat) + "-"@, "+"@)) by {
                let s = decimal(n as nat) + "-"@;
                if ends_with(s, "+"@) {
                    assert(s.subrange(s.len() - 1, s.len() as int)[0] == s[s.len() - 1]);
                }
            }
        },
        ArtPower::Multiple(n) => {
            lemma_art_suffix(n as nat, 'x');
            let s = decimal(n as nat) + "x"@;
            assert(!ends_with(s, "+"@) && !ends_with(s, "-"@)) by {
                if ends_with(s, "+"@) || ends_with(s, "-"@) {
                    assert(s.subrange(s.len() - 1, s.len() as int)[0] == s[s.len() - 1]);
                }
            }
        },
    }
}

proof fn lemma_art_suffix(n: nat, c: char)
    requires
        c == '+' || c == '-' || c == 'x',
        n <= u32::MAX,
    ensures
        decimal(n) + seq![c] != "?"@,
        trim_end_matches(decimal(n) + seq![c], seq![c]) == decimal(n),
        ends_with(decimal(n) + seq![c], seq![c]),
        parse_u32(decimal(n)) == Some(n as u32),
{
    reveal_strlit("?");
    lemma_trim_suffix_of_number(n, c);
    lemma_decimal_digits(n);
    lemma_parse_decimal(n, u32::MAX as nat);
    let s = decimal(n) + seq![c];
    if s == "?"@ {
        assert(s.len() == 1);
    }
}

// ---------------------------------------------------------------------------
// spreadsheet cells
// ---------------------------------------------------------------------------
/// The letter for a zero-based column digit `k < 26`.
pub open spec fn column_letter(k: nat) -> char {
    ((k + 65) as u32) as char
}

/// The column letters of the one-based column `c` (`A`, ..., `Z`, `AA`, ...).
pub open spec fn column_letters(c: nat) -> Seq<char>
    decreases c,
{
    if c <= 1 {
        seq![column_letter(0)]
    } else if c <= 26 {
        seq![column_letter((c - 1) as nat)]
    } else {
        column_letters(((c - 1) / 26) as nat).push(column_letter(((c - 1) % 26) as nat))
    }
}

pub open spec fn is_ascii_alpha(c: char) -> bool {
    ('A' <= c && c <= 'Z') || ('a' <= c && c <= 'z')
}

/// The one-based value of a column letter in either case.
pub open spec fn letter_value(c: char) -> nat {
    if 'a' <= c && c <= 'z' {
        (c as int - 'a' as int + 1) as nat
    } else {
        (c as int - 'A' as int + 1) as nat
    }
}

/// The column number that the letters of a cell name spell.
pub open spec fn cell_column(s: Seq<char>) -> nat
    decreases s.len(),
{
    if s.len() == 0 {
        0
    } else if is_ascii_alpha(s.last()) {
        cell_column(s.drop_last()) * 26 + letter_value(s.last())
    } else {
        cell_column(s.drop_last())
    }
}

/// The digits of a cell name, in order.
pub open spec fn cell_digits(s: Seq<char>) -> Seq<char>
    decreases s.len(),
{
    if s.len() == 0 {
        Seq::empty()
    } else if is_digit(s.last()) {
        cell_digits(s.drop_last()).push(s.last())
    } else {
        cell_digits(s.drop_last())
    }
}

/// A cell name holds only ASCII letters and digits.
pub open spec fn cell_chars_valid(s: Seq<char>) -> bool {
    forall|i: int| 0 <= i < s.len() ==> is_ascii_alpha(#[trigger] s[i]) || is_digit(s[i])
}

/// The one-based row and column that a cell name stands for.
pub open spec fn cell_row_col(s: Seq<char>) -> Option<(usize, usize)> {
    if cell_chars_valid(s) {
        match parse_uint(cell_digits(s), usize::MAX as nat) {
            Some(row) => Some((row as usize, cell_column(s) as usize)),
            None => None,
        }
    } else {
        None
    }
}

/// The name of a spreadsheet cell, such as `B12`.
#[derive(Debug, Clone)]
pub struct SheetCell(pub String);

pub proof fn lemma_cell_column_prefix(s: Seq<char>, i: int)
    requires
        0 <= i <= s.len(),
    ensures
        cell_column(s.take(i)) <= cell_column(s),
    decreases s.len() - i,
{
    if i < s.len() {
        lemma_cell_column_prefix(s, i + 1);
        assert(s.take(i + 1).drop_last() == s.take(i));
    }
    assert(s.take(s.len() as int) == s);
}

proof fn lemma_column_letter(k: nat)
    requires
        k < 26,
    ensures
        'A' <= column_letter(k) <= 'Z',
        !('a' <= column_letter(k) <= 'z'),
        letter_value(column_letter(k)) == k + 1,
        !is_digit(column_letter(k)),
{
    let u = (k + 65) as u32;
    assert(u == k + 65);
    let ch = u as char;
    assert(ch as u32 == u);
}

/// The letters of a column spell it back, and are all ASCII capitals.
pub proof fn lemma_column_letters_value(c: nat)
    requires
        c >= 1,
    ensures
        cell_column(column_letters(c)) == c,
        cell_digits(column_letters(c)) == Seq::<char>::empty(),
        forall|i: int| 0 <= i < column_letters(c).len() ==> is_ascii_alpha(#[trigger] column_letters(c)[i]),
    decreases c,
{
    if c <= 26 {
        lemma_column_letter((c - 1) as nat);
        let l = column_letters(c);
        assert(l == seq![column_letter((c - 1) as nat)]);
        assert(l.drop_last() =~= Seq::<char>::empty());
        assert(l.last() == column_letter((c - 1) as nat));
        assert(cell_column(l.drop_last()) == 0);
        assert(cell_column(l) == c);
        assert(cell_digits(l.drop_last()) == Seq::<char>::empty());
    } else {
        let q = ((c - 1) / 26) as nat;
        let r = ((c - 1) % 26) as nat;
        lemma_column_letter(r);
        lemma_column_letters_value(q);
        let l = column_letters(c);
        assert(l.drop_last() == column_letters(q));
        assert(q * 26 + r == c - 1);
        assert forall|i: int| 0 <= i < l.len() implies is_ascii_alpha(#[trigger] l[i]) by {
            if i < l.len() - 1 {
                assert(l[i] == column_letters(q)[i]);
            }
        }
    }
}

/// Digits after a cell name's letters add to its row and not to its column.
pub proof fn lemma_cell_digits_suffix(s: Seq<char>, t: Seq<char>)
    requires
        all_digits(t),
    ensures
        cell_column(s + t) == cell_column(s),
        cell_digits(s + t) == cell_digits(s) + t,
    decreases t.len(),
{
    if t.len() == 0 {
        assert(s + t =~= s);
        assert(cell_digits(s) + t =~= cell_digits(s));
    } else {
        let u = t.drop_last();
        assert(all_digits(u)) by {
            assert forall|i: int| 0 <= i < u.len() implies is_digit(#[trigger] u[i]) by {
                assert(u[i] == t[i]);
            }
        }
        lemma_cell_digits_suffix(s, u);
        assert((s + t).drop_last() =~= s + u);
        assert((s + t).last() == t.last());
        assert(is_digit(t[t.len() - 1]));
        assert(cell_digits(s) + t =~= (cell_digits(s) + u).push(t.last()));
    }
}

/// Reading back the cell of a row and column gives that row and column.
pub proof fn lemma_cell_round_trip(row: usize, col: usize)
    requires
        col >= 1,
    ensures
        cell_column(column_letters(col as nat) + decimal(row as nat)) == col,
        cell_row_col(column_letters(col as nat) + decimal(row as nat)) == Some((row, col)),
{
    let l = column_letters(col as nat);
    let d = decimal(row as nat);
    let s = l + d;
    lemma_column_letters_value(col as nat);
    lemma_decimal_digits(row as nat);
    lemma_cell_digits_suffix(l, d);
    assert(cell_digits(l) + d =~= d);
    lemma_parse_decimal(row as nat, usize::MAX as nat);
    assert forall|i: int| 0 <= i < s.len() implies is_ascii_alpha(#[trigger] s[i]) || is_digit(s[i]) by {
        if i < l.len() {
            assert(s[i] == l[i]);
        } else {
            assert(s[i] == d[i - l.len()]);
        }
    }
}

fn column_letters_chars(c: usize) -> (r: Vec<char>)
    requires
        c >= 1,
    ensures
        r@ == column_letters(c as nat),
    decreases c,
{
    if c <= 26 {
        let mut r: Vec<char> = Vec::new();
        r.push(((c - 1 + 65) as u8) as char);
        r
    } else {
        let mut r = column_letters_chars((c - 1) / 26);
        r.push((((c - 1) % 26 + 65) as u8) as char);
        r
    }
}

impl SheetCell {
    pub open spec fn text(self) -> Seq<char> {
        self.0@
    }

    /// The cell in the one-based `row` and `col`.
    pub fn from_row_col(row: usize, col: usize) -> (r: SheetCell)
        requires
            col >= 1,
        ensures
            r.text() == column_letters(col as nat) + decimal(row as nat),
    {
        let mut v = column_letters_chars(col);
        let d = decimal_chars(row as u64);
        push_all(&mut v, &d);
        SheetCell(string_of(&v))
    }

    /// The one-based row and column of the cell, if its name is well formed.
    pub fn to_row_col(&self) -> (r: Option<(usize, usize)>)
        requires
            cell_column(self.text()) <= usize::MAX,
        ensures
            r == cell_row_col(self.text()),
    {
        let s = chars_of_string(&self.0);
        let mut col: usize = 0;
        let mut digits: Vec<char> = Vec::new();
        let mut i: usize = 0;
        while i < s.len()
            invariant
                s@ == self.text(),
                cell_column(s@) <= usize::MAX,
                i <= s.len(),
                col == cell_column(s@.take(i as int)),
                digits@ == cell_digits(s@.take(i as int)),
                cell_chars_valid(s@.take(i as int)),
            decreases s.len() - i,
        {
            let c = s[i];
            proof {
                assert(s@.take(i + 1).drop_last() == s@.take(i as int));
                assert(s@.take(i + 1).last() == c);
                lemma_cell_column_prefix(s@, i + 1);
            }
            if ('A' <= c && c <= 'Z') || ('a' <= c && c <= 'z') {
                let v: usize = if 'a' <= c && c <= 'z' {
                    (c as u32 - 'a' as u32 + 1) as usize
                } else {
                    (c as u32 - 'A' as u32 + 1) as usize
                };
                assert(v == letter_value(c));
                col = col * 26 + v;
            } else if '0' <= c && c <= '9' {
                digits.push(c);
            } else {
                proof {
                    assert(!cell_chars_valid(s@)) by {
                        assert(s@[i as int] == c);
                    }
                }
                return None;
            }
            i = i + 1;
            proof {
                assert forall|k: int| 0 <= k < i implies is_ascii_alpha(#[trigger] s@.take(i as int)[k])
                    || is_digit(s@.take(i as int)[k]) by {
                    if k < i - 1 {
                        assert(s@.take(i as int)[k] == s@.take(i - 1)[k]);
                    }
                }
            }
        }
        assert(s@.take(s.len() as int) == s@);
        match parse_uint_chars(&digits, usize::MAX as u64) {
            Some(row) => Some((row as usize, col)),
            None => None,
        }
    }

    pub fn from_string(value: String) -> (r: SheetCell)
        ensures
            r.0 == value,
    {
        SheetCell(value)
    }

    /// The name of the cell, as it is displayed.
    pub fn to_text(&self) -> (r: String)
        ensures
            r@ == self.text(),
    {
        self.0.clone()
    }
}

/// The order of cells: well-formed names first, by row then column; all
/// malformed names are equal and come last.
pub open spec fn cell_order(a: Option<(usize, usize)>, b: Option<(usize, usize)>) -> Order {
    match (a, b) {
        (Some((r1, c1)), Some((r2, c2))) => {
            if r1 != r2 {
                compare_int(r1 as int, r2 as int)
            } else {
                compare_int(c1 as int, c2 as int)
            }
        },
        (Some(_), None) => Order::Less,
        (None, Some(_)) => Order::Greater,
        (None, None) => Order::Equal,
    }
}

impl SheetCell {
    pub fn compare(&self, other: &SheetCell) -> (r: Order)
        requires
            cell_column(self.text()) <= usize::MAX,
            cell_column(other.text()) <= usize::MAX,
        ensures
            r == cell_order(cell_row_col(self.text()), cell_row_col(other.text())),
    {
        let a = self.to_row_col();
        let b = other.to_row_col();
        match (a, b) {
            (Some((r1, c1)), Some((r2, c2))) => {
                if r1 != r2 {
                    compare_u64(r1 as u64, r2 as u64)
                } else {
                    compare_u64(c1 as u64, c2 as u64)
                }
            },
            (Some(_), None) => Order::Less,
            (None, Some(_)) => Order::Greater,
            (None, None) => Order::Equal,
        }
    }
}

/// The number of a question and answer, such as `Q12`.
#[derive(Debug, Clone)]
pub struct QnaNumber(pub String);

/// The number that orders questions: the digits after the leading `Q`s, or 0.
pub open spec fn qna_number_value(s: Seq<char>) -> u32 {
    match parse_u32(trim_start_matches(s, "Q"@)) {
        Some(n) => n,
        None => 0,
    }
}

impl QnaNumber {
    pub fn from_string(value: String) -> (r: QnaNumber)
        ensures
            r.0 == value,
    {
        QnaNumber(value)
    }

    /// The number that orders questions.
    pub fn number(&self) -> (r: u32)
        ensures
            r == qna_number_value(self.0@),
    {
        let s = chars_of_string(&self.0);
        let t = trim_start_matches_chars(&s, "Q");
        match parse_u32_chars(&t) {
            Some(n) => n,
            None => 0,
        }
    }

    /// Questions are ordered by their number.
    pub fn compare(&self, other: &QnaNumber) -> (r: Order)
        ensures
            r == compare_int(qna_number_value(self.0@) as int, qna_number_value(other.0@) as int),
    {
        compare_u64(self.number() as u64, other.number() as u64)
    }
}


// ---------------------------------------------------------------------------
// cards
// ---------------------------------------------------------------------------
/// An oshi skill: kind, holo power, name and ability text.
#[derive(Debug, Clone)]
pub struct OshiSkill {
    pub kind: OshiSkillKind,
    pub holo_power: Option<HoloPower>,
    pub name: Localized<String>,
    pub ability_text: Localized<String>,
}

/// A keyword: effect, name and ability text.
#[derive(Debug, Clone)]
pub struct Keyword {
    pub effect: KeywordEffect,
    pub name: Localized<String>,
    pub ability_text: Localized<String>,
}

/// An art: cheers, name, power, advantage and ability text.
#[derive(Debug, Clone)]
pub struct Art {
    pub cheers: Vec<Color>,
    pub name: Localized<String>,
    pub power: ArtPower,
    pub advantage: Option<(Color, u32)>,
    pub ability_text: Option<Localized<String>>,
}

/// One printing of a card.
#[derive(Debug, Clone)]
pub struct CardIllustration {
    pub card_number: String,
    /// The unique ids in Deck Log, per language.
    pub manage_id: Localized<BTreeSet<u32>>,
    pub rarity: String,
    pub illustrator: Option<String>,
    pub img_path: Localized<String>,
    pub img_last_modified: Localized<String>,
    pub img_hash: String,
    /// The cells of the fan spreadsheet that show this printing, by sheet id.
    pub ogbajoj_sheet_cells: Option<Vec<(u64, SheetCell)>>,
    pub yuyutei_sell_url: Option<String>,
    pub tcgplayer_product_id: Option<u32>,
    pub delta_art_index: Option<u32>,
}

/// A card and all its printings.
#[derive(Debug, Clone)]
pub struct Card {
    pub card_number: String,
    pub name: Localized<String>,
    pub card_type: CardType,
    pub colors: Vec<Color>,
    pub life: u32,
    pub hp: u32,
    pub bloom_level: Option<BloomLevel>,
    pub buzz: bool,
    pub limited: bool,
    pub oshi_skills: Vec<OshiSkill>,
    pub keywords: Vec<Keyword>,
    pub arts: Vec<Art>,
    pub ability_text: Localized<String>,
    pub extra: Option<Localized<String>>,
    pub tags: Vec<Localized<String>>,
    pub baton_pass: Vec<Color>,
    pub max_amount: Localized<u32>,
    pub illustrations: Vec<CardIllustration>,
}

/// A question and its answer.
#[derive(Debug, Clone)]
pub struct Qna {
    pub qna_number: String,
    /// The date, as `YYYY-MM-DD`.
    pub date: Option<String>,
    pub question: Localized<String>,
    pub answer: Localized<String>,
    pub referenced_cards: Vec<String>,
}

/// `ns` with `n` added at the end unless it is already there.
pub open spec fn push_unique(ns: Seq<Seq<char>>, n: Seq<char>) -> Seq<Seq<char>> {
    if ns.contains(n) {
        ns
    } else {
        ns.push(n)
    }
}

/// `ns` with each of `ms` added in turn by `push_unique`.
pub open spec fn push_all_unique(ns: Seq<Seq<char>>, ms: Seq<Seq<char>>) -> Seq<Seq<char>>
    decreases ms.len(),
{
    if ms.len() == 0 {
        ns
    } else {
        push_all_unique(push_unique(ns, ms[0]), ms.drop_first())
    }
}

/// The names inside `open`..`close` brackets of `t`: for each piece after an
/// opening bracket, the text up to the closing bracket.
pub open spec fn bracket_names(t: Seq<char>, open: char, close: char) -> Seq<Seq<char>> {
    split(t, seq![open]).skip(1).map_values(|p: Seq<char>| split(p, seq![close])[0])
}

/// The card name in Japanese and English, the second left out when equal.
pub open spec fn base_names(name: Localized<String>) -> Seq<Seq<char>> {
    match (name.japanese, name.english) {
        (Some(a), Some(b)) => if a@ == b@ {
            seq![a@]
        } else {
            seq![a@, b@]
        },
        (Some(a), None) => seq![a@],
        (None, Some(b)) => seq![b@],
        (None, None) => Seq::empty(),
    }
}

/// The members of the FUWAMOCO pair.
pub open spec fn fuwamoco_names() -> Seq<Seq<char>> {
    seq!["フワワ・アビスガード"@, "モココ・アビスガード"@, "Fuwawa Abyssgard"@, "Mococo Abyssgard"@]
}

/// The card is the FUWAMOCO oshi.
pub open spec fn is_fuwamoco_oshi(card_type: CardType, ns: Seq<Seq<char>>) -> bool {
    card_type == CardType::OshiHoloMember && exists|i: int|
        0 <= i < ns.len() && contains(#[trigger] ns[i], "FUWAMOCO"@)
}

/// The extra text says that the holomem is also regarded as other holomems.
pub open spec fn regarded_as_others(extra: Localized<String>) -> bool {
    (match extra.japanese {
        Some(j) => contains(j@, "このホロメンは"@) && contains(j@, "としても扱う"@),
        None => false,
    }) || (match extra.english {
        Some(e) => contains(lowercase(e@), "this holomem is also regarded as"@),
        None => false,
    })
}

/// The texts of a localized value, Japanese first.
pub open spec fn present_texts(l: Localized<String>) -> Seq<Seq<char>> {
    match (l.japanese, l.english) {
        (Some(a), Some(b)) => seq![a@, b@],
        (Some(a), None) => seq![a@],
        (None, Some(b)) => seq![b@],
        (None, None) => Seq::empty(),
    }
}

/// `ns` with the bracketed names of each text added.
pub open spec fn push_bracket_names(ns: Seq<Seq<char>>, texts: Seq<Seq<char>>) -> Seq<Seq<char>>
    decreases texts.len(),
{
    if texts.len() == 0 {
        ns
    } else {
        let t = texts[0];
        push_bracket_names(
            push_all_unique(push_all_unique(ns, bracket_names(t, '〈', '〉')), bracket_names(t, '<', '>')),
            texts.drop_first(),
        )
    }
}

/// The names under which a card counts: its own names, the FUWAMOCO members
/// for their oshi, and the holomems that its extra text names.
pub open spec fn card_names(card: Card) -> Seq<Seq<char>> {
    let n0 = base_names(card.name);
    let n1 = if is_fuwamoco_oshi(card.card_type, n0) {
        push_all_unique(n0, fuwamoco_names())
    } else {
        n0
    };
    match card.extra {
        Some(x) => if regarded_as_others(x) {
            push_bracket_names(n1, present_texts(x))
        } else {
            n1
        },
        None => n1,
    }
}

/// The views of a vector of strings.
pub open spec fn views(v: Seq<String>) -> Seq<Seq<char>> {
    v.map_values(|s: String| s@)
}

pub open spec fn char_views(v: Seq<Vec<char>>) -> Seq<Seq<char>> {
    v.map_values(|s: Vec<char>| s@)
}

/// Adds `n` unless it is already there.
pub(crate) fn push_unique_exec(ns: &mut Vec<Vec<char>>, n: Vec<char>)
    ensures
        char_views(final(ns)@) == push_unique(char_views(old(ns)@), n@),
{
    let mut i: usize = 0;
    while i < ns.len()
        invariant
            i <= ns.len(),
            forall|k: int| 0 <= k < i ==> ns@[k]@ != n@,
        decreases ns.len() - i,
    {
        if eq(&ns[i], &n) {
            proof {
                assert(char_views(ns@)[i as int] == n@);
            }
            return;
        }
        i = i + 1;
    }
    proof {
        assert(!char_views(ns@).contains(n@)) by {
            if char_views(ns@).contains(n@) {
                let k = choose|k: int| 0 <= k < char_views(ns@).len() && char_views(ns@)[k] == n@;
                assert(ns@[k]@ == n@);
            }
        }
    }
    let ghost before = ns@;
    ns.push(n);
    proof {
        assert(char_views(ns@) == char_views(before).push(n@));
    }
}

/// Adds each of `ms` in turn unless it is already there.
fn push_all_unique_exec(ns: &mut Vec<Vec<char>>, ms: Vec<Vec<char>>)
    ensures
        char_views(final(ns)@) == push_all_unique(char_views(old(ns)@), char_views(ms@)),
{
    let mut i: usize = 0;
    let ghost start = char_views(ns@);
    assert(char_views(ms@).skip(0) == char_views(ms@));
    while i < ms.len()
        invariant
            i <= ms.len(),
            push_all_unique(start, char_views(ms@)) == push_all_unique(
                char_views(ns@),
                char_views(ms@).skip(i as int),
            ),
        decreases ms.len() - i,
    {
        proof {
            let rest = char_views(ms@).skip(i as int);
            assert(rest[0] == ms@[i as int]@);
            assert(rest.drop_first() == char_views(ms@).skip(i + 1));
        }
        push_unique_exec(ns, ms[i].clone());
        i = i + 1;
    }
    proof {
        assert(char_views(ms@).skip(i as int).len() == 0);
        assert(char_views(ms@).skip(0) == char_views(ms@));
    }
}

/// The names inside `open`..`close` brackets of `t`.
fn bracket_names_exec(t: &Vec<char>, open: char, close: char) -> (r: Vec<Vec<char>>)
    ensures
        char_views(r@) == bracket_names(t@, open, close),
{
    let parts = split_char(t, open);
    let mut out: Vec<Vec<char>> = Vec::new();
    let mut i: usize = 1;
    proof {
        lemma_split_nonempty(t@, seq![open]);
    }
    while i < parts.len()
        invariant
            1 <= i <= parts.len(),
            parts@.len() == split(t@, seq![open]).len(),
            forall|k: int| 0 <= k < parts@.len() ==> #[trigger] parts@[k]@ == split(t@, seq![open])[k],
            char_views(out@) == split(t@, seq![open]).skip(1).take(i - 1).map_values(
                |p: Seq<char>| split(p, seq![close])[0],
            ),
        decreases parts.len() - i,
    {
        let pieces = split_char(&parts[i], close);
        proof {
            lemma_split_nonempty(parts@[i as int]@, seq![close]);
        }
        let ghost before = out@;
        out.push(pieces[0].clone());
        proof {
            let f = |p: Seq<char>| split(p, seq![close])[0];
            let sk = split(t@, seq![open]).skip(1);
            assert(sk.take(i as int) == sk.take(i - 1).push(sk[i - 1]));
            assert(char_views(out@) == char_views(before).push(out@[i - 1]@));
            assert(sk.take(i as int).map_values(f) == sk.take(i - 1).map_values(f).push(f(sk[i - 1])));
        }
        i = i + 1;
    }
    proof {
        let sk = split(t@, seq![open]).skip(1);
        assert(sk.take(i - 1) == sk);
    }
    out
}

/// The texts of a localized value, Japanese first.
fn present_texts_exec(l: &Localized<String>) -> (r: Vec<Vec<char>>)
    ensures
        char_views(r@) == present_texts(*l),
{
    let mut out: Vec<Vec<char>> = Vec::new();
    match &l.japanese {
        Some(a) => out.push(chars_of_string(a)),
        None => {},
    }
    match &l.english {
        Some(b) => out.push(chars_of_string(b)),
        None => {},
    }
    proof {
        assert(char_views(out@) == present_texts(*l));
    }
    out
}

fn any_contains(ns: &Vec<Vec<char>>, p: &str) -> (r: bool)
    ensures
        r == exists|i: int| 0 <= i < ns@.len() && contains(#[trigger] char_views(ns@)[i], p@),
{
    let mut i: usize = 0;
    while i < ns.len()
        invariant
            i <= ns.len(),
            forall|k: int| 0 <= k < i ==> !contains(#[trigger] char_views(ns@)[k], p@),
        decreases ns.len() - i,
    {
        if contains_str(&ns[i], p) {
            assert(contains(char_views(ns@)[i as int], p@));
            return true;
        }
        i = i + 1;
    }
    false
}

fn regarded_as_others_exec(x: &Localized<String>) -> (r: bool)
    ensures
        r == regarded_as_others(*x),
{
    let j = match &x.japanese {
        Some(j) => {
            let v = chars_of_string(j);
            contains_str(&v, "このホロメンは") && contains_str(&v, "としても扱う")
        },
        None => false,
    };
    let e = match &x.english {
        Some(e) => {
            let v = chars_of_string(e);
            contains_str(&to_lowercase(&v), "this holomem is also regarded as")
        },
        None => false,
    };
    j || e
}

fn strings_of(v: &Vec<Vec<char>>) -> (r: Vec<String>)
    ensures
        views(r@) == char_views(v@),
{
    let mut out: Vec<String> = Vec::new();
    let mut i: usize = 0;
    while i < v.len()
        invariant
            i <= v.len(),
            views(out@) == char_views(v@).take(i as int),
        decreases v.len() - i,
    {
        let ghost before = out@;
        out.push(string_of(&v[i]));
        proof {
            assert(views(out@) == views(before).push(v@[i as int]@));
            assert(char_views(v@).take(i + 1) == char_views(v@).take(i as int).push(v@[i as int]@));
        }
        i = i + 1;
    }
    assert(char_views(v@).take(i as int) == char_views(v@));
    out
}

impl Card {
    /// The names under which the card counts, in order, each once: the card
    /// name in Japanese and English, the FUWAMOCO members for their oshi, and
    /// the holomems that an extra "also regarded as" text names in brackets.
    pub fn names(&self) -> (r: Vec<String>)
        ensures
            views(r@) == card_names(*self),
    {
        let mut ns: Vec<Vec<char>> = Vec::new();
        match (&self.name.japanese, &self.name.english) {
            (Some(a), Some(b)) => {
                let av = chars_of_string(a);
                let bv = chars_of_string(b);
                let same = eq(&av, &bv);
                ns.push(av);
                if !same {
                    ns.push(bv);
                }
            },
            (Some(a), None) => ns.push(chars_of_string(a)),
            (None, Some(b)) => ns.push(chars_of_string(b)),
            (None, None) => {},
        }
        assert(char_views(ns@) == base_names(self.name));
        if self.card_type == CardType::OshiHoloMember && any_contains(&ns, "FUWAMOCO") {
            let mut fw: Vec<Vec<char>> = Vec::new();
            fw.push(chars_of("フワワ・アビスガード"));
            fw.push(chars_of("モココ・アビスガード"));
            fw.push(chars_of("Fuwawa Abyssgard"));
            fw.push(chars_of("Mococo Abyssgard"));
            assert(char_views(fw@) == fuwamoco_names());
            push_all_unique_exec(&mut ns, fw);
        }
        let ghost n1 = char_views(ns@);
        match &self.extra {
            Some(x) => {
                if regarded_as_others_exec(x) {
                    let texts = present_texts_exec(x);
                    let mut i: usize = 0;
                    assert(char_views(texts@).skip(0) == char_views(texts@));
                    while i < texts.len()
                        invariant
                            i <= texts.len(),
                            push_bracket_names(n1, char_views(texts@)) == push_bracket_names(
                                char_views(ns@),
                                char_views(texts@).skip(i as int),
                            ),
                        decreases texts.len() - i,
                    {
                        let t = &texts[i];
                        proof {
                            let rest = char_views(texts@).skip(i as int);
                            assert(rest[0] == t@);
                            assert(rest.drop_first() == char_views(texts@).skip(i + 1));
                        }
                        push_all_unique_exec(&mut ns, bracket_names_exec(t, '〈', '〉'));
                        push_all_unique_exec(&mut ns, bracket_names_exec(t, '<', '>'));
                        i = i + 1;
                    }
                    assert(char_views(texts@).skip(i as int).len() == 0);
                    assert(char_views(texts@).skip(0) == char_views(texts@));
                }
            },
            None => {},
        }
        strings_of(&ns)
    }
}


/// The address of the official card list page of a Deck Log id.
pub open spec fn official_url(language: Language, id: u32) -> Seq<char> {
    match language {
        Language::Japanese => "https://hololive-official-cardgame.com/cardlist/?id="@ + decimal(
            id as nat,
        ),
        Language::English => "https://en.hololive-official-cardgame.com/cardlist/?id="@ + decimal(
            id as nat,
        ),
    }
}

/// `q` holds the elements of `ids` once each, in increasing order.
pub open spec fn sorted_elements(q: Seq<u32>, ids: Set<u32>) -> bool {
    &&& q.to_set() == ids
    &&& q.no_duplicates()
    &&& forall|i: int, j: int| 0 <= i < j < q.len() ==> q[i] < q[j]
}

/// The elements of a finite set of ids in increasing order.
pub open spec fn sorted_ids(s: Set<u32>) -> Seq<u32> {
    choose|q: Seq<u32>| sorted_elements(q, s)
}

/// A set has only one increasing sequence of its elements.
pub proof fn lemma_sorted_elements_unique(q1: Seq<u32>, q2: Seq<u32>, s: Set<u32>)
    requires
        sorted_elements(q1, s),
        sorted_elements(q2, s),
    ensures
        q1 == q2,
    decreases q1.len(),
{
    if q1.len() == 0 {
        if q2.len() > 0 {
            assert(q2.to_set().contains(q2[0]));
            assert(!q1.to_set().contains(q2[0]));
        }
    } else if q2.len() == 0 {
        assert(q1.to_set().contains(q1[0]));
    } else {
        // the first elements are both the least element
        assert(q1.to_set().contains(q2[0]));
        assert(q2.to_set().contains(q1[0]));
        let a = choose|i: int| 0 <= i < q1.len() && q1[i] == q2[0];
        let b = choose|i: int| 0 <= i < q2.len() && q2[i] == q1[0];
        if a > 0 {
            assert(q1[0] < q1[a]);
            if b > 0 {
                assert(q2[0] < q2[b]);
            }
        }
        assert(q1[0] == q2[0]);
        let r = s.remove(q1[0]);
        let t1 = q1.drop_first();
        let t2 = q2.drop_first();
        assert forall|x: u32| t1.to_set().contains(x) <==> r.contains(x) by {
            if t1.to_set().contains(x) {
                let i = choose|i: int| 0 <= i < t1.len() && t1[i] == x;
                assert(q1[i + 1] == x);
                assert(q1.to_set().contains(x));
                assert(q1[0] < q1[i + 1]);
            }
            if r.contains(x) {
                assert(q1.to_set().contains(x));
                let i = choose|i: int| 0 <= i < q1.len() && q1[i] == x;
                assert(i != 0);
                assert(t1[i - 1] == x);
            }
        }
        assert forall|x: u32| t2.to_set().contains(x) <==> r.contains(x) by {
            if t2.to_set().contains(x) {
                let i = choose|i: int| 0 <= i < t2.len() && t2[i] == x;
                assert(q2[i + 1] == x);
                assert(q2.to_set().contains(x));
                assert(q2[0] < q2[i + 1]);
            }
            if r.contains(x) {
                assert(q2.to_set().contains(x));
                let i = choose|i: int| 0 <= i < q2.len() && q2[i] == x;
                assert(i != 0);
                assert(t2[i - 1] == x);
            }
        }
        assert(t1.to_set() =~= r);
        assert(t2.to_set() =~= r);
        lemma_sorted_elements_unique(t1, t2, r);
        assert(q1 =~= q2) by {
            assert(q1 == seq![q1[0]] + t1);
            assert(q2 == seq![q2[0]] + t2);
        }
    }
}

/// The ids of a set in increasing order.
pub fn sorted_ids_of(ids: &BTreeSet<u32>) -> (r: Vec<u32>)
    ensures
        r@ == sorted_ids(ids@),
        sorted_elements(r@, ids@),
{
    let mut v: Vec<u32> = Vec::new();
    for id in it: ids.iter()
        invariant
            v@.len() == it.index(),
            forall|k: int| 0 <= k < it.index() ==> v@[k] == *#[trigger] it.seq()[k],
    {
        v.push(*id);
    }
    proof {
        let q = spec_btree_keys_iter(ids).remaining().unref();
        lemma_btree_iter_sorted(ids);
        assert(v@ == q);
        let c = choose|q: Seq<u32>| sorted_elements(q, ids@);
        lemma_sorted_elements_unique(c, v@, ids@);
    }
    v
}

/// The address of the product page of a TCGplayer product.
pub open spec fn tcgplayer_url(id: u32) -> Seq<char> {
    "https://www.tcgplayer.com/product/"@ + decimal(id as nat)
}

/// The id of the fan spreadsheet.
pub open spec fn ogbajoj_spreadsheet_id() -> Seq<char> {
    "1IdaueY-Jw8JXjYLOhA9hUd2w0VRBao9Z1URJwmCWJ64"@
}

/// The address that shows a cell of a sheet of the fan spreadsheet.
pub open spec fn sheet_cell_url(sheet_id: u64, cell: Seq<char>) -> Seq<char> {
    "https://docs.google.com/spreadsheets/d/"@ + ogbajoj_spreadsheet_id() + "/view?gid="@ + decimal(
        sheet_id as nat,
    ) + "#range="@ + cell
}

fn concat_str(a: &str, b: &Vec<char>) -> (r: Vec<char>)
    ensures
        r@ == a@ + b@,
{
    let mut v = chars_of(a);
    push_all(&mut v, b);
    v
}

/// References to `u32` are ordered as the numbers they point at.
proof fn lemma_ref_u32_total_order()
    ensures
        vstd::laws_cmp::obeys_cmp::<&u32>(),
{
    broadcast use vstd::laws_cmp::group_laws_cmp;
    assert(vstd::laws_cmp::obeys_cmp::<u32>());
    reveal(vstd::laws_cmp::obeys_cmp_partial_ord);
    reveal(vstd::laws_cmp::obeys_cmp_ord);
    reveal(vstd::laws_cmp::obeys_partial_cmp_spec_properties);
}

/// A `BTreeSet` of ids is walked once each, in increasing order.
pub proof fn lemma_btree_iter_sorted(ids: &BTreeSet<u32>)
    ensures
        sorted_elements(spec_btree_keys_iter(ids).remaining().unref(), ids@),
{
    let rq = spec_btree_keys_iter(ids).remaining();
    let q = rq.unref();
    lemma_ref_u32_total_order();
    vstd::std_specs::btree::axiom_increasing_seq_meaning::<&u32>(rq);
    assert(increasing_seq(rq));
    assert(q.len() == rq.len());
    assert forall|i: int, j: int| 0 <= i < j < q.len() implies q[i] < q[j] by {
        assert(q[i] == *rq[i] && q[j] == *rq[j]);
        assert(0 <= i < j < rq.len());
        assert(OrdSpec::cmp_spec(&rq[i], &rq[j]) is Less);
    }
}

impl CardIllustration {
    /// The official card list pages of this printing in `language`, by
    /// increasing Deck Log id.
    pub fn official_site_urls(&self, language: Language) -> (r: Vec<String>)
        ensures
            match self.manage_id.get(language) {
                Some(ids) => exists|q: Seq<u32>|
                    sorted_elements(q, ids@) && views(r@) == q.map_values(
                        |id: u32| official_url(language, id),
                    ),
                None => r@.len() == 0,
            },
    {
        let mut out: Vec<String> = Vec::new();
        match self.manage_id.value(language) {
            Some(ids) => {
                for id in it: ids.iter()
                    invariant
                        out@.len() == it.index(),
                        forall|k: int|
                            0 <= k < it.index() ==> #[trigger] out@[k]@ == official_url(
                                language,
                                *it.seq()[k],
                            ),
                {
                    let d = decimal_chars(*id as u64);
                    let v = match language {
                        Language::Japanese => concat_str(
                            "https://hololive-official-cardgame.com/cardlist/?id=",
                            &d,
                        ),
                        Language::English => concat_str(
                            "https://en.hololive-official-cardgame.com/cardlist/?id=",
                            &d,
                        ),
                    };
                    out.push(string_of(&v));
                }
                proof {
                    let q = spec_btree_keys_iter(ids).remaining().unref();
                    lemma_btree_iter_sorted(ids);
                    assert(sorted_elements(q, ids@));
                    assert(views(out@) == q.map_values(|id: u32| official_url(language, id)));
                }
            },
            None => {},
        }
        out
    }

    /// The TCGplayer product page of this printing, if it has a product id.
    pub fn tcgplayer_url(&self) -> (r: Option<String>)
        ensures
            match self.tcgplayer_product_id {
                Some(id) => r matches Some(u) && u@ == tcgplayer_url(id),
                None => r.is_none(),
            },
    {
        match self.tcgplayer_product_id {
            Some(id) => {
                let d = decimal_chars(id as u64);
                Some(string_of(&concat_str("https://www.tcgplayer.com/product/", &d)))
            },
            None => None,
        }
    }

    /// The fan spreadsheet views of the cells that show this printing.
    pub fn ogbajoj_sheet_urls(&self) -> (r: Vec<String>)
        ensures
            match self.ogbajoj_sheet_cells {
                Some(cells) => views(r@) == cells@.map_values(
                    |c: (u64, SheetCell)| sheet_cell_url(c.0, c.1.text()),
                ),
                None => r@.len() == 0,
            },
    {
        let mut out: Vec<String> = Vec::new();
        match &self.ogbajoj_sheet_cells {
            Some(cells) => {
                let mut i: usize = 0;
                while i < cells.len()
                    invariant
                        i <= cells.len(),
                        views(out@) == cells@.take(i as int).map_values(
                            |c: (u64, SheetCell)| sheet_cell_url(c.0, c.1.text()),
                        ),
                    decreases cells.len() - i,
                {
                    let (sheet_id, cell) = &cells[i];
                    let mut v = chars_of("https://docs.google.com/spreadsheets/d/");
                    push_all(&mut v, &chars_of("1IdaueY-Jw8JXjYLOhA9hUd2w0VRBao9Z1URJwmCWJ64"));
                    push_all(&mut v, &chars_of("/view?gid="));
                    push_all(&mut v, &decimal_chars(*sheet_id));
                    push_all(&mut v, &chars_of("#range="));
                    push_all(&mut v, &chars_of_string(&cell.0));
                    let ghost before = out@;
                    out.push(string_of(&v));
                    proof {
                        let f = |c: (u64, SheetCell)| sheet_cell_url(c.0, c.1.text());
                        assert(cells@.take(i + 1) == cells@.take(i as int).push(cells@[i as int]));
                        assert(views(out@) == views(before).push(out@[i as int]@));
                        assert(cells@.take(i + 1).map_values(f) == cells@.take(i as int).map_values(
                            f,
                        ).push(f(cells@[i as int])));
                    }
                    i = i + 1;
                }
                assert(cells@.take(i as int) == cells@);
            },
            None => {},
        }
        out
    }
}


// ---------------------------------------------------------------------------
// views of the card model
// ---------------------------------------------------------------------------
/// The texts of a localized text: Japanese, then English.
pub type TextPair = (Option<Seq<char>>, Option<Seq<char>>);

pub open spec fn opt_set(o: Option<BTreeSet<u32>>) -> Option<Set<u32>> {
    match o {
        Some(s) => Some(s@),
        None => None,
    }
}

pub struct OshiSkillView {
    pub kind: OshiSkillKind,
    pub holo_power: Option<HoloPower>,
    pub name: TextPair,
    pub ability_text: TextPair,
}

pub struct KeywordView {
    pub effect: KeywordEffect,
    pub name: TextPair,
    pub ability_text: TextPair,
}

pub struct ArtView {
    pub cheers: Seq<Color>,
    pub name: TextPair,
    pub power: ArtPower,
    pub advantage: Option<(Color, u32)>,
    pub ability_text: Option<TextPair>,
}

pub struct CardIllustrationView {
    pub card_number: Seq<char>,
    pub manage_id: (Option<Set<u32>>, Option<Set<u32>>),
    pub rarity: Seq<char>,
    pub illustrator: Option<Seq<char>>,
    pub img_path: TextPair,
    pub img_last_modified: TextPair,
    pub img_hash: Seq<char>,
    pub ogbajoj_sheet_cells: Option<Seq<(u64, Seq<char>)>>,
    pub yuyutei_sell_url: Option<Seq<char>>,
    pub tcgplayer_product_id: Option<u32>,
    pub delta_art_index: Option<u32>,
}

pub struct CardView {
    pub card_number: Seq<char>,
    pub name: TextPair,
    pub card_type: CardType,
    pub colors: Seq<Color>,
    pub life: u32,
    pub hp: u32,
    pub bloom_level: Option<BloomLevel>,
    pub buzz: bool,
    pub limited: bool,
    pub oshi_skills: Seq<OshiSkillView>,
    pub keywords: Seq<KeywordView>,
    pub arts: Seq<ArtView>,
    pub ability_text: TextPair,
    pub extra: Option<TextPair>,
    pub tags: Seq<TextPair>,
    pub baton_pass: Seq<Color>,
    pub max_amount: (Option<u32>, Option<u32>),
    pub illustrations: Seq<CardIllustrationView>,
}

impl View for OshiSkill {
    type V = OshiSkillView;

    open spec fn view(&self) -> OshiSkillView {
        OshiSkillView {
            kind: self.kind,
            holo_power: self.holo_power,
            name: self.name.texts(),
            ability_text: self.ability_text.texts(),
        }
    }
}

impl View for Keyword {
    type V = KeywordView;

    open spec fn view(&self) -> KeywordView {
        KeywordView {
            effect: self.effect,
            name: self.name.texts(),
            ability_text: self.ability_text.texts(),
        }
    }
}

pub open spec fn opt_texts(o: Option<Localized<String>>) -> Option<TextPair> {
    match o {
        Some(l) => Some(l.texts()),
        None => None,
    }
}

impl View for Art {
    type V = ArtView;

    open spec fn view(&self) -> ArtView {
        ArtView {
            cheers: self.cheers@,
            name: self.name.texts(),
            power: self.power,
            advantage: self.advantage,
            ability_text: opt_texts(self.ability_text),
        }
    }
}

pub open spec fn opt_cells(o: Option<Vec<(u64, SheetCell)>>) -> Option<Seq<(u64, Seq<char>)>> {
    match o {
        Some(v) => Some(v@.map_values(|c: (u64, SheetCell)| (c.0, c.1.text()))),
        None => None,
    }
}

impl View for CardIllustration {
    type V = CardIllustrationView;

    open spec fn view(&self) -> CardIllustrationView {
        CardIllustrationView {
            card_number: self.card_number@,
            manage_id: (opt_set(self.manage_id.japanese), opt_set(self.manage_id.english)),
            rarity: self.rarity@,
            illustrator: opt_view(self.illustrator),
            img_path: self.img_path.texts(),
            img_last_modified: self.img_last_modified.texts(),
            img_hash: self.img_hash@,
            ogbajoj_sheet_cells: opt_cells(self.ogbajoj_sheet_cells),
            yuyutei_sell_url: opt_view(self.yuyutei_sell_url),
            tcgplayer_product_id: self.tcgplayer_product_id,
            delta_art_index: self.delta_art_index,
        }
    }
}

impl View for Card {
    type V = CardView;

    open spec fn view(&self) -> CardView {
        CardView {
            card_number: self.card_number@,
            name: self.name.texts(),
            card_type: self.card_type,
            colors: self.colors@,
            life: self.life,
            hp: self.hp,
            bloom_level: self.bloom_level,
            buzz: self.buzz,
            limited: self.limited,
            oshi_skills: self.oshi_skills@.map_values(|s: OshiSkill| s@),
            keywords: self.keywords@.map_values(|k: Keyword| k@),
            arts: self.arts@.map_values(|a: Art| a@),
            ability_text: self.ability_text.texts(),
            extra: opt_texts(self.extra),
            tags: self.tags@.map_values(|t: Localized<String>| t.texts()),
            baton_pass: self.baton_pass@,
            max_amount: (self.max_amount.japanese, self.max_amount.english),
            illustrations: self.illustrations@.map_values(|i: CardIllustration| i@),
        }
    }
}


/// The view of a printing with nothing known of it.
pub open spec fn blank_illustration_view() -> CardIllustrationView {
    CardIllustrationView {
        card_number: Seq::empty(),
        manage_id: (None, None),
        rarity: Seq::empty(),
        illustrator: None,
        img_path: (None, None),
        img_last_modified: (None, None),
        img_hash: Seq::empty(),
        ogbajoj_sheet_cells: None,
        yuyutei_sell_url: None,
        tcgplayer_product_id: None,
        delta_art_index: None,
    }
}

/// The view of a card with nothing known of it.
pub open spec fn blank_card_view() -> CardView {
    CardView {
        card_number: Seq::empty(),
        name: (None, None),
        card_type: CardType::Other,
        colors: Seq::empty(),
        life: 0,
        hp: 0,
        bloom_level: None,
        buzz: false,
        limited: false,
        oshi_skills: Seq::empty(),
        keywords: Seq::empty(),
        arts: Seq::empty(),
        ability_text: (None, None),
        extra: None,
        tags: Seq::empty(),
        baton_pass: Seq::empty(),
        max_amount: (None, None),
        illustrations: Seq::empty(),
    }
}

impl Default for CardIllustration {
    /// A printing with nothing known of it.
    fn default() -> (r: Self)
        ensures
            r@.card_number.len() == 0,
            r@.manage_id == (None::<Set<u32>>, None::<Set<u32>>),
            r@.rarity.len() == 0,
            r@.illustrator.is_none(),
            r@.img_path == (None::<Seq<char>>, None::<Seq<char>>),
            r@.img_last_modified == (None::<Seq<char>>, None::<Seq<char>>),
            r@.img_hash.len() == 0,
            r@.ogbajoj_sheet_cells.is_none(),
            r@.yuyutei_sell_url.is_none(),
            r@.tcgplayer_product_id.is_none(),
            r@.delta_art_index.is_none(),
            r@ == blank_illustration_view(),
    {
        CardIllustration {
            card_number: String::new(),
            manage_id: Localized { japanese: None, english: None },
            rarity: String::new(),
            illustrator: None,
            img_path: Localized { japanese: None, english: None },
            img_last_modified: Localized { japanese: None, english: None },
            img_hash: String::new(),
            ogbajoj_sheet_cells: None,
            yuyutei_sell_url: None,
            tcgplayer_product_id: None,
            delta_art_index: None,
        }
    }
}

impl Default for Card {
    /// A card with nothing known of it.
    fn default() -> (r: Self)
        ensures
            r@.card_number.len() == 0,
            r@.name == (None::<Seq<char>>, None::<Seq<char>>),
            r@.card_type == CardType::Other,
            r@.colors.len() == 0,
            r@.life == 0,
            r@.hp == 0,
            r@.bloom_level.is_none(),
            !r@.buzz,
            !r@.limited,
            r@.oshi_skills.len() == 0,
            r@.keywords.len() == 0,
            r@.arts.len() == 0,
            r@.ability_text == (None::<Seq<char>>, None::<Seq<char>>),
            r@.extra.is_none(),
            r@.tags.len() == 0,
            r@.baton_pass.len() == 0,
            r@.max_amount == (None::<u32>, None::<u32>),
            r@.illustrations.len() == 0,
            r@ == blank_card_view(),
    {
        let r = Card {
            card_number: String::new(),
            name: Localized { japanese: None, english: None },
            card_type: CardType::Other,
            colors: Vec::new(),
            life: 0,
            hp: 0,
            bloom_level: None,
            buzz: false,
            limited: false,
            oshi_skills: Vec::new(),
            keywords: Vec::new(),
            arts: Vec::new(),
            ability_text: Localized { japanese: None, english: None },
            extra: None,
            tags: Vec::new(),
            baton_pass: Vec::new(),
            max_amount: Localized { japanese: None, english: None },
            illustrations: Vec::new(),
        };
        assert(r@.oshi_skills =~= Seq::empty());
        assert(r@.keywords =~= Seq::empty());
        assert(r@.arts =~= Seq::empty());
        assert(r@.tags =~= Seq::empty());
        assert(r@.illustrations =~= Seq::empty());
        r
    }
}

} // verus!
