//! Cards of the official site and of Deck Log: their Japanese card types,
//! colors, tags, skills, keywords and arts as the pages write them.
use vstd::prelude::*;
use crate::text::{decimal, lemma_parse_decimal, chars_of, chars_of_string, contains, contains_str, eq, find, is_whitespace, is_ws, join, join_chars, lines, lowercase, parse_u32, parse_u32_chars, slice_chars, split, split_once, split_once_str, string_of, to_lowercase, trim, trim_chars, trim_end_matches, trim_end_matches_chars, trim_start_matches, trim_start_matches_chars, trimmed_lines, trimmed_lines_of, words, words_of};
use crate::model::{Art, ArtPower, ArtView, BloomLevel, Card, CardIllustration, CardIllustrationView, CardType, CardView, Color, HoloPower, Keyword, KeywordEffect, KeywordView, Localized, OshiSkill, OshiSkillKind, OshiSkillView, SupportType, char_views, copy_opt_string, opt_view, parse_art_power, parse_holo_power, views};
use crate::sheet::{sheet_bloom_level, somes};
use crate::spreadsheet::{card_views, cards_distinct, find_card, find_card_index, lemma_cards_distinct_update, lemma_find_card_bounds};
use vstd::pervasive::VecAdditionalExecFns;













verus! {

/// The card type that a Japanese card kind names.
pub open spec fn card_type_from_str(s: Seq<char>) -> CardType {
    let t = lowercase(trim(s));
    if contains(t, "推し"@) {
        CardType::OshiHoloMember
    } else if contains(t, "ホロメン"@) {
        CardType::HoloMember
    } else if contains(t, "スタッフ"@) {
        CardType::Support(SupportType::Staff)
    } else if contains(t, "アイテム"@) {
        CardType::Support(SupportType::Item)
    } else if contains(t, "イベント"@) {
        CardType::Support(SupportType::Event)
    } else if contains(t, "ツール"@) {
        CardType::Support(SupportType::Tool)
    } else if contains(t, "マスコット"@) {
        CardType::Support(SupportType::Mascot)
    } else if contains(t, "ファン"@) {
        CardType::Support(SupportType::Fan)
    } else if t == "エール"@ {
        CardType::Cheer
    } else {
        CardType::Other
    }
}

/// The card type that a Japanese card kind names.
pub fn card_type_of(s: &String) -> (r: CardType)
    ensures
        r == card_type_from_str(s@),
{
    let t = to_lowercase(&trim_chars(&chars_of_string(s)));
    if contains_str(&t, "推し") {
        CardType::OshiHoloMember
    } else if contains_str(&t, "ホロメン") {
        CardType::HoloMember
    } else if contains_str(&t, "スタッフ") {
        CardType::Support(SupportType::Staff)
    } else if contains_str(&t, "アイテム") {
        CardType::Support(SupportType::Item)
    } else if contains_str(&t, "イベント") {
        CardType::Support(SupportType::Event)
    } else if contains_str(&t, "ツール") {
        CardType::Support(SupportType::Tool)
    } else if contains_str(&t, "マスコット") {
        CardType::Support(SupportType::Mascot)
    } else if contains_str(&t, "ファン") {
        CardType::Support(SupportType::Fan)
    } else if eq(&t, &chars_of("エール")) {
        CardType::Cheer
    } else {
        CardType::Other
    }
}

/// The kind names a buzz holomem.
pub fn buzz(s: &String) -> (r: bool)
    ensures
        r == contains(lowercase(trim(s@)), "buzz"@),
{
    contains_str(&to_lowercase(&trim_chars(&chars_of_string(s))), "buzz")
}

/// The kind names a limited support card.
pub fn limited(s: &String) -> (r: bool)
    ensures
        r == contains(lowercase(trim(s@)), "limited"@),
{
    contains_str(&to_lowercase(&trim_chars(&chars_of_string(s))), "limited")
}

/// The bloom level that a level text names.
pub fn bloom_level_of(s: &String) -> (r: Option<BloomLevel>)
    ensures
        r == sheet_bloom_level(s@),
{
    let t = to_lowercase(&trim_chars(&chars_of_string(s)));
    if contains_str(&t, "1st") {
        Some(BloomLevel::First)
    } else if contains_str(&t, "2nd") {
        Some(BloomLevel::Second)
    } else if contains_str(&t, "debut") {
        Some(BloomLevel::Debut)
    } else if contains_str(&t, "spot") {
        Some(BloomLevel::Spot)
    } else {
        None
    }
}

/// The color that a color character of the site stands for.
pub open spec fn color_char(c: char) -> Option<Color> {
    if c == '白' {
        Some(Color::White)
    } else if c == '緑' {
        Some(Color::Green)
    } else if c == '赤' {
        Some(Color::Red)
    } else if c == '青' {
        Some(Color::Blue)
    } else if c == '紫' {
        Some(Color::Purple)
    } else if c == '黄' {
        Some(Color::Yellow)
    } else if c == '◇' {
        Some(Color::Colorless)
    } else {
        None
    }
}

/// The colors of the color characters of a text, in order.
pub open spec fn colors_from_str(s: Seq<char>) -> Seq<Color>
    decreases s.len(),
{
    if s.len() == 0 {
        Seq::empty()
    } else {
        let rest = colors_from_str(s.drop_last());
        if is_ws(s.last()) {
            rest
        } else {
            match color_char(s.last()) {
                Some(c) => rest.push(c),
                None => rest,
            }
        }
    }
}

fn color_char_exec(c: char) -> (r: Option<Color>)
    ensures
        r == color_char(c),
{
    if c == '白' {
        Some(Color::White)
    } else if c == '緑' {
        Some(Color::Green)
    } else if c == '赤' {
        Some(Color::Red)
    } else if c == '青' {
        Some(Color::Blue)
    } else if c == '紫' {
        Some(Color::Purple)
    } else if c == '黄' {
        Some(Color::Yellow)
    } else if c == '◇' {
        Some(Color::Colorless)
    } else {
        None
    }
}

/// The colors of a text.
pub fn colors_of(s: &Vec<char>) -> (r: Vec<Color>)
    ensures
        r@ == colors_from_str(s@),
{
    let mut out: Vec<Color> = Vec::new();
    let mut i: usize = 0;
    while i < s.len()
        invariant
            i <= s.len(),
            out@ == colors_from_str(s@.take(i as int)),
        decreases s.len() - i,
    {
        assert(s@.take(i + 1).drop_last() == s@.take(i as int));
        assert(s@.take(i + 1).last() == s@[i as int]);
        if !is_whitespace(s[i]) {
            match color_char_exec(s[i]) {
                Some(c) => out.push(c),
                None => {},
            }
        }
        i = i + 1;
    }
    assert(s@.take(i as int) == s@);
    out
}

/// The tags of a tag text: its words.
pub fn tags_of(s: &String) -> (r: Vec<Localized<String>>)
    ensures
        r@.len() == words(s@).len(),
        forall|k: int| 0 <= k < r@.len() ==> (#[trigger] r@[k]).texts() == (Some(words(s@)[k]), None::<Seq<char>>),
{
    let ws = words_of(&chars_of_string(s));
    let mut out: Vec<Localized<String>> = Vec::new();
    let mut i: usize = 0;
    while i < ws.len()
        invariant
            i <= ws.len(),
            ws@.len() == words(s@).len(),
            forall|k: int| 0 <= k < ws@.len() ==> #[trigger] ws@[k]@ == words(s@)[k],
            out@.len() == i,
            forall|k: int| 0 <= k < i ==> (#[trigger] out@[k]).texts() == (Some(words(s@)[k]), None::<Seq<char>>),
        decreases ws.len() - i,
    {
        out.push(Localized::jp(string_of(&ws[i])));
        i = i + 1;
    }
    out
}


// ---------------------------------------------------------------------------
// the card information of the official card list
// ---------------------------------------------------------------------------
/// One row of a card's information: its heading, its text, and the
/// descriptions of its images, joined by spaces.
#[derive(Debug, Clone)]
pub struct InfoRow {
    pub key: String,
    pub text: String,
    pub img_alts: String,
}

/// The value of a row: the descriptions of its images if it has any, else its text, trimmed.
pub open spec fn info_value(r: InfoRow) -> Seq<char> {
    if r.img_alts@.len() > 0 {
        trim(r.img_alts@)
    } else {
        trim(r.text@)
    }
}

/// A number, or 0 when the text is none.
pub open spec fn u32_or_zero(s: Seq<char>) -> u32 {
    match parse_u32(s) {
        Some(n) => n,
        None => 0,
    }
}

/// A card after one row of its information.
pub open spec fn info_applied(c: CardView, r: InfoRow) -> CardView {
    let key = lowercase(r.key@);
    let v = info_value(r);
    if key == "カードタイプ"@ {
        if c.card_type == CardType::Other {
            CardView {
                card_type: card_type_from_str(v),
                buzz: contains(lowercase(trim(v)), "buzz"@),
                limited: contains(lowercase(trim(v)), "limited"@),
                ..c
            }
        } else {
            c
        }
    } else if key == "タグ"@ {
        CardView { tags: words(v).map_values(|w: Seq<char>| (Some(w), None::<Seq<char>>)), ..c }
    } else if key == "色"@ {
        CardView { colors: colors_from_str(v), ..c }
    } else if key == "life"@ {
        CardView { life: u32_or_zero(v), ..c }
    } else if key == "hp"@ {
        CardView { hp: u32_or_zero(v), ..c }
    } else if key == "bloomレベル"@ {
        if c.bloom_level is None {
            CardView { bloom_level: sheet_bloom_level(v), ..c }
        } else {
            c
        }
    } else if key == "バトンタッチ"@ {
        CardView { baton_pass: colors_from_str(v), ..c }
    } else if key == "能力テキスト"@ {
        CardView {
            ability_text: (Some(trim(trim_end_matches(v, "LIMITED：ターンに１枚しか使えない。"@))), c.ability_text.1),
            ..c
        }
    } else {
        c
    }
}

pub open spec fn infos_applied(c: CardView, rs: Seq<InfoRow>) -> CardView
    decreases rs.len(),
{
    if rs.len() == 0 {
        c
    } else {
        info_applied(infos_applied(c, rs.drop_last()), rs.last())
    }
}

proof fn lemma_infos_keep_number(c: CardView, rs: Seq<InfoRow>)
    ensures
        infos_applied(c, rs).card_number == c.card_number,
    decreases rs.len(),
{
    if rs.len() > 0 {
        lemma_infos_keep_number(c, rs.drop_last());
    }
}

/// A card after its page of the official card list: the name if it has
/// none, each row of information, then the extra text.
pub open spec fn card_info_applied(
    c: CardView,
    name: Option<Seq<char>>,
    rows: Seq<InfoRow>,
    extra: Option<Seq<char>>,
) -> CardView {
    let c1 = if c.name.0 is None {
        CardView { name: (name, c.name.1), ..c }
    } else {
        c
    };
    let c2 = infos_applied(c1, rows);
    CardView {
        extra: match extra {
            Some(x) => Some((Some(x), None)),
            None => None,
        },
        ..c2
    }
}

fn apply_info_row(card: &mut Card, r: &InfoRow)
    ensures
        final(card)@ == info_applied(old(card)@, *r),
{
    proof {
        reveal_strlit("LIMITED：ターンに１枚しか使えない。");
    }
    let key = to_lowercase(&chars_of_string(&r.key));
    let v: Vec<char> = if chars_of_string(&r.img_alts).len() > 0 {
        trim_chars(&chars_of_string(&r.img_alts))
    } else {
        trim_chars(&chars_of_string(&r.text))
    };
    let vs = string_of(&v);
    if eq(&key, &chars_of("カードタイプ")) {
        if card.card_type == CardType::Other {
            card.card_type = card_type_of(&vs);
            card.buzz = buzz(&vs);
            card.limited = limited(&vs);
        }
    } else if eq(&key, &chars_of("タグ")) {
        let tags = tags_of(&vs);
        assert(tags@.map_values(|t: Localized<String>| t.texts()) =~= words(v@).map_values(
            |w: Seq<char>| (Some(w), None::<Seq<char>>),
        ));
        card.tags = tags;
    } else if eq(&key, &chars_of("色")) {
        card.colors = colors_of(&v);
    } else if eq(&key, &chars_of("life")) {
        card.life = match parse_u32_chars(&v) {
            Some(n) => n,
            None => 0,
        };
    } else if eq(&key, &chars_of("hp")) {
        card.hp = match parse_u32_chars(&v) {
            Some(n) => n,
            None => 0,
        };
    } else if eq(&key, &chars_of("bloomレベル")) {
        if card.bloom_level.is_none() {
            card.bloom_level = bloom_level_of(&vs);
        }
    } else if eq(&key, &chars_of("バトンタッチ")) {
        card.baton_pass = colors_of(&v);
    } else if eq(&key, &chars_of("能力テキスト")) {
        let t = trim_end_matches_chars(&v, "LIMITED：ターンに１枚しか使えない。");
        card.ability_text.japanese = Some(string_of(&trim_chars(&t)));
    }
}

/// Reads a card's page of the official card list into the card: the name
/// (if the card has none), each row of information, and the extra text.
pub fn update_card_info(card: &mut Card, name: Option<String>, rows: &Vec<InfoRow>, extra: Option<String>)
    ensures
        final(card)@ == card_info_applied(old(card)@, opt_view(name), rows@, opt_view(extra)),
{
    let ghost c0 = card@;
    if card.name.japanese.is_none() {
        card.name.japanese = name;
    }
    let ghost c1 = card@;
    let mut i: usize = 0;
    while i < rows.len()
        invariant
            i <= rows.len(),
            card@ == infos_applied(c1, rows@.take(i as int)),
        decreases rows.len() - i,
    {
        assert(rows@.take(i + 1).drop_last() == rows@.take(i as int));
        assert(rows@.take(i + 1).last() == rows@[i as int]);
        apply_info_row(card, &rows[i]);
        i = i + 1;
    }
    assert(rows@.take(i as int) == rows@);
    card.extra = match extra {
        Some(x) => Some(Localized::jp(x)),
        None => None,
    };
}


// ---------------------------------------------------------------------------
// oshi skills, keywords and arts of the official card list
// ---------------------------------------------------------------------------
/// The holo power of `[ホロパワー：-<n>消費]`.
pub open spec fn site_holo_power(h: Seq<char>) -> Option<HoloPower> {
    parse_holo_power(
        trim_end_matches(
            trim_end_matches(trim_start_matches(trim_start_matches(h, "[ホロパワー："@), "-"@), "]"@),
            "消費"@,
        ),
    )
}

/// An oshi skill from its three texts: holo power, name and ability text.
pub open spec fn site_oshi_skill(special: bool, parts: Seq<Seq<char>>) -> Option<OshiSkillView> {
    if parts.len() != 3 {
        None
    } else {
        Some(
            OshiSkillView {
                kind: if special {
                    OshiSkillKind::Special
                } else {
                    OshiSkillKind::Normal
                },
                holo_power: site_holo_power(parts[0]),
                name: (Some(trim(parts[1])), None),
                ability_text: (Some(trim(parts[2])), None),
            },
        )
    }
}

pub open spec fn skill_parts_view(v: Seq<(bool, Vec<String>)>) -> Seq<(bool, Seq<Seq<char>>)> {
    v.map_values(|e: (bool, Vec<String>)| (e.0, views(e.1@)))
}

pub open spec fn site_oshi_skills(v: Seq<(bool, Seq<Seq<char>>)>) -> Seq<OshiSkillView> {
    somes(v.map_values(|e: (bool, Seq<Seq<char>>)| site_oshi_skill(e.0, e.1)))
}

fn site_oshi_skill_exec(special: bool, parts: &Vec<String>) -> (r: Option<OshiSkill>)
    ensures
        match r {
            Some(sk) => site_oshi_skill(special, views(parts@)) == Some(sk@),
            None => site_oshi_skill(special, views(parts@)).is_none(),
        },
{
    if parts.len() != 3 {
        return None;
    }
    let h0 = trim_start_matches_chars(&chars_of_string(&parts[0]), "[ホロパワー：");
    let h1 = trim_start_matches_chars(&h0, "-");
    let h2 = trim_end_matches_chars(&h1, "]");
    let h3 = trim_end_matches_chars(&h2, "消費");
    let holo_power = match HoloPower::parse_chars(&h3) {
        Ok(p) => Some(p),
        Err(_) => None,
    };
    assert(views(parts@)[0] == parts@[0]@ && views(parts@)[1] == parts@[1]@ && views(parts@)[2] == parts@[2]@);
    Some(
        OshiSkill {
            kind: if special {
                OshiSkillKind::Special
            } else {
                OshiSkillKind::Normal
            },
            holo_power,
            name: Localized::jp(string_of(&trim_chars(&chars_of_string(&parts[1])))),
            ability_text: Localized::jp(string_of(&trim_chars(&chars_of_string(&parts[2])))),
        },
    )
}

/// Replaces a card's oshi skills by those of its page: each skill with its
/// texts, the special ones marked; a skill without exactly three texts is left out.
pub fn update_card_oshi_skills(card: &mut Card, skills: &Vec<(bool, Vec<String>)>)
    ensures
        final(card)@ == (CardView { oshi_skills: site_oshi_skills(skill_parts_view(skills@)), ..old(card)@ }),
{
    let ghost sv = skill_parts_view(skills@);
    let ghost f = |e: (bool, Seq<Seq<char>>)| site_oshi_skill(e.0, e.1);
    let mut out: Vec<OshiSkill> = Vec::new();
    let mut i: usize = 0;
    while i < skills.len()
        invariant
            i <= skills.len(),
            sv == skill_parts_view(skills@),
            f == (|e: (bool, Seq<Seq<char>>)| site_oshi_skill(e.0, e.1)),
            out@.map_values(|s: OshiSkill| s@) == somes(sv.take(i as int).map_values(f)),
        decreases skills.len() - i,
    {
        let r = site_oshi_skill_exec(skills[i].0, &skills[i].1);
        proof {
            assert(sv.take(i + 1).map_values(f).drop_last() == sv.take(i as int).map_values(f));
            assert(sv.take(i + 1).map_values(f).last() == f(sv[i as int]));
        }
        match r {
            Some(sk) => {
                let ghost before = out@;
                out.push(sk);
                assert(out@.map_values(|s: OshiSkill| s@) == before.map_values(|s: OshiSkill| s@).push(sk@));
            },
            None => {},
        }
        i = i + 1;
    }
    assert(sv.take(i as int) == sv);
    card.oshi_skills = out;
}

/// The trimmed lines of a text that are not empty.
pub open spec fn filled_lines(t: Seq<char>) -> Seq<Seq<char>> {
    trimmed_lines(t).filter(|l: Seq<char>| l.len() > 0)
}

/// The keyword effect that a Japanese effect name names.
pub open spec fn site_effect(e: Seq<char>) -> KeywordEffect {
    if e == "コラボエフェクト"@ {
        KeywordEffect::Collab
    } else if e == "ブルームエフェクト"@ {
        KeywordEffect::Bloom
    } else if e == "ギフト"@ {
        KeywordEffect::Gift
    } else {
        KeywordEffect::Other
    }
}

/// A keyword from its texts, a line each: effect, name, then the ability
/// text; a keyword without a name or an ability text is left out.
pub open spec fn site_keyword(t: Seq<char>) -> Option<KeywordView> {
    let ls = filled_lines(t);
    if ls.len() < 2 {
        None
    } else {
        let text = join(ls.skip(2), "\n"@);
        if trim(text).len() == 0 {
            None
        } else {
            Some(
                KeywordView {
                    effect: site_effect(trim(ls[0])),
                    name: (Some(trim(ls[1])), None),
                    ability_text: (Some(trim(text)), None),
                },
            )
        }
    }
}

fn filled_lines_of(t: &Vec<char>) -> (r: Vec<Vec<char>>)
    ensures
        char_views(r@) == filled_lines(t@),
{
    let ls = trimmed_lines_of(t);
    let ghost all = trimmed_lines(t@);
    let ghost f = |l: Seq<char>| l.len() > 0;
    let mut out: Vec<Vec<char>> = Vec::new();
    let mut i: usize = 0;
    while i < ls.len()
        invariant
            i <= ls.len(),
            all == trimmed_lines(t@),
            ls@.len() == all.len(),
            forall|k: int| 0 <= k < ls@.len() ==> #[trigger] ls@[k]@ == all[k],
            f == (|l: Seq<char>| l.len() > 0),
            char_views(out@) == all.take(i as int).filter(f),
        decreases ls.len() - i,
    {
        proof {
            assert(all.take(i + 1) == all.take(i as int).push(all[i as int]));
            all.take(i as int).lemma_filter_push(all[i as int], f);
        }
        if ls[i].len() > 0 {
            let ghost before = out@;
            out.push(ls[i].clone());
            assert(char_views(out@) == char_views(before).push(all[i as int]));
        }
        i = i + 1;
    }
    assert(all.take(i as int) == all);
    out
}

fn lines_from(v: &Vec<Vec<char>>, from: usize) -> (r: Vec<Vec<char>>)
    ensures
        char_views(r@) == char_views(v@).skip(if from < v@.len() { from as int } else { v@.len() as int }),
{
    let start = if from < v.len() {
        from
    } else {
        v.len()
    };
    let mut out: Vec<Vec<char>> = Vec::new();
    let mut i: usize = start;
    while i < v.len()
        invariant
            start <= i <= v.len(),
            char_views(out@) == char_views(v@).subrange(start as int, i as int),
        decreases v.len() - i,
    {
        let ghost before = out@;
        out.push(v[i].clone());
        assert(char_views(out@) == char_views(before).push(v@[i as int]@));
        assert(char_views(v@).subrange(start as int, i + 1) == char_views(v@).subrange(start as int, i as int).push(v@[i as int]@));
        i = i + 1;
    }
    assert(char_views(v@).subrange(start as int, i as int) == char_views(v@).skip(start as int));
    out
}

fn join_lines(v: &Vec<Vec<char>>) -> (r: Vec<char>)
    ensures
        r@ == join(char_views(v@), "\n"@),
{
    assert(v@.map_values(|p: Vec<char>| p@) == char_views(v@));
    join_chars(v, &chars_of("\n"))
}

fn site_keyword_exec(t: &String) -> (r: Option<Keyword>)
    ensures
        match r {
            Some(k) => site_keyword(t@) == Some(k@),
            None => site_keyword(t@).is_none(),
        },
{
    let ls = filled_lines_of(&chars_of_string(t));
    if ls.len() < 2 {
        return None;
    }
    let rest = lines_from(&ls, 2);
    let text = trim_chars(&join_lines(&rest));
    if text.len() == 0 {
        return None;
    }
    assert(char_views(ls@)[0] == ls@[0]@ && char_views(ls@)[1] == ls@[1]@);
    let e = trim_chars(&ls[0]);
    let effect = if eq(&e, &chars_of("コラボエフェクト")) {
        KeywordEffect::Collab
    } else if eq(&e, &chars_of("ブルームエフェクト")) {
        KeywordEffect::Bloom
    } else if eq(&e, &chars_of("ギフト")) {
        KeywordEffect::Gift
    } else {
        KeywordEffect::Other
    };
    Some(
        Keyword {
            effect,
            name: Localized::jp(string_of(&trim_chars(&ls[1]))),
            ability_text: Localized::jp(string_of(&text)),
        },
    )
}

/// Replaces a card's keywords by those of its page, given the text of each
/// (a line for each text or image of it).
pub fn update_card_keywords(card: &mut Card, keywords: &Vec<String>)
    ensures
        final(card)@ == (CardView {
            keywords: somes(views(keywords@).map_values(|t: Seq<char>| site_keyword(t))),
            ..old(card)@
        }),
{
    let ghost kv = views(keywords@);
    let ghost f = |t: Seq<char>| site_keyword(t);
    let mut out: Vec<Keyword> = Vec::new();
    let mut i: usize = 0;
    while i < keywords.len()
        invariant
            i <= keywords.len(),
            kv == views(keywords@),
            f == (|t: Seq<char>| site_keyword(t)),
            out@.map_values(|k: Keyword| k@) == somes(kv.take(i as int).map_values(f)),
        decreases keywords.len() - i,
    {
        let r = site_keyword_exec(&keywords[i]);
        proof {
            assert(kv.take(i + 1).map_values(f).drop_last() == kv.take(i as int).map_values(f));
            assert(kv.take(i + 1).map_values(f).last() == f(kv[i as int]));
        }
        match r {
            Some(k) => {
                let ghost before = out@;
                out.push(k);
                assert(out@.map_values(|k: Keyword| k@) == before.map_values(|k: Keyword| k@).push(k@));
            },
            None => {},
        }
        i = i + 1;
    }
    assert(kv.take(i as int) == kv);
    card.keywords = out;
}

// ---------------------------------------------------------------------------
// arts of the official card list
// ---------------------------------------------------------------------------
/// A line that is a single cheer icon: one character naming a color.
pub open spec fn is_cheer_line(l: Seq<char>) -> bool {
    colors_from_str(l).len() > 0 && l.len() <= 1
}

pub open spec fn not_cheer(l: Seq<char>) -> bool {
    !is_cheer_line(l)
}

/// The colors of the cheer lines, in order.
pub open spec fn cheers_of_lines(ls: Seq<Seq<char>>) -> Seq<Color>
    decreases ls.len(),
{
    if ls.len() == 0 {
        Seq::empty()
    } else {
        let rest = cheers_of_lines(ls.drop_last());
        if is_cheer_line(ls.last()) {
            rest + colors_from_str(ls.last())
        } else {
            rest
        }
    }
}

/// The lines other than cheer lines.
pub open spec fn text_lines(ls: Seq<Seq<char>>) -> Seq<Seq<char>> {
    ls.filter(|l: Seq<char>| not_cheer(l))
}

/// The color advantage line, the one after the name, split at its `+`.
pub open spec fn advantage_parts(kept: Seq<Seq<char>>) -> Option<(Seq<char>, Seq<char>)> {
    if kept.len() >= 2 {
        split_once(kept[1], "+"@)
    } else {
        None
    }
}

/// The lines of the ability text: those after the name and the line after
/// it, and after the line after a color advantage.
pub open spec fn art_text_lines(kept: Seq<Seq<char>>) -> Seq<Seq<char>> {
    if advantage_parts(kept) is Some {
        if kept.len() >= 3 {
            kept.skip(3)
        } else {
            Seq::empty()
        }
    } else if kept.len() >= 2 {
        kept.skip(2)
    } else {
        Seq::empty()
    }
}

/// The last position of `c` in `s`.
pub open spec fn last_index_of(s: Seq<char>, c: char) -> Option<int>
    decreases s.len(),
{
    if s.len() == 0 {
        None
    } else if s.last() == c {
        Some(s.len() - 1)
    } else {
        last_index_of(s.drop_last(), c)
    }
}

/// An art's name line split at its last ideographic space: name, then power.
pub open spec fn name_and_power(l: Seq<char>) -> (Seq<char>, Seq<char>) {
    match last_index_of(l, '\u{3000}') {
        Some(i) => (l.take(i), l.skip(i + 1)),
        None => (l, Seq::empty()),
    }
}

pub open spec fn power_or_uncertain(s: Seq<char>) -> ArtPower {
    match parse_art_power(s) {
        Some(p) => p,
        None => ArtPower::Uncertain,
    }
}

/// An art's color advantage names a color when there is one.
pub open spec fn art_advantage_ok(t: Seq<char>) -> bool {
    advantage_parts(text_lines(trimmed_lines(t))) matches Some((a, _p)) ==> colors_from_str(a).len() > 0
}

/// An art from its text, a line for each text or image of it: the cheer
/// icons, the name with its power after the last ideographic space, a color
/// advantage `color+amount`, then the ability text; none without a name.
pub open spec fn site_art(t: Seq<char>) -> Option<ArtView> {
    let ls = trimmed_lines(t);
    let kept = text_lines(ls);
    if kept.len() == 0 {
        None
    } else {
        let np = name_and_power(kept[0]);
        let text = join(art_text_lines(kept).filter(|l: Seq<char>| l.len() > 0), "\n"@);
        Some(
            ArtView {
                cheers: cheers_of_lines(ls),
                name: (Some(trim(np.0)), None),
                power: power_or_uncertain(np.1),
                advantage: match advantage_parts(kept) {
                    Some((a, p)) => Some((colors_from_str(a)[0], u32_or_zero(p))),
                    None => None,
                },
                ability_text: if trim(text).len() == 0 {
                    None
                } else {
                    Some((Some(trim(text)), None))
                },
            },
        )
    }
}

fn last_index_of_exec(s: &Vec<char>, c: char) -> (r: Option<usize>)
    ensures
        match r {
            Some(i) => last_index_of(s@, c) == Some(i as int) && i < s@.len(),
            None => last_index_of(s@, c) is None,
        },
{
    let mut j: usize = s.len();
    assert(s@.take(j as int) =~= s@);
    while j > 0
        invariant
            j <= s.len(),
            last_index_of(s@, c) == last_index_of(s@.take(j as int), c),
        decreases j,
    {
        assert(s@.take(j as int).drop_last() =~= s@.take(j - 1));
        assert(s@.take(j as int).last() == s@[j - 1]);
        if s[j - 1] == c {
            return Some(j - 1);
        }
        j = j - 1;
    }
    None
}

/// Whether an art's color advantage, when it has one, names a color.
pub fn art_advantage_valid(t: &String) -> (r: bool)
    ensures
        r == art_advantage_ok(t@),
{
    let ls = trimmed_lines_of(&chars_of_string(t));
    let ghost all = trimmed_lines(t@);
    let ghost f = |l: Seq<char>| not_cheer(l);
    let mut kept: Vec<Vec<char>> = Vec::new();
    let mut i: usize = 0;
    while i < ls.len()
        invariant
            i <= ls.len(),
            all == trimmed_lines(t@),
            ls@.len() == all.len(),
            forall|k: int| 0 <= k < ls@.len() ==> #[trigger] ls@[k]@ == all[k],
            f == (|l: Seq<char>| not_cheer(l)),
            char_views(kept@) == all.take(i as int).filter(f),
        decreases ls.len() - i,
    {
        proof {
            assert(all.take(i + 1) =~= all.take(i as int).push(all[i as int]));
            all.take(i as int).lemma_filter_push(all[i as int], f);
        }
        let cs = colors_of(&ls[i]);
        if !(cs.len() > 0 && ls[i].len() <= 1) {
            let ghost before = kept@;
            kept.push(ls[i].clone());
            assert(char_views(kept@) =~= char_views(before).push(all[i as int]));
        }
        i = i + 1;
    }
    assert(all.take(i as int) =~= all);
    let ghost kv = char_views(kept@);
    if kept.len() < 2 {
        return true;
    }
    assert(kv[1] == kept@[1]@);
    match split_once_str(&kept[1], "+") {
        Some((a, _p)) => colors_of(&a).len() > 0,
        None => true,
    }
}

/// Whether every art of the page names a color for its advantage when it has one.
pub fn page_arts_valid(page: &HololiveCard) -> (r: bool)
    ensures
        r == page_arts_ok(*page),
{
    let mut i: usize = 0;
    while i < page.arts.len()
        invariant
            i <= page.arts.len(),
            forall|k: int| 0 <= k < i ==> art_advantage_ok((#[trigger] page.arts@[k])@),
        decreases page.arts.len() - i,
    {
        if !art_advantage_valid(&page.arts[i]) {
            return false;
        }
        i = i + 1;
    }
    true
}

fn site_art_exec(t: &String) -> (r: Option<Art>)
    requires
        art_advantage_ok(t@),
    ensures
        match r {
            Some(a) => site_art(t@) == Some(a@),
            None => site_art(t@) is None,
        },
{
    let ls = trimmed_lines_of(&chars_of_string(t));
    let ghost all = trimmed_lines(t@);
    let ghost f = |l: Seq<char>| not_cheer(l);
    let mut cheers: Vec<Color> = Vec::new();
    let mut kept: Vec<Vec<char>> = Vec::new();
    let mut i: usize = 0;
    while i < ls.len()
        invariant
            i <= ls.len(),
            all == trimmed_lines(t@),
            ls@.len() == all.len(),
            forall|k: int| 0 <= k < ls@.len() ==> #[trigger] ls@[k]@ == all[k],
            f == (|l: Seq<char>| not_cheer(l)),
            char_views(kept@) == all.take(i as int).filter(f),
            cheers@ == cheers_of_lines(all.take(i as int)),
        decreases ls.len() - i,
    {
        proof {
            assert(all.take(i + 1) =~= all.take(i as int).push(all[i as int]));
            all.take(i as int).lemma_filter_push(all[i as int], f);
            assert(all.take(i + 1).drop_last() =~= all.take(i as int));
        }
        let cs = colors_of(&ls[i]);
        if cs.len() > 0 && ls[i].len() <= 1 {
            let ghost c0 = cheers@;
            let mut more = cs;
            cheers.append(&mut more);
            assert(cheers@ =~= c0 + colors_from_str(all[i as int]));
        } else {
            let ghost before = kept@;
            kept.push(ls[i].clone());
            assert(char_views(kept@) =~= char_views(before).push(all[i as int]));
        }
        i = i + 1;
    }
    assert(all.take(i as int) =~= all);
    let ghost kv = char_views(kept@);
    if kept.len() == 0 {
        return None;
    }
    assert(kv[0] == kept@[0]@);
    let name_line = &kept[0];
    let (name, power) = match last_index_of_exec(name_line, '\u{3000}') {
        Some(k) => (slice_chars(name_line, 0, k), slice_chars(name_line, k + 1, name_line.len())),
        None => (name_line.clone(), Vec::new()),
    };
    proof {
        assert(name@ == name_and_power(kv[0]).0);
        assert(power@ =~= name_and_power(kv[0]).1);
    }
    let mut advantage: Option<(Color, u32)> = None;
    let mut start: usize = if kept.len() >= 2 { 2 } else { kept.len() };
    if kept.len() >= 2 {
        assert(kv[1] == kept@[1]@);
        match split_once_str(&kept[1], "+") {
            Some((a, p)) => {
                let ac = colors_of(&a);
                let amount = match parse_u32_chars(&p) {
                    Some(n) => n,
                    None => 0,
                };
                advantage = Some((ac[0], amount));
                start = if kept.len() >= 3 { 3 } else { kept.len() };
            },
            None => {},
        }
    }
    let rest = lines_from(&kept, start);
    assert(char_views(rest@) =~= art_text_lines(kv));
    let ghost rv = char_views(rest@);
    let ghost g = |l: Seq<char>| l.len() > 0;
    let mut filled: Vec<Vec<char>> = Vec::new();
    let mut k: usize = 0;
    while k < rest.len()
        invariant
            k <= rest.len(),
            rv == char_views(rest@),
            g == (|l: Seq<char>| l.len() > 0),
            char_views(filled@) == rv.take(k as int).filter(g),
        decreases rest.len() - k,
    {
        proof {
            assert(rv.take(k + 1) =~= rv.take(k as int).push(rv[k as int]));
            rv.take(k as int).lemma_filter_push(rv[k as int], g);
        }
        assert(rv[k as int] == rest@[k as int]@);
        if rest[k].len() > 0 {
            let ghost before = filled@;
            filled.push(rest[k].clone());
            assert(char_views(filled@) =~= char_views(before).push(rv[k as int]));
        }
        k = k + 1;
    }
    assert(rv.take(k as int) =~= rv);
    let text = trim_chars(&join_lines(&filled));
    let power_value = match ArtPower::parse_chars(&power) {
        Ok(p) => p,
        Err(_) => ArtPower::Uncertain,
    };
    Some(
        Art {
            cheers,
            name: Localized::jp(string_of(&trim_chars(&name))),
            power: power_value,
            advantage,
            ability_text: if text.len() == 0 {
                None
            } else {
                Some(Localized::jp(string_of(&text)))
            },
        },
    )
}

/// Replaces a card's arts by those of its page, given the text of each (a
/// line for each text or image of it); an art without a name is left out.
pub fn update_card_arts(card: &mut Card, arts: &Vec<String>)
    requires
        forall|k: int| 0 <= k < arts@.len() ==> art_advantage_ok((#[trigger] arts@[k])@),
    ensures
        final(card)@ == (CardView {
            arts: somes(views(arts@).map_values(|t: Seq<char>| site_art(t))),
            ..old(card)@
        }),
{
    let ghost av = views(arts@);
    let ghost f = |t: Seq<char>| site_art(t);
    let mut out: Vec<Art> = Vec::new();
    let mut i: usize = 0;
    while i < arts.len()
        invariant
            i <= arts.len(),
            av == views(arts@),
            forall|k: int| 0 <= k < arts@.len() ==> art_advantage_ok((#[trigger] arts@[k])@),
            f == (|t: Seq<char>| site_art(t)),
            out@.map_values(|a: Art| a@) == somes(av.take(i as int).map_values(f)),
        decreases arts.len() - i,
    {
        let r = site_art_exec(&arts[i]);
        proof {
            assert(av.take(i + 1).map_values(f).drop_last() == av.take(i as int).map_values(f));
            assert(av.take(i + 1).map_values(f).last() == f(av[i as int]));
        }
        match r {
            Some(a) => {
                let ghost before = out@;
                out.push(a);
                assert(out@.map_values(|a: Art| a@) == before.map_values(|a: Art| a@).push(a@));
            },
            None => {},
        }
        i = i + 1;
    }
    assert(av.take(i as int) == av);
    card.arts = out;
}

// ---------------------------------------------------------------------------
// illustrators, from each card's own page
// ---------------------------------------------------------------------------
/// The query pairs of `href` resolved against `base`, in order; none when
/// either address does not parse.
pub uninterp spec fn joined_query_pairs(base: Seq<char>, href: Seq<char>) -> Option<Seq<(Seq<char>, Seq<char>)>>;

pub open spec fn pairs_view(r: Option<Vec<(String, String)>>) -> Option<Seq<(Seq<char>, Seq<char>)>> {
    match r {
        Some(v) => Some(v@.map_values(|e: (String, String)| (e.0@, e.1@))),
        None => None,
    }
}

/// `reqwest::Url::parse` of `base`, `Url::join` of `href`, then
/// `Url::query_pairs` of the result, each pair as two strings. The contract
/// names the result; where either address does not parse, the result is none.
#[verifier::external_body]
fn joined_query(base: &str, href: &str) -> (r: Option<Vec<(String, String)>>)
    ensures
        pairs_view(r) == joined_query_pairs(base@, href@),
{
    match reqwest::Url::parse(base).and_then(|u| u.join(href)) {
        Ok(u) => Some(u.query_pairs().into_owned().collect()),
        Err(_) => None,
    }
}

/// The value of the first pair whose key is `id`.
pub open spec fn first_id(pairs: Seq<(Seq<char>, Seq<char>)>) -> Option<Seq<char>>
    decreases pairs.len(),
{
    if pairs.len() == 0 {
        None
    } else if pairs[0].0 == "id"@ {
        Some(pairs[0].1)
    } else {
        first_id(pairs.drop_first())
    }
}

/// The value of the first query pair whose key is `id`.
pub fn first_id_value(pairs: &Vec<(String, String)>) -> (r: Option<String>)
    ensures
        opt_view(r) == first_id(pairs@.map_values(|e: (String, String)| (e.0@, e.1@))),
{
    let ghost pv = pairs@.map_values(|e: (String, String)| (e.0@, e.1@));
    proof {
        reveal_strlit("id");
        assert(pv.skip(0) =~= pv);
    }
    let mut k: usize = 0;
    while k < pairs.len()
        invariant
            k <= pairs.len(),
            pv == pairs@.map_values(|e: (String, String)| (e.0@, e.1@)),
            first_id(pv) == first_id(pv.skip(k as int)),
        decreases pairs.len() - k,
    {
        assert(pv.skip(k as int).drop_first() =~= pv.skip(k + 1));
        assert(pv.skip(k as int)[0] == pv[k as int]);
        if eq(&chars_of_string(&pairs[k].0), &chars_of("id")) {
            return Some(pairs[k].1.clone());
        }
        k = k + 1;
    }
    assert(pv.skip(k as int) =~= Seq::<(Seq<char>, Seq<char>)>::empty());
    None
}

/// The printing a card page stands for: it has no illustrator yet, and its
/// Japanese Deck Log ids hold the page's id (or, when the id is not a
/// number, it has no Japanese id).
pub open spec fn page_printing(il: CardIllustrationView, page_id: Seq<char>) -> bool {
    il.illustrator is None && match parse_u32(page_id) {
        Some(id) => il.manage_id.0 matches Some(s) && s.contains(id),
        None => il.manage_id.0 is None,
    }
}

/// The first printing from `k` on that a card page stands for.
pub open spec fn find_page_printing(ils: Seq<CardIllustrationView>, page_id: Seq<char>, k: int) -> Option<int>
    decreases ils.len() - k,
{
    if k < 0 || k >= ils.len() {
        None
    } else if page_printing(ils[k], page_id) {
        Some(k)
    } else {
        find_page_printing(ils, page_id, k + 1)
    }
}

/// Ids are ordered as numbers are.
proof fn lemma_page_ids_ordered()
    ensures
        vstd::laws_cmp::obeys_cmp::<u32>(),
{
    broadcast use vstd::laws_cmp::group_laws_cmp;
}

fn page_printing_exec(il: &CardIllustration, id: Option<u32>) -> (r: bool)
    ensures
        forall|page_id: Seq<char>| parse_u32(page_id) == id ==> r == page_printing(il@, page_id),
{
    if il.illustrator.is_some() {
        return false;
    }
    match id {
        Some(x) => match &il.manage_id.japanese {
            Some(s) => {
                proof {
                    lemma_page_ids_ordered();
                }
                s.contains(&x)
            },
            None => false,
        },
        None => il.manage_id.japanese.is_none(),
    }
}

/// Finds the printing that a card page, with `page_id`, stands for.
pub fn find_illustration_for_page(card: &Card, page_id: &String) -> (r: Option<usize>)
    ensures
        match r {
            Some(k) => find_page_printing(card@.illustrations, page_id@, 0) == Some(k as int),
            None => find_page_printing(card@.illustrations, page_id@, 0) is None,
        },
{
    let id = parse_u32_chars(&chars_of_string(page_id));
    let mut k: usize = 0;
    while k < card.illustrations.len()
        invariant
            k <= card.illustrations.len(),
            id == parse_u32(page_id@),
            find_page_printing(card@.illustrations, page_id@, 0) == find_page_printing(card@.illustrations, page_id@, k as int),
        decreases card.illustrations.len() - k,
    {
        assert(card@.illustrations[k as int] == card.illustrations@[k as int]@);
        if page_printing_exec(&card.illustrations[k], id) {
            return Some(k);
        }
        k = k + 1;
    }
    None
}

/// The printing whose illustrator a card's page gives, when one still needs
/// it: the page is `href` resolved against `base`. None when the address
/// does not resolve (where the tool stops); otherwise the printing, if the
/// page has an `id` and a printing stands for it.
pub fn update_card_illustrations(card: &Card, base: &str, href: &str) -> (r: Option<Option<usize>>)
    ensures
        match joined_query_pairs(base@, href@) {
            None => r is None,
            Some(pairs) => match first_id(pairs) {
                Some(id) => match r {
                    Some(Some(k)) => find_page_printing(card@.illustrations, id, 0) == Some(k as int),
                    Some(None) => find_page_printing(card@.illustrations, id, 0) is None,
                    None => false,
                },
                None => r == Some(None::<usize>),
            },
        },
{
    match joined_query(base, href) {
        Some(pairs) => match first_id_value(&pairs) {
            Some(id) => Some(find_illustration_for_page(card, &id)),
            None => Some(None),
        },
        None => None,
    }
}

/// Records the illustrator a printing's page gives (empty when it gives
/// none, so that the page is not asked again).
pub fn record_illustrator(card: &mut Card, k: usize, illustrator: String)
    requires
        k < old(card)@.illustrations.len(),
    ensures
        final(card)@ == (CardView {
            illustrations: old(card)@.illustrations.update(
                k as int,
                CardIllustrationView { illustrator: Some(illustrator@), ..old(card)@.illustrations[k as int] },
            ),
            ..old(card)@
        }),
{
    let ghost c0 = card@;
    let mut il = CardIllustration::default();
    card.illustrations.set_and_swap(k, &mut il);
    assert(il@ == c0.illustrations[k as int]);
    il.illustrator = Some(illustrator);
    card.illustrations.set(k, il);
    assert(card@.illustrations =~= c0.illustrations.update(k as int, il@));
}

// ---------------------------------------------------------------------------
// a card of the official card list
// ---------------------------------------------------------------------------
/// What a card of the official card list shows, as its page gives it.
#[derive(Debug, Clone)]
pub struct HololiveCard {
    pub card_number: String,
    pub name: Option<String>,
    pub rows: Vec<InfoRow>,
    pub extra: Option<String>,
    /// Each oshi skill's texts, the special ones marked.
    pub oshi_skills: Vec<(bool, Vec<String>)>,
    /// Each keyword's text, a line for each text or image of it.
    pub keywords: Vec<String>,
    /// Each art's text, a line for each text or image of it.
    pub arts: Vec<String>,
}

/// Every art of the page names a color for its advantage when it has one.
pub open spec fn page_arts_ok(page: HololiveCard) -> bool {
    forall|k: int| 0 <= k < page.arts@.len() ==> art_advantage_ok((#[trigger] page.arts@[k])@)
}

/// A card after its entry of the official card list: information, oshi
/// skills, keywords and arts.
pub open spec fn hololive_applied(c: CardView, page: HololiveCard) -> CardView {
    let c1 = card_info_applied(c, opt_view(page.name), page.rows@, opt_view(page.extra));
    CardView {
        oshi_skills: site_oshi_skills(skill_parts_view(page.oshi_skills@)),
        keywords: somes(views(page.keywords@).map_values(|t: Seq<char>| site_keyword(t))),
        arts: somes(views(page.arts@).map_values(|t: Seq<char>| site_art(t))),
        ..c1
    }
}

/// Reads a card of the official card list into the card with its number;
/// returns that card's position, or none (and changes nothing) when the
/// database has no such card.
pub fn apply_hololive_card(all_cards: &mut Vec<Card>, page: &HololiveCard) -> (r: Option<usize>)
    requires
        page_arts_ok(*page),
    ensures
        match find_card(card_views(old(all_cards)@), page.card_number@, 0) {
            Some(i) => r == Some(i as usize) && card_views(final(all_cards)@) == card_views(old(all_cards)@).update(
                i,
                hololive_applied(card_views(old(all_cards)@)[i], *page),
            ),
            None => r is None && final(all_cards)@ == old(all_cards)@,
        },
        cards_distinct(card_views(old(all_cards)@)) ==> cards_distinct(card_views(final(all_cards)@)),
{
    let ghost db = card_views(all_cards@);
    proof {
        lemma_find_card_bounds(db, page.card_number@, 0);
        if cards_distinct(db) {
            if let Some(i) = find_card(db, page.card_number@, 0) {
                let c0 = db[i];
                let c1 = if c0.name.0 is None {
                    CardView { name: (opt_view(page.name), c0.name.1), ..c0 }
                } else {
                    c0
                };
                lemma_infos_keep_number(c1, page.rows@);
                lemma_cards_distinct_update(db, i, hololive_applied(db[i], *page));
            }
        }
    }
    match find_card_index(all_cards, &page.card_number) {
        Some(i) => {
            let mut card = Card::default();
            all_cards.set_and_swap(i, &mut card);
            assert(card@ == db[i as int]);
            update_card_info(&mut card, copy_opt_string(&page.name), &page.rows, copy_opt_string(&page.extra));
            update_card_oshi_skills(&mut card, &page.oshi_skills);
            update_card_keywords(&mut card, &page.keywords);
            update_card_arts(&mut card, &page.arts);
            all_cards.set(i, card);
            assert(card_views(all_cards@) =~= db.update(i as int, card@));
            Some(i)
        },
        None => None,
    }
}


/// A row of the card's information whose key reads "LIFE" or "HP" (in any
/// case) and whose value is the decimal number `n` sets the card's life, or
/// its HP, to `n` and leaves the other unchanged.
pub proof fn lemma_info_life_hp(c: CardView, r: InfoRow, n: u32)
    requires
        info_value(r) == decimal(n as nat),
    ensures
        lowercase(r.key@) == "life"@ ==> info_applied(c, r).life == n && info_applied(c, r).hp == c.hp,
        lowercase(r.key@) == "hp"@ ==> info_applied(c, r).hp == n && info_applied(c, r).life == c.life,
{
    reveal_strlit("life");
    reveal_strlit("hp");
    reveal_strlit("カードタイプ");
    reveal_strlit("タグ");
    reveal_strlit("色");
    lemma_parse_decimal(n as nat, u32::MAX as nat);
    assert(parse_u32(decimal(n as nat)) == Some(n));
    assert(u32_or_zero(info_value(r)) == n);
    assert("life"@.len() == 4);
    assert("life"@ != "カードタイプ"@);
    assert("life"@ != "タグ"@);
    assert("life"@ != "色"@);
    assert("hp"@ != "life"@);
    assert("hp"@.len() == 2);
    assert("カードタイプ"@.len() == 6);
    assert("hp"@ != "カードタイプ"@);
    assert("hp"@[0] == 'h' && "タグ"@[0] == 'タ');
    assert("hp"@ != "タグ"@);
    assert("hp"@ != "色"@);
}

} // verus!
