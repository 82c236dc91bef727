//! Cards of the fan translation spreadsheet: the fields of a row, and how
//! they are read into the card model.
use vstd::prelude::*;
use crate::text::{chars_of, chars_of_string, contains, contains_str, ends_with, ends_with_str, eq, join, join_chars, lines, lowercase, parse_u32, parse_u32_chars, parse_uint, parse_uint_chars, push_all, replace, replace_str, split, split_char, split_once, split_once_str, starts_with, starts_with_chars, starts_with_str, string_of, to_lowercase, trim, trim_chars, trim_end_once, trim_end_once_chars, trim_start_once, trim_start_once_chars, trimmed_lines, trimmed_lines_of};
use crate::model::{Art, ArtPower, ArtView, BloomLevel, Card, CardType, CardView, Color, HoloPower, Keyword, KeywordEffect, KeywordView, Language, Localized, OshiSkill, OshiSkillKind, OshiSkillView, SupportType, TextPair, char_views, copy_opt_string, opt_texts, parse_art_power, parse_holo_power, views};


use vstd::pervasive::VecAdditionalExecFns;













verus! {

/// One image of one row of the fan spreadsheet, with the row's texts.
#[derive(Debug, Clone)]
pub struct SheetCard {
    pub row_idx: usize,
    pub set_code: String,
    pub card_name_jp_en: String,
    pub language: Language,
    pub images_src: String,
    pub full_size_img_url: String,
    pub hash_img_url: String,
    pub card_type: String,
    pub rarity: String,
    pub color: String,
    pub life_hp: String,
    pub tags: String,
    pub text: String,
}

/// Turns vectors of characters into their views.
pub proof fn lemma_char_views(v: Seq<Vec<char>>, x: Seq<Seq<char>>)
    requires
        v.len() == x.len(),
        forall|k: int| 0 <= k < v.len() ==> #[trigger] v[k]@ == x[k],
    ensures
        char_views(v) == x,
{
    assert(char_views(v) =~= x);
}

/// The name of a card: `JP\n(EN)` gives both names, a single name stands for both.
pub open spec fn sheet_name(s: Seq<char>) -> (Seq<char>, Seq<char>) {
    match split_once(s, "\n("@) {
        Some((jp, en)) => (trim(jp), trim(trim_end_once(trim_start_once(en, "("@), ")"@))),
        None => (trim(s), trim(s)),
    }
}

/// The card type that the type column names.
pub open spec fn sheet_card_type(s: Seq<char>) -> CardType {
    let t = lowercase(trim(s));
    if contains(t, "oshi"@) {
        CardType::OshiHoloMember
    } else if contains(t, "holomem"@) {
        CardType::HoloMember
    } else if contains(t, "staff"@) {
        CardType::Support(SupportType::Staff)
    } else if contains(t, "item"@) {
        CardType::Support(SupportType::Item)
    } else if contains(t, "event"@) {
        CardType::Support(SupportType::Event)
    } else if contains(t, "tool"@) {
        CardType::Support(SupportType::Tool)
    } else if contains(t, "mascot"@) {
        CardType::Support(SupportType::Mascot)
    } else if contains(t, "fan"@) {
        CardType::Support(SupportType::Fan)
    } else if t == "cheer"@ {
        CardType::Cheer
    } else {
        CardType::Other
    }
}

/// The color that a lowercase color word names in the color column.
pub open spec fn color_word(s: Seq<char>) -> Option<Color> {
    if s == "white"@ {
        Some(Color::White)
    } else if s == "green"@ {
        Some(Color::Green)
    } else if s == "red"@ {
        Some(Color::Red)
    } else if s == "blue"@ {
        Some(Color::Blue)
    } else if s == "purple"@ {
        Some(Color::Purple)
    } else if s == "yellow"@ {
        Some(Color::Yellow)
    } else if s == "none"@ {
        Some(Color::Colorless)
    } else {
        None
    }
}

/// The colors of the pieces of `ps` that name one, in order.
pub open spec fn colors_of_words(ps: Seq<Seq<char>>) -> Seq<Color>
    decreases ps.len(),
{
    if ps.len() == 0 {
        Seq::empty()
    } else {
        let rest = colors_of_words(ps.drop_last());
        match color_word(lowercase(trim(ps.last()))) {
            Some(c) => rest.push(c),
            None => rest,
        }
    }
}

/// The colors of the color column, `/` between them.
pub open spec fn sheet_colors(s: Seq<char>) -> Seq<Color> {
    colors_of_words(split(s, seq!['/']))
}

/// The bloom level that the type column names.
pub open spec fn sheet_bloom_level(s: Seq<char>) -> Option<BloomLevel> {
    let t = lowercase(trim(s));
    if contains(t, "1st"@) {
        Some(BloomLevel::First)
    } else if contains(t, "2nd"@) {
        Some(BloomLevel::Second)
    } else if contains(t, "debut"@) {
        Some(BloomLevel::Debut)
    } else if contains(t, "spot"@) {
        Some(BloomLevel::Spot)
    } else {
        None
    }
}

/// A line of the text column that is kept as card text: not the
/// "LIMITED:" line and not a bracketed translator's comment.
pub open spec fn is_text_line(l: Seq<char>) -> bool {
    !starts_with(lowercase(l), "limited:"@) && !(starts_with(l, "["@) && ends_with(l, "]"@))
}

/// The card text of the text column: its trimmed lines that are card text,
/// joined by line feeds and trimmed.
pub open spec fn sheet_text(s: Seq<char>) -> Seq<char> {
    trim(join(trimmed_lines(s).filter(|l: Seq<char>| is_text_line(l)), "\n"@))
}

/// The tags of the tags column: each non-empty trimmed piece between `#`, with `#` before it.
pub open spec fn sheet_tags(s: Seq<char>) -> Seq<Seq<char>> {
    split(s, seq!['#']).map_values(|p: Seq<char>| trim(p)).filter(|p: Seq<char>| p.len() > 0).map_values(
        |p: Seq<char>| "#"@ + p,
    )
}

/// An English-only localized text.
pub open spec fn en_text(s: Seq<char>, l: Localized<String>) -> bool {
    l.japanese.is_none() && (l.english matches Some(e) && e@ == s)
}

fn lowercase_trimmed(s: &String) -> (r: Vec<char>)
    ensures
        r@ == lowercase(trim(s@)),
{
    let v = chars_of_string(s);
    to_lowercase(&trim_chars(&v))
}

/// The color that a lowercase color word names.
fn color_word_exec(s: &Vec<char>) -> (r: Option<Color>)
    ensures
        r == color_word(s@),
{
    if eq(s, &chars_of("white")) {
        Some(Color::White)
    } else if eq(s, &chars_of("green")) {
        Some(Color::Green)
    } else if eq(s, &chars_of("red")) {
        Some(Color::Red)
    } else if eq(s, &chars_of("blue")) {
        Some(Color::Blue)
    } else if eq(s, &chars_of("purple")) {
        Some(Color::Purple)
    } else if eq(s, &chars_of("yellow")) {
        Some(Color::Yellow)
    } else if eq(s, &chars_of("none")) {
        Some(Color::Colorless)
    } else {
        None
    }
}

fn en_localized(s: Vec<char>) -> (r: Localized<String>)
    ensures
        en_text(s@, r),
{
    Localized::en(string_of(&s))
}

impl SheetCard {
    /// The Japanese and English names.
    pub fn name(&self) -> (r: Localized<String>)
        ensures
            r.japanese matches Some(j) && j@ == sheet_name(self.card_name_jp_en@).0,
            r.english matches Some(e) && e@ == sheet_name(self.card_name_jp_en@).1,
    {
        let s = chars_of_string(&self.card_name_jp_en);
        match split_once_str(&s, "\n(") {
            Some((jp, en)) => {
                let e1 = trim_start_once_chars(&en, "(");
                let e2 = trim_end_once_chars(&e1, ")");
                Localized::both(string_of(&trim_chars(&jp)), string_of(&trim_chars(&e2)))
            },
            None => {
                let t = trim_chars(&s);
                Localized::both(string_of(&t), string_of(&t))
            },
        }
    }

    /// The card type.
    pub fn card_type(&self) -> (r: CardType)
        ensures
            r == sheet_card_type(self.card_type@),
    {
        let t = lowercase_trimmed(&self.card_type);
        if contains_str(&t, "oshi") {
            CardType::OshiHoloMember
        } else if contains_str(&t, "holomem") {
            CardType::HoloMember
        } else if contains_str(&t, "staff") {
            CardType::Support(SupportType::Staff)
        } else if contains_str(&t, "item") {
            CardType::Support(SupportType::Item)
        } else if contains_str(&t, "event") {
            CardType::Support(SupportType::Event)
        } else if contains_str(&t, "tool") {
            CardType::Support(SupportType::Tool)
        } else if contains_str(&t, "mascot") {
            CardType::Support(SupportType::Mascot)
        } else if contains_str(&t, "fan") {
            CardType::Support(SupportType::Fan)
        } else if eq(&t, &chars_of("cheer")) {
            CardType::Cheer
        } else {
            CardType::Other
        }
    }

    /// The colors.
    pub fn colors(&self) -> (r: Vec<Color>)
        ensures
            r@ == sheet_colors(self.color@),
    {
        let s = chars_of_string(&self.color);
        let parts = split_char(&s, '/');
        let mut out: Vec<Color> = Vec::new();
        let mut i: usize = 0;
        while i < parts.len()
            invariant
                i <= parts.len(),
                parts@.len() == split(s@, seq!['/']).len(),
                forall|k: int| 0 <= k < parts@.len() ==> #[trigger] parts@[k]@ == split(s@, seq!['/'])[k],
                out@ == colors_of_words(split(s@, seq!['/']).take(i as int)),
            decreases parts.len() - i,
        {
            proof {
                let ps = split(s@, seq!['/']);
                assert(ps.take(i + 1).drop_last() == ps.take(i as int));
                assert(ps.take(i + 1).last() == parts@[i as int]@);
            }
            let w = to_lowercase(&trim_chars(&parts[i]));
            match color_word_exec(&w) {
                Some(c) => out.push(c),
                None => {},
            }
            i = i + 1;
        }
        assert(split(s@, seq!['/']).take(i as int) == split(s@, seq!['/']));
        out
    }

    /// The bloom level.
    pub fn bloom_level(&self) -> (r: Option<BloomLevel>)
        ensures
            r == sheet_bloom_level(self.card_type@),
    {
        let t = lowercase_trimmed(&self.card_type);
        if contains_str(&t, "1st") {
            Some(BloomLevel::First)
        } else if contains_str(&t, "2nd") {
            Some(BloomLevel::Second)
        } else if contains_str(&t, "debut") {
            Some(BloomLevel::Debut)
        } else if contains_str(&t, "spot") {
            Some(BloomLevel::Spot)
        } else {
            None
        }
    }

    /// A buzz holomem.
    pub fn buzz(&self) -> (r: bool)
        ensures
            r == contains(lowercase(trim(self.card_type@)), "buzz"@),
    {
        contains_str(&lowercase_trimmed(&self.card_type), "buzz")
    }

    /// A limited support card.
    pub fn limited(&self) -> (r: bool)
        ensures
            r == contains(lowercase(trim(self.text@)), "limited:"@),
    {
        contains_str(&lowercase_trimmed(&self.text), "limited:")
    }

    /// The card text, without the limited line and translator's comments.
    pub fn text(&self) -> (r: String)
        ensures
            r@ == sheet_text(self.text@),
    {
        let s = chars_of_string(&self.text);
        let ls = trimmed_lines_of(&s);
        let ghost all = trimmed_lines(s@);
        let mut kept: Vec<Vec<char>> = Vec::new();
        let mut i: usize = 0;
        while i < ls.len()
            invariant
                i <= ls.len(),
                all == trimmed_lines(s@),
                ls@.len() == all.len(),
                forall|k: int| 0 <= k < ls@.len() ==> #[trigger] ls@[k]@ == all[k],
                char_views(kept@) == all.take(i as int).filter(|l: Seq<char>| is_text_line(l)),
            decreases ls.len() - i,
        {
            let l = &ls[i];
            let lower = to_lowercase(l);
            let keep = !starts_with_str(&lower, "limited:") && !(starts_with_str(l, "[")
                && ends_with_str(l, "]"));
            proof {
                let f = |l: Seq<char>| is_text_line(l);
                assert(all.take(i + 1).drop_last() == all.take(i as int));
                assert(all.take(i + 1).last() == l@);
                all.take(i as int).lemma_filter_push(l@, f);
                assert(all.take(i as int).push(l@) == all.take(i + 1));
            }
            if keep {
                let ghost before = kept@;
                kept.push(l.clone());
                assert(char_views(kept@) == char_views(before).push(l@));
            }
            i = i + 1;
        }
        assert(all.take(i as int) == all);
        let joined = join_chars(&kept, &chars_of("\n"));
        assert(kept@.map_values(|p: Vec<char>| p@) == char_views(kept@));
        string_of(&trim_chars(&joined))
    }

    /// The tags, each with `#` before it.
    pub fn tags(&self) -> (r: Vec<Localized<String>>)
        ensures
            r@.len() == sheet_tags(self.tags@).len(),
            forall|k: int| 0 <= k < r@.len() ==> en_text(sheet_tags(self.tags@)[k], #[trigger] r@[k]),
    {
        let s = chars_of_string(&self.tags);
        let parts = split_char(&s, '#');
        let ghost ps = split(s@, seq!['#']);
        let ghost trimmed = ps.map_values(|p: Seq<char>| trim(p));
        let ghost nonempty = |p: Seq<char>| p.len() > 0;
        let mut out: Vec<Localized<String>> = Vec::new();
        let ghost mut kept: Seq<Seq<char>> = Seq::empty();
        let mut i: usize = 0;
        while i < parts.len()
            invariant
                i <= parts.len(),
                ps == split(s@, seq!['#']),
                trimmed == ps.map_values(|p: Seq<char>| trim(p)),
                nonempty == (|p: Seq<char>| p.len() > 0),
                parts@.len() == ps.len(),
                forall|k: int| 0 <= k < parts@.len() ==> #[trigger] parts@[k]@ == ps[k],
                kept == trimmed.take(i as int).filter(nonempty),
                out@.len() == kept.len(),
                forall|k: int| 0 <= k < out@.len() ==> en_text("#"@ + kept[k], #[trigger] out@[k]),
            decreases parts.len() - i,
        {
            let t = trim_chars(&parts[i]);
            proof {
                assert(trimmed.take(i + 1).drop_last() == trimmed.take(i as int));
                assert(trimmed.take(i + 1).last() == t@);
                trimmed.take(i as int).lemma_filter_push(t@, nonempty);
                assert(trimmed.take(i as int).push(t@) == trimmed.take(i + 1));
            }
            if t.len() > 0 {
                let mut tag = chars_of("#");
                push_all(&mut tag, &t);
                out.push(en_localized(tag));
                proof {
                    kept = kept.push(t@);
                }
            }
            i = i + 1;
        }
        assert(trimmed.take(i as int) == trimmed);
        out
    }
}


// ---------------------------------------------------------------------------
// sections of the card text
// ---------------------------------------------------------------------------
/// A section starts at a line that starts, in lowercase, with one of `starts` in lowercase.
pub open spec fn starts_section(l: Seq<char>, starts: Seq<Seq<char>>) -> bool {
    exists|j: int| 0 <= j < starts.len() && starts_with(lowercase(l), lowercase(#[trigger] starts[j]))
}

/// The state of a scan for sections: the lines kept, the sections found,
/// the section being read, and whether one is being read.
pub type SectionScan = (Seq<Seq<char>>, Seq<Seq<Seq<char>>>, Seq<Seq<char>>, bool);

/// One step of the scan: a section runs from its starting line to the next
/// empty line, and its lines are taken out.
pub open spec fn scan_step(st: SectionScan, l: Seq<char>, starts: Seq<Seq<char>>) -> SectionScan {
    let (kept, sections, current, in_section) = st;
    if in_section || starts_section(l, starts) {
        if l.len() == 0 {
            (kept, if current.len() > 0 {
                sections.push(current)
            } else {
                sections
            }, Seq::empty(), false)
        } else {
            (kept, sections, current.push(l), true)
        }
    } else {
        (kept.push(l), sections, current, false)
    }
}

pub open spec fn scan_lines(ls: Seq<Seq<char>>, starts: Seq<Seq<char>>) -> SectionScan
    decreases ls.len(),
{
    if ls.len() == 0 {
        (Seq::empty(), Seq::empty(), Seq::empty(), false)
    } else {
        scan_step(scan_lines(ls.drop_last(), starts), ls.last(), starts)
    }
}

/// The lines left over and the sections taken out.
pub open spec fn extract_sections(ls: Seq<Seq<char>>, starts: Seq<Seq<char>>) -> (
    Seq<Seq<char>>,
    Seq<Seq<Seq<char>>>,
) {
    let (kept, sections, current, _) = scan_lines(ls, starts);
    (kept, if current.len() > 0 {
        sections.push(current)
    } else {
        sections
    })
}

pub open spec fn char_views2(v: Seq<Vec<Vec<char>>>) -> Seq<Seq<Seq<char>>> {
    v.map_values(|s: Vec<Vec<char>>| char_views(s@))
}

fn starts_section_exec(l: &Vec<char>, starts: &Vec<&str>) -> (r: bool)
    ensures
        r == starts_section(l@, starts@.map_values(|s: &str| s@)),
{
    let ghost st = starts@.map_values(|s: &str| s@);
    let lower = to_lowercase(l);
    let mut j: usize = 0;
    while j < starts.len()
        invariant
            j <= starts.len(),
            st == starts@.map_values(|s: &str| s@),
            lower@ == lowercase(l@),
            forall|k: int| 0 <= k < j ==> !starts_with(lower@, lowercase(#[trigger] st[k])),
        decreases starts.len() - j,
    {
        assert(st[j as int] == starts@[j as int]@);
        if starts_with_chars(&lower, &to_lowercase(&chars_of(starts[j]))) {
            return true;
        }
        j = j + 1;
    }
    false
}

/// Takes the sections that begin with one of `starts` out of `lines`.
fn extract_sections_exec(lines: &mut Vec<Vec<char>>, starts: &Vec<&str>) -> (r: Vec<Vec<Vec<char>>>)
    ensures
        (char_views(final(lines)@), char_views2(r@)) == extract_sections(
            char_views(old(lines)@),
            starts@.map_values(|s: &str| s@),
        ),
{
    let ghost st = starts@.map_values(|s: &str| s@);
    let ghost ls = char_views(lines@);
    let mut kept: Vec<Vec<char>> = Vec::new();
    let mut sections: Vec<Vec<Vec<char>>> = Vec::new();
    let mut current: Vec<Vec<char>> = Vec::new();
    let mut in_section = false;
    let mut i: usize = 0;
    while i < lines.len()
        invariant
            i <= lines.len(),
            ls == char_views(lines@),
            st == starts@.map_values(|s: &str| s@),
            scan_lines(ls.take(i as int), st) == (
                char_views(kept@),
                char_views2(sections@),
                char_views(current@),
                in_section,
            ),
        decreases lines.len() - i,
    {
        let l = &lines[i];
        proof {
            assert(ls.take(i + 1).drop_last() == ls.take(i as int));
            assert(ls.take(i + 1).last() == l@);
        }
        if in_section || starts_section_exec(l, starts) {
            if l.len() == 0 {
                in_section = false;
                if current.len() > 0 {
                    let ghost before = sections@;
                    sections.push(current);
                    assert(char_views2(sections@) == char_views2(before).push(
                        char_views(sections@[before.len() as int]@),
                    ));
                    current = Vec::new();
                } else {
                    assert(char_views(current@) == Seq::<Seq<char>>::empty());
                }
            } else {
                let ghost before = current@;
                current.push(l.clone());
                assert(char_views(current@) == char_views(before).push(l@));
                in_section = true;
            }
        } else {
            let ghost before = kept@;
            kept.push(l.clone());
            assert(char_views(kept@) == char_views(before).push(l@));
        }
        i = i + 1;
    }
    assert(ls.take(i as int) == ls);
    if current.len() > 0 {
        let ghost before = sections@;
        sections.push(current);
        assert(char_views2(sections@) == char_views2(before).push(
            char_views(sections@[before.len() as int]@),
        ));
    }
    *lines = kept;
    sections
}

// ---------------------------------------------------------------------------
// skills, keywords, arts and extras of a section
// ---------------------------------------------------------------------------
/// A name in quotes, without the quotes and the space around it.
pub open spec fn quoted_name(n: Seq<char>) -> Seq<char> {
    trim(trim_end_once(trim_start_once(trim(n), "\""@), "\""@))
}

/// The lines of a section from `from` on, joined by line feeds and trimmed.
pub open spec fn section_body(lines: Seq<Seq<char>>, from: int) -> Seq<char> {
    trim(join(lines.skip(from), "\n"@))
}

/// Whether an oshi skill is special, and the text of its holo power.
pub open spec fn skill_head(h: Seq<char>) -> (bool, Seq<char>) {
    let (special, h1) = if starts_with(h, "Oshi Skill"@) {
        (false, trim(trim_start_once(h, "Oshi Skill"@)))
    } else if starts_with(h, "SP Oshi Skill"@) {
        (true, trim(trim_start_once(h, "SP Oshi Skill"@)))
    } else {
        (false, h)
    };
    (special, trim_start_once(trim(trim_start_once(h1, "holo Power"@)), "-"@))
}

/// The oshi skill of a section: `<kind> holo Power -<n>: "<name>"`, then its text.
pub open spec fn sheet_oshi_skill(lines: Seq<Seq<char>>) -> Option<OshiSkillView> {
    if lines.len() == 0 {
        None
    } else {
        match split_once(lines[0], ":"@) {
            Some((h, n)) => {
                let (special, hp) = skill_head(h);
                Some(
                    OshiSkillView {
                        kind: if special {
                            OshiSkillKind::Special
                        } else {
                            OshiSkillKind::Normal
                        },
                        holo_power: parse_holo_power(hp),
                        name: (None, Some(quoted_name(n))),
                        ability_text: (None, Some(section_body(lines, 1))),
                    },
                )
            },
            None => None,
        }
    }
}

/// The keyword effect that a section's heading names.
pub open spec fn keyword_effect(e: Seq<char>) -> Option<KeywordEffect> {
    let t = trim(lowercase(e));
    if t == "collab effect"@ {
        Some(KeywordEffect::Collab)
    } else if t == "bloom effect"@ {
        Some(KeywordEffect::Bloom)
    } else if t == "gift"@ || t == "gift effect"@ {
        Some(KeywordEffect::Gift)
    } else {
        None
    }
}

/// The keyword of a section: `<effect>: "<name>"`, then its text.
pub open spec fn sheet_keyword(lines: Seq<Seq<char>>) -> Option<KeywordView> {
    if lines.len() == 0 {
        None
    } else {
        match split_once(lines[0], ":"@) {
            Some((e, n)) => match keyword_effect(e) {
                Some(k) => Some(
                    KeywordView {
                        effect: k,
                        name: (None, Some(quoted_name(n))),
                        ability_text: (None, Some(section_body(lines, 1))),
                    },
                ),
                None => None,
            },
            None => None,
        }
    }
}

/// The color of a cheer or advantage word, colorless for any other word.
pub open spec fn cheer_color(s: Seq<char>) -> Color {
    match color_word(lowercase(s)) {
        Some(c) => if c == Color::Colorless {
            Color::Colorless
        } else {
            c
        },
        None => Color::Colorless,
    }
}

/// The cheers of a piece `<amount> <color>`: the color that many times.
pub open spec fn cheers_of_piece(p: Seq<char>) -> Seq<Color> {
    match split_once(p, " "@) {
        Some((a, c)) => {
            let n = match parse_uint(a, usize::MAX as nat) {
                Some(n) => n,
                None => 0,
            };
            Seq::new(n, |i: int| cheer_color(c))
        },
        None => Seq::empty(),
    }
}

pub open spec fn cheers_of_pieces(ps: Seq<Seq<char>>) -> Seq<Color>
    decreases ps.len(),
{
    if ps.len() == 0 {
        Seq::empty()
    } else {
        cheers_of_pieces(ps.drop_last()) + cheers_of_piece(trim(ps.last()))
    }
}

/// The cheers of an art cost: pieces between commas.
pub open spec fn sheet_cheers(s: Seq<char>) -> Seq<Color> {
    cheers_of_pieces(split(s, seq![',']))
}

/// An art power, or an uncertain power when the text is none.
pub open spec fn art_power_or_default(s: Seq<char>) -> ArtPower {
    match parse_art_power(s) {
        Some(p) => p,
        None => ArtPower::Uncertain,
    }
}

/// An advantage `+<n> vs <color>`, its number 0 when it is no number.
pub open spec fn sheet_advantage(adv: Seq<char>) -> Option<(Color, u32)> {
    match split_once(adv, "vs"@) {
        Some((a, c)) => Some(
            (
                cheer_color(trim(c)),
                match parse_u32(trim_start_once(trim(a), "+"@)) {
                    Some(n) => n,
                    None => 0,
                },
            ),
        ),
        None => None,
    }
}

/// The power, and the advantage after a comma.
pub open spec fn sheet_power(power: Seq<char>) -> (ArtPower, Option<(Color, u32)>) {
    match split_once(power, ","@) {
        Some((p, adv)) => (art_power_or_default(trim(p)), sheet_advantage(adv)),
        None => (art_power_or_default(trim(power)), None),
    }
}

/// A section of an art has its cost line after a named heading, and its
/// power line after a cost line.
pub open spec fn art_section_ok(lines: Seq<Seq<char>>) -> bool {
    lines.len() >= 1 && (split_once(lines[0], ":"@) is Some ==> lines.len() >= 2 && (split_once(
        lines[1],
        ":"@,
    ) is Some ==> lines.len() >= 3))
}

/// The art of a section: `Arts: "<name>"`, `Cost: <cheers>`,
/// `Power: <power>[, <advantage>]`, then its text if any.
pub open spec fn sheet_art(lines: Seq<Seq<char>>) -> Option<ArtView> {
    match split_once(lines[0], ":"@) {
        Some((_a, n)) => match split_once(lines[1], ":"@) {
            Some((_c, cheers)) => match split_once(lines[2], ":"@) {
                Some((_p, power)) => Some(
                    ArtView {
                        cheers: sheet_cheers(cheers),
                        name: (None, Some(quoted_name(n))),
                        power: sheet_power(power).0,
                        advantage: sheet_power(power).1,
                        ability_text: if lines.len() > 3 {
                            Some((None, Some(section_body(lines, 3))))
                        } else {
                            None
                        },
                    },
                ),
                None => None,
            },
            None => None,
        },
        None => None,
    }
}

/// The extra text of a section: `Extra: <text>`.
pub open spec fn sheet_extra(lines: Seq<Seq<char>>) -> Option<TextPair> {
    if lines.len() == 0 {
        None
    } else {
        match split_once(lines[0], ":"@) {
            Some((_e, x)) => Some((None, Some(trim(x)))),
            None => None,
        }
    }
}

fn quoted_name_exec(n: &Vec<char>) -> (r: Vec<char>)
    ensures
        r@ == quoted_name(n@),
{
    let a = trim_chars(n);
    let b = trim_start_once_chars(&a, "\"");
    let c = trim_end_once_chars(&b, "\"");
    trim_chars(&c)
}

fn section_body_exec(lines: &Vec<Vec<char>>, from: usize) -> (r: Vec<char>)
    requires
        from <= lines.len(),
    ensures
        r@ == section_body(char_views(lines@), from as int),
{
    let mut rest: Vec<Vec<char>> = Vec::new();
    let mut i: usize = from;
    while i < lines.len()
        invariant
            from <= i <= lines.len(),
            char_views(rest@) == char_views(lines@).skip(from as int).take(i - from),
        decreases lines.len() - i,
    {
        let ghost before = rest@;
        rest.push(lines[i].clone());
        proof {
            let sk = char_views(lines@).skip(from as int);
            assert(sk.take(i - from + 1) == sk.take(i - from).push(lines@[i as int]@));
            assert(char_views(rest@) == char_views(before).push(lines@[i as int]@));
        }
        i = i + 1;
    }
    assert(char_views(lines@).skip(from as int).take(i - from) == char_views(lines@).skip(from as int));
    assert(rest@.map_values(|p: Vec<char>| p@) == char_views(rest@));
    trim_chars(&join_chars(&rest, &chars_of("\n")))
}

fn en_text_exec(s: &Vec<char>) -> (r: Localized<String>)
    ensures
        r.texts() == (None::<Seq<char>>, Some(s@)),
{
    Localized::en(string_of(s))
}

/// The oshi skill of a section.
fn to_oshi_skill(lines: &Vec<Vec<char>>) -> (r: Option<OshiSkill>)
    ensures
        match r {
            Some(s) => sheet_oshi_skill(char_views(lines@)) == Some(s@),
            None => sheet_oshi_skill(char_views(lines@)).is_none(),
        },
{
    if lines.len() == 0 {
        return None;
    }
    assert(char_views(lines@)[0] == lines@[0]@);
    match split_once_str(&lines[0], ":") {
        Some((h, n)) => {
            let mut special = false;
            let mut hp = h.clone();
            if starts_with_str(&h, "Oshi Skill") {
                hp = trim_chars(&trim_start_once_chars(&h, "Oshi Skill"));
            } else if starts_with_str(&h, "SP Oshi Skill") {
                special = true;
                hp = trim_chars(&trim_start_once_chars(&h, "SP Oshi Skill"));
            }
            let hp2 = trim_chars(&trim_start_once_chars(&hp, "holo Power"));
            let hp3 = trim_start_once_chars(&hp2, "-");
            let holo_power = match HoloPower::parse_chars(&hp3) {
                Ok(p) => Some(p),
                Err(_) => None,
            };
            let name = quoted_name_exec(&n);
            let body = section_body_exec(lines, 1);
            Some(
                OshiSkill {
                    kind: if special {
                        OshiSkillKind::Special
                    } else {
                        OshiSkillKind::Normal
                    },
                    holo_power,
                    name: en_text_exec(&name),
                    ability_text: en_text_exec(&body),
                },
            )
        },
        None => None,
    }
}

fn keyword_effect_exec(e: &Vec<char>) -> (r: Option<KeywordEffect>)
    ensures
        r == keyword_effect(e@),
{
    let t = trim_chars(&to_lowercase(e));
    if eq(&t, &chars_of("collab effect")) {
        Some(KeywordEffect::Collab)
    } else if eq(&t, &chars_of("bloom effect")) {
        Some(KeywordEffect::Bloom)
    } else if eq(&t, &chars_of("gift")) || eq(&t, &chars_of("gift effect")) {
        Some(KeywordEffect::Gift)
    } else {
        None
    }
}

/// The keyword of a section.
fn to_keyword(lines: &Vec<Vec<char>>) -> (r: Option<Keyword>)
    ensures
        match r {
            Some(k) => sheet_keyword(char_views(lines@)) == Some(k@),
            None => sheet_keyword(char_views(lines@)).is_none(),
        },
{
    if lines.len() == 0 {
        return None;
    }
    assert(char_views(lines@)[0] == lines@[0]@);
    match split_once_str(&lines[0], ":") {
        Some((e, n)) => match keyword_effect_exec(&e) {
            Some(effect) => {
                let name = quoted_name_exec(&n);
                let body = section_body_exec(lines, 1);
                Some(
                    Keyword {
                        effect,
                        name: en_text_exec(&name),
                        ability_text: en_text_exec(&body),
                    },
                )
            },
            None => None,
        },
        None => None,
    }
}

fn cheer_color_exec(s: &Vec<char>) -> (r: Color)
    ensures
        r == cheer_color(s@),
{
    match color_word_exec(&to_lowercase(s)) {
        Some(c) => c,
        None => Color::Colorless,
    }
}

fn sheet_cheers_exec(s: &Vec<char>) -> (r: Vec<Color>)
    ensures
        r@ == sheet_cheers(s@),
{
    let parts = split_char(s, ',');
    let ghost ps = split(s@, seq![',']);
    let mut out: Vec<Color> = Vec::new();
    let mut i: usize = 0;
    while i < parts.len()
        invariant
            i <= parts.len(),
            ps == split(s@, seq![',']),
            parts@.len() == ps.len(),
            forall|k: int| 0 <= k < parts@.len() ==> #[trigger] parts@[k]@ == ps[k],
            out@ == cheers_of_pieces(ps.take(i as int)),
        decreases parts.len() - i,
    {
        proof {
            assert(ps.take(i + 1).drop_last() == ps.take(i as int));
            assert(ps.take(i + 1).last() == parts@[i as int]@);
        }
        let p = trim_chars(&parts[i]);
        match split_once_str(&p, " ") {
            Some((a, c)) => {
                let n: u64 = match parse_uint_chars(&a, usize::MAX as u64) {
                    Some(n) => n,
                    None => 0,
                };
                let color = cheer_color_exec(&c);
                let ghost before = out@;
                let mut k: u64 = 0;
                while k < n
                    invariant
                        k <= n,
                        out@ == before + Seq::new(k as nat, |j: int| color),
                    decreases n - k,
                {
                    out.push(color);
                    k = k + 1;
                    assert(out@ == before + Seq::new(k as nat, |j: int| color));
                }
                assert(color == cheer_color(c@));
            },
            None => {
                assert(out@ == out@ + Seq::<Color>::empty());
            },
        }
        i = i + 1;
    }
    assert(ps.take(i as int) == ps);
    out
}

fn art_power_or_default_exec(s: &Vec<char>) -> (r: ArtPower)
    ensures
        r == art_power_or_default(s@),
{
    match ArtPower::parse_chars(s) {
        Ok(p) => p,
        Err(_) => ArtPower::Uncertain,
    }
}

fn sheet_advantage_exec(adv: &Vec<char>) -> (r: Option<(Color, u32)>)
    ensures
        r == sheet_advantage(adv@),
{
    match split_once_str(adv, "vs") {
        Some((a, c)) => {
            let color = cheer_color_exec(&trim_chars(&c));
            let n = match parse_u32_chars(&trim_start_once_chars(&trim_chars(&a), "+")) {
                Some(n) => n,
                None => 0,
            };
            Some((color, n))
        },
        None => None,
    }
}

/// The art of a section.
fn to_art(lines: &Vec<Vec<char>>) -> (r: Option<Art>)
    requires
        art_section_ok(char_views(lines@)),
    ensures
        match r {
            Some(a) => sheet_art(char_views(lines@)) == Some(a@),
            None => sheet_art(char_views(lines@)).is_none(),
        },
{
    let ghost ls = char_views(lines@);
    assert(ls[0] == lines@[0]@);
    match split_once_str(&lines[0], ":") {
        Some((_a, n)) => {
            assert(ls[1] == lines@[1]@);
            match split_once_str(&lines[1], ":") {
                Some((_c, cheers)) => {
                    assert(ls[2] == lines@[2]@);
                    match split_once_str(&lines[2], ":") {
                        Some((_p, power)) => {
                            let (p, advantage) = match split_once_str(&power, ",") {
                                Some((pw, adv)) => (
                                    art_power_or_default_exec(&trim_chars(&pw)),
                                    sheet_advantage_exec(&adv),
                                ),
                                None => (art_power_or_default_exec(&trim_chars(&power)), None),
                            };
                            let ability_text = if lines.len() > 3 {
                                Some(en_text_exec(&section_body_exec(lines, 3)))
                            } else {
                                None
                            };
                            let name = quoted_name_exec(&n);
                            Some(
                                Art {
                                    cheers: sheet_cheers_exec(&cheers),
                                    name: en_text_exec(&name),
                                    power: p,
                                    advantage,
                                    ability_text,
                                },
                            )
                        },
                        None => None,
                    }
                },
                None => None,
            }
        },
        None => None,
    }
}

/// The extra text of a section.
fn to_extra(lines: &Vec<Vec<char>>) -> (r: Option<Localized<String>>)
    ensures
        opt_texts(r) == sheet_extra(char_views(lines@)),
{
    if lines.len() == 0 {
        return None;
    }
    assert(char_views(lines@)[0] == lines@[0]@);
    match split_once_str(&lines[0], ":") {
        Some((_e, x)) => Some(en_text_exec(&trim_chars(&x))),
        None => None,
    }
}


// ---------------------------------------------------------------------------
// merging the sheet's texts into a card
// ---------------------------------------------------------------------------
/// The text of a pair in `language`.
pub open spec fn text_get(p: TextPair, language: Language) -> Option<Seq<char>> {
    match language {
        Language::Japanese => p.0,
        Language::English => p.1,
    }
}

/// The pair with the text in `language` replaced.
pub open spec fn text_set(p: TextPair, language: Language, v: Option<Seq<char>>) -> TextPair {
    match language {
        Language::Japanese => (v, p.1),
        Language::English => (p.0, v),
    }
}

/// The pair with the text in `language` taken from `from`.
pub open spec fn text_from(p: TextPair, from: TextPair, language: Language) -> TextPair {
    text_set(p, language, text_get(from, language))
}

/// The oshi skills after the sheet's: for a released card, the sheet gives
/// the names and texts in `language` of the skills it has in the same place;
/// an unreleased card takes the sheet's skills.
pub open spec fn merged_oshi_skills(
    orig: Seq<OshiSkillView>,
    new: Seq<OshiSkillView>,
    language: Language,
    released: bool,
) -> Seq<OshiSkillView> {
    if released {
        Seq::new(
            orig.len(),
            |i: int|
                if i < new.len() {
                    OshiSkillView {
                        name: text_from(orig[i].name, new[i].name, language),
                        ability_text: text_from(orig[i].ability_text, new[i].ability_text, language),
                        ..orig[i]
                    }
                } else {
                    orig[i]
                },
        )
    } else {
        new
    }
}

/// The keywords after the sheet's, in the same way as oshi skills.
pub open spec fn merged_keywords(
    orig: Seq<KeywordView>,
    new: Seq<KeywordView>,
    language: Language,
    released: bool,
) -> Seq<KeywordView> {
    if released {
        Seq::new(
            orig.len(),
            |i: int|
                if i < new.len() {
                    KeywordView {
                        name: text_from(orig[i].name, new[i].name, language),
                        ability_text: text_from(orig[i].ability_text, new[i].ability_text, language),
                        ..orig[i]
                    }
                } else {
                    orig[i]
                },
        )
    } else {
        new
    }
}

/// An optional text after the sheet's: the text in `language` when both have one.
pub open spec fn merged_opt_text(o: Option<TextPair>, n: Option<TextPair>, language: Language) -> Option<
    TextPair,
> {
    match (o, n) {
        (Some(x), Some(y)) => Some(text_from(x, y, language)),
        _ => o,
    }
}

/// The arts after the sheet's, in the same way as oshi skills; an art's
/// text is taken only when both have one.
pub open spec fn merged_arts(orig: Seq<ArtView>, new: Seq<ArtView>, language: Language, released: bool) -> Seq<
    ArtView,
> {
    if released {
        Seq::new(
            orig.len(),
            |i: int|
                if i < new.len() {
                    ArtView {
                        name: text_from(orig[i].name, new[i].name, language),
                        ability_text: merged_opt_text(orig[i].ability_text, new[i].ability_text, language),
                        ..orig[i]
                    }
                } else {
                    orig[i]
                },
        )
    } else {
        new
    }
}

/// The extra text after the sheet's.
pub open spec fn merged_extra(
    orig: Option<TextPair>,
    new: Option<TextPair>,
    language: Language,
    released: bool,
) -> Option<TextPair> {
    if released {
        merged_opt_text(orig, new, language)
    } else {
        new
    }
}

/// The tags after the sheet's, in the same way as oshi skills.
pub open spec fn merged_tags(orig: Seq<TextPair>, new: Seq<TextPair>, language: Language, released: bool) -> Seq<
    TextPair,
> {
    if released {
        Seq::new(
            orig.len(),
            |i: int|
                if i < new.len() {
                    text_from(orig[i], new[i], language)
                } else {
                    orig[i]
                },
        )
    } else {
        new
    }
}

proof fn lemma_map_update<A, B>(s: Seq<A>, i: int, a: A, f: spec_fn(A) -> B)
    requires
        0 <= i < s.len(),
    ensures
        s.update(i, a).map_values(f) == s.map_values(f).update(i, f(a)),
{
    assert(s.update(i, a).map_values(f) =~= s.map_values(f).update(i, f(a)));
}

fn blank_localized() -> (r: Localized<String>)
    ensures
        r.texts() == (None::<Seq<char>>, None::<Seq<char>>),
{
    Localized { japanese: None, english: None }
}

/// `l` with its text in `language` taken from `from`.
fn take_text(l: &mut Localized<String>, from: &Localized<String>, language: Language)
    ensures
        final(l).texts() == text_from(old(l).texts(), from.texts(), language),
{
    l.set(language, copy_opt_string(from.value(language)));
}

pub fn update_oshi_skills(card: &mut Card, skills: Vec<OshiSkill>, language: Language, released: bool)
    ensures
        final(card)@ == (CardView {
            oshi_skills: merged_oshi_skills(
                old(card)@.oshi_skills,
                skills@.map_values(|s: OshiSkill| s@),
                language,
                released,
            ),
            ..old(card)@
        }),
{
    if !released {
        card.oshi_skills = skills;
        return;
    }
    let ghost c0 = card@;
    let ghost new = skills@.map_values(|s: OshiSkill| s@);
    let ghost target = merged_oshi_skills(c0.oshi_skills, new, language, released);
    let mut i: usize = 0;
    while i < card.oshi_skills.len()
        invariant
            released,
            card@ == (CardView { oshi_skills: card@.oshi_skills, ..c0 }),
            card.oshi_skills@.len() == c0.oshi_skills.len(),
            new == skills@.map_values(|s: OshiSkill| s@),
            target == merged_oshi_skills(c0.oshi_skills, new, language, released),
            i <= card.oshi_skills.len(),
            forall|k: int| 0 <= k < i ==> #[trigger] card@.oshi_skills[k] == target[k],
            forall|k: int| i <= k < card.oshi_skills@.len() ==> #[trigger] card@.oshi_skills[k] == c0.oshi_skills[k],
        decreases card.oshi_skills.len() - i,
    {
        let ghost prev = card.oshi_skills@;
        if i < skills.len() {
            let mut tmp = OshiSkill {
                kind: OshiSkillKind::Normal,
                holo_power: None,
                name: blank_localized(),
                ability_text: blank_localized(),
            };
            assert(card@.oshi_skills[i as int] == card.oshi_skills@[i as int]@);
            card.oshi_skills.set_and_swap(i, &mut tmp);
            assert(tmp@ == c0.oshi_skills[i as int]);
            take_text(&mut tmp.name, &skills[i].name, language);
            take_text(&mut tmp.ability_text, &skills[i].ability_text, language);
            assert(new[i as int] == skills@[i as int]@);
            assert(tmp@ == target[i as int]);
            card.oshi_skills.set(i, tmp);
            proof {
                assert(card.oshi_skills@ == prev.update(i as int, tmp));
                lemma_map_update(prev, i as int, tmp, |s: OshiSkill| s@);
            }
        }
        proof {
            assert(card@.oshi_skills[i as int] == target[i as int]);
        }
        i = i + 1;
    }
    assert(card@.oshi_skills == target);
}

pub fn update_keywords(card: &mut Card, keywords: Vec<Keyword>, language: Language, released: bool)
    ensures
        final(card)@ == (CardView {
            keywords: merged_keywords(
                old(card)@.keywords,
                keywords@.map_values(|k: Keyword| k@),
                language,
                released,
            ),
            ..old(card)@
        }),
{
    if !released {
        card.keywords = keywords;
        return;
    }
    let ghost c0 = card@;
    let ghost new = keywords@.map_values(|k: Keyword| k@);
    let ghost target = merged_keywords(c0.keywords, new, language, released);
    let mut i: usize = 0;
    while i < card.keywords.len()
        invariant
            released,
            card@ == (CardView { keywords: card@.keywords, ..c0 }),
            card.keywords@.len() == c0.keywords.len(),
            new == keywords@.map_values(|k: Keyword| k@),
            target == merged_keywords(c0.keywords, new, language, released),
            i <= card.keywords.len(),
            forall|k: int| 0 <= k < i ==> #[trigger] card@.keywords[k] == target[k],
            forall|k: int| i <= k < card.keywords@.len() ==> #[trigger] card@.keywords[k] == c0.keywords[k],
        decreases card.keywords.len() - i,
    {
        let ghost prev = card.keywords@;
        if i < keywords.len() {
            let mut tmp = Keyword {
                effect: KeywordEffect::Other,
                name: blank_localized(),
                ability_text: blank_localized(),
            };
            assert(card@.keywords[i as int] == card.keywords@[i as int]@);
            card.keywords.set_and_swap(i, &mut tmp);
            assert(tmp@ == c0.keywords[i as int]);
            take_text(&mut tmp.name, &keywords[i].name, language);
            take_text(&mut tmp.ability_text, &keywords[i].ability_text, language);
            assert(new[i as int] == keywords@[i as int]@);
            assert(tmp@ == target[i as int]);
            card.keywords.set(i, tmp);
            proof {
                assert(card.keywords@ == prev.update(i as int, tmp));
                lemma_map_update(prev, i as int, tmp, |k: Keyword| k@);
            }
        }
        proof {
            assert(card@.keywords[i as int] == target[i as int]);
        }
        i = i + 1;
    }
    assert(card@.keywords == target);
}

fn take_opt_text(o: &mut Option<Localized<String>>, n: &Option<Localized<String>>, language: Language)
    ensures
        opt_texts(*final(o)) == merged_opt_text(opt_texts(*old(o)), opt_texts(*n), language),
{
    match n {
        Some(y) => {
            match o {
                Some(x) => take_text(x, y, language),
                None => {},
            }
        },
        None => {},
    }
}

pub fn update_arts(card: &mut Card, arts: Vec<Art>, language: Language, released: bool)
    ensures
        final(card)@ == (CardView {
            arts: merged_arts(old(card)@.arts, arts@.map_values(|a: Art| a@), language, released),
            ..old(card)@
        }),
{
    if !released {
        card.arts = arts;
        return;
    }
    let ghost c0 = card@;
    let ghost new = arts@.map_values(|a: Art| a@);
    let ghost target = merged_arts(c0.arts, new, language, released);
    let mut i: usize = 0;
    while i < card.arts.len()
        invariant
            released,
            card@ == (CardView { arts: card@.arts, ..c0 }),
            card.arts@.len() == c0.arts.len(),
            new == arts@.map_values(|a: Art| a@),
            target == merged_arts(c0.arts, new, language, released),
            i <= card.arts.len(),
            forall|k: int| 0 <= k < i ==> #[trigger] card@.arts[k] == target[k],
            forall|k: int| i <= k < card.arts@.len() ==> #[trigger] card@.arts[k] == c0.arts[k],
        decreases card.arts.len() - i,
    {
        let ghost prev = card.arts@;
        if i < arts.len() {
            let mut tmp = Art {
                cheers: Vec::new(),
                name: blank_localized(),
                power: ArtPower::Uncertain,
                advantage: None,
                ability_text: None,
            };
            assert(card@.arts[i as int] == card.arts@[i as int]@);
            card.arts.set_and_swap(i, &mut tmp);
            assert(tmp@ == c0.arts[i as int]);
            take_text(&mut tmp.name, &arts[i].name, language);
            take_opt_text(&mut tmp.ability_text, &arts[i].ability_text, language);
            assert(new[i as int] == arts@[i as int]@);
            assert(tmp@ == target[i as int]);
            card.arts.set(i, tmp);
            proof {
                assert(card.arts@ == prev.update(i as int, tmp));
                lemma_map_update(prev, i as int, tmp, |a: Art| a@);
            }
        }
        proof {
            assert(card@.arts[i as int] == target[i as int]);
        }
        i = i + 1;
    }
    assert(card@.arts == target);
}

pub fn update_extra(card: &mut Card, extra: Option<Localized<String>>, language: Language, released: bool)
    ensures
        final(card)@ == (CardView {
            extra: merged_extra(old(card)@.extra, opt_texts(extra), language, released),
            ..old(card)@
        }),
{
    if !released {
        card.extra = extra;
    } else {
        take_opt_text(&mut card.extra, &extra, language);
    }
}

pub fn update_tags(card: &mut Card, tags: Vec<Localized<String>>, language: Language, released: bool)
    ensures
        final(card)@ == (CardView {
            tags: merged_tags(
                old(card)@.tags,
                tags@.map_values(|t: Localized<String>| t.texts()),
                language,
                released,
            ),
            ..old(card)@
        }),
{
    if !released {
        card.tags = tags;
        return;
    }
    let ghost c0 = card@;
    let ghost new = tags@.map_values(|t: Localized<String>| t.texts());
    let ghost target = merged_tags(c0.tags, new, language, released);
    let mut i: usize = 0;
    while i < card.tags.len()
        invariant
            released,
            card@ == (CardView { tags: card@.tags, ..c0 }),
            card.tags@.len() == c0.tags.len(),
            new == tags@.map_values(|t: Localized<String>| t.texts()),
            target == merged_tags(c0.tags, new, language, released),
            i <= card.tags.len(),
            forall|k: int| 0 <= k < i ==> #[trigger] card@.tags[k] == target[k],
            forall|k: int| i <= k < card.tags@.len() ==> #[trigger] card@.tags[k] == c0.tags[k],
        decreases card.tags.len() - i,
    {
        let ghost prev = card.tags@;
        if i < tags.len() {
            let mut tmp = blank_localized();
            assert(card@.tags[i as int] == card.tags@[i as int].texts());
            card.tags.set_and_swap(i, &mut tmp);
            assert(tmp.texts() == c0.tags[i as int]);
            take_text(&mut tmp, &tags[i], language);
            assert(new[i as int] == tags@[i as int].texts());
            assert(tmp.texts() == target[i as int]);
            card.tags.set(i, tmp);
            proof {
                assert(card.tags@ == prev.update(i as int, tmp));
                lemma_map_update(prev, i as int, tmp, |t: Localized<String>| t.texts());
            }
        }
        proof {
            assert(card@.tags[i as int] == target[i as int]);
        }
        i = i + 1;
    }
    assert(card@.tags == target);
}


// ---------------------------------------------------------------------------
// a whole row into a card
// ---------------------------------------------------------------------------
/// The elements that are present, in order.
pub open spec fn somes<A>(s: Seq<Option<A>>) -> Seq<A>
    decreases s.len(),
{
    if s.len() == 0 {
        Seq::empty()
    } else {
        match s.last() {
            Some(a) => somes(s.drop_last()).push(a),
            None => somes(s.drop_last()),
        }
    }
}

/// The first element that is present.
pub open spec fn first_some<A>(s: Seq<Option<A>>) -> Option<A>
    decreases s.len(),
{
    if s.len() == 0 {
        None
    } else {
        match s[0] {
            Some(a) => Some(a),
            None => first_some(s.drop_first()),
        }
    }
}

pub open spec fn oshi_starts() -> Seq<Seq<char>> {
    seq!["Oshi Skill"@, "SP Oshi Skill"@]
}

pub open spec fn keyword_starts() -> Seq<Seq<char>> {
    seq!["Collab Effect"@, "Bloom Effect"@, "Gift"@]
}

pub open spec fn art_starts() -> Seq<Seq<char>> {
    seq!["Arts"@]
}

pub open spec fn extra_starts() -> Seq<Seq<char>> {
    seq!["Extra"@]
}

/// The lines left after the sections, and the sections of oshi skills,
/// keywords, arts and extras of a text column, taken out in that order.
pub open spec fn text_sections(text: Seq<char>) -> (
    Seq<Seq<char>>,
    Seq<Seq<Seq<char>>>,
    Seq<Seq<Seq<char>>>,
    Seq<Seq<Seq<char>>>,
    Seq<Seq<Seq<char>>>,
) {
    let l0 = trimmed_lines(sheet_text(text));
    let (l1, o) = extract_sections(l0, oshi_starts());
    let (l2, k) = extract_sections(l1, keyword_starts());
    let (l3, a) = extract_sections(l2, art_starts());
    let (l4, e) = extract_sections(l3, extra_starts());
    (l4, o, k, a, e)
}

/// Every art section of the text column has the lines an art needs.
pub open spec fn sheet_arts_ok(text: Seq<char>) -> bool {
    forall|i: int|
        0 <= i < text_sections(text).3.len() ==> art_section_ok(#[trigger] text_sections(text).3[i])
}

/// The extra texts that the sheet leaves out for a few cards.
pub open spec fn fixed_extra(card_number: Seq<char>, e: Option<TextPair>) -> Option<TextPair> {
    if card_number == "hSD09-003"@ || card_number == "hBP05-029"@ || card_number == "hBP05-039"@ {
        Some((None, Some("If this holomem is downed, you get Life-2"@)))
    } else if card_number == "hSD10-010"@ {
        Some((None, Some("This holomem cannot Bloom"@)))
    } else {
        e
    }
}

/// A card after the texts of the sheet's text column.
#[verifier::opaque]
pub open spec fn text_applied(text: Seq<char>, c: CardView, released: bool) -> CardView {
    let (l4, o, k, a, e) = text_sections(text);
    let c1 = CardView {
        oshi_skills: merged_oshi_skills(
            c.oshi_skills,
            somes(o.map_values(|x: Seq<Seq<char>>| sheet_oshi_skill(x))),
            Language::English,
            released,
        ),
        ..c
    };
    let c2 = CardView {
        keywords: merged_keywords(
            c1.keywords,
            somes(k.map_values(|x: Seq<Seq<char>>| sheet_keyword(x))),
            Language::English,
            released,
        ),
        ..c1
    };
    let c3 = CardView {
        arts: merged_arts(
            c2.arts,
            somes(a.map_values(|x: Seq<Seq<char>>| sheet_art(x))),
            Language::English,
            released,
        ),
        ..c2
    };
    let c4 = CardView {
        extra: merged_extra(
            c3.extra,
            fixed_extra(c.card_number, first_some(e.map_values(|x: Seq<Seq<char>>| sheet_extra(x)))),
            Language::English,
            released,
        ),
        ..c3
    };
    CardView {
        ability_text: (c4.ability_text.0, if l4.len() > 0 {
            Some(trim(join(l4, "\n"@)))
        } else {
            None
        }),
        ..c4
    }
}

/// Some printing of the card has a Deck Log id.
pub open spec fn card_released(c: CardView) -> bool {
    exists|i: int|
        0 <= i < c.illustrations.len() && ((#[trigger] c.illustrations[i]).manage_id.0 is Some
            || c.illustrations[i].manage_id.1 is Some)
}

/// The number of copies a deck may hold, by card type and extra text.
pub open spec fn max_amount_applied(c: CardView, released: bool) -> CardView {
    if c.max_amount.0 is None || c.max_amount.0 == Some(0u32) || !released {
        let base: u32 = match c.card_type {
            CardType::OshiHoloMember => 1,
            CardType::Cheer => 20,
            _ => 4,
        };
        let v: u32 = if (c.extra matches Some(x) && x.1 == Some(
            "You may include any number of this holomem in the deck"@,
        )) {
            50
        } else {
            base
        };
        CardView { max_amount: (Some(v), c.max_amount.1), ..c }
    } else {
        c
    }
}

/// A card after the number, name, type, colors, life or HP, bloom level,
/// buzz and limited columns of a row.
#[verifier::opaque]
pub open spec fn header_applied(sc: SheetCard, c: CardView, released: bool) -> CardView {
    let c1 = CardView {
        card_number: if c.card_number.len() == 0 || !released {
            sc.set_code@
        } else {
            c.card_number
        },
        ..c
    };
    let (jp, en) = sheet_name(sc.card_name_jp_en@);
    let c2 = CardView {
        name: (if c.name.0 is None || !released {
            Some(replace(jp, "\n"@, " "@))
        } else {
            c.name.0
        }, Some(en)),
        ..c1
    };
    let c3 = CardView {
        card_type: if c.card_type == CardType::Other || !released {
            sheet_card_type(sc.card_type@)
        } else {
            c.card_type
        },
        ..c2
    };
    let c4 = CardView {
        colors: if c.colors.len() == 0 || !released {
            sheet_colors(sc.color@)
        } else {
            c.colors
        },
        ..c3
    };
    let num: u32 = match parse_u32(sc.life_hp@) {
        Some(n) => n,
        None => 0,
    };
    let c5 = if c4.card_type == CardType::OshiHoloMember {
        CardView {
            life: if c.life == 0 || !released {
                num
            } else {
                c.life
            },
            ..c4
        }
    } else if c4.card_type == CardType::HoloMember {
        CardView {
            hp: if c.hp == 0 || !released {
                num
            } else {
                c.hp
            },
            ..c4
        }
    } else {
        c4
    };
    let c6 = if c.bloom_level is None || !released {
        CardView {
            bloom_level: sheet_bloom_level(sc.card_type@),
            buzz: contains(lowercase(trim(sc.card_type@)), "buzz"@),
            limited: contains(lowercase(trim(sc.text@)), "limited:"@),
            ..c5
        }
    } else {
        c5
    };
    c6
}

/// A card after a row of the sheet. An unreleased card takes all the row's
/// data; a released card keeps what it has and takes the rest, and takes the
/// row's English name and texts.
pub open spec fn sheet_applied(sc: SheetCard, c: CardView) -> CardView {
    let released = card_released(c);
    let c6 = header_applied(sc, c, released);
    let c7 = text_applied(sc.text@, c6, released);
    let c8 = CardView {
        tags: merged_tags(
            c7.tags,
            sheet_tags(sc.tags@).map_values(|t: Seq<char>| (None::<Seq<char>>, Some(t))),
            Language::English,
            released,
        ),
        ..c7
    };
    max_amount_applied(c8, released)
}

fn fix_extra(card_number: &String, extra: &mut Option<Localized<String>>)
    ensures
        opt_texts(*final(extra)) == fixed_extra(card_number@, opt_texts(*old(extra))),
{
    let n = chars_of_string(card_number);
    if eq(&n, &chars_of("hSD09-003")) || eq(&n, &chars_of("hBP05-029")) || eq(
        &n,
        &chars_of("hBP05-039"),
    ) {
        *extra = Some(en_text_exec(&chars_of("If this holomem is downed, you get Life-2")));
    } else if eq(&n, &chars_of("hSD10-010")) {
        *extra = Some(en_text_exec(&chars_of("This holomem cannot Bloom")));
    }
}

fn starts_of(v: Vec<&'static str>) -> (r: Vec<&'static str>)
    ensures
        r@ == v@,
{
    v
}

/// Whether a section of an art has the lines an art needs.
fn art_section_valid(lines: &Vec<Vec<char>>) -> (r: bool)
    ensures
        r == art_section_ok(char_views(lines@)),
{
    if lines.len() < 1 {
        return false;
    }
    assert(char_views(lines@)[0] == lines@[0]@);
    match split_once_str(&lines[0], ":") {
        None => true,
        Some(_) => {
            if lines.len() < 2 {
                return false;
            }
            assert(char_views(lines@)[1] == lines@[1]@);
            match split_once_str(&lines[1], ":") {
                None => true,
                Some(_) => lines.len() >= 3,
            }
        },
    }
}

impl SheetCard {
    /// Whether every art section of the text column has the lines an art needs.
    pub fn arts_valid(&self) -> (r: bool)
        ensures
            r == sheet_arts_ok(self.text@),
    {
        let ghost secs = text_sections(self.text@);
        let text = self.text();
        let tv = chars_of_string(&text);
        let mut lines = trimmed_lines_of(&tv);
        proof {
            lemma_char_views(lines@, trimmed_lines(sheet_text(self.text@)));
        }
        let starts = starts_of(vec!["Oshi Skill", "SP Oshi Skill"]);
        assert(starts@.map_values(|s: &str| s@) == oshi_starts());
        let _secs_o = extract_sections_exec(&mut lines, &starts);
        let starts = starts_of(vec!["Collab Effect", "Bloom Effect", "Gift"]);
        assert(starts@.map_values(|s: &str| s@) == keyword_starts());
        let _secs_k = extract_sections_exec(&mut lines, &starts);
        let starts = starts_of(vec!["Arts"]);
        assert(starts@.map_values(|s: &str| s@) == art_starts());
        let secs_a = extract_sections_exec(&mut lines, &starts);
        assert(char_views2(secs_a@) == secs.3);
        let mut i: usize = 0;
        while i < secs_a.len()
            invariant
                i <= secs_a.len(),
                char_views2(secs_a@) == secs.3,
                secs == text_sections(self.text@),
                forall|j: int| 0 <= j < i ==> art_section_ok(#[trigger] secs.3[j]),
            decreases secs_a.len() - i,
        {
            assert(char_views2(secs_a@)[i as int] == char_views(secs_a@[i as int]@));
            if !art_section_valid(&secs_a[i]) {
                return false;
            }
            i = i + 1;
        }
        true
    }

    /// Reads the sections of the text column into the card: oshi skills,
    /// keywords, arts, extra, and what is left as ability text.
    pub fn update_card_text(&self, card: &mut Card, released: bool)
        requires
            sheet_arts_ok(self.text@),
        ensures
            final(card)@ == text_applied(self.text@, old(card)@, released),
    {
        reveal(text_applied);
        let ghost c0 = card@;
        let ghost secs = text_sections(self.text@);
        let text = self.text();
        let tv = chars_of_string(&text);
        let mut lines = trimmed_lines_of(&tv);
        proof {
            lemma_char_views(lines@, trimmed_lines(sheet_text(self.text@)));
        }
        // oshi skills
        let starts = starts_of(vec!["Oshi Skill", "SP Oshi Skill"]);
        assert(starts@.map_values(|s: &str| s@) == oshi_starts());
        let secs_o = extract_sections_exec(&mut lines, &starts);
        let mut skills: Vec<OshiSkill> = Vec::new();
        let mut i: usize = 0;
        while i < secs_o.len()
            invariant
                i <= secs_o.len(),
                skills@.map_values(|s: OshiSkill| s@) == somes(
                    char_views2(secs_o@).take(i as int).map_values(
                        |x: Seq<Seq<char>>| sheet_oshi_skill(x),
                    ),
                ),
            decreases secs_o.len() - i,
        {
            let r = to_oshi_skill(&secs_o[i]);
            proof {
                let f = |x: Seq<Seq<char>>| sheet_oshi_skill(x);
                let cv = char_views2(secs_o@);
                assert(cv.take(i + 1).map_values(f).drop_last() == cv.take(i as int).map_values(f));
                assert(cv.take(i + 1).map_values(f).last() == f(char_views(secs_o@[i as int]@)));
            }
            match r {
                Some(sk) => {
                    let ghost before = skills@;
                    skills.push(sk);
                    assert(skills@.map_values(|s: OshiSkill| s@) == before.map_values(
                        |s: OshiSkill| s@,
                    ).push(sk@));
                },
                None => {},
            }
            i = i + 1;
        }
        assert(char_views2(secs_o@).take(i as int) == char_views2(secs_o@));
        update_oshi_skills(card, skills, Language::English, released);
        // keywords
        let starts = starts_of(vec!["Collab Effect", "Bloom Effect", "Gift"]);
        assert(starts@.map_values(|s: &str| s@) == keyword_starts());
        let secs_k = extract_sections_exec(&mut lines, &starts);
        let mut keywords: Vec<Keyword> = Vec::new();
        let mut i: usize = 0;
        while i < secs_k.len()
            invariant
                i <= secs_k.len(),
                keywords@.map_values(|k: Keyword| k@) == somes(
                    char_views2(secs_k@).take(i as int).map_values(|x: Seq<Seq<char>>| sheet_keyword(x)),
                ),
            decreases secs_k.len() - i,
        {
            let r = to_keyword(&secs_k[i]);
            proof {
                let f = |x: Seq<Seq<char>>| sheet_keyword(x);
                let cv = char_views2(secs_k@);
                assert(cv.take(i + 1).map_values(f).drop_last() == cv.take(i as int).map_values(f));
                assert(cv.take(i + 1).map_values(f).last() == f(char_views(secs_k@[i as int]@)));
            }
            match r {
                Some(kw) => {
                    let ghost before = keywords@;
                    keywords.push(kw);
                    assert(keywords@.map_values(|k: Keyword| k@) == before.map_values(
                        |k: Keyword| k@,
                    ).push(kw@));
                },
                None => {},
            }
            i = i + 1;
        }
        assert(char_views2(secs_k@).take(i as int) == char_views2(secs_k@));
        update_keywords(card, keywords, Language::English, released);
        // arts
        let starts = starts_of(vec!["Arts"]);
        assert(starts@.map_values(|s: &str| s@) == art_starts());
        let secs_a = extract_sections_exec(&mut lines, &starts);
        assert(char_views2(secs_a@) == secs.3);
        let mut arts: Vec<Art> = Vec::new();
        let mut i: usize = 0;
        while i < secs_a.len()
            invariant
                i <= secs_a.len(),
                char_views2(secs_a@) == secs.3,
                secs == text_sections(self.text@),
                sheet_arts_ok(self.text@),
                arts@.map_values(|a: Art| a@) == somes(
                    char_views2(secs_a@).take(i as int).map_values(|x: Seq<Seq<char>>| sheet_art(x)),
                ),
            decreases secs_a.len() - i,
        {
            assert(char_views2(secs_a@)[i as int] == char_views(secs_a@[i as int]@));
            assert(art_section_ok(secs.3[i as int]));
            let r = to_art(&secs_a[i]);
            proof {
                let f = |x: Seq<Seq<char>>| sheet_art(x);
                let cv = char_views2(secs_a@);
                assert(cv.take(i + 1).map_values(f).drop_last() == cv.take(i as int).map_values(f));
                assert(cv.take(i + 1).map_values(f).last() == f(char_views(secs_a@[i as int]@)));
            }
            match r {
                Some(a) => {
                    let ghost before = arts@;
                    arts.push(a);
                    assert(arts@.map_values(|a: Art| a@) == before.map_values(|a: Art| a@).push(a@));
                },
                None => {},
            }
            i = i + 1;
        }
        assert(char_views2(secs_a@).take(i as int) == char_views2(secs_a@));
        update_arts(card, arts, Language::English, released);
        // extra
        let starts = starts_of(vec!["Extra"]);
        assert(starts@.map_values(|s: &str| s@) == extra_starts());
        let secs_e = extract_sections_exec(&mut lines, &starts);
        let mut extra: Option<Localized<String>> = None;
        let mut i: usize = 0;
        let ghost ev = char_views2(secs_e@).map_values(|x: Seq<Seq<char>>| sheet_extra(x));
        assert(ev.skip(0) == ev);
        while i < secs_e.len()
            invariant_except_break
                extra.is_none(),
                first_some(ev) == first_some(ev.skip(i as int)),
            invariant
                i <= secs_e.len(),
                ev == char_views2(secs_e@).map_values(|x: Seq<Seq<char>>| sheet_extra(x)),
            ensures
                opt_texts(extra) == first_some(ev),
            decreases secs_e.len() - i,
        {
            let r = to_extra(&secs_e[i]);
            assert(ev.skip(i as int)[0] == ev[i as int]);
            assert(ev.skip(i as int).drop_first() == ev.skip(i + 1));
            if r.is_some() {
                extra = r;
                assert(opt_texts(extra) == ev[i as int]);
                break;
            }
            i = i + 1;
        }
        assert(opt_texts(extra) == first_some(ev));
        fix_extra(&card.card_number, &mut extra);
        update_extra(card, extra, Language::English, released);
        // the rest is ability text
        if lines.len() > 0 {
            let joined = join_chars(&lines, &chars_of("\n"));
            assert(lines@.map_values(|p: Vec<char>| p@) == char_views(lines@));
            card.ability_text.english = Some(string_of(&trim_chars(&joined)));
        } else {
            card.ability_text.english = None;
        }
    }
}


/// Some printing has a Deck Log id.
fn is_released(card: &Card) -> (r: bool)
    ensures
        r == card_released(card@),
{
    let mut i: usize = 0;
    while i < card.illustrations.len()
        invariant
            i <= card.illustrations.len(),
            forall|k: int|
                0 <= k < i ==> !((#[trigger] card@.illustrations[k]).manage_id.0 is Some
                    || card@.illustrations[k].manage_id.1 is Some),
        decreases card.illustrations.len() - i,
    {
        assert(card@.illustrations[i as int] == card.illustrations@[i as int]@);
        if card.illustrations[i].manage_id.has_value() {
            return true;
        }
        i = i + 1;
    }
    false
}

impl SheetCard {
    /// Reads the number, name, type, colors, life or HP, bloom level, buzz
    /// and limited columns into the card.
    fn apply_header(&self, card: &mut Card, released: bool)
        ensures
            final(card)@ == header_applied(*self, old(card)@, released),
    {
        reveal(header_applied);
        proof {
            reveal_strlit("\n");
        }
        if chars_of_string(&card.card_number).len() == 0 || !released {
            card.card_number = self.set_code.clone();
        }
        let name = self.name();
        if card.name.japanese.is_none() || !released {
            let jp = match &name.japanese {
                Some(j) => chars_of_string(j),
                None => Vec::new(),
            };
            card.name.japanese = Some(string_of(&replace_str(&jp, "\n", " ")));
        }
        card.name.english = name.english;
        if card.card_type == CardType::Other || !released {
            card.card_type = self.card_type();
        }
        if card.colors.len() == 0 || !released {
            card.colors = self.colors();
        }
        let num: u32 = match parse_u32_chars(&chars_of_string(&self.life_hp)) {
            Some(n) => n,
            None => 0,
        };
        if card.card_type == CardType::OshiHoloMember {
            if card.life == 0 || !released {
                card.life = num;
            }
        } else if card.card_type == CardType::HoloMember {
            if card.hp == 0 || !released {
                card.hp = num;
            }
        }
        if card.bloom_level.is_none() || !released {
            card.bloom_level = self.bloom_level();
            card.buzz = self.buzz();
            card.limited = self.limited();
        }
    }

    /// Reads the row into the card; see `sheet_applied`.
    pub fn update_card(&self, card: &mut Card)
        requires
            sheet_arts_ok(self.text@),
        ensures
            final(card)@ == sheet_applied(*self, old(card)@),
    {
        let released = is_released(card);
        self.apply_header(card, released);
        self.update_card_text(card, released);
        let tags = self.tags();
        assert(tags@.map_values(|t: Localized<String>| t.texts()) == sheet_tags(self.tags@).map_values(
            |t: Seq<char>| (None::<Seq<char>>, Some(t)),
        ));
        update_tags(card, tags, Language::English, released);
        apply_max_amount(card, released);
    }
}

/// Sets the number of copies a deck may hold; see `max_amount_applied`.
fn apply_max_amount(card: &mut Card, released: bool)
    ensures
        final(card)@ == max_amount_applied(old(card)@, released),
{
    let base: u32 = match card.card_type {
        CardType::OshiHoloMember => 1,
        CardType::Cheer => 20,
        _ => 4,
    };
    let unset = match card.max_amount.japanese {
        Some(n) => n == 0,
        None => true,
    };
    if unset || !released {
        let any_number = match &card.extra {
            Some(x) => match &x.english {
                Some(e) => eq(
                    &chars_of_string(e),
                    &chars_of("You may include any number of this holomem in the deck"),
                ),
                None => false,
            },
            None => false,
        };
        card.max_amount.japanese = Some(
            if any_number {
                50
            } else {
                base
            },
        );
    }
}


/// The text of an extra that lets a deck hold any number of a card.
pub open spec fn any_number_extra(e: Option<TextPair>) -> bool {
    e matches Some(x) && x.1 == Some("You may include any number of this holomem in the deck"@)
}

/// A row read into a card that has no Deck Log id sets how many copies a
/// deck may hold: any number (50) where its extra text says so; else one
/// for an oshi, twenty for a cheer and four for any other card.
pub proof fn lemma_sheet_max_amount(sc: SheetCard, c: CardView)
    requires
        !card_released(c),
    ensures
        ({
            let r = sheet_applied(sc, c);
            &&& any_number_extra(r.extra) ==> r.max_amount.0 == Some(50u32)
            &&& !any_number_extra(r.extra) && r.card_type == CardType::OshiHoloMember ==> r.max_amount.0 == Some(1u32)
            &&& !any_number_extra(r.extra) && r.card_type == CardType::Cheer ==> r.max_amount.0 == Some(20u32)
            &&& !any_number_extra(r.extra) && r.card_type != CardType::OshiHoloMember && r.card_type != CardType::Cheer
                ==> r.max_amount.0 == Some(4u32)
        }),
{
}

/// A row read into a card that has no Deck Log id gives it the row's set
/// code as its number, and the row's English name.
pub proof fn lemma_sheet_unreleased_number(sc: SheetCard, c: CardView)
    requires
        !card_released(c),
    ensures
        sheet_applied(sc, c).card_number == sc.set_code@,
        sheet_applied(sc, c).name.1 == Some(sheet_name(sc.card_name_jp_en@).1),
{
    reveal(header_applied);
    reveal(text_applied);
}

} // verus!
