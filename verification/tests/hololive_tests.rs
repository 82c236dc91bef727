use std::collections::BTreeSet;

use hocg_fan_sim_assets::hololive::{
    apply_hololive_card, art_advantage_valid, buzz, page_arts_valid, card_type_of, colors_of, find_illustration_for_page, limited, record_illustrator,
    tags_of, update_card_arts, update_card_illustrations, update_card_info, update_card_keywords,
    update_card_oshi_skills, HololiveCard, InfoRow,
};
use hocg_fan_sim_assets::model::{
    ArtPower, BloomLevel, Card, CardIllustration, CardType, Color, HoloPower, KeywordEffect, OshiSkillKind,
};

fn row(key: &str, text: &str, alts: &str) -> InfoRow {
    InfoRow { key: key.to_string(), text: text.to_string(), img_alts: alts.to_string() }
}

#[test]
fn site_card_types_and_colors() {
    assert_eq!(card_type_of(&"推しホロメン".to_string()), CardType::OshiHoloMember);
    assert_eq!(card_type_of(&" エール ".to_string()), CardType::Cheer);
    assert_eq!(card_type_of(&"???".to_string()), CardType::Other);
    assert!(buzz(&"Buzzホロメン".to_string()));
    assert!(limited(&"サポート・アイテム・LIMITED".to_string()));
    let cs: Vec<char> = "白 緑\n赤x◇".chars().collect();
    assert_eq!(colors_of(&cs), vec![Color::White, Color::Green, Color::Red, Color::Colorless]);
    let tags = tags_of(&"#JP #Gen0".to_string());
    assert_eq!(tags.len(), 2);
    assert_eq!(tags[1].japanese.as_deref(), Some("#Gen0"));
}

#[test]
fn site_information_rows() {
    let mut card = Card::default();
    card.card_number = "hSD01-003".to_string();
    let rows = vec![
        row("カードタイプ", "ホロメン", ""),
        row("色", "", "白"),
        row("HP", "150", ""),
        row("LIFE", "x", ""),
        row("Bloomレベル", "1st", ""),
        row("能力テキスト", "text LIMITED：ターンに１枚しか使えない。", ""),
        row("タグ", "#JP #Gen1", ""),
    ];
    update_card_info(&mut card, Some("name".to_string()), &rows, Some("extra".to_string()));
    assert_eq!(card.card_type, CardType::HoloMember);
    assert_eq!(card.colors, vec![Color::White]);
    assert_eq!(card.hp, 150);
    assert_eq!(card.life, 0);
    assert_eq!(card.bloom_level, Some(BloomLevel::First));
    assert_eq!(card.ability_text.japanese.as_deref(), Some("text"));
    assert_eq!(card.tags.len(), 2);
    assert_eq!(card.name.japanese.as_deref(), Some("name"));
    assert_eq!(card.extra.as_ref().and_then(|e| e.japanese.as_deref()), Some("extra"));
    // a type from Deck Log stays
    update_card_info(&mut card, None, &vec![row("カードタイプ", "エール", "")], None);
    assert_eq!(card.card_type, CardType::HoloMember);
    assert!(card.extra.is_none());
}

#[test]
fn site_oshi_skills() {
    let mut card = Card::default();
    let skills = vec![
        (false, vec!["[ホロパワー：-3消費]".to_string(), " Skill ".to_string(), " text ".to_string()]),
        (true, vec!["[ホロパワー：-X消費]".to_string(), "SP".to_string(), "sp text".to_string()]),
        (false, vec!["only two".to_string(), "parts".to_string()]),
    ];
    update_card_oshi_skills(&mut card, &skills);
    assert_eq!(card.oshi_skills.len(), 2);
    assert_eq!(card.oshi_skills[0].kind, OshiSkillKind::Normal);
    assert_eq!(card.oshi_skills[0].holo_power, Some(HoloPower::Basic(3)));
    assert_eq!(card.oshi_skills[0].name.japanese.as_deref(), Some("Skill"));
    assert_eq!(card.oshi_skills[1].kind, OshiSkillKind::Special);
    assert_eq!(card.oshi_skills[1].holo_power, Some(HoloPower::X));
}

#[test]
fn site_keywords() {
    let mut card = Card::default();
    let keywords = vec![
        "\n コラボエフェクト \nName\nline one\n\nline two\n".to_string(),
        "ギフト\nName only\n".to_string(),
    ];
    update_card_keywords(&mut card, &keywords);
    assert_eq!(card.keywords.len(), 1);
    assert_eq!(card.keywords[0].effect, KeywordEffect::Collab);
    assert_eq!(card.keywords[0].name.japanese.as_deref(), Some("Name"));
    assert_eq!(card.keywords[0].ability_text.japanese.as_deref(), Some("line one\nline two"));
}

#[test]
fn site_arts() {
    let mut card = Card::default();
    let arts = vec![
        "白\n◇\nArt name\u{3000}50+\n赤+20\n\ntext of art\n".to_string(),
        "緑\nPlain\u{3000}30\nno advantage here\nmore\n".to_string(),
        "白\n".to_string(),
    ];
    update_card_arts(&mut card, &arts);
    assert_eq!(card.arts.len(), 2);
    let a = &card.arts[0];
    assert_eq!(a.cheers, vec![Color::White, Color::Colorless]);
    assert_eq!(a.name.japanese.as_deref(), Some("Art name"));
    assert_eq!(a.power, ArtPower::Plus(50));
    assert_eq!(a.advantage, Some((Color::Red, 20)));
    assert_eq!(a.ability_text.as_ref().and_then(|t| t.japanese.as_deref()), Some("text of art"));
    let b = &card.arts[1];
    assert_eq!(b.cheers, vec![Color::Green]);
    assert_eq!(b.power, ArtPower::Basic(30));
    assert_eq!(b.advantage, None);
    // the line after the name is taken as the advantage line even without one
    assert_eq!(b.ability_text.as_ref().and_then(|t| t.japanese.as_deref()), Some("more"));
}

#[test]
fn site_card_applied_to_its_card() {
    let mut card = Card::default();
    card.card_number = "hSD01-001".to_string();
    let mut db = vec![card];
    let page = HololiveCard {
        card_number: "hSD01-001".to_string(),
        name: Some("Sora".to_string()),
        rows: vec![row("HP", "90", "")],
        extra: None,
        oshi_skills: vec![],
        keywords: vec![],
        arts: vec!["白\nArt\u{3000}10\n".to_string()],
    };
    assert_eq!(apply_hololive_card(&mut db, &page), Some(0));
    assert_eq!(db[0].hp, 90);
    assert_eq!(db[0].arts.len(), 1);
    let mut other = page.clone();
    other.card_number = "hSD01-999".to_string();
    assert_eq!(apply_hololive_card(&mut db, &other), None);
}

#[test]
fn illustrator_of_the_page_printing() {
    let mut card = Card::default();
    let mut a = CardIllustration::default();
    a.manage_id.japanese = Some([12u32].into_iter().collect::<BTreeSet<u32>>());
    a.illustrator = Some("known".to_string());
    let mut b = CardIllustration::default();
    b.manage_id.japanese = Some([12u32, 13].into_iter().collect::<BTreeSet<u32>>());
    card.illustrations = vec![a, b];
    assert_eq!(find_illustration_for_page(&card, &"12".to_string()), Some(1));
    assert_eq!(find_illustration_for_page(&card, &"99".to_string()), None);
    let base = "https://hololive-official-cardgame.com/cardlist/cardsearch_ex";
    assert_eq!(update_card_illustrations(&card, base, "/cardlist/?id=13&view=image"), Some(Some(1)));
    assert_eq!(update_card_illustrations(&card, base, "/cardlist/?view=image&id=99"), Some(None));
    assert_eq!(update_card_illustrations(&card, base, "/cardlist/?view=image"), Some(None));
    assert_eq!(update_card_illustrations(&card, "not a url", "?id=13"), None);
    record_illustrator(&mut card, 1, "artist".to_string());
    assert_eq!(card.illustrations[1].illustrator.as_deref(), Some("artist"));
    assert_eq!(find_illustration_for_page(&card, &"12".to_string()), None);
}

#[test]
fn art_advantages_name_a_color() {
    assert!(art_advantage_valid(&"白\nArt\u{3000}50\n赤+20\ntext\n".to_string()));
    assert!(art_advantage_valid(&"白\nArt\u{3000}50\nno plus here\n".to_string()));
    assert!(art_advantage_valid(&"白\n".to_string()));
    assert!(!art_advantage_valid(&"白\nArt\u{3000}50\nstrong+20\n".to_string()));
    let mut page = HololiveCard {
        card_number: "hSD01-001".to_string(),
        name: None,
        rows: vec![],
        extra: None,
        oshi_skills: vec![],
        keywords: vec![],
        arts: vec!["白\nArt\u{3000}10\n青+10\n".to_string()],
    };
    assert!(page_arts_valid(&page));
    page.arts.push("Art\u{3000}10\nx+10\n".to_string());
    assert!(!page_arts_valid(&page));
}
