use std::collections::BTreeSet;

use hocg_fan_sim_assets::decklog::{apply_decklog_card, retrieve_card_info_from_decklog, DeckLogCard};
use hocg_fan_sim_assets::model::{BloomLevel, Card, CardIllustration, CardType, Language, SupportType};

fn listed(id: Option<u32>, number: &str, kind: &str, rare: &str, img: &str, max: u32) -> DeckLogCard {
    DeckLogCard {
        manage_id: id,
        card_number: number.to_string(),
        card_kind: kind.to_string(),
        name: format!("name of {number}"),
        rare: rare.to_string(),
        img: img.to_string(),
        bloom_level: "1st".to_string(),
        max,
    }
}

fn ids(v: &[u32]) -> Option<BTreeSet<u32>> {
    Some(v.iter().copied().collect())
}

#[test]
fn decklog_card_kinds() {
    let mut c = listed(Some(1), "hSD01-001", "推しホロメン", "OSR", "a.png", 1);
    assert_eq!(c.card_type(), CardType::OshiHoloMember);
    c.card_kind = "Buzzホロメン".to_string();
    assert_eq!(c.card_type(), CardType::HoloMember);
    assert!(c.buzz());
    assert!(!c.limited());
    c.card_kind = "サポート・イベント・LIMITED".to_string();
    assert_eq!(c.card_type(), CardType::Support(SupportType::Event));
    assert!(c.limited());
    c.card_kind = "エール".to_string();
    assert_eq!(c.card_type(), CardType::Cheer);
    c.bloom_level = "Debut".to_string();
    assert_eq!(c.bloom_level(), Some(BloomLevel::Debut));
    c.bloom_level = "".to_string();
    assert_eq!(c.bloom_level(), None);
}

#[test]
fn decklog_adds_a_new_card_and_printing() {
    let mut db: Vec<Card> = Vec::new();
    let dl = listed(Some(7), "hSD01-003", "ホロメン", "C", "hSD01/hSD01-003_C.png", 4);
    apply_decklog_card(&mut db, &dl, Language::Japanese, false);
    assert_eq!(db.len(), 1);
    let card = &db[0];
    assert_eq!(card.card_number, "hSD01-003");
    assert_eq!(card.name.japanese.as_deref(), Some("name of hSD01-003"));
    assert_eq!(card.card_type, CardType::HoloMember);
    assert_eq!(card.max_amount.japanese, Some(4));
    assert_eq!(card.bloom_level, Some(BloomLevel::First));
    assert_eq!(card.illustrations.len(), 1);
    let il = &card.illustrations[0];
    assert_eq!(il.manage_id.japanese, ids(&[7]));
    assert_eq!(il.rarity, "C");
    // the image becomes a .webp unless the original images are kept
    assert_eq!(il.img_path.japanese.as_deref(), Some("hSD01/hSD01-003_C.webp"));
}

#[test]
fn decklog_keeps_png_when_optimized() {
    let mut db: Vec<Card> = Vec::new();
    let dl = listed(Some(7), "hSD01-003", "ホロメン", "C", "x.png", 4);
    apply_decklog_card(&mut db, &dl, Language::English, true);
    assert_eq!(db[0].illustrations[0].img_path.english.as_deref(), Some("x.png"));
    assert_eq!(db[0].illustrations[0].manage_id.english, ids(&[7]));
    assert_eq!(db[0].illustrations[0].manage_id.japanese, None);
}

#[test]
fn decklog_oshi_amount_is_one() {
    let mut db: Vec<Card> = Vec::new();
    let dl = listed(Some(1), "hSD01-001", "推しホロメン", "OSR", "a.png", 3);
    apply_decklog_card(&mut db, &dl, Language::Japanese, false);
    assert_eq!(db[0].max_amount.japanese, Some(1));
}

#[test]
fn decklog_id_moves_to_its_card() {
    let mut other = Card::default();
    other.card_number = "hSD01-002".to_string();
    let mut il = CardIllustration::default();
    il.card_number = "hSD01-002".to_string();
    il.manage_id.japanese = ids(&[5]);
    other.illustrations.push(il);
    let mut il2 = CardIllustration::default();
    il2.card_number = "hSD01-002".to_string();
    il2.manage_id.japanese = ids(&[5, 6]);
    other.illustrations.push(il2);
    let mut db = vec![other];
    let dl = listed(Some(5), "hSD01-009", "ホロメン", "R", "b.png", 4);
    apply_decklog_card(&mut db, &dl, Language::Japanese, false);
    // a set that loses its last id becomes none
    assert_eq!(db[0].illustrations[0].manage_id.japanese, None);
    assert_eq!(db[0].illustrations[1].manage_id.japanese, ids(&[6]));
    assert_eq!(db[1].card_number, "hSD01-009");
    assert_eq!(db[1].illustrations[0].manage_id.japanese, ids(&[5]));
}

#[test]
fn decklog_finds_the_printing_by_id_then_image() {
    let mut card = Card::default();
    card.card_number = "hSD01-004".to_string();
    let mut a = CardIllustration::default();
    a.card_number = "hSD01-004".to_string();
    a.img_path.japanese = Some("img_a.webp".to_string());
    a.manage_id.japanese = ids(&[30]);
    let mut b = CardIllustration::default();
    b.card_number = "hSD01-004".to_string();
    b.img_path.japanese = Some("img_b.webp".to_string());
    card.illustrations = vec![a, b];
    let mut db = vec![card];
    // found by image: the second printing takes the id, then the printings are ordered by id
    let dl = listed(Some(20), "hSD01-004", "ホロメン", "SR", "img_b.png", 4);
    apply_decklog_card(&mut db, &dl, Language::Japanese, false);
    let ils = &db[0].illustrations;
    assert_eq!(ils.len(), 2);
    assert_eq!(ils[0].manage_id.japanese, ids(&[20]));
    assert_eq!(ils[0].rarity, "SR");
    assert_eq!(ils[1].manage_id.japanese, ids(&[30]));
    // found by id: only the listed fields change
    let dl = listed(Some(30), "hSD01-004", "ホロメン", "U", "img_c.png", 4);
    apply_decklog_card(&mut db, &dl, Language::Japanese, false);
    let ils = &db[0].illustrations;
    assert_eq!(ils.len(), 2);
    assert_eq!(ils[1].rarity, "U");
    assert_eq!(ils[1].img_path.japanese.as_deref(), Some("img_c.webp"));
}

#[test]
fn decklog_lists_the_printings_read() {
    let mut db: Vec<Card> = Vec::new();
    let cards = vec![
        listed(Some(2), "hSD01-001", "推しホロメン", "OSR", "a.png", 1),
        listed(Some(1), "hSD01-002", "ホロメン", "C", "b.png", 4),
        listed(Some(3), "hSD01-001", "推しホロメン", "SEC", "c.png", 1),
    ];
    let r = retrieve_card_info_from_decklog(&mut db, &cards, Language::Japanese, false);
    assert_eq!(db.len(), 2);
    assert_eq!(db[0].illustrations.len(), 2);
    assert_eq!(
        r,
        vec![
            ("hSD01-001".to_string(), 0),
            ("hSD01-001".to_string(), 1),
            ("hSD01-002".to_string(), 0),
        ]
    );
}
