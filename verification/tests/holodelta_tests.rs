use hocg_fan_sim_assets::holodelta::{
    delta_image_path_of, import_delta_arts, match_delta_arts, CardArtInfo, CardArtLangs, CardColor, CardMismatch,
};
use hocg_fan_sim_assets::holodelta::Card as DeltaCard;
use hocg_fan_sim_assets::model::{BloomLevel, Card, CardIllustration, CardType, Color};

fn delta() -> DeltaCard {
    DeltaCard {
        arts: None,
        baton_pass_cost: Some(1),
        buzz: Some(false),
        card_art: None,
        card_limit: Some(-1),
        card_type: Some("Holomem".to_string()),
        color: Some(CardColor::Single("White".to_string())),
        effect: None,
        hp: Some(90),
        level: Some(1),
        name: None,
        tags: None,
        skills: None,
        support_type: None,
    }
}

fn ours() -> Card {
    let mut c = Card::default();
    c.card_number = "hSD01-003".to_string();
    c.card_type = CardType::HoloMember;
    c.colors = vec![Color::White];
    c.baton_pass = vec![Color::Colorless];
    c.hp = 90;
    c.bloom_level = Some(BloomLevel::First);
    c.max_amount.japanese = Some(50);
    c
}

#[test]
fn delta_card_agrees() {
    let r = delta().verify_card(&"hSD01-003".to_string(), &ours(), &vec![]);
    assert!(r.is_empty());
}

#[test]
fn delta_card_differences_in_order() {
    let mut c = ours();
    c.hp = 100;
    c.bloom_level = Some(BloomLevel::Second);
    c.colors = vec![Color::Red];
    c.max_amount.japanese = Some(4);
    let r = delta().verify_card(&"hSD01-004".to_string(), &c, &vec![("hSD01-004".to_string(), 3)]);
    assert_eq!(
        r,
        vec![CardMismatch::Number, CardMismatch::CardLimit, CardMismatch::Color, CardMismatch::Hp, CardMismatch::Level]
    );
    // the banlist allows the amount
    let r = delta().verify_card(&"hSD01-003".to_string(), &{
        let mut c = ours();
        c.max_amount.japanese = Some(3);
        c
    }, &vec![("hSD01-003".to_string(), 3)]);
    assert!(r.is_empty());
}

#[test]
fn delta_art_indexes() {
    let mut d = delta();
    let info = CardArtInfo { proxy: false, unrevealed: false };
    d.card_art = Some(vec![
        ("1".to_string(), CardArtLangs { en: Some(info), ja: Some(info) }),
        ("2".to_string(), CardArtLangs { en: Some(info), ja: None }),
        ("3".to_string(), CardArtLangs { en: None, ja: Some(info) }),
    ]);
    assert_eq!(d.art_count(), 3);
    assert_eq!(d.ja_art_indexes(), vec!["1".to_string(), "3".to_string()]);
    assert_eq!(delta_image_path_of(&"hSD01-003".to_string(), &"2".to_string()), "cardFronts\\hSD01\\ja\\003\\2.webp");
}

#[test]
fn delta_arts_matched_by_distance() {
    let mut c = ours();
    c.illustrations = vec![CardIllustration::default(), CardIllustration::default(), CardIllustration::default()];
    c.illustrations[2].delta_art_index = Some(9);
    let mut db = vec![c];
    // art 7 is close to the first printing and within tolerance of the third;
    // far from the second
    let n = match_delta_arts(&mut db, 0, &vec![7], &vec![vec![5, 500, 80]]);
    assert_eq!(n, 2);
    assert_eq!(db[0].illustrations[0].delta_art_index, Some(7));
    assert_eq!(db[0].illustrations[1].delta_art_index, None);
    assert_eq!(db[0].illustrations[2].delta_art_index, Some(7));
}

#[test]
fn delta_import_touches_only_listed_cards() {
    let mut c = ours();
    c.illustrations = vec![CardIllustration::default(), CardIllustration::default()];
    let mut other = ours();
    other.card_number = "hBP01-999".to_string();
    other.illustrations = vec![CardIllustration::default()];
    other.illustrations[0].delta_art_index = Some(3);
    let number = c.card_number.clone();
    let mut db = vec![c, other];
    let entries = vec![
        (number, vec![7u32], vec![vec![5u64, 500]]),
        ("hZZ99-001".to_string(), vec![1u32], vec![vec![0u64]]),
    ];
    let counts = import_delta_arts(&mut db, &entries);
    assert_eq!(counts, vec![1, 0]);
    assert_eq!(db[0].illustrations[0].delta_art_index, Some(7));
    assert_eq!(db[0].illustrations[1].delta_art_index, None);
    assert_eq!(db[1].illustrations[0].delta_art_index, Some(3));
    // a distance table that does not fit leaves the card as it is
    let bad = vec![(db[0].card_number.clone(), vec![8u32], vec![vec![1u64]])];
    assert_eq!(import_delta_arts(&mut db, &bad), vec![0]);
    assert_eq!(db[0].illustrations[0].delta_art_index, Some(7));
}
