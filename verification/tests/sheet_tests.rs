use hocg_fan_sim_assets::model::{BloomLevel, Card, CardType, Color, Language, Order, SupportType};
use hocg_fan_sim_assets::ordering::CardOrderingOptions;
use hocg_fan_sim_assets::sheet::SheetCard;
use hocg_fan_sim_assets::spreadsheet::{cheer_numbers_valid, find_header_row, retrieve_card_info_from_ogbajoj_sheet, retrieve_spreadsheet_data, TableCell};

fn sheet_card(name: &str, card_type: &str, color: &str, text: &str, tags: &str) -> SheetCard {
    SheetCard {
        row_idx: 3,
        set_code: "hSD01-003".to_string(),
        card_name_jp_en: name.to_string(),
        language: Language::Japanese,
        images_src: String::new(),
        full_size_img_url: String::new(),
        hash_img_url: String::new(),
        card_type: card_type.to_string(),
        rarity: "C".to_string(),
        color: color.to_string(),
        life_hp: "90".to_string(),
        tags: tags.to_string(),
        text: text.to_string(),
    }
}

#[test]
fn sheet_row_fields() {
    let c = sheet_card(
        "ときのそら\n(Tokino Sora)",
        "1st Buzz holomem",
        "White / none / pink",
        "LIMITED: only one\n[translator's note]\n  Some text  \nmore",
        "#JP #Gen0  #",
    );
    let n = c.name();
    assert_eq!(n.japanese.as_deref(), Some("ときのそら"));
    assert_eq!(n.english.as_deref(), Some("Tokino Sora"));
    assert_eq!(c.card_type(), CardType::HoloMember);
    assert_eq!(c.colors(), vec![Color::White, Color::Colorless]);
    assert_eq!(c.bloom_level(), Some(BloomLevel::First));
    assert!(c.buzz());
    assert!(c.limited());
    assert_eq!(c.text(), "Some text\nmore");
    let tags: Vec<Option<String>> = c.tags().into_iter().map(|t| t.english).collect();
    assert_eq!(tags, vec![Some("#JP".to_string()), Some("#Gen0".to_string())]);
    let single = sheet_card("  Fan  ", "Support - Fan", "", "", "");
    assert_eq!(single.name().english.as_deref(), Some("Fan"));
    assert_eq!(single.card_type(), CardType::Support(SupportType::Fan));
}

#[test]
fn sheet_row_read_into_unreleased_card() {
    let mut card = Card::default();
    let row = sheet_card("ときのそら\n(Tokino Sora)", "Debut holomem", "White", "text", "#JP");
    row.update_card(&mut card);
    assert_eq!(card.card_number, "hSD01-003");
    assert_eq!(card.name.english.as_deref(), Some("Tokino Sora"));
    assert_eq!(card.card_type, CardType::HoloMember);
    assert_eq!(card.hp, 90);
    assert_eq!(card.bloom_level, Some(BloomLevel::Debut));
    assert_eq!(card.max_amount.japanese, Some(4));
}

fn cell(text: &str, img: Option<&str>) -> TableCell {
    TableCell { text: text.to_string(), content: text.trim().to_string(), img_src: img.map(|s| s.to_string()) }
}

#[test]
fn sheet_table_read() {
    let header = vec![
        cell("SetCode", None),
        cell("Card Name", None),
        cell("Image", None),
        cell("Type", None),
        cell("Rarity", None),
        cell("Color", None),
        cell("LIFE/HP", None),
        cell("Tags", None),
        cell("Text", None),
    ];
    let row = vec![
        cell("hSD01-003", None),
        cell("Sora", None),
        cell("", Some("https://img/abc=w100-h140?authuser=0")),
        cell("Debut holomem", None),
        cell(" C ", None),
        cell("White", None),
        cell("90", None),
        cell("#JP", None),
        cell("text", None),
    ];
    let rows = vec![vec![cell("title", None)], header.clone(), vec![cell("  ", None)], row];
    let (h, x) = find_header_row(&rows).unwrap();
    assert_eq!(h, 1);
    assert_eq!(x.set_code, Some(0));
    assert_eq!(x.rarity_1, Some(4));
    let cards = retrieve_spreadsheet_data(&rows).unwrap();
    assert_eq!(cards.len(), 1);
    assert_eq!(cards[0].row_idx, 3);
    assert_eq!(cards[0].set_code, "hSD01-003");
    assert_eq!(cards[0].rarity, "C");
    assert_eq!(cards[0].full_size_img_url, "https://img/abc?authuser=0");
    assert_eq!(cards[0].hash_img_url, "https://img/abc=w120-h168?authuser=0");
    assert!(retrieve_spreadsheet_data(&vec![vec![cell("nothing", None)]]).is_none());
    let mut c = Card::default();
    c.card_number = "hSD01-003".to_string();
    let mut db = vec![c];
    let (n, _cheers) = retrieve_card_info_from_ogbajoj_sheet(&mut db, &cards);
    assert_eq!(n, 1);
    assert_eq!(db[0].name.english.as_deref(), Some("Sora"));
}

fn member(number: &str, name: &str, card_type: CardType, colors: Vec<Color>) -> Card {
    let mut c = Card::default();
    c.card_number = number.to_string();
    c.name.japanese = Some(name.to_string());
    c.card_type = card_type;
    c.colors = colors;
    c
}

#[test]
fn cards_ordered() {
    let o = CardOrderingOptions::default();
    let sora = member("hSD01-003", "ときのそら", CardType::HoloMember, vec![Color::White]);
    let miko = member("hSD01-009", "さくらみこ", CardType::HoloMember, vec![Color::White]);
    let oshi = member("hSD01-001", "ときのそら", CardType::OshiHoloMember, vec![Color::White]);
    let grey = member("hSD01-010", "ときのそら", CardType::HoloMember, vec![Color::Colorless]);
    assert_eq!(o.for_card(&sora).compare(&o.for_card(&miko)), Order::Less);
    assert_eq!(o.for_card(&miko).compare(&o.for_card(&sora)), Order::Greater);
    assert_eq!(o.for_card(&oshi).compare(&o.for_card(&sora)), Order::Less);
    // colorless cards come last within their type
    assert_eq!(o.for_card(&grey).compare(&o.for_card(&sora)), Order::Greater);
    assert_eq!(o.for_card(&sora).compare(&o.for_card(&sora)), Order::Equal);
    let m = CardOrderingOptions::member_first();
    assert_eq!(m.for_card(&sora).compare(&m.for_card(&miko)), Order::Less);
}

#[test]
fn sheet_art_sections_are_complete() {
    let ok = sheet_card("n", "Debut holomem", "White", "Arts: \"Hi\"\nCost: White\nPower: 20\n", "");
    assert!(ok.arts_valid());
    let plain = sheet_card("n", "Debut holomem", "White", "Some ability text", "");
    assert!(plain.arts_valid());
    let short = sheet_card("n", "Debut holomem", "White", "Arts: \"Hi\"\nCost: White\n", "");
    assert!(!short.arts_valid());
}

#[test]
fn cheer_numbers_have_a_set() {
    let mut cheer = Card::default();
    cheer.card_type = CardType::Cheer;
    cheer.card_number = "hY01-001".to_string();
    let mut other = Card::default();
    other.card_number = "nodash".to_string();
    assert!(cheer_numbers_valid(&vec![cheer.clone(), other.clone()]));
    cheer.card_number = "hY01".to_string();
    assert!(!cheer_numbers_valid(&vec![cheer, other]));
}

#[test]
fn card_order_is_transitive_on_three_cards() {
    let o = CardOrderingOptions::default();
    let oshi = member("hSD01-001", "ときのそら", CardType::OshiHoloMember, vec![Color::White]);
    let sora = member("hSD01-003", "ときのそら", CardType::HoloMember, vec![Color::White]);
    let miko = member("hSD01-009", "さくらみこ", CardType::HoloMember, vec![Color::White]);
    assert_eq!(o.for_card(&oshi).compare(&o.for_card(&sora)), Order::Less);
    assert_eq!(o.for_card(&sora).compare(&o.for_card(&miko)), Order::Less);
    assert_eq!(o.for_card(&oshi).compare(&o.for_card(&miko)), Order::Less);
    let twin = member("hSD01-004", "ときのそら", CardType::HoloMember, vec![Color::White]);
    assert_eq!(o.for_card(&sora).compare(&o.for_card(&twin)), Order::Less);
    assert_eq!(o.for_card(&twin).compare(&o.for_card(&miko)), Order::Less);
}
