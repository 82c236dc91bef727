use std::collections::BTreeSet;

use hocg_fan_sim_assets::model::{Card, CardIllustration, Language};
use hocg_fan_sim_assets::sheet_images::{
    find_recorded_image, forget_sheet_image, free_image_path, import_sheet_image, is_skip_image_hash, SheetImage,
    SheetImageAction,
};

fn image(set: &str, rarity: &str, hash: &str) -> SheetImage {
    SheetImage {
        sheet_name: "hBP01".to_string(),
        set_code: set.to_string(),
        rarity: rarity.to_string(),
        language: Language::Japanese,
        img_hash: hash.to_string(),
    }
}

fn path_of(a: &SheetImageAction) -> Option<String> {
    match a {
        SheetImageAction::Download { path } => Some(path.clone()),
        _ => None,
    }
}

#[test]
fn poor_image_is_skipped() {
    let poor = "v2|H32=Uq2rEtSqKHWrYtRzqkxrnfVaVK0rZ5XivFIrrWES1IhqFZLtVKosmqpULZqqV62KcnirZJJFmyxGk2pVcLhSlY6HUlU|CYM=0C0F1C";
    assert!(is_skip_image_hash(poor));
    assert!(!is_skip_image_hash("v2|CYM=000000"));
    let mut db: Vec<Card> = Vec::new();
    let a = import_sheet_image(&mut db, &image("hBP05-079", "P", poor), &vec![]);
    assert!(matches!(a, SheetImageAction::SkippedHash));
    assert!(db.is_empty());
}

#[test]
fn free_file_names() {
    let mut a = CardIllustration::default();
    a.img_path.japanese = Some("unreleased/hBP01-001_RR.webp".to_string());
    let mut b = CardIllustration::default();
    b.img_path.japanese = Some("unreleased/hBP01-001_RR_2.webp".to_string());
    let ils = vec![a, b];
    let set = "hBP01-001".to_string();
    assert_eq!(free_image_path(&ils, Language::Japanese, &set, &"RR".to_string()), "unreleased/hBP01-001_RR_3.webp");
    assert_eq!(free_image_path(&ils, Language::English, &set, &"RR".to_string()), "unreleased/hBP01-001_RR.webp");
    // reserved characters are replaced
    assert_eq!(free_image_path(&vec![], Language::Japanese, &"a/b".to_string(), &"R?".to_string()), "unreleased/a_b_R_.webp");
}

#[test]
fn new_image_adds_card_and_printing() {
    let mut db: Vec<Card> = Vec::new();
    let a = import_sheet_image(&mut db, &image("hBP02-010", "R", "h1"), &vec![]);
    assert_eq!(path_of(&a).as_deref(), Some("unreleased/hBP02-010_R.webp"));
    assert_eq!(db.len(), 1);
    assert_eq!(db[0].card_number, "hBP02-010");
    let il = &db[0].illustrations[0];
    assert_eq!(il.rarity, "R");
    assert_eq!(il.img_hash, "h1");
    assert_eq!(il.img_path.japanese.as_deref(), Some("unreleased/hBP02-010_R.webp"));
    // the same image again, close enough: it exists
    let again = import_sheet_image(&mut db, &image("hBP02-010", "R", "h1"), &vec![0]);
    assert!(matches!(again, SheetImageAction::Exists));
    // a new image of the same unreleased printing replaces the old one in place
    let newer = import_sheet_image(&mut db, &image("hBP02-010", "R", "h2"), &vec![30]);
    assert_eq!(path_of(&newer).as_deref(), Some("unreleased/hBP02-010_R.webp"));
    assert_eq!(db[0].illustrations.len(), 1);
    assert_eq!(db[0].illustrations[0].img_hash, "h2");
    // a far image of the same rarity is still taken unless it is a promo
    let far = import_sheet_image(&mut db, &image("hBP02-010", "R", "h3"), &vec![900]);
    assert!(path_of(&far).is_some());
    assert_eq!(db[0].illustrations.len(), 1);
}

#[test]
fn rarity_change_renames_the_file() {
    let mut db: Vec<Card> = Vec::new();
    import_sheet_image(&mut db, &image("hBP02-011", "R", "h1"), &vec![]);
    let a = import_sheet_image(&mut db, &image("hBP02-011", "RR", "h1"), &vec![40]);
    match a {
        SheetImageAction::Rename { from, to } => {
            assert_eq!(from, "unreleased/hBP02-011_R.webp");
            assert_eq!(to, "unreleased/hBP02-011_RR.webp");
        },
        other => panic!("unexpected {other:?}"),
    }
    assert_eq!(db[0].illustrations[0].rarity, "RR");
}

#[test]
fn released_printing_is_not_replaced() {
    let mut card = Card::default();
    card.card_number = "hBP01-001".to_string();
    let mut il = CardIllustration::default();
    il.card_number = "hBP01-001".to_string();
    il.rarity = "RR".to_string();
    il.manage_id.japanese = Some([1u32].into_iter().collect::<BTreeSet<u32>>());
    card.illustrations.push(il);
    let mut db = vec![card];
    assert!(matches!(import_sheet_image(&mut db, &image("hBP01-001", "rr", "x"), &vec![10]), SheetImageAction::Exists));
    // too far from the released printing: a new printing
    let a = import_sheet_image(&mut db, &image("hBP01-001", "RR", "x"), &vec![500]);
    assert_eq!(path_of(&a).as_deref(), Some("unreleased/hBP01-001_RR.webp"));
    assert_eq!(db[0].illustrations.len(), 2);
}

#[test]
fn failed_download_is_forgotten() {
    let mut db: Vec<Card> = Vec::new();
    let img = image("hBP02-012", "C", "h9");
    import_sheet_image(&mut db, &img, &vec![]);
    let (c, k) = find_recorded_image(&db, &img).unwrap();
    forget_sheet_image(&mut db, c, k, Language::Japanese);
    assert_eq!(db[0].illustrations[0].img_hash, "");
    assert!(db[0].illustrations[0].img_path.japanese.is_none());
    assert_eq!(find_recorded_image(&db, &img), None);
}

#[test]
fn master_sheet_rows_are_skipped() {
    let mut db: Vec<Card> = Vec::new();
    let mut img = image("hBP02-010", "R", "h1");
    img.sheet_name = "Master Sheet".to_string();
    let a = import_sheet_image(&mut db, &img, &vec![]);
    assert!(matches!(a, SheetImageAction::SkippedSheet));
    assert!(db.is_empty());
}
