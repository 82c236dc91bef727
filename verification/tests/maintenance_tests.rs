use std::collections::BTreeSet;

use hocg_fan_sim_assets::maintenance::{
    check_tags_consistency, collect_unreferenced, merge_card_illustrations, merge_illustrations, merge_similar_cards,
    referenced_image_paths, sort_for_merge,
};
use hocg_fan_sim_assets::model::{Card, CardIllustration, Language, Localized, SheetCell};

fn il(number: &str, rarity: &str, jp: &[u32]) -> CardIllustration {
    let mut i = CardIllustration::default();
    i.card_number = number.to_string();
    i.rarity = rarity.to_string();
    if !jp.is_empty() {
        i.manage_id.japanese = Some(jp.iter().copied().collect::<BTreeSet<u32>>());
    }
    i
}

#[test]
fn printings_ordered_by_rarity_then_release() {
    let mut ils = vec![il("a", "RR", &[5]), il("a", "C", &[9]), il("a", "RR", &[2]), il("a", "C", &[])];
    let perm = sort_for_merge(&mut ils);
    assert_eq!(perm, vec![1, 3, 2, 0]);
    let keys: Vec<(String, Option<u32>)> = ils
        .iter()
        .map(|i| (i.rarity.clone(), i.manage_id.japanese.as_ref().and_then(|s| s.first().copied())))
        .collect();
    assert_eq!(
        keys,
        vec![
            ("C".to_string(), Some(9)),
            ("C".to_string(), None),
            ("RR".to_string(), Some(2)),
            ("RR".to_string(), Some(5)),
        ]
    );
}

#[test]
fn english_id_counts_for_release_order() {
    let mut late = il("a", "R", &[50]);
    late.manage_id.english = Some([3u32].into_iter().collect());
    let mut ils = vec![il("a", "R", &[10]), late];
    sort_for_merge(&mut ils);
    assert_eq!(ils[0].manage_id.english, Some([3u32].into_iter().collect()));
}

#[test]
fn merged_printing_takes_what_it_lacks() {
    let mut a = il("a", "R", &[1]);
    a.img_path.japanese = Some("proxies/a.webp".to_string());
    a.img_path.english = Some("en/a.webp".to_string());
    a.ogbajoj_sheet_cells = Some(vec![(1, SheetCell::from_string("A1".to_string()))]);
    let mut b = il("a", "R", &[2]);
    b.manage_id.english = Some([7u32].into_iter().collect());
    b.img_path.japanese = Some("jp/a.webp".to_string());
    b.img_last_modified.japanese = Some("date".to_string());
    b.img_path.english = Some("en/b.webp".to_string());
    b.img_hash = "h".to_string();
    b.illustrator = Some("someone".to_string());
    b.tcgplayer_product_id = Some(42);
    b.ogbajoj_sheet_cells = Some(vec![(2, SheetCell::from_string("B2".to_string()))]);
    let m = merge_illustrations(a, b);
    assert_eq!(m.manage_id.japanese, Some([1u32, 2].into_iter().collect()));
    assert_eq!(m.manage_id.english, Some([7u32].into_iter().collect()));
    // a proxy image gives way to an official one; an official one stays
    assert_eq!(m.img_path.japanese.as_deref(), Some("jp/a.webp"));
    assert_eq!(m.img_last_modified.japanese.as_deref(), Some("date"));
    assert_eq!(m.img_path.english.as_deref(), Some("en/a.webp"));
    assert_eq!(m.img_hash, "h");
    assert_eq!(m.illustrator.as_deref(), Some("someone"));
    assert_eq!(m.tcgplayer_product_id, Some(42));
    assert_eq!(m.ogbajoj_sheet_cells.as_ref().map(|c| c.len()), Some(2));
}

#[test]
fn merged_printing_without_cells_has_none() {
    let m = merge_illustrations(il("a", "R", &[]), il("a", "R", &[]));
    assert!(m.ogbajoj_sheet_cells.is_none());
}

#[test]
fn similar_printings_are_merged() {
    // the same rarity; the second and third show the first's image
    let mut ils = vec![il("a", "R", &[1]), il("a", "R", &[]), il("a", "R", &[]), il("a", "SR", &[])];
    let d = vec![
        vec![0, 50, 120, 0],
        vec![50, 0, 10, 0],
        vec![120, 10, 0, 0],
        vec![0, 0, 0, 0],
    ];
    let n = merge_card_illustrations(&mut ils, &d);
    // 1 merges into 0 (50 apart); 0 had no hash and now carries 1's, which
    // is 10 from 2's, so 2 merges too; SR stays apart
    assert_eq!(n, 2);
    assert_eq!(ils.len(), 2);
    assert_eq!(ils[0].rarity, "R");
    assert_eq!(ils[1].rarity, "SR");
}

#[test]
fn released_printings_merge_only_when_identical() {
    let mut ils = vec![il("a", "R", &[1]), il("a", "R", &[2])];
    let d = vec![vec![0, 5], vec![5, 0]];
    assert_eq!(merge_card_illustrations(&mut ils, &d), 0);
    assert_eq!(ils.len(), 2);
    let d = vec![vec![0, 0], vec![0, 0]];
    assert_eq!(merge_card_illustrations(&mut ils, &d), 1);
    assert_eq!(ils[0].manage_id.japanese, Some([1u32, 2].into_iter().collect()));
}

#[test]
fn printings_ordered_before_merging() {
    // ordered: C, then R with id 2, then R with id 5; the table is read by
    // the positions before ordering, where the two R printings are 0 and 2
    let ils0 = vec![il("a", "R", &[5]), il("a", "C", &[]), il("a", "R", &[2])];
    let mut ils = ils0.clone();
    let d = vec![vec![0, 9, 0], vec![9, 0, 9], vec![0, 9, 0]];
    assert_eq!(merge_card_illustrations(&mut ils, &d), 1);
    assert_eq!(ils.len(), 2);
    assert_eq!(ils[0].rarity, "C");
    assert_eq!(ils[1].manage_id.japanese, Some([2u32, 5].into_iter().collect()));
    // the same printings, with the two R printings apart
    let mut ils = ils0.clone();
    let d = vec![vec![0, 0, 4], vec![0, 0, 0], vec![4, 0, 0]];
    assert_eq!(merge_card_illustrations(&mut ils, &d), 0);
    let keys: Vec<(String, Option<u32>)> = ils
        .iter()
        .map(|i| (i.rarity.clone(), i.manage_id.japanese.as_ref().and_then(|s| s.first().copied())))
        .collect();
    assert_eq!(
        keys,
        vec![("C".to_string(), None), ("R".to_string(), Some(2)), ("R".to_string(), Some(5))]
    );
}

#[test]
fn merging_over_the_database() {
    let mut card = Card::default();
    card.card_number = "a".to_string();
    card.illustrations = vec![il("a", "R", &[3]), il("a", "C", &[])];
    let mut db = vec![card];
    let counts = merge_similar_cards(&mut db, &vec![vec![vec![0, 0], vec![0, 0]]]);
    // different rarities never merge, and the printings come out ordered
    assert_eq!(counts, vec![0]);
    assert_eq!(db[0].illustrations[0].rarity, "C");
    assert_eq!(db[0].illustrations[1].rarity, "R");
}

#[test]
fn garbage_collection_drops_unknown_printings_and_empty_cards() {
    let mut kept = Card::default();
    kept.card_number = "a".to_string();
    let mut cells = il("a", "R", &[]);
    cells.ogbajoj_sheet_cells = Some(vec![]);
    kept.illustrations = vec![il("a", "R", &[1]), il("a", "R", &[]), cells];
    let mut gone = Card::default();
    gone.card_number = "b".to_string();
    gone.illustrations = vec![il("b", "R", &[])];
    let mut db = vec![kept, gone];
    collect_unreferenced(&mut db);
    assert_eq!(db.len(), 1);
    assert_eq!(db[0].illustrations.len(), 2);
}

#[test]
fn image_paths_in_use() {
    let mut card = Card::default();
    let mut a = il("a", "R", &[]);
    a.img_path.japanese = Some("x.webp".to_string());
    a.img_path.english = Some("y.webp".to_string());
    let mut b = il("a", "R", &[]);
    b.img_path.japanese = Some("z.webp".to_string());
    card.illustrations = vec![a, b];
    let db = vec![card];
    assert_eq!(referenced_image_paths(&db, Language::Japanese), vec!["x.webp".to_string(), "z.webp".to_string()]);
    assert_eq!(referenced_image_paths(&db, Language::English), vec!["y.webp".to_string()]);
}

#[test]
fn tags_named_differently() {
    let mut a = Card::default();
    a.tags = vec![Localized::both("#JP".to_string(), "#One".to_string()), Localized::jp("#Solo".to_string())];
    let mut b = Card::default();
    b.tags = vec![
        Localized::both("#JP".to_string(), "#Two".to_string()),
        Localized::both("#JP".to_string(), "#One".to_string()),
        Localized::both("#Same".to_string(), "#S".to_string()),
    ];
    let r = check_tags_consistency(&vec![a, b]);
    assert_eq!(r.len(), 1);
    assert_eq!(r[0].0.iter().collect::<String>(), "#JP");
    let names: Vec<String> = r[0].1.iter().map(|n| n.iter().collect()).collect();
    assert_eq!(names, vec!["#One".to_string(), "#Two".to_string()]);
}
