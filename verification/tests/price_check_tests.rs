use hocg_fan_sim_assets::model::{Card, CardIllustration};
use hocg_fan_sim_assets::price_check::{
    clear_yuyutei_urls, collect_yuyutei_urls, group_yuyutei_urls, rarity_groups, yuyutei_images_step, yuyutei_quick,
    YuyuteiRow,
};

fn row(number: &str, name: &str, rarity: &str, url: Option<&str>, img: Option<&str>) -> YuyuteiRow {
    YuyuteiRow {
        number: number.to_string(),
        name: name.to_string(),
        rarity: rarity.to_string(),
        url: url.map(|s| s.to_string()),
        img_src: img.map(|s| s.to_string()),
    }
}

fn il(number: &str, rarity: &str, img: &str) -> CardIllustration {
    let mut i = CardIllustration::default();
    i.card_number = number.to_string();
    i.rarity = rarity.to_string();
    i.img_path.japanese = Some(img.to_string());
    i
}

#[test]
fn shop_pages_collected_in_order() {
    let rows = vec![
        row("hSD01-002", "A", "C", Some("/p/2"), Some("i2")),
        row("hSD01-002", "A エラッタ前", "C", Some("/p/old"), Some("i0")),
        row("hSD01-003", "B", "C", Some("/p/3"), None),
        row("hSD01-009", "Z", "R", Some("/p/2"), Some("i9")),
        row("hSD01-002", "A", "C", Some("/p/4"), Some("i4")),
    ];
    let m = collect_yuyutei_urls(&rows);
    let keys: Vec<&String> = m.keys().collect();
    assert_eq!(keys, vec!["/p/2", "/p/4"]);
    assert_eq!(m.get("/p/2").unwrap().0, "hSD01-002");
    let groups = group_yuyutei_urls(m);
    assert_eq!(groups.len(), 1);
    assert_eq!(groups[0].0, ("hSD01-002".to_string(), "C".to_string()));
    assert_eq!(groups[0].1.len(), 2);
}

#[test]
fn shop_pages_assigned_quickly() {
    let mut card = Card::default();
    card.card_number = "hSD01-002".to_string();
    let mut known = il("hSD01-002", "C", "a.webp");
    known.yuyutei_sell_url = Some("/p/1".to_string());
    card.illustrations = vec![known, il("hSD01-002", "C", "b.webp"), il("hSD01-002", "C", "a.webp")];
    let mut db = vec![card];
    let rows = vec![
        row("hSD01-002", "A", "C", Some("/p/1"), Some("i1")),
        row("hSD01-002", "A", "C", Some("/p/2"), Some("i2")),
        row("hSD01-002", "A", "SR", Some("/p/3"), Some("i3")),
    ];
    let r = yuyutei_quick(&mut db, collect_yuyutei_urls(&rows));
    assert_eq!(r.skipped, 1);
    assert_eq!(r.updated, 1);
    assert_eq!(db[0].illustrations[1].yuyutei_sell_url.as_deref(), Some("/p/2"));
    // the same image takes the known page
    assert_eq!(db[0].illustrations[2].yuyutei_sell_url.as_deref(), Some("/p/1"));
    assert_eq!(r.unmatched.len(), 1);
    assert_eq!(r.unmatched[0].0, ("hSD01-002".to_string(), "SR".to_string()));
    clear_yuyutei_urls(&mut db);
    assert!(db[0].illustrations.iter().all(|i| i.yuyutei_sell_url.is_none()));
}

#[test]
fn printings_grouped_by_rarity() {
    let mut card = Card::default();
    card.illustrations = vec![il("a", "C", "1"), il("a", "R", "2"), il("a", "C", "3")];
    let g = rarity_groups(&card);
    assert_eq!(g, vec![("C".to_string(), vec![0, 2]), ("R".to_string(), vec![1])]);
}

#[test]
fn images_step_uses_the_group_of_number_and_rarity() {
    let mut card = Card::default();
    card.card_number = "hSD01-002".to_string();
    card.illustrations = vec![il("hSD01-002", "C", "1"), il("hSD01-002", "R", "2"), il("hSD01-002", "C", "3")];
    let mut db = vec![card];
    let page = |u: &str| (u.to_string(), format!("{u}.jpg"));
    let mut groups = vec![
        (("hSD01-002".to_string(), "R".to_string()), vec![page("/p/r")]),
        (("hSD01-002".to_string(), "C".to_string()), vec![page("/p/c1"), page("/p/c2")]),
        (("hSD01-003".to_string(), "C".to_string()), vec![page("/p/x")]),
    ];
    // the C printings (0 and 2) against the C pages: c1 is closest to 2, c2 to 0
    let n = yuyutei_images_step(&mut db, &mut groups, 0, 0, &vec![vec![40, 1], vec![2, 30]]);
    assert_eq!(n, 2);
    assert_eq!(db[0].illustrations[2].yuyutei_sell_url.as_deref(), Some("/p/c1"));
    assert_eq!(db[0].illustrations[0].yuyutei_sell_url.as_deref(), Some("/p/c2"));
    assert_eq!(db[0].illustrations[1].yuyutei_sell_url, None);
    assert!(groups[1].1.is_empty());
    assert_eq!(groups[0].1.len(), 1);
    // the R printing takes the one R page
    assert_eq!(yuyutei_images_step(&mut db, &mut groups, 0, 1, &vec![]), 1);
    assert_eq!(db[0].illustrations[1].yuyutei_sell_url.as_deref(), Some("/p/r"));
    assert_eq!(groups[2].1.len(), 1);
    // a rarity with no product group changes nothing
    db[0].illustrations.push(il("hSD01-002", "SR", "4"));
    assert_eq!(yuyutei_images_step(&mut db, &mut groups, 0, 2, &vec![]), 0);
    assert_eq!(db[0].illustrations[3].yuyutei_sell_url, None);
}
