use hocg_fan_sim_assets::images::ProxyEntry;
use hocg_fan_sim_assets::legacy::{
    entries_readable, entry_download, entry_image_url_of, entry_is_readable, entry_proxy_of, find_entry_index, proxy_stem_paths, record_entry_last_modified,
    record_entry_proxy, retrieve_card_info, yuyutei, CardEntry, EntryDownload, StringOrNumber,
};

fn entry(id: &str, number: &str, rare: &str, img: &str, max: StringOrNumber) -> CardEntry {
    CardEntry {
        manage_id: id.to_string(),
        card_number: number.to_string(),
        rare: rare.to_string(),
        img: img.to_string(),
        max,
        deck_type: String::new(),
        img_last_modified: None,
        img_proxy_en: None,
        yuyutei_sell_url: None,
    }
}

#[test]
fn legacy_entries_by_id() {
    let mut db: Vec<(u32, CardEntry)> = Vec::new();
    let page = vec![
        entry("20", "hSD01-002", "C", "hSD01/hSD01-002_C.png", StringOrNumber::Text("4".to_string())),
        entry("3", "hSD01-001", "OSR", "hSD01/hSD01-001_OSR.png", StringOrNumber::Number(1)),
    ];
    let keys = retrieve_card_info(&mut db, page, &"N".to_string(), false);
    assert_eq!(keys, vec![20, 3]);
    assert_eq!(db.iter().map(|e| e.0).collect::<Vec<_>>(), vec![3, 20]);
    assert_eq!(db[1].1.img, "hSD01/hSD01-002_C.webp");
    assert_eq!(db[1].1.deck_type, "N");
    assert!(matches!(db[1].1.max, StringOrNumber::Number(4)));
    // a listed printing already known keeps what was learned of it
    db[0].1.yuyutei_sell_url = Some("u".to_string());
    let page = vec![entry("3", "hSD01-001", "SEC", "x.png", StringOrNumber::Number(1))];
    retrieve_card_info(&mut db, page, &"OSHI".to_string(), true);
    assert_eq!(db.len(), 2);
    assert_eq!(db[0].1.rare, "SEC");
    assert_eq!(db[0].1.img, "x.png");
    assert_eq!(db[0].1.yuyutei_sell_url.as_deref(), Some("u"));
    assert_eq!(find_entry_index(&db, 20), Some(1));
    assert_eq!(find_entry_index(&db, 4), None);
}

#[test]
fn legacy_image_download() {
    let mut e = entry("1", "hSD01-001", "OSR", "hSD01/hSD01-001_OSR.webp", StringOrNumber::Number(1));
    assert_eq!(
        entry_image_url_of(&e),
        "https://hololive-official-cardgame.com/wp-content/images/cardlist/hSD01/hSD01-001_OSR.png"
    );
    e.img_last_modified = Some("Wed, 21 Oct 2015 07:28:00 GMT".to_string());
    let d = entry_download(&e, Some("Wed, 21 Oct 2015 07:28:00 GMT".to_string()), false, false);
    assert!(matches!(d, EntryDownload::UpToDate));
    let d = entry_download(&e, Some("Thu, 22 Oct 2015 07:28:00 GMT".to_string()), false, false);
    match d {
        EntryDownload::Download { file, last_modified, .. } => {
            assert_eq!(file, "hSD01/hSD01-001_OSR.webp");
            assert_eq!(last_modified.as_deref(), Some("Thu, 22 Oct 2015 07:28:00 GMT"));
        },
        _ => panic!("expected a download"),
    }
    let d = entry_download(&e, None, true, true);
    match d {
        EntryDownload::Download { last_modified, .. } => {
            assert_eq!(last_modified.as_deref(), Some("Wed, 21 Oct 2015 07:28:00 GMT"));
        },
        _ => panic!("expected a download"),
    }
    let mut db = vec![(1u32, e)];
    record_entry_last_modified(&mut db, 0, None);
    assert!(db[0].1.img_last_modified.is_none());
}

fn file(path: &str, components: &[&str], stem: &str) -> ProxyEntry {
    ProxyEntry {
        path: path.to_string(),
        components: components.iter().map(|c| c.to_string()).collect(),
        is_file: true,
        extension: Some("png".to_string()),
        stem: Some(stem.to_string()),
    }
}

#[test]
fn legacy_proxy_images() {
    let entries = vec![
        file("p/Blanks/hSD01-001_OSR.png", &["p", "Blanks", "hSD01-001_OSR.png"], "hSD01-001_OSR"),
        file("p/a/hSD01-001_OSR.png", &["p", "a", "hSD01-001_OSR.png"], "hSD01-001_OSR"),
        file("p/b/hSD01-001_OSR.png", &["p", "b", "hSD01-001_OSR.png"], "hSD01-001_OSR"),
    ];
    let stems = proxy_stem_paths(&entries);
    assert_eq!(stems, vec![("hSD01-001_OSR".to_string(), "p/a/hSD01-001_OSR.png".to_string())]);
    let e = entry("1", "hSD01-001", "OSR", "hSD01/hSD01-001_OSR.png", StringOrNumber::Number(1));
    assert_eq!(
        entry_proxy_of(&stems, &e),
        Some(("p/a/hSD01-001_OSR.png".to_string(), "hSD01/hSD01-001_OSR.webp".to_string()))
    );
    let other = entry("2", "hSD01-002", "C", "hSD01/hSD01-002_C.png", StringOrNumber::Number(4));
    assert_eq!(entry_proxy_of(&stems, &other), None);
    let mut db = vec![(1u32, e)];
    record_entry_proxy(&mut db, 0, Some("hSD01/hSD01-001_OSR.webp".to_string()));
    assert_eq!(db[0].1.img_proxy_en.as_deref(), Some("hSD01/hSD01-001_OSR.webp"));
}

#[test]
fn legacy_shop_pages() {
    let mut db = vec![
        (1u32, entry("1", "hSD01-001", "OSR", "a.webp", StringOrNumber::Number(1))),
        (2u32, entry("2", "hSD01-002", "C", "b.webp", StringOrNumber::Number(4))),
        (3u32, entry("3", "hSD01-002", "C", "c.webp", StringOrNumber::Number(4))),
        (4u32, entry("4", "hSD01-002", "C", "b.webp", StringOrNumber::Number(4))),
    ];
    db[0].1.yuyutei_sell_url = Some("/p/1".to_string());
    let rows = vec![
        ("/p/1".to_string(), "hSD01-001".to_string(), "OSR".to_string()),
        ("/p/2".to_string(), "hSD01-002".to_string(), "C".to_string()),
        ("/p/3".to_string(), "hSD01-002".to_string(), "C".to_string()),
        ("/p/2".to_string(), "hSD01-009".to_string(), "R".to_string()),
        ("/p/9".to_string(), "hSD01-009".to_string(), "R".to_string()),
    ];
    let r = yuyutei(&mut db, &rows);
    assert_eq!(r.skipped, 1);
    assert_eq!(r.updated, 2);
    assert_eq!(db[1].1.yuyutei_sell_url.as_deref(), Some("/p/2"));
    assert_eq!(db[2].1.yuyutei_sell_url.as_deref(), Some("/p/3"));
    // the same image takes the same page
    assert_eq!(db[3].1.yuyutei_sell_url.as_deref(), Some("/p/2"));
    assert_eq!(r.missing.len(), 1);
    assert_eq!(r.missing[0], ("hSD01-009".to_string(), "R".to_string(), vec!["/p/9".to_string()]));
}

#[test]
fn entries_read_as_numbers() {
    let good = entry("12", "hSD01-001", "OSR", "a.png", StringOrNumber::Text("4".to_string()));
    let number = entry("13", "hSD01-002", "C", "b.png", StringOrNumber::Number(50));
    assert!(entry_is_readable(&good));
    assert!(entries_readable(&vec![good.clone(), number.clone()]));
    let bad_id = entry("x", "hSD01-003", "C", "c.png", StringOrNumber::Number(1));
    let bad_max = entry("14", "hSD01-004", "C", "d.png", StringOrNumber::Text("many".to_string()));
    assert!(!entry_is_readable(&bad_id));
    assert!(!entry_is_readable(&bad_max));
    assert!(!entries_readable(&vec![good, bad_max]));
}
