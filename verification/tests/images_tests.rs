use std::collections::BTreeSet;

use hocg_fan_sim_assets::images::{
    clear_proxy_paths, collect_proxy_files, count_downloadable, download_decision, illustration_locations,
    distances_needed, match_proxies, match_proxy_group, proxy_entry, official_image_url_of, proxy_image_path_of, record_download, sort_by_rank, DownloadDecision,
    ProxyEntry, ProxyFile,
};
use hocg_fan_sim_assets::model::{Card, CardIllustration, Language};
use hocg_fan_sim_assets::utils::{clean_text, sanitize_filename, TrimOnce};

fn released_il(number: &str, rarity: &str, jp_path: &str, id: u32) -> CardIllustration {
    let mut il = CardIllustration::default();
    il.card_number = number.to_string();
    il.rarity = rarity.to_string();
    il.img_path.japanese = Some(jp_path.to_string());
    il.manage_id.japanese = Some([id].into_iter().collect::<BTreeSet<u32>>());
    il
}

#[test]
fn file_names_and_text() {
    assert_eq!(sanitize_filename("a/b:c*d?.webp"), "a_b_c_d_.webp");
    assert_eq!(sanitize_filename("plain.webp"), "plain.webp");
    assert_eq!(clean_text("  some text \n"), "some text");
    assert_eq!("--x--".trim_start_once("-"), "-x--");
    assert_eq!("--x--".trim_end_once("-"), "--x-");
    assert_eq!("x".trim_end_once("-"), "x");
}

#[test]
fn official_image_addresses() {
    let il = released_il("hSD01-001", "OSR", "hSD01/hSD01-001_OSR.webp", 1);
    assert_eq!(
        official_image_url_of(&il, Language::Japanese).as_deref(),
        Some("https://hololive-official-cardgame.com/wp-content/images/cardlist/hSD01/hSD01-001_OSR.png")
    );
    assert_eq!(official_image_url_of(&il, Language::English), None);
    assert_eq!(proxy_image_path_of(&il), "proxies/hSD01/hSD01-001_OSR.webp");
}

#[test]
fn download_decisions() {
    let mut il = released_il("hSD01-001", "OSR", "hSD01/hSD01-001_OSR.webp", 1);
    assert!(matches!(download_decision(&il, Language::English, None, false), DownloadDecision::Unreleased));
    il.img_last_modified.japanese = Some("Wed, 21 Oct 2015 07:28:00 GMT".to_string());
    let site = Some("Wed, 21 Oct 2015 07:28:00 GMT".to_string());
    assert!(matches!(download_decision(&il, Language::Japanese, site.clone(), false), DownloadDecision::UpToDate));
    match download_decision(&il, Language::Japanese, site, true) {
        DownloadDecision::Download { url, referrer, last_modified } => {
            assert!(url.ends_with("hSD01-001_OSR.png"));
            assert_eq!(referrer, "https://hololive-official-cardgame.com/");
            assert_eq!(last_modified.as_deref(), Some("Wed, 21 Oct 2015 07:28:00 GMT"));
        },
        other => panic!("unexpected {other:?}"),
    }
    // an unreadable date never counts as up to date
    let odd = Some("yesterday".to_string());
    assert!(matches!(download_decision(&il, Language::Japanese, odd, false), DownloadDecision::Download { .. }));
    il.img_path.japanese = None;
    assert!(matches!(download_decision(&il, Language::Japanese, None, false), DownloadDecision::NoPath));
    record_download(&mut il, Language::Japanese, Some("d".to_string()), "h".to_string());
    assert_eq!(il.img_last_modified.japanese.as_deref(), Some("d"));
    assert_eq!(il.img_hash, "h");
}

#[test]
fn downloadable_printings_counted() {
    let mut card = Card::default();
    card.card_number = "hSD01-001".to_string();
    card.illustrations = vec![released_il("hSD01-001", "OSR", "a.webp", 1), CardIllustration::default()];
    let db = vec![card];
    let filtered = vec![
        ("hSD01-001".to_string(), 0),
        ("hSD01-001".to_string(), 1),
        ("hSD01-001".to_string(), 7),
        ("nope".to_string(), 0),
    ];
    assert_eq!(count_downloadable(&db, &filtered, Language::Japanese), 1);
    assert_eq!(count_downloadable(&db, &filtered, Language::English), 0);
}

#[test]
fn stable_sort_by_rank() {
    let v = vec![(1, 5u64), (2, 3), (3, 5), (4, 1)];
    assert_eq!(sort_by_rank(&v), vec![(4, 1), (2, 3), (1, 5), (3, 5)]);
}

fn entry(components: &[&str], stem: &str, ext: &str) -> ProxyEntry {
    ProxyEntry {
        path: components.join("/"),
        components: components.iter().map(|c| c.to_string()).collect(),
        is_file: true,
        extension: Some(ext.to_string()),
        stem: Some(stem.to_string()),
    }
}

#[test]
fn proxy_files_grouped_by_card() {
    let entries = vec![
        entry(&["p", "hSD01-001_OSR.png"], "hSD01-001_OSR", "png"),
        entry(&["p", "blank", "hSD01-002_C.png"], "hSD01-002_C", "png"),
        entry(&["p", "hSD01-001_SEC_2.png"], "hSD01-001_SEC_2", "png"),
        entry(&["p", "notes.txt"], "notes", "txt"),
        entry(&["p", "x", "hSD01-001_OSR.png"], "hSD01-001_OSR", "png"),
    ];
    let groups = collect_proxy_files(&entries);
    assert_eq!(groups.len(), 1);
    assert_eq!(groups[0].0, "hSD01-001");
    let files: Vec<(String, String)> = groups[0].1.iter().map(|f| (f.stem.clone(), f.rarity.clone())).collect();
    assert_eq!(
        files,
        vec![
            ("hSD01-001_OSR".to_string(), "OSR".to_string()),
            ("hSD01-001_SEC_2".to_string(), "SEC".to_string()),
        ]
    );
}

#[test]
fn proxies_matched_to_printings() {
    let mut card = Card::default();
    card.card_number = "hSD01-001".to_string();
    card.illustrations = vec![
        released_il("hSD01-001", "OSR", "hSD01/hSD01-001_OSR.webp", 10),
        released_il("hSD01-001", "SEC", "hSD01/hSD01-001_SEC.webp", 20),
    ];
    let mut db = vec![card];
    let locs = illustration_locations(&db, &"hSD01-001".to_string());
    assert_eq!(locs, vec![(0, 0), (0, 1)]);
    let proxies = vec![
        ProxyFile { stem: "a".to_string(), rarity: "SEC".to_string(), path: "p/a.png".to_string() },
        ProxyFile { stem: "b".to_string(), rarity: "OSR".to_string(), path: "p/b.png".to_string() },
    ];
    // each proxy is close to the printing of its rarity
    let dists = vec![vec![40, 2], vec![1, 40]];
    let out = match_proxies(&mut db, &locs, &proxies, &dists);
    assert_eq!(out.matched, 2);
    assert!(!out.skipped);
    assert!(out.remaining.is_empty());
    assert_eq!(db[0].illustrations[0].img_path.english.as_deref(), Some("proxies/hSD01/hSD01-001_OSR.webp"));
    assert_eq!(db[0].illustrations[1].img_path.english.as_deref(), Some("proxies/hSD01/hSD01-001_SEC.webp"));
    let mut assigned = out.assigned.clone();
    assigned.sort();
    assert_eq!(
        assigned,
        vec![(0, 0, "p/b.png".to_string()), (0, 1, "p/a.png".to_string())]
    );
    clear_proxy_paths(&mut db);
    assert!(db[0].illustrations[0].img_path.english.is_none());
}

#[test]
fn proxy_group_matched_to_its_own_number() {
    let mut a = Card::default();
    a.card_number = "hSD01-001".to_string();
    a.illustrations = vec![released_il("hSD01-001", "OSR", "hSD01/hSD01-001_OSR.webp", 10)];
    let mut b = Card::default();
    b.card_number = "hSD01-002".to_string();
    b.illustrations = vec![released_il("hSD01-002", "C", "hSD01/hSD01-002_C.webp", 11)];
    let mut db = vec![a, b];
    let proxies = vec![ProxyFile { stem: "hSD01-002_C".to_string(), rarity: "C".to_string(), path: "p/c.png".to_string() }];
    // one proxy and one printing of that number go together, whatever the distance
    let out = match_proxy_group(&mut db, &"hSD01-002".to_string(), &proxies, &vec![]);
    assert_eq!(out.matched, 1);
    assert_eq!(out.assigned, vec![(1, 0, "p/c.png".to_string())]);
    assert!(db[0].illustrations[0].img_path.english.is_none());
    assert_eq!(db[1].illustrations[0].img_path.english.as_deref(), Some("proxies/hSD01/hSD01-002_C.webp"));
    // a number with no printing takes nothing
    let out = match_proxy_group(&mut db, &"hSD09-001".to_string(), &proxies, &vec![]);
    assert_eq!(out.matched, 0);
    assert_eq!(out.remaining.len(), 1);
    assert!(!out.skipped);
}

#[test]
fn proxy_entry_names_read() {
    let e = proxy_entry("proxies/hSD01/hSD01-001_OSR.png".to_string(), vec!["hSD01-001_OSR.png".to_string()], true);
    assert_eq!(e.stem.as_deref(), Some("hSD01-001_OSR"));
    assert_eq!(e.extension.as_deref(), Some("png"));
    assert!(e.is_file);
    let e = proxy_entry("proxies/readme".to_string(), vec![], false);
    assert_eq!(e.stem.as_deref(), Some("readme"));
    assert_eq!(e.extension, None);
    let groups = collect_proxy_files(&vec![proxy_entry(
        "p/hSD01-001_OSR_2.png".to_string(),
        vec!["hSD01-001_OSR_2.png".to_string(), "p".to_string()],
        true,
    )]);
    assert_eq!(groups.len(), 1);
    assert_eq!(groups[0].0, "hSD01-001");
    assert_eq!(groups[0].1[0].rarity, "OSR");
}

#[test]
fn distances_only_for_a_choice() {
    assert!(!distances_needed(0, 3));
    assert!(!distances_needed(2, 0));
    assert!(!distances_needed(1, 1));
    assert!(distances_needed(1, 2));
    assert!(distances_needed(2, 1));
}
