use hocg_fan_sim_assets::img_hash::{
    can_merge, component_deltas, component_value, format_components, parse_components, parse_cym, ComponentDelta,
    HashComponent,
};
use hocg_fan_sim_assets::model::CardIllustration;

#[test]
fn component_keys() {
    assert_eq!(HashComponent::FullImageHash.format_key(), "H32");
    assert_eq!(HashComponent::FullImageCym.format_key(), "CYM");
    assert_eq!(HashComponent::ArtBoxCym.format_key(), "A_CYM");
    assert_eq!(HashComponent::EmblemCym.format_key(), "E_CYM");
    assert_eq!(HashComponent::AltOshiLifeCym.format_key(), "L_CYM");
}

#[test]
fn component_lists() {
    assert_eq!(
        HashComponent::component_list("hSD01-001"),
        vec![HashComponent::FullImageHash, HashComponent::FullImageCym]
    );
    assert_eq!(
        HashComponent::component_list("hBP01-007"),
        vec![
            HashComponent::FullImageHash,
            HashComponent::FullImageCym,
            HashComponent::EmblemCym,
            HashComponent::AltOshiLifeCym
        ]
    );
    assert_eq!(
        HashComponent::component_list("hBP01-104"),
        vec![HashComponent::FullImageHash, HashComponent::FullImageCym, HashComponent::ArtBoxCym]
    );
    assert_eq!(HashComponent::full_component_list().len(), 5);
}

#[test]
fn components_written_read_back() {
    let entries = vec![
        ("H32".to_string(), "AAAA".to_string()),
        ("CYM".to_string(), "0C0F1C".to_string()),
    ];
    let text = format_components("v2", &entries);
    assert_eq!(text, "v2|H32=AAAA|CYM=0C0F1C");
    let back = parse_components(&text).unwrap();
    assert_eq!(
        back,
        vec![
            ("version".to_string(), "v2".to_string()),
            ("H32".to_string(), "AAAA".to_string()),
            ("CYM".to_string(), "0C0F1C".to_string()),
        ]
    );
}

#[test]
fn components_need_an_equals_sign() {
    assert_eq!(parse_components("v2|H32"), None);
    assert_eq!(parse_components("v2|"), None);
    assert_eq!(parse_components("v2"), Some(vec![("version".to_string(), "v2".to_string())]));
}

#[test]
fn later_component_overrides() {
    let es = parse_components("v2|CYM=000000|CYM=FFFFFF").unwrap();
    assert_eq!(component_value(&es, "CYM"), Some("FFFFFF".to_string()));
    assert_eq!(component_value(&es, "H32"), None);
}

#[test]
fn colors_read_as_hex() {
    assert_eq!(parse_cym(&"0C0F1C".to_string()), Some((12, 15, 28)));
    assert_eq!(parse_cym(&"ff00Aa".to_string()), Some((255, 0, 170)));
    // a leading plus is read as by `u8::from_str_radix`
    assert_eq!(parse_cym(&"+F0000".to_string()), Some((15, 0, 0)));
    assert_eq!(parse_cym(&"0C0F1".to_string()), None);
    assert_eq!(parse_cym(&"0G0F1C".to_string()), None);
}

#[test]
fn hashes_compare_component_by_component() {
    let a = "v2|H32=AAAA|CYM=101010";
    let b = "v2|H32=////|CYM=0A1020|A_CYM=000000";
    let d = component_deltas(a, b).unwrap();
    assert_eq!(
        d,
        vec![
            ComponentDelta::HashBits { component: HashComponent::FullImageHash, bits: 24 },
            ComponentDelta::Color { component: HashComponent::FullImageCym, dc: 6, dy: 0, dm: -16 },
        ]
    );
    let same = component_deltas(a, a).unwrap();
    assert_eq!(
        same,
        vec![
            ComponentDelta::HashBits { component: HashComponent::FullImageHash, bits: 0 },
            ComponentDelta::Color { component: HashComponent::FullImageCym, dc: 0, dy: 0, dm: 0 },
        ]
    );
}

#[test]
fn hashes_of_other_versions_do_not_compare() {
    assert_eq!(component_deltas("v2|CYM=000000", "v3|CYM=000000"), None);
    assert_eq!(component_deltas("v2|CYM", "v2|CYM=000000"), None);
    assert_eq!(component_deltas("", "v2|CYM=000000"), None);
}

#[test]
fn merging_needs_close_images() {
    let mut a = CardIllustration::default();
    let mut b = CardIllustration::default();
    assert!(can_merge(&a, &b, false, 100));
    assert!(!can_merge(&a, &b, false, 101));
    assert!(can_merge(&a, &b, true, 138));
    assert!(!can_merge(&a, &b, true, 139));
    a.manage_id.english = Some([1u32].into_iter().collect());
    b.manage_id.english = Some([2u32].into_iter().collect());
    // printings both known to Deck Log must show the very same image
    assert!(!can_merge(&a, &b, true, 1));
    assert!(can_merge(&a, &b, true, 0));
}
