use hocg_fan_sim_assets::cli::{should_retry, should_retry_transient_status, Language, PriceCheckMode, RequestMethod};
use hocg_fan_sim_assets::model;

#[test]
fn transient_statuses() {
    assert!(should_retry_transient_status(408));
    assert!(should_retry_transient_status(429));
    assert!(should_retry_transient_status(500));
    assert!(should_retry_transient_status(503));
    assert!(should_retry_transient_status(599));
    assert!(!should_retry_transient_status(404));
    assert!(!should_retry_transient_status(200));
    assert!(!should_retry_transient_status(600));
}

#[test]
fn retry_by_method() {
    assert!(should_retry(RequestMethod::Get, Some(503), false, false));
    assert!(should_retry(RequestMethod::Head, None, true, false));
    assert!(!should_retry(RequestMethod::Get, None, false, false));
    assert!(!should_retry(RequestMethod::Get, Some(404), false, true));
    assert!(!should_retry(RequestMethod::Post, Some(503), false, false));
    assert!(should_retry(RequestMethod::Post, Some(503), false, true));
    assert!(should_retry(RequestMethod::Post, None, true, true));
    assert!(!should_retry(RequestMethod::Other, Some(503), true, true));
}

#[test]
fn language_options() {
    assert_eq!(Language::Japanese.into_model(), model::Language::Japanese);
    assert_eq!(Language::English.into_model(), model::Language::English);
    assert!(Language::All.selects(model::Language::English));
    assert!(Language::Japanese.selects(model::Language::Japanese));
    assert!(!Language::Japanese.selects(model::Language::English));
    assert_ne!(PriceCheckMode::Quick, PriceCheckMode::Images);
}
