//! The user's settings.
use akagi_native::config::bot::{
    BotConfig, BotFile, NativeApiConfig, DEFAULT_API_BASE_URL, NATIVE_3P, NATIVE_4P,
};
use akagi_native::config::general::GeneralConfig;

fn configured() -> NativeApiConfig {
    NativeApiConfig {
        enabled: true,
        base_url: "https://host".to_string(),
        key: "K".to_string(),
        model_4p: "four".to_string(),
        model_3p: "three".to_string(),
    }
}

#[test]
fn the_api_is_off_by_default() {
    let c = NativeApiConfig::default();
    assert!(!c.enabled);
    assert_eq!(c.base_url, "https://mjapi.shinkuan.me");
    assert_eq!(c.base_url, DEFAULT_API_BASE_URL);
    assert_eq!(c.key, "");
    assert_eq!(c.model_4p, "");
    assert_eq!(c.model_3p, "");
    assert!(!c.is_active());
}

#[test]
fn the_api_is_active_once_fully_configured() {
    assert!(configured().is_active());
    let mut c = configured();
    c.enabled = false;
    assert!(!c.is_active());
    let mut c = configured();
    c.key = " \t".to_string();
    assert!(!c.is_active());
    let mut c = configured();
    c.base_url = "\u{a0}".to_string();
    assert!(!c.is_active());
    let mut c = configured();
    c.key = " k ".to_string();
    assert!(c.is_active());
}

#[test]
fn models_and_bots_go_by_player_count() {
    let c = configured();
    assert_eq!(c.model_for(3), "three");
    assert_eq!(c.model_for(4), "four");
    assert_eq!(c.model_for(0), "four");
    let b = BotConfig::default();
    assert_eq!(b.active_for(3), NATIVE_3P);
    assert_eq!(b.active_for(4), NATIVE_4P);
    assert_eq!(b.active_for(2), NATIVE_4P);
}

#[test]
fn the_built_in_bots_are_the_default() {
    let b = BotConfig::default();
    assert!(b.enabled);
    assert_eq!(b.active_4p, NATIVE_4P);
    assert_eq!(b.active_3p, NATIVE_3P);
    assert_eq!(b.active, "");
    assert!(b.auto_sync);
    assert_eq!(b.dir, "mjai_bot");
    assert_eq!(b.api, NativeApiConfig::default());
    assert!(!GeneralConfig::default().first_run_completed);
}

#[test]
fn a_legacy_bot_is_taken_over_once() {
    let mut b = BotConfig::default();
    b.active_4p = String::new();
    b.active = "mortal".to_string();
    b.migrate_legacy_active();
    assert_eq!(b.active_4p, "mortal");
    assert_eq!(b.active, "");
    b.migrate_legacy_active();
    assert_eq!(b.active_4p, "mortal");
    assert_eq!(b.active_3p, NATIVE_3P);
}

#[test]
fn a_chosen_bot_is_not_replaced() {
    let mut b = BotConfig::default();
    b.active_4p = "mine".to_string();
    b.active = "mortal".to_string();
    b.migrate_legacy_active();
    assert_eq!(b.active_4p, "mine");
    assert_eq!(b.active, "");
    let mut none = BotConfig::default();
    none.active_4p = String::new();
    none.migrate_legacy_active();
    assert_eq!(none.active_4p, "");
}

fn empty_file() -> BotFile {
    BotFile {
        enabled: None,
        active_4p: None,
        active_3p: None,
        active: None,
        auto_sync: None,
        dir: None,
        api: None,
    }
}

#[test]
fn an_empty_file_says_the_defaults() {
    let c = BotConfig::from_file(empty_file());
    let d = BotConfig::default();
    assert_eq!(format!("{c:?}"), format!("{d:?}"));
}

#[test]
fn a_file_with_only_the_legacy_bot_keeps_it() {
    let mut f = empty_file();
    f.active = Some("mortal".to_string());
    let c = BotConfig::from_file(f);
    assert_eq!(c.active_4p, "mortal");
    assert_eq!(c.active_3p, NATIVE_3P);
    assert_eq!(c.active, "");
}

#[test]
fn a_file_says_what_it_says() {
    let c = BotConfig::from_file(BotFile {
        enabled: Some(false),
        active_4p: Some("four".to_string()),
        active_3p: Some(String::new()),
        active: Some("mortal".to_string()),
        auto_sync: Some(false),
        dir: Some("bots".to_string()),
        api: Some(configured()),
    });
    assert!(!c.enabled);
    assert_eq!(c.active_4p, "four");
    assert_eq!(c.active_3p, "");
    assert_eq!(c.active, "");
    assert!(!c.auto_sync);
    assert_eq!(c.dir, "bots");
    assert_eq!(c.api, configured());
    let mut f = empty_file();
    f.active_4p = Some(String::new());
    assert_eq!(BotConfig::from_file(f).active_4p, "");
}

#[test]
fn an_existing_file_from_before_the_wizard_counts_as_set_up() {
    assert!(GeneralConfig::from_file(None).first_run_completed);
    assert!(GeneralConfig::from_file(Some(true)).first_run_completed);
    assert!(!GeneralConfig::from_file(Some(false)).first_run_completed);
}
