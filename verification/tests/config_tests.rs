use duckdns_updater::config::{default_true, validate_settings, AppConfig};
use duckdns_updater::update::UpdateResult;
use duckdns_updater::paths::{join_path, join_path_with};

fn strings(v: &[&str]) -> Vec<String> {
    v.iter().map(|s| s.to_string()).collect()
}

fn result(ipv4: Option<&str>, ipv6: Option<&str>) -> UpdateResult {
    UpdateResult {
        success: true,
        ipv4: ipv4.map(|s| s.to_string()),
        ipv6: ipv6.map(|s| s.to_string()),
        ip_changed: true,
        _response: "OK".to_string(),
    }
}

#[test]
fn default_settings() {
    let c = AppConfig::default();
    assert_eq!(c.domain, "");
    assert_eq!(c.token, "");
    assert_eq!(c.interval_minutes, 30);
    assert!(c.last_update.is_none() && c.last_ipv4.is_none() && c.last_ipv6.is_none());
    assert!(c.update_enabled);
    assert!(c.domains.is_empty());
    assert!(!c.start_with_windows);
    assert!(!c.start_minimized);
    assert!(c.ipv6_enabled);
    assert!(default_true());
}

#[test]
fn load_without_file_gives_defaults() {
    let c = AppConfig::load_from(None);
    assert_eq!(c.interval_minutes, 30);
    assert!(c.domains.is_empty());
}

#[test]
fn load_migrates_legacy_domain() {
    let mut stored = AppConfig::default();
    stored.domain = "casa, escritorio ,".to_string();
    stored.token = "t".to_string();
    let c = AppConfig::load_from(Some(stored));
    assert_eq!(c.domains, strings(&["casa", "escritorio"]));
    assert_eq!(c.domain, "casa, escritorio ,");
    assert_eq!(c.token, "t");
}

#[test]
fn load_keeps_existing_domain_list() {
    let mut stored = AppConfig::default();
    stored.domain = "old".to_string();
    stored.domains = strings(&["new"]);
    let c = AppConfig::load_from(Some(stored));
    assert_eq!(c.domains, strings(&["new"]));
}

#[test]
fn domains_csv_prefers_list() {
    let mut c = AppConfig::default();
    c.domain = "legacy".to_string();
    assert_eq!(c.domains_csv(), "legacy");
    c.domains = strings(&["a", "b"]);
    assert_eq!(c.domains_csv(), "a,b");
    assert_eq!(c.domains_edit_text(), "a, b");
}

#[test]
fn applying_the_form_keeps_legacy_field_in_step() {
    let mut c = AppConfig::default();
    c.apply_domains_edit(" um, dois ,,");
    assert_eq!(c.domains, strings(&["um", "dois"]));
    assert_eq!(c.domain, "um,dois");
    // An empty list leaves the legacy field as it was.
    c.apply_domains_edit("  ");
    assert!(c.domains.is_empty());
    assert_eq!(c.domain, "um,dois");
}

#[test]
fn recording_an_update_sets_last_addresses() {
    let mut c = AppConfig::default();
    c.record_update(&result(Some("1.2.3.4"), Some("::1")), "2024-01-01 10:00:00".to_string());
    assert_eq!(c.last_update.as_deref(), Some("2024-01-01 10:00:00"));
    assert_eq!(c.last_ipv4.as_deref(), Some("1.2.3.4"));
    assert_eq!(c.last_ipv6.as_deref(), Some("::1"));

    let mut d = AppConfig::default();
    d.ipv6_enabled = false;
    d.last_ipv6 = Some("fe80::1".to_string());
    d.record_update(&result(None, Some("::2")), "t".to_string());
    assert_eq!(d.last_ipv4, None);
    assert_eq!(d.last_ipv6.as_deref(), Some("fe80::1"));
}

#[test]
fn interval_is_at_least_one_minute() {
    let mut c = AppConfig::default();
    assert_eq!(c.interval_secs(), 1800);
    c.interval_minutes = 0;
    assert_eq!(c.interval_secs(), 60);
    c.interval_minutes = u32::MAX;
    assert_eq!(c.interval_secs(), u32::MAX as u64 * 60);
}

#[test]
fn credentials_gate_periodic_updates() {
    let mut c = AppConfig::default();
    assert!(!c.has_credentials());
    c.domains = strings(&["a"]);
    assert!(!c.has_credentials());
    c.token = "tok".to_string();
    assert!(c.has_credentials());
    assert!(c.should_auto_update());
    c.update_enabled = false;
    assert!(!c.should_auto_update());
    // Untrimmed check: a blank token still counts here.
    c.update_enabled = true;
    c.token = " ".to_string();
    assert!(c.should_auto_update());
}

#[test]
fn form_validation_messages() {
    assert!(validate_settings("a", "t", 1).is_empty());
    assert_eq!(
        validate_settings(" , ", "  ", 0),
        strings(&[
            "Domínio não pode estar vazio.",
            "Token não pode estar vazio.",
            "Intervalo deve ser >= 1 minuto.",
        ])
    );
    assert_eq!(validate_settings("x", "", 5), strings(&["Token não pode estar vazio."]));
}

#[test]
fn config_path_is_inside_the_directory() {
    let p = AppConfig::get_config_path("/home/u/.config/duckdns-updater", '/');
    assert_eq!(p, "/home/u/.config/duckdns-updater/duckdns_config.json");
    assert_eq!(AppConfig::get_config_path("C:\\cfg", '\\'), "C:\\cfg\\duckdns_config.json");
    assert_eq!(AppConfig::get_config_path("C:\\cfg\\", '\\'), "C:\\cfg\\duckdns_config.json");
    assert_eq!(AppConfig::get_config_path("dir/", '\\'), "dir/duckdns_config.json");
    assert_eq!(AppConfig::get_config_path("", '/'), "duckdns_config.json");
    let sep = std::path::MAIN_SEPARATOR;
    let expected = std::path::PathBuf::from("abc").join("duckdns_config.json");
    assert_eq!(AppConfig::get_config_path("abc", sep), expected.to_string_lossy());
}

#[test]
fn join_path_uses_the_platform_separator() {
    let expected = std::path::PathBuf::from("/srv/app").join("data.json");
    assert_eq!(join_path("/srv/app", "data.json"), expected.to_string_lossy());
    assert_eq!(join_path_with("a", "b", '/'), "a/b");
    assert_eq!(join_path_with("a", "b", '\\'), "a\\b");
    assert_eq!(join_path_with("a/", "b", '\\'), "a/b");
    assert_eq!(join_path_with("", "b", '\\'), "b");
}

#[test]
fn settings_domain_text_reads_back_as_the_domains() {
    let mut c = AppConfig::default();
    c.domains = strings(&["casa", "escritorio", "nas-01"]);
    c.domain = "ignored".to_string();
    let text = c.domains_csv();
    assert_eq!(text, "casa,escritorio,nas-01");
    assert_eq!(duckdns_updater::domains::parse_domain_list(&text), c.domains);
}
