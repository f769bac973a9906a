use ddbot_supervisor::admin::{
    apply_admin_settings, enable_admin_in_config_if_approved, read_admin_token, ConfigValue,
    StoredConfig,
};
use ddbot_supervisor::errors::ErrorKind;
use ddbot_supervisor::status::{
    admin_api_url, bearer_value, fallback_summary, live_summary, offline_summary,
    onebot_status_text, subs_summary_text, OnebotStatus,
};

fn text(s: &str) -> ConfigValue {
    ConfigValue::Text(s.to_string())
}

fn mapping(entries: Vec<(&str, ConfigValue)>) -> ConfigValue {
    ConfigValue::Mapping(entries.into_iter().map(|(k, v)| (text(k), v)).collect())
}

fn entries(v: &ConfigValue) -> &Vec<(ConfigValue, ConfigValue)> {
    match v {
        ConfigValue::Mapping(es) => es,
        other => panic!("not a mapping: {:?}", other),
    }
}

fn key_of(k: &ConfigValue) -> String {
    match k {
        ConfigValue::Text(s) => s.clone(),
        other => panic!("not a text key: {:?}", other),
    }
}

fn get<'a>(v: &'a ConfigValue, key: &str) -> Option<&'a ConfigValue> {
    entries(v).iter().find(|(k, _)| matches!(k, ConfigValue::Text(s) if s == key)).map(|(_, v)| v)
}

fn text_at(v: &ConfigValue, key: &str) -> Option<String> {
    match get(v, key) {
        Some(ConfigValue::Text(s)) => Some(s.clone()),
        _ => None,
    }
}

#[test]
fn enabling_empty_document_adds_admin_section() {
    let u = apply_admin_settings(ConfigValue::Null, "tok".to_string());
    assert_eq!(u.token, "tok");
    let admin = get(&u.doc, "admin").unwrap();
    assert!(matches!(get(admin, "enable"), Some(ConfigValue::Bool(true))));
    assert_eq!(text_at(admin, "addr"), Some("127.0.0.1:15631".to_string()));
    assert_eq!(text_at(admin, "token"), Some("tok".to_string()));
}

#[test]
fn enabling_keeps_existing_token_and_other_keys() {
    let doc = mapping(vec![
        ("log_level", text("info")),
        ("admin", mapping(vec![("enable", ConfigValue::Bool(false)), ("token", text("keep-me")), ("extra", ConfigValue::Number("7".to_string()))])),
        ("tail", ConfigValue::Bool(false)),
    ]);
    let u = apply_admin_settings(doc, "fresh".to_string());
    assert_eq!(u.token, "keep-me");
    let keys: Vec<String> = entries(&u.doc).iter().map(|(k, _)| key_of(k)).collect();
    assert_eq!(keys, vec!["log_level", "admin", "tail"]);
    assert_eq!(text_at(&u.doc, "log_level"), Some("info".to_string()));
    let admin = get(&u.doc, "admin").unwrap();
    let admin_keys: Vec<String> = entries(admin).iter().map(|(k, _)| key_of(k)).collect();
    assert_eq!(admin_keys, vec!["enable", "token", "extra", "addr"]);
    assert!(matches!(get(admin, "enable"), Some(ConfigValue::Bool(true))));
    assert!(matches!(get(admin, "extra"), Some(ConfigValue::Number(n)) if n == "7"));
}

#[test]
fn blank_token_is_replaced() {
    let doc = mapping(vec![("admin", mapping(vec![("token", text("  "))]))]);
    let u = apply_admin_settings(doc, "fresh".to_string());
    assert_eq!(u.token, "fresh");
    assert_eq!(text_at(get(&u.doc, "admin").unwrap(), "token"), Some("fresh".to_string()));
}

#[test]
fn non_mapping_admin_is_replaced_in_place() {
    let doc = mapping(vec![("a", text("1")), ("admin", text("off")), ("b", text("2"))]);
    let u = apply_admin_settings(doc, "fresh".to_string());
    let keys: Vec<String> = entries(&u.doc).iter().map(|(k, _)| key_of(k)).collect();
    assert_eq!(keys, vec!["a", "admin", "b"]);
    assert_eq!(text_at(get(&u.doc, "admin").unwrap(), "token"), Some("fresh".to_string()));
}

#[test]
fn non_mapping_document_counts_as_empty() {
    let u = apply_admin_settings(ConfigValue::List(vec![text("x")]), "fresh".to_string());
    assert_eq!(entries(&u.doc).len(), 1);
    assert_eq!(read_admin_token(&u.doc), Some("fresh".to_string()));
}

#[test]
fn enabling_twice_keeps_the_first_token() {
    let first = enable_admin_in_config_if_approved(true, StoredConfig::Parsed(mapping(vec![("log_level", text("info"))]))).unwrap();
    let first_doc = format!("{:?}", first.doc);
    let second = enable_admin_in_config_if_approved(true, StoredConfig::Parsed(first.doc)).unwrap();
    assert_eq!(second.token, first.token);
    assert_eq!(format!("{:?}", second.doc), first_doc);
}

#[test]
fn minted_token_is_48_alphanumerics() {
    let u = enable_admin_in_config_if_approved(true, StoredConfig::Unreadable).unwrap();
    assert_eq!(u.token.chars().count(), 48);
    assert!(u.token.chars().all(|c| c.is_ascii_alphanumeric()));
    assert_eq!(read_admin_token(&u.doc), Some(u.token.clone()));
}

#[test]
fn nothing_changes_without_approval_or_file() {
    assert!(enable_admin_in_config_if_approved(false, StoredConfig::Unreadable).is_none());
    assert!(enable_admin_in_config_if_approved(true, StoredConfig::Missing).is_none());
}

#[test]
fn token_is_read_only_from_admin_mapping() {
    let doc = mapping(vec![("admin", mapping(vec![("token", text("abc"))]))]);
    assert_eq!(read_admin_token(&doc), Some("abc".to_string()));
    assert_eq!(read_admin_token(&mapping(vec![("admin", text("abc"))])), None);
    assert_eq!(read_admin_token(&mapping(vec![("admin", mapping(vec![("token", text(" \t"))]))])), None);
    assert_eq!(read_admin_token(&mapping(vec![("admin", mapping(vec![("token", ConfigValue::Number("5".to_string()))]))])), None);
    assert_eq!(read_admin_token(&ConfigValue::Null), None);
}

fn rows(v: &[(&str, u32)]) -> Vec<(String, u32)> {
    v.iter().map(|(s, c)| (s.to_string(), *c)).collect()
}

#[test]
fn offline_summary_counts_sites() {
    let s = offline_summary(Some(rows(&[("pixiv", 3), ("twitter", 2)])));
    assert_eq!(s.total, 5);
    assert_eq!(s.by_site, rows(&[("pixiv", 3), ("twitter", 2)]));
    assert!(s.offline);
}

#[test]
fn missing_store_counts_as_zero() {
    let s = offline_summary(None);
    assert_eq!(s.total, 0);
    assert!(s.by_site.is_empty());
    assert!(s.offline);
}

#[test]
fn later_row_for_a_site_overrides() {
    let s = offline_summary(Some(rows(&[("pixiv", 3), ("bilibili", 4), ("pixiv", 1)])));
    assert_eq!(s.by_site, rows(&[("pixiv", 1), ("bilibili", 4)]));
    assert_eq!(s.total, 5);
}

#[test]
fn large_counts_do_not_overflow() {
    let s = offline_summary(Some(rows(&[("a", u32::MAX), ("b", u32::MAX)])));
    assert_eq!(s.total, 2 * u32::MAX as u128);
}

#[test]
fn both_sources_failing_is_unavailable() {
    assert!(matches!(fallback_summary(Err(())), Err(ErrorKind::StatusUnavailable)));
    let ok = fallback_summary(Ok(Some(rows(&[("pixiv", 3), ("twitter", 2)])))).unwrap();
    assert_eq!(ok.total, 5);
    assert!(ok.offline);
}

#[test]
fn summary_texts() {
    let live = live_summary(7, None);
    assert!(!live.offline);
    assert!(live.by_site.is_empty());
    assert_eq!(subs_summary_text(&Ok(live)), "7/7");
    let off = offline_summary(Some(rows(&[("pixiv", 3), ("twitter", 2)])));
    assert_eq!(subs_summary_text(&Ok(off)), "5 (离线)");
    assert_eq!(subs_summary_text(&Err(ErrorKind::StatusUnavailable)), "无法获取状态");
}

#[test]
fn live_summary_keeps_sites() {
    let s = live_summary(3, Some(rows(&[("pixiv", 3)])));
    assert_eq!(s.total, 3);
    assert_eq!(s.by_site, rows(&[("pixiv", 3)]));
}

#[test]
fn onebot_texts() {
    assert_eq!(onebot_status_text(None), "无法获取状态");
    let down = OnebotStatus { connected: false, protocol: None, self_id: None };
    assert_eq!(onebot_status_text(Some(down)), "未连接");
    let up = OnebotStatus { connected: true, protocol: None, self_id: None };
    assert_eq!(onebot_status_text(Some(up)), "已连接 (OneBot v11) - 未知");
    let named = OnebotStatus { connected: true, protocol: Some("Lagrange".to_string()), self_id: Some("12345".to_string()) };
    assert_eq!(onebot_status_text(Some(named)), "已连接 (Lagrange) - 12345");
}

#[test]
fn admin_api_addresses() {
    assert_eq!(admin_api_url("/subs/summary"), "http://127.0.0.1:15631/api/v1/subs/summary");
    assert_eq!(bearer_value("abc"), "Bearer abc");
}
