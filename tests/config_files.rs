use chrono::{Datelike, Timelike};
use ddbot_supervisor::backups::{backup_file_name, restore_target, select_backups};
use ddbot_supervisor::clock::{backup_timestamp, LocalTime};
use ddbot_supervisor::config::{
    backup_for_write, backup_for_write_now, config_text, get_default_config_template, plan_restore,
};
use ddbot_supervisor::errors::ErrorKind;

fn names(v: &[&str]) -> Vec<String> {
    v.iter().map(|s| s.to_string()).collect()
}

#[test]
fn backup_name_has_file_timestamp_and_suffix() {
    assert_eq!(
        backup_file_name("application.yaml", "20240102_030405"),
        "application.yaml.20240102_030405.bak"
    );
}

#[test]
fn listing_keeps_backups_of_the_file_newest_first() {
    let listing = names(&[
        "application.yaml.20240101_000000.bak",
        "template.yaml.20240105_000000.bak",
        "application.yaml.20240103_120000.bak",
        "application.yaml.20240102_235959.bak",
        "application.yaml.tmp",
        "notes.txt",
    ]);
    let r = select_backups("application.yaml", &listing);
    assert_eq!(
        r,
        names(&[
            "application.yaml.20240103_120000.bak",
            "application.yaml.20240102_235959.bak",
            "application.yaml.20240101_000000.bak",
        ])
    );
}

#[test]
fn listing_of_empty_directory_is_empty() {
    assert!(select_backups("application.yaml", &Vec::new()).is_empty());
}

#[test]
fn one_write_adds_one_backup_entry() {
    let mut listing = names(&["application.yaml.20240101_000000.bak"]);
    let before = select_backups("application.yaml", &listing).len();
    let b = backup_for_write("application.yaml", true, "20240101_000001").unwrap();
    listing.push(b.clone());
    let after = select_backups("application.yaml", &listing);
    assert_eq!(after.len(), before + 1);
    assert_eq!(after[0], b);
}

#[test]
fn no_backup_when_file_is_new() {
    assert_eq!(backup_for_write("application.yaml", false, "20240101_000001"), None);
    assert_eq!(backup_for_write_now("application.yaml", false), None);
}

#[test]
fn backup_now_is_named_with_todays_date() {
    let b = backup_for_write_now("application.yaml", true).unwrap();
    let today = chrono::Local::now().format("%Y%m%d").to_string();
    let prefix = format!("application.yaml.{}_", today);
    assert!(b.starts_with(&prefix), "{}", b);
    assert!(b.ends_with(".bak"));
    assert_eq!(b.len(), "application.yaml.".len() + 15 + ".bak".len());
}

#[test]
fn restore_target_strips_timestamp_and_suffix() {
    assert_eq!(
        restore_target("application.yaml.20240102_030405.bak"),
        Some("application.yaml".to_string())
    );
    assert_eq!(restore_target("a.b.c"), Some("a".to_string()));
    assert_eq!(restore_target("app.yaml"), None);
    assert_eq!(restore_target(""), None);
}

#[test]
fn restore_of_name_without_segments_is_refused() {
    assert_eq!(plan_restore("app.yaml", true), Err(ErrorKind::InvalidBackupName));
    assert_eq!(plan_restore("app.yaml", false), Err(ErrorKind::InvalidBackupName));
}

#[test]
fn restore_of_missing_backup_is_an_io_error() {
    assert_eq!(plan_restore("app.yaml.20240101_000000.bak", false), Err(ErrorKind::ConfigIo));
}

#[test]
fn restore_of_latest_backup_targets_the_written_file() {
    // write c1 then c2: the second write backs up c1 under the later name.
    let first = backup_for_write("application.yaml", true, "20240101_100000").unwrap();
    let second = backup_for_write("application.yaml", true, "20240101_100001").unwrap();
    let listing = vec![first, second.clone()];
    let latest = select_backups("application.yaml", &listing)[0].clone();
    assert_eq!(latest, second);
    assert_eq!(plan_restore(&latest, true), Ok("application.yaml".to_string()));
}

#[test]
fn missing_known_files_read_as_templates() {
    let base = get_default_config_template("application.yaml");
    assert!(!base.is_empty());
    assert!(base.contains("admin:"));
    assert!(base.contains("addr: \"127.0.0.1:15631\""));
    let tpl = get_default_config_template("template.yaml");
    assert!(!tpl.is_empty());
    assert!(tpl.contains("templates:"));
}

#[test]
fn missing_unknown_file_reads_as_empty() {
    assert_eq!(get_default_config_template("other.yaml"), "");
    assert_eq!(config_text("other.yaml", None), "");
}

#[test]
fn stored_content_wins_over_template() {
    assert_eq!(config_text("application.yaml", Some("x: 1".to_string())), "x: 1");
    assert_eq!(
        config_text("application.yaml", None),
        get_default_config_template("application.yaml")
    );
}

fn at(year: i32, month: u32, day: u32, hour: u32, minute: u32, second: u32) -> LocalTime {
    LocalTime { year, month, day, hour, minute, second }
}

#[test]
fn timestamp_is_fixed_width() {
    assert_eq!(backup_timestamp(at(2024, 1, 2, 3, 4, 5)), "20240102_030405");
    assert_eq!(backup_timestamp(at(1999, 12, 31, 23, 59, 59)), "19991231_235959");
}

#[test]
fn timestamp_years_outside_four_digits_carry_a_sign() {
    assert_eq!(backup_timestamp(at(5, 1, 1, 0, 0, 0)), "00050101_000000");
    assert_eq!(backup_timestamp(at(10000, 1, 1, 0, 0, 0)), "+100000101_000000");
    assert_eq!(backup_timestamp(at(-5, 1, 1, 0, 0, 0)), "-00050101_000000");
}

#[test]
fn timestamp_matches_chrono_format() {
    let now = chrono::Local::now();
    let t = at(now.year(), now.month(), now.day(), now.hour(), now.minute(), now.second());
    assert_eq!(backup_timestamp(t), now.format("%Y%m%d_%H%M%S").to_string());
}
