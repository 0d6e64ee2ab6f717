use tack::backup::{
    backup_dirs, check_backup_name, created_at_from_name, list_backups, new_backup_name, rotation_victims,
    BackupEntry,
};
use tack::migrate::{known_migrations, migration_checksum, migration_outcome, plan_migrations};
use tack::settings::{effective_settings, parse_int, setting_defaults, validate_value, SHORTCUTS, SIDEBAR_ITEMS};
use tack::vaults::{add_item, load_list, register_vault, remove_item, store_list, vault_rows};

fn dir(name: &str, has_db: bool, size: u64) -> BackupEntry {
    BackupEntry { name: name.to_string(), is_dir: true, has_db, size_bytes: size }
}

#[test]
fn backups_are_listed_newest_first() {
    let entries = vec![
        dir("backup-20260101-120000.000", true, 10),
        dir("backup-20260301-080000.500", true, 30),
        dir("backup-20260201-090000", false, 20),
        BackupEntry { name: "backup-file".to_string(), is_dir: false, has_db: false, size_bytes: 1 },
        dir("other", true, 5),
    ];
    assert_eq!(
        backup_dirs(&entries),
        vec!["backup-20260301-080000.500", "backup-20260201-090000", "backup-20260101-120000.000"]
    );
    let listed = list_backups(&entries);
    assert_eq!(listed.len(), 2);
    assert_eq!(listed[0].name, "backup-20260301-080000.500");
    assert_eq!(listed[0].size_bytes, 30);
    assert_eq!(listed[0].created_at, "2026-03-01T08:00:00.500+00:00");
    assert_eq!(listed[1].created_at, "2026-01-01T12:00:00+00:00");
}

#[test]
fn creation_time_comes_from_the_name() {
    assert_eq!(created_at_from_name("backup-20260201-090000"), "2026-02-01T09:00:00+00:00");
    assert_eq!(created_at_from_name("backup-odd"), "odd");
    assert_eq!(created_at_from_name("plain"), "plain");
}

#[test]
fn rotation_keeps_the_newest() {
    let entries = vec![
        dir("backup-1", true, 0),
        dir("backup-3", true, 0),
        dir("backup-2", true, 0),
        dir("backup-4", false, 0),
    ];
    assert_eq!(rotation_victims(&entries, 2), vec!["backup-2", "backup-1"]);
    assert!(rotation_victims(&entries, 0).is_empty());
    assert!(rotation_victims(&entries, 4).is_empty());
    assert_eq!(rotation_victims(&entries, 3), vec!["backup-1"]);
}

#[test]
fn backup_names_stay_inside_the_folder() {
    assert!(check_backup_name("backup-20260101-120000").is_ok());
    assert_eq!(check_backup_name("../etc").unwrap_err(), "invalid backup name");
    assert!(check_backup_name("a\\b").is_err());
    assert!(check_backup_name("a..b").is_err());
    assert_eq!(new_backup_name("20260101-120000.000"), "backup-20260101-120000.000");
}

#[test]
fn new_backups_are_listed_and_accepted() {
    let name = new_backup_name("20260102-080910.250");
    assert!(check_backup_name(&name).is_ok());
    let listed = list_backups(&[dir(&name, true, 5), dir("notes", true, 1)]);
    assert_eq!(listed.len(), 1);
    assert_eq!(listed[0].name, name);
    assert!(check_backup_name(&new_backup_name("")).is_ok());
}

#[test]
fn migrations_are_numbered_in_order() {
    let known = known_migrations();
    assert_eq!(known.len(), 21);
    assert_eq!(known[0], (1, "create_tasks_table"));
    assert!(known.iter().enumerate().all(|(i, m)| m.0 == i as i64 + 1));
}

#[test]
fn migration_plans() {
    let known = [1, 2, 3, 4];
    let p = plan_migrations(&known, Some(&[1, 2, 9]), true, true);
    assert_eq!(p.stale, vec![9]);
    assert_eq!(p.pending, vec![3, 4]);
    let p = plan_migrations(&known, Some(&[1, 2, 9]), true, false);
    assert!(p.stale.is_empty());
    let p = plan_migrations(&known, None, true, true);
    assert!(p.pending.is_empty() && p.stale.is_empty());
    let p = plan_migrations(&known, None, false, true);
    assert_eq!(p.pending, vec![1, 2, 3, 4]);
}

#[test]
fn migration_errors() {
    assert!(migration_outcome(5, None).is_ok());
    assert!(migration_outcome(5, Some("duplicate column name: due_date")).is_ok());
    assert_eq!(migration_outcome(7, Some("no such table: x")).unwrap_err(), "migration 7 failed: no such table: x");
}

#[test]
fn migration_checksums_are_sha384() {
    let c = migration_checksum("");
    assert_eq!(c.len(), 48);
    let hex: String = c.iter().map(|b| format!("{:02x}", b)).collect();
    assert_eq!(
        hex,
        "38b060a751ac96384cd9327eb1b1e36a21fdb71114be07434c0cc7bf63f6e1da274edebfe76f65fbd51ad2f14898b95b"
    );
    assert_ne!(migration_checksum("a"), c);
}

#[test]
fn integers_parse_in_range() {
    assert_eq!(parse_int("42", 0, 100), Some(42));
    assert_eq!(parse_int("+7", 0, 100), Some(7));
    assert_eq!(parse_int("-1", -5, 5), Some(-1));
    assert_eq!(parse_int("101", 0, 100), None);
    assert_eq!(parse_int(" 4", 0, 100), None);
    assert_eq!(parse_int("", 0, 100), None);
    assert_eq!(parse_int("-", -5, 5), None);
}

#[test]
fn setting_values_are_checked() {
    assert!(validate_value("theme", "light").is_ok());
    assert_eq!(validate_value("theme", "blue").unwrap_err(), "theme must be: dark, light, or system");
    assert_eq!(validate_value("liveEnabled", "yes").unwrap_err(), "liveEnabled must be true or false");
    assert_eq!(validate_value("livePort", "80").unwrap_err(), "livePort must be between 1024 and 65535");
    assert_eq!(
        validate_value("livePort", "70000").unwrap_err(),
        "livePort must be a number between 1024 and 65535"
    );
    assert!(validate_value("livePort", "8080").is_ok());
    assert_eq!(validate_value("defaultPriority", "5").unwrap_err(), "defaultPriority must be 0-4");
    assert_eq!(validate_value("backupKeepCount", "0").unwrap_err(), "backupKeepCount must be greater than 0");
    assert_eq!(validate_value("prefixPadding", "-1").unwrap_err(), "prefixPadding must be 0 or greater");
    assert_eq!(validate_value("dueSoonThreshold", "x").unwrap_err(), "dueSoonThreshold must be a number");
    assert!(validate_value("prefixPadding", "0").is_ok());
    assert!(validate_value("sidebarItems", "[]").is_ok());
    assert_eq!(validate_value("sidebarItems", "{}").unwrap_err(), "sidebarItems must be a JSON array");
    assert_eq!(validate_value("sidebarItems", "[").unwrap_err(), "sidebarItems must be a valid JSON array");
    assert_eq!(validate_value("shortcuts", "[]").unwrap_err(), "shortcuts must be a JSON object");
    assert!(validate_value("shortcuts", "{\"a\":1}").is_ok());
    assert!(validate_value("nope", "1").unwrap_err().starts_with("Invalid key 'nope'. Valid: theme, "));
}

#[test]
fn defaults_pass_their_own_checks() {
    let ds = setting_defaults();
    assert_eq!(ds.len(), 14);
    for (k, v) in &ds {
        assert!(validate_value(k, v).is_ok(), "{} = {}", k, v);
    }
    assert!(ds.iter().any(|(k, v)| *k == "sidebarItems" && *v == SIDEBAR_ITEMS));
    assert!(ds.iter().any(|(k, v)| *k == "shortcuts" && *v == SHORTCUTS));
}

#[test]
fn stored_settings_override_defaults() {
    let stored = vec![("theme".to_string(), "light".to_string()), ("custom".to_string(), "1".to_string())];
    let eff = effective_settings(&stored);
    let get = |k: &str| eff.iter().find(|(a, _)| a == k).map(|(_, b)| b.clone());
    assert_eq!(get("theme").as_deref(), Some("light"));
    assert_eq!(get("livePort").as_deref(), Some("17890"));
    assert_eq!(get("custom"), None);
    assert_eq!(eff.len(), 14);
    let keys: Vec<&str> = eff.iter().map(|(k, _)| k.as_str()).collect();
    let mut sorted = keys.clone();
    sorted.sort();
    assert_eq!(keys, sorted);
    let none = effective_settings(&[]);
    assert_eq!(none.len(), 14);
}

#[test]
fn stored_lists_round_trip() {
    let items = vec!["/a".to_string(), "/b \"q\"".to_string()];
    let text = store_list(&items);
    assert_eq!(text, "[\"/a\",\"/b \\\"q\\\"\"]");
    assert_eq!(load_list(Some(&text)), items);
    assert!(load_list(None).is_empty());
    assert!(load_list(Some("not json")).is_empty());
    assert!(load_list(Some("[1,2]")).is_empty());
    let odd = vec!["tab\tline\nbreak".to_string(), "\u{1}ctrl \\ é 🎉".to_string(), String::new()];
    assert_eq!(load_list(Some(&store_list(&odd))), odd);
    assert!(load_list(Some(&store_list(&[]))).is_empty());
}

#[test]
fn adding_twice_is_adding_once() {
    let (once, added) = add_item(&[], "/v");
    assert!(added);
    let (twice, added_again) = add_item(&once, "/v");
    assert!(!added_again);
    assert_eq!(once, twice);
    assert!(remove_item(&twice, "/v").is_empty());
    assert_eq!(remove_item(&["/a".to_string(), "/v".to_string(), "/a".to_string()], "/a"), vec!["/v"]);
    assert_eq!(register_vault(&once, "/v").unwrap_err(), "Vault already registered: /v");
    assert_eq!(register_vault(&once, "/w").unwrap(), vec!["/v", "/w"]);
}

#[test]
fn vault_table_puts_the_current_first() {
    let vaults = vec!["/a".to_string(), "/cur".to_string(), "/b".to_string()];
    assert_eq!(
        vault_rows("/cur", &vaults),
        vec![("/cur".to_string(), true), ("/a".to_string(), false), ("/b".to_string(), false)]
    );
    assert_eq!(vault_rows("", &vaults).len(), 3);
}
