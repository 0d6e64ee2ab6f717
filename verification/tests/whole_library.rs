use tack::backup::{list_backups, BackupEntry};
use tack::http::{backup_name_from_path, percent_decode, query_param};
use tack::hub::LiveHub;
use tack::notefiles::{note_images, note_search_hits};
use tack::notetext::{set_tags, split_frontmatter};
use tack::query::{classify, translate_placeholders, Statement};
use tack::taskedit::{task_list_sql, ListFilter};
use tack::tasks::fts_query;

#[test]
fn blank_searches_give_empty_queries() {
    assert_eq!(fts_query(" \t\n "), "");
    assert_eq!(fts_query(""), "");
    assert_eq!(fts_query("  a  "), "\"a\"");
    assert!(!fts_query("\"").is_empty());
}

#[test]
fn placeholders_rewrite_in_place_and_once() {
    let sql = "SELECT $1, $$2, $x, $ 3, $10$2";
    let once = translate_placeholders(sql);
    assert_eq!(once, "SELECT ?1, $?2, $x, $ 3, ?10?2");
    assert_eq!(once.chars().count(), sql.chars().count());
    assert_eq!(translate_placeholders(&once), once);
}

#[test]
fn the_screen_reads_keywords_in_any_case() {
    assert_eq!(classify("sElEcT 1"), Ok(Statement::Read));
    assert_eq!(classify("insert INTO Tasks (id) values ('a')"), Ok(Statement::Write));
    assert_eq!(classify("Delete from \"labels\""), Ok(Statement::Write));
    assert!(classify("selectx 1").is_err());
    assert!(classify("select 1; select 2").is_err());
}

#[test]
fn decoded_bytes_are_the_escapes() {
    let out = percent_decode("%41%42c%2");
    assert_eq!(out, "ABc%2");
    assert!(out.len() <= "%41%42c%2".len());
    assert_eq!(percent_decode("%C3%A9").as_bytes(), &[0xC3, 0xA9]);
}

#[test]
fn frontmatter_pieces_rejoin() {
    for (text, sep) in [
        ("---\ntitle: T\n---\r\nbody", "\r\n"),
        ("---\ntitle: T\n---\nbody", "\n"),
        ("---\ntitle: T\n---body", ""),
    ] {
        let (fm, body) = split_frontmatter(text);
        let fm = fm.unwrap();
        assert!(!fm.contains("\n---"));
        assert_eq!(format!("---\n{}\n---{}{}", fm, sep, body), text);
    }
    assert_eq!(split_frontmatter("no marker"), (None, "no marker"));
}

#[test]
fn set_tags_keeps_body_and_other_lines() {
    let tags = vec!["x".to_string(), "y z".to_string()];
    let text = "---\ntitle: T\ntags: [old]\nkind: k\n---\nthe body";
    let out = set_tags(text, &tags);
    assert!(out.ends_with("the body"));
    assert!(out.starts_with("---\ntitle: T\nkind: k\n"));
    assert!(out.contains("\n  - x\n"));
    assert!(out.contains("\n  - y z\n"));
}

#[test]
fn presence_counts_joins_and_leaves() {
    let mut hub = LiveHub::new();
    hub.presence_join("a", "A", "phone", 10);
    hub.presence_join("a", "", "phone", 11);
    hub.presence_join("b", "B", "web", 5);
    hub.presence_leave("a");
    let snap = hub.presence_snapshot();
    assert_eq!(snap.len(), 2);
    let a = snap.iter().find(|c| c.id == "a").unwrap();
    assert_eq!(a.connections, 1);
    assert_eq!(a.name, "A");
    hub.presence_leave("a");
    hub.presence_leave("a");
    let snap = hub.presence_snapshot();
    assert_eq!(snap.len(), 1);
    assert_eq!(snap[0].id, "b");
}

#[test]
fn backups_list_newest_first_once() {
    let e = |n: &str, db: bool| BackupEntry { name: n.to_string(), is_dir: true, has_db: db, size_bytes: 1 };
    let listed = list_backups(&[
        e("backup-20260101-000000", true),
        e("backup-20260301-000000", true),
        e("backup-20260201-000000", false),
        e("notes", true),
        e("backup-20260201-120000", true),
    ]);
    let names: Vec<&str> = listed.iter().map(|b| b.name.as_str()).collect();
    assert_eq!(names, vec!["backup-20260301-000000", "backup-20260201-120000", "backup-20260101-000000"]);
}

#[test]
fn note_images_are_local_and_in_order() {
    let content = "![a](one.png) ![r](https://x/y.png) ![](data:image/png;base64,xx) ![b]('two.png') ![c](";
    let imgs = note_images(content);
    assert_eq!(imgs, vec![("a".to_string(), "one.png".to_string()), ("b".to_string(), "two.png".to_string())]);
    assert!(imgs.len() <= content.matches("![").count());
}

#[test]
fn task_list_statement_follows_the_filters() {
    let head = "SELECT t.id, t.number, t.title, t.status, t.priority, t.due_date, t.end_date, t.pinned, p.prefix, t.updated_at, t.created_at FROM tasks t LEFT JOIN projects p ON t.project_id = p.id WHERE t.deleted_at IS NULL";
    let tail = " ORDER BY t.pinned DESC, t.updated_at DESC";
    let none = ListFilter { project: false, status: false, priority: false, pinned: false, since: false };
    assert_eq!(task_list_sql(none), format!("{}{}", head, tail));
    let all = ListFilter { project: true, status: true, priority: true, pinned: true, since: true };
    assert_eq!(
        task_list_sql(all),
        format!(
            "{} AND t.project_id = ? AND t.status = ? AND t.priority = ? AND t.pinned = 1 AND t.updated_at > ?{}",
            head, tail
        )
    );
}

#[test]
fn search_ignores_case_of_query_and_text() {
    assert_eq!(note_search_hits("Alpha alpha ALPHA", "ALPHA"), Some(3));
    assert_eq!(note_search_hits("Été été", "ÉTÉ"), Some(2));
    assert_eq!(note_search_hits("abc", "x"), Some(0));
}

#[test]
fn request_paths_decode_names() {
    assert_eq!(
        backup_name_from_path("/api/backups/backup-20240101-000000.000/restore", true).as_deref(),
        Some("backup-20240101-000000.000")
    );
    assert_eq!(
        backup_name_from_path("/api/backups/backup-20240101-000000.000", false).as_deref(),
        Some("backup-20240101-000000.000")
    );
    assert_eq!(backup_name_from_path("/api/backups/", false), None);
    assert_eq!(backup_name_from_path("/api/backups/x", true), None);
    assert_eq!(backup_name_from_path("/api/backups/caf%C3%A9", false).as_deref(), Some("café"));
    assert_eq!(query_param("a=1&path=notes%2Fx+y.md", "path").as_deref(), Some("notes/x y.md"));
}
