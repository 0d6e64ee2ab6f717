use tack::auth::LiveAuth;
use tack::http::{
    asset_mime_for, attachment_id, backup_name_from_path, default_keep, hex_val, mime_for, path_extension,
    path_file_name, path_file_stem, percent_decode_bytes, query_param,
};
use tack::route::{
    action_fields, cache_control, decide, history_keep, is_guarded, live_status, live_url, notes_action,
    path_within, route, save_key, split_url, start_keeps_running, static_target, Decision, Method, NotesAction,
    PathField, Route,
};

fn chars(v: Option<Vec<char>>) -> Option<String> {
    v.map(|c| c.into_iter().collect())
}

#[test]
fn urls_split_at_the_first_question_mark() {
    assert_eq!(split_url("/api/events?x=1?y"), ("/api/events".to_string(), "x=1?y".to_string()));
    assert_eq!(split_url("/a"), ("/a".to_string(), String::new()));
}

#[test]
fn requests_are_routed() {
    assert!(route(Method::Get, "/api/events/stream") == Route::EventsStream);
    assert!(route(Method::Post, "/api/select") == Route::Select);
    assert!(route(Method::Get, "/api/select") == Route::Static);
    assert!(route(Method::Put, "/api/attachment/abc") == Route::AttachmentPut);
    assert!(route(Method::Post, "/api/notes/write") == Route::NotesPost);
    assert!(route(Method::Post, "/api/backups/x/restore") == Route::BackupRestore);
    assert!(route(Method::Post, "/api/backups/x") == Route::NotFound);
    assert!(route(Method::Delete, "/api/backups/x") == Route::BackupDelete);
    assert!(route(Method::Head, "/index.html") == Route::Static);
    assert!(route(Method::Other, "/") == Route::NotFound);
}

#[test]
fn the_api_is_locked_by_the_password() {
    let auth = LiveAuth { salt: vec![1], hash: vec![0; 32], token: "t0k".to_string() };
    assert!(decide(Method::Post, "/api/auth", "", &[], Some(&auth)) == Decision::Login);
    assert!(decide(Method::Post, "/api/select", "", &[], Some(&auth)) == Decision::Unauthorized);
    assert!(decide(Method::Post, "/api/select", "token=t0k", &[], Some(&auth)) == Decision::Serve(Route::Select));
    assert!(decide(Method::Post, "/api/select", "", &[], None) == Decision::Serve(Route::Select));
    let wrong = vec![
        ("Cookie".to_string(), "other=t0k; tack_live=nope".to_string()),
        ("Authorization".to_string(), "Bearer t0kk".to_string()),
    ];
    assert!(decide(Method::Get, "/api/events", "token=t0", &wrong, Some(&auth)) == Decision::Unauthorized);
    assert!(decide(Method::Post, "/api/auth", "", &wrong, Some(&auth)) == Decision::Login);
    assert!(is_guarded("/api/events"));
    assert!(!is_guarded("/apix"));
}

#[test]
fn static_paths_cannot_climb_out() {
    assert_eq!(static_target("/").as_deref(), Some("index.html"));
    assert_eq!(static_target("/_app/a%20b.js").as_deref(), Some("_app/a b.js"));
    assert_eq!(static_target("/%2e%2e/etc/passwd"), None);
    assert_eq!(static_target("/a/./b"), None);
    assert_eq!(static_target("//x"), Some("x".to_string()));
    assert_eq!(cache_control("/_app/x.js"), "public, max-age=31536000, immutable");
    assert_eq!(cache_control("/index.html"), "no-cache");
}

#[test]
fn content_types() {
    assert_eq!(mime_for("a/b.js"), "text/javascript; charset=utf-8");
    assert_eq!(mime_for("index.html"), "text/html; charset=utf-8");
    assert_eq!(mime_for("x.unknown"), "application/octet-stream");
    assert_eq!(mime_for(".bashrc"), "application/octet-stream");
    assert_eq!(asset_mime_for("p.MOV"), "application/octet-stream");
    assert_eq!(asset_mime_for("p.mov"), "video/quicktime");
    assert_eq!(asset_mime_for("doc.pdf"), "application/pdf");
}

#[test]
fn path_parts() {
    assert_eq!(chars(path_file_name("/a/b.tar.gz/")).as_deref(), Some("b.tar.gz"));
    assert_eq!(chars(path_file_name("/a/..")), None);
    assert_eq!(chars(path_extension("/a/b.tar.gz")).as_deref(), Some("gz"));
    assert_eq!(chars(path_extension("/a/.hidden")), None);
    assert_eq!(chars(path_file_stem("/a/b.tar.gz")).as_deref(), Some("b.tar"));
    assert_eq!(chars(path_file_stem("/a/.hidden")).as_deref(), Some(".hidden"));
}

#[test]
fn attachment_ids_are_plain() {
    assert_eq!(attachment_id("/api/attachment/abc-123"), Some("abc-123"));
    assert_eq!(attachment_id("/api/attachment/../x"), None);
    assert_eq!(attachment_id("/api/attachment/"), None);
    assert_eq!(attachment_id("/api/other/abc"), None);
}

#[test]
fn backup_paths() {
    assert_eq!(backup_name_from_path("/api/backups/backup-1/restore", true).as_deref(), Some("backup-1"));
    assert_eq!(backup_name_from_path("/api/backups/backup-1", true), None);
    assert_eq!(backup_name_from_path("/api/backups/a%20b", false).as_deref(), Some("a b"));
    assert_eq!(backup_name_from_path("/api/backups/", false), None);
    assert_eq!(default_keep(), 7);
}

#[test]
fn query_parameters() {
    assert_eq!(query_param("a=1&b=x+y%21&a=2", "a").as_deref(), Some("1"));
    assert_eq!(query_param("a=1&b=x+y%21", "b").as_deref(), Some("x y!"));
    assert_eq!(query_param("ab=1", "a"), None);
    assert_eq!(query_param("a=", "a").as_deref(), Some(""));
}

#[test]
fn hex_and_bytes() {
    assert_eq!(hex_val(b'f'), Some(15));
    assert_eq!(hex_val(b'F'), Some(15));
    assert_eq!(hex_val(b'9'), Some(9));
    assert_eq!(hex_val(b'g'), None);
    assert_eq!(percent_decode_bytes(b"%ff%0"), vec![0xff, b'%', b'0']);
}

#[test]
fn notes_actions() {
    assert!(notes_action("/api/notes/rename") == Some(NotesAction::Rename));
    assert!(notes_action("/api/notes/nope").is_none());
    let f = action_fields(NotesAction::Rename);
    assert!(f.len() == 2 && f[0] == PathField::From && f[1] == PathField::To);
    assert!(action_fields(NotesAction::Folder)[0] == PathField::Dir);
    assert_eq!(save_key(Some("k"), "/n/a.md"), "k");
    assert_eq!(save_key(None, "/n/a.md"), "a");
    assert_eq!(history_keep(None), 50);
    assert_eq!(history_keep(Some(3)), 3);
}

#[test]
fn paths_within_a_root() {
    assert!(path_within("/notes", "/notes/a/b.md"));
    assert!(path_within("/notes/", "/notes//a"));
    assert!(!path_within("/notes", "/notes2/a"));
    assert!(!path_within("/notes/a", "/notes"));
    assert!(path_within("./n", "./n/x"));
}

#[test]
fn live_addresses() {
    assert_eq!(live_url(None, 17890), "http://127.0.0.1:17890");
    assert_eq!(live_url(Some("192.168.1.5"), 8080), "http://192.168.1.5:8080");
    let s = live_status(Some("10.0.0.2"), 9000);
    assert_eq!(s.port, 9000);
    assert_eq!(s.url, "http://10.0.0.2:9000");
    assert!(start_keeps_running(Some(9000), 9000));
    assert!(!start_keeps_running(Some(9000), 9001));
    assert!(!start_keeps_running(None, 9000));
}
