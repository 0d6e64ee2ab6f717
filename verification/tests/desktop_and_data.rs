use tack::attachments::{attachment_mime, attachment_payload, data_url, decode_attachment, mime_from_ext};
use tack::order::{chars_le, sort_names, sort_positions_desc};
use tack::system::{
    activity_source, cell_int, cell_opt_text, cell_text, macos_major, notification_panes, record_total,
    reset_tables, Cell, RevealOnce,
};

fn cv(s: &str) -> Vec<char> {
    s.chars().collect()
}

#[test]
fn attachment_types() {
    assert_eq!(mime_from_ext("/x/a.JPG"), "application/octet-stream");
    assert_eq!(mime_from_ext("/x/a.jpeg"), "image/jpeg");
    assert_eq!(mime_from_ext("/x/page.htm"), "text/html");
    assert_eq!(mime_from_ext("/x/noext"), "application/octet-stream");
}

#[test]
fn data_urls_round_trip() {
    let url = data_url("text/plain", b"hello bytes");
    assert_eq!(url, "data:text/plain;base64,aGVsbG8gYnl0ZXM=");
    assert_eq!(decode_attachment(&url).unwrap(), b"hello bytes".to_vec());
    assert_eq!(decode_attachment("aGVs\nbG8=").unwrap(), b"hello".to_vec());
    assert!(decode_attachment("data:x;base64,!!!").is_err());
    assert_eq!(attachment_payload(b"a,b, c\td"), b"cd".to_vec());
    assert_eq!(attachment_payload(b"abc"), b"abc".to_vec());
    let bytes: Vec<u8> = (0u8..=255).collect();
    let odd = data_url("x/a,b;é", &bytes);
    assert_eq!(decode_attachment(&odd).unwrap(), bytes);
    assert_eq!(decode_attachment(&data_url("text/plain", b"")).unwrap(), Vec::<u8>::new());
}

#[test]
fn attachment_content_type_from_query() {
    assert_eq!(attachment_mime("mime=text/plain"), "text/plain");
    assert_eq!(attachment_mime("a=1&mime=image/png&b=2"), "image/png");
    assert_eq!(attachment_mime("a=1"), "application/octet-stream");
}

#[test]
fn macos_releases() {
    assert_eq!(macos_major("15.1.2\n"), Some(15));
    assert_eq!(macos_major("12"), Some(12));
    assert_eq!(macos_major("x.1"), None);
    assert_eq!(notification_panes(Some(15))[0], "x-apple.systempreferences:com.apple.Notifications");
    assert_eq!(
        notification_panes(Some(14))[0],
        "x-apple.systempreferences:com.apple.Notifications-Settings.extension"
    );
    assert_eq!(notification_panes(None)[0], "x-apple.systempreferences:com.apple.preference.notifications");
    assert_eq!(notification_panes(Some(11)).len(), 2);
}

#[test]
fn window_is_shown_once() {
    let mut r = RevealOnce::new();
    assert!(r.claim());
    assert!(!r.claim());
    assert!(!r.claim());
}

#[test]
fn imported_cells() {
    assert_eq!(cell_text(&Cell::Text("a".into())), "a");
    assert_eq!(cell_text(&Cell::Int(3)), "");
    assert_eq!(cell_opt_text(&Cell::Missing), None);
    assert_eq!(cell_opt_text(&Cell::Text("b".into())).as_deref(), Some("b"));
    assert_eq!(cell_int(&Cell::Int(7)), 7);
    assert_eq!(cell_int(&Cell::Other), 0);
    assert_eq!(activity_source(&Cell::Missing), "gui");
    assert_eq!(activity_source(&Cell::Text("cli".into())), "cli");
    assert_eq!(record_total(1, 2, 3, 4, 5, 6), 21);
    let t = reset_tables();
    assert_eq!(t[0], "activity_log");
    assert!(t.contains(&"tasks"));
}

#[test]
fn name_order() {
    assert!(chars_le(&cv("abc"), &cv("abd")));
    assert!(chars_le(&cv("ab"), &cv("abc")));
    assert!(!chars_le(&cv("b"), &cv("abc")));
    assert!(chars_le(&cv(""), &cv("")));
    let names = vec![cv("b"), cv("a"), cv("c")];
    assert_eq!(sort_names(names.clone(), false), vec![cv("a"), cv("b"), cv("c")]);
    assert_eq!(sort_names(names, true), vec![cv("c"), cv("b"), cv("a")]);
    assert_eq!(sort_positions_desc(&[5, 9, 5, 1]), vec![1, 0, 2, 3]);
}
