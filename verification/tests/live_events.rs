use tack::events::{
    check_port, connected_frame, current_port, event_frame, is_db_file, live_enabled, poll_events, port_text,
    stream_events, stream_head, DbReporter, EventReader,
};
use tack::hub::LiveHub;

#[test]
fn a_change_is_seen_once() {
    let mut hub = LiveHub::new();
    assert_eq!(hub.generation(), 0);
    assert!(!hub.changed_since(0));
    hub.notify();
    assert_eq!(hub.generation(), 1);
    assert!(hub.changed_since(0));
    assert!(!hub.changed_since(1));
}

#[test]
fn presence_counts_connections_per_client() {
    let mut hub = LiveHub::new();
    hub.presence_join("a", "Ann", "browser", 10);
    hub.presence_join("b", "Bob", "cli", 20);
    hub.presence_join("a", "", "agent", 30);
    let snap = hub.presence_snapshot();
    assert_eq!(snap.len(), 2);
    assert_eq!(snap[0].id, "a");
    assert_eq!(snap[0].name, "Ann");
    assert_eq!(snap[0].kind, "agent");
    assert_eq!(snap[0].connections, 2);
    assert_eq!(snap[0].joined_ms, 10);
    hub.presence_leave("a");
    assert_eq!(hub.presence_snapshot()[0].connections, 1);
    hub.presence_leave("a");
    let snap = hub.presence_snapshot();
    assert_eq!(snap.len(), 1);
    assert_eq!(snap[0].id, "b");
    hub.presence_leave("nobody");
    assert_eq!(hub.presence_snapshot().len(), 1);
}

#[test]
fn join_then_leave_restores_presence() {
    let mut hub = LiveHub::new();
    hub.presence_join("x", "X", "cli", 5);
    let before: Vec<String> = hub.presence_snapshot().iter().map(|c| c.id.clone()).collect();
    hub.presence_join("y", "Y", "cli", 6);
    hub.presence_leave("y");
    let after: Vec<String> = hub.presence_snapshot().iter().map(|c| c.id.clone()).collect();
    assert_eq!(before, after);
}

#[test]
fn stream_frames() {
    assert!(stream_head().starts_with("HTTP/1.1 200 OK\r\nContent-Type: text/event-stream\r\n"));
    assert_eq!(connected_frame(0), "event: connected\r\ndata: {\"generation\":0}\r\n\r\n");
    assert_eq!(event_frame("db-changed", 12), "event: db-changed\r\ndata: {\"generation\":12}\r\n\r\n");
    let (g, f) = stream_events(3, true, 4);
    assert_eq!(g, 4);
    assert_eq!(f, "event: db-changed\r\ndata: {\"generation\":4}\r\n\r\n");
    let (g, f) = stream_events(3, false, 4);
    assert_eq!(g, 3);
    assert_eq!(f, ": ping\r\n\r\n");
    assert_eq!(poll_events(true), "{\"changed\":true}");
    assert_eq!(poll_events(false), "{\"changed\":false}");
}

#[test]
fn the_reader_reads_what_the_stream_writes() {
    let mut r = EventReader::new();
    let frame = connected_frame(7) + &event_frame("db-changed", 8);
    let mut seen = Vec::new();
    for line in frame.split("\r\n") {
        if let Some(ev) = r.read_line(line) {
            seen.push(ev);
        }
    }
    assert_eq!(
        seen,
        vec![
            ("connected".to_string(), "{\"generation\":7}".to_string()),
            ("db-changed".to_string(), "{\"generation\":8}".to_string())
        ]
    );
    assert!(r.read_line(": ping").is_none());
    assert!(r.read_line("").is_none());
    r.read_line("event: other");
    r.read_line("data: 1");
    assert!(r.read_line("").is_none());
}

#[test]
fn database_files() {
    assert!(is_db_file("tack.db"));
    assert!(is_db_file("tack.db-wal"));
    assert!(is_db_file("tack.db-shm"));
    assert!(!is_db_file("tack.db-journal"));
}

#[test]
fn reporter_waits_for_quiet_and_growth() {
    let mut r = DbReporter::new();
    assert!(!r.settled(10_000));
    r.signal(1000);
    assert!(!r.settled(2999));
    assert!(r.settled(3000));
    assert!(!r.settled(3001));
    // the first measurement only records the length
    assert!(!r.measured(Some(100)));
    assert!(r.measured(Some(150)));
    // a checkpoint empties the log: no change
    assert!(!r.measured(Some(0)));
    assert!(!r.measured(None));
    assert_eq!(r.stored_len, Some(0));
    assert!(r.measured(Some(1)));
}

#[test]
fn live_settings() {
    assert_eq!(current_port(None), 17890);
    assert_eq!(current_port(Some("8080")), 8080);
    assert_eq!(current_port(Some("99999")), 17890);
    assert_eq!(current_port(Some("abc")), 17890);
    assert_eq!(current_port(Some(&port_text(4321))), 4321);
    assert_eq!(port_text(65535), "65535");
    assert!(live_enabled(Some("true")));
    assert!(!live_enabled(Some("yes")));
    assert!(!live_enabled(None));
    assert!(check_port(1024).is_ok());
    assert!(check_port(80).is_err());
}
