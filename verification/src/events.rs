//! Change notification around the database: the server-sent event stream
//! the live server writes, the reader the command line watches it with,
//! the reporter that turns file-system signals into "the database changed",
//! and the live-server settings the command line keeps.
use vstd::prelude::*;
use crate::settings::{parse_in, parse_int};
use crate::text::{chars_of, dec, has_prefix, push_chars, push_str, slice_chars, str_eq, string_from_chars, trim, u64_dec};
use crate::notetext::trimmed;

verus! {

/// The response head that opens an event stream.
pub fn stream_head() -> (r: &'static str)
    ensures
        r@ == "HTTP/1.1 200 OK\r\nContent-Type: text/event-stream\r\nCache-Control: no-cache\r\nConnection: close\r\n\r\n"@,
{
    "HTTP/1.1 200 OK\r\nContent-Type: text/event-stream\r\nCache-Control: no-cache\r\nConnection: close\r\n\r\n"
}

/// One event frame: its name and the generation it carries.
pub open spec fn frame_spec(name: Seq<char>, generation: u64) -> Seq<char> {
    "event: "@ + name + "\r\ndata: {\"generation\":"@ + dec(generation as nat) + "}\r\n\r\n"@
}

/// The heartbeat comment frame.
pub open spec fn ping_spec() -> Seq<char> {
    ": ping\r\n\r\n"@
}

/// The frame of the event `name` at `generation`.
pub fn event_frame(name: &str, generation: u64) -> (r: String)
    ensures
        r@ == frame_spec(name@, generation),
{
    let mut v = chars_of("event: ");
    push_str(&mut v, name);
    push_str(&mut v, "\r\ndata: {\"generation\":");
    let d = u64_dec(generation);
    push_chars(&mut v, d.as_slice());
    push_str(&mut v, "}\r\n\r\n");
    string_from_chars(v.as_slice())
}

/// The hello frame a new stream starts with: the current generation, so a
/// client that later sees a jump larger than one knows it missed events.
pub fn connected_frame(generation: u64) -> (r: String)
    ensures
        r@ == frame_spec("connected"@, generation),
{
    event_frame("connected", generation)
}

/// One turn of the event stream after a wait for a change since `last`:
/// on a change the new generation and a `db-changed` frame for it, else
/// the same generation and a heartbeat.
pub fn stream_events(last: u64, changed: bool, generation: u64) -> (r: (u64, String))
    ensures
        changed ==> r.0 == generation && r.1@ == frame_spec("db-changed"@, generation),
        !changed ==> r.0 == last && r.1@ == ping_spec(),
{
    if changed {
        (generation, event_frame("db-changed", generation))
    } else {
        (last, String::from_str(": ping\r\n\r\n"))
    }
}

/// The body of a long-poll answer.
pub fn poll_events(changed: bool) -> (r: &'static str)
    ensures
        r@ == (if changed {
            "{\"changed\":true}"@
        } else {
            "{\"changed\":false}"@
        }),
{
    if changed {
        "{\"changed\":true}"
    } else {
        "{\"changed\":false}"
    }
}

/// A reader of an event stream, line by line: the name and data of the
/// frame read so far.
pub struct EventReader {
    pub event: String,
    pub data: String,
}

/// The reader's state after one line, and the event it completes: `event:`
/// and `data:` lines set the name and the data (trimmed); a blank line
/// after data ends the frame, which is reported when it is a `connected` or
/// `db-changed` event, and starts a new one; other lines (comments) change
/// nothing.
pub open spec fn read_line_spec(event: Seq<char>, data: Seq<char>, line: Seq<char>) -> (Seq<char>, Seq<char>, Option<(Seq<char>, Seq<char>)>) {
    if "event:"@.is_prefix_of(line) {
        (trim(line.subrange(6, line.len() as int)), data, None)
    } else if "data:"@.is_prefix_of(line) {
        (event, trim(line.subrange(5, line.len() as int)), None)
    } else if line.len() == 0 && data.len() > 0 {
        (seq![], seq![], if event == "connected"@ || event == "db-changed"@ {
            Some((event, data))
        } else {
            None
        })
    } else {
        (event, data, None)
    }
}

impl EventReader {
    /// A reader before any line.
    pub fn new() -> (r: EventReader)
        ensures
            r.event@ == Seq::<char>::empty(),
            r.data@ == Seq::<char>::empty(),
    {
        EventReader { event: String::new(), data: String::new() }
    }

    /// Reads one line of the stream; returns the event it completes.
    pub fn read_line(&mut self, line: &str) -> (r: Option<(String, String)>)
        ensures
            (final(self).event@, final(self).data@, match r {
                Some(p) => Some((p.0@, p.1@)),
                None => None,
            }) == read_line_spec(old(self).event@, old(self).data@, line@),
    {
        let c = chars_of(line);
        let ev = chars_of("event:");
        let da = chars_of("data:");
        proof {
            reveal_strlit("event:");
            reveal_strlit("data:");
        }
        if has_prefix(c.as_slice(), ev.as_slice()) {
            let rest = slice_chars(c.as_slice(), 6, c.len());
            self.event = string_from_chars(trimmed(rest.as_slice()).as_slice());
            None
        } else if has_prefix(c.as_slice(), da.as_slice()) {
            let rest = slice_chars(c.as_slice(), 5, c.len());
            self.data = string_from_chars(trimmed(rest.as_slice()).as_slice());
            None
        } else if c.len() == 0 && chars_of(self.data.as_str()).len() > 0 {
            let wanted = str_eq(self.event.as_str(), "connected") || str_eq(self.event.as_str(), "db-changed");
            let out = if wanted {
                Some((self.event.clone(), self.data.clone()))
            } else {
                None
            };
            self.event = String::new();
            self.data = String::new();
            out
        } else {
            None
        }
    }
}

/// The files whose changes mean the database changed.
pub open spec fn db_file_spec(name: Seq<char>) -> bool {
    name == "tack.db"@ || name == "tack.db-wal"@ || name == "tack.db-shm"@
}

/// Whether a changed file is the database or one of its companion files.
pub fn is_db_file(name: &str) -> (r: bool)
    ensures
        r == db_file_spec(name@),
{
    str_eq(name, "tack.db") || str_eq(name, "tack.db-wal") || str_eq(name, "tack.db-shm")
}

/// How long the reporter waits for quiet before it looks at the log, in ms.
pub open spec fn quiet_ms() -> u64 {
    2000
}

/// The reporter of database changes: signals (file events, a backstop
/// timer) start a quiet window; once the window has passed, the write-ahead
/// log is measured, and only growth of it counts as a change (a checkpoint
/// empties it, which is no new data).
pub struct DbReporter {
    pub stored_len: Option<u64>,
    pub quiet_since: Option<u64>,
}

impl DbReporter {
    /// A reporter that has seen nothing.
    pub fn new() -> (r: DbReporter)
        ensures
            r.stored_len is None,
            r.quiet_since is None,
    {
        DbReporter { stored_len: None, quiet_since: None }
    }

    /// A signal arrived at `now` (ms): the quiet window starts over.
    pub fn signal(&mut self, now: u64)
        ensures
            final(self).quiet_since == Some(now),
            final(self).stored_len == old(self).stored_len,
    {
        self.quiet_since = Some(now);
    }

    /// Whether the quiet window has passed at `now` (ms); when it has, the
    /// window closes and the log is to be measured.
    pub fn settled(&mut self, now: u64) -> (r: bool)
        ensures
            r == (old(self).quiet_since matches Some(s) && now >= s && now - s >= quiet_ms()),
            final(self).quiet_since == (if r {
                None
            } else {
                old(self).quiet_since
            }),
            final(self).stored_len == old(self).stored_len,
    {
        match self.quiet_since {
            Some(s) => {
                if now >= s && now - s >= 2000 {
                    self.quiet_since = None;
                    true
                } else {
                    false
                }
            },
            None => false,
        }
    }

    /// The measured length of the log (`None`: no log file): whether it
    /// grew since the last measurement, which is a change to report.
    pub fn measured(&mut self, len: Option<u64>) -> (r: bool)
        ensures
            r == (old(self).stored_len matches Some(prev) && len matches Some(cur) && cur > prev),
            final(self).stored_len == (if len is Some {
                len
            } else {
                old(self).stored_len
            }),
            final(self).quiet_since == old(self).quiet_since,
    {
        let grew = match (self.stored_len, len) {
            (Some(prev), Some(cur)) => cur > prev,
            _ => false,
        };
        if len.is_some() {
            self.stored_len = len;
        }
        grew
    }
}

/// The port the live server uses: the stored `livePort` when it reads as
/// a port number, else 17890.
pub open spec fn current_port_spec(stored: Option<Seq<char>>) -> u16 {
    match stored {
        Some(t) => match parse_in(t, 0, 65535) {
            Some(p) => p as u16,
            None => 17890,
        },
        None => 17890,
    }
}

/// The live server's port from the stored setting.
pub fn current_port(stored: Option<&str>) -> (r: u16)
    ensures
        r == current_port_spec(match stored {
            Some(t) => Some(t@),
            None => None,
        }),
{
    match stored {
        Some(t) => match parse_int(t, 0, 65535) {
            Some(p) => p as u16,
            None => 17890,
        },
        None => 17890,
    }
}

/// The text a port is stored as.
pub fn port_text(port: u16) -> (r: String)
    ensures
        r@ == dec(port as nat),
{
    string_from_chars(u64_dec(port as u64).as_slice())
}

/// Whether the live server is switched on: the stored `liveEnabled` is
/// `true` (it is off when the setting is missing).
pub fn live_enabled(stored: Option<&str>) -> (r: bool)
    ensures
        r == (stored matches Some(t) && t@ == "true"@),
{
    match stored {
        Some(t) => str_eq(t, "true"),
        None => false,
    }
}

/// Refuses a port the live server cannot be switched on with.
pub fn check_port(port: u16) -> (r: Result<(), String>)
    ensures
        r is Ok <==> 1024 <= port,
        r matches Err(e) ==> e@ == "port must be between 1024 and 65535"@,
{
    if port >= 1024 {
        Ok(())
    } else {
        Err(String::from_str("port must be between 1024 and 65535"))
    }
}

} // verus!
