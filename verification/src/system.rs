//! Bits of the app's desktop integration: which settings pane holds the
//! notification permission on which macOS release, the release number
//! itself, showing the main window once, and the import and reset of the
//! data file.
use vstd::prelude::*;
use crate::settings::{parse_in, parse_int};
use crate::notetext::trimmed;
use crate::text::{chars_of, split_chars, split_on, string_from_chars, trim, views};

verus! {

/// The major release in the text `sw_vers -productVersion` prints: the
/// number before the first `.` (after trimming), when it reads as a `u32`.
pub open spec fn macos_major_spec(text: Seq<char>) -> Option<u32> {
    match parse_in(split_on(trim(text), '.')[0], 0, u32::MAX as int) {
        Some(v) => Some(v as u32),
        None => None,
    }
}

/// The major macOS release from the version text.
pub fn macos_major(text: &str) -> (r: Option<u32>)
    ensures
        r == macos_major_spec(text@),
{
    let c = chars_of(text);
    let t = trimmed(c.as_slice());
    let parts = split_chars(t.as_slice(), '.');
    proof {
        crate::text::lemma_split_on_len(t@, '.');
    }
    let first = string_from_chars(parts[0].as_slice());
    assert(views(parts@)[0] == parts@[0]@);
    match parse_int(first.as_str(), 0, 4294967295) {
        Some(v) => Some(v as u32),
        None => None,
    }
}

/// The settings pages that hold the notification permission, to be tried
/// in order: macOS 15 renamed the pane, 13 and 14 know the extension id,
/// older releases (or an unknown one) use the legacy preference pane.
pub open spec fn notification_panes_spec(major: Option<u32>) -> Seq<Seq<char>> {
    match major {
        Some(v) => if v >= 15 {
            seq![
                "x-apple.systempreferences:com.apple.Notifications"@,
                "x-apple.systempreferences:com.apple.Notifications-Settings.extension"@,
            ]
        } else if v >= 13 {
            seq![
                "x-apple.systempreferences:com.apple.Notifications-Settings.extension"@,
                "x-apple.systempreferences:com.apple.Notifications"@,
            ]
        } else {
            seq![
                "x-apple.systempreferences:com.apple.preference.notifications"@,
                "x-apple.systempreferences:com.apple.Notifications-Settings.extension"@,
            ]
        },
        None => seq![
            "x-apple.systempreferences:com.apple.preference.notifications"@,
            "x-apple.systempreferences:com.apple.Notifications-Settings.extension"@,
        ],
    }
}

/// The notification settings panes to open, in order.
pub fn notification_panes(major: Option<u32>) -> (r: Vec<&'static str>)
    ensures
        r@.map_values(|p: &'static str| p@) == notification_panes_spec(major),
{
    let modern = "x-apple.systempreferences:com.apple.Notifications";
    let ext = "x-apple.systempreferences:com.apple.Notifications-Settings.extension";
    let legacy = "x-apple.systempreferences:com.apple.preference.notifications";
    let r = match major {
        Some(v) => if v >= 15 {
            vec![modern, ext]
        } else if v >= 13 {
            vec![ext, modern]
        } else {
            vec![legacy, ext]
        },
        None => vec![legacy, ext],
    };
    assert(r@.map_values(|p: &'static str| p@) =~= notification_panes_spec(major));
    r
}

/// Shows the main window once: on the first paint, whichever of the
/// signals (the page, the load hook, the fallback timer) comes first.
pub struct RevealOnce {
    pub revealed: bool,
}

impl RevealOnce {
    /// Nothing shown yet.
    pub fn new() -> (r: RevealOnce)
        ensures
            !r.revealed,
    {
        RevealOnce { revealed: false }
    }

    /// Whether this signal is the one that shows the window.
    pub fn claim(&mut self) -> (r: bool)
        ensures
            r == !old(self).revealed,
            final(self).revealed,
    {
        let first = !self.revealed;
        self.revealed = true;
        first
    }
}

/// The value a record of an exported data file holds under a key.
pub enum Cell {
    /// The key is not there.
    Missing,
    /// A JSON string.
    Text(String),
    /// A JSON number that is an `i64`.
    Int(i64),
    /// Any other JSON value.
    Other,
}

/// A text column: the string, else the empty text.
pub fn cell_text(c: &Cell) -> (r: String)
    ensures
        r@ == match c {
            Cell::Text(s) => s@,
            _ => Seq::<char>::empty(),
        },
{
    match c {
        Cell::Text(s) => s.clone(),
        _ => String::new(),
    }
}

/// An optional text column: the string, else none.
pub fn cell_opt_text(c: &Cell) -> (r: Option<String>)
    ensures
        match c {
            Cell::Text(s) => r matches Some(t) && t@ == s@,
            _ => r is None,
        },
{
    match c {
        Cell::Text(s) => Some(s.clone()),
        _ => None,
    }
}

/// A number column: the number cut to 32 bits, else 0.
pub fn cell_int(c: &Cell) -> (r: i32)
    ensures
        r == match c {
            Cell::Int(n) => *n as i32,
            _ => 0,
        },
{
    match c {
        Cell::Int(n) => *n as i32,
        _ => 0,
    }
}

/// The source of an imported activity entry: the recorded one, else `gui`
/// (entries from before sources were recorded came from the app).
pub fn activity_source(c: &Cell) -> (r: String)
    ensures
        r@ == match c {
            Cell::Text(s) => s@,
            _ => "gui"@,
        },
{
    match c {
        Cell::Text(s) => s.clone(),
        _ => String::from_str("gui"),
    }
}

/// The records an import or export reports: projects, tasks, labels,
/// subtasks, attachments and activity entries (label assignments are not
/// counted).
pub fn record_total(projects: usize, tasks: usize, labels: usize, subtasks: usize, attachments: usize, activity: usize) -> (r: usize)
    requires
        projects + tasks + labels + subtasks + attachments + activity <= usize::MAX,
    ensures
        r == projects + tasks + labels + subtasks + attachments + activity,
{
    projects + tasks + labels + subtasks + attachments + activity
}

/// The tables a reset empties, in an order that respects their references.
pub fn reset_tables() -> (r: Vec<&'static str>)
    ensures
        r@.map_values(|t: &'static str| t@) == seq![
            "activity_log"@,
            "task_labels"@,
            "task_attachments"@,
            "subtasks"@,
            "tasks"@,
            "labels"@,
            "projects"@,
        ],
{
    let r = vec!["activity_log", "task_labels", "task_attachments", "subtasks", "tasks", "labels", "projects"];
    assert(r@.map_values(|t: &'static str| t@) =~= seq![
        "activity_log"@,
        "task_labels"@,
        "task_attachments"@,
        "subtasks"@,
        "tasks"@,
        "labels"@,
        "projects"@,
    ]);
    r
}

} // verus!
