//! Changing tasks from the command line: reading a reminder time, applying
//! an edit to a task's fields and the activity entries it leaves, the SQL
//! of the bulk commands, and how attachments are shown.
use vstd::prelude::*;
use chrono::TimeZone;
use crate::backup::naive_rfc3339;
use crate::tasks::{priority_label, priority_label_spec, status_label, status_label_spec};
use crate::text::{
    chars_of, dec, dec_int, has_prefix, i64_dec, join, push_chars, push_str, string_from_chars, str_eq, trim,
    u64_dec, views,
};
use crate::notetext::trimmed;
use crate::table::join_chars;

verus! {

/// Whether `c` is an ASCII digit.
pub open spec fn ascii_digit(c: char) -> bool {
    '0' <= c <= '9'
}

/// The ending every UTC instant written with milliseconds and a `Z` has:
/// `:SS.mmmZ`, seconds and milliseconds in digits.
pub open spec fn utc_millis_text(t: Seq<char>) -> bool {
    let n = t.len() as int;
    &&& n >= 8
    &&& t[n - 8] == ':'
    &&& ascii_digit(t[n - 7])
    &&& ascii_digit(t[n - 6])
    &&& t[n - 5] == '.'
    &&& ascii_digit(t[n - 4])
    &&& ascii_digit(t[n - 3])
    &&& ascii_digit(t[n - 2])
    &&& t[n - 1] == 'Z'
}

/// An RFC 3339 instant rewritten in UTC with milliseconds and a `Z`.
pub uninterp spec fn rfc3339_utc(text: Seq<char>) -> Option<Seq<char>>;

/// `chrono::DateTime::parse_from_rfc3339`, then
/// `with_timezone(&Utc).to_rfc3339_opts(SecondsFormat::Millis, true)`.
/// What it claims: the result is `rfc3339_utc` of the text, and, being
/// written in UTC with milliseconds and `use_z`, it ends in `:SS.mmmZ`.
#[verifier::external_body]
fn parse_rfc3339_utc(text: &str) -> (r: Option<String>)
    ensures
        match r {
            Some(t) => rfc3339_utc(text@) == Some(t@) && utc_millis_text(t@),
            None => rfc3339_utc(text@) is None,
        },
{
    match chrono::DateTime::parse_from_rfc3339(text) {
        Ok(dt) => Some(dt.with_timezone(&chrono::Utc).to_rfc3339_opts(chrono::SecondsFormat::Millis, true)),
        Err(_) => None,
    }
}

/// `chrono::NaiveDateTime::parse_from_str`, read as a local time with
/// `Local.from_local_datetime` (kept only when that time exists once), then
/// written in UTC as above. The result depends on the machine's time zone,
/// so no name is given to it; what it claims is that a result comes only
/// when the text reads in the format, and that it is a UTC instant ending in
/// `:SS.mmmZ`. Which instant it is, is left unsaid.
#[verifier::external_body]
fn parse_local_utc(text: &str, fmt: &str) -> (r: Option<String>)
    ensures
        r is Some ==> naive_rfc3339(text@, fmt@) is Some,
        r matches Some(t) ==> utc_millis_text(t@),
{
    match chrono::NaiveDateTime::parse_from_str(text, fmt) {
        Ok(naive) => match chrono::Local.from_local_datetime(&naive) {
            chrono::LocalResult::Single(dt) => Some(dt.with_timezone(&chrono::Utc).to_rfc3339_opts(chrono::SecondsFormat::Millis, true)),
            _ => None,
        },
        Err(_) => None,
    }
}

/// The error for a reminder that does not read.
pub open spec fn reminder_error(value: Seq<char>) -> Seq<char> {
    "Invalid reminder '"@ + value + "': use ISO 8601 like 2026-09-14T09:00 or 2026-09-14T09:00:00Z"@
}

/// Reads a reminder time: blank clears it; an RFC 3339 instant, or a local
/// `YYYY-MM-DDTHH:MM[:SS]`, is stored in UTC (so the app's string
/// comparison against the current time works): every time it gives is
/// written in UTC with milliseconds, ending in `:SS.mmmZ`.
pub fn parse_reminder(value: &str) -> (r: Result<Option<String>, String>)
    ensures
        r matches Ok(Some(t)) ==> utc_millis_text(t@),
        trim(value@).len() == 0 ==> r == Ok::<Option<String>, String>(None),
        trim(value@).len() > 0 && rfc3339_utc(trim(value@)) is Some ==> (r matches Ok(Some(t)) && Some(t@) == rfc3339_utc(trim(value@))),
        trim(value@).len() > 0 && rfc3339_utc(trim(value@)) is None ==> match r {
            Ok(Some(_)) => naive_rfc3339(trim(value@), "%Y-%m-%dT%H:%M"@) is Some
                || naive_rfc3339(trim(value@), "%Y-%m-%dT%H:%M:%S"@) is Some,
            Ok(None) => false,
            Err(e) => e@ == reminder_error(value@),
        },
        naive_rfc3339(trim(value@), "%Y-%m-%dT%H:%M"@) is None && naive_rfc3339(trim(value@), "%Y-%m-%dT%H:%M:%S"@) is None
            && rfc3339_utc(trim(value@)) is None && trim(value@).len() > 0 ==> r is Err,
{
    let c = chars_of(value);
    let t = trimmed(c.as_slice());
    if t.len() == 0 {
        return Ok(None);
    }
    let v = string_from_chars(t.as_slice());
    if let Some(s) = parse_rfc3339_utc(v.as_str()) {
        return Ok(Some(s));
    }
    if let Some(s) = parse_local_utc(v.as_str(), "%Y-%m-%dT%H:%M") {
        return Ok(Some(s));
    }
    if let Some(s) = parse_local_utc(v.as_str(), "%Y-%m-%dT%H:%M:%S") {
        return Ok(Some(s));
    }
    let mut m = chars_of("Invalid reminder '");
    push_str(&mut m, value);
    push_str(&mut m, "': use ISO 8601 like 2026-09-14T09:00 or 2026-09-14T09:00:00Z");
    Err(string_from_chars(m.as_slice()))
}

/// The fields of a task an edit can change.
pub struct TaskFields {
    pub title: String,
    pub description: Option<String>,
    pub status: String,
    pub priority: i32,
    pub due_date: Option<String>,
    pub end_date: Option<String>,
    pub reminder_at: Option<String>,
}

/// An edit: `None` keeps a field; an empty date clears it; the reminder is
/// already read (`Some(None)` clears it).
pub struct TaskEdit {
    pub title: Option<String>,
    pub description: Option<String>,
    pub status: Option<String>,
    pub priority: Option<i32>,
    pub due_date: Option<String>,
    pub end_date: Option<String>,
    pub reminder: Option<Option<String>>,
}

/// The view of an optional string.
pub open spec fn ov(v: Option<String>) -> Option<Seq<char>> {
    match v {
        Some(s) => Some(s@),
        None => None,
    }
}

/// A task's fields as values.
pub struct FieldsView {
    pub title: Seq<char>,
    pub description: Option<Seq<char>>,
    pub status: Seq<char>,
    pub priority: i32,
    pub due_date: Option<Seq<char>>,
    pub end_date: Option<Seq<char>>,
    pub reminder_at: Option<Seq<char>>,
}

impl TaskFields {
    pub open spec fn view(&self) -> FieldsView {
        FieldsView {
            title: self.title@,
            description: ov(self.description),
            status: self.status@,
            priority: self.priority,
            due_date: ov(self.due_date),
            end_date: ov(self.end_date),
            reminder_at: ov(self.reminder_at),
        }
    }
}

/// A date field after an edit: kept when not given, cleared when given
/// empty, else set.
pub open spec fn edit_date(cur: Option<Seq<char>>, given: Option<Seq<char>>) -> Option<Seq<char>> {
    match given {
        None => cur,
        Some(d) => if d.len() == 0 {
            None
        } else {
            Some(d)
        },
    }
}

/// A task's fields after an edit.
pub open spec fn edited(cur: FieldsView, e: TaskEdit) -> FieldsView {
    FieldsView {
        title: match e.title {
            Some(t) => t@,
            None => cur.title,
        },
        description: match e.description {
            Some(d) => Some(d@),
            None => cur.description,
        },
        status: match e.status {
            Some(s) => s@,
            None => cur.status,
        },
        priority: match e.priority {
            Some(p) => p,
            None => cur.priority,
        },
        due_date: edit_date(cur.due_date, ov(e.due_date)),
        end_date: edit_date(cur.end_date, ov(e.end_date)),
        reminder_at: match e.reminder {
            Some(r) => ov(r),
            None => cur.reminder_at,
        },
    }
}

fn copy_opt(v: &Option<String>) -> (r: Option<String>)
    ensures
        ov(r) == ov(*v),
{
    match v {
        Some(s) => Some(s.clone()),
        None => None,
    }
}

fn edit_date_exec(cur: &Option<String>, given: &Option<String>) -> (r: Option<String>)
    ensures
        ov(r) == edit_date(ov(*cur), ov(*given)),
{
    match given {
        None => copy_opt(cur),
        Some(d) => if chars_of(d.as_str()).len() == 0 {
            None
        } else {
            Some(d.clone())
        },
    }
}

/// Applies an edit to a task's fields.
pub fn apply_edit(cur: &TaskFields, e: &TaskEdit) -> (r: TaskFields)
    ensures
        r.view() == edited(cur.view(), *e),
{
    TaskFields {
        title: match &e.title {
            Some(t) => t.clone(),
            None => cur.title.clone(),
        },
        description: match &e.description {
            Some(d) => Some(d.clone()),
            None => copy_opt(&cur.description),
        },
        status: match &e.status {
            Some(s) => s.clone(),
            None => cur.status.clone(),
        },
        priority: match e.priority {
            Some(p) => p,
            None => cur.priority,
        },
        due_date: edit_date_exec(&cur.due_date, &e.due_date),
        end_date: edit_date_exec(&cur.end_date, &e.end_date),
        reminder_at: match &e.reminder {
            Some(r) => copy_opt(r),
            None => copy_opt(&cur.reminder_at),
        },
    }
}

/// One entry of a task's activity log.
pub struct Activity {
    pub action: String,
    pub field: Option<String>,
    pub old_value: Option<String>,
    pub new_value: Option<String>,
}

/// An activity entry as values.
pub open spec fn activity_view(a: Activity) -> (Seq<char>, Option<Seq<char>>, Option<Seq<char>>, Option<Seq<char>>) {
    (a.action@, ov(a.field), ov(a.old_value), ov(a.new_value))
}

/// The entries an edit leaves, in this order: a changed status and a
/// changed priority (by their labels), a changed title, a changed reminder.
pub open spec fn edit_log(cur: FieldsView, next: FieldsView) -> Seq<(Seq<char>, Option<Seq<char>>, Option<Seq<char>>, Option<Seq<char>>)> {
    let s: Seq<(Seq<char>, Option<Seq<char>>, Option<Seq<char>>, Option<Seq<char>>)> = if next.status != cur.status {
        seq![("status_changed"@, Some("status"@), Some(status_label_spec(cur.status)), Some(status_label_spec(next.status)))]
    } else {
        seq![]
    };
    let p: Seq<(Seq<char>, Option<Seq<char>>, Option<Seq<char>>, Option<Seq<char>>)> = if next.priority != cur.priority {
        seq![("priority_changed"@, Some("priority"@), Some(priority_label_spec(cur.priority as int)), Some(priority_label_spec(next.priority as int)))]
    } else {
        seq![]
    };
    let t: Seq<(Seq<char>, Option<Seq<char>>, Option<Seq<char>>, Option<Seq<char>>)> = if next.title != cur.title {
        seq![("title_changed"@, Some("title"@), Some(cur.title), Some(next.title))]
    } else {
        seq![]
    };
    let r: Seq<(Seq<char>, Option<Seq<char>>, Option<Seq<char>>, Option<Seq<char>>)> = if next.reminder_at != cur.reminder_at {
        seq![("reminder_changed"@, Some("reminder_at"@), cur.reminder_at, next.reminder_at)]
    } else {
        seq![]
    };
    s + p + t + r
}

fn opt_eq(a: &Option<String>, b: &Option<String>) -> (r: bool)
    ensures
        r == (ov(*a) == ov(*b)),
{
    match (a, b) {
        (Some(x), Some(y)) => str_eq(x.as_str(), y.as_str()),
        (None, None) => true,
        _ => false,
    }
}

fn text(s: &str) -> (r: String)
    ensures
        r@ == s@,
{
    String::from_str(s)
}

/// The activity entries of an edit from `cur` to `next`.
pub fn edit_activity(cur: &TaskFields, next: &TaskFields) -> (r: Vec<Activity>)
    ensures
        r@.map_values(|a: Activity| activity_view(a)) == edit_log(cur.view(), next.view()),
{
    let mut out: Vec<Activity> = Vec::new();
    let ghost c = cur.view();
    let ghost n = next.view();
    if !str_eq(next.status.as_str(), cur.status.as_str()) {
        out.push(Activity {
            action: text("status_changed"),
            field: Some(text("status")),
            old_value: Some(text(status_label(cur.status.as_str()))),
            new_value: Some(text(status_label(next.status.as_str()))),
        });
    }
    let ghost after_s = out@.map_values(|a: Activity| activity_view(a));
    if next.priority != cur.priority {
        out.push(Activity {
            action: text("priority_changed"),
            field: Some(text("priority")),
            old_value: Some(text(priority_label(cur.priority))),
            new_value: Some(text(priority_label(next.priority))),
        });
    }
    let ghost after_p = out@.map_values(|a: Activity| activity_view(a));
    if !str_eq(next.title.as_str(), cur.title.as_str()) {
        out.push(Activity {
            action: text("title_changed"),
            field: Some(text("title")),
            old_value: Some(cur.title.clone()),
            new_value: Some(next.title.clone()),
        });
    }
    let ghost after_t = out@.map_values(|a: Activity| activity_view(a));
    if !opt_eq(&next.reminder_at, &cur.reminder_at) {
        out.push(Activity {
            action: text("reminder_changed"),
            field: Some(text("reminder_at")),
            old_value: copy_opt(&cur.reminder_at),
            new_value: copy_opt(&next.reminder_at),
        });
    }
    proof {
        let log = edit_log(c, n);
        let v = out@.map_values(|a: Activity| activity_view(a));
        assert(v =~= log);
    }
    out
}

/// Refuses a bulk command without task ids.
pub fn require_ids(ids: &[String]) -> (r: Result<(), String>)
    ensures
        r is Ok <==> ids@.len() > 0,
        r matches Err(e) ==> e@ == "No task IDs provided"@,
{
    if ids.len() == 0 {
        Err(text("No task IDs provided"))
    } else {
        Ok(())
    }
}

/// `?start, ?start+1, ...`: `n` numbered placeholders.
pub open spec fn placeholders(n: nat, start: nat) -> Seq<char> {
    join(Seq::new(n, |i: int| "?"@ + dec((start + i) as nat)), ", "@)
}

/// `n` numbered placeholders from `start` on, comma-separated.
pub fn numbered_placeholders(n: usize, start: u64) -> (r: String)
    requires
        start + n <= u64::MAX,
    ensures
        r@ == placeholders(n as nat, start as nat),
{
    let mut parts: Vec<Vec<char>> = Vec::new();
    let mut i: usize = 0;
    while i < n
        invariant
            i <= n,
            start + n <= u64::MAX,
            views(parts@) =~= Seq::new(i as nat, |j: int| "?"@ + dec((start + j) as nat)),
        decreases n - i,
    {
        let mut p = chars_of("?");
        let d = u64_dec(start + i as u64);
        push_chars(&mut p, d.as_slice());
        let ghost before = views(parts@);
        parts.push(p);
        assert(views(parts@) =~= before.push("?"@ + dec((start + i) as nat)));
        i = i + 1;
    }
    string_from_chars(join_chars(&parts, ", ").as_slice())
}

/// The filters of the task list: which conditions the command line gives.
pub struct ListFilter {
    pub project: bool,
    pub status: bool,
    pub priority: bool,
    pub pinned: bool,
    pub since: bool,
}

/// `clause` when `on`, else nothing.
pub open spec fn clause_if(on: bool, clause: Seq<char>) -> Seq<char> {
    if on {
        clause
    } else {
        seq![]
    }
}

/// The statement of the task list: the tasks not in the trash with their
/// project's prefix, narrowed by each filter given (each of project,
/// status, priority and `since` binds one value, in that order), pinned
/// first, then the most recently changed.
pub open spec fn task_list_sql_spec(f: ListFilter) -> Seq<char> {
    "SELECT t.id, t.number, t.title, t.status, t.priority, t.due_date, t.end_date, t.pinned, p.prefix, t.updated_at, t.created_at FROM tasks t LEFT JOIN projects p ON t.project_id = p.id WHERE t.deleted_at IS NULL"@
        + clause_if(f.project, " AND t.project_id = ?"@) + clause_if(f.status, " AND t.status = ?"@) + clause_if(
        f.priority,
        " AND t.priority = ?"@,
    ) + clause_if(f.pinned, " AND t.pinned = 1"@) + clause_if(f.since, " AND t.updated_at > ?"@)
        + " ORDER BY t.pinned DESC, t.updated_at DESC"@
}

fn push_if(v: &mut Vec<char>, on: bool, clause: &str)
    ensures
        final(v)@ == old(v)@ + clause_if(on, clause@),
{
    if on {
        push_str(v, clause);
    } else {
        assert(old(v)@ + clause_if(on, clause@) =~= old(v)@);
    }
}

/// The statement of the task list for the given filters.
pub fn task_list_sql(f: ListFilter) -> (r: String)
    ensures
        r@ == task_list_sql_spec(f),
{
    let mut v = chars_of(
        "SELECT t.id, t.number, t.title, t.status, t.priority, t.due_date, t.end_date, t.pinned, p.prefix, t.updated_at, t.created_at FROM tasks t LEFT JOIN projects p ON t.project_id = p.id WHERE t.deleted_at IS NULL",
    );
    push_if(&mut v, f.project, " AND t.project_id = ?");
    push_if(&mut v, f.status, " AND t.status = ?");
    push_if(&mut v, f.priority, " AND t.priority = ?");
    push_if(&mut v, f.pinned, " AND t.pinned = 1");
    push_if(&mut v, f.since, " AND t.updated_at > ?");
    push_str(&mut v, " ORDER BY t.pinned DESC, t.updated_at DESC");
    string_from_chars(v.as_slice())
}

/// The bulk commands.
#[derive(PartialEq, Eq, Structural, Clone, Copy)]
pub enum BulkKind {
    Trash,
    Status,
    Priority,
    Move,
    Unlabel,
}

/// The statement of a bulk command over `n` tasks: two bound values, then
/// the ids (one value, then the ids, to take a label off).
pub open spec fn bulk_sql_spec(kind: BulkKind, n: nat) -> Seq<char> {
    match kind {
        BulkKind::Trash => "UPDATE tasks SET deleted_at = ?1, updated_at = ?2 WHERE id IN ("@ + placeholders(n, 3)
            + ") AND deleted_at IS NULL"@,
        BulkKind::Status => "UPDATE tasks SET status = ?1, updated_at = ?2 WHERE id IN ("@ + placeholders(n, 3) + ")"@,
        BulkKind::Priority => "UPDATE tasks SET priority = ?1, updated_at = ?2 WHERE id IN ("@ + placeholders(n, 3)
            + ")"@,
        BulkKind::Move => "UPDATE tasks SET project_id = ?1, updated_at = ?2 WHERE id IN ("@ + placeholders(n, 3)
            + ")"@,
        BulkKind::Unlabel => "DELETE FROM task_labels WHERE label_id = ?1 AND task_id IN ("@ + placeholders(n, 2)
            + ")"@,
    }
}

/// The statement of a bulk command over `n` tasks.
pub fn bulk_sql(kind: BulkKind, n: usize) -> (r: String)
    requires
        n + 3 <= u64::MAX,
    ensures
        r@ == bulk_sql_spec(kind, n as nat),
{
    let (head, start, tail): (&str, u64, &str) = match kind {
        BulkKind::Trash => ("UPDATE tasks SET deleted_at = ?1, updated_at = ?2 WHERE id IN (", 3, ") AND deleted_at IS NULL"),
        BulkKind::Status => ("UPDATE tasks SET status = ?1, updated_at = ?2 WHERE id IN (", 3, ")"),
        BulkKind::Priority => ("UPDATE tasks SET priority = ?1, updated_at = ?2 WHERE id IN (", 3, ")"),
        BulkKind::Move => ("UPDATE tasks SET project_id = ?1, updated_at = ?2 WHERE id IN (", 3, ")"),
        BulkKind::Unlabel => ("DELETE FROM task_labels WHERE label_id = ?1 AND task_id IN (", 2, ")"),
    };
    let mut v = chars_of(head);
    let p = numbered_placeholders(n, start);
    push_str(&mut v, p.as_str());
    push_str(&mut v, tail);
    string_from_chars(v.as_slice())
}

/// The activity entry a bulk label change leaves on each task: the label's
/// name as the old value when it is taken off, as the new one when added.
pub fn label_activity(label_name: &str, remove: bool) -> (r: Activity)
    ensures
        activity_view(r) == (if remove {
            ("label_removed"@, None::<Seq<char>>, Some(label_name@), None::<Seq<char>>)
        } else {
            ("label_added"@, None::<Seq<char>>, None::<Seq<char>>, Some(label_name@))
        }),
{
    if remove {
        Activity { action: text("label_removed"), field: None, old_value: Some(text(label_name)), new_value: None }
    } else {
        Activity { action: text("label_added"), field: None, old_value: None, new_value: Some(text(label_name)) }
    }
}

/// Where an attachment lives as shown to users: files added from the
/// command line are stored in the database as `data:` URLs.
pub open spec fn attachment_location_spec(path: Seq<char>) -> Seq<char> {
    if "data:"@.is_prefix_of(path) {
        "(stored in database)"@
    } else {
        path
    }
}

/// Where an attachment lives, as shown to users.
pub fn attachment_location(path: &str) -> (r: String)
    ensures
        r@ == attachment_location_spec(path@),
{
    let c = chars_of(path);
    let p = chars_of("data:");
    if has_prefix(c.as_slice(), p.as_slice()) {
        text("(stored in database)")
    } else {
        text(path)
    }
}

/// The size of an attachment under a mebibyte, in bytes or whole
/// kibibytes; `None` from a mebibyte on, which is shown with one decimal.
pub open spec fn small_size_spec(n: int) -> Option<Seq<char>> {
    if n < 1024 {
        Some(dec_int(n) + " B"@)
    } else if n < 1024 * 1024 {
        Some(dec_int(n / 1024) + " KB"@)
    } else {
        None
    }
}

/// The size text of an attachment under a mebibyte.
pub fn small_size(n: i64) -> (r: Option<String>)
    ensures
        match r {
            Some(t) => small_size_spec(n as int) == Some(t@),
            None => small_size_spec(n as int) is None,
        },
{
    if n < 1024 {
        let mut v = i64_dec(n);
        push_str(&mut v, " B");
        Some(string_from_chars(v.as_slice()))
    } else if n < 1024 * 1024 {
        let mut v = i64_dec(n / 1024);
        push_str(&mut v, " KB");
        Some(string_from_chars(v.as_slice()))
    } else {
        None
    }
}

} // verus!

verus! {

/// The colors a label may have.
pub open spec fn label_colors() -> Seq<Seq<char>> {
    seq!["gray"@, "blue"@, "green"@, "amber"@, "red"@, "purple"@, "pink"@, "teal"@, "orange"@, "indigo"@]
}

/// Refuses a label color the app does not offer.
pub fn check_label_color(color: &str) -> (r: Result<(), String>)
    ensures
        r is Ok <==> label_colors().contains(color@),
        r matches Err(e) ==> e@ == "Invalid color '"@ + color@
            + "'. Valid: gray, blue, green, amber, red, purple, pink, teal, orange, indigo"@,
{
    let colors = vec!["gray", "blue", "green", "amber", "red", "purple", "pink", "teal", "orange", "indigo"];
    assert(colors@.map_values(|c: &str| c@) =~= label_colors());
    let mut i: usize = 0;
    while i < colors.len()
        invariant
            i <= colors@.len(),
            colors@.map_values(|c: &str| c@) == label_colors(),
            forall|k: int| 0 <= k < i ==> label_colors()[k] != color@,
        decreases colors@.len() - i,
    {
        if str_eq(colors[i], color) {
            assert(label_colors()[i as int] == color@);
            return Ok(());
        }
        i = i + 1;
    }
    let mut m = chars_of("Invalid color '");
    push_str(&mut m, color);
    push_str(&mut m, "'. Valid: gray, blue, green, amber, red, purple, pink, teal, orange, indigo");
    Err(string_from_chars(m.as_slice()))
}

/// The statement of a label edit: the columns given, numbered in that
/// order, the id last; `None` when nothing is to change.
pub open spec fn label_update_spec(name: bool, color: bool) -> Option<Seq<char>> {
    if name && color {
        Some("UPDATE labels SET name = ?1, color = ?2 WHERE id = ?"@)
    } else if name {
        Some("UPDATE labels SET name = ?1 WHERE id = ?"@)
    } else if color {
        Some("UPDATE labels SET color = ?1 WHERE id = ?"@)
    } else {
        None
    }
}

/// The statement of a label edit.
pub fn label_update_sql(name: bool, color: bool) -> (r: Option<&'static str>)
    ensures
        match r {
            Some(s) => label_update_spec(name, color) == Some(s@),
            None => label_update_spec(name, color) is None,
        },
{
    if name && color {
        Some("UPDATE labels SET name = ?1, color = ?2 WHERE id = ?")
    } else if name {
        Some("UPDATE labels SET name = ?1 WHERE id = ?")
    } else if color {
        Some("UPDATE labels SET color = ?1 WHERE id = ?")
    } else {
        None
    }
}

/// A subtask's completion after a toggle, and the activity it records.
pub fn toggle_subtask(completed: i32) -> (r: (i32, &'static str))
    ensures
        completed == 1 ==> r.0 == 0 && r.1@ == "subtask_uncompleted"@,
        completed != 1 ==> r.0 == 1 && r.1@ == "subtask_completed"@,
{
    if completed == 1 {
        (0, "subtask_uncompleted")
    } else {
        (1, "subtask_completed")
    }
}

} // verus!
