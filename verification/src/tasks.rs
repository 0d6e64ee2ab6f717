//! Task display and input helpers of the command line: labels for status
//! and priority keys, issue numbers, full-text query building, id lists and
//! activity messages.
use vstd::prelude::*;
use crate::text::{
    chars_of, dec_int, i64_dec, is_whitespace, join, push_chars, push_str, split_chars,
    split_on, split_words, str_eq, string_from_chars, strip_both, strip_both_at, trim, views,
    words, CharClass,
};

verus! {

/// Display label of a task status key; unknown keys read "Unknown".
pub open spec fn status_label_spec(status: Seq<char>) -> Seq<char> {
    if status == "todo"@ {
        "Todo"@
    } else if status == "in_progress"@ {
        "In progress"@
    } else if status == "done"@ {
        "Done"@
    } else if status == "canceled"@ {
        "Canceled"@
    } else {
        "Unknown"@
    }
}

/// The label the app shows for a status key.
pub fn status_label(status: &str) -> (label: &'static str)
    ensures
        label@ == status_label_spec(status@),
{
    if str_eq(status, "todo") {
        "Todo"
    } else if str_eq(status, "in_progress") {
        "In progress"
    } else if str_eq(status, "done") {
        "Done"
    } else if str_eq(status, "canceled") {
        "Canceled"
    } else {
        "Unknown"
    }
}

/// Display label of a priority level; levels outside 0-4 read "Unknown".
pub open spec fn priority_label_spec(priority: int) -> Seq<char> {
    if priority == 0 {
        "No priority"@
    } else if priority == 1 {
        "Urgent"@
    } else if priority == 2 {
        "High"@
    } else if priority == 3 {
        "Medium"@
    } else if priority == 4 {
        "Low"@
    } else {
        "Unknown"@
    }
}

/// The label the app shows for a priority level.
pub fn priority_label(priority: i32) -> (label: &'static str)
    ensures
        label@ == priority_label_spec(priority as int),
{
    match priority {
        0 => "No priority",
        1 => "Urgent",
        2 => "High",
        3 => "Medium",
        4 => "Low",
        _ => "Unknown",
    }
}

/// A task's issue number as the app shows it: `PREFIX-N` inside a project,
/// `#N` without one.
pub open spec fn display_number_spec(number: int, prefix: Option<Seq<char>>) -> Seq<char> {
    match prefix {
        Some(p) => p + "-"@ + dec_int(number),
        None => "#"@ + dec_int(number),
    }
}

pub fn display_number(number: i32, prefix: Option<&str>) -> (r: String)
    ensures
        r@ == display_number_spec(number as int, match prefix {
            Some(p) => Some(p@),
            None => None,
        }),
{
    let mut v: Vec<char> = Vec::new();
    match prefix {
        Some(p) => {
            push_str(&mut v, p);
            push_str(&mut v, "-");
        },
        None => {
            push_str(&mut v, "#");
        },
    }
    let d = i64_dec(number as i64);
    push_chars(&mut v, d.as_slice());
    string_from_chars(v.as_slice())
}

/// `w` with every `"` doubled, the escape of an FTS5 string.
pub open spec fn double_quotes(w: Seq<char>) -> Seq<char>
    decreases w.len(),
{
    if w.len() == 0 {
        seq![]
    } else if w.last() == '"' {
        double_quotes(w.drop_last()) + seq!['"', '"']
    } else {
        double_quotes(w.drop_last()).push(w.last())
    }
}

/// One search term as a literal FTS5 phrase.
pub open spec fn fts_phrase(w: Seq<char>) -> Seq<char> {
    seq!['"'] + double_quotes(w) + seq!['"']
}

/// The FTS5 query for free user input: every whitespace-separated term as a
/// literal phrase, so the input cannot inject FTS syntax.
pub open spec fn fts_query_spec(q: Seq<char>) -> Seq<char> {
    join(words(q).map_values(|w: Seq<char>| fts_phrase(w)), " "@)
}

fn phrase(w: &[char]) -> (r: Vec<char>)
    ensures
        r@ == fts_phrase(w@),
{
    let mut r: Vec<char> = Vec::new();
    r.push('"');
    let mut i: usize = 0;
    while i < w.len()
        invariant
            i <= w@.len(),
            r@ == seq!['"'] + double_quotes(w@.take(i as int)),
        decreases w@.len() - i,
    {
        let ghost before = r@;
        if w[i] == '"' {
            r.push('"');
            r.push('"');
        } else {
            r.push(w[i]);
        }
        i = i + 1;
        assert(w@.take(i as int).drop_last() =~= w@.take(i - 1));
        assert(r@ =~= seq!['"'] + double_quotes(w@.take(i as int)));
    }
    assert(w@.take(w@.len() as int) =~= w@);
    r.push('"');
    r
}

/// Builds the FTS5 query for a free-text task search.
pub fn fts_query(query: &str) -> (r: String)
    ensures
        r@ == fts_query_spec(query@),
{
    let s = chars_of(query);
    let ws = split_words(s.as_slice());
    let ghost terms = words(query@).map_values(|w: Seq<char>| fts_phrase(w));
    let mut out: Vec<char> = Vec::new();
    let mut i: usize = 0;
    while i < ws.len()
        invariant
            i <= ws@.len(),
            views(ws@) == words(query@),
            terms == words(query@).map_values(|w: Seq<char>| fts_phrase(w)),
            out@ == join(terms.take(i as int), " "@),
        decreases ws@.len() - i,
    {
        let p = phrase(ws[i].as_slice());
        if i > 0 {
            push_str(&mut out, " ");
        }
        push_chars(&mut out, p.as_slice());
        i = i + 1;
        assert(terms.take(i as int).drop_last() =~= terms.take(i - 1));
        assert(terms.take(i as int).last() == p@);
        if i == 1 {
            assert(out@ =~= join(terms.take(i as int), " "@));
        }
    }
    assert(terms.take(ws@.len() as int) =~= terms);
    string_from_chars(out.as_slice())
}

/// The trimmed, non-empty pieces of a comma-separated id list.
pub open spec fn id_list(parts: Seq<Seq<char>>) -> Seq<Seq<char>>
    decreases parts.len(),
{
    if parts.len() == 0 {
        seq![]
    } else {
        let rest = id_list(parts.drop_last());
        let t = trim(parts.last());
        if t.len() > 0 {
            rest.push(t)
        } else {
            rest
        }
    }
}

/// Parses a comma-separated list of task ids, dropping blanks.
pub fn parse_ids(s: &str) -> (ids: Vec<String>)
    ensures
        ids@.len() == id_list(split_on(s@, ',')).len(),
        forall|k: int| 0 <= k < ids@.len() ==> (#[trigger] ids@[k])@ == id_list(split_on(s@, ','))[k],
{
    let c = chars_of(s);
    let parts = split_chars(c.as_slice(), ',');
    let ghost ps = views(parts@);
    let mut ids: Vec<String> = Vec::new();
    let mut i: usize = 0;
    while i < parts.len()
        invariant
            i <= parts@.len(),
            ps == views(parts@),
            ps == split_on(s@, ','),
            ids@.len() == id_list(ps.take(i as int)).len(),
            forall|k: int| 0 <= k < ids@.len() ==> (#[trigger] ids@[k])@ == id_list(ps.take(i as int))[k],
        decreases parts@.len() - i,
    {
        let p = &parts[i];
        let (a, b) = strip_both_at(p.as_slice(), 0, p.len(), CharClass::Whitespace);
        assert(p@.subrange(0, p@.len() as int) =~= p@);
        assert(ps.take(i + 1).drop_last() =~= ps.take(i as int));
        if a < b {
            let mut t: Vec<char> = Vec::new();
            let mut k: usize = a;
            while k < b
                invariant
                    a <= k <= b <= p@.len(),
                    t@ == p@.subrange(a as int, k as int),
                decreases b - k,
            {
                t.push(p[k]);
                k = k + 1;
            }
            ids.push(string_from_chars(t.as_slice()));
        }
        i = i + 1;
    }
    assert(ps.take(parts@.len() as int) =~= ps);
    ids
}

/// The text of an optional value, empty when absent.
pub open spec fn or_empty(v: Option<Seq<char>>) -> Seq<char> {
    match v {
        Some(s) => s,
        None => seq![],
    }
}

pub open spec fn opt_view(v: Option<&str>) -> Option<Seq<char>> {
    match v {
        Some(s) => Some(s@),
        None => None,
    }
}

/// The sentence the activity list shows for one logged change.
pub open spec fn activity_message(
    action: Seq<char>,
    field: Seq<char>,
    old: Seq<char>,
    new: Seq<char>,
) -> Seq<char> {
    if action == "created"@ {
        "created this "@ + "task"@
    } else if action == "status_changed"@ {
        "changed status from "@ + old + " to "@ + new
    } else if action == "priority_changed"@ {
        "set priority to "@ + new
    } else if action == "title_changed"@ {
        "updated the title"@
    } else if action == "description_changed"@ {
        "updated the description"@
    } else if action == "due_date_changed"@ {
        if new.len() == 0 {
            "removed the due date"@
        } else {
            "set due date to "@ + new
        }
    } else if action == "label_added"@ {
        "added label "@ + new
    } else if action == "label_removed"@ {
        "removed label "@ + old
    } else if action == "attachment_added"@ {
        "attached "@ + new
    } else if action == "attachment_removed"@ {
        "removed an attachment"@
    } else if action == "subtask_added"@ {
        "added subtask \""@ + new + "\""@
    } else if action == "subtask_completed"@ {
        "completed subtask \""@ + new + "\""@
    } else if action == "subtask_uncompleted"@ {
        "reopened subtask \""@ + new + "\""@
    } else if action == "subtask_removed"@ {
        "removed a subtask"@
    } else {
        field + " "@ + old + " -> "@ + new
    }
}

fn text_of(v: Option<&str>) -> (r: Vec<char>)
    ensures
        r@ == or_empty(opt_view(v)),
{
    match v {
        Some(s) => chars_of(s),
        None => Vec::new(),
    }
}

fn lit(s: &str) -> (r: Vec<char>)
    ensures
        r@ == s@,
{
    chars_of(s)
}

/// Formats one activity log entry as a sentence.
pub fn format_activity(
    action: &str,
    field: Option<&str>,
    old_val: Option<&str>,
    new_val: Option<&str>,
) -> (r: String)
    ensures
        r@ == activity_message(
            action@,
            or_empty(opt_view(field)),
            or_empty(opt_view(old_val)),
            or_empty(opt_view(new_val)),
        ),
{
    let f = text_of(field);
    let old = text_of(old_val);
    let new = text_of(new_val);
    let mut m: Vec<char>;
    if str_eq(action, "created") {
        m = lit("created this ");
        push_str(&mut m, "task");
    } else if str_eq(action, "status_changed") {
        m = lit("changed status from ");
        push_chars(&mut m, old.as_slice());
        push_str(&mut m, " to ");
        push_chars(&mut m, new.as_slice());
    } else if str_eq(action, "priority_changed") {
        m = lit("set priority to ");
        push_chars(&mut m, new.as_slice());
    } else if str_eq(action, "title_changed") {
        m = lit("updated the title");
    } else if str_eq(action, "description_changed") {
        m = lit("updated the description");
    } else if str_eq(action, "due_date_changed") {
        if new.len() == 0 {
            m = lit("removed the due date");
        } else {
            m = lit("set due date to ");
            push_chars(&mut m, new.as_slice());
        }
    } else if str_eq(action, "label_added") {
        m = lit("added label ");
        push_chars(&mut m, new.as_slice());
    } else if str_eq(action, "label_removed") {
        m = lit("removed label ");
        push_chars(&mut m, old.as_slice());
    } else if str_eq(action, "attachment_added") {
        m = lit("attached ");
        push_chars(&mut m, new.as_slice());
    } else if str_eq(action, "attachment_removed") {
        m = lit("removed an attachment");
    } else if str_eq(action, "subtask_added") {
        m = lit("added subtask \"");
        push_chars(&mut m, new.as_slice());
        push_str(&mut m, "\"");
    } else if str_eq(action, "subtask_completed") {
        m = lit("completed subtask \"");
        push_chars(&mut m, new.as_slice());
        push_str(&mut m, "\"");
    } else if str_eq(action, "subtask_uncompleted") {
        m = lit("reopened subtask \"");
        push_chars(&mut m, new.as_slice());
        push_str(&mut m, "\"");
    } else if str_eq(action, "subtask_removed") {
        m = lit("removed a subtask");
    } else {
        m = f;
        push_str(&mut m, " ");
        push_chars(&mut m, old.as_slice());
        push_str(&mut m, " -> ");
        push_chars(&mut m, new.as_slice());
    }
    string_from_chars(m.as_slice())
}

} // verus!
