//! The SQL screen of the live server: which statements a browser client may
//! run, and the rewrite of `$n` placeholders into SQLite's `?n`.
use vstd::prelude::*;
use crate::text::{
    chars_eq, chars_eq_ignore_case, chars_of, contains_char, eq_ignore_case, lower_seq, push_chars,
    push_str, slice_chars, split_words, string_from_chars, strip_both, strip_both_at, strip_end,
    strip_end_at, to_lower, to_upper, trim, upper_seq, views, words, CharClass,
};

verus! {

/// What a statement that passed the screen does.
#[derive(Debug, Clone, Copy, PartialEq, Eq, Structural)]
pub enum Statement {
    /// A `SELECT`.
    Read,
    /// An `INSERT`, `UPDATE` or `DELETE` on one of the app's own tables.
    Write,
}

/// The tables that the app writes through the live server. The full-text
/// index `tasks_fts` is not one of them: triggers own that index.
pub open spec fn writable_table(t: Seq<char>) -> bool {
    ||| t == "activity_log"@
    ||| t == "labels"@
    ||| t == "note_links"@
    ||| t == "notes_fts"@
    ||| t == "notes_index_meta"@
    ||| t == "projects"@
    ||| t == "settings"@
    ||| t == "subtasks"@
    ||| t == "task_attachments"@
    ||| t == "task_labels"@
    ||| t == "task_notes"@
    ||| t == "tasks"@
}

fn eq_lit(t: &[char], lit: &str) -> (b: bool)
    ensures
        b == (t@ == lit@),
{
    let l = chars_of(lit);
    chars_eq(t, l.as_slice())
}

pub fn is_writable_table(t: &[char]) -> (b: bool)
    ensures
        b == writable_table(t@),
{
    eq_lit(t, "activity_log") || eq_lit(t, "labels") || eq_lit(t, "note_links") || eq_lit(
        t,
        "notes_fts",
    ) || eq_lit(t, "notes_index_meta") || eq_lit(t, "projects") || eq_lit(t, "settings")
        || eq_lit(t, "subtasks") || eq_lit(t, "task_attachments") || eq_lit(t, "task_labels")
        || eq_lit(t, "task_notes") || eq_lit(t, "tasks")
}

/// Index of the first word at or after `j` that equals `key` up to ASCII
/// case, or `w.len()` when there is none.
pub open spec fn find_word(w: Seq<Seq<char>>, key: Seq<char>, j: int) -> int
    decreases w.len() - j,
{
    if j < 0 || j >= w.len() {
        w.len() as int
    } else if eq_ignore_case(w[j], key) {
        j
    } else {
        find_word(w, key, j + 1)
    }
}

/// The word that follows the first `key` after the verb, if any.
pub open spec fn word_after(w: Seq<Seq<char>>, key: Seq<char>) -> Option<Seq<char>> {
    let j = find_word(w, key, 1);
    if j + 1 < w.len() {
        Some(w[j + 1])
    } else {
        None
    }
}

/// The word naming the table that a write statement touches:
/// `INSERT [OR ..] INTO <t>`, `UPDATE [OR <action>] <t>`, `DELETE FROM <t>`.
pub open spec fn target_word(w: Seq<Seq<char>>, verb: Seq<char>) -> Option<Seq<char>> {
    if verb == "INSERT"@ {
        word_after(w, "into"@)
    } else if verb == "UPDATE"@ {
        if w.len() > 1 && eq_ignore_case(w[1], "or"@) {
            if w.len() > 3 {
                Some(w[3])
            } else {
                None
            }
        } else if w.len() > 1 {
            Some(w[1])
        } else {
            None
        }
    } else {
        word_after(w, "from"@)
    }
}

/// The part of `s` before the first `(`, `;` or `,`.
pub open spec fn before_separator(s: Seq<char>) -> Seq<char>
    decreases s.len(),
{
    if s.len() == 0 || s[0] == '(' || s[0] == ';' || s[0] == ',' {
        seq![]
    } else {
        seq![s[0]] + before_separator(s.drop_first())
    }
}

/// The table name a target word denotes: identifier quotes trimmed, cut at
/// the first `(`, `;` or `,`, lower-cased.
pub open spec fn table_name(word: Seq<char>) -> Seq<char> {
    lower_seq(before_separator(strip_both(word, CharClass::IdentQuote)))
}

/// The verb of a statement: its first word in upper case, empty when there is none.
pub open spec fn verb_of(w: Seq<Seq<char>>) -> Seq<char> {
    if w.len() > 0 {
        upper_seq(w[0])
    } else {
        seq![]
    }
}

/// Whether `sql` holds more than one statement: a `;` remains after
/// whitespace and trailing semicolons are trimmed away.
pub open spec fn stacked(sql: Seq<char>) -> bool {
    strip_end(trim(sql), CharClass::Semicolon).contains(';')
}

/// What the screen answers for `sql`.
pub open spec fn classify_spec(sql: Seq<char>) -> Result<Statement, Seq<char>> {
    let w = words(sql);
    let verb = verb_of(w);
    if stacked(sql) {
        Err("only one statement per request is allowed"@)
    } else if verb == "SELECT"@ {
        Ok(Statement::Read)
    } else if verb != "INSERT"@ && verb != "UPDATE"@ && verb != "DELETE"@ {
        Err("statement type not allowed: "@ + (if verb.len() == 0 {
            "<empty>"@
        } else {
            verb
        }))
    } else {
        match target_word(w, verb) {
            None => Err("could not tell which table the statement writes to"@),
            Some(word) => {
                let t = table_name(word);
                if writable_table(t) {
                    Ok(Statement::Write)
                } else {
                    Err("writes to '"@ + t + "' are not allowed"@)
                }
            },
        }
    }
}

fn find_word_exec(w: &Vec<Vec<char>>, key: &str, start: usize) -> (j: usize)
    requires
        start <= w@.len(),
    ensures
        j == find_word(views(w@), key@, start as int),
{
    let k = chars_of(key);
    let mut j: usize = start;
    while j < w.len()
        invariant
            start <= j <= w@.len(),
            k@ == key@,
            find_word(views(w@), key@, start as int) == find_word(views(w@), key@, j as int),
        decreases w@.len() - j,
    {
        if chars_eq_ignore_case(w[j].as_slice(), k.as_slice()) {
            return j;
        }
        j = j + 1;
    }
    j
}

fn before_separator_at(s: &[char], lo: usize, hi: usize) -> (r: usize)
    requires
        lo <= hi <= s@.len(),
    ensures
        lo <= r <= hi,
        s@.subrange(lo as int, r as int) == before_separator(s@.subrange(lo as int, hi as int)),
{
    let mut i: usize = lo;
    while i < hi && s[i] != '(' && s[i] != ';' && s[i] != ','
        invariant
            lo <= i <= hi <= s@.len(),
            before_separator(s@.subrange(lo as int, hi as int)) == s@.subrange(lo as int, i as int)
                + before_separator(s@.subrange(i as int, hi as int)),
        decreases hi - i,
    {
        assert(s@.subrange(i as int, hi as int).drop_first() =~= s@.subrange(i + 1, hi as int));
        assert(s@.subrange(lo as int, i + 1) =~= s@.subrange(lo as int, i as int) + seq![s@[i as int]]);
        i = i + 1;
    }
    assert(before_separator(s@.subrange(i as int, hi as int)) =~= seq![]);
    assert(s@.subrange(lo as int, i as int) + seq![] =~= s@.subrange(lo as int, i as int));
    i
}

fn err_of(v: Vec<char>) -> (r: Result<Statement, String>)
    ensures
        r is Err && r->Err_0@ == v@,
{
    Err(string_from_chars(v.as_slice()))
}

/// Decides whether the live server runs `sql`: reads pass; writes pass only
/// against the app's own tables; stacked statements, DDL, `PRAGMA`, `ATTACH`
/// and every other verb are refused with a message saying why.
pub fn classify(sql: &str) -> (r: Result<Statement, String>)
    ensures
        match r {
            Ok(k) => classify_spec(sql@) == Ok::<Statement, Seq<char>>(k),
            Err(e) => classify_spec(sql@) == Err::<Statement, Seq<char>>(e@),
        },
{
    let s = chars_of(sql);
    let (a, b) = strip_both_at(s.as_slice(), 0, s.len(), CharClass::Whitespace);
    let e = strip_end_at(s.as_slice(), a, b, CharClass::Semicolon);
    let inner = slice_chars(s.as_slice(), a, e);
    assert(s@.subrange(0, s@.len() as int) =~= s@);
    if contains_char(inner.as_slice(), ';') {
        return err_of(chars_of("only one statement per request is allowed"));
    }
    let w = split_words(s.as_slice());
    let ghost ws = views(w@);
    assert(ws.len() == w@.len());
    let verb: Vec<char> = if w.len() > 0 {
        to_upper(w[0].as_slice())
    } else {
        Vec::new()
    };
    assert(verb@ == verb_of(ws));
    if eq_lit(verb.as_slice(), "SELECT") {
        return Ok(Statement::Read);
    }
    let is_insert = eq_lit(verb.as_slice(), "INSERT");
    let is_update = eq_lit(verb.as_slice(), "UPDATE");
    let is_delete = eq_lit(verb.as_slice(), "DELETE");
    if !is_insert && !is_update && !is_delete {
        let mut m = chars_of("statement type not allowed: ");
        if verb.len() == 0 {
            push_str(&mut m, "<empty>");
        } else {
            push_chars(&mut m, verb.as_slice());
        }
        return err_of(m);
    }
    let target: Option<usize> = if is_update {
        assert(verb@ == "UPDATE"@);
        proof {
            reveal_strlit("UPDATE");
            reveal_strlit("INSERT");
            assert("UPDATE"@[0] == 'U');
            assert("UPDATE"@ != "INSERT"@);
            assert(verb@ != "INSERT"@);
            assert(verb@ == "UPDATE"@);
        }
        if w.len() > 1 && eq_lit_ignore_case(w[1].as_slice(), "or") {
            assert(ws[1] == w@[1]@);
            if w.len() > 3 {
                assert(target_word(ws, verb@) == Some(ws[3]));
                Some(3)
            } else {
                None
            }
        } else if w.len() > 1 {
            assert(target_word(ws, verb@) == Some(ws[1]));
            Some(1)
        } else {
            None
        }
    } else {
        let key = if is_insert {
            "into"
        } else {
            "from"
        };
        let start: usize = if w.len() > 0 { 1 } else { 0 };
        let j = find_word_exec(&w, key, start);
        proof {
            reveal_strlit("INSERT");
            reveal_strlit("DELETE");
            if w.len() == 0 {
                assert(find_word(ws, key@, 1) == ws.len());
            }
        }
        assert(j == find_word(ws, key@, 1));
        if is_insert {
            assert(target_word(ws, verb@) == word_after(ws, "into"@));
        } else {
            assert(target_word(ws, verb@) == word_after(ws, "from"@));
        }
        assert(target_word(ws, verb@) == word_after(ws, key@));
        if j < w.len() && j + 1 < w.len() {
            assert(ws.len() == w@.len());
            assert(word_after(ws, key@) == Some(ws[j + 1]));
            Some(j + 1)
        } else {
            None
        }
    };
    assert(match target {
        Some(ti) => ti < ws.len() && target_word(ws, verb@) == Some(ws[ti as int]),
        None => target_word(ws, verb@) is None,
    });
    match target {
        None => err_of(chars_of("could not tell which table the statement writes to")),
        Some(ti) => {
            let word = &w[ti];
            assert(word@ == ws[ti as int]);
            let (qa, qb) = strip_both_at(word.as_slice(), 0, word.len(), CharClass::IdentQuote);
            assert(word@.subrange(0, word@.len() as int) =~= word@);
            let cut = before_separator_at(word.as_slice(), qa, qb);
            let raw = slice_chars(word.as_slice(), qa, cut);
            let t = to_lower(raw.as_slice());
            assert(t@ == table_name(word@));
            if is_writable_table(t.as_slice()) {
                Ok(Statement::Write)
            } else {
                let mut m = chars_of("writes to '");
                push_chars(&mut m, t.as_slice());
                push_str(&mut m, "' are not allowed");
                err_of(m)
            }
        },
    }
}

fn eq_lit_ignore_case(t: &[char], lit: &str) -> (b: bool)
    ensures
        b == eq_ignore_case(t@, lit@),
{
    let l = chars_of(lit);
    chars_eq_ignore_case(t, l.as_slice())
}

/// Whether `c` is one of the ASCII digits `0`-`9`.
pub open spec fn is_digit(c: char) -> bool {
    '0' <= c && c <= '9'
}

/// Index just past the run of ASCII digits that starts at `i`.
pub open spec fn digits_end(s: Seq<char>, i: int) -> int
    decreases s.len() - i,
{
    if 0 <= i < s.len() && is_digit(s[i]) {
        digits_end(s, i + 1)
    } else {
        i
    }
}

pub proof fn lemma_digits_end(s: Seq<char>, i: int)
    requires
        0 <= i <= s.len(),
    ensures
        i <= digits_end(s, i) <= s.len(),
    decreases s.len() - i,
{
    if i < s.len() && is_digit(s[i]) {
        lemma_digits_end(s, i + 1);
    }
}

/// `s[i..]` with every `$` that is followed by digits turned into `?`; a `$`
/// without digits after it stays as it is.
pub open spec fn placeholders_from(s: Seq<char>, i: int) -> Seq<char>
    decreases s.len() - i,
{
    if i < 0 || i >= s.len() {
        seq![]
    } else if s[i] == '$' && digits_end(s, i + 1) > i + 1 {
        let j = digits_end(s, i + 1);
        proof {
            lemma_digits_end(s, i + 1);
        }
        seq!['?'] + s.subrange(i + 1, j) + placeholders_from(s, j)
    } else {
        seq![s[i]] + placeholders_from(s, i + 1)
    }
}

/// What the placeholder rewrite puts at position `k` of `s`: `?` for a `$`
/// followed by a digit, the character itself otherwise.
pub open spec fn placeholder_char(s: Seq<char>, k: int) -> char {
    if s[k] == '$' && k + 1 < s.len() && is_digit(s[k + 1]) {
        '?'
    } else {
        s[k]
    }
}

/// The digits that `digits_end` runs over are digits.
pub proof fn lemma_digits_run(s: Seq<char>, i: int)
    requires
        0 <= i <= s.len(),
    ensures
        forall|m: int| i <= m < digits_end(s, i) ==> is_digit(#[trigger] s[m]),
        digits_end(s, i) > i <==> (i < s.len() && is_digit(s[i])),
    decreases s.len() - i,
{
    if i < s.len() && is_digit(s[i]) {
        lemma_digits_run(s, i + 1);
        lemma_digits_end(s, i + 1);
    }
}

/// The rewrite of `s[i..]` is `placeholder_char` at each position.
pub proof fn lemma_placeholders_pointwise(s: Seq<char>, i: int)
    requires
        0 <= i <= s.len(),
    ensures
        placeholders_from(s, i) == Seq::new((s.len() - i) as nat, |k: int| placeholder_char(s, i + k)),
    decreases s.len() - i,
{
    if i < s.len() {
        lemma_digits_run(s, i + 1);
        lemma_digits_end(s, i + 1);
        if s[i] == '$' && digits_end(s, i + 1) > i + 1 {
            let j = digits_end(s, i + 1);
            lemma_placeholders_pointwise(s, j);
            assert(placeholders_from(s, i) =~= Seq::new((s.len() - i) as nat, |k: int| placeholder_char(s, i + k))) by {
                assert forall|k: int| 0 <= k < s.len() - i implies placeholders_from(s, i)[k] == placeholder_char(s, i + k) by {
                    if 1 <= k && i + k < j {
                        assert(is_digit(s[i + k]));
                    }
                }
            }
        } else {
            lemma_placeholders_pointwise(s, i + 1);
            assert(placeholders_from(s, i) =~= Seq::new((s.len() - i) as nat, |k: int| placeholder_char(s, i + k)));
        }
    } else {
        assert(placeholders_from(s, i) =~= Seq::new((s.len() - i) as nat, |k: int| placeholder_char(s, i + k)));
    }
}

/// Rewrites sqlx-style `$n` placeholders into SQLite's numbered `?n`, so a
/// placeholder that occurs twice binds the same value both times.
pub fn translate_placeholders(sql: &str) -> (out: String)
    ensures
        out@ == placeholders_from(sql@, 0),
{
    let s = chars_of(sql);
    let n = s.len();
    let mut out: Vec<char> = Vec::new();
    let mut i: usize = 0;
    while i < n
        invariant
            n == s@.len(),
            i <= n,
            s@ == sql@,
            out@ + placeholders_from(s@, i as int) == placeholders_from(s@, 0),
        decreases n - i,
    {
        if s[i] == '$' {
            let mut j = i + 1;
            while j < n && '0' <= s[j] && s[j] <= '9'
                invariant
                    n == s@.len(),
                    i < j <= n,
                    digits_end(s@, i + 1) == digits_end(s@, j as int),
                decreases n - j,
            {
                j = j + 1;
            }
            if j > i + 1 {
                let ghost before = out@;
                out.push('?');
                let digits = slice_chars(s.as_slice(), i + 1, j);
                push_chars(&mut out, digits.as_slice());
                assert(out@ + placeholders_from(s@, j as int) =~= before + placeholders_from(
                    s@,
                    i as int,
                ));
                i = j;
                continue;
            }
        }
        let ghost before = out@;
        out.push(s[i]);
        assert(out@ + placeholders_from(s@, i + 1) =~= before + placeholders_from(s@, i as int));
        i = i + 1;
    }
    assert(placeholders_from(s@, n as int) =~= seq![]);
    assert(out@ =~= out@ + placeholders_from(s@, n as int));
    string_from_chars(out.as_slice())
}

} // verus!
