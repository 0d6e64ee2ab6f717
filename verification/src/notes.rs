//! Rules of the notes folder that the app's file commands follow: which
//! names a folder or note may take, which folders stay hidden, and the
//! statistics of a note.
use vstd::prelude::*;
use crate::text::{
    chars_of, contains_char, join, push_chars, slice_chars, split_chars, split_on, split_words,
    str_eq, string_from_chars, strip_both_at, trim, views, words, CharClass,
};

verus! {

/// The folder or file name a user typed, trimmed, or the reason it is refused.
pub open spec fn sanitize_name_spec(name: Seq<char>) -> Result<Seq<char>, Seq<char>> {
    let t = trim(name);
    if t.len() == 0 || t == "."@ || t == ".."@ {
        Err("Invalid name"@)
    } else if t.contains('/') || t.contains('\\') || t.contains(':') {
        Err("Name cannot contain path separators"@)
    } else {
        Ok(t)
    }
}

pub open spec fn result_view(r: Result<String, String>) -> Result<Seq<char>, Seq<char>> {
    match r {
        Ok(s) => Ok(s@),
        Err(e) => Err(e@),
    }
}

fn sanitize_chars(name: &[char]) -> (r: Result<Vec<char>, Vec<char>>)
    ensures
        match r {
            Ok(v) => sanitize_name_spec(name@) == Ok::<Seq<char>, Seq<char>>(v@),
            Err(e) => sanitize_name_spec(name@) == Err::<Seq<char>, Seq<char>>(e@),
        },
{
    let (a, b) = strip_both_at(name, 0, name.len(), CharClass::Whitespace);
    assert(name@.subrange(0, name@.len() as int) =~= name@);
    let t = slice_chars(name, a, b);
    let dot = chars_of(".");
    let dotdot = chars_of("..");
    if t.len() == 0 || crate::text::chars_eq(t.as_slice(), dot.as_slice())
        || crate::text::chars_eq(t.as_slice(), dotdot.as_slice()) {
        return Err(chars_of("Invalid name"));
    }
    if contains_char(t.as_slice(), '/') || contains_char(t.as_slice(), '\\') || contains_char(
        t.as_slice(),
        ':',
    ) {
        return Err(chars_of("Name cannot contain path separators"));
    }
    Ok(t)
}

/// Checks a folder or file name coming from the UI: no empty, `.` or `..`
/// names and no path separators; the name comes back trimmed.
pub fn sanitize_name(name: &str) -> (r: Result<String, String>)
    ensures
        result_view(r) == sanitize_name_spec(name@),
{
    let c = chars_of(name);
    match sanitize_chars(c.as_slice()) {
        Ok(v) => Ok(string_from_chars(v.as_slice())),
        Err(e) => Err(string_from_chars(e.as_slice())),
    }
}

/// The relative folder path a nested folder name creates: every
/// `/`-separated segment sanitized on its own and the segments joined with
/// `/`; the first refused segment decides the error.
pub open spec fn folder_path_from(segs: Seq<Seq<char>>, i: int) -> Result<Seq<Seq<char>>, Seq<char>>
    decreases segs.len() - i,
{
    if i < 0 || i >= segs.len() {
        Ok(seq![])
    } else {
        match sanitize_name_spec(segs[i]) {
            Err(e) => Err(e),
            Ok(t) => match folder_path_from(segs, i + 1) {
                Err(e) => Err(e),
                Ok(rest) => Ok(seq![t] + rest),
            },
        }
    }
}

pub open spec fn folder_path_spec(name: Seq<char>) -> Result<Seq<char>, Seq<char>> {
    match folder_path_from(split_on(name, '/'), 0) {
        Ok(segs) => Ok(join(segs, "/"@)),
        Err(e) => Err(e),
    }
}

/// Turns a folder name that may hold `/` into a safe relative path.
pub fn folder_path(name: &str) -> (r: Result<String, String>)
    ensures
        result_view(r) == folder_path_spec(name@),
{
    let c = chars_of(name);
    let segs = split_chars(c.as_slice(), '/');
    let ghost sv = views(segs@);
    let mut clean: Vec<Vec<char>> = Vec::new();
    let mut i: usize = 0;
    while i < segs.len()
        invariant
            i <= segs@.len(),
            sv == views(segs@),
            sv == split_on(name@, '/'),
            folder_path_from(sv, 0) == match folder_path_from(sv, i as int) {
                Ok(rest) => Ok::<Seq<Seq<char>>, Seq<char>>(views(clean@) + rest),
                Err(e) => Err::<Seq<Seq<char>>, Seq<char>>(e),
            },
        decreases segs@.len() - i,
    {
        match sanitize_chars(segs[i].as_slice()) {
            Err(e) => {
                return Err(string_from_chars(e.as_slice()));
            },
            Ok(t) => {
                let ghost prev = views(clean@);
                clean.push(t);
                assert(views(clean@) =~= prev.push(t@));
                proof {
                    match folder_path_from(sv, i + 1) {
                        Ok(rest) => {
                            assert(prev + (seq![t@] + rest) =~= views(clean@) + rest);
                        },
                        Err(_) => {},
                    }
                }
            },
        }
        i = i + 1;
    }
    assert(folder_path_from(sv, segs@.len() as int) == Ok::<Seq<Seq<char>>, Seq<char>>(seq![]));
    assert(views(clean@) + seq![] =~= views(clean@));
    let mut out: Vec<char> = Vec::new();
    let mut k: usize = 0;
    while k < clean.len()
        invariant
            k <= clean@.len(),
            out@ == join(views(clean@).take(k as int), "/"@),
        decreases clean@.len() - k,
    {
        if k > 0 {
            out.push('/');
        }
        push_chars(&mut out, clean[k].as_slice());
        k = k + 1;
        assert(views(clean@).take(k as int).drop_last() =~= views(clean@).take(k - 1));
        proof {
            reveal_strlit("/");
            if k == 1 {
                assert(out@ =~= join(views(clean@).take(k as int), "/"@));
            } else {
                assert(out@ =~= join(views(clean@).take(k - 1), "/"@) + "/"@ + views(clean@)[k - 1]);
            }
        }
    }
    assert(views(clean@).take(clean@.len() as int) =~= views(clean@));
    Ok(string_from_chars(out.as_slice()))
}

/// The app's own folders inside the notes folder, hidden from the folder
/// tree: `archive`, `trash` and everything under `.tack`.
pub open spec fn is_hidden_rel_spec(rel: Seq<char>) -> bool {
    rel == "archive"@ || rel == "trash"@ || rel == ".tack"@ || ".tack/"@.is_prefix_of(rel)
}

/// Whether a folder, given relative to the notes folder, stays hidden.
pub fn is_hidden_rel(rel: &str) -> (b: bool)
    ensures
        b == is_hidden_rel_spec(rel@),
{
    let r = chars_of(rel);
    let p = chars_of(".tack/");
    str_eq(rel, "archive") || str_eq(rel, "trash") || str_eq(rel, ".tack")
        || crate::text::has_prefix(r.as_slice(), p.as_slice())
}

/// The number of whitespace-separated words in a note.
pub fn word_count(text: &str) -> (n: usize)
    ensures
        n == words(text@).len(),
{
    let c = chars_of(text);
    let w = split_words(c.as_slice());
    w.len()
}

} // verus!
