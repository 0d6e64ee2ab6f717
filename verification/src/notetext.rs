//! The text rules of notes kept as Markdown files: note names, the mention
//! links between notes, tags in frontmatter and body, image references,
//! version-history keys and HTML export.
use vstd::prelude::*;
use vstd::string::StringSliceAdditionalSpecFns;
use vstd::utf8::encode_utf8;
use vstd::string::StrSliceExecFns;
use crate::text::{
    chars_eq, chars_of, find_sub, find_sub_exec, has_suffix, push_chars, push_str, slice_chars,
    split_chars, split_on, string_from_chars, strip_both_at, trim, views, CharClass,
};

verus! {

/// A note title as a file stem: trimmed, a `.md` or `.MD` suffix dropped,
/// path separators (`/`, `\\`, `:`) turned into `-`; empty, `.` and `..` are refused.
pub open spec fn note_stem_spec(raw: Seq<char>) -> Result<Seq<char>, Seq<char>> {
    let t = trim(raw);
    let no_ext = if ".md"@.is_suffix_of(t) || ".MD"@.is_suffix_of(t) {
        t.subrange(0, t.len() - 3)
    } else {
        t
    };
    let n = trim(trim(no_ext).map_values(|c: char| if c == '/' || c == '\\' || c == ':' { '-' } else { c }));
    if n.len() == 0 || n == "."@ || n == ".."@ {
        Err("Invalid name"@)
    } else {
        Ok(n)
    }
}

pub fn trimmed(v: &[char]) -> (r: Vec<char>)
    ensures
        r@ == trim(v@),
{
    let (a, b) = strip_both_at(v, 0, v.len(), CharClass::Whitespace);
    assert(v@.subrange(0, v@.len() as int) =~= v@);
    slice_chars(v, a, b)
}

/// Turns a note title into the file stem the note is saved under.
pub fn sanitize_note_name(raw: &str) -> (r: Result<String, String>)
    ensures
        match r {
            Ok(s) => note_stem_spec(raw@) == Ok::<Seq<char>, Seq<char>>(s@),
            Err(e) => note_stem_spec(raw@) == Err::<Seq<char>, Seq<char>>(e@),
        },
{
    let c = chars_of(raw);
    let t = trimmed(c.as_slice());
    let md = chars_of(".md");
    let md_upper = chars_of(".MD");
    proof {
        reveal_strlit(".md");
        reveal_strlit(".MD");
    }
    let no_ext = if has_suffix(t.as_slice(), md.as_slice()) || has_suffix(t.as_slice(), md_upper.as_slice()) {
        slice_chars(t.as_slice(), 0, t.len() - 3)
    } else {
        slice_chars(t.as_slice(), 0, t.len())
    };
    assert(t@.subrange(0, t@.len() as int) =~= t@);
    let t2 = trimmed(no_ext.as_slice());
    let mut m: Vec<char> = Vec::new();
    let mut i: usize = 0;
    while i < t2.len()
        invariant
            i <= t2@.len(),
            m@ =~= t2@.take(i as int).map_values(|c: char| if c == '/' || c == '\\' || c == ':' { '-' } else { c }),
        decreases t2@.len() - i,
    {
        let ch = t2[i];
        m.push(if ch == '/' || ch == '\\' || ch == ':' { '-' } else { ch });
        i = i + 1;
    }
    assert(t2@.take(t2@.len() as int) =~= t2@);
    let n = trimmed(m.as_slice());
    let dot = chars_of(".");
    let dotdot = chars_of("..");
    if n.len() == 0 || chars_eq(n.as_slice(), dot.as_slice()) || chars_eq(n.as_slice(), dotdot.as_slice()) {
        return Err(String::from_str("Invalid name"));
    }
    Ok(string_from_chars(n.as_slice()))
}

/// A byte that `encodeURIComponent` leaves as it is.
pub open spec fn uri_unreserved(b: u8) -> bool {
    (0x41 <= b <= 0x5a) || (0x61 <= b <= 0x7a) || (0x30 <= b <= 0x39) || b == 0x2d || b == 0x5f
        || b == 0x2e || b == 0x21 || b == 0x7e || b == 0x2a || b == 0x27 || b == 0x28 || b == 0x29
}

/// The upper-case hex digit of `d < 16`.
pub open spec fn hex_upper(d: u8) -> char {
    if d < 10 {
        (d + 48) as char
    } else {
        (d + 55) as char
    }
}

/// JavaScript's `encodeURIComponent` over UTF-8 bytes: unreserved bytes as
/// they are, every other byte as `%XX` with upper-case hex.
pub open spec fn uri_encode(b: Seq<u8>) -> Seq<char>
    decreases b.len(),
{
    if b.len() == 0 {
        seq![]
    } else {
        let x = b.last();
        uri_encode(b.drop_last()) + if uri_unreserved(x) {
            seq![x as char]
        } else {
            seq!['%', hex_upper(x / 16), hex_upper(x % 16)]
        }
    }
}

fn hex_digit_upper(d: u8) -> (c: char)
    requires
        d < 16,
    ensures
        c == hex_upper(d),
{
    if d < 10 {
        (d + 48) as char
    } else {
        (d + 55) as char
    }
}

/// Percent-encodes text the way the app encodes mention links, so links
/// written by either side stay byte-for-byte the same.
pub fn encode_uri_component(s: &str) -> (r: String)
    ensures
        r@ == uri_encode(encode_utf8(s@)),
{
    let b = s.as_bytes();
    let mut out: Vec<char> = Vec::new();
    let mut i: usize = 0;
    while i < b.len()
        invariant
            i <= b@.len(),
            b@ == encode_utf8(s@),
            out@ == uri_encode(b@.take(i as int)),
        decreases b@.len() - i,
    {
        let x = b[i];
        if (0x41 <= x && x <= 0x5a) || (0x61 <= x && x <= 0x7a) || (0x30 <= x && x <= 0x39) || x
            == 0x2d || x == 0x5f || x == 0x2e || x == 0x21 || x == 0x7e || x == 0x2a || x == 0x27
            || x == 0x28 || x == 0x29 {
            out.push(x as char);
        } else {
            out.push('%');
            out.push(hex_digit_upper(x / 16));
            out.push(hex_digit_upper(x % 16));
        }
        i = i + 1;
        assert(b@.take(i as int).drop_last() =~= b@.take(i - 1));
    }
    assert(b@.take(b@.len() as int) =~= b@);
    string_from_chars(out.as_slice())
}

/// The directory name of a note's version history: its relative path with
/// every `/` and `\\` turned into `%`.
pub open spec fn history_key_spec(rel: Seq<char>) -> Seq<char> {
    rel.map_values(|c: char| if c == '/' || c == '\\' { '%' } else { c })
}

pub fn history_key(rel: &str) -> (k: String)
    ensures
        k@ == history_key_spec(rel@),
{
    let c = chars_of(rel);
    let mut m: Vec<char> = Vec::new();
    let mut i: usize = 0;
    while i < c.len()
        invariant
            i <= c@.len(),
            c@ == rel@,
            m@ =~= c@.take(i as int).map_values(|c: char| if c == '/' || c == '\\' { '%' } else { c }),
        decreases c@.len() - i,
    {
        let ch = c[i];
        m.push(if ch == '/' || ch == '\\' { '%' } else { ch });
        i = i + 1;
    }
    assert(c@.take(c@.len() as int) =~= c@);
    string_from_chars(m.as_slice())
}

/// `text` with `&`, `<` and `>` escaped for HTML.
pub open spec fn html_escape_spec(text: Seq<char>) -> Seq<char>
    decreases text.len(),
{
    if text.len() == 0 {
        seq![]
    } else {
        let c = text.last();
        html_escape_spec(text.drop_last()) + if c == '&' {
            "&amp;"@
        } else if c == '<' {
            "&lt;"@
        } else if c == '>' {
            "&gt;"@
        } else {
            seq![c]
        }
    }
}

pub fn html_escape(text: &str) -> (r: String)
    ensures
        r@ == html_escape_spec(text@),
{
    let c = chars_of(text);
    let mut out: Vec<char> = Vec::new();
    let mut i: usize = 0;
    while i < c.len()
        invariant
            i <= c@.len(),
            c@ == text@,
            out@ == html_escape_spec(c@.take(i as int)),
        decreases c@.len() - i,
    {
        let ch = c[i];
        if ch == '&' {
            push_str(&mut out, "&amp;");
        } else if ch == '<' {
            push_str(&mut out, "&lt;");
        } else if ch == '>' {
            push_str(&mut out, "&gt;");
        } else {
            out.push(ch);
        }
        i = i + 1;
        assert(c@.take(i as int).drop_last() =~= c@.take(i - 1));
    }
    assert(c@.take(c@.len() as int) =~= c@);
    string_from_chars(out.as_slice())
}

/// `s[i..]` with every non-overlapping occurrence of `pat`, taken from the
/// left, replaced by `rep` (`str::replace` for a non-empty pattern).
pub open spec fn replace_from(s: Seq<char>, pat: Seq<char>, rep: Seq<char>, i: int) -> Seq<char>
    decreases s.len() - i,
{
    if i < 0 || i >= s.len() || pat.len() == 0 {
        if 0 <= i <= s.len() { s.subrange(i, s.len() as int) } else { seq![] }
    } else if i + pat.len() <= s.len() && s.subrange(i, i + pat.len()) == pat {
        rep + replace_from(s, pat, rep, i + pat.len())
    } else {
        seq![s[i]] + replace_from(s, pat, rep, i + 1)
    }
}

pub open spec fn replace_all(s: Seq<char>, pat: Seq<char>, rep: Seq<char>) -> Seq<char> {
    replace_from(s, pat, rep, 0)
}

/// Replaces every occurrence of `pat` in `s`.
pub fn replace_chars(s: &[char], pat: &[char], rep: &[char]) -> (r: Vec<char>)
    requires
        pat@.len() > 0,
    ensures
        r@ == replace_all(s@, pat@, rep@),
{
    let n = s.len();
    let mut out: Vec<char> = Vec::new();
    let mut i: usize = 0;
    while i < n
        invariant
            n == s@.len(),
            i <= n,
            pat@.len() > 0,
            out@ + replace_from(s@, pat@, rep@, i as int) == replace_all(s@, pat@, rep@),
        decreases n - i,
    {
        let ghost before = out@;
        if pat.len() <= n - i {
            let w = slice_chars(s, i, i + pat.len());
            if chars_eq(w.as_slice(), pat) {
                push_chars(&mut out, rep);
                assert(out@ + replace_from(s@, pat@, rep@, i + pat@.len()) =~= before + replace_from(s@, pat@, rep@, i as int));
                i = i + pat.len();
                continue;
            }
        }
        out.push(s[i]);
        assert(out@ + replace_from(s@, pat@, rep@, i + 1) =~= before + replace_from(s@, pat@, rep@, i as int));
        i = i + 1;
    }
    assert(replace_from(s@, pat@, rep@, n as int) =~= seq![]);
    assert(out@ + seq![] =~= out@);
    out
}

/// The link text a mention of the note at `path` carries: `](note:<encoded path>)`.
pub open spec fn mention_token(path: Seq<char>) -> Seq<char> {
    "](note:"@ + uri_encode(encode_utf8(path)) + ")"@
}

/// `content` after the moves in `remap[i..]`, each rewriting the mention
/// links of its old path to its new path; the flag says whether any link
/// was found.
pub open spec fn rewrite_from(content: Seq<char>, remap: Seq<(Seq<char>, Seq<char>)>, i: int, changed: bool) -> (Seq<char>, bool)
    decreases remap.len() - i,
{
    if i < 0 || i >= remap.len() {
        (content, changed)
    } else {
        let old_t = mention_token(remap[i].0);
        if find_sub(content, old_t, 0) >= 0 {
            rewrite_from(replace_all(content, old_t, mention_token(remap[i].1)), remap, i + 1, true)
        } else {
            rewrite_from(content, remap, i + 1, changed)
        }
    }
}

pub open spec fn pair_views(v: Seq<(String, String)>) -> Seq<(Seq<char>, Seq<char>)> {
    v.map_values(|p: (String, String)| (p.0@, p.1@))
}

fn mention_token_of(path: &str) -> (t: Vec<char>)
    ensures
        t@ == mention_token(path@),
        t@.len() > 0,
{
    let mut t = chars_of("](note:");
    let e = encode_uri_component(path);
    push_str(&mut t, e.as_str());
    push_str(&mut t, ")");
    proof {
        reveal_strlit(")");
    }
    t
}

/// Rewrites the mention links of a note's text after notes moved: each
/// `(old, new)` pair sends links to `old` to `new`. Returns the new text and
/// whether anything changed.
pub fn rewrite_mentions(content: &str, remap: &[(String, String)]) -> (r: (String, bool))
    ensures
        (r.0@, r.1) == rewrite_from(content@, pair_views(remap@), 0, false),
{
    let mut cur = chars_of(content);
    let mut changed = false;
    let ghost rv = pair_views(remap@);
    let mut i: usize = 0;
    while i < remap.len()
        invariant
            i <= remap@.len(),
            rv == pair_views(remap@),
            rewrite_from(content@, rv, 0, false) == rewrite_from(cur@, rv, i as int, changed),
        decreases remap@.len() - i,
    {
        let old_t = mention_token_of(remap[i].0.as_str());
        let new_t = mention_token_of(remap[i].1.as_str());
        let f = find_sub_exec(cur.as_slice(), old_t.as_slice(), 0);
        if f.is_some() {
            cur = replace_chars(cur.as_slice(), old_t.as_slice(), new_t.as_slice());
            changed = true;
        }
        i = i + 1;
    }
    (string_from_chars(cur.as_slice()), changed)
}

/// A note split into its leading `---` frontmatter block and its body: the
/// text must open with `---\n` and a later line must start with `---`; one
/// line break after the closing marker is not part of the body.
pub open spec fn frontmatter(text: Seq<char>) -> (Option<Seq<char>>, Seq<char>) {
    let open = "---\n"@;
    if !open.is_prefix_of(text) {
        (None, text)
    } else {
        let rest = text.subrange(4, text.len() as int);
        let idx = find_sub(rest, "\n---"@, 0);
        if idx < 0 {
            (None, text)
        } else {
            let after = rest.subrange(idx + 4, rest.len() as int);
            let body = if after.len() >= 2 && after[0] == '\r' && after[1] == '\n' {
                after.subrange(2, after.len() as int)
            } else if after.len() >= 1 && after[0] == '\n' {
                after.subrange(1, after.len() as int)
            } else {
                after
            };
            (Some(rest.subrange(0, idx)), body)
        }
    }
}

/// Splits a leading `---` frontmatter block from the body of a note.
pub fn split_frontmatter(text: &str) -> (r: (Option<&str>, &str))
    ensures
        frontmatter(text@) == (match r.0 {
            Some(f) => Some(f@),
            None => None,
        }, r.1@),
{
    let c = chars_of(text);
    let open = chars_of("---\n");
    proof {
        reveal_strlit("---\n");
        reveal_strlit("\n---");
        reveal_strlit("\r\n");
        reveal_strlit("\n");
    }
    if !crate::text::has_prefix(c.as_slice(), open.as_slice()) {
        return (None, text);
    }
    let rest = slice_chars(c.as_slice(), 4, c.len());
    let close = chars_of("\n---");
    match find_sub_exec(rest.as_slice(), close.as_slice(), 0) {
        None => (None, text),
        Some(idx) => {
            let a: usize = 4 + idx + 4;
            let n = c.len();
            let ghost after = rest@.subrange(idx + 4, rest@.len() as int);
            assert(after.len() == n - a);
            assert(forall|k: int| 0 <= k < after.len() ==> after[k] == c@[a + k]);
            let skip: usize = if n - a >= 2 && c[a] == '\r' && c[a + 1] == '\n' {
                2
            } else if n - a >= 1 && c[a] == '\n' {
                1
            } else {
                0
            };
            let fm = text.substring_char(4, 4 + idx);
            let body = text.substring_char(a + skip, n);
            assert(fm@ =~= rest@.subrange(0, idx as int));
            assert(body@ =~= frontmatter(text@).1);
            (Some(fm), body)
        },
    }
}

/// `s` with every leading copy of `p` removed (`str::trim_start_matches`).
pub open spec fn strip_prefixes(s: Seq<char>, p: Seq<char>) -> Seq<char>
    decreases s.len(),
{
    if p.len() > 0 && p.is_prefix_of(s) {
        strip_prefixes(s.subrange(p.len() as int, s.len() as int), p)
    } else {
        s
    }
}

pub fn strip_prefixes_exec(s: &[char], p: &[char]) -> (r: Vec<char>)
    ensures
        r@ == strip_prefixes(s@, p@),
{
    let mut i: usize = 0;
    let n = s.len();
    assert(s@.subrange(0, n as int) =~= s@);
    while p.len() > 0 && p.len() <= n - i
        invariant
            i <= n,
            n == s@.len(),
            strip_prefixes(s@, p@) == strip_prefixes(s@.subrange(i as int, n as int), p@),
        ensures
            i <= n,
            strip_prefixes(s@, p@) == s@.subrange(i as int, n as int),
        decreases n - i,
    {
        let w = slice_chars(s, i, i + p.len());
        if !chars_eq(w.as_slice(), p) {
            assert(!p@.is_prefix_of(s@.subrange(i as int, n as int))) by {
                if p@.is_prefix_of(s@.subrange(i as int, n as int)) {
                    assert(w@ =~= s@.subrange(i as int, n as int).subrange(0, p@.len() as int));
                }
            }
            break;
        }
        assert(s@.subrange(i as int, n as int).subrange(p@.len() as int, n - i) =~= s@.subrange(i + p@.len(), n as int));
        i = i + p.len();
    }
    slice_chars(s, i, n)
}

/// `acc` with `t` added at the end, unless `t` is empty or already there.
pub open spec fn add_tag(acc: Seq<Seq<char>>, t: Seq<char>) -> Seq<Seq<char>> {
    if t.len() > 0 && !acc.contains(t) {
        acc.push(t)
    } else {
        acc
    }
}

/// One item of an inline tag list, trimmed of whitespace and then of
/// double and single quotes.
pub open spec fn clean_item(item: Seq<char>) -> Seq<char> {
    crate::text::strip_both(crate::text::strip_both(trim(item), CharClass::DoubleQuote), CharClass::SingleQuote)
}

/// `acc` with the cleaned items of `items[i..]` added.
pub open spec fn add_items(acc: Seq<Seq<char>>, items: Seq<Seq<char>>, i: int) -> Seq<Seq<char>>
    decreases items.len() - i,
{
    if i < 0 || i >= items.len() {
        acc
    } else {
        add_items(add_tag(acc, clean_item(items[i])), items, i + 1)
    }
}

/// The items of an inline `tags:` value: the comma-separated list inside
/// `[...]`, or the bare comma-separated list, or none when it is empty.
pub open spec fn inline_items(inline: Seq<char>) -> Seq<Seq<char>> {
    if inline.len() > 0 && inline[0] == '[' && inline.last() == ']' && inline.len() >= 2 {
        split_on(inline.subrange(1, inline.len() - 1), ',')
    } else if inline.len() > 0 {
        split_on(inline, ',')
    } else {
        seq![]
    }
}

/// Tags from frontmatter lines `ls[i..]`: a `tags:` line with an inline
/// list, then `- item` lines while the list continues.
pub open spec fn fm_tags(ls: Seq<Seq<char>>, i: int, in_tags: bool, acc: Seq<Seq<char>>) -> Seq<Seq<char>>
    decreases ls.len() - i,
{
    if i < 0 || i >= ls.len() {
        acc
    } else {
        let line = ls[i];
        if "tags:"@.is_prefix_of(line) {
            let inline = trim(strip_prefixes(line, "tags:"@));
            fm_tags(ls, i + 1, true, add_items(acc, inline_items(inline), 0))
        } else if in_tags && "- "@.is_prefix_of(crate::text::strip_start(line, CharClass::Whitespace)) {
            let t = trim(strip_prefixes(trim(line), "- "@));
            fm_tags(ls, i + 1, true, add_tag(acc, t))
        } else {
            fm_tags(ls, i + 1, false, acc)
        }
    }
}

/// Tags from the words of one body line: every word that starts with `#`,
/// without the `#`.
pub open spec fn word_tags(ws: Seq<Seq<char>>, i: int, acc: Seq<Seq<char>>) -> Seq<Seq<char>>
    decreases ws.len() - i,
{
    if i < 0 || i >= ws.len() {
        acc
    } else {
        let w = ws[i];
        let acc2 = if w.len() > 0 && w[0] == '#' {
            add_tag(acc, w.drop_first())
        } else {
            acc
        };
        word_tags(ws, i + 1, acc2)
    }
}

/// Tags from body lines `ls[i..]`; lines that start with `#` are headings.
pub open spec fn body_tags(ls: Seq<Seq<char>>, i: int, acc: Seq<Seq<char>>) -> Seq<Seq<char>>
    decreases ls.len() - i,
{
    if i < 0 || i >= ls.len() {
        acc
    } else {
        let s = crate::text::strip_start(ls[i], CharClass::Whitespace);
        if s.len() > 0 && s[0] == '#' {
            body_tags(ls, i + 1, acc)
        } else {
            body_tags(ls, i + 1, word_tags(crate::text::words(ls[i]), 0, acc))
        }
    }
}

/// The tags of a note, in order of first appearance and each once: those
/// of the frontmatter `tags:` key, then the inline `#tags` of the body.
pub open spec fn note_tags_spec(text: Seq<char>) -> Seq<Seq<char>> {
    let (fm, body) = frontmatter(text);
    let from_fm = match fm {
        Some(f) => fm_tags(crate::text::lines(f), 0, false, seq![]),
        None => seq![],
    };
    body_tags(crate::text::lines(body), 0, from_fm)
}

fn add_tag_exec(acc: &mut Vec<Vec<char>>, t: Vec<char>)
    ensures
        views(final(acc)@) == add_tag(views(old(acc)@), t@),
{
    if t.len() > 0 && !crate::text::contains_chars(acc, t.as_slice()) {
        let ghost prev = views(acc@);
        acc.push(t);
        assert(views(acc@) =~= prev.push(t@));
    }
}

fn add_items_exec(acc: &mut Vec<Vec<char>>, items: &Vec<Vec<char>>)
    ensures
        views(final(acc)@) == add_items(views(old(acc)@), views(items@), 0),
{
    let ghost iv = views(items@);
    let ghost start = views(acc@);
    let mut i: usize = 0;
    while i < items.len()
        invariant
            i <= items@.len(),
            iv == views(items@),
            add_items(start, iv, 0) == add_items(views(acc@), iv, i as int),
        decreases items@.len() - i,
    {
        let it = &items[i];
        let t0 = trimmed(it.as_slice());
        let (a, b) = strip_both_at(t0.as_slice(), 0, t0.len(), CharClass::DoubleQuote);
        assert(t0@.subrange(0, t0@.len() as int) =~= t0@);
        let t1 = slice_chars(t0.as_slice(), a, b);
        let (c, d) = strip_both_at(t1.as_slice(), 0, t1.len(), CharClass::SingleQuote);
        assert(t1@.subrange(0, t1@.len() as int) =~= t1@);
        let t2 = slice_chars(t1.as_slice(), c, d);
        assert(t2@ == clean_item(iv[i as int]));
        add_tag_exec(acc, t2);
        i = i + 1;
    }
}

/// The tags of a note's text: frontmatter `tags:` first, then inline
/// `#tags`, each once.
pub fn note_tags(text: &str) -> (tags: Vec<String>)
    ensures
        tags@.len() == note_tags_spec(text@).len(),
        forall|k: int| 0 <= k < tags@.len() ==> (#[trigger] tags@[k])@ == note_tags_spec(text@)[k],
{
    let (fm, body) = split_frontmatter(text);
    let mut acc: Vec<Vec<char>> = Vec::new();
    let tags_key = chars_of("tags:");
    let dash = chars_of("- ");
    assert(views(acc@) =~= Seq::<Seq<char>>::empty());
    match fm {
        Some(f) => {
            let fc = chars_of(f);
            let ls = crate::text::lines_of(fc.as_slice());
            let ghost lv = views(ls@);
            let mut in_tags = false;
            let mut i: usize = 0;
            while i < ls.len()
                invariant
                    i <= ls@.len(),
                    lv == views(ls@),
                    lv == crate::text::lines(f@),
                    tags_key@ == "tags:"@,
                    dash@ == "- "@,
                    fm_tags(lv, 0, false, seq![]) == fm_tags(lv, i as int, in_tags, views(acc@)),
                decreases ls@.len() - i,
            {
                let line = &ls[i];
                if crate::text::has_prefix(line.as_slice(), tags_key.as_slice()) {
                    let rest = strip_prefixes_exec(line.as_slice(), tags_key.as_slice());
                    let inline = trimmed(rest.as_slice());
                    let n = inline.len();
                    let items: Vec<Vec<char>> = if n > 0 && inline[0] == '[' && inline[n - 1] == ']' && n >= 2 {
                        let inner = slice_chars(inline.as_slice(), 1, n - 1);
                        crate::text::split_chars(inner.as_slice(), ',')
                    } else if n > 0 {
                        crate::text::split_chars(inline.as_slice(), ',')
                    } else {
                        Vec::new()
                    };
                    assert(views(items@) =~= inline_items(inline@));
                    add_items_exec(&mut acc, &items);
                    in_tags = true;
                } else {
                    let s0 = crate::text::strip_start_at(line.as_slice(), 0, line.len(), CharClass::Whitespace);
                    assert(line@.subrange(0, line@.len() as int) =~= line@);
                    let ts = slice_chars(line.as_slice(), s0, line.len());
                    if in_tags && crate::text::has_prefix(ts.as_slice(), dash.as_slice()) {
                        let t0 = trimmed(line.as_slice());
                        let t1 = strip_prefixes_exec(t0.as_slice(), dash.as_slice());
                        let t = trimmed(t1.as_slice());
                        add_tag_exec(&mut acc, t);
                    } else {
                        in_tags = false;
                    }
                }
                i = i + 1;
            }
            assert(views(acc@) == fm_tags(crate::text::lines(f@), 0, false, seq![]));
        },
        None => {},
    }
    let bc = chars_of(body);
    let ls = crate::text::lines_of(bc.as_slice());
    let ghost lv = views(ls@);
    let ghost from_fm = views(acc@);
    let mut i: usize = 0;
    while i < ls.len()
        invariant
            i <= ls@.len(),
            lv == views(ls@),
            lv == crate::text::lines(body@),
            body_tags(lv, 0, from_fm) == body_tags(lv, i as int, views(acc@)),
        decreases ls@.len() - i,
    {
        let line = &ls[i];
        let s0 = crate::text::strip_start_at(line.as_slice(), 0, line.len(), CharClass::Whitespace);
        assert(line@.subrange(0, line@.len() as int) =~= line@);
        if s0 < line.len() && line[s0] == '#' {
            assert(crate::text::strip_start(lv[i as int], CharClass::Whitespace)[0] == '#');
        } else {
            let ws = crate::text::split_words(line.as_slice());
            let ghost wv = views(ws@);
            let ghost acc0 = views(acc@);
            let mut j: usize = 0;
            while j < ws.len()
                invariant
                    i < ls@.len(),
                    lv == views(ls@),
                    j <= ws@.len(),
                    wv == views(ws@),
                    wv == crate::text::words(lv[i as int]),
                    word_tags(wv, 0, acc0) == word_tags(wv, j as int, views(acc@)),
                decreases ws@.len() - j,
            {
                let w = &ws[j];
                if w.len() > 0 && w[0] == '#' {
                    let t = slice_chars(w.as_slice(), 1, w.len());
                    assert(t@ =~= w@.drop_first());
                    add_tag_exec(&mut acc, t);
                }
                j = j + 1;
            }
        }
        i = i + 1;
    }
    assert(views(acc@) == note_tags_spec(text@));
    let mut out: Vec<String> = Vec::new();
    let mut k: usize = 0;
    while k < acc.len()
        invariant
            views(acc@) == note_tags_spec(text@),
            k <= acc@.len(),
            out@.len() == k,
            forall|m: int| 0 <= m < k ==> (#[trigger] out@[m])@ == views(acc@)[m],
        decreases acc@.len() - k,
    {
        out.push(string_from_chars(acc[k].as_slice()));
        k = k + 1;
    }
    out
}

} // verus!

verus! {

/// The frontmatter lines that stay when the tags are rewritten: all but a
/// `tags:` line and the `- ` items right after it.
pub open spec fn kept_lines(ls: Seq<Seq<char>>, i: int, skip: bool) -> Seq<Seq<char>>
    decreases ls.len() - i,
{
    if i < 0 || i >= ls.len() {
        seq![]
    } else if "tags:"@.is_prefix_of(ls[i]) {
        kept_lines(ls, i + 1, true)
    } else if skip && "- "@.is_prefix_of(crate::text::strip_start(ls[i], CharClass::Whitespace)) {
        kept_lines(ls, i + 1, true)
    } else {
        seq![ls[i]] + kept_lines(ls, i + 1, false)
    }
}

/// The tag list as frontmatter items, `  - <tag>` per line.
pub open spec fn tag_block(tags: Seq<Seq<char>>) -> Seq<char>
    decreases tags.len(),
{
    if tags.len() == 0 {
        seq![]
    } else {
        tag_block(tags.drop_last()) + "  - "@ + tags.last() + "\n"@
    }
}

/// Lines, each ended by a line break.
pub open spec fn line_block(ls: Seq<Seq<char>>) -> Seq<char>
    decreases ls.len(),
{
    if ls.len() == 0 {
        seq![]
    } else {
        line_block(ls.drop_last()) + ls.last() + "\n"@
    }
}

/// A note's text with its frontmatter tags replaced by `tags`: the other
/// frontmatter lines stay, the tags come last as a list; a note without
/// frontmatter gets one (unless there are no tags), and a frontmatter left
/// empty is dropped.
pub open spec fn set_tags_spec(text: Seq<char>, tags: Seq<Seq<char>>) -> Seq<char> {
    let (fm, body) = frontmatter(text);
    match fm {
        None => if tags.len() == 0 {
            text
        } else {
            "---\ntags:\n"@ + tag_block(tags) + "---\n\n"@ + body
        },
        Some(f) => {
            let kept = kept_lines(crate::text::lines(f), 0, false);
            if kept.len() == 0 && tags.len() == 0 {
                body
            } else {
                "---\n"@ + line_block(kept) + (if tags.len() > 0 {
                    "tags:\n"@ + tag_block(tags)
                } else {
                    seq![]
                }) + "---\n\n"@ + body
            }
        },
    }
}

fn push_tag_block(out: &mut Vec<char>, tags: &[String])
    ensures
        final(out)@ == old(out)@ + tag_block(tags@.map_values(|t: String| t@)),
{
    let ghost tv = tags@.map_values(|t: String| t@);
    let ghost start = out@;
    let mut i: usize = 0;
    assert(tv.take(0) =~= Seq::<Seq<char>>::empty());
    while i < tags.len()
        invariant
            i <= tags@.len(),
            tv == tags@.map_values(|t: String| t@),
            out@ == start + tag_block(tv.take(i as int)),
        decreases tags@.len() - i,
    {
        push_str(out, "  - ");
        push_str(out, tags[i].as_str());
        push_str(out, "\n");
        assert(tv.take(i + 1).drop_last() =~= tv.take(i as int));
        assert(out@ =~= start + tag_block(tv.take(i + 1)));
        i = i + 1;
    }
    assert(tv.take(tags@.len() as int) =~= tv);
}

/// Rewrites the tags of a note's text.
pub fn set_tags(text: &str, tags: &[String]) -> (r: String)
    ensures
        r@ == set_tags_spec(text@, tags@.map_values(|t: String| t@)),
{
    proof {
        reveal_strlit("tags:");
        reveal_strlit("- ");
    }
    let ghost tv = tags@.map_values(|t: String| t@);
    let (fm, body) = split_frontmatter(text);
    match fm {
        None => {
            if tags.len() == 0 {
                return String::from_str(text);
            }
            let mut out = chars_of("---\ntags:\n");
            push_tag_block(&mut out, tags);
            push_str(&mut out, "---\n\n");
            push_str(&mut out, body);
            string_from_chars(out.as_slice())
        },
        Some(f) => {
            let fc = chars_of(f);
            let ls = crate::text::lines_of(fc.as_slice());
            let ghost lv = views(ls@);
            let key = chars_of("tags:");
            let dash = chars_of("- ");
            let mut kept: Vec<Vec<char>> = Vec::new();
            let mut skip = false;
            let mut i: usize = 0;
            assert(views(kept@) =~= Seq::<Seq<char>>::empty());
            while i < ls.len()
                invariant
                    i <= ls@.len(),
                    lv == views(ls@),
                    key@ == "tags:"@,
                    dash@ == "- "@,
                    kept_lines(lv, 0, false) == views(kept@) + kept_lines(lv, i as int, skip),
                decreases ls@.len() - i,
            {
                let line = &ls[i];
                let ghost before = views(kept@);
                if crate::text::has_prefix(line.as_slice(), key.as_slice()) {
                    skip = true;
                } else {
                    let s0 = crate::text::strip_start_at(line.as_slice(), 0, line.len(), CharClass::Whitespace);
                    assert(line@.subrange(0, line@.len() as int) =~= line@);
                    let ts = slice_chars(line.as_slice(), s0, line.len());
                    if skip && crate::text::has_prefix(ts.as_slice(), dash.as_slice()) {
                    } else {
                        skip = false;
                        kept.push(line.clone());
                        assert(views(kept@) =~= before.push(lv[i as int]));
                        assert(before + kept_lines(lv, i as int, false) =~= before.push(lv[i as int]) + kept_lines(lv, i + 1, false));
                    }
                }
                i = i + 1;
            }
            assert(views(kept@) =~= views(kept@) + Seq::<Seq<char>>::empty());
            if kept.len() == 0 && tags.len() == 0 {
                return String::from_str(body);
            }
            let mut out = chars_of("---\n");
            let mut j: usize = 0;
            let ghost kv = views(kept@);
            let ghost start = out@;
            assert(kv.take(0) =~= Seq::<Seq<char>>::empty());
            while j < kept.len()
                invariant
                    j <= kept@.len(),
                    kv == views(kept@),
                    out@ == start + line_block(kv.take(j as int)),
                decreases kept@.len() - j,
            {
                push_chars(&mut out, kept[j].as_slice());
                push_str(&mut out, "\n");
                assert(kv.take(j + 1).drop_last() =~= kv.take(j as int));
                assert(out@ =~= start + line_block(kv.take(j + 1)));
                j = j + 1;
            }
            assert(kv.take(kept@.len() as int) =~= kv);
            if tags.len() > 0 {
                push_str(&mut out, "tags:\n");
                push_tag_block(&mut out, tags);
            }
            push_str(&mut out, "---\n\n");
            push_str(&mut out, body);
            string_from_chars(out.as_slice())
        },
    }
}

} // verus!
