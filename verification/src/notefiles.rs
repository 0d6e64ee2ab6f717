//! Notes as the command line handles them: finding a note from what the
//! user typed, the folder filters, the image links of a note, mentions and
//! backlinks, text search, exports, templates, attachments and pins.
use vstd::prelude::*;
use vstd::utf8::encode_utf8;
use crate::notetext::{encode_uri_component, html_escape, html_escape_spec, replace_all, replace_chars, uri_encode};
use crate::order::{ascending, descending, sort_names};
use crate::http::{extension, file_stem, path_extension, path_file_stem};
use crate::table::join_chars;
use crate::text::{
    chars_eq, chars_of, contains_text, dec, digit_char, find_sub, find_sub_exec, has_prefix, has_sub, has_suffix, join, lemma_find_sub,
    lowercase, push_chars, push_str, slice_chars, split_words, str_eq, string_from_chars, strip_both, strip_end,
    strip_suffixes, strip_suffixes_exec, stripped, stripped_end, to_lowercase, trim, views, words, CharClass,
};
use crate::vaults::{string_views, with_item};

verus! {

/// A note in the vault: its file name and its path from the vault root.
pub struct NoteRef {
    pub name: String,
    pub rel: String,
}

/// Notes as `(name, rel)` values.
pub open spec fn refs_view(ns: Seq<NoteRef>) -> Seq<(Seq<char>, Seq<char>)> {
    ns.map_values(|n: NoteRef| (n.name@, n.rel@))
}

/// `s`, with `.md` added unless it already ends in it.
pub open spec fn with_md(s: Seq<char>) -> Seq<char> {
    if ".md"@.is_suffix_of(s) {
        s
    } else {
        s + ".md"@
    }
}

/// The file name a note reference names.
pub fn md_name(s: &str) -> (r: String)
    ensures
        r@ == with_md(s@),
{
    let c = chars_of(s);
    let e = chars_of(".md");
    if has_suffix(c.as_slice(), e.as_slice()) {
        String::from_str(s)
    } else {
        let mut v = c;
        push_str(&mut v, ".md");
        string_from_chars(v.as_slice())
    }
}

/// The index of the first note whose path is `rel`, or -1.
pub open spec fn first_rel(ns: Seq<(Seq<char>, Seq<char>)>, rel: Seq<char>, i: int) -> int
    decreases ns.len() - i,
{
    if i < 0 || i >= ns.len() {
        -1
    } else if ns[i].1 == rel {
        i
    } else {
        first_rel(ns, rel, i + 1)
    }
}

/// The indices of the notes among the first `n` whose file name is `name`.
pub open spec fn named(ns: Seq<(Seq<char>, Seq<char>)>, name: Seq<char>, n: int) -> Seq<int>
    decreases n,
{
    if n <= 0 {
        seq![]
    } else if ns[n - 1].0 == name {
        named(ns, name, n - 1).push(n - 1)
    } else {
        named(ns, name, n - 1)
    }
}

/// Which note a reference means: the note with that path; else the one
/// note with that file name (`.md` added when missing); no note, or more
/// than one, is an error.
pub open spec fn resolve_spec(ns: Seq<(Seq<char>, Seq<char>)>, input: Seq<char>) -> Result<int, Seq<char>> {
    let by_rel = first_rel(ns, input, 0);
    if by_rel >= 0 {
        Ok(by_rel)
    } else {
        let m = named(ns, with_md(input), ns.len() as int);
        if m.len() == 1 {
            Ok(m[0])
        } else if m.len() == 0 {
            Err("Note not found: "@ + input)
        } else {
            Err("Ambiguous note name, use a folder path: "@ + join(m.map_values(|k: int| ns[k].1), ", "@))
        }
    }
}

proof fn lemma_named_bounds(ns: Seq<(Seq<char>, Seq<char>)>, name: Seq<char>, n: int)
    requires
        n <= ns.len(),
    ensures
        forall|j: int| 0 <= j < named(ns, name, n).len() ==> 0 <= #[trigger] named(ns, name, n)[j] < n,
    decreases n,
{
    if n > 0 {
        lemma_named_bounds(ns, name, n - 1);
        let prev = named(ns, name, n - 1);
        assert forall|j: int| 0 <= j < named(ns, name, n).len() implies 0 <= #[trigger] named(ns, name, n)[j] < n by {
            if ns[n - 1].0 == name {
                if j < prev.len() {
                    assert(named(ns, name, n)[j] == prev[j]);
                }
            } else {
                assert(named(ns, name, n)[j] == prev[j]);
            }
        }
    }
}

/// Finds the note a reference means among `notes` (the vault's notes by path).
pub fn resolve_note(notes: &[NoteRef], input: &str) -> (r: Result<usize, String>)
    ensures
        match r {
            Ok(k) => resolve_spec(refs_view(notes@), input@) == Ok::<int, Seq<char>>(k as int),
            Err(e) => resolve_spec(refs_view(notes@), input@) == Err::<int, Seq<char>>(e@),
        },
{
    let ghost ns = refs_view(notes@);
    let mut i: usize = 0;
    while i < notes.len()
        invariant
            i <= notes@.len(),
            ns == refs_view(notes@),
            first_rel(ns, input@, 0) == first_rel(ns, input@, i as int),
        decreases notes@.len() - i,
    {
        if str_eq(notes[i].rel.as_str(), input) {
            return Ok(i);
        }
        i = i + 1;
    }
    let want = md_name(input);
    let mut found: Vec<usize> = Vec::new();
    let mut j: usize = 0;
    while j < notes.len()
        invariant
            j <= notes@.len(),
            ns == refs_view(notes@),
            want@ == with_md(input@),
            found@.map_values(|k: usize| k as int) == named(ns, want@, j as int),
        decreases notes@.len() - j,
    {
        let ghost before = found@.map_values(|k: usize| k as int);
        if str_eq(notes[j].name.as_str(), want.as_str()) {
            found.push(j);
            assert(found@.map_values(|k: usize| k as int) =~= before.push(j as int));
        }
        j = j + 1;
    }
    proof {
        lemma_named_bounds(ns, want@, notes@.len() as int);
    }
    let ghost m = named(ns, want@, notes@.len() as int);
    assert(found@.len() == m.len());
    if found.len() == 1 {
        assert(m[0] == found@[0] as int);
        Ok(found[0])
    } else if found.len() == 0 {
        let mut v = chars_of("Note not found: ");
        push_str(&mut v, input);
        Err(string_from_chars(v.as_slice()))
    } else {
        let mut parts: Vec<Vec<char>> = Vec::new();
        let mut k: usize = 0;
        while k < found.len()
            invariant
                k <= found@.len(),
                ns == refs_view(notes@),
                m == named(ns, want@, notes@.len() as int),
                found@.map_values(|x: usize| x as int) == m,
                forall|q: int| 0 <= q < m.len() ==> 0 <= #[trigger] m[q] < notes@.len(),
                views(parts@) =~= m.take(k as int).map_values(|x: int| ns[x].1),
            decreases found@.len() - k,
        {
            assert(m[k as int] == found@[k as int] as int);
            let ghost before = views(parts@);
            parts.push(chars_of(notes[found[k]].rel.as_str()));
            assert(views(parts@) =~= before.push(ns[m[k as int]].1));
            assert(m.take(k + 1).map_values(|x: int| ns[x].1) =~= m.take(k as int).map_values(|x: int| ns[x].1).push(ns[m[k as int]].1));
            k = k + 1;
        }
        assert(m.take(m.len() as int) =~= m);
        let mut v = chars_of("Ambiguous note name, use a folder path: ");
        let joined = join_chars(&parts, ", ");
        push_chars(&mut v, joined.as_slice());
        Err(string_from_chars(v.as_slice()))
    }
}

/// A folder argument without its leading and trailing slashes.
pub open spec fn folder_arg(rel: Seq<char>) -> Seq<char> {
    strip_both(rel, CharClass::Slash)
}

/// Whether the note at `rel` lies directly in folder `folder` (given as
/// the user typed it).
pub open spec fn directly_in(rel: Seq<char>, folder: Seq<char>) -> bool {
    let p = folder_arg(folder) + "/"@;
    p.is_prefix_of(rel) && !rel.subrange(p.len() as int, rel.len() as int).contains('/')
}

/// Whether the note at `rel` lies in folder `folder` or below it.
pub open spec fn under(rel: Seq<char>, folder: Seq<char>) -> bool {
    (folder_arg(folder) + "/"@).is_prefix_of(rel)
}

fn folder_prefix(folder: &str) -> (r: Vec<char>)
    ensures
        r@ == folder_arg(folder@) + "/"@,
{
    let c = chars_of(folder);
    let mut p = stripped(c.as_slice(), CharClass::Slash);
    push_str(&mut p, "/");
    p
}

/// Whether a note lies directly in a folder (the `list --folder` filter).
pub fn is_directly_in(rel: &str, folder: &str) -> (r: bool)
    ensures
        r == directly_in(rel@, folder@),
{
    let p = folder_prefix(folder);
    let c = chars_of(rel);
    if !has_prefix(c.as_slice(), p.as_slice()) {
        return false;
    }
    let rest = slice_chars(c.as_slice(), p.len(), c.len());
    !crate::text::contains_char(rest.as_slice(), '/')
}

/// Whether a note lies in a folder or below it (the `search --folder`
/// filter and the per-folder note count).
pub fn is_under(rel: &str, folder: &str) -> (r: bool)
    ensures
        r == under(rel@, folder@),
{
    let p = folder_prefix(folder);
    let c = chars_of(rel);
    has_prefix(c.as_slice(), p.as_slice())
}

/// The folder of a note's path: everything before its last `/`, `None` in the root.
pub open spec fn folder_of_spec(rel: Seq<char>) -> Option<Seq<char>> {
    match rel.index_of_last('/') {
        Some(k) => Some(rel.subrange(0, k)),
        None => None,
    }
}

/// The folder a note lies in.
pub fn folder_of(rel: &str) -> (r: Option<String>)
    ensures
        match r {
            Some(f) => folder_of_spec(rel@) == Some(f@),
            None => folder_of_spec(rel@) is None,
        },
{
    let c = chars_of(rel);
    let mut k: usize = c.len();
    while k > 0 && c[k - 1] != '/'
        invariant
            k <= c@.len(),
            forall|j: int| k <= j < c@.len() ==> c@[j] != '/',
        decreases k,
    {
        k = k - 1;
    }
    proof {
        c@.index_of_last_ensures('/');
    }
    if k == 0 {
        None
    } else {
        assert(c@[k - 1] == '/');
        Some(string_from_chars(slice_chars(c.as_slice(), 0, k - 1).as_slice()))
    }
}

/// The first whitespace-separated word of `s`, or the empty text.
pub open spec fn first_word(s: Seq<char>) -> Seq<char> {
    if words(s).len() > 0 {
        words(s)[0]
    } else {
        seq![]
    }
}

/// Image targets that are not local files.
pub open spec fn remote_target(t: Seq<char>) -> bool {
    t.len() == 0 || "http://"@.is_prefix_of(t) || "https://"@.is_prefix_of(t) || "data:"@.is_prefix_of(t)
}

/// The markdown images of `c` from `cursor` on, as `(alt text, target)`:
/// each `![alt](target)` whose target (the first word inside the
/// parentheses, quotes trimmed) names a local file; scanning stops at the
/// first unclosed link.
pub open spec fn images_from(c: Seq<char>, cursor: int) -> Seq<(Seq<char>, Seq<char>)>
    decreases c.len() + 1 - cursor,
{
    if cursor < 0 || cursor > c.len() {
        seq![]
    } else {
        let r = find_sub(c, seq!['!', '['], cursor);
        if r < 0 {
            seq![]
        } else {
            let ls = r + 2;
            let lr = find_sub(c, seq![']', '('], ls);
            if lr < 0 {
                seq![]
            } else {
                let us = lr + 2;
                let ur = find_sub(c, seq![')'], us);
                if ur < 0 {
                    seq![]
                } else {
                    proof {
                        lemma_find_sub(c, seq!['!', '['], cursor);
                        lemma_find_sub(c, seq![']', '('], ls);
                        lemma_find_sub(c, seq![')'], us);
                    }
                    let alt = trim(c.subrange(ls, lr));
                    let target = first_word(strip_both(trim(c.subrange(us, ur)), CharClass::AnyQuote));
                    let rest = images_from(c, ur + 1);
                    if remote_target(target) {
                        rest
                    } else {
                        seq![(alt, target)] + rest
                    }
                }
            }
        }
    }
}

/// Where each image that `images_from(c, cursor)` gives starts: the index
/// of its `![`.
pub open spec fn image_starts(c: Seq<char>, cursor: int) -> Seq<int>
    decreases c.len() + 1 - cursor,
{
    if cursor < 0 || cursor > c.len() {
        seq![]
    } else {
        let r = find_sub(c, seq!['!', '['], cursor);
        if r < 0 {
            seq![]
        } else {
            let ls = r + 2;
            let lr = find_sub(c, seq![']', '('], ls);
            if lr < 0 {
                seq![]
            } else {
                let us = lr + 2;
                let ur = find_sub(c, seq![')'], us);
                if ur < 0 {
                    seq![]
                } else {
                    proof {
                        lemma_find_sub(c, seq!['!', '['], cursor);
                        lemma_find_sub(c, seq![']', '('], ls);
                        lemma_find_sub(c, seq![')'], us);
                    }
                    let target = first_word(strip_both(trim(c.subrange(us, ur)), CharClass::AnyQuote));
                    let rest = image_starts(c, ur + 1);
                    if remote_target(target) {
                        rest
                    } else {
                        seq![r] + rest
                    }
                }
            }
        }
    }
}

/// The number of `![` markers in `c` that start at or after `i`.
pub open spec fn image_markers(c: Seq<char>, i: int) -> nat
    decreases c.len() - i,
{
    if i < 0 || i + 2 > c.len() {
        0
    } else {
        image_markers(c, i + 1) + if c.subrange(i, i + 2) == seq!['!', '['] {
            1nat
        } else {
            0nat
        }
    }
}

proof fn lemma_image_markers_mono(c: Seq<char>, i: int, j: int)
    requires
        0 <= i <= j,
    ensures
        image_markers(c, i) >= image_markers(c, j),
    decreases j - i,
{
    if i < j {
        lemma_image_markers_mono(c, i + 1, j);
    }
}

/// The images of `c` from `cursor` on: no more of them than `![` markers,
/// each starting at a marker, in the order of the text, none of them remote.
pub proof fn lemma_images_from(c: Seq<char>, cursor: int)
    requires
        0 <= cursor,
    ensures
        image_starts(c, cursor).len() == images_from(c, cursor).len(),
        images_from(c, cursor).len() <= image_markers(c, cursor),
        forall|k: int|
            0 <= k < images_from(c, cursor).len() ==> !remote_target(#[trigger] images_from(c, cursor)[k].1),
        forall|k: int|
            0 <= k < image_starts(c, cursor).len() ==> cursor <= #[trigger] image_starts(c, cursor)[k] && c.subrange(
                image_starts(c, cursor)[k],
                image_starts(c, cursor)[k] + 2,
            ) == seq!['!', '['],
        forall|k: int, m: int|
            0 <= k < m < image_starts(c, cursor).len() ==> #[trigger] image_starts(c, cursor)[k]
                < #[trigger] image_starts(c, cursor)[m],
    decreases c.len() + 1 - cursor,
{
    if cursor <= c.len() {
        let pat = seq!['!', '['];
        let r = find_sub(c, pat, cursor);
        lemma_find_sub(c, pat, cursor);
        if r >= 0 {
            crate::text::lemma_find_sub_first(c, pat, cursor);
            let ls = r + 2;
            let lr = find_sub(c, seq![']', '('], ls);
            lemma_find_sub(c, seq![']', '('], ls);
            if lr >= 0 {
                let us = lr + 2;
                let ur = find_sub(c, seq![')'], us);
                lemma_find_sub(c, seq![')'], us);
                if ur >= 0 {
                    lemma_images_from(c, ur + 1);
                    lemma_image_markers_mono(c, r + 1, ur + 1);
                    lemma_markers_skip(c, cursor, r);
                    let rest = images_from(c, ur + 1);
                    let rs = image_starts(c, ur + 1);
                    let imgs = images_from(c, cursor);
                    let st = image_starts(c, cursor);
                    if imgs.len() > rest.len() {
                        assert forall|k: int| 0 <= k < imgs.len() implies !remote_target(#[trigger] imgs[k].1) by {
                            if k > 0 {
                                assert(imgs[k] == rest[k - 1]);
                            }
                        }
                        assert forall|k: int| 0 <= k < st.len() implies cursor <= #[trigger] st[k] && c.subrange(st[k], st[k] + 2) == pat by {
                            if k > 0 {
                                assert(st[k] == rs[k - 1]);
                            }
                        }
                        assert forall|k: int, m: int| 0 <= k < m < st.len() implies #[trigger] st[k] < #[trigger] st[m] by {
                            assert(st[m] == rs[m - 1]);
                            if k > 0 {
                                assert(st[k] == rs[k - 1]);
                            }
                        }
                    }
                }
            }
        }
    }
}

/// The markers from `i` on are those from the first marker at or after `i`.
proof fn lemma_markers_skip(c: Seq<char>, i: int, r: int)
    requires
        0 <= i <= r,
        r + 2 <= c.len(),
        forall|q: int| i <= q < r ==> #[trigger] c.subrange(q, q + 2) != seq!['!', '['],
        c.subrange(r, r + 2) == seq!['!', '['],
    ensures
        image_markers(c, i) == image_markers(c, r + 1) + 1,
    decreases r - i,
{
    if i < r {
        lemma_markers_skip(c, i + 1, r);
    }
}

fn first_word_exec(s: &[char]) -> (r: Vec<char>)
    ensures
        r@ == first_word(s@),
{
    let ws = split_words(s);
    if ws.len() > 0 {
        ws[0].clone()
    } else {
        Vec::new()
    }
}

/// The local images a note's text shows, as `(alt text, target)`; the
/// target is resolved against the vault root by the caller.
pub fn note_images(content: &str) -> (r: Vec<(String, String)>)
    ensures
        r@.map_values(|p: (String, String)| (p.0@, p.1@)) == images_from(content@, 0),
{
    let c = chars_of(content);
    let open = chars_of("![");
    let mid = chars_of("](");
    let close = chars_of(")");
    let http = chars_of("http://");
    let https = chars_of("https://");
    let data = chars_of("data:");
    proof {
        reveal_strlit("![");
        reveal_strlit("](");
        reveal_strlit(")");
        assert(open@ =~= seq!['!', '[']);
        assert(mid@ =~= seq![']', '(']);
        assert(close@ =~= seq![')']);
    }
    let mut out: Vec<(String, String)> = Vec::new();
    let mut cursor: usize = 0;
    let n = c.len();
    loop
        invariant
            n == c@.len(),
            cursor <= c@.len(),
            open@ == seq!['!', '['],
            mid@ == seq![']', '('],
            close@ == seq![')'],
            open@.len() == 2,
            mid@.len() == 2,
            close@.len() == 1,
            http@ == "http://"@,
            https@ == "https://"@,
            data@ == "data:"@,
            out@.map_values(|p: (String, String)| (p.0@, p.1@)) + images_from(c@, cursor as int) == images_from(content@, 0),
        decreases c@.len() + 1 - cursor,
    {
        let ghost before = out@.map_values(|p: (String, String)| (p.0@, p.1@));
        let r = match find_sub_exec(c.as_slice(), open.as_slice(), cursor) {
            Some(r) => r,
            None => {
                assert(images_from(c@, cursor as int) =~= Seq::<(Seq<char>, Seq<char>)>::empty());
                assert(before + images_from(c@, cursor as int) =~= before);
                return out;
            },
        };
        assert(r + open@.len() <= n);
        let ls = r + 2;
        let lr = match find_sub_exec(c.as_slice(), mid.as_slice(), ls) {
            Some(x) => x,
            None => {
                assert(before + images_from(c@, cursor as int) =~= before);
                return out;
            },
        };
        assert(lr + mid@.len() <= n);
        let us = lr + 2;
        let ur = match find_sub_exec(c.as_slice(), close.as_slice(), us) {
            Some(x) => x,
            None => {
                assert(before + images_from(c@, cursor as int) =~= before);
                return out;
            },
        };
        let label = slice_chars(c.as_slice(), ls, lr);
        let alt = crate::notetext::trimmed(label.as_slice());
        let inner = slice_chars(c.as_slice(), us, ur);
        let raw = crate::notetext::trimmed(inner.as_slice());
        let unq = stripped(raw.as_slice(), CharClass::AnyQuote);
        let target = first_word_exec(unq.as_slice());
        let skip = target.len() == 0 || has_prefix(target.as_slice(), http.as_slice()) || has_prefix(
            target.as_slice(),
            https.as_slice(),
        ) || has_prefix(target.as_slice(), data.as_slice());
        if !skip {
            out.push((string_from_chars(alt.as_slice()), string_from_chars(target.as_slice())));
            assert(out@.map_values(|p: (String, String)| (p.0@, p.1@)) =~= before.push((alt@, target@)));
            assert(before.push((alt@, target@)) + images_from(c@, ur + 1) =~= before + (seq![(alt@, target@)] + images_from(c@, ur + 1)));
        }
        cursor = ur + 1;
    }
}

/// The title of a note: its file name without `.md` endings.
pub open spec fn note_title(name: Seq<char>) -> Seq<char> {
    strip_suffixes(name, ".md"@)
}

fn title_of(name: &str) -> (r: Vec<char>)
    ensures
        r@ == note_title(name@),
{
    let c = chars_of(name);
    let e = chars_of(".md");
    strip_suffixes_exec(c.as_slice(), e.as_slice())
}

/// The mention-link start `(note:<encoded path>` of a note.
pub open spec fn mention_start(path: Seq<char>) -> Seq<char> {
    "(note:"@ + uri_encode(encode_utf8(path))
}

fn mention_start_of(path: &str) -> (r: Vec<char>)
    ensures
        r@ == mention_start(path@),
{
    let mut v = chars_of("(note:");
    let e = encode_uri_component(path);
    push_str(&mut v, e.as_str());
    v
}

/// Whether `content` links to the note `name` at `abs` (vault-relative
/// path `rel`): by a mention of either path or a `[[title]]`/`[[title|`
/// wiki link.
pub open spec fn links_to(content: Seq<char>, name: Seq<char>, abs: Seq<char>, rel: Seq<char>) -> bool {
    let title = note_title(name);
    has_sub(content, mention_start(abs)) || has_sub(content, mention_start(rel)) || has_sub(
        content,
        "[["@ + title + "]]"@,
    ) || has_sub(content, "[["@ + title + "|"@)
}

/// Whether a note's text links to the given note (a backlink).
pub fn is_backlink(content: &str, name: &str, abs: &str, rel: &str) -> (r: bool)
    ensures
        r == links_to(content@, name@, abs@, rel@),
{
    let c = chars_of(content);
    let title = title_of(name);
    let a = mention_start_of(abs);
    let b = mention_start_of(rel);
    let mut w1 = chars_of("[[");
    push_chars(&mut w1, title.as_slice());
    let mut w2 = w1.clone();
    push_str(&mut w1, "]]");
    push_str(&mut w2, "|");
    find_sub_exec(c.as_slice(), a.as_slice(), 0).is_some() || find_sub_exec(c.as_slice(), b.as_slice(), 0).is_some()
        || find_sub_exec(c.as_slice(), w1.as_slice(), 0).is_some() || find_sub_exec(c.as_slice(), w2.as_slice(), 0).is_some()
}

/// The lower-case title searched for in other notes; an empty title is refused.
pub open spec fn mention_title_spec(name: Seq<char>) -> Result<Seq<char>, Seq<char>> {
    let t = lowercase(note_title(name));
    if t.len() == 0 {
        Err("Note has an empty title"@)
    } else {
        Ok(t)
    }
}

/// The title whose unlinked mentions are looked for.
pub fn mention_title(name: &str) -> (r: Result<String, String>)
    ensures
        match r {
            Ok(t) => mention_title_spec(name@) == Ok::<Seq<char>, Seq<char>>(t@),
            Err(e) => mention_title_spec(name@) == Err::<Seq<char>, Seq<char>>(e@),
        },
{
    let t = string_from_chars(title_of(name).as_slice());
    let l = to_lowercase(t.as_str());
    if chars_of(l.as_str()).len() == 0 {
        Err(String::from_str("Note has an empty title"))
    } else {
        Ok(l)
    }
}

/// Whether `content` mentions the (lower-case) `title` in plain text
/// without linking to the note at `abs` / `rel`.
pub open spec fn unlinked_spec(content: Seq<char>, title: Seq<char>, abs: Seq<char>, rel: Seq<char>) -> bool {
    has_sub(lowercase(content), title) && !has_sub(content, mention_start(abs)) && !has_sub(content, mention_start(rel))
        && !has_sub(content, "[["@ + title)
}

/// Whether a note's text is an unlinked mention of the note.
pub fn is_unlinked_mention(content: &str, title: &str, abs: &str, rel: &str) -> (r: bool)
    ensures
        r == unlinked_spec(content@, title@, abs@, rel@),
{
    let c = chars_of(content);
    let lower = to_lowercase(content);
    let lc = chars_of(lower.as_str());
    let t = chars_of(title);
    let a = mention_start_of(abs);
    let b = mention_start_of(rel);
    let mut w = chars_of("[[");
    push_chars(&mut w, t.as_slice());
    find_sub_exec(lc.as_slice(), t.as_slice(), 0).is_some() && find_sub_exec(c.as_slice(), a.as_slice(), 0).is_none()
        && find_sub_exec(c.as_slice(), b.as_slice(), 0).is_none() && find_sub_exec(c.as_slice(), w.as_slice(), 0).is_none()
}

/// How many times `p` occurs in `s` from `i` on, without overlaps, as
/// `str::matches(..).count()` counts (an empty pattern matches at every
/// character boundary).
pub open spec fn count_from(s: Seq<char>, p: Seq<char>, i: int) -> int
    decreases s.len() + 1 - i,
{
    if i < 0 || i > s.len() {
        0
    } else if p.len() == 0 {
        s.len() - i + 1
    } else {
        let f = find_sub(s, p, i);
        if f < 0 {
            0
        } else {
            proof {
                lemma_find_sub(s, p, i);
            }
            1 + count_from(s, p, f + p.len())
        }
    }
}

/// How many times the (lower-case) query occurs in a note's lower-cased text.
pub open spec fn search_hits(content: Seq<char>, query_lower: Seq<char>) -> int {
    count_from(lowercase(content), query_lower, 0)
}

/// Counts the occurrences of the query in a note's text, ignoring case;
/// `None` when the count does not fit in a `usize`.
pub fn count_matches(content: &str, query_lower: &str) -> (r: Option<usize>)
    ensures
        match r {
            Some(n) => n as int == search_hits(content@, query_lower@),
            None => search_hits(content@, query_lower@) > usize::MAX,
        },
{
    let lower = to_lowercase(content);
    let c = chars_of(lower.as_str());
    let p = chars_of(query_lower);
    if p.len() == 0 {
        if c.len() < usize::MAX {
            return Some(c.len() + 1);
        } else {
            return None;
        }
    }
    let mut n: usize = 0;
    let mut i: usize = 0;
    while i <= c.len()
        invariant
            i <= c@.len() + 1,
            p@.len() > 0,
            p@ == query_lower@,
            n <= i,
            c@ == lowercase(content@),
            n + count_from(c@, p@, i as int) == count_from(c@, p@, 0),
        decreases c@.len() + 1 - i,
    {
        match find_sub_exec(c.as_slice(), p.as_slice(), i) {
            None => {
                assert(count_from(c@, p@, i as int) == 0);
                return Some(n);
            },
            Some(f) => {
                assert(count_from(c@, p@, i as int) == 1 + count_from(c@, p@, f + p@.len()));
                n = n + 1;
                i = f + p.len();
            },
        }
    }
    assert(count_from(c@, p@, i as int) == 0);
    Some(n)
}

/// Counts the matches of a search query in a note's text, ignoring case:
/// the query is lower-cased as the text is; `None` when the count does not
/// fit in a `usize`.
pub fn note_search_hits(content: &str, query: &str) -> (r: Option<usize>)
    ensures
        match r {
            Some(n) => n as int == search_hits(content@, lowercase(query@)),
            None => search_hits(content@, lowercase(query@)) > usize::MAX,
        },
{
    let q = to_lowercase(query);
    count_matches(content, q.as_str())
}

/// The start of an exported HTML page, up to the title.
pub const EXPORT_HEAD: &'static str = "<!doctype html>\n<html>\n<head>\n<meta charset=\"utf-8\">\n<title>";

/// The rest of the page head: its style sheet, up to the heading.
pub const EXPORT_STYLE: &'static str = "</title>\n<style>\nbody { font-family: -apple-system, 'Segoe UI', sans-serif; max-width: 720px; margin: 2rem auto; padding: 0 1rem; color: #1f2328; line-height: 1.6; }\npre { background: #f6f8fa; padding: 0.75rem; border-radius: 6px; overflow-x: auto; }\ncode { background: #f6f8fa; padding: 0.1rem 0.3rem; border-radius: 4px; }\nblockquote { border-left: 3px solid #d0d7de; margin: 0.5rem 0; padding: 0.25rem 0.9rem; color: #59636e; }\ntable { border-collapse: collapse; }\nth, td { border: 1px solid #d0d7de; padding: 0.35rem 0.7rem; }\nimg { max-width: 100%; }\n</style>\n</head>\n<body>\n<h1>";

/// The page exporting a note: its title as the page title and heading,
/// its text escaped inside `<pre>`.
pub open spec fn export_html_spec(title: Seq<char>, content: Seq<char>) -> Seq<char> {
    EXPORT_HEAD@ + title + EXPORT_STYLE@ + title + "</h1>\n<pre>"@ + html_escape_spec(content) + "</pre>\n</body>\n</html>\n"@
}

/// The HTML page of an exported note.
pub fn export_html(title: &str, content: &str) -> (r: String)
    ensures
        r@ == export_html_spec(title@, content@),
{
    let mut v = chars_of(EXPORT_HEAD);
    push_str(&mut v, title);
    push_str(&mut v, EXPORT_STYLE);
    push_str(&mut v, title);
    push_str(&mut v, "</h1>\n<pre>");
    let e = html_escape(content);
    push_str(&mut v, e.as_str());
    push_str(&mut v, "</pre>\n</body>\n</html>\n");
    string_from_chars(v.as_slice())
}

/// The file name of an export of note `name`: `<title>.html` for HTML,
/// else `<title>.md`.
pub open spec fn export_name_spec(name: Seq<char>, html: bool) -> Seq<char> {
    note_title(name) + if html {
        ".html"@
    } else {
        ".md"@
    }
}

/// The file name an export is written to next to the note.
pub fn export_name(name: &str, html: bool) -> (r: String)
    ensures
        r@ == export_name_spec(name@, html),
{
    let mut t = title_of(name);
    if html {
        push_str(&mut t, ".html");
    } else {
        push_str(&mut t, ".md");
    }
    string_from_chars(t.as_slice())
}

/// A template's text with its variables filled in: `{{title}}`,
/// `{{date}}`, `{{time}}`, `{{yesterday}}` and `{{tomorrow}}`, in this order.
pub open spec fn fill_template_spec(
    body: Seq<char>,
    title: Seq<char>,
    date: Seq<char>,
    time: Seq<char>,
    yesterday: Seq<char>,
    tomorrow: Seq<char>,
) -> Seq<char> {
    replace_all(
        replace_all(
            replace_all(
                replace_all(replace_all(body, "{{title}}"@, title), "{{date}}"@, date),
                "{{time}}"@,
                time,
            ),
            "{{yesterday}}"@,
            yesterday,
        ),
        "{{tomorrow}}"@,
        tomorrow,
    )
}

fn replaced(s: Vec<char>, pat: &str, rep: &str) -> (r: Vec<char>)
    requires
        pat@.len() > 0,
    ensures
        r@ == replace_all(s@, pat@, rep@),
{
    let p = chars_of(pat);
    let q = chars_of(rep);
    replace_chars(s.as_slice(), p.as_slice(), q.as_slice())
}

/// Fills in a template's variables.
pub fn fill_template(body: &str, title: &str, date: &str, time: &str, yesterday: &str, tomorrow: &str) -> (r: String)
    ensures
        r@ == fill_template_spec(body@, title@, date@, time@, yesterday@, tomorrow@),
{
    proof {
        reveal_strlit("{{title}}");
        reveal_strlit("{{date}}");
        reveal_strlit("{{time}}");
        reveal_strlit("{{yesterday}}");
        reveal_strlit("{{tomorrow}}");
    }
    let v = chars_of(body);
    let v = replaced(v, "{{title}}", title);
    let v = replaced(v, "{{date}}", date);
    let v = replaced(v, "{{time}}", time);
    let v = replaced(v, "{{yesterday}}", yesterday);
    let v = replaced(v, "{{tomorrow}}", tomorrow);
    string_from_chars(v.as_slice())
}

/// A note's text with an image link to an attached file appended on a
/// line of its own (trailing whitespace of the text dropped first).
pub open spec fn attach_text_spec(text: Seq<char>, file_name: Seq<char>, rel: Seq<char>) -> Seq<char> {
    strip_end(text, CharClass::Whitespace) + "\n!["@ + file_name + "]("@ + rel + ")\n"@
}

/// The note text after attaching a file.
pub fn attach_text(text: &str, file_name: &str, rel: &str) -> (r: String)
    ensures
        r@ == attach_text_spec(text@, file_name@, rel@),
{
    let c = chars_of(text);
    let mut v = stripped_end(c.as_slice(), CharClass::Whitespace);
    push_str(&mut v, "\n![");
    push_str(&mut v, file_name);
    push_str(&mut v, "](");
    push_str(&mut v, rel);
    push_str(&mut v, ")\n");
    string_from_chars(v.as_slice())
}

/// The settings key of a vault's pinned notes: by the configured notes
/// folder, else by the vault root.
pub open spec fn pin_key_spec(folder: Option<Seq<char>>, root: Seq<char>) -> Seq<char> {
    "notesPinned:"@ + match folder {
        Some(f) => f,
        None => root,
    }
}

/// The settings key of the pinned notes.
pub fn pin_key(folder: Option<&str>, root: &str) -> (r: String)
    ensures
        r@ == pin_key_spec(match folder {
            Some(f) => Some(f@),
            None => None,
        }, root@),
{
    let mut v = chars_of("notesPinned:");
    match folder {
        Some(f) => push_str(&mut v, f),
        None => push_str(&mut v, root),
    }
    string_from_chars(v.as_slice())
}

} // verus!

verus! {

/// A numeral is never empty.
pub proof fn lemma_dec_nonempty(n: nat)
    ensures
        dec(n).len() >= 1,
        n >= 10 ==> dec(n).len() >= 2,
    decreases n,
{
    if n >= 10 {
        lemma_dec_nonempty(n / 10);
    }
}

/// Different numbers have different numerals.
pub proof fn lemma_dec_injective(a: nat, b: nat)
    requires
        dec(a) == dec(b),
    ensures
        a == b,
    decreases a,
{
    lemma_dec_nonempty(a);
    lemma_dec_nonempty(b);
    if a < 10 && b < 10 {
        assert(dec(a)[0] == digit_char(a));
        assert(dec(b)[0] == digit_char(b));
        assert((a + 48) as char == (b + 48) as char);
        assert(a + 48 == b + 48);
    } else if a >= 10 && b >= 10 {
        let da = dec(a / 10);
        let db = dec(b / 10);
        assert(dec(a) == da + seq![digit_char(a % 10)]);
        assert(dec(b) == db + seq![digit_char(b % 10)]);
        assert(da =~= dec(a).drop_last());
        assert(db =~= dec(b).drop_last());
        lemma_dec_injective(a / 10, b / 10);
        assert(dec(a).last() == digit_char(a % 10));
        assert(dec(b).last() == digit_char(b % 10));
        assert((a % 10 + 48) as char == (b % 10 + 48) as char);
        assert(a % 10 == b % 10);
    }
}

} // verus!

verus! {

/// The `i`-th name tried for a new file: `<prefix><suffix>` first, then
/// `<prefix><sep><i><suffix>` from 2 on.
pub open spec fn candidate(prefix: Seq<char>, sep: Seq<char>, suffix: Seq<char>, i: nat) -> Seq<char> {
    prefix + (if i <= 1 {
        seq![]
    } else {
        sep + dec(i)
    }) + suffix
}

/// Different attempts give different names.
pub proof fn lemma_candidate_injective(prefix: Seq<char>, sep: Seq<char>, suffix: Seq<char>, i: nat, j: nat)
    requires
        1 <= i,
        1 <= j,
        candidate(prefix, sep, suffix, i) == candidate(prefix, sep, suffix, j),
    ensures
        i == j,
{
    lemma_dec_nonempty(i);
    lemma_dec_nonempty(j);
    let ci = candidate(prefix, sep, suffix, i);
    let cj = candidate(prefix, sep, suffix, j);
    let mi: Seq<char> = if i <= 1 {
        seq![]
    } else {
        sep + dec(i)
    };
    let mj: Seq<char> = if j <= 1 {
        seq![]
    } else {
        sep + dec(j)
    };
    assert(ci == prefix + mi + suffix);
    assert(cj == prefix + mj + suffix);
    if i >= 2 && j >= 2 {
        assert(ci.len() == cj.len());
        assert(mi.len() == mj.len());
        assert(mi =~= ci.subrange(prefix.len() as int, (prefix.len() + mi.len()) as int));
        assert(mj =~= cj.subrange(prefix.len() as int, (prefix.len() + mj.len()) as int));
        assert(dec(i) =~= mi.subrange(sep.len() as int, mi.len() as int));
        assert(dec(j) =~= mj.subrange(sep.len() as int, mj.len() as int));
        lemma_dec_injective(i, j);
    } else if i >= 2 {
        assert(ci.len() > cj.len());
    } else if j >= 2 {
        assert(cj.len() > ci.len());
    }
}

/// Whether `t` is one of the names tried before attempt `i`.
pub open spec fn tried(prefix: Seq<char>, sep: Seq<char>, suffix: Seq<char>, t: Seq<char>, i: nat) -> bool {
    exists|j: nat| 1 <= j < i && t == #[trigger] candidate(prefix, sep, suffix, j)
}

/// How many of the first `n` taken names were not tried before attempt `i`.
pub open spec fn untried(ts: Seq<Seq<char>>, prefix: Seq<char>, sep: Seq<char>, suffix: Seq<char>, i: nat, n: int) -> nat
    decreases n,
{
    if n <= 0 {
        0
    } else {
        untried(ts, prefix, sep, suffix, i, n - 1) + if tried(prefix, sep, suffix, ts[n - 1], i) {
            0nat
        } else {
            1nat
        }
    }
}

proof fn lemma_untried_bound(ts: Seq<Seq<char>>, prefix: Seq<char>, sep: Seq<char>, suffix: Seq<char>, i: nat, n: int)
    requires
        0 <= n,
    ensures
        untried(ts, prefix, sep, suffix, i, n) <= n,
    decreases n,
{
    if n > 0 {
        lemma_untried_bound(ts, prefix, sep, suffix, i, n - 1);
    }
}

/// Trying a taken name leaves fewer untried taken names.
proof fn lemma_untried_step(ts: Seq<Seq<char>>, prefix: Seq<char>, sep: Seq<char>, suffix: Seq<char>, i: nat, n: int, k0: int)
    requires
        1 <= i,
        0 <= n <= ts.len(),
        0 <= k0 < ts.len(),
        ts[k0] == candidate(prefix, sep, suffix, i),
    ensures
        untried(ts, prefix, sep, suffix, i + 1, n) <= untried(ts, prefix, sep, suffix, i, n),
        k0 < n ==> untried(ts, prefix, sep, suffix, i + 1, n) < untried(ts, prefix, sep, suffix, i, n),
    decreases n,
{
    if n > 0 {
        lemma_untried_step(ts, prefix, sep, suffix, i, n - 1, k0);
        let t = ts[n - 1];
        if tried(prefix, sep, suffix, t, i) {
            let j = choose|j: nat| 1 <= j < i && t == #[trigger] candidate(prefix, sep, suffix, j);
            assert(1 <= j < i + 1 && t == candidate(prefix, sep, suffix, j));
            assert(tried(prefix, sep, suffix, t, (i + 1) as nat));
        }
        if n - 1 == k0 {
            assert(tried(prefix, sep, suffix, t, (i + 1) as nat)) by {
                assert(t == candidate(prefix, sep, suffix, i));
            }
            assert(!tried(prefix, sep, suffix, t, i)) by {
                if tried(prefix, sep, suffix, t, i) {
                    let j = choose|j: nat| 1 <= j < i && t == #[trigger] candidate(prefix, sep, suffix, j);
                    lemma_candidate_injective(prefix, sep, suffix, i, j);
                }
            }
        }
    }
}

fn candidate_exec(prefix: &[char], sep: &str, suffix: &[char], i: u128) -> (r: Vec<char>)
    requires
        i >= 1,
    ensures
        r@ == candidate(prefix@, sep@, suffix@, i as nat),
{
    let mut v: Vec<char> = Vec::new();
    push_chars(&mut v, prefix);
    if i >= 2 {
        push_str(&mut v, sep);
        let d = crate::text::u128_dec(i);
        push_chars(&mut v, d.as_slice());
    }
    push_chars(&mut v, suffix);
    v
}

fn contains_name(taken: &[String], name: &[char]) -> (r: Option<usize>)
    ensures
        match r {
            Some(k) => k < taken@.len() && taken@[k as int]@ == name@,
            None => !string_views(taken@).contains(name@),
        },
{
    let mut i: usize = 0;
    while i < taken.len()
        invariant
            i <= taken@.len(),
            forall|k: int| 0 <= k < i ==> taken@[k]@ != name@,
        decreases taken@.len() - i,
    {
        let c = chars_of(taken[i].as_str());
        if chars_eq(c.as_slice(), name) {
            return Some(i);
        }
        i = i + 1;
    }
    proof {
        if string_views(taken@).contains(name@) {
            let k = choose|k: int| 0 <= k < string_views(taken@).len() && string_views(taken@)[k] == name@;
            assert(taken@[k]@ == name@);
        }
    }
    None
}

/// The first name of the series not among `taken`, as described by `k`
/// (the attempt it took): every earlier attempt is taken.
pub open spec fn first_free_spec(prefix: Seq<char>, sep: Seq<char>, suffix: Seq<char>, taken: Seq<Seq<char>>, r: Seq<char>) -> bool {
    exists|k: nat| #![trigger candidate(prefix, sep, suffix, k)]
        1 <= k && r == candidate(prefix, sep, suffix, k) && !taken.contains(r) && forall|j: nat|
            1 <= j < k ==> taken.contains(#[trigger] candidate(prefix, sep, suffix, j))
}

fn first_free(prefix: &[char], sep: &str, suffix: &[char], taken: &[String]) -> (r: Vec<char>)
    ensures
        first_free_spec(prefix@, sep@, suffix@, string_views(taken@), r@),
{
    let ghost ts = string_views(taken@);
    let mut i: u128 = 1;
    let n = taken.len();
    let mut name = candidate_exec(prefix, sep, suffix, 1);
    proof {
        lemma_untried_bound(ts, prefix@, sep@, suffix@, 1, ts.len() as int);
    }
    loop
        invariant
            1 <= i,
            n == taken@.len(),
            i <= taken@.len() + 1,
            ts == string_views(taken@),
            name@ == candidate(prefix@, sep@, suffix@, i as nat),
            forall|j: nat| 1 <= j < i ==> ts.contains(#[trigger] candidate(prefix@, sep@, suffix@, j)),
            untried(ts, prefix@, sep@, suffix@, i as nat, ts.len() as int) + i <= ts.len() + 1,
        decreases ts.len() + 1 - i,
    {
        match contains_name(taken, name.as_slice()) {
            None => {
                assert(1 <= i && name@ == candidate(prefix@, sep@, suffix@, i as nat));
                return name;
            },
            Some(k0) => {
                proof {
                    assert(ts[k0 as int] == candidate(prefix@, sep@, suffix@, i as nat));
                    lemma_untried_step(ts, prefix@, sep@, suffix@, i as nat, ts.len() as int, k0 as int);
                    assert(ts.contains(candidate(prefix@, sep@, suffix@, i as nat)));
                }
                i = i + 1;
                name = candidate_exec(prefix, sep, suffix, i);
            },
        }
    }
}

/// The file name a new note `stem` gets in a folder holding `taken`:
/// `<stem>.md`, else `<stem> 2.md`, `<stem> 3.md`, ... whichever is free first.
pub fn first_free_name(stem: &str, taken: &[String]) -> (r: String)
    ensures
        first_free_spec(stem@, " "@, ".md"@, string_views(taken@), r@),
{
    let p = chars_of(stem);
    let s = chars_of(".md");
    string_from_chars(first_free(p.as_slice(), " ", s.as_slice(), taken).as_slice())
}

/// The name part of a file name before its last `.`, and the rest.
pub open spec fn split_ext(name: Seq<char>) -> (Seq<char>, Seq<char>) {
    match name.index_of_last('.') {
        Some(k) => (name.subrange(0, k), name.subrange(k, name.len() as int)),
        None => (name, seq![]),
    }
}

/// The name an attached file gets among the assets holding `taken`:
/// its own name, else `<stem>-2<ext>`, `<stem>-3<ext>`, ... whichever is
/// free first.
pub fn free_asset_name(file_name: &str, taken: &[String]) -> (r: String)
    ensures
        first_free_spec(split_ext(file_name@).0, "-"@, split_ext(file_name@).1, string_views(taken@), r@),
{
    let c = chars_of(file_name);
    let mut k: usize = c.len();
    while k > 0 && c[k - 1] != '.'
        invariant
            k <= c@.len(),
            forall|j: int| k <= j < c@.len() ==> c@[j] != '.',
        decreases k,
    {
        k = k - 1;
    }
    proof {
        c@.index_of_last_ensures('.');
    }
    let dot = if k == 0 {
        c.len()
    } else {
        k - 1
    };
    let stem = slice_chars(c.as_slice(), 0, dot);
    let ext = slice_chars(c.as_slice(), dot, c.len());
    proof {
        if k == 0 {
            assert(c@.subrange(0, c@.len() as int) =~= c@);
            assert(ext@ =~= Seq::<char>::empty());
        }
    }
    string_from_chars(first_free(stem.as_slice(), "-", ext.as_slice(), taken).as_slice())
}

} // verus!

verus! {

/// The tags of several notes, each once, in order of first appearance.
pub open spec fn distinct_tags(lists: Seq<Seq<Seq<char>>>) -> Seq<Seq<char>>
    decreases lists.len(),
{
    if lists.len() == 0 {
        seq![]
    } else {
        add_all(distinct_tags(lists.drop_last()), lists.last())
    }
}

/// `acc` with the items of `items` added in order, skipping those it has.
pub open spec fn add_all(acc: Seq<Seq<char>>, items: Seq<Seq<char>>) -> Seq<Seq<char>>
    decreases items.len(),
{
    if items.len() == 0 {
        acc
    } else {
        with_item(add_all(acc, items.drop_last()), items.last())
    }
}

/// How often `t` occurs in a list.
pub open spec fn count_in(items: Seq<Seq<char>>, t: Seq<char>) -> nat
    decreases items.len(),
{
    if items.len() == 0 {
        0
    } else {
        count_in(items.drop_last(), t) + if items.last() == t {
            1nat
        } else {
            0nat
        }
    }
}

/// How often `t` occurs over all the lists.
pub open spec fn occurrences(lists: Seq<Seq<Seq<char>>>, t: Seq<char>) -> nat
    decreases lists.len(),
{
    if lists.len() == 0 {
        0
    } else {
        occurrences(lists.drop_last(), t) + count_in(lists.last(), t)
    }
}

/// The number of items over all the lists.
pub open spec fn total_items(lists: Seq<Seq<Seq<char>>>) -> nat
    decreases lists.len(),
{
    if lists.len() == 0 {
        0
    } else {
        total_items(lists.drop_last()) + lists.last().len()
    }
}

/// The lists as values.
pub open spec fn lists_view(lists: Seq<Vec<String>>) -> Seq<Seq<Seq<char>>> {
    lists.map_values(|l: Vec<String>| string_views(l@))
}

proof fn lemma_count_le(items: Seq<Seq<char>>, t: Seq<char>)
    ensures
        count_in(items, t) <= items.len(),
    decreases items.len(),
{
    if items.len() > 0 {
        lemma_count_le(items.drop_last(), t);
    }
}

proof fn lemma_occurrences_le(lists: Seq<Seq<Seq<char>>>, t: Seq<char>)
    ensures
        occurrences(lists, t) <= total_items(lists),
    decreases lists.len(),
{
    if lists.len() > 0 {
        lemma_occurrences_le(lists.drop_last(), t);
        lemma_count_le(lists.last(), t);
    }
}

fn count_tag(lists: &[Vec<String>], t: &[char]) -> (r: usize)
    requires
        total_items(lists_view(lists@)) <= usize::MAX,
    ensures
        r == occurrences(lists_view(lists@), t@),
{
    let ghost lv = lists_view(lists@);
    let mut n: usize = 0;
    let mut i: usize = 0;
    assert(lv.take(0) =~= Seq::<Seq<Seq<char>>>::empty());
    while i < lists.len()
        invariant
            i <= lists@.len(),
            lv == lists_view(lists@),
            total_items(lv) <= usize::MAX,
            n == occurrences(lv.take(i as int), t@),
        decreases lists@.len() - i,
    {
        let l = &lists[i];
        let ghost li = string_views(l@);
        assert(lv.take(i + 1).drop_last() =~= lv.take(i as int));
        assert(lv.take(i + 1).last() == li);
        proof {
            lemma_occurrences_le(lv.take(i + 1), t@);
            lemma_total_prefix(lv, i + 1);
        }
        let mut j: usize = 0;
        let ghost n0 = n;
        assert(li.take(0) =~= Seq::<Seq<char>>::empty());
        while j < l.len()
            invariant
                j <= l@.len(),
                li == string_views(l@),
                n0 + count_in(li, t@) <= usize::MAX,
                n == n0 + count_in(li.take(j as int), t@),
            decreases l@.len() - j,
        {
            assert(li.take(j + 1).drop_last() =~= li.take(j as int));
            proof {
                lemma_count_prefix(li, t@, j + 1);
            }
            if chars_eq(chars_of(l[j].as_str()).as_slice(), t) {
                n = n + 1;
            }
            j = j + 1;
        }
        assert(li.take(l@.len() as int) =~= li);
        i = i + 1;
    }
    assert(lv.take(lists@.len() as int) =~= lv);
    n
}

proof fn lemma_count_prefix(items: Seq<Seq<char>>, t: Seq<char>, k: int)
    requires
        0 <= k <= items.len(),
    ensures
        count_in(items.take(k), t) <= count_in(items, t),
    decreases items.len() - k,
{
    if k < items.len() {
        lemma_count_prefix(items, t, k + 1);
        assert(items.take(k + 1).drop_last() =~= items.take(k));
    } else {
        assert(items.take(k) =~= items);
    }
}

proof fn lemma_total_prefix(lists: Seq<Seq<Seq<char>>>, k: int)
    requires
        0 <= k <= lists.len(),
    ensures
        total_items(lists.take(k)) <= total_items(lists),
    decreases lists.len() - k,
{
    if k < lists.len() {
        lemma_total_prefix(lists, k + 1);
        assert(lists.take(k + 1).drop_last() =~= lists.take(k));
    } else {
        assert(lists.take(k) =~= lists);
    }
}

fn index_in(v: &Vec<Vec<char>>, t: &[char]) -> (r: Option<usize>)
    ensures
        match r {
            Some(k) => k < v@.len() && views(v@)[k as int] == t@,
            None => !views(v@).contains(t@),
        },
{
    let mut k: usize = 0;
    while k < v.len()
        invariant
            k <= v@.len(),
            forall|m: int| 0 <= m < k ==> views(v@)[m] != t@,
        decreases v@.len() - k,
    {
        if chars_eq(v[k].as_slice(), t) {
            return Some(k);
        }
        k = k + 1;
    }
    None
}

/// Every tag of the vault with the number of notes that carry it, sorted
/// by tag; `lists` holds each note's tags.
pub fn tag_counts(lists: &[Vec<String>]) -> (r: Vec<(String, usize)>)
    requires
        total_items(lists_view(lists@)) <= usize::MAX,
    ensures
        r@.len() == distinct_tags(lists_view(lists@)).sort_by(ascending()).len(),
        forall|k: int| #![trigger r@[k]] 0 <= k < r@.len() ==> {
            let t = distinct_tags(lists_view(lists@)).sort_by(ascending())[k];
            &&& r@[k].0@ == t
            &&& r@[k].1 == occurrences(lists_view(lists@), t)
        },
{
    let ghost lv = lists_view(lists@);
    let mut seen: Vec<Vec<char>> = Vec::new();
    let mut i: usize = 0;
    assert(lv.take(0) =~= Seq::<Seq<Seq<char>>>::empty());
    assert(views(seen@) =~= Seq::<Seq<char>>::empty());
    while i < lists.len()
        invariant
            i <= lists@.len(),
            lv == lists_view(lists@),
            views(seen@) == distinct_tags(lv.take(i as int)),
        decreases lists@.len() - i,
    {
        let l = &lists[i];
        let ghost li = string_views(l@);
        let ghost start = views(seen@);
        assert(lv.take(i + 1).drop_last() =~= lv.take(i as int));
        assert(lv.take(i + 1).last() == li);
        let mut j: usize = 0;
        assert(li.take(0) =~= Seq::<Seq<char>>::empty());
        while j < l.len()
            invariant
                j <= l@.len(),
                li == string_views(l@),
                views(seen@) == add_all(start, li.take(j as int)),
            decreases l@.len() - j,
        {
            let t = chars_of(l[j].as_str());
            assert(li.take(j + 1).drop_last() =~= li.take(j as int));
            let ghost before = views(seen@);
            match index_in(&seen, t.as_slice()) {
                None => {
                    seen.push(t);
                    assert(views(seen@) =~= before.push(li[j as int]));
                },
                Some(k) => {
                    assert(before[k as int] == t@);
                    assert(before.contains(t@));
                },
            }
            j = j + 1;
        }
        assert(li.take(l@.len() as int) =~= li);
        i = i + 1;
    }
    assert(lv.take(lists@.len() as int) =~= lv);
    let sorted = sort_names(seen, false);
    let mut out: Vec<(String, usize)> = Vec::new();
    let mut k: usize = 0;
    while k < sorted.len()
        invariant
            k <= sorted@.len(),
            lv == lists_view(lists@),
            total_items(lv) <= usize::MAX,
            views(sorted@) == distinct_tags(lv).sort_by(ascending()),
            out@.len() == k,
            forall|m: int| #![trigger out@[m]] 0 <= m < k ==> {
                let t = distinct_tags(lv).sort_by(ascending())[m];
                &&& out@[m].0@ == t
                &&& out@[m].1 == occurrences(lv, t)
            },
        decreases sorted@.len() - k,
    {
        let c = count_tag(lists, sorted[k].as_slice());
        out.push((string_from_chars(sorted[k].as_slice()), c));
        k = k + 1;
    }
    out
}

/// The saved versions of a note, newest first: the stems of the `.md`
/// files of its history folder (millisecond stamps, so the name order).
pub open spec fn md_stems(names: Seq<Seq<char>>) -> Seq<Seq<char>>
    decreases names.len(),
{
    if names.len() == 0 {
        seq![]
    } else {
        let rest = md_stems(names.drop_last());
        if extension(names.last()) == Some("md"@) {
            match file_stem(names.last()) {
                Some(s) => rest.push(s),
                None => rest.push(seq![]),
            }
        } else {
            rest
        }
    }
}

/// The `.md` file names among `names`, in order.
pub open spec fn md_names(names: Seq<Seq<char>>) -> Seq<Seq<char>>
    decreases names.len(),
{
    if names.len() == 0 {
        seq![]
    } else {
        let rest = md_names(names.drop_last());
        if extension(names.last()) == Some("md"@) {
            rest.push(names.last())
        } else {
            rest
        }
    }
}

fn is_md(name: &str) -> (r: bool)
    ensures
        r == (extension(name@) == Some("md"@)),
{
    match path_extension(name) {
        Some(e) => {
            let m = chars_of("md");
            chars_eq(e.as_slice(), m.as_slice())
        },
        None => false,
    }
}

/// The versions of a note, newest first, from its history folder's file names.
pub fn history_versions(names: &[String]) -> (r: Vec<String>)
    ensures
        string_views(r@) == md_stems(string_views(names@)).sort_by(descending()),
{
    let ghost nv = string_views(names@);
    let mut stems: Vec<Vec<char>> = Vec::new();
    let mut i: usize = 0;
    assert(nv.take(0) =~= Seq::<Seq<char>>::empty());
    assert(views(stems@) =~= Seq::<Seq<char>>::empty());
    while i < names.len()
        invariant
            i <= names@.len(),
            nv == string_views(names@),
            views(stems@) == md_stems(nv.take(i as int)),
        decreases names@.len() - i,
    {
        assert(nv.take(i + 1).drop_last() =~= nv.take(i as int));
        assert(nv.take(i + 1).last() == names@[i as int]@);
        let ghost before = views(stems@);
        if is_md(names[i].as_str()) {
            let s = match path_file_stem(names[i].as_str()) {
                Some(s) => s,
                None => Vec::new(),
            };
            let ghost sv = s@;
            stems.push(s);
            assert(views(stems@) =~= before.push(sv));
        }
        i = i + 1;
    }
    assert(nv.take(names@.len() as int) =~= nv);
    let sorted = sort_names(stems, true);
    let mut out: Vec<String> = Vec::new();
    let mut k: usize = 0;
    while k < sorted.len()
        invariant
            k <= sorted@.len(),
            string_views(out@) =~= views(sorted@).take(k as int),
        decreases sorted@.len() - k,
    {
        let ghost before = string_views(out@);
        out.push(string_from_chars(sorted[k].as_slice()));
        assert(string_views(out@) =~= before.push(views(sorted@)[k as int]));
        assert(views(sorted@).take(k + 1) =~= views(sorted@).take(k as int).push(views(sorted@)[k as int]));
        k = k + 1;
    }
    assert(views(sorted@).take(sorted@.len() as int) =~= views(sorted@));
    out
}

/// The snapshots a history keeping `keep` versions deletes: the oldest
/// `.md` files beyond the newest `keep`.
pub open spec fn prune_spec(names: Seq<Seq<char>>, keep: nat) -> Seq<Seq<char>> {
    let all = md_names(names).sort_by(ascending());
    if all.len() <= keep {
        seq![]
    } else {
        all.take(all.len() - keep)
    }
}

/// The snapshot files to delete so that `keep` versions remain.
pub fn history_prune(names: &[String], keep: usize) -> (r: Vec<String>)
    ensures
        string_views(r@) == prune_spec(string_views(names@), keep as nat),
{
    let ghost nv = string_views(names@);
    let mut md: Vec<Vec<char>> = Vec::new();
    let mut i: usize = 0;
    assert(nv.take(0) =~= Seq::<Seq<char>>::empty());
    assert(views(md@) =~= Seq::<Seq<char>>::empty());
    while i < names.len()
        invariant
            i <= names@.len(),
            nv == string_views(names@),
            views(md@) == md_names(nv.take(i as int)),
        decreases names@.len() - i,
    {
        assert(nv.take(i + 1).drop_last() =~= nv.take(i as int));
        assert(nv.take(i + 1).last() == names@[i as int]@);
        let ghost before = views(md@);
        if is_md(names[i].as_str()) {
            md.push(chars_of(names[i].as_str()));
            assert(views(md@) =~= before.push(names@[i as int]@));
        }
        i = i + 1;
    }
    assert(nv.take(names@.len() as int) =~= nv);
    let sorted = sort_names(md, false);
    let mut out: Vec<String> = Vec::new();
    if sorted.len() <= keep {
        assert(string_views(out@) =~= Seq::<Seq<char>>::empty());
        return out;
    }
    let cut = sorted.len() - keep;
    let mut k: usize = 0;
    while k < cut
        invariant
            k <= cut,
            cut <= sorted@.len(),
            string_views(out@) =~= views(sorted@).take(k as int),
        decreases cut - k,
    {
        let ghost before = string_views(out@);
        out.push(string_from_chars(sorted[k].as_slice()));
        assert(string_views(out@) =~= before.push(views(sorted@)[k as int]));
        assert(views(sorted@).take(k + 1) =~= views(sorted@).take(k as int).push(views(sorted@)[k as int]));
        k = k + 1;
    }
    out
}

} // verus!
