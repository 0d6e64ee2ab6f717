//! Request-path helpers of the live server: percent-decoding, content
//! types by file extension, attachment ids, backup names and query
//! parameters.
use vstd::prelude::*;
use vstd::utf8::{decode_utf8, encode_utf8, valid_utf8};
use vstd::string::StrSliceExecFns;
use vstd::string::StringSliceAdditionalSpecFns;
use crate::text::{
    chars_of, has_prefix, has_suffix, slice_chars, split_chars, split_on, string_from_chars, views,
};

verus! {

/// The value of an ASCII hex digit.
pub open spec fn hex_digit(c: u8) -> Option<u8> {
    if 0x30 <= c <= 0x39 {
        Some((c - 0x30) as u8)
    } else if 0x61 <= c <= 0x66 {
        Some((c - 0x61 + 10) as u8)
    } else if 0x41 <= c <= 0x46 {
        Some((c - 0x41 + 10) as u8)
    } else {
        None
    }
}

/// The value of an ASCII hex digit, `None` for any other byte.
pub fn hex_val(c: u8) -> (r: Option<u8>)
    ensures
        r == hex_digit(c),
{
    if 0x30 <= c && c <= 0x39 {
        Some(c - 0x30)
    } else if 0x61 <= c && c <= 0x66 {
        Some(c - 0x61 + 10)
    } else if 0x41 <= c && c <= 0x46 {
        Some(c - 0x41 + 10)
    } else {
        None
    }
}

/// `b[i..]` with every `%` followed by two hex digits replaced by the byte
/// they spell; any other byte, a lone `%` among them, is kept.
pub open spec fn pct_decode_from(b: Seq<u8>, i: int) -> Seq<u8>
    decreases b.len() - i,
{
    if i < 0 || i >= b.len() {
        seq![]
    } else if b[i] == 0x25 && i + 2 < b.len() && hex_digit(b[i + 1]) is Some && hex_digit(
        b[i + 2],
    ) is Some {
        seq![(hex_digit(b[i + 1])->0 * 16 + hex_digit(b[i + 2])->0) as u8] + pct_decode_from(
            b,
            i + 3,
        )
    } else {
        seq![b[i]] + pct_decode_from(b, i + 1)
    }
}

/// Percent-decodes raw bytes.
pub fn percent_decode_bytes(b: &[u8]) -> (out: Vec<u8>)
    ensures
        out@ == pct_decode_from(b@, 0),
{
    let n = b.len();
    let mut out: Vec<u8> = Vec::new();
    let mut i: usize = 0;
    while i < n
        invariant
            n == b@.len(),
            i <= n,
            out@ + pct_decode_from(b@, i as int) == pct_decode_from(b@, 0),
        decreases n - i,
    {
        let ghost before = out@;
        if b[i] == 0x25 && n - i > 2 {
            let h = hex_val(b[i + 1]);
            let l = hex_val(b[i + 2]);
            if let (Some(h), Some(l)) = (h, l) {
                out.push(h * 16 + l);
                assert(out@ + pct_decode_from(b@, i + 3) =~= before + pct_decode_from(b@, i as int));
                i = i + 3;
                continue;
            }
        }
        out.push(b[i]);
        assert(out@ + pct_decode_from(b@, i + 1) =~= before + pct_decode_from(b@, i as int));
        i = i + 1;
    }
    assert(pct_decode_from(b@, n as int) =~= seq![]);
    assert(out@ =~= out@ + pct_decode_from(b@, n as int));
    out
}

/// The text that `String::from_utf8_lossy` makes of `bytes`.
pub uninterp spec fn lossy_utf8(bytes: Seq<u8>) -> Seq<char>;

/// The text that bytes read as: their UTF-8 decoding when they are valid
/// UTF-8, else what `String::from_utf8_lossy` makes of them.
pub open spec fn utf8_text(bytes: Seq<u8>) -> Seq<char> {
    if valid_utf8(bytes) {
        decode_utf8(bytes)
    } else {
        lossy_utf8(bytes)
    }
}

/// `String::from_utf8_lossy`: the bytes read as UTF-8, each invalid sequence
/// replaced by U+FFFD. What it claims: the result is `lossy_utf8` of the
/// bytes, and valid UTF-8 comes back decoded unchanged; how invalid input
/// is replaced is left unsaid.
#[verifier::external_body]
fn from_utf8_lossy(bytes: &[u8]) -> (s: String)
    ensures
        s@ == lossy_utf8(bytes@),
        valid_utf8(bytes@) ==> s@ == decode_utf8(bytes@),
{
    String::from_utf8_lossy(bytes).into_owned()
}

/// Decodes `%XX` escapes in a request path; undecodable escapes stay as
/// they are and invalid UTF-8 becomes U+FFFD.
pub fn percent_decode(s: &str) -> (out: String)
    ensures
        out@ == lossy_utf8(pct_decode_from(s.spec_bytes(), 0)),
        out@ == utf8_text(pct_decode_from(s.spec_bytes(), 0)),
        valid_utf8(pct_decode_from(s.spec_bytes(), 0)) ==> out@ == decode_utf8(pct_decode_from(s.spec_bytes(), 0)),
        valid_utf8(pct_decode_from(s.spec_bytes(), 0)) ==> encode_utf8(out@) == pct_decode_from(s.spec_bytes(), 0),
        pct_decode_from(s.spec_bytes(), 0).len() <= s.spec_bytes().len(),
{
    let b = s.as_bytes();
    let d = percent_decode_bytes(b);
    let out = from_utf8_lossy(d.as_slice());
    proof {
        lemma_pct_decode_len(b@, 0);
        if valid_utf8(d@) {
            vstd::utf8::decode_utf8_encode_utf8(d@);
        }
    }
    out
}

/// Decoding never lengthens: each escape of three bytes becomes one byte,
/// every other byte stays one byte.
pub proof fn lemma_pct_decode_len(b: Seq<u8>, i: int)
    requires
        0 <= i,
    ensures
        pct_decode_from(b, i).len() <= if i <= b.len() { b.len() - i } else { 0 },
    decreases b.len() - i,
{
    if i < b.len() {
        lemma_pct_decode_len(b, i + 1);
        if i + 3 <= b.len() {
            lemma_pct_decode_len(b, i + 3);
        }
    }
}

/// The last segment of `segs` that names something: not empty and not `.`.
pub open spec fn last_named(segs: Seq<Seq<char>>) -> Option<Seq<char>>
    decreases segs.len(),
{
    if segs.len() == 0 {
        None
    } else if segs.last().len() > 0 && segs.last() != "."@ {
        Some(segs.last())
    } else {
        last_named(segs.drop_last())
    }
}

/// The final component of a `/`-separated path, as `Path::file_name` gives
/// it: separators and `.` components do not count, and a path that ends in
/// `..` has none.
pub open spec fn file_name(path: Seq<char>) -> Option<Seq<char>> {
    match last_named(split_on(path, '/')) {
        Some(n) => if n == ".."@ {
            None
        } else {
            Some(n)
        },
        None => None,
    }
}

/// Index of the last `.` in `s[..i]`, or -1.
pub open spec fn last_dot(s: Seq<char>, i: int) -> int
    decreases i,
{
    if i <= 0 {
        -1
    } else if s[i - 1] == '.' {
        i - 1
    } else {
        last_dot(s, i - 1)
    }
}

/// The extension of a path, as `Path::extension` gives it: the text after
/// the last `.` of the file name, unless that dot is the name's first character.
pub open spec fn extension(path: Seq<char>) -> Option<Seq<char>> {
    match file_name(path) {
        Some(n) => {
            let k = last_dot(n, n.len() as int);
            if k <= 0 {
                None
            } else {
                Some(n.subrange(k + 1, n.len() as int))
            }
        },
        None => None,
    }
}

fn eq_lit(t: &[char], lit: &str) -> (b: bool)
    ensures
        b == (t@ == lit@),
{
    let l = chars_of(lit);
    crate::text::chars_eq(t, l.as_slice())
}

/// The file name of `path`.
pub fn path_file_name(path: &str) -> (e: Option<Vec<char>>)
    ensures
        match e {
            Some(v) => file_name(path@) == Some(v@),
            None => file_name(path@) is None,
        },
{
    let p = chars_of(path);
    let segs = split_chars(p.as_slice(), '/');
    let ghost sv = views(segs@);
    let mut i: usize = segs.len();
    assert(sv.take(sv.len() as int) =~= sv);
    while i > 0 && (segs[i - 1].len() == 0 || eq_lit(segs[i - 1].as_slice(), "."))
        invariant
            i <= segs@.len(),
            sv == views(segs@),
            sv == split_on(path@, '/'),
            last_named(sv) == last_named(sv.take(i as int)),
        decreases i,
    {
        assert(sv.take(i as int).drop_last() =~= sv.take(i - 1));
        i = i - 1;
    }
    if i == 0 {
        assert(sv.take(0) =~= seq![]);
        return None;
    }
    assert(sv.take(i as int).last() == sv[i - 1]);
    let name = &segs[i - 1];
    assert(last_named(sv) == Some(name@));
    if eq_lit(name.as_slice(), "..") {
        return None;
    }
    Some(name.clone())
}

fn last_dot_index(name: &[char]) -> (k: usize)
    ensures
        k as int == last_dot(name@, name@.len() as int) + 1,
        k <= name@.len(),
{
    let mut k: usize = name.len();
    while k > 0 && name[k - 1] != '.'
        invariant
            k <= name@.len(),
            last_dot(name@, name@.len() as int) == last_dot(name@, k as int),
        decreases k,
    {
        k = k - 1;
    }
    k
}

/// The extension of `path`'s file name.
pub fn path_extension(path: &str) -> (e: Option<Vec<char>>)
    ensures
        match e {
            Some(v) => extension(path@) == Some(v@),
            None => extension(path@) is None,
        },
{
    match path_file_name(path) {
        None => None,
        Some(name) => {
            let k = last_dot_index(name.as_slice());
            if k <= 1 {
                None
            } else {
                Some(slice_chars(name.as_slice(), k, name.len()))
            }
        },
    }
}

/// The stem of a path, as `Path::file_stem` gives it: the file name
/// without its extension.
pub open spec fn file_stem(path: Seq<char>) -> Option<Seq<char>> {
    match file_name(path) {
        Some(n) => {
            let k = last_dot(n, n.len() as int);
            if k <= 0 {
                Some(n)
            } else {
                Some(n.subrange(0, k))
            }
        },
        None => None,
    }
}

/// The stem of `path`'s file name.
pub fn path_file_stem(path: &str) -> (e: Option<Vec<char>>)
    ensures
        match e {
            Some(v) => file_stem(path@) == Some(v@),
            None => file_stem(path@) is None,
        },
{
    match path_file_name(path) {
        None => None,
        Some(name) => {
            let k = last_dot_index(name.as_slice());
            if k <= 1 {
                Some(name)
            } else {
                Some(slice_chars(name.as_slice(), 0, k - 1))
            }
        },
    }
}

/// The content type the live server sends for a built frontend file.
pub open spec fn static_mime(ext: Option<Seq<char>>) -> Seq<char> {
    match ext {
        None => "application/octet-stream"@,
        Some(e) => {
            if e == "html"@ {
                "text/html; charset=utf-8"@
            } else if e == "js"@ {
                "text/javascript; charset=utf-8"@
            } else if e == "mjs"@ {
                "text/javascript; charset=utf-8"@
            } else if e == "css"@ {
                "text/css; charset=utf-8"@
            } else if e == "json"@ {
                "application/json; charset=utf-8"@
            } else if e == "webmanifest"@ {
                "application/json; charset=utf-8"@
            } else if e == "map"@ {
                "application/json; charset=utf-8"@
            } else if e == "svg"@ {
                "image/svg+xml"@
            } else if e == "png"@ {
                "image/png"@
            } else if e == "jpg"@ {
                "image/jpeg"@
            } else if e == "jpeg"@ {
                "image/jpeg"@
            } else if e == "gif"@ {
                "image/gif"@
            } else if e == "webp"@ {
                "image/webp"@
            } else if e == "ico"@ {
                "image/x-icon"@
            } else if e == "woff"@ {
                "font/woff"@
            } else if e == "woff2"@ {
                "font/woff2"@
            } else if e == "ttf"@ {
                "font/ttf"@
            } else if e == "txt"@ {
                "text/plain; charset=utf-8"@
            } else if e == "wasm"@ {
                "application/wasm"@
            } else {
                "application/octet-stream"@
            }
        },
    }
}

/// The content type of a frontend file, by its extension.
pub fn mime_for(path: &str) -> (m: &'static str)
    ensures
        m@ == static_mime(extension(path@)),
{
    match path_extension(path) {
        None => "application/octet-stream",
        Some(e) => {
            let e = e.as_slice();
            if eq_lit(e, "html") {
                "text/html; charset=utf-8"
            } else if eq_lit(e, "js") {
                "text/javascript; charset=utf-8"
            } else if eq_lit(e, "mjs") {
                "text/javascript; charset=utf-8"
            } else if eq_lit(e, "css") {
                "text/css; charset=utf-8"
            } else if eq_lit(e, "json") {
                "application/json; charset=utf-8"
            } else if eq_lit(e, "webmanifest") {
                "application/json; charset=utf-8"
            } else if eq_lit(e, "map") {
                "application/json; charset=utf-8"
            } else if eq_lit(e, "svg") {
                "image/svg+xml"
            } else if eq_lit(e, "png") {
                "image/png"
            } else if eq_lit(e, "jpg") {
                "image/jpeg"
            } else if eq_lit(e, "jpeg") {
                "image/jpeg"
            } else if eq_lit(e, "gif") {
                "image/gif"
            } else if eq_lit(e, "webp") {
                "image/webp"
            } else if eq_lit(e, "ico") {
                "image/x-icon"
            } else if eq_lit(e, "woff") {
                "font/woff"
            } else if eq_lit(e, "woff2") {
                "font/woff2"
            } else if eq_lit(e, "ttf") {
                "font/ttf"
            } else if eq_lit(e, "txt") {
                "text/plain; charset=utf-8"
            } else if eq_lit(e, "wasm") {
                "application/wasm"
            } else {
                "application/octet-stream"
            }
        },
    }
}

/// The content type the live server sends for a file from the notes folder.
pub open spec fn asset_mime(ext: Option<Seq<char>>) -> Seq<char> {
    match ext {
        None => "application/octet-stream"@,
        Some(e) => {
            if e == "png"@ {
                "image/png"@
            } else if e == "jpg"@ {
                "image/jpeg"@
            } else if e == "jpeg"@ {
                "image/jpeg"@
            } else if e == "gif"@ {
                "image/gif"@
            } else if e == "webp"@ {
                "image/webp"@
            } else if e == "svg"@ {
                "image/svg+xml"@
            } else if e == "pdf"@ {
                "application/pdf"@
            } else if e == "mp3"@ {
                "audio/mpeg"@
            } else if e == "wav"@ {
                "audio/wav"@
            } else if e == "mp4"@ {
                "video/mp4"@
            } else if e == "mov"@ {
                "video/quicktime"@
            } else {
                "application/octet-stream"@
            }
        },
    }
}

/// The content type of a notes-folder asset, by its extension.
pub fn asset_mime_for(path: &str) -> (m: &'static str)
    ensures
        m@ == asset_mime(extension(path@)),
{
    match path_extension(path) {
        None => "application/octet-stream",
        Some(e) => {
            let e = e.as_slice();
            if eq_lit(e, "png") {
                "image/png"
            } else if eq_lit(e, "jpg") {
                "image/jpeg"
            } else if eq_lit(e, "jpeg") {
                "image/jpeg"
            } else if eq_lit(e, "gif") {
                "image/gif"
            } else if eq_lit(e, "webp") {
                "image/webp"
            } else if eq_lit(e, "svg") {
                "image/svg+xml"
            } else if eq_lit(e, "pdf") {
                "application/pdf"
            } else if eq_lit(e, "mp3") {
                "audio/mpeg"
            } else if eq_lit(e, "wav") {
                "audio/wav"
            } else if eq_lit(e, "mp4") {
                "video/mp4"
            } else if eq_lit(e, "mov") {
                "video/quicktime"
            } else {
                "application/octet-stream"
            }
        },
    }
}

/// A character allowed in an attachment id: an ASCII letter, an ASCII digit or `-`.
pub open spec fn id_char(c: char) -> bool {
    ('a' <= c && c <= 'z') || ('A' <= c && c <= 'Z') || ('0' <= c && c <= '9') || c == '-'
}

/// The attachment id in a `/api/attachment/<id>` path: present only when it
/// is not empty and made of ASCII letters, digits and `-`, so it can never
/// step outside the attachments folder.
pub open spec fn attachment_id_spec(path: Seq<char>) -> Option<Seq<char>> {
    let p = "/api/attachment/"@;
    if p.is_prefix_of(path) {
        let id = path.subrange(p.len() as int, path.len() as int);
        if id.len() > 0 && (forall|k: int| 0 <= k < id.len() ==> id_char(#[trigger] id[k])) {
            Some(id)
        } else {
            None
        }
    } else {
        None
    }
}

/// Extracts and checks the id of an attachment request path.
pub fn attachment_id(path: &str) -> (id: Option<&str>)
    ensures
        match id {
            Some(i) => attachment_id_spec(path@) == Some(i@),
            None => attachment_id_spec(path@) is None,
        },
{
    let p = chars_of(path);
    let pre = chars_of("/api/attachment/");
    if !has_prefix(p.as_slice(), pre.as_slice()) {
        return None;
    }
    let from = pre.len();
    let n = p.len();
    if from == n {
        return None;
    }
    let mut k: usize = from;
    while k < n
        invariant
            from <= k <= n,
            n == p@.len(),
            p@ == path@,
            from == "/api/attachment/"@.len(),
            forall|j: int| from <= j < k ==> id_char(#[trigger] p@[j]),
        decreases n - k,
    {
        let c = p[k];
        if !(('a' <= c && c <= 'z') || ('A' <= c && c <= 'Z') || ('0' <= c && c <= '9') || c
            == '-') {
            assert(!id_char(path@.subrange(from as int, n as int)[k - from]));
            return None;
        }
        k = k + 1;
    }
    let id = path.substring_char(from, n);
    assert forall|j: int| 0 <= j < id@.len() implies id_char(#[trigger] id@[j]) by {
        assert(id@[j] == p@[from + j]);
    }
    Some(id)
}

/// Percent-decodes text given as characters.
pub fn percent_decode_chars(c: &[char]) -> (out: String)
    ensures
        out@ == utf8_text(pct_decode_from(encode_utf8(c@), 0)),
{
    let s = string_from_chars(c);
    percent_decode(s.as_str())
}

/// The backup name in `/api/backups/<name>` (`<name>/restore` when
/// `with_restore_suffix`), percent-decoded; absent when the path has another
/// shape or the name is empty.
pub open spec fn backup_name_spec(path: Seq<char>, with_restore_suffix: bool) -> Option<Seq<char>> {
    let p = "/api/backups/"@;
    let r = "/restore"@;
    if !p.is_prefix_of(path) {
        None
    } else {
        let rest = path.subrange(p.len() as int, path.len() as int);
        if with_restore_suffix && !r.is_suffix_of(rest) {
            None
        } else {
            let name = if with_restore_suffix {
                rest.subrange(0, rest.len() - r.len())
            } else {
                rest
            };
            if name.len() == 0 {
                None
            } else {
                Some(utf8_text(pct_decode_from(encode_utf8(name), 0)))
            }
        }
    }
}

/// Reads the backup name out of a backup request path.
pub fn backup_name_from_path(path: &str, with_restore_suffix: bool) -> (r: Option<String>)
    ensures
        match r {
            Some(n) => backup_name_spec(path@, with_restore_suffix) == Some(n@),
            None => backup_name_spec(path@, with_restore_suffix) is None,
        },
{
    let p = chars_of(path);
    let pre = chars_of("/api/backups/");
    let suf = chars_of("/restore");
    if !has_prefix(p.as_slice(), pre.as_slice()) {
        return None;
    }
    let rest = slice_chars(p.as_slice(), pre.len(), p.len());
    if with_restore_suffix && !has_suffix(rest.as_slice(), suf.as_slice()) {
        return None;
    }
    let end = if with_restore_suffix {
        rest.len() - suf.len()
    } else {
        rest.len()
    };
    let name = slice_chars(rest.as_slice(), 0, end);
    if with_restore_suffix {
        assert(name@ == rest@.subrange(0, rest@.len() - suf@.len()));
    } else {
        assert(name@ =~= rest@);
    }
    if name.len() == 0 {
        return None;
    }
    Some(percent_decode_chars(name.as_slice()))
}

/// How many backups the live server keeps when a request names no count.
pub fn default_keep() -> (n: usize)
    ensures
        n == 7,
{
    7
}

/// `s` with every `+` turned into a space.
pub open spec fn plus_to_space(s: Seq<char>) -> Seq<char> {
    s.map_values(|c: char| if c == '+' { ' ' } else { c })
}

/// Index of the first piece at or after `j` that starts with `prefix`, or `pieces.len()`.
pub open spec fn first_with_prefix(pieces: Seq<Seq<char>>, prefix: Seq<char>, j: int) -> int
    decreases pieces.len() - j,
{
    if j < 0 || j >= pieces.len() {
        pieces.len() as int
    } else if prefix.is_prefix_of(pieces[j]) {
        j
    } else {
        first_with_prefix(pieces, prefix, j + 1)
    }
}

/// The value of `key` in a `&`-separated query string: the first `key=`
/// pair wins, `+` reads as a space, escapes are decoded.
pub open spec fn query_param_spec(query: Seq<char>, key: Seq<char>) -> Option<Seq<char>> {
    let pieces = split_on(query, '&');
    let prefix = key + "="@;
    let j = first_with_prefix(pieces, prefix, 0);
    if j < pieces.len() {
        let v = pieces[j].subrange(prefix.len() as int, pieces[j].len() as int);
        Some(utf8_text(pct_decode_from(encode_utf8(plus_to_space(v)), 0)))
    } else {
        None
    }
}

/// Looks up one parameter of a request's query string.
pub fn query_param(query: &str, key: &str) -> (r: Option<String>)
    ensures
        match r {
            Some(v) => query_param_spec(query@, key@) == Some(v@),
            None => query_param_spec(query@, key@) is None,
        },
{
    let q = chars_of(query);
    let pieces = split_chars(q.as_slice(), '&');
    let ghost pv = views(pieces@);
    let mut prefix = chars_of(key);
    prefix.push('=');
    proof {
        reveal_strlit("=");
    }
    assert(prefix@ == key@ + "="@);
    let mut j: usize = 0;
    while j < pieces.len()
        invariant
            j <= pieces@.len(),
            pv == views(pieces@),
            pv == split_on(query@, '&'),
            prefix@ == key@ + "="@,
            first_with_prefix(pv, prefix@, 0) == first_with_prefix(pv, prefix@, j as int),
        decreases pieces@.len() - j,
    {
        let piece = &pieces[j];
        if has_prefix(piece.as_slice(), prefix.as_slice()) {
            let mut v: Vec<char> = Vec::new();
            let mut k = prefix.len();
            while k < piece.len()
                invariant
                    prefix@.len() <= k <= piece@.len(),
                    v@ == plus_to_space(piece@.subrange(prefix@.len() as int, k as int)),
                decreases piece@.len() - k,
            {
                let c = piece[k];
                v.push(if c == '+' { ' ' } else { c });
                k = k + 1;
                assert(plus_to_space(piece@.subrange(prefix@.len() as int, k as int)) =~= plus_to_space(
                    piece@.subrange(prefix@.len() as int, k - 1),
                ).push(if c == '+' { ' ' } else { c }));
            }
            return Some(percent_decode_chars(v.as_slice()));
        }
        j = j + 1;
    }
    None
}

} // verus!
