//! Task attachments: the content type of an attached file, the data URLs
//! attachments travel and are stored as, reading one back, and the
//! content type the live server answers an attachment request with.
use vstd::prelude::*;
use vstd::utf8::encode_utf8;
use crate::auth::{base64_char, base64_decode, base64_decoded, base64_encode, base64_text};
use crate::http::{extension, path_extension};
use crate::text::{chars_eq, chars_of, find_sub, find_sub_exec, push_str, slice_chars, string_from_chars};

verus! {

/// The content type of an attached file, by its extension.
pub open spec fn mime_from_ext_spec(ext: Option<Seq<char>>) -> Seq<char> {
    match ext {
        None => "application/octet-stream"@,
        Some(e) => if e == "png"@ {
            "image/png"@
        } else if e == "jpg"@ || e == "jpeg"@ {
            "image/jpeg"@
        } else if e == "gif"@ {
            "image/gif"@
        } else if e == "svg"@ {
            "image/svg+xml"@
        } else if e == "pdf"@ {
            "application/pdf"@
        } else if e == "txt"@ {
            "text/plain"@
        } else if e == "json"@ {
            "application/json"@
        } else if e == "html"@ || e == "htm"@ {
            "text/html"@
        } else if e == "css"@ {
            "text/css"@
        } else if e == "js"@ {
            "application/javascript"@
        } else if e == "zip"@ {
            "application/zip"@
        } else if e == "mp4"@ {
            "video/mp4"@
        } else if e == "mp3"@ {
            "audio/mpeg"@
        } else {
            "application/octet-stream"@
        },
    }
}

fn is_ext(e: &[char], lit: &str) -> (r: bool)
    ensures
        r == (e@ == lit@),
{
    let l = chars_of(lit);
    chars_eq(e, l.as_slice())
}

/// The content type of the file at `path`.
pub fn mime_from_ext(path: &str) -> (r: String)
    ensures
        r@ == mime_from_ext_spec(extension(path@)),
{
    let m = match path_extension(path) {
        None => "application/octet-stream",
        Some(e) => {
            let e = e.as_slice();
            if is_ext(e, "png") {
                "image/png"
            } else if is_ext(e, "jpg") || is_ext(e, "jpeg") {
                "image/jpeg"
            } else if is_ext(e, "gif") {
                "image/gif"
            } else if is_ext(e, "svg") {
                "image/svg+xml"
            } else if is_ext(e, "pdf") {
                "application/pdf"
            } else if is_ext(e, "txt") {
                "text/plain"
            } else if is_ext(e, "json") {
                "application/json"
            } else if is_ext(e, "html") || is_ext(e, "htm") {
                "text/html"
            } else if is_ext(e, "css") {
                "text/css"
            } else if is_ext(e, "js") {
                "application/javascript"
            } else if is_ext(e, "zip") {
                "application/zip"
            } else if is_ext(e, "mp4") {
                "video/mp4"
            } else if is_ext(e, "mp3") {
                "audio/mpeg"
            } else {
                "application/octet-stream"
            }
        },
    };
    String::from_str(m)
}

/// The data URL of `data` with content type `mime`.
pub open spec fn data_url_spec(mime: Seq<char>, data: Seq<u8>) -> Seq<char> {
    "data:"@ + mime + ";base64,"@ + base64_text(data)
}

/// The data URL of a file's bytes; what `decode_attachment` reads back from
/// it is those bytes.
pub fn data_url(mime: &str, data: &[u8]) -> (r: String)
    ensures
        r@ == data_url_spec(mime@, data@),
        base64_decoded(payload_spec(encode_utf8(r@))) == Ok::<Seq<u8>, Seq<char>>(data@),
{
    let mut v = chars_of("data:");
    push_str(&mut v, mime);
    push_str(&mut v, ";base64,");
    let ghost head = v@;
    proof {
        reveal_strlit(";base64,");
        assert(head.last() == ',');
    }
    let b = base64_encode(data);
    push_str(&mut v, b.as_str());
    proof {
        lemma_payload_of_data_url(head, b@);
    }
    string_from_chars(v.as_slice())
}

/// Text of the Base64 alphabet has no comma and no whitespace byte.
proof fn lemma_base64_bytes_plain(t: Seq<char>)
    requires
        forall|i: int| 0 <= i < t.len() ==> base64_char(#[trigger] t[i]),
    ensures
        encode_utf8(t).len() == t.len(),
        forall|i: int|
            0 <= i < t.len() ==> #[trigger] encode_utf8(t)[i] != 0x2c && !ascii_ws(encode_utf8(t)[i]),
{
    assert(vstd::utf8::is_ascii_chars(t)) by {
        assert forall|i: int| 0 <= i < t.len() implies '\0' <= #[trigger] t[i] <= '\u{7f}' by {
            assert(base64_char(t[i]));
        }
    }
    vstd::utf8::is_ascii_chars_encode_utf8(t);
    assert forall|i: int| 0 <= i < t.len() implies #[trigger] encode_utf8(t)[i] != 0x2c && !ascii_ws(
        encode_utf8(t)[i],
    ) by {
        assert(base64_char(t[i]));
        assert(t[i] as u8 == encode_utf8(t)[i]);
    }
}

/// The payload of a text that ends with a comma and then Base64 text is the
/// Base64 text.
proof fn lemma_payload_of_data_url(head: Seq<char>, t: Seq<char>)
    requires
        head.len() > 0,
        head.last() == ',',
        forall|i: int| 0 <= i < t.len() ==> base64_char(#[trigger] t[i]),
    ensures
        payload_spec(encode_utf8(head + t)) == encode_utf8(t),
{
    crate::text::lemma_encode_utf8_concat(head.drop_last(), seq![',']);
    assert(head.drop_last() + seq![','] =~= head);
    crate::text::lemma_encode_utf8_concat(head, t);
    lemma_base64_bytes_plain(t);
    let eh = encode_utf8(head);
    let et = encode_utf8(t);
    let x = encode_utf8(head + t);
    assert(encode_utf8(seq![',']) =~= seq![0x2cu8]) by {
        vstd::utf8::is_ascii_chars_encode_utf8(seq![',']);
    }
    assert(eh.last() == 0x2c);
    let k = eh.len() - 1;
    assert(x[k] == 0x2c);
    x.index_of_last_ensures(0x2c);
    assert(x.index_of_last(0x2c) == Some(k)) by {
        assert(x.contains(0x2c));
        let m = x.index_of_last(0x2c)->0;
        if m > k {
            assert(x[m] == et[m - eh.len()]);
        }
    }
    assert(x.subrange(k + 1, x.len() as int) =~= et);
    lemma_filter_keeps_all(et, |c: u8| !ascii_ws(c));
}

/// Bytes that all pass a filter come out of it unchanged.
proof fn lemma_filter_keeps_all(b: Seq<u8>, f: spec_fn(u8) -> bool)
    requires
        forall|i: int| 0 <= i < b.len() ==> f(#[trigger] b[i]),
    ensures
        b.filter(f) == b,
    decreases b.len(),
{
    reveal(Seq::filter);
    if b.len() > 0 {
        lemma_filter_keeps_all(b.drop_last(), f);
        assert(f(b[b.len() - 1]));
        assert(b.filter(f) == b.drop_last().filter(f).push(b.last()));
        assert(b.drop_last().push(b.last()) =~= b);
    } else {
        assert(b.filter(f) == b);
    }
}

/// Whether a byte is ASCII whitespace (space, tab, line feed, form feed,
/// carriage return), as `u8::is_ascii_whitespace` tells.
pub open spec fn ascii_ws(b: u8) -> bool {
    b == 0x20 || b == 0x09 || b == 0x0a || b == 0x0c || b == 0x0d
}

/// The Base64 part of a stored attachment: the text after its last comma
/// (the whole text without one), ASCII whitespace left out.
pub open spec fn payload_spec(text: Seq<u8>) -> Seq<u8> {
    let start = match text.index_of_last(0x2c) {
        Some(k) => k + 1,
        None => 0,
    };
    text.subrange(start, text.len() as int).filter(|b: u8| !ascii_ws(b))
}

/// The Base64 part of a stored attachment.
pub fn attachment_payload(text: &[u8]) -> (r: Vec<u8>)
    ensures
        r@ == payload_spec(text@),
{
    let mut k: usize = text.len();
    while k > 0 && text[k - 1] != 0x2c
        invariant
            k <= text@.len(),
            forall|j: int| k <= j < text@.len() ==> text@[j] != 0x2c,
        decreases k,
    {
        k = k - 1;
    }
    proof {
        text@.index_of_last_ensures(0x2c);
        if k > 0 {
            assert(text@[k - 1] == 0x2c);
        }
    }
    let ghost rest = text@.subrange(k as int, text@.len() as int);
    let ghost f = |b: u8| !ascii_ws(b);
    let mut out: Vec<u8> = Vec::new();
    let mut i: usize = k;
    assert(rest.take(0) =~= Seq::<u8>::empty());
    while i < text.len()
        invariant
            k <= i <= text@.len(),
            rest == text@.subrange(k as int, text@.len() as int),
            f == (|b: u8| !ascii_ws(b)),
            out@ == rest.take(i - k).filter(f),
        decreases text@.len() - i,
    {
        let b = text[i];
        let ghost before = out@;
        assert(rest.take(i - k + 1) =~= rest.take(i - k).push(b));
        proof {
            rest.take(i - k).lemma_filter_push(b, f);
        }
        if !(b == 0x20 || b == 0x09 || b == 0x0a || b == 0x0c || b == 0x0d) {
            out.push(b);
        }
        i = i + 1;
    }
    assert(rest.take(text@.len() - k) =~= rest);
    out
}

/// Reads a stored attachment back into its bytes; the decoder's complaint
/// when its Base64 is broken.
pub fn decode_attachment(text: &str) -> (r: Result<Vec<u8>, String>)
    ensures
        match r {
            Ok(v) => base64_decoded(payload_spec(vstd::utf8::encode_utf8(text@))) == Ok::<Seq<u8>, Seq<char>>(v@),
            Err(e) => base64_decoded(payload_spec(vstd::utf8::encode_utf8(text@))) == Err::<Seq<u8>, Seq<char>>(e@),
        },
{
    let p = attachment_payload(text.as_bytes());
    base64_decode(p.as_slice())
}

/// The content type the live server sends with an attachment: the
/// `mime=` value of the query (up to the next `&` or the next `mime=`),
/// else `application/octet-stream`.
pub open spec fn attachment_mime_spec(query: Seq<char>) -> Seq<char> {
    let f = find_sub(query, "mime="@, 0);
    if f < 0 {
        "application/octet-stream"@
    } else {
        let rest = query.subrange(f + 5, query.len() as int);
        let g = find_sub(rest, "mime="@, 0);
        let piece = if g < 0 {
            rest
        } else {
            rest.subrange(0, g)
        };
        match piece.index_of_first('&') {
            Some(a) => piece.subrange(0, a),
            None => piece,
        }
    }
}

/// The content type of an attachment request.
pub fn attachment_mime(query: &str) -> (r: String)
    ensures
        r@ == attachment_mime_spec(query@),
{
    let q = chars_of(query);
    let key = chars_of("mime=");
    proof {
        reveal_strlit("mime=");
    }
    match find_sub_exec(q.as_slice(), key.as_slice(), 0) {
        None => String::from_str("application/octet-stream"),
        Some(f) => {
            let n = q.len();
            assert(key@.len() == 5);
            assert(f + key@.len() <= n);
            let rest = slice_chars(q.as_slice(), f + 5, n);
            let piece = match find_sub_exec(rest.as_slice(), key.as_slice(), 0) {
                None => rest,
                Some(g) => slice_chars(rest.as_slice(), 0, g),
            };
            let mut a: usize = 0;
            while a < piece.len() && piece[a] != '&'
                invariant
                    a <= piece@.len(),
                    forall|j: int| 0 <= j < a ==> piece@[j] != '&',
                decreases piece@.len() - a,
            {
                a = a + 1;
            }
            proof {
                piece@.index_of_first_ensures('&');
                if a == piece@.len() {
                    assert(piece@.subrange(0, a as int) =~= piece@);
                }
            }
            string_from_chars(slice_chars(piece.as_slice(), 0, a).as_slice())
        },
    }
}

} // verus!
