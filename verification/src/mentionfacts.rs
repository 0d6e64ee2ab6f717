//! Facts about rewriting mention links: replacing every occurrence of a
//! link token leaves none behind when the tokens are shaped as mention
//! tokens are.
use vstd::prelude::*;
use crate::notetext::{hex_upper, mention_token, replace_from, uri_encode, uri_unreserved};
use crate::text::find_sub;
use vstd::utf8::{char_is_scalar, encode_scalar, encode_utf8, has_width_1_encoding, has_width_2_encoding, has_width_3_encoding};

verus! {

/// Whether `pat` occurs in `s` at `j`.
pub open spec fn occurs_at(s: Seq<char>, pat: Seq<char>, j: int) -> bool {
    0 <= j && j + pat.len() <= s.len() && s.subrange(j, j + pat.len()) == pat
}

/// A token that opens with `]` and holds no other `]`.
pub open spec fn bracket_led(t: Seq<char>) -> bool {
    &&& t.len() >= 1
    &&& t[0] == ']'
    &&& forall|k: int| 1 <= k < t.len() ==> #[trigger] t[k] != ']'
}

/// Without a match in `[i, j)`, the rewrite of `s[i..]` copies `s[i..j]`
/// and goes on from `j`.
pub proof fn lemma_replace_copies(s: Seq<char>, pat: Seq<char>, rep: Seq<char>, i: int, j: int)
    requires
        pat.len() > 0,
        0 <= i <= j <= s.len(),
        forall|m: int| i <= m < j ==> !occurs_at(s, pat, m),
    ensures
        replace_from(s, pat, rep, i) == s.subrange(i, j) + replace_from(s, pat, rep, j),
    decreases j - i,
{
    if i < j {
        assert(!occurs_at(s, pat, i));
        lemma_replace_copies(s, pat, rep, i + 1, j);
        assert(s.subrange(i, j) =~= seq![s[i]] + s.subrange(i + 1, j));
    } else {
        assert(s.subrange(i, j) =~= Seq::<char>::empty());
    }
}

/// The rewrite of `s[i..]` for `i` past the end is empty, and at the end it
/// is the empty rest.
pub proof fn lemma_replace_end(s: Seq<char>, pat: Seq<char>, rep: Seq<char>)
    ensures
        replace_from(s, pat, rep, s.len() as int) == Seq::<char>::empty(),
{
    assert(s.subrange(s.len() as int, s.len() as int) =~= Seq::<char>::empty());
}

/// Replacing every occurrence of a bracket-led token by another
/// bracket-led token that differs from it within their common length
/// leaves no occurrence behind.
pub proof fn lemma_replace_leaves_none(s: Seq<char>, pat: Seq<char>, rep: Seq<char>, i: int)
    requires
        0 <= i <= s.len(),
        bracket_led(pat),
        bracket_led(rep),
        exists|t: int| 0 <= t < pat.len() && t < rep.len() && pat[t] != rep[t],
    ensures
        forall|q: int| !occurs_at(#[trigger] replace_from(s, pat, rep, i), pat, q),
    decreases s.len() - i,
{
    let r = replace_from(s, pat, rep, i);
    if i == s.len() {
        lemma_replace_end(s, pat, rep);
        assert forall|q: int| !occurs_at(#[trigger] replace_from(s, pat, rep, i), pat, q) by {}
    } else if occurs_at(s, pat, i) {
        let rest = replace_from(s, pat, rep, i + pat.len());
        lemma_replace_leaves_none(s, pat, rep, i + pat.len());
        assert(r == rep + rest);
        assert forall|q: int| !occurs_at(#[trigger] replace_from(s, pat, rep, i), pat, q) by {
            if occurs_at(r, pat, q) {
                if q >= rep.len() {
                    assert(r.subrange(q, q + pat.len()) =~= rest.subrange(q - rep.len(), q - rep.len() + pat.len()));
                    assert(occurs_at(rest, pat, q - rep.len()));
                } else if q > 0 {
                    assert(r.subrange(q, q + pat.len())[0] == r[q]);
                    assert(r[q] == rep[q]);
                } else {
                    let t = choose|t: int| 0 <= t < pat.len() && t < rep.len() && pat[t] != rep[t];
                    assert(r.subrange(0, pat.len() as int)[t] == r[t]);
                    assert(r[t] == rep[t]);
                }
            }
        }
    } else {
        let rest = replace_from(s, pat, rep, i + 1);
        lemma_replace_leaves_none(s, pat, rep, i + 1);
        assert(r == seq![s[i]] + rest);
        assert forall|q: int| !occurs_at(#[trigger] replace_from(s, pat, rep, i), pat, q) by {
            if occurs_at(r, pat, q) {
                if q >= 1 {
                    assert(r.subrange(q, q + pat.len()) =~= rest.subrange(q - 1, q - 1 + pat.len()));
                    assert(occurs_at(rest, pat, q - 1));
                } else {
                    lemma_first_link_is_original(s, pat, rep, i);
                }
            }
        }
    }
}

/// Without a match at `i`, the rewrite of `s[i..]` does not start with
/// `pat`: the characters after an opening `]` hold no `]`, so no
/// replacement begins within them, and they would copy a match of `s`.
#[verifier::spinoff_prover]
#[verifier::rlimit(40)]
proof fn lemma_first_link_is_original(s: Seq<char>, pat: Seq<char>, rep: Seq<char>, i: int)
    requires
        0 <= i < s.len(),
        bracket_led(pat),
        bracket_led(rep),
        !occurs_at(s, pat, i),
    ensures
        !occurs_at(replace_from(s, pat, rep, i), pat, 0),
{
    if occurs_at(replace_from(s, pat, rep, i), pat, 0) {
        let r = replace_from(s, pat, rep, i);
        let rest = replace_from(s, pat, rep, i + 1);
        assert(r == seq![s[i]] + rest);
        let n = pat.len() as int;
        assert(r.subrange(0, n)[0] == r[0]);
        assert(s[i] == pat[0]);
        let e = if i + n <= s.len() { i + n } else { s.len() as int };
        if exists|j: int| i + 1 <= j < e && occurs_at(s, pat, j) {
            let j0 = choose|j: int| i + 1 <= j < e && occurs_at(s, pat, j);
            lemma_first_match_in(s, pat, i + 1, j0);
            let j = choose|j: int| i + 1 <= j <= j0 && occurs_at(s, pat, j) && forall|m: int| i + 1 <= m < j ==> !occurs_at(s, pat, m);
            lemma_replace_copies(s, pat, rep, i + 1, j);
            let rj = replace_from(s, pat, rep, j);
            assert(rj == rep + replace_from(s, pat, rep, j + n));
            assert(rest == s.subrange(i + 1, j) + rj);
            let k = j - i;
            assert(rest[k - 1] == rj[0]);
            assert(r[k] == rest[k - 1]);
            assert(r.subrange(0, n)[k] == r[k]);
            assert(pat[k] == ']');
        } else {
            lemma_replace_copies(s, pat, rep, i + 1, e);
            if e == i + n {
                assert(s.subrange(i, i + n) =~= pat) by {
                    assert forall|k: int| 0 <= k < n implies s.subrange(i, i + n)[k] == pat[k] by {
                        if k > 0 {
                            assert(rest[k - 1] == s[i + k]);
                            assert(r[k] == rest[k - 1]);
                            assert(r.subrange(0, n)[k] == r[k]);
                        }
                    }
                }
            } else {
                lemma_replace_end(s, pat, rep);
                assert(rest.len() == s.len() - i - 1);
            }
        }
    }
}

/// Among matches in `[lo, j]` there is a first one.
proof fn lemma_first_match_in(s: Seq<char>, pat: Seq<char>, lo: int, j: int)
    requires
        lo <= j,
        occurs_at(s, pat, j),
    ensures
        exists|f: int| lo <= f <= j && occurs_at(s, pat, f) && forall|m: int| lo <= m < f ==> !occurs_at(s, pat, m),
    decreases j - lo,
{
    if occurs_at(s, pat, lo) {
        assert(forall|m: int| lo <= m < lo ==> !occurs_at(s, pat, m));
    } else {
        lemma_first_match_in(s, pat, lo + 1, j);
        let f = choose|f: int| lo + 1 <= f <= j && occurs_at(s, pat, f) && forall|m: int| lo + 1 <= m < f ==> !occurs_at(s, pat, m);
        assert(forall|m: int| lo <= m < f ==> !occurs_at(s, pat, m));
    }
}


/// Without a match found from `from`, nothing matches at or after it.
pub proof fn lemma_no_find_no_occurrence(s: Seq<char>, pat: Seq<char>, from: int)
    requires
        0 <= from,
        find_sub(s, pat, from) == -1,
    ensures
        forall|q: int| from <= q ==> !#[trigger] occurs_at(s, pat, q),
    decreases s.len() + 1 - from,
{
    if from + pat.len() > s.len() {
    } else {
        lemma_no_find_no_occurrence(s, pat, from + 1);
    }
}

/// A byte of the UTF-8 form of `c` is `)` only where `c` is `)`.
proof fn lemma_scalar_bytes(c: char)
    ensures
        forall|k: int| 0 <= k < encode_scalar(c as u32).len() && #[trigger] encode_scalar(c as u32)[k] == 0x29u8 ==> c == ')',
{
    char_is_scalar(c);
    let v = c as u32;
    if has_width_1_encoding(v) {
        assert((v & 0x7F) as u8 == 0x29u8 ==> v == 0x29u32) by (bit_vector)
            requires v <= 0x7F;
    } else if has_width_2_encoding(v) {
        assert((0xC0u8 | ((v >> 6) & 0x1F) as u8) >= 0x80u8) by (bit_vector);
        assert((0x80u8 | (v & 0x3F) as u8) >= 0x80u8) by (bit_vector);
    } else if has_width_3_encoding(v) {
        assert((0xE0u8 | ((v >> 12) & 0x0F) as u8) >= 0x80u8) by (bit_vector);
        assert((0x80u8 | ((v >> 6) & 0x3F) as u8) >= 0x80u8) by (bit_vector);
        assert((0x80u8 | (v & 0x3F) as u8) >= 0x80u8) by (bit_vector);
    } else {
        assert((0xF0u8 | ((v >> 18) & 0x7) as u8) >= 0x80u8) by (bit_vector);
        assert((0x80u8 | ((v >> 12) & 0x3F) as u8) >= 0x80u8) by (bit_vector);
        assert((0x80u8 | ((v >> 6) & 0x3F) as u8) >= 0x80u8) by (bit_vector);
        assert((0x80u8 | (v & 0x3F) as u8) >= 0x80u8) by (bit_vector);
    }
}

/// Text without `)` encodes to UTF-8 without the byte `)`.
proof fn lemma_utf8_without_paren(s: Seq<char>)
    requires
        !s.contains(')'),
    ensures
        forall|k: int| 0 <= k < encode_utf8(s).len() ==> #[trigger] encode_utf8(s)[k] != 0x29u8,
    decreases s.len(),
{
    if s.len() > 0 {
        let head = encode_scalar(s[0] as u32);
        let tail = encode_utf8(s.drop_first());
        assert(!s.drop_first().contains(')')) by {
            if s.drop_first().contains(')') {
                let j = choose|j: int| 0 <= j < s.drop_first().len() && s.drop_first()[j] == ')';
                assert(s[j + 1] == ')');
            }
        }
        lemma_utf8_without_paren(s.drop_first());
        lemma_scalar_bytes(s[0]);
        assert(s[0] != ')') by {
            if s[0] == ')' {
                assert(s.contains(')'));
            }
        }
        assert(encode_utf8(s) == head + tail);
        assert forall|k: int| 0 <= k < encode_utf8(s).len() implies #[trigger] encode_utf8(s)[k] != 0x29u8 by {
            if k < head.len() {
                assert(encode_utf8(s)[k] == head[k]);
            } else {
                assert(encode_utf8(s)[k] == tail[k - head.len()]);
            }
        }
    }
}

/// The characters the encoder writes for one byte.
spec fn encoded_byte(x: u8) -> Seq<char> {
    if uri_unreserved(x) {
        seq![x as char]
    } else {
        seq!['%', hex_upper(x / 16), hex_upper(x % 16)]
    }
}

/// One byte's encoding holds no `]`, and holds `)` only for the byte `)`.
proof fn lemma_encoded_piece(x: u8)
    ensures
        forall|k: int| 0 <= k < encoded_byte(x).len() ==> #[trigger] encoded_byte(x)[k] != ']',
        x != 0x29u8 ==> forall|k: int| 0 <= k < encoded_byte(x).len() ==> #[trigger] encoded_byte(x)[k] != ')',
{
    let p = encoded_byte(x);
    if !uri_unreserved(x) {
        assert(x / 16 < 16 && x % 16 < 16);
        assert forall|k: int| 0 <= k < p.len() implies #[trigger] p[k] != ']' && p[k] != ')' by {
            if k == 0 {
            } else if k == 1 {
                assert(p[1] == hex_upper(x / 16));
            } else {
                assert(p[2] == hex_upper(x % 16));
            }
        }
    }
}

/// Percent-encoded text holds no `]`, and holds `)` only where the bytes do.
proof fn lemma_uri_encode_chars(b: Seq<u8>)
    ensures
        forall|k: int| 0 <= k < uri_encode(b).len() ==> #[trigger] uri_encode(b)[k] != ']',
        (forall|j: int| 0 <= j < b.len() ==> #[trigger] b[j] != 0x29u8) ==> forall|k: int| 0 <= k < uri_encode(b).len() ==> #[trigger] uri_encode(b)[k] != ')',
    decreases b.len(),
{
    if b.len() > 0 {
        let x = b.last();
        let front = uri_encode(b.drop_last());
        let piece = encoded_byte(x);
        lemma_uri_encode_chars(b.drop_last());
        lemma_encoded_piece(x);
        assert(uri_encode(b) == front + piece);
        assert forall|k: int| 0 <= k < uri_encode(b).len() implies #[trigger] uri_encode(b)[k] != ']' by {
            if k < front.len() {
                assert(uri_encode(b)[k] == front[k]);
            } else {
                assert(uri_encode(b)[k] == piece[k - front.len()]);
            }
        }
        if forall|j: int| 0 <= j < b.len() ==> #[trigger] b[j] != 0x29u8 {
            assert(forall|j: int| 0 <= j < b.drop_last().len() ==> #[trigger] b.drop_last()[j] != 0x29u8) by {
                assert forall|j: int| 0 <= j < b.drop_last().len() implies #[trigger] b.drop_last()[j] != 0x29u8 by {
                    assert(b.drop_last()[j] == b[j]);
                }
            }
            assert(b[b.len() - 1] != 0x29u8);
            assert forall|k: int| 0 <= k < uri_encode(b).len() implies #[trigger] uri_encode(b)[k] != ')' by {
                if k < front.len() {
                    assert(uri_encode(b)[k] == front[k]);
                } else {
                    assert(uri_encode(b)[k] == piece[k - front.len()]);
                }
            }
        }
    }
}


/// Every mention token opens with `]` and holds no other `]`.
pub proof fn lemma_token_bracket_led(path: Seq<char>)
    ensures
        bracket_led(mention_token(path)),
{
    reveal_strlit("](note:");
    reveal_strlit(")");
    let e = uri_encode(encode_utf8(path));
    let t = mention_token(path);
    lemma_uri_encode_chars(encode_utf8(path));
    assert forall|k: int| 1 <= k < t.len() implies #[trigger] t[k] != ']' by {
        if k < 7 {
            assert(t[k] == "](note:"@[k]);
        } else if k < 7 + e.len() {
            assert(t[k] == e[k - 7]);
        } else {
            assert(t[k] == ')');
        }
    }
}

/// A path without `)` encodes to text without `)`.
proof fn lemma_encoded_path_without_paren(path: Seq<char>)
    requires
        !path.contains(')'),
    ensures
        forall|k: int| 0 <= k < uri_encode(encode_utf8(path)).len() ==> #[trigger] uri_encode(encode_utf8(path))[k] != ')',
{
    lemma_utf8_without_paren(path);
    lemma_uri_encode_chars(encode_utf8(path));
}

/// When the token of `new` does not start with the token of `old`, and
/// `old` holds no `)`, the two tokens differ at a place both of them reach.
pub proof fn lemma_tokens_differ(old: Seq<char>, new: Seq<char>)
    requires
        !old.contains(')'),
        !occurs_at(mention_token(new), mention_token(old), 0),
    ensures
        exists|t: int| 0 <= t < mention_token(old).len() && t < mention_token(new).len() && mention_token(old)[t] != mention_token(new)[t],
{
    reveal_strlit("](note:");
    reveal_strlit(")");
    let eo = uri_encode(encode_utf8(old));
    let en = uri_encode(encode_utf8(new));
    let to = mention_token(old);
    let tn = mention_token(new);
    lemma_encoded_path_without_paren(old);
    if exists|k: int| 0 <= k < eo.len() && k < en.len() && eo[k] != en[k] {
        let k = choose|k: int| 0 <= k < eo.len() && k < en.len() && eo[k] != en[k];
        assert(to[7 + k] == eo[k]);
        assert(tn[7 + k] == en[k]);
    } else if eo.len() < en.len() {
        let k = eo.len() as int;
        assert(to[7 + k] == ')');
        assert(tn[7 + k] == en[k]);
        if tn[7 + k] == ')' {
            assert(tn.subrange(0, to.len() as int) =~= to) by {
                assert forall|j: int| 0 <= j < to.len() implies tn.subrange(0, to.len() as int)[j] == to[j] by {
                    if 7 <= j < 7 + k {
                        assert(to[j] == eo[j - 7]);
                        assert(tn[j] == en[j - 7]);
                    }
                }
            }
        }
    } else if en.len() < eo.len() {
        let k = en.len() as int;
        assert(tn[7 + k] == ')');
        assert(to[7 + k] == eo[k]);
    } else {
        assert(eo =~= en);
        assert(tn.subrange(0, to.len() as int) =~= to);
    }
}

} // verus!
