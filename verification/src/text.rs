//! Character-level text utilities shared by every module: whitespace as
//! Unicode defines it, trimming, word splitting and ASCII case folding,
//! each stated over `Seq<char>` and implemented over `Vec<char>`.
use vstd::prelude::*;

verus! {

/// The characters of a string slice, in order.
pub fn chars_of(s: &str) -> (v: Vec<char>)
    ensures
        v@ == s@,
{
    let mut v: Vec<char> = Vec::new();
    for c in it: s.chars()
        invariant
            v@ == it.seq().take(it.index() as int),
            it.seq() == s@,
    {
        v.push(c);
    }
    v
}

/// `String::from_iter` over characters: the string whose characters are `v`.
#[verifier::external_body]
pub(crate) fn string_from_chars(v: &[char]) -> (s: String)
    ensures
        s@ == v@,
{
    v.iter().collect()
}

/// Unicode `White_Space`, the set that `char::is_whitespace` tests.
pub open spec fn is_ws(c: char) -> bool {
    ||| ('\t' <= c && c <= '\r')
    ||| c == ' '
    ||| c == '\u{85}'
    ||| c == '\u{a0}'
    ||| c == '\u{1680}'
    ||| ('\u{2000}' <= c && c <= '\u{200a}')
    ||| c == '\u{2028}'
    ||| c == '\u{2029}'
    ||| c == '\u{202f}'
    ||| c == '\u{205f}'
    ||| c == '\u{3000}'
}

pub fn is_whitespace(c: char) -> (b: bool)
    ensures
        b == is_ws(c),
{
    ('\t' <= c && c <= '\r') || c == ' ' || c == '\u{85}' || c == '\u{a0}' || c == '\u{1680}'
        || ('\u{2000}' <= c && c <= '\u{200a}') || c == '\u{2028}' || c == '\u{2029}'
        || c == '\u{202f}' || c == '\u{205f}' || c == '\u{3000}'
}

/// ASCII whitespace as `u8::is_ascii_whitespace` defines it (no vertical tab).
pub open spec fn is_ascii_ws(b: u8) -> bool {
    b == 0x20 || b == 0x09 || b == 0x0a || b == 0x0c || b == 0x0d
}

/// Index of the first non-whitespace character at or after `i`.
pub open spec fn skip_ws(s: Seq<char>, i: int) -> int
    decreases s.len() - i,
{
    if 0 <= i < s.len() && is_ws(s[i]) {
        skip_ws(s, i + 1)
    } else {
        i
    }
}

/// Index just past the run of non-whitespace characters starting at `i`.
pub open spec fn word_end(s: Seq<char>, i: int) -> int
    decreases s.len() - i,
{
    if 0 <= i < s.len() && !is_ws(s[i]) {
        word_end(s, i + 1)
    } else {
        i
    }
}

pub proof fn lemma_skip_ws(s: Seq<char>, i: int)
    requires
        0 <= i <= s.len(),
    ensures
        i <= skip_ws(s, i) <= s.len(),
        skip_ws(s, i) < s.len() ==> !is_ws(s[skip_ws(s, i)]),
        forall|k: int| i <= k < skip_ws(s, i) ==> is_ws(#[trigger] s[k]),
    decreases s.len() - i,
{
    if i < s.len() && is_ws(s[i]) {
        lemma_skip_ws(s, i + 1);
    }
}

pub proof fn lemma_word_end(s: Seq<char>, i: int)
    requires
        0 <= i <= s.len(),
    ensures
        i <= word_end(s, i) <= s.len(),
        word_end(s, i) < s.len() ==> is_ws(s[word_end(s, i)]),
        forall|k: int| i <= k < word_end(s, i) ==> !is_ws(#[trigger] s[k]),
    decreases s.len() - i,
{
    if i < s.len() && !is_ws(s[i]) {
        lemma_word_end(s, i + 1);
    }
}

/// The whitespace-separated words of `s` from index `i` on, as
/// `str::split_whitespace` yields them.
pub open spec fn words_from(s: Seq<char>, i: int) -> Seq<Seq<char>>
    decreases s.len() - i,
{
    if 0 <= i <= s.len() {
        let j = skip_ws(s, i);
        proof {
            lemma_skip_ws(s, i);
        }
        if j >= s.len() {
            seq![]
        } else {
            let k = word_end(s, j);
            proof {
                lemma_word_end(s, j);
            }
            seq![s.subrange(j, k)] + words_from(s, k)
        }
    } else {
        seq![]
    }
}

/// The whitespace-separated words of `s`.
pub open spec fn words(s: Seq<char>) -> Seq<Seq<char>> {
    words_from(s, 0)
}

/// The views of a vector of character vectors.
pub open spec fn views(v: Seq<Vec<char>>) -> Seq<Seq<char>> {
    v.map_values(|w: Vec<char>| w@)
}

/// Copies `s[from..to]` into a new vector.
pub fn slice_chars(s: &[char], from: usize, to: usize) -> (w: Vec<char>)
    requires
        from <= to <= s@.len(),
    ensures
        w@ == s@.subrange(from as int, to as int),
{
    let mut w: Vec<char> = Vec::new();
    let mut k: usize = from;
    while k < to
        invariant
            from <= k <= to <= s@.len(),
            w@ == s@.subrange(from as int, k as int),
        decreases to - k,
    {
        w.push(s[k]);
        k = k + 1;
    }
    w
}

/// Splits `s` into its whitespace-separated words.
pub fn split_words(s: &[char]) -> (out: Vec<Vec<char>>)
    ensures
        views(out@) == words(s@),
{
    let n = s.len();
    let mut out: Vec<Vec<char>> = Vec::new();
    let mut i: usize = 0;
    while i < n
        invariant
            n == s@.len(),
            i <= n,
            words(s@) == views(out@) + words_from(s@, i as int),
        decreases n - i,
    {
        let ghost i0 = i as int;
        proof {
            lemma_skip_ws(s@, i0);
        }
        while i < n && is_whitespace(s[i])
            invariant
                n == s@.len(),
                i0 <= i <= n,
                skip_ws(s@, i0) == skip_ws(s@, i as int),
            decreases n - i,
        {
            i = i + 1;
        }
        if i == n {
            assert(words_from(s@, i0) =~= seq![]);
            assert(views(out@) + words_from(s@, i0) =~= views(out@));
            return out;
        }
        let start = i;
        proof {
            lemma_word_end(s@, start as int);
        }
        while i < n && !is_whitespace(s[i])
            invariant
                n == s@.len(),
                start <= i <= n,
                word_end(s@, start as int) == word_end(s@, i as int),
            decreases n - i,
        {
            i = i + 1;
        }
        let w = slice_chars(s, start, i);
        let ghost rest = words_from(s@, i as int);
        assert(words_from(s@, i0) == seq![s@.subrange(start as int, i as int)] + rest);
        let ghost before = views(out@);
        out.push(w);
        assert(views(out@) =~= before.push(w@));
        assert(words(s@) =~= views(out@) + rest);
    }
    assert(words_from(s@, n as int) =~= seq![]) by {
        lemma_skip_ws(s@, n as int);
    }
    assert(views(out@) + words_from(s@, n as int) =~= views(out@));
    out
}

/// Whether two character slices hold the same characters.
pub fn chars_eq(a: &[char], b: &[char]) -> (r: bool)
    ensures
        r == (a@ == b@),
{
    if a.len() != b.len() {
        return false;
    }
    let mut i: usize = 0;
    while i < a.len()
        invariant
            a@.len() == b@.len(),
            i <= a@.len(),
            forall|k: int| 0 <= k < i ==> a@[k] == b@[k],
        decreases a@.len() - i,
    {
        if a[i] != b[i] {
            return false;
        }
        i = i + 1;
    }
    assert(a@ =~= b@);
    true
}

/// Whether two string slices hold the same characters.
pub fn str_eq(a: &str, b: &str) -> (r: bool)
    ensures
        r == (a@ == b@),
{
    let x = chars_of(a);
    let y = chars_of(b);
    chars_eq(x.as_slice(), y.as_slice())
}

/// The ASCII upper-case form of `c`; other characters are unchanged.
pub open spec fn upper(c: char) -> char {
    if 'a' <= c && c <= 'z' {
        ((c as u32) - 32) as char
    } else {
        c
    }
}

/// The ASCII lower-case form of `c`; other characters are unchanged.
pub open spec fn lower(c: char) -> char {
    if 'A' <= c && c <= 'Z' {
        ((c as u32) + 32) as char
    } else {
        c
    }
}

pub open spec fn upper_seq(s: Seq<char>) -> Seq<char> {
    s.map_values(|c: char| upper(c))
}

pub open spec fn lower_seq(s: Seq<char>) -> Seq<char> {
    s.map_values(|c: char| lower(c))
}

/// Equality up to ASCII case, as `str::eq_ignore_ascii_case` tests it.
pub open spec fn eq_ignore_case(a: Seq<char>, b: Seq<char>) -> bool {
    lower_seq(a) == lower_seq(b)
}

pub fn to_upper_char(c: char) -> (r: char)
    ensures
        r == upper(c),
{
    if 'a' <= c && c <= 'z' {
        let b = c as u8;
        (b - 32) as char
    } else {
        c
    }
}

pub fn to_lower_char(c: char) -> (r: char)
    ensures
        r == lower(c),
{
    if 'A' <= c && c <= 'Z' {
        let b = c as u8;
        (b + 32) as char
    } else {
        c
    }
}

/// The ASCII upper-case form of `s`.
pub fn to_upper(s: &[char]) -> (r: Vec<char>)
    ensures
        r@ == upper_seq(s@),
{
    let mut r: Vec<char> = Vec::new();
    let mut i: usize = 0;
    while i < s.len()
        invariant
            i <= s@.len(),
            r@ =~= upper_seq(s@.take(i as int)),
        decreases s@.len() - i,
    {
        r.push(to_upper_char(s[i]));
        i = i + 1;
        assert(upper_seq(s@.take(i as int)) =~= upper_seq(s@.take(i - 1)).push(upper(s@[i - 1])));
    }
    assert(s@.take(s@.len() as int) =~= s@);
    r
}

/// The ASCII lower-case form of `s`.
pub fn to_lower(s: &[char]) -> (r: Vec<char>)
    ensures
        r@ == lower_seq(s@),
{
    let mut r: Vec<char> = Vec::new();
    let mut i: usize = 0;
    while i < s.len()
        invariant
            i <= s@.len(),
            r@ =~= lower_seq(s@.take(i as int)),
        decreases s@.len() - i,
    {
        r.push(to_lower_char(s[i]));
        i = i + 1;
        assert(lower_seq(s@.take(i as int)) =~= lower_seq(s@.take(i - 1)).push(lower(s@[i - 1])));
    }
    assert(s@.take(s@.len() as int) =~= s@);
    r
}

/// Whether `a` and `b` are equal up to ASCII case.
pub fn chars_eq_ignore_case(a: &[char], b: &[char]) -> (r: bool)
    ensures
        r == eq_ignore_case(a@, b@),
{
    let x = to_lower(a);
    let y = to_lower(b);
    chars_eq(x.as_slice(), y.as_slice())
}

/// A set of characters that trimming and splitting work with.
#[derive(Clone, Copy)]
pub enum CharClass {
    /// Unicode whitespace.
    Whitespace,
    /// The statement separator `;`.
    Semicolon,
    /// The quotes that may wrap an SQL identifier: `"`, backquote, `[` and `]`.
    IdentQuote,
    /// The double quote `"`.
    DoubleQuote,
    /// The single quote `'`.
    SingleQuote,
    /// Either quote, `"` or `'`.
    AnyQuote,
    /// The path separator `/`.
    Slash,
}

pub open spec fn in_class(k: CharClass, c: char) -> bool {
    match k {
        CharClass::Whitespace => is_ws(c),
        CharClass::Semicolon => c == ';',
        CharClass::IdentQuote => c == '"' || c == '`' || c == '[' || c == ']',
        CharClass::DoubleQuote => c == '"',
        CharClass::SingleQuote => c == '\'',
        CharClass::AnyQuote => c == '"' || c == '\'',
        CharClass::Slash => c == '/',
    }
}

pub fn class_has(k: CharClass, c: char) -> (b: bool)
    ensures
        b == in_class(k, c),
{
    match k {
        CharClass::Whitespace => is_whitespace(c),
        CharClass::Semicolon => c == ';',
        CharClass::IdentQuote => c == '"' || c == '`' || c == '[' || c == ']',
        CharClass::DoubleQuote => c == '"',
        CharClass::SingleQuote => c == '\'',
        CharClass::AnyQuote => c == '"' || c == '\'',
        CharClass::Slash => c == '/',
    }
}

/// `s` without its leading characters of class `k`.
pub open spec fn strip_start(s: Seq<char>, k: CharClass) -> Seq<char>
    decreases s.len(),
{
    if s.len() > 0 && in_class(k, s[0]) {
        strip_start(s.drop_first(), k)
    } else {
        s
    }
}

/// `s` without its trailing characters of class `k`.
pub open spec fn strip_end(s: Seq<char>, k: CharClass) -> Seq<char>
    decreases s.len(),
{
    if s.len() > 0 && in_class(k, s.last()) {
        strip_end(s.drop_last(), k)
    } else {
        s
    }
}

/// `s` without characters of class `k` at either end (`str::trim_matches`).
pub open spec fn strip_both(s: Seq<char>, k: CharClass) -> Seq<char> {
    strip_end(strip_start(s, k), k)
}

/// `s` with whitespace removed at both ends, as `str::trim` does.
pub open spec fn trim(s: Seq<char>) -> Seq<char> {
    strip_both(s, CharClass::Whitespace)
}

/// The start index of `strip_start(s[lo..hi], k)` within `s`.
pub fn strip_start_at(s: &[char], lo: usize, hi: usize, k: CharClass) -> (r: usize)
    requires
        lo <= hi <= s@.len(),
    ensures
        lo <= r <= hi,
        s@.subrange(r as int, hi as int) == strip_start(s@.subrange(lo as int, hi as int), k),
{
    let mut i: usize = lo;
    while i < hi && class_has(k, s[i])
        invariant
            lo <= i <= hi <= s@.len(),
            strip_start(s@.subrange(lo as int, hi as int), k) == strip_start(
                s@.subrange(i as int, hi as int),
                k,
            ),
        decreases hi - i,
    {
        assert(s@.subrange(i as int, hi as int).drop_first() =~= s@.subrange(i + 1, hi as int));
        i = i + 1;
    }
    i
}

/// The end index of `strip_end(s[lo..hi], k)` within `s`.
pub fn strip_end_at(s: &[char], lo: usize, hi: usize, k: CharClass) -> (r: usize)
    requires
        lo <= hi <= s@.len(),
    ensures
        lo <= r <= hi,
        s@.subrange(lo as int, r as int) == strip_end(s@.subrange(lo as int, hi as int), k),
{
    let mut j: usize = hi;
    while j > lo && class_has(k, s[j - 1])
        invariant
            lo <= j <= hi <= s@.len(),
            strip_end(s@.subrange(lo as int, hi as int), k) == strip_end(
                s@.subrange(lo as int, j as int),
                k,
            ),
        decreases j - lo,
    {
        assert(s@.subrange(lo as int, j as int).drop_last() =~= s@.subrange(lo as int, j - 1));
        j = j - 1;
    }
    j
}

/// The bounds of `strip_both(s[lo..hi], k)` within `s`.
pub fn strip_both_at(s: &[char], lo: usize, hi: usize, k: CharClass) -> (r: (usize, usize))
    requires
        lo <= hi <= s@.len(),
    ensures
        lo <= r.0 <= r.1 <= hi,
        s@.subrange(r.0 as int, r.1 as int) == strip_both(s@.subrange(lo as int, hi as int), k),
{
    let a = strip_start_at(s, lo, hi, k);
    let b = strip_end_at(s, a, hi, k);
    (a, b)
}

/// Whether `c` occurs in `s`.
pub fn contains_char(s: &[char], c: char) -> (b: bool)
    ensures
        b == s@.contains(c),
{
    let mut i: usize = 0;
    while i < s.len()
        invariant
            i <= s@.len(),
            forall|k: int| 0 <= k < i ==> s@[k] != c,
        decreases s@.len() - i,
    {
        if s[i] == c {
            assert(s@[i as int] == c);
            return true;
        }
        i = i + 1;
    }
    false
}

/// Appends the characters of `t` to `v`.
pub fn push_str(v: &mut Vec<char>, t: &str)
    ensures
        final(v)@ == old(v)@ + t@,
{
    let c = chars_of(t);
    push_chars(v, c.as_slice());
}

/// Appends `t` to `v`.
pub fn push_chars(v: &mut Vec<char>, t: &[char])
    ensures
        final(v)@ == old(v)@ + t@,
{
    let mut i: usize = 0;
    while i < t.len()
        invariant
            i <= t@.len(),
            v@ == old(v)@ + t@.take(i as int),
        decreases t@.len() - i,
    {
        v.push(t[i]);
        i = i + 1;
        assert(t@.take(i as int) =~= t@.take(i - 1).push(t@[i - 1]));
    }
    assert(t@.take(t@.len() as int) =~= t@);
}

/// The ASCII digit for `d < 10`.
pub open spec fn digit_char(d: nat) -> char {
    (d + 48) as char
}

/// The decimal numeral of `n`, without leading zeros.
pub open spec fn dec(n: nat) -> Seq<char>
    decreases n,
{
    if n < 10 {
        seq![digit_char(n)]
    } else {
        dec(n / 10) + seq![digit_char(n % 10)]
    }
}

/// The decimal numeral of a signed number, with a leading `-` when negative.
pub open spec fn dec_int(n: int) -> Seq<char> {
    if n < 0 {
        seq!['-'] + dec((-n) as nat)
    } else {
        dec(n as nat)
    }
}

/// The decimal numeral of `n`, as `Display` writes it.
pub fn u64_dec(n: u64) -> (r: Vec<char>)
    ensures
        r@ == dec(n as nat),
    decreases n,
{
    let d = ((n % 10) as u8 + 48) as char;
    if n < 10 {
        let mut r: Vec<char> = Vec::new();
        r.push(d);
        r
    } else {
        let mut r = u64_dec(n / 10);
        r.push(d);
        r
    }
}

/// The decimal numeral of a wide number.
pub fn u128_dec(n: u128) -> (r: Vec<char>)
    ensures
        r@ == dec(n as nat),
    decreases n,
{
    let d = ((n % 10) as u8 + 48) as char;
    if n < 10 {
        let mut r: Vec<char> = Vec::new();
        r.push(d);
        r
    } else {
        let mut r = u128_dec(n / 10);
        r.push(d);
        r
    }
}

/// The decimal numeral of `n`, as `Display` writes it.
pub fn i64_dec(n: i64) -> (r: Vec<char>)
    ensures
        r@ == dec_int(n as int),
{
    if n < 0 {
        let m: u64 = if n == i64::MIN {
            9223372036854775808u64
        } else {
            (-n) as u64
        };
        let mut r: Vec<char> = Vec::new();
        r.push('-');
        let d = u64_dec(m);
        push_chars(&mut r, d.as_slice());
        r
    } else {
        u64_dec(n as u64)
    }
}

/// `parts` joined with `sep` between consecutive parts.
pub open spec fn join(parts: Seq<Seq<char>>, sep: Seq<char>) -> Seq<char>
    decreases parts.len(),
{
    if parts.len() == 0 {
        seq![]
    } else if parts.len() == 1 {
        parts[0]
    } else {
        join(parts.drop_last(), sep) + sep + parts.last()
    }
}

/// The pieces of `s` between occurrences of `sep` (`str::split` with a
/// character): one more piece than there are separators.
pub open spec fn split_on(s: Seq<char>, sep: char) -> Seq<Seq<char>>
    decreases s.len(),
{
    if s.len() == 0 {
        seq![seq![]]
    } else {
        let rest = split_on(s.drop_last(), sep);
        if s.last() == sep {
            rest.push(seq![])
        } else {
            rest.update(rest.len() - 1, rest.last().push(s.last()))
        }
    }
}

pub proof fn lemma_split_on_len(s: Seq<char>, sep: char)
    ensures
        split_on(s, sep).len() >= 1,
    decreases s.len(),
{
    if s.len() > 0 {
        lemma_split_on_len(s.drop_last(), sep);
    }
}

/// A text without the separator is a single piece.
pub proof fn lemma_split_without_sep(s: Seq<char>, sep: char)
    requires
        !s.contains(sep),
    ensures
        split_on(s, sep) == seq![s],
    decreases s.len(),
{
    if s.len() > 0 {
        assert(!s.drop_last().contains(sep)) by {
            if s.drop_last().contains(sep) {
                let k = choose|k: int| 0 <= k < s.drop_last().len() && s.drop_last()[k] == sep;
                assert(s[k] == sep);
            }
        }
        lemma_split_without_sep(s.drop_last(), sep);
        assert(s.last() != sep) by {
            assert(s[s.len() - 1] == s.last());
        }
        assert(s.drop_last().push(s.last()) =~= s);
    } else {
        assert(s =~= seq![]);
    }
}

/// Splits `s` at every `sep`.
pub fn split_chars(s: &[char], sep: char) -> (out: Vec<Vec<char>>)
    ensures
        views(out@) == split_on(s@, sep),
{
    let mut out: Vec<Vec<char>> = Vec::new();
    let mut cur: Vec<char> = Vec::new();
    let mut i: usize = 0;
    while i < s.len()
        invariant
            i <= s@.len(),
            views(out@).push(cur@) == split_on(s@.take(i as int), sep),
        decreases s@.len() - i,
    {
        let c = s[i];
        let ghost prev = s@.take(i as int);
        assert(s@.take(i + 1).drop_last() =~= prev);
        assert(s@.take(i + 1).last() == c);
        if c == sep {
            out.push(cur);
            cur = Vec::new();
            assert(views(out@).push(cur@) =~= split_on(prev, sep).push(seq![]));
        } else {
            let ghost old_out = views(out@);
            cur.push(c);
            proof {
                lemma_split_on_len(prev, sep);
            }
            assert(views(out@).push(cur@) =~= split_on(prev, sep).update(
                split_on(prev, sep).len() - 1,
                split_on(prev, sep).last().push(c),
            ));
        }
        i = i + 1;
    }
    assert(s@.take(s@.len() as int) =~= s@);
    out.push(cur);
    out
}

/// Whether `s` starts with `p`.
pub fn has_prefix(s: &[char], p: &[char]) -> (b: bool)
    ensures
        b == p@.is_prefix_of(s@),
{
    if p.len() > s.len() {
        return false;
    }
    let mut i: usize = 0;
    while i < p.len()
        invariant
            p@.len() <= s@.len(),
            i <= p@.len(),
            forall|k: int| 0 <= k < i ==> s@[k] == p@[k],
        decreases p@.len() - i,
    {
        if s[i] != p[i] {
            return false;
        }
        i = i + 1;
    }
    assert(p@ =~= s@.subrange(0, p@.len() as int));
    true
}

/// Whether `s` ends with `p`.
pub fn has_suffix(s: &[char], p: &[char]) -> (b: bool)
    ensures
        b == p@.is_suffix_of(s@),
{
    if p.len() > s.len() {
        return false;
    }
    let off = s.len() - p.len();
    let mut i: usize = 0;
    while i < p.len()
        invariant
            p@.len() <= s@.len(),
            off + p@.len() == s.len(),
            s.len() == s@.len(),
            i <= p@.len(),
            forall|k: int| 0 <= k < i ==> s@[off + k] == p@[k],
        decreases p@.len() - i,
    {
        if s[off + i] != p[i] {
            return false;
        }
        i = i + 1;
    }
    assert(p@ =~= s@.subrange(off as int, s@.len() as int));
    true
}

/// Index of the first occurrence of `pat` in `s` at or after `from`, or -1.
pub open spec fn find_sub(s: Seq<char>, pat: Seq<char>, from: int) -> int
    decreases s.len() + 1 - from,
{
    if from < 0 || from + pat.len() > s.len() {
        -1
    } else if s.subrange(from, from + pat.len()) == pat {
        from
    } else {
        find_sub(s, pat, from + 1)
    }
}

/// The first occurrence of `pat` in `s` at or after `from`.
pub fn find_sub_exec(s: &[char], pat: &[char], from: usize) -> (r: Option<usize>)
    requires
        from <= s@.len(),
    ensures
        match r {
            Some(i) => find_sub(s@, pat@, from as int) == i as int && from <= i && i + pat@.len()
                <= s@.len(),
            None => find_sub(s@, pat@, from as int) == -1,
        },
{
    if pat.len() == 0 {
        assert(s@.subrange(from as int, from as int) =~= pat@);
        return Some(from);
    }
    let mut i: usize = from;
    while pat.len() <= s.len() - i
        invariant
            from <= i <= s@.len(),
            pat@.len() >= 1,
            find_sub(s@, pat@, from as int) == find_sub(s@, pat@, i as int),
        decreases s@.len() + 1 - i,
    {
        let w = slice_chars(s, i, i + pat.len());
        if chars_eq(w.as_slice(), pat) {
            return Some(i);
        }
        i = i + 1;
    }
    None
}

/// `s` without the final `\r`, if it has one.
pub open spec fn strip_cr(l: Seq<char>) -> Seq<char> {
    if l.len() > 0 && l.last() == '\r' {
        l.drop_last()
    } else {
        l
    }
}

/// The lines of `s` as `str::lines` yields them: split at `\n`, one `\r`
/// before each `\n` dropped, no empty line after a final `\n`.
pub open spec fn lines(s: Seq<char>) -> Seq<Seq<char>> {
    let p = split_on(s, '\n');
    let n = p.len() as int;
    let terminated = p.take(n - 1).map_values(|l: Seq<char>| strip_cr(l));
    if n >= 1 && p[n - 1].len() > 0 {
        terminated.push(p[n - 1])
    } else {
        terminated
    }
}

/// Splits `s` into its lines.
pub fn lines_of(s: &[char]) -> (out: Vec<Vec<char>>)
    ensures
        views(out@) == lines(s@),
{
    let parts = split_chars(s, '\n');
    let ghost pv = views(parts@);
    proof {
        lemma_split_on_len(s@, '\n');
    }
    let n = parts.len();
    let mut out: Vec<Vec<char>> = Vec::new();
    let mut i: usize = 0;
    while i + 1 < n
        invariant
            n == parts@.len(),
            n >= 1,
            i < n,
            pv == views(parts@),
            pv == split_on(s@, '\n'),
            views(out@) =~= pv.take(i as int).map_values(|l: Seq<char>| strip_cr(l)),
        decreases n - i,
    {
        let l = &parts[i];
        let line = if l.len() > 0 && l[l.len() - 1] == '\r' {
            slice_chars(l.as_slice(), 0, l.len() - 1)
        } else {
            slice_chars(l.as_slice(), 0, l.len())
        };
        assert(l@.subrange(0, l@.len() as int) =~= l@);
        assert(line@ == strip_cr(pv[i as int]));
        let ghost prev = views(out@);
        out.push(line);
        assert(views(out@) =~= prev.push(line@));
        assert(pv.take(i + 1) =~= pv.take(i as int).push(pv[i as int]));
        i = i + 1;
    }
    let last = &parts[n - 1];
    if last.len() > 0 {
        let ghost prev = views(out@);
        let l = slice_chars(last.as_slice(), 0, last.len());
        assert(last@.subrange(0, last@.len() as int) =~= last@);
        out.push(l);
        assert(views(out@) =~= prev.push(l@));
    }
    out
}

/// Whether `v` holds a vector with the characters `t`.
pub fn contains_chars(v: &Vec<Vec<char>>, t: &[char]) -> (b: bool)
    ensures
        b == views(v@).contains(t@),
{
    let mut i: usize = 0;
    while i < v.len()
        invariant
            i <= v@.len(),
            forall|k: int| 0 <= k < i ==> views(v@)[k] != t@,
        decreases v@.len() - i,
    {
        if chars_eq(v[i].as_slice(), t) {
            assert(views(v@)[i as int] == t@);
            return true;
        }
        i = i + 1;
    }
    false
}

} // verus!

verus! {

/// The Unicode lower-case form of `s`, as `str::to_lowercase` gives it.
pub uninterp spec fn lowercase(s: Seq<char>) -> Seq<char>;

/// `str::to_lowercase`. What it claims: the result is `lowercase` of the text.
#[verifier::external_body]
pub(crate) fn to_lowercase(s: &str) -> (r: String)
    ensures
        r@ == lowercase(s@),
{
    s.to_lowercase()
}

/// `s` with every trailing copy of `p` removed (`str::trim_end_matches`).
pub open spec fn strip_suffixes(s: Seq<char>, p: Seq<char>) -> Seq<char>
    decreases s.len(),
{
    if p.len() > 0 && p.is_suffix_of(s) {
        strip_suffixes(s.subrange(0, s.len() - p.len()), p)
    } else {
        s
    }
}

/// Removes every trailing copy of `p` from `s`.
pub fn strip_suffixes_exec(s: &[char], p: &[char]) -> (r: Vec<char>)
    ensures
        r@ == strip_suffixes(s@, p@),
{
    let mut e: usize = s.len();
    assert(s@.subrange(0, e as int) =~= s@);
    while p.len() > 0 && p.len() <= e
        invariant
            e <= s@.len(),
            strip_suffixes(s@, p@) == strip_suffixes(s@.subrange(0, e as int), p@),
        ensures
            e <= s@.len(),
            strip_suffixes(s@, p@) == s@.subrange(0, e as int),
        decreases e,
    {
        let w = slice_chars(s, e - p.len(), e);
        if !chars_eq(w.as_slice(), p) {
            assert(!p@.is_suffix_of(s@.subrange(0, e as int))) by {
                if p@.is_suffix_of(s@.subrange(0, e as int)) {
                    assert(w@ =~= s@.subrange(0, e as int).subrange(e - p@.len(), e as int));
                }
            }
            break;
        }
        assert(s@.subrange(0, e as int).subrange(0, e - p@.len()) =~= s@.subrange(0, e - p@.len()));
        e = e - p.len();
    }
    slice_chars(s, 0, e)
}

/// Whether `pat` occurs in `s`.
pub open spec fn has_sub(s: Seq<char>, pat: Seq<char>) -> bool {
    find_sub(s, pat, 0) >= 0
}

/// Whether the text `pat` occurs in `s`.
pub fn contains_text(s: &[char], pat: &str) -> (r: bool)
    ensures
        r == has_sub(s@, pat@),
{
    let p = chars_of(pat);
    find_sub_exec(s, p.as_slice(), 0).is_some()
}

} // verus!

verus! {

/// `v` without its characters of class `k` at both ends.
pub fn stripped(v: &[char], k: CharClass) -> (r: Vec<char>)
    ensures
        r@ == strip_both(v@, k),
{
    let (a, b) = strip_both_at(v, 0, v.len(), k);
    assert(v@.subrange(0, v@.len() as int) =~= v@);
    slice_chars(v, a, b)
}

/// `v` without its trailing characters of class `k`.
pub fn stripped_end(v: &[char], k: CharClass) -> (r: Vec<char>)
    ensures
        r@ == strip_end(v@, k),
{
    let b = strip_end_at(v, 0, v.len(), k);
    assert(v@.subrange(0, v@.len() as int) =~= v@);
    slice_chars(v, 0, b)
}

/// `find_sub` gives -1 or a match inside `s` at or after `from`.
pub proof fn lemma_find_sub(s: Seq<char>, pat: Seq<char>, from: int)
    ensures
        find_sub(s, pat, from) == -1 || (from <= find_sub(s, pat, from) && find_sub(s, pat, from) + pat.len() <= s.len()),
    decreases s.len() + 1 - from,
{
    if from < 0 || from + pat.len() > s.len() {
    } else if s.subrange(from, from + pat.len()) == pat {
    } else {
        lemma_find_sub(s, pat, from + 1);
    }
}

/// Before the index that `find_sub` gives there is no match.
pub proof fn lemma_find_sub_first(s: Seq<char>, pat: Seq<char>, from: int)
    requires
        find_sub(s, pat, from) >= 0,
    ensures
        forall|q: int| from <= q < find_sub(s, pat, from) ==> #[trigger] s.subrange(q, q + pat.len()) != pat,
        s.subrange(find_sub(s, pat, from), find_sub(s, pat, from) + pat.len()) == pat,
    decreases s.len() + 1 - from,
{
    if from < 0 || from + pat.len() > s.len() {
    } else if s.subrange(from, from + pat.len()) == pat {
    } else {
        lemma_find_sub_first(s, pat, from + 1);
    }
}

/// Searching past a prefix `x` is searching `y`, shifted by `x`'s length.
pub proof fn lemma_find_sub_after(x: Seq<char>, y: Seq<char>, pat: Seq<char>, q: int)
    requires
        q >= 0,
    ensures
        find_sub(x + y, pat, x.len() + q) == (if find_sub(y, pat, q) < 0 {
            -1
        } else {
            x.len() + find_sub(y, pat, q)
        }),
    decreases y.len() + 1 - q,
{
    let s = x + y;
    let from = x.len() + q;
    if from + pat.len() > s.len() {
    } else {
        assert(s.subrange(from, from + pat.len()) =~= y.subrange(q, q + pat.len()));
        if y.subrange(q, q + pat.len()) == pat {
        } else {
            lemma_find_sub_after(x, y, pat, q + 1);
        }
    }
}

/// With no match starting inside `x`, the first match in `x + y` is the
/// first match in `y`, shifted.
pub proof fn lemma_find_sub_skip(x: Seq<char>, y: Seq<char>, pat: Seq<char>, from: int)
    requires
        0 <= from <= x.len(),
        forall|p: int|
            from <= p < x.len() && p + pat.len() <= x.len() + y.len() ==> #[trigger] (x + y).subrange(
                p,
                p + pat.len(),
            ) != pat,
    ensures
        find_sub(x + y, pat, from) == (if find_sub(y, pat, 0) < 0 {
            -1
        } else {
            x.len() + find_sub(y, pat, 0)
        }),
    decreases x.len() - from,
{
    if from == x.len() {
        lemma_find_sub_after(x, y, pat, 0);
    } else {
        let s = x + y;
        if from + pat.len() > s.len() {
            lemma_find_sub_after(x, y, pat, 0);
            assert(find_sub(y, pat, 0) == -1);
        } else {
            lemma_find_sub_skip(x, y, pat, from + 1);
        }
    }
}

/// The UTF-8 bytes of two texts one after the other are the bytes of each.
pub proof fn lemma_encode_utf8_concat(a: Seq<char>, b: Seq<char>)
    ensures
        vstd::utf8::encode_utf8(a + b) == vstd::utf8::encode_utf8(a) + vstd::utf8::encode_utf8(b),
    decreases a.len(),
{
    if a.len() == 0 {
        assert(a + b =~= b);
        assert(vstd::utf8::encode_utf8(a) =~= Seq::<u8>::empty());
        assert(Seq::<u8>::empty() + vstd::utf8::encode_utf8(b) =~= vstd::utf8::encode_utf8(b));
    } else {
        lemma_encode_utf8_concat(a.drop_first(), b);
        assert((a + b).drop_first() =~= a.drop_first() + b);
        assert((a + b)[0] == a[0]);
    }
}

} // verus!
