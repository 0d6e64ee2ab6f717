//! The plain-text tables the command line prints: each column as wide as
//! its widest entry (counted in bytes, as `str::len` counts), entries padded
//! with spaces (counted in characters, as `format!` pads), columns two
//! spaces apart, a rule of dashes under the header.
use vstd::prelude::*;
use vstd::utf8::encode_utf8;
use crate::text::{chars_of, join, push_chars, string_from_chars, views};

verus! {

/// The length of `s` in UTF-8 bytes.
pub open spec fn byte_len(s: Seq<char>) -> nat {
    encode_utf8(s).len()
}

/// `n` copies of `c`.
pub open spec fn repeat(c: char, n: nat) -> Seq<char> {
    Seq::new(n, |i: int| c)
}

/// `s` padded with spaces to `w` characters.
pub open spec fn pad_to(s: Seq<char>, w: nat) -> Seq<char> {
    if s.len() >= w {
        s
    } else {
        s + repeat(' ', (w - s.len()) as nat)
    }
}

pub open spec fn max_nat(a: nat, b: nat) -> nat {
    if a >= b {
        a
    } else {
        b
    }
}

/// The widest entry of column `i` among the first `n` rows.
pub open spec fn cells_width(rows: Seq<Seq<Seq<char>>>, i: int, n: int) -> nat
    decreases n,
{
    if n <= 0 {
        0
    } else {
        max_nat(
            cells_width(rows, i, n - 1),
            if 0 <= i < rows[n - 1].len() {
                byte_len(rows[n - 1][i])
            } else {
                0
            },
        )
    }
}

/// The width of each column: its header or its widest entry.
pub open spec fn widths(headers: Seq<Seq<char>>, rows: Seq<Seq<Seq<char>>>) -> Seq<nat> {
    Seq::new(headers.len(), |i: int| max_nat(byte_len(headers[i]), cells_width(rows, i, rows.len() as int)))
}

/// One line of the table: each entry padded to its column's width (an
/// entry beyond the header's columns to its own byte length).
pub open spec fn line_of(cells: Seq<Seq<char>>, ws: Seq<nat>) -> Seq<char> {
    join(
        Seq::new(cells.len(), |i: int| pad_to(cells[i], if i < ws.len() {
            ws[i]
        } else {
            byte_len(cells[i])
        })),
        "  "@,
    )
}

/// The printed table: header, rule, rows; `(empty)` when there is no row.
pub open spec fn table_spec(headers: Seq<Seq<char>>, rows: Seq<Seq<Seq<char>>>) -> Seq<Seq<char>> {
    if rows.len() == 0 {
        seq!["(empty)"@]
    } else {
        let ws = widths(headers, rows);
        seq![line_of(headers, ws), join(Seq::new(ws.len(), |i: int| repeat('-', ws[i])), "  "@)]
            + Seq::new(rows.len(), |r: int| line_of(rows[r], ws))
    }
}

/// The views of the rows of a table.
pub open spec fn rows_view(rows: Seq<Vec<String>>) -> Seq<Seq<Seq<char>>> {
    rows.map_values(|r: Vec<String>| r@.map_values(|c: String| c@))
}

/// The views of the headers of a table.
pub open spec fn headers_view(headers: Seq<&str>) -> Seq<Seq<char>> {
    headers.map_values(|h: &str| h@)
}

/// Joins `parts` with `sep` between them.
pub fn join_chars(parts: &Vec<Vec<char>>, sep: &str) -> (r: Vec<char>)
    ensures
        r@ == join(views(parts@), sep@),
{
    let mut out: Vec<char> = Vec::new();
    let s = chars_of(sep);
    let mut i: usize = 0;
    assert(views(parts@).take(0) =~= Seq::<Seq<char>>::empty());
    while i < parts.len()
        invariant
            i <= parts@.len(),
            s@ == sep@,
            out@ == join(views(parts@).take(i as int), sep@),
        decreases parts@.len() - i,
    {
        let ghost before = out@;
        assert(views(parts@).take(i + 1).drop_last() =~= views(parts@).take(i as int));
        if i > 0 {
            push_chars(&mut out, s.as_slice());
        }
        push_chars(&mut out, parts[i].as_slice());
        assert(views(parts@).take(i + 1).last() == parts@[i as int]@);
        if i == 0 {
            assert(out@ =~= views(parts@).take(1)[0]);
        }
        i = i + 1;
    }
    assert(views(parts@).take(parts@.len() as int) =~= views(parts@));
    out
}

fn padded(s: &str, w: usize) -> (r: Vec<char>)
    ensures
        r@ == pad_to(s@, w as nat),
{
    let mut v = chars_of(s);
    let n = v.len();
    if n < w {
        let mut k: usize = n;
        while k < w
            invariant
                n <= k <= w,
                v@ == s@ + repeat(' ', (k - n) as nat),
            decreases w - k,
        {
            v.push(' ');
            assert(repeat(' ', (k + 1 - n) as nat) =~= repeat(' ', (k - n) as nat).push(' '));
            k = k + 1;
        }
    } else {
        assert(v@ == s@);
    }
    v
}

fn dashes(w: usize) -> (r: Vec<char>)
    ensures
        r@ == repeat('-', w as nat),
{
    let mut v: Vec<char> = Vec::new();
    let mut k: usize = 0;
    while k < w
        invariant
            k <= w,
            v@ == repeat('-', k as nat),
        decreases w - k,
    {
        v.push('-');
        assert(repeat('-', (k + 1) as nat) =~= repeat('-', k as nat).push('-'));
        k = k + 1;
    }
    v
}

fn line_exec(cells: &Vec<String>, ws: &Vec<usize>) -> (r: Vec<char>)
    ensures
        r@ == line_of(cells@.map_values(|c: String| c@), ws@.map_values(|w: usize| w as nat)),
{
    let ghost cv = cells@.map_values(|c: String| c@);
    let ghost wv = ws@.map_values(|w: usize| w as nat);
    let mut parts: Vec<Vec<char>> = Vec::new();
    let mut i: usize = 0;
    while i < cells.len()
        invariant
            i <= cells@.len(),
            parts@.len() == i,
            wv.len() == ws@.len(),
            cv == cells@.map_values(|c: String| c@),
            wv == ws@.map_values(|w: usize| w as nat),
            views(parts@) =~= Seq::new(i as nat, |j: int| pad_to(cv[j], if j < wv.len() {
                wv[j]
            } else {
                byte_len(cv[j])
            })),
        decreases cells@.len() - i,
    {
        let w = if i < ws.len() {
            ws[i]
        } else {
            cells[i].as_str().as_bytes().len()
        };
        let pc = padded(cells[i].as_str(), w);
        let ghost before = views(parts@);
        assert(cv[i as int] == cells@[i as int]@);
        assert(i < ws@.len() ==> wv[i as int] == ws@[i as int] as nat);
        parts.push(pc);
        assert(views(parts@) =~= before.push(parts@[i as int]@));
        i = i + 1;
    }
    join_chars(&parts, "  ")
}

/// The lines of a table with these headers and rows.
pub fn table_lines(headers: &[&str], rows: &[Vec<String>]) -> (r: Vec<String>)
    ensures
        r@.len() == table_spec(headers_view(headers@), rows_view(rows@)).len(),
        forall|k: int| 0 <= k < r@.len() ==> #[trigger] r@[k]@ == table_spec(headers_view(headers@), rows_view(rows@))[k],
{
    let mut out: Vec<String> = Vec::new();
    if rows.len() == 0 {
        out.push(String::from_str("(empty)"));
        return out;
    }
    let ghost hv = headers_view(headers@);
    let ghost rv = rows_view(rows@);
    let mut ws: Vec<usize> = Vec::new();
    let mut i: usize = 0;
    while i < headers.len()
        invariant
            i <= headers@.len(),
            hv == headers_view(headers@),
            rv == rows_view(rows@),
            ws@.len() == i,
            forall|j: int| 0 <= j < i ==> (#[trigger] ws@[j]) as nat == widths(hv, rv)[j],
        decreases headers@.len() - i,
    {
        let mut w: usize = headers[i].as_bytes().len();
        let mut n: usize = 0;
        assert(hv[i as int] == headers@[i as int]@);
        while n < rows.len()
            invariant
                i < headers@.len(),
                n <= rows@.len(),
                hv == headers_view(headers@),
                rv == rows_view(rows@),
                w as nat == max_nat(byte_len(hv[i as int]), cells_width(rv, i as int, n as int)),
            decreases rows@.len() - n,
        {
            assert(rv[n as int] == rows@[n as int]@.map_values(|c: String| c@));
            if i < rows[n].len() {
                let l = rows[n][i].as_str().as_bytes().len();
                assert(rv[n as int][i as int] == rows@[n as int]@[i as int]@);
                if l > w {
                    w = l;
                }
            }
            n = n + 1;
        }
        ws.push(w);
        i = i + 1;
    }
    let ghost wv = ws@.map_values(|w: usize| w as nat);
    assert(wv =~= widths(hv, rv));
    let hs: Vec<String> = {
        let mut v: Vec<String> = Vec::new();
        let mut j: usize = 0;
        while j < headers.len()
            invariant
                j <= headers@.len(),
                v@.map_values(|c: String| c@) =~= hv.take(j as int),
                hv == headers_view(headers@),
            decreases headers@.len() - j,
        {
            let ghost before = v@.map_values(|c: String| c@);
            v.push(String::from_str(headers[j]));
            assert(v@.map_values(|c: String| c@) =~= before.push(headers@[j as int]@));
            assert(hv.take(j + 1) =~= hv.take(j as int).push(hv[j as int]));
            j = j + 1;
        }
        assert(hv.take(headers@.len() as int) =~= hv);
        v
    };
    out.push(string_from_chars(line_exec(&hs, &ws).as_slice()));
    let mut rule: Vec<Vec<char>> = Vec::new();
    let mut j: usize = 0;
    while j < ws.len()
        invariant
            j <= ws@.len(),
            wv == ws@.map_values(|w: usize| w as nat),
            views(rule@) =~= Seq::new(j as nat, |x: int| repeat('-', wv[x])),
        decreases ws@.len() - j,
    {
        let d = dashes(ws[j]);
        let ghost before = views(rule@);
        rule.push(d);
        assert(views(rule@) =~= before.push(repeat('-', wv[j as int])));
        j = j + 1;
    }
    out.push(string_from_chars(join_chars(&rule, "  ").as_slice()));
    let mut k: usize = 0;
    while k < rows.len()
        invariant
            k <= rows@.len(),
            rv == rows_view(rows@),
            wv == ws@.map_values(|w: usize| w as nat),
            wv == widths(hv, rv),
            out@.len() == k + 2,
            out@[0]@ == line_of(hv, wv),
            out@[1]@ == join(Seq::new(wv.len(), |x: int| repeat('-', wv[x])), "  "@),
            forall|m: int| 0 <= m < k ==> (#[trigger] out@[m + 2])@ == line_of(rv[m], wv),
        decreases rows@.len() - k,
    {
        out.push(string_from_chars(line_exec(&rows[k], &ws).as_slice()));
        k = k + 1;
    }
    proof {
        reveal_strlit("(empty)");
        let t = table_spec(hv, rv);
        assert forall|m: int| 0 <= m < out@.len() implies #[trigger] out@[m]@ == t[m] by {
            if m >= 2 {
                assert(out@[(m - 2) + 2]@ == line_of(rv[m - 2], wv));
            }
        }
    }
    out
}

} // verus!
