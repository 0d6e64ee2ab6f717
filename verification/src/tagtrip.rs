//! Facts about the text shapes that the tag rewrite produces: how lines,
//! line blocks and the frontmatter marker search behave on them.
use vstd::prelude::*;
use crate::text::{
    find_sub, lemma_find_sub_after, lemma_find_sub_first, lemma_find_sub_skip, lemma_split_on_len, lemma_split_without_sep,
    lines, split_on, strip_cr,
};
use crate::notetext::{
    add_items, add_tag, body_tags, fm_tags, frontmatter, inline_items, kept_lines, line_block, note_tags_spec,
    set_tags_spec, strip_prefixes, tag_block, word_tags,
};
use crate::text::{in_class, is_ws, strip_end, strip_start, trim, words, CharClass};

verus! {

/// Splitting at a line break: the pieces before it, then the pieces after it.
pub proof fn lemma_split_after_break(x: Seq<char>, y: Seq<char>)
    ensures
        split_on(x + seq!['\n'] + y, '\n') == split_on(x, '\n') + split_on(y, '\n'),
    decreases y.len(),
{
    let s = x + seq!['\n'] + y;
    if y.len() == 0 {
        assert(s.drop_last() =~= x);
    } else {
        let y2 = y.drop_last();
        lemma_split_after_break(x, y2);
        lemma_split_on_len(y2, '\n');
        assert(s.drop_last() =~= x + seq!['\n'] + y2);
        let a = split_on(x, '\n');
        let b = split_on(y2, '\n');
        if y.last() == '\n' {
            assert((a + b).push(seq![]) =~= a + b.push(seq![]));
        } else {
            assert((a + b).update(a.len() + b.len() - 1, (a + b).last().push(y.last())) =~= a + b.update(
                b.len() - 1,
                b.last().push(y.last()),
            ));
        }
    }
}

/// No piece of a split holds the separator.
pub proof fn lemma_split_pieces(s: Seq<char>)
    ensures
        forall|m: int| 0 <= m < split_on(s, '\n').len() ==> !(#[trigger] split_on(s, '\n')[m]).contains('\n'),
    decreases s.len(),
{
    if s.len() > 0 {
        lemma_split_pieces(s.drop_last());
        lemma_split_on_len(s.drop_last(), '\n');
        let r = split_on(s.drop_last(), '\n');
        if s.last() != '\n' {
            let nl = r.last().push(s.last());
            assert(!nl.contains('\n')) by {
                if nl.contains('\n') {
                    let k = choose|k: int| 0 <= k < nl.len() && nl[k] == '\n';
                    assert(r[r.len() - 1][k] == '\n');
                }
            }
        }
    }
}

/// The last piece of a split is the text after the last separator, and
/// when there are several pieces a separator stands right before it.
pub proof fn lemma_split_last(s: Seq<char>)
    ensures
        split_on(s, '\n').len() >= 1,
        split_on(s, '\n').last().len() <= s.len(),
        s.subrange(s.len() - split_on(s, '\n').last().len(), s.len() as int) == split_on(s, '\n').last(),
        split_on(s, '\n').len() >= 2 ==> split_on(s, '\n').last().len() < s.len() && s[s.len()
            - split_on(s, '\n').last().len() - 1] == '\n',
    decreases s.len(),
{
    lemma_split_on_len(s, '\n');
    if s.len() > 0 {
        let s2 = s.drop_last();
        lemma_split_last(s2);
        let r = split_on(s2, '\n');
        if s.last() == '\n' {
        } else {
            let l = r.last();
            assert(s.subrange(s.len() - l.len() - 1, s.len() as int) =~= s2.subrange(
                s2.len() - l.len(),
                s2.len() as int,
            ).push(s.last()));
        }
    }
}

/// A text without `\n---` splits into pieces of which none after the first
/// starts with `---`.
pub proof fn lemma_split_no_marker(s: Seq<char>)
    requires
        forall|q: int| 0 <= q && q + 4 <= s.len() ==> #[trigger] s.subrange(q, q + 4) != "\n---"@,
    ensures
        forall|m: int|
            1 <= m < split_on(s, '\n').len() ==> !"---"@.is_prefix_of(#[trigger] split_on(s, '\n')[m]),
    decreases s.len(),
{
    reveal_strlit("---");
    reveal_strlit("\n---");
    if s.len() > 0 {
        let s2 = s.drop_last();
        assert forall|q: int| 0 <= q && q + 4 <= s2.len() implies #[trigger] s2.subrange(q, q + 4) != "\n---"@ by {
            assert(s2.subrange(q, q + 4) =~= s.subrange(q, q + 4));
        }
        lemma_split_no_marker(s2);
        lemma_split_last(s2);
        let r = split_on(s2, '\n');
        if s.last() != '\n' {
            let n = r.len();
            let nl = r.last().push(s.last());
            if n >= 2 && "---"@.is_prefix_of(nl) {
                if r.last().len() >= 3 {
                    assert("---"@.is_prefix_of(r[n - 1])) by {
                        assert(r[n - 1].subrange(0, 3) =~= nl.subrange(0, 3));
                    }
                } else {
                    assert(nl.len() == 3);
                    let q = s.len() - 4;
                    assert(s.subrange(q, q + 4) =~= "\n---"@) by {
                        assert(s2[s2.len() - r.last().len() - 1] == '\n');
                        assert(s[q] == '\n');
                        assert(nl =~= nl.subrange(0, 3));
                        assert(nl =~= "---"@);
                        assert(s.subrange(q + 1, s.len() as int) =~= s2.subrange(
                            s2.len() - r.last().len(),
                            s2.len() as int,
                        ).push(s.last()));
                        assert(s.subrange(q, q + 4) =~= seq!['\n'] + nl);
                    }
                }
            }
        }
    }
}

/// The line block of two runs of lines is the two blocks one after the other.
pub proof fn lemma_line_block_concat(k: Seq<Seq<char>>, m: Seq<Seq<char>>)
    ensures
        line_block(k + m) == line_block(k) + line_block(m),
    decreases m.len(),
{
    if m.len() == 0 {
        assert(k + m =~= k);
    } else {
        lemma_line_block_concat(k, m.drop_last());
        assert((k + m).drop_last() =~= k + m.drop_last());
    }
}

/// A line block opens with its first line and a break.
pub proof fn lemma_line_block_front(l: Seq<Seq<char>>)
    requires
        l.len() >= 1,
    ensures
        line_block(l) == l[0] + "\n"@ + line_block(l.drop_first()),
{
    lemma_line_block_concat(seq![l[0]], l.drop_first());
    assert(seq![l[0]] + l.drop_first() =~= l);
    assert(seq![l[0]].drop_last() =~= Seq::<Seq<char>>::empty());
    assert(line_block(Seq::<Seq<char>>::empty()) =~= Seq::<char>::empty());
    assert(line_block(seq![l[0]]) =~= l[0] + "\n"@);
}

/// Splitting a line block followed by `y` gives back its lines, then the
/// pieces of `y`.
pub proof fn lemma_split_line_block(k: Seq<Seq<char>>, y: Seq<char>)
    requires
        forall|i: int| 0 <= i < k.len() ==> !(#[trigger] k[i]).contains('\n'),
    ensures
        split_on(line_block(k) + y, '\n') == k + split_on(y, '\n'),
    decreases k.len(),
{
    reveal_strlit("\n");
    if k.len() == 0 {
        assert(line_block(k) + y =~= y);
        assert(k + split_on(y, '\n') =~= split_on(y, '\n'));
    } else {
        let k2 = k.drop_last();
        let l = k.last();
        assert(line_block(k) + y =~= (line_block(k2) + l) + seq!['\n'] + y);
        lemma_split_after_break(line_block(k2) + l, y);
        lemma_split_line_block(k2, l);
        lemma_split_without_sep(l, '\n');
        assert(k2 + seq![l] + split_on(y, '\n') =~= k + split_on(y, '\n'));
    }
}

/// In a line block followed by a text that opens with `---`, where no line
/// but the first opens with `---`, the first `\n---` is the last break of
/// the block.
pub proof fn lemma_find_marker(l: Seq<Seq<char>>, w: Seq<char>)
    requires
        l.len() >= 1,
        forall|i: int| 0 <= i < l.len() ==> !(#[trigger] l[i]).contains('\n'),
        forall|i: int| 1 <= i < l.len() ==> !"---"@.is_prefix_of(#[trigger] l[i]),
        "---"@.is_prefix_of(w),
    ensures
        find_sub(line_block(l) + w, "\n---"@, 0) == line_block(l).len() - 1,
    decreases l.len(),
{
    reveal_strlit("\n");
    reveal_strlit("---");
    reveal_strlit("\n---");
    let pat = "\n---"@;
    let l0 = l[0];
    let l1 = l.drop_first();
    lemma_line_block_front(l);
    let rest = line_block(l1) + w;
    let s = line_block(l) + w;
    assert(s =~= l0 + (seq!['\n'] + rest));
    assert(!l0.contains('\n'));
    assert forall|p: int| 0 <= p < l0.len() implies #[trigger] (l0 + (seq!['\n'] + rest)).subrange(p, p + pat.len()) != pat by {
        let t = (l0 + (seq!['\n'] + rest)).subrange(p, p + pat.len());
        assert(t[0] == l0[p]);
        assert(pat[0] == '\n');
    }
    lemma_find_sub_skip(l0, seq!['\n'] + rest, pat, 0);
    let u = seq!['\n'] + rest;
    if l.len() == 1 {
        assert(l1 =~= Seq::<Seq<char>>::empty());
        assert(rest =~= w);
        assert(w.subrange(0, 3) =~= "---"@);
        assert(u.subrange(0, 4) =~= pat) by {
            assert(pat =~= seq!['\n', '-', '-', '-']);
            assert("---"@ =~= seq!['-', '-', '-']);
            assert(w[0] == '-' && w[1] == '-' && w[2] == '-');
            assert(u.len() >= 4);
            assert(u[0] == pat[0]);
            assert(u[1] == w[0]);
            assert(u[2] == w[1]);
            assert(u[3] == w[2]);
        }
    } else {
        assert(forall|i: int| 0 <= i < l1.len() ==> l1[i] == l[i + 1]);
        lemma_find_marker(l1, w);
        lemma_line_block_front(l1);
        let m1 = l1[0];
        assert(m1 == l[1]);
        assert(!"---"@.is_prefix_of(m1));
        assert(!m1.contains('\n'));
        assert(rest =~= m1 + ("\n"@ + line_block(l1.drop_first()) + w));
        assert(u.subrange(0, 4) != pat) by {
            if u.subrange(0, 4) == pat {
                if m1.len() >= 3 {
                    let t = u.subrange(0, 4);
                    assert(t[1] == '-' && t[2] == '-' && t[3] == '-');
                    assert(m1.subrange(0, 3) =~= "---"@) by {
                        assert(m1[0] == t[1]);
                        assert(m1[1] == t[2]);
                        assert(m1[2] == t[3]);
                    }
                } else {
                    assert(u[1 + m1.len() as int] == '\n');
                    assert(pat[1 + m1.len() as int] == '-');
                }
            }
        }
        lemma_find_sub_after(seq!['\n'], rest, pat, 0);
        assert(seq!['\n'] + rest =~= u);
    }
}

/// The lines of a line block followed by one more unterminated line.
pub proof fn lemma_lines_of_block(k: Seq<Seq<char>>, y: Seq<char>)
    requires
        forall|i: int| 0 <= i < k.len() ==> !(#[trigger] k[i]).contains('\n'),
        !y.contains('\n'),
        y.len() > 0,
    ensures
        lines(line_block(k) + y) == k.map_values(|l: Seq<char>| strip_cr(l)).push(y),
{
    lemma_split_line_block(k, y);
    lemma_split_without_sep(y, '\n');
    let p = split_on(line_block(k) + y, '\n');
    assert(p =~= k.push(y));
    assert(p.take(p.len() - 1) =~= k);
}

/// The lines of a line block ended by its last break.
pub proof fn lemma_lines_of_full_block(k: Seq<Seq<char>>)
    requires
        forall|i: int| 0 <= i < k.len() ==> !(#[trigger] k[i]).contains('\n'),
    ensures
        lines(line_block(k)) == k.map_values(|l: Seq<char>| strip_cr(l)),
{
    let e = Seq::<char>::empty();
    lemma_split_line_block(k, e);
    assert(line_block(k) + e =~= line_block(k));
    assert(split_on(e, '\n') == seq![e]);
    let p = split_on(line_block(k), '\n');
    assert(p =~= k.push(e));
    assert(p.take(p.len() - 1) =~= k);
}

/// A text that opens with a line break has an empty first line.
pub proof fn lemma_lines_after_break(body: Seq<char>)
    ensures
        lines("\n"@ + body) == seq![Seq::<char>::empty()] + lines(body),
{
    reveal_strlit("\n");
    let e = Seq::<char>::empty();
    lemma_split_after_break(e, body);
    assert(e + seq!['\n'] + body =~= "\n"@ + body);
    lemma_split_on_len(body, '\n');
    let q = split_on(body, '\n');
    assert(split_on(e, '\n') == seq![e]);
    let p = seq![e] + q;
    assert(p.take(p.len() - 1) =~= seq![e] + q.take(q.len() - 1));
    assert(strip_cr(e) =~= e);
    let tp = p.take(p.len() - 1).map_values(|l: Seq<char>| strip_cr(l));
    let tq = q.take(q.len() - 1).map_values(|l: Seq<char>| strip_cr(l));
    assert(tp =~= seq![e] + tq);
    assert(p[p.len() - 1] == q[q.len() - 1]);
    if q[q.len() - 1].len() > 0 {
        assert(tp.push(q[q.len() - 1]) =~= seq![e] + tq.push(q[q.len() - 1]));
    }
}

/// Stripping leading characters never lengthens a text, and removes the
/// first one when it is of the class.
pub proof fn lemma_strip_start_len(s: Seq<char>, k: CharClass)
    ensures
        strip_start(s, k).len() <= s.len(),
        strip_start(s, k).len() == s.len() ==> strip_start(s, k) == s,
        s.len() > 0 && in_class(k, s[0]) ==> strip_start(s, k).len() < s.len(),
    decreases s.len(),
{
    if s.len() > 0 && in_class(k, s[0]) {
        lemma_strip_start_len(s.drop_first(), k);
    }
}

/// Stripping trailing characters never lengthens a text, and removes the
/// last one when it is of the class.
pub proof fn lemma_strip_end_len(s: Seq<char>, k: CharClass)
    ensures
        strip_end(s, k).len() <= s.len(),
        strip_end(s, k).len() == s.len() ==> strip_end(s, k) == s,
        s.len() > 0 && in_class(k, s.last()) ==> strip_end(s, k).len() < s.len(),
    decreases s.len(),
{
    if s.len() > 0 && in_class(k, s.last()) {
        lemma_strip_end_len(s.drop_last(), k);
    }
}

/// A trimmed, non-empty text has no whitespace at either end.
pub proof fn lemma_trimmed_ends(t: Seq<char>)
    requires
        t.len() > 0,
        trim(t) == t,
    ensures
        !is_ws(t[0]),
        !is_ws(t.last()),
{
    let u = strip_start(t, CharClass::Whitespace);
    lemma_strip_start_len(t, CharClass::Whitespace);
    lemma_strip_end_len(u, CharClass::Whitespace);
}

/// The tag list as frontmatter items is the line block of its item lines.
pub proof fn lemma_tag_block_lines(tags: Seq<Seq<char>>)
    ensures
        tag_block(tags) == line_block(tags.map_values(|t: Seq<char>| "  - "@ + t)),
    decreases tags.len(),
{
    if tags.len() > 0 {
        lemma_tag_block_lines(tags.drop_last());
        let items = tags.map_values(|t: Seq<char>| "  - "@ + t);
        assert(items.drop_last() =~= tags.drop_last().map_values(|t: Seq<char>| "  - "@ + t));
        assert(tag_block(tags) =~= line_block(items));
    }
}

/// Frontmatter lines before any `tags:` line add no tags.
pub proof fn lemma_fm_tags_skip(m: Seq<Seq<char>>, i: int, j: int, acc: Seq<Seq<char>>)
    requires
        0 <= i <= j <= m.len(),
        forall|x: int| i <= x < j ==> !"tags:"@.is_prefix_of(#[trigger] m[x]),
    ensures
        fm_tags(m, i, false, acc) == fm_tags(m, j, false, acc),
    decreases j - i,
{
    if i < j {
        lemma_fm_tags_skip(m, i + 1, j, acc);
    }
}

/// One `  - <tag>` line read back.
pub proof fn lemma_item_reads_back(t: Seq<char>)
    requires
        t.len() > 0,
        trim(t) == t,
        !"- "@.is_prefix_of(t),
    ensures
        !"tags:"@.is_prefix_of("  - "@ + t),
        "- "@.is_prefix_of(strip_start("  - "@ + t, CharClass::Whitespace)),
        trim(strip_prefixes(trim("  - "@ + t), "- "@)) == t,
        strip_cr("  - "@ + t) == "  - "@ + t,
{
    reveal_strlit("  - ");
    reveal_strlit("- ");
    reveal_strlit("tags:");
    lemma_trimmed_ends(t);
    let ws = CharClass::Whitespace;
    let a = "  - "@ + t;
    let b = "- "@ + t;
    assert(a.drop_first().drop_first() =~= b);
    assert(is_ws(a[0]) && is_ws(a.drop_first()[0]));
    assert(!is_ws(b[0]));
    assert(strip_start(b, ws) == b);
    assert(strip_start(a.drop_first(), ws) == b);
    assert(strip_start(a, ws) == b);
    assert(b.subrange(0, 2) =~= "- "@);
    assert(b.last() == t.last());
    assert(strip_end(b, ws) == b);
    assert(trim(a) == b);
    assert(b.subrange(2, b.len() as int) =~= t);
    assert(strip_prefixes(b, "- "@) == strip_prefixes(t, "- "@));
    assert(strip_prefixes(t, "- "@) == t);
    assert(a.last() == t.last());
    assert(a[0] != "tags:"@[0]);
}

/// The `  - <tag>` lines after a `tags:` line read back as the tags, in
/// order, when they are distinct.
pub proof fn lemma_fm_tags_items(m: Seq<Seq<char>>, b: int, tags: Seq<Seq<char>>, k: int)
    requires
        0 <= b,
        0 <= k <= tags.len(),
        m.len() == b + tags.len(),
        forall|j: int| 0 <= j < tags.len() ==> m[b + j] == "  - "@ + #[trigger] tags[j],
        forall|j: int|
            0 <= j < tags.len() ==> (#[trigger] tags[j]).len() > 0 && trim(tags[j]) == tags[j]
                && !"- "@.is_prefix_of(tags[j]),
        forall|i: int, j: int| 0 <= i < j < tags.len() ==> tags[i] != tags[j],
    ensures
        fm_tags(m, b + k, true, tags.take(k)) == tags,
    decreases tags.len() - k,
{
    if k == tags.len() {
        assert(tags.take(k) =~= tags);
    } else {
        let t = tags[k];
        lemma_item_reads_back(t);
        assert(m[b + k] == "  - "@ + t);
        assert(!tags.take(k).contains(t)) by {
            if tags.take(k).contains(t) {
                let x = choose|x: int| 0 <= x < k && tags.take(k)[x] == t;
                assert(tags[x] == tags[k]);
            }
        }
        assert(add_tag(tags.take(k), t) =~= tags.take(k + 1));
        lemma_fm_tags_items(m, b, tags, k + 1);
    }
}

/// Body lines after an empty first line give the tags of the rest.
pub proof fn lemma_body_tags_shift(x: Seq<char>, ls: Seq<Seq<char>>, i: int, acc: Seq<Seq<char>>)
    requires
        i >= 0,
    ensures
        body_tags(seq![x] + ls, i + 1, acc) == body_tags(ls, i, acc),
    decreases ls.len() - i,
{
    if i < ls.len() {
        assert((seq![x] + ls)[i + 1] == ls[i]);
        let s = strip_start(ls[i], CharClass::Whitespace);
        if s.len() > 0 && s[0] == '#' {
            lemma_body_tags_shift(x, ls, i + 1, acc);
        } else {
            lemma_body_tags_shift(x, ls, i + 1, word_tags(words(ls[i]), 0, acc));
        }
    }
}

/// Dropping a final `\r` keeps what a line opens with and adds no break.
pub proof fn lemma_strip_cr_keeps(x: Seq<char>, pre: Seq<char>)
    ensures
        pre.is_prefix_of(strip_cr(x)) ==> pre.is_prefix_of(x),
        strip_cr(x).contains('\n') ==> x.contains('\n'),
{
    if x.len() > 0 && x.last() == '\r' {
        let y = x.drop_last();
        if pre.is_prefix_of(y) {
            assert(x.subrange(0, pre.len() as int) =~= y.subrange(0, pre.len() as int));
        }
        if y.contains('\n') {
            let i = choose|i: int| 0 <= i < y.len() && y[i] == '\n';
            assert(x[i] == '\n');
        }
    }
}

/// The lines of a frontmatter block hold no break, and none after the first
/// opens with `---`.
pub proof fn lemma_lines_facts(f: Seq<char>)
    requires
        forall|q: int| 0 <= q && q + 4 <= f.len() ==> #[trigger] f.subrange(q, q + 4) != "\n---"@,
    ensures
        forall|m: int| 0 <= m < lines(f).len() ==> !(#[trigger] lines(f)[m]).contains('\n'),
        forall|m: int| 1 <= m < lines(f).len() ==> !"---"@.is_prefix_of(#[trigger] lines(f)[m]),
{
    let p = split_on(f, '\n');
    lemma_split_on_len(f, '\n');
    lemma_split_pieces(f);
    lemma_split_no_marker(f);
    let n = p.len();
    let t = p.take(n - 1).map_values(|l: Seq<char>| strip_cr(l));
    assert forall|m: int| 0 <= m < t.len() implies !(#[trigger] t[m]).contains('\n') && (m >= 1
        ==> !"---"@.is_prefix_of(t[m])) by {
        lemma_strip_cr_keeps(p[m], "---"@);
    }
}

/// The frontmatter lines that a tag rewrite keeps hold no break and no
/// `tags:` key, and none after the first opens with `---`.
pub proof fn lemma_kept_facts(ls: Seq<Seq<char>>, i: int, skip: bool)
    requires
        i >= 0,
        forall|m: int| 0 <= m < ls.len() ==> !(#[trigger] ls[m]).contains('\n'),
        forall|m: int| 1 <= m < ls.len() ==> !"---"@.is_prefix_of(#[trigger] ls[m]),
    ensures
        forall|j: int|
            0 <= j < kept_lines(ls, i, skip).len() ==> !(#[trigger] kept_lines(ls, i, skip)[j]).contains('\n')
                && !"tags:"@.is_prefix_of(kept_lines(ls, i, skip)[j]) && ((j >= 1 || i >= 1)
                ==> !"---"@.is_prefix_of(kept_lines(ls, i, skip)[j])),
    decreases ls.len() - i,
{
    if i < ls.len() {
        lemma_kept_facts(ls, i + 1, true);
        lemma_kept_facts(ls, i + 1, false);
        let r = kept_lines(ls, i + 1, false);
        let kk = kept_lines(ls, i, skip);
        if "tags:"@.is_prefix_of(ls[i]) {
            assert(kk == kept_lines(ls, i + 1, true));
        } else if skip && "- "@.is_prefix_of(strip_start(ls[i], CharClass::Whitespace)) {
            assert(kk == kept_lines(ls, i + 1, true));
        } else {
            assert(kk == seq![ls[i]] + r);
            assert forall|j: int| 0 <= j < kk.len() implies !(#[trigger] kk[j]).contains('\n')
                && !"tags:"@.is_prefix_of(kk[j]) && ((j >= 1 || i >= 1) ==> !"---"@.is_prefix_of(kk[j])) by {
                if j >= 1 {
                    assert(kk[j] == r[j - 1]);
                } else {
                    assert(kk[j] == ls[i]);
                }
            }
        }
    }
}

/// The empty text has no words.
pub proof fn lemma_no_words_in_empty()
    ensures
        words(Seq::<char>::empty()).len() == 0,
{
    let e = Seq::<char>::empty();
    assert(crate::text::skip_ws(e, 0) == 0);
}

/// The frontmatter lines that a tag rewrite of `text` keeps.
pub open spec fn kept_of(text: Seq<char>) -> Seq<Seq<char>> {
    match frontmatter(text).0 {
        Some(f) => kept_lines(lines(f), 0, false),
        None => seq![],
    }
}

/// The tags as frontmatter item lines, `  - <tag>` each.
pub open spec fn item_lines(tags: Seq<Seq<char>>) -> Seq<Seq<char>> {
    tags.map_values(|t: Seq<char>| "  - "@ + t)
}

/// The tags a rewrite writes are valid frontmatter items: non-empty,
/// trimmed, on one line, not themselves opening with `- `, and distinct.
pub open spec fn writable_tags(tags: Seq<Seq<char>>) -> bool {
    &&& forall|j: int|
        0 <= j < tags.len() ==> (#[trigger] tags[j]).len() > 0 && trim(tags[j]) == tags[j] && !tags[j].contains(
            '\n',
        ) && !"- "@.is_prefix_of(tags[j])
    &&& forall|i: int, j: int| 0 <= i < j < tags.len() ==> tags[i] != tags[j]
}

/// The kept lines hold no break and no `tags:` key, and none after the first
/// opens with `---`.
pub proof fn lemma_kept_of_facts(text: Seq<char>)
    ensures
        forall|j: int|
            0 <= j < kept_of(text).len() ==> !(#[trigger] kept_of(text)[j]).contains('\n')
                && !"tags:"@.is_prefix_of(kept_of(text)[j]) && (j >= 1 ==> !"---"@.is_prefix_of(
                kept_of(text)[j],
            )),
{
    reveal_strlit("\n---");
    reveal_strlit("---\n");
    let pat = "\n---"@;
    match frontmatter(text).0 {
        Some(f) => {
            let rest = text.subrange(4, text.len() as int);
            let idx = find_sub(rest, pat, 0);
            crate::text::lemma_find_sub(rest, pat, 0);
            assert(idx >= 0 && f == rest.subrange(0, idx));
            lemma_find_sub_first(rest, pat, 0);
            assert forall|q: int| 0 <= q && q + 4 <= f.len() implies #[trigger] f.subrange(q, q + 4) != pat by {
                assert(f.subrange(q, q + 4) =~= rest.subrange(q, q + 4));
            }
            lemma_lines_facts(f);
            lemma_kept_facts(lines(f), 0, false);
        },
        None => {},
    }
}

/// The item lines hold no break and do not open with `---`.
pub proof fn lemma_item_lines_facts(tags: Seq<Seq<char>>)
    requires
        forall|j: int| 0 <= j < tags.len() ==> !(#[trigger] tags[j]).contains('\n'),
    ensures
        forall|j: int|
            0 <= j < tags.len() ==> !(#[trigger] item_lines(tags)[j]).contains('\n') && !"---"@.is_prefix_of(
                item_lines(tags)[j],
            ),
{
    reveal_strlit("  - ");
    reveal_strlit("---");
    assert forall|j: int| 0 <= j < tags.len() implies !(#[trigger] item_lines(tags)[j]).contains('\n')
        && !"---"@.is_prefix_of(item_lines(tags)[j]) by {
        let t = tags[j];
        let it = item_lines(tags)[j];
        assert(it == "  - "@ + t);
        if it.contains('\n') {
            let x = choose|x: int| 0 <= x < it.len() && it[x] == '\n';
            assert(x >= 4);
            assert(t[x - 4] == '\n');
        }
        assert(it[0] == ' ');
        assert("---"@[0] == '-');
    }
}

/// With tags to write, the rewrite is `---`, the kept lines, `tags:` and
/// the item lines as one line block, then `---`, an empty line and the body.
pub proof fn lemma_set_tags_shape(text: Seq<char>, tags: Seq<Seq<char>>)
    requires
        tags.len() > 0,
    ensures
        set_tags_spec(text, tags) == "---\n"@ + (line_block(kept_of(text) + seq!["tags:"@] + item_lines(tags)) + (
        "---\n\n"@ + frontmatter(text).1)),
{
    reveal_strlit("---\n");
    reveal_strlit("tags:\n");
    reveal_strlit("tags:");
    reveal_strlit("---\ntags:\n");
    reveal_strlit("\n");
    let k = kept_of(text);
    let tl = seq!["tags:"@];
    let items = item_lines(tags);
    lemma_tag_block_lines(tags);
    lemma_line_block_concat(k + tl, items);
    lemma_line_block_concat(k, tl);
    assert(tl.drop_last() =~= Seq::<Seq<char>>::empty());
    assert(line_block(Seq::<Seq<char>>::empty()) =~= Seq::<char>::empty());
    assert(line_block(tl) =~= "tags:\n"@);
    assert(set_tags_spec(text, tags) =~= "---\n"@ + (line_block(k + tl + items) + ("---\n\n"@ + frontmatter(text).1)));
}

/// The frontmatter of a rewritten note: all of the line block but its last
/// break, and the body after one added empty line.
pub proof fn lemma_frontmatter_of_block(l: Seq<Seq<char>>, body: Seq<char>)
    requires
        l.len() >= 1,
        forall|i: int| 0 <= i < l.len() ==> !(#[trigger] l[i]).contains('\n'),
        forall|i: int| 1 <= i < l.len() ==> !"---"@.is_prefix_of(#[trigger] l[i]),
    ensures
        frontmatter("---\n"@ + (line_block(l) + ("---\n\n"@ + body))) == (
            Some(line_block(l.drop_last()) + l.last()),
            "\n"@ + body,
        ),
{
    reveal_strlit("---\n");
    reveal_strlit("---\n\n");
    reveal_strlit("---");
    reveal_strlit("\n---");
    reveal_strlit("\n");
    let pat = "\n---"@;
    let w = "---\n\n"@ + body;
    let text2 = "---\n"@ + (line_block(l) + w);
    assert("---"@.is_prefix_of(w)) by {
        assert(w.subrange(0, 3) =~= "---"@);
    }
    lemma_find_marker(l, w);
    let lb = line_block(l);
    let rest2 = text2.subrange(4, text2.len() as int);
    assert(rest2 =~= lb + w);
    let idx2 = lb.len() - 1;
    assert(find_sub(rest2, pat, 0) == idx2);
    let after = rest2.subrange(idx2 + 4, rest2.len() as int);
    assert(after =~= seq!['\n', '\n'] + body);
    let body2 = after.subrange(1, after.len() as int);
    assert(body2 =~= "\n"@ + body);
    let l2 = l.drop_last();
    assert(lb =~= line_block(l2) + l.last() + "\n"@);
    let f2 = rest2.subrange(0, idx2);
    assert(f2 =~= line_block(l2) + l.last());
    assert("---\n"@.is_prefix_of(text2));
}

/// The frontmatter tags of a rewritten note are the written tags.
pub proof fn lemma_fm_tags_of_block(k: Seq<Seq<char>>, tags: Seq<Seq<char>>)
    requires
        tags.len() > 0,
        writable_tags(tags),
        forall|j: int| 0 <= j < k.len() ==> !(#[trigger] k[j]).contains('\n') && !"tags:"@.is_prefix_of(k[j]),
    ensures
        ({
            let l = k + seq!["tags:"@] + item_lines(tags);
            fm_tags(lines(line_block(l.drop_last()) + l.last()), 0, false, seq![]) == tags
        }),
{
    reveal_strlit("tags:");
    reveal_strlit("  - ");
    let items = item_lines(tags);
    let l = k + seq!["tags:"@] + items;
    let l2 = l.drop_last();
    lemma_item_lines_facts(tags);
    assert forall|i: int| 0 <= i < l2.len() implies !(#[trigger] l2[i]).contains('\n') by {
        if i < k.len() {
            assert(l2[i] == k[i]);
        } else if i == k.len() {
            assert(l2[i] == "tags:"@);
        } else {
            assert(l2[i] == items[i - k.len() - 1]);
        }
    }
    assert(l.last() == items[tags.len() - 1]);
    assert(!l.last().contains('\n'));
    assert(l.last().len() > 0);
    lemma_lines_of_block(l2, l.last());
    let m = lines(line_block(l2) + l.last());
    assert(m == l2.map_values(|x: Seq<char>| strip_cr(x)).push(l.last()));
    assert(m.len() == l.len());
    let b: int = k.len() as int + 1;
    assert forall|x: int| 0 <= x < k.len() implies !"tags:"@.is_prefix_of(#[trigger] m[x]) by {
        assert(m[x] == strip_cr(l2[x]));
        assert(l2[x] == k[x]);
        lemma_strip_cr_keeps(k[x], "tags:"@);
    }
    lemma_fm_tags_skip(m, 0, k.len() as int, seq![]);
    assert(m[k.len() as int] == "tags:"@) by {
        assert(m[k.len() as int] == strip_cr(l2[k.len() as int]));
        assert(l2[k.len() as int] == "tags:"@);
        assert(strip_cr("tags:"@) == "tags:"@);
    }
    assert(fm_tags(m, k.len() as int, false, seq![]) == fm_tags(m, b, true, seq![])) by {
        let e = Seq::<char>::empty();
        assert("tags:"@.subrange(5, 5) =~= e);
        assert(strip_prefixes(e, "tags:"@) == e);
        assert(strip_prefixes("tags:"@, "tags:"@) == e);
        assert(strip_start(e, CharClass::Whitespace) == e);
        assert(strip_end(e, CharClass::Whitespace) == e);
        assert(trim(e) == e);
        assert(inline_items(e) == Seq::<Seq<char>>::empty());
        assert(add_items(seq![], Seq::<Seq<char>>::empty(), 0) == Seq::<Seq<char>>::empty());
    }
    assert forall|j: int| 0 <= j < tags.len() implies m[b + j] == "  - "@ + #[trigger] tags[j] by {
        lemma_item_reads_back(tags[j]);
        assert(items[j] == "  - "@ + tags[j]);
        if j < tags.len() - 1 {
            assert(m[b + j] == strip_cr(l2[b + j]));
            assert(l2[b + j] == items[j]);
        } else {
            assert(m[b + j] == l.last());
        }
    }
    lemma_fm_tags_items(m, b, tags, 0);
    assert(tags.take(0) =~= Seq::<Seq<char>>::empty());
}

/// The empty line that a rewrite puts before the body adds no tags.
pub proof fn lemma_body_tags_after_break(body: Seq<char>, acc: Seq<Seq<char>>)
    ensures
        body_tags(lines("\n"@ + body), 0, acc) == body_tags(lines(body), 0, acc),
{
    lemma_lines_after_break(body);
    let e = Seq::<char>::empty();
    let lb2 = lines("\n"@ + body);
    lemma_no_words_in_empty();
    assert(strip_start(e, CharClass::Whitespace) == e);
    assert(word_tags(words(e), 0, acc) == acc);
    assert(body_tags(lb2, 0, acc) == body_tags(lb2, 1, acc));
    lemma_body_tags_shift(e, lines(body), 0, acc);
}

/// Kept frontmatter lines without any tags to write read back as no tags.
pub proof fn lemma_fm_tags_of_kept(k: Seq<Seq<char>>)
    requires
        k.len() >= 1,
        forall|j: int| 0 <= j < k.len() ==> !(#[trigger] k[j]).contains('\n') && !"tags:"@.is_prefix_of(k[j]),
    ensures
        fm_tags(lines(line_block(k.drop_last()) + k.last()), 0, false, seq![]) == Seq::<Seq<char>>::empty(),
{
    let k2 = k.drop_last();
    let y = k.last();
    assert(forall|i: int| 0 <= i < k2.len() ==> k2[i] == k[i]);
    let m = lines(line_block(k2) + y);
    if y.len() > 0 {
        lemma_lines_of_block(k2, y);
        assert forall|x: int| 0 <= x < m.len() implies !"tags:"@.is_prefix_of(#[trigger] m[x]) by {
            if x < k2.len() {
                assert(m[x] == strip_cr(k2[x]));
                lemma_strip_cr_keeps(k2[x], "tags:"@);
            } else {
                assert(m[x] == y);
            }
        }
    } else {
        assert(line_block(k2) + y =~= line_block(k2));
        lemma_lines_of_full_block(k2);
        assert forall|x: int| 0 <= x < m.len() implies !"tags:"@.is_prefix_of(#[trigger] m[x]) by {
            assert(m[x] == strip_cr(k2[x]));
            lemma_strip_cr_keeps(k2[x], "tags:"@);
        }
    }
    lemma_fm_tags_skip(m, 0, m.len() as int, seq![]);
}

/// The positions in `ls` of the lines that `kept_lines(ls, i, skip)` keeps.
pub open spec fn kept_index(ls: Seq<Seq<char>>, i: int, skip: bool) -> Seq<int>
    decreases ls.len() - i,
{
    if i < 0 || i >= ls.len() {
        seq![]
    } else if "tags:"@.is_prefix_of(ls[i]) {
        kept_index(ls, i + 1, true)
    } else if skip && "- "@.is_prefix_of(strip_start(ls[i], CharClass::Whitespace)) {
        kept_index(ls, i + 1, true)
    } else {
        seq![i] + kept_index(ls, i + 1, false)
    }
}

/// The kept lines are lines of `ls[i..]` taken in order: at strictly
/// increasing positions, none of them a `tags:` line.
pub proof fn lemma_kept_index(ls: Seq<Seq<char>>, i: int, skip: bool)
    requires
        i >= 0,
    ensures
        kept_index(ls, i, skip).len() == kept_lines(ls, i, skip).len(),
        forall|j: int|
            0 <= j < kept_index(ls, i, skip).len() ==> i <= #[trigger] kept_index(ls, i, skip)[j] < ls.len()
                && kept_lines(ls, i, skip)[j] == ls[kept_index(ls, i, skip)[j]] && !"tags:"@.is_prefix_of(
                kept_lines(ls, i, skip)[j],
            ),
        forall|j: int, m: int|
            0 <= j < m < kept_index(ls, i, skip).len() ==> #[trigger] kept_index(ls, i, skip)[j]
                < #[trigger] kept_index(ls, i, skip)[m],
    decreases ls.len() - i,
{
    if i < ls.len() {
        lemma_kept_index(ls, i + 1, true);
        lemma_kept_index(ls, i + 1, false);
        if "tags:"@.is_prefix_of(ls[i]) {
        } else if skip && "- "@.is_prefix_of(strip_start(ls[i], CharClass::Whitespace)) {
        } else {
            let r = kept_index(ls, i + 1, false);
            let x = kept_index(ls, i, skip);
            assert(x == seq![i] + r);
            assert(kept_lines(ls, i, skip) == seq![ls[i]] + kept_lines(ls, i + 1, false));
            assert forall|j: int| 0 <= j < x.len() implies i <= #[trigger] x[j] < ls.len()
                && kept_lines(ls, i, skip)[j] == ls[x[j]] && !"tags:"@.is_prefix_of(kept_lines(ls, i, skip)[j]) by {
                if j > 0 {
                    assert(x[j] == r[j - 1]);
                }
            }
            assert forall|j: int, m: int| 0 <= j < m < x.len() implies #[trigger] x[j] < #[trigger] x[m] by {
                assert(x[m] == r[m - 1]);
                if j > 0 {
                    assert(x[j] == r[j - 1]);
                }
            }
        }
    }
}

/// Line `j` of a line block stands, followed by its break, right after the
/// block of the lines before it, and a break comes before it unless it is
/// the first.
pub proof fn lemma_line_in_block(ls: Seq<Seq<char>>, j: int)
    requires
        0 <= j < ls.len(),
    ensures
        ({
            let p = line_block(ls.take(j)).len() as int;
            &&& p + ls[j].len() + 1 <= line_block(ls).len()
            &&& line_block(ls).subrange(p, p + ls[j].len() + 1) == ls[j] + "\n"@
            &&& j >= 1 ==> line_block(ls)[p - 1] == '\n'
        }),
    decreases ls.len(),
{
    reveal_strlit("\n");
    let l2 = ls.drop_last();
    if j == ls.len() - 1 {
        assert(ls.take(j) =~= l2);
        assert(line_block(ls) == line_block(l2) + ls.last() + "\n"@);
        assert(line_block(ls).subrange(line_block(l2).len() as int, line_block(ls).len() as int) =~= ls[j] + "\n"@);
        if j >= 1 {
            assert(l2.len() > 0);
            assert(line_block(l2) == line_block(l2.drop_last()) + l2.last() + "\n"@);
        }
    } else {
        lemma_line_in_block(l2, j);
        assert(l2.take(j) =~= ls.take(j));
        assert(l2[j] == ls[j]);
        assert(line_block(ls) == line_block(l2) + ls.last() + "\n"@);
        let p = line_block(ls.take(j)).len() as int;
        assert(line_block(ls).subrange(p, p + ls[j].len() + 1) =~= line_block(l2).subrange(p, p + ls[j].len() + 1));
        if j >= 1 {
            assert(line_block(ls)[p - 1] == line_block(l2)[p - 1]);
        }
    }
}

} // verus!
