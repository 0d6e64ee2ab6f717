//! The order of names by their characters' code points (for UTF-8 text the
//! order of its bytes, which is how file names and `String`s compare), and
//! a sort of names by it.
use vstd::prelude::*;
use vstd::relations::{sorted_by, total_ordering};
use vstd::multiset::Multiset;
use crate::text::views;

verus! {

/// `a` comes no later than `b` when their characters are compared one by
/// one by code point and a proper prefix comes first.
pub open spec fn code_le(a: Seq<char>, b: Seq<char>) -> bool
    decreases a.len(),
{
    if a.len() == 0 {
        true
    } else if b.len() == 0 {
        false
    } else if a[0] != b[0] {
        a[0] < b[0]
    } else {
        code_le(a.drop_first(), b.drop_first())
    }
}

/// Names from first to last.
pub open spec fn ascending() -> spec_fn(Seq<char>, Seq<char>) -> bool {
    |a: Seq<char>, b: Seq<char>| code_le(a, b)
}

/// Names from last to first.
pub open spec fn descending() -> spec_fn(Seq<char>, Seq<char>) -> bool {
    |a: Seq<char>, b: Seq<char>| code_le(b, a)
}

pub proof fn lemma_code_le_refl(a: Seq<char>)
    ensures
        code_le(a, a),
    decreases a.len(),
{
    if a.len() > 0 {
        lemma_code_le_refl(a.drop_first());
    }
}

pub proof fn lemma_code_le_antisym(a: Seq<char>, b: Seq<char>)
    requires
        code_le(a, b),
        code_le(b, a),
    ensures
        a == b,
    decreases a.len(),
{
    if a.len() == 0 {
        assert(b.len() == 0);
        assert(a =~= b);
    } else {
        assert(b.len() > 0);
        assert(a[0] == b[0]);
        lemma_code_le_antisym(a.drop_first(), b.drop_first());
        assert(a =~= seq![a[0]] + a.drop_first());
        assert(b =~= seq![b[0]] + b.drop_first());
    }
}

pub proof fn lemma_code_le_trans(a: Seq<char>, b: Seq<char>, c: Seq<char>)
    requires
        code_le(a, b),
        code_le(b, c),
    ensures
        code_le(a, c),
    decreases a.len(),
{
    if a.len() > 0 && b.len() > 0 && c.len() > 0 {
        if a[0] == b[0] && b[0] == c[0] {
            lemma_code_le_trans(a.drop_first(), b.drop_first(), c.drop_first());
        }
    }
}

pub proof fn lemma_code_le_total(a: Seq<char>, b: Seq<char>)
    ensures
        code_le(a, b) || code_le(b, a),
    decreases a.len(),
{
    if a.len() > 0 && b.len() > 0 && a[0] == b[0] {
        lemma_code_le_total(a.drop_first(), b.drop_first());
    }
}

/// Both directions of the name order are total orders.
pub proof fn lemma_orders_total()
    ensures
        total_ordering(ascending()),
        total_ordering(descending()),
{
    assert forall|a: Seq<char>| #[trigger] code_le(a, a) by {
        lemma_code_le_refl(a);
    }
    assert forall|a: Seq<char>, b: Seq<char>| #[trigger] code_le(a, b) && #[trigger] code_le(b, a) implies a == b by {
        lemma_code_le_antisym(a, b);
    }
    assert forall|a: Seq<char>, b: Seq<char>, c: Seq<char>| #[trigger] code_le(a, b) && #[trigger] code_le(b, c) implies code_le(a, c) by {
        lemma_code_le_trans(a, b, c);
    }
    assert forall|a: Seq<char>, b: Seq<char>| #[trigger] code_le(a, b) || #[trigger] code_le(b, a) by {
        lemma_code_le_total(a, b);
    }
}

/// Whether `a` comes no later than `b` in the name order.
pub fn chars_le(a: &[char], b: &[char]) -> (r: bool)
    ensures
        r == code_le(a@, b@),
{
    let mut i: usize = 0;
    assert(a@.skip(0) =~= a@);
    assert(b@.skip(0) =~= b@);
    while i < a.len() && i < b.len() && a[i] == b[i]
        invariant
            i <= a@.len(),
            i <= b@.len(),
            code_le(a@, b@) == code_le(a@.skip(i as int), b@.skip(i as int)),
        decreases a@.len() - i,
    {
        assert(a@.skip(i as int).drop_first() =~= a@.skip(i + 1));
        assert(b@.skip(i as int).drop_first() =~= b@.skip(i + 1));
        i = i + 1;
    }
    if i == a.len() {
        true
    } else if i == b.len() {
        false
    } else {
        a[i] < b[i]
    }
}

/// `le` as a test on two names, for the direction `desc` selects.
pub open spec fn order_of(desc: bool) -> spec_fn(Seq<char>, Seq<char>) -> bool {
    if desc {
        descending()
    } else {
        ascending()
    }
}

fn in_order(a: &[char], b: &[char], desc: bool) -> (r: bool)
    ensures
        r == (order_of(desc))(a@, b@),
{
    if desc {
        chars_le(b, a)
    } else {
        chars_le(a, b)
    }
}

/// The names sorted: `sort_by` of their sequence under the order `desc`
/// selects.
pub fn sort_names(names: Vec<Vec<char>>, desc: bool) -> (r: Vec<Vec<char>>)
    ensures
        views(r@) == views(names@).sort_by(order_of(desc)),
{
    let ghost leq = order_of(desc);
    proof {
        lemma_orders_total();
    }
    let mut out: Vec<Vec<char>> = Vec::new();
    let mut i: usize = 0;
    assert(views(names@).take(0) =~= Seq::<Seq<char>>::empty());
    assert(views(out@) =~= Seq::<Seq<char>>::empty());
    while i < names.len()
        invariant
            i <= names@.len(),
            leq == order_of(desc),
            total_ordering(leq),
            sorted_by(views(out@), leq),
            views(out@).to_multiset() == views(names@).take(i as int).to_multiset(),
        decreases names@.len() - i,
    {
        let x = names[i].clone();
        let ghost before = views(out@);
        let mut p: usize = 0;
        while p < out.len() && !in_order(x.as_slice(), out[p].as_slice(), desc)
            invariant
                p <= out@.len(),
                leq == order_of(desc),
                views(out@) == before,
                forall|k: int| 0 <= k < p ==> !(#[trigger] leq(x@, before[k])),
            decreases out@.len() - p,
        {
            p = p + 1;
        }
        proof {
            assert forall|k: int| 0 <= k < p implies #[trigger] leq(before[k], x@) by {
                assert(!leq(x@, before[k]));
            }
            if p < before.len() {
                assert(leq(x@, before[p as int]));
                assert forall|k: int| p <= k < before.len() implies #[trigger] leq(x@, before[k]) by {
                    if k > p {
                        assert(leq(before[p as int], before[k]));
                    }
                }
            }
        }
        out.insert(p, x);
        proof {
            let after = views(out@);
            assert(after =~= before.insert(p as int, names@[i as int]@));
            assert(sorted_by(after, leq)) by {
                assert forall|a: int, b: int| 0 <= a < b < after.len() implies #[trigger] leq(after[a], after[b]) by {
                    if a < p && b < p {
                    } else if a < p && b == p {
                    } else if a < p && b > p {
                        assert(after[b] == before[b - 1]);
                        assert(leq(before[a], before[b - 1]));
                    } else if a == p {
                        assert(after[b] == before[b - 1]);
                    } else {
                        assert(after[a] == before[a - 1]);
                        assert(after[b] == before[b - 1]);
                    }
                }
            }
            vstd::seq_lib::to_multiset_insert(before, p as int, names@[i as int]@);
            assert(views(names@).take(i + 1) =~= views(names@).take(i as int).push(names@[i as int]@));
            vstd::seq_lib::lemma_multiset_commutative(views(names@).take(i as int), seq![names@[i as int]@]);
            assert(views(names@).take(i as int).push(names@[i as int]@) =~= views(names@).take(i as int) + seq![names@[i as int]@]);
            assert(seq![names@[i as int]@].to_multiset() =~= Multiset::empty().insert(names@[i as int]@)) by {
                broadcast use vstd::seq_lib::group_to_multiset_ensures;
                broadcast use vstd::multiset::group_multiset_axioms;
                assert(seq![names@[i as int]@].drop_first() =~= Seq::<Seq<char>>::empty());
            }
        }
        i = i + 1;
    }
    proof {
        assert(views(names@).take(names@.len() as int) =~= views(names@));
        views(names@).lemma_sort_by_ensures(leq);
        vstd::seq_lib::lemma_sorted_unique(views(out@), views(names@).sort_by(leq), leq);
    }
    out
}

} // verus!

verus! {

/// Positions ordered by their keys, largest first, and among equal keys by
/// position (the order a stable sort by descending key leaves).
pub open spec fn by_key_desc(keys: Seq<u64>) -> spec_fn(int, int) -> bool {
    |i: int, j: int| keys[i] > keys[j] || (keys[i] == keys[j] && i <= j)
}

/// The positions `0..n`.
pub open spec fn positions(n: nat) -> Seq<int> {
    Seq::new(n, |i: int| i)
}

/// The order of positions by descending key is a total order.
pub proof fn lemma_key_order_total(keys: Seq<u64>)
    ensures
        total_ordering(by_key_desc(keys)),
{
}

/// The positions of `keys` in the order a stable sort by descending key
/// leaves them.
pub fn sort_positions_desc(keys: &[u64]) -> (r: Vec<usize>)
    ensures
        r@.map_values(|x: usize| x as int) == positions(keys@.len()).sort_by(by_key_desc(keys@)),
{
    let ghost leq = by_key_desc(keys@);
    let ghost all = positions(keys@.len());
    proof {
        lemma_key_order_total(keys@);
    }
    let mut out: Vec<usize> = Vec::new();
    let mut i: usize = 0;
    assert(all.take(0) =~= Seq::<int>::empty());
    assert(out@.map_values(|x: usize| x as int) =~= Seq::<int>::empty());
    while i < keys.len()
        invariant
            i <= keys@.len(),
            leq == by_key_desc(keys@),
            all == positions(keys@.len()),
            total_ordering(leq),
            sorted_by(out@.map_values(|x: usize| x as int), leq),
            out@.map_values(|x: usize| x as int).to_multiset() == all.take(i as int).to_multiset(),
            forall|k: int| 0 <= k < out@.len() ==> (#[trigger] out@[k]) < i,
        decreases keys@.len() - i,
    {
        let ghost before = out@.map_values(|x: usize| x as int);
        let mut p: usize = 0;
        while p < out.len() && keys[out[p]] >= keys[i]
            invariant
                p <= out@.len(),
                i < keys@.len(),
                leq == by_key_desc(keys@),
                before == out@.map_values(|x: usize| x as int),
                forall|k: int| 0 <= k < out@.len() ==> (#[trigger] out@[k]) < i,
                forall|k: int| 0 <= k < p ==> keys@[#[trigger] before[k]] >= keys@[i as int],
            decreases out@.len() - p,
        {
            p = p + 1;
        }
        proof {
            assert forall|k: int| 0 <= k < p implies #[trigger] leq(before[k], i as int) by {
                assert(keys@[before[k]] >= keys@[i as int]);
                assert(before[k] < i);
            }
            if p < before.len() {
                assert(keys@[before[p as int]] < keys@[i as int]);
                assert(leq(i as int, before[p as int]));
                assert forall|k: int| p <= k < before.len() implies #[trigger] leq(i as int, before[k]) by {
                    if k > p {
                        assert(leq(before[p as int], before[k]));
                    }
                }
            }
        }
        out.insert(p, i);
        proof {
            let after = out@.map_values(|x: usize| x as int);
            assert(after =~= before.insert(p as int, i as int));
            assert(sorted_by(after, leq)) by {
                assert forall|a: int, b: int| 0 <= a < b < after.len() implies #[trigger] leq(after[a], after[b]) by {
                    if a < p && b < p {
                    } else if a < p && b == p {
                    } else if a < p && b > p {
                        assert(after[b] == before[b - 1]);
                        assert(leq(before[a], before[b - 1]));
                    } else if a == p {
                        assert(after[b] == before[b - 1]);
                    } else {
                        assert(after[a] == before[a - 1]);
                        assert(after[b] == before[b - 1]);
                    }
                }
            }
            vstd::seq_lib::to_multiset_insert(before, p as int, i as int);
            assert(all.take(i + 1) =~= all.take(i as int).push(i as int));
            vstd::seq_lib::lemma_multiset_commutative(all.take(i as int), seq![i as int]);
            assert(all.take(i as int).push(i as int) =~= all.take(i as int) + seq![i as int]);
            assert(seq![i as int].to_multiset() =~= Multiset::empty().insert(i as int)) by {
                broadcast use vstd::seq_lib::group_to_multiset_ensures;
                broadcast use vstd::multiset::group_multiset_axioms;
                assert(seq![i as int].drop_first() =~= Seq::<int>::empty());
            }
        }
        i = i + 1;
    }
    proof {
        assert(all.take(keys@.len() as int) =~= all);
        all.lemma_sort_by_ensures(leq);
        vstd::seq_lib::lemma_sorted_unique(out@.map_values(|x: usize| x as int), all.sort_by(leq), leq);
    }
    out
}

} // verus!
