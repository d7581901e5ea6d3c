//! Stable insertion order: the result of `sort_by` / `sort_by_key` stated as
//! repeated insertion of each element after every element not greater than it.

use vstd::prelude::*;

use crate::text::{chars_lt, seq_lt};

verus! {

/// Index at which `x` is inserted into `sorted`: before the first element
/// greater than `x`, so that equal elements keep their order.
pub open spec fn insert_index<T>(sorted: Seq<T>, x: T, gt: spec_fn(T, T) -> bool, i: nat) -> nat
    decreases sorted.len() + 1 - i,
{
    if i >= sorted.len() {
        sorted.len()
    } else if gt(sorted[i as int], x) {
        i
    } else {
        insert_index(sorted, x, gt, i + 1)
    }
}

/// Stable sort of `s` by the strict order `gt` (`gt(a, b)`: `a` sorts after `b`).
pub open spec fn stable_sort<T>(s: Seq<T>, gt: spec_fn(T, T) -> bool) -> Seq<T>
    decreases s.len(),
{
    if s.len() == 0 {
        s
    } else {
        let r = stable_sort(s.drop_last(), gt);
        r.insert(insert_index(r, s.last(), gt, 0) as int, s.last())
    }
}

pub proof fn lemma_insert_index_bounds<T>(sorted: Seq<T>, x: T, gt: spec_fn(T, T) -> bool, i: nat)
    requires
        i <= sorted.len(),
    ensures
        i <= insert_index(sorted, x, gt, i) <= sorted.len(),
        forall|k: int|
            i <= k < insert_index(sorted, x, gt, i) ==> !gt(#[trigger] sorted[k], x),
        insert_index(sorted, x, gt, i) < sorted.len() ==> gt(
            sorted[insert_index(sorted, x, gt, i) as int],
            x,
        ),
    decreases sorted.len() + 1 - i,
{
    if i < sorted.len() && !gt(sorted[i as int], x) {
        lemma_insert_index_bounds(sorted, x, gt, i + 1);
    }
}

pub proof fn lemma_stable_sort_len<T>(s: Seq<T>, gt: spec_fn(T, T) -> bool)
    ensures
        stable_sort(s, gt).len() == s.len(),
    decreases s.len(),
{
    if s.len() > 0 {
        let r = stable_sort(s.drop_last(), gt);
        lemma_stable_sort_len(s.drop_last(), gt);
        lemma_insert_index_bounds(r, s.last(), gt, 0);
    }
}

/// Order by a name: `a` sorts after `b` when its name is greater in the
/// order of `str`.
pub open spec fn by_name<V>(key: spec_fn(V) -> Seq<char>) -> spec_fn(V, V) -> bool {
    |a: V, b: V| seq_lt(key(b), key(a))
}

/// One step of a stable sort by name: inserts `x` after every item whose
/// name is not greater than its own.  `names` holds the names of `out`.
pub fn insert_by_name<T, V>(
    out: &mut Vec<T>,
    names: &mut Vec<Vec<char>>,
    x: T,
    name: Vec<char>,
    Ghost(view): Ghost<spec_fn(T) -> V>,
    Ghost(key): Ghost<spec_fn(V) -> Seq<char>>,
)
    requires
        old(names)@.len() == old(out)@.len(),
        forall|i: int|
            0 <= i < old(out)@.len() ==> #[trigger] old(names)@[i]@ == key(view(old(out)@[i])),
        name@ == key(view(x)),
    ensures
        final(names)@.len() == final(out)@.len(),
        forall|i: int|
            0 <= i < final(out)@.len() ==> #[trigger] final(names)@[i]@ == key(
                view(final(out)@[i]),
            ),
        final(out)@.map_values(view) == old(out)@.map_values(view).insert(
            insert_index(old(out)@.map_values(view), view(x), by_name(key), 0) as int,
            view(x),
        ),
{
    let ghost sorted = out@.map_values(view);
    let ghost gt = by_name(key);
    let mut p: usize = 0;
    while p < out.len() && !chars_lt(name.as_slice(), names[p].as_slice())
        invariant
            p <= out@.len(),
            names@.len() == out@.len(),
            sorted == out@.map_values(view),
            gt == by_name(key),
            name@ == key(view(x)),
            forall|i: int| 0 <= i < out@.len() ==> #[trigger] names@[i]@ == key(view(out@[i])),
            insert_index(sorted, view(x), gt, 0) == insert_index(sorted, view(x), gt, p as nat),
        decreases out@.len() - p,
    {
        assert(names@[p as int]@ == key(view(out@[p as int])));
        assert(!gt(sorted[p as int], view(x)));
        p = p + 1;
    }
    if p < out.len() {
        assert(names@[p as int]@ == key(view(out@[p as int])));
        assert(gt(sorted[p as int], view(x)));
    }
    assert(insert_index(sorted, view(x), gt, 0) == p);
    let ghost old_out = out@;
    let ghost old_names = names@;
    out.insert(p, x);
    names.insert(p, name);
    assert(out@.map_values(view) =~= sorted.insert(p as int, view(x)));
    assert forall|i: int| 0 <= i < out@.len() implies #[trigger] names@[i]@ == key(
        view(out@[i]),
    ) by {
        if i < p {
            assert(names@[i] == old_names[i]);
        } else if i > p {
            assert(names@[i] == old_names[i - 1]);
            assert(out@[i] == old_out[i - 1]);
        }
    }
}

/// The order of `str` is transitive.
pub proof fn lemma_seq_lt_transitive(a: Seq<char>, b: Seq<char>, c: Seq<char>)
    requires
        seq_lt(a, b),
        seq_lt(b, c),
    ensures
        seq_lt(a, c),
    decreases a.len(),
{
    if a.len() > 0 && b.len() > 0 && c.len() > 0 && a[0] == b[0] && b[0] == c[0] {
        lemma_seq_lt_transitive(a.drop_first(), b.drop_first(), c.drop_first());
    }
}

/// No name is less than itself.
pub proof fn lemma_seq_lt_irreflexive(a: Seq<char>)
    ensures
        !seq_lt(a, a),
    decreases a.len(),
{
    if a.len() > 0 {
        lemma_seq_lt_irreflexive(a.drop_first());
    }
}

/// No item sorts after an item that follows it.
pub open spec fn sorted_by<T>(s: Seq<T>, gt: spec_fn(T, T) -> bool) -> bool {
    forall|i: int, j: int| 0 <= i < j < s.len() ==> !gt(#[trigger] s[i], #[trigger] s[j])
}

/// `gt` is a strict order: irreflexive and transitive.
pub open spec fn strict_order<T>(gt: spec_fn(T, T) -> bool) -> bool {
    &&& forall|a: T| !#[trigger] gt(a, a)
    &&& forall|a: T, b: T, c: T| #[trigger] gt(a, b) && #[trigger] gt(b, c) ==> gt(a, c)
}

/// A stable sort by a strict order is sorted by it.
pub proof fn lemma_stable_sort_sorted_by<T>(s: Seq<T>, gt: spec_fn(T, T) -> bool)
    requires
        strict_order(gt),
    ensures
        sorted_by(stable_sort(s, gt), gt),
    decreases s.len(),
{
    if s.len() > 0 {
        let r = stable_sort(s.drop_last(), gt);
        let x = s.last();
        lemma_stable_sort_sorted_by(s.drop_last(), gt);
        lemma_insert_index_bounds(r, x, gt, 0);
        let p = insert_index(r, x, gt, 0) as int;
        let out = r.insert(p, x);
        assert(out == stable_sort(s, gt));
        lemma_stable_sort_len(s.drop_last(), gt);
        assert(out.len() == r.len() + 1);
        assert forall|i: int, j: int| 0 <= i < j < out.len() implies !gt(
            #[trigger] out[i],
            #[trigger] out[j],
        ) by {
            if i < p && j < p {
                assert(out[i] == r[i] && out[j] == r[j]);
            } else if i < p && j == p {
                assert(out[i] == r[i]);
                assert(out[j] == x);
                assert(!gt(r[i], x));
            } else if i < p {
                assert(out[i] == r[i] && out[j] == r[j - 1]);
            } else if i == p {
                assert(out[i] == x);
                assert(out[j] == r[j - 1]);
                assert(gt(r[p], x));
                if j - 1 > p {
                    assert(!gt(r[p], r[j - 1]));
                }
                if gt(x, r[j - 1]) {
                    assert(gt(r[p], r[j - 1]));
                    assert(!gt(r[p], r[p]));
                }
            } else {
                assert(out[i] == r[i - 1] && out[j] == r[j - 1]);
            }
        }
    }
}

/// Two different names are ordered one way or the other.
pub proof fn lemma_seq_lt_total(a: Seq<char>, b: Seq<char>)
    requires
        a != b,
    ensures
        seq_lt(a, b) || seq_lt(b, a),
    decreases a.len(),
{
    if a.len() > 0 && b.len() > 0 && a[0] == b[0] {
        if a.drop_first() == b.drop_first() {
            assert(a =~= seq![a[0]] + a.drop_first());
            assert(b =~= seq![b[0]] + b.drop_first());
        }
        lemma_seq_lt_total(a.drop_first(), b.drop_first());
    } else if a.len() == 0 && b.len() == 0 {
        assert(a =~= b);
    } else if a.len() > 0 && b.len() > 0 {
        vstd::utf8::char_u32_cast(a[0], a[0] as u32);
        vstd::utf8::char_u32_cast(b[0], b[0] as u32);
    }
}

/// No item's name is greater than the name of an item after it.
pub open spec fn sorted_by_name<V>(s: Seq<V>, key: spec_fn(V) -> Seq<char>) -> bool {
    forall|i: int, j: int| 0 <= i < j < s.len() ==> !seq_lt(key(#[trigger] s[j]), key(#[trigger] s[i]))
}

/// A stable sort by name is sorted by name.
pub proof fn lemma_stable_sort_sorted<V>(s: Seq<V>, key: spec_fn(V) -> Seq<char>)
    ensures
        sorted_by_name(stable_sort(s, by_name(key)), key),
{
    let gt = by_name(key);
    assert forall|a: V| !#[trigger] gt(a, a) by {
        lemma_seq_lt_irreflexive(key(a));
    }
    assert forall|a: V, b: V, c: V| #[trigger] gt(a, b) && #[trigger] gt(b, c) implies gt(a, c) by {
        lemma_seq_lt_transitive(key(c), key(b), key(a));
    }
    lemma_stable_sort_sorted_by(s, gt);
    let out = stable_sort(s, gt);
    assert forall|i: int, j: int| 0 <= i < j < out.len() implies !seq_lt(
        key(#[trigger] out[j]),
        key(#[trigger] out[i]),
    ) by {
        assert(!gt(out[i], out[j]));
    }
}

/// A stable sort keeps the length and holds only items of its input.
pub proof fn lemma_stable_sort_items<T>(s: Seq<T>, gt: spec_fn(T, T) -> bool)
    ensures
        stable_sort(s, gt).len() == s.len(),
        forall|k: int|
            0 <= k < stable_sort(s, gt).len() ==> exists|m: int|
                0 <= m < s.len() && s[m] == #[trigger] stable_sort(s, gt)[k],
    decreases s.len(),
{
    if s.len() > 0 {
        let r = stable_sort(s.drop_last(), gt);
        lemma_stable_sort_items(s.drop_last(), gt);
        lemma_insert_index_bounds(r, s.last(), gt, 0);
        let p = insert_index(r, s.last(), gt, 0) as int;
        let out = r.insert(p, s.last());
        assert forall|k: int| 0 <= k < out.len() implies exists|m: int|
            0 <= m < s.len() && s[m] == #[trigger] out[k] by {
            if k < p {
                assert(out[k] == r[k]);
                let m = choose|m: int| 0 <= m < s.drop_last().len() && s.drop_last()[m] == r[k];
                assert(s[m] == out[k]);
            } else if k == p {
                assert(s[s.len() - 1] == out[k]);
            } else {
                assert(out[k] == r[k - 1]);
                let m = choose|m: int|
                    0 <= m < s.drop_last().len() && s.drop_last()[m] == r[k - 1];
                assert(s[m] == out[k]);
            }
        }
    }
}

/// A stable sort loses no item: each item of the input is in the output.
pub proof fn lemma_stable_sort_keeps<T>(s: Seq<T>, gt: spec_fn(T, T) -> bool)
    ensures
        forall|m: int|
            0 <= m < s.len() ==> exists|k: int|
                0 <= k < stable_sort(s, gt).len() && stable_sort(s, gt)[k] == #[trigger] s[m],
    decreases s.len(),
{
    if s.len() > 0 {
        let d = s.drop_last();
        let r = stable_sort(d, gt);
        lemma_stable_sort_keeps(d, gt);
        lemma_stable_sort_len(d, gt);
        lemma_insert_index_bounds(r, s.last(), gt, 0);
        let p = insert_index(r, s.last(), gt, 0) as int;
        let out = r.insert(p, s.last());
        assert(out == stable_sort(s, gt));
        assert(out.len() == r.len() + 1);
        assert forall|m: int| 0 <= m < s.len() implies exists|k: int|
            0 <= k < out.len() && out[k] == #[trigger] s[m] by {
            if m == s.len() - 1 {
                assert(out[p] == s[m]);
            } else {
                assert(s[m] == d[m]);
                let k = choose|k: int| 0 <= k < r.len() && r[k] == #[trigger] d[m];
                if k < p {
                    assert(out[k] == r[k]);
                } else {
                    assert(out[k + 1] == r[k]);
                }
            }
        }
    }
}

/// A stable sort is a permutation: it holds each item as often as its input.
pub proof fn lemma_stable_sort_permutes<T>(s: Seq<T>, gt: spec_fn(T, T) -> bool)
    ensures
        stable_sort(s, gt).to_multiset() == s.to_multiset(),
    decreases s.len(),
{
    if s.len() == 0 {
        assert(stable_sort(s, gt) == s);
    } else {
        let d = s.drop_last();
        let r = stable_sort(d, gt);
        lemma_stable_sort_permutes(d, gt);
        lemma_stable_sort_len(d, gt);
        lemma_insert_index_bounds(r, s.last(), gt, 0);
        let p = insert_index(r, s.last(), gt, 0) as int;
        vstd::seq_lib::to_multiset_insert(r, p, s.last());
        vstd::seq_lib::to_multiset_build(d, s.last());
        assert(d.push(s.last()) =~= s);
    }
}

/// No two items of `s` have the same `f`.
pub open spec fn distinct_by<T, K>(s: Seq<T>, f: spec_fn(T) -> K) -> bool {
    forall|i: int, j: int| 0 <= i < j < s.len() ==> f(#[trigger] s[i]) != f(#[trigger] s[j])
}

/// A stable sort keeps items distinct.
pub proof fn lemma_stable_sort_distinct<T, K>(s: Seq<T>, gt: spec_fn(T, T) -> bool, f: spec_fn(T) -> K)
    requires
        distinct_by(s, f),
    ensures
        distinct_by(stable_sort(s, gt), f),
    decreases s.len(),
{
    if s.len() > 0 {
        let d = s.drop_last();
        let x = s.last();
        assert(distinct_by(d, f)) by {
            assert forall|i: int, j: int| 0 <= i < j < d.len() implies f(#[trigger] d[i]) != f(
                #[trigger] d[j],
            ) by {
                assert(d[i] == s[i] && d[j] == s[j]);
            }
        }
        lemma_stable_sort_distinct(d, gt, f);
        lemma_stable_sort_items(d, gt);
        let r = stable_sort(d, gt);
        lemma_insert_index_bounds(r, x, gt, 0);
        let p = insert_index(r, x, gt, 0) as int;
        let out = r.insert(p, x);
        assert forall|k: int| 0 <= k < r.len() implies f(#[trigger] r[k]) != f(x) by {
            let m = choose|m: int| 0 <= m < d.len() && d[m] == r[k];
            assert(s[m] == d[m]);
            assert(f(s[m]) != f(s[s.len() - 1]));
        }
        assert forall|i: int, j: int| 0 <= i < j < out.len() implies f(#[trigger] out[i]) != f(
            #[trigger] out[j],
        ) by {
            if i < p && j < p {
                assert(out[i] == r[i] && out[j] == r[j]);
            } else if i < p && j == p {
                assert(out[i] == r[i] && out[j] == x);
            } else if i < p {
                assert(out[i] == r[i] && out[j] == r[j - 1]);
            } else if i == p {
                assert(out[i] == x && out[j] == r[j - 1]);
            } else {
                assert(out[i] == r[i - 1] && out[j] == r[j - 1]);
            }
        }
    }
}

} // verus!
