//! Lists of indices: sorted lists of distinct indices, which stand for sets in a fixed
//! order; a stable sort of items by a pair of keys; membership tests and copies.

use vstd::prelude::*;

verus! {

/// Each element is smaller than the next.
pub open spec fn strictly_increasing(s: Seq<usize>) -> bool {
    forall|i: int, j: int| 0 <= i < j < s.len() ==> s[i] < s[j]
}

/// Inserts `x` into a strictly increasing list unless it holds it already.
pub fn insert_sorted(v: &mut Vec<usize>, x: usize)
    requires
        strictly_increasing(old(v)@),
    ensures
        strictly_increasing(final(v)@),
        final(v)@.to_set() == old(v)@.to_set().insert(x),
{
    let n = v.len();
    let mut i: usize = 0;
    while i < n && v[i] < x
        invariant
            i <= n == v@.len(),
            forall|k: int| 0 <= k < i ==> v@[k] < x,
        decreases n - i,
    {
        i = i + 1;
    }
    let ghost before = v@;
    if i < n && v[i] == x {
        assert(v@.to_set() =~= before.to_set().insert(x)) by {
            assert(before[i as int] == x);
        }
    } else {
        v.insert(i, x);
        assert(v@ =~= before.take(i as int).push(x) + before.skip(i as int));
        assert forall|a: int, b: int| 0 <= a < b < v@.len() implies v@[a] < v@[b] by {
            if b < i {
            } else if b == i {
            } else if a < i {
                assert(v@[b] == before[b - 1]);
            } else if a == i {
                assert(v@[b] == before[b - 1]);
            } else {
                assert(v@[b] == before[b - 1]);
                assert(v@[a] == before[a - 1]);
            }
        }
        assert forall|y: usize| #[trigger] v@.to_set().contains(y) <==> before.to_set().insert(x).contains(y) by {
            if v@.contains(y) {
                let k = choose|k: int| 0 <= k < v@.len() && v@[k] == y;
                if k < i {
                    assert(before[k] == y);
                } else if k > i {
                    assert(before[k - 1] == y);
                }
            }
            if before.contains(y) {
                let k = choose|k: int| 0 <= k < before.len() && before[k] == y;
                if k < i {
                    assert(v@[k] == y);
                } else {
                    assert(v@[k + 1] == y);
                }
            }
            if y == x {
                assert(v@[i as int] == x);
            }
        }
        assert(v@.to_set() =~= before.to_set().insert(x));
    }
}

/// Appending `x` adds it to the elements.
pub proof fn lemma_push_to_set(s: Seq<usize>, x: usize)
    ensures
        s.push(x).to_set() == s.to_set().insert(x),
{
    assert forall|y: usize| #[trigger] s.push(x).to_set().contains(y) <==> s.to_set().insert(x).contains(y) by {
        if s.push(x).contains(y) {
            let k = choose|k: int| 0 <= k < s.push(x).len() && s.push(x)[k] == y;
            if k < s.len() {
                assert(s[k] == y);
            }
        }
        if s.contains(y) {
            let k = choose|k: int| 0 <= k < s.len() && s[k] == y;
            assert(s.push(x)[k] == y);
        }
        if y == x {
            assert(s.push(x)[s.len() as int] == x);
        }
    }
    assert(s.push(x).to_set() =~= s.to_set().insert(x));
}

/// Whether key `a` comes before key `b`: by first component, then by second.
pub open spec fn key_before(a: (usize, usize), b: (usize, usize)) -> bool {
    a.0 < b.0 || (a.0 == b.0 && a.1 < b.1)
}

/// Inserts the keyed item `x` after every item whose key does not come after its own.
pub open spec fn insert_keyed(s: Seq<((usize, usize), usize)>, x: ((usize, usize), usize)) -> Seq<
    ((usize, usize), usize),
>
    decreases s.len(),
{
    if s.len() == 0 {
        seq![x]
    } else if key_before(x.0, s[0].0) {
        seq![x] + s
    } else {
        seq![s[0]] + insert_keyed(s.drop_first(), x)
    }
}

/// The keyed items in key order; items with equal keys keep their order (a stable sort).
pub open spec fn sort_keyed(s: Seq<((usize, usize), usize)>) -> Seq<((usize, usize), usize)>
    decreases s.len(),
{
    if s.len() == 0 {
        Seq::empty()
    } else {
        insert_keyed(sort_keyed(s.drop_last()), s.last())
    }
}

/// The position at which `insert_keyed` puts `x`.
pub open spec fn keyed_insertion_point(s: Seq<((usize, usize), usize)>, x: ((usize, usize), usize)) -> nat
    decreases s.len(),
{
    if s.len() == 0 || key_before(x.0, s[0].0) {
        0
    } else {
        1 + keyed_insertion_point(s.drop_first(), x)
    }
}

proof fn lemma_insert_keyed(s: Seq<((usize, usize), usize)>, x: ((usize, usize), usize))
    ensures
        keyed_insertion_point(s, x) <= s.len(),
        insert_keyed(s, x) == s.insert(keyed_insertion_point(s, x) as int, x),
    decreases s.len(),
{
    if s.len() > 0 && !key_before(x.0, s[0].0) {
        lemma_insert_keyed(s.drop_first(), x);
        let p = keyed_insertion_point(s.drop_first(), x) as int;
        assert(seq![s[0]] + s.drop_first().insert(p, x) =~= s.insert(p + 1, x));
    } else if s.len() > 0 {
        assert(seq![x] + s =~= s.insert(0, x));
    } else {
        assert(seq![x] =~= s.insert(0, x));
    }
}

proof fn lemma_keyed_insertion_point_at(s: Seq<((usize, usize), usize)>, x: ((usize, usize), usize), p: int)
    requires
        0 <= p <= s.len(),
        forall|k: int| 0 <= k < p ==> !key_before(x.0, #[trigger] s[k].0),
        p == s.len() || key_before(x.0, s[p].0),
    ensures
        keyed_insertion_point(s, x) == p,
    decreases p,
{
    if p > 0 {
        assert forall|k: int| 0 <= k < p - 1 implies !key_before(x.0, #[trigger] s.drop_first()[k].0) by {
            assert(s.drop_first()[k] == s[k + 1]);
        }
        assert(!key_before(x.0, s[0].0));
        lemma_keyed_insertion_point_at(s.drop_first(), x, p - 1);
    }
}

/// The keyed items sorted by key, stably.
pub fn sort_keyed_items(items: &Vec<((usize, usize), usize)>) -> (r: Vec<((usize, usize), usize)>)
    ensures
        r@ == sort_keyed(items@),
{
    let n = items.len();
    let mut sorted: Vec<((usize, usize), usize)> = Vec::new();
    let mut k: usize = 0;
    while k < n
        invariant
            k <= n == items@.len(),
            sorted@ == sort_keyed(items@.take(k as int)),
        decreases n - k,
    {
        let x = items[k];
        let m = sorted.len();
        let mut p: usize = 0;
        while p < m && !(x.0.0 < sorted[p].0.0 || (x.0.0 == sorted[p].0.0 && x.0.1 < sorted[p].0.1))
            invariant
                p <= m == sorted@.len(),
                forall|j: int| 0 <= j < p ==> !key_before(x.0, #[trigger] sorted@[j].0),
            decreases m - p,
        {
            p = p + 1;
        }
        proof {
            lemma_keyed_insertion_point_at(sorted@, x, p as int);
            lemma_insert_keyed(sorted@, x);
            assert(items@.take(k + 1).drop_last() =~= items@.take(k as int));
            assert(items@.take(k + 1).last() == x);
        }
        sorted.insert(p, x);
        k = k + 1;
    }
    assert(items@.take(n as int) =~= items@);
    sorted
}

/// A copy of a list of indices.
pub fn copy_indices(v: &Vec<usize>) -> (r: Vec<usize>)
    ensures
        r@ == v@,
{
    let mut out: Vec<usize> = Vec::new();
    let n = v.len();
    let mut i: usize = 0;
    while i < n
        invariant
            i <= n == v@.len(),
            out@ == v@.take(i as int),
        decreases n - i,
    {
        out.push(v[i]);
        i = i + 1;
        assert(out@ =~= v@.take(i as int));
    }
    assert(v@.take(n as int) =~= v@);
    out
}

/// Whether the list holds `f`.
pub fn contains_index(v: &Vec<usize>, f: usize) -> (r: bool)
    ensures
        r == v@.contains(f),
{
    let n = v.len();
    let mut i: usize = 0;
    while i < n
        invariant
            i <= n == v@.len(),
            forall|k: int| 0 <= k < i ==> v@[k] != f,
        decreases n - i,
    {
        if v[i] == f {
            assert(v@[i as int] == f);
            return true;
        }
        i = i + 1;
    }
    false
}

} // verus!
