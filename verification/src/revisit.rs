//! Revisit analysis: which frame pairs are matched (the keyframes and the seed pair, and
//! a bounded number of non-adjacent pairs among them, pairs through the seed frame
//! first), which matches are mutual, and which seed evidence can recover a failed
//! registration, with its correspondences.

use crate::sorted::{contains_index, insert_sorted, sort_keyed, sort_keyed_items, strictly_increasing};
use crate::tracks::MatchPair;
use vstd::prelude::*;

verus! {

/// Most frame pairs that a revisit analysis matches.
pub const MAX_REVISIT_PAIR_EVALUATIONS: usize = 12;

/// The frames of a revisit analysis: the keyframes and, with a seed pair starting at
/// `seed`, its two frames; each once and in increasing order.
pub fn revisit_frames(keyframes: &Vec<usize>, seed_pair_index: Option<usize>) -> (r: Vec<usize>)
    requires
        seed_pair_index matches Some(s) ==> s < usize::MAX,
    ensures
        strictly_increasing(r@),
        r@.to_set() == match seed_pair_index {
            Some(s) => keyframes@.to_set().insert(s).insert((s + 1) as usize),
            None => keyframes@.to_set(),
        },
{
    let mut frames: Vec<usize> = Vec::new();
    let n = keyframes.len();
    let mut i: usize = 0;
    assert(frames@.to_set() =~= keyframes@.take(0).to_set());
    while i < n
        invariant
            i <= n == keyframes@.len(),
            strictly_increasing(frames@),
            frames@.to_set() == keyframes@.take(i as int).to_set(),
        decreases n - i,
    {
        insert_sorted(&mut frames, keyframes[i]);
        proof {
            assert(keyframes@.take(i + 1) =~= keyframes@.take(i as int).push(keyframes@[i as int]));
            crate::sorted::lemma_push_to_set(keyframes@.take(i as int), keyframes@[i as int]);
        }
        i = i + 1;
    }
    assert(keyframes@.take(n as int) =~= keyframes@);
    if let Some(s) = seed_pair_index {
        insert_sorted(&mut frames, s);
        insert_sorted(&mut frames, s + 1);
    }
    frames
}

/// Whether the pair has the seed frame at either end.
pub open spec fn touches_seed(seed: Option<usize>, p: (usize, usize)) -> bool {
    seed matches Some(s) && (p.0 == s || p.1 == s)
}

/// Whether pair `x` is evaluated before pair `y`: pairs through the seed frame first,
/// then wider pairs first, then by first frame and by second frame.
pub open spec fn pair_precedes(seed: Option<usize>, x: (usize, usize), y: (usize, usize)) -> bool {
    if touches_seed(seed, x) != touches_seed(seed, y) {
        touches_seed(seed, x)
    } else if x.1 - x.0 != y.1 - y.0 {
        x.1 - x.0 > y.1 - y.0
    } else if x.0 != y.0 {
        x.0 < y.0
    } else {
        x.1 < y.1
    }
}

/// The pairs of `from` with each of `tos`, in order, that are more than one frame apart.
pub open spec fn row_pairs(from: usize, tos: Seq<usize>) -> Seq<(usize, usize)>
    decreases tos.len(),
{
    if tos.len() == 0 {
        Seq::empty()
    } else {
        let rest = row_pairs(from, tos.drop_last());
        if tos.last() > from + 1 {
            rest.push((from, tos.last()))
        } else {
            rest
        }
    }
}

/// The pairs of the first `rows` frames with each later frame that are more than one
/// frame apart, row after row.
pub open spec fn candidate_pairs(frames: Seq<usize>, rows: nat) -> Seq<(usize, usize)>
    decreases rows,
{
    if rows == 0 {
        Seq::empty()
    } else {
        let i = rows - 1;
        candidate_pairs(frames, i as nat) + row_pairs(frames[i], frames.skip(i + 1))
    }
}

/// Inserts `x` after every pair that it does not precede.
pub open spec fn insert_pair(seed: Option<usize>, s: Seq<(usize, usize)>, x: (usize, usize)) -> Seq<(usize, usize)>
    decreases s.len(),
{
    if s.len() == 0 {
        seq![x]
    } else if pair_precedes(seed, x, s[0]) {
        seq![x] + s
    } else {
        seq![s[0]] + insert_pair(seed, s.drop_first(), x)
    }
}

/// The pairs in evaluation order (a stable insertion sort).
pub open spec fn sort_pairs(seed: Option<usize>, s: Seq<(usize, usize)>) -> Seq<(usize, usize)>
    decreases s.len(),
{
    if s.len() == 0 {
        Seq::empty()
    } else {
        insert_pair(seed, sort_pairs(seed, s.drop_last()), s.last())
    }
}

/// The position at which `insert_pair` puts `x`.
pub open spec fn pair_insertion_point(seed: Option<usize>, s: Seq<(usize, usize)>, x: (usize, usize)) -> nat
    decreases s.len(),
{
    if s.len() == 0 || pair_precedes(seed, x, s[0]) {
        0
    } else {
        1 + pair_insertion_point(seed, s.drop_first(), x)
    }
}

proof fn lemma_insert_pair(seed: Option<usize>, s: Seq<(usize, usize)>, x: (usize, usize))
    ensures
        pair_insertion_point(seed, s, x) <= s.len(),
        insert_pair(seed, s, x) == s.insert(pair_insertion_point(seed, s, x) as int, x),
    decreases s.len(),
{
    if s.len() > 0 && !pair_precedes(seed, x, s[0]) {
        lemma_insert_pair(seed, s.drop_first(), x);
        let p = pair_insertion_point(seed, s.drop_first(), x) as int;
        assert(seq![s[0]] + s.drop_first().insert(p, x) =~= s.insert(p + 1, x));
    } else if s.len() > 0 {
        assert(seq![x] + s =~= s.insert(0, x));
    } else {
        assert(seq![x] =~= s.insert(0, x));
    }
}

proof fn lemma_pair_insertion_point_at(seed: Option<usize>, s: Seq<(usize, usize)>, x: (usize, usize), p: int)
    requires
        0 <= p <= s.len(),
        forall|k: int| 0 <= k < p ==> !pair_precedes(seed, x, #[trigger] s[k]),
        p == s.len() || pair_precedes(seed, x, s[p]),
    ensures
        pair_insertion_point(seed, s, x) == p,
    decreases p,
{
    if p > 0 {
        assert forall|k: int| 0 <= k < p - 1 implies !pair_precedes(seed, x, #[trigger] s.drop_first()[k]) by {
            assert(s.drop_first()[k] == s[k + 1]);
        }
        assert(!pair_precedes(seed, x, s[0]));
        lemma_pair_insertion_point_at(seed, s.drop_first(), x, p - 1);
    }
}

fn precedes(seed: Option<usize>, x: (usize, usize), y: (usize, usize)) -> (r: bool)
    requires
        x.0 <= x.1,
        y.0 <= y.1,
    ensures
        r == pair_precedes(seed, x, y),
{
    let tx = match seed {
        Some(s) => x.0 == s || x.1 == s,
        None => false,
    };
    let ty = match seed {
        Some(s) => y.0 == s || y.1 == s,
        None => false,
    };
    if tx != ty {
        tx
    } else if x.1 - x.0 != y.1 - y.0 {
        x.1 - x.0 > y.1 - y.0
    } else if x.0 != y.0 {
        x.0 < y.0
    } else {
        x.1 < y.1
    }
}

proof fn lemma_row_pairs_ordered(from: usize, tos: Seq<usize>)
    ensures
        forall|k: int| 0 <= k < row_pairs(from, tos).len() ==> #[trigger] row_pairs(from, tos)[k].1 > row_pairs(
            from,
            tos,
        )[k].0 + 1,
    decreases tos.len(),
{
    if tos.len() > 0 {
        lemma_row_pairs_ordered(from, tos.drop_last());
        let rest = row_pairs(from, tos.drop_last());
        if tos.last() > from + 1 {
            assert(row_pairs(from, tos) == rest.push((from, tos.last())));
            assert forall|k: int| 0 <= k < rest.len() + 1 implies #[trigger] rest.push((from, tos.last()))[k].1
                > rest.push((from, tos.last()))[k].0 + 1 by {
                if k < rest.len() {
                    assert(rest.push((from, tos.last()))[k] == rest[k]);
                }
            }
        } else {
            assert(row_pairs(from, tos) == rest);
        }
    }
}

proof fn lemma_candidate_pairs_ordered(frames: Seq<usize>, rows: nat)
    requires
        rows <= frames.len(),
    ensures
        forall|k: int| 0 <= k < candidate_pairs(frames, rows).len() ==> #[trigger] candidate_pairs(frames, rows)[k].1
            > candidate_pairs(frames, rows)[k].0 + 1,
    decreases rows,
{
    if rows > 0 {
        let i = rows - 1;
        lemma_candidate_pairs_ordered(frames, i as nat);
        lemma_row_pairs_ordered(frames[i], frames.skip(i + 1));
        let a = candidate_pairs(frames, i as nat);
        let b = row_pairs(frames[i], frames.skip(i + 1));
        assert forall|k: int| 0 <= k < (a + b).len() implies #[trigger] (a + b)[k].1 > (a + b)[k].0 + 1 by {
            if k < a.len() {
                assert((a + b)[k] == a[k]);
            } else {
                assert((a + b)[k] == b[k - a.len()]);
            }
        }
    }
}

fn pairs_of_row(frames: &Vec<usize>, i: usize, out: &mut Vec<(usize, usize)>)
    requires
        i < frames@.len(),
        i + 1 < frames@.len() ==> frames@[i as int] < usize::MAX,
    ensures
        final(out)@ == old(out)@ + row_pairs(frames@[i as int], frames@.skip(i + 1)),
{
    let ghost start = out@;
    let ghost tos = frames@.skip(i + 1);
    let from = frames[i];
    let n = frames.len();
    let mut j: usize = i + 1;
    assert(tos.take(0) =~= Seq::<usize>::empty());
    while j < n
        invariant
            i < j <= n == frames@.len(),
            from == frames@[i as int],
            j < n ==> from < usize::MAX,
            tos == frames@.skip(i + 1),
            out@ == start + row_pairs(from, tos.take(j - i - 1)),
        decreases n - j,
    {
        let to = frames[j];
        let ghost k = j - i - 1;
        assert(tos.take(k + 1).drop_last() =~= tos.take(k));
        assert(tos.take(k + 1).last() == to);
        if to > from + 1 {
            out.push((from, to));
            assert(out@ =~= start + row_pairs(from, tos.take(k + 1)));
        }
        j = j + 1;
    }
    assert(tos.take(n - i - 1) =~= tos);
}

/// The frame pairs to match: each pair of `frames`, taken in their order, whose frames
/// are more than one apart, ordered with pairs through the seed frame first, then wider
/// pairs first, then by their frames; at most `MAX_REVISIT_PAIR_EVALUATIONS` of them.
pub fn preselect_pairs(frames: &Vec<usize>, seed_pair_index: Option<usize>) -> (r: Vec<(usize, usize)>)
    requires
        forall|i: int| 0 <= i < frames@.len() - 1 ==> #[trigger] frames@[i] < usize::MAX,
    ensures
        r@ == sort_pairs(seed_pair_index, candidate_pairs(frames@, frames@.len())).take(
            if candidate_pairs(frames@, frames@.len()).len() < MAX_REVISIT_PAIR_EVALUATIONS {
                candidate_pairs(frames@, frames@.len()).len() as int
            } else {
                MAX_REVISIT_PAIR_EVALUATIONS as int
            },
        ),
        r@.len() <= MAX_REVISIT_PAIR_EVALUATIONS,
        forall|k: int| 0 <= k < r@.len() ==> #[trigger] r@[k].1 > r@[k].0 + 1,
{
    let n = frames.len();
    let mut pairs: Vec<(usize, usize)> = Vec::new();
    let mut i: usize = 0;
    while i < n
        invariant
            i <= n == frames@.len(),
            forall|q: int| 0 <= q < frames@.len() - 1 ==> #[trigger] frames@[q] < usize::MAX,
            pairs@ == candidate_pairs(frames@, i as nat),
        decreases n - i,
    {
        pairs_of_row(frames, i, &mut pairs);
        i = i + 1;
    }
    let ghost all = pairs@;
    proof {
        lemma_candidate_pairs_ordered(frames@, n as nat);
    }
    let m = pairs.len();
    let mut sorted: Vec<(usize, usize)> = Vec::new();
    let mut k: usize = 0;
    while k < m
        invariant
            k <= m == all.len(),
            pairs@ == all,
            forall|q: int| 0 <= q < all.len() ==> #[trigger] all[q].1 > all[q].0 + 1,
            sorted@ == sort_pairs(seed_pair_index, all.take(k as int)),
            forall|q: int| 0 <= q < sorted@.len() ==> #[trigger] sorted@[q].1 > sorted@[q].0 + 1,
        decreases m - k,
    {
        let x = pairs[k];
        let len = sorted.len();
        let mut p: usize = 0;
        while p < len && !precedes(seed_pair_index, x, sorted[p])
            invariant
                p <= len == sorted@.len(),
                x.1 > x.0 + 1,
                forall|q: int| 0 <= q < sorted@.len() ==> #[trigger] sorted@[q].1 > sorted@[q].0 + 1,
                forall|j: int| 0 <= j < p ==> !pair_precedes(seed_pair_index, x, #[trigger] sorted@[j]),
            decreases len - p,
        {
            p = p + 1;
        }
        proof {
            lemma_pair_insertion_point_at(seed_pair_index, sorted@, x, p as int);
            lemma_insert_pair(seed_pair_index, sorted@, x);
            assert(all.take(k + 1).drop_last() =~= all.take(k as int));
            assert(all.take(k + 1).last() == x);
        }
        let ghost before = sorted@;
        sorted.insert(p, x);
        assert forall|q: int| 0 <= q < sorted@.len() implies #[trigger] sorted@[q].1 > sorted@[q].0 + 1 by {
            if q < p {
                assert(sorted@[q] == before[q]);
            } else if q > p {
                assert(sorted@[q] == before[q - 1]);
            }
        }
        k = k + 1;
    }
    assert(all.take(m as int) =~= all);
    if sorted.len() > MAX_REVISIT_PAIR_EVALUATIONS {
        sorted.truncate(MAX_REVISIT_PAIR_EVALUATIONS);
    }
    proof {
        lemma_sort_pairs_len(seed_pair_index, all);
    }
    assert(sorted@ =~= sort_pairs(seed_pair_index, all).take(
        if all.len() < MAX_REVISIT_PAIR_EVALUATIONS {
            all.len() as int
        } else {
            MAX_REVISIT_PAIR_EVALUATIONS as int
        },
    ));
    sorted
}

proof fn lemma_sort_pairs_len(seed: Option<usize>, s: Seq<(usize, usize)>)
    ensures
        sort_pairs(seed, s).len() == s.len(),
    decreases s.len(),
{
    if s.len() > 0 {
        lemma_sort_pairs_len(seed, s.drop_last());
        lemma_insert_pair(seed, sort_pairs(seed, s.drop_last()), s.last());
    }
}

/// No pair of `s` is evaluated before an earlier one.
pub open spec fn pairs_in_order(seed: Option<usize>, s: Seq<(usize, usize)>) -> bool {
    forall|i: int, j: int| 0 <= i < j < s.len() ==> !pair_precedes(seed, #[trigger] s[j], #[trigger] s[i])
}

proof fn lemma_precedes_order(seed: Option<usize>, x: (usize, usize), y: (usize, usize), z: (usize, usize))
    ensures
        !pair_precedes(seed, x, x),
        pair_precedes(seed, x, y) ==> !pair_precedes(seed, y, x),
        x != y ==> pair_precedes(seed, x, y) || pair_precedes(seed, y, x),
        pair_precedes(seed, x, y) && pair_precedes(seed, y, z) ==> pair_precedes(seed, x, z),
{
}

proof fn lemma_insert_pair_in_order(seed: Option<usize>, s: Seq<(usize, usize)>, x: (usize, usize))
    requires
        pairs_in_order(seed, s),
    ensures
        pairs_in_order(seed, insert_pair(seed, s, x)),
{
    lemma_insert_pair(seed, s, x);
    let p = pair_insertion_point(seed, s, x) as int;
    let t = s.insert(p, x);
    lemma_pair_insertion_prefix(seed, s, x);
    assert forall|i: int, j: int| 0 <= i < j < t.len() implies !pair_precedes(seed, #[trigger] t[j], #[trigger] t[i]) by {
        if j < p {
            assert(t[i] == s[i] && t[j] == s[j]);
        } else if j == p {
            assert(t[i] == s[i]);
            assert(!pair_precedes(seed, x, s[i]));
        } else if i > p {
            assert(t[i] == s[i - 1] && t[j] == s[j - 1]);
        } else if i == p {
            assert(t[j] == s[j - 1]);
            assert(pair_precedes(seed, x, s[p]));
            if j - 1 > p {
                assert(!pair_precedes(seed, s[j - 1], s[p]));
                lemma_precedes_order(seed, s[p], s[j - 1], x);
                if s[p] != s[j - 1] {
                    lemma_precedes_order(seed, x, s[p], s[j - 1]);
                }
            }
            lemma_precedes_order(seed, x, s[j - 1], x);
        } else {
            assert(t[i] == s[i] && t[j] == s[j - 1]);
        }
    }
}

proof fn lemma_pair_insertion_prefix(seed: Option<usize>, s: Seq<(usize, usize)>, x: (usize, usize))
    ensures
        forall|k: int| 0 <= k < pair_insertion_point(seed, s, x) ==> !pair_precedes(seed, x, #[trigger] s[k]),
        pair_insertion_point(seed, s, x) < s.len() ==> pair_precedes(seed, x, s[pair_insertion_point(seed, s, x) as int]),
    decreases s.len(),
{
    lemma_insert_pair(seed, s, x);
    if s.len() > 0 && !pair_precedes(seed, x, s[0]) {
        lemma_pair_insertion_prefix(seed, s.drop_first(), x);
        assert forall|k: int| 0 <= k < pair_insertion_point(seed, s, x) implies !pair_precedes(seed, x, #[trigger] s[k]) by {
            if k > 0 {
                assert(s[k] == s.drop_first()[k - 1]);
            }
        }
    }
}

proof fn lemma_sort_pairs_in_order(seed: Option<usize>, s: Seq<(usize, usize)>)
    ensures
        pairs_in_order(seed, sort_pairs(seed, s)),
    decreases s.len(),
{
    if s.len() > 0 {
        lemma_sort_pairs_in_order(seed, s.drop_last());
        lemma_insert_pair_in_order(seed, sort_pairs(seed, s.drop_last()), s.last());
    }
}

proof fn lemma_sort_pairs_contains(seed: Option<usize>, s: Seq<(usize, usize)>)
    ensures
        forall|y: (usize, usize)| #[trigger] sort_pairs(seed, s).contains(y) <==> s.contains(y),
    decreases s.len(),
{
    if s.len() > 0 {
        lemma_sort_pairs_contains(seed, s.drop_last());
        let t = sort_pairs(seed, s.drop_last());
        lemma_insert_pair(seed, t, s.last());
        let p = pair_insertion_point(seed, t, s.last()) as int;
        assert forall|y: (usize, usize)| #[trigger] sort_pairs(seed, s).contains(y) <==> s.contains(y) by {
            let u = t.insert(p, s.last());
            if u.contains(y) {
                let k = choose|k: int| 0 <= k < u.len() && u[k] == y;
                if k < p {
                    assert(t[k] == y);
                } else if k > p {
                    assert(t[k - 1] == y);
                }
                if y != s.last() {
                    assert(t.contains(y));
                    let q = choose|q: int| 0 <= q < s.drop_last().len() && s.drop_last()[q] == y;
                    assert(s[q] == y);
                } else {
                    assert(s[s.len() - 1] == y);
                }
            }
            if s.contains(y) {
                let q = choose|q: int| 0 <= q < s.len() && s[q] == y;
                if q < s.len() - 1 {
                    assert(s.drop_last()[q] == y);
                    assert(t.contains(y));
                    let k = choose|k: int| 0 <= k < t.len() && t[k] == y;
                    if k < p {
                        assert(u[k] == y);
                    } else {
                        assert(u[k + 1] == y);
                    }
                } else {
                    assert(u[p] == y);
                }
            }
        }
    }
}

/// The preselected pairs come in evaluation order: no pair is evaluated before an
/// earlier one, so pairs through the seed frame come first. And where a pair not
/// through the seed frame is selected, so is every candidate pair through it.
pub proof fn lemma_preselected_seed_pairs_first(frames: Seq<usize>, seed: Option<usize>, selected: Seq<(usize, usize)>)
    requires
        selected == sort_pairs(seed, candidate_pairs(frames, frames.len())).take(
            if candidate_pairs(frames, frames.len()).len() < MAX_REVISIT_PAIR_EVALUATIONS {
                candidate_pairs(frames, frames.len()).len() as int
            } else {
                MAX_REVISIT_PAIR_EVALUATIONS as int
            },
        ),
    ensures
        pairs_in_order(seed, selected),
        forall|i: int, j: int|
            0 <= i < j < selected.len() && touches_seed(seed, #[trigger] selected[j]) ==> touches_seed(
                seed,
                #[trigger] selected[i],
            ),
        (exists|j: int| 0 <= j < selected.len() && !touches_seed(seed, #[trigger] selected[j])) ==> forall|
            y: (usize, usize),
        |
            #[trigger] candidate_pairs(frames, frames.len()).contains(y) && touches_seed(seed, y) ==> selected.contains(y),
{
    let all = candidate_pairs(frames, frames.len());
    let sorted = sort_pairs(seed, all);
    lemma_sort_pairs_in_order(seed, all);
    lemma_sort_pairs_contains(seed, all);
    lemma_sort_pairs_len(seed, all);
    assert forall|i: int, j: int| 0 <= i < j < selected.len() implies !pair_precedes(
        seed,
        #[trigger] selected[j],
        #[trigger] selected[i],
    ) by {
        assert(selected[i] == sorted[i] && selected[j] == sorted[j]);
    }
    assert forall|i: int, j: int|
        0 <= i < j < selected.len() && touches_seed(seed, #[trigger] selected[j]) implies touches_seed(
        seed,
        #[trigger] selected[i],
    ) by {
        assert(!pair_precedes(seed, selected[j], selected[i]));
    }
    if exists|j: int| 0 <= j < selected.len() && !touches_seed(seed, #[trigger] selected[j]) {
        let j = choose|j: int| 0 <= j < selected.len() && !touches_seed(seed, #[trigger] selected[j]);
        assert forall|y: (usize, usize)| #[trigger] all.contains(y) && touches_seed(seed, y) implies selected.contains(y) by {
            assert(sorted.contains(y));
            let q = choose|q: int| 0 <= q < sorted.len() && sorted[q] == y;
            if q >= selected.len() {
                assert(sorted[j] == selected[j]);
                assert(j < q);
                assert(!pair_precedes(seed, sorted[q], sorted[j]));
            } else {
                assert(selected[q] == y);
            }
        }
    }
}

/// Fewest correspondences with which a revisit recovery estimates a pose.
pub const MIN_RECOVERY_CORRESPONDENCES: usize = 8;

/// The positions of the forward matches that the reverse matching confirms: some
/// reverse match joins the same two features the other way round.
pub open spec fn mutual_positions(forward: Seq<MatchPair>, reverse: Seq<MatchPair>) -> Seq<usize>
    decreases forward.len(),
{
    if forward.len() == 0 {
        Seq::empty()
    } else {
        let rest = mutual_positions(forward.drop_last(), reverse);
        let m = forward.last();
        if reverse.contains(MatchPair { a: m.b, b: m.a }) {
            rest.push((forward.len() - 1) as usize)
        } else {
            rest
        }
    }
}

/// The positions of the forward matches, in order, that a reverse match confirms.
pub fn mutual_match_positions(forward: &Vec<MatchPair>, reverse: &Vec<MatchPair>) -> (r: Vec<usize>)
    ensures
        r@ == mutual_positions(forward@, reverse@),
{
    let n = forward.len();
    let m = reverse.len();
    let mut out: Vec<usize> = Vec::new();
    let mut i: usize = 0;
    assert(forward@.take(0) =~= Seq::<MatchPair>::empty());
    while i < n
        invariant
            i <= n == forward@.len(),
            m == reverse@.len(),
            out@ == mutual_positions(forward@.take(i as int), reverse@),
        decreases n - i,
    {
        let f = forward[i];
        let mut found = false;
        let mut j: usize = 0;
        while j < m
            invariant
                j <= m == reverse@.len(),
                found <==> exists|q: int| 0 <= q < j && reverse@[q] == (MatchPair { a: f.b, b: f.a }),
            decreases m - j,
        {
            if reverse[j].a == f.b && reverse[j].b == f.a {
                found = true;
            }
            j = j + 1;
        }
        proof {
            assert(forward@.take(i + 1).drop_last() =~= forward@.take(i as int));
            assert(forward@.take(i + 1).last() == f);
            assert(found == reverse@.contains(MatchPair { a: f.b, b: f.a }));
        }
        if found {
            out.push(i);
        }
        i = i + 1;
    }
    assert(forward@.take(n as int) =~= forward@);
    out
}

/// The positions, in order, of the seed revisit evidence whose target frame is a
/// registration candidate that was not registered.
pub open spec fn recovery_positions(targets: Seq<usize>, candidates: Seq<usize>, registered: Seq<usize>) -> Seq<usize>
    decreases targets.len(),
{
    if targets.len() == 0 {
        Seq::empty()
    } else {
        let rest = recovery_positions(targets.drop_last(), candidates, registered);
        let f = targets.last();
        if candidates.contains(f) && !registered.contains(f) {
            rest.push((targets.len() - 1) as usize)
        } else {
            rest
        }
    }
}

/// Which seed revisit evidence, by position, can recover a failed registration: its
/// target frame was a registration candidate and was not registered.
pub fn recovery_targets(evidence_targets: &Vec<usize>, candidate_frames: &Vec<usize>, registered_frames: &Vec<usize>) -> (r: Vec<
    usize,
>)
    ensures
        r@ == recovery_positions(evidence_targets@, candidate_frames@, registered_frames@),
{
    let n = evidence_targets.len();
    let mut out: Vec<usize> = Vec::new();
    let mut i: usize = 0;
    assert(evidence_targets@.take(0) =~= Seq::<usize>::empty());
    while i < n
        invariant
            i <= n == evidence_targets@.len(),
            out@ == recovery_positions(evidence_targets@.take(i as int), candidate_frames@, registered_frames@),
        decreases n - i,
    {
        let f = evidence_targets[i];
        proof {
            assert(evidence_targets@.take(i + 1).drop_last() =~= evidence_targets@.take(i as int));
            assert(evidence_targets@.take(i + 1).last() == f);
        }
        if contains_index(candidate_frames, f) && !contains_index(registered_frames, f) {
            out.push(i);
        }
        i = i + 1;
    }
    assert(evidence_targets@.take(n as int) =~= evidence_targets@);
    out
}

/// The position of the last occurrence of `f`.
pub open spec fn last_position(s: Seq<usize>, f: usize) -> Option<nat>
    decreases s.len(),
{
    if s.len() == 0 {
        None
    } else if s.last() == f {
        Some((s.len() - 1) as nat)
    } else {
        last_position(s.drop_last(), f)
    }
}

/// For each match from a seed-frame feature to a target feature, in order: the seed
/// point of that feature (the last one listed for it) and the target feature, where both
/// exist.
pub open spec fn recovery_pairs(matches: Seq<MatchPair>, seed_features: Seq<usize>, target_features: nat) -> Seq<
    (usize, usize),
>
    decreases matches.len(),
{
    if matches.len() == 0 {
        Seq::empty()
    } else {
        let rest = recovery_pairs(matches.drop_last(), seed_features, target_features);
        let m = matches.last();
        match last_position(seed_features, m.a) {
            Some(p) => if m.b < target_features {
                rest.push((p as usize, m.b))
            } else {
                rest
            },
            None => rest,
        }
    }
}

fn find_last(s: &Vec<usize>, f: usize) -> (r: Option<usize>)
    ensures
        match last_position(s@, f) {
            Some(p) => r == Some(p as usize),
            None => r is None,
        },
{
    let mut i = s.len();
    assert(s@.take(i as int) =~= s@);
    while i > 0
        invariant
            i <= s@.len(),
            last_position(s@, f) == last_position(s@.take(i as int), f),
        decreases i,
    {
        assert(s@.take(i as int).drop_last() =~= s@.take(i - 1));
        if s[i - 1] == f {
            return Some(i - 1);
        }
        i = i - 1;
    }
    None
}

/// The PnP correspondences of a revisit recovery, as `(seed point, target feature)`:
/// `seed_features` gives the source feature of each seed point, and the target frame has
/// `target_feature_count` features.
pub fn recovery_correspondences(matches: &Vec<MatchPair>, seed_features: &Vec<usize>, target_feature_count: usize) -> (r: Vec<
    (usize, usize),
>)
    ensures
        r@ == recovery_pairs(matches@, seed_features@, target_feature_count as nat),
{
    let n = matches.len();
    let mut out: Vec<(usize, usize)> = Vec::new();
    let mut i: usize = 0;
    assert(matches@.take(0) =~= Seq::<MatchPair>::empty());
    while i < n
        invariant
            i <= n == matches@.len(),
            out@ == recovery_pairs(matches@.take(i as int), seed_features@, target_feature_count as nat),
        decreases n - i,
    {
        let m = matches[i];
        proof {
            assert(matches@.take(i + 1).drop_last() =~= matches@.take(i as int));
            assert(matches@.take(i + 1).last() == m);
        }
        if let Some(p) = find_last(seed_features, m.a) {
            if m.b < target_feature_count {
                out.push((p, m.b));
            }
        }
        i = i + 1;
    }
    assert(matches@.take(n as int) =~= matches@);
    out
}

/// The items keyed by frame, in their order.
pub open spec fn frame_keyed(frames: Seq<usize>) -> Seq<((usize, usize), usize)> {
    Seq::new(frames.len(), |i: int| ((frames[i], 0usize), i as usize))
}

/// The positions of the items in order of their frames; items of one frame keep their
/// order (a stable sort by frame).
pub fn order_by_frame(frames: &Vec<usize>) -> (r: Vec<usize>)
    ensures
        r@ == sort_keyed(frame_keyed(frames@)).map_values(|x: ((usize, usize), usize)| x.1),
{
    let n = frames.len();
    let mut items: Vec<((usize, usize), usize)> = Vec::new();
    let mut i: usize = 0;
    while i < n
        invariant
            i <= n == frames@.len(),
            items@ == frame_keyed(frames@).take(i as int),
        decreases n - i,
    {
        items.push(((frames[i], 0), i));
        i = i + 1;
        assert(items@ =~= frame_keyed(frames@).take(i as int));
    }
    assert(frame_keyed(frames@).take(n as int) =~= frame_keyed(frames@));
    let sorted = sort_keyed_items(&items);
    let m = sorted.len();
    let mut out: Vec<usize> = Vec::new();
    let mut k: usize = 0;
    while k < m
        invariant
            k <= m == sorted@.len(),
            out@ == sorted@.take(k as int).map_values(|x: ((usize, usize), usize)| x.1),
        decreases m - k,
    {
        out.push(sorted[k].1);
        k = k + 1;
        assert(out@ =~= sorted@.take(k as int).map_values(|x: ((usize, usize), usize)| x.1));
    }
    assert(sorted@.take(m as int) =~= sorted@);
    out
}

} // verus!
