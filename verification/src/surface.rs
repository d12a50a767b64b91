//! Camera-support groups of surface evidence, and the warning text that surface fusion
//! updates once it has aligned seam vertices.

use crate::evidence::SurfaceEvidenceRegion;
use crate::text::{
    chars_of, contains_chars, contains_seq, decimal, push_decimal, push_str, replace_all, replace_chars,
    string_from_chars,
};
use vstd::prelude::*;

verus! {

/// The part of the preview warning that holds before surface fusion.
pub const PRE_FUSION_WARNING_CLAIM: &'static str =
    "texture projection, arbitrary multi-reference surface fusion, and metric scale are not claimed yet.";

/// The part of the preview warning that holds after surface fusion.
pub const POST_FUSION_WARNING_CLAIM: &'static str = "texture projection and metric scale are not claimed yet.";

/// Inserts `x` after every element that is at most `x`.
pub open spec fn insert_frame(s: Seq<usize>, x: usize) -> Seq<usize>
    decreases s.len(),
{
    if s.len() == 0 {
        seq![x]
    } else if x < s[0] {
        seq![x] + s
    } else {
        seq![s[0]] + insert_frame(s.drop_first(), x)
    }
}

/// The frames in increasing order, repeated frames kept.
pub open spec fn sort_frames(s: Seq<usize>) -> Seq<usize>
    decreases s.len(),
{
    if s.len() == 0 {
        Seq::empty()
    } else {
        insert_frame(sort_frames(s.drop_last()), s.last())
    }
}

/// The position at which `insert_frame` puts `x`.
pub open spec fn frame_insertion_point(s: Seq<usize>, x: usize) -> nat
    decreases s.len(),
{
    if s.len() == 0 || x < s[0] {
        0
    } else {
        1 + frame_insertion_point(s.drop_first(), x)
    }
}

proof fn lemma_insert_frame(s: Seq<usize>, x: usize)
    ensures
        frame_insertion_point(s, x) <= s.len(),
        insert_frame(s, x) == s.insert(frame_insertion_point(s, x) as int, x),
    decreases s.len(),
{
    if s.len() > 0 && !(x < s[0]) {
        lemma_insert_frame(s.drop_first(), x);
        let p = frame_insertion_point(s.drop_first(), x) as int;
        assert(seq![s[0]] + s.drop_first().insert(p, x) =~= s.insert(p + 1, x));
    } else if s.len() > 0 {
        assert(seq![x] + s =~= s.insert(0, x));
    } else {
        assert(seq![x] =~= s.insert(0, x));
    }
}

proof fn lemma_frame_insertion_point_at(s: Seq<usize>, x: usize, p: int)
    requires
        0 <= p <= s.len(),
        forall|k: int| 0 <= k < p ==> !(x < #[trigger] s[k]),
        p == s.len() || x < s[p],
    ensures
        frame_insertion_point(s, x) == p,
    decreases p,
{
    if p > 0 {
        assert forall|k: int| 0 <= k < p - 1 implies !(x < #[trigger] s.drop_first()[k]) by {
            assert(s.drop_first()[k] == s[k + 1]);
        }
        lemma_frame_insertion_point_at(s.drop_first(), x, p - 1);
    }
}

/// The frames in increasing order.
fn sorted_frames(frames: &Vec<usize>) -> (r: Vec<usize>)
    ensures
        r@ == sort_frames(frames@),
{
    let n = frames.len();
    let mut sorted: Vec<usize> = Vec::new();
    let mut k: usize = 0;
    while k < n
        invariant
            k <= n == frames@.len(),
            sorted@ == sort_frames(frames@.take(k as int)),
        decreases n - k,
    {
        let x = frames[k];
        let m = sorted.len();
        let mut p: usize = 0;
        while p < m && !(x < sorted[p])
            invariant
                p <= m == sorted@.len(),
                forall|j: int| 0 <= j < p ==> !(x < #[trigger] sorted@[j]),
            decreases m - p,
        {
            p = p + 1;
        }
        proof {
            lemma_frame_insertion_point_at(sorted@, x, p as int);
            lemma_insert_frame(sorted@, x);
            assert(frames@.take(k + 1).drop_last() =~= frames@.take(k as int));
            assert(frames@.take(k + 1).last() == x);
        }
        sorted.insert(p, x);
        k = k + 1;
    }
    assert(frames@.take(n as int) =~= frames@);
    sorted
}

/// The camera support of a region: its reference frame and its source frames in
/// increasing order.
pub open spec fn support_key(region: SurfaceEvidenceRegion) -> (usize, Seq<usize>) {
    (region.reference_frame->0, sort_frames(region.source_frames@))
}

/// The camera supports of the regions with a reference frame, each once, in the order
/// in which they first occur.
pub open spec fn support_keys(regions: Seq<SurfaceEvidenceRegion>) -> Seq<(usize, Seq<usize>)>
    decreases regions.len(),
{
    if regions.len() == 0 {
        Seq::empty()
    } else {
        let keys = support_keys(regions.drop_last());
        let r = regions.last();
        if r.reference_frame is Some && !keys.contains(support_key(r)) {
            keys.push(support_key(r))
        } else {
            keys
        }
    }
}

/// The position of the first occurrence of `k` in `keys`.
pub open spec fn key_index(keys: Seq<(usize, Seq<usize>)>, k: (usize, Seq<usize>)) -> nat
    decreases keys.len(),
{
    if keys.len() == 0 || keys[0] == k {
        0
    } else {
        1 + key_index(keys.drop_first(), k)
    }
}

/// The support group of each of `point_count` points: regions with a reference frame
/// and a range within the points mark their range with their group, later regions over
/// earlier ones.
pub open spec fn support_membership(regions: Seq<SurfaceEvidenceRegion>, point_count: nat) -> Seq<Option<usize>>
    decreases regions.len(),
{
    if regions.len() == 0 {
        Seq::new(point_count, |p: int| None::<usize>)
    } else {
        let m = support_membership(regions.drop_last(), point_count);
        let r = regions.last();
        let start = r.points.start as int;
        let end = r.points.start + r.points.count;
        if r.reference_frame is Some && end <= point_count {
            let g = key_index(support_keys(regions), support_key(r)) as usize;
            Seq::new(point_count, |p: int| if start <= p < end { Some(g) } else { m[p] })
        } else {
            m
        }
    }
}

proof fn lemma_support_membership_len(regions: Seq<SurfaceEvidenceRegion>, point_count: nat)
    ensures
        support_membership(regions, point_count).len() == point_count,
    decreases regions.len(),
{
    if regions.len() > 0 {
        lemma_support_membership_len(regions.drop_last(), point_count);
    }
}

proof fn lemma_key_index_found(keys: Seq<(usize, Seq<usize>)>, k: (usize, Seq<usize>), i: int)
    requires
        0 <= i < keys.len(),
        keys[i] == k,
        forall|j: int| 0 <= j < i ==> keys[j] != k,
    ensures
        key_index(keys, k) == i,
    decreases i,
{
    if i > 0 {
        lemma_key_index_found(keys.drop_first(), k, i - 1);
    }
}

fn keys_equal(a: &(usize, Vec<usize>), b: &(usize, Vec<usize>)) -> (r: bool)
    ensures
        r == ((a.0, a.1@) == (b.0, b.1@)),
{
    if a.0 != b.0 || a.1.len() != b.1.len() {
        assert(a.1@.len() != b.1@.len() ==> a.1@ != b.1@);
        return false;
    }
    let n = a.1.len();
    let mut i: usize = 0;
    while i < n
        invariant
            i <= n == a.1@.len() == b.1@.len(),
            forall|j: int| 0 <= j < i ==> a.1@[j] == b.1@[j],
        decreases n - i,
    {
        if a.1[i] != b.1[i] {
            return false;
        }
        i = i + 1;
    }
    assert(a.1@ =~= b.1@);
    true
}

/// Groups the surface-evidence regions by camera support: regions with the same
/// reference frame and the same source frames, in any order, form one group, numbered in
/// the order in which groups first occur. Returns the group of each of `point_count`
/// points (none where no region with a reference frame covers it; a later region wins)
/// and the number of groups.
pub fn evidence_support_membership(regions: &Vec<SurfaceEvidenceRegion>, point_count: usize) -> (r: (
    Vec<Option<usize>>,
    usize,
))
    ensures
        r.0@ == support_membership(regions@, point_count as nat),
        r.1 == support_keys(regions@).len(),
{
    let mut membership: Vec<Option<usize>> = Vec::new();
    let mut p: usize = 0;
    while p < point_count
        invariant
            p <= point_count,
            membership@ == Seq::new(p as nat, |q: int| None::<usize>),
        decreases point_count - p,
    {
        membership.push(None);
        p = p + 1;
        assert(membership@ =~= Seq::new(p as nat, |q: int| None::<usize>));
    }
    let mut keys: Vec<(usize, Vec<usize>)> = Vec::new();
    let n = regions.len();
    let mut i: usize = 0;
    assert(regions@.take(0) =~= Seq::<SurfaceEvidenceRegion>::empty());
    while i < n
        invariant
            i <= n == regions@.len(),
            membership@ == support_membership(regions@.take(i as int), point_count as nat),
            keys@.map_values(|k: (usize, Vec<usize>)| (k.0, k.1@)) == support_keys(regions@.take(i as int)),
        decreases n - i,
    {
        let region = &regions[i];
        let ghost prefix = regions@.take(i + 1);
        proof {
            assert(prefix.drop_last() =~= regions@.take(i as int));
            assert(prefix.last() == regions@[i as int]);
            lemma_support_membership_len(regions@.take(i as int), point_count as nat);
        }
        if let Some(reference_frame) = region.reference_frame {
            let key = (reference_frame, sorted_frames(&region.source_frames));
            let ghost kv = support_key(*region);
            assert((key.0, key.1@) == kv);
            let ghost old_keys = keys@.map_values(|k: (usize, Vec<usize>)| (k.0, k.1@));
            let nk = keys.len();
            let mut g: usize = 0;
            while g < nk && !keys_equal(&keys[g], &key)
                invariant
                    g <= nk == keys@.len(),
                    old_keys == keys@.map_values(|k: (usize, Vec<usize>)| (k.0, k.1@)),
                    (key.0, key.1@) == kv,
                    forall|j: int| 0 <= j < g ==> old_keys[j] != kv,
                decreases nk - g,
            {
                g = g + 1;
            }
            if g == nk {
                proof {
                    assert(!old_keys.contains(kv)) by {
                        if old_keys.contains(kv) {
                            let j = choose|j: int| 0 <= j < old_keys.len() && old_keys[j] == kv;
                        }
                    }
                }
                keys.push(key);
                proof {
                    let new_keys = keys@.map_values(|k: (usize, Vec<usize>)| (k.0, k.1@));
                    assert(new_keys =~= old_keys.push(kv));
                    assert(support_keys(prefix) == old_keys.push(kv));
                    lemma_key_index_found(new_keys, kv, g as int);
                }
            } else {
                proof {
                    assert(old_keys[g as int] == kv);
                    assert(old_keys.contains(kv));
                    assert(support_keys(prefix) == old_keys);
                    lemma_key_index_found(old_keys, kv, g as int);
                }
            }
            let start = region.points.start;
            match start.checked_add(region.points.count) {
                Some(end) => {
                    if end <= point_count {
                        let ghost before = membership@;
                        let mut q: usize = start;
                        while q < end
                            invariant
                                start <= q <= end <= point_count,
                                membership@.len() == point_count,
                                forall|x: int| 0 <= x < point_count ==> #[trigger] membership@[x] == if start <= x < q {
                                    Some(g)
                                } else {
                                    before[x]
                                },
                            decreases end - q,
                        {
                            membership.set(q, Some(g));
                            q = q + 1;
                        }
                        assert(membership@ =~= support_membership(prefix, point_count as nat));
                    } else {
                        assert(membership@ == support_membership(prefix, point_count as nat));
                    }
                },
                None => {
                    assert(membership@ == support_membership(prefix, point_count as nat));
                },
            }
        } else {
            proof {
                assert(support_keys(prefix) == support_keys(regions@.take(i as int)));
                assert(support_membership(prefix, point_count as nat) == membership@);
            }
        }
        i = i + 1;
    }
    assert(regions@.take(n as int) =~= regions@);
    let count = keys.len();
    (membership, count)
}

/// Rewrites each warning that states the claim of the preview before surface fusion so
/// that it states the claim after it; other warnings stay as they are.
pub fn remove_stale_surface_fusion_claim(warnings: &mut Vec<String>)
    ensures
        final(warnings)@.len() == old(warnings)@.len(),
        forall|i: int|
            0 <= i < old(warnings)@.len() ==> (#[trigger] final(warnings)@[i])@ == if contains_seq(
                old(warnings)@[i]@,
                PRE_FUSION_WARNING_CLAIM@,
            ) {
                replace_all(old(warnings)@[i]@, PRE_FUSION_WARNING_CLAIM@, POST_FUSION_WARNING_CLAIM@)
            } else {
                old(warnings)@[i]@
            },
{
    let ghost start = warnings@;
    let pre = chars_of(PRE_FUSION_WARNING_CLAIM);
    let post = chars_of(POST_FUSION_WARNING_CLAIM);
    proof {
        reveal_strlit(
            "texture projection, arbitrary multi-reference surface fusion, and metric scale are not claimed yet.",
        );
        assert(PRE_FUSION_WARNING_CLAIM@.len() > 0);
    }
    let n = warnings.len();
    let mut i: usize = 0;
    while i < n
        invariant
            i <= n == warnings@.len() == start.len(),
            pre@ == PRE_FUSION_WARNING_CLAIM@,
            post@ == POST_FUSION_WARNING_CLAIM@,
            pre@.len() > 0,
            forall|j: int| i <= j < n ==> #[trigger] warnings@[j] == start[j],
            forall|j: int|
                0 <= j < i ==> (#[trigger] warnings@[j])@ == if contains_seq(start[j]@, PRE_FUSION_WARNING_CLAIM@) {
                    replace_all(start[j]@, PRE_FUSION_WARNING_CLAIM@, POST_FUSION_WARNING_CLAIM@)
                } else {
                    start[j]@
                },
        decreases n - i,
    {
        let text = chars_of(warnings[i].as_str());
        if contains_chars(text.as_slice(), pre.as_slice()) {
            let replaced = replace_chars(text.as_slice(), pre.as_slice(), post.as_slice());
            warnings.set(i, string_from_chars(replaced.as_slice()));
        }
        i = i + 1;
    }
}

proof fn lemma_key_index_bound(keys: Seq<(usize, Seq<usize>)>, k: (usize, Seq<usize>))
    requires
        keys.contains(k),
    ensures
        key_index(keys, k) < keys.len(),
    decreases keys.len(),
{
    if keys[0] != k {
        let j = choose|j: int| 0 <= j < keys.len() && keys[j] == k;
        assert(keys.drop_first()[j - 1] == k);
        lemma_key_index_bound(keys.drop_first(), k);
    }
}

proof fn lemma_support_keys_grow(regions: Seq<SurfaceEvidenceRegion>)
    requires
        regions.len() > 0,
    ensures
        support_keys(regions.drop_last()).len() <= support_keys(regions).len(),
        regions.last().reference_frame is Some ==> support_keys(regions).contains(support_key(regions.last())),
{
    let keys = support_keys(regions.drop_last());
    let r = regions.last();
    if r.reference_frame is Some && !keys.contains(support_key(r)) {
        assert(support_keys(regions)[keys.len() as int] == support_key(r));
    }
}

/// Every point's support group is one of the groups counted: the groups that
/// `evidence_support_membership` assigns are all below the number it returns.
pub proof fn lemma_support_groups_counted(regions: Seq<SurfaceEvidenceRegion>, point_count: nat)
    ensures
        forall|p: int|
            0 <= p < point_count ==> (#[trigger] support_membership(regions, point_count)[p] matches Some(g) ==> g
                < support_keys(regions).len()),
    decreases regions.len(),
{
    lemma_support_membership_len(regions, point_count);
    if regions.len() > 0 {
        lemma_support_groups_counted(regions.drop_last(), point_count);
        lemma_support_keys_grow(regions);
        let r = regions.last();
        let end = r.points.start + r.points.count;
        if r.reference_frame is Some && end <= point_count {
            lemma_key_index_bound(support_keys(regions), support_key(r));
        }
    }
}

/// The support group of region `i`: the position of its camera support among the
/// supports met up to and including it.
pub open spec fn region_group(regions: Seq<SurfaceEvidenceRegion>, i: int) -> nat {
    key_index(support_keys(regions.take(i + 1)), support_key(regions[i]))
}

proof fn lemma_support_keys_prefix(regions: Seq<SurfaceEvidenceRegion>, m: int)
    requires
        0 <= m <= regions.len(),
    ensures
        support_keys(regions.take(m)).len() <= support_keys(regions).len(),
        support_keys(regions).take(support_keys(regions.take(m)).len() as int) == support_keys(regions.take(m)),
    decreases regions.len() - m,
{
    if m < regions.len() {
        lemma_support_keys_prefix(regions, m + 1);
        let next = regions.take(m + 1);
        assert(next.drop_last() =~= regions.take(m));
        let a = support_keys(regions.take(m));
        let b = support_keys(next);
        assert(b == a || b == a.push(support_key(next.last())));
        let all = support_keys(regions);
        assert(all.take(a.len() as int) =~= all.take(b.len() as int).take(a.len() as int));
        assert(b.take(a.len() as int) =~= a);
    } else {
        assert(regions.take(m) =~= regions);
        assert(support_keys(regions).take(support_keys(regions).len() as int) =~= support_keys(regions));
    }
}

proof fn lemma_key_index_prefix(keys: Seq<(usize, Seq<usize>)>, n: int, k: (usize, Seq<usize>))
    requires
        0 <= n <= keys.len(),
        keys.take(n).contains(k),
    ensures
        key_index(keys, k) == key_index(keys.take(n), k),
    decreases n,
{
    if keys[0] != k {
        let j = choose|j: int| 0 <= j < n && keys.take(n)[j] == k;
        assert(j > 0);
        assert(keys.drop_first().take(n - 1) =~= keys.take(n).drop_first());
        assert(keys.drop_first().take(n - 1)[j - 1] == k);
        lemma_key_index_prefix(keys.drop_first(), n - 1, k);
    } else {
        assert(keys.take(n)[0] == k);
    }
}

/// Regions with the same camera support join the same support group, wherever they
/// stand among the regions.
pub proof fn lemma_same_support_same_group(regions: Seq<SurfaceEvidenceRegion>, i: int, j: int)
    requires
        0 <= i < regions.len(),
        0 <= j < regions.len(),
        regions[i].reference_frame is Some,
        regions[j].reference_frame is Some,
        support_key(regions[i]) == support_key(regions[j]),
    ensures
        region_group(regions, i) == region_group(regions, j),
{
    let all = support_keys(regions);
    let k = support_key(regions[i]);
    assert forall|t: int| 0 <= t < regions.len() && regions[t].reference_frame is Some && support_key(regions[t]) == k
        implies #[trigger] region_group(regions, t) == key_index(all, k) by {
        let prefix = regions.take(t + 1);
        assert(prefix.last() == regions[t]);
        lemma_support_keys_grow(prefix);
        lemma_support_keys_prefix(regions, t + 1);
        let keys = support_keys(prefix);
        assert(all.take(keys.len() as int) == keys);
        lemma_key_index_prefix(all, keys.len() as int, k);
    }
}

/// Each frame is at most the next.
pub open spec fn frames_sorted(s: Seq<usize>) -> bool {
    forall|i: int, j: int| 0 <= i < j < s.len() ==> s[i] <= s[j]
}

proof fn lemma_frame_insertion_prefix(s: Seq<usize>, x: usize)
    ensures
        forall|k: int| 0 <= k < frame_insertion_point(s, x) ==> !(x < #[trigger] s[k]),
        frame_insertion_point(s, x) < s.len() ==> x < s[frame_insertion_point(s, x) as int],
    decreases s.len(),
{
    lemma_insert_frame(s, x);
    if s.len() > 0 && !(x < s[0]) {
        lemma_frame_insertion_prefix(s.drop_first(), x);
        assert forall|k: int| 0 <= k < frame_insertion_point(s, x) implies !(x < #[trigger] s[k]) by {
            if k > 0 {
                assert(s[k] == s.drop_first()[k - 1]);
            }
        }
    }
}

proof fn lemma_sort_frames_sorted(s: Seq<usize>)
    ensures
        frames_sorted(sort_frames(s)),
        sort_frames(s).to_multiset() == s.to_multiset(),
    decreases s.len(),
{
    broadcast use vstd::seq_lib::group_to_multiset_ensures;
    broadcast use vstd::multiset::group_multiset_axioms;

    if s.len() > 0 {
        let rest = s.drop_last();
        let x = s.last();
        lemma_sort_frames_sorted(rest);
        let t = sort_frames(rest);
        lemma_insert_frame(t, x);
        lemma_frame_insertion_prefix(t, x);
        let p = frame_insertion_point(t, x) as int;
        let u = t.insert(p, x);
        assert(sort_frames(s) == u);
        assert forall|i: int, j: int| 0 <= i < j < u.len() implies u[i] <= u[j] by {
            if j < p {
                assert(u[i] == t[i] && u[j] == t[j]);
            } else if j == p {
                assert(u[i] == t[i]);
            } else if i > p {
                assert(u[i] == t[i - 1] && u[j] == t[j - 1]);
            } else if i == p {
                assert(u[j] == t[j - 1]);
                assert(t[p] <= t[j - 1]);
            } else {
                assert(u[i] == t[i] && u[j] == t[j - 1]);
            }
        }
        assert(u.remove(p) =~= t);
        assert(u[p] == x);
        assert(t.to_multiset() == u.to_multiset().remove(x));
        assert(u.to_multiset().count(x) > 0) by {
            assert(u.contains(x));
        }
        assert(u.to_multiset() =~= t.to_multiset().insert(x));
        assert(s =~= rest.push(x));
    }
}

/// Regions whose source frames are the same frames in another order have the same
/// camera support, and so join the same support group.
pub proof fn lemma_support_key_ignores_frame_order(a: SurfaceEvidenceRegion, b: SurfaceEvidenceRegion)
    requires
        a.reference_frame == b.reference_frame,
        a.reference_frame is Some,
        a.source_frames@.to_multiset() == b.source_frames@.to_multiset(),
    ensures
        support_key(a) == support_key(b),
{
    let leq = |x: usize, y: usize| x <= y;
    lemma_sort_frames_sorted(a.source_frames@);
    lemma_sort_frames_sorted(b.source_frames@);
    let sa = sort_frames(a.source_frames@);
    let sb = sort_frames(b.source_frames@);
    assert(vstd::relations::sorted_by(sa, leq));
    assert(vstd::relations::sorted_by(sb, leq));
    assert(vstd::relations::total_ordering(leq));
    vstd::seq_lib::lemma_sorted_unique(sa, sb, leq);
}

/// The counts of a surface-fusion pass.
#[derive(Clone, Copy, Debug, PartialEq, Eq, Structural)]
pub struct FusionStats {
    pub eligible_vertices: usize,
    pub candidate_pairs: usize,
    pub rejected_normal_pairs: usize,
    pub rejected_topology_pairs: usize,
    pub fused_pairs: usize,
}

/// The diagnostic that a surface-fusion pass over `group_count` support groups adds to
/// the warnings: what it aligned, or why it kept the groups apart.
pub open spec fn fusion_diagnostic_text(stats: FusionStats, group_count: nat) -> Seq<char> {
    if stats.fused_pairs > 0 {
        "Cross-reference surface fusion aligned "@ + decimal(stats.fused_pairs as nat)
            + " mutually nearest seam vertex pairs across "@ + decimal(group_count)
            + " validated camera-support groups ("@ + decimal(stats.candidate_pairs as nat)
            + " bounded cross-group candidates considered; "@ + decimal(stats.rejected_normal_pairs as nat)
            + " rejected for surface-normal disagreement and "@ + decimal(stats.rejected_topology_pairs as nat)
            + " because the complete proposed seam move set would weaken accepted triangle topology). No vertices or triangles were fabricated."@
    } else {
        "Cross-reference surface fusion kept "@ + decimal(group_count)
            + " validated camera-support groups separate: "@ + decimal(stats.eligible_vertices as nat)
            + " mesh vertices were eligible and "@ + decimal(stats.candidate_pairs as nat)
            + " bounded cross-group candidates were considered, but none passed the mutual-nearest, aligned-normal, and topology-preservation gates. No unsupported holes were closed."@
    }
}

/// The diagnostic of a surface-fusion pass; see `fusion_diagnostic_text`.
pub fn fusion_diagnostic(stats: FusionStats, group_count: usize) -> (r: String)
    ensures
        r@ == fusion_diagnostic_text(stats, group_count as nat),
{
    let mut out: Vec<char> = Vec::new();
    if stats.fused_pairs > 0 {
        push_str(&mut out, "Cross-reference surface fusion aligned ");
        push_decimal(&mut out, stats.fused_pairs);
        push_str(&mut out, " mutually nearest seam vertex pairs across ");
        push_decimal(&mut out, group_count);
        push_str(&mut out, " validated camera-support groups (");
        push_decimal(&mut out, stats.candidate_pairs);
        push_str(&mut out, " bounded cross-group candidates considered; ");
        push_decimal(&mut out, stats.rejected_normal_pairs);
        push_str(&mut out, " rejected for surface-normal disagreement and ");
        push_decimal(&mut out, stats.rejected_topology_pairs);
        push_str(
            &mut out,
            " because the complete proposed seam move set would weaken accepted triangle topology). No vertices or triangles were fabricated.",
        );
    } else {
        push_str(&mut out, "Cross-reference surface fusion kept ");
        push_decimal(&mut out, group_count);
        push_str(&mut out, " validated camera-support groups separate: ");
        push_decimal(&mut out, stats.eligible_vertices);
        push_str(&mut out, " mesh vertices were eligible and ");
        push_decimal(&mut out, stats.candidate_pairs);
        push_str(
            &mut out,
            " bounded cross-group candidates were considered, but none passed the mutual-nearest, aligned-normal, and topology-preservation gates. No unsupported holes were closed.",
        );
    }
    string_from_chars(out.as_slice())
}

/// Records a surface-fusion pass in the warnings: where it aligned vertices, the
/// preview claim is brought up to date; then its diagnostic is appended.
pub fn record_surface_fusion(warnings: &mut Vec<String>, stats: FusionStats, group_count: usize)
    ensures
        final(warnings)@.len() == old(warnings)@.len() + 1,
        final(warnings)@.last()@ == fusion_diagnostic_text(stats, group_count as nat),
        forall|i: int|
            0 <= i < old(warnings)@.len() ==> (#[trigger] final(warnings)@[i])@ == if stats.fused_pairs > 0
                && contains_seq(old(warnings)@[i]@, PRE_FUSION_WARNING_CLAIM@) {
                replace_all(old(warnings)@[i]@, PRE_FUSION_WARNING_CLAIM@, POST_FUSION_WARNING_CLAIM@)
            } else {
                old(warnings)@[i]@
            },
{
    if stats.fused_pairs > 0 {
        remove_stale_surface_fusion_claim(warnings);
    }
    let ghost before = warnings@;
    warnings.push(fusion_diagnostic(stats, group_count));
    assert forall|i: int| 0 <= i < before.len() implies warnings@[i] == before[i] by {}
}

} // verus!
