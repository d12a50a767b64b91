//! The per-frame camera state that the browser shows, and the invariants that tie it to
//! the reconstruction it describes.
//!
//! The state is computed from the integer facts of a reconstruction: which frames form
//! the calibrated seed pair, which were registered, which were candidates, and how the
//! dense stage used them. Camera positions are carried by index into the
//! reconstruction's camera list.

use crate::text::{
    chars_of, contains_chars, contains_seq, decimal, push_decimal, push_str, string_from_chars,
};
use crate::sorted::contains_index;
use crate::tracks::RegistrationCandidateStats;
use vstd::prelude::*;

verus! {

/// Message part that a dense stage skipped for want of registered cameras reports.
pub const FEWER_THAN_TWO_REGISTERED_CAMERAS: &'static str =
    "fewer than two accepted registered cameras are available";

/// What kind of camera a frame has.
#[derive(Clone, Copy, Debug, PartialEq, Eq, Structural)]
pub enum CameraKind {
    /// No camera: neither accepted nor approximated.
    Absent,
    ApproximateMotion,
    Seed,
    Registered,
}

/// Why a frame has, or lacks, a registered camera.
#[derive(Clone, Copy, Debug, PartialEq, Eq, Structural)]
pub enum RegistrationStatus {
    Seed,
    Registered,
    InsufficientCorrespondences,
    PnpRejected,
    LowParallax,
    NotSelected,
}

/// The outcome of bundle adjustment.
#[derive(Clone, Copy, Debug, PartialEq, Eq, Structural)]
pub enum BundleAdjustmentStatus {
    NotRun,
    Accepted,
    Rejected,
}

/// The part a camera plays in dense reconstruction.
#[derive(Clone, Copy, Debug, PartialEq, Eq, Structural)]
pub enum DenseCameraRole {
    Reference,
    Source,
}

/// The calibrated seed pair: its frames and match counts.
#[derive(Clone, Copy, Debug)]
pub struct SeedPairFacts {
    pub from_frame: usize,
    pub to_frame: usize,
    pub matches: usize,
    pub inliers: usize,
}

/// A registered view: its frame and registration counts.
#[derive(Clone, Copy, Debug)]
pub struct RegisteredViewFacts {
    pub frame_index: usize,
    pub correspondences: usize,
    pub inliers: usize,
    pub recovered_from_revisit: bool,
}

/// A revisit recovery attempt: its frame, counts and whether it measured a median
/// reprojection error.
#[derive(Clone, Copy, Debug)]
pub struct RevisitRecoveryFacts {
    pub frame_index: usize,
    pub correspondences: usize,
    pub inliers: usize,
    pub has_median_error: bool,
}

/// An adjacent frame pair and whether it lacked parallax.
#[derive(Clone, Copy, Debug)]
pub struct PairFacts {
    pub from_frame: usize,
    pub to_frame: usize,
    pub low_parallax: bool,
}

/// What the dense stage did.
#[derive(Clone, Debug)]
pub struct DenseFacts {
    pub attempted: bool,
    pub skip_reason: Option<String>,
    pub reference_frame: Option<usize>,
    pub source_views: usize,
    pub source_frames: Vec<usize>,
}

/// The integer facts of a reconstruction that its camera state depends on.
#[derive(Clone, Debug)]
pub struct ReconstructionFacts {
    pub calibrated_pair: Option<SeedPairFacts>,
    /// The frame of each camera of the reconstruction, in its order.
    pub camera_frames: Vec<usize>,
    pub registered_views: Vec<RegisteredViewFacts>,
    pub registration_candidates: Vec<RegistrationCandidateStats>,
    pub recoveries: Vec<RevisitRecoveryFacts>,
    pub pairs: Vec<PairFacts>,
    pub dense: DenseFacts,
    pub bundle_adjustment_attempted: bool,
    pub bundle_adjustment_accepted: bool,
}

/// Which camera of the reconstruction each list of the state holds, by index.
#[derive(Clone, Debug)]
pub struct CameraPartition {
    pub approximate_motion: Vec<usize>,
    pub calibrated_seed: Vec<usize>,
    pub registered: Vec<usize>,
    pub dense_eligible: Vec<usize>,
}

/// Where a frame's median reprojection error comes from.
#[derive(Clone, Copy, Debug, PartialEq, Eq, Structural)]
pub enum MedianErrorSource {
    /// The registered view at this index.
    RegisteredView(usize),
    /// The revisit recovery at this index.
    RevisitRecovery(usize),
    /// The calibrated seed pair.
    SeedPair,
    /// No measurement.
    Unavailable,
}

/// The state of one frame.
#[derive(Clone, Debug)]
pub struct FrameCameraStatus {
    pub frame_index: usize,
    pub camera_kind: CameraKind,
    pub registration_status: RegistrationStatus,
    pub correspondences: usize,
    pub inliers: usize,
    pub median_error_source: MedianErrorSource,
    pub recovered_from_revisit: bool,
    pub bundle_adjustment: BundleAdjustmentStatus,
    pub dense_role: Option<DenseCameraRole>,
    pub dense_ineligibility_reason: Option<String>,
}

/// Whether `f` is a frame of the calibrated seed pair.
pub open spec fn is_seed_frame(pair: Option<SeedPairFacts>, f: usize) -> bool {
    match pair {
        Some(p) => f == p.from_frame || f == p.to_frame,
        None => false,
    }
}

/// The camera indices, in order, that each list of the state holds.
pub open spec fn partition_of(facts: ReconstructionFacts) -> (Seq<int>, Seq<int>, Seq<int>) {
    let n = facts.camera_frames@.len() as int;
    let all = Seq::new(n as nat, |i: int| i);
    if facts.calibrated_pair is None {
        (all, Seq::empty(), Seq::empty())
    } else {
        (
            Seq::empty(),
            all.filter(|i: int| is_seed_frame(facts.calibrated_pair, facts.camera_frames@[i])),
            all.filter(|i: int| !is_seed_frame(facts.calibrated_pair, facts.camera_frames@[i])),
        )
    }
}

/// Whether the dense stage used frame `f` as reference or source.
pub open spec fn dense_uses_frame(dense: DenseFacts, f: usize) -> bool {
    dense.reference_frame == Some(f) || dense.source_frames@.contains(f)
}

/// The indices of `camera_frames` listed in `indices` whose frame the dense stage used.
pub open spec fn dense_eligible_of(facts: ReconstructionFacts, indices: Seq<int>) -> Seq<int> {
    indices.filter(|i: int| dense_uses_frame(facts.dense, facts.camera_frames@[i]))
}

fn seed_frame(pair: Option<SeedPairFacts>, f: usize) -> (r: bool)
    ensures
        r == is_seed_frame(pair, f),
{
    match pair {
        Some(p) => f == p.from_frame || f == p.to_frame,
        None => false,
    }
}

fn dense_uses(dense: &DenseFacts, f: usize) -> (r: bool)
    ensures
        r == dense_uses_frame(*dense, f),
{
    dense.reference_frame == Some(f) || contains_index(&dense.source_frames, f)
}

/// Views a list of indices as integers.
pub open spec fn as_ints(v: Seq<usize>) -> Seq<int> {
    v.map_values(|x: usize| x as int)
}

/// The indices `0..n` that satisfy `keep`, as integers.
proof fn lemma_filter_push(s: Seq<int>, x: int, keep: spec_fn(int) -> bool)
    ensures
        s.push(x).filter(keep) == if keep(x) {
            s.filter(keep).push(x)
        } else {
            s.filter(keep)
        },
{
    reveal(Seq::filter);
    assert(s.push(x).drop_last() =~= s);
}

/// Splits the reconstruction's cameras into the lists of the camera state. Without a
/// calibrated seed pair every camera is an approximate motion sample and no camera is
/// accepted; with one, no camera is an approximate sample and each camera is either a
/// seed camera or a registered one.
pub fn partition_cameras(facts: &ReconstructionFacts) -> (r: CameraPartition)
    ensures
        as_ints(r.approximate_motion@) == partition_of(*facts).0,
        as_ints(r.calibrated_seed@) == partition_of(*facts).1,
        as_ints(r.registered@) == partition_of(*facts).2,
        as_ints(r.dense_eligible@) == dense_eligible_of(*facts, partition_of(*facts).1)
            + dense_eligible_of(*facts, partition_of(*facts).2),
{
    let n = facts.camera_frames.len();
    let calibrated = facts.calibrated_pair.is_some();
    let ghost keep_seed = |i: int| is_seed_frame(facts.calibrated_pair, facts.camera_frames@[i]);
    let ghost keep_reg = |i: int| !is_seed_frame(facts.calibrated_pair, facts.camera_frames@[i]);
    let ghost keep_dense = |i: int| dense_uses_frame(facts.dense, facts.camera_frames@[i]);
    let mut approximate: Vec<usize> = Vec::new();
    let mut seed: Vec<usize> = Vec::new();
    let mut registered: Vec<usize> = Vec::new();
    let mut seed_dense: Vec<usize> = Vec::new();
    let mut registered_dense: Vec<usize> = Vec::new();
    let mut i: usize = 0;
    while i < n
        invariant
            i <= n == facts.camera_frames@.len(),
            calibrated == facts.calibrated_pair is Some,
            keep_seed == (|i: int| is_seed_frame(facts.calibrated_pair, facts.camera_frames@[i])),
            keep_reg == (|i: int| !is_seed_frame(facts.calibrated_pair, facts.camera_frames@[i])),
            keep_dense == (|i: int| dense_uses_frame(facts.dense, facts.camera_frames@[i])),
            as_ints(approximate@) == if calibrated {
                Seq::<int>::empty()
            } else {
                Seq::new(i as nat, |k: int| k)
            },
            as_ints(seed@) == if calibrated {
                Seq::new(i as nat, |k: int| k).filter(keep_seed)
            } else {
                Seq::<int>::empty()
            },
            as_ints(registered@) == if calibrated {
                Seq::new(i as nat, |k: int| k).filter(keep_reg)
            } else {
                Seq::<int>::empty()
            },
            as_ints(seed_dense@) == as_ints(seed@).filter(keep_dense),
            as_ints(registered_dense@) == as_ints(registered@).filter(keep_dense),
        decreases n - i,
    {
        let f = facts.camera_frames[i];
        let ghost prefix = Seq::new(i as nat, |k: int| k);
        assert(Seq::new((i + 1) as nat, |k: int| k) =~= prefix.push(i as int));
        proof {
            lemma_filter_push(prefix, i as int, keep_seed);
            lemma_filter_push(prefix, i as int, keep_reg);
            lemma_filter_push(as_ints(seed@), i as int, keep_dense);
            lemma_filter_push(as_ints(registered@), i as int, keep_dense);
        }
        if !calibrated {
            approximate.push(i);
            assert(as_ints(approximate@) =~= Seq::new((i + 1) as nat, |k: int| k));
        } else if seed_frame(facts.calibrated_pair, f) {
            let ghost old_seed = seed@;
            seed.push(i);
            assert(as_ints(seed@) =~= as_ints(old_seed).push(i as int));
            if dense_uses(&facts.dense, f) {
                let ghost old = seed_dense@;
                seed_dense.push(i);
                assert(as_ints(seed_dense@) =~= as_ints(old).push(i as int));
            }
        } else {
            let ghost old_reg = registered@;
            registered.push(i);
            assert(as_ints(registered@) =~= as_ints(old_reg).push(i as int));
            if dense_uses(&facts.dense, f) {
                let ghost old = registered_dense@;
                registered_dense.push(i);
                assert(as_ints(registered_dense@) =~= as_ints(old).push(i as int));
            }
        }
        i = i + 1;
    }
    let ghost sd = seed_dense@;
    let ghost rd = registered_dense@;
    seed_dense.append(&mut registered_dense);
    proof {
        assert(as_ints(seed_dense@) =~= as_ints(sd) + as_ints(rd));
        if !calibrated {
            assert(as_ints(seed@).filter(keep_dense) =~= Seq::<int>::empty());
            assert(as_ints(registered@).filter(keep_dense) =~= Seq::<int>::empty());
        }
    }
    CameraPartition {
        approximate_motion: approximate,
        calibrated_seed: seed,
        registered,
        dense_eligible: seed_dense,
    }
}

/// The first registered view of frame `f` at or after `k`.
pub open spec fn view_of(views: Seq<RegisteredViewFacts>, f: usize, k: nat) -> Option<nat>
    decreases views.len() - k,
{
    if k >= views.len() {
        None
    } else if views[k as int].frame_index == f {
        Some(k)
    } else {
        view_of(views, f, k + 1)
    }
}

/// The first registration candidate of frame `f` at or after `k`.
pub open spec fn candidate_of(candidates: Seq<RegistrationCandidateStats>, f: usize, k: nat) -> Option<
    nat,
>
    decreases candidates.len() - k,
{
    if k >= candidates.len() {
        None
    } else if candidates[k as int].frame_index == f {
        Some(k)
    } else {
        candidate_of(candidates, f, k + 1)
    }
}

/// The first revisit recovery of frame `f` at or after `k`.
pub open spec fn recovery_of(recoveries: Seq<RevisitRecoveryFacts>, f: usize, k: nat) -> Option<nat>
    decreases recoveries.len() - k,
{
    if k >= recoveries.len() {
        None
    } else if recoveries[k as int].frame_index == f {
        Some(k)
    } else {
        recovery_of(recoveries, f, k + 1)
    }
}

/// Whether pair `p` joins frame `f` to its neighbour.
pub open spec fn pair_touches(p: PairFacts, f: usize) -> bool {
    p.from_frame == f || p.to_frame == f
}

/// A frame lacks parallax when it belongs to at least one pair and every pair it belongs
/// to lacks parallax.
pub open spec fn frame_low_parallax(pairs: Seq<PairFacts>, f: usize) -> bool {
    &&& exists|i: int| 0 <= i < pairs.len() && pair_touches(#[trigger] pairs[i], f)
    &&& forall|i: int| 0 <= i < pairs.len() && pair_touches(#[trigger] pairs[i], f) ==> pairs[i].low_parallax
}

/// The camera kind of frame `f`: the seed frames are seed cameras; with a calibrated
/// pair every other frame with a camera is registered; without one a frame with a
/// camera only has an approximate motion sample.
pub open spec fn kind_of(facts: ReconstructionFacts, f: usize) -> CameraKind {
    if is_seed_frame(facts.calibrated_pair, f) {
        CameraKind::Seed
    } else if facts.camera_frames@.contains(f) {
        if facts.calibrated_pair is Some {
            CameraKind::Registered
        } else {
            CameraKind::ApproximateMotion
        }
    } else {
        CameraKind::Absent
    }
}

/// Why frame `f` has, or lacks, a registered pose.
pub open spec fn status_of(facts: ReconstructionFacts, f: usize) -> RegistrationStatus {
    if is_seed_frame(facts.calibrated_pair, f) {
        RegistrationStatus::Seed
    } else if view_of(facts.registered_views@, f, 0) is Some {
        RegistrationStatus::Registered
    } else if candidate_of(facts.registration_candidates@, f, 0) is Some {
        if facts.registration_candidates@[candidate_of(
            facts.registration_candidates@,
            f,
            0,
        )->0 as int].pnp_ready {
            RegistrationStatus::PnpRejected
        } else {
            RegistrationStatus::InsufficientCorrespondences
        }
    } else if frame_low_parallax(facts.pairs@, f) {
        RegistrationStatus::LowParallax
    } else {
        RegistrationStatus::NotSelected
    }
}

/// The correspondences of frame `f`: those of its registered view, else of its revisit
/// attempt, else its seed-landmark correspondences as a candidate, else the seed pair's
/// matches for a seed frame, else none.
pub open spec fn correspondences_of(facts: ReconstructionFacts, f: usize) -> nat {
    match view_of(facts.registered_views@, f, 0) {
        Some(v) => facts.registered_views@[v as int].correspondences as nat,
        None => match recovery_of(facts.recoveries@, f, 0) {
            Some(r) => facts.recoveries@[r as int].correspondences as nat,
            None => match candidate_of(facts.registration_candidates@, f, 0) {
                Some(c) => facts.registration_candidates@[c as int].seed_landmark_correspondences as nat,
                None => if is_seed_frame(facts.calibrated_pair, f) {
                    facts.calibrated_pair->0.matches as nat
                } else {
                    0
                },
            },
        },
    }
}

/// The inliers of frame `f`: those of its registered view, else of its revisit attempt,
/// else the seed pair's for a seed frame, else none.
pub open spec fn inliers_of(facts: ReconstructionFacts, f: usize) -> nat {
    match view_of(facts.registered_views@, f, 0) {
        Some(v) => facts.registered_views@[v as int].inliers as nat,
        None => match recovery_of(facts.recoveries@, f, 0) {
            Some(r) => facts.recoveries@[r as int].inliers as nat,
            None => if is_seed_frame(facts.calibrated_pair, f) {
                facts.calibrated_pair->0.inliers as nat
            } else {
                0
            },
        },
    }
}

/// Where the median reprojection error of frame `f` comes from.
pub open spec fn median_source_of(facts: ReconstructionFacts, f: usize) -> MedianErrorSource {
    match view_of(facts.registered_views@, f, 0) {
        Some(v) => MedianErrorSource::RegisteredView(v as usize),
        None => {
            let r = recovery_of(facts.recoveries@, f, 0);
            if r is Some && facts.recoveries@[r->0 as int].has_median_error {
                MedianErrorSource::RevisitRecovery(r->0 as usize)
            } else if is_seed_frame(facts.calibrated_pair, f) {
                MedianErrorSource::SeedPair
            } else {
                MedianErrorSource::Unavailable
            }
        },
    }
}

/// The outcome of bundle adjustment.
pub open spec fn bundle_status_of(facts: ReconstructionFacts) -> BundleAdjustmentStatus {
    if facts.bundle_adjustment_accepted {
        BundleAdjustmentStatus::Accepted
    } else if facts.bundle_adjustment_attempted {
        BundleAdjustmentStatus::Rejected
    } else {
        BundleAdjustmentStatus::NotRun
    }
}

/// The dense role of frame `f`.
pub open spec fn dense_role_of(dense: DenseFacts, f: usize) -> Option<DenseCameraRole> {
    if dense.reference_frame == Some(f) {
        Some(DenseCameraRole::Reference)
    } else if dense.source_frames@.contains(f) {
        Some(DenseCameraRole::Source)
    } else {
        None
    }
}

/// Why an accepted camera took no part in the dense stage.
pub open spec fn ineligibility_of(facts: ReconstructionFacts, f: usize) -> Option<Seq<char>> {
    let kind = kind_of(facts, f);
    if (kind == CameraKind::Seed || kind == CameraKind::Registered) && dense_role_of(facts.dense, f) is None {
        match facts.dense.skip_reason {
            Some(reason) => Some(reason@),
            None => if facts.dense.attempted {
                Some(
                    "not selected after dense baseline/overlap/visible-landmark filtering or the bounded source-view cap"@,
                )
            } else {
                None
            },
        }
    } else {
        None
    }
}

/// A frame's state as plain values.
pub open spec fn status_parts(s: FrameCameraStatus) -> (
    usize,
    CameraKind,
    RegistrationStatus,
    nat,
    nat,
    MedianErrorSource,
    bool,
    BundleAdjustmentStatus,
    Option<DenseCameraRole>,
    Option<Seq<char>>,
) {
    (
        s.frame_index,
        s.camera_kind,
        s.registration_status,
        s.correspondences as nat,
        s.inliers as nat,
        s.median_error_source,
        s.recovered_from_revisit,
        s.bundle_adjustment,
        s.dense_role,
        match s.dense_ineligibility_reason {
            Some(r) => Some(r@),
            None => None,
        },
    )
}

/// The state of frame `f`.
pub open spec fn frame_state(facts: ReconstructionFacts, f: usize) -> (
    usize,
    CameraKind,
    RegistrationStatus,
    nat,
    nat,
    MedianErrorSource,
    bool,
    BundleAdjustmentStatus,
    Option<DenseCameraRole>,
    Option<Seq<char>>,
) {
    (
        f,
        kind_of(facts, f),
        status_of(facts, f),
        correspondences_of(facts, f),
        inliers_of(facts, f),
        median_source_of(facts, f),
        match view_of(facts.registered_views@, f, 0) {
            Some(v) => facts.registered_views@[v as int].recovered_from_revisit,
            None => false,
        },
        bundle_status_of(facts),
        dense_role_of(facts.dense, f),
        ineligibility_of(facts, f),
    )
}

fn find_view(views: &Vec<RegisteredViewFacts>, f: usize) -> (r: Option<usize>)
    ensures
        r matches Some(x) ==> view_of(views@, f, 0) == Some(x as nat),
        r is None ==> view_of(views@, f, 0) is None,
        r matches Some(k) ==> k < views@.len() && views@[k as int].frame_index == f,
{
    let n = views.len();
    let mut k: usize = 0;
    while k < n
        invariant
            k <= n == views@.len(),
            view_of(views@, f, 0) == view_of(views@, f, k as nat),
        decreases n - k,
    {
        if views[k].frame_index == f {
            return Some(k);
        }
        k = k + 1;
    }
    None
}

fn find_candidate(candidates: &Vec<RegistrationCandidateStats>, f: usize) -> (r: Option<usize>)
    ensures
        r matches Some(x) ==> candidate_of(candidates@, f, 0) == Some(x as nat),
        r is None ==> candidate_of(candidates@, f, 0) is None,
        r matches Some(k) ==> k < candidates@.len() && candidates@[k as int].frame_index == f,
{
    let n = candidates.len();
    let mut k: usize = 0;
    while k < n
        invariant
            k <= n == candidates@.len(),
            candidate_of(candidates@, f, 0) == candidate_of(candidates@, f, k as nat),
        decreases n - k,
    {
        if candidates[k].frame_index == f {
            return Some(k);
        }
        k = k + 1;
    }
    None
}

fn find_recovery(recoveries: &Vec<RevisitRecoveryFacts>, f: usize) -> (r: Option<usize>)
    ensures
        r matches Some(x) ==> recovery_of(recoveries@, f, 0) == Some(x as nat),
        r is None ==> recovery_of(recoveries@, f, 0) is None,
        r matches Some(k) ==> k < recoveries@.len() && recoveries@[k as int].frame_index == f,
{
    let n = recoveries.len();
    let mut k: usize = 0;
    while k < n
        invariant
            k <= n == recoveries@.len(),
            recovery_of(recoveries@, f, 0) == recovery_of(recoveries@, f, k as nat),
        decreases n - k,
    {
        if recoveries[k].frame_index == f {
            return Some(k);
        }
        k = k + 1;
    }
    None
}

/// Whether frame `f` lacks parallax with every neighbour it has.
pub fn frame_is_low_parallax(pairs: &Vec<PairFacts>, f: usize) -> (r: bool)
    ensures
        r == frame_low_parallax(pairs@, f),
{
    let n = pairs.len();
    let mut any = false;
    let mut all = true;
    let mut k: usize = 0;
    while k < n
        invariant
            k <= n == pairs@.len(),
            any == exists|i: int| 0 <= i < k && pair_touches(#[trigger] pairs@[i], f),
            all == forall|i: int| 0 <= i < k && pair_touches(#[trigger] pairs@[i], f) ==> pairs@[i].low_parallax,
        decreases n - k,
    {
        let p = pairs[k];
        if p.from_frame == f || p.to_frame == f {
            any = true;
            if !p.low_parallax {
                all = false;
            }
        }
        k = k + 1;
    }
    any && all
}

fn copy_string(s: &String) -> (r: String)
    ensures
        r@ == s@,
{
    string_from_chars(chars_of(s.as_str()).as_slice())
}

/// The state of frame `f`.
pub fn frame_camera_state(facts: &ReconstructionFacts, f: usize) -> (r: FrameCameraStatus)
    ensures
        status_parts(r) == frame_state(*facts, f),
{
    let is_seed = seed_frame(facts.calibrated_pair, f);
    let view = find_view(&facts.registered_views, f);
    let candidate = find_candidate(&facts.registration_candidates, f);
    let recovery = find_recovery(&facts.recoveries, f);
    let has_camera = contains_index(&facts.camera_frames, f);
    let camera_kind = if is_seed {
        CameraKind::Seed
    } else if has_camera {
        if facts.calibrated_pair.is_some() {
            CameraKind::Registered
        } else {
            CameraKind::ApproximateMotion
        }
    } else {
        CameraKind::Absent
    };
    let registration_status = if is_seed {
        RegistrationStatus::Seed
    } else {
        match view {
            Some(_) => RegistrationStatus::Registered,
            None => match candidate {
                Some(c) => if facts.registration_candidates[c].pnp_ready {
                    RegistrationStatus::PnpRejected
                } else {
                    RegistrationStatus::InsufficientCorrespondences
                },
                None => if frame_is_low_parallax(&facts.pairs, f) {
                    RegistrationStatus::LowParallax
                } else {
                    RegistrationStatus::NotSelected
                },
            },
        }
    };
    let seed_matches: usize = match facts.calibrated_pair {
        Some(p) => if is_seed {
            p.matches
        } else {
            0
        },
        None => 0,
    };
    let seed_inliers: usize = match facts.calibrated_pair {
        Some(p) => if is_seed {
            p.inliers
        } else {
            0
        },
        None => 0,
    };
    let correspondences = match view {
        Some(v) => facts.registered_views[v].correspondences,
        None => match recovery {
            Some(r) => facts.recoveries[r].correspondences,
            None => match candidate {
                Some(c) => facts.registration_candidates[c].seed_landmark_correspondences,
                None => seed_matches,
            },
        },
    };
    let inliers = match view {
        Some(v) => facts.registered_views[v].inliers,
        None => match recovery {
            Some(r) => facts.recoveries[r].inliers,
            None => seed_inliers,
        },
    };
    let median_error_source = if let Some(v) = view {
        MedianErrorSource::RegisteredView(v)
    } else if recovery.is_some() && facts.recoveries[recovery.unwrap()].has_median_error {
        MedianErrorSource::RevisitRecovery(recovery.unwrap())
    } else if is_seed {
        MedianErrorSource::SeedPair
    } else {
        MedianErrorSource::Unavailable
    };
    let recovered_from_revisit = match view {
        Some(v) => facts.registered_views[v].recovered_from_revisit,
        None => false,
    };
    let bundle_adjustment = if facts.bundle_adjustment_accepted {
        BundleAdjustmentStatus::Accepted
    } else if facts.bundle_adjustment_attempted {
        BundleAdjustmentStatus::Rejected
    } else {
        BundleAdjustmentStatus::NotRun
    };
    let dense_role = if facts.dense.reference_frame == Some(f) {
        Some(DenseCameraRole::Reference)
    } else if contains_index(&facts.dense.source_frames, f) {
        Some(DenseCameraRole::Source)
    } else {
        None
    };
    let accepted = matches!(camera_kind, CameraKind::Seed | CameraKind::Registered);
    let dense_ineligibility_reason = if accepted && dense_role.is_none() {
        match &facts.dense.skip_reason {
            Some(reason) => Some(copy_string(reason)),
            None => if facts.dense.attempted {
                Some(
                    string_from_chars(
                        chars_of(
                            "not selected after dense baseline/overlap/visible-landmark filtering or the bounded source-view cap",
                        ).as_slice(),
                    ),
                )
            } else {
                None
            },
        }
    } else {
        None
    };
    FrameCameraStatus {
        frame_index: f,
        camera_kind,
        registration_status,
        correspondences,
        inliers,
        median_error_source,
        recovered_from_revisit,
        bundle_adjustment,
        dense_role,
        dense_ineligibility_reason,
    }
}

/// The state of frames `0..frame_count`, in order.
pub fn frame_camera_states(facts: &ReconstructionFacts, frame_count: usize) -> (r: Vec<
    FrameCameraStatus,
>)
    ensures
        r@.len() == frame_count,
        forall|f: int| 0 <= f < frame_count ==> status_parts(#[trigger] r@[f]) == frame_state(*facts, f as usize),
{
    let mut out: Vec<FrameCameraStatus> = Vec::new();
    let mut f: usize = 0;
    while f < frame_count
        invariant
            f <= frame_count,
            out@.len() == f,
            forall|k: int| 0 <= k < f ==> status_parts(#[trigger] out@[k]) == frame_state(*facts, k as usize),
        decreases frame_count - f,
    {
        let state = frame_camera_state(facts, f);
        out.push(state);
        f = f + 1;
    }
    out
}

/// `"camera-state invariant violated: "` followed by `tail`.
pub open spec fn violation(tail: Seq<char>) -> Seq<char> {
    "camera-state invariant violated: "@ + tail
}

/// The fault of the dense stage's camera count, if it has one.
pub open spec fn dense_count_fault(accepted: nat, dense: DenseFacts) -> Option<Seq<char>> {
    if dense.skip_reason is Some && contains_seq(
        dense.skip_reason->0@,
        FEWER_THAN_TWO_REGISTERED_CAMERAS@,
    ) && accepted >= 2 {
        Some(
            violation(
                "dense reconstruction reports fewer than two accepted registered cameras, but "@,
            ) + decimal(accepted) + " accepted seed/registered cameras are exposed"@,
        )
    } else if dense.attempted && accepted < 2 {
        Some(
            violation("dense reconstruction ran with only "@) + decimal(accepted)
                + " exposed accepted cameras"@,
        )
    } else {
        None
    }
}

/// Checks that the dense stage's report agrees with the number of accepted cameras.
pub fn validate_dense_registered_count(accepted: usize, dense: &DenseFacts) -> (r: Result<
    (),
    String,
>)
    ensures
        match dense_count_fault(accepted as nat, *dense) {
            None => r is Ok,
            Some(m) => r matches Err(e) && e@ == m,
        },
{
    let says_fewer = match &dense.skip_reason {
        Some(reason) => {
            let reason_chars = chars_of(reason.as_str());
            let needle = chars_of(FEWER_THAN_TWO_REGISTERED_CAMERAS);
            contains_chars(reason_chars.as_slice(), needle.as_slice())
        },
        None => false,
    };
    if says_fewer && accepted >= 2 {
        let mut out: Vec<char> = Vec::new();
        push_str(&mut out, "camera-state invariant violated: ");
        push_str(
            &mut out,
            "dense reconstruction reports fewer than two accepted registered cameras, but ",
        );
        push_decimal(&mut out, accepted);
        push_str(&mut out, " accepted seed/registered cameras are exposed");
        return Err(string_from_chars(out.as_slice()));
    }
    if dense.attempted && accepted < 2 {
        let mut out: Vec<char> = Vec::new();
        push_str(&mut out, "camera-state invariant violated: ");
        push_str(&mut out, "dense reconstruction ran with only ");
        push_decimal(&mut out, accepted);
        push_str(&mut out, " exposed accepted cameras");
        return Err(string_from_chars(out.as_slice()));
    }
    Ok(())
}

/// The list lengths of a camera state.
pub struct StateCounts {
    pub approximate: nat,
    pub seed: nat,
    pub registered: nat,
    pub dense_eligible: nat,
    pub frames: nat,
}

/// The first fault of a camera state against its reconstruction, if there is one.
pub open spec fn contract_fault(facts: ReconstructionFacts, c: StateCounts, frame_count: nat) -> Option<
    Seq<char>,
> {
    let accepted = c.seed + c.registered;
    let dense = facts.dense;
    if c.frames != frame_count {
        Some(violation("frame-state count does not match input frames"@))
    } else if dense_count_fault(accepted, dense) is Some {
        dense_count_fault(accepted, dense)
    } else if facts.calibrated_pair is Some && c.seed != 2 {
        Some(
            violation("calibrated geometry must expose exactly two seed cameras, got "@) + decimal(
                c.seed,
            ),
        )
    } else if facts.calibrated_pair is Some && c.approximate != 0 {
        Some(
            violation(
                "approximate motion samples cannot be exposed as accepted calibrated cameras"@,
            ),
        )
    } else if facts.calibrated_pair is Some && accepted != facts.camera_frames@.len() {
        Some(violation("accepted camera partition does not match reconstruction cameras"@))
    } else if facts.calibrated_pair is Some && c.registered != facts.registered_views@.len() {
        Some(violation("registered camera poses do not match registered-view evidence"@))
    } else if facts.calibrated_pair is None && (c.seed != 0 || c.registered != 0 || c.dense_eligible
        != 0) {
        Some(violation("uncalibrated reconstruction exposed accepted camera geometry"@))
    } else if facts.calibrated_pair is None && c.approximate != facts.camera_frames@.len() {
        Some(violation("approximate motion samples do not match the fallback camera track"@))
    } else if dense.source_frames@.len() != dense.source_views {
        Some(
            violation("dense source-frame evidence has "@) + decimal(dense.source_frames@.len())
                + " frames for "@ + decimal(dense.source_views as nat) + " source views"@,
        )
    } else if dense.attempted && dense.reference_frame is None {
        Some(violation("attempted dense reconstruction has no reference frame"@))
    } else if dense.attempted && c.dense_eligible != dense.source_views + 1 {
        Some(
            violation("dense reconstruction used "@) + decimal((dense.source_views + 1) as nat)
                + " reference/source cameras, but only "@ + decimal(c.dense_eligible)
                + " are present in accepted camera state"@,
        )
    } else if !dense.attempted && c.dense_eligible != 0 {
        Some(violation("skipped dense reconstruction exposed dense-eligible cameras"@))
    } else {
        None
    }
}

/// The lengths of the lists of a camera state with `frames` frame states.
pub open spec fn counts_of(state: CameraPartition, frames: nat) -> StateCounts {
    StateCounts {
        approximate: state.approximate_motion@.len(),
        seed: state.calibrated_seed@.len(),
        registered: state.registered@.len(),
        dense_eligible: state.dense_eligible@.len(),
        frames,
    }
}

fn violation_message(tail: &str) -> (r: String)
    ensures
        r@ == violation(tail@),
{
    let mut out: Vec<char> = Vec::new();
    push_str(&mut out, "camera-state invariant violated: ");
    push_str(&mut out, tail);
    string_from_chars(out.as_slice())
}

/// Checks a camera state against the reconstruction it describes.
pub fn validate_browser_contract(
    facts: &ReconstructionFacts,
    state: &CameraPartition,
    frame_states: usize,
    frame_count: usize,
) -> (r: Result<(), String>)
    requires
        facts.dense.source_views < usize::MAX,
        state.calibrated_seed@.len() + state.registered@.len() <= usize::MAX,
    ensures
        match contract_fault(*facts, counts_of(*state, frame_states as nat), frame_count as nat) {
            None => r is Ok,
            Some(m) => r matches Err(e) && e@ == m,
        },
{
    if frame_states != frame_count {
        return Err(violation_message("frame-state count does not match input frames"));
    }
    let seed = state.calibrated_seed.len();
    let registered = state.registered.len();
    let approximate = state.approximate_motion.len();
    let dense_eligible = state.dense_eligible.len();
    let accepted = seed + registered;
    match validate_dense_registered_count(accepted, &facts.dense) {
        Err(e) => return Err(e),
        Ok(()) => {},
    }
    if facts.calibrated_pair.is_some() {
        if seed != 2 {
            let mut out: Vec<char> = Vec::new();
            push_str(&mut out, "camera-state invariant violated: ");
            push_str(&mut out, "calibrated geometry must expose exactly two seed cameras, got ");
            push_decimal(&mut out, seed);
            return Err(string_from_chars(out.as_slice()));
        }
        if approximate != 0 {
            return Err(
                violation_message(
                    "approximate motion samples cannot be exposed as accepted calibrated cameras",
                ),
            );
        }
        if accepted != facts.camera_frames.len() {
            return Err(
                violation_message("accepted camera partition does not match reconstruction cameras"),
            );
        }
        if registered != facts.registered_views.len() {
            return Err(
                violation_message("registered camera poses do not match registered-view evidence"),
            );
        }
    } else {
        if seed != 0 || registered != 0 || dense_eligible != 0 {
            return Err(
                violation_message("uncalibrated reconstruction exposed accepted camera geometry"),
            );
        }
        if approximate != facts.camera_frames.len() {
            return Err(
                violation_message("approximate motion samples do not match the fallback camera track"),
            );
        }
    }
    let dense = &facts.dense;
    if dense.source_frames.len() != dense.source_views {
        let mut out: Vec<char> = Vec::new();
        push_str(&mut out, "camera-state invariant violated: ");
        push_str(&mut out, "dense source-frame evidence has ");
        push_decimal(&mut out, dense.source_frames.len());
        push_str(&mut out, " frames for ");
        push_decimal(&mut out, dense.source_views);
        push_str(&mut out, " source views");
        return Err(string_from_chars(out.as_slice()));
    }
    if dense.attempted {
        if dense.reference_frame.is_none() {
            return Err(violation_message("attempted dense reconstruction has no reference frame"));
        }
        let expected = dense.source_views + 1;
        if dense_eligible != expected {
            let mut out: Vec<char> = Vec::new();
            push_str(&mut out, "camera-state invariant violated: ");
            push_str(&mut out, "dense reconstruction used ");
            push_decimal(&mut out, expected);
            push_str(&mut out, " reference/source cameras, but only ");
            push_decimal(&mut out, dense_eligible);
            push_str(&mut out, " are present in accepted camera state");
            return Err(string_from_chars(out.as_slice()));
        }
    } else if dense_eligible != 0 {
        return Err(
            violation_message("skipped dense reconstruction exposed dense-eligible cameras"),
        );
    }
    Ok(())
}

proof fn lemma_filter_complement_len(s: Seq<int>, keep: spec_fn(int) -> bool, drop: spec_fn(int) -> bool)
    requires
        forall|x: int| #[trigger] drop(x) == !keep(x),
    ensures
        s.filter(keep).len() + s.filter(drop).len() == s.len(),
    decreases s.len(),
{
    reveal(Seq::filter);
    if s.len() > 0 {
        lemma_filter_complement_len(s.drop_last(), keep, drop);
    }
}

/// The camera lists never mix the fallback motion preview with accepted cameras: without
/// a calibrated pair every camera is an approximate motion sample and none is a seed,
/// registered or dense-eligible camera; with one, no camera is an approximate sample and
/// each is exactly one of seed or registered. So the camera partition always satisfies the
/// partition clauses of the browser contract.
pub proof fn lemma_partition_separates_fallback_motion(facts: ReconstructionFacts)
    ensures
        facts.calibrated_pair is None ==> {
            &&& partition_of(facts).0.len() == facts.camera_frames@.len()
            &&& partition_of(facts).1.len() == 0
            &&& partition_of(facts).2.len() == 0
            &&& dense_eligible_of(facts, partition_of(facts).1).len() + dense_eligible_of(
                facts,
                partition_of(facts).2,
            ).len() == 0
        },
        facts.calibrated_pair is Some ==> {
            &&& partition_of(facts).0.len() == 0
            &&& partition_of(facts).1.len() + partition_of(facts).2.len()
                == facts.camera_frames@.len()
        },
{
    let n = facts.camera_frames@.len();
    let all = Seq::new(n, |i: int| i);
    if facts.calibrated_pair is Some {
        let keep = |i: int| is_seed_frame(facts.calibrated_pair, facts.camera_frames@[i]);
        let drop = |i: int| !is_seed_frame(facts.calibrated_pair, facts.camera_frames@[i]);
        lemma_filter_complement_len(all, keep, drop);
    } else {
        reveal(Seq::filter);
    }
}

proof fn lemma_view_of_absent(views: Seq<RegisteredViewFacts>, f: usize, k: nat)
    requires
        forall|v: int| 0 <= v < views.len() ==> #[trigger] views[v].frame_index != f,
    ensures
        view_of(views, f, k) is None,
    decreases views.len() - k,
{
    if k < views.len() {
        lemma_view_of_absent(views, f, k + 1);
    }
}

proof fn lemma_candidate_of_first(candidates: Seq<RegistrationCandidateStats>, f: usize, k: nat, c: int)
    requires
        k <= c < candidates.len(),
        candidates[c].frame_index == f,
        forall|j: int| k <= j < c ==> #[trigger] candidates[j].frame_index != f,
    ensures
        candidate_of(candidates, f, k) == Some(c as nat),
    decreases c - k,
{
    if k < c {
        lemma_candidate_of_first(candidates, f, k + 1, c);
    }
}

/// A frame that is neither a seed frame nor registered, and whose first registration
/// candidate is `c`, failed registration for want of correspondences exactly when that
/// candidate was not ready for PnP (fewer than `MIN_PNP_CORRESPONDENCES` seed-landmark
/// correspondences, for candidates counted that way), and was rejected by PnP
/// otherwise.
pub proof fn lemma_failed_candidate_status(facts: ReconstructionFacts, f: usize, c: int)
    requires
        !is_seed_frame(facts.calibrated_pair, f),
        forall|v: int|
            0 <= v < facts.registered_views@.len() ==> #[trigger] facts.registered_views@[v].frame_index != f,
        0 <= c < facts.registration_candidates@.len(),
        facts.registration_candidates@[c].frame_index == f,
        forall|j: int| 0 <= j < c ==> #[trigger] facts.registration_candidates@[j].frame_index != f,
    ensures
        (frame_state(facts, f).2 == RegistrationStatus::InsufficientCorrespondences)
            == !facts.registration_candidates@[c].pnp_ready,
        (frame_state(facts, f).2 == RegistrationStatus::PnpRejected) == facts.registration_candidates@[c].pnp_ready,
        facts.registration_candidates@[c].pnp_ready == (facts.registration_candidates@[c].seed_landmark_correspondences
            >= crate::tracks::MIN_PNP_CORRESPONDENCES) ==> ((frame_state(facts, f).2
            == RegistrationStatus::InsufficientCorrespondences) == (
        facts.registration_candidates@[c].seed_landmark_correspondences < crate::tracks::MIN_PNP_CORRESPONDENCES)),
{
    lemma_view_of_absent(facts.registered_views@, f, 0);
    lemma_candidate_of_first(facts.registration_candidates@, f, 0, c);
}

proof fn lemma_view_of_exists(views: Seq<RegisteredViewFacts>, f: usize, k: nat)
    ensures
        view_of(views, f, k) is Some <==> exists|v: int| k <= v < views.len() && #[trigger] views[v].frame_index == f,
    decreases views.len() - k,
{
    if k < views.len() {
        lemma_view_of_exists(views, f, k + 1);
        if exists|v: int| k <= v < views.len() && #[trigger] views[v].frame_index == f {
            let v = choose|v: int| k <= v < views.len() && #[trigger] views[v].frame_index == f;
            if v > k {
                assert(k + 1 <= v);
            }
        }
    }
}

proof fn lemma_candidate_of_exists(candidates: Seq<RegistrationCandidateStats>, f: usize, k: nat)
    ensures
        candidate_of(candidates, f, k) is Some <==> exists|c: int|
            k <= c < candidates.len() && #[trigger] candidates[c].frame_index == f,
    decreases candidates.len() - k,
{
    if k < candidates.len() {
        lemma_candidate_of_exists(candidates, f, k + 1);
        if exists|c: int| k <= c < candidates.len() && #[trigger] candidates[c].frame_index == f {
            let c = choose|c: int| k <= c < candidates.len() && #[trigger] candidates[c].frame_index == f;
            if c > k {
                assert(k + 1 <= c);
            }
        }
    }
}

/// Why a frame lacks a registered pose, in terms of the reconstruction: the frames of the
/// calibrated pair are seed frames; any other frame with a registered view is
/// registered; any other frame that was a registration candidate failed either for want
/// of correspondences or in PnP; a frame that was no candidate lacked parallax when it
/// belongs to some adjacent pair and every adjacent pair it belongs to lacked parallax,
/// and was not selected otherwise.
pub proof fn lemma_registration_status_cases(facts: ReconstructionFacts, f: usize)
    ensures
        ({
            let status = frame_state(facts, f).2;
            let seed = facts.calibrated_pair matches Some(p) && (f == p.from_frame || f == p.to_frame);
            let viewed = exists|v: int|
                0 <= v < facts.registered_views@.len() && #[trigger] facts.registered_views@[v].frame_index == f;
            let candidate = exists|c: int|
                0 <= c < facts.registration_candidates@.len()
                    && #[trigger] facts.registration_candidates@[c].frame_index == f;
            let touched = exists|i: int|
                0 <= i < facts.pairs@.len() && (#[trigger] facts.pairs@[i].from_frame == f || facts.pairs@[i].to_frame
                    == f);
            let all_low = forall|i: int|
                0 <= i < facts.pairs@.len() && (#[trigger] facts.pairs@[i].from_frame == f || facts.pairs@[i].to_frame
                    == f) ==> facts.pairs@[i].low_parallax;
            &&& (status == RegistrationStatus::Seed) == seed
            &&& (status == RegistrationStatus::Registered) == (!seed && viewed)
            &&& (status == RegistrationStatus::InsufficientCorrespondences || status
                == RegistrationStatus::PnpRejected) == (!seed && !viewed && candidate)
            &&& (status == RegistrationStatus::LowParallax) == (!seed && !viewed && !candidate && touched && all_low)
            &&& (status == RegistrationStatus::NotSelected) == (!seed && !viewed && !candidate && !(touched
                && all_low))
        }),
{
    lemma_view_of_exists(facts.registered_views@, f, 0);
    lemma_candidate_of_exists(facts.registration_candidates@, f, 0);
    let touched = exists|i: int|
        0 <= i < facts.pairs@.len() && (#[trigger] facts.pairs@[i].from_frame == f || facts.pairs@[i].to_frame == f);
    let all_low = forall|i: int|
        0 <= i < facts.pairs@.len() && (#[trigger] facts.pairs@[i].from_frame == f || facts.pairs@[i].to_frame == f)
            ==> facts.pairs@[i].low_parallax;
    if touched {
        let i = choose|i: int|
            0 <= i < facts.pairs@.len() && (#[trigger] facts.pairs@[i].from_frame == f || facts.pairs@[i].to_frame
                == f);
        assert(pair_touches(facts.pairs@[i], f));
    }
    if frame_low_parallax(facts.pairs@, f) {
        let i = choose|i: int| 0 <= i < facts.pairs@.len() && pair_touches(#[trigger] facts.pairs@[i], f);
        assert(facts.pairs@[i].from_frame == f || facts.pairs@[i].to_frame == f);
        assert forall|i: int|
            0 <= i < facts.pairs@.len() && (#[trigger] facts.pairs@[i].from_frame == f || facts.pairs@[i].to_frame
                == f) implies facts.pairs@[i].low_parallax by {
            assert(pair_touches(facts.pairs@[i], f));
        }
    }
    if touched && all_low {
        assert forall|i: int| 0 <= i < facts.pairs@.len() && pair_touches(#[trigger] facts.pairs@[i], f) implies facts.pairs@[i].low_parallax by {
            assert(facts.pairs@[i].from_frame == f || facts.pairs@[i].to_frame == f);
        }
    }
    assert(frame_low_parallax(facts.pairs@, f) == (touched && all_low));
}

} // verus!
