//! Bookkeeping of the dense stage: per-reference attempts, the split of a reference
//! patch into primary and surface-completion points, and the combination of accepted
//! patches into one dense analysis with global point offsets.
//!
//! Points are generic (`P`), and so are the measured values of a patch (`E`: medians
//! and depth search bounds), which this module only carries.

use crate::sorted::{copy_indices, insert_sorted, lemma_push_to_set, sort_keyed, sort_keyed_items, strictly_increasing};
use crate::text::{chars_of, decimal, push_decimal, push_str, string_from_chars};
use vstd::prelude::*;

verus! {

/// Most reference patches that are combined.
pub const MAX_REFERENCE_VIEWS: usize = 3;

/// Most reference frames that are tried.
pub const MAX_REFERENCE_ATTEMPTS: usize = 6;

/// Fewest accepted points with which a reference patch is accepted.
pub const MIN_REFERENCE_PATCH_POINTS: usize = 3;

/// A pixel of the dense sampling grid.
#[derive(Clone, Copy, Debug, PartialEq, Eq, Structural)]
pub struct DenseGridSite {
    pub x: u32,
    pub y: u32,
}

/// What one dense estimation from a single reference frame reports.
#[derive(Clone, Debug)]
pub struct ReferenceDenseStats<E> {
    pub attempted: bool,
    pub skip_reason: Option<String>,
    pub reference_frame: Option<usize>,
    pub source_views: usize,
    pub source_frames: Vec<usize>,
    pub sampled_pixels: usize,
    pub depth_hypotheses: usize,
    pub accepted_points: usize,
    pub surface_completion_proposals: usize,
    pub surface_completed_points: usize,
    pub surface_completion_rejected_texture: usize,
    pub surface_completion_rejected_cross_view: usize,
    pub surface_completion_rejected_reciprocal: usize,
    pub surface_completion_rejected_fusion: usize,
    pub surface_completion_rejected_footprint: usize,
    pub grid_stride: usize,
    pub grid_border: u32,
    pub reciprocal_checked_points: usize,
    pub reciprocal_rejected_points: usize,
    pub reciprocal_consistent_points: usize,
    pub fusion_input_observations: usize,
    pub fusion_rejected_observations: usize,
    pub fusion_rejected_points: usize,
    /// The measured medians and depth search bounds.
    pub measures: E,
}

/// A single-reference dense estimation: its statistics, its points, primary points
/// first and surface completions last, and the grid site of each point.
#[derive(Clone, Debug)]
pub struct ReferenceDenseAnalysis<P, E> {
    pub stats: ReferenceDenseStats<E>,
    pub points: Vec<P>,
    pub grid_sites: Vec<DenseGridSite>,
}

/// The outcome of trying one reference frame.
#[derive(Clone, Debug)]
pub struct DenseReferenceAttemptStats {
    pub reference_frame: usize,
    pub attempted: bool,
    pub accepted: bool,
    pub skip_reason: Option<String>,
    pub sampled_pixels: usize,
    pub accepted_points: usize,
    pub reciprocal_checked_points: usize,
    pub reciprocal_rejected_points: usize,
    pub reciprocal_consistent_points: usize,
    pub surface_completion_proposals: usize,
    pub surface_completed_points: usize,
    pub surface_completion_rejected_texture: usize,
    pub surface_completion_rejected_cross_view: usize,
    pub surface_completion_rejected_reciprocal: usize,
    pub surface_completion_rejected_fusion: usize,
    pub surface_completion_rejected_footprint: usize,
}

/// The text of an optional string.
pub open spec fn opt_text(o: Option<String>) -> Option<Seq<char>> {
    match o {
        Some(s) => Some(s@),
        None => None,
    }
}

/// Why an attempt was not accepted, if it was not.
pub open spec fn attempt_skip_reason<E>(stats: ReferenceDenseStats<E>, accepted_points: nat, accepted: bool) -> Option<
    Seq<char>,
> {
    if accepted {
        None
    } else if stats.skip_reason is Some {
        opt_text(stats.skip_reason)
    } else if !stats.attempted {
        Some("dense estimation did not run for this reference"@)
    } else {
        Some(
            "reference produced "@ + decimal(accepted_points) + " accepted dense points; at least "@
                + decimal(MIN_REFERENCE_PATCH_POINTS as nat) + " are required for a surface patch"@,
        )
    }
}

/// The attempt record of reference frame `reference_frame` with `stats`.
pub open spec fn attempt_of<E>(
    reference_frame: usize,
    stats: ReferenceDenseStats<E>,
    accepted_points: usize,
    accepted: bool,
    skip_reason: Option<String>,
) -> DenseReferenceAttemptStats {
    DenseReferenceAttemptStats {
        reference_frame,
        attempted: stats.attempted,
        accepted,
        skip_reason,
        sampled_pixels: stats.sampled_pixels,
        accepted_points,
        reciprocal_checked_points: stats.reciprocal_checked_points,
        reciprocal_rejected_points: stats.reciprocal_rejected_points,
        reciprocal_consistent_points: stats.reciprocal_consistent_points,
        surface_completion_proposals: stats.surface_completion_proposals,
        surface_completed_points: stats.surface_completed_points,
        surface_completion_rejected_texture: stats.surface_completion_rejected_texture,
        surface_completion_rejected_cross_view: stats.surface_completion_rejected_cross_view,
        surface_completion_rejected_reciprocal: stats.surface_completion_rejected_reciprocal,
        surface_completion_rejected_fusion: stats.surface_completion_rejected_fusion,
        surface_completion_rejected_footprint: stats.surface_completion_rejected_footprint,
    }
}

/// The attempt record of a reference frame: the counts of its estimation, whether it
/// was accepted, and otherwise why not.
pub fn reference_attempt_stats<E>(
    reference_frame: usize,
    stats: &ReferenceDenseStats<E>,
    accepted_points: usize,
    accepted: bool,
) -> (r: DenseReferenceAttemptStats)
    ensures
        r == attempt_of(reference_frame, *stats, accepted_points, accepted, r.skip_reason),
        opt_text(r.skip_reason) == attempt_skip_reason(*stats, accepted_points as nat, accepted),
{
    let skip_reason = if accepted {
        None
    } else {
        match &stats.skip_reason {
            Some(reason) => Some(reason.clone()),
            None => if !stats.attempted {
                Some(string_from_chars(chars_of("dense estimation did not run for this reference").as_slice()))
            } else {
                let mut text: Vec<char> = Vec::new();
                push_str(&mut text, "reference produced ");
                push_decimal(&mut text, accepted_points);
                push_str(&mut text, " accepted dense points; at least ");
                push_decimal(&mut text, MIN_REFERENCE_PATCH_POINTS);
                push_str(&mut text, " are required for a surface patch");
                Some(string_from_chars(text.as_slice()))
            },
        }
    };
    DenseReferenceAttemptStats {
        reference_frame,
        attempted: stats.attempted,
        accepted,
        skip_reason,
        sampled_pixels: stats.sampled_pixels,
        accepted_points,
        reciprocal_checked_points: stats.reciprocal_checked_points,
        reciprocal_rejected_points: stats.reciprocal_rejected_points,
        reciprocal_consistent_points: stats.reciprocal_consistent_points,
        surface_completion_proposals: stats.surface_completion_proposals,
        surface_completed_points: stats.surface_completed_points,
        surface_completion_rejected_texture: stats.surface_completion_rejected_texture,
        surface_completion_rejected_cross_view: stats.surface_completion_rejected_cross_view,
        surface_completion_rejected_reciprocal: stats.surface_completion_rejected_reciprocal,
        surface_completion_rejected_fusion: stats.surface_completion_rejected_fusion,
        surface_completion_rejected_footprint: stats.surface_completion_rejected_footprint,
    }
}

/// The index of the first attempt for `reference_frame`.
pub open spec fn attempt_index(attempts: Seq<DenseReferenceAttemptStats>, reference_frame: usize) -> Option<nat>
    decreases attempts.len(),
{
    if attempts.len() == 0 {
        None
    } else {
        match attempt_index(attempts.drop_last(), reference_frame) {
            Some(i) => Some(i),
            None => if attempts.last().reference_frame == reference_frame {
                Some((attempts.len() - 1) as nat)
            } else {
                None
            },
        }
    }
}

/// Merges one fallback attempt: it replaces the first attempt for the same reference
/// frame when it was accepted and that one was not, and is appended when the frame had
/// no attempt.
pub open spec fn merge_attempt(attempts: Seq<DenseReferenceAttemptStats>, f: DenseReferenceAttemptStats) -> Seq<
    DenseReferenceAttemptStats,
> {
    match attempt_index(attempts, f.reference_frame) {
        Some(i) => if f.accepted && !attempts[i as int].accepted {
            attempts.update(i as int, f)
        } else {
            attempts
        },
        None => attempts.push(f),
    }
}

/// Merges the fallback attempts one after the other.
pub open spec fn merge_attempts(attempts: Seq<DenseReferenceAttemptStats>, fallback: Seq<DenseReferenceAttemptStats>) -> Seq<
    DenseReferenceAttemptStats,
>
    decreases fallback.len(),
{
    if fallback.len() == 0 {
        attempts
    } else {
        merge_attempt(merge_attempts(attempts, fallback.drop_last()), fallback.last())
    }
}

proof fn lemma_attempt_index_prefix(attempts: Seq<DenseReferenceAttemptStats>, f: usize, i: int)
    requires
        0 <= i < attempts.len(),
        attempt_index(attempts.take(i), f) is None,
    ensures
        attempt_index(attempts.take(i + 1), f) == if attempts[i].reference_frame == f {
            Some(i as nat)
        } else {
            None::<nat>
        },
{
    assert(attempts.take(i + 1).drop_last() =~= attempts.take(i));
}

proof fn lemma_attempt_index_extends(attempts: Seq<DenseReferenceAttemptStats>, f: usize, i: int)
    requires
        0 <= i <= attempts.len(),
        attempt_index(attempts.take(i), f) is Some,
    ensures
        attempt_index(attempts, f) == attempt_index(attempts.take(i), f),
    decreases attempts.len() - i,
{
    if i < attempts.len() {
        assert(attempts.take(i + 1).drop_last() =~= attempts.take(i));
        lemma_attempt_index_extends(attempts, f, i + 1);
    } else {
        assert(attempts.take(i) =~= attempts);
    }
}

fn find_attempt(attempts: &Vec<DenseReferenceAttemptStats>, reference_frame: usize) -> (r: Option<usize>)
    ensures
        r matches Some(i) ==> attempt_index(attempts@, reference_frame) == Some(i as nat),
        r is None ==> attempt_index(attempts@, reference_frame) is None,
        r matches Some(i) ==> i < attempts@.len(),
{
    let n = attempts.len();
    let mut i: usize = 0;
    assert(attempts@.take(0) =~= Seq::<DenseReferenceAttemptStats>::empty());
    while i < n
        invariant
            i <= n == attempts@.len(),
            attempt_index(attempts@.take(i as int), reference_frame) is None,
        decreases n - i,
    {
        proof {
            lemma_attempt_index_prefix(attempts@, reference_frame, i as int);
        }
        if attempts[i].reference_frame == reference_frame {
            proof {
                lemma_attempt_index_extends(attempts@, reference_frame, i + 1);
            }
            return Some(i);
        }
        i = i + 1;
    }
    assert(attempts@.take(n as int) =~= attempts@);
    None
}

/// Merges the attempts of a fallback estimation into the attempts made so far: a
/// fallback attempt for a frame already tried replaces the first such attempt only when
/// it was accepted and that one was not; one for a new frame is appended.
pub fn merge_fallback_attempts(
    attempts: Vec<DenseReferenceAttemptStats>,
    fallback_attempts: Vec<DenseReferenceAttemptStats>,
) -> (r: Vec<DenseReferenceAttemptStats>)
    ensures
        r@ == merge_attempts(attempts@, fallback_attempts@),
{
    let mut merged = attempts;
    let ghost fallback = fallback_attempts@;
    let mut rest = fallback_attempts;
    let n = rest.len();
    let mut i: usize = 0;
    assert(fallback.take(0) =~= Seq::<DenseReferenceAttemptStats>::empty());
    while i < n
        invariant
            i <= n == fallback.len(),
            rest@ == fallback.skip(i as int),
            merged@ == merge_attempts(attempts@, fallback.take(i as int)),
        decreases n - i,
    {
        let f = rest.remove(0);
        assert(f == fallback[i as int]);
        assert(rest@ =~= fallback.skip(i + 1));
        assert(fallback.take(i + 1).drop_last() =~= fallback.take(i as int));
        assert(fallback.take(i + 1).last() == fallback[i as int]);
        match find_attempt(&merged, f.reference_frame) {
            Some(k) => {
                if f.accepted && !merged[k].accepted {
                    merged.set(k, f);
                }
            },
            None => {
                merged.push(f);
            },
        }
        i = i + 1;
    }
    assert(fallback.take(n as int) =~= fallback);
    merged
}

/// Where one reference patch stands among the combined dense points.
#[derive(Clone, Debug)]
pub struct DenseReferencePatchStats<E> {
    pub reference_frame: usize,
    pub source_frames: Vec<usize>,
    pub primary_start: usize,
    pub primary_points: usize,
    pub completion_start: usize,
    pub completed_points: usize,
    pub sampled_pixels: usize,
    pub accepted_points: usize,
    pub reciprocal_consistent_points: usize,
    pub grid_stride: usize,
    pub grid_border: u32,
    /// The measured values of the patch's estimation.
    pub measures: E,
}

/// The statistics of the dense stage.
#[derive(Clone, Debug)]
pub struct DenseStats<E> {
    pub attempted: bool,
    pub skip_reason: Option<String>,
    pub reference_frame: Option<usize>,
    pub source_views: usize,
    pub source_frames: Vec<usize>,
    pub sampled_pixels: usize,
    pub depth_hypotheses: usize,
    pub accepted_points: usize,
    pub surface_completion_proposals: usize,
    pub surface_completed_points: usize,
    pub surface_completion_rejected_texture: usize,
    pub surface_completion_rejected_cross_view: usize,
    pub surface_completion_rejected_reciprocal: usize,
    pub surface_completion_rejected_fusion: usize,
    pub surface_completion_rejected_footprint: usize,
    pub grid_stride: usize,
    pub grid_border: u32,
    pub reciprocal_checked_points: usize,
    pub reciprocal_rejected_points: usize,
    pub reciprocal_consistent_points: usize,
    pub fusion_input_observations: usize,
    pub fusion_rejected_observations: usize,
    pub fusion_rejected_points: usize,
    /// The measured values, where a single reference estimation gave them.
    pub measures: Option<E>,
    pub reference_frames: Vec<usize>,
    pub reference_attempts: Vec<DenseReferenceAttemptStats>,
    pub reference_patches: Vec<DenseReferencePatchStats<E>>,
}

/// The dense points of a reconstruction, with the grid site of each.
#[derive(Clone, Debug)]
pub struct DenseAnalysis<P, E> {
    pub stats: DenseStats<E>,
    pub points: Vec<P>,
    pub grid_sites: Vec<DenseGridSite>,
}

/// An accepted reference patch, its points split into primary points and surface
/// completions.
#[derive(Clone, Debug)]
pub struct AcceptedPatch<P, E> {
    pub reference_frame: usize,
    pub stats: ReferenceDenseStats<E>,
    pub primary_points: Vec<P>,
    pub primary_sites: Vec<DenseGridSite>,
    pub completion_points: Vec<P>,
    pub completion_sites: Vec<DenseGridSite>,
}

/// How many of an estimation's points are surface completions: the reported count,
/// at most the number of points.
pub open spec fn completion_count<P, E>(analysis: ReferenceDenseAnalysis<P, E>) -> nat {
    let c = analysis.stats.surface_completed_points as nat;
    let n = analysis.points@.len();
    if c < n {
        c
    } else {
        n
    }
}

/// How many of an estimation's points are primary points.
pub open spec fn primary_count<P, E>(analysis: ReferenceDenseAnalysis<P, E>) -> nat {
    (analysis.points@.len() - completion_count(analysis)) as nat
}

/// `patch` is the estimation `analysis` of `reference_frame`, split into its primary
/// points and its surface completions.
pub open spec fn is_split_of<P, E>(patch: AcceptedPatch<P, E>, reference_frame: usize, analysis: ReferenceDenseAnalysis<P, E>) -> bool {
    &&& patch.reference_frame == reference_frame
    &&& patch.stats == analysis.stats
    &&& patch.primary_points@ == analysis.points@.take(primary_count(analysis) as int)
    &&& patch.completion_points@ == analysis.points@.skip(primary_count(analysis) as int)
    &&& patch.primary_sites@ == analysis.grid_sites@.take(primary_count(analysis) as int)
    &&& patch.completion_sites@ == analysis.grid_sites@.skip(primary_count(analysis) as int)
}

/// Splits the points and grid sites of an accepted estimation into its primary part,
/// the leading points, and its surface completions, the trailing ones.
pub fn split_patch<P, E>(reference_frame: usize, analysis: ReferenceDenseAnalysis<P, E>) -> (r: AcceptedPatch<P, E>)
    requires
        analysis.grid_sites@.len() >= primary_count(analysis),
    ensures
        is_split_of(r, reference_frame, analysis),
{
    let ReferenceDenseAnalysis { stats, points, grid_sites } = analysis;
    let mut points = points;
    let mut grid_sites = grid_sites;
    let n = points.len();
    let completion = if stats.surface_completed_points < n {
        stats.surface_completed_points
    } else {
        n
    };
    let primary = n - completion;
    let completion_points = points.split_off(primary);
    let completion_sites = grid_sites.split_off(primary);
    AcceptedPatch {
        reference_frame,
        stats,
        primary_points: points,
        primary_sites: grid_sites,
        completion_points,
        completion_sites,
    }
}

/// `r` is the record of a patch of reference frame `reference_frame` with `stats`,
/// its primary points starting at `primary_start` and its completions at
/// `completion_start`.
pub open spec fn patch_stats_match<E>(
    r: DenseReferencePatchStats<E>,
    reference_frame: usize,
    stats: ReferenceDenseStats<E>,
    primary_start: nat,
    primary_points: nat,
    completion_start: nat,
    completed_points: nat,
) -> bool {
    &&& r.reference_frame == reference_frame
    &&& r.source_frames@ == stats.source_frames@
    &&& r.primary_start == primary_start
    &&& r.primary_points == primary_points
    &&& r.completion_start == completion_start
    &&& r.completed_points == completed_points
    &&& r.sampled_pixels == stats.sampled_pixels
    &&& r.accepted_points == primary_points + completed_points
    &&& r.reciprocal_consistent_points == stats.reciprocal_consistent_points
    &&& r.grid_stride == stats.grid_stride
    &&& r.grid_border == stats.grid_border
    &&& r.measures == stats.measures
}

/// The dense statistics copy the counts of `stats`.
pub open spec fn counts_copied<E>(r: DenseStats<E>, stats: ReferenceDenseStats<E>) -> bool {
    &&& r.attempted == stats.attempted
    &&& opt_text(r.skip_reason) == opt_text(stats.skip_reason)
    &&& r.reference_frame == stats.reference_frame
    &&& r.source_views == stats.source_views
    &&& r.source_frames@ == stats.source_frames@
    &&& r.sampled_pixels == stats.sampled_pixels
    &&& r.depth_hypotheses == stats.depth_hypotheses
    &&& r.accepted_points == stats.accepted_points
    &&& r.surface_completion_proposals == stats.surface_completion_proposals
    &&& r.surface_completed_points == stats.surface_completed_points
    &&& r.surface_completion_rejected_texture == stats.surface_completion_rejected_texture
    &&& r.surface_completion_rejected_cross_view == stats.surface_completion_rejected_cross_view
    &&& r.surface_completion_rejected_reciprocal == stats.surface_completion_rejected_reciprocal
    &&& r.surface_completion_rejected_fusion == stats.surface_completion_rejected_fusion
    &&& r.surface_completion_rejected_footprint == stats.surface_completion_rejected_footprint
    &&& r.grid_stride == stats.grid_stride
    &&& r.grid_border == stats.grid_border
    &&& r.reciprocal_checked_points == stats.reciprocal_checked_points
    &&& r.reciprocal_rejected_points == stats.reciprocal_rejected_points
    &&& r.reciprocal_consistent_points == stats.reciprocal_consistent_points
    &&& r.fusion_input_observations == stats.fusion_input_observations
    &&& r.fusion_rejected_observations == stats.fusion_rejected_observations
    &&& r.fusion_rejected_points == stats.fusion_rejected_points
    &&& r.measures == Some(stats.measures)
}

/// `r` holds the counts, points, reference frame and patch of the single-reference
/// estimation `analysis`: the patch, where the estimation ran, with its primary points
/// first.
pub open spec fn single_reference_parts<P, E>(r: DenseAnalysis<P, E>, analysis: ReferenceDenseAnalysis<P, E>) -> bool {
    &&& counts_copied(r.stats, analysis.stats)
    &&& r.points@ == analysis.points@
    &&& r.grid_sites@ == analysis.grid_sites@
    &&& r.stats.reference_frames@ == (match analysis.stats.reference_frame {
        Some(f) => seq![f],
        None => Seq::<usize>::empty(),
    })
    &&& match analysis.stats.reference_frame {
        Some(f) => if analysis.stats.attempted {
            &&& r.stats.reference_patches@.len() == 1
            &&& patch_stats_match(
                r.stats.reference_patches@[0],
                f,
                analysis.stats,
                0,
                primary_count(analysis),
                primary_count(analysis),
                completion_count(analysis),
            )
        } else {
            r.stats.reference_patches@.len() == 0
        },
        None => r.stats.reference_patches@.len() == 0,
    }
}

/// `attempts` is the attempt of the single-reference estimation `analysis`: one
/// attempt for its reference frame, accepted when it ran and gave at least the minimum
/// number of points; none without a reference frame.
pub open spec fn single_reference_attempts<P, E>(attempts: Seq<DenseReferenceAttemptStats>, analysis: ReferenceDenseAnalysis<P, E>) -> bool {
    match analysis.stats.reference_frame {
        Some(f) => {
            let accepted = analysis.stats.attempted && analysis.points@.len() >= MIN_REFERENCE_PATCH_POINTS;
            &&& attempts.len() == 1
            &&& attempts[0] == attempt_of(
                f,
                analysis.stats,
                analysis.points@.len() as usize,
                accepted,
                attempts[0].skip_reason,
            )
            &&& opt_text(attempts[0].skip_reason) == attempt_skip_reason(
                analysis.stats,
                analysis.points@.len(),
                accepted,
            )
        },
        None => attempts.len() == 0,
    }
}

/// Takes a single-reference estimation as the dense analysis: its counts and points
/// as they are, its reference frame (if any) as the one attempt, and, where it ran, its
/// points as one patch with the primary points first.
pub fn from_legacy<P, E: Copy>(analysis: ReferenceDenseAnalysis<P, E>) -> (r: DenseAnalysis<P, E>)
    ensures
        single_reference_parts(r, analysis),
        single_reference_attempts(r.stats.reference_attempts@, analysis),
{
    let ghost input = analysis;
    let ReferenceDenseAnalysis { stats, points, grid_sites } = analysis;
    let n = points.len();
    let completion = if stats.surface_completed_points < n {
        stats.surface_completed_points
    } else {
        n
    };
    let primary = n - completion;
    let mut reference_frames: Vec<usize> = Vec::new();
    let mut reference_attempts: Vec<DenseReferenceAttemptStats> = Vec::new();
    let mut reference_patches: Vec<DenseReferencePatchStats<E>> = Vec::new();
    if let Some(f) = stats.reference_frame {
        reference_frames.push(f);
        let accepted = stats.attempted && n >= MIN_REFERENCE_PATCH_POINTS;
        reference_attempts.push(reference_attempt_stats(f, &stats, n, accepted));
        if stats.attempted {
            reference_patches.push(
                DenseReferencePatchStats {
                    reference_frame: f,
                    source_frames: copy_indices(&stats.source_frames),
                    primary_start: 0,
                    primary_points: primary,
                    completion_start: primary,
                    completed_points: completion,
                    sampled_pixels: stats.sampled_pixels,
                    accepted_points: n,
                    reciprocal_consistent_points: stats.reciprocal_consistent_points,
                    grid_stride: stats.grid_stride,
                    grid_border: stats.grid_border,
                    measures: stats.measures,
                },
            );
        }
    }
    proof {
        assert(reference_frames@ =~= (match input.stats.reference_frame {
            Some(f) => seq![f],
            None => Seq::<usize>::empty(),
        }));
    }
    let ReferenceDenseStats {
        attempted,
        skip_reason,
        reference_frame,
        source_views,
        source_frames,
        sampled_pixels,
        depth_hypotheses,
        accepted_points,
        surface_completion_proposals,
        surface_completed_points,
        surface_completion_rejected_texture,
        surface_completion_rejected_cross_view,
        surface_completion_rejected_reciprocal,
        surface_completion_rejected_fusion,
        surface_completion_rejected_footprint,
        grid_stride,
        grid_border,
        reciprocal_checked_points,
        reciprocal_rejected_points,
        reciprocal_consistent_points,
        fusion_input_observations,
        fusion_rejected_observations,
        fusion_rejected_points,
        measures,
    } = stats;
    DenseAnalysis {
        stats: DenseStats {
            attempted,
            skip_reason,
            reference_frame,
            source_views,
            source_frames,
            sampled_pixels,
            depth_hypotheses,
            accepted_points,
            surface_completion_proposals,
            surface_completed_points,
            surface_completion_rejected_texture,
            surface_completion_rejected_cross_view,
            surface_completion_rejected_reciprocal,
            surface_completion_rejected_fusion,
            surface_completion_rejected_footprint,
            grid_stride,
            grid_border,
            reciprocal_checked_points,
            reciprocal_rejected_points,
            reciprocal_consistent_points,
            fusion_input_observations,
            fusion_rejected_observations,
            fusion_rejected_points,
            measures: Some(measures),
            reference_frames,
            reference_attempts,
            reference_patches,
        },
        points,
        grid_sites,
    }
}

/// A count of the single-reference estimations that combining patches adds up.
#[derive(Clone, Copy, Debug, PartialEq, Eq, Structural)]
pub enum SummedCount {
    SampledPixels,
    SurfaceCompletionProposals,
    SurfaceCompletionRejectedTexture,
    SurfaceCompletionRejectedCrossView,
    SurfaceCompletionRejectedReciprocal,
    SurfaceCompletionRejectedFusion,
    SurfaceCompletionRejectedFootprint,
    ReciprocalCheckedPoints,
    ReciprocalRejectedPoints,
    ReciprocalConsistentPoints,
    FusionInputObservations,
    FusionRejectedObservations,
    FusionRejectedPoints,
}

/// The count `c` of `s`.
pub open spec fn count_of<E>(s: ReferenceDenseStats<E>, c: SummedCount) -> usize {
    match c {
        SummedCount::SampledPixels => s.sampled_pixels,
        SummedCount::SurfaceCompletionProposals => s.surface_completion_proposals,
        SummedCount::SurfaceCompletionRejectedTexture => s.surface_completion_rejected_texture,
        SummedCount::SurfaceCompletionRejectedCrossView => s.surface_completion_rejected_cross_view,
        SummedCount::SurfaceCompletionRejectedReciprocal => s.surface_completion_rejected_reciprocal,
        SummedCount::SurfaceCompletionRejectedFusion => s.surface_completion_rejected_fusion,
        SummedCount::SurfaceCompletionRejectedFootprint => s.surface_completion_rejected_footprint,
        SummedCount::ReciprocalCheckedPoints => s.reciprocal_checked_points,
        SummedCount::ReciprocalRejectedPoints => s.reciprocal_rejected_points,
        SummedCount::ReciprocalConsistentPoints => s.reciprocal_consistent_points,
        SummedCount::FusionInputObservations => s.fusion_input_observations,
        SummedCount::FusionRejectedObservations => s.fusion_rejected_observations,
        SummedCount::FusionRejectedPoints => s.fusion_rejected_points,
    }
}

fn count_value<E>(s: &ReferenceDenseStats<E>, c: SummedCount) -> (r: usize)
    ensures
        r == count_of(*s, c),
{
    match c {
        SummedCount::SampledPixels => s.sampled_pixels,
        SummedCount::SurfaceCompletionProposals => s.surface_completion_proposals,
        SummedCount::SurfaceCompletionRejectedTexture => s.surface_completion_rejected_texture,
        SummedCount::SurfaceCompletionRejectedCrossView => s.surface_completion_rejected_cross_view,
        SummedCount::SurfaceCompletionRejectedReciprocal => s.surface_completion_rejected_reciprocal,
        SummedCount::SurfaceCompletionRejectedFusion => s.surface_completion_rejected_fusion,
        SummedCount::SurfaceCompletionRejectedFootprint => s.surface_completion_rejected_footprint,
        SummedCount::ReciprocalCheckedPoints => s.reciprocal_checked_points,
        SummedCount::ReciprocalRejectedPoints => s.reciprocal_rejected_points,
        SummedCount::ReciprocalConsistentPoints => s.reciprocal_consistent_points,
        SummedCount::FusionInputObservations => s.fusion_input_observations,
        SummedCount::FusionRejectedObservations => s.fusion_rejected_observations,
        SummedCount::FusionRejectedPoints => s.fusion_rejected_points,
    }
}

/// The sum of count `c` over the patches.
pub open spec fn count_total<P, E>(patches: Seq<AcceptedPatch<P, E>>, c: SummedCount) -> nat
    decreases patches.len(),
{
    if patches.len() == 0 {
        0
    } else {
        count_total(patches.drop_last(), c) + count_of(patches.last().stats, c) as nat
    }
}

proof fn lemma_count_total_prefix<P, E>(patches: Seq<AcceptedPatch<P, E>>, c: SummedCount, i: int)
    requires
        0 <= i <= patches.len(),
    ensures
        count_total(patches.take(i), c) <= count_total(patches, c),
    decreases patches.len() - i,
{
    if i < patches.len() {
        assert(patches.take(i + 1).drop_last() =~= patches.take(i));
        lemma_count_total_prefix(patches, c, i + 1);
    } else {
        assert(patches.take(i) =~= patches);
    }
}

fn sum_count<P, E>(patches: &Vec<AcceptedPatch<P, E>>, c: SummedCount) -> (r: usize)
    requires
        count_total(patches@, c) <= usize::MAX,
    ensures
        r == count_total(patches@, c),
{
    let n = patches.len();
    let mut total: usize = 0;
    let mut i: usize = 0;
    assert(patches@.take(0) =~= Seq::<AcceptedPatch<P, E>>::empty());
    while i < n
        invariant
            i <= n == patches@.len(),
            count_total(patches@, c) <= usize::MAX,
            total == count_total(patches@.take(i as int), c),
        decreases n - i,
    {
        proof {
            assert(patches@.take(i + 1).drop_last() =~= patches@.take(i as int));
            lemma_count_total_prefix(patches@, c, i + 1);
        }
        total = total + count_value(&patches[i].stats, c);
        i = i + 1;
    }
    assert(patches@.take(n as int) =~= patches@);
    total
}

/// The largest number of depth hypotheses of the patches, 0 without patches.
pub open spec fn max_depth_hypotheses<P, E>(patches: Seq<AcceptedPatch<P, E>>) -> nat
    decreases patches.len(),
{
    if patches.len() == 0 {
        0
    } else {
        let rest = max_depth_hypotheses(patches.drop_last());
        let d = patches.last().stats.depth_hypotheses as nat;
        if d > rest {
            d
        } else {
            rest
        }
    }
}

/// The primary points of the patches, patch after patch.
pub open spec fn primary_concat<P, E>(patches: Seq<AcceptedPatch<P, E>>) -> Seq<P>
    decreases patches.len(),
{
    if patches.len() == 0 {
        Seq::empty()
    } else {
        primary_concat(patches.drop_last()) + patches.last().primary_points@
    }
}

/// The surface completions of the patches, patch after patch.
pub open spec fn completion_concat<P, E>(patches: Seq<AcceptedPatch<P, E>>) -> Seq<P>
    decreases patches.len(),
{
    if patches.len() == 0 {
        Seq::empty()
    } else {
        completion_concat(patches.drop_last()) + patches.last().completion_points@
    }
}

/// The grid sites of the primary points, patch after patch.
pub open spec fn primary_sites_concat<P, E>(patches: Seq<AcceptedPatch<P, E>>) -> Seq<DenseGridSite>
    decreases patches.len(),
{
    if patches.len() == 0 {
        Seq::empty()
    } else {
        primary_sites_concat(patches.drop_last()) + patches.last().primary_sites@
    }
}

/// The grid sites of the surface completions, patch after patch.
pub open spec fn completion_sites_concat<P, E>(patches: Seq<AcceptedPatch<P, E>>) -> Seq<DenseGridSite>
    decreases patches.len(),
{
    if patches.len() == 0 {
        Seq::empty()
    } else {
        completion_sites_concat(patches.drop_last()) + patches.last().completion_sites@
    }
}

/// The frames that took part in some patch: its reference frame and its source frames.
pub open spec fn participating_frames<P, E>(patches: Seq<AcceptedPatch<P, E>>) -> Set<usize> {
    Set::new(
        |f: usize|
            exists|k: int|
                0 <= k < patches.len() && ((#[trigger] patches[k]).reference_frame == f
                    || patches[k].stats.source_frames@.contains(f)),
    )
}

fn append_copies<T: Copy>(out: &mut Vec<T>, v: &Vec<T>)
    ensures
        final(out)@ == old(out)@ + v@,
{
    let ghost start = out@;
    let n = v.len();
    let mut i: usize = 0;
    while i < n
        invariant
            i <= n == v@.len(),
            out@ == start + v@.take(i as int),
        decreases n - i,
    {
        out.push(v[i]);
        i = i + 1;
        assert(out@ =~= start + v@.take(i as int));
    }
    assert(v@.take(n as int) =~= v@);
}

proof fn lemma_concat_step<P, E>(patches: Seq<AcceptedPatch<P, E>>, i: int)
    requires
        0 <= i < patches.len(),
    ensures
        primary_concat(patches.take(i + 1)) == primary_concat(patches.take(i)) + patches[i].primary_points@,
        completion_concat(patches.take(i + 1)) == completion_concat(patches.take(i))
            + patches[i].completion_points@,
        primary_sites_concat(patches.take(i + 1)) == primary_sites_concat(patches.take(i))
            + patches[i].primary_sites@,
        completion_sites_concat(patches.take(i + 1)) == completion_sites_concat(patches.take(i))
            + patches[i].completion_sites@,
        max_depth_hypotheses(patches.take(i + 1)) == if patches[i].stats.depth_hypotheses as nat
            > max_depth_hypotheses(patches.take(i)) {
            patches[i].stats.depth_hypotheses as nat
        } else {
            max_depth_hypotheses(patches.take(i))
        },
{
    assert(patches.take(i + 1).drop_last() =~= patches.take(i));
    assert(patches.take(i + 1).last() == patches[i]);
}

/// `r` records each patch: its reference frame and counts, where its primary points
/// start among all primary points, and where its completions start after them.
pub open spec fn patch_records<P, E>(r: Seq<DenseReferencePatchStats<E>>, patches: Seq<AcceptedPatch<P, E>>) -> bool {
    &&& r.len() == patches.len()
    &&& forall|k: int|
        0 <= k < patches.len() ==> patch_stats_match(
            #[trigger] r[k],
            patches[k].reference_frame,
            patches[k].stats,
            primary_concat(patches.take(k)).len(),
            patches[k].primary_points@.len(),
            primary_concat(patches).len() + completion_concat(patches.take(k)).len(),
            patches[k].completion_points@.len(),
        )
}

/// Combines the accepted reference patches into one dense analysis: the primary points
/// of all patches, patch after patch, then their surface completions; the first patch's
/// reference frame as the primary one, and every other frame that took part as a source
/// frame, in increasing order; the counts summed; and where each patch's points stand.
pub fn combine_patches<P: Copy, E: Copy>(
    patches: Vec<AcceptedPatch<P, E>>,
    reference_attempts: Vec<DenseReferenceAttemptStats>,
) -> (r: DenseAnalysis<P, E>)
    requires
        patches@.len() > 0,
        primary_concat(patches@).len() + completion_concat(patches@).len() <= usize::MAX,
        forall|c: SummedCount| count_total(patches@, c) <= usize::MAX,
    ensures
        r.points@ == primary_concat(patches@) + completion_concat(patches@),
        r.grid_sites@ == primary_sites_concat(patches@) + completion_sites_concat(patches@),
        r.stats.attempted,
        r.stats.skip_reason is None,
        r.stats.reference_frame == Some(patches@[0].reference_frame),
        strictly_increasing(r.stats.source_frames@),
        r.stats.source_frames@.to_set() == participating_frames(patches@).remove(patches@[0].reference_frame),
        r.stats.source_views == r.stats.source_frames@.len(),
        r.stats.sampled_pixels == count_total(patches@, SummedCount::SampledPixels),
        r.stats.surface_completion_proposals == count_total(patches@, SummedCount::SurfaceCompletionProposals),
        r.stats.surface_completion_rejected_texture == count_total(patches@, SummedCount::SurfaceCompletionRejectedTexture),
        r.stats.surface_completion_rejected_cross_view == count_total(patches@, SummedCount::SurfaceCompletionRejectedCrossView),
        r.stats.surface_completion_rejected_reciprocal == count_total(patches@, SummedCount::SurfaceCompletionRejectedReciprocal),
        r.stats.surface_completion_rejected_fusion == count_total(patches@, SummedCount::SurfaceCompletionRejectedFusion),
        r.stats.surface_completion_rejected_footprint == count_total(patches@, SummedCount::SurfaceCompletionRejectedFootprint),
        r.stats.reciprocal_checked_points == count_total(patches@, SummedCount::ReciprocalCheckedPoints),
        r.stats.reciprocal_rejected_points == count_total(patches@, SummedCount::ReciprocalRejectedPoints),
        r.stats.reciprocal_consistent_points == count_total(patches@, SummedCount::ReciprocalConsistentPoints),
        r.stats.fusion_input_observations == count_total(patches@, SummedCount::FusionInputObservations),
        r.stats.fusion_rejected_observations == count_total(patches@, SummedCount::FusionRejectedObservations),
        r.stats.fusion_rejected_points == count_total(patches@, SummedCount::FusionRejectedPoints),
        r.stats.depth_hypotheses == max_depth_hypotheses(patches@),
        r.stats.accepted_points == r.points@.len(),
        r.stats.surface_completed_points == completion_concat(patches@).len(),
        r.stats.grid_stride == patches@[0].stats.grid_stride,
        r.stats.grid_border == patches@[0].stats.grid_border,
        r.stats.measures == if patches@.len() == 1 {
            Some(patches@[0].stats.measures)
        } else {
            None
        },
        r.stats.reference_frames@ == patches@.map_values(|p: AcceptedPatch<P, E>| p.reference_frame),
        r.stats.reference_attempts@ == reference_attempts@,
        patch_records(r.stats.reference_patches@, patches@),
{
    let n = patches.len();
    let ghost ps = patches@;
    let mut points: Vec<P> = Vec::new();
    let mut grid_sites: Vec<DenseGridSite> = Vec::new();
    let mut primary_starts: Vec<usize> = Vec::new();
    let mut i: usize = 0;
    assert(ps.take(0) =~= Seq::<AcceptedPatch<P, E>>::empty());
    while i < n
        invariant
            i <= n == ps.len(),
            ps == patches@,
            points@ == primary_concat(ps.take(i as int)),
            grid_sites@ == primary_sites_concat(ps.take(i as int)),
            primary_starts@.len() == i,
            forall|k: int| 0 <= k < i ==> #[trigger] primary_starts@[k] == primary_concat(ps.take(k)).len(),
        decreases n - i,
    {
        proof {
            lemma_concat_step(ps, i as int);
        }
        primary_starts.push(points.len());
        append_copies(&mut points, &patches[i].primary_points);
        append_copies(&mut grid_sites, &patches[i].primary_sites);
        i = i + 1;
    }
    assert(ps.take(n as int) =~= ps);
    let total_primary = points.len();
    let mut completion_starts: Vec<usize> = Vec::new();
    let ghost primary_points = points@;
    let ghost primary_sites = grid_sites@;
    i = 0;
    while i < n
        invariant
            i <= n == ps.len(),
            ps == patches@,
            primary_points == primary_concat(ps),
            primary_sites == primary_sites_concat(ps),
            total_primary == primary_points.len(),
            primary_concat(ps).len() + completion_concat(ps).len() <= usize::MAX,
            points@ == primary_points + completion_concat(ps.take(i as int)),
            grid_sites@ == primary_sites + completion_sites_concat(ps.take(i as int)),
            completion_starts@.len() == i,
            forall|k: int| 0 <= k < i ==> #[trigger] completion_starts@[k] == total_primary
                + completion_concat(ps.take(k)).len(),
        decreases n - i,
    {
        proof {
            lemma_concat_step(ps, i as int);
        }
        completion_starts.push(points.len());
        append_copies(&mut points, &patches[i].completion_points);
        append_copies(&mut grid_sites, &patches[i].completion_sites);
        proof {
            assert(points@ =~= primary_points + completion_concat(ps.take(i + 1)));
            assert(grid_sites@ =~= primary_sites + completion_sites_concat(ps.take(i + 1)));
        }
        i = i + 1;
    }
    let total_points = points.len();
    let total_completion = total_points - total_primary;

    let primary_reference = patches[0].reference_frame;
    let mut reference_frames: Vec<usize> = Vec::new();
    let mut participating: Vec<usize> = Vec::new();
    let mut reference_patches: Vec<DenseReferencePatchStats<E>> = Vec::new();
    let mut depth_hypotheses: usize = 0;
    i = 0;
    while i < n
        invariant
            i <= n == ps.len(),
            ps == patches@,
            primary_starts@.len() == n,
            completion_starts@.len() == n,
            forall|k: int| 0 <= k < n ==> #[trigger] primary_starts@[k] == primary_concat(ps.take(k)).len(),
            forall|k: int| 0 <= k < n ==> #[trigger] completion_starts@[k] == total_primary
                + completion_concat(ps.take(k)).len(),
            total_primary == primary_concat(ps).len(),
            primary_concat(ps).len() + completion_concat(ps).len() <= usize::MAX,
            reference_frames@ == ps.take(i as int).map_values(|p: AcceptedPatch<P, E>| p.reference_frame),
            strictly_increasing(participating@),
            participating@.to_set() == participating_frames(ps.take(i as int)),
            reference_patches@.len() == i,
            forall|k: int| 0 <= k < i ==> patch_stats_match(
                #[trigger] reference_patches@[k],
                ps[k].reference_frame,
                ps[k].stats,
                primary_concat(ps.take(k)).len(),
                ps[k].primary_points@.len(),
                primary_concat(ps).len() + completion_concat(ps.take(k)).len(),
                ps[k].completion_points@.len(),
            ),
            depth_hypotheses == max_depth_hypotheses(ps.take(i as int)),
        decreases n - i,
    {
        proof {
            lemma_concat_step(ps, i as int);
        }
        let patch = &patches[i];
        reference_frames.push(patch.reference_frame);
        let ghost prev_set = participating@.to_set();
        insert_sorted(&mut participating, patch.reference_frame);
        let sources = &patch.stats.source_frames;
        let m = sources.len();
        let mut j: usize = 0;
        while j < m
            invariant
                j <= m == sources@.len(),
                strictly_increasing(participating@),
                participating@.to_set() == prev_set.insert(patch.reference_frame).union(
                    sources@.take(j as int).to_set(),
                ),
            decreases m - j,
        {
            insert_sorted(&mut participating, sources[j]);
            proof {
                assert(sources@.take(j + 1) =~= sources@.take(j as int).push(sources@[j as int]));
                lemma_push_to_set(sources@.take(j as int), sources@[j as int]);
            }
            j = j + 1;
        }
        proof {
            assert(sources@.take(m as int) =~= sources@);
            assert forall|f: usize| #[trigger] participating@.to_set().contains(f) <==> participating_frames(
                ps.take(i + 1),
            ).contains(f) by {
                if participating_frames(ps.take(i + 1)).contains(f) {
                    let k = choose|k: int|
                        0 <= k < ps.take(i + 1).len() && ((#[trigger] ps.take(i + 1)[k]).reference_frame == f
                            || ps.take(i + 1)[k].stats.source_frames@.contains(f));
                    if k < i {
                        assert(ps.take(i as int)[k] == ps.take(i + 1)[k]);
                        assert(participating_frames(ps.take(i as int)).contains(f));
                    } else {
                        assert(ps.take(i + 1)[k] == ps[i as int]);
                    }
                }
                if participating@.to_set().contains(f) {
                    if prev_set.contains(f) {
                        let k = choose|k: int|
                            0 <= k < ps.take(i as int).len() && ((#[trigger] ps.take(i as int)[k]).reference_frame
                                == f || ps.take(i as int)[k].stats.source_frames@.contains(f));
                        assert(ps.take(i as int)[k] == ps.take(i + 1)[k]);
                    } else {
                        assert(ps.take(i + 1)[i as int] == ps[i as int]);
                    }
                }
            }
            assert(participating@.to_set() =~= participating_frames(ps.take(i + 1)));
            assert(reference_frames@ =~= ps.take(i + 1).map_values(|p: AcceptedPatch<P, E>| p.reference_frame));
        }
        let primary_count = patch.primary_points.len();
        let completed = patch.completion_points.len();
        proof {
            assert(primary_concat(ps.take(i as int)).len() + primary_count <= total_primary) by {
                lemma_concat_len_prefix(ps, i as int + 1);
            }
            assert(completion_concat(ps.take(i as int)).len() + completed <= completion_concat(ps).len()) by {
                lemma_concat_len_prefix(ps, i as int + 1);
            }
        }
        reference_patches.push(
            DenseReferencePatchStats {
                reference_frame: patch.reference_frame,
                source_frames: copy_indices(&patch.stats.source_frames),
                primary_start: primary_starts[i],
                primary_points: primary_count,
                completion_start: completion_starts[i],
                completed_points: completed,
                sampled_pixels: patch.stats.sampled_pixels,
                accepted_points: primary_count + completed,
                reciprocal_consistent_points: patch.stats.reciprocal_consistent_points,
                grid_stride: patch.stats.grid_stride,
                grid_border: patch.stats.grid_border,
                measures: patch.stats.measures,
            },
        );
        if patch.stats.depth_hypotheses > depth_hypotheses {
            depth_hypotheses = patch.stats.depth_hypotheses;
        }
        i = i + 1;
    }
    assert(ps.take(n as int) =~= ps);

    let mut source_frames: Vec<usize> = Vec::new();
    let np = participating.len();
    let mut j: usize = 0;
    while j < np
        invariant
            j <= np == participating@.len(),
            strictly_increasing(participating@),
            strictly_increasing(source_frames@),
            source_frames@.to_set() == participating@.take(j as int).to_set().remove(primary_reference),
            forall|k: int| 0 <= k < source_frames@.len() ==> exists|q: int| 0 <= q < j && #[trigger] source_frames@[k] == participating@[q],
        decreases np - j,
    {
        let f = participating[j];
        let ghost before = source_frames@;
        if f != primary_reference {
            source_frames.push(f);
            assert forall|a: int, b: int| 0 <= a < b < source_frames@.len() implies source_frames@[a] < source_frames@[b] by {
                if b == before.len() {
                    let q = choose|q: int| 0 <= q < j && #[trigger] before[a] == participating@[q];
                }
            }
            assert forall|k: int| 0 <= k < source_frames@.len() implies exists|q: int| 0 <= q < j + 1 && #[trigger] source_frames@[k] == participating@[q] by {
                if k == before.len() {
                    assert(source_frames@[k] == participating@[j as int]);
                } else {
                    assert(source_frames@[k] == before[k]);
                }
            }
        }
        proof {
            assert(participating@.take(j + 1) =~= participating@.take(j as int).push(f));
            lemma_push_to_set(participating@.take(j as int), f);
            if f != primary_reference {
                lemma_push_to_set(before, f);
            }
            assert(source_frames@.to_set() =~= participating@.take(j + 1).to_set().remove(primary_reference));
        }
        j = j + 1;
    }
    assert(participating@.take(np as int) =~= participating@);
    let source_views = source_frames.len();

    let sampled_pixels = sum_count(&patches, SummedCount::SampledPixels);
    let surface_completion_proposals = sum_count(&patches, SummedCount::SurfaceCompletionProposals);
    let surface_completion_rejected_texture = sum_count(&patches, SummedCount::SurfaceCompletionRejectedTexture);
    let surface_completion_rejected_cross_view = sum_count(&patches, SummedCount::SurfaceCompletionRejectedCrossView);
    let surface_completion_rejected_reciprocal = sum_count(&patches, SummedCount::SurfaceCompletionRejectedReciprocal);
    let surface_completion_rejected_fusion = sum_count(&patches, SummedCount::SurfaceCompletionRejectedFusion);
    let surface_completion_rejected_footprint = sum_count(&patches, SummedCount::SurfaceCompletionRejectedFootprint);
    let reciprocal_checked_points = sum_count(&patches, SummedCount::ReciprocalCheckedPoints);
    let reciprocal_rejected_points = sum_count(&patches, SummedCount::ReciprocalRejectedPoints);
    let reciprocal_consistent_points = sum_count(&patches, SummedCount::ReciprocalConsistentPoints);
    let fusion_input_observations = sum_count(&patches, SummedCount::FusionInputObservations);
    let fusion_rejected_observations = sum_count(&patches, SummedCount::FusionRejectedObservations);
    let fusion_rejected_points = sum_count(&patches, SummedCount::FusionRejectedPoints);
    let measures = if n == 1 {
        Some(patches[0].stats.measures)
    } else {
        None
    };
    let grid_stride = patches[0].stats.grid_stride;
    let grid_border = patches[0].stats.grid_border;
    DenseAnalysis {
        stats: DenseStats {
            attempted: true,
            skip_reason: None,
            reference_frame: Some(primary_reference),
            source_views,
            source_frames,
            sampled_pixels,
            depth_hypotheses,
            accepted_points: total_points,
            surface_completed_points: total_completion,
            surface_completion_proposals,
            surface_completion_rejected_texture,
            surface_completion_rejected_cross_view,
            surface_completion_rejected_reciprocal,
            surface_completion_rejected_fusion,
            surface_completion_rejected_footprint,
            reciprocal_checked_points,
            reciprocal_rejected_points,
            reciprocal_consistent_points,
            fusion_input_observations,
            fusion_rejected_observations,
            fusion_rejected_points,
            grid_stride,
            grid_border,
            measures,
            reference_frames,
            reference_attempts,
            reference_patches,
        },
        points,
        grid_sites,
    }
}

proof fn lemma_concat_len_prefix<P, E>(patches: Seq<AcceptedPatch<P, E>>, i: int)
    requires
        0 <= i <= patches.len(),
    ensures
        primary_concat(patches.take(i)).len() <= primary_concat(patches).len(),
        completion_concat(patches.take(i)).len() <= completion_concat(patches).len(),
    decreases patches.len() - i,
{
    if i < patches.len() {
        lemma_concat_step(patches, i);
        lemma_concat_len_prefix(patches, i + 1);
    } else {
        assert(patches.take(i) =~= patches);
    }
}

/// The fallback dense analysis, taken when no reference patch was accepted: the
/// single-reference estimation `fallback` as the dense analysis, with its attempt merged
/// into the attempts made before.
pub fn fallback_analysis<P, E: Copy>(
    attempts: Vec<DenseReferenceAttemptStats>,
    fallback: ReferenceDenseAnalysis<P, E>,
) -> (r: DenseAnalysis<P, E>)
    ensures
        single_reference_parts(r, fallback),
        exists|own: Seq<DenseReferenceAttemptStats>|
            single_reference_attempts(own, fallback) && r.stats.reference_attempts@ == merge_attempts(attempts@, own),
{
    let mut analysis = from_legacy(fallback);
    let mut own: Vec<DenseReferenceAttemptStats> = Vec::new();
    std::mem::swap(&mut own, &mut analysis.stats.reference_attempts);
    analysis.stats.reference_attempts = merge_fallback_attempts(attempts, own);
    analysis
}

/// The choice of reference patches: how many candidate reference frames were tried, the
/// patches accepted so far, and the attempt of every candidate that could be estimated.
pub struct DensePatchSelection<P, E> {
    pub tried: usize,
    pub patches: Vec<AcceptedPatch<P, E>>,
    pub attempts: Vec<DenseReferenceAttemptStats>,
}

impl<P, E> DensePatchSelection<P, E> {
    /// Nothing tried yet.
    pub fn new() -> (r: Self)
        ensures
            r.tried == 0,
            r.patches@.len() == 0,
            r.attempts@.len() == 0,
    {
        DensePatchSelection { tried: 0, patches: Vec::new(), attempts: Vec::new() }
    }

    /// Whether another candidate reference frame should be tried: fewer than the most
    /// attempts were made, and fewer than the most patches were accepted.
    pub fn wants_more(&self) -> (r: bool)
        ensures
            r == (self.tried < MAX_REFERENCE_ATTEMPTS && self.patches@.len() < MAX_REFERENCE_VIEWS),
    {
        self.tried < MAX_REFERENCE_ATTEMPTS && self.patches.len() < MAX_REFERENCE_VIEWS
    }

    /// Records the next candidate, `reference_frame`, with its estimation where one could
    /// be made: its attempt, accepted when the estimation ran and gave at least the
    /// minimum number of points, and then its patch.
    pub fn offer(&mut self, reference_frame: usize, analysis: Option<ReferenceDenseAnalysis<P, E>>)
        requires
            old(self).tried < usize::MAX,
            analysis matches Some(a) ==> a.grid_sites@.len() >= primary_count(a),
        ensures
            final(self).tried == old(self).tried + 1,
            match analysis {
                None => final(self).patches@ == old(self).patches@ && final(self).attempts@ == old(self).attempts@,
                Some(a) => {
                    let accepted = a.stats.attempted && a.points@.len() >= MIN_REFERENCE_PATCH_POINTS;
                    let attempt = final(self).attempts@.last();
                    &&& final(self).attempts@ == old(self).attempts@.push(attempt)
                    &&& attempt == attempt_of(reference_frame, a.stats, a.points@.len() as usize, accepted, attempt.skip_reason)
                    &&& opt_text(attempt.skip_reason) == attempt_skip_reason(a.stats, a.points@.len(), accepted)
                    &&& if accepted {
                        &&& final(self).patches@.len() == old(self).patches@.len() + 1
                        &&& final(self).patches@.drop_last() == old(self).patches@
                        &&& is_split_of(final(self).patches@.last(), reference_frame, a)
                    } else {
                        final(self).patches@ == old(self).patches@
                    }
                },
            },
    {
        self.tried = self.tried + 1;
        if let Some(a) = analysis {
            let n = a.points.len();
            let accepted = a.stats.attempted && n >= MIN_REFERENCE_PATCH_POINTS;
            let attempt = reference_attempt_stats(reference_frame, &a.stats, n, accepted);
            self.attempts.push(attempt);
            if accepted {
                let patch = split_patch(reference_frame, a);
                let ghost before = self.patches@;
                self.patches.push(patch);
                assert(self.patches@.drop_last() =~= before);
            }
        }
    }
}

impl<E> Default for DenseStats<E> {
    /// Statistics of a dense stage that did not run: no counts, no frames, no text.
    fn default() -> (r: Self)
        ensures
            !r.attempted && r.skip_reason is None && r.reference_frame is None && r.source_views == 0,
            r.source_frames@.len() == 0 && r.sampled_pixels == 0 && r.depth_hypotheses == 0,
            r.accepted_points == 0 && r.surface_completion_proposals == 0 && r.surface_completed_points == 0,
            r.surface_completion_rejected_texture == 0 && r.surface_completion_rejected_cross_view == 0,
            r.surface_completion_rejected_reciprocal == 0 && r.surface_completion_rejected_fusion == 0,
            r.surface_completion_rejected_footprint == 0 && r.grid_stride == 0 && r.grid_border == 0,
            r.reciprocal_checked_points == 0 && r.reciprocal_rejected_points == 0,
            r.reciprocal_consistent_points == 0 && r.fusion_input_observations == 0,
            r.fusion_rejected_observations == 0 && r.fusion_rejected_points == 0 && r.measures is None,
            r.reference_frames@.len() == 0 && r.reference_attempts@.len() == 0,
            r.reference_patches@.len() == 0,
    {
        DenseStats {
            attempted: false,
            skip_reason: None,
            reference_frame: None,
            source_views: 0,
            source_frames: Vec::new(),
            sampled_pixels: 0,
            depth_hypotheses: 0,
            accepted_points: 0,
            surface_completion_proposals: 0,
            surface_completed_points: 0,
            surface_completion_rejected_texture: 0,
            surface_completion_rejected_cross_view: 0,
            surface_completion_rejected_reciprocal: 0,
            surface_completion_rejected_fusion: 0,
            surface_completion_rejected_footprint: 0,
            grid_stride: 0,
            grid_border: 0,
            reciprocal_checked_points: 0,
            reciprocal_rejected_points: 0,
            reciprocal_consistent_points: 0,
            fusion_input_observations: 0,
            fusion_rejected_observations: 0,
            fusion_rejected_points: 0,
            measures: None,
            reference_frames: Vec::new(),
            reference_attempts: Vec::new(),
            reference_patches: Vec::new(),
        }
    }
}

/// The warning that describes the dense stage, with frames numbered from one; none when
/// it did not run. It reports the fused points when some were accepted, and otherwise
/// names the first gate that rejected every candidate.
pub open spec fn dense_warning_text<E>(dense: DenseStats<E>) -> Option<Seq<char>> {
    let frame = match dense.reference_frame {
        Some(f) => decimal((f + 1) as nat),
        None => decimal(0),
    };
    let views = decimal(dense.source_views as nat);
    if !dense.attempted {
        None
    } else if dense.accepted_points > 0 {
        Some(
            "Slice 4 dense point fusion accepted "@ + decimal(dense.accepted_points as nat)
                + " fused scene points from reference frame "@ + frame + " using "@ + views
                + " registered source views and "@ + decimal(dense.depth_hypotheses as nat)
                + " inverse-depth hypotheses. "@ + decimal(dense.reciprocal_consistent_points as nat)
                + " primary candidates passed reciprocal depth consistency; spatial fusion rejected "@
                + decimal(dense.fusion_rejected_observations as nat)
                + " reverse observations. Fused points remain separate from the sparse map; meshing, general multi-reference depth aggregation, and metric scale are not claimed yet."@,
        )
    } else if dense.reciprocal_consistent_points > 0 {
        Some(
            "Slice 4 dense point fusion ran from reference frame "@ + frame + " with "@ + views
                + " registered source views. "@ + decimal(dense.reciprocal_consistent_points as nat)
                + " primary candidates passed reciprocal depth consistency, but no fused point survived the spatial-consistency and minimum-observation gates; "@
                + decimal(dense.fusion_rejected_observations as nat)
                + " reverse observations were rejected as spatially inconsistent. No dense geometry was invented."@,
        )
    } else if dense.reciprocal_checked_points > 0 {
        Some(
            "Slice 4 coarse depth estimation ran from reference frame "@ + frame + " with "@ + views
                + " registered source views. "@ + decimal(dense.reciprocal_checked_points as nat)
                + " primary candidates passed the texture, photometric-error, and ambiguity gates, but reciprocal depth consistency rejected all of them. No dense geometry was invented."@,
        )
    } else {
        Some(
            "Slice 4 coarse depth estimation ran from reference frame "@ + frame + " with "@ + views
                + " registered source views, but no sampled pixel passed the texture, photometric-error, and ambiguity gates. No dense geometry was invented."@,
        )
    }
}

/// The warning that describes the dense stage; see `dense_warning_text`.
pub fn dense_warning<E>(dense: &DenseStats<E>) -> (r: Option<String>)
    requires
        dense.reference_frame matches Some(f) ==> f < usize::MAX,
    ensures
        opt_text(r) == dense_warning_text(*dense),
{
    if !dense.attempted {
        return None;
    }
    let frame = match dense.reference_frame {
        Some(f) => f + 1,
        None => 0,
    };
    let mut out: Vec<char> = Vec::new();
    if dense.accepted_points > 0 {
        push_str(&mut out, "Slice 4 dense point fusion accepted ");
        push_decimal(&mut out, dense.accepted_points);
        push_str(&mut out, " fused scene points from reference frame ");
        push_decimal(&mut out, frame);
        push_str(&mut out, " using ");
        push_decimal(&mut out, dense.source_views);
        push_str(&mut out, " registered source views and ");
        push_decimal(&mut out, dense.depth_hypotheses);
        push_str(&mut out, " inverse-depth hypotheses. ");
        push_decimal(&mut out, dense.reciprocal_consistent_points);
        push_str(&mut out, " primary candidates passed reciprocal depth consistency; spatial fusion rejected ");
        push_decimal(&mut out, dense.fusion_rejected_observations);
        push_str(
            &mut out,
            " reverse observations. Fused points remain separate from the sparse map; meshing, general multi-reference depth aggregation, and metric scale are not claimed yet.",
        );
    } else if dense.reciprocal_consistent_points > 0 {
        push_str(&mut out, "Slice 4 dense point fusion ran from reference frame ");
        push_decimal(&mut out, frame);
        push_str(&mut out, " with ");
        push_decimal(&mut out, dense.source_views);
        push_str(&mut out, " registered source views. ");
        push_decimal(&mut out, dense.reciprocal_consistent_points);
        push_str(
            &mut out,
            " primary candidates passed reciprocal depth consistency, but no fused point survived the spatial-consistency and minimum-observation gates; ",
        );
        push_decimal(&mut out, dense.fusion_rejected_observations);
        push_str(
            &mut out,
            " reverse observations were rejected as spatially inconsistent. No dense geometry was invented.",
        );
    } else if dense.reciprocal_checked_points > 0 {
        push_str(&mut out, "Slice 4 coarse depth estimation ran from reference frame ");
        push_decimal(&mut out, frame);
        push_str(&mut out, " with ");
        push_decimal(&mut out, dense.source_views);
        push_str(&mut out, " registered source views. ");
        push_decimal(&mut out, dense.reciprocal_checked_points);
        push_str(
            &mut out,
            " primary candidates passed the texture, photometric-error, and ambiguity gates, but reciprocal depth consistency rejected all of them. No dense geometry was invented.",
        );
    } else {
        push_str(&mut out, "Slice 4 coarse depth estimation ran from reference frame ");
        push_decimal(&mut out, frame);
        push_str(&mut out, " with ");
        push_decimal(&mut out, dense.source_views);
        push_str(
            &mut out,
            " registered source views, but no sampled pixel passed the texture, photometric-error, and ambiguity gates. No dense geometry was invented.",
        );
    }
    Some(string_from_chars(out.as_slice()))
}

proof fn lemma_concat_len_monotone<P, E>(patches: Seq<AcceptedPatch<P, E>>, i: int, j: int)
    requires
        0 <= i <= j <= patches.len(),
    ensures
        primary_concat(patches.take(i)).len() <= primary_concat(patches.take(j)).len(),
        completion_concat(patches.take(i)).len() <= completion_concat(patches.take(j)).len(),
{
    lemma_concat_len_prefix(patches.take(j), i);
    assert(patches.take(j).take(i) =~= patches.take(i));
}

/// The patches of a combined dense analysis never leave its points and never overlap:
/// each patch's primary points lie within the leading primary part, its completions
/// within the trailing completion part, and a later patch starts where an earlier one
/// has ended.
pub proof fn lemma_patch_ranges_disjoint<P, E>(records: Seq<DenseReferencePatchStats<E>>, patches: Seq<AcceptedPatch<P, E>>)
    requires
        patch_records(records, patches),
    ensures
        forall|k: int|
            0 <= k < records.len() ==> {
                &&& (#[trigger] records[k]).primary_start + records[k].primary_points <= primary_concat(patches).len()
                &&& primary_concat(patches).len() <= records[k].completion_start
                &&& records[k].completion_start + records[k].completed_points <= primary_concat(patches).len()
                    + completion_concat(patches).len()
            },
        forall|k: int, j: int|
            0 <= k < j < records.len() ==> {
                &&& #[trigger] records[k].primary_start + records[k].primary_points <= #[trigger] records[j].primary_start
                &&& records[k].completion_start + records[k].completed_points <= records[j].completion_start
            },
{
    assert forall|k: int| 0 <= k < records.len() implies {
        &&& (#[trigger] records[k]).primary_start + records[k].primary_points <= primary_concat(patches).len()
        &&& primary_concat(patches).len() <= records[k].completion_start
        &&& records[k].completion_start + records[k].completed_points <= primary_concat(patches).len()
            + completion_concat(patches).len()
    } by {
        lemma_concat_step(patches, k);
        lemma_concat_len_prefix(patches, k + 1);
    }
    assert forall|k: int, j: int| 0 <= k < j < records.len() implies {
        &&& #[trigger] records[k].primary_start + records[k].primary_points <= #[trigger] records[j].primary_start
        &&& records[k].completion_start + records[k].completed_points <= records[j].completion_start
    } by {
        lemma_concat_step(patches, k);
        lemma_concat_len_monotone(patches, k + 1, j);
    }
}

proof fn lemma_attempt_index_found(attempts: Seq<DenseReferenceAttemptStats>, f: usize)
    ensures
        attempt_index(attempts, f) matches Some(i) ==> i < attempts.len() && attempts[i as int].reference_frame == f,
        attempt_index(attempts, f) is None ==> forall|i: int|
            0 <= i < attempts.len() ==> #[trigger] attempts[i].reference_frame != f,
    decreases attempts.len(),
{
    if attempts.len() > 0 {
        lemma_attempt_index_found(attempts.drop_last(), f);
        if attempt_index(attempts, f) is None {
            assert forall|i: int| 0 <= i < attempts.len() implies #[trigger] attempts[i].reference_frame != f by {
                if i < attempts.len() - 1 {
                    assert(attempts.drop_last()[i] == attempts[i]);
                }
            }
        }
    }
}

/// `merged` keeps the attempts `earlier`: each stays as it was, or was replaced by an
/// accepted attempt for the same reference frame where it had been rejected.
pub open spec fn keeps_attempts(merged: Seq<DenseReferenceAttemptStats>, earlier: Seq<DenseReferenceAttemptStats>) -> bool {
    &&& merged.len() >= earlier.len()
    &&& forall|i: int|
        0 <= i < earlier.len() ==> #[trigger] merged[i] == earlier[i] || (merged[i].reference_frame
            == earlier[i].reference_frame && merged[i].accepted && !earlier[i].accepted)
}

/// Merging fallback attempts loses nothing: every earlier attempt stays, or gives way
/// to an accepted attempt for the same reference frame where it had been rejected (so an
/// accepted attempt is never replaced), and every reference frame of the fallback has an
/// attempt.
pub proof fn lemma_merge_keeps_attempts(attempts: Seq<DenseReferenceAttemptStats>, fallback: Seq<DenseReferenceAttemptStats>)
    ensures
        keeps_attempts(merge_attempts(attempts, fallback), attempts),
        forall|g: int|
            0 <= g < fallback.len() ==> exists|i: int|
                0 <= i < merge_attempts(attempts, fallback).len() && merge_attempts(attempts, fallback)[i].reference_frame
                    == (#[trigger] fallback[g]).reference_frame,
    decreases fallback.len(),
{
    if fallback.len() > 0 {
        let rest = fallback.drop_last();
        lemma_merge_keeps_attempts(attempts, rest);
        let a = merge_attempts(attempts, rest);
        let f = fallback.last();
        let m = merge_attempts(attempts, fallback);
        assert(m == merge_attempt(a, f));
        lemma_attempt_index_found(a, f.reference_frame);
        match attempt_index(a, f.reference_frame) {
            Some(i) => {
                if f.accepted && !a[i as int].accepted {
                    assert(m == a.update(i as int, f));
                    assert forall|q: int| 0 <= q < attempts.len() implies #[trigger] m[q] == attempts[q] || (
                    m[q].reference_frame == attempts[q].reference_frame && m[q].accepted && !attempts[q].accepted) by {
                        if q == i {
                            assert(a[q] == attempts[q] || a[q].accepted);
                        } else {
                            assert(m[q] == a[q]);
                        }
                    }
                    assert forall|g: int| 0 <= g < fallback.len() implies exists|q: int|
                        0 <= q < m.len() && m[q].reference_frame == (#[trigger] fallback[g]).reference_frame by {
                        if g < rest.len() {
                            assert(rest[g] == fallback[g]);
                            let q = choose|q: int| 0 <= q < a.len() && a[q].reference_frame == (#[trigger] rest[g]).reference_frame;
                            assert(m[q].reference_frame == a[q].reference_frame);
                        } else {
                            assert(m[i as int].reference_frame == f.reference_frame);
                        }
                    }
                } else {
                    assert(m == a);
                    assert forall|g: int| 0 <= g < fallback.len() implies exists|q: int|
                        0 <= q < m.len() && m[q].reference_frame == (#[trigger] fallback[g]).reference_frame by {
                        if g < rest.len() {
                            assert(rest[g] == fallback[g]);
                        } else {
                            assert(m[i as int].reference_frame == f.reference_frame);
                        }
                    }
                }
            },
            None => {
                assert(m == a.push(f));
                assert forall|q: int| 0 <= q < attempts.len() implies #[trigger] m[q] == attempts[q] || (
                m[q].reference_frame == attempts[q].reference_frame && m[q].accepted && !attempts[q].accepted) by {
                    assert(m[q] == a[q]);
                }
                assert forall|g: int| 0 <= g < fallback.len() implies exists|q: int|
                    0 <= q < m.len() && m[q].reference_frame == (#[trigger] fallback[g]).reference_frame by {
                    if g < rest.len() {
                        assert(rest[g] == fallback[g]);
                        let q = choose|q: int| 0 <= q < a.len() && a[q].reference_frame == (#[trigger] rest[g]).reference_frame;
                        assert(m[q] == a[q]);
                    } else {
                        assert(m[a.len() as int] == f);
                    }
                }
            },
        }
    }
}

/// The distance between two frame numbers.
pub open spec fn frame_distance(a: usize, b: usize) -> usize {
    if a >= b {
        (a - b) as usize
    } else {
        (b - a) as usize
    }
}

/// The cameras among the first `camera_frames.len()` other than `reference` whose frame
/// is one of `frame_count` frames, each keyed by its distance in frames to
/// `reference_frame` and then by its frame, in camera order.
pub open spec fn source_candidates(camera_frames: Seq<usize>, frame_count: nat, reference: nat, reference_frame: usize) -> Seq<
    ((usize, usize), usize),
>
    decreases camera_frames.len(),
{
    if camera_frames.len() == 0 {
        Seq::empty()
    } else {
        let c = camera_frames.len() - 1;
        let rest = source_candidates(camera_frames.drop_last(), frame_count, reference, reference_frame);
        let f = camera_frames[c];
        if c != reference && f < frame_count {
            rest.push(((frame_distance(f, reference_frame), f), c as usize))
        } else {
            rest
        }
    }
}

/// The order of the cameras of a reference patch: the reference camera first, then the
/// other cameras with an existing frame, nearest frame first, ties by frame and then by
/// camera order.
pub open spec fn patch_camera_order(camera_frames: Seq<usize>, frame_count: nat, reference: nat) -> Seq<usize> {
    seq![reference as usize] + sort_keyed(
        source_candidates(camera_frames, frame_count, reference, camera_frames[reference as int]),
    ).map_values(|x: ((usize, usize), usize)| x.1)
}

/// The order of the cameras of the reference patch of camera `reference_camera_index`,
/// given the frame of each camera and the number of frames.
pub fn reference_camera_order(camera_frames: &Vec<usize>, frame_count: usize, reference_camera_index: usize) -> (r: Vec<
    usize,
>)
    requires
        reference_camera_index < camera_frames@.len(),
    ensures
        r@ == patch_camera_order(camera_frames@, frame_count as nat, reference_camera_index as nat),
{
    let reference_frame = camera_frames[reference_camera_index];
    let n = camera_frames.len();
    let mut items: Vec<((usize, usize), usize)> = Vec::new();
    let mut c: usize = 0;
    assert(camera_frames@.take(0) =~= Seq::<usize>::empty());
    while c < n
        invariant
            c <= n == camera_frames@.len(),
            reference_frame == camera_frames@[reference_camera_index as int],
            items@ == source_candidates(
                camera_frames@.take(c as int),
                frame_count as nat,
                reference_camera_index as nat,
                reference_frame,
            ),
        decreases n - c,
    {
        let f = camera_frames[c];
        proof {
            assert(camera_frames@.take(c + 1).drop_last() =~= camera_frames@.take(c as int));
            assert(camera_frames@.take(c + 1)[c as int] == f);
        }
        if c != reference_camera_index && f < frame_count {
            let distance = if f >= reference_frame {
                f - reference_frame
            } else {
                reference_frame - f
            };
            items.push(((distance, f), c));
        }
        c = c + 1;
    }
    assert(camera_frames@.take(n as int) =~= camera_frames@);
    let sorted = sort_keyed_items(&items);
    let mut order: Vec<usize> = Vec::new();
    order.push(reference_camera_index);
    let m = sorted.len();
    let mut k: usize = 0;
    while k < m
        invariant
            k <= m == sorted@.len(),
            order@ == seq![reference_camera_index] + sorted@.take(k as int).map_values(
                |x: ((usize, usize), usize)| x.1,
            ),
        decreases m - k,
    {
        order.push(sorted[k].1);
        k = k + 1;
        assert(order@ =~= seq![reference_camera_index] + sorted@.take(k as int).map_values(
            |x: ((usize, usize), usize)| x.1,
        ));
    }
    assert(sorted@.take(m as int) =~= sorted@);
    order
}

/// The frames that the patch's source positions stand for: for each position in the
/// camera order that names a camera, that camera's frame.
pub open spec fn remapped_frames(positions: Seq<usize>, order: Seq<usize>, camera_frames: Seq<usize>) -> Seq<usize>
    decreases positions.len(),
{
    if positions.len() == 0 {
        Seq::empty()
    } else {
        let rest = remapped_frames(positions.drop_last(), order, camera_frames);
        let p = positions.last();
        if p < order.len() && order[p as int] < camera_frames.len() {
            rest.push(camera_frames[order[p as int] as int])
        } else {
            rest
        }
    }
}

/// Maps the source frames of a patch estimation, numbered by position in the camera
/// order, back to the frames of the cameras; positions that name no camera are dropped.
pub fn remap_source_frames(source_positions: &Vec<usize>, camera_order: &Vec<usize>, camera_frames: &Vec<usize>) -> (r: Vec<
    usize,
>)
    ensures
        r@ == remapped_frames(source_positions@, camera_order@, camera_frames@),
{
    let n = source_positions.len();
    let mut out: Vec<usize> = Vec::new();
    let mut i: usize = 0;
    assert(source_positions@.take(0) =~= Seq::<usize>::empty());
    while i < n
        invariant
            i <= n == source_positions@.len(),
            out@ == remapped_frames(source_positions@.take(i as int), camera_order@, camera_frames@),
        decreases n - i,
    {
        let p = source_positions[i];
        proof {
            assert(source_positions@.take(i + 1).drop_last() =~= source_positions@.take(i as int));
            assert(source_positions@.take(i + 1).last() == p);
        }
        if p < camera_order.len() && camera_order[p] < camera_frames.len() {
            out.push(camera_frames[camera_order[p]]);
        }
        i = i + 1;
    }
    assert(source_positions@.take(n as int) =~= source_positions@);
    out
}

} // verus!
