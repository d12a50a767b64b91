//! Provider-neutral reconstruction evidence: provenance regions, their validation and
//! summaries.
//!
//! Real-valued camera poses, confidences and point coordinates stay with the caller; the
//! checks here receive, for each camera, point and triangle, the outcome of its numeric
//! range test together with every index and frame number, and decide the rest.

use crate::sorted::copy_indices;
use crate::text::{
    chars_of, decimal, push_decimal, push_str, string_from_chars, trim, trim_chars,
};
use vstd::prelude::*;

verus! {

/// The schema version of the evidence contract.
pub const RECONSTRUCTION_EVIDENCE_SCHEMA_VERSION: u32 = 1;

/// The broad kind of a reconstruction backend.
#[derive(Clone, Copy, Debug, PartialEq, Eq, Structural)]
pub enum ReconstructionProviderClass {
    GeometricMultiView,
    LearnedMultiView,
    GenerativeCompletion,
}

/// Identifies the backend that produced a body of evidence.
#[derive(Clone, Debug)]
pub struct ReconstructionProviderDescriptor {
    pub id: String,
    pub class: ReconstructionProviderClass,
    pub version: Option<String>,
}

/// Whether a provider id is blank once white space is trimmed.
pub open spec fn blank(s: Seq<char>) -> bool {
    trim(s).len() == 0
}

impl ReconstructionProviderDescriptor {
    /// A descriptor; the id must hold a character that is not white space.
    pub fn new(id: String, class: ReconstructionProviderClass, version: Option<String>) -> (r: Result<
        Self,
        String,
    >)
        ensures
            blank(id@) ==> (r matches Err(m) && m@
                == "reconstruction evidence provider id must not be empty"@),
            !blank(id@) ==> (r matches Ok(d) && d.id@ == id@ && d.class == class && d.version
                == version),
    {
        let chars = chars_of(id.as_str());
        let trimmed = trim_chars(chars.as_slice());
        if trimmed.len() == 0 {
            return Err(
                string_from_chars(
                    chars_of("reconstruction evidence provider id must not be empty").as_slice(),
                ),
            );
        }
        Ok(ReconstructionProviderDescriptor { id, class, version })
    }

    /// The descriptor of the built-in geometric reconstruction.
    pub fn classic() -> (r: Self)
        ensures
            r.id@ == "video-to-3d-core/classic"@,
            r.class == ReconstructionProviderClass::GeometricMultiView,
            r.version matches Some(v) && v@ == "0.1.0"@,
    {
        ReconstructionProviderDescriptor {
            id: string_from_chars(chars_of("video-to-3d-core/classic").as_slice()),
            class: ReconstructionProviderClass::GeometricMultiView,
            version: Some(string_from_chars(chars_of("0.1.0").as_slice())),
        }
    }
}

/// The scale in which a provider expresses its geometry.
#[derive(Clone, Copy, Debug, PartialEq, Eq, Structural)]
pub enum EvidenceScale {
    ArbitraryMonocular,
    Metric,
    ProviderLocal,
}

/// On what authority a camera pose stands.
#[derive(Clone, Copy, Debug, PartialEq, Eq, Structural)]
pub enum EvidenceCameraAuthority {
    CalibratedSeed,
    RegisteredGeometry,
    ProviderEstimated,
}

/// How a region of surface points came about.
#[derive(Clone, Copy, Debug, PartialEq, Eq, Structural)]
pub enum EvidenceOrigin {
    GeometricMultiView,
    RevalidatedCompletion,
    LearnedMultiView,
    GenerativeCompletion,
}

/// Whether regions of this origin must name the cameras that observed them.
pub open spec fn origin_requires_cameras(origin: EvidenceOrigin) -> bool {
    origin != EvidenceOrigin::GenerativeCompletion
}

impl EvidenceOrigin {
    /// Every origin but generative completion rests on camera evidence.
    pub fn requires_camera_evidence(self) -> (r: bool)
        ensures
            r == origin_requires_cameras(self),
    {
        !matches!(self, EvidenceOrigin::GenerativeCompletion)
    }
}

/// The points `start..start + count` of the shared point buffer.
#[derive(Clone, Copy, Debug, PartialEq, Eq, Structural)]
pub struct EvidenceRange {
    pub start: usize,
    pub count: usize,
}

impl EvidenceRange {
    pub fn new(start: usize, count: usize) -> (r: Self)
        ensures
            r.start == start && r.count == count,
    {
        EvidenceRange { start, count }
    }

    /// The end of the range, unless it exceeds `usize`.
    pub fn end(self) -> (r: Option<usize>)
        ensures
            self.start + self.count <= usize::MAX ==> r == Some((self.start + self.count) as usize),
            self.start + self.count > usize::MAX ==> r.is_none(),
    {
        self.start.checked_add(self.count)
    }
}

/// A run of surface points with its provenance.
#[derive(Clone, Debug)]
pub struct SurfaceEvidenceRegion {
    pub origin: EvidenceOrigin,
    pub reference_frame: Option<usize>,
    pub source_frames: Vec<usize>,
    pub points: EvidenceRange,
}

/// Counts of the validated evidence by kind.
#[derive(Clone, Debug, PartialEq, Eq, Structural)]
pub struct ReconstructionEvidenceSummary {
    pub cameras: usize,
    pub regions: usize,
    pub geometric_points: usize,
    pub revalidated_completion_points: usize,
    pub learned_points: usize,
    pub generative_completion_points: usize,
    pub total_points: usize,
    pub triangles: usize,
}

impl Default for ReconstructionEvidenceSummary {
    fn default() -> (r: Self)
        ensures
            r.cameras == 0 && r.regions == 0 && r.geometric_points == 0
                && r.revalidated_completion_points == 0 && r.learned_points == 0
                && r.generative_completion_points == 0 && r.total_points == 0 && r.triangles == 0,
    {
        ReconstructionEvidenceSummary {
            cameras: 0,
            regions: 0,
            geometric_points: 0,
            revalidated_completion_points: 0,
            learned_points: 0,
            generative_completion_points: 0,
            total_points: 0,
            triangles: 0,
        }
    }
}

/// Sum of the point counts of the regions of one origin.
pub open spec fn origin_points(regions: Seq<SurfaceEvidenceRegion>, origin: EvidenceOrigin) -> nat
    decreases regions.len(),
{
    if regions.len() == 0 {
        0
    } else {
        origin_points(regions.drop_last(), origin) + if regions.last().origin == origin {
            regions.last().points.count as nat
        } else {
            0
        }
    }
}

/// Sum of the point counts of all regions.
pub open spec fn all_region_points(regions: Seq<SurfaceEvidenceRegion>) -> nat
    decreases regions.len(),
{
    if regions.len() == 0 {
        0
    } else {
        all_region_points(regions.drop_last()) + regions.last().points.count as nat
    }
}

proof fn lemma_origin_points_bounded(regions: Seq<SurfaceEvidenceRegion>, origin: EvidenceOrigin)
    ensures
        origin_points(regions, origin) <= all_region_points(regions),
    decreases regions.len(),
{
    if regions.len() > 0 {
        lemma_origin_points_bounded(regions.drop_last(), origin);
    }
}

/// The evidence counts: the number of cameras, regions, points and triangles, and the
/// points of the regions of each origin.
pub fn summarize(
    cameras: usize,
    regions: &Vec<SurfaceEvidenceRegion>,
    total_points: usize,
    triangles: usize,
) -> (r: ReconstructionEvidenceSummary)
    requires
        all_region_points(regions@) <= usize::MAX,
    ensures
        r.cameras == cameras,
        r.regions == regions@.len(),
        r.total_points == total_points,
        r.triangles == triangles,
        r.geometric_points == origin_points(regions@, EvidenceOrigin::GeometricMultiView),
        r.revalidated_completion_points == origin_points(
            regions@,
            EvidenceOrigin::RevalidatedCompletion,
        ),
        r.learned_points == origin_points(regions@, EvidenceOrigin::LearnedMultiView),
        r.generative_completion_points == origin_points(
            regions@,
            EvidenceOrigin::GenerativeCompletion,
        ),
{
    let mut summary = ReconstructionEvidenceSummary {
        cameras,
        regions: regions.len(),
        geometric_points: 0,
        revalidated_completion_points: 0,
        learned_points: 0,
        generative_completion_points: 0,
        total_points,
        triangles,
    };
    let n = regions.len();
    let mut i: usize = 0;
    while i < n
        invariant
            i <= n == regions@.len(),
            all_region_points(regions@) <= usize::MAX,
            summary.cameras == cameras,
            summary.regions == n,
            summary.total_points == total_points,
            summary.triangles == triangles,
            summary.geometric_points == origin_points(
                regions@.take(i as int),
                EvidenceOrigin::GeometricMultiView,
            ),
            summary.revalidated_completion_points == origin_points(
                regions@.take(i as int),
                EvidenceOrigin::RevalidatedCompletion,
            ),
            summary.learned_points == origin_points(
                regions@.take(i as int),
                EvidenceOrigin::LearnedMultiView,
            ),
            summary.generative_completion_points == origin_points(
                regions@.take(i as int),
                EvidenceOrigin::GenerativeCompletion,
            ),
            all_region_points(regions@.take(i as int)) <= all_region_points(regions@),
        decreases n - i,
    {
        let ghost next = regions@.take(i + 1);
        assert(next.drop_last() =~= regions@.take(i as int));
        proof {
            lemma_all_region_points_prefix(regions@, i + 1);
            lemma_origin_points_bounded(next, regions@[i as int].origin);
        }
        let count = regions[i].points.count;
        match regions[i].origin {
            EvidenceOrigin::GeometricMultiView => {
                summary.geometric_points = summary.geometric_points + count;
            },
            EvidenceOrigin::RevalidatedCompletion => {
                summary.revalidated_completion_points = summary.revalidated_completion_points
                    + count;
            },
            EvidenceOrigin::LearnedMultiView => {
                summary.learned_points = summary.learned_points + count;
            },
            EvidenceOrigin::GenerativeCompletion => {
                summary.generative_completion_points = summary.generative_completion_points
                    + count;
            },
        }
        i = i + 1;
    }
    assert(regions@.take(n as int) =~= regions@);
    summary
}

proof fn lemma_all_region_points_prefix(regions: Seq<SurfaceEvidenceRegion>, k: int)
    requires
        0 <= k <= regions.len(),
    ensures
        all_region_points(regions.take(k)) <= all_region_points(regions),
    decreases regions.len() - k,
{
    if k < regions.len() {
        lemma_all_region_points_prefix(regions, k + 1);
        assert(regions.take(k + 1).drop_last() =~= regions.take(k));
    } else {
        assert(regions.take(k) =~= regions);
    }
}

/// What a camera of the evidence contributes to validation: its frame and whether its
/// pose is finite, its confidence lies in `0..=1` and its reprojection error is a
/// non-negative finite number (each `true` where the camera has none).
#[derive(Clone, Copy, Debug)]
pub struct EvidenceCameraCheck {
    pub frame_index: usize,
    pub finite_pose: bool,
    pub valid_confidence: bool,
    pub valid_reprojection_error: bool,
}

/// What a triangle contributes to validation: its point indices and whether its
/// confidence is a finite number in `0..=1`.
#[derive(Clone, Copy, Debug)]
pub struct EvidenceTriangleCheck {
    pub a: usize,
    pub b: usize,
    pub c: usize,
    pub valid_confidence: bool,
}

/// `prefix`, the decimal `n`, then `suffix`.
pub open spec fn numbered(prefix: Seq<char>, n: nat, suffix: Seq<char>) -> Seq<char> {
    prefix + decimal(n) + suffix
}

fn numbered_message(prefix: &str, n: usize, suffix: &str) -> (r: Vec<char>)
    ensures
        r@ == numbered(prefix@, n as nat, suffix@),
{
    let mut out: Vec<char> = Vec::new();
    push_str(&mut out, prefix);
    push_decimal(&mut out, n);
    push_str(&mut out, suffix);
    out
}

/// Whether camera `i` repeats the frame of an earlier camera.
pub open spec fn repeats_earlier_frame(cameras: Seq<EvidenceCameraCheck>, i: int) -> bool {
    exists|j: int| 0 <= j < i && #[trigger] cameras[j].frame_index == cameras[i].frame_index
}

/// The fault of camera `i`, if it has one.
pub open spec fn camera_fault(cameras: Seq<EvidenceCameraCheck>, i: int) -> Option<Seq<char>> {
    let f = cameras[i].frame_index as nat;
    if repeats_earlier_frame(cameras, i) {
        Some(numbered("reconstruction evidence contains duplicate camera frame "@, f, ""@))
    } else if !cameras[i].finite_pose {
        Some(numbered("reconstruction evidence camera "@, f, " contains a non-finite pose"@))
    } else if !cameras[i].valid_confidence {
        Some(numbered("reconstruction evidence camera "@, f, " has invalid confidence"@))
    } else if !cameras[i].valid_reprojection_error {
        Some(numbered("reconstruction evidence camera "@, f, " has invalid reprojection error"@))
    } else {
        None
    }
}

/// The fault of the first faulty camera at or after `i`.
pub open spec fn first_camera_fault(cameras: Seq<EvidenceCameraCheck>, i: nat) -> Option<Seq<char>>
    decreases cameras.len() - i,
{
    if i >= cameras.len() {
        None
    } else {
        match camera_fault(cameras, i as int) {
            Some(m) => Some(m),
            None => first_camera_fault(cameras, i + 1),
        }
    }
}

/// Checks the cameras in order: no frame twice, finite poses, and valid confidences and
/// reprojection errors.
pub fn validate_cameras(cameras: &[EvidenceCameraCheck]) -> (r: Result<(), String>)
    ensures
        match first_camera_fault(cameras@, 0) {
            None => r is Ok,
            Some(m) => r matches Err(e) && e@ == m,
        },
        r is Ok ==> accepted_cameras_sound(cameras@),
{
    let n = cameras.len();
    let mut seen: Vec<usize> = Vec::new();
    let mut i: usize = 0;
    while i < n
        invariant
            i <= n == cameras@.len(),
            seen@.len() == i,
            forall|j: int| 0 <= j < i ==> seen@[j] == #[trigger] cameras@[j].frame_index,
            first_camera_fault(cameras@, 0) == first_camera_fault(cameras@, i as nat),
        decreases n - i,
    {
        let camera = cameras[i];
        let f = camera.frame_index;
        let mut k: usize = 0;
        let mut repeated = false;
        while k < i
            invariant
                k <= i < n == cameras@.len(),
                seen@.len() == i,
                forall|j: int| 0 <= j < i ==> seen@[j] == #[trigger] cameras@[j].frame_index,
                f == cameras@[i as int].frame_index,
                repeated == exists|j: int| 0 <= j < k && #[trigger] cameras@[j].frame_index == f,
            decreases i - k,
        {
            assert(seen@[k as int] == cameras@[k as int].frame_index);
            if seen[k] == f {
                repeated = true;
            }
            k = k + 1;
        }
        if repeated {
            let m = numbered_message("reconstruction evidence contains duplicate camera frame ", f, "");
            return Err(string_from_chars(m.as_slice()));
        }
        if !camera.finite_pose {
            let m = numbered_message("reconstruction evidence camera ", f, " contains a non-finite pose");
            return Err(string_from_chars(m.as_slice()));
        }
        if !camera.valid_confidence {
            let m = numbered_message("reconstruction evidence camera ", f, " has invalid confidence");
            return Err(string_from_chars(m.as_slice()));
        }
        if !camera.valid_reprojection_error {
            let m = numbered_message(
                "reconstruction evidence camera ",
                f,
                " has invalid reprojection error",
            );
            return Err(string_from_chars(m.as_slice()));
        }
        seen.push(f);
        i = i + 1;
    }
    proof {
        lemma_first_camera_fault_none(cameras@, 0);
        assert forall|j: int| 0 <= j < cameras@.len() implies {
            let c = #[trigger] cameras@[j];
            c.finite_pose && c.valid_confidence && c.valid_reprojection_error
        } by {
            assert(camera_fault(cameras@, j) is None);
        }
    }
    Ok(())
}

/// The first point whose coordinates or confidence are invalid.
pub open spec fn first_invalid_point(valid: Seq<bool>, i: nat) -> Option<nat>
    decreases valid.len() - i,
{
    if i >= valid.len() {
        None
    } else if !valid[i as int] {
        Some(i)
    } else {
        first_invalid_point(valid, i + 1)
    }
}

/// Checks that every point has finite coordinates and a confidence in `0..=1`;
/// `valid[i]` says whether point `i` does.
pub fn validate_points(valid: &[bool]) -> (r: Result<(), String>)
    ensures
        match first_invalid_point(valid@, 0) {
            None => r is Ok,
            Some(i) => r matches Err(e) && e@ == numbered(
                "reconstruction evidence point "@,
                i,
                " contains invalid geometry/confidence"@,
            ),
        },
{
    let n = valid.len();
    let mut i: usize = 0;
    while i < n
        invariant
            i <= n == valid@.len(),
            first_invalid_point(valid@, 0) == first_invalid_point(valid@, i as nat),
        decreases n - i,
    {
        if !valid[i] {
            let m = numbered_message(
                "reconstruction evidence point ",
                i,
                " contains invalid geometry/confidence",
            );
            return Err(string_from_chars(m.as_slice()));
        }
        i = i + 1;
    }
    Ok(())
}

/// The fault of triangle `i` over `point_count` shared points, if it has one.
pub open spec fn triangle_fault(triangles: Seq<EvidenceTriangleCheck>, i: int, point_count: nat) -> Option<
    Seq<char>,
> {
    let t = triangles[i];
    if t.a >= point_count || t.b >= point_count || t.c >= point_count {
        Some(
            numbered(
                "reconstruction evidence triangle "@,
                i as nat,
                " references a point outside the shared evidence buffer"@,
            ),
        )
    } else if t.a == t.b || t.b == t.c || t.c == t.a {
        Some(numbered("reconstruction evidence triangle "@, i as nat, " is topologically degenerate"@))
    } else if !t.valid_confidence {
        Some(numbered("reconstruction evidence triangle "@, i as nat, " has invalid confidence"@))
    } else {
        None
    }
}

/// The fault of the first faulty triangle at or after `i`.
pub open spec fn first_triangle_fault(
    triangles: Seq<EvidenceTriangleCheck>,
    i: nat,
    point_count: nat,
) -> Option<Seq<char>>
    decreases triangles.len() - i,
{
    if i >= triangles.len() {
        None
    } else {
        match triangle_fault(triangles, i as int, point_count) {
            Some(m) => Some(m),
            None => first_triangle_fault(triangles, i + 1, point_count),
        }
    }
}

/// Checks that every triangle joins three distinct points of the shared buffer and has
/// a valid confidence.
pub fn validate_triangles(triangles: &[EvidenceTriangleCheck], point_count: usize) -> (r: Result<
    (),
    String,
>)
    ensures
        match first_triangle_fault(triangles@, 0, point_count as nat) {
            None => r is Ok,
            Some(m) => r matches Err(e) && e@ == m,
        },
{
    let n = triangles.len();
    let mut i: usize = 0;
    while i < n
        invariant
            i <= n == triangles@.len(),
            first_triangle_fault(triangles@, 0, point_count as nat) == first_triangle_fault(
                triangles@,
                i as nat,
                point_count as nat,
            ),
        decreases n - i,
    {
        let t = triangles[i];
        if t.a >= point_count || t.b >= point_count || t.c >= point_count {
            let m = numbered_message(
                "reconstruction evidence triangle ",
                i,
                " references a point outside the shared evidence buffer",
            );
            return Err(string_from_chars(m.as_slice()));
        }
        if t.a == t.b || t.b == t.c || t.c == t.a {
            let m = numbered_message(
                "reconstruction evidence triangle ",
                i,
                " is topologically degenerate",
            );
            return Err(string_from_chars(m.as_slice()));
        }
        if !t.valid_confidence {
            let m = numbered_message("reconstruction evidence triangle ", i, " has invalid confidence");
            return Err(string_from_chars(m.as_slice()));
        }
        i = i + 1;
    }
    Ok(())
}

/// Whether some camera of the evidence has frame `f`.
pub open spec fn frame_accepted(cameras: Seq<EvidenceCameraCheck>, f: usize) -> bool {
    exists|j: int| 0 <= j < cameras.len() && #[trigger] cameras[j].frame_index == f
}

/// The first source frame at or after `k` that no camera has.
pub open spec fn first_unaccepted_source(
    cameras: Seq<EvidenceCameraCheck>,
    sources: Seq<usize>,
    k: nat,
) -> Option<usize>
    decreases sources.len() - k,
{
    if k >= sources.len() {
        None
    } else if !frame_accepted(cameras, sources[k as int]) {
        Some(sources[k as int])
    } else {
        first_unaccepted_source(cameras, sources, k + 1)
    }
}

/// `"reconstruction evidence region {i}"` followed by `tail`.
pub open spec fn region_message(i: nat, tail: Seq<char>) -> Seq<char> {
    numbered("reconstruction evidence region "@, i, tail)
}

/// The fault of region `i`, if it has one: an empty, overflowing or out-of-buffer
/// range, or missing or unaccepted cameras where its origin needs them.
pub open spec fn region_fault(
    regions: Seq<SurfaceEvidenceRegion>,
    i: int,
    point_count: nat,
    cameras: Seq<EvidenceCameraCheck>,
) -> Option<Seq<char>> {
    let r = regions[i];
    let idx = i as nat;
    let start = r.points.start as nat;
    let end = r.points.start + r.points.count;
    if r.points.count == 0 {
        Some(region_message(idx, " has an empty point range"@))
    } else if end > usize::MAX {
        Some(region_message(idx, " point range overflows"@))
    } else if end > point_count {
        Some(
            region_message(idx, " point range "@) + decimal(start) + ".."@ + decimal(end as nat)
                + " exceeds "@ + decimal(point_count) + " dense points"@,
        )
    } else if origin_requires_cameras(r.origin) {
        match r.reference_frame {
            None => Some(region_message(idx, " requires a reference camera"@)),
            Some(f) => if !frame_accepted(cameras, f) {
                Some(region_message(idx, " references unaccepted camera frame "@) + decimal(f as nat))
            } else if r.source_frames@.len() == 0 {
                Some(region_message(idx, " has no supporting source cameras"@))
            } else {
                match first_unaccepted_source(cameras, r.source_frames@, 0) {
                    Some(sf) => Some(
                        region_message(idx, " references unaccepted source camera frame "@)
                            + decimal(sf as nat),
                    ),
                    None => None,
                }
            },
        }
    } else {
        None
    }
}

/// The fault of the first faulty region at or after `i`.
pub open spec fn first_region_fault(
    regions: Seq<SurfaceEvidenceRegion>,
    i: nat,
    point_count: nat,
    cameras: Seq<EvidenceCameraCheck>,
) -> Option<Seq<char>>
    decreases regions.len() - i,
{
    if i >= regions.len() {
        None
    } else {
        match region_fault(regions, i as int, point_count, cameras) {
            Some(m) => Some(m),
            None => first_region_fault(regions, i + 1, point_count, cameras),
        }
    }
}

/// The point range of each region as `(start, end, region index)`.
pub open spec fn region_intervals(regions: Seq<SurfaceEvidenceRegion>) -> Seq<(usize, usize, usize)> {
    Seq::new(
        regions.len(),
        |i: int|
            (
                regions[i].points.start,
                (regions[i].points.start + regions[i].points.count) as usize,
                i as usize,
            ),
    )
}

/// Inserts `x` after every element whose start is at most its own.
pub open spec fn insert_by_start(s: Seq<(usize, usize, usize)>, x: (usize, usize, usize)) -> Seq<
    (usize, usize, usize),
>
    decreases s.len(),
{
    if s.len() == 0 {
        seq![x]
    } else if x.0 < s[0].0 {
        seq![x] + s
    } else {
        seq![s[0]] + insert_by_start(s.drop_first(), x)
    }
}

/// `s` sorted by start; equal starts keep their order (a stable sort).
pub open spec fn sort_by_start(s: Seq<(usize, usize, usize)>) -> Seq<(usize, usize, usize)>
    decreases s.len(),
{
    if s.len() == 0 {
        Seq::empty()
    } else {
        insert_by_start(sort_by_start(s.drop_last()), s.last())
    }
}

/// Walks the sorted ranges from point `cursor`: each must start where the previous one
/// ended, and the last must end at `point_count`.
pub open spec fn partition_fault(
    sorted: Seq<(usize, usize, usize)>,
    k: nat,
    cursor: nat,
    point_count: nat,
) -> Option<Seq<char>>
    decreases sorted.len() - k,
{
    if k >= sorted.len() {
        if cursor != point_count {
            Some(
                "reconstruction evidence provenance covers "@ + decimal(cursor) + " of "@ + decimal(
                    point_count,
                ) + " dense points"@,
            )
        } else {
            None
        }
    } else {
        let (start, end, region) = sorted[k as int];
        if start != cursor {
            Some(
                numbered(
                    "reconstruction evidence provenance is not an exact non-overlapping partition at region "@,
                    region as nat,
                    ": expected point "@,
                ) + decimal(cursor) + ", found range "@ + decimal(start as nat) + ".."@ + decimal(
                    end as nat,
                ),
            )
        } else {
            partition_fault(sorted, k + 1, end as nat, point_count)
        }
    }
}

/// The fault of the provenance regions over `point_count` points, if there is one.
pub open spec fn regions_fault(
    regions: Seq<SurfaceEvidenceRegion>,
    point_count: nat,
    cameras: Seq<EvidenceCameraCheck>,
) -> Option<Seq<char>> {
    if point_count == 0 {
        if regions.len() == 0 {
            None
        } else {
            Some("reconstruction evidence has surface regions but no dense points"@)
        }
    } else if regions.len() == 0 {
        Some("reconstruction evidence dense points have no provenance regions"@)
    } else {
        match first_region_fault(regions, 0, point_count, cameras) {
            Some(m) => Some(m),
            None => partition_fault(sort_by_start(region_intervals(regions)), 0, 0, point_count),
        }
    }
}

/// The first index whose start exceeds that of `x`, or the length.
pub open spec fn insertion_point(s: Seq<(usize, usize, usize)>, x: (usize, usize, usize)) -> nat
    decreases s.len(),
{
    if s.len() == 0 {
        0
    } else if x.0 < s[0].0 {
        0
    } else {
        1 + insertion_point(s.drop_first(), x)
    }
}

proof fn lemma_insert_by_start(s: Seq<(usize, usize, usize)>, x: (usize, usize, usize))
    ensures
        insertion_point(s, x) <= s.len(),
        insert_by_start(s, x) == s.insert(insertion_point(s, x) as int, x),
    decreases s.len(),
{
    if s.len() > 0 && !(x.0 < s[0].0) {
        lemma_insert_by_start(s.drop_first(), x);
        let p = insertion_point(s.drop_first(), x) as int;
        assert(seq![s[0]] + s.drop_first().insert(p, x) =~= s.insert(p + 1, x));
    } else if s.len() > 0 {
        assert(seq![x] + s =~= s.insert(0, x));
    } else {
        assert(seq![x] =~= s.insert(0, x));
    }
}

proof fn lemma_insertion_point_at(s: Seq<(usize, usize, usize)>, x: (usize, usize, usize), p: int)
    requires
        0 <= p <= s.len(),
        forall|k: int| 0 <= k < p ==> !(x.0 < #[trigger] s[k].0),
        p == s.len() || x.0 < s[p].0,
    ensures
        insertion_point(s, x) == p,
    decreases p,
{
    if p > 0 {
        lemma_insertion_point_at(s.drop_first(), x, p - 1);
    }
}

/// The ranges in order of their start, equal starts in region order.
fn sort_intervals(intervals: Vec<(usize, usize, usize)>) -> (r: Vec<(usize, usize, usize)>)
    ensures
        r@ == sort_by_start(intervals@),
{
    let n = intervals.len();
    let mut sorted: Vec<(usize, usize, usize)> = Vec::new();
    let mut k: usize = 0;
    while k < n
        invariant
            k <= n == intervals@.len(),
            sorted@ == sort_by_start(intervals@.take(k as int)),
            sorted@.len() == k,
        decreases n - k,
    {
        let x = intervals[k];
        let m = sorted.len();
        let mut p: usize = 0;
        while p < m && !(x.0 < sorted[p].0)
            invariant
                p <= m == sorted@.len(),
                forall|j: int| 0 <= j < p ==> !(x.0 < #[trigger] sorted@[j].0),
            decreases m - p,
        {
            p = p + 1;
        }
        proof {
            lemma_insertion_point_at(sorted@, x, p as int);
            lemma_insert_by_start(sorted@, x);
            assert(intervals@.take(k + 1).drop_last() =~= intervals@.take(k as int));
            assert(intervals@.take(k + 1).last() == x);
        }
        sorted.insert(p, x);
        k = k + 1;
    }
    assert(intervals@.take(n as int) =~= intervals@);
    sorted
}

fn push_region_message(out: &mut Vec<char>, i: usize, tail: &str)
    ensures
        final(out)@ == old(out)@ + region_message(i as nat, tail@),
{
    push_str(out, "reconstruction evidence region ");
    push_decimal(out, i);
    push_str(out, tail);
}

/// The fault of region `i` over `point_count` points, if it has one.
#[verifier::loop_isolation(false)]
fn check_region(
    regions: &Vec<SurfaceEvidenceRegion>,
    i: usize,
    point_count: usize,
    cameras: &[EvidenceCameraCheck],
) -> (r: Option<Vec<char>>)
    requires
        i < regions@.len(),
    ensures
        match region_fault(regions@, i as int, point_count as nat, cameras@) {
            None => r is None,
            Some(m) => r matches Some(v) && v@ == m,
        },
{
    let region = &regions[i];
    let start = region.points.start;
    let count = region.points.count;
    let mut out: Vec<char> = Vec::new();
    if count == 0 {
        push_region_message(&mut out, i, " has an empty point range");
        return Some(out);
    }
    let end = match start.checked_add(count) {
        Some(e) => e,
        None => {
            push_region_message(&mut out, i, " point range overflows");
            return Some(out);
        },
    };
    if end > point_count {
        push_region_message(&mut out, i, " point range ");
        push_decimal(&mut out, start);
        push_str(&mut out, "..");
        push_decimal(&mut out, end);
        push_str(&mut out, " exceeds ");
        push_decimal(&mut out, point_count);
        push_str(&mut out, " dense points");
        return Some(out);
    }
    if region.origin.requires_camera_evidence() {
        let reference = match region.reference_frame {
            None => {
                push_region_message(&mut out, i, " requires a reference camera");
                return Some(out);
            },
            Some(f) => f,
        };
        if !camera_has_frame(cameras, reference) {
            push_region_message(&mut out, i, " references unaccepted camera frame ");
            push_decimal(&mut out, reference);
            return Some(out);
        }
        let sources = &region.source_frames;
        if sources.len() == 0 {
            push_region_message(&mut out, i, " has no supporting source cameras");
            return Some(out);
        }
        let ns = sources.len();
        let mut k: usize = 0;
        while k < ns
            invariant
                k <= ns == sources@.len(),
                sources@ == regions@[i as int].source_frames@,
                out@.len() == 0,
                first_unaccepted_source(cameras@, sources@, 0) == first_unaccepted_source(
                    cameras@,
                    sources@,
                    k as nat,
                ),
            decreases ns - k,
        {
            if !camera_has_frame(cameras, sources[k]) {
                push_region_message(&mut out, i, " references unaccepted source camera frame ");
                push_decimal(&mut out, sources[k]);
                return Some(out);
            }
            k = k + 1;
        }
    }
    None
}

/// Whether some camera has frame `f`.
fn camera_has_frame(cameras: &[EvidenceCameraCheck], f: usize) -> (r: bool)
    ensures
        r == frame_accepted(cameras@, f),
{
    let n = cameras.len();
    let mut j: usize = 0;
    while j < n
        invariant
            j <= n == cameras@.len(),
            forall|k: int| 0 <= k < j ==> #[trigger] cameras@[k].frame_index != f,
        decreases n - j,
    {
        if cameras[j].frame_index == f {
            return true;
        }
        j = j + 1;
    }
    false
}

/// Checks that the regions label every one of `point_count` points exactly once, with
/// accepted cameras wherever their origin needs them.
#[verifier::loop_isolation(false)]
pub fn validate_regions(
    regions: &Vec<SurfaceEvidenceRegion>,
    point_count: usize,
    cameras: &[EvidenceCameraCheck],
) -> (r: Result<(), String>)
    ensures
        match regions_fault(regions@, point_count as nat, cameras@) {
            None => r is Ok,
            Some(m) => r matches Err(e) && e@ == m,
        },
{
    if point_count == 0 {
        if regions.len() == 0 {
            return Ok(());
        }
        return Err(
            string_from_chars(
                chars_of("reconstruction evidence has surface regions but no dense points").as_slice(),
            ),
        );
    }
    if regions.len() == 0 {
        return Err(
            string_from_chars(
                chars_of("reconstruction evidence dense points have no provenance regions").as_slice(),
            ),
        );
    }
    let n = regions.len();
    let mut intervals: Vec<(usize, usize, usize)> = Vec::new();
    let mut i: usize = 0;
    while i < n
        invariant
            i <= n == regions@.len(),
            point_count > 0,
            first_region_fault(regions@, 0, point_count as nat, cameras@) == first_region_fault(
                regions@,
                i as nat,
                point_count as nat,
                cameras@,
            ),
            intervals@ == region_intervals(regions@).take(i as int),
        decreases n - i,
    {
        match check_region(regions, i, point_count, cameras) {
            Some(m) => {
                return Err(string_from_chars(m.as_slice()));
            },
            None => {},
        }
        let start = regions[i].points.start;
        let end = start + regions[i].points.count;
        intervals.push((start, end, i));
        i = i + 1;
        assert(intervals@ =~= region_intervals(regions@).take(i as int));
    }
    assert(region_intervals(regions@).take(n as int) =~= region_intervals(regions@));
    let sorted = sort_intervals(intervals);
    let m = sorted.len();
    let mut k: usize = 0;
    let mut cursor: usize = 0;
    while k < m
        invariant
            k <= m == sorted@.len(),
            sorted@ == sort_by_start(region_intervals(regions@)),
            partition_fault(sorted@, 0, 0, point_count as nat) == partition_fault(
                sorted@,
                k as nat,
                cursor as nat,
                point_count as nat,
            ),
        decreases m - k,
    {
        let (start, end, region) = sorted[k];
        if start != cursor {
            let mut out = numbered_message(
                "reconstruction evidence provenance is not an exact non-overlapping partition at region ",
                region,
                ": expected point ",
            );
            push_decimal(&mut out, cursor);
            push_str(&mut out, ", found range ");
            push_decimal(&mut out, start);
            push_str(&mut out, "..");
            push_decimal(&mut out, end);
            return Err(string_from_chars(out.as_slice()));
        }
        cursor = end;
        k = k + 1;
    }
    if cursor != point_count {
        let mut out: Vec<char> = Vec::new();
        push_str(&mut out, "reconstruction evidence provenance covers ");
        push_decimal(&mut out, cursor);
        push_str(&mut out, " of ");
        push_decimal(&mut out, point_count);
        push_str(&mut out, " dense points");
        return Err(string_from_chars(out.as_slice()));
    }
    Ok(())
}

/// Whether region `r` holds point `p`.
pub open spec fn region_covers(r: SurfaceEvidenceRegion, p: int) -> bool {
    r.points.start <= p < r.points.start + r.points.count
}

/// Whether some region holds point `p`.
pub open spec fn point_labeled(regions: Seq<SurfaceEvidenceRegion>, p: int) -> bool {
    exists|i: int| 0 <= i < regions.len() && region_covers(#[trigger] regions[i], p)
}

/// Whether some range of `t` from `k` on holds point `p`.
pub open spec fn walk_covers(t: Seq<(usize, usize, usize)>, k: nat, p: int) -> bool {
    exists|m: int| k <= m < t.len() && #[trigger] t[m].0 <= p < t[m].1
}

/// The regions label each of the `point_count` points exactly once and lie inside the
/// point buffer.
pub open spec fn exact_partition(regions: Seq<SurfaceEvidenceRegion>, point_count: nat) -> bool {
    &&& forall|i: int|
        0 <= i < regions.len() ==> #[trigger] regions[i].points.start + regions[i].points.count
            <= point_count
    &&& forall|p: int| 0 <= p < point_count ==> #[trigger] point_labeled(regions, p)
    &&& forall|i: int, j: int, p: int|
        0 <= i < regions.len() && 0 <= j < regions.len() && i != j ==> !(#[trigger] region_covers(
            regions[i],
            p,
        ) && #[trigger] region_covers(regions[j], p))
}

/// Every region whose origin needs cameras names an accepted reference camera and at
/// least one source camera, all of them accepted.
pub open spec fn regions_have_accepted_cameras(
    regions: Seq<SurfaceEvidenceRegion>,
    cameras: Seq<EvidenceCameraCheck>,
) -> bool {
    forall|i: int|
        0 <= i < regions.len() && origin_requires_cameras(#[trigger] regions[i].origin) ==> {
            &&& regions[i].reference_frame is Some
            &&& frame_accepted(cameras, regions[i].reference_frame->0)
            &&& regions[i].source_frames@.len() > 0
            &&& forall|k: int|
                0 <= k < regions[i].source_frames@.len() ==> frame_accepted(
                    cameras,
                    #[trigger] regions[i].source_frames@[k],
                )
        }
}

proof fn lemma_first_region_fault_none(
    regions: Seq<SurfaceEvidenceRegion>,
    i: nat,
    point_count: nat,
    cameras: Seq<EvidenceCameraCheck>,
)
    requires
        first_region_fault(regions, i, point_count, cameras) is None,
    ensures
        forall|j: int| i <= j < regions.len() ==> #[trigger] region_fault(regions, j, point_count, cameras) is None,
    decreases regions.len() - i,
{
    if i < regions.len() {
        lemma_first_region_fault_none(regions, i + 1, point_count, cameras);
    }
}

proof fn lemma_first_unaccepted_source_none(
    cameras: Seq<EvidenceCameraCheck>,
    sources: Seq<usize>,
    k: nat,
)
    requires
        first_unaccepted_source(cameras, sources, k) is None,
    ensures
        forall|j: int| k <= j < sources.len() ==> frame_accepted(cameras, #[trigger] sources[j]),
    decreases sources.len() - k,
{
    if k < sources.len() {
        lemma_first_unaccepted_source_none(cameras, sources, k + 1);
    }
}

proof fn lemma_insert_contains(s: Seq<(usize, usize, usize)>, x: (usize, usize, usize))
    ensures
        insert_by_start(s, x).len() == s.len() + 1,
        forall|y: (usize, usize, usize)| #[trigger] insert_by_start(s, x).contains(y) <==> (s.contains(y) || y == x),
{
    lemma_insert_by_start(s, x);
    let p = insertion_point(s, x) as int;
    let t = s.insert(p, x);
    assert forall|y: (usize, usize, usize)| t.contains(y) <==> (s.contains(y) || y == x) by {
        if t.contains(y) {
            let k = choose|k: int| 0 <= k < t.len() && t[k] == y;
            if k < p {
                assert(s[k] == y);
            } else if k > p {
                assert(s[k - 1] == y);
            }
        }
        if s.contains(y) {
            let k = choose|k: int| 0 <= k < s.len() && s[k] == y;
            if k < p {
                assert(t[k] == y);
            } else {
                assert(t[k + 1] == y);
            }
        }
        if y == x {
            assert(t[p] == y);
        }
    }
}

proof fn lemma_sort_contains(s: Seq<(usize, usize, usize)>)
    ensures
        sort_by_start(s).len() == s.len(),
        forall|y: (usize, usize, usize)| #[trigger] sort_by_start(s).contains(y) <==> s.contains(y),
    decreases s.len(),
{
    if s.len() > 0 {
        lemma_sort_contains(s.drop_last());
        lemma_insert_contains(sort_by_start(s.drop_last()), s.last());
        assert forall|y: (usize, usize, usize)| #[trigger] sort_by_start(s).contains(y) <==> s.contains(y) by {
            if s.contains(y) && y != s.last() {
                let k = choose|k: int| 0 <= k < s.len() && s[k] == y;
                assert(s.drop_last()[k] == y);
            }
            if s.drop_last().contains(y) {
                let k = choose|k: int| 0 <= k < s.drop_last().len() && s.drop_last()[k] == y;
                assert(s[k] == y);
            }
            if y == s.last() {
                assert(s[s.len() - 1] == y);
            }
        }
    }
}

/// A walk without fault covers `cursor..point_count` with the ranges from `k` on, one
/// after the other.
proof fn lemma_walk(t: Seq<(usize, usize, usize)>, k: nat, cursor: nat, point_count: nat)
    requires
        partition_fault(t, k, cursor, point_count) is None,
        forall|m: int| k <= m < t.len() ==> #[trigger] t[m].0 < t[m].1,
    ensures
        cursor <= point_count,
        forall|m: int| k <= m < t.len() ==> cursor <= #[trigger] t[m].0 && t[m].1 <= point_count,
        forall|p: int| cursor <= p < point_count ==> #[trigger] walk_covers(t, k, p),
        forall|m1: int, m2: int| k <= m1 < m2 < t.len() ==> #[trigger] t[m1].1 <= #[trigger] t[m2].0,
    decreases t.len() - k,
{
    if k < t.len() {
        let next = t[k as int].1 as nat;
        lemma_walk(t, k + 1, next, point_count);
        assert forall|p: int| cursor <= p < point_count implies #[trigger] walk_covers(t, k, p) by {
            if p < next {
                assert(t[k as int].0 <= p < t[k as int].1);
            } else {
                assert(walk_covers(t, k + 1, p));
                let m = choose|m: int| k + 1 <= m < t.len() && #[trigger] t[m].0 <= p < t[m].1;
            }
        }
    }
}

/// A validated provenance is an exact partition of the point buffer whose regions name
/// accepted cameras wherever their origin needs them.
pub proof fn lemma_valid_regions_partition(
    regions: Seq<SurfaceEvidenceRegion>,
    point_count: nat,
    cameras: Seq<EvidenceCameraCheck>,
)
    requires
        regions_fault(regions, point_count, cameras) is None,
        regions.len() <= usize::MAX,
    ensures
        exact_partition(regions, point_count),
        regions_have_accepted_cameras(regions, cameras),
{
    if point_count == 0 {
        return;
    }
    lemma_first_region_fault_none(regions, 0, point_count, cameras);
    let s = region_intervals(regions);
    let t = sort_by_start(s);
    lemma_sort_contains(s);
    assert forall|i: int| 0 <= i < regions.len() implies #[trigger] regions[i].points.start
        + regions[i].points.count <= point_count && regions[i].points.count > 0
        && regions[i].points.start + regions[i].points.count <= usize::MAX && s[i].0
        == regions[i].points.start && s[i].1 == regions[i].points.start + regions[i].points.count
        && s[i].2 == i by {
        assert(region_fault(regions, i, point_count, cameras) is None);
        assert(regions[i].points.count != 0);
        assert(regions[i].points.start + regions[i].points.count <= usize::MAX);
        assert(regions[i].points.start + regions[i].points.count <= point_count);
        assert(s[i] == (
            regions[i].points.start,
            (regions[i].points.start + regions[i].points.count) as usize,
            i as usize,
        ));
    }
    assert forall|m: int| 0 <= m < t.len() implies #[trigger] t[m].0 < t[m].1 by {
        assert(t.contains(t[m]));
        let i = choose|i: int| 0 <= i < s.len() && s[i] == t[m];
        assert(regions[i].points.count > 0);
    }
    lemma_walk(t, 0, 0, point_count);
    assert forall|p: int| 0 <= p < point_count implies #[trigger] point_labeled(regions, p) by {
        assert(walk_covers(t, 0, p));
        let m = choose|m: int| 0 <= m < t.len() && #[trigger] t[m].0 <= p < t[m].1;
        assert(t.contains(t[m]));
        let i = choose|i: int| 0 <= i < s.len() && s[i] == t[m];
        assert(region_covers(regions[i], p));
    }
    assert forall|i: int, j: int, p: int|
        0 <= i < regions.len() && 0 <= j < regions.len() && i != j implies !(#[trigger] region_covers(
        regions[i],
        p,
    ) && #[trigger] region_covers(regions[j], p)) by {
        if region_covers(regions[i], p) && region_covers(regions[j], p) {
            assert(s.contains(s[i]));
            assert(s.contains(s[j]));
            assert(t.contains(s[i]));
            assert(t.contains(s[j]));
            let m1 = choose|m: int| 0 <= m < t.len() && t[m] == s[i];
            let m2 = choose|m: int| 0 <= m < t.len() && t[m] == s[j];
            assert(m1 != m2);
            if m1 < m2 {
                assert(t[m1].1 <= t[m2].0);
            } else {
                assert(t[m2].1 <= t[m1].0);
            }
        }
    }
    assert forall|i: int|
        0 <= i < regions.len() && origin_requires_cameras(#[trigger] regions[i].origin) implies {
            &&& regions[i].reference_frame is Some
            &&& frame_accepted(cameras, regions[i].reference_frame->0)
            &&& regions[i].source_frames@.len() > 0
            &&& forall|k: int|
                0 <= k < regions[i].source_frames@.len() ==> frame_accepted(
                    cameras,
                    #[trigger] regions[i].source_frames@[k],
                )
        } by {
        assert(region_fault(regions, i, point_count, cameras) is None);
        lemma_first_unaccepted_source_none(cameras, regions[i].source_frames@, 0);
    }
}

/// No two cameras share a frame.
pub open spec fn distinct_camera_frames(cameras: Seq<EvidenceCameraCheck>) -> bool {
    forall|i: int, j: int|
        0 <= i < j < cameras.len() ==> #[trigger] cameras[i].frame_index != #[trigger] cameras[j].frame_index
}

/// Every triangle joins three distinct points of a buffer of `point_count` points.
pub open spec fn triangles_in_buffer(triangles: Seq<EvidenceTriangleCheck>, point_count: nat) -> bool {
    forall|i: int|
        0 <= i < triangles.len() ==> {
            let t = #[trigger] triangles[i];
            &&& t.a < point_count && t.b < point_count && t.c < point_count
            &&& t.a != t.b && t.b != t.c && t.c != t.a
        }
}

/// The first fault of a body of evidence, checked in this order: schema version,
/// provider id, cameras, points, provenance regions, triangles.
pub open spec fn evidence_fault(
    schema_version: u32,
    provider_id: Seq<char>,
    cameras: Seq<EvidenceCameraCheck>,
    points: Seq<bool>,
    regions: Seq<SurfaceEvidenceRegion>,
    triangles: Seq<EvidenceTriangleCheck>,
) -> Option<Seq<char>> {
    if schema_version != RECONSTRUCTION_EVIDENCE_SCHEMA_VERSION {
        Some(
            numbered(
                "unsupported reconstruction evidence schema version "@,
                schema_version as nat,
                ""@,
            ),
        )
    } else if blank(provider_id) {
        Some("reconstruction evidence provider id must not be empty"@)
    } else if first_camera_fault(cameras, 0) is Some {
        first_camera_fault(cameras, 0)
    } else if first_invalid_point(points, 0) is Some {
        Some(
            numbered(
                "reconstruction evidence point "@,
                first_invalid_point(points, 0)->0,
                " contains invalid geometry/confidence"@,
            ),
        )
    } else if regions_fault(regions, points.len(), cameras) is Some {
        regions_fault(regions, points.len(), cameras)
    } else {
        first_triangle_fault(triangles, 0, points.len())
    }
}

proof fn lemma_first_camera_fault_none(cameras: Seq<EvidenceCameraCheck>, i: nat)
    requires
        first_camera_fault(cameras, i) is None,
    ensures
        forall|j: int| i <= j < cameras.len() ==> #[trigger] camera_fault(cameras, j) is None,
    decreases cameras.len() - i,
{
    if i < cameras.len() {
        lemma_first_camera_fault_none(cameras, i + 1);
    }
}

proof fn lemma_first_triangle_fault_none(
    triangles: Seq<EvidenceTriangleCheck>,
    i: nat,
    point_count: nat,
)
    requires
        first_triangle_fault(triangles, i, point_count) is None,
    ensures
        forall|j: int| i <= j < triangles.len() ==> #[trigger] triangle_fault(triangles, j, point_count) is None,
    decreases triangles.len() - i,
{
    if i < triangles.len() {
        lemma_first_triangle_fault_none(triangles, i + 1, point_count);
    }
}

/// Every camera has a finite pose, a valid confidence and a valid reprojection error.
pub open spec fn accepted_cameras_sound(cameras: Seq<EvidenceCameraCheck>) -> bool {
    forall|i: int|
        0 <= i < cameras.len() ==> {
            let c = #[trigger] cameras[i];
            c.finite_pose && c.valid_confidence && c.valid_reprojection_error
        }
}

proof fn lemma_first_invalid_point_none(valid: Seq<bool>, i: nat)
    requires
        first_invalid_point(valid, i) is None,
    ensures
        forall|j: int| i <= j < valid.len() ==> #[trigger] valid[j],
    decreases valid.len() - i,
{
    if i < valid.len() {
        lemma_first_invalid_point_none(valid, i + 1);
    }
}

/// Evidence without a fault holds only sound cameras (finite poses, valid confidences
/// and reprojection errors), only valid points and only triangles with a valid
/// confidence: a camera, point or triangle that fails its check is never accepted.
pub proof fn lemma_accepted_evidence_sound(
    schema_version: u32,
    provider_id: Seq<char>,
    cameras: Seq<EvidenceCameraCheck>,
    points: Seq<bool>,
    regions: Seq<SurfaceEvidenceRegion>,
    triangles: Seq<EvidenceTriangleCheck>,
)
    requires
        evidence_fault(schema_version, provider_id, cameras, points, regions, triangles) is None,
    ensures
        accepted_cameras_sound(cameras),
        forall|i: int| 0 <= i < points.len() ==> #[trigger] points[i],
        forall|i: int| 0 <= i < triangles.len() ==> (#[trigger] triangles[i]).valid_confidence,
{
    lemma_first_camera_fault_none(cameras, 0);
    assert forall|i: int| 0 <= i < cameras.len() implies {
        let c = #[trigger] cameras[i];
        c.finite_pose && c.valid_confidence && c.valid_reprojection_error
    } by {
        assert(camera_fault(cameras, i) is None);
    }
    lemma_first_invalid_point_none(points, 0);
    lemma_first_triangle_fault_none(triangles, 0, points.len());
    assert forall|i: int| 0 <= i < triangles.len() implies (#[trigger] triangles[i]).valid_confidence by {
        assert(triangle_fault(triangles, i, points.len()) is None);
    }
}

/// Validates a body of evidence. Accepted evidence has a camera per frame at most, its
/// provenance regions label every point exactly once and name accepted cameras where
/// their origin needs them, and its triangles join distinct points of the buffer.
pub fn validate_evidence(
    schema_version: u32,
    provider_id: &str,
    cameras: &[EvidenceCameraCheck],
    points: &[bool],
    regions: &Vec<SurfaceEvidenceRegion>,
    triangles: &[EvidenceTriangleCheck],
) -> (r: Result<(), String>)
    ensures
        match evidence_fault(
            schema_version,
            provider_id@,
            cameras@,
            points@,
            regions@,
            triangles@,
        ) {
            None => r is Ok,
            Some(m) => r matches Err(e) && e@ == m,
        },
        r is Ok ==> {
            &&& distinct_camera_frames(cameras@)
            &&& exact_partition(regions@, points@.len())
            &&& regions_have_accepted_cameras(regions@, cameras@)
            &&& triangles_in_buffer(triangles@, points@.len())
            &&& accepted_cameras_sound(cameras@)
            &&& forall|i: int| 0 <= i < points@.len() ==> #[trigger] points@[i]
            &&& forall|i: int| 0 <= i < triangles@.len() ==> (#[trigger] triangles@[i]).valid_confidence
        },
{
    if schema_version != RECONSTRUCTION_EVIDENCE_SCHEMA_VERSION {
        let m = numbered_message("unsupported reconstruction evidence schema version ", schema_version as usize, "");
        return Err(string_from_chars(m.as_slice()));
    }
    let id = chars_of(provider_id);
    if trim_chars(id.as_slice()).len() == 0 {
        return Err(
            string_from_chars(
                chars_of("reconstruction evidence provider id must not be empty").as_slice(),
            ),
        );
    }
    match validate_cameras(cameras) {
        Err(e) => return Err(e),
        Ok(()) => {},
    }
    match validate_points(points) {
        Err(e) => return Err(e),
        Ok(()) => {},
    }
    match validate_regions(regions, points.len(), cameras) {
        Err(e) => return Err(e),
        Ok(()) => {},
    }
    match validate_triangles(triangles, points.len()) {
        Err(e) => return Err(e),
        Ok(()) => {},
    }
    let ghost region_count = regions.len();
    assert(regions@.len() == region_count);
    proof {
        lemma_accepted_evidence_sound(schema_version, provider_id@, cameras@, points@, regions@, triangles@);
        lemma_first_camera_fault_none(cameras@, 0);
        assert forall|i: int, j: int| 0 <= i < j < cameras@.len() implies #[trigger] cameras@[i].frame_index
            != #[trigger] cameras@[j].frame_index by {
            assert(camera_fault(cameras@, j) is None);
        }
        lemma_valid_regions_partition(regions@, points@.len(), cameras@);
        lemma_first_triangle_fault_none(triangles@, 0, points@.len());
        assert forall|i: int| 0 <= i < triangles@.len() implies {
            let t = #[trigger] triangles@[i];
            &&& t.a < points@.len() && t.b < points@.len() && t.c < points@.len()
            &&& t.a != t.b && t.b != t.c && t.c != t.a
        } by {
            assert(triangle_fault(triangles@, i, points@.len()) is None);
        }
    }
    Ok(())
}

/// The message that reports validated evidence.
pub open spec fn diagnostic_text(
    schema_version: u32,
    provider_id: Seq<char>,
    s: ReconstructionEvidenceSummary,
) -> Seq<char> {
    "Provider-neutral reconstruction evidence v"@ + decimal(schema_version as nat)
        + " validated for "@ + provider_id + ": "@ + decimal(s.cameras as nat)
        + " accepted cameras, "@ + decimal(s.regions as nat) + " provenance regions, "@ + decimal(
        s.total_points as nat,
    ) + " shared dense points ("@ + decimal(s.geometric_points as nat) + " geometric, "@
        + decimal(s.revalidated_completion_points as nat) + " revalidated completion, "@
        + decimal(s.learned_points as nat) + " learned, "@ + decimal(
        s.generative_completion_points as nat,
    ) + " generative completion), and "@ + decimal(s.triangles as nat)
        + " accepted triangles. The evidence view borrows the existing geometry buffers instead of materializing a second point cloud or mesh."@
}

/// The message that reports validated evidence and its counts.
pub fn evidence_diagnostic(
    schema_version: u32,
    provider_id: &str,
    summary: &ReconstructionEvidenceSummary,
) -> (r: String)
    ensures
        r@ == diagnostic_text(schema_version, provider_id@, *summary),
{
    let mut out: Vec<char> = Vec::new();
    push_str(&mut out, "Provider-neutral reconstruction evidence v");
    push_decimal(&mut out, schema_version as usize);
    push_str(&mut out, " validated for ");
    push_str(&mut out, provider_id);
    push_str(&mut out, ": ");
    push_decimal(&mut out, summary.cameras);
    push_str(&mut out, " accepted cameras, ");
    push_decimal(&mut out, summary.regions);
    push_str(&mut out, " provenance regions, ");
    push_decimal(&mut out, summary.total_points);
    push_str(&mut out, " shared dense points (");
    push_decimal(&mut out, summary.geometric_points);
    push_str(&mut out, " geometric, ");
    push_decimal(&mut out, summary.revalidated_completion_points);
    push_str(&mut out, " revalidated completion, ");
    push_decimal(&mut out, summary.learned_points);
    push_str(&mut out, " learned, ");
    push_decimal(&mut out, summary.generative_completion_points);
    push_str(&mut out, " generative completion), and ");
    push_decimal(&mut out, summary.triangles);
    push_str(
        &mut out,
        " accepted triangles. The evidence view borrows the existing geometry buffers instead of materializing a second point cloud or mesh.",
    );
    string_from_chars(out.as_slice())
}

/// The point ranges of one dense reference patch: its primary points, then the points
/// that surface completion added and that were validated again.
#[derive(Clone, Debug)]
pub struct ReferencePatchRanges {
    pub reference_frame: usize,
    pub source_frames: Vec<usize>,
    pub primary_start: usize,
    pub primary_points: usize,
    pub completion_start: usize,
    pub completed_points: usize,
}

/// A region as plain values: origin, reference frame, source frames, start and count.
pub open spec fn region_parts(r: SurfaceEvidenceRegion) -> (
    EvidenceOrigin,
    Option<usize>,
    Seq<usize>,
    usize,
    usize,
) {
    (r.origin, r.reference_frame, r.source_frames@, r.points.start, r.points.count)
}

/// The regions of one patch: the primary points as geometric evidence and the
/// completed points as revalidated completion, each only when it holds points.
pub open spec fn patch_regions(p: ReferencePatchRanges) -> Seq<
    (EvidenceOrigin, Option<usize>, Seq<usize>, usize, usize),
> {
    let primary = if p.primary_points > 0 {
        seq![
            (
                EvidenceOrigin::GeometricMultiView,
                Some(p.reference_frame),
                p.source_frames@,
                p.primary_start,
                p.primary_points,
            ),
        ]
    } else {
        Seq::empty()
    };
    let completion = if p.completed_points > 0 {
        seq![
            (
                EvidenceOrigin::RevalidatedCompletion,
                Some(p.reference_frame),
                p.source_frames@,
                p.completion_start,
                p.completed_points,
            ),
        ]
    } else {
        Seq::empty()
    };
    primary + completion
}

/// The regions of all patches, patch after patch.
pub open spec fn classic_regions(patches: Seq<ReferencePatchRanges>) -> Seq<
    (EvidenceOrigin, Option<usize>, Seq<usize>, usize, usize),
>
    decreases patches.len(),
{
    if patches.len() == 0 {
        Seq::empty()
    } else {
        classic_regions(patches.drop_last()) + patch_regions(patches.last())
    }
}

/// The provenance regions of the built-in reconstruction's dense patches.
pub fn classic_surface_regions(patches: &Vec<ReferencePatchRanges>) -> (r: Vec<SurfaceEvidenceRegion>)
    ensures
        r@.map_values(|x: SurfaceEvidenceRegion| region_parts(x)) == classic_regions(patches@),
{
    let mut regions: Vec<SurfaceEvidenceRegion> = Vec::new();
    let n = patches.len();
    let mut i: usize = 0;
    while i < n
        invariant
            i <= n == patches@.len(),
            regions@.map_values(|x: SurfaceEvidenceRegion| region_parts(x)) == classic_regions(
                patches@.take(i as int),
            ),
        decreases n - i,
    {
        let patch = &patches[i];
        let ghost before = regions@.map_values(|x: SurfaceEvidenceRegion| region_parts(x));
        let ghost mid = before;
        if patch.primary_points > 0 {
            let region = SurfaceEvidenceRegion {
                origin: EvidenceOrigin::GeometricMultiView,
                reference_frame: Some(patch.reference_frame),
                source_frames: copy_indices(&patch.source_frames),
                points: EvidenceRange::new(patch.primary_start, patch.primary_points),
            };
            regions.push(region);
            proof {
                mid = regions@.map_values(|x: SurfaceEvidenceRegion| region_parts(x));
                assert(mid =~= before + seq![region_parts(region)]);
            }
        }
        assert(mid == regions@.map_values(|x: SurfaceEvidenceRegion| region_parts(x)));
        if patch.completed_points > 0 {
            let region = SurfaceEvidenceRegion {
                origin: EvidenceOrigin::RevalidatedCompletion,
                reference_frame: Some(patch.reference_frame),
                source_frames: copy_indices(&patch.source_frames),
                points: EvidenceRange::new(patch.completion_start, patch.completed_points),
            };
            regions.push(region);
            assert(regions@.map_values(|x: SurfaceEvidenceRegion| region_parts(x)) =~= mid
                + seq![region_parts(region)]);
        }
        proof {
            assert(patches@.take(i + 1).drop_last() =~= patches@.take(i as int));
            assert(patches@.take(i + 1).last() == patches@[i as int]);
            assert(regions@.map_values(|x: SurfaceEvidenceRegion| region_parts(x)) =~= before
                + patch_regions(patches@[i as int]));
        }
        i = i + 1;
    }
    assert(patches@.take(n as int) =~= patches@);
    regions
}

/// The cameras of the built-in reconstruction as `(frame, authority)`: the two seed
/// frames, then the registered frames in order.
pub open spec fn classic_cameras(
    seed: Option<(usize, usize)>,
    registered: Seq<usize>,
    dense_points: nat,
) -> Result<Seq<(usize, EvidenceCameraAuthority)>, Seq<char>> {
    match seed {
        None => if registered.len() > 0 || dense_points > 0 {
            Err(
                "classic reconstruction evidence contains registered/dense geometry without a calibrated seed pair"@,
            )
        } else {
            Ok(Seq::empty())
        },
        Some((from, to)) => match first_seed_duplicate(registered, from, to, 0) {
            Some(f) => Err(
                numbered(
                    "classic reconstruction evidence duplicates calibrated seed frame "@,
                    f as nat,
                    " in registered-view evidence"@,
                ),
            ),
            None => Ok(
                seq![
                    (from, EvidenceCameraAuthority::CalibratedSeed),
                    (to, EvidenceCameraAuthority::CalibratedSeed),
                ] + registered.map_values(
                    |f: usize| (f, EvidenceCameraAuthority::RegisteredGeometry),
                ),
            ),
        },
    }
}

/// The first registered frame at or after `k` that is one of the seed frames.
pub open spec fn first_seed_duplicate(registered: Seq<usize>, from: usize, to: usize, k: nat) -> Option<
    usize,
>
    decreases registered.len() - k,
{
    if k >= registered.len() {
        None
    } else if registered[k as int] == from || registered[k as int] == to {
        Some(registered[k as int])
    } else {
        first_seed_duplicate(registered, from, to, k + 1)
    }
}

/// The frames and authorities of the built-in reconstruction's accepted cameras.
pub fn classic_camera_evidence(
    seed: Option<(usize, usize)>,
    registered: &Vec<usize>,
    dense_points: usize,
) -> (r: Result<Vec<(usize, EvidenceCameraAuthority)>, String>)
    ensures
        match classic_cameras(seed, registered@, dense_points as nat) {
            Ok(v) => r matches Ok(w) && w@ == v,
            Err(m) => r matches Err(e) && e@ == m,
        },
{
    match seed {
        None => {
            if registered.len() > 0 || dense_points > 0 {
                return Err(
                    string_from_chars(
                        chars_of(
                            "classic reconstruction evidence contains registered/dense geometry without a calibrated seed pair",
                        ).as_slice(),
                    ),
                );
            }
            let v: Vec<(usize, EvidenceCameraAuthority)> = Vec::new();
            assert(v@ =~= Seq::<(usize, EvidenceCameraAuthority)>::empty());
            Ok(v)
        },
        Some((from, to)) => {
            let mut cameras: Vec<(usize, EvidenceCameraAuthority)> = Vec::new();
            cameras.push((from, EvidenceCameraAuthority::CalibratedSeed));
            cameras.push((to, EvidenceCameraAuthority::CalibratedSeed));
            let n = registered.len();
            let mut k: usize = 0;
            let ghost head = cameras@;
            while k < n
                invariant
                    k <= n == registered@.len(),
                    seed == Some((from, to)),
                    head == seq![
                        (from, EvidenceCameraAuthority::CalibratedSeed),
                        (to, EvidenceCameraAuthority::CalibratedSeed),
                    ],
                    cameras@ == head + registered@.take(k as int).map_values(
                        |f: usize| (f, EvidenceCameraAuthority::RegisteredGeometry),
                    ),
                    first_seed_duplicate(registered@, from, to, 0) == first_seed_duplicate(
                        registered@,
                        from,
                        to,
                        k as nat,
                    ),
                decreases n - k,
            {
                let f = registered[k];
                if f == from || f == to {
                    let m = numbered_message(
                        "classic reconstruction evidence duplicates calibrated seed frame ",
                        f,
                        " in registered-view evidence",
                    );
                    return Err(string_from_chars(m.as_slice()));
                }
                cameras.push((f, EvidenceCameraAuthority::RegisteredGeometry));
                k = k + 1;
                assert(cameras@ =~= head + registered@.take(k as int).map_values(
                    |f: usize| (f, EvidenceCameraAuthority::RegisteredGeometry),
                ));
            }
            assert(registered@.take(n as int) =~= registered@);
            Ok(cameras)
        },
    }
}

} // verus!
