//! Bookkeeping of the surface mesh: which dense points belong to a reference patch, and
//! the assembly of the meshes of several patches into one mesh over the global dense
//! point indices.
//!
//! A triangle's confidence is generic (`C`); this module only carries it.

use crate::dense::{opt_text, DenseReferencePatchStats};
use crate::text::{chars_of, string_from_chars};
use vstd::prelude::*;

verus! {

/// A surface triangle over three point indices.
#[derive(Clone, Copy, Debug)]
pub struct MeshTriangle<C> {
    pub a: usize,
    pub b: usize,
    pub c: usize,
    pub confidence: C,
}

/// The mesh of one reference patch.
#[derive(Clone, Debug)]
pub struct MeshReferencePatchStats {
    pub reference_frame: usize,
    pub point_count: usize,
    pub attempted: bool,
    pub skip_reason: Option<String>,
    pub grid_vertices: usize,
    pub rejected_grid_vertices: usize,
    pub candidate_cells: usize,
    pub candidate_triangles: usize,
    pub accepted_triangles: usize,
    pub rejected_discontinuities: usize,
    pub rejected_degenerate: usize,
}

/// The statistics of the surface mesh.
#[derive(Clone, Debug)]
pub struct MeshStats {
    pub attempted: bool,
    pub skip_reason: Option<String>,
    pub reference_frame: Option<usize>,
    pub grid_vertices: usize,
    pub rejected_grid_vertices: usize,
    pub candidate_cells: usize,
    pub candidate_triangles: usize,
    pub accepted_triangles: usize,
    pub rejected_discontinuities: usize,
    pub rejected_degenerate: usize,
    pub reference_frames: Vec<usize>,
    pub reference_patches: Vec<MeshReferencePatchStats>,
}

/// A surface mesh with its statistics.
#[derive(Clone, Debug)]
pub struct MeshAnalysis<C> {
    pub stats: MeshStats,
    pub triangles: Vec<MeshTriangle<C>>,
}

/// What meshing the points of a single reference frame reports.
#[derive(Clone, Debug)]
pub struct ReferenceMeshStats {
    pub attempted: bool,
    pub skip_reason: Option<String>,
    pub reference_frame: Option<usize>,
    pub grid_vertices: usize,
    pub rejected_grid_vertices: usize,
    pub candidate_cells: usize,
    pub candidate_triangles: usize,
    pub accepted_triangles: usize,
    pub rejected_discontinuities: usize,
    pub rejected_degenerate: usize,
}

/// The mesh of the points of a single reference frame, over their local indices.
#[derive(Clone, Debug)]
pub struct ReferenceMeshAnalysis<C> {
    pub stats: ReferenceMeshStats,
    pub triangles: Vec<MeshTriangle<C>>,
}

impl Default for MeshReferencePatchStats {
    fn default() -> (r: Self)
        ensures
            r.reference_frame == 0 && r.point_count == 0 && !r.attempted && r.skip_reason is None
                && r.grid_vertices == 0 && r.rejected_grid_vertices == 0 && r.candidate_cells == 0
                && r.candidate_triangles == 0 && r.accepted_triangles == 0 && r.rejected_discontinuities
                == 0 && r.rejected_degenerate == 0,
    {
        MeshReferencePatchStats {
            reference_frame: 0,
            point_count: 0,
            attempted: false,
            skip_reason: None,
            grid_vertices: 0,
            rejected_grid_vertices: 0,
            candidate_cells: 0,
            candidate_triangles: 0,
            accepted_triangles: 0,
            rejected_discontinuities: 0,
            rejected_degenerate: 0,
        }
    }
}

impl Default for MeshStats {
    fn default() -> (r: Self)
        ensures
            !r.attempted && r.skip_reason is None && r.reference_frame is None && r.grid_vertices == 0
                && r.rejected_grid_vertices == 0 && r.candidate_cells == 0 && r.candidate_triangles == 0
                && r.accepted_triangles == 0 && r.rejected_discontinuities == 0 && r.rejected_degenerate
                == 0 && r.reference_frames@.len() == 0 && r.reference_patches@.len() == 0,
    {
        MeshStats {
            attempted: false,
            skip_reason: None,
            reference_frame: None,
            grid_vertices: 0,
            rejected_grid_vertices: 0,
            candidate_cells: 0,
            candidate_triangles: 0,
            accepted_triangles: 0,
            rejected_discontinuities: 0,
            rejected_degenerate: 0,
            reference_frames: Vec::new(),
            reference_patches: Vec::new(),
        }
    }
}

/// The indices `a, a + 1, .., b - 1`.
pub open spec fn index_range(a: nat, b: nat) -> Seq<usize> {
    Seq::new((b - a) as nat, |i: int| (a + i) as usize)
}

/// The global indices of a patch's points, its primary points and then its
/// completions, where the point and grid-site lists agree in length and both ranges lie
/// within them.
pub open spec fn patch_indices<E>(patch: DenseReferencePatchStats<E>, point_count: nat, grid_site_count: nat) -> Option<
    Seq<usize>,
> {
    let primary_end = patch.primary_start + patch.primary_points;
    let completion_end = patch.completion_start + patch.completed_points;
    if point_count != grid_site_count || primary_end > point_count || completion_end > point_count {
        None
    } else {
        Some(
            index_range(patch.primary_start as nat, primary_end as nat) + index_range(
                patch.completion_start as nat,
                completion_end as nat,
            ),
        )
    }
}

fn push_range(out: &mut Vec<usize>, a: usize, b: usize)
    requires
        a <= b,
    ensures
        final(out)@ == old(out)@ + index_range(a as nat, b as nat),
{
    let ghost start = out@;
    let mut i = a;
    while i < b
        invariant
            a <= i <= b,
            out@ == start + index_range(a as nat, i as nat),
        decreases b - i,
    {
        out.push(i);
        i = i + 1;
        assert(out@ =~= start + index_range(a as nat, i as nat));
    }
}

/// The global indices of the points of `patch` among `point_count` dense points with
/// `grid_site_count` grid sites; `None` where the two counts differ or a range of the
/// patch does not lie within the points.
pub fn patch_point_indices<E>(patch: &DenseReferencePatchStats<E>, point_count: usize, grid_site_count: usize) -> (r: Option<
    Vec<usize>,
>)
    ensures
        match r {
            Some(v) => patch_indices(*patch, point_count as nat, grid_site_count as nat) == Some(v@),
            None => patch_indices(*patch, point_count as nat, grid_site_count as nat) is None,
        },
{
    if point_count != grid_site_count {
        return None;
    }
    let primary_end = match patch.primary_start.checked_add(patch.primary_points) {
        Some(e) => e,
        None => return None,
    };
    let completion_end = match patch.completion_start.checked_add(patch.completed_points) {
        Some(e) => e,
        None => return None,
    };
    if primary_end > point_count || completion_end > point_count {
        return None;
    }
    let mut indices: Vec<usize> = Vec::new();
    push_range(&mut indices, patch.primary_start, primary_end);
    push_range(&mut indices, patch.completion_start, completion_end);
    assert(indices@ =~= index_range(patch.primary_start as nat, primary_end as nat) + index_range(
        patch.completion_start as nat,
        completion_end as nat,
    ));
    Some(indices)
}

/// The values at the given indices, in their order.
pub fn gather<T: Copy>(values: &Vec<T>, indices: &Vec<usize>) -> (r: Vec<T>)
    requires
        forall|k: int| 0 <= k < indices@.len() ==> (#[trigger] indices@[k]) < values@.len(),
    ensures
        r@ == indices@.map_values(|i: usize| values@[i as int]),
{
    let mut out: Vec<T> = Vec::new();
    let n = indices.len();
    let mut k: usize = 0;
    while k < n
        invariant
            k <= n == indices@.len(),
            forall|q: int| 0 <= q < indices@.len() ==> (#[trigger] indices@[q]) < values@.len(),
            out@ == indices@.take(k as int).map_values(|i: usize| values@[i as int]),
        decreases n - k,
    {
        out.push(values[indices[k]]);
        k = k + 1;
        assert(out@ =~= indices@.take(k as int).map_values(|i: usize| values@[i as int]));
    }
    assert(indices@.take(n as int) =~= indices@);
    out
}

/// The triangles whose corners all lie within `indices`, each corner replaced by the
/// index it stands for there.
pub open spec fn remap_triangles<C>(triangles: Seq<MeshTriangle<C>>, indices: Seq<usize>) -> Seq<MeshTriangle<C>>
    decreases triangles.len(),
{
    if triangles.len() == 0 {
        Seq::empty()
    } else {
        let rest = remap_triangles(triangles.drop_last(), indices);
        let t = triangles.last();
        if t.a < indices.len() && t.b < indices.len() && t.c < indices.len() {
            rest.push(
                MeshTriangle {
                    a: indices[t.a as int],
                    b: indices[t.b as int],
                    c: indices[t.c as int],
                    confidence: t.confidence,
                },
            )
        } else {
            rest
        }
    }
}

/// The meshes of reference patches, assembled patch after patch over the global point
/// indices.
pub struct MeshAssembly<C> {
    pub attempted: bool,
    pub grid_vertices: usize,
    pub rejected_grid_vertices: usize,
    pub candidate_cells: usize,
    pub candidate_triangles: usize,
    pub rejected_discontinuities: usize,
    pub rejected_degenerate: usize,
    pub triangles: Vec<MeshTriangle<C>>,
    pub patch_stats: Vec<MeshReferencePatchStats>,
}

/// Adding the counts of `stats` to those of `a` stays within `usize`.
pub open spec fn counts_fit<C>(a: MeshAssembly<C>, stats: ReferenceMeshStats) -> bool {
    &&& a.grid_vertices + stats.grid_vertices <= usize::MAX
    &&& a.rejected_grid_vertices + stats.rejected_grid_vertices <= usize::MAX
    &&& a.candidate_cells + stats.candidate_cells <= usize::MAX
    &&& a.candidate_triangles + stats.candidate_triangles <= usize::MAX
    &&& a.rejected_discontinuities + stats.rejected_discontinuities <= usize::MAX
    &&& a.rejected_degenerate + stats.rejected_degenerate <= usize::MAX
}

/// The record of a patch whose mesh is `result`, over `point_count` points.
pub open spec fn patch_mesh_record<C>(
    r: MeshReferencePatchStats,
    reference_frame: usize,
    point_count: nat,
    result: ReferenceMeshAnalysis<C>,
) -> bool {
    &&& r.reference_frame == reference_frame
    &&& r.point_count == point_count
    &&& r.attempted == result.stats.attempted
    &&& opt_text(r.skip_reason) == opt_text(result.stats.skip_reason)
    &&& r.grid_vertices == result.stats.grid_vertices
    &&& r.rejected_grid_vertices == result.stats.rejected_grid_vertices
    &&& r.candidate_cells == result.stats.candidate_cells
    &&& r.candidate_triangles == result.stats.candidate_triangles
    &&& r.accepted_triangles == result.triangles@.len()
    &&& r.rejected_discontinuities == result.stats.rejected_discontinuities
    &&& r.rejected_degenerate == result.stats.rejected_degenerate
}

/// The text recorded for a patch whose ranges do not lie within the dense points.
pub open spec fn patch_range_fault() -> Seq<char> {
    "dense patch ranges exceed the accepted point evidence"@
}

/// The text recorded when no patch gave a triangle.
pub open spec fn no_triangle_fault() -> Seq<char> {
    "no reference patch produced an accepted surface triangle"@
}

fn remap_into<C: Copy>(out: &mut Vec<MeshTriangle<C>>, triangles: &Vec<MeshTriangle<C>>, indices: &Vec<usize>)
    ensures
        final(out)@ == old(out)@ + remap_triangles(triangles@, indices@),
{
    let ghost start = out@;
    let n = triangles.len();
    let m = indices.len();
    let mut k: usize = 0;
    assert(triangles@.take(0) =~= Seq::<MeshTriangle<C>>::empty());
    assert(start + remap_triangles(triangles@.take(0), indices@) =~= start);
    while k < n
        invariant
            k <= n == triangles@.len(),
            m == indices@.len(),
            out@ == start + remap_triangles(triangles@.take(k as int), indices@),
        decreases n - k,
    {
        let t = triangles[k];
        assert(triangles@.take(k + 1).drop_last() =~= triangles@.take(k as int));
        assert(triangles@.take(k + 1).last() == t);
        if t.a < m && t.b < m && t.c < m {
            out.push(MeshTriangle { a: indices[t.a], b: indices[t.b], c: indices[t.c], confidence: t.confidence });
            assert(out@ =~= start + remap_triangles(triangles@.take(k + 1), indices@));
        }
        k = k + 1;
    }
    assert(triangles@.take(n as int) =~= triangles@);
}

impl<C: Copy> MeshAssembly<C> {
    /// No patch yet.
    pub fn new() -> (r: Self)
        ensures
            !r.attempted,
            r.grid_vertices == 0 && r.rejected_grid_vertices == 0 && r.candidate_cells == 0,
            r.candidate_triangles == 0 && r.rejected_discontinuities == 0 && r.rejected_degenerate == 0,
            r.triangles@.len() == 0,
            r.patch_stats@.len() == 0,
    {
        MeshAssembly {
            attempted: false,
            grid_vertices: 0,
            rejected_grid_vertices: 0,
            candidate_cells: 0,
            candidate_triangles: 0,
            rejected_discontinuities: 0,
            rejected_degenerate: 0,
            triangles: Vec::new(),
            patch_stats: Vec::new(),
        }
    }

    /// Records a patch of `accepted_points` points whose ranges do not lie within the
    /// dense points: it gets no mesh.
    pub fn skip_patch(&mut self, reference_frame: usize, accepted_points: usize)
        ensures
            final(self).attempted == old(self).attempted,
            final(self).grid_vertices == old(self).grid_vertices,
            final(self).rejected_grid_vertices == old(self).rejected_grid_vertices,
            final(self).candidate_cells == old(self).candidate_cells,
            final(self).candidate_triangles == old(self).candidate_triangles,
            final(self).rejected_discontinuities == old(self).rejected_discontinuities,
            final(self).rejected_degenerate == old(self).rejected_degenerate,
            final(self).triangles@ == old(self).triangles@,
            final(self).patch_stats@.len() == old(self).patch_stats@.len() + 1,
            final(self).patch_stats@.drop_last() == old(self).patch_stats@,
            ({
                let r = final(self).patch_stats@.last();
                &&& r.reference_frame == reference_frame
                &&& r.point_count == accepted_points
                &&& !r.attempted
                &&& opt_text(r.skip_reason) == Some(patch_range_fault())
                &&& r.grid_vertices == 0 && r.rejected_grid_vertices == 0 && r.candidate_cells == 0
                &&& r.candidate_triangles == 0 && r.accepted_triangles == 0
                &&& r.rejected_discontinuities == 0 && r.rejected_degenerate == 0
            }),
    {
        let ghost before = self.patch_stats@;
        self.patch_stats.push(
            MeshReferencePatchStats {
                reference_frame,
                point_count: accepted_points,
                attempted: false,
                skip_reason: Some(
                    string_from_chars(chars_of("dense patch ranges exceed the accepted point evidence").as_slice()),
                ),
                grid_vertices: 0,
                rejected_grid_vertices: 0,
                candidate_cells: 0,
                candidate_triangles: 0,
                accepted_triangles: 0,
                rejected_discontinuities: 0,
                rejected_degenerate: 0,
            },
        );
        assert(self.patch_stats@.drop_last() =~= before);
    }

    /// Adds the mesh `result` of a patch whose local points stand for the global points
    /// `global_indices`: its counts, its triangles over the global indices (those with a
    /// corner outside the patch are left out), and its record.
    pub fn add_patch(&mut self, reference_frame: usize, global_indices: &Vec<usize>, result: ReferenceMeshAnalysis<C>)
        requires
            counts_fit(*old(self), result.stats),
        ensures
            final(self).attempted == (old(self).attempted || result.stats.attempted),
            final(self).grid_vertices == old(self).grid_vertices + result.stats.grid_vertices,
            final(self).rejected_grid_vertices == old(self).rejected_grid_vertices + result.stats.rejected_grid_vertices,
            final(self).candidate_cells == old(self).candidate_cells + result.stats.candidate_cells,
            final(self).candidate_triangles == old(self).candidate_triangles + result.stats.candidate_triangles,
            final(self).rejected_discontinuities == old(self).rejected_discontinuities + result.stats.rejected_discontinuities,
            final(self).rejected_degenerate == old(self).rejected_degenerate + result.stats.rejected_degenerate,
            final(self).triangles@ == old(self).triangles@ + remap_triangles(result.triangles@, global_indices@),
            final(self).patch_stats@.len() == old(self).patch_stats@.len() + 1,
            final(self).patch_stats@.drop_last() == old(self).patch_stats@,
            patch_mesh_record(final(self).patch_stats@.last(), reference_frame, global_indices@.len(), result),
    {
        self.attempted = self.attempted || result.stats.attempted;
        self.grid_vertices = self.grid_vertices + result.stats.grid_vertices;
        self.rejected_grid_vertices = self.rejected_grid_vertices + result.stats.rejected_grid_vertices;
        self.candidate_cells = self.candidate_cells + result.stats.candidate_cells;
        self.candidate_triangles = self.candidate_triangles + result.stats.candidate_triangles;
        self.rejected_discontinuities = self.rejected_discontinuities + result.stats.rejected_discontinuities;
        self.rejected_degenerate = self.rejected_degenerate + result.stats.rejected_degenerate;
        remap_into(&mut self.triangles, &result.triangles, global_indices);
        let ghost before = self.patch_stats@;
        let accepted_triangles = result.triangles.len();
        let ReferenceMeshAnalysis { stats, triangles: _ } = result;
        self.patch_stats.push(
            MeshReferencePatchStats {
                reference_frame,
                point_count: global_indices.len(),
                attempted: stats.attempted,
                skip_reason: stats.skip_reason,
                grid_vertices: stats.grid_vertices,
                rejected_grid_vertices: stats.rejected_grid_vertices,
                candidate_cells: stats.candidate_cells,
                candidate_triangles: stats.candidate_triangles,
                accepted_triangles,
                rejected_discontinuities: stats.rejected_discontinuities,
                rejected_degenerate: stats.rejected_degenerate,
            },
        );
        assert(self.patch_stats@.drop_last() =~= before);
    }

    /// The assembled mesh: the counts, the triangles, the reference frame of each patch
    /// in order, the first of them as the mesh's reference frame, and a reason where no
    /// patch gave a triangle.
    pub fn finish(self) -> (r: MeshAnalysis<C>)
        ensures
            r.stats.attempted == self.attempted,
            r.stats.grid_vertices == self.grid_vertices,
            r.stats.rejected_grid_vertices == self.rejected_grid_vertices,
            r.stats.candidate_cells == self.candidate_cells,
            r.stats.candidate_triangles == self.candidate_triangles,
            r.stats.rejected_discontinuities == self.rejected_discontinuities,
            r.stats.rejected_degenerate == self.rejected_degenerate,
            r.triangles@ == self.triangles@,
            r.stats.accepted_triangles == self.triangles@.len(),
            opt_text(r.stats.skip_reason) == if self.triangles@.len() == 0 {
                Some(no_triangle_fault())
            } else {
                None
            },
            r.stats.reference_frames@ == self.patch_stats@.map_values(|p: MeshReferencePatchStats| p.reference_frame),
            r.stats.reference_frame == if self.patch_stats@.len() > 0 {
                Some(self.patch_stats@[0].reference_frame)
            } else {
                None
            },
            r.stats.reference_patches@ == self.patch_stats@,
    {
        let n = self.patch_stats.len();
        let mut reference_frames: Vec<usize> = Vec::new();
        let mut k: usize = 0;
        while k < n
            invariant
                k <= n == self.patch_stats@.len(),
                reference_frames@ == self.patch_stats@.take(k as int).map_values(
                    |p: MeshReferencePatchStats| p.reference_frame,
                ),
            decreases n - k,
        {
            reference_frames.push(self.patch_stats[k].reference_frame);
            k = k + 1;
            assert(reference_frames@ =~= self.patch_stats@.take(k as int).map_values(
                |p: MeshReferencePatchStats| p.reference_frame,
            ));
        }
        assert(self.patch_stats@.take(n as int) =~= self.patch_stats@);
        let reference_frame = if n > 0 {
            Some(reference_frames[0])
        } else {
            None
        };
        let skip_reason = if self.triangles.len() == 0 {
            Some(
                string_from_chars(
                    chars_of("no reference patch produced an accepted surface triangle").as_slice(),
                ),
            )
        } else {
            None
        };
        let accepted_triangles = self.triangles.len();
        MeshAnalysis {
            stats: MeshStats {
                attempted: self.attempted,
                skip_reason,
                reference_frame,
                grid_vertices: self.grid_vertices,
                rejected_grid_vertices: self.rejected_grid_vertices,
                candidate_cells: self.candidate_cells,
                candidate_triangles: self.candidate_triangles,
                accepted_triangles,
                rejected_discontinuities: self.rejected_discontinuities,
                rejected_degenerate: self.rejected_degenerate,
                reference_frames,
                reference_patches: self.patch_stats,
            },
            triangles: self.triangles,
        }
    }
}

/// Takes the mesh of a single reference frame as the surface mesh: its counts and
/// triangles as they are, and its reference frame, if any, as the one patch, whose
/// point count is the number of grid vertices, accepted or rejected.
pub fn from_legacy<C>(result: ReferenceMeshAnalysis<C>) -> (r: MeshAnalysis<C>)
    requires
        result.stats.grid_vertices + result.stats.rejected_grid_vertices <= usize::MAX,
    ensures
        r.stats.attempted == result.stats.attempted,
        opt_text(r.stats.skip_reason) == opt_text(result.stats.skip_reason),
        r.stats.reference_frame == result.stats.reference_frame,
        r.stats.grid_vertices == result.stats.grid_vertices,
        r.stats.rejected_grid_vertices == result.stats.rejected_grid_vertices,
        r.stats.candidate_cells == result.stats.candidate_cells,
        r.stats.candidate_triangles == result.stats.candidate_triangles,
        r.stats.accepted_triangles == result.stats.accepted_triangles,
        r.stats.rejected_discontinuities == result.stats.rejected_discontinuities,
        r.stats.rejected_degenerate == result.stats.rejected_degenerate,
        r.triangles@ == result.triangles@,
        r.stats.reference_frames@ == (match result.stats.reference_frame {
            Some(f) => seq![f],
            None => Seq::<usize>::empty(),
        }),
        match result.stats.reference_frame {
            Some(f) => {
                let p = r.stats.reference_patches@[0];
                &&& r.stats.reference_patches@.len() == 1
                &&& p.reference_frame == f
                &&& p.point_count == result.stats.grid_vertices + result.stats.rejected_grid_vertices
                &&& p.attempted == result.stats.attempted
                &&& opt_text(p.skip_reason) == opt_text(result.stats.skip_reason)
                &&& p.grid_vertices == result.stats.grid_vertices
                &&& p.rejected_grid_vertices == result.stats.rejected_grid_vertices
                &&& p.candidate_cells == result.stats.candidate_cells
                &&& p.candidate_triangles == result.stats.candidate_triangles
                &&& p.accepted_triangles == result.stats.accepted_triangles
                &&& p.rejected_discontinuities == result.stats.rejected_discontinuities
                &&& p.rejected_degenerate == result.stats.rejected_degenerate
            },
            None => r.stats.reference_patches@.len() == 0,
        },
{
    let ReferenceMeshAnalysis { stats, triangles } = result;
    let mut reference_frames: Vec<usize> = Vec::new();
    let mut reference_patches: Vec<MeshReferencePatchStats> = Vec::new();
    if let Some(f) = stats.reference_frame {
        reference_frames.push(f);
        reference_patches.push(
            MeshReferencePatchStats {
                reference_frame: f,
                point_count: stats.grid_vertices + stats.rejected_grid_vertices,
                attempted: stats.attempted,
                skip_reason: stats.skip_reason.clone(),
                grid_vertices: stats.grid_vertices,
                rejected_grid_vertices: stats.rejected_grid_vertices,
                candidate_cells: stats.candidate_cells,
                candidate_triangles: stats.candidate_triangles,
                accepted_triangles: stats.accepted_triangles,
                rejected_discontinuities: stats.rejected_discontinuities,
                rejected_degenerate: stats.rejected_degenerate,
            },
        );
    }
    assert(reference_frames@ =~= (match stats.reference_frame {
        Some(f) => seq![f],
        None => Seq::<usize>::empty(),
    }));
    MeshAnalysis {
        stats: MeshStats {
            attempted: stats.attempted,
            skip_reason: stats.skip_reason,
            reference_frame: stats.reference_frame,
            grid_vertices: stats.grid_vertices,
            rejected_grid_vertices: stats.rejected_grid_vertices,
            candidate_cells: stats.candidate_cells,
            candidate_triangles: stats.candidate_triangles,
            accepted_triangles: stats.accepted_triangles,
            rejected_discontinuities: stats.rejected_discontinuities,
            rejected_degenerate: stats.rejected_degenerate,
            reference_frames,
            reference_patches,
        },
        triangles,
    }
}

/// The indices of a patch whose ranges lie within the dense points all name dense
/// points.
pub proof fn lemma_patch_indices_in_range<E>(patch: DenseReferencePatchStats<E>, point_count: nat, grid_site_count: nat)
    requires
        patch_indices(patch, point_count, grid_site_count) is Some,
    ensures
        forall|k: int|
            0 <= k < patch_indices(patch, point_count, grid_site_count)->0.len() ==> #[trigger] patch_indices(
                patch,
                point_count,
                grid_site_count,
            )->0[k] < point_count,
{
    let v = patch_indices(patch, point_count, grid_site_count)->0;
    let first = index_range(patch.primary_start as nat, (patch.primary_start + patch.primary_points) as nat);
    let second = index_range(patch.completion_start as nat, (patch.completion_start + patch.completed_points) as nat);
    assert(v == first + second);
    assert forall|k: int| 0 <= k < v.len() implies #[trigger] v[k] < point_count by {
        if k < first.len() {
            assert(v[k] == first[k]);
        } else {
            assert(v[k] == second[k - first.len()]);
        }
    }
}

/// Triangles assembled over the global indices of a patch name only dense points: where
/// every index of the patch names one of `point_count` points, so does every corner of
/// every remapped triangle.
pub proof fn lemma_remapped_corners_in_range<C>(triangles: Seq<MeshTriangle<C>>, indices: Seq<usize>, point_count: nat)
    requires
        forall|k: int| 0 <= k < indices.len() ==> #[trigger] indices[k] < point_count,
    ensures
        forall|t: int|
            0 <= t < remap_triangles(triangles, indices).len() ==> {
                let tri = #[trigger] remap_triangles(triangles, indices)[t];
                tri.a < point_count && tri.b < point_count && tri.c < point_count
            },
    decreases triangles.len(),
{
    if triangles.len() > 0 {
        lemma_remapped_corners_in_range(triangles.drop_last(), indices, point_count);
        let rest = remap_triangles(triangles.drop_last(), indices);
        let t = triangles.last();
        if t.a < indices.len() && t.b < indices.len() && t.c < indices.len() {
            let last = MeshTriangle {
                a: indices[t.a as int],
                b: indices[t.b as int],
                c: indices[t.c as int],
                confidence: t.confidence,
            };
            assert(remap_triangles(triangles, indices) == rest.push(last));
            assert(indices[t.a as int] < point_count);
            assert(indices[t.b as int] < point_count);
            assert(indices[t.c as int] < point_count);
            assert forall|q: int| 0 <= q < rest.len() + 1 implies {
                let tri = #[trigger] rest.push(last)[q];
                tri.a < point_count && tri.b < point_count && tri.c < point_count
            } by {
                if q < rest.len() {
                    assert(rest.push(last)[q] == rest[q]);
                }
            }
        } else {
            assert(remap_triangles(triangles, indices) == rest);
        }
    }
}

} // verus!
