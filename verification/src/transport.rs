//! The browser transport of mesh triangles, packed as little-endian `u32` indices, and
//! the synthetic geometry of the transport benchmark.

use crate::mesh::MeshTriangle;
use crate::text::{chars_of, string_from_chars};
use vstd::prelude::*;

verus! {

/// The four little-endian bytes of `v`.
pub open spec fn le_bytes(v: u32) -> Seq<u8> {
    seq![(v % 256) as u8, ((v / 256) % 256) as u8, ((v / 65536) % 256) as u8, (v / 16777216) as u8]
}

/// The text of a triangle corner that names no dense point.
pub open spec fn missing_point_fault() -> Seq<char> {
    "failed to serialize reconstruction: mesh triangle references a missing dense point"@
}

/// The text of a triangle corner beyond the `u32` range of the transport.
pub open spec fn index_range_fault() -> Seq<char> {
    "failed to serialize reconstruction: dense point index exceeds browser transport range"@
}

/// The three corners of a triangle, in order.
pub open spec fn corners<C>(t: MeshTriangle<C>) -> Seq<usize> {
    seq![t.a, t.b, t.c]
}

/// The corners of the triangles, triangle after triangle.
pub open spec fn all_corners<C>(triangles: Seq<MeshTriangle<C>>) -> Seq<usize>
    decreases triangles.len(),
{
    if triangles.len() == 0 {
        Seq::empty()
    } else {
        all_corners(triangles.drop_last()) + corners(triangles.last())
    }
}

/// Packs the corner indices, checking each in turn: the first that names no point
/// among `point_count`, or that exceeds the `u32` range, stops the packing.
pub open spec fn pack_indices(indices: Seq<usize>, point_count: nat) -> Result<Seq<u8>, Seq<char>>
    decreases indices.len(),
{
    if indices.len() == 0 {
        Ok(Seq::empty())
    } else {
        match pack_indices(indices.drop_last(), point_count) {
            Err(e) => Err(e),
            Ok(bytes) => {
                let i = indices.last();
                if i >= point_count {
                    Err(missing_point_fault())
                } else if i > u32::MAX {
                    Err(index_range_fault())
                } else {
                    Ok(bytes + le_bytes(i as u32))
                }
            },
        }
    }
}

proof fn lemma_all_corners_prefix<C>(s: Seq<MeshTriangle<C>>, i: int)
    requires
        0 <= i <= s.len(),
    ensures
        all_corners(s).len() == 3 * s.len(),
        all_corners(s).take(3 * i) == all_corners(s.take(i)),
    decreases s.len(),
{
    if s.len() > 0 {
        if i == s.len() {
            lemma_all_corners_prefix(s.drop_last(), i - 1);
            assert(s.take(i) =~= s);
            assert(all_corners(s).take(3 * i) =~= all_corners(s));
        } else {
            lemma_all_corners_prefix(s.drop_last(), i);
            assert(s.drop_last().take(i) =~= s.take(i));
            assert(all_corners(s).take(3 * i) =~= all_corners(s.drop_last()).take(3 * i));
        }
    } else {
        assert(s.take(i) =~= s);
    }
}

proof fn lemma_pack_error_extends(indices: Seq<usize>, point_count: nat, j: int)
    requires
        0 <= j <= indices.len(),
        pack_indices(indices.take(j), point_count) is Err,
    ensures
        pack_indices(indices, point_count) == pack_indices(indices.take(j), point_count),
    decreases indices.len() - j,
{
    if j < indices.len() {
        assert(indices.take(j + 1).drop_last() =~= indices.take(j));
        lemma_pack_error_extends(indices, point_count, j + 1);
    } else {
        assert(indices.take(j) =~= indices);
    }
}

fn push_le_bytes(out: &mut Vec<u8>, v: u32)
    ensures
        final(out)@ == old(out)@ + le_bytes(v),
{
    let ghost start = out@;
    out.push((v % 256) as u8);
    out.push(((v / 256) % 256) as u8);
    out.push(((v / 65536) % 256) as u8);
    out.push((v / 16777216) as u8);
    assert(out@ =~= start + le_bytes(v));
}

/// The corner indices of the triangles as little-endian `u32` bytes, four per corner,
/// three corners per triangle; refused where a corner names no point among
/// `point_count` or exceeds the `u32` range.
pub fn pack_mesh_triangle_indices<C>(triangles: &Vec<MeshTriangle<C>>, point_count: usize) -> (r: Result<
    Vec<u8>,
    String,
>)
    ensures
        match pack_indices(all_corners(triangles@), point_count as nat) {
            Ok(bytes) => r matches Ok(v) && v@ == bytes,
            Err(m) => r matches Err(e) && e@ == m,
        },
{
    let mut out: Vec<u8> = Vec::new();
    let n = triangles.len();
    let mut t: usize = 0;
    assert(triangles@.take(0) =~= Seq::<MeshTriangle<C>>::empty());
    while t < n
        invariant
            t <= n == triangles@.len(),
            pack_indices(all_corners(triangles@.take(t as int)), point_count as nat) == Ok::<Seq<u8>, Seq<char>>(
                out@,
            ),
        decreases n - t,
    {
        let tri = &triangles[t];
        let ghost done = all_corners(triangles@.take(t as int));
        proof {
            assert(triangles@.take(t + 1).drop_last() =~= triangles@.take(t as int));
            assert(triangles@.take(t + 1).last() == triangles@[t as int]);
        }
        let ghost c = corners(triangles@[t as int]);
        let mut k: usize = 0;
        while k < 3
            invariant
                k <= 3,
                t < n == triangles@.len(),
                *tri == triangles@[t as int],
                done == all_corners(triangles@.take(t as int)),
                c == corners(triangles@[t as int]),
                c == seq![tri.a, tri.b, tri.c],
                pack_indices(done + c.take(k as int), point_count as nat) == Ok::<Seq<u8>, Seq<char>>(out@),
            decreases 3 - k,
        {
            let index = if k == 0 {
                tri.a
            } else if k == 1 {
                tri.b
            } else {
                tri.c
            };
            proof {
                assert((done + c.take(k + 1)).drop_last() =~= done + c.take(k as int));
                assert((done + c.take(k + 1)).last() == index);
                lemma_all_corners_prefix(triangles@, t + 1);
                lemma_all_corners_prefix(triangles@.take(t + 1), t as int);
                assert(triangles@.take(t + 1).take(t as int) =~= triangles@.take(t as int));
                assert(all_corners(triangles@.take(t + 1)) == done + c);
                assert(all_corners(triangles@).take(3 * t + k + 1) =~= done + c.take(k + 1));
                if index >= point_count || index > 0xFFFF_FFFF {
                    lemma_pack_error_extends(all_corners(triangles@), point_count as nat, 3 * t + k + 1);
                }
            }
            if index >= point_count {
                return Err(
                    string_from_chars(
                        chars_of(
                            "failed to serialize reconstruction: mesh triangle references a missing dense point",
                        ).as_slice(),
                    ),
                );
            }
            if index > 0xFFFF_FFFF {
                return Err(
                    string_from_chars(
                        chars_of(
                            "failed to serialize reconstruction: dense point index exceeds browser transport range",
                        ).as_slice(),
                    ),
                );
            }
            push_le_bytes(&mut out, index as u32);
            k = k + 1;
        }
        proof {
            assert(c.take(3) =~= c);
        }
        t = t + 1;
    }
    assert(triangles@.take(n as int) =~= triangles@);
    Ok(out)
}

/// The corners of benchmark triangle `index` over `point_count` points: three
/// consecutive points, wrapping around.
pub fn benchmark_triangle_corners(index: usize, point_count: usize) -> (r: (usize, usize, usize))
    requires
        point_count > 0,
        index % point_count + 2 <= usize::MAX,
    ensures
        r.0 == index % point_count,
        r.1 == (index % point_count + 1) % point_count as int,
        r.2 == (index % point_count + 2) % point_count as int,
{
    let a = index % point_count;
    (a, (a + 1) % point_count, (a + 2) % point_count)
}

/// The point count of a geometry benchmark: at least three points are required.
pub fn validate_geometry_benchmark_counts(point_count: u32) -> (r: Result<usize, String>)
    ensures
        point_count < 3 ==> (r matches Err(e) && e@ == "geometry boundary benchmark requires at least three points"@),
        point_count >= 3 ==> r == Ok::<usize, String>(point_count as usize),
{
    let count = point_count as usize;
    if count < 3 {
        return Err(
            string_from_chars(chars_of("geometry boundary benchmark requires at least three points").as_slice()),
        );
    }
    Ok(count)
}

/// The value of four little-endian bytes.
pub open spec fn from_le_bytes(b: Seq<u8>) -> int {
    b[0] + 256 * b[1] + 65536 * b[2] + 16777216 * b[3]
}

/// Reading four packed bytes back as a little-endian `u32` gives the packed index.
pub proof fn lemma_le_bytes_round_trip(v: u32)
    ensures
        le_bytes(v).len() == 4,
        from_le_bytes(le_bytes(v)) == v,
{
    let x = v as int;
    assert(x == x % 256 + 256 * ((x / 256) % 256) + 65536 * ((x / 65536) % 256) + 16777216 * (x / 16777216))
        by (nonlinear_arith)
        requires
            0 <= x < 0x1_0000_0000,
    ;
}

/// Each packed corner reads back as the index it packs: where packing succeeds, the
/// bytes hold four per corner, and the four at corner `j` read as that corner's index.
pub proof fn lemma_packed_indices_read_back(indices: Seq<usize>, point_count: nat)
    requires
        pack_indices(indices, point_count) is Ok,
    ensures
        ({
            let bytes = pack_indices(indices, point_count)->Ok_0;
            &&& bytes.len() == 4 * indices.len()
            &&& forall|j: int|
                0 <= j < indices.len() ==> #[trigger] from_le_bytes(bytes.subrange(4 * j, 4 * j + 4)) == indices[j]
                    && indices[j] < point_count
        }),
    decreases indices.len(),
{
    if indices.len() > 0 {
        let rest = indices.drop_last();
        lemma_packed_indices_read_back(rest, point_count);
        let before = pack_indices(rest, point_count)->Ok_0;
        let i = indices.last();
        let bytes = pack_indices(indices, point_count)->Ok_0;
        lemma_le_bytes_round_trip(i as u32);
        assert(i < point_count && i <= u32::MAX);
        assert((i as u32) as int == i);
        assert(bytes == before + le_bytes(i as u32));
        assert(bytes.len() == 4 * indices.len());
        assert forall|j: int| 0 <= j < indices.len() implies #[trigger] from_le_bytes(bytes.subrange(4 * j, 4 * j + 4))
            == indices[j] && indices[j] < point_count by {
            if j < rest.len() {
                assert(bytes.subrange(4 * j, 4 * j + 4) =~= before.subrange(4 * j, 4 * j + 4));
                assert(rest[j] == indices[j]);
            } else {
                assert(j == rest.len());
                assert(bytes.subrange(4 * j, 4 * j + 4) =~= le_bytes(i as u32));
                assert(indices[j] == i);
            }
        }
    }
}

} // verus!
