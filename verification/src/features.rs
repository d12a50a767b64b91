//! The integer core of the deterministic feature pipelines: grey images, pixel
//! sampling with clamping, the FAST-9 segment test, the BRIEF sampling pattern, the
//! descriptor distances before scaling, and the checks of an analysis request.

use crate::frames::{centred, descriptor, descriptor_window_ok, luma_of, window};
use crate::text::{chars_of, decimal, push_decimal, push_str, string_from_chars};
use vstd::prelude::*;

verus! {

/// Number of bits of a binary (BRIEF) descriptor.
pub const ORB_DESCRIPTOR_BITS: usize = 256;

/// The radius of the ORB patch.
pub const ORB_PATCH_RADIUS: i32 = 8;

/// The feature pipeline.
#[derive(Clone, Copy, Debug, PartialEq, Eq, Structural)]
pub enum FeatureAlgorithm {
    /// Harris corners with mean-centred patch descriptors.
    BaselineHarrisPatch,
    /// Multi-scale FAST corners with rotated binary descriptors.
    OrbStyle,
}

impl Default for FeatureAlgorithm {
    fn default() -> (r: Self)
        ensures
            r == FeatureAlgorithm::BaselineHarrisPatch,
    {
        FeatureAlgorithm::BaselineHarrisPatch
    }
}

/// A grey image: its size and its pixels, row after row.
#[derive(Clone, Debug)]
pub struct GrayImage {
    pub width: u32,
    pub height: u32,
    pub pixels: Vec<u8>,
}

/// The luma of each whole RGBA pixel, in order.
pub fn rgba_to_luma(rgba: &[u8]) -> (r: Vec<u8>)
    ensures
        r@ == luma_of(rgba@),
{
    let len = rgba.len();
    let n = len / 4;
    let mut out: Vec<u8> = Vec::new();
    let mut i: usize = 0;
    while i < n
        invariant
            i <= n == rgba@.len() / 4,
            len == rgba@.len(),
            out@ == luma_of(rgba@).take(i as int),
        decreases n - i,
    {
        proof {
            assert(4 * i + 3 < len) by (nonlinear_arith)
                requires
                    i < n,
                    n == len / 4,
            ;
        }
        let base = 4 * i;
        let total: u16 = 77 * (rgba[base] as u16) + 150 * (rgba[base + 1] as u16) + 29 * (rgba[base + 2] as u16);
        out.push((total / 256) as u8);
        i = i + 1;
        assert(out@ =~= luma_of(rgba@).take(i as int));
    }
    assert(luma_of(rgba@).take(n as int) =~= luma_of(rgba@));
    out
}

/// The pixel at column `x` of row `y`.
pub fn sample(image: &GrayImage, x: u32, y: u32) -> (v: u8)
    requires
        y * image.width + x <= u32::MAX,
        y * image.width + x < image.pixels@.len(),
    ensures
        v == image.pixels@[y * image.width + x],
{
    let index = y * image.width + x;
    image.pixels[index as usize]
}

/// `v` clamped to `0..=limit - 1`.
pub open spec fn clamp_coordinate(v: int, limit: int) -> int {
    if v < 0 {
        0
    } else if v > limit - 1 {
        limit - 1
    } else {
        v
    }
}

/// The pixel index that `sample_offset` reads.
pub open spec fn offset_index(image: GrayImage, x: u32, y: u32, dx: i32, dy: i32) -> int {
    clamp_coordinate(y + dy, image.height as int) * image.width + clamp_coordinate(x + dx, image.width as int)
}

/// The offset pixel can be read: the coordinates and sizes fit in an `i32`, the image is
/// not empty, and the clamped pixel lies within the pixels.
pub open spec fn offset_readable(image: GrayImage, x: u32, y: u32, dx: i32, dy: i32) -> bool {
    &&& x <= i32::MAX && y <= i32::MAX
    &&& i32::MIN <= x + dx <= i32::MAX && i32::MIN <= y + dy <= i32::MAX
    &&& 1 <= image.width <= i32::MAX && 1 <= image.height <= i32::MAX
    &&& offset_index(image, x, y, dx, dy) <= u32::MAX
    &&& offset_index(image, x, y, dx, dy) < image.pixels@.len()
}

/// The pixel at `(x + dx, y + dy)`, with each coordinate clamped to the image.
pub fn sample_offset(image: &GrayImage, x: u32, y: u32, dx: i32, dy: i32) -> (v: u8)
    requires
        offset_readable(*image, x, y, dx, dy),
    ensures
        v == image.pixels@[offset_index(*image, x, y, dx, dy)],
{
    let sx = clamp_i32(x as i32 + dx, 0, image.width as i32 - 1);
    let sy = clamp_i32(y as i32 + dy, 0, image.height as i32 - 1);
    proof {
        assert((sy as int) * (image.width as int) <= offset_index(*image, x, y, dx, dy));
    }
    sample(image, sx as u32, sy as u32)
}

fn clamp_i32(v: i32, low: i32, high: i32) -> (r: i32)
    requires
        low <= high,
    ensures
        r == if v < low {
            low
        } else if v > high {
            high
        } else {
            v
        },
{
    if v < low {
        low
    } else if v > high {
        high
    } else {
        v
    }
}

/// The mean-centred patch descriptor of radius `radius` around `(x, y)`.
pub fn patch_descriptor(image: &GrayImage, x: u32, y: u32, radius: u32) -> (r: Vec<i16>)
    requires
        descriptor_window_ok(image.pixels@, image.width as nat, x as nat, y as nat, radius as nat),
        (y + radius) * image.width + (x + radius) <= u32::MAX,
    ensures
        r@ == centred(window(image.pixels@, image.width as nat, x as nat, y as nat, radius as nat)),
{
    descriptor(image.pixels.as_slice(), image.width, x, y, radius)
}

/// The offset of position `i` of the FAST circle of radius three, clockwise from the
/// top.
pub open spec fn circle_offset(i: int) -> (int, int) {
    if i == 0 {
        (0, -3)
    } else if i == 1 {
        (1, -3)
    } else if i == 2 {
        (2, -2)
    } else if i == 3 {
        (3, -1)
    } else if i == 4 {
        (3, 0)
    } else if i == 5 {
        (3, 1)
    } else if i == 6 {
        (2, 2)
    } else if i == 7 {
        (1, 3)
    } else if i == 8 {
        (0, 3)
    } else if i == 9 {
        (-1, 3)
    } else if i == 10 {
        (-2, 2)
    } else if i == 11 {
        (-3, 1)
    } else if i == 12 {
        (-3, 0)
    } else if i == 13 {
        (-3, -1)
    } else if i == 14 {
        (-2, -2)
    } else {
        (-1, -3)
    }
}

fn fast_circle_offset(i: usize) -> (r: (i32, i32))
    requires
        i < 16,
    ensures
        (r.0 as int, r.1 as int) == circle_offset(i as int),
{
    match i {
        0 => (0, -3),
        1 => (1, -3),
        2 => (2, -2),
        3 => (3, -1),
        4 => (3, 0),
        5 => (3, 1),
        6 => (2, 2),
        7 => (1, 3),
        8 => (0, 3),
        9 => (-1, 3),
        10 => (-2, 2),
        11 => (-3, 1),
        12 => (-3, 0),
        13 => (-3, -1),
        14 => (-2, -2),
        _ => (-1, -3),
    }
}

/// Whether the `required` positions ending at `i` of the circle walked from position 0
/// (positions taken modulo 16) all hold.
pub open spec fn run_ends_at(values: Seq<bool>, required: int, i: int) -> bool {
    forall|k: int| i - required < k <= i ==> #[trigger] values[k % 16]
}

/// Whether walking the 16 positions from position 0 and on past the end for
/// `required - 1` more finds `required` holding positions in a row. With no required
/// positions, a holding position among the first 15 suffices.
pub open spec fn circular_run(values: Seq<bool>, required: int) -> bool {
    if required == 0 {
        exists|i: int| 0 <= i < 15 && #[trigger] values[i]
    } else {
        exists|i: int| required - 1 <= i < 15 + required && #[trigger] run_ends_at(values, required, i)
    }
}

/// The length of the run of holding positions that ends at position `i` of the walk.
pub open spec fn run_length(values: Seq<bool>, i: int) -> nat
    decreases i + 1,
{
    if i < 0 {
        0
    } else if values[i % 16] {
        run_length(values, i - 1) + 1
    } else {
        0
    }
}

proof fn lemma_run_length(values: Seq<bool>, i: int, required: int)
    requires
        i >= -1,
        required >= 1,
    ensures
        run_length(values, i) >= required <==> (i - required >= -1 && run_ends_at(values, required, i)),
    decreases i + 1,
{
    if i >= 0 {
        if !values[i % 16] {
            assert(!run_ends_at(values, required, i)) by {
                assert(i - required < i);
            }
        } else if required == 1 {
            assert forall|k: int| i - required < k <= i implies #[trigger] values[k % 16] by {
                assert(k == i);
            }
        } else {
            lemma_run_length(values, i - 1, required - 1);
            if i - required >= -1 && run_ends_at(values, required - 1, i - 1) {
                assert forall|k: int| i - required < k <= i implies #[trigger] values[k % 16] by {
                    if k < i {
                        assert(i - 1 - (required - 1) < k <= i - 1);
                    }
                }
            }
            if i - required >= -1 && run_ends_at(values, required, i) {
                assert forall|k: int| i - 1 - (required - 1) < k <= i - 1 implies #[trigger] values[k % 16] by {
                    assert(i - required < k <= i);
                }
            }
        }
    }
}

proof fn lemma_run_length_positive(values: Seq<bool>, i: int)
    requires
        i >= 0,
        run_length(values, i) > 0,
    ensures
        values[i % 16],
{
}

/// Whether the 16 circle flags hold a run of `required` set flags, found by walking the
/// circle from position 0 and on past its end for `required - 1` more positions.
pub fn has_circular_run(values: &[bool; 16], required: usize) -> (r: bool)
    requires
        required <= usize::MAX - 16,
    ensures
        r == circular_run(values@, required as int),
{
    let total = 16 + required - 1;
    let mut run: usize = 0;
    let mut index: usize = 0;
    while index < total
        invariant
            total == 15 + required,
            index <= total,
            run == run_length(values@, index - 1),
            run <= index,
            forall|i: int| 0 <= i < index ==> #[trigger] values@[i % 16] ==> run_length(values@, i) < required,
        decreases total - index,
    {
        if values[index % 16] {
            run = run + 1;
            if run >= required {
                proof {
                    assert(run == run_length(values@, index as int));
                    if required == 0 {
                        assert(index < 15);
                        assert(index as int % 16 == index);
                        assert(values@[index as int]);
                    } else {
                        lemma_run_length(values@, index as int, required as int);
                        assert(run_ends_at(values@, required as int, index as int));
                    }
                }
                return true;
            }
        } else {
            run = 0;
        }
        index = index + 1;
    }
    proof {
        if required == 0 {
            assert forall|i: int| 0 <= i < 15 implies !(#[trigger] values@[i]) by {
                assert(i % 16 == i);
            }
        } else {
            assert forall|i: int| required - 1 <= i < 15 + required implies !#[trigger] run_ends_at(
                values@,
                required as int,
                i,
            ) by {
                lemma_run_length(values@, i, required as int);
                if run_length(values@, i) >= required {
                    lemma_run_length_positive(values@, i);
                }
            }
        }
    }
    false
}

/// The difference between circle position `i` around `(x, y)` and the centre pixel.
pub open spec fn fast_delta(image: GrayImage, x: u32, y: u32, i: int) -> int {
    image.pixels@[offset_index(image, x, y, circle_offset(i).0 as i32, circle_offset(i).1 as i32)]
        - image.pixels@[y * image.width + x]
}

/// Which circle positions are brighter than the centre by more than `t`.
pub open spec fn fast_bright(image: GrayImage, x: u32, y: u32, t: u8) -> Seq<bool> {
    Seq::new(16, |i: int| fast_delta(image, x, y, i) > t)
}

/// Which circle positions are darker than the centre by more than `t`.
pub open spec fn fast_dark(image: GrayImage, x: u32, y: u32, t: u8) -> Seq<bool> {
    Seq::new(16, |i: int| fast_delta(image, x, y, i) < -t)
}

/// The absolute differences of the first `n` circle positions that differ from the
/// centre by more than `t`, summed.
pub open spec fn fast_strength(image: GrayImage, x: u32, y: u32, t: u8, n: int) -> int
    decreases n,
{
    if n <= 0 {
        0
    } else {
        let d = fast_delta(image, x, y, n - 1);
        fast_strength(image, x, y, t, n - 1) + if d > t || d < -t {
            if d < 0 {
                -d
            } else {
                d
            }
        } else {
            0
        }
    }
}

/// The FAST-9 segment test at `(x, y)`: where nine circle positions in a row are all
/// brighter, or all darker, than the centre by more than `t`, the strength of the
/// corner.
pub open spec fn fast9(image: GrayImage, x: u32, y: u32, t: u8) -> Option<int> {
    if circular_run(fast_bright(image, x, y, t), 9) || circular_run(fast_dark(image, x, y, t), 9) {
        Some(fast_strength(image, x, y, t, 16))
    } else {
        None
    }
}

/// The centre and every circle position around `(x, y)` can be read.
pub open spec fn fast_readable(image: GrayImage, x: u32, y: u32) -> bool {
    &&& y * image.width + x <= u32::MAX
    &&& y * image.width + x < image.pixels@.len()
    &&& forall|i: int|
        0 <= i < 16 ==> #[trigger] offset_readable(
            image,
            x,
            y,
            circle_offset(i).0 as i32,
            circle_offset(i).1 as i32,
        )
}

/// The FAST-9 corner strength at `(x, y)` with threshold `threshold`, if the segment
/// test passes.
pub fn fast9_strength(image: &GrayImage, x: u32, y: u32, threshold: u8) -> (r: Option<i32>)
    requires
        fast_readable(*image, x, y),
    ensures
        match fast9(*image, x, y, threshold) {
            Some(s) => r matches Some(v) && v as int == s,
            None => r is None,
        },
{
    let center = sample(image, x, y) as i16;
    let t = threshold as i16;
    let mut bright = [false; 16];
    let mut dark = [false; 16];
    let mut strength: i32 = 0;
    let mut i: usize = 0;
    while i < 16
        invariant
            i <= 16,
            fast_readable(*image, x, y),
            center == image.pixels@[y * image.width + x],
            t == threshold,
            forall|j: int| 0 <= j < i ==> bright@[j] == (fast_delta(*image, x, y, j) > threshold),
            forall|j: int| 0 <= j < i ==> dark@[j] == (fast_delta(*image, x, y, j) < -threshold),
            forall|j: int| 0 <= j < i ==> -255 <= #[trigger] fast_delta(*image, x, y, j) <= 255,
            strength == fast_strength(*image, x, y, threshold, i as int),
            0 <= strength <= 255 * i,
        decreases 16 - i,
    {
        let (dx, dy) = fast_circle_offset(i);
        proof {
            assert(offset_readable(*image, x, y, circle_offset(i as int).0 as i32, circle_offset(i as int).1 as i32));
        }
        let value = sample_offset(image, x, y, dx, dy) as i16;
        let delta = value - center;
        bright[i] = delta > t;
        dark[i] = delta < -t;
        if delta > t || delta < -t {
            let magnitude: i32 = if delta < 0 {
                -(delta as i32)
            } else {
                delta as i32
            };
            strength = strength + magnitude;
        }
        i = i + 1;
    }
    proof {
        assert(bright@ =~= fast_bright(*image, x, y, threshold));
        assert(dark@ =~= fast_dark(*image, x, y, threshold));
    }
    if has_circular_run(&bright, 9) || has_circular_run(&dark, 9) {
        Some(strength)
    } else {
        None
    }
}

/// One step of the BRIEF sampling generator.
#[verifier::opaque]
pub open spec fn brief_step(state: u32) -> u32 {
    vstd::wrapping::u32_specs::wrapping_add(vstd::wrapping::u32_specs::wrapping_mul(state, 1_664_525), 1_013_904_223)
}

/// A coordinate in `-7..=7` drawn from a generator state.
#[verifier::opaque]
pub open spec fn brief_coordinate(state: u32) -> int {
    ((state >> 16u32) % 15) as int - 7
}

/// Draws points two coordinates at a time, at most `left` times, until one lies in the
/// disc of radius seven; the origin where none does.
pub open spec fn brief_search(state: u32, left: nat) -> (int, int)
    decreases left,
{
    if left == 0 {
        (0, 0)
    } else {
        let first = brief_step(state);
        let second = brief_step(first);
        let x = brief_coordinate(first);
        let y = brief_coordinate(second);
        if x * x + y * y <= 49 {
            (x, y)
        } else {
            brief_search(second, (left - 1) as nat)
        }
    }
}

/// The BRIEF sampling offset drawn from `seed`: within the disc of radius seven, tried
/// at most 24 times, the origin otherwise.
pub fn brief_offset(seed: u32) -> (r: (i32, i32))
    ensures
        (r.0 as int, r.1 as int) == brief_search(seed, 24),
{
    let mut state = seed;
    let mut round: u32 = 0;
    while round < 24
        invariant
            round <= 24,
            brief_search(seed, 24) == brief_search(state, (24 - round) as nat),
        decreases 24 - round,
    {
        let ghost left = (24 - round) as nat;
        let first = next_brief_state(state);
        let x = brief_coordinate_exec(first);
        let second = next_brief_state(first);
        let y = brief_coordinate_exec(second);
        proof {
            assert(0 <= x * x <= 49) by (nonlinear_arith)
                requires
                    -7 <= x <= 7,
            ;
            assert(0 <= y * y <= 49) by (nonlinear_arith)
                requires
                    -7 <= y <= 7,
            ;
        }
        let x2 = x * x;
        let y2 = y * y;
        proof {
            assert(x2 == x * x && y2 == y * y);
            assert(left > 0);
            assert(brief_search(state, left) == if x * x + y * y <= 49 {
                (x as int, y as int)
            } else {
                brief_search(second, (left - 1) as nat)
            });
        }
        if x2 + y2 <= 49 {
            return (x, y);
        }
        state = second;
        round = round + 1;
    }
    (0, 0)
}

fn next_brief_state(state: u32) -> (r: u32)
    ensures
        r == brief_step(state),
{
    reveal(brief_step);
    state.wrapping_mul(1_664_525).wrapping_add(1_013_904_223)
}

fn brief_coordinate_exec(state: u32) -> (r: i32)
    ensures
        r as int == brief_coordinate(state),
        -7 <= r <= 7,
{
    reveal(brief_coordinate);
    ((state >> 16) % 15) as i32 - 7
}

/// Every BRIEF sampling offset lies in the disc of radius seven around the keypoint.
pub proof fn lemma_brief_offsets_in_disc(state: u32, left: nat)
    ensures
        ({
            let r = brief_search(state, left);
            r.0 * r.0 + r.1 * r.1 <= 49
        }),
    decreases left,
{
    let r = brief_search(state, left);
    if left > 0 {
        let first = brief_step(state);
        let second = brief_step(first);
        let x = brief_coordinate(first);
        let y = brief_coordinate(second);
        lemma_brief_offsets_in_disc(second, (left - 1) as nat);
        if x * x + y * y <= 49 {
            assert(r == (x, y));
        } else {
            let q = brief_search(second, (left - 1) as nat);
            assert(r == q);
            assert(q.0 * q.0 + q.1 * q.1 <= 49);
        }
    } else {
        assert(r == (0int, 0int));
        assert(r.0 * r.0 + r.1 * r.1 <= 49) by (nonlinear_arith)
            requires
                r.0 == 0,
                r.1 == 0,
        ;
    }
}

/// The number of set bits of `v`.
pub open spec fn bit_count(v: u64) -> nat
    decreases v,
{
    if v == 0 {
        0
    } else {
        (v % 2) as nat + bit_count(v / 2)
    }
}

fn count_bits(v: u64) -> (r: u32)
    ensures
        r == bit_count(v),
        r <= 64,
{
    let mut rest = v;
    let mut count: u32 = 0;
    let mut steps: u64 = 0;
    assert(v <= (0xFFFF_FFFF_FFFF_FFFFu64 >> 0u64)) by (bit_vector);
    while rest != 0
        invariant
            count + bit_count(rest) == bit_count(v),
            count <= steps,
            steps <= 64,
            steps == 64 ==> rest == 0,
            steps < 64 ==> rest <= (0xFFFF_FFFF_FFFF_FFFFu64 >> steps),
        decreases rest,
    {
        assert(rest & 1 == rest % 2) by (bit_vector);
        assert(rest >> 1 == rest / 2) by (bit_vector);
        assert(steps < 64 && rest != 0 && rest <= (0xFFFF_FFFF_FFFF_FFFFu64 >> steps) ==> (steps + 1 == 64
            ==> rest >> 1 == 0) && (steps + 1 < 64 ==> rest >> 1 <= (0xFFFF_FFFF_FFFF_FFFFu64 >> (steps + 1))))
            by (bit_vector);
        count = count + (rest & 1) as u32;
        rest = rest >> 1;
        steps = steps + 1;
    }
    count
}

/// The number of bits in which the two binary descriptors differ.
pub open spec fn hamming(left: Seq<u64>, right: Seq<u64>, n: int) -> nat
    decreases n,
{
    if n <= 0 {
        0
    } else {
        hamming(left, right, n - 1) + bit_count(left[n - 1] ^ right[n - 1])
    }
}

/// The Hamming distance between two binary descriptors.
pub fn hamming_distance(left: &[u64; 4], right: &[u64; 4]) -> (r: u32)
    ensures
        r == hamming(left@, right@, 4),
{
    let mut total: u32 = 0;
    let mut i: usize = 0;
    while i < 4
        invariant
            i <= 4,
            total == hamming(left@, right@, i as int),
            total <= 64 * i,
        decreases 4 - i,
    {
        let bits = count_bits(left[i] ^ right[i]);
        total = total + bits;
        i = i + 1;
    }
    total
}

/// The sum of the squared differences of the first `n` values.
pub open spec fn squared_difference_total(left: Seq<i16>, right: Seq<i16>, n: int) -> int
    decreases n,
{
    if n <= 0 {
        0
    } else {
        let d = left[n - 1] - right[n - 1];
        squared_difference_total(left, right, n - 1) + d * d
    }
}

proof fn lemma_squared_total_monotone(left: Seq<i16>, right: Seq<i16>, i: int, n: int)
    requires
        0 <= i <= n,
    ensures
        0 <= squared_difference_total(left, right, i) <= squared_difference_total(left, right, n),
    decreases n - i,
{
    if i < n {
        lemma_squared_total_monotone(left, right, i, n - 1);
        let d = left[n - 1] - right[n - 1];
        assert(d * d >= 0) by (nonlinear_arith);
    } else {
        lemma_squared_total_nonneg(left, right, i);
    }
}

proof fn lemma_squared_total_nonneg(left: Seq<i16>, right: Seq<i16>, n: int)
    ensures
        0 <= squared_difference_total(left, right, n),
    decreases n,
{
    if n > 0 {
        lemma_squared_total_nonneg(left, right, n - 1);
        let d = left[n - 1] - right[n - 1];
        assert(d * d >= 0) by (nonlinear_arith);
    }
}

/// The sum of the squared differences of two patch descriptors, where their lengths
/// agree; the distance between them is its mean's square root.
pub fn patch_difference_total(left: &Vec<i16>, right: &Vec<i16>) -> (r: Option<i32>)
    requires
        left@.len() == right@.len() ==> squared_difference_total(left@, right@, left@.len() as int) <= i32::MAX,
    ensures
        left@.len() != right@.len() ==> r is None,
        left@.len() == right@.len() ==> r == Some(squared_difference_total(left@, right@, left@.len() as int) as i32),
{
    if left.len() != right.len() {
        return None;
    }
    let n = left.len();
    let mut total: i32 = 0;
    let mut i: usize = 0;
    while i < n
        invariant
            i <= n == left@.len() == right@.len(),
            squared_difference_total(left@, right@, n as int) <= i32::MAX,
            total == squared_difference_total(left@, right@, i as int),
        decreases n - i,
    {
        let d: i32 = (left[i] as i32) - (right[i] as i32);
        proof {
            lemma_squared_total_monotone(left@, right@, i + 1, n as int);
            lemma_squared_total_nonneg(left@, right@, i as int);
            assert(d * d >= 0) by (nonlinear_arith);
        }
        total = total + d * d;
        i = i + 1;
    }
    Some(total)
}

/// The outcome of checking the options of a feature analysis: its counts and limits,
/// and whether its two real-valued limits were valid.
#[derive(Clone, Copy, Debug)]
pub struct FeatureOptionChecks {
    pub max_features: usize,
    pub fast_threshold: u8,
    pub orb_max_hamming: u32,
    pub pyramid_levels: u8,
    /// `baseline_max_distance` is finite and positive.
    pub baseline_max_distance_valid: bool,
    /// `ratio_threshold` lies in `0..1`.
    pub ratio_threshold_valid: bool,
}

/// Why a feature analysis of two frames is refused, if it is.
pub open spec fn input_fault(source_len: nat, target_len: nat, width: nat, height: nat, options: FeatureOptionChecks) -> Option<
    Seq<char>,
> {
    let expected = width * height * 4;
    if width < 32 || height < 24 {
        Some("feature analysis requires frames of at least 32x24 pixels"@)
    } else if source_len != expected || target_len != expected {
        Some(
            "invalid RGBA payload: expected "@ + decimal(expected) + " bytes per frame, got "@ + decimal(source_len)
                + " and "@ + decimal(target_len),
        )
    } else if options.max_features == 0 {
        Some("max_features must be positive"@)
    } else if options.fast_threshold == 0 {
        Some("fast_threshold must be positive"@)
    } else if !options.baseline_max_distance_valid {
        Some("baseline_max_distance must be finite and positive"@)
    } else if options.orb_max_hamming == 0 || options.orb_max_hamming > ORB_DESCRIPTOR_BITS {
        Some("orb_max_hamming must be between 1 and 256"@)
    } else if !options.ratio_threshold_valid {
        Some("ratio_threshold must be between 0 and 1"@)
    } else if options.pyramid_levels == 0 {
        Some("pyramid_levels must be positive"@)
    } else {
        None
    }
}

fn fault(text: &str) -> (r: Result<(), String>)
    ensures
        r matches Err(e) && e@ == text@,
{
    Err(string_from_chars(chars_of(text).as_slice()))
}

/// Checks the frames and options of a feature analysis.
pub fn validate_input(
    source_rgba: &[u8],
    target_rgba: &[u8],
    width: u32,
    height: u32,
    options: FeatureOptionChecks,
) -> (r: Result<(), String>)
    requires
        width * height * 4 <= usize::MAX,
    ensures
        match input_fault(source_rgba@.len(), target_rgba@.len(), width as nat, height as nat, options) {
            None => r is Ok,
            Some(m) => r matches Err(e) && e@ == m,
        },
{
    if width < 32 || height < 24 {
        return fault("feature analysis requires frames of at least 32x24 pixels");
    }
    let expected = (width as usize) * (height as usize) * 4;
    if source_rgba.len() != expected || target_rgba.len() != expected {
        let mut out: Vec<char> = Vec::new();
        push_str(&mut out, "invalid RGBA payload: expected ");
        push_decimal(&mut out, expected);
        push_str(&mut out, " bytes per frame, got ");
        push_decimal(&mut out, source_rgba.len());
        push_str(&mut out, " and ");
        push_decimal(&mut out, target_rgba.len());
        return Err(string_from_chars(out.as_slice()));
    }
    if options.max_features == 0 {
        return fault("max_features must be positive");
    }
    if options.fast_threshold == 0 {
        return fault("fast_threshold must be positive");
    }
    if !options.baseline_max_distance_valid {
        return fault("baseline_max_distance must be finite and positive");
    }
    if options.orb_max_hamming == 0 || options.orb_max_hamming > 256 {
        return fault("orb_max_hamming must be between 1 and 256");
    }
    if !options.ratio_threshold_valid {
        return fault("ratio_threshold must be between 0 and 1");
    }
    if options.pyramid_levels == 0 {
        return fault("pyramid_levels must be positive");
    }
    Ok(())
}

/// `required` positions in a row hold, starting at position `start` of the circle and
/// wrapping around its end.
pub open spec fn run_from(values: Seq<bool>, start: int, required: int) -> bool {
    forall|k: int| 0 <= k < required ==> #[trigger] values[(start + k) % 16]
}

/// For one to sixteen required positions, the walk finds a run exactly when some run of
/// that length exists on the circle, wherever it starts: a run may wrap around the end.
pub proof fn lemma_circular_run_wraps(values: Seq<bool>, required: int)
    requires
        1 <= required <= 16,
    ensures
        circular_run(values, required) <==> exists|start: int| 0 <= start < 16 && #[trigger] run_from(values, start, required),
{
    if circular_run(values, required) {
        let i = choose|i: int| required - 1 <= i < 15 + required && #[trigger] run_ends_at(values, required, i);
        let start = (i - required + 1) % 16;
        assert forall|k: int| 0 <= k < required implies #[trigger] values[(start + k) % 16] by {
            vstd::arithmetic::div_mod::lemma_add_mod_noop_right(k, i - required + 1, 16);
            assert((start + k) % 16 == (i - required + 1 + k) % 16);
            assert(i - required < i - required + 1 + k <= i);
        }
        assert(run_from(values, start, required));
    }
    if exists|start: int| 0 <= start < 16 && #[trigger] run_from(values, start, required) {
        let start = choose|start: int| 0 <= start < 16 && #[trigger] run_from(values, start, required);
        let i = start + required - 1;
        assert forall|k: int| i - required < k <= i implies #[trigger] values[k % 16] by {
            assert(values[(start + (k - start)) % 16]);
        }
        assert(run_ends_at(values, required, i));
    }
}

/// No neighbour of `(x, y)` among the eight around it passes the segment test with a
/// greater strength than `score`.
pub open spec fn fast_local_maximum(image: GrayImage, x: u32, y: u32, t: u8, score: int) -> bool {
    forall|nx: u32, ny: u32|
        x - 1 <= nx <= x + 1 && y - 1 <= ny <= y + 1 && !(nx == x && ny == y) ==> match #[trigger] fast9(
            image,
            nx,
            ny,
            t,
        ) {
            Some(s) => s <= score,
            None => true,
        }
}

/// Whether the FAST strength `score` at `(x, y)` is at least that of each neighbour
/// that passes the segment test.
pub fn is_fast_local_maximum(image: &GrayImage, x: u32, y: u32, threshold: u8, score: i32) -> (r: bool)
    requires
        1 <= x < u32::MAX,
        1 <= y < u32::MAX,
        forall|nx: u32, ny: u32|
            x - 1 <= nx <= x + 1 && y - 1 <= ny <= y + 1 ==> #[trigger] fast_readable(*image, nx, ny),
    ensures
        r == fast_local_maximum(*image, x, y, threshold, score as int),
{
    let mut row: u32 = 0;
    while row < 3
        invariant
            1 <= x < u32::MAX,
            1 <= y < u32::MAX,
            row <= 3,
            forall|nx: u32, qy: u32|
                x - 1 <= nx <= x + 1 && y - 1 <= qy <= y + 1 ==> #[trigger] fast_readable(*image, nx, qy),
            forall|nx: u32, qy: u32|
                x - 1 <= nx <= x + 1 && y - 1 <= qy < y - 1 + row && !(nx == x && qy == y) ==> match #[trigger] fast9(
                    *image,
                    nx,
                    qy,
                    threshold,
                ) {
                    Some(s) => s <= score,
                    None => true,
                },
        decreases 3 - row,
    {
        let ny = y - 1 + row;
        let mut col: u32 = 0;
        while col < 3
            invariant
                1 <= x < u32::MAX,
                1 <= y < u32::MAX,
                row < 3,
                ny == y - 1 + row,
                col <= 3,
                forall|px: u32, qy: u32|
                    x - 1 <= px <= x + 1 && y - 1 <= qy <= y + 1 ==> #[trigger] fast_readable(*image, px, qy),
                forall|px: u32, qy: u32|
                    x - 1 <= px <= x + 1 && y - 1 <= qy < y - 1 + row && !(px == x && qy == y) ==> match #[trigger] fast9(
                        *image,
                        px,
                        qy,
                        threshold,
                    ) {
                        Some(s) => s <= score,
                        None => true,
                    },
                forall|px: u32|
                    x - 1 <= px < x - 1 + col && !(px == x && ny == y) ==> match #[trigger] fast9(*image, px, ny, threshold) {
                        Some(s) => s <= score,
                        None => true,
                    },
            decreases 3 - col,
        {
            let nx = x - 1 + col;
            if !(nx == x && ny == y) {
                if let Some(neighbor) = fast9_strength(image, nx, ny, threshold) {
                    if neighbor > score {
                        return false;
                    }
                }
            }
            col = col + 1;
        }
        row = row + 1;
    }
    true
}

/// Nine circle positions in a row, from `start` and wrapping around, are all brighter
/// than the centre by more than `t`.
pub open spec fn bright_arc(image: GrayImage, x: u32, y: u32, t: u8, start: int) -> bool {
    forall|k: int| 0 <= k < 9 ==> #[trigger] fast_delta(image, x, y, (start + k) % 16) > t
}

/// Nine circle positions in a row, from `start` and wrapping around, are all darker
/// than the centre by more than `t`.
pub open spec fn dark_arc(image: GrayImage, x: u32, y: u32, t: u8, start: int) -> bool {
    forall|k: int| 0 <= k < 9 ==> #[trigger] fast_delta(image, x, y, (start + k) % 16) < -t
}

/// The segment test passes exactly where nine contiguous circle positions (wrapping
/// around the circle) are all brighter than the centre by more than the threshold, or
/// all darker by more than it: dark corners count as much as bright ones.
pub proof fn lemma_fast9_segment_test(image: GrayImage, x: u32, y: u32, t: u8)
    ensures
        fast9(image, x, y, t) is Some <==> exists|start: int|
            0 <= start < 16 && (#[trigger] bright_arc(image, x, y, t, start) || dark_arc(image, x, y, t, start)),
{
    let bright = fast_bright(image, x, y, t);
    let dark = fast_dark(image, x, y, t);
    lemma_circular_run_wraps(bright, 9);
    lemma_circular_run_wraps(dark, 9);
    assert forall|start: int| 0 <= start < 16 implies (run_from(bright, start, 9) == bright_arc(image, x, y, t, start)
        && run_from(dark, start, 9) == dark_arc(image, x, y, t, start)) by {
        assert forall|k: int| 0 <= k < 9 implies #[trigger] bright[(start + k) % 16] == (fast_delta(
            image,
            x,
            y,
            (start + k) % 16,
        ) > t) && dark[(start + k) % 16] == (fast_delta(image, x, y, (start + k) % 16) < -t) by {
            assert(0 <= (start + k) % 16 < 16);
        }
        if run_from(bright, start, 9) {
            assert forall|k: int| 0 <= k < 9 implies #[trigger] fast_delta(image, x, y, (start + k) % 16) > t by {
                assert(bright[(start + k) % 16]);
            }
        }
        if bright_arc(image, x, y, t, start) {
            assert forall|k: int| 0 <= k < 9 implies #[trigger] bright[(start + k) % 16] by {
                assert(fast_delta(image, x, y, (start + k) % 16) > t);
            }
        }
        if run_from(dark, start, 9) {
            assert forall|k: int| 0 <= k < 9 implies #[trigger] fast_delta(image, x, y, (start + k) % 16) < -t by {
                assert(dark[(start + k) % 16]);
            }
        }
        if dark_arc(image, x, y, t, start) {
            assert forall|k: int| 0 <= k < 9 implies #[trigger] dark[(start + k) % 16] by {
                assert(fast_delta(image, x, y, (start + k) % 16) < -t);
            }
        }
    }
    if fast9(image, x, y, t) is Some {
        if circular_run(bright, 9) {
            let start = choose|start: int| 0 <= start < 16 && #[trigger] run_from(bright, start, 9);
            assert(bright_arc(image, x, y, t, start));
        } else {
            let start = choose|start: int| 0 <= start < 16 && #[trigger] run_from(dark, start, 9);
            assert(dark_arc(image, x, y, t, start));
        }
    }
    if exists|start: int| 0 <= start < 16 && (#[trigger] bright_arc(image, x, y, t, start) || dark_arc(image, x, y, t, start)) {
        let start = choose|start: int|
            0 <= start < 16 && (#[trigger] bright_arc(image, x, y, t, start) || dark_arc(image, x, y, t, start));
        if bright_arc(image, x, y, t, start) {
            assert(run_from(bright, start, 9));
        } else {
            assert(run_from(dark, start, 9));
        }
    }
}

} // verus!
