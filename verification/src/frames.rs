//! Sampled RGBA frames: request validation, luma conversion, pixel sampling, the
//! mean-centred patch descriptor of the reconstruction's feature detector, the spacing of
//! detected corners, and the radius and one-match-per-target rules of its matcher.

use crate::text::{decimal, push_decimal, push_str, string_from_chars};
use vstd::prelude::*;

verus! {

/// A sampled frame: its size and its pixels as RGBA bytes, row after row.
#[derive(Clone, Debug)]
pub struct FrameInput {
    pub width: u32,
    pub height: u32,
    pub rgba: Vec<u8>,
}

/// The luma of an RGB pixel: `(77 r + 150 g + 29 b) / 256`.
pub open spec fn luma(r: u8, g: u8, b: u8) -> u8 {
    ((77 * r + 150 * g + 29 * b) / 256) as u8
}

fn luma_exec(r: u8, g: u8, b: u8) -> (v: u8)
    ensures
        v == luma(r, g, b),
{
    let total: u16 = 77 * (r as u16) + 150 * (g as u16) + 29 * (b as u16);
    (total / 256) as u8
}

/// The luma of each whole RGBA pixel of `rgba`, in order; a trailing partial pixel is
/// ignored.
pub open spec fn luma_of(rgba: Seq<u8>) -> Seq<u8> {
    Seq::new(rgba.len() / 4, |i: int| luma(rgba[4 * i], rgba[4 * i + 1], rgba[4 * i + 2]))
}

/// The luma of each pixel of the frame.
pub fn to_luma(frame: &FrameInput) -> (r: Vec<u8>)
    ensures
        r@ == luma_of(frame.rgba@),
{
    let n = frame.rgba.len() / 4;
    let mut out: Vec<u8> = Vec::new();
    let mut i: usize = 0;
    while i < n
        invariant
            i <= n == frame.rgba@.len() / 4,
            frame.rgba@.len() <= usize::MAX,
            out@ == luma_of(frame.rgba@).take(i as int),
        decreases n - i,
    {
        proof {
            assert(4 * i + 3 < frame.rgba@.len()) by (nonlinear_arith)
                requires
                    i < n,
                    n == frame.rgba@.len() / 4,
            ;
        }
        let base = 4 * i;
        out.push(luma_exec(frame.rgba[base], frame.rgba[base + 1], frame.rgba[base + 2]));
        i = i + 1;
        assert(out@ =~= luma_of(frame.rgba@).take(i as int));
    }
    assert(luma_of(frame.rgba@).take(n as int) =~= luma_of(frame.rgba@));
    out
}

/// The luma at column `x` of row `y` of an image `width` pixels wide.
pub fn sample_luma(luma: &[u8], width: u32, x: u32, y: u32) -> (v: u8)
    requires
        y * width + x < luma@.len(),
    ensures
        v == luma@[y * width + x],
{
    let n = luma.len();
    proof {
        assert((y as int) * (width as int) <= (y as int) * (width as int) + x);
    }
    let index = (y as usize) * (width as usize) + (x as usize);
    luma[index]
}

/// The red, green and blue bytes of the pixel at column `x` of row `y`.
pub fn sample_rgb(frame: &FrameInput, x: u32, y: u32) -> (v: (u8, u8, u8))
    requires
        (y * frame.width + x) * 4 + 2 < frame.rgba@.len(),
    ensures
        v == ({
            let i = (y * frame.width + x) * 4;
            (frame.rgba@[i], frame.rgba@[i + 1], frame.rgba@[i + 2])
        }),
{
    let n = frame.rgba.len();
    proof {
        assert((y as int) * (frame.width as int) <= (y as int) * (frame.width as int) + x);
    }
    let index = ((y as usize) * (frame.width as usize) + (x as usize)) * 4;
    (frame.rgba[index], frame.rgba[index + 1], frame.rgba[index + 2])
}

/// The values of the square window of radius `r` around `(x, y)`, row after row.
pub open spec fn window(luma: Seq<u8>, width: nat, x: nat, y: nat, r: nat) -> Seq<u8> {
    let side: int = (2 * r + 1) as int;
    Seq::new((side * side) as nat, |k: int| luma[(y - r + k / side) * width + (x - r + k % side)])
}

/// The sum of the values.
pub open spec fn value_sum(s: Seq<u8>) -> int
    decreases s.len(),
{
    if s.len() == 0 {
        0
    } else {
        value_sum(s.drop_last()) + s.last()
    }
}

/// The window of radius `r` around `(x, y)` lies within the image and its values can be
/// summed in an `i32`.
pub open spec fn descriptor_window_ok(luma: Seq<u8>, width: nat, x: nat, y: nat, r: nat) -> bool {
    &&& r <= x && r <= y
    &&& y + r <= u32::MAX && x + r < width
    &&& (y + r) * width + (x + r) < luma.len()
    &&& (2 * r + 1) * (2 * r + 1) <= i32::MAX
    &&& value_sum(window(luma, width, x, y, r)) <= i32::MAX
}

/// The window's values less their mean (rounded toward zero).
pub open spec fn centred(w: Seq<u8>) -> Seq<i16> {
    let mean = value_sum(w) / (w.len() as int);
    Seq::new(w.len(), |k: int| (w[k] - mean) as i16)
}

proof fn lemma_value_sum_bounds(s: Seq<u8>, i: int)
    requires
        0 <= i <= s.len(),
    ensures
        0 <= value_sum(s.take(i)) <= value_sum(s),
        value_sum(s.take(i)) <= 255 * i,
    decreases s.len() - i,
{
    lemma_value_sum_nonneg(s.take(i));
    if i < s.len() {
        assert(s.take(i + 1).drop_last() =~= s.take(i));
        assert(s.take(i + 1).last() == s[i]);
        lemma_value_sum_bounds(s, i + 1);
    } else {
        assert(s.take(i) =~= s);
    }
}

proof fn lemma_value_sum_nonneg(s: Seq<u8>)
    ensures
        0 <= value_sum(s) <= 255 * s.len(),
    decreases s.len(),
{
    if s.len() > 0 {
        lemma_value_sum_nonneg(s.drop_last());
    }
}

/// The window's values with their mean subtracted: the descriptor of the feature at
/// `(x, y)` with radius `radius`.
pub fn descriptor(luma: &[u8], width: u32, x: u32, y: u32, radius: u32) -> (r: Vec<i16>)
    requires
        descriptor_window_ok(luma@, width as nat, x as nat, y as nat, radius as nat),
    ensures
        r@ == centred(window(luma@, width as nat, x as nat, y as nat, radius as nat)),
{
    let ghost w = window(luma@, width as nat, x as nat, y as nat, radius as nat);
    let side = radius * 2 + 1;
    let ghost total = side * side;
    proof {
        assert(side * side <= i32::MAX);
        assert(side > 0);
        assert(side * side > 0) by (nonlinear_arith)
            requires
                side > 0,
        ;
    }
    let mut values: Vec<i16> = Vec::new();
    let mut sum: i32 = 0;
    let top = y - radius;
    let left = x - radius;
    let ghost mut raw: Seq<u8> = Seq::empty();
    let mut row: u32 = 0;
    while row < side
        invariant
            descriptor_window_ok(luma@, width as nat, x as nat, y as nat, radius as nat),
            side == 2 * radius + 1,
            top == y - radius && left == x - radius,
            w == window(luma@, width as nat, x as nat, y as nat, radius as nat),
            row <= side,
            raw.len() == row * side,
            raw == w.take(raw.len() as int),
            values@.len() == raw.len(),
            forall|k: int| 0 <= k < raw.len() ==> values@[k] == raw[k] as i16,
            sum == value_sum(raw),
        decreases side - row,
    {
        let py = top + row;
        let mut col: u32 = 0;
        while col < side
            invariant
                descriptor_window_ok(luma@, width as nat, x as nat, y as nat, radius as nat),
                side == 2 * radius + 1,
                top == y - radius && left == x - radius,
                w == window(luma@, width as nat, x as nat, y as nat, radius as nat),
                row < side,
                py == top + row,
                col <= side,
                raw.len() == row * side + col,
                raw == w.take(raw.len() as int),
                values@.len() == raw.len(),
                forall|k: int| 0 <= k < raw.len() ==> values@[k] == raw[k] as i16,
                sum == value_sum(raw),
            decreases side - col,
        {
            let px = left + col;
            let ghost k = raw.len() as int;
            proof {
                assert(k < side * side) by (nonlinear_arith)
                    requires
                        k == row * side + col,
                        row < side,
                        col < side,
                ;
                assert(k / (side as int) == row && k % (side as int) == col) by (nonlinear_arith)
                    requires
                        k == row * side + col,
                        0 <= col < side,
                        0 <= row,
                ;
                assert(py * width + px <= (y + radius) * width + (x + radius)) by (nonlinear_arith)
                    requires
                        py <= y + radius,
                        px <= x + radius,
                ;
                lemma_value_sum_bounds(w, k + 1);
                assert(w.take(k + 1).drop_last() =~= raw);
            }
            let value = sample_luma(luma, width, px, py);
            proof {
                assert(value == w[k]);
                assert(w.take(k + 1) =~= raw.push(value));
            }
            values.push(value as i16);
            sum = sum + value as i32;
            proof {
                raw = raw.push(value);
            }
            col = col + 1;
        }
        proof {
            assert(raw.len() == (row + 1) * side) by (nonlinear_arith)
                requires
                    raw.len() == row * side + side,
            ;
        }
        row = row + 1;
    }
    proof {
        assert(raw.len() == side * side);
        assert(raw =~= w);
    }
    let count = values.len();
    proof {
        lemma_value_sum_nonneg(w);
        assert(count as i32 == count);
    }
    let mean = sum / (count as i32);
    proof {
        assert(0 <= mean <= 255) by (nonlinear_arith)
            requires
                mean == (sum as int) / (count as int),
                0 <= sum <= 255 * count,
                count > 0,
        ;
    }
    let ghost before = values@;
    let mut k: usize = 0;
    while k < count
        invariant
            k <= count == values@.len() == before.len() == w.len(),
            0 <= mean <= 255,
            mean == value_sum(w) / (w.len() as int),
            forall|j: int| 0 <= j < before.len() ==> before[j] == w[j] as i16,
            forall|j: int| 0 <= j < k ==> values@[j] == (w[j] - mean) as i16,
            forall|j: int| k <= j < count ==> values@[j] == before[j],
        decreases count - k,
    {
        let current = values[k];
        assert(values@[k as int] == before[k as int]);
        assert(before[k as int] == w[k as int] as i16);
        let v = current - (mean as i16);
        values.set(k, v);
        k = k + 1;
    }
    assert(values@ =~= centred(w));
    values
}

/// Why a reconstruction request is refused, if it is: fewer than two frames, a
/// non-positive descriptor distance, an invalid focal length, frames smaller than
/// 32x24, frames of another size than the first, or a frame whose RGBA payload is not
/// four bytes per pixel.
pub open spec fn request_fault(
    frames: Seq<FrameInput>,
    descriptor_distance_positive: bool,
    focal_length_valid: bool,
) -> Option<Seq<char>> {
    if frames.len() < 2 {
        Some("at least two sampled frames are required"@)
    } else if !descriptor_distance_positive {
        Some("max descriptor distance must be positive"@)
    } else if !focal_length_valid {
        Some("focal length in pixels must be finite and positive"@)
    } else if frames[0].width < 32 || frames[0].height < 24 {
        Some("sampled frames are too small for reconstruction"@)
    } else {
        frame_fault(frames, frames[0].width, frames[0].height, 0)
    }
}

/// The fault of the first frame from `i` on that differs in size or payload.
pub open spec fn frame_fault(frames: Seq<FrameInput>, width: u32, height: u32, i: nat) -> Option<Seq<char>>
    decreases frames.len() - i,
{
    if i >= frames.len() {
        None
    } else if frames[i as int].width != width || frames[i as int].height != height {
        Some("all sampled frames must share dimensions"@)
    } else if frames[i as int].rgba@.len() != width * height * 4 {
        Some(
            "invalid RGBA payload: expected "@ + decimal((width * height * 4) as nat) + " bytes, got "@ + decimal(
                frames[i as int].rgba@.len(),
            ),
        )
    } else {
        frame_fault(frames, width, height, i + 1)
    }
}

/// Checks a reconstruction request: its frames, and the outcome of the checks of its
/// descriptor distance (positive) and focal length (finite and positive where given).
pub fn validate_request(
    frames: &Vec<FrameInput>,
    descriptor_distance_positive: bool,
    focal_length_valid: bool,
) -> (r: Result<(), String>)
    requires
        frames@.len() > 0 ==> frames@[0].width * frames@[0].height * 4 <= usize::MAX,
    ensures
        match request_fault(frames@, descriptor_distance_positive, focal_length_valid) {
            None => r is Ok,
            Some(m) => r matches Err(e) && e@ == m,
        },
{
    if frames.len() < 2 {
        return Err(string_from_chars(crate::text::chars_of("at least two sampled frames are required").as_slice()));
    }
    if !descriptor_distance_positive {
        return Err(string_from_chars(crate::text::chars_of("max descriptor distance must be positive").as_slice()));
    }
    if !focal_length_valid {
        return Err(
            string_from_chars(crate::text::chars_of("focal length in pixels must be finite and positive").as_slice()),
        );
    }
    let width = frames[0].width;
    let height = frames[0].height;
    if width < 32 || height < 24 {
        return Err(string_from_chars(crate::text::chars_of("sampled frames are too small for reconstruction").as_slice()));
    }
    let expected = (width as usize) * (height as usize) * 4;
    let n = frames.len();
    let mut i: usize = 0;
    while i < n
        invariant
            i <= n == frames@.len(),
            frames@.len() >= 2,
            width == frames@[0].width && height == frames@[0].height,
            expected == width * height * 4,
            request_fault(frames@, descriptor_distance_positive, focal_length_valid) == frame_fault(
                frames@,
                width,
                height,
                i as nat,
            ),
        decreases n - i,
    {
        let frame = &frames[i];
        if frame.width != width || frame.height != height {
            return Err(string_from_chars(crate::text::chars_of("all sampled frames must share dimensions").as_slice()));
        }
        if frame.rgba.len() != expected {
            let mut out: Vec<char> = Vec::new();
            push_str(&mut out, "invalid RGBA payload: expected ");
            push_decimal(&mut out, expected);
            push_str(&mut out, " bytes, got ");
            push_decimal(&mut out, frame.rgba.len());
            return Err(string_from_chars(out.as_slice()));
        }
        i = i + 1;
    }
    Ok(())
}

/// The sum of the absolute differences of the first `n` paired values.
pub open spec fn abs_difference_total(a: Seq<i16>, b: Seq<i16>, n: int) -> int
    decreases n,
{
    if n <= 0 {
        0
    } else {
        let d = a[n - 1] - b[n - 1];
        abs_difference_total(a, b, n - 1) + if d < 0 {
            -d
        } else {
            d
        }
    }
}

/// The number of value pairs two descriptors have: as many as the shorter holds.
pub open spec fn paired_len(a: Seq<i16>, b: Seq<i16>) -> int {
    if a.len() < b.len() {
        a.len() as int
    } else {
        b.len() as int
    }
}

proof fn lemma_abs_total_monotone(a: Seq<i16>, b: Seq<i16>, i: int, n: int)
    requires
        0 <= i <= n,
    ensures
        0 <= abs_difference_total(a, b, i) <= abs_difference_total(a, b, n),
    decreases n - i,
{
    if i < n {
        lemma_abs_total_monotone(a, b, i, n - 1);
    } else {
        lemma_abs_total_nonneg(a, b, i);
    }
}

proof fn lemma_abs_total_nonneg(a: Seq<i16>, b: Seq<i16>, n: int)
    ensures
        0 <= abs_difference_total(a, b, n),
    decreases n,
{
    if n > 0 {
        lemma_abs_total_nonneg(a, b, n - 1);
    }
}

/// The sum of the absolute differences of two descriptors, value by value over the
/// shorter; their distance is this sum over the first descriptor's length.
pub fn descriptor_difference_total(a: &[i16], b: &[i16]) -> (r: i32)
    requires
        abs_difference_total(a@, b@, paired_len(a@, b@)) <= i32::MAX,
    ensures
        r == abs_difference_total(a@, b@, paired_len(a@, b@)),
{
    let n = if a.len() < b.len() {
        a.len()
    } else {
        b.len()
    };
    let mut total: i32 = 0;
    let mut i: usize = 0;
    while i < n
        invariant
            i <= n,
            n as int == paired_len(a@, b@),
            abs_difference_total(a@, b@, n as int) <= i32::MAX,
            total == abs_difference_total(a@, b@, i as int),
        decreases n - i,
    {
        let d: i32 = (a[i] as i32) - (b[i] as i32);
        let magnitude: i32 = if d < 0 {
            -d
        } else {
            d
        };
        proof {
            lemma_abs_total_monotone(a@, b@, i + 1, n as int);
        }
        total = total + magnitude;
        i = i + 1;
    }
    total
}

/// Whether two pixels lie closer than the square root of `min_squared`.
pub open spec fn too_close(a: (u32, u32), b: (u32, u32), min_squared: int) -> bool {
    (a.0 - b.0) * (a.0 - b.0) + (a.1 - b.1) * (a.1 - b.1) < min_squared
}

/// Whether the selection has stopped: it holds `max_features` candidates, and at least
/// one.
pub open spec fn selection_full(selected: Seq<usize>, max_features: nat) -> bool {
    selected.len() >= max_features && selected.len() >= 1
}

/// The candidates, by position, that the greedy spacing keeps: in order, each candidate
/// not too close to one kept before, until the selection is full.
pub open spec fn spaced_selection(candidates: Seq<(u32, u32)>, max_features: nat, min_squared: int) -> Seq<usize>
    decreases candidates.len(),
{
    if candidates.len() == 0 {
        Seq::empty()
    } else {
        let kept = spaced_selection(candidates.drop_last(), max_features, min_squared);
        let c = candidates.last();
        if selection_full(kept, max_features) || exists|k: int|
            0 <= k < kept.len() && too_close(candidates[#[trigger] kept[k] as int], c, min_squared) {
            kept
        } else {
            kept.push((candidates.len() - 1) as usize)
        }
    }
}

proof fn lemma_spaced_selection_stops(candidates: Seq<(u32, u32)>, max_features: nat, min_squared: int, i: int)
    requires
        0 <= i <= candidates.len(),
        selection_full(spaced_selection(candidates.take(i), max_features, min_squared), max_features),
    ensures
        spaced_selection(candidates, max_features, min_squared) == spaced_selection(
            candidates.take(i),
            max_features,
            min_squared,
        ),
    decreases candidates.len() - i,
{
    if i < candidates.len() {
        assert(candidates.take(i + 1).drop_last() =~= candidates.take(i));
        lemma_spaced_selection_stops(candidates, max_features, min_squared, i + 1);
    } else {
        assert(candidates.take(i) =~= candidates);
    }
}

fn squared_gap(a: (u32, u32), b: (u32, u32)) -> (r: i128)
    ensures
        r == (a.0 - b.0) * (a.0 - b.0) + (a.1 - b.1) * (a.1 - b.1),
{
    let dx = a.0 as i128 - b.0 as i128;
    let dy = a.1 as i128 - b.1 as i128;
    proof {
        assert(0 <= dx * dx <= 0x1_0000_0000 * 0x1_0000_0000) by (nonlinear_arith)
            requires
                -0x1_0000_0000 <= dx <= 0x1_0000_0000,
        ;
        assert(0 <= dy * dy <= 0x1_0000_0000 * 0x1_0000_0000) by (nonlinear_arith)
            requires
                -0x1_0000_0000 <= dy <= 0x1_0000_0000,
        ;
    }
    dx * dx + dy * dy
}

/// The candidate pixels, already in order of preference, that the detector keeps: each
/// one at least `min_feature_distance` from every one kept before it, until
/// `max_features` are kept (the first is kept even when none is asked for).
pub fn select_spaced_candidates(candidates: &Vec<(u32, u32)>, max_features: usize, min_feature_distance: u32) -> (r: Vec<
    usize,
>)
    requires
        min_feature_distance * min_feature_distance <= u32::MAX,
    ensures
        r@ == spaced_selection(
            candidates@,
            max_features as nat,
            min_feature_distance * min_feature_distance,
        ),
{
    let min_squared = (min_feature_distance * min_feature_distance) as i128;
    let ghost m: int = min_feature_distance * min_feature_distance;
    let mut selected: Vec<usize> = Vec::new();
    let n = candidates.len();
    let mut i: usize = 0;
    assert(candidates@.take(0) =~= Seq::<(u32, u32)>::empty());
    while i < n
        invariant
            i <= n == candidates@.len(),
            min_squared == m,
            m == min_feature_distance * min_feature_distance,
            selected@ == spaced_selection(candidates@.take(i as int), max_features as nat, m),
            !selection_full(selected@, max_features as nat),
            forall|k: int| 0 <= k < selected@.len() ==> #[trigger] selected@[k] < i,
        decreases n - i,
    {
        let c = candidates[i];
        proof {
            assert(candidates@.take(i + 1).drop_last() =~= candidates@.take(i as int));
            assert(candidates@.take(i + 1).last() == c);
        }
        let m_len = selected.len();
        let mut close = false;
        let mut k: usize = 0;
        while k < m_len
            invariant
                k <= m_len == selected@.len(),
                min_squared == m,
                n == candidates@.len(),
                forall|q: int| 0 <= q < selected@.len() ==> #[trigger] selected@[q] < i,
                i < n,
                close <==> exists|q: int|
                    0 <= q < k && too_close(candidates@[#[trigger] selected@[q] as int], c, m),
            decreases m_len - k,
        {
            let s = candidates[selected[k]];
            if squared_gap(s, c) < min_squared {
                close = true;
            }
            k = k + 1;
        }
        proof {
            assert forall|q: int| 0 <= q < selected@.len() implies candidates@.take(i + 1)[#[trigger] selected@[q] as int]
                == candidates@[selected@[q] as int] by {}
            if close {
                let q = choose|q: int| 0 <= q < m_len && too_close(candidates@[#[trigger] selected@[q] as int], c, m);
                assert(too_close(candidates@.take(i + 1)[selected@[q] as int], c, m));
            } else {
                assert forall|q: int| 0 <= q < selected@.len() implies !too_close(
                    candidates@.take(i + 1)[#[trigger] selected@[q] as int],
                    c,
                    m,
                ) by {
                    assert(!too_close(candidates@[selected@[q] as int], c, m));
                }
            }
        }
        if !close {
            let ghost before = selected@;
            selected.push(i);
            proof {
                assert(!(exists|q: int|
                    0 <= q < before.len() && too_close(candidates@.take(i + 1)[#[trigger] before[q] as int], c, m)));
                assert(spaced_selection(candidates@.take(i + 1), max_features as nat, m) == before.push(i));
            }
            if selected.len() >= max_features {
                proof {
                    assert(selection_full(selected@, max_features as nat));
                    assert(selection_full(spaced_selection(candidates@.take(i + 1), max_features as nat, m), max_features as nat));
                    lemma_spaced_selection_stops(candidates@, max_features as nat, m, i + 1);
                }
                return selected;
            }
        }
        i = i + 1;
    }
    assert(candidates@.take(n as int) =~= candidates@);
    selected
}

/// The positions, in order, of the targets not named before.
pub open spec fn first_uses(targets: Seq<usize>) -> Seq<usize>
    decreases targets.len(),
{
    if targets.len() == 0 {
        Seq::empty()
    } else {
        let rest = first_uses(targets.drop_last());
        if targets.drop_last().contains(targets.last()) {
            rest
        } else {
            rest.push((targets.len() - 1) as usize)
        }
    }
}

/// Keeps, of match proposals already ranked best first, the first one for each target
/// feature: the positions of the proposals kept.
pub fn first_target_uses(targets: &Vec<usize>) -> (r: Vec<usize>)
    ensures
        r@ == first_uses(targets@),
{
    let n = targets.len();
    let mut kept: Vec<usize> = Vec::new();
    let mut i: usize = 0;
    assert(targets@.take(0) =~= Seq::<usize>::empty());
    while i < n
        invariant
            i <= n == targets@.len(),
            kept@ == first_uses(targets@.take(i as int)),
        decreases n - i,
    {
        let t = targets[i];
        let mut seen = false;
        let mut j: usize = 0;
        while j < i
            invariant
                j <= i < n == targets@.len(),
                seen <==> exists|q: int| 0 <= q < j && targets@[q] == t,
            decreases i - j,
        {
            if targets[j] == t {
                seen = true;
            }
            j = j + 1;
        }
        proof {
            let prefix = targets@.take(i + 1);
            assert(prefix.drop_last() =~= targets@.take(i as int));
            assert(prefix.last() == t);
            assert(seen == targets@.take(i as int).contains(t)) by {
                if seen {
                    let q = choose|q: int| 0 <= q < i && targets@[q] == t;
                    assert(targets@.take(i as int)[q] == t);
                }
                if targets@.take(i as int).contains(t) {
                    let q = choose|q: int| 0 <= q < i && targets@.take(i as int)[q] == t;
                    assert(targets@[q] == t);
                }
            }
        }
        if !seen {
            kept.push(i);
        }
        i = i + 1;
    }
    assert(targets@.take(n as int) =~= targets@);
    kept
}

/// Whether feature `b` lies within `radius` pixels of feature `a`.
pub fn within_match_radius(a: (u32, u32), b: (u32, u32), radius: u32) -> (r: bool)
    requires
        radius * radius <= u32::MAX,
    ensures
        r == ((a.0 - b.0) * (a.0 - b.0) + (a.1 - b.1) * (a.1 - b.1) <= radius * radius),
{
    let radius_squared = (radius * radius) as i128;
    squared_gap(a, b) <= radius_squared
}

} // verus!
