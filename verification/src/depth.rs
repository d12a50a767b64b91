//! The checks that decide whether a learned relative-depth frame can be aligned with the
//! accepted geometry at all, before any fitting.

use crate::text::{chars_of, decimal, push_decimal, push_str, string_from_chars};
use vstd::prelude::*;

verus! {

/// Fewest geometric anchors with which a relative-depth frame is aligned.
pub const MIN_ALIGNMENT_ANCHORS: usize = 12;

/// How learned values relate to depth: proportionally, or inversely.
#[derive(Clone, Copy, Debug, PartialEq, Eq, Structural)]
pub enum RelativeDepthFitKind {
    Direct,
    Inverse,
}

/// Why a relative-depth frame cannot be evaluated, if it cannot: its size disagrees with
/// its values, the focal length is unusable, or no accepted camera shows its frame.
/// Otherwise the position of the first camera of its frame.
pub open spec fn frame_check(
    frame_index: usize,
    width: nat,
    height: nat,
    value_count: nat,
    focal_length_valid: bool,
    camera_frames: Seq<usize>,
) -> Result<nat, Seq<char>> {
    if width == 0 || height == 0 || value_count != width * height {
        Err("relative-depth dimensions are inconsistent"@)
    } else if !focal_length_valid {
        Err("accepted focal length is unavailable"@)
    } else {
        match first_position(camera_frames, frame_index) {
            Some(k) => Ok(k),
            None => Err("relative depth does not correspond to an accepted final camera"@),
        }
    }
}

/// The position of the first occurrence of `f`.
pub open spec fn first_position(s: Seq<usize>, f: usize) -> Option<nat>
    decreases s.len(),
{
    if s.len() == 0 {
        None
    } else {
        match first_position(s.drop_last(), f) {
            Some(k) => Some(k),
            None => if s.last() == f {
                Some((s.len() - 1) as nat)
            } else {
                None
            },
        }
    }
}

proof fn lemma_first_position_extends(s: Seq<usize>, f: usize, i: int)
    requires
        0 <= i <= s.len(),
        first_position(s.take(i), f) is Some,
    ensures
        first_position(s, f) == first_position(s.take(i), f),
    decreases s.len() - i,
{
    if i < s.len() {
        assert(s.take(i + 1).drop_last() =~= s.take(i));
        lemma_first_position_extends(s, f, i + 1);
    } else {
        assert(s.take(i) =~= s);
    }
}

fn text(s: &str) -> (r: String)
    ensures
        r@ == s@,
{
    string_from_chars(chars_of(s).as_slice())
}

/// Checks a relative-depth frame of `width` by `height` with `value_count` values
/// against the focal-length check and the frames of the accepted cameras; gives the
/// position of the frame's camera.
pub fn check_relative_depth_frame(
    frame_index: usize,
    width: usize,
    height: usize,
    value_count: usize,
    focal_length_valid: bool,
    camera_frames: &Vec<usize>,
) -> (r: Result<usize, String>)
    requires
        width * height <= usize::MAX,
    ensures
        match frame_check(frame_index, width as nat, height as nat, value_count as nat, focal_length_valid, camera_frames@) {
            Ok(k) => r == Ok::<usize, String>(k as usize),
            Err(m) => r matches Err(e) && e@ == m,
        },
{
    if width == 0 || height == 0 || value_count != width * height {
        return Err(text("relative-depth dimensions are inconsistent"));
    }
    if !focal_length_valid {
        return Err(text("accepted focal length is unavailable"));
    }
    let n = camera_frames.len();
    let mut k: usize = 0;
    assert(camera_frames@.take(0) =~= Seq::<usize>::empty());
    while k < n
        invariant
            k <= n == camera_frames@.len(),
            !(width == 0 || height == 0 || value_count != width * height),
            focal_length_valid,
            first_position(camera_frames@.take(k as int), frame_index) is None,
        decreases n - k,
    {
        assert(camera_frames@.take(k + 1).drop_last() =~= camera_frames@.take(k as int));
        if camera_frames[k] == frame_index {
            proof {
                assert(camera_frames@.take(k + 1).last() == camera_frames@[k as int]);
                assert(first_position(camera_frames@.take(k + 1), frame_index) == Some(k as nat));
                lemma_first_position_extends(camera_frames@, frame_index, k + 1);
            }
            return Ok(k);
        }
        k = k + 1;
    }
    assert(camera_frames@.take(n as int) =~= camera_frames@);
    Err(text("relative depth does not correspond to an accepted final camera"))
}

/// Why a frame with `anchors` valid anchors cannot be aligned, if it cannot.
pub open spec fn anchor_fault(anchors: nat) -> Option<Seq<char>> {
    if anchors < MIN_ALIGNMENT_ANCHORS {
        Some("fewer than "@ + decimal(MIN_ALIGNMENT_ANCHORS as nat) + " valid geometric alignment anchors"@)
    } else {
        None
    }
}

/// The reason a frame with `anchors` valid anchors is skipped, if it has too few.
pub fn check_anchor_count(anchors: usize) -> (r: Option<String>)
    ensures
        match anchor_fault(anchors as nat) {
            None => r is None,
            Some(m) => r matches Some(e) && e@ == m,
        },
{
    if anchors < MIN_ALIGNMENT_ANCHORS {
        let mut out: Vec<char> = Vec::new();
        push_str(&mut out, "fewer than ");
        push_decimal(&mut out, MIN_ALIGNMENT_ANCHORS);
        push_str(&mut out, " valid geometric alignment anchors");
        Some(string_from_chars(out.as_slice()))
    } else {
        None
    }
}

} // verus!
