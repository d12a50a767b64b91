//! The bookkeeping of bundle adjustment: which observations belong to each landmark and
//! each camera, and how many landmarks and cameras are constrained enough to optimise.

use crate::sorted::copy_indices;
use vstd::prelude::*;

verus! {

/// Fewest observations with which a camera outside the seed pair is optimised.
pub const MIN_CAMERA_OBSERVATIONS: usize = 8;

/// Fewest observations with which a landmark is optimised.
pub const MIN_LANDMARK_OBSERVATIONS: usize = 2;

/// The positions, in increasing order, at which `keys` holds `k`.
pub open spec fn indices_with_key(keys: Seq<usize>, k: usize) -> Seq<usize>
    decreases keys.len(),
{
    if keys.len() == 0 {
        Seq::empty()
    } else {
        let rest = indices_with_key(keys.drop_last(), k);
        if keys.last() == k {
            rest.push((keys.len() - 1) as usize)
        } else {
            rest
        }
    }
}

/// `groups` lists, for each of `count` keys, the positions that hold it.
pub open spec fn grouped_by_key(groups: Seq<Vec<usize>>, count: nat, keys: Seq<usize>) -> bool {
    &&& groups.len() == count
    &&& forall|k: int| 0 <= k < count ==> (#[trigger] groups[k])@ == indices_with_key(keys, k as usize)
}

fn indices_by_key(count: usize, keys: &Vec<usize>) -> (r: Vec<Vec<usize>>)
    requires
        forall|i: int| 0 <= i < keys@.len() ==> #[trigger] keys@[i] < count,
    ensures
        grouped_by_key(r@, count as nat, keys@),
{
    let mut groups: Vec<Vec<usize>> = Vec::new();
    let mut k: usize = 0;
    while k < count
        invariant
            k <= count,
            groups@.len() == k,
            forall|j: int| 0 <= j < k ==> (#[trigger] groups@[j])@ == Seq::<usize>::empty(),
        decreases count - k,
    {
        groups.push(Vec::new());
        k = k + 1;
    }
    let n = keys.len();
    let mut i: usize = 0;
    assert(keys@.take(0) =~= Seq::<usize>::empty());
    while i < n
        invariant
            i <= n == keys@.len(),
            forall|q: int| 0 <= q < keys@.len() ==> #[trigger] keys@[q] < count,
            groups@.len() == count,
            forall|j: int| 0 <= j < count ==> (#[trigger] groups@[j])@ == indices_with_key(keys@.take(i as int), j as usize),
        decreases n - i,
    {
        let key = keys[i];
        let ghost before = groups@;
        let mut group = copy_indices(&groups[key]);
        group.push(i);
        groups.set(key, group);
        proof {
            assert(keys@.take(i + 1).drop_last() =~= keys@.take(i as int));
            assert(keys@.take(i + 1).last() == key);
            assert forall|j: int| 0 <= j < count implies (#[trigger] groups@[j])@ == indices_with_key(
                keys@.take(i + 1),
                j as usize,
            ) by {
                if j != key {
                    assert(groups@[j] == before[j]);
                }
            }
        }
        i = i + 1;
    }
    assert(keys@.take(n as int) =~= keys@);
    groups
}

/// The observations of each of `landmark_count` landmarks: for landmark `k`, the
/// positions of the observations of it, in order.
pub fn observation_indices_by_landmark(landmark_count: usize, observation_landmarks: &Vec<usize>) -> (r: Vec<
    Vec<usize>,
>)
    requires
        forall|i: int| 0 <= i < observation_landmarks@.len() ==> #[trigger] observation_landmarks@[i] < landmark_count,
    ensures
        grouped_by_key(r@, landmark_count as nat, observation_landmarks@),
{
    indices_by_key(landmark_count, observation_landmarks)
}

/// The observations of each of `camera_count` cameras: for camera `k`, the positions
/// of the observations in it, in order.
pub fn observation_indices_by_camera(camera_count: usize, observation_cameras: &Vec<usize>) -> (r: Vec<Vec<usize>>)
    requires
        forall|i: int| 0 <= i < observation_cameras@.len() ==> #[trigger] observation_cameras@[i] < camera_count,
    ensures
        grouped_by_key(r@, camera_count as nat, observation_cameras@),
{
    indices_by_key(camera_count, observation_cameras)
}

/// The number of landmarks with at least the minimum number of observations.
pub open spec fn optimizable_landmark_count(groups: Seq<Vec<usize>>) -> nat
    decreases groups.len(),
{
    if groups.len() == 0 {
        0
    } else {
        optimizable_landmark_count(groups.drop_last()) + if groups.last()@.len() >= MIN_LANDMARK_OBSERVATIONS {
            1nat
        } else {
            0nat
        }
    }
}

/// The number of cameras outside the seed pair starting at frame `seed` with at least
/// the minimum number of observations.
pub open spec fn optimizable_camera_count(frames: Seq<usize>, groups: Seq<Vec<usize>>, seed: usize) -> nat
    decreases frames.len(),
{
    if frames.len() == 0 {
        0
    } else {
        let k = frames.len() - 1;
        optimizable_camera_count(frames.drop_last(), groups, seed) + if frames[k] != seed && frames[k] != seed + 1
            && groups[k]@.len() >= MIN_CAMERA_OBSERVATIONS {
            1nat
        } else {
            0nat
        }
    }
}

/// How many landmarks have enough observations to be optimised.
pub fn count_optimizable_landmarks(landmark_observations: &Vec<Vec<usize>>) -> (r: usize)
    ensures
        r == optimizable_landmark_count(landmark_observations@),
{
    let n = landmark_observations.len();
    let mut count: usize = 0;
    let mut i: usize = 0;
    assert(landmark_observations@.take(0) =~= Seq::<Vec<usize>>::empty());
    while i < n
        invariant
            i <= n == landmark_observations@.len(),
            count == optimizable_landmark_count(landmark_observations@.take(i as int)),
            count <= i,
        decreases n - i,
    {
        assert(landmark_observations@.take(i + 1).drop_last() =~= landmark_observations@.take(i as int));
        if landmark_observations[i].len() >= MIN_LANDMARK_OBSERVATIONS {
            count = count + 1;
        }
        i = i + 1;
    }
    assert(landmark_observations@.take(n as int) =~= landmark_observations@);
    count
}

/// How many cameras, given by their frames, lie outside the seed pair starting at frame
/// `seed_pair_index` and have enough observations to be optimised.
pub fn count_optimizable_cameras(
    camera_frames: &Vec<usize>,
    camera_observations: &Vec<Vec<usize>>,
    seed_pair_index: usize,
) -> (r: usize)
    requires
        camera_observations@.len() == camera_frames@.len(),
        seed_pair_index < usize::MAX,
    ensures
        r == optimizable_camera_count(camera_frames@, camera_observations@, seed_pair_index),
{
    let n = camera_frames.len();
    let mut count: usize = 0;
    let mut i: usize = 0;
    assert(camera_frames@.take(0) =~= Seq::<usize>::empty());
    while i < n
        invariant
            i <= n == camera_frames@.len() == camera_observations@.len(),
            seed_pair_index < usize::MAX,
            count == optimizable_camera_count(camera_frames@.take(i as int), camera_observations@, seed_pair_index),
            count <= i,
        decreases n - i,
    {
        assert(camera_frames@.take(i + 1).drop_last() =~= camera_frames@.take(i as int));
        let frame = camera_frames[i];
        if frame != seed_pair_index && frame != seed_pair_index + 1
            && camera_observations[i].len() >= MIN_CAMERA_OBSERVATIONS {
            count = count + 1;
        }
        i = i + 1;
    }
    assert(camera_frames@.take(n as int) =~= camera_frames@);
    count
}

} // verus!
