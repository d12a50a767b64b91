//! The deterministic minimal samples of the robust PnP estimator: six distinct
//! correspondence indices drawn from an xorshift generator seeded by the trial number.

use vstd::prelude::*;

verus! {

/// The number of correspondences in a minimal PnP sample.
pub const DLT_SAMPLE_SIZE: usize = 6;

/// One xorshift step.
pub open spec fn xorshift(s: u64) -> u64 {
    let a = s ^ (s >> 12u64);
    let b = a ^ (a << 25u64);
    b ^ (b >> 27u64)
}

/// The index that generator state `s` draws among `len` correspondences.
pub open spec fn drawn_index(s: u64, len: usize) -> usize {
    (vstd::wrapping::u64_specs::wrapping_mul(s, 0x2545f4914f6cdd1d) % (len as u64)) as usize
}

/// The generator state of trial `trial`.
pub open spec fn trial_state(trial: usize) -> u64 {
    vstd::wrapping::u64_specs::wrapping_mul((trial + 1) as u64, 0x9e3779b97f4a7c15)
}

/// Completes `sample` from generator state `state`: each draw that is not yet in the
/// sample joins it; after more than `4 * len` repeated draws for one slot the sampling
/// gives up.
pub open spec fn complete_sample(state: u64, len: usize, sample: Seq<usize>, attempts: nat) -> Option<Seq<usize>>
    decreases DLT_SAMPLE_SIZE - sample.len(), len * 4 + 1 - attempts,
{
    if sample.len() >= DLT_SAMPLE_SIZE {
        Some(sample)
    } else {
        let s = xorshift(state);
        let index = drawn_index(s, len);
        if !sample.contains(index) {
            complete_sample(s, len, sample.push(index), 0)
        } else if attempts + 1 > len * 4 {
            None
        } else {
            complete_sample(s, len, sample, attempts + 1)
        }
    }
}

fn xorshift_exec(s: u64) -> (r: u64)
    ensures
        r == xorshift(s),
{
    let mut state = s;
    state = state ^ (state >> 12);
    state = state ^ (state << 25);
    state = state ^ (state >> 27);
    state
}

proof fn lemma_complete_sample_distinct(state: u64, len: usize, sample: Seq<usize>, attempts: nat)
    requires
        len > 0,
        sample.no_duplicates(),
        forall|k: int| 0 <= k < sample.len() ==> #[trigger] sample[k] < len,
    ensures
        complete_sample(state, len, sample, attempts) matches Some(s) ==> s.no_duplicates() && (forall|k: int|
            0 <= k < s.len() ==> #[trigger] s[k] < len),
    decreases DLT_SAMPLE_SIZE - sample.len(), len * 4 + 1 - attempts,
{
    if sample.len() < DLT_SAMPLE_SIZE {
        let s = xorshift(state);
        let index = drawn_index(s, len);
        if !sample.contains(index) {
            let next = sample.push(index);
            assert(index < len) by {
                let w = vstd::wrapping::u64_specs::wrapping_mul(s, 0x2545f4914f6cdd1d);
                assert(w % (len as u64) < len as u64);
            }
            assert forall|a: int, b: int| 0 <= a < b < next.len() implies next[a] != next[b] by {
                if b == sample.len() {
                    assert(next[a] == sample[a]);
                }
            }
            assert forall|k: int| 0 <= k < next.len() implies #[trigger] next[k] < len by {
                if k < sample.len() {
                    assert(next[k] == sample[k]);
                }
            }
            lemma_complete_sample_distinct(s, len, next, 0);
        } else if attempts + 1 <= len * 4 {
            lemma_complete_sample_distinct(s, len, sample, attempts + 1);
        }
    }
}

/// The minimal sample of trial `trial` among `len` correspondences: none with fewer
/// than six correspondences, or when the generator repeats itself too often; otherwise
/// six distinct indices below `len`.
pub fn deterministic_sample(trial: usize, len: usize) -> (r: Option<[usize; 6]>)
    requires
        trial < usize::MAX,
        len <= usize::MAX / 4,
    ensures
        len < DLT_SAMPLE_SIZE ==> r is None,
        len >= DLT_SAMPLE_SIZE ==> match complete_sample(trial_state(trial), len, Seq::empty(), 0) {
            Some(s) => r matches Some(a) && a@ == s,
            None => r is None,
        },
        r matches Some(a) ==> a@.no_duplicates() && forall|k: int| 0 <= k < 6 ==> #[trigger] a@[k] < len,
{
    if len < DLT_SAMPLE_SIZE {
        return None;
    }
    let mut state = ((trial as u64) + 1).wrapping_mul(0x9e3779b97f4a7c15);
    let mut sample = [0usize; 6];
    let mut slot: usize = 0;
    proof {
        assert(sample@.take(0) =~= Seq::<usize>::empty());
    }
    while slot < DLT_SAMPLE_SIZE
        invariant
            DLT_SAMPLE_SIZE <= len <= usize::MAX / 4,
            slot <= DLT_SAMPLE_SIZE,
            sample@.len() == 6,
            complete_sample(trial_state(trial), len, Seq::empty(), 0) == complete_sample(
                state,
                len,
                sample@.take(slot as int),
                0,
            ),
        decreases DLT_SAMPLE_SIZE - slot,
    {
        let mut attempts: usize = 0;
        loop
            invariant_except_break
                DLT_SAMPLE_SIZE <= len <= usize::MAX / 4,
                slot < DLT_SAMPLE_SIZE,
                sample@.len() == 6,
                attempts <= len * 4,
                complete_sample(trial_state(trial), len, Seq::empty(), 0) == complete_sample(
                    state,
                    len,
                    sample@.take(slot as int),
                    attempts as nat,
                ),
            ensures
                DLT_SAMPLE_SIZE <= len <= usize::MAX / 4,
                slot < DLT_SAMPLE_SIZE,
                sample@.len() == 6,
                complete_sample(trial_state(trial), len, Seq::empty(), 0) == complete_sample(
                    state,
                    len,
                    sample@.take(slot + 1),
                    0,
                ),
            decreases len * 4 - attempts,
        {
            let ghost before = sample@.take(slot as int);
            let ghost previous = state;
            state = xorshift_exec(state);
            let index = ((state.wrapping_mul(0x2545f4914f6cdd1d)) % (len as u64)) as usize;
            let mut seen = false;
            let mut j: usize = 0;
            while j < slot
                invariant
                    j <= slot < 6,
                    sample@.len() == 6,
                    seen <==> exists|q: int| 0 <= q < j && sample@[q] == index,
                decreases slot - j,
            {
                if sample[j] == index {
                    seen = true;
                }
                j = j + 1;
            }
            proof {
                assert(index == drawn_index(state, len));
                assert(seen <==> before.contains(index)) by {
                    if seen {
                        let q = choose|q: int| 0 <= q < slot && sample@[q] == index;
                        assert(before[q] == index);
                    }
                    if before.contains(index) {
                        let q = choose|q: int| 0 <= q < before.len() && before[q] == index;
                        assert(sample@[q] == index);
                    }
                }
            }
            proof {
                assert(complete_sample(previous, len, before, attempts as nat) == if !before.contains(index) {
                    complete_sample(state, len, before.push(index), 0)
                } else if attempts + 1 > len * 4 {
                    None
                } else {
                    complete_sample(state, len, before, (attempts + 1) as nat)
                });
            }
            if !seen {
                sample[slot] = index;
                proof {
                    assert(sample@.take(slot + 1) =~= before.push(index));
                }
                break;
            }
            attempts = attempts + 1;
            if attempts > len * 4 {
                return None;
            }
        }
        slot = slot + 1;
    }
    proof {
        assert(sample@.take(6) =~= sample@);
        lemma_complete_sample_distinct(trial_state(trial), len, Seq::empty(), 0);
    }
    Some(sample)
}

} // verus!
