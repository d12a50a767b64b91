//! Multi-frame feature tracks chained from adjacent one-to-one matches, the registration
//! candidates that seed landmarks give other keyframes, and the tracks that can become
//! new landmarks.

use vstd::prelude::*;

verus! {

/// An observation: a feature of a frame, as `(frame index, feature index)`.
pub type Obs = (usize, usize);

/// A one-to-one match between feature `a` of a frame and feature `b` of the next frame.
#[derive(Clone, Copy, Debug, PartialEq, Eq, Structural)]
pub struct MatchPair {
    pub a: usize,
    pub b: usize,
}

/// The state of track building: the tracks, and which track each observation joined.
pub struct TrackState {
    pub tracks: Seq<Seq<Obs>>,
    pub member: Map<Obs, nat>,
}

/// Chains the match of `source` to `target` into the tracks. A source already in a
/// track extends it with the target unless the target is taken; a taken target with a
/// new source is ignored; otherwise the two start a new track.
pub open spec fn track_step(st: TrackState, source: Obs, target: Obs) -> TrackState {
    if st.member.contains_key(source) {
        let t = st.member[source];
        if st.member.contains_key(target) {
            st
        } else {
            TrackState {
                tracks: st.tracks.update(t as int, st.tracks[t as int].push(target)),
                member: st.member.insert(target, t),
            }
        }
    } else if st.member.contains_key(target) {
        st
    } else {
        TrackState {
            tracks: st.tracks.push(seq![source, target]),
            member: st.member.insert(source, st.tracks.len()).insert(target, st.tracks.len()),
        }
    }
}

/// The `(source, target)` observations of the matches, pair after pair.
pub open spec fn match_steps(matches: Seq<Seq<MatchPair>>) -> Seq<(Obs, Obs)>
    decreases matches.len(),
{
    if matches.len() == 0 {
        Seq::empty()
    } else {
        let p = (matches.len() - 1) as usize;
        match_steps(matches.drop_last()) + matches.last().map_values(
            |m: MatchPair| ((p, m.a), ((p + 1) as usize, m.b)),
        )
    }
}

/// The tracks after chaining `steps` in order, from no tracks.
pub open spec fn chain(steps: Seq<(Obs, Obs)>) -> TrackState
    decreases steps.len(),
{
    if steps.len() == 0 {
        TrackState { tracks: Seq::empty(), member: Map::empty() }
    } else {
        track_step(chain(steps.drop_last()), steps.last().0, steps.last().1)
    }
}

/// Tracks and membership agree: every observation of a track is a member of exactly that
/// track, every member lies in its track, and every track has at least two observations.
pub open spec fn consistent(st: TrackState) -> bool {
    &&& forall|t: int, k: int|
        0 <= t < st.tracks.len() && 0 <= k < st.tracks[t].len() ==> #[trigger] st.member.contains_key(
            st.tracks[t][k],
        ) && st.member[st.tracks[t][k]] == t
    &&& forall|o: Obs| #[trigger]
        st.member.contains_key(o) ==> st.member[o] < st.tracks.len() && st.tracks[st.member[o] as int].contains(o)
    &&& forall|t: int| 0 <= t < st.tracks.len() ==> #[trigger] st.tracks[t].len() >= 2
}

/// Chaining one match of two different observations keeps tracks and membership
/// consistent.
pub proof fn lemma_track_step_consistent(st: TrackState, source: Obs, target: Obs)
    requires
        consistent(st),
        source != target,
    ensures
        consistent(track_step(st, source, target)),
{
    let next = track_step(st, source, target);
    if st.member.contains_key(source) {
        let t = st.member[source];
        if !st.member.contains_key(target) {
            assert forall|u: int, k: int|
                0 <= u < next.tracks.len() && 0 <= k < next.tracks[u].len() implies #[trigger] next.member.contains_key(
                next.tracks[u][k],
            ) && next.member[next.tracks[u][k]] == u by {
                if u == t && k == st.tracks[t as int].len() {
                } else {
                    assert(next.tracks[u][k] == st.tracks[u][k]);
                    assert(st.member.contains_key(st.tracks[u][k]));
                }
            }
            assert forall|o: Obs| #[trigger] next.member.contains_key(o) implies next.member[o]
                < next.tracks.len() && next.tracks[next.member[o] as int].contains(o) by {
                if o == target {
                    assert(next.tracks[t as int][st.tracks[t as int].len() as int] == target);
                } else {
                    let u = st.member[o];
                    let k = choose|k: int| 0 <= k < st.tracks[u as int].len() && st.tracks[u as int][k] == o;
                    assert(next.tracks[u as int][k] == o);
                }
            }
        }
    } else if !st.member.contains_key(target) {
        let n = st.tracks.len();
        assert forall|u: int, k: int|
            0 <= u < next.tracks.len() && 0 <= k < next.tracks[u].len() implies #[trigger] next.member.contains_key(
            next.tracks[u][k],
        ) && next.member[next.tracks[u][k]] == u by {
            if u < n {
                assert(next.tracks[u][k] == st.tracks[u][k]);
                assert(st.member.contains_key(st.tracks[u][k]));
            }
        }
        assert forall|o: Obs| #[trigger] next.member.contains_key(o) implies next.member[o]
            < next.tracks.len() && next.tracks[next.member[o] as int].contains(o) by {
            if o == target {
                assert(next.tracks[n as int][1] == target);
            } else if o == source {
                assert(next.tracks[n as int][0] == source);
            } else {
                let u = st.member[o];
                let k = choose|k: int| 0 <= k < st.tracks[u as int].len() && st.tracks[u as int][k] == o;
                assert(next.tracks[u as int][k] == o);
            }
        }
    }
}

/// Every step of the matches joins two different observations: they lie in different
/// frames.
pub proof fn lemma_match_steps_distinct(matches: Seq<Seq<MatchPair>>)
    requires
        matches.len() < usize::MAX,
    ensures
        forall|i: int| 0 <= i < match_steps(matches).len() ==> #[trigger] match_steps(matches)[i].0
            != match_steps(matches)[i].1,
    decreases matches.len(),
{
    if matches.len() > 0 {
        lemma_match_steps_distinct(matches.drop_last());
        let p = (matches.len() - 1) as usize;
        let head = match_steps(matches.drop_last());
        let tail = matches.last().map_values(|m: MatchPair| ((p, m.a), ((p + 1) as usize, m.b)));
        assert forall|i: int| 0 <= i < match_steps(matches).len() implies #[trigger] match_steps(
            matches,
        )[i].0 != match_steps(matches)[i].1 by {
            if i >= head.len() {
                assert(match_steps(matches)[i] == tail[i - head.len()]);
            } else {
                assert(match_steps(matches)[i] == head[i]);
            }
        }
    }
}

/// Chaining matches that each join two different observations, from no tracks, gives
/// consistent tracks: each observation lies in exactly one track, and each track holds
/// at least two observations.
pub proof fn lemma_chain_consistent(steps: Seq<(Obs, Obs)>)
    requires
        forall|i: int| 0 <= i < steps.len() ==> #[trigger] steps[i].0 != steps[i].1,
    ensures
        consistent(chain(steps)),
    decreases steps.len(),
{
    if steps.len() > 0 {
        assert forall|i: int| 0 <= i < steps.drop_last().len() implies #[trigger] steps.drop_last()[i].0
            != steps.drop_last()[i].1 by {
            assert(steps.drop_last()[i] == steps[i]);
        }
        lemma_chain_consistent(steps.drop_last());
        lemma_track_step_consistent(chain(steps.drop_last()), steps.last().0, steps.last().1);
    }
}

/// Tracks with the track of each observation that joined one.
pub struct FeatureTracks {
    /// The observations of each track, in the order they joined it.
    pub tracks: Vec<Vec<Obs>>,
    /// `(frame index, feature index, track index)` for each observation in a track.
    pub membership: Vec<(usize, usize, usize)>,
}

/// The matches as sequences.
pub open spec fn matches_view(m: Seq<Vec<MatchPair>>) -> Seq<Seq<MatchPair>> {
    m.map_values(|v: Vec<MatchPair>| v@)
}

/// The tracks as sequences.
pub open spec fn tracks_view(t: Seq<Vec<Obs>>) -> Seq<Seq<Obs>> {
    t.map_values(|v: Vec<Obs>| v@)
}

/// The observation that a membership entry records.
pub open spec fn entry_obs(e: (usize, usize, usize)) -> Obs {
    (e.0, e.1)
}

/// No observation has two membership entries that name different tracks.
pub open spec fn membership_functional(entries: Seq<(usize, usize, usize)>) -> bool {
    forall|i: int, j: int|
        #![trigger entries[i], entries[j]]
        0 <= i < entries.len() && 0 <= j < entries.len() && entry_obs(entries[i]) == entry_obs(entries[j])
            ==> entries[i].2 == entries[j].2
}

/// The map from each recorded observation to its track.
pub open spec fn member_map(entries: Seq<(usize, usize, usize)>) -> Map<Obs, nat> {
    Map::new(
        |o: Obs| exists|i: int| 0 <= i < entries.len() && entry_obs(#[trigger] entries[i]) == o,
        |o: Obs| entries[choose|i: int| 0 <= i < entries.len() && entry_obs(#[trigger] entries[i]) == o].2 as nat,
    )
}

/// The number of observations over all tracks.
pub open spec fn total_observations(tracks: Seq<Seq<Obs>>) -> nat
    decreases tracks.len(),
{
    if tracks.len() == 0 {
        0
    } else {
        total_observations(tracks.drop_last()) + tracks.last().len()
    }
}

impl View for FeatureTracks {
    type V = TrackState;

    open spec fn view(&self) -> TrackState {
        TrackState { tracks: tracks_view(self.tracks@), member: member_map(self.membership@) }
    }
}

impl FeatureTracks {
    /// The membership list names one track per observation, tracks and membership
    /// agree, and the list has one entry per observation of the tracks.
    pub open spec fn wf(&self) -> bool {
        &&& membership_functional(self.membership@)
        &&& consistent(self@)
        &&& self.membership@.len() == total_observations(self@.tracks)
    }
}

/// The membership list stands for the map `member`.
pub open spec fn membership_matches(entries: Seq<(usize, usize, usize)>, member: Map<Obs, nat>) -> bool {
    &&& forall|o: Obs|
        member.contains_key(o) <==> exists|i: int|
            0 <= i < entries.len() && (#[trigger] entries[i].0, entries[i].1) == o
    &&& forall|i: int|
        0 <= i < entries.len() ==> member.contains_key((#[trigger] entries[i].0, entries[i].1))
            && member[(entries[i].0, entries[i].1)] == entries[i].2
}

proof fn lemma_membership_map(entries: Seq<(usize, usize, usize)>, member: Map<Obs, nat>)
    requires
        membership_matches(entries, member),
    ensures
        membership_functional(entries),
        member_map(entries) == member,
{
    assert forall|i: int, j: int|
        #![trigger entries[i], entries[j]]
        0 <= i < entries.len() && 0 <= j < entries.len() && entry_obs(entries[i]) == entry_obs(entries[j])
            implies entries[i].2 == entries[j].2 by {
        assert(member[(entries[i].0, entries[i].1)] == entries[i].2);
        assert(member[(entries[j].0, entries[j].1)] == entries[j].2);
    }
    assert forall|o: Obs| member_map(entries).contains_key(o) <==> member.contains_key(o) by {
        if member.contains_key(o) {
            let i = choose|i: int| 0 <= i < entries.len() && (#[trigger] entries[i].0, entries[i].1) == o;
            assert(entry_obs(entries[i]) == o);
        }
        if member_map(entries).contains_key(o) {
            let i = choose|i: int| 0 <= i < entries.len() && entry_obs(#[trigger] entries[i]) == o;
            assert((entries[i].0, entries[i].1) == o);
        }
    }
    assert forall|o: Obs| #[trigger] member_map(entries).contains_key(o) implies member_map(entries)[o]
        == member[o] by {
        let i = choose|i: int| 0 <= i < entries.len() && entry_obs(#[trigger] entries[i]) == o;
        assert(member[(entries[i].0, entries[i].1)] == entries[i].2);
    }
    assert(member_map(entries) =~= member);
}

/// The track of observation `o`, if it joined one.
fn lookup_member(entries: &Vec<(usize, usize, usize)>, o: Obs) -> (r: Option<usize>)
    requires
        membership_functional(entries@),
    ensures
        member_map(entries@).contains_key(o) ==> r == Some(member_map(entries@)[o] as usize),
        !member_map(entries@).contains_key(o) ==> r is None,
{
    let n = entries.len();
    let mut i: usize = 0;
    while i < n
        invariant
            i <= n == entries@.len(),
            membership_functional(entries@),
            forall|k: int| 0 <= k < i ==> entry_obs(#[trigger] entries@[k]) != o,
        decreases n - i,
    {
        let e = entries[i];
        if e.0 == o.0 && e.1 == o.1 {
            proof {
                assert(entry_obs(entries@[i as int]) == o);
                let j = choose|j: int| 0 <= j < entries@.len() && entry_obs(#[trigger] entries@[j]) == o;
                assert(entry_obs(entries@[j]) == entry_obs(entries@[i as int]));
                assert(entries@[j].2 == entries@[i as int].2);
                assert(member_map(entries@)[o] == entries@[j].2);
            }
            return Some(e.2);
        }
        i = i + 1;
    }
    None
}

proof fn lemma_total_observations_update(s: Seq<Seq<Obs>>, t: int, x: Seq<Obs>)
    requires
        0 <= t < s.len(),
    ensures
        total_observations(s.update(t, x)) + s[t].len() == total_observations(s) + x.len(),
    decreases s.len(),
{
    if t == s.len() - 1 {
        assert(s.update(t, x).drop_last() =~= s.drop_last());
    } else {
        assert(s.update(t, x).drop_last() =~= s.drop_last().update(t, x));
        lemma_total_observations_update(s.drop_last(), t, x);
    }
}

fn copy_obs(v: &Vec<Obs>) -> (r: Vec<Obs>)
    ensures
        r@ == v@,
{
    let mut out: Vec<Obs> = Vec::new();
    let n = v.len();
    let mut i: usize = 0;
    while i < n
        invariant
            i <= n == v@.len(),
            out@ == v@.take(i as int),
        decreases n - i,
    {
        out.push(v[i]);
        i = i + 1;
        assert(out@ =~= v@.take(i as int));
    }
    assert(v@.take(n as int) =~= v@);
    out
}

proof fn lemma_match_steps_prefix(ms: Seq<Seq<MatchPair>>, p: int)
    requires
        0 <= p < ms.len(),
        ms.len() < usize::MAX,
    ensures
        match_steps(ms.take(p + 1)) == match_steps(ms.take(p)) + ms[p].map_values(
            |m: MatchPair| ((p as usize, m.a), ((p + 1) as usize, m.b)),
        ),
{
    assert(ms.take(p + 1).drop_last() =~= ms.take(p));
    assert(ms.take(p + 1).last() == ms[p]);
}

/// Chains adjacent one-to-one matches (`matches[p]` joins frame `p` to frame `p + 1`)
/// into tracks. Every observation of a track belongs to that track alone, and every
/// track has at least two observations.
pub fn build_feature_tracks(adjacent_matches: &Vec<Vec<MatchPair>>) -> (r: FeatureTracks)
    requires
        adjacent_matches@.len() < usize::MAX,
    ensures
        r@ == chain(match_steps(matches_view(adjacent_matches@))),
        r.wf(),
{
    let ghost ms = matches_view(adjacent_matches@);
    let mut tracks: Vec<Vec<Obs>> = Vec::new();
    let mut membership: Vec<(usize, usize, usize)> = Vec::new();
    let ghost mut st = chain(Seq::empty());
    let np = adjacent_matches.len();
    let mut p: usize = 0;
    assert(ms.take(0) =~= Seq::<Seq<MatchPair>>::empty());
    assert(tracks_view(tracks@) =~= st.tracks);
    assert(consistent(st));
    while p < np
        invariant
            p <= np == adjacent_matches@.len() < usize::MAX,
            ms == matches_view(adjacent_matches@),
            st == chain(match_steps(ms.take(p as int))),
            consistent(st),
            tracks_view(tracks@) == st.tracks,
            membership_matches(membership@, st.member),
            membership@.len() == total_observations(st.tracks),
        decreases np - p,
    {
        let matches = &adjacent_matches[p];
        let nm = matches.len();
        let ghost base = match_steps(ms.take(p as int));
        let ghost pm = ms[p as int].map_values(
            |m: MatchPair| ((p as usize, m.a), ((p + 1) as usize, m.b)),
        );
        let mut j: usize = 0;
        assert(pm.take(0) =~= Seq::<(Obs, Obs)>::empty());
        assert(base + pm.take(0) =~= base);
        while j < nm
            invariant
                p < np == adjacent_matches@.len() < usize::MAX,
                nm == matches@.len(),
                matches@ == ms[p as int],
                ms == matches_view(adjacent_matches@),
                pm == ms[p as int].map_values(
                    |m: MatchPair| ((p as usize, m.a), ((p + 1) as usize, m.b)),
                ),
                j <= nm,
                st == chain(base + pm.take(j as int)),
                consistent(st),
                tracks_view(tracks@) == st.tracks,
                membership_matches(membership@, st.member),
                membership@.len() == total_observations(st.tracks),
            decreases nm - j,
        {
            let m = matches[j];
            let source: Obs = (p, m.a);
            let target: Obs = (p + 1, m.b);
            let ghost next = track_step(st, source, target);
            proof {
                assert((base + pm.take(j + 1)).drop_last() =~= base + pm.take(j as int));
                assert((base + pm.take(j + 1)).last() == (source, target));
            }
            proof {
                lemma_membership_map(membership@, st.member);
            }
            let found_source = lookup_member(&membership, source);
            let found_target = lookup_member(&membership, target);
            proof {
                lemma_track_step_consistent(st, source, target);
            }
            match found_source {
                Some(t) => {
                    if found_target.is_none() {
                        let ghost old_entries = membership@;
                        let mut tr = copy_obs(&tracks[t]);
                        tr.push(target);
                        proof {
                            lemma_total_observations_update(tracks_view(tracks@), t as int, tr@);
                        }
                        tracks.set(t, tr);
                        membership.push((target.0, target.1, t));
                        proof {
                            assert(tracks_view(tracks@) =~= next.tracks);
                            assert forall|o: Obs|
                                next.member.contains_key(o) <==> exists|i: int|
                                    0 <= i < membership@.len() && (#[trigger] membership@[i].0, membership@[i].1)
                                        == o by {
                                if o == target {
                                    let n0 = old_entries.len() as int;
                                    assert(membership@[n0] == (target.0, target.1, t));
                                    assert((membership@[n0].0, membership@[n0].1) == o);
                                } else if st.member.contains_key(o) {
                                    let i = choose|i: int|
                                        0 <= i < old_entries.len() && (#[trigger] old_entries[i].0, old_entries[i].1) == o;
                                    assert(membership@[i] == old_entries[i]);
                                    assert((membership@[i].0, membership@[i].1) == o);
                                }
                                if exists|i: int|
                                    0 <= i < membership@.len() && (#[trigger] membership@[i].0, membership@[i].1) == o {
                                    let i = choose|i: int|
                                        0 <= i < membership@.len() && (#[trigger] membership@[i].0, membership@[i].1) == o;
                                    if i < old_entries.len() {
                                        assert(old_entries[i] == membership@[i]);
                                        assert(st.member.contains_key((old_entries[i].0, old_entries[i].1)));
                                    } else {
                                        assert(membership@[i] == (target.0, target.1, t));
                                    }
                                }
                            }
                            assert forall|i: int| 0 <= i < membership@.len() implies next.member.contains_key(
                                (#[trigger] membership@[i].0, membership@[i].1),
                            ) && next.member[(membership@[i].0, membership@[i].1)] == membership@[i].2 by {
                                if i < old_entries.len() {
                                    assert(old_entries[i] == membership@[i]);
                                }
                            }
                        }
                    }
                },
                None => {
                    if found_target.is_none() {
                        let ghost old_entries = membership@;
                        let k = tracks.len();
                        let mut tr: Vec<Obs> = Vec::new();
                        tr.push(source);
                        tr.push(target);
                        proof {
                            assert(tracks_view(tracks@.push(tr)).drop_last() =~= tracks_view(tracks@));
                        }
                        tracks.push(tr);
                        membership.push((source.0, source.1, k));
                        membership.push((target.0, target.1, k));
                        proof {
                            assert(tr@ =~= seq![source, target]);
                            assert(tracks_view(tracks@) =~= next.tracks);
                            let n0 = old_entries.len() as int;
                            assert forall|o: Obs|
                                next.member.contains_key(o) <==> exists|i: int|
                                    0 <= i < membership@.len() && (#[trigger] membership@[i].0, membership@[i].1)
                                        == o by {
                                if o == target {
                                    assert(membership@[n0 + 1] == (target.0, target.1, k));
                                    assert((membership@[n0 + 1].0, membership@[n0 + 1].1) == o);
                                } else if o == source {
                                    assert(membership@[n0] == (source.0, source.1, k));
                                    assert((membership@[n0].0, membership@[n0].1) == o);
                                } else if st.member.contains_key(o) {
                                    let i = choose|i: int|
                                        0 <= i < old_entries.len() && (#[trigger] old_entries[i].0, old_entries[i].1) == o;
                                    assert(membership@[i] == old_entries[i]);
                                    assert((membership@[i].0, membership@[i].1) == o);
                                }
                                if exists|i: int|
                                    0 <= i < membership@.len() && (#[trigger] membership@[i].0, membership@[i].1) == o {
                                    let i = choose|i: int|
                                        0 <= i < membership@.len() && (#[trigger] membership@[i].0, membership@[i].1) == o;
                                    if i < n0 {
                                        assert(old_entries[i] == membership@[i]);
                                        assert(st.member.contains_key((old_entries[i].0, old_entries[i].1)));
                                    } else if i == n0 {
                                        assert(membership@[i] == (source.0, source.1, k));
                                    } else {
                                        assert(membership@[i] == (target.0, target.1, k));
                                    }
                                }
                            }
                            assert forall|i: int| 0 <= i < membership@.len() implies next.member.contains_key(
                                (#[trigger] membership@[i].0, membership@[i].1),
                            ) && next.member[(membership@[i].0, membership@[i].1)] == membership@[i].2 by {
                                if i < n0 {
                                    assert(old_entries[i] == membership@[i]);
                                }
                            }
                        }
                    }
                },
            }
            proof {
                st = next;
            }
            j = j + 1;
        }
        proof {
            lemma_match_steps_prefix(ms, p as int);
            assert(pm.take(nm as int) =~= pm);
        }
        p = p + 1;
    }
    assert(ms.take(np as int) =~= ms);
    proof {
        lemma_match_steps_distinct(ms);
        lemma_chain_consistent(match_steps(ms));
        lemma_membership_map(membership@, st.member);
    }
    FeatureTracks { tracks, membership }
}

/// Fewest seed-landmark correspondences with which a keyframe is ready for PnP.
pub const MIN_PNP_CORRESPONDENCES: usize = 8;

/// A seed landmark: a point of the seed pair and its feature in the pair's first frame.
#[derive(Clone, Copy, Debug, PartialEq, Eq, Structural)]
pub struct SeedLandmark {
    pub point_index: usize,
    pub source_feature_index: usize,
}

/// A seed point seen by a feature of a candidate frame.
#[derive(Clone, Copy, Debug, PartialEq, Eq, Structural)]
pub struct RegistrationCorrespondence {
    pub seed_point_index: usize,
    pub feature_index: usize,
}

/// A keyframe outside the seed pair with its correspondences to seed points.
#[derive(Clone, Debug)]
pub struct RegistrationCandidate {
    pub frame_index: usize,
    pub correspondences: Vec<RegistrationCorrespondence>,
}

/// A keyframe that could be registered from seed landmarks.
#[derive(Clone, Copy, Debug, PartialEq, Eq, Structural)]
pub struct RegistrationCandidateStats {
    pub frame_index: usize,
    pub seed_landmark_correspondences: usize,
    pub pnp_ready: bool,
}

/// `(seed point, track)` for each seed landmark, in order, whose observation in frame `p`
/// joined a track.
pub open spec fn seed_tracks(member: Map<Obs, nat>, p: usize, seeds: Seq<SeedLandmark>) -> Seq<(usize, usize)>
    decreases seeds.len(),
{
    if seeds.len() == 0 {
        Seq::empty()
    } else {
        let rest = seed_tracks(member, p, seeds.drop_last());
        let o: Obs = (p, seeds.last().source_feature_index);
        if member.contains_key(o) {
            rest.push((seeds.last().point_index, member[o] as usize))
        } else {
            rest
        }
    }
}

/// The tracks that hold a seed landmark.
pub open spec fn seed_track_set(member: Map<Obs, nat>, p: usize, seeds: Seq<SeedLandmark>) -> Set<usize> {
    Set::new(|t: usize| exists|k: int| 0 <= k < seed_tracks(member, p, seeds).len()
        && (#[trigger] seed_tracks(member, p, seeds)[k]).1 == t)
}

proof fn lemma_seed_tracks_prefix(member: Map<Obs, nat>, p: usize, seeds: Seq<SeedLandmark>, i: int)
    requires
        0 <= i < seeds.len(),
    ensures
        seed_tracks(member, p, seeds.take(i + 1)) == if member.contains_key((p, seeds[i].source_feature_index)) {
            seed_tracks(member, p, seeds.take(i)).push(
                (seeds[i].point_index, member[(p, seeds[i].source_feature_index)] as usize),
            )
        } else {
            seed_tracks(member, p, seeds.take(i))
        },
{
    assert(seeds.take(i + 1).drop_last() =~= seeds.take(i));
}

proof fn lemma_seed_tracks_in_range(st: TrackState, p: usize, seeds: Seq<SeedLandmark>)
    requires
        consistent(st),
        st.tracks.len() <= usize::MAX,
    ensures
        forall|k: int| 0 <= k < seed_tracks(st.member, p, seeds).len()
            ==> (#[trigger] seed_tracks(st.member, p, seeds)[k]).1 < st.tracks.len(),
    decreases seeds.len(),
{
    if seeds.len() > 0 {
        lemma_seed_tracks_in_range(st, p, seeds.drop_last());
        let o: Obs = (p, seeds.last().source_feature_index);
        let rest = seed_tracks(st.member, p, seeds.drop_last());
        if st.member.contains_key(o) {
            assert(st.member[o] < st.tracks.len());
            assert(seed_tracks(st.member, p, seeds) == rest.push(
                (seeds.last().point_index, st.member[o] as usize),
            ));
            assert forall|k: int| 0 <= k < rest.len() + 1 implies (#[trigger] rest.push(
                (seeds.last().point_index, st.member[o] as usize),
            )[k]).1 < st.tracks.len() by {
                if k < rest.len() {
                    assert(rest[k].1 < st.tracks.len());
                }
            }
        } else {
            assert(seed_tracks(st.member, p, seeds) == rest);
        }
    }
}

/// The tracks that a seed landmark of the seed pair starting at frame `seed_pair_index`
/// joined, each once.
pub fn collect_seed_track_indices(
    feature_tracks: &FeatureTracks,
    seed_pair_index: usize,
    seed_landmarks: &Vec<SeedLandmark>,
) -> (r: Vec<usize>)
    requires
        feature_tracks.wf(),
    ensures
        r@.no_duplicates(),
        r@.to_set() == seed_track_set(feature_tracks@.member, seed_pair_index, seed_landmarks@),
{
    let ghost member = feature_tracks@.member;
    let ghost seeds = seed_landmarks@;
    let mut out: Vec<usize> = Vec::new();
    let n = seed_landmarks.len();
    let mut i: usize = 0;
    assert(seeds.take(0) =~= Seq::<SeedLandmark>::empty());
    while i < n
        invariant
            i <= n == seeds.len(),
            seeds == seed_landmarks@,
            member == feature_tracks@.member,
            feature_tracks.wf(),
            out@.no_duplicates(),
            forall|t: usize| out@.contains(t) <==> exists|k: int| 0 <= k < seed_tracks(member, seed_pair_index, seeds.take(i as int)).len()
                && (#[trigger] seed_tracks(member, seed_pair_index, seeds.take(i as int))[k]).1 == t,
        decreases n - i,
    {
        let s = seed_landmarks[i];
        let found = lookup_member(&feature_tracks.membership, (seed_pair_index, s.source_feature_index));
        let ghost before = seed_tracks(member, seed_pair_index, seeds.take(i as int));
        proof {
            lemma_seed_tracks_prefix(member, seed_pair_index, seeds, i as int);
        }
        let ghost after = seed_tracks(member, seed_pair_index, seeds.take(i + 1));
        match found {
            Some(t) => {
                let mut present = false;
                let m = out.len();
                let mut j: usize = 0;
                while j < m
                    invariant
                        j <= m == out@.len(),
                        present <==> exists|q: int| 0 <= q < j && out@[q] == t,
                    decreases m - j,
                {
                    if out[j] == t {
                        present = true;
                    }
                    j = j + 1;
                }
                proof {
                    assert(after == before.push((s.point_index, t)));
                    assert(after[before.len() as int] == (s.point_index, t));
                }
                let ghost prev = out@;
                if !present {
                    out.push(t);
                }
                proof {
                    assert forall|u: usize| #[trigger] prev.contains(u) implies out@.contains(u) by {
                        let q = choose|q: int| 0 <= q < prev.len() && prev[q] == u;
                        assert(out@[q] == u);
                    }
                    assert(out@.contains(t)) by {
                        if present {
                            let q = choose|q: int| 0 <= q < m && out@[q] == t;
                        } else {
                            assert(out@[prev.len() as int] == t);
                        }
                    }
                    assert forall|u: usize| out@.contains(u) <==> exists|k: int| 0 <= k < after.len()
                        && (#[trigger] after[k]).1 == u by {
                        if out@.contains(u) && u != t {
                            let q = choose|q: int| 0 <= q < out@.len() && out@[q] == u;
                            if !present {
                                assert(q < prev.len());
                            }
                            assert(prev[q] == u);
                            assert(prev.contains(u));
                            let k = choose|k: int| 0 <= k < before.len() && (#[trigger] before[k]).1 == u;
                            assert(after[k] == before[k]);
                        }
                        if exists|k: int| 0 <= k < after.len() && (#[trigger] after[k]).1 == u {
                            let k = choose|k: int| 0 <= k < after.len() && (#[trigger] after[k]).1 == u;
                            if k < before.len() {
                                assert(after[k] == before[k]);
                                assert(prev.contains(u));
                            }
                        }
                    }
                }
            },
            None => {
                proof {
                    assert(after == before);
                }
            },
        }
        i = i + 1;
    }
    proof {
        assert(seeds.take(n as int) =~= seeds);
        assert(out@.to_set() =~= seed_track_set(member, seed_pair_index, seeds));
    }
    out
}

/// The feature of the first observation in frame `f`, if the observations reach it.
pub open spec fn first_in_frame(obs: Seq<Obs>, f: usize) -> Option<usize>
    decreases obs.len(),
{
    if obs.len() == 0 {
        None
    } else {
        match first_in_frame(obs.drop_last(), f) {
            Some(x) => Some(x),
            None => if obs.last().0 == f {
                Some(obs.last().1)
            } else {
                None
            },
        }
    }
}

/// The correspondences of frame `f`: for each `(seed point, track)` in order whose track
/// reaches the frame, the seed point and the track's first feature there.
pub open spec fn correspondences_in(tracks: Seq<Seq<Obs>>, f: usize, seeded: Seq<(usize, usize)>) -> Seq<
    RegistrationCorrespondence,
>
    decreases seeded.len(),
{
    if seeded.len() == 0 {
        Seq::empty()
    } else {
        let rest = correspondences_in(tracks, f, seeded.drop_last());
        match first_in_frame(tracks[seeded.last().1 as int], f) {
            Some(x) => rest.push(
                RegistrationCorrespondence { seed_point_index: seeded.last().0, feature_index: x },
            ),
            None => rest,
        }
    }
}

/// The keyframes, in order, other than the two frames of the seed pair starting at `p`.
pub open spec fn non_seed_frames(keyframes: Seq<usize>, p: usize) -> Seq<usize>
    decreases keyframes.len(),
{
    if keyframes.len() == 0 {
        Seq::empty()
    } else {
        let rest = non_seed_frames(keyframes.drop_last(), p);
        let f = keyframes.last();
        if f != p && f != p + 1 {
            rest.push(f)
        } else {
            rest
        }
    }
}

fn first_feature_in_frame(obs: &Vec<Obs>, f: usize) -> (r: Option<usize>)
    ensures
        r == first_in_frame(obs@, f),
{
    let n = obs.len();
    let mut i: usize = 0;
    assert(obs@.take(0) =~= Seq::<Obs>::empty());
    while i < n
        invariant
            i <= n == obs@.len(),
            first_in_frame(obs@.take(i as int), f) is None,
        decreases n - i,
    {
        assert(obs@.take(i + 1).drop_last() =~= obs@.take(i as int));
        if obs[i].0 == f {
            proof {
                lemma_first_in_frame_extends(obs@, i as int + 1, f);
            }
            return Some(obs[i].1);
        }
        i = i + 1;
    }
    assert(obs@.take(n as int) =~= obs@);
    None
}

proof fn lemma_first_in_frame_extends(obs: Seq<Obs>, i: int, f: usize)
    requires
        0 <= i <= obs.len(),
        first_in_frame(obs.take(i), f) is Some,
    ensures
        first_in_frame(obs, f) == first_in_frame(obs.take(i), f),
    decreases obs.len() - i,
{
    if i < obs.len() {
        assert(obs.take(i + 1).drop_last() =~= obs.take(i));
        lemma_first_in_frame_extends(obs, i + 1, f);
    } else {
        assert(obs.take(i) =~= obs);
    }
}

fn seed_track_pairs(
    feature_tracks: &FeatureTracks,
    seed_pair_index: usize,
    seed_landmarks: &Vec<SeedLandmark>,
) -> (r: Vec<(usize, usize)>)
    requires
        feature_tracks.wf(),
    ensures
        r@ == seed_tracks(feature_tracks@.member, seed_pair_index, seed_landmarks@),
{
    let ghost member = feature_tracks@.member;
    let ghost seeds = seed_landmarks@;
    let mut out: Vec<(usize, usize)> = Vec::new();
    let n = seed_landmarks.len();
    let mut i: usize = 0;
    assert(seeds.take(0) =~= Seq::<SeedLandmark>::empty());
    while i < n
        invariant
            i <= n == seeds.len(),
            seeds == seed_landmarks@,
            member == feature_tracks@.member,
            feature_tracks.wf(),
            out@ == seed_tracks(member, seed_pair_index, seeds.take(i as int)),
        decreases n - i,
    {
        let s = seed_landmarks[i];
        let found = lookup_member(&feature_tracks.membership, (seed_pair_index, s.source_feature_index));
        proof {
            lemma_seed_tracks_prefix(member, seed_pair_index, seeds, i as int);
        }
        if let Some(t) = found {
            out.push((s.point_index, t));
        }
        i = i + 1;
    }
    assert(seeds.take(n as int) =~= seeds);
    out
}

/// The correspondences of frame `f` for the given `(seed point, track)` pairs.
fn frame_correspondences(feature_tracks: &FeatureTracks, f: usize, seeded: &Vec<(usize, usize)>) -> (r: Vec<
    RegistrationCorrespondence,
>)
    requires
        forall|k: int| 0 <= k < seeded@.len() ==> (#[trigger] seeded@[k]).1 < feature_tracks.tracks@.len(),
    ensures
        r@ == correspondences_in(feature_tracks@.tracks, f, seeded@),
{
    let ghost tracks = feature_tracks@.tracks;
    let mut out: Vec<RegistrationCorrespondence> = Vec::new();
    let n = seeded.len();
    let mut i: usize = 0;
    assert(seeded@.take(0) =~= Seq::<(usize, usize)>::empty());
    while i < n
        invariant
            i <= n == seeded@.len(),
            tracks == feature_tracks@.tracks,
            forall|k: int| 0 <= k < seeded@.len() ==> (#[trigger] seeded@[k]).1 < feature_tracks.tracks@.len(),
            out@ == correspondences_in(tracks, f, seeded@.take(i as int)),
        decreases n - i,
    {
        let (point, t) = seeded[i];
        assert(seeded@.take(i + 1).drop_last() =~= seeded@.take(i as int));
        assert(seeded@.take(i + 1).last() == seeded@[i as int]);
        let found = first_feature_in_frame(&feature_tracks.tracks[t], f);
        if let Some(x) = found {
            out.push(RegistrationCorrespondence { seed_point_index: point, feature_index: x });
        }
        i = i + 1;
    }
    assert(seeded@.take(n as int) =~= seeded@);
    out
}

/// `candidates` are the keyframes outside the seed pair starting at frame `p`, in order,
/// each with the seed points whose tracks reach it.
pub open spec fn candidates_for(
    candidates: Seq<RegistrationCandidate>,
    keyframes: Seq<usize>,
    st: TrackState,
    p: usize,
    seeds: Seq<SeedLandmark>,
) -> bool {
    &&& candidates.len() == non_seed_frames(keyframes, p).len()
    &&& forall|k: int| 0 <= k < candidates.len() ==> (#[trigger] candidates[k]).frame_index == non_seed_frames(
        keyframes,
        p,
    )[k] && candidates[k].correspondences@ == correspondences_in(
        st.tracks,
        candidates[k].frame_index,
        seed_tracks(st.member, p, seeds),
    )
}

proof fn lemma_non_seed_frames_exclude(keyframes: Seq<usize>, p: usize)
    ensures
        forall|k: int|
            0 <= k < non_seed_frames(keyframes, p).len() ==> #[trigger] non_seed_frames(keyframes, p)[k] != p
                && non_seed_frames(keyframes, p)[k] != p + 1 && keyframes.contains(non_seed_frames(keyframes, p)[k]),
    decreases keyframes.len(),
{
    if keyframes.len() > 0 {
        lemma_non_seed_frames_exclude(keyframes.drop_last(), p);
        let rest = non_seed_frames(keyframes.drop_last(), p);
        let f = keyframes.last();
        assert forall|k: int| 0 <= k < rest.len() implies keyframes.contains(#[trigger] rest[k]) by {
            let q = choose|q: int| 0 <= q < keyframes.drop_last().len() && keyframes.drop_last()[q] == rest[k];
            assert(keyframes[q] == rest[k]);
        }
        if f != p && f != p + 1 {
            assert(non_seed_frames(keyframes, p) == rest.push(f));
            assert(keyframes[keyframes.len() - 1] == f);
            assert forall|k: int| 0 <= k < rest.len() + 1 implies #[trigger] rest.push(f)[k] != p && rest.push(f)[k]
                != p + 1 && keyframes.contains(rest.push(f)[k]) by {
                if k < rest.len() {
                    assert(rest.push(f)[k] == rest[k]);
                }
            }
        } else {
            assert(non_seed_frames(keyframes, p) == rest);
        }
    }
}

/// Registration candidates are selected keyframes outside the seed pair.
pub proof fn lemma_candidates_outside_seed_pair(
    candidates: Seq<RegistrationCandidate>,
    keyframes: Seq<usize>,
    st: TrackState,
    p: usize,
    seeds: Seq<SeedLandmark>,
)
    requires
        candidates_for(candidates, keyframes, st, p, seeds),
    ensures
        forall|k: int|
            0 <= k < candidates.len() ==> (#[trigger] candidates[k]).frame_index != p && candidates[k].frame_index
                != p + 1 && keyframes.contains(candidates[k].frame_index),
{
    lemma_non_seed_frames_exclude(keyframes, p);
    assert forall|k: int| 0 <= k < candidates.len() implies (#[trigger] candidates[k]).frame_index != p
        && candidates[k].frame_index != p + 1 && keyframes.contains(candidates[k].frame_index) by {
        assert(candidates[k].frame_index == non_seed_frames(keyframes, p)[k]);
    }
}

/// The keyframes outside the seed pair starting at frame `seed_pair_index`, in order, each
/// with the seed points whose tracks reach it.
pub fn registration_candidates(
    keyframes: &Vec<usize>,
    feature_tracks: &FeatureTracks,
    seed_pair_index: usize,
    seed_landmarks: &Vec<SeedLandmark>,
) -> (r: Vec<RegistrationCandidate>)
    requires
        feature_tracks.wf(),
        seed_pair_index < usize::MAX,
    ensures
        candidates_for(r@, keyframes@, feature_tracks@, seed_pair_index, seed_landmarks@),
{
    let seeded = seed_track_pairs(feature_tracks, seed_pair_index, seed_landmarks);
    let track_count = feature_tracks.tracks.len();
    proof {
        assert(feature_tracks@.tracks.len() == track_count);
        lemma_seed_tracks_in_range(feature_tracks@, seed_pair_index, seed_landmarks@);
    }
    let ghost frames = keyframes@;
    let mut out: Vec<RegistrationCandidate> = Vec::new();
    let n = keyframes.len();
    let mut i: usize = 0;
    assert(frames.take(0) =~= Seq::<usize>::empty());
    while i < n
        invariant
            i <= n == frames.len(),
            frames == keyframes@,
            seed_pair_index < usize::MAX,
            feature_tracks.wf(),
            seeded@ == seed_tracks(feature_tracks@.member, seed_pair_index, seed_landmarks@),
            forall|k: int| 0 <= k < seeded@.len() ==> (#[trigger] seeded@[k]).1 < feature_tracks.tracks@.len(),
            out@.len() == non_seed_frames(frames.take(i as int), seed_pair_index).len(),
            forall|k: int| 0 <= k < out@.len() ==> (#[trigger] out@[k]).frame_index == non_seed_frames(
                frames.take(i as int),
                seed_pair_index,
            )[k] && out@[k].correspondences@ == correspondences_in(
                feature_tracks@.tracks,
                out@[k].frame_index,
                seeded@,
            ),
        decreases n - i,
    {
        let f = keyframes[i];
        let ghost before = non_seed_frames(frames.take(i as int), seed_pair_index);
        assert(frames.take(i + 1).drop_last() =~= frames.take(i as int));
        assert(frames.take(i + 1).last() == f);
        if f != seed_pair_index && f != seed_pair_index + 1 {
            let correspondences = frame_correspondences(feature_tracks, f, &seeded);
            out.push(RegistrationCandidate { frame_index: f, correspondences });
            proof {
                let after = non_seed_frames(frames.take(i + 1), seed_pair_index);
                assert(after == before.push(f));
                assert forall|k: int| 0 <= k < out@.len() implies (#[trigger] out@[k]).frame_index
                    == after[k] && out@[k].correspondences@ == correspondences_in(
                    feature_tracks@.tracks,
                    out@[k].frame_index,
                    seeded@,
                ) by {
                    if k < before.len() {
                        assert(after[k] == before[k]);
                    }
                }
            }
        }
        i = i + 1;
    }
    assert(frames.take(n as int) =~= frames);
    out
}

/// The number of tracks with at least three observations.
pub open spec fn long_track_count(tracks: Seq<Seq<Obs>>) -> nat
    decreases tracks.len(),
{
    if tracks.len() == 0 {
        0
    } else {
        long_track_count(tracks.drop_last()) + if tracks.last().len() >= 3 {
            1nat
        } else {
            0nat
        }
    }
}

/// The length of the longest track, 0 without tracks.
pub open spec fn longest_track_len(tracks: Seq<Seq<Obs>>) -> nat
    decreases tracks.len(),
{
    if tracks.len() == 0 {
        0
    } else {
        let rest = longest_track_len(tracks.drop_last());
        if tracks.last().len() > rest {
            tracks.last().len()
        } else {
            rest
        }
    }
}

/// The number of adjacent frame pairs with at least one match.
pub open spec fn linked_pair_count(matches: Seq<Seq<MatchPair>>) -> nat
    decreases matches.len(),
{
    if matches.len() == 0 {
        0
    } else {
        linked_pair_count(matches.drop_last()) + if matches.last().len() > 0 {
            1nat
        } else {
            0nat
        }
    }
}

/// The statistics of a registration candidate.
pub open spec fn candidate_stats(c: RegistrationCandidate) -> RegistrationCandidateStats {
    RegistrationCandidateStats {
        frame_index: c.frame_index,
        seed_landmark_correspondences: c.correspondences@.len() as usize,
        pnp_ready: c.correspondences@.len() >= MIN_PNP_CORRESPONDENCES,
    }
}

/// The counts of a multi-view analysis.
#[derive(Clone, Debug)]
pub struct MultiViewStats {
    pub keyframes: Vec<usize>,
    pub track_count: usize,
    pub tracks_three_plus: usize,
    pub longest_track: usize,
    pub observations: usize,
    pub linked_pairs: usize,
    pub registration_candidates: Vec<RegistrationCandidateStats>,
}

/// Tracks, seed tracks and registration candidates of a sequence, with their counts.
pub struct MultiViewAnalysis {
    pub stats: MultiViewStats,
    pub registration_candidates: Vec<RegistrationCandidate>,
    pub tracks: FeatureTracks,
    pub seed_track_indices: Vec<usize>,
    pub seed_pair_index: Option<usize>,
}

proof fn lemma_total_observations_prefix(s: Seq<Seq<Obs>>, i: int)
    requires
        0 <= i <= s.len(),
    ensures
        total_observations(s.take(i)) <= total_observations(s),
    decreases s.len() - i,
{
    if i < s.len() {
        assert(s.take(i + 1).drop_last() =~= s.take(i));
        lemma_total_observations_prefix(s, i + 1);
    } else {
        assert(s.take(i) =~= s);
    }
}

fn candidate_stats_list(candidates: &Vec<RegistrationCandidate>) -> (r: Vec<RegistrationCandidateStats>)
    ensures
        r@ == candidates@.map_values(|c: RegistrationCandidate| candidate_stats(c)),
{
    let mut out: Vec<RegistrationCandidateStats> = Vec::new();
    let n = candidates.len();
    let mut i: usize = 0;
    while i < n
        invariant
            i <= n == candidates@.len(),
            out@ == candidates@.take(i as int).map_values(|c: RegistrationCandidate| candidate_stats(c)),
        decreases n - i,
    {
        let c = &candidates[i];
        let count = c.correspondences.len();
        out.push(
            RegistrationCandidateStats {
                frame_index: c.frame_index,
                seed_landmark_correspondences: count,
                pnp_ready: count >= MIN_PNP_CORRESPONDENCES,
            },
        );
        i = i + 1;
        assert(out@ =~= candidates@.take(i as int).map_values(|c: RegistrationCandidate| candidate_stats(c)));
    }
    assert(candidates@.take(n as int) =~= candidates@);
    out
}

/// Builds the tracks of the adjacent matches, and with a seed pair (its first frame and
/// its landmarks) the tracks that hold a seed landmark and the registration candidates
/// among `keyframes`, with the counts of all of these.
pub fn analyze(
    keyframes: Vec<usize>,
    adjacent_matches: &Vec<Vec<MatchPair>>,
    seed_pair: Option<(usize, &Vec<SeedLandmark>)>,
) -> (r: MultiViewAnalysis)
    requires
        adjacent_matches@.len() < usize::MAX,
        seed_pair matches Some((p, _)) ==> p < usize::MAX,
    ensures
        r.tracks@ == chain(match_steps(matches_view(adjacent_matches@))),
        r.tracks.wf(),
        r.stats.keyframes@ == keyframes@,
        r.stats.track_count == r.tracks@.tracks.len(),
        r.stats.tracks_three_plus == long_track_count(r.tracks@.tracks),
        r.stats.longest_track == longest_track_len(r.tracks@.tracks),
        r.stats.observations == total_observations(r.tracks@.tracks),
        r.stats.linked_pairs == linked_pair_count(matches_view(adjacent_matches@)),
        r.stats.registration_candidates@ == r.registration_candidates@.map_values(
            |c: RegistrationCandidate| candidate_stats(c),
        ),
        r.seed_pair_index == (match seed_pair {
            Some((p, _)) => Some(p),
            None => None::<usize>,
        }),
        match seed_pair {
            Some((p, seeds)) => {
                &&& r.seed_track_indices@.no_duplicates()
                &&& r.seed_track_indices@.to_set() == seed_track_set(r.tracks@.member, p, seeds@)
                &&& candidates_for(r.registration_candidates@, keyframes@, r.tracks@, p, seeds@)
            },
            None => r.seed_track_indices@.len() == 0 && r.registration_candidates@.len() == 0,
        },
{
    let feature_tracks = build_feature_tracks(adjacent_matches);
    let (seed_pair_index, seed_track_indices, registration_candidates) = match seed_pair {
        Some((p, seeds)) => {
            let indices = collect_seed_track_indices(&feature_tracks, p, seeds);
            let candidates = registration_candidates(&keyframes, &feature_tracks, p, seeds);
            (Some(p), indices, candidates)
        },
        None => (None, Vec::new(), Vec::new()),
    };
    let candidate_stats = candidate_stats_list(&registration_candidates);

    let ghost tracks = feature_tracks@.tracks;
    let nt = feature_tracks.tracks.len();
    let member_count = feature_tracks.membership.len();
    let mut three_plus: usize = 0;
    let mut longest: usize = 0;
    let mut observations: usize = 0;
    let mut i: usize = 0;
    assert(tracks.take(0) =~= Seq::<Seq<Obs>>::empty());
    while i < nt
        invariant
            i <= nt == tracks.len(),
            tracks == feature_tracks@.tracks,
            feature_tracks.wf(),
            total_observations(tracks) == member_count,
            three_plus == long_track_count(tracks.take(i as int)),
            three_plus <= i,
            longest == longest_track_len(tracks.take(i as int)),
            observations == total_observations(tracks.take(i as int)),
        decreases nt - i,
    {
        let len = feature_tracks.tracks[i].len();
        proof {
            assert(tracks.take(i + 1).drop_last() =~= tracks.take(i as int));
            assert(tracks.take(i + 1).last() == tracks[i as int]);
            lemma_total_observations_prefix(tracks, i + 1);
            assert(total_observations(tracks.take(i + 1)) == observations + len);
        }
        if len >= 3 {
            three_plus = three_plus + 1;
        }
        if len > longest {
            longest = len;
        }
        observations = observations + len;
        i = i + 1;
    }
    assert(tracks.take(nt as int) =~= tracks);

    let ghost ms = matches_view(adjacent_matches@);
    let np = adjacent_matches.len();
    let mut linked: usize = 0;
    let mut p: usize = 0;
    assert(ms.take(0) =~= Seq::<Seq<MatchPair>>::empty());
    while p < np
        invariant
            p <= np == ms.len(),
            ms == matches_view(adjacent_matches@),
            linked == linked_pair_count(ms.take(p as int)),
            linked <= p,
        decreases np - p,
    {
        assert(ms.take(p + 1).drop_last() =~= ms.take(p as int));
        assert(ms.take(p + 1).last() == adjacent_matches@[p as int]@);
        if adjacent_matches[p].len() > 0 {
            linked = linked + 1;
        }
        p = p + 1;
    }
    assert(ms.take(np as int) =~= ms);

    MultiViewAnalysis {
        stats: MultiViewStats {
            keyframes,
            track_count: nt,
            tracks_three_plus: three_plus,
            longest_track: longest,
            observations,
            linked_pairs: linked,
            registration_candidates: candidate_stats,
        },
        registration_candidates,
        tracks: feature_tracks,
        seed_track_indices,
        seed_pair_index,
    }
}

/// The position of the last camera of frame `f`.
pub open spec fn camera_of_frame(camera_frames: Seq<usize>, f: usize) -> Option<nat>
    decreases camera_frames.len(),
{
    if camera_frames.len() == 0 {
        None
    } else if camera_frames.last() == f {
        Some((camera_frames.len() - 1) as nat)
    } else {
        camera_of_frame(camera_frames.drop_last(), f)
    }
}

/// The observations of a track that a registered camera sees and whose feature exists,
/// in order, each as `(camera position, frame, feature)`.
pub open spec fn registered_observations(track: Seq<Obs>, camera_frames: Seq<usize>, feature_counts: Seq<usize>) -> Seq<
    (usize, usize, usize),
>
    decreases track.len(),
{
    if track.len() == 0 {
        Seq::empty()
    } else {
        let rest = registered_observations(track.drop_last(), camera_frames, feature_counts);
        let o = track.last();
        match camera_of_frame(camera_frames, o.0) {
            Some(c) => if o.0 < feature_counts.len() && o.1 < feature_counts[o.0 as int] {
                rest.push((c as usize, o.0, o.1))
            } else {
                rest
            },
            None => rest,
        }
    }
}

fn last_camera_of_frame(camera_frames: &Vec<usize>, f: usize) -> (r: Option<usize>)
    ensures
        match camera_of_frame(camera_frames@, f) {
            Some(c) => r == Some(c as usize),
            None => r is None,
        },
{
    let mut i = camera_frames.len();
    assert(camera_frames@.take(i as int) =~= camera_frames@);
    while i > 0
        invariant
            i <= camera_frames@.len(),
            camera_of_frame(camera_frames@, f) == camera_of_frame(camera_frames@.take(i as int), f),
        decreases i,
    {
        assert(camera_frames@.take(i as int).drop_last() =~= camera_frames@.take(i - 1));
        if camera_frames[i - 1] == f {
            return Some(i - 1);
        }
        i = i - 1;
    }
    None
}

/// The observations of a track that can be triangulated: a registered camera (given by
/// its frame) sees their frame, and their feature is one of that frame's
/// `feature_counts` features.
pub fn landmark_observations(track: &Vec<Obs>, camera_frames: &Vec<usize>, feature_counts: &Vec<usize>) -> (r: Vec<
    (usize, usize, usize),
>)
    ensures
        r@ == registered_observations(track@, camera_frames@, feature_counts@),
{
    let n = track.len();
    let mut out: Vec<(usize, usize, usize)> = Vec::new();
    let mut i: usize = 0;
    assert(track@.take(0) =~= Seq::<Obs>::empty());
    while i < n
        invariant
            i <= n == track@.len(),
            out@ == registered_observations(track@.take(i as int), camera_frames@, feature_counts@),
        decreases n - i,
    {
        let o = track[i];
        proof {
            assert(track@.take(i + 1).drop_last() =~= track@.take(i as int));
            assert(track@.take(i + 1).last() == o);
        }
        if let Some(c) = last_camera_of_frame(camera_frames, o.0) {
            if o.0 < feature_counts.len() && o.1 < feature_counts[o.0] {
                out.push((c, o.0, o.1));
            }
        }
        i = i + 1;
    }
    assert(track@.take(n as int) =~= track@);
    out
}

/// A track is a new-landmark candidate when at least two of its observations can be
/// triangulated and one of them lies outside the seed pair starting at frame `p`.
pub open spec fn is_landmark_candidate(observations: Seq<(usize, usize, usize)>, p: usize) -> bool {
    observations.len() >= 2 && exists|k: int|
        0 <= k < observations.len() && (#[trigger] observations[k]).1 != p && observations[k].1 != p + 1
}

/// Whether the triangulable observations of a track make it a new-landmark candidate
/// for the seed pair starting at frame `seed_pair_index`.
pub fn new_landmark_candidate(observations: &Vec<(usize, usize, usize)>, seed_pair_index: usize) -> (r: bool)
    requires
        seed_pair_index < usize::MAX,
    ensures
        r == is_landmark_candidate(observations@, seed_pair_index),
{
    let n = observations.len();
    if n < 2 {
        return false;
    }
    let mut i: usize = 0;
    while i < n
        invariant
            i <= n == observations@.len(),
            n >= 2,
            seed_pair_index < usize::MAX,
            forall|k: int| 0 <= k < i ==> #[trigger] observations@[k].1 == seed_pair_index || observations@[k].1
                == seed_pair_index + 1,
        decreases n - i,
    {
        let f = observations[i].1;
        if f != seed_pair_index && f != seed_pair_index + 1 {
            return true;
        }
        i = i + 1;
    }
    false
}

} // verus!
