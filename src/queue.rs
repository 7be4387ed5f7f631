//! The play queue: tracks in order, with the sum of their durations kept
//! alongside.
use std::collections::VecDeque;

use rand::Rng;
use vstd::prelude::*;

use crate::library::{lemma_total_concat, total_duration};
use crate::record::Track;

verus! {

/// The tracks waiting to be played, front first, and their total duration
/// in milliseconds.
pub struct SonikQueue {
    pub tracks: VecDeque<Track>,
    pub total_time: u64,
}

/// The queue that pushing `ops` in order onto `s` gives: `(true, t)` pushes
/// `t` at the back, `(false, t)` at the front.
pub open spec fn after_pushes(s: Seq<Track>, ops: Seq<(bool, Track)>) -> Seq<Track>
    decreases ops.len(),
{
    if ops.len() == 0 {
        s
    } else {
        let p = after_pushes(s, ops.drop_last());
        let (back, t) = ops.last();
        if back {
            p.push(t)
        } else {
            seq![t] + p
        }
    }
}

/// Any sequence of pushes, at either end, lengthens the queue by exactly
/// the number of pushes.
pub proof fn lemma_pushes_len(s: Seq<Track>, ops: Seq<(bool, Track)>)
    ensures
        after_pushes(s, ops).len() == s.len() + ops.len(),
    decreases ops.len(),
{
    if ops.len() > 0 {
        lemma_pushes_len(s, ops.drop_last());
    }
}

/// On an empty queue `q0`, pushing `t` at the back (giving `q1`, as `add`
/// states) and then taking the front track (giving `r` and `q2`, as `take`
/// states) hands back `t` and leaves the queue empty with a total of zero.
pub proof fn lemma_push_take_empty(q0: SonikQueue, q1: SonikQueue, q2: SonikQueue, t: Track, r: Track)
    requires
        q0.tracks@.len() == 0,
        q0.wf(),
        q1.tracks@ == q0.tracks@.push(t),
        q1.total_time == q0.total_time + t.duration,
        r == q1.tracks@[0],
        q2.tracks@ == q1.tracks@.drop_first(),
        q2.total_time == q1.total_time - r.duration,
    ensures
        r == t,
        q2.tracks@.len() == 0,
        q2.total_time == 0,
{
    assert(q0.tracks@ =~= Seq::<Track>::empty());
    assert(q1.tracks@ =~= seq![t]);
}

pub proof fn lemma_total_single(t: Track)
    ensures
        total_duration(seq![t]) == t.duration,
{
    reveal_with_fuel(total_duration, 2);
    assert(seq![t].drop_last() =~= Seq::<Track>::empty());
}

/// Replacing one track changes the total by the difference of durations.
pub proof fn lemma_total_update(s: Seq<Track>, i: int, x: Track)
    requires
        0 <= i < s.len(),
    ensures
        total_duration(s.update(i, x)) + s[i].duration == total_duration(s) + x.duration,
{
    let a = s.subrange(0, i);
    let b = s.subrange(i + 1, s.len() as int);
    assert(s =~= a + seq![s[i]] + b);
    assert(s.update(i, x) =~= a + seq![x] + b);
    lemma_total_concat(a + seq![s[i]], b);
    lemma_total_concat(a, seq![s[i]]);
    lemma_total_concat(a + seq![x], b);
    lemma_total_concat(a, seq![x]);
    lemma_total_single(s[i]);
    lemma_total_single(x);
}

/// `s` with the items at `i` and `j` exchanged.
pub open spec fn swap_at(s: Seq<Track>, i: int, j: int) -> Seq<Track> {
    s.update(i, s[j]).update(j, s[i])
}

/// One draw per position, each at most its position.
pub open spec fn valid_draws(d: Seq<usize>, n: nat) -> bool {
    d.len() == n && forall|k: int| 0 <= k < d.len() ==> #[trigger] d[k] <= k
}

/// The swaps of Fisher–Yates for positions below `i`, from `i - 1` down to
/// 1, each with the position that `d` draws for it.
pub open spec fn fisher_yates_from(s: Seq<Track>, d: Seq<usize>, i: int) -> Seq<Track>
    decreases i,
{
    if i <= 1 {
        s
    } else {
        fisher_yates_from(swap_at(s, i - 1, d[i - 1] as int), d, i - 1)
    }
}

/// The order that Fisher–Yates gives `s` for the draws `d`.
pub open spec fn fisher_yates(s: Seq<Track>, d: Seq<usize>) -> Seq<Track> {
    fisher_yates_from(s, d, s.len() as int)
}

/// Relies on `VecDeque::swap`: exchanges the elements at `i` and `j`; it
/// panics when either is out of bounds.
#[verifier::external_body]
fn swap_tracks(v: &mut VecDeque<Track>, i: usize, j: usize)
    requires
        i < old(v)@.len(),
        j < old(v)@.len(),
    ensures
        final(v)@ == old(v)@.update(i as int, old(v)@[j as int]).update(j as int, old(v)@[i as int]),
{
    v.swap(i, j)
}

/// Relies on `rand::thread_rng` and `Rng::gen_range`: a number drawn from
/// `0..bound`; `gen_range` panics on an empty range.
#[verifier::external_body]
fn random_below(bound: usize) -> (r: usize)
    requires
        bound > 0,
    ensures
        r < bound,
{
    rand::thread_rng().gen_range(0..bound)
}

impl SonikQueue {
    /// The cached total is the sum of the durations of the tracks.
    pub open spec fn wf(&self) -> bool {
        self.total_time == total_duration(self.tracks@)
    }

    /// An empty queue.
    pub fn new() -> (r: SonikQueue)
        ensures
            r.tracks@.len() == 0,
            r.total_time == 0,
            r.wf(),
    {
        SonikQueue { tracks: VecDeque::new(), total_time: 0 }
    }

    /// Adds `track` at the back.
    pub fn add(&mut self, track: Track)
        requires
            old(self).wf(),
            old(self).total_time + track.duration <= u64::MAX,
        ensures
            final(self).tracks@ == old(self).tracks@.push(track),
            final(self).total_time == old(self).total_time + track.duration,
            final(self).wf(),
    {
        self.total_time = self.total_time + track.duration as u64;
        let ghost s = self.tracks@;
        self.tracks.push_back(track);
        assert(self.tracks@.drop_last() =~= s);
    }

    /// Adds `track` at the front.
    pub fn add_to_front(&mut self, track: Track)
        requires
            old(self).wf(),
            old(self).total_time + track.duration <= u64::MAX,
        ensures
            final(self).tracks@ == seq![track] + old(self).tracks@,
            final(self).total_time == old(self).total_time + track.duration,
            final(self).wf(),
    {
        self.total_time = self.total_time + track.duration as u64;
        proof {
            lemma_total_concat(seq![track], self.tracks@);
            lemma_total_single(track);
        }
        self.tracks.push_front(track);
    }

    /// Empties the queue.
    pub fn clear(&mut self)
        ensures
            final(self).tracks@.len() == 0,
            final(self).total_time == 0,
            final(self).wf(),
    {
        self.tracks.clear();
        self.total_time = 0;
    }

    /// Puts the tracks in the order that Fisher–Yates gives for `draws`:
    /// from the last position down to the second, the track at `i` is
    /// swapped with the one at `draws[i]`.
    pub fn shuffle_with(&mut self, draws: &Vec<usize>)
        requires
            old(self).wf(),
            valid_draws(draws@, old(self).tracks@.len()),
        ensures
            final(self).tracks@ == fisher_yates(old(self).tracks@, draws@),
            final(self).tracks@.to_multiset() == old(self).tracks@.to_multiset(),
            final(self).total_time == old(self).total_time,
            final(self).wf(),
    {
        let mut i: usize = self.tracks.len();
        while i >= 2
            invariant
                i <= self.tracks@.len(),
                self.tracks@.len() == old(self).tracks@.len(),
                valid_draws(draws@, old(self).tracks@.len()),
                fisher_yates(old(self).tracks@, draws@) == fisher_yates_from(
                    self.tracks@,
                    draws@,
                    i as int,
                ),
                self.tracks@.to_multiset() == old(self).tracks@.to_multiset(),
                self.total_time == old(self).total_time,
                self.wf(),
            decreases i,
        {
            i = i - 1;
            let j = draws[i];
            let ghost s = self.tracks@;
            swap_tracks(&mut self.tracks, i, j);
            proof {
                assert(self.tracks@ == swap_at(s, i as int, j as int));
                let s1 = s.update(i as int, s[j as int]);
                vstd::seq_lib::to_multiset_update(s, i as int, s[j as int]);
                vstd::seq_lib::to_multiset_update(s1, j as int, s[i as int]);
                lemma_total_update(s, i as int, s[j as int]);
                lemma_total_update(s1, j as int, s[i as int]);
                broadcast use vstd::multiset::group_multiset_axioms;
                vstd::seq_lib::to_multiset_contains(s, s[i as int]);
                assert(s.contains(s[i as int]));
                assert(s1[j as int] == s[j as int]);
                assert(self.tracks@.to_multiset() =~= s.to_multiset());
            }
        }
    }

    /// Puts the tracks in a random order (Fisher–Yates): the numbers are
    /// drawn first, then `shuffle_with` applies them.
    pub fn shuffle(&mut self)
        requires
            old(self).wf(),
        ensures
            exists|d: Seq<usize>|
                valid_draws(d, old(self).tracks@.len()) && final(self).tracks@ == fisher_yates(
                    old(self).tracks@,
                    d,
                ),
            final(self).tracks@.to_multiset() == old(self).tracks@.to_multiset(),
            final(self).total_time == old(self).total_time,
            final(self).wf(),
    {
        let n = self.tracks.len();
        let mut draws: Vec<usize> = Vec::new();
        let mut k: usize = 0;
        while k < n
            invariant
                k <= n,
                draws@.len() == k,
                forall|x: int| 0 <= x < k ==> #[trigger] draws@[x] <= x,
            decreases n - k,
        {
            let r = random_below(k + 1);
            draws.push(r);
            k = k + 1;
        }
        self.shuffle_with(&draws);
    }

    /// Whether no track is waiting.
    pub fn is_empty(&self) -> (r: bool)
        ensures
            r == (self.tracks@.len() == 0),
    {
        self.tracks.len() == 0
    }

    /// The number of tracks waiting.
    pub fn len(&self) -> (r: usize)
        ensures
            r == self.tracks@.len(),
    {
        self.tracks.len()
    }

    /// The total duration of the tracks waiting, in milliseconds.
    pub fn total_time_ms(&self) -> (r: u64)
        ensures
            r == self.total_time,
    {
        self.total_time
    }

    /// Removes and returns the front track.
    pub fn take(&mut self) -> (r: Track)
        requires
            old(self).wf(),
            old(self).tracks@.len() > 0,
        ensures
            r == old(self).tracks@[0],
            final(self).tracks@ == old(self).tracks@.drop_first(),
            final(self).total_time == old(self).total_time - r.duration,
            final(self).wf(),
    {
        let ghost s = self.tracks@;
        let track = match self.tracks.pop_front() {
            Some(t) => t,
            None => {
                proof {
                    assert(false);
                }
                Track::dummy()
            },
        };
        proof {
            assert(s =~= seq![track] + s.drop_first());
            lemma_total_concat(seq![track], s.drop_first());
            lemma_total_single(track);
            assert(self.tracks@ =~= s.drop_first());
        }
        self.total_time = self.total_time - track.duration as u64;
        track
    }
}

} // verus!
