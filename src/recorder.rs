use vstd::prelude::*;
use crate::trail::{push_bounded, Trail, MAX_TRAIL_LENGTH};

verus! {

/// A sample of every body is taken once in this many frames.
pub const TRAIL_RECORD_INTERVAL: u64 = 5;

/// The trails after one sample `ps[i]` has been appended to each trail `ts[i]`.
pub open spec fn sample_all<T>(ts: Seq<Seq<T>>, ps: Seq<T>) -> Seq<Seq<T>> {
    Seq::new(ts.len(), |i: int| push_bounded(ts[i], ps[i]))
}

/// The frame phase that follows `phase`.
pub open spec fn next_phase(phase: nat) -> nat {
    ((phase + 1) % (TRAIL_RECORD_INTERVAL as nat)) as nat
}

/// The phase reached after `frames` frames starting from `phase`.
pub open spec fn phase_after(phase: nat, frames: nat) -> nat
    decreases frames,
{
    if frames == 0 {
        phase
    } else {
        phase_after(next_phase(phase), (frames - 1) as nat)
    }
}

/// How many of `frames` consecutive frames, the first at `phase`, take a
/// sample (a frame samples when its phase is zero).
pub open spec fn sampled_frames(phase: nat, frames: nat) -> nat
    decreases frames,
{
    if frames == 0 {
        0
    } else {
        (if phase == 0 { 1nat } else { 0nat }) + sampled_frames(next_phase(phase), (frames - 1) as nat)
    }
}

/// The trails of all bodies together with the frame counter that decides
/// when they are sampled. The counter is kept as its phase within the
/// sampling interval, which is all that sampling depends on.
pub struct TrailBuffer<T> {
    trails: Vec<Trail<T>>,
    phase: u64,
}

impl<T: Copy> TrailBuffer<T> {
    /// What the trail of each body holds, oldest sample first.
    pub closed spec fn trails(&self) -> Seq<Seq<T>> {
        Seq::new(self.trails@.len(), |i: int| self.trails@[i]@)
    }

    /// Frames since the last sampling boundary.
    pub closed spec fn phase(&self) -> nat {
        self.phase as nat
    }

    /// The phase stays inside the interval and no trail is over capacity.
    pub open spec fn wf(&self) -> bool {
        &&& self.phase() < TRAIL_RECORD_INTERVAL
        &&& forall|i: int| 0 <= i < self.trails().len() ==> #[trigger] self.trails()[i].len() <= MAX_TRAIL_LENGTH
    }

    /// Empty trails for `count` bodies, at a sampling boundary.
    pub fn new(count: usize) -> (r: Self)
        ensures
            r.wf(),
            r.phase() == 0,
            r.trails().len() == count,
            forall|i: int| 0 <= i < count ==> (#[trigger] r.trails()[i]) == Seq::<T>::empty(),
    {
        let mut trails: Vec<Trail<T>> = Vec::new();
        let mut k: usize = 0;
        while k < count
            invariant
                k <= count,
                trails@.len() == k,
                forall|i: int| 0 <= i < k ==> (#[trigger] trails@[i])@ == Seq::<T>::empty(),
            decreases count - k,
        {
            trails.push(Trail::new());
            k = k + 1;
        }
        TrailBuffer { trails, phase: 0 }
    }

    /// Number of trails, one per body.
    pub fn count(&self) -> (r: usize)
        ensures
            r == self.trails().len(),
    {
        self.trails.len()
    }

    /// Whether the current frame is on a sampling boundary.
    pub fn is_sampling_frame(&self) -> (r: bool)
        ensures
            r == (self.phase() == 0),
    {
        self.phase == 0
    }

    /// The trail of body `i`.
    pub fn trail(&self, i: usize) -> (r: &Trail<T>)
        requires
            i < self.trails().len(),
        ensures
            r@ == self.trails()[i as int],
    {
        &self.trails[i]
    }

    /// One frame with trails enabled: on a sampling boundary the position
    /// `positions[i]` of every body is appended to its trail, evicting the
    /// oldest sample past capacity. The frame counter then moves on.
    /// Returns whether a sample was taken.
    pub fn record(&mut self, positions: &[T]) -> (sampled: bool)
        requires
            old(self).wf(),
            positions@.len() == old(self).trails().len(),
        ensures
            final(self).wf(),
            sampled == (old(self).phase() == 0),
            final(self).phase() == next_phase(old(self).phase()),
            final(self).trails() == (if sampled {
                sample_all(old(self).trails(), positions@)
            } else {
                old(self).trails()
            }),
    {
        let sampled = self.phase == 0;
        if sampled {
            let ghost before = self.trails();
            let n = self.trails.len();
            let mut k: usize = 0;
            while k < n
                invariant
                    k <= n,
                    n == self.trails@.len(),
                    n == positions@.len(),
                    before.len() == n,
                    self.phase == old(self).phase,
                    forall|i: int| 0 <= i < k ==> (#[trigger] self.trails@[i])@ == push_bounded(before[i], positions@[i]),
                    forall|i: int| k <= i < n ==> (#[trigger] self.trails@[i])@ == before[i],
                    forall|i: int| 0 <= i < n ==> (#[trigger] before[i]).len() <= MAX_TRAIL_LENGTH,
                decreases n - k,
            {
                let p = positions[k];
                let t = &mut self.trails[k];
                t.push(p);
                k = k + 1;
            }
            assert(self.trails() =~= sample_all(before, positions@));
        }
        self.advance();
        sampled
    }

    /// One frame with trails disabled: the trails stay as they are and the
    /// frame counter moves on, so that sampling keeps its phase.
    pub fn skip(&mut self)
        requires
            old(self).wf(),
        ensures
            final(self).wf(),
            final(self).phase() == next_phase(old(self).phase()),
            final(self).trails() == old(self).trails(),
    {
        self.advance();
        assert(self.trails() == old(self).trails());
        assert(self.phase() < TRAIL_RECORD_INTERVAL);
    }

    fn advance(&mut self)
        requires
            old(self).phase < TRAIL_RECORD_INTERVAL,
        ensures
            final(self).phase as nat == next_phase(old(self).phase as nat),
            final(self).trails == old(self).trails,
    {
        if self.phase + 1 == TRAIL_RECORD_INTERVAL {
            self.phase = 0;
        } else {
            self.phase = self.phase + 1;
        }
    }
}

proof fn lemma_sampled_frames_split(phase: nat, a: nat, b: nat)
    ensures
        sampled_frames(phase, a + b) == sampled_frames(phase, a) + sampled_frames(phase_after(phase, a), b),
    decreases a,
{
    if a > 0 {
        lemma_sampled_frames_split(next_phase(phase), (a - 1) as nat, b);
        assert((a + b - 1) as nat == ((a - 1) as nat + b) as nat);
    }
}

proof fn lemma_one_interval(phase: nat)
    requires
        phase < TRAIL_RECORD_INTERVAL,
    ensures
        sampled_frames(phase, TRAIL_RECORD_INTERVAL as nat) == 1,
        phase_after(phase, TRAIL_RECORD_INTERVAL as nat) == phase,
{
    reveal_with_fuel(sampled_frames, 6);
    reveal_with_fuel(phase_after, 6);
}

/// Sampling is decimated: whatever the phase a run starts at, `k` full
/// intervals of frames take exactly `k` samples, and end at that phase.
pub proof fn lemma_one_sample_per_interval(phase: nat, k: nat)
    requires
        phase < TRAIL_RECORD_INTERVAL,
    ensures
        sampled_frames(phase, k * TRAIL_RECORD_INTERVAL as nat) == k,
        phase_after(phase, k * TRAIL_RECORD_INTERVAL as nat) == phase,
    decreases k,
{
    let w = TRAIL_RECORD_INTERVAL as nat;
    if k > 0 {
        lemma_one_sample_per_interval(phase, (k - 1) as nat);
        lemma_one_interval(phase);
        let a = ((k - 1) * w) as nat;
        assert(k * w == a + w) by (nonlinear_arith)
            requires a == (k - 1) * w, k > 0;
        lemma_sampled_frames_split(phase, a, w);
        lemma_phase_after_split(phase, a, w);
    }
}

proof fn lemma_phase_after_split(phase: nat, a: nat, b: nat)
    ensures
        phase_after(phase, a + b) == phase_after(phase_after(phase, a), b),
    decreases a,
{
    if a > 0 {
        lemma_phase_after_split(next_phase(phase), (a - 1) as nat, b);
        assert((a + b - 1) as nat == ((a - 1) as nat + b) as nat);
    }
}

} // verus!
