use vstd::prelude::*;

verus! {

/// Most samples a single trail holds; the oldest is evicted beyond it.
pub const MAX_TRAIL_LENGTH: usize = 500;

/// What a trail holding `s` holds after `x` is appended: the sample goes
/// last, and when that takes it past capacity the oldest sample leaves.
pub open spec fn push_bounded<T>(s: Seq<T>, x: T) -> Seq<T> {
    if s.len() + 1 > MAX_TRAIL_LENGTH {
        s.push(x).drop_first()
    } else {
        s.push(x)
    }
}

/// What a trail holding `s` holds after each sample of `xs` is appended
/// in turn.
pub open spec fn push_all<T>(s: Seq<T>, xs: Seq<T>) -> Seq<T>
    decreases xs.len(),
{
    if xs.len() == 0 {
        s
    } else {
        push_all(push_bounded(s, xs[0]), xs.drop_first())
    }
}

/// The last `MAX_TRAIL_LENGTH` elements of `s`, in order (all of `s`
/// when it is shorter).
pub open spec fn latest<T>(s: Seq<T>) -> Seq<T> {
    if s.len() > MAX_TRAIL_LENGTH {
        s.subrange(s.len() - MAX_TRAIL_LENGTH, s.len() as int)
    } else {
        s
    }
}

/// The position history of one body, oldest sample first.
pub struct Trail<T> {
    samples: Vec<T>,
}

impl<T> View for Trail<T> {
    type V = Seq<T>;

    closed spec fn view(&self) -> Seq<T> {
        self.samples@
    }
}

impl<T> Trail<T> {
    /// A trail never holds more than `MAX_TRAIL_LENGTH` samples.
    pub open spec fn wf(&self) -> bool {
        self@.len() <= MAX_TRAIL_LENGTH
    }

    /// An empty trail.
    pub fn new() -> (r: Self)
        ensures
            r@ == Seq::<T>::empty(),
            r.wf(),
    {
        Trail { samples: Vec::new() }
    }

    /// Number of samples held.
    pub fn len(&self) -> (r: usize)
        ensures
            r == self@.len(),
    {
        self.samples.len()
    }

    /// Whether no sample has been recorded yet.
    pub fn is_empty(&self) -> (r: bool)
        ensures
            r == (self@.len() == 0),
    {
        self.samples.len() == 0
    }

    /// The samples, oldest first.
    pub fn samples(&self) -> (r: &[T])
        ensures
            r@ == self@,
    {
        self.samples.as_slice()
    }

    /// Appends `sample`; once the trail is past capacity the oldest sample
    /// is removed, exactly one.
    pub fn push(&mut self, sample: T)
        requires
            old(self).wf(),
        ensures
            final(self)@ == push_bounded(old(self)@, sample),
            final(self).wf(),
    {
        self.samples.push(sample);
        if self.samples.len() > MAX_TRAIL_LENGTH {
            self.samples.remove(0);
        }
    }
}

/// Past capacity, appending a sample keeps exactly the most recent
/// `MAX_TRAIL_LENGTH` samples in chronological order: starting from any
/// valid trail `s`, appending `xs` one by one leaves the last
/// `MAX_TRAIL_LENGTH` elements of `s + xs`.
pub proof fn lemma_trail_keeps_latest<T>(s: Seq<T>, xs: Seq<T>)
    requires
        s.len() <= MAX_TRAIL_LENGTH,
    ensures
        push_all(s, xs) == latest(s + xs),
        s.len() + xs.len() >= MAX_TRAIL_LENGTH ==> push_all(s, xs).len() == MAX_TRAIL_LENGTH,
    decreases xs.len(),
{
    if xs.len() == 0 {
        assert(s + xs =~= s);
    } else {
        let s1 = push_bounded(s, xs[0]);
        lemma_trail_keeps_latest(s1, xs.drop_first());
        let all = s + xs;
        let all1 = s1 + xs.drop_first();
        if s.len() + 1 > MAX_TRAIL_LENGTH {
            assert(all1 =~= all.drop_first());
        } else {
            assert(all1 =~= all);
        }
    }
}

} // verus!
