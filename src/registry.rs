use vstd::prelude::*;

verus! {

/// One simulated point mass: `V` is the host's vector type, `M` its scalar
/// for masses and `C` the colour tag that only the renderer reads.
#[derive(Clone, Copy)]
pub struct Body<V, M, C> {
    pub mass: M,
    pub position: V,
    pub velocity: V,
    pub acceleration: V,
    pub color: C,
}

/// The authoritative state of every body. The set of bodies is fixed when
/// the registry is made: nothing is inserted or removed afterwards, and a
/// body's index is its identity for the whole run. Mass and colour are
/// never written after creation.
pub struct Registry<V, M, C> {
    bodies: Vec<Body<V, M, C>>,
}

impl<V, M, C> View for Registry<V, M, C> {
    type V = Seq<Body<V, M, C>>;

    closed spec fn view(&self) -> Seq<Body<V, M, C>> {
        self.bodies@
    }
}

impl<V: Copy, M: Copy, C: Copy> Registry<V, M, C> {
    /// A registry holding `bodies`, in that order.
    pub fn new(bodies: Vec<Body<V, M, C>>) -> (r: Self)
        ensures
            r@ == bodies@,
    {
        Registry { bodies }
    }

    /// Number of bodies.
    pub fn len(&self) -> (r: usize)
        ensures
            r == self@.len(),
    {
        self.bodies.len()
    }

    /// Whether the registry holds no body.
    pub fn is_empty(&self) -> (r: bool)
        ensures
            r == (self@.len() == 0),
    {
        self.bodies.len() == 0
    }

    /// Body `i` as it stands.
    pub fn body(&self, i: usize) -> (r: Body<V, M, C>)
        requires
            i < self@.len(),
        ensures
            r == self@[i as int],
    {
        self.bodies[i]
    }

    /// Position, velocity, acceleration and mass of body `i`.
    pub fn get_state(&self, i: usize) -> (r: (V, V, V, M))
        requires
            i < self@.len(),
        ensures
            r == (self@[i as int].position, self@[i as int].velocity, self@[i as int].acceleration, self@[i as int].mass),
    {
        let b = self.bodies[i];
        (b.position, b.velocity, b.acceleration, b.mass)
    }

    /// Colour tag of body `i`.
    pub fn color(&self, i: usize) -> (r: C)
        requires
            i < self@.len(),
        ensures
            r == self@[i as int].color,
    {
        self.bodies[i].color
    }

    /// Overwrites the velocity of body `i`; nothing else changes.
    pub fn set_velocity(&mut self, i: usize, v: V)
        requires
            i < old(self)@.len(),
        ensures
            final(self)@ == old(self)@.update(i as int, Body { velocity: v, ..old(self)@[i as int] }),
    {
        let mut b = self.bodies[i];
        b.velocity = v;
        self.bodies.set(i, b);
    }

    /// Overwrites the position of body `i`; nothing else changes.
    pub fn set_position(&mut self, i: usize, p: V)
        requires
            i < old(self)@.len(),
        ensures
            final(self)@ == old(self)@.update(i as int, Body { position: p, ..old(self)@[i as int] }),
    {
        let mut b = self.bodies[i];
        b.position = p;
        self.bodies.set(i, b);
    }

    /// Overwrites the acceleration of body `i`; nothing else changes.
    pub fn set_acceleration(&mut self, i: usize, a: V)
        requires
            i < old(self)@.len(),
        ensures
            final(self)@ == old(self)@.update(i as int, Body { acceleration: a, ..old(self)@[i as int] }),
    {
        let mut b = self.bodies[i];
        b.acceleration = a;
        self.bodies.set(i, b);
    }

    /// A snapshot of every body's position, in index order.
    pub fn positions(&self) -> (r: Vec<V>)
        ensures
            r@ == self@.map_values(|b: Body<V, M, C>| b.position),
    {
        let mut r: Vec<V> = Vec::new();
        let mut k: usize = 0;
        while k < self.bodies.len()
            invariant
                k <= self@.len(),
                r@ == self@.subrange(0, k as int).map_values(|b: Body<V, M, C>| b.position),
            decreases self@.len() - k,
        {
            r.push(self.bodies[k].position);
            k = k + 1;
            assert(self@.subrange(0, k as int).map_values(|b: Body<V, M, C>| b.position)
                =~= self@.subrange(0, k - 1).map_values(|b: Body<V, M, C>| b.position).push(self@[k - 1].position));
        }
        assert(self@.subrange(0, k as int) =~= self@);
        r
    }
}

} // verus!
