use vstd::prelude::*;
use crate::registry::{Body, Registry};

verus! {

/// The bodies whose pull is added into the force on body `i` among `count`
/// bodies: every other index, ascending, each once, and never `i` itself.
pub open spec fn partners_of(count: nat, i: nat) -> Seq<usize> {
    Seq::new((count - 1) as nat, |k: int| (if k < i { k } else { k + 1 }) as usize)
}

/// The indices `j != i` whose force on body `i` is accumulated in one step,
/// in ascending order. The pair `(i, i)` is never visited, so no body pulls
/// on itself.
pub fn force_partners(count: usize, i: usize) -> (r: Vec<usize>)
    requires
        i < count,
    ensures
        r@ == partners_of(count as nat, i as nat),
        !r@.contains(i),
        forall|j: usize| j < count && j != i ==> r@.contains(j),
{
    let mut r: Vec<usize> = Vec::new();
    let mut j: usize = 0;
    while j < count
        invariant
            i < count,
            j <= count,
            r@ == partners_of(count as nat, i as nat).subrange(0, if j <= i { j as int } else { j - 1 }),
        decreases count - j,
    {
        if j != i {
            r.push(j);
        }
        j = j + 1;
        assert(r@ =~= partners_of(count as nat, i as nat).subrange(0, if j <= i { j as int } else { j - 1 }));
    }
    let ghost p = partners_of(count as nat, i as nat);
    assert(r@ =~= p);
    assert forall|j: usize| j < count && j != i implies r@.contains(j) by {
        let k: int = if j < i { j as int } else { j - 1 };
        assert(r@[k] == j);
    }
    assert(!r@.contains(i)) by {
        if r@.contains(i) {
            let k = choose|k: int| 0 <= k < r@.len() && r@[k] == i;
            assert(r@[k] == p[k]);
        }
    }
    r
}

/// The position of each body, in index order.
pub open spec fn positions_of<V, M, C>(s: Seq<Body<V, M, C>>) -> Seq<V> {
    s.map_values(|b: Body<V, M, C>| b.position)
}

/// The mass of each body, in index order.
pub open spec fn masses_of<V, M, C>(s: Seq<Body<V, M, C>>) -> Seq<M> {
    s.map_values(|b: Body<V, M, C>| b.mass)
}

/// `partial` and `pulls` witness that the force on body `i` is the fold,
/// by `sum` from `zero`, of the pull of each partner `js[k]` on `i`, every
/// pull computed from the positions `pos` and masses `ms`.
pub open spec fn accumulates<V, M, P: Fn(V, M, V, M) -> V, A: Fn(V, V) -> V>(
    pull: P,
    sum: A,
    zero: V,
    pos: Seq<V>,
    ms: Seq<M>,
    i: int,
    js: Seq<usize>,
    partial: Seq<V>,
    pulls: Seq<V>,
) -> bool {
    &&& partial.len() == js.len() + 1
    &&& pulls.len() == js.len()
    &&& partial[0] == zero
    &&& forall|k: int|
        0 <= k < js.len() ==> pull.ensures((pos[i], ms[i], pos[js[k] as int], ms[js[k] as int]), #[trigger] pulls[k])
            && sum.ensures((partial[k], pulls[k]), partial[k + 1])
}

/// `after` is `before` advanced by one step of the host's arithmetic,
/// `forces[i]` being the force on body `i`, added up by the running sums
/// `sums[i]` from the pulls `pulls[i]` of its partners.
pub open spec fn stepped<V, M, C, P, A, K, D>(
    pull: P,
    sum: A,
    zero: V,
    kick: K,
    drift: D,
    before: Seq<Body<V, M, C>>,
    after: Seq<Body<V, M, C>>,
    forces: Seq<V>,
    sums: Seq<Seq<V>>,
    pulls: Seq<Seq<V>>,
) -> bool where
    P: Fn(V, M, V, M) -> V,
    A: Fn(V, V) -> V,
    K: Fn(V, M, V) -> (V, V),
    D: Fn(V, V) -> V,
 {
    &&& after.len() == before.len()
    &&& forces.len() == before.len()
    &&& sums.len() == before.len()
    &&& pulls.len() == before.len()
    &&& forall|i: int|
        0 <= i < before.len() ==> {
            let b = before[i];
            let nb = #[trigger] after[i];
            &&& accumulates(pull, sum, zero, positions_of(before), masses_of(before), i, partners_of(before.len(), i as nat), sums[i], pulls[i])
            &&& sums[i].last() == forces[i]
            &&& kick.ensures((forces[i], b.mass, b.velocity), (nb.acceleration, nb.velocity))
            &&& drift.ensures((b.position, nb.velocity), nb.position)
            &&& nb.mass == b.mass
            &&& nb.color == b.color
        }
}

/// Advances every body by one time step, with the host's arithmetic:
/// `pull(p_i, m_i, p_j, m_j)` is the force of body `j` on body `i`, `sum`
/// sums forces from `zero`, `kick(force, mass, velocity)` gives the
/// acceleration and the new velocity, and `drift(position, velocity)` the
/// new position.
///
/// The three phases are strictly ordered: every force is computed from the
/// positions before the step, then every acceleration and velocity from
/// that force and the velocity before the step, then every position from
/// the new velocity. Masses, colours and the set of bodies do not change.
/// Returns the force on each body, with the running sums and the pulls
/// that each was added up from.
pub fn step<V: Copy, M: Copy, C: Copy, P, A, K, D>(
    bodies: &mut Registry<V, M, C>,
    zero: V,
    pull: P,
    sum: A,
    kick: K,
    drift: D,
) -> (r: (Vec<V>, Ghost<(Seq<Seq<V>>, Seq<Seq<V>>)>)) where
    P: Fn(V, M, V, M) -> V,
    A: Fn(V, V) -> V,
    K: Fn(V, M, V) -> (V, V),
    D: Fn(V, V) -> V,

    requires
        forall|pi: V, mi: M, pj: V, mj: M| pull.requires((pi, mi, pj, mj)),
        forall|x: V, y: V| sum.requires((x, y)),
        forall|f: V, m: M, v: V| kick.requires((f, m, v)),
        forall|p: V, v: V| drift.requires((p, v)),
    ensures
        stepped(pull, sum, zero, kick, drift, old(bodies)@, final(bodies)@, r.0@, r.1@.0, r.1@.1),
{
    let n = bodies.len();
    let pos = bodies.positions();
    let ghost ms = masses_of(bodies@);
    let ghost start = bodies@;
    let mut forces: Vec<V> = Vec::new();
    let ghost mut sums_of: Seq<Seq<V>> = Seq::empty();
    let ghost mut pulls_of: Seq<Seq<V>> = Seq::empty();
    let mut i: usize = 0;
    while i < n
        invariant
            n == bodies@.len(),
            bodies@ == start,
            pos@ == positions_of(start),
            ms == masses_of(start),
            i <= n,
            forces@.len() == i,
            forall|pi: V, mi: M, pj: V, mj: M| pull.requires((pi, mi, pj, mj)),
            forall|x: V, y: V| sum.requires((x, y)),
            forall|k: int| 0 <= k < i ==> accumulates(pull, sum, zero, pos@, ms, k, partners_of(n as nat, k as nat), #[trigger] sums_of[k], pulls_of[k]),
            forall|k: int| 0 <= k < i ==> (#[trigger] sums_of[k]).last() == forces@[k],
            sums_of.len() == i,
            pulls_of.len() == i,
        decreases n - i,
    {
        let js = force_partners(n, i);
        let (_, _, _, m_i) = bodies.get_state(i);
        let mut f = zero;
        let ghost mut partial: Seq<V> = seq![zero];
        let ghost mut pulls: Seq<V> = Seq::empty();
        let mut k: usize = 0;
        while k < js.len()
            invariant
                n == bodies@.len(),
                bodies@ == start,
                pos@ == positions_of(start),
                ms == masses_of(start),
                i < n,
                m_i == ms[i as int],
                js@ == partners_of(n as nat, i as nat),
                k <= js@.len(),
                forall|pi: V, mi: M, pj: V, mj: M| pull.requires((pi, mi, pj, mj)),
                forall|x: V, y: V| sum.requires((x, y)),
                accumulates(pull, sum, zero, pos@, ms, i as int, js@.subrange(0, k as int), partial, pulls),
                partial.last() == f,
                forces@.len() == i,
                forall|k: int| 0 <= k < i ==> accumulates(pull, sum, zero, pos@, ms, k, partners_of(n as nat, k as nat), #[trigger] sums_of[k], pulls_of[k]),
                forall|k: int| 0 <= k < i ==> (#[trigger] sums_of[k]).last() == forces@[k],
                sums_of.len() == i,
                pulls_of.len() == i,
            decreases js@.len() - k,
        {
            let j = js[k];
            let (_, _, _, m_j) = bodies.get_state(j);
            let p = pull(pos[i], m_i, pos[j], m_j);
            let nf = sum(f, p);
            proof {
                let ghost old_partial = partial;
                let ghost old_pulls = pulls;
                partial = partial.push(nf);
                pulls = pulls.push(p);
                assert forall|q: int| 0 <= q < k + 1 implies pull.ensures(
                    (pos@[i as int], ms[i as int], pos@[js@.subrange(0, k + 1)[q] as int], ms[js@.subrange(0, k + 1)[q] as int]),
                    #[trigger] pulls[q],
                ) && sum.ensures((partial[q], pulls[q]), partial[q + 1]) by {
                    if q < k {
                        assert(js@.subrange(0, k + 1)[q] == js@.subrange(0, k as int)[q]);
                        assert(pulls[q] == old_pulls[q]);
                        assert(partial[q] == old_partial[q]);
                        assert(partial[q + 1] == old_partial[q + 1]);
                    } else {
                        assert(js@.subrange(0, k + 1)[q] == j);
                    }
                }
            }
            f = nf;
            k = k + 1;
        }
        proof {
            assert(js@.subrange(0, js@.len() as int) =~= js@);
            assert(pos@.len() == n);
            assert(accumulates(pull, sum, zero, pos@, ms, i as int, partners_of(pos@.len(), i as nat), partial, pulls));
        }
        forces.push(f);
        proof {
            let ghost old_sums = sums_of;
            let ghost old_pulls = pulls_of;
            sums_of = sums_of.push(partial);
            pulls_of = pulls_of.push(pulls);
            assert forall|k: int| 0 <= k < i + 1 implies accumulates(pull, sum, zero, pos@, ms, k, partners_of(n as nat, k as nat), #[trigger] sums_of[k], pulls_of[k])
                && sums_of[k].last() == forces@[k] by {
                if k < i {
                    assert(sums_of[k] == old_sums[k]);
                    assert(pulls_of[k] == old_pulls[k]);
                }
            }
        }
        i = i + 1;
    }
    i = 0;
    while i < n
        invariant
            n == bodies@.len(),
            n == start.len(),
            forces@.len() == n,
            i <= n,
            forall|f: V, m: M, v: V| kick.requires((f, m, v)),
            forall|k: int| 0 <= k < i ==> {
                let b = start[k];
                let nb = #[trigger] bodies@[k];
                &&& kick.ensures((forces@[k], b.mass, b.velocity), (nb.acceleration, nb.velocity))
                &&& nb.position == b.position
                &&& nb.mass == b.mass
                &&& nb.color == b.color
            },
            forall|k: int| i <= k < n ==> #[trigger] bodies@[k] == start[k],
        decreases n - i,
    {
        let (_, v, _, m) = bodies.get_state(i);
        let (a, nv) = kick(forces[i], m, v);
        bodies.set_acceleration(i, a);
        bodies.set_velocity(i, nv);
        i = i + 1;
    }
    let ghost kicked = bodies@;
    i = 0;
    while i < n
        invariant
            n == bodies@.len(),
            n == start.len(),
            n == kicked.len(),
            forces@.len() == n,
            i <= n,
            forall|p: V, v: V| drift.requires((p, v)),
            forall|k: int| 0 <= k < n ==> {
                let b = start[k];
                let nb = #[trigger] kicked[k];
                &&& kick.ensures((forces@[k], b.mass, b.velocity), (nb.acceleration, nb.velocity))
                &&& nb.position == b.position
                &&& nb.mass == b.mass
                &&& nb.color == b.color
            },
            forall|k: int| 0 <= k < i ==> {
                let kb = kicked[k];
                let nb = #[trigger] bodies@[k];
                &&& drift.ensures((kb.position, kb.velocity), nb.position)
                &&& nb.velocity == kb.velocity
                &&& nb.acceleration == kb.acceleration
                &&& nb.mass == kb.mass
                &&& nb.color == kb.color
            },
            forall|k: int| i <= k < n ==> #[trigger] bodies@[k] == kicked[k],
        decreases n - i,
    {
        let (p, v, _, _) = bodies.get_state(i);
        let np = drift(p, v);
        bodies.set_position(i, np);
        i = i + 1;
    }
    proof {
        assert forall|k: int| 0 <= k < n implies {
            let b = start[k];
            let nb = #[trigger] bodies@[k];
            &&& drift.ensures((b.position, nb.velocity), nb.position)
            &&& kick.ensures((forces@[k], b.mass, b.velocity), (nb.acceleration, nb.velocity))
        } by {
            assert(kicked[k].velocity == bodies@[k].velocity);
        }
    }
    (forces, Ghost((sums_of, pulls_of)))
}

/// `f` gives one result for each argument.
pub open spec fn deterministic2<X, Y, R, F: Fn(X, Y) -> R>(f: F) -> bool {
    forall|x: X, y: Y, r1: R, r2: R| #[trigger] f.ensures((x, y), r1) && #[trigger] f.ensures((x, y), r2) ==> r1 == r2
}

/// `f` gives one result for each argument.
pub open spec fn deterministic3<X, Y, Z, R, F: Fn(X, Y, Z) -> R>(f: F) -> bool {
    forall|x: X, y: Y, z: Z, r1: R, r2: R| #[trigger] f.ensures((x, y, z), r1) && #[trigger] f.ensures((x, y, z), r2) ==> r1 == r2
}

/// `f` gives one result for each argument.
pub open spec fn deterministic4<X, Y, Z, W, R, F: Fn(X, Y, Z, W) -> R>(f: F) -> bool {
    forall|x: X, y: Y, z: Z, w: W, r1: R, r2: R|
        #[trigger] f.ensures((x, y, z, w), r1) && #[trigger] f.ensures((x, y, z, w), r2) ==> r1 == r2
}

proof fn lemma_accumulates_unique<V, M, P: Fn(V, M, V, M) -> V, A: Fn(V, V) -> V>(
    pull: P,
    sum: A,
    zero: V,
    pos: Seq<V>,
    ms: Seq<M>,
    i: int,
    js: Seq<usize>,
    s1: Seq<V>,
    p1: Seq<V>,
    s2: Seq<V>,
    p2: Seq<V>,
    k: int,
)
    requires
        deterministic4(pull),
        deterministic2(sum),
        accumulates(pull, sum, zero, pos, ms, i, js, s1, p1),
        accumulates(pull, sum, zero, pos, ms, i, js, s2, p2),
        0 <= k <= js.len(),
    ensures
        s1.subrange(0, k + 1) == s2.subrange(0, k + 1),
    decreases k,
{
    if k > 0 {
        lemma_accumulates_unique(pull, sum, zero, pos, ms, i, js, s1, p1, s2, p2, k - 1);
        assert(s1.subrange(0, k) =~= s1.subrange(0, k + 1).drop_last());
        assert(s2.subrange(0, k) =~= s2.subrange(0, k + 1).drop_last());
        assert(s1[k - 1] == s1.subrange(0, k)[k - 1]);
        assert(s2[k - 1] == s2.subrange(0, k)[k - 1]);
        assert(p1[k - 1] == p2[k - 1]);
        assert(s1[k] == s2[k]);
        assert(s1.subrange(0, k + 1) =~= s2.subrange(0, k + 1));
    } else {
        assert(s1.subrange(0, 1) =~= s2.subrange(0, 1));
    }
}

/// A step is replayed exactly: from the same bodies, with host arithmetic
/// that gives one result for each argument, two steps reach the same
/// bodies and the same forces.
pub proof fn lemma_step_replays<V, M, C, P, A, K, D>(
    pull: P,
    sum: A,
    zero: V,
    kick: K,
    drift: D,
    before: Seq<Body<V, M, C>>,
    after1: Seq<Body<V, M, C>>,
    forces1: Seq<V>,
    sums1: Seq<Seq<V>>,
    pulls1: Seq<Seq<V>>,
    after2: Seq<Body<V, M, C>>,
    forces2: Seq<V>,
    sums2: Seq<Seq<V>>,
    pulls2: Seq<Seq<V>>,
) where
    P: Fn(V, M, V, M) -> V,
    A: Fn(V, V) -> V,
    K: Fn(V, M, V) -> (V, V),
    D: Fn(V, V) -> V,

    requires
        deterministic4(pull),
        deterministic2(sum),
        deterministic3(kick),
        deterministic2(drift),
        stepped(pull, sum, zero, kick, drift, before, after1, forces1, sums1, pulls1),
        stepped(pull, sum, zero, kick, drift, before, after2, forces2, sums2, pulls2),
    ensures
        after1 == after2,
        forces1 == forces2,
{
    assert forall|i: int| 0 <= i < before.len() implies #[trigger] forces1[i] == forces2[i] && after1[i] == after2[i] by {
        let js = partners_of(before.len(), i as nat);
        let b = before[i];
        let x1 = after1[i];
        let x2 = after2[i];
        lemma_accumulates_unique(pull, sum, zero, positions_of(before), masses_of(before), i, js, sums1[i], pulls1[i], sums2[i], pulls2[i], js.len() as int);
        assert(sums1[i] =~= sums1[i].subrange(0, js.len() as int + 1));
        assert(sums2[i] =~= sums2[i].subrange(0, js.len() as int + 1));
        assert(forces1[i] == forces2[i]);
        assert(kick.ensures((forces1[i], b.mass, b.velocity), (x1.acceleration, x1.velocity)));
        assert(kick.ensures((forces1[i], b.mass, b.velocity), (x2.acceleration, x2.velocity)));
        assert(x1.velocity == x2.velocity);
        assert(drift.ensures((b.position, x1.velocity), x1.position));
        assert(drift.ensures((b.position, x1.velocity), x2.position));
    }
    assert(after1 =~= after2);
    assert(forces1 =~= forces2);
}

/// Index `k` under the relabelling that exchanges the labels `a` and `b`.
pub open spec fn swapped(k: nat, a: nat, b: nat) -> nat {
    if k == a {
        b
    } else if k == b {
        a
    } else {
        k
    }
}

proof fn lemma_partners_contains(count: nat, i: nat, j: usize)
    requires
        count <= usize::MAX,
        i < count,
    ensures
        partners_of(count, i).contains(j) <==> (j < count && j != i),
{
    let p = partners_of(count, i);
    if j < count && j != i {
        let k: int = if j < i { j as int } else { j - 1 };
        assert(p[k] == j);
    }
    if p.contains(j) {
        let k = choose|k: int| 0 <= k < p.len() && p[k] == j;
        assert(p[k] == j);
    }
}

/// Which pairs a step visits does not depend on how the bodies are
/// labelled: with the labels `a` and `b` exchanged, the partners of the
/// relabelled body `i` are exactly the relabelled partners of `i`, and
/// there are as many of them.
pub proof fn lemma_partners_relabel(count: nat, i: nat, a: nat, b: nat)
    requires
        count <= usize::MAX,
        i < count,
        a < count,
        b < count,
    ensures
        partners_of(count, swapped(i, a, b)).len() == partners_of(count, i).len(),
        forall|j: usize| #![auto]
            j < count ==> (partners_of(count, swapped(i, a, b)).contains(j) <==> partners_of(
                count,
                i,
            ).contains(swapped(j as nat, a, b) as usize)),
{
    assert forall|j: usize| #![auto]
        j < count implies (partners_of(count, swapped(i, a, b)).contains(j) <==> partners_of(
            count,
            i,
        ).contains(swapped(j as nat, a, b) as usize)) by {
        lemma_partners_contains(count, swapped(i, a, b), j);
        lemma_partners_contains(count, i, swapped(j as nat, a, b) as usize);
    }
}

} // verus!
