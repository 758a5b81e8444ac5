use newton_gravity::integrator;
use newton_gravity::registry::{Body, Registry};

// The physics arithmetic belongs to the host; these tests pass the library's
// step driver a reference f64 implementation of it (G = 1).

type V = (f64, f64);
type Bodies = Registry<V, f64, u8>;

fn body(mass: f64, p: V, v: V) -> Body<V, f64, u8> {
    Body { mass, position: p, velocity: v, acceleration: (0.0, 0.0), color: 0 }
}

/// One step of the library's driver, with the host arithmetic in f64.
fn step(r: &mut Bodies, g: f64, dt: f64) -> Vec<V> {
    let pull = |pi: V, mi: f64, pj: V, mj: f64| {
        let dx = pj.0 - pi.0;
        let dy = pj.1 - pi.1;
        let d = (dx * dx + dy * dy).sqrt();
        let m = g * mi * mj / (d * d);
        (dx / d * m, dy / d * m)
    };
    let sum = |a: V, b: V| (a.0 + b.0, a.1 + b.1);
    let kick = |f: V, m: f64, v: V| {
        let a = (f.0 / m, f.1 / m);
        (a, (v.0 + a.0 * dt, v.1 + a.1 * dt))
    };
    let drift = |p: V, v: V| (p.0 + v.0 * dt, p.1 + v.1 * dt);
    let (forces, _) = integrator::step(r, (0.0, 0.0), pull, sum, kick, drift);
    forces
}

fn three_bodies() -> Vec<Body<V, f64, u8>> {
    vec![
        body(100.0, (0.0, 0.0), (0.0, 0.0)),
        body(1.0, (50.0, 0.0), (0.0, 1.4)),
        body(2.0, (0.0, -80.0), (1.1, 0.0)),
    ]
}

fn momentum(r: &Bodies) -> V {
    let mut p = (0.0, 0.0);
    for i in 0..r.len() {
        let (_, v, _, m) = r.get_state(i);
        p.0 += m * v.0;
        p.1 += m * v.1;
    }
    p
}

#[test]
fn total_force_is_near_zero() {
    let mut r = Registry::new(three_bodies());
    let f = step(&mut r, 1.0, 0.05);
    let sx: f64 = f.iter().map(|v| v.0).sum();
    let sy: f64 = f.iter().map(|v| v.1).sum();
    assert!(sx.abs() < 1e-12 && sy.abs() < 1e-12);
    assert!(f[0].0.abs() > 1e-3);
}

#[test]
fn step_keeps_masses_and_colors() {
    let mut r: Registry<V, f64, u8> = Registry::new(vec![
        Body { mass: 3.0, position: (0.0, 0.0), velocity: (0.0, 0.0), acceleration: (0.0, 0.0), color: 7 },
        Body { mass: 4.0, position: (5.0, 0.0), velocity: (0.0, 1.0), acceleration: (0.0, 0.0), color: 9 },
    ]);
    step(&mut r, 1.0, 0.1);
    assert_eq!(r.len(), 2);
    assert_eq!(r.body(0).mass, 3.0);
    assert_eq!(r.color(0), 7);
    assert_eq!(r.body(1).mass, 4.0);
    assert_eq!(r.color(1), 9);
}

#[test]
fn momentum_is_conserved() {
    let mut r = Registry::new(three_bodies());
    let p0 = momentum(&r);
    for _ in 0..2000 {
        step(&mut r, 1.0, 0.05);
    }
    let p1 = momentum(&r);
    assert!((p1.0 - p0.0).abs() < 1e-9 && (p1.1 - p0.1).abs() < 1e-9);
}

#[test]
fn step_order_is_semi_implicit() {
    let mut r = Registry::new(vec![body(10.0, (0.0, 0.0), (0.0, 0.0)), body(1.0, (10.0, 0.0), (0.0, 0.0))]);
    let f = step(&mut r, 1.0, 1.0);
    assert!((f[0].0 - 0.1).abs() < 1e-12 && (f[1].0 + 0.1).abs() < 1e-12);
    let close = |x: V, y: V| (x.0 - y.0).abs() < 1e-12 && (x.1 - y.1).abs() < 1e-12;
    let (p, v, a, m) = r.get_state(1);
    assert_eq!(m, 1.0);
    assert!(close(a, (-0.1, 0.0)));
    assert!(close(v, (-0.1, 0.0)));
    assert!(close(p, (9.9, 0.0)));
    let (p0, v0, a0, m0) = r.get_state(0);
    assert_eq!(m0, 10.0);
    assert!(close(a0, (0.01, 0.0)));
    assert!(close(v0, (0.01, 0.0)));
    assert!(close(p0, (0.01, 0.0)));
}

#[test]
fn circular_orbit_stays_at_radius() {
    let (g, m_c, radius) = (1.0, 1000.0, 100.0);
    let v = (g * m_c / radius as f64).sqrt();
    let mut r = Registry::new(vec![body(m_c, (0.0, 0.0), (0.0, 0.0)), body(1e-9, (radius, 0.0), (0.0, v))]);
    let period = 2.0 * std::f64::consts::PI * radius / v;
    let dt = 0.01;
    let steps = (period / dt) as usize;
    for _ in 0..steps {
        step(&mut r, g, dt);
        let (pc, _, _, _) = r.get_state(0);
        let (ps, _, _, _) = r.get_state(1);
        let d = ((ps.0 - pc.0).powi(2) + (ps.1 - pc.1).powi(2)).sqrt();
        assert!((d - radius).abs() < 0.01 * radius);
    }
}

#[test]
fn relabeling_gives_same_trajectories() {
    let bodies = three_bodies();
    let mut a = Registry::new(bodies.clone());
    let mut b = Registry::new(vec![bodies[2], bodies[1], bodies[0]]);
    for _ in 0..500 {
        step(&mut a, 1.0, 0.05);
        step(&mut b, 1.0, 0.05);
    }
    for (i, j) in [(0, 2), (1, 1), (2, 0)] {
        let (pa, va, _, _) = a.get_state(i);
        let (pb, vb, _, _) = b.get_state(j);
        assert!((pa.0 - pb.0).abs() < 1e-6 && (pa.1 - pb.1).abs() < 1e-6);
        assert!((va.0 - vb.0).abs() < 1e-6 && (va.1 - vb.1).abs() < 1e-6);
    }
}

#[test]
fn replay_is_bit_identical() {
    let mut a = Registry::new(three_bodies());
    let mut b = Registry::new(three_bodies());
    for _ in 0..1000 {
        step(&mut a, 1.0, 0.05);
        step(&mut b, 1.0, 0.05);
    }
    for i in 0..3 {
        assert_eq!(a.get_state(i), b.get_state(i));
    }
}

#[test]
fn two_body_orbit_returns_after_one_period() {
    let g = 1.0;
    let v = (g * 10.0 / 100.0f64).sqrt();
    let mut r = Registry::new(vec![body(10.0, (0.0, 0.0), (0.0, 0.0)), body(1.0, (100.0, 0.0), (0.0, v))]);
    // Kepler period of the relative orbit, with mu = G * (10 + 1).
    let mu = g * 11.0;
    let a = 1.0 / (2.0 / 100.0 - v * v / mu);
    let period = 2.0 * std::f64::consts::PI * (a * a * a / mu).sqrt();
    let dt = 0.01;
    let steps = (period / dt).round() as usize;
    for _ in 0..steps {
        step(&mut r, g, dt);
    }
    let (pc, _, _, _) = r.get_state(0);
    let (ps, _, _, _) = r.get_state(1);
    let rel = (ps.0 - pc.0, ps.1 - pc.1);
    assert!((rel.0 - 100.0).abs() < 1.0 && rel.1.abs() < 1.0);
}
