use particle_sim::num::BOUND;
use particle_sim::particle::{Config, Particle};
use particle_sim::vec2::Vec2;
use particle_sim::world::World;

fn particle(px: i64, py: i64, vx: i64, vy: i64, mass: i64) -> Particle {
    Particle::with_state(
        Vec2 { x: px, y: py },
        Vec2 { x: vx, y: vy },
        Vec2 { x: 0, y: 0 },
        mass,
    )
    .unwrap()
}

#[test]
fn sampled_world_is_in_configured_ranges() {
    let cfg = Config::default();
    let w = World::new(&cfg, 30);
    assert_eq!(w.particles.len(), 30);
    assert_eq!(w.width, cfg.width);
    assert_eq!(w.height, cfg.height);
    for p in &w.particles {
        assert!(p.mass >= cfg.mass_low && p.mass < cfg.mass_high);
        assert_eq!(p.radius, 3 * p.mass);
        assert!(p.pos.x >= 0 && p.pos.x < cfg.width);
        assert!(p.pos.y >= 0 && p.pos.y < cfg.height);
    }
}

#[test]
fn from_particles_rejects_bad_bounds() {
    let ps = vec![particle(100_000, 100_000, 0, 0, 2000)];
    assert!(World::from_particles(ps.clone(), 0, 600_000).is_none());
    assert!(World::from_particles(ps.clone(), 800_000, -3).is_none());
    assert!(World::from_particles(ps.clone(), BOUND + 1, 600_000).is_none());
    assert!(World::from_particles(ps, 800_000, 600_000).is_some());
}

#[test]
fn from_particles_rejects_malformed_particle() {
    let bad = Particle {
        pos: Vec2 { x: 0, y: 0 },
        vel: Vec2 { x: 0, y: 0 },
        acc: Vec2 { x: 0, y: 0 },
        radius: 6000,
        mass: -1,
    };
    assert!(World::from_particles(vec![bad], 800_000, 600_000).is_none());
}

#[test]
fn tick_keeps_the_population() {
    let cfg = Config::default();
    let mut w = World::new(&cfg, 10);
    let masses: Vec<i64> = w.particles.iter().map(|p| p.mass).collect();
    let radii: Vec<i64> = w.particles.iter().map(|p| p.radius).collect();
    w.tick();
    assert_eq!(w.particles.len(), 10);
    // Radii and masses are fixed at creation; a tick never touches them.
    for (i, p) in w.particles.iter().enumerate() {
        assert_eq!(p.mass, masses[i]);
        assert_eq!(p.radius, radii[i]);
    }
}

#[test]
fn identical_worlds_stay_identical() {
    // The tick is a function of the state alone: two equal populations
    // stay equal, tick after tick.
    let ps = vec![
        particle(200_000, 300_000, 400, -250, 2500),
        particle(208_000, 301_000, -300, 150, 2200),
        particle(600_000, 100_000, 120, 480, 3900),
    ];
    let mut w1 = World::from_particles(ps.clone(), 800_000, 600_000).unwrap();
    let mut w2 = World::from_particles(ps, 800_000, 600_000).unwrap();
    for _ in 0..20 {
        w1.tick();
        w2.tick();
        assert_eq!(w1.particles, w2.particles);
    }
}

#[test]
fn lone_particle_just_integrates() {
    // No candidates and no wall contact: one tick is pure integration.
    let p = Particle::with_state(
        Vec2 { x: 400_000, y: 300_000 },
        Vec2 { x: 250, y: -125 },
        Vec2 { x: 40, y: 8 },
        2000,
    )
    .unwrap();
    let mut w = World::from_particles(vec![p], 800_000, 600_000).unwrap();
    w.tick();
    let q = w.particles[0];
    assert_eq!(q.vel.x, 290);
    assert_eq!(q.vel.y, -117);
    assert_eq!(q.pos.x, 400_290);
    assert_eq!(q.pos.y, 299_883);
    assert_eq!(q.acc.x, 0);
    assert_eq!(q.acc.y, 0);
}

#[test]
fn tick_reflects_at_the_wall_before_integrating() {
    // The edge response runs between collision resolution and
    // integration: the particle is first set onto the wall with its x
    // velocity mirrored, then moves one step with the mirrored velocity.
    let p = particle(795_000, 300_000, 600, 0, 2000);
    let mut w = World::from_particles(vec![p], 800_000, 600_000).unwrap();
    w.tick();
    let q = w.particles[0];
    assert_eq!(q.vel.x, -600);
    assert_eq!(q.pos.x, 793_400);
    assert_eq!(q.pos.y, 300_000);
}

#[test]
fn head_on_pair_exchanges_and_separates() {
    // Two bodies of mass 2, radius 6, ten units apart, closing at one
    // unit per tick each.  One tick resolves the pair twice, once from
    // each side: the first visit halves the closing speeds, the second
    // (the pair still touches after correction) halves them again, and
    // both corrections push the centers apart.
    let a = particle(300_000, 300_000, 1000, 0, 2000);
    let b = particle(310_000, 300_000, -1000, 0, 2000);
    let mut w = World::from_particles(vec![a, b], 800_000, 600_000).unwrap();
    w.tick();
    let (a1, b1) = (w.particles[0], w.particles[1]);
    assert_eq!(a1.vel.x, 250);
    assert_eq!(b1.vel.x, -250);
    assert_eq!(a1.pos.x, 299_250);
    assert_eq!(b1.pos.x, 311_000);
    assert_eq!(a1.pos.y, 300_000);
    assert_eq!(b1.pos.y, 300_000);
    // The centers ended farther apart than the ten units they started
    // at, even though the closing speeds decay instead of flipping.
    assert!(b1.pos.x - a1.pos.x > 10_000);
}
