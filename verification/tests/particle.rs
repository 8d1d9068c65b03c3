use particle_sim::num::{floor_div, isqrt, BOUND};
use particle_sim::particle::{Config, Particle, HEIGHT, WIDTH};
use particle_sim::vec2::Vec2;

fn particle(px: i64, py: i64, vx: i64, vy: i64, ax: i64, ay: i64, mass: i64) -> Particle {
    Particle::with_state(Vec2::new(px, py), Vec2::new(vx, vy), Vec2::new(ax, ay), mass).unwrap()
}

#[test]
fn isqrt_exact_values() {
    assert_eq!(isqrt(0), 0);
    assert_eq!(isqrt(1), 1);
    assert_eq!(isqrt(143), 11);
    assert_eq!(isqrt(144), 12);
    assert_eq!(isqrt(132250000), 11500);
    assert_eq!(isqrt(u64::MAX), 4294967295);
}

#[test]
fn floor_div_rounds_down() {
    assert_eq!(floor_div(7, 2), 3);
    assert_eq!(floor_div(-7, 2), -4);
    assert_eq!(floor_div(-8, 2), -4);
    assert_eq!(floor_div(0, 5), 0);
}

#[test]
fn with_state_derives_radius() {
    let p = particle(100_000, 200_000, 300, -400, 7, 11, 2000);
    assert_eq!(p.radius, 6000);
    assert_eq!(p.mass, 2000);
}

#[test]
fn with_state_rejects_bad_values() {
    let zero = Vec2 { x: 0, y: 0 };
    assert!(Particle::with_state(zero, zero, zero, 0).is_none());
    assert!(Particle::with_state(zero, zero, zero, -5).is_none());
    // The derived radius of a huge mass would leave the stored range.
    assert!(Particle::with_state(zero, zero, zero, BOUND).is_none());
    let far = Vec2 { x: BOUND + 1, y: 0 };
    assert!(Particle::with_state(far, zero, zero, 2000).is_none());
}

#[test]
fn edge_reflects_leading_x() {
    // Leading x edge crossed: the particle sits on the wall, the x speed
    // is preserved with flipped direction, and the y axis is untouched.
    let mut p = particle(796_000, 300_000, 500, 123, 0, 0, 2000);
    p.check_edge_collision(WIDTH, HEIGHT);
    assert_eq!(p.pos.x, WIDTH - 6000);
    assert_eq!(p.vel.x, -500);
    assert_eq!(p.pos.y, 300_000);
    assert_eq!(p.vel.y, 123);
}

#[test]
fn edge_reflects_trailing_x() {
    let mut p = particle(2_000, 300_000, -500, 0, 0, 0, 2000);
    p.check_edge_collision(WIDTH, HEIGHT);
    assert_eq!(p.pos.x, 6000);
    assert_eq!(p.vel.x, 500);
    assert_eq!(p.pos.y, 300_000);
}

#[test]
fn edge_corner_reflects_both_axes() {
    let mut p = particle(798_000, 2_000, 400, -300, 0, 0, 2000);
    p.check_edge_collision(WIDTH, HEIGHT);
    assert_eq!(p.pos.x, WIDTH - 6000);
    assert_eq!(p.vel.x, -400);
    assert_eq!(p.pos.y, 6000);
    assert_eq!(p.vel.y, 300);
}

#[test]
fn edge_inside_is_untouched() {
    let mut p = particle(400_000, 300_000, 500, -500, 9, 9, 2000);
    let before = p;
    p.check_edge_collision(WIDTH, HEIGHT);
    assert_eq!(p, before);
}

#[test]
fn integration_is_exact() {
    // vel' = vel + acc, pos' = pos + vel', acc' = 0, exactly.
    let mut p = particle(100_000, 200_000, 300, -400, 7, 11, 2000);
    p.integrate();
    assert_eq!(p.vel.x, 307);
    assert_eq!(p.vel.y, -389);
    assert_eq!(p.pos.x, 100_307);
    assert_eq!(p.pos.y, 199_611);
    assert_eq!(p.acc.x, 0);
    assert_eq!(p.acc.y, 0);
    assert_eq!(p.radius, 6000);
    assert_eq!(p.mass, 2000);
}

#[test]
fn integration_saturates_at_bound() {
    // An exact result beyond the stored range is clamped onto it.
    let mut p = particle(0, 0, BOUND, 0, BOUND, 0, 2000);
    p.integrate();
    assert_eq!(p.vel.x, BOUND);
    assert_eq!(p.pos.x, BOUND);
}

#[test]
fn sampled_particle_is_in_configured_ranges() {
    let cfg = Config::default();
    let p = Particle::new(&cfg);
    assert!(p.mass >= cfg.mass_low && p.mass < cfg.mass_high);
    assert_eq!(p.radius, 3 * p.mass);
    assert!(p.pos.x >= 0 && p.pos.x < cfg.width);
    assert!(p.pos.y >= 0 && p.pos.y < cfg.height);
    assert!(p.vel.x >= -cfg.vel_range && p.vel.x < cfg.vel_range);
    assert!(p.vel.y >= -cfg.vel_range && p.vel.y < cfg.vel_range);
    assert!(p.acc.x >= -cfg.acc_range && p.acc.x < cfg.acc_range);
    assert!(p.acc.y >= -cfg.acc_range && p.acc.y < cfg.acc_range);
}
