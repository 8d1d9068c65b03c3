use vstd::prelude::*;
use crate::num::BOUND;
use crate::num::clamp;
use crate::num::clamped;
use crate::rng::sample_in;
use crate::vec2::Vec2;
use crate::vec2::Vec2Model;

verus! {

/// Viewport width of the default configuration, in thousandths.
pub const WIDTH: i64 = 800_000;

/// Viewport height of the default configuration, in thousandths.
pub const HEIGHT: i64 = 600_000;

/// Half-width of the symmetric range initial velocity components are
/// sampled from, in thousandths.
pub const VEL_RANGE: i64 = 500;

/// Half-width of the symmetric range initial acceleration components are
/// sampled from, in thousandths.
pub const ACC_RANGE: i64 = 500;

/// Lower bound of the mass sampling range, in thousandths.
pub const PARTICLE_MASS_LOWER: i64 = 2000;

/// Upper (excluded) bound of the mass sampling range, in thousandths.
pub const PARTICLE_MASS_HIGHER: i64 = 4000;

/// A particle's radius is this many times its mass.
pub const RADIUS_FACTOR: i64 = 3;

/// The ranges a [`World`](crate::world::World) is populated from.
///
/// All values are in thousandths of a world unit.
#[derive(Clone, Copy, PartialEq, Eq, Structural, Debug)]
pub struct Config {
    /// Viewport width; positions are sampled from `[0, width)`.
    pub width: i64,
    /// Viewport height; positions are sampled from `[0, height)`.
    pub height: i64,
    /// Velocity components are sampled from `[-vel_range, vel_range)`.
    pub vel_range: i64,
    /// Acceleration components are sampled from `[-acc_range, acc_range)`.
    pub acc_range: i64,
    /// Masses are sampled from `[mass_low, mass_high)`.
    pub mass_low: i64,
    /// Excluded upper bound of the mass range.
    pub mass_high: i64,
}

impl Config {
    /// All ranges are non-empty and small enough that every sampled
    /// particle is well formed.
    pub open spec fn wf(self) -> bool {
        &&& 0 < self.width <= BOUND
        &&& 0 < self.height <= BOUND
        &&& 0 < self.vel_range <= BOUND
        &&& 0 < self.acc_range <= BOUND
        &&& 0 < self.mass_low < self.mass_high
        &&& RADIUS_FACTOR * self.mass_high <= BOUND
    }
}

impl Default for Config {
    /// The default configuration: an 800 by 600 viewport, velocities
    /// and accelerations up to half a unit, masses between 2 and 4.
    fn default() -> (c: Config)
        ensures
            c == (Config {
                width: WIDTH,
                height: HEIGHT,
                vel_range: VEL_RANGE,
                acc_range: ACC_RANGE,
                mass_low: PARTICLE_MASS_LOWER,
                mass_high: PARTICLE_MASS_HIGHER,
            }),
            c.wf(),
    {
        Config {
            width: WIDTH,
            height: HEIGHT,
            vel_range: VEL_RANGE,
            acc_range: ACC_RANGE,
            mass_low: PARTICLE_MASS_LOWER,
            mass_high: PARTICLE_MASS_HIGHER,
        }
    }
}

/// A circular body: center position, per-tick velocity, accumulated
/// acceleration for the current tick, and its fixed radius and mass.
#[derive(Clone, Copy, PartialEq, Eq, Structural, Debug)]
pub struct Particle {
    pub pos: Vec2,
    pub vel: Vec2,
    pub acc: Vec2,
    pub radius: i64,
    pub mass: i64,
}

/// The mathematical value of a [`Particle`], over unbounded integers.
#[verifier::ext_equal]
pub struct ParticleModel {
    pub pos: Vec2Model,
    pub vel: Vec2Model,
    pub acc: Vec2Model,
    pub radius: int,
    pub mass: int,
}

impl ParticleModel {
    /// Position, velocity and acceleration lie in the stored range, and
    /// radius and mass are positive and bounded.
    pub open spec fn wf(self) -> bool {
        &&& self.pos.in_range()
        &&& self.vel.in_range()
        &&& self.acc.in_range()
        &&& 0 < self.radius <= BOUND as int
        &&& 0 < self.mass <= BOUND as int
    }
}

impl View for Particle {
    type V = ParticleModel;

    open spec fn view(&self) -> ParticleModel {
        ParticleModel {
            pos: self.pos@,
            vel: self.vel@,
            acc: self.acc@,
            radius: self.radius as int,
            mass: self.mass as int,
        }
    }
}

/// One axis of the edge response: if the leading edge `pos + radius`
/// crosses `limit`, the position is clamped so the edge sits on the wall
/// and the velocity component is mirrored; otherwise the same for the
/// trailing edge `pos - radius` against `0`; otherwise nothing changes.
pub open spec fn reflect_axis(pos: int, vel: int, radius: int, limit: int) -> (int, int) {
    if pos + radius > limit {
        (limit - radius, -vel)
    } else if pos - radius < 0 {
        (radius, -vel)
    } else {
        (pos, vel)
    }
}

/// The edge response of [`Particle::check_edge_collision`], both axes
/// checked independently.
pub open spec fn edge_reflected(p: ParticleModel, width: int, height: int) -> ParticleModel {
    let x = reflect_axis(p.pos.x, p.vel.x, p.radius, width);
    let y = reflect_axis(p.pos.y, p.vel.y, p.radius, height);
    ParticleModel {
        pos: Vec2Model { x: x.0, y: y.0 },
        vel: Vec2Model { x: x.1, y: y.1 },
        ..p
    }
}

/// One Euler step: the acceleration is folded into the velocity, the new
/// velocity into the position, and the acceleration is reset to zero.
/// Results are clamped to the stored range.
pub open spec fn integrated(p: ParticleModel) -> ParticleModel {
    let vx = clamped(p.vel.x + p.acc.x);
    let vy = clamped(p.vel.y + p.acc.y);
    ParticleModel {
        pos: Vec2Model { x: clamped(p.pos.x + vx), y: clamped(p.pos.y + vy) },
        vel: Vec2Model { x: vx, y: vy },
        acc: Vec2Model { x: 0, y: 0 },
        ..p
    }
}

impl Particle {
    /// A freshly sampled particle: mass uniform in
    /// `[mass_low, mass_high)`, radius three times the mass, position
    /// uniform in the viewport, velocity and acceleration components
    /// uniform in their symmetric ranges.
    pub fn new(cfg: &Config) -> (p: Particle)
        requires
            cfg.wf(),
        ensures
            p@.wf(),
            cfg.mass_low <= p@.mass < cfg.mass_high,
            p@.radius == RADIUS_FACTOR * p@.mass,
            0 <= p@.pos.x < cfg.width,
            0 <= p@.pos.y < cfg.height,
            -cfg.vel_range <= p@.vel.x < cfg.vel_range,
            -cfg.vel_range <= p@.vel.y < cfg.vel_range,
            -cfg.acc_range <= p@.acc.x < cfg.acc_range,
            -cfg.acc_range <= p@.acc.y < cfg.acc_range,
    {
        let mass = sample_in(cfg.mass_low, cfg.mass_high);
        let radius = RADIUS_FACTOR * mass;
        let pos = Vec2 { x: sample_in(0, cfg.width), y: sample_in(0, cfg.height) };
        let vel = Vec2 {
            x: sample_in(-cfg.vel_range, cfg.vel_range),
            y: sample_in(-cfg.vel_range, cfg.vel_range),
        };
        let acc = Vec2 {
            x: sample_in(-cfg.acc_range, cfg.acc_range),
            y: sample_in(-cfg.acc_range, cfg.acc_range),
        };
        Particle { pos, vel, acc, radius, mass }
    }

    /// A particle from explicit state, for deterministic setups; the
    /// radius is derived from the mass as always.  Returns `None` exactly
    /// when some value is outside the stored range.
    pub fn with_state(pos: Vec2, vel: Vec2, acc: Vec2, mass: i64) -> (r: Option<Particle>)
        ensures
            match r {
                Some(p) => {
                    &&& pos@.in_range()
                    &&& vel@.in_range()
                    &&& acc@.in_range()
                    &&& 0 < mass
                    &&& RADIUS_FACTOR * mass <= BOUND
                    &&& p@ == (ParticleModel {
                        pos: pos@,
                        vel: vel@,
                        acc: acc@,
                        radius: RADIUS_FACTOR * mass as int,
                        mass: mass as int,
                    })
                    &&& p@.wf()
                },
                None => !{
                    &&& pos@.in_range()
                    &&& vel@.in_range()
                    &&& acc@.in_range()
                    &&& 0 < mass
                    &&& RADIUS_FACTOR * mass <= BOUND
                },
            },
    {
        let ok = -BOUND <= pos.x && pos.x <= BOUND && -BOUND <= pos.y && pos.y <= BOUND
            && -BOUND <= vel.x && vel.x <= BOUND && -BOUND <= vel.y && vel.y <= BOUND
            && -BOUND <= acc.x && acc.x <= BOUND && -BOUND <= acc.y && acc.y <= BOUND && 0 < mass
            && mass <= BOUND / RADIUS_FACTOR;
        if ok {
            Some(Particle { pos, vel, acc, radius: RADIUS_FACTOR * mass, mass })
        } else {
            None
        }
    }

    /// Runtime check of the stored-range invariant.
    pub fn is_wf(&self) -> (r: bool)
        ensures
            r == self@.wf(),
    {
        -BOUND <= self.pos.x && self.pos.x <= BOUND && -BOUND <= self.pos.y && self.pos.y <= BOUND
            && -BOUND <= self.vel.x && self.vel.x <= BOUND && -BOUND <= self.vel.y && self.vel.y
            <= BOUND && -BOUND <= self.acc.x && self.acc.x <= BOUND && -BOUND <= self.acc.y
            && self.acc.y <= BOUND && 0 < self.radius && self.radius <= BOUND && 0 < self.mass
            && self.mass <= BOUND
    }

    /// Reflect off the viewport walls: each axis independently, the
    /// leading edge checked before the trailing one, position clamped
    /// onto the wall and that axis's velocity mirrored.
    pub fn check_edge_collision(&mut self, width: i64, height: i64)
        requires
            old(self)@.wf(),
            0 < width <= BOUND,
            0 < height <= BOUND,
        ensures
            final(self)@ == edge_reflected(old(self)@, width as int, height as int),
            final(self)@.wf(),
    {
        if self.pos.x + self.radius > width {
            self.pos.x = width - self.radius;
            self.vel.x = -self.vel.x;
        } else if self.pos.x - self.radius < 0 {
            self.pos.x = self.radius;
            self.vel.x = -self.vel.x;
        }
        if self.pos.y + self.radius > height {
            self.pos.y = height - self.radius;
            self.vel.y = -self.vel.y;
        } else if self.pos.y - self.radius < 0 {
            self.pos.y = self.radius;
            self.vel.y = -self.vel.y;
        }
    }

    /// One Euler integration step, exactly [`integrated`].
    pub fn integrate(&mut self)
        requires
            old(self)@.wf(),
        ensures
            final(self)@ == integrated(old(self)@),
            final(self)@.wf(),
    {
        let vx = clamp(self.vel.x as i128 + self.acc.x as i128);
        let vy = clamp(self.vel.y as i128 + self.acc.y as i128);
        let px = clamp(self.pos.x as i128 + vx as i128);
        let py = clamp(self.pos.y as i128 + vy as i128);
        self.vel = Vec2 { x: vx, y: vy };
        self.pos = Vec2 { x: px, y: py };
        self.acc = Vec2 { x: 0, y: 0 };
    }
}

/// Edge reflection is exact: a particle whose leading x edge has crossed
/// the right wall, and whose y extent is inside the vertical bounds, ends
/// with its edge exactly on the wall, its x velocity mirrored with the
/// same speed, and its y position and velocity untouched.
pub proof fn lemma_edge_reflection(p: ParticleModel, width: int, height: int)
    requires
        p.wf(),
        0 < width,
        0 < height,
        p.pos.x + p.radius > width,
        0 <= p.pos.y - p.radius,
        p.pos.y + p.radius <= height,
    ensures
        edge_reflected(p, width, height).pos.x == width - p.radius,
        edge_reflected(p, width, height).vel.x == -p.vel.x,
        edge_reflected(p, width, height).pos.y == p.pos.y,
        edge_reflected(p, width, height).vel.y == p.vel.y,
        edge_reflected(p, width, height).acc == p.acc,
        edge_reflected(p, width, height).radius == p.radius,
        edge_reflected(p, width, height).mass == p.mass,
{
}

/// A particle whose circular extent lies inside the walls is untouched
/// by the edge response.
pub proof fn lemma_edge_inside_unchanged(p: ParticleModel, width: int, height: int)
    requires
        p.pos.x - p.radius >= 0,
        p.pos.x + p.radius <= width,
        p.pos.y - p.radius >= 0,
        p.pos.y + p.radius <= height,
    ensures
        edge_reflected(p, width, height) == p,
{
    assert(edge_reflected(p, width, height) =~= p);
}

/// Free integration is exact: when the exact sums stay in the stored
/// range, one step gives `vel' = vel + acc`, `pos' = pos + vel'` and
/// `acc' = 0`, with radius and mass untouched.
pub proof fn lemma_integration_exact(p: ParticleModel)
    requires
        p.wf(),
        -(BOUND as int) <= p.vel.x + p.acc.x <= BOUND as int,
        -(BOUND as int) <= p.vel.y + p.acc.y <= BOUND as int,
        -(BOUND as int) <= p.pos.x + p.vel.x + p.acc.x <= BOUND as int,
        -(BOUND as int) <= p.pos.y + p.vel.y + p.acc.y <= BOUND as int,
    ensures
        integrated(p).vel.x == p.vel.x + p.acc.x,
        integrated(p).vel.y == p.vel.y + p.acc.y,
        integrated(p).pos.x == p.pos.x + p.vel.x + p.acc.x,
        integrated(p).pos.y == p.pos.y + p.vel.y + p.acc.y,
        integrated(p).acc.x == 0,
        integrated(p).acc.y == 0,
        integrated(p).radius == p.radius,
        integrated(p).mass == p.mass,
{
}

} // verus!
