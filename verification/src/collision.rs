use vstd::prelude::*;
use vstd::arithmetic::div_mod::lemma_div_of0;
use vstd::arithmetic::div_mod::lemma_div_multiples_vanish;
use crate::num::BOUND;
use crate::num::SCALE;
use crate::num::clamp;
use crate::num::clamped;
use crate::num::floor_div;
use crate::num::isqrt;
use crate::num::sqrt_floor;
use crate::num::lemma_sqrt_floor_bounds;
use crate::num::lemma_mul_abs_bound;
use crate::num::lemma_div_abs_bound;
use crate::num::lemma_div_sign;
use crate::particle::Particle;
use crate::particle::ParticleModel;
use crate::vec2::Vec2;
use crate::vec2::Vec2Model;

verus! {

/// Squared Euclidean distance between the two centers.
pub open spec fn dist_sq(a: ParticleModel, b: ParticleModel) -> int {
    (b.pos.x - a.pos.x) * (b.pos.x - a.pos.x) + (b.pos.y - a.pos.y) * (b.pos.y - a.pos.y)
}

/// Touching counts: the centers are no farther apart than the sum of the
/// radii.
pub open spec fn colliding(a: ParticleModel, b: ParticleModel) -> bool {
    dist_sq(a, b) <= (a.radius + b.radius) * (a.radius + b.radius)
}

/// The response of one ordered visit of the pair `(a, b)`: an impulse
/// along the line of centers, weighted by the inverse masses, then a
/// positional correction that pushes the overlap apart along the same
/// line.  A non-colliding pair is left unchanged; so is a pair with
/// coincident centers, where no collision normal exists.
///
/// The real-valued response divides by the distance twice (once in the
/// unit normal, once in the impulse's projection), which cancels the
/// square root: the velocity change is `2 d (rv . d) / (|d|^2 (ma + mb) m)`
/// for each side's mass `m`, exact up to one floor division here.  The
/// positional correction keeps the square root, floored.  Changed
/// components are clamped to the stored range.
pub open spec fn resolved(a: ParticleModel, b: ParticleModel) -> (ParticleModel, ParticleModel) {
    if !colliding(a, b) || dist_sq(a, b) == 0 {
        (a, b)
    } else {
        let dx = b.pos.x - a.pos.x;
        let dy = b.pos.y - a.pos.y;
        let q = dist_sq(a, b);
        let dot = (b.vel.x - a.vel.x) * dx + (b.vel.y - a.vel.y) * dy;
        let s2 = (SCALE as int) * (SCALE as int);
        let den = q * (a.mass + b.mass);
        let dva_x = 2 * dx * dot * s2 / (den * a.mass);
        let dva_y = 2 * dy * dot * s2 / (den * a.mass);
        let dvb_x = 2 * dx * dot * s2 / (den * b.mass);
        let dvb_y = 2 * dy * dot * s2 / (den * b.mass);
        let dist = sqrt_floor(q);
        let overlap = a.radius + b.radius - dist;
        let dpa_x = dx * overlap * (SCALE as int) / (dist * a.mass);
        let dpa_y = dy * overlap * (SCALE as int) / (dist * a.mass);
        let dpb_x = dx * overlap * (SCALE as int) / (dist * b.mass);
        let dpb_y = dy * overlap * (SCALE as int) / (dist * b.mass);
        let ra = ParticleModel {
            pos: Vec2Model { x: clamped(a.pos.x - dpa_x), y: clamped(a.pos.y - dpa_y) },
            vel: Vec2Model { x: clamped(a.vel.x + dva_x), y: clamped(a.vel.y + dva_y) },
            ..a
        };
        let rb = ParticleModel {
            pos: Vec2Model { x: clamped(b.pos.x + dpb_x), y: clamped(b.pos.y + dpb_y) },
            vel: Vec2Model { x: clamped(b.vel.x - dvb_x), y: clamped(b.vel.y - dvb_y) },
            ..b
        };
        (ra, rb)
    }
}

impl Particle {
    /// Whether this particle's circular extent touches or overlaps the
    /// other's.
    pub fn collides_with(&self, other: &Particle) -> (r: bool)
        requires
            self@.wf(),
            other@.wf(),
        ensures
            r == colliding(self@, other@),
    {
        let dx = other.pos.x as i128 - self.pos.x as i128;
        let dy = other.pos.y as i128 - self.pos.y as i128;
        proof {
            lemma_mul_abs_bound(dx as int, dx as int, 2_000_000_000, 2_000_000_000);
            lemma_mul_abs_bound(dy as int, dy as int, 2_000_000_000, 2_000_000_000);
        }
        let q = dx * dx + dy * dy;
        let tol = self.radius as i128 + other.radius as i128;
        proof {
            lemma_mul_abs_bound(tol as int, tol as int, 2_000_000_000, 2_000_000_000);
        }
        q <= tol * tol
    }

    /// Squared distance between this particle's center and the other's.
    pub fn distance_sq(&self, other: &Particle) -> (r: i128)
        requires
            self@.wf(),
            other@.wf(),
        ensures
            r as int == dist_sq(self@, other@),
    {
        let dx = other.pos.x as i128 - self.pos.x as i128;
        let dy = other.pos.y as i128 - self.pos.y as i128;
        proof {
            lemma_mul_abs_bound(dx as int, dx as int, 2_000_000_000, 2_000_000_000);
            lemma_mul_abs_bound(dy as int, dy as int, 2_000_000_000, 2_000_000_000);
        }
        dx * dx + dy * dy
    }

    /// Resolve one ordered visit of this pair, exactly [`resolved`]:
    /// `self` plays the first role, `other` the second.
    pub fn collide_with(&mut self, other: &mut Particle)
        requires
            old(self)@.wf(),
            old(other)@.wf(),
        ensures
            (final(self)@, final(other)@) == resolved(old(self)@, old(other)@),
            final(self)@.wf(),
            final(other)@.wf(),
    {
        let dx = other.pos.x as i128 - self.pos.x as i128;
        let dy = other.pos.y as i128 - self.pos.y as i128;
        proof {
            lemma_mul_abs_bound(dx as int, dx as int, 2_000_000_000, 2_000_000_000);
            lemma_mul_abs_bound(dy as int, dy as int, 2_000_000_000, 2_000_000_000);
        }
        proof {
            assert(dx as int * dx as int >= 0 && dy as int * dy as int >= 0) by (nonlinear_arith);
        }
        let q = dx * dx + dy * dy;
        let tol = self.radius as i128 + other.radius as i128;
        proof {
            lemma_mul_abs_bound(tol as int, tol as int, 2_000_000_000, 2_000_000_000);
        }
        if q > tol * tol || q == 0 {
            // Not colliding, or coincident centers: nothing to resolve.
        } else {
            let rvx = other.vel.x as i128 - self.vel.x as i128;
            let rvy = other.vel.y as i128 - self.vel.y as i128;
            proof {
                lemma_mul_abs_bound(rvx as int, dx as int, 2_000_000_000, 2_000_000_000);
                lemma_mul_abs_bound(rvy as int, dy as int, 2_000_000_000, 2_000_000_000);
            }
            let dot = rvx * dx + rvy * dy;
            let msum = self.mass as i128 + other.mass as i128;
            proof {
                lemma_mul_abs_bound(q as int, msum as int, 8_000_000_000_000_000_000, 2_000_000_000);
            }
            let den = q * msum;
            proof {
                lemma_mul_abs_bound(
                    den as int,
                    self.mass as int,
                    16_000_000_000_000_000_000_000_000_000,
                    1_000_000_000,
                );
                lemma_mul_abs_bound(
                    den as int,
                    other.mass as int,
                    16_000_000_000_000_000_000_000_000_000,
                    1_000_000_000,
                );
                assert(den as int * self.mass as int >= 1 && den as int * other.mass as int >= 1)
                    by (nonlinear_arith)
                    requires
                        q as int >= 1,
                        msum as int >= 2,
                        self.mass as int >= 1,
                        other.mass as int >= 1,
                        den as int == q as int * msum as int,
                ;
            }
            let dena = den * self.mass as i128;
            let denb = den * other.mass as i128;
            let prex = 2 * dx;
            let prey = 2 * dy;
            proof {
                lemma_mul_abs_bound(prex as int, dot as int, 4_000_000_000, 8_000_000_000_000_000_000);
                lemma_mul_abs_bound(prey as int, dot as int, 4_000_000_000, 8_000_000_000_000_000_000);
            }
            let rawx = prex * dot;
            let rawy = prey * dot;
            proof {
                lemma_mul_abs_bound(SCALE as int, SCALE as int, 1000, 1000);
            }
            let s2 = SCALE as i128 * SCALE as i128;
            proof {
                lemma_mul_abs_bound(
                    rawx as int,
                    s2 as int,
                    32_000_000_000_000_000_000_000_000_000,
                    1_000_000,
                );
                lemma_mul_abs_bound(
                    rawy as int,
                    s2 as int,
                    32_000_000_000_000_000_000_000_000_000,
                    1_000_000,
                );
            }
            let numx = rawx * s2;
            let numy = rawy * s2;
            proof {
                lemma_div_abs_bound(numx as int, dena as int, 32_000_000_000_000_000_000_000_000_000_000_000);
                lemma_div_abs_bound(numy as int, dena as int, 32_000_000_000_000_000_000_000_000_000_000_000);
                lemma_div_abs_bound(numx as int, denb as int, 32_000_000_000_000_000_000_000_000_000_000_000);
                lemma_div_abs_bound(numy as int, denb as int, 32_000_000_000_000_000_000_000_000_000_000_000);
            }
            let dva_x = floor_div(numx, dena);
            let dva_y = floor_div(numy, dena);
            let dvb_x = floor_div(numx, denb);
            let dvb_y = floor_div(numy, denb);
            let dist64 = isqrt(q as u64);
            proof {
                lemma_sqrt_floor_bounds(q as int);
                assert(sqrt_floor(q as int) >= 1) by (nonlinear_arith)
                    requires
                        q as int >= 1,
                        sqrt_floor(q as int) >= 0,
                        (q as int) < (sqrt_floor(q as int) + 1) * (sqrt_floor(q as int) + 1),
                ;
                assert(sqrt_floor(q as int) <= tol as int) by (nonlinear_arith)
                    requires
                        sqrt_floor(q as int) >= 0,
                        sqrt_floor(q as int) * sqrt_floor(q as int) <= q as int,
                        q as int <= tol as int * tol as int,
                        tol as int >= 0,
                ;
                assert(sqrt_floor(q as int) <= 3_000_000_000) by (nonlinear_arith)
                    requires
                        sqrt_floor(q as int) >= 0,
                        sqrt_floor(q as int) * sqrt_floor(q as int) <= q as int,
                        q as int <= 8_000_000_000_000_000_000,
                ;
            }
            let dist = dist64 as i128;
            let overlap = tol - dist;
            proof {
                lemma_mul_abs_bound(dx as int, overlap as int, 2_000_000_000, 2_000_000_000);
                lemma_mul_abs_bound(dy as int, overlap as int, 2_000_000_000, 2_000_000_000);
            }
            let repx = dx * overlap;
            let repy = dy * overlap;
            proof {
                lemma_mul_abs_bound(repx as int, SCALE as int, 4_000_000_000_000_000_000, 1000);
                lemma_mul_abs_bound(repy as int, SCALE as int, 4_000_000_000_000_000_000, 1000);
                lemma_mul_abs_bound(dist as int, self.mass as int, 3_000_000_000, 1_000_000_000);
                lemma_mul_abs_bound(dist as int, other.mass as int, 3_000_000_000, 1_000_000_000);
                assert(dist as int * self.mass as int >= 1 && dist as int * other.mass as int >= 1)
                    by (nonlinear_arith)
                    requires
                        dist as int >= 1,
                        self.mass as int >= 1,
                        other.mass as int >= 1,
                ;
            }
            let repx_s = repx * SCALE as i128;
            let repy_s = repy * SCALE as i128;
            let dda = dist * self.mass as i128;
            let ddb = dist * other.mass as i128;
            proof {
                lemma_div_abs_bound(repx_s as int, dda as int, 4_000_000_000_000_000_000_000);
                lemma_div_abs_bound(repy_s as int, dda as int, 4_000_000_000_000_000_000_000);
                lemma_div_abs_bound(repx_s as int, ddb as int, 4_000_000_000_000_000_000_000);
                lemma_div_abs_bound(repy_s as int, ddb as int, 4_000_000_000_000_000_000_000);
            }
            let dpa_x = floor_div(repx_s, dda);
            let dpa_y = floor_div(repy_s, dda);
            let dpb_x = floor_div(repx_s, ddb);
            let dpb_y = floor_div(repy_s, ddb);
            let navx = clamp(self.vel.x as i128 + dva_x);
            let navy = clamp(self.vel.y as i128 + dva_y);
            let nbvx = clamp(other.vel.x as i128 - dvb_x);
            let nbvy = clamp(other.vel.y as i128 - dvb_y);
            let napx = clamp(self.pos.x as i128 - dpa_x);
            let napy = clamp(self.pos.y as i128 - dpa_y);
            let nbpx = clamp(other.pos.x as i128 + dpb_x);
            let nbpy = clamp(other.pos.y as i128 + dpb_y);
            self.vel = Vec2 { x: navx, y: navy };
            self.pos = Vec2 { x: napx, y: napy };
            other.vel = Vec2 { x: nbvx, y: nbvy };
            other.pos = Vec2 { x: nbpx, y: nbpy };
        }
    }
}

/// The sign of a positional correction follows the sign of its axis
/// component of the center line.
proof fn lemma_delta_sign(d: int, overlap: int, den: int)
    requires
        overlap >= 0,
        den >= 1,
    ensures
        d >= 0 ==> d * overlap * (SCALE as int) / den >= 0,
        d <= 0 ==> d * overlap * (SCALE as int) / den <= 0,
{
    assert((d >= 0 ==> d * overlap * (SCALE as int) >= 0) && (d <= 0 ==> d * overlap * (
    SCALE as int) <= 0)) by (nonlinear_arith)
        requires
            overlap >= 0,
    ;
    lemma_div_sign(d * overlap * (SCALE as int), den);
}

/// Moving the two ends of a segment outward along its own direction and
/// clamping them to the stored range cannot shorten it.
proof fn lemma_axis_separation(pa: int, pb: int, da: int, db: int)
    requires
        -(BOUND as int) <= pa <= BOUND as int,
        -(BOUND as int) <= pb <= BOUND as int,
        pb - pa >= 0 ==> da >= 0 && db >= 0,
        pb - pa <= 0 ==> da <= 0 && db <= 0,
    ensures
        (clamped(pb + db) - clamped(pa - da)) * (clamped(pb + db) - clamped(pa - da)) >= (pb - pa)
            * (pb - pa),
{
    let npa = clamped(pa - da);
    let npb = clamped(pb + db);
    if pb - pa >= 0 {
        assert(npb >= pb);
        assert(npa <= pa);
        assert((npb - npa) * (npb - npa) >= (pb - pa) * (pb - pa)) by (nonlinear_arith)
            requires
                npb - npa >= pb - pa >= 0,
        ;
    } else {
        assert(npb <= pb);
        assert(npa >= pa);
        assert((npb - npa) * (npb - npa) >= (pb - pa) * (pb - pa)) by (nonlinear_arith)
            requires
                npb - npa <= pb - pa <= 0,
        ;
    }
}

/// De-penetration: resolving a pair never brings the centers closer.
/// The positional correction pushes both bodies outward along the line
/// of centers, and clamping to the stored range can only shrink a push,
/// never reverse it.
pub proof fn lemma_depenetration(a: ParticleModel, b: ParticleModel)
    requires
        a.wf(),
        b.wf(),
    ensures
        dist_sq(resolved(a, b).0, resolved(a, b).1) >= dist_sq(a, b),
{
    if !colliding(a, b) || dist_sq(a, b) == 0 {
    } else {
        let dx = b.pos.x - a.pos.x;
        let dy = b.pos.y - a.pos.y;
        let q = dist_sq(a, b);
        let tol = a.radius + b.radius;
        assert(dx * dx >= 0 && dy * dy >= 0) by (nonlinear_arith);
        lemma_sqrt_floor_bounds(q);
        let dist = sqrt_floor(q);
        assert(dist >= 1) by (nonlinear_arith)
            requires
                q >= 1,
                dist >= 0,
                q < (dist + 1) * (dist + 1),
        ;
        assert(dist <= tol) by (nonlinear_arith)
            requires
                dist >= 0,
                dist * dist <= q,
                q <= tol * tol,
                tol >= 0,
        ;
        let overlap = tol - dist;
        assert(dist * a.mass >= 1 && dist * b.mass >= 1) by (nonlinear_arith)
            requires
                dist >= 1,
                a.mass >= 1,
                b.mass >= 1,
        ;
        lemma_delta_sign(dx, overlap, dist * a.mass);
        lemma_delta_sign(dy, overlap, dist * a.mass);
        lemma_delta_sign(dx, overlap, dist * b.mass);
        lemma_delta_sign(dy, overlap, dist * b.mass);
        lemma_axis_separation(
            a.pos.x,
            b.pos.x,
            dx * overlap * (SCALE as int) / (dist * a.mass),
            dx * overlap * (SCALE as int) / (dist * b.mass),
        );
        lemma_axis_separation(
            a.pos.y,
            b.pos.y,
            dy * overlap * (SCALE as int) / (dist * a.mass),
            dy * overlap * (SCALE as int) / (dist * b.mass),
        );
    }
}

/// The classic equal-mass elastic exchange: two particles of equal unit
/// mass that meet head on along the x axis (same y center, same y
/// velocity, colliding, centers distinct) swap their x velocities
/// exactly in one resolution.
///
/// The impulse divides by the combined mass and then again by each
/// side's own mass, so for an equal mass `m` the exchanged velocity is
/// scaled by `1 / m^2`: the swap is exact for unit masses and smaller
/// for any other equal mass.
pub proof fn lemma_equal_mass_swap(a: ParticleModel, b: ParticleModel)
    requires
        a.wf(),
        b.wf(),
        a.mass == SCALE as int,
        b.mass == SCALE as int,
        a.pos.y == b.pos.y,
        a.vel.y == b.vel.y,
        colliding(a, b),
        dist_sq(a, b) != 0,
    ensures
        resolved(a, b).0.vel.x == b.vel.x,
        resolved(a, b).1.vel.x == a.vel.x,
        resolved(a, b).0.vel.y == a.vel.y,
        resolved(a, b).1.vel.y == b.vel.y,
{
    let dx = b.pos.x - a.pos.x;
    let q = dist_sq(a, b);
    let rvx = b.vel.x - a.vel.x;
    let s2 = (SCALE as int) * (SCALE as int);
    let dot = rvx * dx;
    let den = q * (a.mass + b.mass);
    let dena = den * a.mass;
    assert(q == dx * dx);
    assert(dx != 0) by (nonlinear_arith)
        requires
            q == dx * dx,
            q != 0,
    ;
    assert(dena >= 1) by (nonlinear_arith)
        requires
            dx != 0,
            q == dx * dx,
            den == q * (a.mass + b.mass),
            dena == den * a.mass,
            a.mass >= 1,
            b.mass >= 1,
    ;
    assert(2 * dx * dot * s2 == dena * rvx) by (nonlinear_arith)
        requires
            dot == rvx * dx,
            q == dx * dx,
            den == q * (a.mass + b.mass),
            dena == den * a.mass,
            a.mass == SCALE as int,
            b.mass == SCALE as int,
            s2 == (SCALE as int) * (SCALE as int),
    ;
    lemma_div_multiples_vanish(rvx, dena);
    let dy = b.pos.y - a.pos.y;
    assert((b.vel.y - a.vel.y) * dy == 0) by (nonlinear_arith)
        requires
            b.vel.y == a.vel.y,
    ;
    assert(2 * dy * dot * s2 == 0) by (nonlinear_arith)
        requires
            dy == 0,
    ;
    lemma_div_of0(dena);
}

} // verus!
