use vstd::prelude::*;
use crate::collision::colliding;
use crate::collision::resolved;
use crate::num::BOUND;
use crate::particle::Config;
use crate::particle::Particle;
use crate::particle::ParticleModel;
use crate::particle::RADIUS_FACTOR;
use crate::particle::edge_reflected;
use crate::particle::integrated;

verus! {

/// The mathematical value of a population: each particle's model, in
/// order.
pub open spec fn models(s: Seq<Particle>) -> Seq<ParticleModel> {
    s.map_values(|p: Particle| p@)
}

/// Every particle of the population is well formed.
pub open spec fn all_wf(s: Seq<ParticleModel>) -> bool {
    forall|i: int| 0 <= i < s.len() ==> (#[trigger] s[i]).wf()
}

/// What [`Particle::new`] promises of a sampled particle.
pub open spec fn sampled_from(m: ParticleModel, cfg: Config) -> bool {
    &&& m.wf()
    &&& cfg.mass_low <= m.mass < cfg.mass_high
    &&& m.radius == RADIUS_FACTOR * m.mass
    &&& 0 <= m.pos.x < cfg.width
    &&& 0 <= m.pos.y < cfg.height
    &&& -cfg.vel_range <= m.vel.x < cfg.vel_range
    &&& -cfg.vel_range <= m.vel.y < cfg.vel_range
    &&& -cfg.acc_range <= m.acc.x < cfg.acc_range
    &&& -cfg.acc_range <= m.acc.y < cfg.acc_range
}

/// The state after particle `i` has been resolved, in order, against the
/// candidates `0 .. j` of its candidate set — every particle but itself.
pub open spec fn pass_upto(s: Seq<ParticleModel>, i: int, j: int) -> Seq<ParticleModel>
    decreases j,
{
    if j <= 0 {
        s
    } else {
        let t = pass_upto(s, i, j - 1);
        if j - 1 == i {
            t
        } else {
            let r = resolved(t[i], t[j - 1]);
            t.update(i, r.0).update(j - 1, r.1)
        }
    }
}

/// One particle's whole turn: pairwise resolution against every other
/// particle in order, then the edge response, then integration.
pub open spec fn turn(s: Seq<ParticleModel>, i: int, width: int, height: int) -> Seq<
    ParticleModel,
> {
    let t = pass_upto(s, i, s.len() as int);
    t.update(i, integrated(edge_reflected(t[i], width, height)))
}

/// The state after the first `i` particles have taken their turns.
pub open spec fn tick_upto(s: Seq<ParticleModel>, width: int, height: int, i: int) -> Seq<
    ParticleModel,
>
    decreases i,
{
    if i <= 0 {
        s
    } else {
        turn(tick_upto(s, width, height, i - 1), i - 1, width, height)
    }
}

/// One whole tick: every particle takes its turn, in index order, each
/// seeing the in-place effects of the turns before it.
///
/// An unordered pair whose members both still overlap when their own
/// turns come is deliberately resolved twice per tick, once from each
/// side: the sequential in-place semantics is kept as is, rather than
/// de-duplicating pairs, so that a tick is a deterministic function of
/// the ordered population alone.
pub open spec fn ticked(s: Seq<ParticleModel>, width: int, height: int) -> Seq<ParticleModel> {
    tick_upto(s, width, height, s.len() as int)
}

/// Resolution never creates or destroys a particle and never touches a
/// radius, a mass or an accumulated acceleration; well-formedness is
/// kept.
pub proof fn lemma_resolved_wf(a: ParticleModel, b: ParticleModel)
    requires
        a.wf(),
        b.wf(),
    ensures
        resolved(a, b).0.wf(),
        resolved(a, b).1.wf(),
        resolved(a, b).0.radius == a.radius,
        resolved(a, b).0.mass == a.mass,
        resolved(a, b).0.acc == a.acc,
        resolved(a, b).1.radius == b.radius,
        resolved(a, b).1.mass == b.mass,
        resolved(a, b).1.acc == b.acc,
{
}

/// Mapping to models commutes with replacing one particle.
proof fn lemma_models_update(s: Seq<Particle>, i: int, p: Particle)
    requires
        0 <= i < s.len(),
    ensures
        models(s.update(i, p)) =~= models(s).update(i, p@),
{
}

/// A particle never meets itself: a pass resolves only pairs of distinct
/// indices, so when no other particle is within reach of particle `i`,
/// the whole pass leaves the state unchanged.
pub proof fn lemma_isolated_pass_unchanged(s: Seq<ParticleModel>, i: int, j: int)
    requires
        0 <= i < s.len(),
        0 <= j <= s.len(),
        forall|k: int| 0 <= k < s.len() && k != i ==> !colliding(s[i], #[trigger] s[k]),
    ensures
        pass_upto(s, i, j) =~= s,
    decreases j,
{
    if j > 0 {
        lemma_isolated_pass_unchanged(s, i, j - 1);
        if j - 1 != i {
            assert(s.update(i, s[i]).update(j - 1, s[j - 1]) =~= s);
        }
    }
}

/// A world with one particle has an empty candidate set: its tick is
/// exactly the edge response followed by integration.
pub proof fn lemma_single_particle_tick(s: Seq<ParticleModel>, width: int, height: int)
    requires
        s.len() == 1,
    ensures
        ticked(s, width, height) =~= s.update(
            0,
            integrated(edge_reflected(s[0], width, height)),
        ),
{
    assert(pass_upto(s, 0, 0) == s);
    assert(pass_upto(s, 0, 1) == s);
    assert(tick_upto(s, width, height, 0) == s);
}

/// The simulation: an ordered population of particles inside a
/// rectangular viewport, advanced one tick at a time.
pub struct World {
    /// The population; order is stable and only fixes the deterministic
    /// visiting order of the turns.
    pub particles: Vec<Particle>,
    /// Viewport width, in thousandths.
    pub width: i64,
    /// Viewport height, in thousandths.
    pub height: i64,
}

impl World {
    /// The bounds are positive and in the stored range and every
    /// particle is well formed.
    pub open spec fn wf(self) -> bool {
        &&& 0 < self.width <= BOUND
        &&& 0 < self.height <= BOUND
        &&& all_wf(models(self.particles@))
    }

    /// The mathematical state of the whole population.
    pub open spec fn model(self) -> Seq<ParticleModel> {
        models(self.particles@)
    }

    /// A world populated at startup with `count` particles sampled from
    /// `cfg`.
    pub fn new(cfg: &Config, count: usize) -> (w: World)
        requires
            cfg.wf(),
        ensures
            w.wf(),
            w.model().len() == count,
            w.width == cfg.width,
            w.height == cfg.height,
            forall|i: int| 0 <= i < count ==> sampled_from(#[trigger] w.model()[i], *cfg),
    {
        let mut particles: Vec<Particle> = Vec::new();
        let mut k: usize = 0;
        while k < count
            invariant
                k <= count,
                particles@.len() == k,
                cfg.wf(),
                forall|i: int| 0 <= i < k ==> sampled_from(#[trigger] models(particles@)[i], *cfg),
            decreases count - k,
        {
            let ghost before = particles@;
            let p = Particle::new(cfg);
            particles.push(p);
            proof {
                assert forall|t: int| 0 <= t < k + 1 implies sampled_from(
                    #[trigger] models(particles@)[t],
                    *cfg,
                ) by {
                    if t < k {
                        assert(models(particles@)[t] == models(before)[t]);
                    } else {
                        assert(models(particles@)[t] == p@);
                    }
                }
            }
            k += 1;
        }
        World { particles, width: cfg.width, height: cfg.height }
    }

    /// A world from an explicit population, for deterministic setups.
    /// Returns `None` exactly when a bound is out of range or some
    /// particle is not well formed.
    pub fn from_particles(particles: Vec<Particle>, width: i64, height: i64) -> (r: Option<World>)
        ensures
            match r {
                Some(w) => {
                    &&& 0 < width <= BOUND
                    &&& 0 < height <= BOUND
                    &&& all_wf(models(particles@))
                    &&& w.particles@ == particles@
                    &&& w.width == width
                    &&& w.height == height
                    &&& w.wf()
                },
                None => !{
                    &&& 0 < width <= BOUND
                    &&& 0 < height <= BOUND
                    &&& all_wf(models(particles@))
                },
            },
    {
        if !(0 < width && width <= BOUND && 0 < height && height <= BOUND) {
            return None;
        }
        let n = particles.len();
        let mut k: usize = 0;
        while k < n
            invariant
                k <= n,
                n == particles@.len(),
                forall|i: int| 0 <= i < k ==> (#[trigger] models(particles@)[i]).wf(),
            decreases n - k,
        {
            if !particles[k].is_wf() {
                proof {
                    assert(models(particles@)[k as int] == particles@[k as int]@);
                }
                return None;
            }
            k += 1;
        }
        Some(World { particles, width, height })
    }

    /// Advance the simulation one tick, exactly [`ticked`]: each
    /// particle in index order resolves collisions against all others,
    /// reflects off the walls, and integrates, all in place.
    pub fn tick(&mut self)
        requires
            old(self).wf(),
        ensures
            final(self).wf(),
            final(self).width == old(self).width,
            final(self).height == old(self).height,
            final(self).model() =~= ticked(
                old(self).model(),
                old(self).width as int,
                old(self).height as int,
            ),
            final(self).model().len() == old(self).model().len(),
    {
        let n = self.particles.len();
        let ghost m0 = models(self.particles@);
        let ghost w = self.width as int;
        let ghost h = self.height as int;
        let mut i: usize = 0;
        while i < n
            invariant
                i <= n,
                n == self.particles@.len(),
                self.width == old(self).width,
                self.height == old(self).height,
                0 < self.width <= BOUND,
                0 < self.height <= BOUND,
                w == self.width as int,
                h == self.height as int,
                m0 == models(old(self).particles@),
                models(self.particles@) =~= tick_upto(m0, w, h, i as int),
                all_wf(models(self.particles@)),
            decreases n - i,
        {
            let ghost base = models(self.particles@);
            let mut j: usize = 0;
            while j < n
                invariant
                    j <= n,
                    i < n,
                    n == self.particles@.len(),
                    self.width == old(self).width,
                    self.height == old(self).height,
                    0 < self.width <= BOUND,
                    0 < self.height <= BOUND,
                    models(self.particles@) =~= pass_upto(base, i as int, j as int),
                    all_wf(models(self.particles@)),
                decreases n - j,
            {
                if j != i {
                    let mut a = self.particles[i];
                    let mut b = self.particles[j];
                    proof {
                        assert(models(self.particles@)[i as int] == a@);
                        assert(models(self.particles@)[j as int] == b@);
                    }
                    a.collide_with(&mut b);
                    proof {
                        lemma_models_update(self.particles@, i as int, a);
                        lemma_models_update(self.particles@.update(i as int, a), j as int, b);
                    }
                    self.particles[i] = a;
                    self.particles[j] = b;
                    proof {
                        let t = pass_upto(base, i as int, j as int);
                        assert(models(self.particles@) =~= t.update(i as int, a@).update(
                            j as int,
                            b@,
                        ));
                        assert(models(self.particles@) =~= pass_upto(
                            base,
                            i as int,
                            j as int + 1,
                        ));
                        assert forall|k: int|
                            0 <= k < models(self.particles@).len() implies (#[trigger] models(
                            self.particles@,
                        )[k]).wf() by {
                            if k != i as int && k != j as int {
                                assert(models(self.particles@)[k] == t[k]);
                            }
                        }
                    }
                } else {
                    proof {
                        assert(pass_upto(base, i as int, j as int + 1) == pass_upto(
                            base,
                            i as int,
                            j as int,
                        ));
                    }
                }
                j += 1;
            }
            let mut p = self.particles[i];
            proof {
                assert(models(self.particles@)[i as int] == p@);
            }
            p.check_edge_collision(self.width, self.height);
            p.integrate();
            proof {
                lemma_models_update(self.particles@, i as int, p);
            }
            self.particles[i] = p;
            proof {
                let t = pass_upto(base, i as int, n as int);
                assert(models(self.particles@) =~= t.update(i as int, p@));
                assert(base.len() == n);
                assert(models(self.particles@) =~= turn(base, i as int, w, h));
                assert(models(self.particles@) =~= tick_upto(m0, w, h, i as int + 1));
                assert forall|k: int|
                    0 <= k < models(self.particles@).len() implies (#[trigger] models(
                    self.particles@,
                )[k]).wf() by {
                    if k != i as int {
                        assert(models(self.particles@)[k] == t[k]);
                    }
                }
            }
            i += 1;
        }
    }
}

} // verus!
