//! The simulation: a population of bodies advanced one tick at a time.
//! Each tick accumulates all pairwise forces on the pre-integration
//! snapshot, integrates every body, partitions the moved bodies into
//! overlap clusters, and collapses each cluster into one body.  Spawning
//! appends a body between ticks; the body list is exposed read-only.

use vstd::prelude::*;

verus! {

use crate::body::body_ok;
use crate::body::contrib_x;
use crate::body::contrib_y;
use crate::body::eff_dist_sq;
use crate::body::integrated;
use crate::body::population_ok;
use crate::body::spawned_body;
use crate::body::Acc2;
use crate::body::Body;
use crate::body::Vec2;
use crate::group::canonicalize;
use crate::group::group;
use crate::math::lemma_trunc_div_mag;
use crate::merge::mass_upto;
use crate::merge::merge;
use crate::merge::merge_spec;
use crate::merge::total_mass;
use crate::GRAV;
use crate::MASS_CAP;

/// The index handed back for a freshly spawned body.  Body identities
/// are positional and do not survive a merge.
pub type BodyId = usize;

/// Why a spawn request is rejected.
#[derive(Clone, Copy, PartialEq, Eq, Structural, Debug)]
pub enum SimError {
    /// The requested mass was zero or negative.
    InvalidMass,
}

/// The x component of the acceleration accumulated on body `j` from the
/// attractors with indices below `upto` (body `j` exerts no force on
/// itself).
pub open spec fn acc_sum_x(s: Seq<Body>, j: int, upto: int) -> int
    decreases upto,
{
    if upto <= 0 {
        0
    } else if upto - 1 == j {
        acc_sum_x(s, j, upto - 1)
    } else {
        acc_sum_x(s, j, upto - 1) + contrib_x(s[upto - 1], s[j])
    }
}

/// The y component of the acceleration accumulated on body `j` from the
/// attractors with indices below `upto`.
pub open spec fn acc_sum_y(s: Seq<Body>, j: int, upto: int) -> int
    decreases upto,
{
    if upto <= 0 {
        0
    } else if upto - 1 == j {
        acc_sum_y(s, j, upto - 1)
    } else {
        acc_sum_y(s, j, upto - 1) + contrib_y(s[upto - 1], s[j])
    }
}

/// Body `j` with the accelerations of the whole population accumulated.
pub open spec fn forced(s: Seq<Body>, j: int) -> Body {
    Body {
        pos: s[j].pos,
        vel: s[j].vel,
        acc: Acc2 {
            x: acc_sum_x(s, j, s.len() as int) as i128,
            y: acc_sum_y(s, j, s.len() as int) as i128,
        },
        mass: s[j].mass,
    }
}

/// The population after the force and integration phases of one tick.
pub open spec fn phys_spec(s: Seq<Body>) -> Seq<Body> {
    Seq::new(s.len(), |j: int| integrated(forced(s, j)))
}

/// The population after one full tick: forces, integration, clustering
/// and merging.
pub open spec fn step_spec(s: Seq<Body>) -> Seq<Body> {
    merge_spec(phys_spec(s))
}

/// One attractor's acceleration contribution is bounded by its mass
/// times the largest possible displacement (the literal 2199023255552 is
/// twice POS_LIMIT, written out to keep the products linear).
pub proof fn lemma_contrib_bound(att: Body, tgt: Body)
    requires
        body_ok(att),
        body_ok(tgt),
        att.mass <= MASS_CAP,
        tgt.mass <= MASS_CAP,
    ensures
        -(att.mass * 2199023255552) <= contrib_x(att, tgt) <= att.mass * 2199023255552,
        -(att.mass * 2199023255552) <= contrib_y(att, tgt) <= att.mass * 2199023255552,
{
    let d2 = eff_dist_sq(att, tgt);
    let num = GRAV * att.mass * tgt.mass;
    let f = num / d2;
    assert(d2 >= 1);
    assert(GRAV * att.mass * tgt.mass >= 0) by (nonlinear_arith)
        requires
            att.mass >= 0,
            tgt.mass >= 0,
            GRAV == 1,
    ;
    vstd::arithmetic::div_mod::lemma_div_basics_5(num, d2);
    let dx = att.pos.x - tgt.pos.x;
    let dy = att.pos.y - tgt.pos.y;
    assert(-(att.mass * 2199023255552 * tgt.mass) <= f * dx <= att.mass * 2199023255552
        * tgt.mass && -(att.mass * 2199023255552 * tgt.mass) <= f * dy <= att.mass * 2199023255552
        * tgt.mass) by (nonlinear_arith)
        requires
            0 <= f <= GRAV * att.mass * tgt.mass,
            GRAV == 1,
            -2199023255552 <= dx <= 2199023255552,
            -2199023255552 <= dy <= 2199023255552,
            att.mass >= 1,
            tgt.mass >= 1,
    ;
    lemma_trunc_div_mag(f * dx, tgt.mass as int, att.mass * 2199023255552);
    lemma_trunc_div_mag(f * dy, tgt.mass as int, att.mass * 2199023255552);
}

/// The accumulated acceleration is bounded by the summed mass of the
/// attractors seen so far times the largest possible displacement.
pub proof fn lemma_acc_sum_bound(s: Seq<Body>, j: int, upto: int)
    requires
        population_ok(s),
        0 <= j < s.len(),
        0 <= upto <= s.len(),
    ensures
        -(mass_upto(s, upto) * 2199023255552) <= acc_sum_x(s, j, upto) <= mass_upto(s, upto)
            * 2199023255552,
        -(mass_upto(s, upto) * 2199023255552) <= acc_sum_y(s, j, upto) <= mass_upto(s, upto)
            * 2199023255552,
    decreases upto,
{
    if upto > 0 {
        lemma_acc_sum_bound(s, j, upto - 1);
        if upto - 1 != j {
            lemma_contrib_bound(s[upto - 1], s[j]);
        }
    }
}

/// Prefix masses agree on populations whose bodies carry the same
/// masses.
pub proof fn lemma_mass_upto_mass_eq(s1: Seq<Body>, s2: Seq<Body>, k: int)
    requires
        forall|t: int| 0 <= t < k ==> s1[t].mass == s2[t].mass,
    ensures
        mass_upto(s1, k) == mass_upto(s2, k),
    decreases k,
{
    if k > 0 {
        lemma_mass_upto_mass_eq(s1, s2, k - 1);
    }
}

/// Appending a body adds exactly its mass to the total.
pub proof fn lemma_total_mass_push(s: Seq<Body>, b: Body)
    ensures
        total_mass(s.push(b)) == total_mass(s) + b.mass,
{
    lemma_mass_upto_mass_eq(s.push(b), s, s.len() as int);
    assert(s.push(b)[s.len() as int] == b);
}

/// Applies the force phase and the integration phase of one tick: every
/// body accumulates the attraction of every other body (computed on the
/// unmoved snapshot), then every body integrates and clears its
/// accumulator.
fn apply_physics(bodies: &Vec<Body>) -> (out: Vec<Body>)
    requires
        population_ok(bodies@),
        total_mass(bodies@) <= MASS_CAP,
    ensures
        out@ == phys_spec(bodies@),
        population_ok(out@),
        total_mass(out@) == total_mass(bodies@),
{
    let ghost s = bodies@;
    let n = bodies.len();
    let mut out: Vec<Body> = Vec::new();
    let mut j: usize = 0;
    while j < n
        invariant
            j <= n,
            n == s.len(),
            bodies@ == s,
            population_ok(s),
            total_mass(s) <= MASS_CAP,
            out@.len() == j,
            forall|t: int| 0 <= t < j ==> out@[t] == integrated(forced(s, t)),
        decreases n - j,
    {
        let mut b = bodies[j];
        proof {
            assert(body_ok(s[j as int]) && s[j as int].mass <= MASS_CAP);
        }
        let mut i: usize = 0;
        while i < n
            invariant
                j < n,
                i <= n,
                n == s.len(),
                bodies@ == s,
                population_ok(s),
                total_mass(s) <= MASS_CAP,
                b.pos == s[j as int].pos,
                b.vel == s[j as int].vel,
                b.mass == s[j as int].mass,
                b.acc.x as int == acc_sum_x(s, j as int, i as int),
                b.acc.y as int == acc_sum_y(s, j as int, i as int),
            decreases n - i,
        {
            if i != j {
                proof {
                    assert(body_ok(s[i as int]) && s[i as int].mass <= MASS_CAP);
                    assert(body_ok(s[j as int]) && s[j as int].mass <= MASS_CAP);
                    lemma_acc_sum_bound(s, j as int, i as int);
                    crate::merge::lemma_mass_upto_mono(s, i as int, n as int);
                }
                b.attract(&bodies[i]);
            }
            i += 1;
        }
        proof {
            lemma_acc_sum_bound(s, j as int, n as int);
            assert(b == forced(s, j as int));
        }
        b.timestep();
        out.push(b);
        j += 1;
    }
    proof {
        assert(out@ =~= phys_spec(s));
        lemma_mass_upto_mass_eq(out@, s, n as int);
    }
    out
}

/// The gravitational n-body simulation.  It owns the only reference to
/// its body population; callers spawn bodies, advance ticks, and read
/// the population back.
pub struct Simulation {
    bodies: Vec<Body>,
}

impl Simulation {
    /// The current population.
    pub closed spec fn pop(self) -> Seq<Body> {
        self.bodies@
    }

    /// The population is well formed and its total mass is capped.
    pub open spec fn wf(self) -> bool {
        population_ok(self.pop()) && total_mass(self.pop()) <= MASS_CAP
    }

    /// An empty simulation.
    pub fn new() -> (sim: Simulation)
        ensures
            sim.wf(),
            sim.pop().len() == 0,
    {
        Simulation { bodies: Vec::new() }
    }

    /// A read-only snapshot of the body list, for rendering.
    pub fn bodies(&self) -> (r: &Vec<Body>)
        ensures
            r@ == self.pop(),
    {
        &self.bodies
    }

    /// The number of bodies.
    pub fn len(&self) -> (n: usize)
        ensures
            n == self.pop().len(),
    {
        self.bodies.len()
    }

    /// The summed mass of the population.
    pub fn total_mass(&self) -> (t: u64)
        requires
            self.wf(),
        ensures
            t as int == total_mass(self.pop()),
    {
        let ghost s = self.pop();
        let n = self.bodies.len();
        let mut t: u64 = 0;
        let mut k: usize = 0;
        while k < n
            invariant
                k <= n,
                n == s.len(),
                self.bodies@ == s,
                population_ok(s),
                total_mass(s) <= MASS_CAP,
                t as int == mass_upto(s, k as int),
            decreases n - k,
        {
            proof {
                assert(body_ok(s[k as int]) && s[k as int].mass <= MASS_CAP);
                crate::merge::lemma_mass_upto_mono(s, k as int + 1, n as int);
            }
            t = t + self.bodies[k].mass;
            k += 1;
        }
        t
    }

    /// Appends a new body built from the given position, velocity and
    /// mass.  A non-positive mass is rejected and nothing changes; a
    /// positive one yields the new body's index.  The caller keeps the
    /// total mass under the cap, a machine limit.
    pub fn spawn(&mut self, pos: Vec2, vel: Vec2, mass: i64) -> (r: Result<BodyId, SimError>)
        requires
            old(self).wf(),
            mass > 0 ==> total_mass(old(self).pop()) + mass <= MASS_CAP,
        ensures
            final(self).wf(),
            mass <= 0 ==> r == Err::<usize, SimError>(SimError::InvalidMass) && final(self).pop()
                == old(self).pop(),
            mass > 0 ==> r == Ok::<usize, SimError>(old(self).pop().len() as usize)
                && final(self).pop() == old(self).pop().push(spawned_body(pos, vel, mass as u64)),
    {
        if mass <= 0 {
            Err(SimError::InvalidMass)
        } else {
            let id = self.bodies.len();
            let b = Body::new(pos, vel, mass as u64);
            self.bodies.push(b);
            proof {
                lemma_total_mass_push(old(self).pop(), b);
                assert forall|t: int| 0 <= t < self.pop().len() implies (body_ok(
                    #[trigger] self.pop()[t],
                ) && self.pop()[t].mass <= MASS_CAP) by {
                    if t < old(self).pop().len() {
                        assert(body_ok(old(self).pop()[t]) && old(self).pop()[t].mass <= MASS_CAP);
                    } else {
                        crate::merge::lemma_mass_upto_mono(old(self).pop(), 0,
                            old(self).pop().len() as int);
                    }
                }
            }
            Ok(id)
        }
    }

    /// Advances the simulation by one tick: forces on the pre-integration
    /// snapshot, integration, overlap clustering on the moved bodies, and
    /// merging.  The total mass is conserved exactly.
    pub fn step(&mut self)
        requires
            old(self).wf(),
        ensures
            final(self).wf(),
            final(self).pop() == step_spec(old(self).pop()),
            total_mass(final(self).pop()) == total_mass(old(self).pop()),
    {
        let moved = apply_physics(&self.bodies);
        let labels = group(&moved);
        let canon = canonicalize(&moved, &labels);
        let merged = merge(&moved, &canon);
        self.bodies = merged;
    }
}

} // verus!
