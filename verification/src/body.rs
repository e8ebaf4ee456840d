//! Bodies: point masses with integer position, velocity and accumulated
//! acceleration, the pairwise force law, the integrator, and the overlap
//! test used for clustering.

use vstd::prelude::*;

verus! {

use crate::math::clamp_i128;
use crate::math::clamp_s;
use crate::math::isqrt;
use crate::math::sqrt_floor;
use crate::math::trunc_div;
use crate::math::trunc_div_s;
use crate::GRAV;
use crate::MASS_CAP;
use crate::POS_LIMIT;
use crate::SIZE_MULT;
use crate::VEL_LIMIT;

/// Accumulated acceleration stays well inside this range during a tick.
pub const ACC_RANGE: i128 = 0x1000000000000000000000000000000;

/// Per-pair force components stay well inside this range.
pub const FORCE_RANGE: i128 = 0x40000000000000000000000000000000;

/// A two-dimensional integer vector (position or velocity).
#[derive(Clone, Copy, PartialEq, Eq, Structural, Debug)]
pub struct Vec2 {
    pub x: i64,
    pub y: i64,
}

/// A two-dimensional accumulator for acceleration, wide enough to sum the
/// force contributions of the whole population without overflow.
#[derive(Clone, Copy, PartialEq, Eq, Structural, Debug)]
pub struct Acc2 {
    pub x: i128,
    pub y: i128,
}

/// A point mass: position, velocity, accumulated acceleration (transient,
/// zero between ticks), and a positive mass.
#[derive(Clone, Copy, PartialEq, Eq, Structural, Debug)]
pub struct Body {
    pub pos: Vec2,
    pub vel: Vec2,
    pub acc: Acc2,
    pub mass: u64,
}

/// Both components of `v` lie in `[-lim, lim]`.
pub open spec fn in_range(v: Vec2, lim: int) -> bool {
    -lim <= v.x <= lim && -lim <= v.y <= lim
}

/// A body at rest between ticks: coordinates in range, no pending
/// acceleration, and a positive mass.
pub open spec fn body_ok(b: Body) -> bool {
    &&& in_range(b.pos, POS_LIMIT as int)
    &&& in_range(b.vel, VEL_LIMIT as int)
    &&& b.acc.x == 0
    &&& b.acc.y == 0
    &&& 1 <= b.mass
}

/// Every body of the population is well formed and below the mass cap.
pub open spec fn population_ok(s: Seq<Body>) -> bool {
    forall|k: int| 0 <= k < s.len() ==> (body_ok(#[trigger] s[k]) && s[k].mass <= MASS_CAP)
}

/// The squared Euclidean distance between the centers of `a` and `b`.
pub open spec fn dist_sq(a: Body, b: Body) -> int {
    let dx = a.pos.x - b.pos.x;
    let dy = a.pos.y - b.pos.y;
    dx * dx + dy * dy
}

/// The radius derived from a mass: `isqrt(mass) * SIZE_MULT`.
pub open spec fn radius_of(m: int) -> int {
    sqrt_floor(m) * SIZE_MULT
}

/// Two bodies overlap when the distance between their centers is below
/// the sum of their radii (compared in squared form).
pub open spec fn touches(a: Body, b: Body) -> bool {
    let s = radius_of(a.mass as int) + radius_of(b.mass as int);
    dist_sq(a, b) < s * s
}

/// The squared separation used by the force law: the true squared
/// distance, clamped below by 1 to defuse the singularity at zero
/// separation (coincident bodies attract as if one unit apart).
pub open spec fn eff_dist_sq(a: Body, b: Body) -> int {
    if dist_sq(a, b) < 1 {
        1
    } else {
        dist_sq(a, b)
    }
}

/// The scalar force quotient of the gravity law for attractor `att` and
/// attracted body `tgt`: `G * m1 * m2 / r^2`, truncated.
pub open spec fn force_quot(att: Body, tgt: Body) -> int {
    GRAV * att.mass * tgt.mass / eff_dist_sq(att, tgt)
}

/// The x component of the acceleration that `att` contributes to `tgt`
/// in one tick: the force times the displacement toward the attractor,
/// divided by the attracted body's own mass.
pub open spec fn contrib_x(att: Body, tgt: Body) -> int {
    trunc_div_s(force_quot(att, tgt) * (att.pos.x - tgt.pos.x), tgt.mass as int)
}

/// The y component of the acceleration that `att` contributes to `tgt`.
pub open spec fn contrib_y(att: Body, tgt: Body) -> int {
    trunc_div_s(force_quot(att, tgt) * (att.pos.y - tgt.pos.y), tgt.mass as int)
}

/// The body `b` after one integration step: velocity picks up the
/// accumulated acceleration, position picks up the new velocity (each
/// clamped to its range), and the accumulator is cleared.
pub open spec fn integrated(b: Body) -> Body {
    let vx = clamp_s(b.vel.x + b.acc.x, VEL_LIMIT as int);
    let vy = clamp_s(b.vel.y + b.acc.y, VEL_LIMIT as int);
    let px = clamp_s(b.pos.x + vx, POS_LIMIT as int);
    let py = clamp_s(b.pos.y + vy, POS_LIMIT as int);
    Body {
        pos: Vec2 { x: px as i64, y: py as i64 },
        vel: Vec2 { x: vx as i64, y: vy as i64 },
        acc: Acc2 { x: 0, y: 0 },
        mass: b.mass,
    }
}

/// A freshly spawned body: coordinates clamped into range, no pending
/// acceleration.
pub open spec fn spawned_body(pos: Vec2, vel: Vec2, mass: u64) -> Body {
    Body {
        pos: Vec2 {
            x: clamp_s(pos.x as int, POS_LIMIT as int) as i64,
            y: clamp_s(pos.y as int, POS_LIMIT as int) as i64,
        },
        vel: Vec2 {
            x: clamp_s(vel.x as int, VEL_LIMIT as int) as i64,
            y: clamp_s(vel.y as int, VEL_LIMIT as int) as i64,
        },
        acc: Acc2 { x: 0, y: 0 },
        mass,
    }
}

impl Body {
    /// Creates a body at rest in its accumulator from the given position,
    /// velocity and mass, clamping the coordinates into range.
    pub fn new(pos: Vec2, vel: Vec2, mass: u64) -> (b: Body)
        requires
            1 <= mass,
        ensures
            b == spawned_body(pos, vel, mass),
            body_ok(b),
    {
        Body {
            pos: Vec2 {
                x: clamp_i128(pos.x as i128, POS_LIMIT),
                y: clamp_i128(pos.y as i128, POS_LIMIT),
            },
            vel: Vec2 {
                x: clamp_i128(vel.x as i128, VEL_LIMIT),
                y: clamp_i128(vel.y as i128, VEL_LIMIT),
            },
            acc: Acc2 { x: 0, y: 0 },
            mass,
        }
    }

    /// Adds a force to the accumulator, dividing by this body's own mass
    /// to turn it into an acceleration.
    pub fn add_force(&mut self, fx: i128, fy: i128)
        requires
            1 <= old(self).mass,
            -FORCE_RANGE <= fx <= FORCE_RANGE,
            -FORCE_RANGE <= fy <= FORCE_RANGE,
            -ACC_RANGE <= old(self).acc.x <= ACC_RANGE,
            -ACC_RANGE <= old(self).acc.y <= ACC_RANGE,
        ensures
            final(self).acc.x == old(self).acc.x + trunc_div_s(fx as int, old(self).mass as int),
            final(self).acc.y == old(self).acc.y + trunc_div_s(fy as int, old(self).mass as int),
            final(self).pos == old(self).pos,
            final(self).vel == old(self).vel,
            final(self).mass == old(self).mass,
    {
        proof {
            assert(FORCE_RANGE * (self.mass as int) >= FORCE_RANGE) by (nonlinear_arith)
                requires
                    1 <= self.mass,
                    FORCE_RANGE == 0x40000000000000000000000000000000,
            ;
        }
        let qx = trunc_div(fx, self.mass as i128);
        let qy = trunc_div(fy, self.mass as i128);
        proof {
            crate::math::lemma_trunc_div_mag(fx as int, self.mass as int, FORCE_RANGE as int);
            crate::math::lemma_trunc_div_mag(fy as int, self.mass as int, FORCE_RANGE as int);
        }
        self.acc.x = self.acc.x + qx;
        self.acc.y = self.acc.y + qy;
    }

    /// One integration step over a unit timestep: `vel += acc`,
    /// `pos += vel` (with the new velocity), then the accumulator is
    /// cleared.  Each coordinate is clamped to its range.
    pub fn timestep(&mut self)
        requires
            -FORCE_RANGE <= old(self).acc.x <= FORCE_RANGE,
            -FORCE_RANGE <= old(self).acc.y <= FORCE_RANGE,
        ensures
            *final(self) == integrated(*old(self)),
    {
        let vx = clamp_i128(self.vel.x as i128 + self.acc.x, VEL_LIMIT);
        let vy = clamp_i128(self.vel.y as i128 + self.acc.y, VEL_LIMIT);
        let px = clamp_i128(self.pos.x as i128 + vx as i128, POS_LIMIT);
        let py = clamp_i128(self.pos.y as i128 + vy as i128, POS_LIMIT);
        self.vel = Vec2 { x: vx, y: vy };
        self.pos = Vec2 { x: px, y: py };
        self.acc = Acc2 { x: 0, y: 0 };
    }

    /// Accumulates the gravitational pull of `other` (the attractor) on
    /// this body, clamping zero separation to one unit.
    pub fn attract(&mut self, other: &Body)
        requires
            1 <= old(self).mass <= MASS_CAP,
            1 <= other.mass <= MASS_CAP,
            in_range(old(self).pos, POS_LIMIT as int),
            in_range(other.pos, POS_LIMIT as int),
            -ACC_RANGE <= old(self).acc.x <= ACC_RANGE,
            -ACC_RANGE <= old(self).acc.y <= ACC_RANGE,
        ensures
            final(self).acc.x == old(self).acc.x + contrib_x(*other, *old(self)),
            final(self).acc.y == old(self).acc.y + contrib_y(*other, *old(self)),
            final(self).pos == old(self).pos,
            final(self).vel == old(self).vel,
            final(self).mass == old(self).mass,
    {
        let dx: i128 = other.pos.x as i128 - self.pos.x as i128;
        let dy: i128 = other.pos.y as i128 - self.pos.y as i128;
        proof {
            assert(dx * dx + dy * dy <= 0x80000000000000000000000) by (nonlinear_arith)
                requires
                    -0x20000000000 <= dx <= 0x20000000000,
                    -0x20000000000 <= dy <= 0x20000000000,
            ;
            assert(dx * dx >= 0 && dy * dy >= 0) by (nonlinear_arith);
        }
        let d2: i128 = dx * dx + dy * dy;
        let eff: u128 = if d2 < 1 {
            1
        } else {
            d2 as u128
        };
        proof {
            assert((GRAV as int) * (other.mass as int) * (self.mass as int)
                <= 0x100000000000000000000) by (nonlinear_arith)
                requires
                    GRAV == 1,
                    0 <= other.mass <= 0x10000000000,
                    0 <= self.mass <= 0x10000000000,
            ;
        }
        let num: u128 = (GRAV as u128) * (other.mass as u128) * (self.mass as u128);
        let f: u128 = num / eff;
        proof {
            vstd::arithmetic::div_mod::lemma_div_basics_5(num as int, eff as int);
        }
        proof {
            assert(-FORCE_RANGE <= (f as int) * dx <= FORCE_RANGE && -FORCE_RANGE <= (f as int)
                * dy <= FORCE_RANGE) by (nonlinear_arith)
                requires
                    0 <= f <= 0x100000000000000000000,
                    -0x20000000000 <= dx <= 0x20000000000,
                    -0x20000000000 <= dy <= 0x20000000000,
                    FORCE_RANGE == 0x40000000000000000000000000000000,
            ;
        }
        let fx: i128 = (f as i128) * dx;
        let fy: i128 = (f as i128) * dy;
        self.add_force(fx, fy);
    }

    /// The radius of this body, derived from its mass.
    pub fn radius(&self) -> (r: u64)
        requires
            self.mass <= MASS_CAP,
        ensures
            r as int == radius_of(self.mass as int),
            r <= 3145728,
    {
        isqrt(self.mass) * SIZE_MULT
    }

    /// Whether this body overlaps `other`: center distance strictly below
    /// the sum of the two radii.
    pub fn overlaps(&self, other: &Body) -> (r: bool)
        requires
            self.mass <= MASS_CAP,
            other.mass <= MASS_CAP,
            in_range(self.pos, POS_LIMIT as int),
            in_range(other.pos, POS_LIMIT as int),
        ensures
            r == touches(*self, *other),
    {
        let s: u64 = self.radius() + other.radius();
        let dx: i128 = self.pos.x as i128 - other.pos.x as i128;
        let dy: i128 = self.pos.y as i128 - other.pos.y as i128;
        proof {
            assert(dx * dx + dy * dy <= 0x80000000000000000000000 && (s as int) * (s as int)
                <= 0x100000000000000) by (nonlinear_arith)
                requires
                    -0x20000000000 <= dx <= 0x20000000000,
                    -0x20000000000 <= dy <= 0x20000000000,
                    0 <= s <= 6291456,
            ;
            assert(dx * dx >= 0 && dy * dy >= 0) by (nonlinear_arith);
        }
        let d2: i128 = dx * dx + dy * dy;
        d2 < (s as i128) * (s as i128)
    }
}

} // verus!
