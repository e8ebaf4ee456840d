//! Merging: every cluster of two or more overlapping bodies is replaced
//! by one synthesized body whose mass is the sum of the members' masses
//! and whose position and velocity are the arithmetic (count-averaged)
//! means of the members'.  Singleton clusters pass through unchanged.
//! The total mass of the population is conserved exactly.

use vstd::prelude::*;

verus! {

use crate::body::body_ok;
use crate::body::in_range;
use crate::body::population_ok;
use crate::body::Acc2;
use crate::body::Body;
use crate::body::Vec2;
use crate::group::canon_of;
use crate::group::lemma_canon_props;
use crate::math::lemma_trunc_div_mag;
use crate::math::trunc_div;
use crate::math::trunc_div_s;
use crate::MASS_CAP;
use crate::POS_LIMIT;
use crate::VEL_LIMIT;

/// The summed mass of the first `k` bodies.
pub open spec fn mass_upto(s: Seq<Body>, k: int) -> int
    decreases k,
{
    if k <= 0 {
        0
    } else {
        mass_upto(s, k - 1) + s[k - 1].mass
    }
}

/// The total mass of a population.
pub open spec fn total_mass(s: Seq<Body>) -> int {
    mass_upto(s, s.len() as int)
}

/// The indices below `k` whose body lies in cluster `c` (canonical
/// labels), in ascending order.
pub open spec fn members_upto(s: Seq<Body>, c: int, k: int) -> Seq<int>
    decreases k,
{
    if k <= 0 {
        Seq::empty()
    } else if canon_of(s, k - 1) == c {
        members_upto(s, c, k - 1).push(k - 1)
    } else {
        members_upto(s, c, k - 1)
    }
}

/// The members of cluster `c`.
pub open spec fn cluster_members(s: Seq<Body>, c: int) -> Seq<int> {
    members_upto(s, c, s.len() as int)
}

/// One integer attribute of a body, named by a small code: 0 the mass,
/// 1 and 2 the position components, 3 and 4 the velocity components.
pub open spec fn attr(b: Body, which: int) -> int {
    if which == 0 {
        b.mass as int
    } else if which == 1 {
        b.pos.x as int
    } else if which == 2 {
        b.pos.y as int
    } else if which == 3 {
        b.vel.x as int
    } else {
        b.vel.y as int
    }
}

/// A sum of one integer attribute of the bodies at the given indices.
pub open spec fn sum_of(s: Seq<Body>, idx: Seq<int>, which: int) -> int
    decreases idx.len(),
{
    if idx.len() == 0 {
        0
    } else {
        sum_of(s, idx.drop_last(), which) + attr(s[idx.last()], which)
    }
}

/// The body that replaces a cluster of two or more members: summed mass,
/// count-averaged position and velocity (truncating division), and an
/// empty accumulator.
pub open spec fn merged_body(s: Seq<Body>, c: int) -> Body {
    let mem = cluster_members(s, c);
    let cnt = mem.len() as int;
    Body {
        pos: Vec2 {
            x: trunc_div_s(sum_of(s, mem, 1), cnt) as i64,
            y: trunc_div_s(sum_of(s, mem, 2), cnt) as i64,
        },
        vel: Vec2 {
            x: trunc_div_s(sum_of(s, mem, 3), cnt) as i64,
            y: trunc_div_s(sum_of(s, mem, 4), cnt) as i64,
        },
        acc: Acc2 { x: 0, y: 0 },
        mass: sum_of(s, mem, 0) as u64,
    }
}

/// What cluster `c` contributes to the merged population: nothing when it
/// is empty, its single member unchanged, or one synthesized body.
pub open spec fn cluster_out(s: Seq<Body>, c: int) -> Seq<Body> {
    let mem = cluster_members(s, c);
    if mem.len() == 0 {
        Seq::empty()
    } else if mem.len() == 1 {
        seq![s[mem[0]]]
    } else {
        seq![merged_body(s, c)]
    }
}

/// The merged population restricted to clusters with labels below `c`.
pub open spec fn merged_upto(s: Seq<Body>, c: int) -> Seq<Body>
    decreases c,
{
    if c <= 0 {
        Seq::empty()
    } else {
        merged_upto(s, c - 1) + cluster_out(s, c - 1)
    }
}

/// The population after the merge step.
pub open spec fn merge_spec(s: Seq<Body>) -> Seq<Body> {
    merged_upto(s, s.len() as int)
}

/// When every mass is at least one, the mass of a prefix dominates its
/// length.
pub proof fn lemma_mass_lower(s: Seq<Body>, k: int)
    requires
        population_ok(s),
        0 <= k <= s.len(),
    ensures
        mass_upto(s, k) >= k,
    decreases k,
{
    if k > 0 {
        lemma_mass_lower(s, k - 1);
    }
}

/// Prefix masses grow with the prefix.
pub proof fn lemma_mass_upto_mono(s: Seq<Body>, k1: int, k2: int)
    requires
        population_ok(s),
        0 <= k1 <= k2 <= s.len(),
    ensures
        mass_upto(s, k1) <= mass_upto(s, k2),
    decreases k2 - k1,
{
    if k1 < k2 {
        lemma_mass_upto_mono(s, k1, k2 - 1);
    }
}

/// The summed mass of one cluster's members below `k` is at most the
/// summed mass of all bodies below `k`.
pub proof fn lemma_cluster_mass_le(s: Seq<Body>, c: int, k: int)
    requires
        population_ok(s),
        0 <= k <= s.len(),
    ensures
        0 <= sum_of(s, members_upto(s, c, k), 0) <= mass_upto(s, k),
    decreases k,
{
    if k <= 0 {
    } else {
        lemma_cluster_mass_le(s, c, k - 1);
        if canon_of(s, k - 1) == c {
            let mem = members_upto(s, c, k - 1);
            assert(mem.push(k - 1).drop_last() =~= mem);
            assert(mem.push(k - 1).last() == k - 1);
        }
    }
}

/// The summed mass of bodies below `k` whose cluster label is below `c`.
pub open spec fn mass_label_below(s: Seq<Body>, c: int, k: int) -> int
    decreases k,
{
    if k <= 0 {
        0
    } else {
        mass_label_below(s, c, k - 1) + if canon_of(s, k - 1) < c {
            s[k - 1].mass as int
        } else {
            0
        }
    }
}

/// No label lies below zero, so nothing is counted there.
proof fn lemma_mass_label_zero(s: Seq<Body>, k: int)
    requires
        0 <= k <= s.len(),
    ensures
        mass_label_below(s, 0, k) == 0,
    decreases k,
{
    if k > 0 {
        lemma_mass_label_zero(s, k - 1);
        lemma_canon_props(s, k - 1);
    }
}

/// Splitting the bodies with label below `c + 1` into those below `c`
/// and those exactly at `c`.
proof fn lemma_mass_label_step(s: Seq<Body>, c: int, k: int)
    requires
        0 <= k <= s.len(),
    ensures
        mass_label_below(s, c + 1, k) == mass_label_below(s, c, k) + sum_of(
            s,
            members_upto(s, c, k),
            0,
        ),
    decreases k,
{
    if k > 0 {
        lemma_mass_label_step(s, c, k - 1);
        if canon_of(s, k - 1) == c {
            let mem = members_upto(s, c, k - 1);
            assert(mem.push(k - 1).drop_last() =~= mem);
            assert(mem.push(k - 1).last() == k - 1);
        }
    }
}

/// Every body's label is a body index, so counting labels below the
/// population size counts every body.
proof fn lemma_mass_label_all(s: Seq<Body>, k: int)
    requires
        0 <= k <= s.len(),
    ensures
        mass_label_below(s, s.len() as int, k) == mass_upto(s, k),
    decreases k,
{
    if k > 0 {
        lemma_mass_label_all(s, k - 1);
        lemma_canon_props(s, k - 1);
    }
}

/// Total mass distributes over concatenation.
proof fn lemma_total_mass_concat(a: Seq<Body>, b: Seq<Body>)
    ensures
        total_mass(a + b) == total_mass(a) + total_mass(b),
    decreases b.len(),
{
    if b.len() == 0 {
        assert(a + b =~= a);
        lemma_mass_upto_same(a + b, a, a.len() as int);
        assert(mass_upto(b, 0) == 0);
    } else {
        let b0 = b.drop_last();
        lemma_total_mass_concat(a, b0);
        lemma_mass_upto_same(b, b0, b.len() - 1);
        lemma_mass_upto_same(a + b, a + b0, (a + b0).len() as int);
        assert((a + b)[(a + b).len() - 1] == b.last());
        assert(total_mass(b) == mass_upto(b, b.len() - 1) + b.last().mass);
        assert(total_mass(a + b) == mass_upto(a + b, (a + b0).len() as int) + b.last().mass);
        assert(total_mass(a + b0) == mass_upto(a + b, (a + b0).len() as int));
    }
}

/// Prefix masses agree on sequences that agree below `k`.
proof fn lemma_mass_upto_same(s1: Seq<Body>, s2: Seq<Body>, k: int)
    requires
        forall|t: int| 0 <= t < k ==> s1[t] == s2[t],
    ensures
        mass_upto(s1, k) == mass_upto(s2, k),
    decreases k,
{
    if k > 0 {
        lemma_mass_upto_same(s1, s2, k - 1);
    }
}

/// The clusters with labels below `c` carry exactly the mass of the
/// bodies with labels below `c`.
proof fn lemma_merged_upto_mass(s: Seq<Body>, c: int)
    requires
        population_ok(s),
        total_mass(s) <= MASS_CAP,
        0 <= c <= s.len(),
    ensures
        total_mass(merged_upto(s, c)) == mass_label_below(s, c, s.len() as int),
    decreases c,
{
    if c == 0 {
        lemma_mass_label_zero(s, s.len() as int);
    } else {
        lemma_merged_upto_mass(s, c - 1);
        lemma_total_mass_concat(merged_upto(s, c - 1), cluster_out(s, c - 1));
        lemma_mass_label_step(s, c - 1, s.len() as int);
        let mem = cluster_members(s, c - 1);
        lemma_cluster_mass_le(s, c - 1, s.len() as int);
        lemma_mass_upto_mono(s, 0, s.len() as int);
        if mem.len() == 0 {
            assert(sum_of(s, mem, 0) == 0);
            assert(total_mass(cluster_out(s, c - 1)) == 0);
        } else if mem.len() == 1 {
            assert(mem.drop_last() =~= Seq::<int>::empty());
            assert(mem.last() == mem[0]);
            assert(sum_of(s, mem.drop_last(), 0) == 0);
            assert(sum_of(s, mem, 0) == s[mem[0]].mass);
            let q = seq![s[mem[0]]];
            assert(cluster_out(s, c - 1) =~= q);
            assert(mass_upto(q, 0) == 0);
            assert(mass_upto(q, 1) == s[mem[0]].mass);
            assert(total_mass(cluster_out(s, c - 1)) == s[mem[0]].mass);
        } else {
            let mb = merged_body(s, c - 1);
            assert(mb.mass as int == sum_of(s, mem, 0));
            let q = seq![mb];
            assert(cluster_out(s, c - 1) =~= q);
            assert(mass_upto(q, 0) == 0);
            assert(mass_upto(q, 1) == mb.mass);
            assert(total_mass(cluster_out(s, c - 1)) == mb.mass);
        }
        assert(total_mass(cluster_out(s, c - 1)) == sum_of(s, cluster_members(s, c - 1), 0));
        assert(merged_upto(s, c) == merged_upto(s, c - 1) + cluster_out(s, c - 1));
        assert(total_mass(merged_upto(s, c)) == total_mass(merged_upto(s, c - 1)) + total_mass(
            cluster_out(s, c - 1),
        ));
        assert(mass_label_below(s, c, s.len() as int) == mass_label_below(s, c - 1, s.len() as int)
            + sum_of(s, cluster_members(s, c - 1), 0));
    }
}

/// Merging conserves total mass exactly.
pub proof fn lemma_merge_mass(s: Seq<Body>)
    requires
        population_ok(s),
        total_mass(s) <= MASS_CAP,
    ensures
        total_mass(merge_spec(s)) == total_mass(s),
{
    lemma_merged_upto_mass(s, s.len() as int);
    lemma_mass_label_all(s, s.len() as int);
}

/// Collapses each cluster of the (canonically labelled) population into
/// its merged body, leaving singleton clusters untouched.
pub fn merge(bodies: &Vec<Body>, canon: &Vec<usize>) -> (out: Vec<Body>)
    requires
        population_ok(bodies@),
        total_mass(bodies@) <= MASS_CAP,
        canon@.len() == bodies@.len(),
        forall|k: int| 0 <= k < bodies@.len() ==> #[trigger] canon@[k] == canon_of(bodies@, k),
    ensures
        out@ == merge_spec(bodies@),
        population_ok(out@),
        total_mass(out@) == total_mass(bodies@),
{
    let ghost s = bodies@;
    let n = bodies.len();
    let mut out: Vec<Body> = Vec::new();
    let mut c: usize = 0;
    proof {
        lemma_mass_lower(s, n as int);
    }
    while c < n
        invariant
            c <= n,
            n == s.len(),
            bodies@ == s,
            canon@.len() == n,
            forall|k: int| 0 <= k < n ==> #[trigger] canon@[k] == canon_of(s, k),
            population_ok(s),
            total_mass(s) <= MASS_CAP,
            n <= MASS_CAP,
            out@ == merged_upto(s, c as int),
            population_ok(out@),
        decreases n - c,
    {
        // the literal 1099511627776 in the bounds below is POS_LIMIT
        // (and equally VEL_LIMIT), written out so the products with the
        // running count stay linear for the solver
        let mut cnt: usize = 0;
        let mut idx: usize = 0;
        let mut smass: u64 = 0;
        let mut spx: i128 = 0;
        let mut spy: i128 = 0;
        let mut svx: i128 = 0;
        let mut svy: i128 = 0;
        let mut k: usize = 0;
        while k < n
            invariant
                c < n,
                k <= n,
                n == s.len(),
                bodies@ == s,
                canon@.len() == n,
                forall|t: int| 0 <= t < n ==> #[trigger] canon@[t] == canon_of(s, t),
                population_ok(s),
                total_mass(s) <= MASS_CAP,
                n <= MASS_CAP,
                cnt as int == members_upto(s, c as int, k as int).len(),
                cnt <= k,
                cnt >= 1 ==> (idx < k && canon_of(s, idx as int) == c as int),
                cnt == 1 ==> members_upto(s, c as int, k as int) =~= seq![idx as int],
                smass as int == sum_of(s, members_upto(s, c as int, k as int), 0),
                smass as int <= mass_upto(s, k as int),
                smass >= cnt,
                spx == sum_of(s, members_upto(s, c as int, k as int), 1),
                spy == sum_of(s, members_upto(s, c as int, k as int), 2),
                svx == sum_of(s, members_upto(s, c as int, k as int), 3),
                svy == sum_of(s, members_upto(s, c as int, k as int), 4),
                -(cnt as i128) * 1099511627776 <= spx <= (cnt as i128) * 1099511627776,
                -(cnt as i128) * 1099511627776 <= spy <= (cnt as i128) * 1099511627776,
                -(cnt as i128) * 1099511627776 <= svx <= (cnt as i128) * 1099511627776,
                -(cnt as i128) * 1099511627776 <= svy <= (cnt as i128) * 1099511627776,
            decreases n - k,
        {
            proof {
                lemma_mass_upto_mono(s, k as int, n as int);
            }
            if canon[k] == c {
                let ghost mem = members_upto(s, c as int, k as int);
                proof {
                    assert(mem.push(k as int).drop_last() =~= mem);
                    assert(mem.push(k as int).last() == k as int);
                }
                let b = bodies[k];
                proof {
                    assert(body_ok(s[k as int]) && s[k as int].mass <= MASS_CAP);
                }
                cnt = cnt + 1;
                idx = k;
                smass = smass + b.mass;
                spx = spx + b.pos.x as i128;
                spy = spy + b.pos.y as i128;
                svx = svx + b.vel.x as i128;
                svy = svy + b.vel.y as i128;
            }
            k += 1;
        }
        let ghost mem = cluster_members(s, c as int);
        if cnt == 1 {
            let b = bodies[idx];
            out.push(b);
            proof {
                assert(cluster_out(s, c as int) =~= seq![s[idx as int]]);
                assert(out@ =~= merged_upto(s, c as int + 1));
            }
        } else if cnt >= 2 {
            proof {
                lemma_trunc_div_mag(spx as int, cnt as int, 1099511627776);
                lemma_trunc_div_mag(spy as int, cnt as int, 1099511627776);
                lemma_trunc_div_mag(svx as int, cnt as int, 1099511627776);
                lemma_trunc_div_mag(svy as int, cnt as int, 1099511627776);
            }
            let merged = Body {
                pos: Vec2 {
                    x: trunc_div(spx, cnt as i128) as i64,
                    y: trunc_div(spy, cnt as i128) as i64,
                },
                vel: Vec2 {
                    x: trunc_div(svx, cnt as i128) as i64,
                    y: trunc_div(svy, cnt as i128) as i64,
                },
                acc: Acc2 { x: 0, y: 0 },
                mass: smass,
            };
            out.push(merged);
            proof {
                assert(merged == merged_body(s, c as int));
                assert(cluster_out(s, c as int) =~= seq![merged_body(s, c as int)]);
                assert(out@ =~= merged_upto(s, c as int + 1));
            }
        } else {
            proof {
                assert(cluster_out(s, c as int) =~= Seq::<Body>::empty());
                assert(out@ =~= merged_upto(s, c as int + 1));
            }
        }
        c += 1;
    }
    proof {
        lemma_merge_mass(s);
    }
    out
}

} // verus!
