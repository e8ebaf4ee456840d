//! System-wide laws of the simulation, stated and proved over the tick
//! function: mass conservation, clustering soundness, stability of a
//! lone body, the direction of two-body attraction, and invariance of
//! the cluster partition under reordering of the population.

use vstd::prelude::*;

verus! {

use crate::body::body_ok;
use crate::body::contrib_x;
use crate::body::contrib_y;
use crate::body::dist_sq;
use crate::body::eff_dist_sq;
use crate::body::force_quot;
use crate::body::integrated;
use crate::body::population_ok;
use crate::body::touches;
use crate::body::Body;
use crate::conn::connected;
use crate::conn::connected_k;
use crate::conn::lemma_connected_refl;
use crate::conn::lemma_connected_step;
use crate::conn::lemma_two_bodies_not_connected;
use crate::group::canon_of;
use crate::group::lemma_canon_iff;
use crate::group::lemma_canon_props;
use crate::math::trunc_div_s;
use crate::merge::cluster_out;
use crate::merge::lemma_merge_mass;
use crate::merge::members_upto;
use crate::merge::merge_spec;
use crate::merge::merged_upto;
use crate::merge::total_mass;
use crate::sim::acc_sum_x;
use crate::sim::acc_sum_y;
use crate::sim::forced;
use crate::sim::lemma_mass_upto_mass_eq;
use crate::sim::phys_spec;
use crate::sim::step_spec;
use crate::MASS_CAP;

/// The force and integration phases touch no mass, so they leave every
/// body well formed and the total mass unchanged.
pub proof fn lemma_phys_preserves(s: Seq<Body>)
    requires
        population_ok(s),
        total_mass(s) <= MASS_CAP,
    ensures
        population_ok(phys_spec(s)),
        total_mass(phys_spec(s)) == total_mass(s),
        phys_spec(s).len() == s.len(),
{
    let t = phys_spec(s);
    assert forall|k: int| 0 <= k < t.len() implies (body_ok(#[trigger] t[k]) && t[k].mass
        <= MASS_CAP) by {
        assert(body_ok(s[k]) && s[k].mass <= MASS_CAP);
        assert(t[k] == integrated(forced(s, k)));
    }
    lemma_mass_upto_mass_eq(t, s, s.len() as int);
}

/// Mass conservation: a tick without spawns keeps the summed mass of
/// the population exactly; over any sequence of such ticks the total is
/// therefore invariant.
pub proof fn lemma_tick_mass_conservation(s: Seq<Body>)
    requires
        population_ok(s),
        total_mass(s) <= MASS_CAP,
    ensures
        total_mass(step_spec(s)) == total_mass(s),
{
    lemma_phys_preserves(s);
    lemma_merge_mass(phys_spec(s));
}

/// Transitive clustering: bodies chained by pairwise overlaps land in
/// one cluster, even when the chain's ends do not overlap directly.
pub proof fn lemma_chain_clusters_together(s: Seq<Body>, a: int, b: int, c: int)
    requires
        0 <= a < s.len(),
        0 <= b < s.len(),
        0 <= c < s.len(),
        touches(s[a], s[b]),
        touches(s[b], s[c]),
    ensures
        connected(s, a, c),
        canon_of(s, a) == canon_of(s, c),
{
    lemma_connected_refl(s, a);
    lemma_connected_step(s, a, a, b);
    lemma_connected_step(s, a, b, c);
    lemma_canon_iff(s, a, c);
}

/// No spurious merge: bodies that are not connected by any chain of
/// overlaps are left in different clusters.
pub proof fn lemma_no_spurious_merge(s: Seq<Body>, i: int, j: int)
    requires
        0 <= i < s.len(),
        0 <= j < s.len(),
        !connected(s, i, j),
    ensures
        canon_of(s, i) != canon_of(s, j),
{
    lemma_canon_iff(s, i, j);
}

/// No spurious merge, two-body form: when the only two bodies of the
/// population do not overlap after moving, the merge step keeps both
/// unchanged.
pub proof fn lemma_two_bodies_kept(t: Seq<Body>)
    requires
        t.len() == 2,
        !touches(t[0], t[1]),
    ensures
        merge_spec(t) == t,
{
    lemma_two_bodies_not_connected(t);
    lemma_canon_props(t, 0);
    lemma_canon_props(t, 1);
    assert(canon_of(t, 0) == 0);
    if canon_of(t, 1) == 0 {
        assert(connected(t, 0, 1));
    }
    assert(canon_of(t, 1) == 1);
    assert(members_upto(t, 0, 0) =~= Seq::<int>::empty());
    assert(members_upto(t, 0, 1) =~= Seq::<int>::empty().push(0));
    assert(members_upto(t, 0, 2) =~= Seq::<int>::empty().push(0));
    assert(members_upto(t, 1, 0) =~= Seq::<int>::empty());
    assert(members_upto(t, 1, 1) =~= Seq::<int>::empty());
    assert(members_upto(t, 1, 2) =~= Seq::<int>::empty().push(1));
    assert(cluster_out(t, 0) =~= seq![t[0]]);
    assert(cluster_out(t, 1) =~= seq![t[1]]);
    assert(merged_upto(t, 0) =~= Seq::<Body>::empty());
    assert(merged_upto(t, 1) =~= seq![t[0]]);
    assert(merged_upto(t, 2) =~= t);
}

/// A tick in which the two bodies of the population do not overlap even
/// after moving performs no merge: the tick is exactly its physics
/// phase.  Together with the approach lemma this shows two attracting
/// bodies drawing closer across whole ticks until they overlap.
pub proof fn lemma_two_body_tick_keeps_both(s: Seq<Body>)
    requires
        population_ok(s),
        total_mass(s) <= MASS_CAP,
        s.len() == 2,
        !touches(phys_spec(s)[0], phys_spec(s)[1]),
    ensures
        step_spec(s) == phys_spec(s),
{
    lemma_phys_preserves(s);
    lemma_two_bodies_kept(phys_spec(s));
}

/// Single-body stability: a lone body at rest exerts no force on itself
/// and a tick leaves it exactly where it is; by induction it stays
/// there over any number of ticks.
pub proof fn lemma_single_body_stationary(s: Seq<Body>)
    requires
        population_ok(s),
        s.len() == 1,
        s[0].vel.x == 0,
        s[0].vel.y == 0,
    ensures
        step_spec(s) == s,
{
    let t = phys_spec(s);
    assert(acc_sum_x(s, 0, 0) == 0);
    assert(acc_sum_x(s, 0, 1) == 0);
    assert(acc_sum_y(s, 0, 0) == 0);
    assert(acc_sum_y(s, 0, 1) == 0);
    assert(body_ok(s[0]));
    assert(forced(s, 0) == s[0]);
    assert(t[0] == integrated(s[0]));
    assert(integrated(s[0]) == s[0]);
    assert(t =~= s);
    lemma_connected_refl(s, 0);
    lemma_canon_props(s, 0);
    assert(canon_of(s, 0) == 0);
    assert(members_upto(s, 0, 0) =~= Seq::<int>::empty());
    assert(members_upto(s, 0, 1) =~= Seq::<int>::empty().push(0));
    assert(cluster_out(s, 0) =~= seq![s[0]]);
    assert(merged_upto(s, 0) =~= Seq::<Body>::empty());
    assert(merged_upto(s, 1) =~= s);
    assert(step_spec(s) == merge_spec(t));
}

/// Two-body attraction direction: two bodies of equal mass at rest on a
/// horizontal line accelerate toward each other, with equal and opposite
/// accelerations and none at all off the line.
pub proof fn lemma_two_body_direction(s: Seq<Body>)
    requires
        population_ok(s),
        s.len() == 2,
        s[0].mass == s[1].mass,
        s[0].vel.x == 0 && s[0].vel.y == 0,
        s[1].vel.x == 0 && s[1].vel.y == 0,
        s[0].pos.y == s[1].pos.y,
        s[0].pos.x < s[1].pos.x,
    ensures
        acc_sum_x(s, 0, 2) == contrib_x(s[1], s[0]),
        acc_sum_x(s, 1, 2) == contrib_x(s[0], s[1]),
        acc_sum_x(s, 0, 2) >= 0,
        acc_sum_x(s, 1, 2) == -acc_sum_x(s, 0, 2),
        acc_sum_y(s, 0, 2) == 0,
        acc_sum_y(s, 1, 2) == 0,
{
    assert(body_ok(s[0]) && body_ok(s[1]));
    assert(acc_sum_x(s, 0, 0) == 0);
    assert(acc_sum_x(s, 0, 1) == 0);
    assert(acc_sum_x(s, 0, 2) == contrib_x(s[1], s[0]));
    assert(acc_sum_x(s, 1, 0) == 0);
    assert(acc_sum_x(s, 1, 1) == contrib_x(s[0], s[1]));
    assert(acc_sum_x(s, 1, 2) == contrib_x(s[0], s[1]));
    assert(acc_sum_y(s, 0, 0) == 0 && acc_sum_y(s, 0, 1) == 0);
    assert(acc_sum_y(s, 1, 0) == 0);
    assert(dist_sq(s[0], s[1]) == dist_sq(s[1], s[0])) by (nonlinear_arith);
    let d2 = eff_dist_sq(s[1], s[0]);
    let f = force_quot(s[1], s[0]);
    assert(f == force_quot(s[0], s[1]));
    let dx = s[1].pos.x - s[0].pos.x;
    assert(f >= 0) by {
        assert(crate::GRAV * s[1].mass * s[0].mass >= 0) by (nonlinear_arith)
            requires
                s[1].mass >= 1,
                s[0].mass >= 1,
                crate::GRAV == 1,
        ;
        vstd::arithmetic::div_mod::lemma_div_basics_4(
            crate::GRAV * s[1].mass * s[0].mass,
            d2,
        );
    }
    assert(f * dx >= 0) by (nonlinear_arith)
        requires
            f >= 0,
            dx > 0,
    ;
    assert(f * (s[0].pos.x - s[1].pos.x) == -(f * dx)) by (nonlinear_arith)
        requires
            dx == s[1].pos.x - s[0].pos.x,
    ;
    assert(contrib_x(s[1], s[0]) == trunc_div_s(f * dx, s[0].mass as int));
    assert(contrib_x(s[0], s[1]) == trunc_div_s(-(f * dx), s[1].mass as int));
    vstd::arithmetic::div_mod::lemma_div_basics_4(f * dx, s[0].mass as int);
    assert(trunc_div_s(-(f * dx), s[1].mass as int) == -trunc_div_s(f * dx, s[1].mass as int));
    assert(f * (s[1].pos.y - s[0].pos.y) == 0);
    assert(f * (s[0].pos.y - s[1].pos.y) == 0);
    vstd::arithmetic::div_mod::lemma_div_basics_1(s[0].mass as int);
    vstd::arithmetic::div_mod::lemma_div_basics_1(s[1].mass as int);
    assert(contrib_y(s[1], s[0]) == 0);
    assert(contrib_y(s[0], s[1]) == 0);
    assert(acc_sum_y(s, 0, 2) == 0);
    assert(acc_sum_y(s, 1, 1) == 0);
    assert(acc_sum_y(s, 1, 2) == 0);
}

/// Two-body approach: when the accumulated pull is strong enough to move
/// the bodies at least one unit and too weak to make them cross, one
/// tick's physics strictly shrinks their separation.
pub proof fn lemma_two_body_approach(s: Seq<Body>)
    requires
        population_ok(s),
        s.len() == 2,
        s[0].mass == s[1].mass,
        s[0].vel.x == 0 && s[0].vel.y == 0,
        s[1].vel.x == 0 && s[1].vel.y == 0,
        s[0].pos.y == s[1].pos.y,
        s[0].pos.x < s[1].pos.x,
        1 <= contrib_x(s[1], s[0]),
        2 * contrib_x(s[1], s[0]) < s[1].pos.x - s[0].pos.x,
    ensures
        phys_spec(s)[0].pos.x > s[0].pos.x,
        phys_spec(s)[1].pos.x < s[1].pos.x,
        phys_spec(s)[0].pos.y == s[0].pos.y && phys_spec(s)[1].pos.y == s[1].pos.y,
        0 < phys_spec(s)[1].pos.x - phys_spec(s)[0].pos.x < s[1].pos.x - s[0].pos.x,
{
    lemma_two_body_direction(s);
    let a = contrib_x(s[1], s[0]);
    let t = phys_spec(s);
    assert(body_ok(s[0]) && body_ok(s[1]));
    assert(t[0] == integrated(forced(s, 0)));
    assert(t[1] == integrated(forced(s, 1)));
    assert(forced(s, 0).acc.x == a);
    assert(forced(s, 1).acc.x == -a);
    assert(forced(s, 0).acc.y == 0 && forced(s, 1).acc.y == 0);
}

/// Order independence of clustering: relabelling the population through
/// a bijection of indices neither creates nor destroys connectivity, so
/// the partition into clusters is the same up to the renaming (helper,
/// by induction on the chain bound).
proof fn lemma_connected_perm_k(
    s1: Seq<Body>,
    s2: Seq<Body>,
    p: Seq<int>,
    q: Seq<int>,
    i: int,
    j: int,
    k: nat,
)
    requires
        s1.len() == s2.len(),
        p.len() == s1.len(),
        q.len() == s1.len(),
        forall|t: int| 0 <= t < p.len() ==> 0 <= #[trigger] p[t] < s1.len(),
        forall|t: int| 0 <= t < q.len() ==> 0 <= #[trigger] q[t] < s1.len(),
        forall|t: int| 0 <= t < p.len() ==> #[trigger] q[p[t]] == t,
        forall|t: int| 0 <= t < q.len() ==> #[trigger] p[q[t]] == t,
        forall|t: int| 0 <= t < s2.len() ==> #[trigger] s2[t] == s1[p[t]],
        0 <= i < s1.len(),
        0 <= j < s1.len(),
        connected_k(s1, p[i], p[j], k),
    ensures
        connected(s2, i, j),
    decreases k,
{
    if k == 0 {
        assert(p[i] == p[j]);
        assert(q[p[i]] == i && q[p[j]] == j);
        lemma_connected_refl(s2, i);
    } else if connected_k(s1, p[i], p[j], (k - 1) as nat) {
        lemma_connected_perm_k(s1, s2, p, q, i, j, (k - 1) as nat);
    } else {
        let m = choose|m: int|
            0 <= m < s1.len() && connected_k(s1, p[i], m, (k - 1) as nat) && touches(
                s1[m],
                s1[p[j]],
            );
        let u = q[m];
        assert(p[u] == m);
        lemma_connected_perm_k(s1, s2, p, q, i, u, (k - 1) as nat);
        assert(touches(s2[u], s2[j]));
        lemma_connected_step(s2, i, u, j);
    }
}

/// Order independence of clustering: under a bijective renaming of the
/// body indices, two bodies are in one cluster after the renaming
/// exactly when their images were in one cluster before it.
pub proof fn lemma_cluster_perm(s1: Seq<Body>, s2: Seq<Body>, p: Seq<int>, q: Seq<int>, i: int, j: int)
    requires
        s1.len() == s2.len(),
        p.len() == s1.len(),
        q.len() == s1.len(),
        forall|t: int| 0 <= t < p.len() ==> 0 <= #[trigger] p[t] < s1.len(),
        forall|t: int| 0 <= t < q.len() ==> 0 <= #[trigger] q[t] < s1.len(),
        forall|t: int| 0 <= t < p.len() ==> #[trigger] q[p[t]] == t,
        forall|t: int| 0 <= t < q.len() ==> #[trigger] p[q[t]] == t,
        forall|t: int| 0 <= t < s2.len() ==> #[trigger] s2[t] == s1[p[t]],
        0 <= i < s1.len(),
        0 <= j < s1.len(),
    ensures
        connected(s2, i, j) <==> connected(s1, p[i], p[j]),
{
    if connected(s1, p[i], p[j]) {
        let k = choose|k: nat| connected_k(s1, p[i], p[j], k);
        lemma_connected_perm_k(s1, s2, p, q, i, j, k);
    }
    if connected(s2, i, j) {
        let k = choose|k: nat| connected_k(s2, i, j, k);
        lemma_connected_perm_back_k(s1, s2, p, q, i, j, k);
    }
}

/// The reverse direction of the renaming argument (helper, by induction
/// on the chain bound).
proof fn lemma_connected_perm_back_k(
    s1: Seq<Body>,
    s2: Seq<Body>,
    p: Seq<int>,
    q: Seq<int>,
    i: int,
    j: int,
    k: nat,
)
    requires
        s1.len() == s2.len(),
        p.len() == s1.len(),
        q.len() == s1.len(),
        forall|t: int| 0 <= t < p.len() ==> 0 <= #[trigger] p[t] < s1.len(),
        forall|t: int| 0 <= t < q.len() ==> 0 <= #[trigger] q[t] < s1.len(),
        forall|t: int| 0 <= t < p.len() ==> #[trigger] q[p[t]] == t,
        forall|t: int| 0 <= t < q.len() ==> #[trigger] p[q[t]] == t,
        forall|t: int| 0 <= t < s2.len() ==> #[trigger] s2[t] == s1[p[t]],
        0 <= i < s1.len(),
        0 <= j < s1.len(),
        connected_k(s2, i, j, k),
    ensures
        connected(s1, p[i], p[j]),
    decreases k,
{
    if k == 0 {
        lemma_connected_refl(s1, p[i]);
    } else if connected_k(s2, i, j, (k - 1) as nat) {
        lemma_connected_perm_back_k(s1, s2, p, q, i, j, (k - 1) as nat);
    } else {
        let m = choose|m: int|
            0 <= m < s2.len() && connected_k(s2, i, m, (k - 1) as nat) && touches(s2[m], s2[j]);
        lemma_connected_perm_back_k(s1, s2, p, q, i, m, (k - 1) as nat);
        assert(touches(s1[p[m]], s1[p[j]]));
        lemma_connected_step(s1, p[i], p[m], p[j]);
    }
}

/// One component of the acceleration contribution, selected by the same
/// attribute codes the merge sums use: 1 for x, anything else for y.
pub open spec fn contrib_c(att: Body, tgt: Body, which: int) -> int {
    if which == 1 {
        contrib_x(att, tgt)
    } else {
        contrib_y(att, tgt)
    }
}

/// The contribution summed over every body of the population, the body
/// itself included.
pub open spec fn full_sum(s: Seq<Body>, tgt: Body, which: int, upto: int) -> int
    decreases upto,
{
    if upto <= 0 {
        0
    } else {
        full_sum(s, tgt, which, upto - 1) + contrib_c(s[upto - 1], tgt, which)
    }
}

/// A body exerts no force on itself: the displacement toward itself is
/// zero.
pub proof fn lemma_contrib_self_zero(b: Body)
    requires
        1 <= b.mass,
    ensures
        contrib_x(b, b) == 0,
        contrib_y(b, b) == 0,
{
    vstd::arithmetic::div_mod::lemma_div_basics_1(b.mass as int);
    assert(force_quot(b, b) * (b.pos.x - b.pos.x) == 0) by (nonlinear_arith);
    assert(force_quot(b, b) * (b.pos.y - b.pos.y) == 0) by (nonlinear_arith);
}

/// Because the self-contribution vanishes, the per-body accumulation
/// (which skips the body itself) equals the sum over the whole
/// population.
proof fn lemma_acc_sum_is_full_sum(s: Seq<Body>, j: int, upto: int)
    requires
        population_ok(s),
        0 <= j < s.len(),
        0 <= upto <= s.len(),
    ensures
        acc_sum_x(s, j, upto) == full_sum(s, s[j], 1, upto),
        acc_sum_y(s, j, upto) == full_sum(s, s[j], 2, upto),
    decreases upto,
{
    if upto > 0 {
        lemma_acc_sum_is_full_sum(s, j, upto - 1);
        if upto - 1 == j {
            assert(body_ok(s[j]));
            lemma_contrib_self_zero(s[j]);
        }
    }
}

/// The whole-population sum only reads the bodies below `k`.
proof fn lemma_full_sum_prefix(s1: Seq<Body>, s2: Seq<Body>, tgt: Body, which: int, k: int)
    requires
        forall|t: int| 0 <= t < k ==> s1[t] == s2[t],
    ensures
        full_sum(s1, tgt, which, k) == full_sum(s2, tgt, which, k),
    decreases k,
{
    if k > 0 {
        lemma_full_sum_prefix(s1, s2, tgt, which, k - 1);
    }
}

/// Folding the contribution adder over the population computes the
/// whole-population sum.
proof fn lemma_fold_is_full_sum(
    s: Seq<Body>,
    tgt: Body,
    which: int,
    f: spec_fn(Body, int) -> int,
    v: int,
)
    requires
        forall|a: Body, acc: int| #[trigger] f(a, acc) == acc + contrib_c(a, tgt, which),
    ensures
        s.fold_right(f, v) == v + full_sum(s, tgt, which, s.len() as int),
    decreases s.len(),
{
    if s.len() > 0 {
        lemma_fold_is_full_sum(s.drop_last(), tgt, which, f, f(s.last(), v));
        lemma_full_sum_prefix(s, s.drop_last(), tgt, which, s.len() - 1);
    }
}

/// The whole-population sum depends only on the multiset of bodies, not
/// on their order.
proof fn lemma_full_sum_perm(s1: Seq<Body>, s2: Seq<Body>, tgt: Body, which: int)
    requires
        s1.to_multiset() == s2.to_multiset(),
    ensures
        full_sum(s1, tgt, which, s1.len() as int) == full_sum(s2, tgt, which, s2.len() as int),
{
    let f = |a: Body, acc: int| acc + contrib_c(a, tgt, which);
    assert forall|x: Body, y: Body, v: int| #[trigger] f(x, f(y, v)) == f(y, f(x, v)) by {
    }
    vstd::seq_lib::lemma_fold_right_permutation(s1, s2, f, 0);
    lemma_fold_is_full_sum(s1, tgt, which, f, 0);
    lemma_fold_is_full_sum(s2, tgt, which, f, 0);
}

/// Order independence of the physics phase: what one tick's force and
/// integration phases do to a body depends only on the multiset of
/// bodies present, never on the order they are stored in.
pub proof fn lemma_phys_order_independent(s1: Seq<Body>, s2: Seq<Body>, j1: int, j2: int)
    requires
        population_ok(s1),
        s1.to_multiset() == s2.to_multiset(),
        0 <= j1 < s1.len(),
        0 <= j2 < s2.len(),
        s1[j1] == s2[j2],
    ensures
        forced(s1, j1) == forced(s2, j2),
        phys_spec(s1)[j1] == phys_spec(s2)[j2],
{
    broadcast use vstd::seq_lib::group_to_multiset_ensures;

    assert(s1.to_multiset().len() == s1.len());
    assert(s2.to_multiset().len() == s2.len());
    assert(s1.len() == s2.len());
    assert forall|t: int| 0 <= t < s2.len() implies (body_ok(#[trigger] s2[t]) && s2[t].mass
        <= MASS_CAP) by {
        assert(s2.contains(s2[t]));
        assert(s1.to_multiset().count(s2[t]) > 0);
        assert(s1.contains(s2[t]));
        let u = choose|u: int| 0 <= u < s1.len() && s1[u] == s2[t];
        assert(body_ok(s1[u]) && s1[u].mass <= MASS_CAP);
    }
    assert(population_ok(s2));
    lemma_acc_sum_is_full_sum(s1, j1, s1.len() as int);
    lemma_acc_sum_is_full_sum(s2, j2, s2.len() as int);
    lemma_full_sum_perm(s1, s2, s1[j1], 1);
    lemma_full_sum_perm(s1, s2, s1[j1], 2);
}

/// Order independence across a whole tick: when one population is the
/// other reordered (through the index bijection `p` with inverse `q`),
/// the moved bodies correspond index for index, and two bodies end the
/// tick in one cluster exactly when their images do.
pub proof fn lemma_tick_partition_order_independent(
    s1: Seq<Body>,
    s2: Seq<Body>,
    p: Seq<int>,
    q: Seq<int>,
    i: int,
    j: int,
)
    requires
        population_ok(s1),
        s1.to_multiset() == s2.to_multiset(),
        s1.len() == s2.len(),
        p.len() == s1.len(),
        q.len() == s1.len(),
        forall|t: int| 0 <= t < p.len() ==> 0 <= #[trigger] p[t] < s1.len(),
        forall|t: int| 0 <= t < q.len() ==> 0 <= #[trigger] q[t] < s1.len(),
        forall|t: int| 0 <= t < p.len() ==> #[trigger] q[p[t]] == t,
        forall|t: int| 0 <= t < q.len() ==> #[trigger] p[q[t]] == t,
        forall|t: int| 0 <= t < s2.len() ==> #[trigger] s2[t] == s1[p[t]],
        0 <= i < s1.len(),
        0 <= j < s1.len(),
    ensures
        forall|t: int| 0 <= t < s2.len() ==> #[trigger] phys_spec(s2)[t] == phys_spec(s1)[p[t]],
        connected(phys_spec(s2), i, j) <==> connected(phys_spec(s1), p[i], p[j]),
{
    let t1 = phys_spec(s1);
    let t2 = phys_spec(s2);
    assert forall|t: int| 0 <= t < s2.len() implies #[trigger] t2[t] == t1[p[t]] by {
        lemma_phys_order_independent(s1, s2, p[t], t);
    }
    lemma_cluster_perm(t1, t2, p, q, i, j);
}

} // verus!
