//! Connectivity of bodies through chains of pairwise overlaps: the
//! relation that defines a cluster, with the lemmas the grouping proof
//! needs (reflexivity, symmetry, transitivity).

use vstd::prelude::*;

verus! {

use crate::body::dist_sq;
use crate::body::touches;
use crate::body::Body;

/// `i` reaches `j` through a chain of at most `k` pairwise overlaps.
pub open spec fn connected_k(s: Seq<Body>, i: int, j: int, k: nat) -> bool
    decreases k,
{
    if k == 0 {
        i == j
    } else {
        connected_k(s, i, j, (k - 1) as nat) || (exists|m: int|
            0 <= m < s.len() && connected_k(s, i, m, (k - 1) as nat) && touches(s[m], s[j]))
    }
}

/// `i` and `j` are in the same cluster: connected by some chain of
/// pairwise overlaps.
pub open spec fn connected(s: Seq<Body>, i: int, j: int) -> bool {
    exists|k: nat| connected_k(s, i, j, k)
}

/// Overlap is symmetric.
pub proof fn lemma_touches_sym(a: Body, b: Body)
    ensures
        touches(a, b) == touches(b, a),
{
    assert(dist_sq(a, b) == dist_sq(b, a)) by (nonlinear_arith);
}

/// Every body is connected to itself.
pub proof fn lemma_connected_refl(s: Seq<Body>, i: int)
    ensures
        connected(s, i, i),
{
    assert(connected_k(s, i, i, 0));
}

/// A chain to `m` extends across the overlap of `m` and `j`.
pub proof fn lemma_connected_step(s: Seq<Body>, i: int, m: int, j: int)
    requires
        connected(s, i, m),
        0 <= m < s.len(),
        touches(s[m], s[j]),
    ensures
        connected(s, i, j),
{
    let k = choose|k: nat| connected_k(s, i, m, k);
    assert(connected_k(s, i, j, k + 1));
}

/// Connectivity is transitive (helper, by induction on the chain bound).
proof fn lemma_connected_trans_k(s: Seq<Body>, i: int, j: int, l: int, k: nat)
    requires
        connected(s, i, j),
        connected_k(s, j, l, k),
    ensures
        connected(s, i, l),
    decreases k,
{
    if k == 0 {
        assert(j == l);
    } else if connected_k(s, j, l, (k - 1) as nat) {
        lemma_connected_trans_k(s, i, j, l, (k - 1) as nat);
    } else {
        let m = choose|m: int|
            0 <= m < s.len() && connected_k(s, j, m, (k - 1) as nat) && touches(s[m], s[l]);
        lemma_connected_trans_k(s, i, j, m, (k - 1) as nat);
        lemma_connected_step(s, i, m, l);
    }
}

/// Connectivity is transitive.
pub proof fn lemma_connected_trans(s: Seq<Body>, i: int, j: int, l: int)
    requires
        connected(s, i, j),
        connected(s, j, l),
    ensures
        connected(s, i, l),
{
    let k = choose|k: nat| connected_k(s, j, l, k);
    lemma_connected_trans_k(s, i, j, l, k);
}

/// Connectivity is symmetric (helper, by induction on the chain bound).
proof fn lemma_connected_sym_k(s: Seq<Body>, i: int, j: int, k: nat)
    requires
        connected_k(s, i, j, k),
        0 <= j < s.len(),
    ensures
        connected(s, j, i),
    decreases k,
{
    if k == 0 {
        lemma_connected_refl(s, i);
    } else if connected_k(s, i, j, (k - 1) as nat) {
        lemma_connected_sym_k(s, i, j, (k - 1) as nat);
    } else {
        let m = choose|m: int|
            0 <= m < s.len() && connected_k(s, i, m, (k - 1) as nat) && touches(s[m], s[j]);
        lemma_connected_sym_k(s, i, m, (k - 1) as nat);
        lemma_connected_refl(s, j);
        lemma_touches_sym(s[m], s[j]);
        lemma_connected_step(s, j, j, m);
        lemma_connected_trans(s, j, m, i);
    }
}

/// Connectivity is symmetric.
pub proof fn lemma_connected_sym(s: Seq<Body>, i: int, j: int)
    requires
        connected(s, i, j),
        0 <= j < s.len(),
    ensures
        connected(s, j, i),
{
    let k = choose|k: nat| connected_k(s, i, j, k);
    lemma_connected_sym_k(s, i, j, k);
}

/// In a two-body population whose bodies do not overlap each other, the
/// two bodies are not connected (helper, by induction on the bound).
proof fn lemma_two_bodies_not_connected_k(s: Seq<Body>, k: nat)
    requires
        s.len() == 2,
        !touches(s[0], s[1]),
        !touches(s[1], s[0]),
    ensures
        !connected_k(s, 0, 1, k),
    decreases k,
{
    if k > 0 {
        lemma_two_bodies_not_connected_k(s, (k - 1) as nat);
        assert forall|m: int|
            0 <= m < s.len() && connected_k(s, 0, m, (k - 1) as nat) implies !touches(
            s[m],
            s[1],
        ) by {
            if m == 1 {
                lemma_two_bodies_not_connected_k(s, (k - 1) as nat);
            }
        }
    }
}

/// In a two-body population, the bodies are connected only if they
/// themselves overlap: there is nobody else to chain through.
pub proof fn lemma_two_bodies_not_connected(s: Seq<Body>)
    requires
        s.len() == 2,
        !touches(s[0], s[1]),
    ensures
        !connected(s, 0, 1),
{
    lemma_touches_sym(s[0], s[1]);
    assert forall|k: nat| !connected_k(s, 0, 1, k) by {
        lemma_two_bodies_not_connected_k(s, k);
    }
}

} // verus!
