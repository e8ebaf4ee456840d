//! Grouping bodies into overlap clusters: a union-by-incorporation pass
//! over all unordered pairs, proved to partition the population exactly
//! into the connected components of the overlap relation, followed by a
//! canonicalization that names each cluster by its least member index.

use vstd::prelude::*;

verus! {

use crate::body::population_ok;
use crate::body::touches;
use crate::body::Body;
use crate::conn::connected;
use crate::conn::connected_k;
use crate::conn::lemma_connected_refl;
use crate::conn::lemma_connected_step;
use crate::conn::lemma_connected_sym;
use crate::conn::lemma_connected_trans;
use crate::conn::lemma_touches_sym;

/// The labelling has one entry per body, each a valid body index.
pub open spec fn labels_wf(s: Seq<Body>, labels: Seq<usize>) -> bool {
    labels.len() == s.len() && (forall|k: int| 0 <= k < labels.len() ==> #[trigger] labels[k]
        < s.len())
}

/// Equal labels only join connected bodies.
pub open spec fn labels_sound(s: Seq<Body>, labels: Seq<usize>) -> bool {
    forall|a: int, b: int|
        #![trigger labels[a], labels[b]]
        0 <= a < s.len() && 0 <= b < s.len() && labels[a] == labels[b] ==> connected(s, a, b)
}

/// Every overlapping pair shares a label.
pub open spec fn labels_respect(s: Seq<Body>, labels: Seq<usize>) -> bool {
    forall|a: int, b: int|
        #![trigger labels[a], labels[b]]
        0 <= a < s.len() && 0 <= b < s.len() && touches(s[a], s[b]) ==> labels[a] == labels[b]
}

/// The labels exactly partition the population into its overlap-connected
/// components.
pub open spec fn labels_exact(s: Seq<Body>, labels: Seq<usize>) -> bool {
    forall|a: int, b: int|
        #![trigger labels[a], labels[b]]
        0 <= a < s.len() && 0 <= b < s.len() ==> (labels[a] == labels[b] <==> connected(s, a, b))
}

/// When every overlapping pair shares a label, so does every connected
/// pair (helper, by induction on the chain bound).
proof fn lemma_respect_connected_k(s: Seq<Body>, labels: Seq<usize>, i: int, j: int, k: nat)
    requires
        labels_respect(s, labels),
        connected_k(s, i, j, k),
        0 <= i < s.len(),
        0 <= j < s.len(),
    ensures
        labels[i] == labels[j],
    decreases k,
{
    if k == 0 {
    } else if connected_k(s, i, j, (k - 1) as nat) {
        lemma_respect_connected_k(s, labels, i, j, (k - 1) as nat);
    } else {
        let m = choose|m: int|
            0 <= m < s.len() && connected_k(s, i, m, (k - 1) as nat) && touches(s[m], s[j]);
        lemma_respect_connected_k(s, labels, i, m, (k - 1) as nat);
    }
}

/// When every overlapping pair shares a label, so does every connected
/// pair.
pub proof fn lemma_respect_connected(s: Seq<Body>, labels: Seq<usize>, i: int, j: int)
    requires
        labels_respect(s, labels),
        connected(s, i, j),
        0 <= i < s.len(),
        0 <= j < s.len(),
    ensures
        labels[i] == labels[j],
{
    let k = choose|k: nat| connected_k(s, i, j, k);
    lemma_respect_connected_k(s, labels, i, j, k);
}

/// Repoints every entry bearing label `from` to label `to`: the second
/// group is incorporated into the first.
fn relabel(labels: &mut Vec<usize>, from: usize, to: usize)
    ensures
        final(labels).len() == old(labels).len(),
        forall|k: int| 0 <= k < old(labels).len() ==> final(labels)[k] == (if old(labels)[k]
            == from {
            to
        } else {
            old(labels)[k]
        }),
{
    let n = labels.len();
    let mut k: usize = 0;
    while k < n
        invariant
            n == old(labels).len(),
            labels.len() == n,
            k <= n,
            forall|t: int| 0 <= t < k ==> labels[t] == (if old(labels)[t] == from {
                to
            } else {
                old(labels)[t]
            }),
            forall|t: int| k <= t < n ==> labels[t] == old(labels)[t],
        decreases n - k,
    {
        if labels[k] == from {
            labels.set(k, to);
        }
        k += 1;
    }
}

/// Scans all unordered pairs of bodies and unions the groups of every
/// overlapping pair, producing a labelling that is exactly the partition
/// into overlap-connected clusters.
pub fn group(bodies: &Vec<Body>) -> (labels: Vec<usize>)
    requires
        population_ok(bodies@),
    ensures
        labels_wf(bodies@, labels@),
        labels_exact(bodies@, labels@),
{
    let ghost s = bodies@;
    let n = bodies.len();
    let mut labels: Vec<usize> = Vec::new();
    let mut t: usize = 0;
    while t < n
        invariant
            t <= n,
            labels.len() == t,
            forall|k: int| 0 <= k < t ==> labels[k] == k,
        decreases n - t,
    {
        labels.push(t);
        t += 1;
    }
    proof {
        assert forall|a: int, b: int|
            0 <= a < s.len() && 0 <= b < s.len() && #[trigger] labels@[a]
                == #[trigger] labels@[b] implies connected(s, a, b) by {
            lemma_connected_refl(s, a);
        }
    }
    let mut i: usize = 0;
    while i < n
        invariant
            i <= n,
            n == s.len(),
            bodies@ == s,
            labels_wf(s, labels@),
            labels_sound(s, labels@),
            population_ok(s),
            forall|a: int, b: int|
                #![trigger labels@[a], labels@[b]]
                0 <= a < b < n && a < i && touches(s[a], s[b]) ==> labels@[a] == labels@[b],
        decreases n - i,
    {
        let mut j: usize = i + 1;
        while j < n
            invariant
                i < n,
                i + 1 <= j <= n,
                n == s.len(),
                bodies@ == s,
                labels_wf(s, labels@),
                labels_sound(s, labels@),
                population_ok(s),
                forall|a: int, b: int|
                    #![trigger labels@[a], labels@[b]]
                    0 <= a < b < n && (a < i || (a == i && b < j)) && touches(s[a], s[b])
                        ==> labels@[a] == labels@[b],
            decreases n - j,
        {
            let bi = bodies[i];
            let bj = bodies[j];
            if bi.overlaps(&bj) {
                let li = labels[i];
                let lj = labels[j];
                if li != lj {
                    let ghost before = labels@;
                    relabel(&mut labels, lj, li);
                    proof {
                        assert forall|a: int, b: int|
                            0 <= a < s.len() && 0 <= b < s.len() && #[trigger] labels@[a]
                                == #[trigger] labels@[b] implies connected(s, a, b) by {
                            if before[a] == before[b] {
                                assert(connected(s, a, b));
                            } else if before[a] == lj && before[b] == li {
                                assert(connected(s, a, j as int));
                                lemma_touches_sym(s[i as int], s[j as int]);
                                lemma_connected_refl(s, j as int);
                                lemma_connected_step(s, j as int, j as int, i as int);
                                lemma_connected_trans(s, a, j as int, i as int);
                                assert(connected(s, i as int, b));
                                lemma_connected_trans(s, a, i as int, b);
                            } else if before[a] == li && before[b] == lj {
                                assert(connected(s, a, i as int));
                                lemma_connected_refl(s, i as int);
                                lemma_connected_step(s, i as int, i as int, j as int);
                                lemma_connected_trans(s, a, i as int, j as int);
                                assert(connected(s, j as int, b));
                                lemma_connected_trans(s, a, j as int, b);
                            }
                        }
                    }
                }
            }
            j += 1;
        }
        i += 1;
    }
    proof {
        assert forall|a: int, b: int|
            0 <= a < s.len() && 0 <= b < s.len() && touches(s[a], s[b]) implies #[trigger] labels@[a]
            == #[trigger] labels@[b] by {
            if a < b {
                assert(labels@[a] == labels@[b]);
            } else if b < a {
                lemma_touches_sym(s[a], s[b]);
                assert(labels@[b] == labels@[a]);
            }
        }
        assert forall|a: int, b: int|
            0 <= a < s.len() && 0 <= b < s.len() && connected(s, a, b) implies #[trigger] labels@[a]
            == #[trigger] labels@[b] by {
            lemma_respect_connected(s, labels@, a, b);
        }
    }
    labels
}

/// The least index at or after `m` whose body is connected to body `k`
/// (or the population size when there is none).
pub open spec fn first_conn_from(s: Seq<Body>, k: int, m: int) -> int
    recommends
        0 <= m <= s.len(),
    decreases s.len() - m,
        when 0 <= m <= s.len()
{
    if m >= s.len() {
        s.len() as int
    } else if connected(s, m, k) {
        m
    } else {
        first_conn_from(s, k, m + 1)
    }
}

/// The canonical cluster label of body `k`: the least index connected to
/// it.
pub open spec fn canon_of(s: Seq<Body>, k: int) -> int {
    first_conn_from(s, k, 0)
}

/// What the scan for the least connected index returns: a value between
/// `m` and the first connected index, connected itself when in range, with
/// nothing connected below it.
proof fn lemma_first_conn_from(s: Seq<Body>, k: int, m: int)
    requires
        0 <= m <= s.len(),
    ensures
        m <= first_conn_from(s, k, m) <= s.len(),
        first_conn_from(s, k, m) < s.len() ==> connected(s, first_conn_from(s, k, m), k),
        forall|t: int| m <= t < first_conn_from(s, k, m) ==> !connected(s, t, k),
    decreases s.len() - m,
{
    if m < s.len() && !connected(s, m, k) {
        lemma_first_conn_from(s, k, m + 1);
    }
}

/// The canonical label of a body in range is a body index at most `k`,
/// is connected to `k`, and nothing below it is.
pub proof fn lemma_canon_props(s: Seq<Body>, k: int)
    requires
        0 <= k < s.len(),
    ensures
        0 <= canon_of(s, k) <= k,
        connected(s, canon_of(s, k), k),
        forall|t: int| 0 <= t < canon_of(s, k) ==> !connected(s, t, k),
{
    lemma_first_conn_from(s, k, 0);
    lemma_connected_refl(s, k);
    if canon_of(s, k) > k {
        assert(!connected(s, k, k));
    }
}

/// Two bodies bear the same canonical label exactly when they are
/// connected.
pub proof fn lemma_canon_iff(s: Seq<Body>, a: int, b: int)
    requires
        0 <= a < s.len(),
        0 <= b < s.len(),
    ensures
        canon_of(s, a) == canon_of(s, b) <==> connected(s, a, b),
{
    lemma_canon_props(s, a);
    lemma_canon_props(s, b);
    let ra = canon_of(s, a);
    let rb = canon_of(s, b);
    if connected(s, a, b) {
        // ra is connected to b as well, so rb <= ra; and symmetrically.
        lemma_connected_trans(s, ra, a, b);
        if rb > ra {
            assert(!connected(s, ra, b));
        }
        lemma_connected_sym(s, a, b);
        lemma_connected_trans(s, rb, b, a);
        if ra > rb {
            assert(!connected(s, rb, a));
        }
    } else {
        if ra == rb {
            lemma_connected_sym(s, ra, a);
            lemma_connected_trans(s, a, ra, b);
        }
    }
}

/// Replaces a cluster-exact labelling by the canonical one that names
/// each cluster after its least member index.
pub fn canonicalize(bodies: &Vec<Body>, labels: &Vec<usize>) -> (canon: Vec<usize>)
    requires
        labels_wf(bodies@, labels@),
        labels_exact(bodies@, labels@),
    ensures
        canon@.len() == bodies@.len(),
        forall|k: int| 0 <= k < bodies@.len() ==> #[trigger] canon@[k] == canon_of(bodies@, k),
{
    let ghost s = bodies@;
    let n = bodies.len();
    let mut canon: Vec<usize> = Vec::new();
    let mut k: usize = 0;
    while k < n
        invariant
            k <= n,
            n == s.len(),
            bodies@ == s,
            labels_wf(s, labels@),
            labels_exact(s, labels@),
            canon.len() == k,
            forall|t: int| 0 <= t < k ==> #[trigger] canon@[t] == canon_of(s, t),
        decreases n - k,
    {
        let mut m: usize = 0;
        while labels[m] != labels[k]
            invariant
                k < n,
                n == s.len(),
                labels_wf(s, labels@),
                labels_exact(s, labels@),
                m <= k,
                forall|t: int| 0 <= t < m ==> !connected(s, t, k as int),
            decreases k - m,
        {
            proof {
                assert(!connected(s, m as int, k as int));
                if m == k {
                    lemma_connected_refl(s, k as int);
                }
            }
            m += 1;
        }
        proof {
            assert(connected(s, m as int, k as int));
            lemma_first_conn_from(s, k as int, 0);
            let r = canon_of(s, k as int);
            if r < m {
                assert(!connected(s, r, k as int));
            }
            assert(r == m);
        }
        canon.push(m);
        k += 1;
    }
    canon
}

} // verus!
