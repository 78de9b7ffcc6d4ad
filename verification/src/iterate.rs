use vstd::prelude::*;
use vstd::pervasive::VecAdditionalExecFns;

use crate::error::Error;

verus! {

/// The loop body of a fixpoint iteration, supplied by the caller: a
/// deterministic transformation of the per-node state vector.
pub trait IterationLogic {
    /// The mathematical description of one round.
    spec fn step_spec(&self, s: Seq<i64>) -> Seq<i64>;

    /// One round of the loop body.
    fn step(&self, s: &Vec<i64>) -> (r: Vec<i64>)
        ensures
            r@ == self.step_spec(s@),
    ;
}

/// The state after `n` rounds of the loop body.
pub open spec fn iter_n<L: IterationLogic>(logic: &L, init: Seq<i64>, n: nat) -> Seq<i64>
    decreases n,
{
    if n == 0 {
        init
    } else {
        logic.step_spec(iter_n(logic, init, (n - 1) as nat))
    }
}

/// Element-for-element equality of two state vectors.
fn vec_i64_eq(a: &Vec<i64>, b: &Vec<i64>) -> (r: bool)
    ensures
        r == (a@ == b@),
{
    if a.len() != b.len() {
        return false;
    }
    let n = a.len();
    let mut i: usize = 0;
    while i < n
        invariant
            0 <= i <= n,
            n == a@.len(),
            n == b@.len(),
            forall|j: int| 0 <= j < i ==> a@[j] == b@[j],
        decreases n - i,
    {
        if a[i] != b[i] {
            return false;
        }
        i += 1;
    }
    proof {
        assert(a@ =~= b@);
    }
    true
}

/// Runs the loop body round after round until a round leaves the state
/// unchanged — the fixpoint the result is proved to be — or until `limit`
/// rounds have run without converging, which is reported as
/// `NonConvergence` instead of looping on.
pub fn iterate<L: IterationLogic>(logic: &L, init: &Vec<i64>, limit: u64) -> (r: Result<
    Vec<i64>,
    Error,
>)
    ensures
        match r {
            Ok(v) => (exists|n: nat|
                n <= limit && v@ == #[trigger] iter_n(logic, init@, n)) && logic.step_spec(v@)
                == v@,
            Err(e) => e == Error::NonConvergence && forall|n: nat|
                n < limit ==> #[trigger] iter_n(logic, init@, n) != iter_n(logic, init@, n + 1),
        },
{
    let mut cur: Vec<i64> = Vec::new();
    let cn = init.len();
    let mut ci: usize = 0;
    while ci < cn
        invariant
            0 <= ci <= cn,
            cn == init@.len(),
            cur@.len() == ci,
            forall|j: int| 0 <= j < ci ==> cur@[j] == init@[j],
        decreases cn - ci,
    {
        cur.push(init[ci]);
        ci += 1;
    }
    proof {
        assert(cur@ =~= init@);
    }
    let mut rounds: u64 = 0;
    while rounds < limit
        invariant
            0 <= rounds <= limit,
            cur@ == iter_n(logic, init@, rounds as nat),
            forall|n: nat|
                n < rounds ==> #[trigger] iter_n(logic, init@, n) != iter_n(logic, init@, n + 1),
        decreases limit - rounds,
    {
        let next = logic.step(&cur);
        proof {
            assert(iter_n(logic, init@, rounds as nat + 1) == logic.step_spec(
                iter_n(logic, init@, rounds as nat),
            ));
        }
        if vec_i64_eq(&next, &cur) {
            proof {
                assert(logic.step_spec(cur@) == cur@);
                assert(cur@ == iter_n(logic, init@, rounds as nat));
                assert(cur@ == iter_n(logic, init@, rounds as nat));
                assert(exists|n: nat|
                    n <= limit && cur@ == #[trigger] iter_n(logic, init@, n)) by {
                    assert(cur@ == iter_n(logic, init@, rounds as nat));
                }
            }
            return Ok(cur);
        }
        cur = next;
        rounds += 1;
    }
    Err(Error::NonConvergence)
}

/// One relaxation of an edge: both endpoints take the smaller of their two
/// values; an edge outside the state is ignored.
pub open spec fn relax(s: Seq<i64>, e: (usize, usize)) -> Seq<i64> {
    if e.0 < s.len() && e.1 < s.len() {
        let m = if s[e.0 as int] <= s[e.1 as int] {
            s[e.0 as int]
        } else {
            s[e.1 as int]
        };
        s.update(e.0 as int, m).update(e.1 as int, m)
    } else {
        s
    }
}

/// The given edges relaxed in order, first to last.
pub open spec fn relax_all(s: Seq<i64>, edges: Seq<(usize, usize)>) -> Seq<i64>
    decreases edges.len(),
{
    if edges.len() == 0 {
        s
    } else {
        relax(relax_all(s, edges.drop_last()), edges.last())
    }
}

/// An iteration step that propagates minima over a fixed neighbor graph:
/// each round relaxes every edge once, in order.
pub struct NeighborMin {
    pub edges: Vec<(usize, usize)>,
}

impl IterationLogic for NeighborMin {
    open spec fn step_spec(&self, s: Seq<i64>) -> Seq<i64> {
        relax_all(s, self.edges@)
    }

    fn step(&self, s: &Vec<i64>) -> (r: Vec<i64>) {
        let mut cur: Vec<i64> = Vec::new();
        let n = s.len();
        let mut i: usize = 0;
        while i < n
            invariant
                0 <= i <= n,
                n == s@.len(),
                cur@.len() == i,
                forall|j: int| 0 <= j < i ==> cur@[j] == s@[j],
            decreases n - i,
        {
            cur.push(s[i]);
            i += 1;
        }
        proof {
            assert(cur@ =~= s@);
            assert(self.edges@.take(0) =~= Seq::<(usize, usize)>::empty());
        }
        let m = self.edges.len();
        let mut e: usize = 0;
        while e < m
            invariant
                0 <= e <= m,
                m == self.edges@.len(),
                cur@ == relax_all(s@, self.edges@.take(e as int)),
            decreases m - e,
        {
            let ghost before = cur@;
            let (a, b) = self.edges[e];
            if a < cur.len() && b < cur.len() {
                let va = cur[a];
                let vb = cur[b];
                let mv = if va <= vb {
                    va
                } else {
                    vb
                };
                cur.set(a, mv);
                cur.set(b, mv);
                proof {
                    assert(cur@ =~= relax(before, self.edges@[e as int]));
                }
            } else {
                proof {
                    assert(cur@ =~= relax(before, self.edges@[e as int]));
                }
            }
            proof {
                assert(self.edges@.take(e + 1).drop_last() =~= self.edges@.take(e as int));
                assert(self.edges@.take(e + 1).last() == self.edges@[e as int]);
            }
            e += 1;
        }
        proof {
            assert(self.edges@.take(m as int) =~= self.edges@);
        }
        cur
    }
}


/// Whether an in-range edge joins two equal values.
pub open spec fn edge_consistent(s: Seq<i64>, e: (usize, usize)) -> bool {
    e.0 < s.len() && e.1 < s.len() ==> s[e.0 as int] == s[e.1 as int]
}

/// Relaxing one edge keeps the length and never raises a value.
proof fn lemma_relax_le(s: Seq<i64>, e: (usize, usize))
    ensures
        relax(s, e).len() == s.len(),
        forall|i: int| 0 <= i < s.len() ==> #[trigger] relax(s, e)[i] <= s[i],
{
}

/// Relaxing a list of edges keeps the length and never raises a value.
proof fn lemma_relax_all_le(s: Seq<i64>, edges: Seq<(usize, usize)>)
    ensures
        relax_all(s, edges).len() == s.len(),
        forall|i: int| 0 <= i < s.len() ==> #[trigger] relax_all(s, edges)[i] <= s[i],
    decreases edges.len(),
{
    if edges.len() > 0 {
        lemma_relax_all_le(s, edges.drop_last());
        lemma_relax_le(relax_all(s, edges.drop_last()), edges.last());
    }
}

/// After a round that relaxes the in-range edge `edges[k]`, both of its
/// endpoints sit at or below the smaller of their two starting values.
proof fn lemma_relax_all_bounds_edge(s: Seq<i64>, edges: Seq<(usize, usize)>, k: int)
    requires
        0 <= k < edges.len(),
        edges[k].0 < s.len(),
        edges[k].1 < s.len(),
    ensures
        relax_all(s, edges)[edges[k].0 as int] <= s[edges[k].0 as int],
        relax_all(s, edges)[edges[k].0 as int] <= s[edges[k].1 as int],
        relax_all(s, edges)[edges[k].1 as int] <= s[edges[k].0 as int],
        relax_all(s, edges)[edges[k].1 as int] <= s[edges[k].1 as int],
    decreases edges.len(),
{
    let e = edges[k];
    let t = relax_all(s, edges.drop_last());
    lemma_relax_all_le(s, edges.drop_last());
    if k == edges.len() - 1 {
        assert(edges.last() == e);
        assert(relax_all(s, edges) == relax(t, e));
    } else {
        assert(edges.drop_last()[k] == e);
        lemma_relax_all_bounds_edge(s, edges.drop_last(), k);
        lemma_relax_le(t, edges.last());
        assert(relax_all(s, edges)[e.0 as int] <= t[e.0 as int]);
        assert(relax_all(s, edges)[e.1 as int] <= t[e.1 as int]);
    }
}

/// The states a `NeighborMin` round leaves unchanged are exactly the
/// edge-consistent ones: both ends of every in-range edge agree. The
/// condition speaks of the edge set alone, not of the order the round
/// relaxes the edges in, so which states count as fixpoints does not depend
/// on the per-round scheduling order.
pub proof fn lemma_fixpoint_is_edge_consistent(s: Seq<i64>, edges: Seq<(usize, usize)>)
    ensures
        relax_all(s, edges) == s <==> (forall|k: int|
            0 <= k < edges.len() ==> edge_consistent(s, #[trigger] edges[k])),
    decreases edges.len(),
{
    if forall|k: int| 0 <= k < edges.len() ==> edge_consistent(s, #[trigger] edges[k]) {
        if edges.len() > 0 {
            assert(forall|k: int|
                0 <= k < edges.drop_last().len() ==> edge_consistent(
                    s,
                    #[trigger] edges.drop_last()[k],
                ));
            lemma_fixpoint_is_edge_consistent(s, edges.drop_last());
            let e = edges.last();
            assert(edge_consistent(s, edges[edges.len() - 1]));
            if e.0 < s.len() && e.1 < s.len() {
                assert(relax(s, e) =~= s);
            }
        }
    } else {
        let k = choose|k: int|
            0 <= k < edges.len() && !edge_consistent(s, #[trigger] edges[k]);
        let e = edges[k];
        lemma_relax_all_bounds_edge(s, edges, k);
        lemma_relax_all_le(s, edges);
        if s[e.0 as int] < s[e.1 as int] {
            assert(relax_all(s, edges)[e.1 as int] < s[e.1 as int]);
        } else {
            assert(relax_all(s, edges)[e.0 as int] < s[e.0 as int]);
        }
        assert(relax_all(s, edges) != s);
    }
}

} // verus!
