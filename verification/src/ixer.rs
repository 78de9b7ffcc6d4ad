use vstd::prelude::*;

use crate::error::Error;

verus! {

/// How pointer resolution treats a key whose target is missing from the
/// target universe; the policy is always given explicitly.
#[derive(Clone, Copy, Debug, PartialEq, Eq, Structural)]
pub enum IxKeyPolicy {
    /// A missing target aborts the lookup.
    FailMissing,
    /// A row with a missing target is left out of the output.
    SkipMissing,
}

/// Whether the universe holds the key `k`.
pub open spec fn universe_has(universe: Seq<u64>, k: u64) -> bool {
    exists|i: int| 0 <= i < universe.len() && universe[i] == k
}

/// The rows whose pointer targets exist, in order: the spec of resolution
/// under `SkipMissing`.
pub open spec fn resolved_pairs(rows: Seq<(u64, u64)>, universe: Seq<u64>) -> Seq<(u64, u64)>
    decreases rows.len(),
{
    if rows.len() == 0 {
        Seq::empty()
    } else {
        let prefix = resolved_pairs(rows.drop_last(), universe);
        if universe_has(universe, rows.last().1) {
            prefix.push(rows.last())
        } else {
            prefix
        }
    }
}

fn universe_has_exec(universe: &Vec<u64>, k: u64) -> (r: bool)
    ensures
        r == universe_has(universe@, k),
{
    let n = universe.len();
    let mut i: usize = 0;
    while i < n
        invariant
            0 <= i <= n,
            n == universe@.len(),
            forall|j: int| 0 <= j < i ==> universe@[j] != k,
        decreases n - i,
    {
        if universe[i] == k {
            return true;
        }
        i += 1;
    }
    false
}

/// Resolves pointer-valued foreign keys against a target universe: each
/// `(row key, target key)` pair is kept when the target exists. Under
/// `FailMissing` a missing target is a `KeyPolicyViolation`; under
/// `SkipMissing` the row is dropped.
pub fn resolve_pointers(rows: &Vec<(u64, u64)>, universe: &Vec<u64>, policy: IxKeyPolicy) -> (r:
    Result<Vec<(u64, u64)>, Error>)
    ensures
        match r {
            Ok(out) => out@ == resolved_pairs(rows@, universe@) && (policy is FailMissing
                ==> forall|i: int|
                0 <= i < rows@.len() ==> universe_has(universe@, (#[trigger] rows@[i]).1)),
            Err(e) => policy is FailMissing && e == Error::KeyPolicyViolation && exists|i: int|
                0 <= i < rows@.len() && !universe_has(universe@, (#[trigger] rows@[i]).1),
        },
{
    let n = rows.len();
    let mut out: Vec<(u64, u64)> = Vec::new();
    proof {
        assert(rows@.take(0) =~= Seq::<(u64, u64)>::empty());
    }
    let mut i: usize = 0;
    while i < n
        invariant
            0 <= i <= n,
            n == rows@.len(),
            out@ == resolved_pairs(rows@.take(i as int), universe@),
            policy is FailMissing ==> forall|j: int|
                0 <= j < i ==> universe_has(universe@, (#[trigger] rows@[j]).1),
        decreases n - i,
    {
        proof {
            assert(rows@.take(i + 1).drop_last() =~= rows@.take(i as int));
            assert(rows@.take(i + 1).last() == rows@[i as int]);
        }
        if universe_has_exec(universe, rows[i].1) {
            out.push(rows[i]);
        } else {
            match policy {
                IxKeyPolicy::FailMissing => {
                    proof {
                        assert(!universe_has(universe@, rows@[i as int].1));
                    }
                    return Err(Error::KeyPolicyViolation);
                },
                IxKeyPolicy::SkipMissing => {},
            }
        }
        i += 1;
    }
    proof {
        assert(rows@.take(n as int) =~= rows@);
    }
    Ok(out)
}

} // verus!
