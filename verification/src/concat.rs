use vstd::prelude::*;

use crate::error::Error;
use crate::value::Value;

verus! {

/// What `concat` does when the same key appears in more than one input
/// table; the policy is always given explicitly, never defaulted.
#[derive(Clone, Copy, Debug, PartialEq, Eq, Structural)]
pub enum ConcatPolicy {
    /// A shared key is an error.
    FailOnConflict,
    /// A shared key keeps the first table's row.
    KeepFirst,
    /// A shared key keeps the last table's row.
    KeepLast,
}

/// Whether any row of `s` carries the key `k`.
pub open spec fn has_key(s: Seq<(u64, Value)>, k: u64) -> bool {
    exists|i: int| 0 <= i < s.len() && (#[trigger] s[i]).0 == k
}

/// The rows of `b` whose keys do not occur in `a`, in order.
pub open spec fn missing_from(b: Seq<(u64, Value)>, a: Seq<(u64, Value)>) -> Seq<(u64, Value)>
    decreases b.len(),
{
    if b.len() == 0 {
        Seq::empty()
    } else {
        let prefix = missing_from(b.drop_last(), a);
        if has_key(a, b.last().0) {
            prefix
        } else {
            prefix.push(b.last())
        }
    }
}

/// Whether `out` holds the same keys and equally-shaped rows as `expect`,
/// in the same order.
pub open spec fn rows_match(out: Seq<(u64, Value)>, expect: Seq<(u64, Value)>) -> bool {
    out.len() == expect.len() && forall|i: int|
        0 <= i < out.len() ==> (#[trigger] out[i]).0 == expect[i].0 && out[i].1@ == expect[i].1@
}

/// Whether any key occurs in both sequences.
pub open spec fn tables_conflict(a: Seq<(u64, Value)>, b: Seq<(u64, Value)>) -> bool {
    exists|i: int| 0 <= i < b.len() && has_key(a, (#[trigger] b[i]).0)
}

fn has_key_exec(s: &Vec<(u64, Value)>, k: u64) -> (r: bool)
    ensures
        r == has_key(s@, k),
{
    let n = s.len();
    let mut i: usize = 0;
    while i < n
        invariant
            0 <= i <= n,
            n == s@.len(),
            forall|j: int| 0 <= j < i ==> (#[trigger] s@[j]).0 != k,
        decreases n - i,
    {
        if s[i].0 == k {
            return true;
        }
        i += 1;
    }
    false
}

/// Appends copies of all of `src` to `out`.
fn push_all(out: &mut Vec<(u64, Value)>, src: &Vec<(u64, Value)>)
    ensures
        final(out)@.len() == old(out)@.len() + src@.len(),
        forall|i: int| 0 <= i < old(out)@.len() ==> final(out)@[i] == old(out)@[i],
        forall|i: int|
            0 <= i < src@.len() ==> (#[trigger] final(out)@[old(out)@.len() + i]).0 == src@[i].0
                && final(out)@[old(out)@.len() + i].1@ == src@[i].1@,
{
    let n = src.len();
    let mut i: usize = 0;
    while i < n
        invariant
            0 <= i <= n,
            n == src@.len(),
            out@.len() == old(out)@.len() + i,
            forall|j: int| 0 <= j < old(out)@.len() ==> out@[j] == old(out)@[j],
            forall|j: int|
                0 <= j < i ==> (#[trigger] out@[old(out)@.len() + j]).0 == src@[j].0 && out@[old(
                    out,
                )@.len() + j].1@ == src@[j].1@,
        decreases n - i,
    {
        let k = src[i].0;
        let v = src[i].1.dup();
        out.push((k, v));
        i += 1;
    }
}

/// The `concat` operator: merges two keyed tables into one universe. A key
/// shared by both inputs is a conflict, resolved exactly as the explicit
/// policy says: an error, the first table's row, or the last table's row.
pub fn concat_tables(a: &Vec<(u64, Value)>, b: &Vec<(u64, Value)>, policy: ConcatPolicy) -> (r:
    Result<Vec<(u64, Value)>, Error>)
    ensures
        match r {
            Ok(out) => match policy {
                ConcatPolicy::FailOnConflict => !tables_conflict(a@, b@) && rows_match(
                    out@,
                    a@ + b@,
                ),
                ConcatPolicy::KeepFirst => rows_match(out@, a@ + missing_from(b@, a@)),
                ConcatPolicy::KeepLast => rows_match(out@, missing_from(a@, b@) + b@),
            },
            Err(e) => policy is FailOnConflict && tables_conflict(a@, b@) && e
                == Error::KeyPolicyViolation,
        },
{
    match policy {
        ConcatPolicy::FailOnConflict => {
            let n = b.len();
            let mut i: usize = 0;
            while i < n
                invariant
                    0 <= i <= n,
                    n == b@.len(),
                    policy is FailOnConflict,
                    forall|j: int| 0 <= j < i ==> !has_key(a@, (#[trigger] b@[j]).0),
                decreases n - i,
            {
                if has_key_exec(a, b[i].0) {
                    proof {
                        assert(has_key(a@, b@[i as int].0));
                        assert(tables_conflict(a@, b@));
                    }
                    return Err(Error::KeyPolicyViolation);
                }
                i += 1;
            }
            let mut out: Vec<(u64, Value)> = Vec::new();
            push_all(&mut out, a);
            proof {
                assert forall|j: int| 0 <= j < a@.len() implies (#[trigger] out@[j]).0 == a@[j].0
                    && out@[j].1@ == a@[j].1@ by {
                    assert(out@[0 + j].0 == a@[j].0 && out@[0 + j].1@ == a@[j].1@);
                }
            }
            let ghost base = out@;
            push_all(&mut out, b);
            proof {
                assert forall|j: int| 0 <= j < out@.len() implies (#[trigger] out@[j]).0 == (a@
                    + b@)[j].0 && out@[j].1@ == (a@ + b@)[j].1@ by {
                    if j < a@.len() {
                        assert(out@[j] == base[j]);
                        assert((a@ + b@)[j] == a@[j]);
                    } else {
                        assert(out@[base.len() + (j - a@.len())].0 == b@[j - a@.len()].0);
                        assert(out@[base.len() + (j - a@.len())].1@ == b@[j - a@.len()].1@);
                        assert((a@ + b@)[j] == b@[j - a@.len()]);
                    }
                }
                assert(rows_match(out@, a@ + b@));
            }
            Ok(out)
        },
        ConcatPolicy::KeepFirst => {
            let mut out: Vec<(u64, Value)> = Vec::new();
            push_all(&mut out, a);
            proof {
                assert forall|j: int| 0 <= j < a@.len() implies (#[trigger] out@[j]).0 == a@[j].0
                    && out@[j].1@ == a@[j].1@ by {
                    assert(out@[0 + j].0 == a@[j].0 && out@[0 + j].1@ == a@[j].1@);
                }
                assert(out@.skip(a@.len() as int) =~= Seq::<(u64, Value)>::empty());
            }
            let ghost base = out@;
            let n = b.len();
            let mut i: usize = 0;
            proof {
                assert(b@.take(0) =~= Seq::<(u64, Value)>::empty());
            }
            while i < n
                invariant
                    0 <= i <= n,
                    n == b@.len(),
                    out@.len() >= base.len(),
                    forall|j: int| 0 <= j < base.len() ==> out@[j] == base[j],
                    rows_match(base, a@),
                    rows_match(out@.skip(base.len() as int), missing_from(b@.take(i as int), a@)),
                decreases n - i,
            {
                proof {
                    assert(b@.take(i + 1).drop_last() =~= b@.take(i as int));
                    assert(b@.take(i + 1).last() == b@[i as int]);
                }
                let ghost before = out@;
                if !has_key_exec(a, b[i].0) {
                    let k = b[i].0;
                    let v = b[i].1.dup();
                    out.push((k, v));
                    proof {
                        assert(out@.skip(base.len() as int) =~= before.skip(
                            base.len() as int,
                        ).push((k, v)));
                    }
                }
                i += 1;
            }
            proof {
                assert(b@.take(n as int) =~= b@);
                let expect = a@ + missing_from(b@, a@);
                let tail = out@.skip(base.len() as int);
                assert forall|j: int| 0 <= j < out@.len() implies (#[trigger] out@[j]).0
                    == expect[j].0 && out@[j].1@ == expect[j].1@ by {
                    if j < base.len() {
                        assert(out@[j] == base[j]);
                        assert(expect[j] == a@[j]);
                    } else {
                        assert(out@[j] == tail[j - base.len()]);
                        assert(expect[j] == missing_from(b@, a@)[j - a@.len()]);
                    }
                }
                assert(rows_match(out@, expect));
            }
            Ok(out)
        },
        ConcatPolicy::KeepLast => {
            let mut out: Vec<(u64, Value)> = Vec::new();
            let n = a.len();
            let mut i: usize = 0;
            proof {
                assert(a@.take(0) =~= Seq::<(u64, Value)>::empty());
            }
            while i < n
                invariant
                    0 <= i <= n,
                    n == a@.len(),
                    rows_match(out@, missing_from(a@.take(i as int), b@)),
                decreases n - i,
            {
                proof {
                    assert(a@.take(i + 1).drop_last() =~= a@.take(i as int));
                    assert(a@.take(i + 1).last() == a@[i as int]);
                }
                let ghost before = out@;
                if !has_key_exec(b, a[i].0) {
                    let k = a[i].0;
                    let v = a[i].1.dup();
                    out.push((k, v));
                }
                i += 1;
            }
            proof {
                assert(a@.take(n as int) =~= a@);
            }
            let ghost kept = out@;
            push_all(&mut out, b);
            proof {
                let expect = missing_from(a@, b@) + b@;
                assert forall|j: int| 0 <= j < out@.len() implies (#[trigger] out@[j]).0
                    == expect[j].0 && out@[j].1@ == expect[j].1@ by {
                    if j < kept.len() {
                        assert(out@[j] == kept[j]);
                        assert(expect[j] == missing_from(a@, b@)[j]);
                    } else {
                        assert(out@[kept.len() + (j - kept.len())].0 == b@[j - kept.len()].0);
                        assert(out@[kept.len() + (j - kept.len())].1@ == b@[j - kept.len()].1@);
                        assert(expect[j] == b@[j - kept.len()]);
                    }
                }
                assert(rows_match(out@, expect));
            }
            Ok(out)
        },
    }
}

} // verus!
