use vstd::prelude::*;

use crate::value::Value;

verus! {

broadcast use vstd::seq_lib::group_to_multiset_ensures;

/// One signed, timestamped row change: the incremental unit every operator
/// consumes and emits.
pub struct Diff {
    pub key: u64,
    pub row: Value,
    pub time: u64,
    pub sign: i64,
}

/// A diff carries a sign of plus or minus one.
pub open spec fn diff_wf(d: Diff) -> bool {
    d.sign == 1 || d.sign == -1
}

/// The sum of a weight function over a sequence.
pub open spec fn weighted_sum<T>(s: Seq<T>, w: spec_fn(T) -> int) -> int
    decreases s.len(),
{
    if s.len() == 0 {
        0
    } else {
        weighted_sum(s.drop_last(), w) + w(s.last())
    }
}

/// Appending one element adds its weight.
pub proof fn lemma_weighted_sum_push<T>(s: Seq<T>, w: spec_fn(T) -> int, x: T)
    ensures
        weighted_sum(s.push(x), w) == weighted_sum(s, w) + w(x),
{
    assert(s.push(x).drop_last() =~= s);
    assert(s.push(x).last() == x);
}

/// Removing one element subtracts its weight.
pub proof fn lemma_weighted_sum_remove<T>(s: Seq<T>, w: spec_fn(T) -> int, i: int)
    requires
        0 <= i < s.len(),
    ensures
        weighted_sum(s, w) == weighted_sum(s.remove(i), w) + w(s[i]),
    decreases s.len(),
{
    if i == s.len() - 1 {
        assert(s.remove(i) =~= s.drop_last());
    } else {
        assert(s.remove(i).drop_last() =~= s.drop_last().remove(i));
        assert(s.remove(i).last() == s.last());
        lemma_weighted_sum_remove(s.drop_last(), w, i);
        assert(s.drop_last()[i] == s[i]);
    }
}

/// A sequence whose elements all weigh zero sums to zero.
pub proof fn lemma_weighted_sum_all_zero<T>(s: Seq<T>, w: spec_fn(T) -> int)
    requires
        forall|i: int| 0 <= i < s.len() ==> #[trigger] w(s[i]) == 0,
    ensures
        weighted_sum(s, w) == 0,
    decreases s.len(),
{
    if s.len() > 0 {
        assert(forall|i: int|
            0 <= i < s.drop_last().len() ==> #[trigger] w(s.drop_last()[i]) == 0);
        lemma_weighted_sum_all_zero(s.drop_last(), w);
        assert(w(s.last()) == 0);
    }
}

/// Two sequences holding the same elements, in any order, have the same
/// weighted sum.
pub proof fn lemma_weighted_sum_permutation<T>(s1: Seq<T>, s2: Seq<T>, w: spec_fn(T) -> int)
    requires
        s1.to_multiset() == s2.to_multiset(),
    ensures
        weighted_sum(s1, w) == weighted_sum(s2, w),
    decreases s1.len(),
{
    s1.to_multiset_ensures();
    s2.to_multiset_ensures();
    if s1.len() == 0 {
        assert(s2.len() == 0);
    } else {
        let x = s1.last();
        assert(s1.to_multiset().count(x) > 0);
        assert(s2.to_multiset().count(x) > 0);
        assert(s2.contains(x));
        let i = choose|i: int| 0 <= i < s2.len() && s2[i] == x;
        assert(s1.drop_last() =~= s1.remove(s1.len() - 1));
        assert(s1.remove(s1.len() - 1).to_multiset() =~= s1.to_multiset().remove(x));
        assert(s2.remove(i).to_multiset() =~= s2.to_multiset().remove(x));
        lemma_weighted_sum_permutation(s1.drop_last(), s2.remove(i), w);
        lemma_weighted_sum_remove(s2, w, i);
    }
}

/// The weight a diff contributes to the net multiplicity of key `k`.
pub open spec fn diff_weight(k: u64) -> spec_fn(Diff) -> int {
    |d: Diff| if d.key == k {
        d.sign as int
    } else {
        0
    }
}

/// The net multiplicity of key `k` over a sequence of diffs: the signed sum
/// of the signs of the diffs that carry `k`.
pub open spec fn net_count(diffs: Seq<Diff>, k: u64) -> int {
    weighted_sum(diffs, diff_weight(k))
}

/// Order independence of diff application within a batch: any two arrival
/// orders of the same diffs yield the same net multiplicity for every key,
/// so the final live-row state equals the relation computed directly from
/// the net inputs.
pub proof fn lemma_net_count_order_independent(s1: Seq<Diff>, s2: Seq<Diff>, k: u64)
    requires
        s1.to_multiset() == s2.to_multiset(),
    ensures
        net_count(s1, k) == net_count(s2, k),
{
    lemma_weighted_sum_permutation(s1, s2, diff_weight(k));
}

/// The weight one table entry contributes to the count of key `k`.
pub open spec fn entry_weight(k: u64) -> spec_fn((u64, i64)) -> int {
    |e: (u64, i64)| if e.0 == k {
        e.1 as int
    } else {
        0
    }
}

/// The incremental state of one table: the net multiplicity of every live
/// key, updated diff by diff.
pub struct TableState {
    entries: Vec<(u64, i64)>,
}

impl TableState {
    /// Entries hold distinct keys and no entry is dead.
    pub closed spec fn well_formed(&self) -> bool {
        &&& forall|i: int, j: int|
            0 <= i < j < self.entries@.len() ==> (#[trigger] self.entries@[i]).0 != (
            #[trigger] self.entries@[j]).0
        &&& forall|i: int| 0 <= i < self.entries@.len() ==> (#[trigger] self.entries@[i]).1 != 0
    }

    /// The net multiplicity of key `k`.
    pub closed spec fn count(&self, k: u64) -> int {
        weighted_sum(self.entries@, entry_weight(k))
    }

    /// An empty table: every key has multiplicity zero.
    pub fn new() -> (r: Self)
        ensures
            r.well_formed(),
            forall|k: u64| r.count(k) == 0,
    {
        let r = TableState { entries: Vec::new() };
        proof {
            assert(forall|k: u64| r.count(k) == 0);
        }
        r
    }

    /// The net multiplicity of `key`, readable at run time.
    pub fn get_count(&self, key: u64) -> (r: i64)
        requires
            self.well_formed(),
        ensures
            r as int == self.count(key),
    {
        let ghost entries0 = self.entries@;
        let n = self.entries.len();
        let mut i: usize = 0;
        while i < n
            invariant
                0 <= i <= n,
                n == entries0.len(),
                self.entries@ == entries0,
                self.well_formed(),
                forall|j: int| 0 <= j < i ==> (#[trigger] entries0[j]).0 != key,
            decreases n - i,
        {
            if self.entries[i].0 == key {
                proof {
                    let shorter = entries0.remove(i as int);
                    lemma_weighted_sum_remove(entries0, entry_weight(key), i as int);
                    assert forall|j: int| 0 <= j < shorter.len() implies #[trigger] entry_weight(
                        key,
                    )(shorter[j]) == 0 by {
                        if j < i {
                            assert(shorter[j] == entries0[j]);
                        } else {
                            assert(shorter[j] == entries0[j + 1]);
                            assert(entries0[i as int].0 != entries0[j + 1].0);
                        }
                    }
                    lemma_weighted_sum_all_zero(shorter, entry_weight(key));
                }
                return self.entries[i].1;
            }
            i += 1;
        }
        proof {
            assert forall|j: int| 0 <= j < entries0.len() implies #[trigger] entry_weight(key)(
                entries0[j],
            ) == 0 by {
                assert(entries0[j].0 != key);
            }
            lemma_weighted_sum_all_zero(entries0, entry_weight(key));
        }
        0
    }

    /// Applies one signed change to `key`; every other key keeps its
    /// multiplicity.
    #[verifier::loop_isolation(false)]
    pub fn apply(&mut self, key: u64, sign: i64)
        requires
            old(self).well_formed(),
            sign == 1 || sign == -1,
            i64::MIN <= old(self).count(key) + sign <= i64::MAX,
        ensures
            final(self).well_formed(),
            forall|k: u64|
                final(self).count(k) == old(self).count(k) + if k == key {
                    sign as int
                } else {
                    0
                },
    {
        let ghost entries0 = self.entries@;
        let n = self.entries.len();
        let mut i: usize = 0;
        while i < n
            invariant
                0 <= i <= n,
                n == self.entries@.len(),
                self.entries@ == entries0,
                self.well_formed(),
                forall|j: int| 0 <= j < i ==> (#[trigger] entries0[j]).0 != key,
            decreases n - i,
        {
            if self.entries[i].0 == key {
                let ghost shorter = entries0.remove(i as int);
                proof {
                    assert forall|j: int| 0 <= j < shorter.len() implies (#[trigger] shorter[j]).0
                        != key by {
                        if j < i {
                            assert(shorter[j] == entries0[j]);
                        } else {
                            assert(shorter[j] == entries0[j + 1]);
                            assert(entries0[i as int].0 != entries0[j + 1].0);
                        }
                    }
                    assert forall|k: u64| true implies weighted_sum(entries0, entry_weight(k))
                        == weighted_sum(shorter, entry_weight(k)) + entry_weight(k)(
                        entries0[i as int],
                    ) by {
                        lemma_weighted_sum_remove(entries0, entry_weight(k), i as int);
                    }
                    assert forall|j: int| 0 <= j < shorter.len() implies #[trigger] entry_weight(
                        key,
                    )(shorter[j]) == 0 by {
                        assert(shorter[j].0 != key);
                    }
                    lemma_weighted_sum_all_zero(shorter, entry_weight(key));
                    assert(old(self).count(key) == entries0[i as int].1 as int);
                }
                let c = self.entries[i].1;
                let _removed = self.entries.remove(i);
                let updated = c + sign;
                if updated != 0 {
                    proof {
                        assert forall|k: u64| true implies weighted_sum(
                            shorter.push((key, updated as i64)),
                            entry_weight(k),
                        ) == weighted_sum(shorter, entry_weight(k)) + entry_weight(k)(
                            (key, updated as i64),
                        ) by {
                            lemma_weighted_sum_push(shorter, entry_weight(k), (key, updated as i64));
                        }
                    }
                    self.entries.push((key, updated));
                    proof {
                        assert(self.entries@ =~= shorter.push((key, updated as i64)));
                        assert forall|a: int, b: int|
                            0 <= a < b < self.entries@.len() implies (#[trigger] self.entries@[a]).0
                            != (#[trigger] self.entries@[b]).0 by {
                            if b == self.entries@.len() - 1 {
                                assert(self.entries@[a] == shorter[a]);
                            }
                        }
                    }
                } else {
                    proof {
                        assert(self.entries@ =~= shorter);
                    }
                }
                return ;
            }
            i += 1;
        }
        // key not present: its count is zero
        proof {
            assert forall|j: int| 0 <= j < entries0.len() implies #[trigger] entry_weight(key)(
                entries0[j],
            ) == 0 by {
                assert(entries0[j].0 != key);
            }
            lemma_weighted_sum_all_zero(entries0, entry_weight(key));
            assert forall|k: u64| true implies weighted_sum(
                entries0.push((key, sign)),
                entry_weight(k),
            ) == weighted_sum(entries0, entry_weight(k)) + entry_weight(k)((key, sign)) by {
                lemma_weighted_sum_push(entries0, entry_weight(k), (key, sign));
            }
        }
        self.entries.push((key, sign));
        proof {
            assert forall|a: int, b: int|
                0 <= a < b < self.entries@.len() implies (#[trigger] self.entries@[a]).0 != (
                #[trigger] self.entries@[b]).0 by {
                if b == self.entries@.len() - 1 {
                    assert(self.entries@[a] == entries0[a]);
                    assert(entries0[a].0 != key);
                }
            }
        }
    }

    /// Applies a whole batch of diffs in order: every key ends at its old
    /// multiplicity plus the batch's net count for it.
    pub fn apply_batch(&mut self, diffs: &Vec<Diff>)
        requires
            old(self).well_formed(),
            forall|i: int| 0 <= i < diffs@.len() ==> diff_wf(#[trigger] diffs@[i]),
            diffs@.len() <= i64::MAX,
            forall|k: u64|
                -(i64::MAX - diffs@.len()) <= #[trigger] old(self).count(k) <= i64::MAX
                    - diffs@.len(),
        ensures
            final(self).well_formed(),
            forall|k: u64| final(self).count(k) == old(self).count(k) + net_count(diffs@, k),
    {
        let n = diffs.len();
        let mut i: usize = 0;
        proof {
            assert(diffs@.take(0) =~= Seq::<Diff>::empty());
        }
        while i < n
            invariant
                0 <= i <= n,
                n == diffs@.len(),
                n <= i64::MAX,
                self.well_formed(),
                forall|j: int| 0 <= j < diffs@.len() ==> diff_wf(#[trigger] diffs@[j]),
                forall|k: u64|
                    -(i64::MAX - diffs@.len()) <= #[trigger] old(self).count(k) <= i64::MAX
                        - diffs@.len(),
                forall|k: u64|
                    self.count(k) == old(self).count(k) + net_count(diffs@.take(i as int), k),
                forall|k: u64|
                    -(i as int) <= #[trigger] net_count(diffs@.take(i as int), k) <= i as int,
            decreases n - i,
        {
            let key = diffs[i].key;
            let sign = diffs[i].sign;
            proof {
                assert forall|k: u64| true implies net_count(diffs@.take(i + 1), k) == net_count(
                    diffs@.take(i as int),
                    k,
                ) + diff_weight(k)(diffs@[i as int]) by {
                    assert(diffs@.take(i + 1).drop_last() =~= diffs@.take(i as int));
                    assert(diffs@.take(i + 1).last() == diffs@[i as int]);
                }
            }
            self.apply(key, sign);
            i += 1;
        }
        proof {
            assert(diffs@.take(n as int) =~= diffs@);
        }
    }
}

} // verus!
