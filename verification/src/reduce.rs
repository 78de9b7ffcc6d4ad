use vstd::prelude::*;

use crate::table::{
    weighted_sum, lemma_weighted_sum_push, lemma_weighted_sum_remove, lemma_weighted_sum_all_zero,
    lemma_weighted_sum_permutation,
};

verus! {

/// The aggregation functions the engine offers over integer contributions.
#[derive(Clone, Copy, Debug, PartialEq, Eq, Structural)]
pub enum Reducer {
    Count,
    Sum,
    Min,
    Max,
}

/// The weight one `(value, sign)` contribution adds to the group's size.
pub open spec fn count_weight() -> spec_fn((i64, i64)) -> int {
    |u: (i64, i64)| u.1 as int
}

/// The weight one `(value, sign)` contribution adds to the group's sum.
pub open spec fn sum_weight() -> spec_fn((i64, i64)) -> int {
    |u: (i64, i64)| u.0 as int * u.1 as int
}

/// The weight one `(value, sign)` contribution adds to the multiplicity of
/// the value `v`.
pub open spec fn value_weight(v: i64) -> spec_fn((i64, i64)) -> int {
    |u: (i64, i64)| if u.0 == v {
        u.1 as int
    } else {
        0
    }
}

/// Retraction correctness at the level of contributions: any two arrival
/// orders of the same additions and retractions leave a group with the same
/// net size, the same net sum, and the same net multiplicity of every value,
/// so every reducer reads the aggregate of the net surviving multiset.
pub proof fn lemma_reducer_order_independent(s1: Seq<(i64, i64)>, s2: Seq<(i64, i64)>, v: i64)
    requires
        s1.to_multiset() == s2.to_multiset(),
    ensures
        weighted_sum(s1, count_weight()) == weighted_sum(s2, count_weight()),
        weighted_sum(s1, sum_weight()) == weighted_sum(s2, sum_weight()),
        weighted_sum(s1, value_weight(v)) == weighted_sum(s2, value_weight(v)),
{
    lemma_weighted_sum_permutation(s1, s2, count_weight());
    lemma_weighted_sum_permutation(s1, s2, sum_weight());
    lemma_weighted_sum_permutation(s1, s2, value_weight(v));
}

/// A nonzero net multiplicity needs a matching entry.
proof fn lemma_count_nonzero_has_entry(s: Seq<(i64, i64)>, v: i64)
    requires
        weighted_sum(s, value_weight(v)) != 0,
    ensures
        exists|j: int| 0 <= j < s.len() && (#[trigger] s[j]).0 == v,
    decreases s.len(),
{
    if s.len() > 0 {
        if s.last().0 == v {
            assert(s[s.len() - 1].0 == v);
        } else {
            lemma_count_nonzero_has_entry(s.drop_last(), v);
            let j = choose|j: int| 0 <= j < s.drop_last().len() && (#[trigger] s.drop_last()[j]).0
                == v;
            assert(s[j].0 == v);
        }
    }
}

/// The per-group state of a reducer: the multiset of surviving integer
/// contributions, with its running size and sum. Retracting a contribution
/// restores the state as if it had never been added.
pub struct GroupAccumulator {
    entries: Vec<(i64, i64)>,
    total: i64,
    sum: i128,
}

impl GroupAccumulator {
    /// Entries hold distinct values with nonzero net multiplicity, and the
    /// running totals agree with them.
    pub closed spec fn well_formed(&self) -> bool {
        &&& forall|i: int, j: int|
            0 <= i < j < self.entries@.len() ==> (#[trigger] self.entries@[i]).0 != (
            #[trigger] self.entries@[j]).0
        &&& forall|i: int| 0 <= i < self.entries@.len() ==> (#[trigger] self.entries@[i]).1 != 0
        &&& self.total as int == weighted_sum(self.entries@, count_weight())
        &&& self.sum as int == weighted_sum(self.entries@, sum_weight())
    }

    /// The net multiplicity of the value `v` in the group.
    pub closed spec fn count_of(&self, v: i64) -> int {
        weighted_sum(self.entries@, value_weight(v))
    }

    /// The net number of surviving contributions.
    pub closed spec fn spec_total(&self) -> int {
        weighted_sum(self.entries@, count_weight())
    }

    /// The net sum of surviving contributions.
    pub closed spec fn spec_sum(&self) -> int {
        weighted_sum(self.entries@, sum_weight())
    }

    /// An empty group.
    pub fn new() -> (r: Self)
        ensures
            r.well_formed(),
            forall|v: i64| r.count_of(v) == 0,
            r.spec_total() == 0,
            r.spec_sum() == 0,
    {
        let r = GroupAccumulator { entries: Vec::new(), total: 0, sum: 0 };
        proof {
            assert(forall|v: i64| r.count_of(v) == 0);
        }
        r
    }

    /// Adds (`sign` one) or retracts (`sign` minus one) one contribution of
    /// the value `v`.
    #[verifier::loop_isolation(false)]
    pub fn update(&mut self, v: i64, sign: i64)
        requires
            old(self).well_formed(),
            sign == 1 || sign == -1,
            i64::MIN <= old(self).count_of(v) + sign <= i64::MAX,
            i64::MIN <= old(self).spec_total() + sign <= i64::MAX,
            i128::MIN <= old(self).spec_sum() + v * sign <= i128::MAX,
        ensures
            final(self).well_formed(),
            forall|w: i64|
                final(self).count_of(w) == old(self).count_of(w) + if w == v {
                    sign as int
                } else {
                    0
                },
            final(self).spec_total() == old(self).spec_total() + sign,
            final(self).spec_sum() == old(self).spec_sum() + v * sign,
    {
        let ghost entries0 = self.entries@;
        proof {
            assert((v as int) * (sign as int) == sum_weight()((v, sign)));
            assert(count_weight()((v, sign)) == sign as int);
        }
        self.total = self.total + sign;
        self.sum = self.sum + (v as i128) * (sign as i128);
        let ghost total1 = self.total as int;
        let ghost sum1 = self.sum as int;
        proof {
            assert(total1 == weighted_sum(entries0, count_weight()) + sign);
            assert(sum1 == weighted_sum(entries0, sum_weight()) + v * sign);
        }
        let n = self.entries.len();
        let mut i: usize = 0;
        while i < n
            invariant
                0 <= i <= n,
                n == entries0.len(),
                self.entries@ == entries0,
                self.total as int == total1,
                self.sum as int == sum1,
                forall|j: int| 0 <= j < i ==> (#[trigger] entries0[j]).0 != v,
            decreases n - i,
        {
            if self.entries[i].0 == v {
                let ghost shorter = entries0.remove(i as int);
                proof {
                    assert forall|j: int| 0 <= j < shorter.len() implies (#[trigger] shorter[j]).0
                        != v by {
                        if j < i {
                            assert(shorter[j] == entries0[j]);
                        } else {
                            assert(shorter[j] == entries0[j + 1]);
                            assert(entries0[i as int].0 != entries0[j + 1].0);
                        }
                    }
                    lemma_weighted_sum_remove(entries0, count_weight(), i as int);
                    lemma_weighted_sum_remove(entries0, sum_weight(), i as int);
                    assert forall|w: i64| true implies weighted_sum(entries0, value_weight(w))
                        == weighted_sum(shorter, value_weight(w)) + value_weight(w)(
                        entries0[i as int],
                    ) by {
                        lemma_weighted_sum_remove(entries0, value_weight(w), i as int);
                    }
                    assert forall|j: int| 0 <= j < shorter.len() implies #[trigger] value_weight(v)(
                        shorter[j],
                    ) == 0 by {
                        assert(shorter[j].0 != v);
                    }
                    lemma_weighted_sum_all_zero(shorter, value_weight(v));
                    assert(old(self).count_of(v) == entries0[i as int].1 as int);
                }
                proof {
                    assert(count_weight()(entries0[i as int]) == entries0[i as int].1 as int);
                    assert(sum_weight()(entries0[i as int]) == (v as int) * (
                    entries0[i as int].1 as int));
                }
                let c = self.entries[i].1;
                let _removed = self.entries.remove(i);
                let updated = c + sign;
                if updated != 0 {
                    proof {
                        lemma_weighted_sum_push(shorter, count_weight(), (v, updated as i64));
                        lemma_weighted_sum_push(shorter, sum_weight(), (v, updated as i64));
                        assert forall|w: i64| true implies weighted_sum(
                            shorter.push((v, updated as i64)),
                            value_weight(w),
                        ) == weighted_sum(shorter, value_weight(w)) + value_weight(w)(
                            (v, updated as i64),
                        ) by {
                            lemma_weighted_sum_push(shorter, value_weight(w), (v, updated as i64));
                        }
                        assert((v as int) * (updated as int) == (v as int) * (c as int) + (v as int)
                            * (sign as int)) by {
                            vstd::arithmetic::mul::lemma_mul_is_distributive_add(
                                v as int,
                                c as int,
                                sign as int,
                            );
                        }
                        assert((v as int) * (c as int) == sum_weight()(entries0[i as int]));
                    }
                    self.entries.push((v, updated));
                    proof {
                        assert(count_weight()((v, updated as i64)) == updated as int);
                        assert(self.total as int == weighted_sum(self.entries@, count_weight()));
                        assert(self.sum as int == weighted_sum(self.entries@, sum_weight()));
                        assert forall|a: int, b: int|
                            0 <= a < b < self.entries@.len() implies (#[trigger] self.entries@[a]).0
                            != (#[trigger] self.entries@[b]).0 by {
                            if b == self.entries@.len() - 1 {
                                assert(self.entries@[a] == shorter[a]);
                            }
                        }
                    }
                } else {
                    proof {
                        assert((v as int) * (c as int) + (v as int) * (sign as int) == 0) by {
                            vstd::arithmetic::mul::lemma_mul_is_distributive_add(
                                v as int,
                                c as int,
                                sign as int,
                            );
                        }
                        assert((v as int) * (c as int) == sum_weight()(entries0[i as int]));
                        assert(self.total as int == weighted_sum(self.entries@, count_weight()));
                        assert(self.sum as int == weighted_sum(self.entries@, sum_weight()));
                    }
                }
                return ;
            }
            i += 1;
        }
        // the value is new to the group
        proof {
            assert forall|j: int| 0 <= j < entries0.len() implies #[trigger] value_weight(v)(
                entries0[j],
            ) == 0 by {
                assert(entries0[j].0 != v);
            }
            lemma_weighted_sum_all_zero(entries0, value_weight(v));
            lemma_weighted_sum_push(entries0, count_weight(), (v, sign));
            lemma_weighted_sum_push(entries0, sum_weight(), (v, sign));
            assert forall|w: i64| true implies weighted_sum(
                entries0.push((v, sign)),
                value_weight(w),
            ) == weighted_sum(entries0, value_weight(w)) + value_weight(w)((v, sign)) by {
                lemma_weighted_sum_push(entries0, value_weight(w), (v, sign));
            }
        }
        self.entries.push((v, sign));
        proof {
            assert(self.total as int == weighted_sum(self.entries@, count_weight()));
            assert(self.sum as int == weighted_sum(self.entries@, sum_weight()));
            assert forall|a: int, b: int|
                0 <= a < b < self.entries@.len() implies (#[trigger] self.entries@[a]).0 != (
                #[trigger] self.entries@[b]).0 by {
                if b == self.entries@.len() - 1 {
                    assert(self.entries@[a] == entries0[a]);
                    assert(entries0[a].0 != v);
                }
            }
        }
    }

    /// The net number of surviving contributions.
    pub fn count(&self) -> (r: i64)
        requires
            self.well_formed(),
        ensures
            r as int == self.spec_total(),
    {
        self.total
    }

    /// The net sum of surviving contributions.
    pub fn sum(&self) -> (r: i128)
        requires
            self.well_formed(),
        ensures
            r as int == self.spec_sum(),
    {
        self.sum
    }

    /// The smallest value with positive surviving multiplicity, when the
    /// group holds one.
    #[verifier::loop_isolation(false)]
    pub fn min(&self) -> (r: Option<i64>)
        requires
            self.well_formed(),
        ensures
            match r {
                Some(m) => self.count_of(m) > 0 && forall|v: i64|
                    self.count_of(v) > 0 ==> m <= v,
                None => forall|v: i64| self.count_of(v) <= 0,
            },
    {
        let ghost entries0 = self.entries@;
        let n = self.entries.len();
        let mut best: Option<i64> = None;
        let mut i: usize = 0;
        while i < n
            invariant
                0 <= i <= n,
                n == entries0.len(),
                self.entries@ == entries0,
                match best {
                    Some(m) => (exists|j: int|
                        0 <= j < i && (#[trigger] entries0[j]).0 == m && entries0[j].1 > 0)
                        && forall|j: int|
                        0 <= j < i && (#[trigger] entries0[j]).1 > 0 ==> m <= entries0[j].0,
                    None => forall|j: int| 0 <= j < i ==> (#[trigger] entries0[j]).1 <= 0,
                },
            decreases n - i,
        {
            let (val, c) = self.entries[i];
            if c > 0 {
                match best {
                    None => {
                        best = Some(val);
                    },
                    Some(m) => {
                        if val < m {
                            best = Some(val);
                        }
                    },
                }
            }
            i += 1;
        }
        proof {
            lemma_entry_counts(entries0, self);
            match best {
                Some(m) => {
                    let j = choose|j: int|
                        0 <= j < n && (#[trigger] entries0[j]).0 == m && entries0[j].1 > 0;
                    assert(self.count_of(m) == entries0[j].1 as int);
                    assert forall|v: i64| self.count_of(v) > 0 implies m <= v by {
                        lemma_count_nonzero_has_entry(entries0, v);
                        let jj = choose|jj: int|
                            0 <= jj < entries0.len() && (#[trigger] entries0[jj]).0 == v;
                        assert(self.count_of(v) == entries0[jj].1 as int);
                    }
                },
                None => {
                    assert forall|v: i64| true implies self.count_of(v) <= 0 by {
                        if self.count_of(v) != 0 {
                            lemma_count_nonzero_has_entry(entries0, v);
                            let jj = choose|jj: int|
                                0 <= jj < entries0.len() && (#[trigger] entries0[jj]).0 == v;
                            assert(self.count_of(v) == entries0[jj].1 as int);
                        }
                    }
                },
            }
        }
        best
    }

    /// The largest value with positive surviving multiplicity, when the
    /// group holds one.
    #[verifier::loop_isolation(false)]
    pub fn max(&self) -> (r: Option<i64>)
        requires
            self.well_formed(),
        ensures
            match r {
                Some(m) => self.count_of(m) > 0 && forall|v: i64|
                    self.count_of(v) > 0 ==> v <= m,
                None => forall|v: i64| self.count_of(v) <= 0,
            },
    {
        let ghost entries0 = self.entries@;
        let n = self.entries.len();
        let mut best: Option<i64> = None;
        let mut i: usize = 0;
        while i < n
            invariant
                0 <= i <= n,
                n == entries0.len(),
                self.entries@ == entries0,
                match best {
                    Some(m) => (exists|j: int|
                        0 <= j < i && (#[trigger] entries0[j]).0 == m && entries0[j].1 > 0)
                        && forall|j: int|
                        0 <= j < i && (#[trigger] entries0[j]).1 > 0 ==> entries0[j].0 <= m,
                    None => forall|j: int| 0 <= j < i ==> (#[trigger] entries0[j]).1 <= 0,
                },
            decreases n - i,
        {
            let (val, c) = self.entries[i];
            if c > 0 {
                match best {
                    None => {
                        best = Some(val);
                    },
                    Some(m) => {
                        if val > m {
                            best = Some(val);
                        }
                    },
                }
            }
            i += 1;
        }
        proof {
            lemma_entry_counts(entries0, self);
            match best {
                Some(m) => {
                    let j = choose|j: int|
                        0 <= j < n && (#[trigger] entries0[j]).0 == m && entries0[j].1 > 0;
                    assert(self.count_of(m) == entries0[j].1 as int);
                    assert forall|v: i64| self.count_of(v) > 0 implies v <= m by {
                        lemma_count_nonzero_has_entry(entries0, v);
                        let jj = choose|jj: int|
                            0 <= jj < entries0.len() && (#[trigger] entries0[jj]).0 == v;
                        assert(self.count_of(v) == entries0[jj].1 as int);
                    }
                },
                None => {
                    assert forall|v: i64| true implies self.count_of(v) <= 0 by {
                        if self.count_of(v) != 0 {
                            lemma_count_nonzero_has_entry(entries0, v);
                            let jj = choose|jj: int|
                                0 <= jj < entries0.len() && (#[trigger] entries0[jj]).0 == v;
                            assert(self.count_of(v) == entries0[jj].1 as int);
                        }
                    }
                },
            }
        }
        best
    }
}

/// In a well-formed group, the net multiplicity of an entry's value is that
/// entry's count.
proof fn lemma_entry_counts(entries0: Seq<(i64, i64)>, acc: &GroupAccumulator)
    requires
        acc.well_formed(),
        acc.entries_view() == entries0,
    ensures
        forall|j: int|
            0 <= j < entries0.len() ==> acc.count_of((#[trigger] entries0[j]).0) == entries0[j].1
                as int,
{
    assert forall|j: int|
        0 <= j < entries0.len() implies acc.count_of((#[trigger] entries0[j]).0) == entries0[j].1
        as int by {
        let v = entries0[j].0;
        let shorter = entries0.remove(j);
        lemma_weighted_sum_remove(entries0, value_weight(v), j);
        assert forall|jj: int| 0 <= jj < shorter.len() implies #[trigger] value_weight(v)(
            shorter[jj],
        ) == 0 by {
            if jj < j {
                assert(shorter[jj] == entries0[jj]);
                assert(entries0[jj].0 != entries0[j].0);
            } else {
                assert(shorter[jj] == entries0[jj + 1]);
                assert(entries0[j].0 != entries0[jj + 1].0);
            }
        }
        lemma_weighted_sum_all_zero(shorter, value_weight(v));
    }
}

impl GroupAccumulator {
    /// The raw entries, for internal proofs.
    pub closed spec fn entries_view(&self) -> Seq<(i64, i64)> {
        self.entries@
    }
}

/// A minimum (or maximum) characterized over the same multiplicities is
/// unique: two groups that agree on every value's net multiplicity report
/// the same extreme value.
pub proof fn lemma_extreme_determined(r1: Option<i64>, r2: Option<i64>, c: spec_fn(i64) -> int)
    requires
        match r1 {
            Some(m) => c(m) > 0 && forall|v: i64| #[trigger] c(v) > 0 ==> m <= v,
            None => forall|v: i64| #[trigger] c(v) <= 0,
        },
        match r2 {
            Some(m) => c(m) > 0 && forall|v: i64| #[trigger] c(v) > 0 ==> m <= v,
            None => forall|v: i64| #[trigger] c(v) <= 0,
        },
    ensures
        r1 == r2,
{
}


impl GroupAccumulator {
    /// Folds a whole sequence of `(value, sign)` contributions into the
    /// group, in order: the group ends at the net multiset of the batch laid
    /// over its old state, so by `lemma_reducer_order_independent` any
    /// arrival order of the same contributions converges to the same state.
    #[verifier::loop_isolation(false)]
    pub fn apply_updates(&mut self, updates: &Vec<(i64, i64)>)
        requires
            old(self).well_formed(),
            forall|i: int|
                0 <= i < updates@.len() ==> ((#[trigger] updates@[i]).1 == 1 || updates@[i].1
                    == -1),
            updates@.len() <= 0x1_0000_0000,
            forall|v: i64|
                -(i64::MAX - updates@.len()) <= #[trigger] old(self).count_of(v) <= i64::MAX
                    - updates@.len(),
            -(i64::MAX - updates@.len()) <= old(self).spec_total() <= i64::MAX - updates@.len(),
            -(i128::MAX - 0x1_0000_0000_0000_0000_0000_0000) <= old(self).spec_sum() <= i128::MAX
                - 0x1_0000_0000_0000_0000_0000_0000,
        ensures
            final(self).well_formed(),
            forall|v: i64|
                final(self).count_of(v) == old(self).count_of(v) + weighted_sum(
                    updates@,
                    value_weight(v),
                ),
            final(self).spec_total() == old(self).spec_total() + weighted_sum(
                updates@,
                count_weight(),
            ),
            final(self).spec_sum() == old(self).spec_sum() + weighted_sum(updates@, sum_weight()),
    {
        let n = updates.len();
        let mut i: usize = 0;
        proof {
            assert(updates@.take(0) =~= Seq::<(i64, i64)>::empty());
        }
        while i < n
            invariant
                0 <= i <= n,
                n == updates@.len(),
                self.well_formed(),
                forall|v: i64|
                    self.count_of(v) == old(self).count_of(v) + weighted_sum(
                        updates@.take(i as int),
                        value_weight(v),
                    ),
                self.spec_total() == old(self).spec_total() + weighted_sum(
                    updates@.take(i as int),
                    count_weight(),
                ),
                self.spec_sum() == old(self).spec_sum() + weighted_sum(
                    updates@.take(i as int),
                    sum_weight(),
                ),
                forall|v: i64|
                    -(i as int) <= #[trigger] weighted_sum(updates@.take(i as int), value_weight(v))
                        <= i as int,
                -(i as int) <= weighted_sum(updates@.take(i as int), count_weight()) <= i as int,
                -(i as int) * 0x8000_0000_0000_0000 <= weighted_sum(
                    updates@.take(i as int),
                    sum_weight(),
                ) <= (i as int) * 0x8000_0000_0000_0000,
            decreases n - i,
        {
            let (v, sign) = updates[i];
            proof {
                assert(updates@.take(i + 1).drop_last() =~= updates@.take(i as int));
                assert(updates@.take(i + 1).last() == updates@[i as int]);
                assert forall|w: i64| true implies weighted_sum(
                    updates@.take(i + 1),
                    value_weight(w),
                ) == weighted_sum(updates@.take(i as int), value_weight(w)) + value_weight(w)(
                    (v, sign),
                ) by {}
                assert(sum_weight()((v, sign)) == v as int * sign as int);
                assert(-0x8000_0000_0000_0000 <= v as int * sign as int <= 0x8000_0000_0000_0000)
                    by {
                    if sign == 1 {
                        assert(v as int * 1 == v as int);
                    } else {
                        assert(v as int * -1 == -(v as int));
                    }
                }
                assert((i as int) * 0x8000_0000_0000_0000 + 0x8000_0000_0000_0000 == (i + 1)
                    * 0x8000_0000_0000_0000) by {
                    vstd::arithmetic::mul::lemma_mul_is_distributive_add_other_way(
                        0x8000_0000_0000_0000,
                        i as int,
                        1,
                    );
                }
                assert((i + 1) * 0x8000_0000_0000_0000 <= 0x1_0000_0000
                    * 0x8000_0000_0000_0000) by {
                    vstd::arithmetic::mul::lemma_mul_inequality(
                        i + 1,
                        0x1_0000_0000,
                        0x8000_0000_0000_0000,
                    );
                }
            }
            self.update(v, sign);
            i += 1;
        }
        proof {
            assert(updates@.take(n as int) =~= updates@);
        }
    }
}

} // verus!
