use vstd::prelude::*;

use crate::table::{
    weighted_sum, lemma_weighted_sum_push, lemma_weighted_sum_remove, lemma_weighted_sum_all_zero,
};
use crate::value::{SpecValue, Value};

verus! {

/// How unmatched rows of either side take part in the join.
#[derive(Clone, Copy, Debug, PartialEq, Eq, Structural)]
pub enum JoinType {
    Inner,
    LeftOuter,
    RightOuter,
    FullOuter,
}

/// Whether unmatched left rows are emitted null-padded.
pub open spec fn keeps_left(jt: JoinType) -> bool {
    jt == JoinType::LeftOuter || jt == JoinType::FullOuter
}

/// Whether unmatched right rows are emitted null-padded.
pub open spec fn keeps_right(jt: JoinType) -> bool {
    jt == JoinType::RightOuter || jt == JoinType::FullOuter
}

/// The weight one side entry contributes to the multiplicity of key `k`.
pub open spec fn side_weight(k: u64) -> spec_fn((u64, Value, i64)) -> int {
    |e: (u64, Value, i64)| if e.0 == k {
        e.2 as int
    } else {
        0
    }
}

/// The net multiplicity of key `k` on one side.
pub open spec fn side_count(s: Seq<(u64, Value, i64)>, k: u64) -> int {
    weighted_sum(s, side_weight(k))
}

/// The row stored for key `k` on one side; immaterial when the key is dead.
pub open spec fn side_row(s: Seq<(u64, Value, i64)>, k: u64) -> SpecValue
    decreases s.len(),
{
    if s.len() == 0 {
        SpecValue::Null
    } else if s.last().0 == k {
        s.last().1@
    } else {
        side_row(s.drop_last(), k)
    }
}

/// Removing an entry of another key leaves a key's row unchanged.
proof fn lemma_side_row_remove(s: Seq<(u64, Value, i64)>, i: int, k: u64)
    requires
        0 <= i < s.len(),
        s[i].0 != k,
    ensures
        side_row(s.remove(i), k) == side_row(s, k),
    decreases s.len(),
{
    if i == s.len() - 1 {
        assert(s.remove(i) =~= s.drop_last());
    } else {
        assert(s.remove(i).drop_last() =~= s.drop_last().remove(i));
        assert(s.remove(i).last() == s.last());
        lemma_side_row_remove(s.drop_last(), i, k);
        assert(s.drop_last()[i] == s[i]);
    }
}

/// One output diff of the join: a combined row under the join key, with
/// `None` standing for the null padding of an unmatched side.
pub struct JoinDiff {
    pub key: u64,
    pub left_row: Option<Value>,
    pub right_row: Option<Value>,
    pub sign: i64,
}

/// The weight a join diff contributes to the matched-output multiplicity of
/// key `k`.
pub open spec fn matched_weight(k: u64) -> spec_fn(JoinDiff) -> int {
    |d: JoinDiff| if d.key == k && d.left_row is Some && d.right_row is Some {
        d.sign as int
    } else {
        0
    }
}

/// The weight a join diff contributes to the left-padded output of key `k`.
pub open spec fn left_pad_weight(k: u64) -> spec_fn(JoinDiff) -> int {
    |d: JoinDiff| if d.key == k && d.left_row is Some && d.right_row is None {
        d.sign as int
    } else {
        0
    }
}

/// The weight a join diff contributes to the right-padded output of key `k`.
pub open spec fn right_pad_weight(k: u64) -> spec_fn(JoinDiff) -> int {
    |d: JoinDiff| if d.key == k && d.left_row is None && d.right_row is Some {
        d.sign as int
    } else {
        0
    }
}

/// How many matched output rows the join holds for key `k`: the product of
/// the two sides' multiplicities.
pub open spec fn matched_count(l: Seq<(u64, Value, i64)>, r: Seq<(u64, Value, i64)>, k: u64) -> int {
    side_count(l, k) * side_count(r, k)
}

/// How many null-padded left rows the join holds for key `k`.
pub open spec fn left_pad_count(
    jt: JoinType,
    l: Seq<(u64, Value, i64)>,
    r: Seq<(u64, Value, i64)>,
    k: u64,
) -> int {
    if keeps_left(jt) && side_count(r, k) == 0 {
        side_count(l, k)
    } else {
        0
    }
}

/// How many null-padded right rows the join holds for key `k`.
pub open spec fn right_pad_count(
    jt: JoinType,
    l: Seq<(u64, Value, i64)>,
    r: Seq<(u64, Value, i64)>,
    k: u64,
) -> int {
    if keeps_right(jt) && side_count(l, k) == 0 {
        side_count(r, k)
    } else {
        0
    }
}

/// One side's index of the incremental join: the live multiplicity and row
/// of every key seen on that side.
pub struct JoinSide {
    entries: Vec<(u64, Value, i64)>,
}

impl JoinSide {
    /// Entries hold distinct keys with positive multiplicities.
    pub closed spec fn well_formed(&self) -> bool {
        &&& forall|i: int, j: int|
            0 <= i < j < self.entries@.len() ==> (#[trigger] self.entries@[i]).0 != (
            #[trigger] self.entries@[j]).0
        &&& forall|i: int| 0 <= i < self.entries@.len() ==> (#[trigger] self.entries@[i]).2 > 0
    }

    /// The stored entries.
    pub closed spec fn view_entries(&self) -> Seq<(u64, Value, i64)> {
        self.entries@
    }

    pub fn new() -> (r: Self)
        ensures
            r.well_formed(),
            forall|k: u64| side_count(r.view_entries(), k) == 0,
            r.view_entries().len() == 0,
    {
        let r = JoinSide { entries: Vec::new() };
        proof {
            assert(forall|k: u64| side_count(r.entries@, k) == 0);
        }
        r
    }

    /// The multiplicity of `key`, and a copy of its row when it is live.
    pub fn lookup(&self, key: u64) -> (r: (i64, Option<Value>))
        requires
            self.well_formed(),
        ensures
            r.0 >= 0,
            r.0 as int == side_count(self.view_entries(), key),
            r.0 != 0 ==> (r.1 matches Some(v) && v@ == side_row(self.view_entries(), key)),
            r.0 == 0 ==> r.1 is None,
    {
        let ghost entries0 = self.entries@;
        let n = self.entries.len();
        let mut i: usize = 0;
        while i < n
            invariant
                0 <= i <= n,
                n == entries0.len(),
                self.entries@ == entries0,
                self.well_formed(),
                forall|j: int| 0 <= j < i ==> (#[trigger] entries0[j]).0 != key,
            decreases n - i,
        {
            if self.entries[i].0 == key {
                proof {
                    let shorter = entries0.remove(i as int);
                    lemma_weighted_sum_remove(entries0, side_weight(key), i as int);
                    assert forall|j: int| 0 <= j < shorter.len() implies #[trigger] side_weight(
                        key,
                    )(shorter[j]) == 0 by {
                        if j < i {
                            assert(shorter[j] == entries0[j]);
                        } else {
                            assert(shorter[j] == entries0[j + 1]);
                            assert(entries0[i as int].0 != entries0[j + 1].0);
                        }
                    }
                    lemma_weighted_sum_all_zero(shorter, side_weight(key));
                    lemma_side_row_found(entries0, i as int, key);
                }
                let c = self.entries[i].2;
                let row = self.entries[i].1.dup();
                return (c, Some(row));
            }
            i += 1;
        }
        proof {
            assert forall|j: int| 0 <= j < entries0.len() implies #[trigger] side_weight(key)(
                entries0[j],
            ) == 0 by {
                assert(entries0[j].0 != key);
            }
            lemma_weighted_sum_all_zero(entries0, side_weight(key));
        }
        (0, None)
    }

    /// Applies one signed change of `key` with `row`; the multiplicity moves
    /// by `sign`, the row of a live key becomes `row`, and every other key is
    /// untouched.
    #[verifier::loop_isolation(false)]
    pub fn update(&mut self, key: u64, row: Value, sign: i64)
        requires
            old(self).well_formed(),
            sign == 1 || sign == -1,
            sign == -1 ==> side_count(old(self).view_entries(), key) >= 1,
            side_count(old(self).view_entries(), key) < i64::MAX,
        ensures
            final(self).well_formed(),
            forall|k: u64|
                side_count(final(self).view_entries(), k) == side_count(
                    old(self).view_entries(),
                    k,
                ) + if k == key {
                    sign as int
                } else {
                    0
                },
            forall|k: u64|
                k != key ==> side_row(final(self).view_entries(), k) == side_row(
                    old(self).view_entries(),
                    k,
                ),
            side_count(final(self).view_entries(), key) > 0 ==> side_row(
                final(self).view_entries(),
                key,
            ) == row@,
    {
        let ghost entries0 = self.entries@;
        let ghost rowv = row@;
        let n = self.entries.len();
        let mut i: usize = 0;
        while i < n
            invariant
                0 <= i <= n,
                n == entries0.len(),
                self.entries@ == entries0,
                forall|j: int| 0 <= j < i ==> (#[trigger] entries0[j]).0 != key,
            decreases n - i,
        {
            if self.entries[i].0 == key {
                let ghost shorter = entries0.remove(i as int);
                proof {
                    assert forall|j: int| 0 <= j < shorter.len() implies (#[trigger] shorter[j]).0
                        != key by {
                        if j < i {
                            assert(shorter[j] == entries0[j]);
                        } else {
                            assert(shorter[j] == entries0[j + 1]);
                            assert(entries0[i as int].0 != entries0[j + 1].0);
                        }
                    }
                    assert forall|k: u64| true implies weighted_sum(entries0, side_weight(k))
                        == weighted_sum(shorter, side_weight(k)) + side_weight(k)(
                        entries0[i as int],
                    ) by {
                        lemma_weighted_sum_remove(entries0, side_weight(k), i as int);
                    }
                    assert forall|j: int| 0 <= j < shorter.len() implies #[trigger] side_weight(
                        key,
                    )(shorter[j]) == 0 by {
                        assert(shorter[j].0 != key);
                    }
                    lemma_weighted_sum_all_zero(shorter, side_weight(key));
                    assert forall|k: u64| k != key implies side_row(shorter, k) == side_row(
                        entries0,
                        k,
                    ) by {
                        lemma_side_row_remove(entries0, i as int, k);
                    }
                }
                let c = self.entries[i].2;
                let _removed = self.entries.remove(i);
                let updated = c + sign;
                if updated != 0 {
                    self.entries.push((key, row, updated));
                    proof {
                        assert(self.entries@ =~= shorter.push((key, row, updated as i64)));
                        assert forall|k: u64| true implies weighted_sum(
                            self.entries@,
                            side_weight(k),
                        ) == weighted_sum(shorter, side_weight(k)) + side_weight(k)(
                            (key, row, updated as i64),
                        ) by {
                            lemma_weighted_sum_push(shorter, side_weight(k), (key, row, updated as i64));
                        }
                        assert forall|a: int, b: int|
                            0 <= a < b < self.entries@.len() implies (#[trigger] self.entries@[a]).0
                            != (#[trigger] self.entries@[b]).0 by {
                            if b == self.entries@.len() - 1 {
                                assert(self.entries@[a] == shorter[a]);
                            }
                        }
                        assert(side_row(self.entries@, key) == rowv);
                        assert forall|k: u64| k != key implies side_row(self.entries@, k)
                            == side_row(shorter, k) by {
                            assert(self.entries@.drop_last() =~= shorter);
                        }
                    }
                } else {
                    proof {
                        assert(self.entries@ =~= shorter);
                    }
                }
                return ;
            }
            i += 1;
        }
        proof {
            assert forall|j: int| 0 <= j < entries0.len() implies #[trigger] side_weight(key)(
                entries0[j],
            ) == 0 by {
                assert(entries0[j].0 != key);
            }
            lemma_weighted_sum_all_zero(entries0, side_weight(key));
        }
        self.entries.push((key, row, sign));
        proof {
            assert forall|k: u64| true implies weighted_sum(self.entries@, side_weight(k))
                == weighted_sum(entries0, side_weight(k)) + side_weight(k)(
                (key, row, sign as i64),
            ) by {
                lemma_weighted_sum_push(entries0, side_weight(k), (key, row, sign as i64));
            }
            assert forall|a: int, b: int|
                0 <= a < b < self.entries@.len() implies (#[trigger] self.entries@[a]).0 != (
                #[trigger] self.entries@[b]).0 by {
                if b == self.entries@.len() - 1 {
                    assert(self.entries@[a] == entries0[a]);
                    assert(entries0[a].0 != key);
                }
            }
            assert(side_row(self.entries@, key) == rowv);
            assert forall|k: u64| k != key implies side_row(self.entries@, k) == side_row(
                entries0,
                k,
            ) by {
                assert(self.entries@.drop_last() =~= entries0);
            }
        }
    }
}

/// In a well-formed side, the row of the entry found at `i` is the side's
/// row for that key.
proof fn lemma_side_row_found(s: Seq<(u64, Value, i64)>, i: int, k: u64)
    requires
        0 <= i < s.len(),
        s[i].0 == k,
        forall|a: int, b: int| 0 <= a < b < s.len() ==> (#[trigger] s[a]).0 != (#[trigger] s[b]).0,
    ensures
        side_row(s, k) == s[i].1@,
    decreases s.len(),
{
    if i == s.len() - 1 {
    } else {
        assert(s.last().0 != k);
        assert(s.drop_last()[i] == s[i]);
        lemma_side_row_found(s.drop_last(), i, k);
    }
}


/// Whether this join type emits null-padded left rows.
fn keeps_left_exec(jt: JoinType) -> (r: bool)
    ensures
        r == keeps_left(jt),
{
    jt == JoinType::LeftOuter || jt == JoinType::FullOuter
}

/// Whether this join type emits null-padded right rows.
fn keeps_right_exec(jt: JoinType) -> (r: bool)
    ensures
        r == keeps_right(jt),
{
    jt == JoinType::RightOuter || jt == JoinType::FullOuter
}

/// The incremental join of two keyed sides. After every update the emitted
/// output diffs move the accumulated output to the relational join of the
/// live inputs: matched rows appear with the product of the sides'
/// multiplicities, and outer variants keep unmatched rows null-padded,
/// retracting the padding when a match appears.
pub struct JoinState {
    join_type: JoinType,
    left: JoinSide,
    right: JoinSide,
}

impl JoinState {
    pub closed spec fn well_formed(&self) -> bool {
        self.left.well_formed() && self.right.well_formed()
    }

    /// The live entries of the left side.
    pub closed spec fn left_entries(&self) -> Seq<(u64, Value, i64)> {
        self.left.view_entries()
    }

    /// The live entries of the right side.
    pub closed spec fn right_entries(&self) -> Seq<(u64, Value, i64)> {
        self.right.view_entries()
    }

    /// The configured join type.
    pub closed spec fn jt(&self) -> JoinType {
        self.join_type
    }

    /// An empty join of the given type.
    pub fn new(join_type: JoinType) -> (r: Self)
        ensures
            r.well_formed(),
            r.jt() == join_type,
            forall|k: u64| side_count(r.left_entries(), k) == 0,
            forall|k: u64| side_count(r.right_entries(), k) == 0,
    {
        JoinState { join_type, left: JoinSide::new(), right: JoinSide::new() }
    }

    /// Applies one signed left-side change and returns the output diffs that
    /// move the accumulated join output to the join of the new live inputs.
    pub fn apply_left(&mut self, key: u64, row: Value, sign: i64) -> (out: Vec<JoinDiff>)
        requires
            old(self).well_formed(),
            sign == 1 || sign == -1,
            sign == -1 ==> side_count(old(self).left_entries(), key) >= 1,
            side_count(old(self).left_entries(), key) < i64::MAX,
            side_count(old(self).left_entries(), key) > 0 ==> side_row(
                old(self).left_entries(),
                key,
            ) == row@,
        ensures
            final(self).well_formed(),
            final(self).jt() == old(self).jt(),
            final(self).right_entries() == old(self).right_entries(),
            forall|k: u64|
                side_count(final(self).left_entries(), k) == side_count(
                    old(self).left_entries(),
                    k,
                ) + if k == key {
                    sign as int
                } else {
                    0
                },
            forall|k: u64|
                k != key ==> side_row(final(self).left_entries(), k) == side_row(
                    old(self).left_entries(),
                    k,
                ),
            side_count(final(self).left_entries(), key) > 0 ==> side_row(
                final(self).left_entries(),
                key,
            ) == row@,
            forall|k: u64|
                weighted_sum(out@, matched_weight(k)) == matched_count(
                    final(self).left_entries(),
                    final(self).right_entries(),
                    k,
                ) - matched_count(old(self).left_entries(), old(self).right_entries(), k),
            forall|k: u64|
                weighted_sum(out@, left_pad_weight(k)) == left_pad_count(
                    old(self).jt(),
                    final(self).left_entries(),
                    final(self).right_entries(),
                    k,
                ) - left_pad_count(
                    old(self).jt(),
                    old(self).left_entries(),
                    old(self).right_entries(),
                    k,
                ),
            forall|k: u64|
                weighted_sum(out@, right_pad_weight(k)) == right_pad_count(
                    old(self).jt(),
                    final(self).left_entries(),
                    final(self).right_entries(),
                    k,
                ) - right_pad_count(
                    old(self).jt(),
                    old(self).left_entries(),
                    old(self).right_entries(),
                    k,
                ),
            forall|i: int| 0 <= i < out@.len() ==> (#[trigger] out@[i]).key == key,
            forall|i: int|
                0 <= i < out@.len() ==> ((#[trigger] out@[i]).left_row matches Some(lr) ==> lr@
                    == row@),
            forall|i: int|
                0 <= i < out@.len() ==> ((#[trigger] out@[i]).right_row matches Some(rr) ==> rr@
                    == side_row(old(self).right_entries(), key)),
    {
        let ghost l0 = self.left.view_entries();
        let ghost r0 = self.right.view_entries();
        let ghost jt = self.join_type;
        let (rc, rrow_opt) = self.right.lookup(key);
        let (lc_old, _unused_row) = self.left.lookup(key);
        self.left.update(key, row.dup(), sign);
        let ghost l1 = self.left.view_entries();
        proof {
            assert(side_count(l1, key) == side_count(l0, key) + sign);
            lemma_join_deltas(l0, l1, r0, jt, key, sign as int);
        }
        let mut out: Vec<JoinDiff> = Vec::new();
        match rrow_opt {
            Some(rrow) => {
                let delta = if sign == 1 {
                    rc
                } else {
                    -rc
                };
                proof {
                    assert(delta as int == sign * side_count(r0, key)) by {
                        if sign == 1 {
                        } else {
                        }
                    }
                }
                let d1 = JoinDiff {
                    key,
                    left_row: Some(row.dup()),
                    right_row: Some(rrow.dup()),
                    sign: delta,
                };
                proof {
                    lemma_push_weights(out@, d1, key);
                }
                out.push(d1);
                if keeps_right_exec(self.join_type) && lc_old == 0 && sign == 1 {
                    let d2 = JoinDiff { key, left_row: None, right_row: Some(rrow), sign: -rc };
                    proof {
                        lemma_push_weights(out@, d2, key);
                    }
                    out.push(d2);
                } else if keeps_right_exec(self.join_type) && lc_old == 1 && sign == -1 {
                    let d2 = JoinDiff { key, left_row: None, right_row: Some(rrow), sign: rc };
                    proof {
                        lemma_push_weights(out@, d2, key);
                    }
                    out.push(d2);
                }
            },
            None => {
                if keeps_left_exec(self.join_type) {
                    let d1 = JoinDiff { key, left_row: Some(row), right_row: None, sign };
                    proof {
                        lemma_push_weights(out@, d1, key);
                    }
                    out.push(d1);
                }
            },
        }
        out
    }

    /// Applies one signed right-side change and returns the output diffs that
    /// move the accumulated join output to the join of the new live inputs.
    pub fn apply_right(&mut self, key: u64, row: Value, sign: i64) -> (out: Vec<JoinDiff>)
        requires
            old(self).well_formed(),
            sign == 1 || sign == -1,
            sign == -1 ==> side_count(old(self).right_entries(), key) >= 1,
            side_count(old(self).right_entries(), key) < i64::MAX,
            side_count(old(self).right_entries(), key) > 0 ==> side_row(
                old(self).right_entries(),
                key,
            ) == row@,
        ensures
            final(self).well_formed(),
            final(self).jt() == old(self).jt(),
            final(self).left_entries() == old(self).left_entries(),
            forall|k: u64|
                side_count(final(self).right_entries(), k) == side_count(
                    old(self).right_entries(),
                    k,
                ) + if k == key {
                    sign as int
                } else {
                    0
                },
            forall|k: u64|
                k != key ==> side_row(final(self).right_entries(), k) == side_row(
                    old(self).right_entries(),
                    k,
                ),
            side_count(final(self).right_entries(), key) > 0 ==> side_row(
                final(self).right_entries(),
                key,
            ) == row@,
            forall|k: u64|
                weighted_sum(out@, matched_weight(k)) == matched_count(
                    final(self).left_entries(),
                    final(self).right_entries(),
                    k,
                ) - matched_count(old(self).left_entries(), old(self).right_entries(), k),
            forall|k: u64|
                weighted_sum(out@, left_pad_weight(k)) == left_pad_count(
                    old(self).jt(),
                    final(self).left_entries(),
                    final(self).right_entries(),
                    k,
                ) - left_pad_count(
                    old(self).jt(),
                    old(self).left_entries(),
                    old(self).right_entries(),
                    k,
                ),
            forall|k: u64|
                weighted_sum(out@, right_pad_weight(k)) == right_pad_count(
                    old(self).jt(),
                    final(self).left_entries(),
                    final(self).right_entries(),
                    k,
                ) - right_pad_count(
                    old(self).jt(),
                    old(self).left_entries(),
                    old(self).right_entries(),
                    k,
                ),
            forall|i: int| 0 <= i < out@.len() ==> (#[trigger] out@[i]).key == key,
            forall|i: int|
                0 <= i < out@.len() ==> ((#[trigger] out@[i]).right_row matches Some(rr) ==> rr@
                    == row@),
            forall|i: int|
                0 <= i < out@.len() ==> ((#[trigger] out@[i]).left_row matches Some(lr) ==> lr@
                    == side_row(old(self).left_entries(), key)),
    {
        let ghost l0 = self.left.view_entries();
        let ghost r0 = self.right.view_entries();
        let ghost jt = self.join_type;
        let (lc, lrow_opt) = self.left.lookup(key);
        let (rc_old, rrow_opt) = self.right.lookup(key);
        self.right.update(key, row.dup(), sign);
        let ghost r1 = self.right.view_entries();
        proof {
            assert(side_count(r1, key) == side_count(r0, key) + sign);
            lemma_join_deltas_right(l0, r0, r1, jt, key, sign as int);
        }
        let mut out: Vec<JoinDiff> = Vec::new();
        match lrow_opt {
            Some(lrow) => {
                let delta = if sign == 1 {
                    lc
                } else {
                    -lc
                };
                proof {
                    assert(delta as int == sign * side_count(l0, key)) by {
                        if sign == 1 {
                        } else {
                        }
                    }
                }
                let d1 = JoinDiff {
                    key,
                    left_row: Some(lrow.dup()),
                    right_row: Some(row.dup()),
                    sign: delta,
                };
                proof {
                    lemma_push_weights(out@, d1, key);
                }
                out.push(d1);
                if keeps_left_exec(self.join_type) && rc_old == 0 && sign == 1 {
                    let d2 = JoinDiff { key, left_row: Some(lrow), right_row: None, sign: -lc };
                    proof {
                        lemma_push_weights(out@, d2, key);
                    }
                    out.push(d2);
                } else if keeps_left_exec(self.join_type) && rc_old == 1 && sign == -1 {
                    let d2 = JoinDiff { key, left_row: Some(lrow), right_row: None, sign: lc };
                    proof {
                        lemma_push_weights(out@, d2, key);
                    }
                    out.push(d2);
                }
            },
            None => {
                if keeps_right_exec(self.join_type) {
                    let d1 = JoinDiff { key, left_row: None, right_row: Some(row), sign };
                    proof {
                        lemma_push_weights(out@, d1, key);
                    }
                    out.push(d1);
                }
            },
        }
        out
    }
}

/// Pushing one diff adds its weight to each of the three output families,
/// and leaves every other key's sums unchanged.
proof fn lemma_push_weights(s: Seq<JoinDiff>, d: JoinDiff, key: u64)
    ensures
        forall|k: u64|
            weighted_sum(s.push(d), matched_weight(k)) == weighted_sum(s, matched_weight(k))
                + matched_weight(k)(d),
        forall|k: u64|
            weighted_sum(s.push(d), left_pad_weight(k)) == weighted_sum(s, left_pad_weight(k))
                + left_pad_weight(k)(d),
        forall|k: u64|
            weighted_sum(s.push(d), right_pad_weight(k)) == weighted_sum(s, right_pad_weight(k))
                + right_pad_weight(k)(d),
{
    assert forall|k: u64| true implies weighted_sum(s.push(d), matched_weight(k)) == weighted_sum(
        s,
        matched_weight(k),
    ) + matched_weight(k)(d) by {
        lemma_weighted_sum_push(s, matched_weight(k), d);
    }
    assert forall|k: u64| true implies weighted_sum(s.push(d), left_pad_weight(k)) == weighted_sum(
        s,
        left_pad_weight(k),
    ) + left_pad_weight(k)(d) by {
        lemma_weighted_sum_push(s, left_pad_weight(k), d);
    }
    assert forall|k: u64| true implies weighted_sum(s.push(d), right_pad_weight(k)) == weighted_sum(
        s,
        right_pad_weight(k),
    ) + right_pad_weight(k)(d) by {
        lemma_weighted_sum_push(s, right_pad_weight(k), d);
    }
}

/// How the three output families move when the left side takes one signed
/// change of `key`.
proof fn lemma_join_deltas(
    l0: Seq<(u64, Value, i64)>,
    l1: Seq<(u64, Value, i64)>,
    r0: Seq<(u64, Value, i64)>,
    jt: JoinType,
    key: u64,
    sign: int,
)
    requires
        forall|k: u64|
            side_count(l1, k) == side_count(l0, k) + if k == key {
                sign
            } else {
                0
            },
    ensures
        forall|k: u64|
            k != key ==> matched_count(l1, r0, k) == matched_count(l0, r0, k) && left_pad_count(
                jt,
                l1,
                r0,
                k,
            ) == left_pad_count(jt, l0, r0, k) && right_pad_count(jt, l1, r0, k)
                == right_pad_count(jt, l0, r0, k),
        matched_count(l1, r0, key) - matched_count(l0, r0, key) == sign * side_count(r0, key),
{
    assert(matched_count(l1, r0, key) - matched_count(l0, r0, key) == sign * side_count(
        r0,
        key,
    )) by {
        vstd::arithmetic::mul::lemma_mul_is_distributive_add_other_way(
            side_count(r0, key),
            side_count(l0, key),
            sign,
        );
    }
}

/// How the three output families move when the right side takes one signed
/// change of `key`.
proof fn lemma_join_deltas_right(
    l0: Seq<(u64, Value, i64)>,
    r0: Seq<(u64, Value, i64)>,
    r1: Seq<(u64, Value, i64)>,
    jt: JoinType,
    key: u64,
    sign: int,
)
    requires
        forall|k: u64|
            side_count(r1, k) == side_count(r0, k) + if k == key {
                sign
            } else {
                0
            },
    ensures
        forall|k: u64|
            k != key ==> matched_count(l0, r1, k) == matched_count(l0, r0, k) && left_pad_count(
                jt,
                l0,
                r1,
                k,
            ) == left_pad_count(jt, l0, r0, k) && right_pad_count(jt, l0, r1, k)
                == right_pad_count(jt, l0, r0, k),
        matched_count(l0, r1, key) - matched_count(l0, r0, key) == sign * side_count(l0, key),
{
    assert(matched_count(l0, r1, key) - matched_count(l0, r0, key) == sign * side_count(
        l0,
        key,
    )) by {
        vstd::arithmetic::mul::lemma_mul_is_distributive_add(
            side_count(l0, key),
            side_count(r0, key),
            sign,
        );
    }
}

} // verus!
