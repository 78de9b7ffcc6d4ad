use vstd::prelude::*;

use crate::table::{Diff, diff_wf};
use crate::value::Value;

verus! {

/// All diffs of one timestamp, handed downstream as one atomic unit.
pub struct BatchWrapper {
    pub time: u64,
    pub diffs: Vec<Diff>,
}

/// The progress layer of one input: diffs accumulate under the open
/// timestamp; closing the timestamp seals them into a batch; consumers pull
/// only whole batches, oldest first, so no consumer ever observes part of a
/// timestamp's diffs without the rest.
pub struct ProgressTracker {
    current_time: u64,
    pending: Vec<Diff>,
    closed: Vec<BatchWrapper>,
}

impl ProgressTracker {
    /// Closed batches carry strictly increasing timestamps, all older than
    /// the open one; every diff sits in the batch of its own timestamp; the
    /// pending diffs carry the open timestamp; every sign is one or minus
    /// one.
    pub closed spec fn well_formed(&self) -> bool {
        &&& forall|i: int, j: int|
            0 <= i < j < self.closed@.len() ==> (#[trigger] self.closed@[i]).time < (
            #[trigger] self.closed@[j]).time
        &&& forall|i: int|
            0 <= i < self.closed@.len() ==> (#[trigger] self.closed@[i]).time < self.current_time
        &&& forall|i: int, j: int|
            0 <= i < self.closed@.len() && 0 <= j < (#[trigger] self.closed@[i]).diffs@.len() ==> (
            #[trigger] self.closed@[i].diffs@[j]).time == self.closed@[i].time && diff_wf(
                self.closed@[i].diffs@[j],
            )
        &&& forall|j: int|
            0 <= j < self.pending@.len() ==> (#[trigger] self.pending@[j]).time
                == self.current_time && diff_wf(self.pending@[j])
    }

    /// The open timestamp: new diffs carry it, and no closed batch does.
    pub closed spec fn open_time(&self) -> int {
        self.current_time as int
    }

    /// The sealed batches not yet consumed, oldest first.
    pub closed spec fn closed_batches(&self) -> Seq<BatchWrapper> {
        self.closed@
    }

    /// The diffs accumulated under the open timestamp so far.
    pub closed spec fn pending_diffs(&self) -> Seq<Diff> {
        self.pending@
    }

    /// A fresh tracker at timestamp zero.
    pub fn new() -> (r: Self)
        ensures
            r.well_formed(),
            r.open_time() == 0,
            r.closed_batches().len() == 0,
            r.pending_diffs().len() == 0,
    {
        ProgressTracker { current_time: 0, pending: Vec::new(), closed: Vec::new() }
    }

    /// The open timestamp.
    pub fn current_time(&self) -> (r: u64)
        ensures
            r as int == self.open_time(),
    {
        self.current_time
    }

    /// Records one diff under the open timestamp. No sealed batch changes:
    /// a timestamp that has been closed can never gain a diff.
    pub fn push(&mut self, key: u64, row: Value, sign: i64)
        requires
            old(self).well_formed(),
            sign == 1 || sign == -1,
        ensures
            final(self).well_formed(),
            final(self).open_time() == old(self).open_time(),
            final(self).closed_batches() == old(self).closed_batches(),
            final(self).pending_diffs().len() == old(self).pending_diffs().len() + 1,
            final(self).pending_diffs().drop_last() == old(self).pending_diffs(),
            ({
                let d = final(self).pending_diffs().last();
                d.key == key && d.row@ == row@ && d.time as int == old(self).open_time() && d.sign
                    == sign
            }),
    {
        let d = Diff { key, row, time: self.current_time, sign };
        self.pending.push(d);
        proof {
            assert(self.pending@.drop_last() =~= old(self).pending@);
        }
    }

    /// Seals the open timestamp: its diffs become one atomic batch at the
    /// end of the queue, and the clock moves on. Earlier batches are
    /// untouched.
    pub fn close_time(&mut self)
        requires
            old(self).well_formed(),
            old(self).open_time() < u64::MAX,
        ensures
            final(self).well_formed(),
            final(self).open_time() == old(self).open_time() + 1,
            final(self).pending_diffs().len() == 0,
            final(self).closed_batches().len() == old(self).closed_batches().len() + 1,
            final(self).closed_batches().drop_last() == old(self).closed_batches(),
            final(self).closed_batches().last().time as int == old(self).open_time(),
            final(self).closed_batches().last().diffs@ == old(self).pending_diffs(),
    {
        let mut diffs: Vec<Diff> = Vec::new();
        std::mem::swap(&mut diffs, &mut self.pending);
        let batch = BatchWrapper { time: self.current_time, diffs };
        self.closed.push(batch);
        self.current_time = self.current_time + 1;
        proof {
            assert(self.closed@.drop_last() =~= old(self).closed@);
        }
    }

    /// Hands out the oldest sealed batch, whole: a consumer receives every
    /// diff of that timestamp at once, or nothing.
    pub fn next_batch(&mut self) -> (r: Option<BatchWrapper>)
        requires
            old(self).well_formed(),
        ensures
            final(self).well_formed(),
            final(self).open_time() == old(self).open_time(),
            final(self).pending_diffs() == old(self).pending_diffs(),
            match r {
                Some(b) => old(self).closed_batches().len() > 0 && b
                    == old(self).closed_batches()[0] && final(self).closed_batches() == old(
                    self,
                ).closed_batches().skip(1),
                None => old(self).closed_batches().len() == 0 && final(self).closed_batches()
                    == old(self).closed_batches(),
            },
    {
        if self.closed.len() == 0 {
            return None;
        }
        let b = self.closed.remove(0);
        proof {
            assert(self.closed@ =~= old(self).closed@.skip(1));
        }
        Some(b)
    }

    /// The frontier: the lowest timestamp this input may still hand
    /// downstream. Every timestamp below it is complete, so it is the
    /// trigger for finalizing aggregates and checkpoints.
    pub fn frontier(&self) -> (r: u64)
        requires
            self.well_formed(),
        ensures
            self.closed_batches().len() > 0 ==> r == self.closed_batches()[0].time,
            self.closed_batches().len() == 0 ==> r as int == self.open_time(),
            forall|i: int|
                0 <= i < self.closed_batches().len() ==> r <= (
                #[trigger] self.closed_batches()[i]).time,
    {
        if self.closed.len() > 0 {
            let r = self.closed[0].time;
            proof {
                assert forall|i: int| 0 <= i < self.closed@.len() implies r <= (
                #[trigger] self.closed@[i]).time by {
                    if i > 0 {
                        assert(self.closed@[0].time < self.closed@[i].time);
                    }
                }
            }
            r
        } else {
            self.current_time
        }
    }
}

/// Timestamp atomicity: every diff a consumer can ever see through a sealed
/// batch carries that batch's timestamp, batches leave in timestamp order,
/// and every sealed timestamp is older than the open one — so no consumer
/// observes a strict subset of one timestamp's diffs before the rest.
pub proof fn lemma_batch_atomicity(t: &ProgressTracker)
    requires
        t.well_formed(),
    ensures
        forall|i: int, j: int|
            0 <= i < t.closed_batches().len() && 0 <= j < (
            #[trigger] t.closed_batches()[i]).diffs@.len() ==> (#[trigger] t.closed_batches(
            )[i].diffs@[j]).time == t.closed_batches()[i].time,
        forall|i: int, j: int|
            0 <= i < j < t.closed_batches().len() ==> (#[trigger] t.closed_batches()[i]).time < (
            #[trigger] t.closed_batches()[j]).time,
        forall|i: int|
            0 <= i < t.closed_batches().len() ==> (#[trigger] t.closed_batches()[i]).time
                < t.open_time(),
{
}

} // verus!
