use vstd::prelude::*;

use crate::locked_batch::LockedBatch;
use crate::operation::Operation;
use vstd::arithmetic::div_mod::{lemma_fundamental_div_mod, lemma_mod_division_less_than_divisor};
use vstd::arithmetic::mul::lemma_mul_inequality;

verus! {

/// The fan-out of one dispatch: how many batches the buffer is split into.
/// Eight batches per worker over-subscribe the pool so that rebalancing has
/// fine enough granularity to smooth uneven per-element cost.
pub open spec fn fanout(cores: usize) -> int {
    8 * (if cores as int >= 1 {
        cores as int
    } else {
        1
    })
}

/// The batches tile `[0, total)`: the first begins at zero, each further one
/// begins where its predecessor ends, and the last ends at `total`.
pub open spec fn tiles(bs: Seq<LockedBatch>, total: int) -> bool {
    &&& (bs.len() == 0 ==> total == 0)
    &&& (bs.len() > 0 ==> bs[0].offset == 0)
    &&& (bs.len() > 0 ==> bs[bs.len() - 1].offset + bs[bs.len() - 1].count == total)
    &&& (forall|j: int|
        1 <= j < bs.len() ==> (#[trigger] bs[j]).offset == bs[j - 1].offset + bs[j - 1].count)
}

/// The sum of all batch counts.
pub open spec fn counts_total(bs: Seq<LockedBatch>) -> int
    decreases bs.len(),
{
    if bs.len() == 0 {
        0
    } else {
        counts_total(bs.drop_last()) + bs.last().count
    }
}

/// What one batch contributes to the number of elements already drained.
pub open spec fn done_contrib(b: LockedBatch) -> int {
    if b.drained() {
        b.count as int
    } else {
        0
    }
}

/// The number of elements in drained batches.
pub open spec fn done_total(bs: Seq<LockedBatch>) -> int
    decreases bs.len(),
{
    if bs.len() == 0 {
        0
    } else {
        done_total(bs.drop_last()) + done_contrib(bs.last())
    }
}

/// What one batch contributes to the number of still-untouched batches.
pub open spec fn pristine_contrib(b: LockedBatch) -> int {
    if b.pristine() {
        1
    } else {
        0
    }
}

/// The number of still-untouched batches.
pub open spec fn pristine_total(bs: Seq<LockedBatch>) -> int
    decreases bs.len(),
{
    if bs.len() == 0 {
        0
    } else {
        pristine_total(bs.drop_last()) + pristine_contrib(bs.last())
    }
}

/// The positions `[o, o + c)` hold the same values in `cur` as in `pre`.
pub open spec fn range_unchanged<T>(pre: Seq<T>, cur: Seq<T>, o: int, c: int) -> bool {
    forall|p: int| o <= p < o + c ==> #[trigger] cur[p] == pre[p]
}

/// Every position of `[o, o + c)` holds in `cur` the operation's image of its
/// value in `pre`.
pub open spec fn range_applied<T, Op: Operation<T>>(
    op: Op,
    pre: Seq<T>,
    cur: Seq<T>,
    o: int,
    c: int,
) -> bool {
    forall|p: int| o <= p < o + c ==> #[trigger] cur[p] == op.op_spec(pre[p])
}

/// A tiling sequence restricted to all but its last batch tiles the prefix
/// that ends where the last batch begins.
proof fn lemma_tiles_prefix(bs: Seq<LockedBatch>, total: int)
    requires
        tiles(bs, total),
        bs.len() >= 1,
    ensures
        tiles(bs.drop_last(), bs[bs.len() - 1].offset as int),
{
    let pre = bs.drop_last();
    assert(forall|j: int| 0 <= j < pre.len() ==> pre[j] == bs[j]);
    if pre.len() == 0 {
        assert(bs[0].offset == 0);
    } else {
        assert(bs[bs.len() - 1].offset == bs[bs.len() - 2].offset + bs[bs.len() - 2].count);
    }
}

/// Partition totals: over a batch set that tiles `[0, total)`, the batch
/// counts sum to exactly `total`.
pub proof fn lemma_tiles_sum(bs: Seq<LockedBatch>, total: int)
    requires
        tiles(bs, total),
    ensures
        counts_total(bs) == total,
    decreases bs.len(),
{
    if bs.len() == 0 {
    } else {
        lemma_tiles_prefix(bs, total);
        lemma_tiles_sum(bs.drop_last(), bs[bs.len() - 1].offset as int);
    }
}

/// In a tiling sequence, an earlier batch's range ends no later than a later
/// batch's range begins: distinct batches never overlap.
proof fn lemma_tiles_ordered(bs: Seq<LockedBatch>, total: int, j1: int, j2: int)
    requires
        tiles(bs, total),
        0 <= j1 < j2 < bs.len(),
    ensures
        bs[j1].offset + bs[j1].count <= bs[j2].offset,
    decreases j2 - j1,
{
    if j2 == j1 + 1 {
        assert(bs[j2].offset == bs[j2 - 1].offset + bs[j2 - 1].count);
    } else {
        lemma_tiles_ordered(bs, total, j1, j2 - 1);
        assert(bs[j2].offset == bs[j2 - 1].offset + bs[j2 - 1].count);
    }
}

/// In a tiling sequence, every batch's range lies inside `[0, total)`.
proof fn lemma_tiles_in_bounds(bs: Seq<LockedBatch>, total: int, j: int)
    requires
        tiles(bs, total),
        0 <= j < bs.len(),
    ensures
        bs[j].offset + bs[j].count <= total,
    decreases bs.len(),
{
    if j == bs.len() - 1 {
    } else {
        lemma_tiles_ordered(bs, total, j, bs.len() - 1);
    }
}

/// In a tiling sequence, every position of `[0, total)` lies in some batch's
/// range.
proof fn lemma_tiles_cover(bs: Seq<LockedBatch>, total: int, k: int)
    requires
        tiles(bs, total),
        0 <= k < total,
    ensures
        exists|j: int|
            0 <= j < bs.len() && (#[trigger] bs[j]).offset <= k < bs[j].offset + bs[j].count,
    decreases bs.len(),
{
    assert(bs.len() > 0);
    let last = bs.len() - 1;
    if k >= bs[last].offset {
        assert(bs[last].offset <= k < bs[last].offset + bs[last].count);
    } else {
        lemma_tiles_prefix(bs, total);
        lemma_tiles_cover(bs.drop_last(), bs[last].offset as int, k);
        let j = choose|j: int|
            0 <= j < bs.drop_last().len() && (#[trigger] bs.drop_last()[j]).offset <= k < bs.drop_last()[j].offset
                + bs.drop_last()[j].count;
        assert(bs[j] == bs.drop_last()[j]);
        assert(bs[j].offset <= k < bs[j].offset + bs[j].count);
    }
}

/// Replacing one batch changes the drained-element sum by the difference of
/// the two contributions.
proof fn lemma_done_update(bs: Seq<LockedBatch>, i: int, b: LockedBatch)
    requires
        0 <= i < bs.len(),
    ensures
        done_total(bs.update(i, b)) == done_total(bs) - done_contrib(bs[i]) + done_contrib(b),
    decreases bs.len(),
{
    let u = bs.update(i, b);
    if i == bs.len() - 1 {
        assert(u.drop_last() =~= bs.drop_last());
        assert(u.last() == b);
    } else {
        assert(u.drop_last() =~= bs.drop_last().update(i, b));
        lemma_done_update(bs.drop_last(), i, b);
        assert(u.last() == bs.last());
    }
}

/// Replacing one batch changes the untouched-batch count by the difference of
/// the two contributions.
proof fn lemma_pristine_update(bs: Seq<LockedBatch>, i: int, b: LockedBatch)
    requires
        0 <= i < bs.len(),
    ensures
        pristine_total(bs.update(i, b)) == pristine_total(bs) - pristine_contrib(bs[i])
            + pristine_contrib(b),
    decreases bs.len(),
{
    let u = bs.update(i, b);
    if i == bs.len() - 1 {
        assert(u.drop_last() =~= bs.drop_last());
        assert(u.last() == b);
    } else {
        assert(u.drop_last() =~= bs.drop_last().update(i, b));
        lemma_pristine_update(bs.drop_last(), i, b);
        assert(u.last() == bs.last());
    }
}

/// While no batch is drained, the drained-element sum is zero.
proof fn lemma_done_none(bs: Seq<LockedBatch>)
    requires
        forall|j: int| 0 <= j < bs.len() ==> !(#[trigger] bs[j]).drained(),
    ensures
        done_total(bs) == 0,
    decreases bs.len(),
{
    if bs.len() == 0 {
    } else {
        assert(forall|j: int| 0 <= j < bs.drop_last().len() ==> bs.drop_last()[j] == bs[j]);
        lemma_done_none(bs.drop_last());
    }
}

/// The drained-element sum is never negative.
proof fn lemma_done_nonneg(bs: Seq<LockedBatch>)
    ensures
        0 <= done_total(bs),
    decreases bs.len(),
{
    if bs.len() == 0 {
    } else {
        lemma_done_nonneg(bs.drop_last());
    }
}

/// The untouched-batch count is never negative.
proof fn lemma_pristine_nonneg(bs: Seq<LockedBatch>)
    ensures
        0 <= pristine_total(bs),
    decreases bs.len(),
{
    if bs.len() == 0 {
    } else {
        lemma_pristine_nonneg(bs.drop_last());
    }
}

/// The drained-element sum never exceeds the sum of all counts.
proof fn lemma_done_le_counts(bs: Seq<LockedBatch>)
    ensures
        done_total(bs) <= counts_total(bs),
    decreases bs.len(),
{
    if bs.len() == 0 {
    } else {
        lemma_done_le_counts(bs.drop_last());
    }
}

/// While some batch is not drained, the drained-element sum leaves room for
/// that batch's whole count.
proof fn lemma_done_le_counts_except(bs: Seq<LockedBatch>, i: int)
    requires
        0 <= i < bs.len(),
        !bs[i].drained(),
    ensures
        done_total(bs) + bs[i].count <= counts_total(bs),
    decreases bs.len(),
{
    if i == bs.len() - 1 {
        lemma_done_le_counts(bs.drop_last());
    } else {
        lemma_done_le_counts_except(bs.drop_last(), i);
    }
}

/// Once every batch is drained or empty, the drained-element sum equals the
/// sum of all counts.
proof fn lemma_done_full(bs: Seq<LockedBatch>)
    requires
        forall|j: int| 0 <= j < bs.len() ==> ((#[trigger] bs[j]).drained() || bs[j].count == 0),
    ensures
        done_total(bs) == counts_total(bs),
    decreases bs.len(),
{
    if bs.len() == 0 {
    } else {
        assert(forall|j: int| 0 <= j < bs.drop_last().len() ==> bs.drop_last()[j] == bs[j]);
        lemma_done_full(bs.drop_last());
    }
}

/// One dispatch's unit of work: the batch set partitioning the buffer's index
/// range, the count of elements already reported done, and the one-shot
/// completion signal.  A job is single-use: it is built by a dispatch,
/// executed, waited on, and then dropped.
pub struct Job {
    /// The batches that tile `[0, num)`.
    pub batches: Vec<LockedBatch>,
    /// The buffer length this job covers.
    pub num: usize,
    /// Total elements reported done by finished drain loops.
    pub done_index: usize,
    /// The one-shot completion signal, published when `done_index` reaches
    /// `num`.
    pub complete: bool,
}

impl Job {
    /// The batch set tiles the buffer's index range, and no single batch is
    /// so large that its exhaustion sentinel would not fit.
    pub open spec fn wf(self) -> bool {
        &&& tiles(self.batches@, self.num as int)
        &&& forall|j: int|
            0 <= j < self.batches@.len() ==> (#[trigger] self.batches@[j]).count < usize::MAX
    }

    /// Never executed: every batch untouched, nothing reported done, the
    /// completion signal unpublished.
    pub open spec fn fresh(self) -> bool {
        &&& self.done_index == 0
        &&& !self.complete
        &&& forall|j: int| 0 <= j < self.batches@.len() ==> (#[trigger] self.batches@[j]).pristine()
    }

    /// Every batch is either still untouched or fully drained: the states a
    /// job rests in between runs of the worker loop.
    pub open spec fn settled(self) -> bool {
        forall|j: int|
            0 <= j < self.batches@.len() ==> ((#[trigger] self.batches@[j]).pristine()
                || self.batches@[j].drained())
    }

    /// Build the job for a buffer of length `len` and a pool of `cores`
    /// workers: partition `[0, len)` into `max(cores, 1) * 8` contiguous
    /// batches of `len / fanout` indices each, with the remainder
    /// `len % fanout` folded entirely into the first batch.
    pub fn new(len: usize, cores: usize) -> (job: Job)
        requires
            cores <= usize::MAX / 8,
        ensures
            job.wf(),
            job.fresh(),
            job.done_index == done_total(job.batches@),
            job.num == len,
            job.batches@.len() == fanout(cores),
            job.batches@[0].offset == 0,
            job.batches@[0].count == len as int / fanout(cores) + len as int % fanout(cores),
            forall|j: int|
                1 <= j < job.batches@.len() ==> (#[trigger] job.batches@[j]).count == len as int
                    / fanout(cores),
            forall|j: int|
                1 <= j < job.batches@.len() ==> (#[trigger] job.batches@[j]).offset == j * (
                len as int / fanout(cores)) + len as int % fanout(cores),
    {
        let c: usize = if cores < 1 {
            1
        } else {
            cores
        };
        let f: usize = c * 8;
        let estim: usize = len / f;
        let overflow: usize = len % f;
        proof {
            lemma_fundamental_div_mod(len as int, f as int);
            lemma_mod_division_less_than_divisor(len as int, f as int);
        }

        let mut batches: Vec<LockedBatch> = Vec::new();
        let mut i: usize = 0;
        while i < f
            invariant
                0 < f <= usize::MAX,
                f == fanout(cores),
                f >= 8,
                i <= f,
                estim == len as int / f as int,
                overflow == len as int % f as int,
                len as int == f as int * estim as int + overflow as int,
                overflow < f,
                batches@.len() == i,
                forall|j: int| 0 <= j < i ==> (#[trigger] batches@[j]).pristine(),
                i > 0 ==> batches@[0].offset == 0 && batches@[0].count == estim + overflow,
                forall|j: int| 1 <= j < i ==> (#[trigger] batches@[j]).count == estim,
                forall|j: int|
                    1 <= j < i ==> (#[trigger] batches@[j]).offset == j * (estim as int)
                        + overflow,
            decreases f - i,
        {
            if i == 0 {
                proof {
                    lemma_mul_inequality(1, f as int, estim as int);
                }
                batches.push(LockedBatch::new(estim + overflow, 0));
            } else {
                proof {
                    lemma_mul_inequality(i as int, f as int, estim as int);
                }
                let off = i * estim + overflow;
                batches.push(LockedBatch::new(estim, off));
            }
            i = i + 1;
        }

        proof {
            assert forall|j: int|
                1 <= j < batches@.len() implies (#[trigger] batches@[j]).offset == batches@[j
                - 1].offset + batches@[j - 1].count by {
                if j == 1 {
                    assert(batches@[1].offset == 1 * (estim as int) + overflow);
                } else {
                    assert(batches@[j].offset == j * (estim as int) + overflow);
                    assert(batches@[j - 1].offset == (j - 1) * (estim as int) + overflow);
                    assert(j * (estim as int) == (j - 1) * (estim as int) + estim as int)
                        by (nonlinear_arith);
                }
            }
            assert(batches@[batches@.len() - 1].offset + batches@[batches@.len() - 1].count
                == len as int) by {
                if f == 1 {
                } else {
                    let j = batches@.len() - 1;
                    assert(batches@[j].offset == j * (estim as int) + overflow);
                    assert(f as int * estim as int == (f as int - 1) * (estim as int)
                        + estim as int) by (nonlinear_arith);
                }
            }
            assert forall|j: int|
                0 <= j < batches@.len() implies (#[trigger] batches@[j]).count
                < usize::MAX by {
                if estim == 0 {
                    assert(batches@[j].count <= estim + overflow < f <= usize::MAX);
                } else {
                    assert(7 * (estim as int) <= (f as int - 1) * (estim as int)) by {
                        lemma_mul_inequality(7, f as int - 1, estim as int);
                    }
                    assert(f as int * estim as int == (f as int - 1) * (estim as int)
                        + estim as int) by (nonlinear_arith);
                    assert(estim as int + overflow as int <= len as int - 7);
                }
            }
        }

        proof {
            lemma_done_none(batches@);
        }
        Job { batches, num: len, done_index: 0, complete: false }
    }

    /// The scheduling policy a worker runs whenever it needs new work: take
    /// the first still-free batch if one exists; otherwise join the
    /// not-yet-complete batch of maximal weight, ties broken by scan order
    /// (the last maximal batch, as taking an iterator maximum does); if every
    /// batch is complete, report that no work is left.
    pub fn get_free_slot(&mut self) -> (found: Option<usize>)
        requires
            forall|j: int|
                0 <= j < old(self).batches@.len() ==> (#[trigger] old(self).batches@[j]).workers
                    < usize::MAX,
        ensures
            final(self).num == old(self).num,
            final(self).done_index == old(self).done_index,
            final(self).complete == old(self).complete,
            final(self).batches@.len() == old(self).batches@.len(),
            match found {
                None => {
                    &&& *final(self) == *old(self)
                    &&& forall|j: int|
                        0 <= j < old(self).batches@.len() ==> (#[trigger] old(
                            self,
                        ).batches@[j]).complete_spec()
                },
                Some(i) => {
                    &&& i < old(self).batches@.len()
                    &&& forall|j: int|
                        0 <= j < old(self).batches@.len() && j != i ==> final(self).batches@[j]
                            == old(self).batches@[j]
                    &&& (if old(self).batches@[i as int].is_free_spec() {
                        final(self).batches@[i as int] == (LockedBatch {
                            owned: true,
                            workers: (old(self).batches@[i as int].workers + 1) as usize,
                            ..old(self).batches@[i as int]
                        })
                    } else {
                        &&& !old(self).batches@[i as int].complete_spec()
                        &&& (forall|j: int|
                            0 <= j < old(self).batches@.len() ==> !(#[trigger] old(
                                self,
                            ).batches@[j]).is_free_spec())
                        &&& (forall|j: int|
                            0 <= j < old(self).batches@.len() && !old(
                                self,
                            ).batches@[j].complete_spec() ==> (#[trigger] old(
                                self,
                            ).batches@[j]).weight_spec() <= old(
                                self,
                            ).batches@[i as int].weight_spec())
                        &&& (forall|j: int|
                            i < j < old(self).batches@.len() && !old(
                                self,
                            ).batches@[j].complete_spec() ==> (#[trigger] old(
                                self,
                            ).batches@[j]).weight_spec() < old(
                                self,
                            ).batches@[i as int].weight_spec())
                        &&& final(self).batches@[i as int] == (LockedBatch {
                            pending_share: old(self).batches@[i as int].pending_share || !old(
                                self,
                            ).batches@[i as int].sharing,
                            workers: (old(self).batches@[i as int].workers + 1) as usize,
                            ..old(self).batches@[i as int]
                        })
                    })
                },
            },
    {
        let n = self.batches.len();

        let mut idx: usize = 0;
        while idx < n
            invariant
                n == self.batches@.len(),
                *self == *old(self),
                idx <= n,
                forall|j: int|
                    0 <= j < old(self).batches@.len() ==> (#[trigger] old(
                        self,
                    ).batches@[j]).workers < usize::MAX,
                forall|j: int| 0 <= j < idx ==> !(#[trigger] self.batches@[j]).is_free_spec(),
            decreases n - idx,
        {
            let b = self.batches[idx];
            if b.is_free() {
                let mut nb = b;
                let taken = nb.own();
                if taken {
                    self.batches[idx] = nb;
                    return Some(idx);
                }
            }
            idx = idx + 1;
        }

        let mut best: usize = 0;
        let mut best_w: usize = 0;
        let mut have_best = false;
        let mut idx2: usize = 0;
        while idx2 < n
            invariant
                n == self.batches@.len(),
                *self == *old(self),
                idx2 <= n,
                forall|j: int| 0 <= j < n ==> !(#[trigger] self.batches@[j]).is_free_spec(),
                !have_best ==> forall|j: int|
                    0 <= j < idx2 ==> (#[trigger] self.batches@[j]).complete_spec(),
                have_best ==> {
                    &&& best < idx2
                    &&& !self.batches@[best as int].complete_spec()
                    &&& best_w == self.batches@[best as int].weight_spec()
                    &&& forall|j: int|
                        0 <= j < idx2 && !self.batches@[j].complete_spec() ==> (
                        #[trigger] self.batches@[j]).weight_spec() <= best_w
                    &&& forall|j: int|
                        best < j < idx2 && !self.batches@[j].complete_spec() ==> (
                        #[trigger] self.batches@[j]).weight_spec() < best_w
                },
            decreases n - idx2,
        {
            let b = self.batches[idx2];
            if !b.is_complete() {
                let w = b.get_weight();
                if !have_best || w >= best_w {
                    have_best = true;
                    best = idx2;
                    best_w = w;
                }
            }
            idx2 = idx2 + 1;
        }

        if have_best {
            let mut nb = self.batches[best];
            nb.add_worker();
            self.batches[best] = nb;
            Some(best)
        } else {
            None
        }
    }

    /// The worker loop of one dispatch: repeatedly acquire a batch, drain
    /// its indices while applying the operation to `buffer[offset + index]`,
    /// publish completion of a batch that never started sharing, and when no
    /// work is left add the local tally to the job's total and publish the
    /// completion signal.
    ///
    /// The contract is the engine's central promise: every element still
    /// untouched when this run starts is visited exactly once and rewritten
    /// to the operation's image of its old value, while elements of batches
    /// drained earlier are left alone -- a worker that receives the job late
    /// finds no work, visits nothing twice, and leaves the signal published.
    /// On a fresh job the visits cover the whole buffer.
    #[verifier::rlimit(50)]
    pub fn execute<T, Op: Operation<T>>(&mut self, buffer: &mut Vec<T>, op: &Op)
        requires
            old(self).wf(),
            old(self).settled(),
            old(self).done_index == done_total(old(self).batches@),
            forall|j: int|
                0 <= j < old(self).batches@.len() ==> (#[trigger] old(self).batches@[j]).workers
                    < usize::MAX,
            old(buffer)@.len() == old(self).num,
        ensures
            final(self).complete,
            final(self).num == old(self).num,
            final(self).done_index == old(self).num,
            final(self).wf(),
            final(self).settled(),
            final(self).done_index == done_total(final(self).batches@),
            final(self).batches@.len() == old(self).batches@.len(),
            final(buffer)@.len() == old(buffer)@.len(),
            forall|j: int|
                0 <= j < old(self).batches@.len() && (#[trigger] old(
                    self,
                ).batches@[j]).pristine() ==> range_applied(
                    *op,
                    old(buffer)@,
                    final(buffer)@,
                    old(self).batches@[j].offset as int,
                    old(self).batches@[j].count as int,
                ),
            forall|j: int|
                0 <= j < old(self).batches@.len() && (#[trigger] old(
                    self,
                ).batches@[j]).drained() ==> final(self).batches@[j] == old(self).batches@[j]
                    && range_unchanged(
                    old(buffer)@,
                    final(buffer)@,
                    old(self).batches@[j].offset as int,
                    old(self).batches@[j].count as int,
                ),
            old(self).fresh() ==> forall|k: int|
                0 <= k < old(buffer)@.len() ==> #[trigger] final(buffer)@[k] == op.op_spec(
                    old(buffer)@[k],
                ),
            old(self).fresh() ==> !old(self).complete && final(self).complete,
    {
        let mut completed: usize = 0;

        loop
            invariant_except_break
                self.num == old(self).num,
                self.done_index == old(self).done_index,
                self.complete == old(self).complete,
                self.batches@.len() == old(self).batches@.len(),
                tiles(self.batches@, self.num as int),
                forall|j: int|
                    0 <= j < self.batches@.len() ==> (#[trigger] self.batches@[j]).count
                        < usize::MAX,
                forall|j: int|
                    0 <= j < self.batches@.len() ==> (#[trigger] self.batches@[j]).workers
                        < usize::MAX,
                buffer@.len() == old(buffer)@.len(),
                old(buffer)@.len() == self.num,
                forall|j: int|
                    0 <= j < self.batches@.len() ==> {
                        let bo = old(self).batches@[j];
                        let bn = #[trigger] self.batches@[j];
                        &&& bn.offset == bo.offset
                        &&& bn.count == bo.count
                        &&& ((bo.pristine() && bn.pristine() && range_unchanged(
                            old(buffer)@,
                            buffer@,
                            bn.offset as int,
                            bn.count as int,
                        )) || (bo.pristine() && bn.drained() && range_applied(
                            *op,
                            old(buffer)@,
                            buffer@,
                            bn.offset as int,
                            bn.count as int,
                        )) || (bo.drained() && bn == bo && range_unchanged(
                            old(buffer)@,
                            buffer@,
                            bn.offset as int,
                            bn.count as int,
                        )))
                    },
                completed + done_total(old(self).batches@) == done_total(self.batches@),
                completed <= self.num,
            ensures
                self.num == old(self).num,
                self.done_index == old(self).done_index,
                self.complete == old(self).complete,
                self.batches@.len() == old(self).batches@.len(),
                tiles(self.batches@, self.num as int),
                forall|j: int|
                    0 <= j < self.batches@.len() ==> (#[trigger] self.batches@[j]).count
                        < usize::MAX,
                forall|j: int|
                    0 <= j < self.batches@.len() ==> ((#[trigger] self.batches@[j]).pristine()
                        || self.batches@[j].drained()),
                buffer@.len() == old(buffer)@.len(),
                done_total(self.batches@) == self.num,
                completed + done_total(old(self).batches@) == self.num as int,
                forall|j: int|
                    0 <= j < old(self).batches@.len() && (#[trigger] old(
                        self,
                    ).batches@[j]).pristine() ==> range_applied(
                        *op,
                        old(buffer)@,
                        buffer@,
                        old(self).batches@[j].offset as int,
                        old(self).batches@[j].count as int,
                    ),
                forall|j: int|
                    0 <= j < old(self).batches@.len() && (#[trigger] old(
                        self,
                    ).batches@[j]).drained() ==> self.batches@[j] == old(self).batches@[j]
                        && range_unchanged(
                        old(buffer)@,
                        buffer@,
                        old(self).batches@[j].offset as int,
                        old(self).batches@[j].count as int,
                    ),
                old(self).fresh() ==> forall|k: int|
                    0 <= k < old(buffer)@.len() ==> #[trigger] buffer@[k] == op.op_spec(
                        old(buffer)@[k],
                    ),
            decreases pristine_total(self.batches@),
        {
            let ghost s0 = *self;
            let slot = self.get_free_slot();
            if slot.is_none() {
                proof {
                    lemma_tiles_sum(self.batches@, self.num as int);
                    assert(forall|j: int|
                        0 <= j < self.batches@.len() ==> ((#[trigger] self.batches@[j]).drained()
                            || self.batches@[j].count == 0));
                    lemma_done_full(self.batches@);
                    assert forall|j: int|
                        0 <= j < old(self).batches@.len() && (#[trigger] old(
                        self,
                    ).batches@[j]).pristine() implies range_applied(
                        *op,
                        old(buffer)@,
                        buffer@,
                        old(self).batches@[j].offset as int,
                        old(self).batches@[j].count as int,
                    ) by {
                        if self.batches@[j].pristine() {
                            assert(self.batches@[j].count == 0);
                        }
                    }
                    if old(self).fresh() {
                        assert forall|k: int|
                            0 <= k < old(buffer)@.len() implies #[trigger] buffer@[k]
                            == op.op_spec(old(buffer)@[k]) by {
                            lemma_tiles_cover(self.batches@, self.num as int, k);
                            let j = choose|j: int|
                                0 <= j < self.batches@.len() && (
                                #[trigger] self.batches@[j]).offset <= k < self.batches@[j].offset
                                    + self.batches@[j].count;
                            assert(self.batches@[j].drained());
                        }
                    }
                }
                break;
            }
            let i = slot.unwrap();

            proof {
                lemma_done_nonneg(old(self).batches@);
                assert(s0.batches@[i as int].is_free_spec());
                assert(s0.batches@[i as int].pristine());
                assert(self.batches@ =~= s0.batches@.update(
                    i as int,
                    self.batches@[i as int],
                ));
                lemma_done_update(s0.batches@, i as int, self.batches@[i as int]);
                lemma_pristine_update(s0.batches@, i as int, self.batches@[i as int]);
                lemma_tiles_sum(s0.batches@, s0.num as int);
                lemma_done_le_counts_except(s0.batches@, i as int);
                lemma_tiles_in_bounds(self.batches@, self.num as int, i as int);
            }

            let mut b = self.batches[i];
            let ghost smid = *self;
            let ghost bufm = buffer@;
            let ghost completed0 = completed;
            let ghost o = b.offset as int;
            let ghost c = b.count as int;

            loop
                invariant_except_break
                    *self == smid,
                    i < self.batches@.len(),
                    b.owned,
                    !b.pending_share,
                    !b.sharing,
                    b.cntr == 0,
                    b.offset as int == o,
                    b.count as int == c,
                    b.workers == smid.batches@[i as int].workers,
                    b.fast_cntr <= b.count,
                    b.count < usize::MAX,
                    buffer@.len() == bufm.len(),
                    buffer@.len() == smid.num,
                    o + c <= buffer@.len(),
                    forall|p: int|
                        o <= p < o + b.fast_cntr ==> #[trigger] buffer@[p] == op.op_spec(bufm[p]),
                    forall|p: int|
                        0 <= p < buffer@.len() && !(o <= p < o + b.fast_cntr)
                            ==> #[trigger] buffer@[p] == bufm[p],
                    completed == completed0 + b.fast_cntr,
                    completed0 + c <= smid.num,
                ensures
                    *self == smid,
                    b.drained(),
                    b.offset as int == o,
                    b.count as int == c,
                    b.workers == smid.batches@[i as int].workers,
                    buffer@.len() == bufm.len(),
                    forall|p: int|
                        o <= p < o + c ==> #[trigger] buffer@[p] == op.op_spec(bufm[p]),
                    forall|p: int|
                        0 <= p < buffer@.len() && !(o <= p < o + c) ==> #[trigger] buffer@[p]
                            == bufm[p],
                    completed == completed0 + c,
                decreases b.count - b.fast_cntr,
            {
                let index = b.get_next_index();
                if index >= b.count {
                    if !b.is_sharing() {
                        b.force_inc_counter(index);
                    }
                    break;
                }
                let pos = b.offset + index;
                let elem = &mut buffer[pos];
                op.apply(elem);
                completed = completed + 1;
            }

            self.batches[i] = b;

            proof {
                let bs2 = self.batches@;
                assert(bs2 =~= smid.batches@.update(i as int, b));
                lemma_done_update(smid.batches@, i as int, b);
                lemma_pristine_update(smid.batches@, i as int, b);
                assert(done_contrib(smid.batches@[i as int]) == 0);
                lemma_pristine_nonneg(bs2);

                assert forall|j: int| 1 <= j < bs2.len() implies (#[trigger] bs2[j]).offset
                    == bs2[j - 1].offset + bs2[j - 1].count by {
                    assert(s0.batches@[j].offset == s0.batches@[j - 1].offset + s0.batches@[j
                        - 1].count);
                }
                assert(tiles(bs2, self.num as int));

                assert forall|j: int|
                    0 <= j < bs2.len() implies {
                    let bo = old(self).batches@[j];
                    let bn = #[trigger] bs2[j];
                    &&& bn.offset == bo.offset
                    &&& bn.count == bo.count
                    &&& ((bo.pristine() && bn.pristine() && range_unchanged(
                        old(buffer)@,
                        buffer@,
                        bn.offset as int,
                        bn.count as int,
                    )) || (bo.pristine() && bn.drained() && range_applied(
                        *op,
                        old(buffer)@,
                        buffer@,
                        bn.offset as int,
                        bn.count as int,
                    )) || (bo.drained() && bn == bo && range_unchanged(
                        old(buffer)@,
                        buffer@,
                        bn.offset as int,
                        bn.count as int,
                    )))
                } by {
                    if j == i as int {
                        assert(range_unchanged(old(buffer)@, bufm, o, c));
                        assert forall|p: int| o <= p < o + c implies #[trigger] buffer@[p]
                            == op.op_spec(old(buffer)@[p]) by {
                            assert(buffer@[p] == op.op_spec(bufm[p]));
                            assert(bufm[p] == old(buffer)@[p]);
                        }
                    } else {
                        let bj = s0.batches@[j];
                        if j < i as int {
                            lemma_tiles_ordered(s0.batches@, s0.num as int, j, i as int);
                        } else {
                            lemma_tiles_ordered(s0.batches@, s0.num as int, i as int, j);
                        }
                        lemma_tiles_in_bounds(s0.batches@, s0.num as int, j);
                        assert forall|p: int|
                            bj.offset <= p < bj.offset + bj.count implies #[trigger] buffer@[p]
                            == bufm[p] by {}
                    }
                }
            }
        }

        self.done_index = self.done_index + completed;
        if self.done_index >= self.num {
            self.complete = true;
        }
    }

    /// The caller-side wait on the completion barrier.  The concurrent engine
    /// blocks here until a worker publishes the signal; in this model the
    /// call returns once the signal stands, so it is required up front.
    /// Single-shot per job.
    pub fn wait(&self)
        requires
            self.complete,
    {
    }
}

/// Partition totals, as one dispatch guarantees them: over any well-formed
/// job, the batch counts sum to exactly the buffer length.
pub proof fn lemma_partition_totals(job: Job)
    requires
        job.wf(),
    ensures
        counts_total(job.batches@) == job.num,
{
    lemma_tiles_sum(job.batches@, job.num as int);
}

} // verus!
