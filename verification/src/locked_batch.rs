use vstd::prelude::*;

use vstd::arithmetic::div_mod::lemma_div_is_ordered;

verus! {

/// A fixed, contiguous range of work indices `[offset, offset + count)`
/// together with the ownership and progress state that lets a single worker
/// drain it over a private fast counter and lets further workers join it on
/// demand over a shared counter.
///
/// Transition table:
/// - `own`: free -> owned (the one and only taking of a never-owned batch);
/// - `request_share`: sets `pending_share` (idempotent);
/// - the owner's next `get_next_index` while `pending_share` is set performs
///   the hand-off: it publishes the fast counter into the shared counter,
///   sets `sharing` and wakes parked joiners;
/// - `force_inc_counter`: publishes fast-path progress of a batch whose sole
///   owner finished without ever sharing, so every observer's completeness
///   check converges.
#[derive(Clone, Copy, Debug, PartialEq, Eq, Structural)]
pub struct LockedBatch {
    /// Set once a worker has taken the batch.
    pub owned: bool,
    /// Set by a worker that wants to join a batch it does not own.
    pub pending_share: bool,
    /// Set by the owner's hand-off; progress is then tracked in `cntr`.
    pub sharing: bool,
    /// Shared progress counter; authoritative once `sharing` is set and after
    /// a `force_inc_counter` publication.
    pub cntr: usize,
    /// Owner-private fast counter, touched only while the batch has a single
    /// worker and sharing has not started.
    pub fast_cntr: usize,
    /// Number of workers that have taken or joined the batch.
    pub workers: usize,
    /// One-shot wake flag for joiners parked until the owner's hand-off.
    pub waker: bool,
    /// First index of the range.
    pub offset: usize,
    /// Number of indices in the range.
    pub count: usize,
}

impl LockedBatch {
    /// No worker has touched the batch: no state bit is set.
    pub open spec fn is_free_spec(self) -> bool {
        !self.owned && !self.pending_share && !self.sharing
    }

    /// Freshly constructed: free, with both counters at zero and no workers.
    pub open spec fn pristine(self) -> bool {
        &&& self.is_free_spec()
        &&& self.cntr == 0
        &&& self.fast_cntr == 0
        &&& self.workers == 0
        &&& !self.waker
    }

    /// Every index of the range has been claimed.
    pub open spec fn complete_spec(self) -> bool {
        self.cntr >= self.count
    }

    /// Taken by a worker, out of the joining protocol, and complete: the
    /// state a batch reaches once a drain loop has exhausted it on the fast
    /// path and published completion.
    pub open spec fn drained(self) -> bool {
        &&& self.owned
        &&& !self.pending_share
        &&& !self.sharing
        &&& self.cntr >= self.count
    }

    /// Work remaining in the counter that currently tracks the batch's
    /// progress: the shared counter once sharing has started, the private
    /// fast counter before.
    pub open spec fn remaining_spec(self) -> int {
        if self.sharing {
            if self.count >= self.cntr {
                self.count - self.cntr
            } else {
                0
            }
        } else {
            if self.count >= self.fast_cntr {
                self.count - self.fast_cntr
            } else {
                0
            }
        }
    }

    /// The scheduling weight: how attractive joining this batch is.  Free
    /// batches offer their full range; a batch with a lone fast-path owner is
    /// discounted tenfold to bias workers toward still-free batches; a busy
    /// batch offers its remaining work divided among its workers, with a
    /// further fivefold discount while the hand-off has not happened yet.
    pub open spec fn weight_spec(self) -> int {
        if self.workers > 1 {
            if self.sharing {
                (if self.count >= self.cntr {
                    self.count - self.cntr
                } else {
                    0
                }) / (self.workers as int)
            } else {
                ((if self.count >= self.fast_cntr {
                    self.count - self.fast_cntr
                } else {
                    0
                }) / 5) / (self.workers as int)
            }
        } else if self.workers == 1 {
            (if self.count >= self.fast_cntr {
                self.count - self.fast_cntr
            } else {
                0
            }) / 10
        } else {
            self.count as int
        }
    }

    /// A new batch over `[offset, offset + count)`, free and untouched.
    pub fn new(count: usize, offset: usize) -> (batch: LockedBatch)
        ensures
            batch.pristine(),
            batch.offset == offset,
            batch.count == count,
    {
        LockedBatch {
            owned: false,
            pending_share: false,
            sharing: false,
            cntr: 0,
            fast_cntr: 0,
            workers: 0,
            waker: false,
            offset,
            count,
        }
    }

    /// Whether some worker has asked to join this batch.
    pub fn is_wanting_share(&self) -> (r: bool)
        ensures
            r == self.pending_share,
    {
        self.pending_share
    }

    /// Models the joiner's parked wait for the owner's hand-off: the call
    /// returns only once the wake flag has been published, so here the flag
    /// is required up front.  The thread-blocking variant belongs to the
    /// thread layer around this crate.
    pub fn spin_wait(&self)
        requires
            self.waker,
    {
    }

    /// Ask to join this batch.  Idempotent; the owner performs the hand-off
    /// on its next index claim.
    pub fn request_share(&mut self)
        ensures
            *final(self) == (LockedBatch { pending_share: true, ..*old(self) }),
    {
        self.pending_share = true;
    }

    /// Whether the hand-off has happened and progress is tracked in the
    /// shared counter.
    pub fn is_sharing(&self) -> (r: bool)
        ensures
            r == self.sharing,
    {
        self.sharing
    }

    /// Whether no worker has touched the batch yet.
    pub fn is_free(&self) -> (r: bool)
        ensures
            r == self.is_free_spec(),
    {
        !self.owned && !self.pending_share && !self.sharing
    }

    /// Take a free batch.  Exactly one claimant can ever succeed here, since
    /// success leaves the batch owned for good.
    pub fn own(&mut self) -> (taken: bool)
        requires
            old(self).is_free_spec() ==> old(self).workers < usize::MAX,
        ensures
            old(self).is_free_spec() ==> taken && *final(self) == (LockedBatch {
                owned: true,
                workers: (old(self).workers + 1) as usize,
                ..*old(self)
            }),
            !old(self).is_free_spec() ==> !taken && *final(self) == *old(self),
    {
        if self.is_free() {
            self.owned = true;
            self.workers = self.workers + 1;
            true
        } else {
            false
        }
    }

    /// Publish `amount` fast-path claims into the shared counter and wake any
    /// parked joiner, so a batch whose sole owner finished without sharing
    /// still reads as complete everywhere.
    pub fn force_inc_counter(&mut self, amount: usize)
        requires
            old(self).cntr + amount <= usize::MAX,
        ensures
            *final(self) == (LockedBatch {
                cntr: (old(self).cntr + amount) as usize,
                waker: true,
                ..*old(self)
            }),
    {
        self.cntr = self.cntr + amount;
        self.waker = true;
    }

    /// Claim the next index of the range.  A result `>= count` means the
    /// batch is exhausted.
    ///
    /// Fast path: no hand-off requested, the owner advances its private
    /// counter.  Hand-off: a share is pending, so the current fast-path
    /// progress is published into the shared counter, `sharing` is set,
    /// parked joiners are woken, and the claim itself comes from the shared
    /// counter.  Shared path: every claimant advances the shared counter.
    /// On each path the claimed index equals the number of indices claimed
    /// before it, which is what makes the distribution exactly-once.
    pub fn get_next_index(&mut self) -> (index: usize)
        requires
            old(self).cntr + old(self).fast_cntr < usize::MAX,
        ensures
            (!old(self).sharing && old(self).pending_share) ==> {
                &&& index == old(self).cntr + old(self).fast_cntr
                &&& *final(self) == (LockedBatch {
                    sharing: true,
                    waker: true,
                    cntr: (old(self).cntr + old(self).fast_cntr + 1) as usize,
                    ..*old(self)
                })
            },
            (!old(self).sharing && !old(self).pending_share) ==> {
                &&& index == old(self).fast_cntr
                &&& *final(self) == (LockedBatch {
                    fast_cntr: (old(self).fast_cntr + 1) as usize,
                    ..*old(self)
                })
            },
            old(self).sharing ==> {
                &&& index == old(self).cntr
                &&& *final(self) == (LockedBatch { cntr: (old(self).cntr + 1) as usize, ..*old(self) })
            },
    {
        let is_sharing = self.is_sharing();
        if !is_sharing && self.is_wanting_share() {
            self.cntr = self.cntr + self.fast_cntr;
            self.sharing = true;
            self.waker = true;

            let index = self.cntr;
            self.cntr = self.cntr + 1;
            return index;
        }

        if !is_sharing {
            let index = self.fast_cntr;
            self.fast_cntr = index + 1;
            index
        } else {
            let index = self.cntr;
            self.cntr = self.cntr + 1;
            index
        }
    }

    /// Join a batch this worker does not own: request the hand-off if it has
    /// not started and register as a worker.  The parked wait for the owner's
    /// hand-off (`spin_wait`) belongs to the thread layer around this crate.
    pub fn add_worker(&mut self)
        requires
            old(self).workers < usize::MAX,
        ensures
            old(self).sharing ==> *final(self) == (LockedBatch {
                workers: (old(self).workers + 1) as usize,
                ..*old(self)
            }),
            !old(self).sharing ==> *final(self) == (LockedBatch {
                pending_share: true,
                workers: (old(self).workers + 1) as usize,
                ..*old(self)
            }),
    {
        if !self.is_sharing() {
            if !self.is_wanting_share() {
                self.request_share();
            }
            self.workers = self.workers + 1;
            return;
        }
        self.workers = self.workers + 1;
    }

    /// The scheduling weight used to pick which in-flight batch to join when
    /// no free batch is left.  Larger is more attractive.
    pub fn get_weight(&self) -> (w: usize)
        ensures
            w == self.weight_spec(),
    {
        let workers = self.workers;

        if workers > 1 {
            if self.is_sharing() {
                let remaining = if self.count >= self.cntr {
                    self.count - self.cntr
                } else {
                    0
                };
                remaining / workers
            } else {
                let remaining = if self.count >= self.fast_cntr {
                    self.count - self.fast_cntr
                } else {
                    0
                };
                (remaining / 5) / workers
            }
        } else if workers == 1 {
            let remaining = if self.count >= self.fast_cntr {
                self.count - self.fast_cntr
            } else {
                0
            };
            remaining / 10
        } else {
            self.count
        }
    }

    /// The shared counter's current value.
    pub fn get_current_index(&self) -> (r: usize)
        ensures
            r == self.cntr,
    {
        self.cntr
    }

    /// Whether every index of the range has been claimed.
    pub fn is_complete(&self) -> (r: bool)
        ensures
            r == self.complete_spec(),
    {
        self.cntr >= self.count
    }
}

/// Rebalancing bias: between two batches being weighed in the same state
/// (same sharing mode, same number of workers), the weight never prefers the
/// one with less work remaining, so a worker looking for a batch to join is
/// directed at the one offering the most remaining work per helper.
pub proof fn lemma_weight_prefers_more_remaining(b1: LockedBatch, b2: LockedBatch)
    requires
        b1.sharing == b2.sharing,
        b1.workers == b2.workers,
        b1.workers >= 1,
        b1.sharing ==> b1.workers > 1,
        b1.remaining_spec() <= b2.remaining_spec(),
    ensures
        b1.weight_spec() <= b2.weight_spec(),
{
    if b1.workers > 1 {
        if b1.sharing {
            lemma_div_is_ordered(b1.remaining_spec(), b2.remaining_spec(), b1.workers as int);
        } else {
            lemma_div_is_ordered(b1.remaining_spec(), b2.remaining_spec(), 5);
            lemma_div_is_ordered(
                b1.remaining_spec() / 5,
                b2.remaining_spec() / 5,
                b1.workers as int,
            );
        }
    } else {
        lemma_div_is_ordered(b1.remaining_spec(), b2.remaining_spec(), 10);
    }
}

} // verus!
