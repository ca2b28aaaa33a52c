use vstd::prelude::*;

use crate::operation::Operation;

verus! {

/// An earlier, per-element shape of a dispatch job: one unit of work per
/// buffer element, queued by the producer and drained by workers that bump a
/// shared completion counter.  The batch engine supersedes it for real
/// dispatches, but the shape stays useful as the simplest exactly-once
/// work list: every element appears in the queue once, and running a job
/// visits exactly its own element.
pub struct Job {
    /// The buffer position this job visits.
    pub index: usize,
}

impl Job {
    /// One job per element of a buffer of length `len`, in position order.
    pub fn create_job(len: usize) -> (jobs: Vec<Job>)
        ensures
            jobs@.len() == len,
            forall|j: int| 0 <= j < len ==> (#[trigger] jobs@[j]).index == j,
    {
        let mut jobs: Vec<Job> = Vec::new();
        let mut i: usize = 0;
        while i < len
            invariant
                i <= len,
                jobs@.len() == i,
                forall|j: int| 0 <= j < i ==> (#[trigger] jobs@[j]).index == j,
            decreases len - i,
        {
            jobs.push(Job { index: i });
            i = i + 1;
        }
        jobs
    }

    /// Run one job: apply the operation to this job's element, leave every
    /// other element alone, and report one more completed element.
    pub fn run<T, Op: Operation<T>>(&self, data: &mut Vec<T>, op: &Op, complete: &mut u64)
        requires
            self.index < old(data)@.len(),
            *old(complete) < u64::MAX,
        ensures
            final(data)@.len() == old(data)@.len(),
            final(data)@[self.index as int] == op.op_spec(old(data)@[self.index as int]),
            forall|k: int|
                0 <= k < old(data)@.len() && k != self.index ==> final(data)@[k] == old(
                    data,
                )@[k],
            *final(complete) == *old(complete) + 1,
    {
        let elem = &mut data[self.index];
        op.apply(elem);
        *complete = *complete + 1;
    }
}

} // verus!
