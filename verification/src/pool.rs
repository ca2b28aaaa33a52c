use vstd::prelude::*;

use crate::job::Job;
use crate::operation::{MapOperation, Operation};

verus! {

/// The dispatch front of a fixed worker pool.  The worker count is fixed at
/// construction (default: the host's core count); thread spawning and the
/// transport that hands a job to every worker are collaborators around this
/// crate, so the pool here carries the scheduling input they share: how many
/// workers a job is partitioned for.
pub struct Pool {
    /// Number of worker threads the pool was built for.
    pub num_threads: usize,
}

/// The adapter a `map` dispatch runs on each element: the element is an
/// input paired with its output slot, and one visit fills the slot with the
/// transformation's result.
pub struct MapWrap<'a, Op> {
    /// The transformation being mapped.
    pub op: &'a Op,
}

impl<'a, A, B, Op: MapOperation<A, B>> Operation<(A, Option<B>)> for MapWrap<'a, Op> {
    open spec fn op_spec(&self, t: (A, Option<B>)) -> (A, Option<B>) {
        (t.0, Some(self.op.map_spec(t.0)))
    }

    fn apply(&self, t: &mut (A, Option<B>)) {
        let r = self.op.compute(&t.0);
        t.1 = Some(r);
    }
}

impl Pool {
    /// At least one worker, and few enough that the eightfold fan-out of a
    /// dispatch cannot overflow.
    pub open spec fn wf(self) -> bool {
        1 <= self.num_threads && self.num_threads <= usize::MAX / 8
    }

    /// Relies on num_cpus::get: the number of logical cores available to the
    /// process, always at least one.
    #[verifier::external_body]
    pub fn get_thread_count() -> (n: usize)
        ensures
            1 <= n,
    {
        num_cpus::get()
    }

    /// The synchronous fan-out entry point: run the operation on every
    /// element of the buffer, returning only once each element has been
    /// visited exactly once and rewritten to the operation's image of its
    /// old value.
    ///
    /// Each call builds a fresh, single-use job, so within the call its
    /// completion signal transitions from unpublished to published exactly
    /// once: `Job::new` hands the job over unpublished, `Job::execute`
    /// publishes the signal, and no operation of the library clears it.
    /// Repeated dispatches on one pool therefore neither miss nor duplicate
    /// a completion.
    pub fn dispatch_mut<T, Op: Operation<T>>(&self, buffer: &mut Vec<T>, op: &Op)
        requires
            self.wf(),
        ensures
            final(buffer)@.len() == old(buffer)@.len(),
            forall|k: int|
                0 <= k < old(buffer)@.len() ==> #[trigger] final(buffer)@[k] == op.op_spec(
                    old(buffer)@[k],
                ),
    {
        let mut job = Job::new(buffer.len(), self.num_threads);
        job.execute(buffer, op);
        job.wait();
    }

    /// Derived convenience over `dispatch_mut`: pair every input with an
    /// output slot, dispatch the filling of the slots, and collect the
    /// outputs, index-aligned with the inputs.  Introduces no new scheduling
    /// logic.
    pub fn map<A: Copy, B, Op: MapOperation<A, B>>(&self, inputs: &Vec<A>, op: &Op) -> (outs: Vec<
        B,
    >)
        requires
            self.wf(),
        ensures
            outs@.len() == inputs@.len(),
            forall|k: int|
                0 <= k < inputs@.len() ==> outs@[k] == op.map_spec(inputs@[k]),
    {
        let n = inputs.len();
        let mut pairs: Vec<(A, Option<B>)> = Vec::new();
        let mut i: usize = 0;
        while i < n
            invariant
                i <= n,
                n == inputs@.len(),
                pairs@.len() == i,
                forall|k: int| 0 <= k < i ==> pairs@[k] == (inputs@[k], None::<B>),
            decreases n - i,
        {
            pairs.push((inputs[i], None));
            i = i + 1;
        }

        let wrap = MapWrap { op };
        self.dispatch_mut(&mut pairs, &wrap);

        let ghost post = pairs@;
        let mut outs: Vec<B> = Vec::new();
        let mut k: usize = 0;
        while k < n
            invariant
                k <= n,
                n == inputs@.len(),
                outs@.len() == k,
                post.len() == n,
                pairs@ == post.subrange(k as int, n as int),
                forall|q: int| 0 <= q < n ==> (#[trigger] post[q]).1 == Some(op.map_spec(inputs@[q])),
                forall|q: int| 0 <= q < k ==> #[trigger] outs@[q] == op.map_spec(inputs@[q]),
            decreases n - k,
        {
            let p = pairs.remove(0);
            proof {
                assert(p == post[k as int]);
                assert(pairs@ =~= post.subrange(k as int + 1, n as int));
            }
            let b = match p.1 {
                Some(v) => v,
                None => vstd::pervasive::unreached(),
            };
            outs.push(b);
            k = k + 1;
        }
        outs
    }
}

impl Default for Pool {
    /// A pool sized to the host: one worker per logical core, never fewer
    /// than one, and capped so a dispatch's eightfold fan-out always fits.
    fn default() -> (pool: Pool)
        ensures
            pool.wf(),
    {
        let n = Pool::get_thread_count();
        let cap = usize::MAX / 8;
        let n = if n > cap {
            cap
        } else {
            n
        };
        Pool { num_threads: n }
    }
}

} // verus!
