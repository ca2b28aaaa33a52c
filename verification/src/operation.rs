use vstd::prelude::*;

verus! {

/// A per-element operation, the callable a dispatch runs on every element of
/// the buffer.  Implementors promise that one call rewrites exactly its own
/// element, to the value `op_spec` gives, and has no effect beyond it; that
/// capability is what lets the engine invoke it from any worker thread on
/// disjoint elements without per-call synchronization.
pub trait Operation<T> {
    /// The value the operation leaves in an element it visits.
    spec fn op_spec(&self, t: T) -> T;

    /// Apply the operation to one element.
    fn apply(&self, t: &mut T)
        ensures
            *final(t) == self.op_spec(*old(t)),
    ;
}

/// A per-element transformation for `map`-style dispatches: reads one input
/// element and produces the paired output, with no effect beyond it.
pub trait MapOperation<A, B> {
    /// The output the transformation pairs with a given input.
    spec fn map_spec(&self, a: A) -> B;

    /// Compute the output for one input element.
    fn compute(&self, a: &A) -> (r: B)
        ensures
            r == self.map_spec(*a),
    ;
}

} // verus!
