//! The numeric steps the filters rely on, supplied by the caller for its own
//! sample type. The library decides which step runs on which frame and lane
//! and where its results are kept; a kernel only computes.

use vstd::prelude::*;

verus! {

/// Tuning of an adaptive filter: baseline cutoff, speed coefficient, and the
/// fixed cutoff used to smooth the derivative.
#[derive(Clone, Copy, Debug, PartialEq, Eq)]
pub struct Params<T> {
    pub min_cutoff: T,
    pub beta: T,
    pub derivative_cutoff: T,
}

/// A smoothed value together with its smoothed derivative.
#[derive(Clone, Copy, Debug, PartialEq, Eq)]
pub struct Estimate<T> {
    pub value: T,
    pub derivative: T,
}

/// Arithmetic of the adaptive low-pass filter. Each method but `has_block`
/// is a function of its arguments: its result is the matching spec function
/// applied to them.
pub trait Smoothing<T>: Sized {
    /// The derivative of a signal at rest.
    spec fn rest_spec(&self) -> T;

    /// Time from `earlier` to `later`, floored at a small positive value.
    spec fn elapsed_spec(&self, earlier: T, later: T) -> T;

    /// One step of the recurrence on one lane: the raw derivative over `dt`,
    /// smoothed at the derivative cutoff, sets the cutoff used to smooth
    /// `sample` against the previous value.
    spec fn step_spec(&self, params: Params<T>, dt: T, sample: T, previous: Estimate<T>) -> Estimate<T>;

    fn rest(&self) -> (r: T)
        ensures
            r == self.rest_spec(),
    ;

    fn elapsed(&self, earlier: T, later: T) -> (r: T)
        ensures
            r == self.elapsed_spec(earlier, later),
    ;

    fn step(&self, params: &Params<T>, dt: T, sample: T, previous: Estimate<T>) -> (r: Estimate<T>)
        ensures
            r == self.step_spec(*params, dt, sample, previous),
    ;

    /// Whether `step_block` has a fast path on the running processor.
    fn has_block(&self) -> bool;

    /// `step` on eight lanes at once, new values then new derivatives: each
    /// lane is exactly what `step` gives on that lane.
    fn step_block(
        &self,
        params: &Params<T>,
        dt: T,
        samples: [T; 8],
        values: [T; 8],
        derivatives: [T; 8],
    ) -> (r: ([T; 8], [T; 8]))
        ensures
            forall|i: int| 0 <= i < 8 ==> (Estimate { value: #[trigger] r.0@[i], derivative: r.1@[i] })
                == self.step_spec(*params, dt, samples@[i], Estimate { value: values@[i], derivative: derivatives@[i] }),
    ;
}

} // verus!
