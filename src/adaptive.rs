//! The single-channel adaptive filter and its two-axis pairing.

use vstd::prelude::*;
use crate::kernel::{Estimate, Params, Smoothing};

verus! {

/// What a channel remembers of its last frame.
#[derive(Clone, Copy, Debug, PartialEq, Eq)]
pub struct Snapshot<T> {
    pub value: T,
    pub derivative: T,
    pub timestamp: T,
}

/// Adaptive low-pass filter on one channel. `history` is `None` until the
/// first sample arrives and again after `reset`.
#[derive(Clone, Copy, Debug)]
pub struct OneEuroFilter<T> {
    pub params: Params<T>,
    pub history: Option<Snapshot<T>>,
}

impl<T: Copy> OneEuroFilter<T> {
    /// The filter after smoothing `x` sampled at time `t`, and the result.
    /// The first sample passes through unchanged and is kept with the
    /// kernel's rest derivative; every later sample takes one kernel step
    /// from the history over the elapsed time, and that step becomes the new
    /// history.
    pub open spec fn stepped<K: Smoothing<T>>(self, kernel: &K, x: T, t: T) -> (Self, T) {
        match self.history {
            None => (
                OneEuroFilter {
                    params: self.params,
                    history: Some(Snapshot { value: x, derivative: kernel.rest_spec(), timestamp: t }),
                },
                x,
            ),
            Some(h) => {
                let e = kernel.step_spec(
                    self.params,
                    kernel.elapsed_spec(h.timestamp, t),
                    x,
                    Estimate { value: h.value, derivative: h.derivative },
                );
                (
                    OneEuroFilter {
                        params: self.params,
                        history: Some(Snapshot { value: e.value, derivative: e.derivative, timestamp: t }),
                    },
                    e.value,
                )
            },
        }
    }

    /// The results of smoothing `samples`, `(value, timestamp)` in order.
    pub open spec fn outputs<K: Smoothing<T>>(self, kernel: &K, samples: Seq<(T, T)>) -> Seq<T>
        decreases samples.len(),
    {
        if samples.len() == 0 {
            Seq::empty()
        } else {
            let (next, r) = self.stepped(kernel, samples[0].0, samples[0].1);
            seq![r].add(next.outputs(kernel, samples.drop_first()))
        }
    }

    /// A filter with tuning `params` that has seen no sample.
    pub open spec fn fresh(params: Params<T>) -> Self {
        OneEuroFilter { params, history: None }
    }

    pub fn new(min_cutoff: T, beta: T, derivative_cutoff: T) -> (r: Self)
        ensures
            r == Self::fresh(Params { min_cutoff, beta, derivative_cutoff }),
    {
        OneEuroFilter { params: Params { min_cutoff, beta, derivative_cutoff }, history: None }
    }

    /// Smooths `x` sampled at time `t`.
    pub fn filter<K: Smoothing<T>>(&mut self, kernel: &K, x: T, t: T) -> (r: T)
        ensures
            (*final(self), r) == old(self).stepped(kernel, x, t),
    {
        match self.history {
            None => {
                self.history = Some(Snapshot { value: x, derivative: kernel.rest(), timestamp: t });
                x
            },
            Some(h) => {
                let dt = kernel.elapsed(h.timestamp, t);
                let e = kernel.step(
                    &self.params,
                    dt,
                    x,
                    Estimate { value: h.value, derivative: h.derivative },
                );
                self.history = Some(Snapshot { value: e.value, derivative: e.derivative, timestamp: t });
                e.value
            },
        }
    }

    /// Forgets all history: the filter is again as constructed, so the same
    /// samples give the same results as after construction.
    pub fn reset(&mut self)
        ensures
            *final(self) == Self::fresh(old(self).params),
    {
        self.history = None;
    }
}

/// A filter that was reset gives, on any samples, exactly the results of a
/// newly constructed filter with the same tuning.
pub proof fn lemma_reset_replays<T: Copy, K: Smoothing<T>>(
    f: OneEuroFilter<T>,
    reset: OneEuroFilter<T>,
    kernel: &K,
    samples: Seq<(T, T)>,
)
    requires
        reset == OneEuroFilter::<T>::fresh(f.params),
    ensures
        reset.outputs(kernel, samples) == OneEuroFilter::<T>::fresh(f.params).outputs(kernel, samples),
        samples.len() > 0 ==> reset.outputs(kernel, samples)[0] == samples[0].0,
{
    if samples.len() > 0 {
        assert(reset.outputs(kernel, samples)[0] == reset.stepped(kernel, samples[0].0, samples[0].1).1);
    }
}

/// Two independent adaptive filters, one per axis, sharing their tuning.
#[derive(Clone, Copy, Debug)]
pub struct OneEuroFilter2D<T> {
    pub filter_x: OneEuroFilter<T>,
    pub filter_y: OneEuroFilter<T>,
}

impl<T: Copy> OneEuroFilter2D<T> {
    pub fn new(min_cutoff: T, beta: T, derivative_cutoff: T) -> (r: Self)
        ensures
            r.filter_x == OneEuroFilter::fresh(Params { min_cutoff, beta, derivative_cutoff }),
            r.filter_y == OneEuroFilter::fresh(Params { min_cutoff, beta, derivative_cutoff }),
    {
        OneEuroFilter2D {
            filter_x: OneEuroFilter::new(min_cutoff, beta, derivative_cutoff),
            filter_y: OneEuroFilter::new(min_cutoff, beta, derivative_cutoff),
        }
    }

    /// Smooths the point `(x, y)` sampled at time `t`, each axis on its own.
    pub fn filter<K: Smoothing<T>>(&mut self, kernel: &K, x: T, y: T, t: T) -> (r: (T, T))
        ensures
            (final(self).filter_x, r.0) == old(self).filter_x.stepped(kernel, x, t),
            (final(self).filter_y, r.1) == old(self).filter_y.stepped(kernel, y, t),
    {
        let fx = self.filter_x.filter(kernel, x, t);
        let fy = self.filter_y.filter(kernel, y, t);
        (fx, fy)
    }

    /// Resets both axes.
    pub fn reset(&mut self)
        ensures
            final(self).filter_x == OneEuroFilter::fresh(old(self).filter_x.params),
            final(self).filter_y == OneEuroFilter::fresh(old(self).filter_y.params),
    {
        self.filter_x.reset();
        self.filter_y.reset();
    }
}

} // verus!
