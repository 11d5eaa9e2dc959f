//! The batch filter: the adaptive recurrence on every lane of a landmark
//! buffer, sharing one timestamp, with complete groups of lanes on the block
//! path where the kernel has one.

use vstd::prelude::*;
use crate::kernel::{Estimate, Params, Smoothing};
use crate::layout::{check_shape, dispatch_plan, seg_end, shape_error, tiles, Path, Segment, ShapeError, BLOCK, COORDS, LANDMARKS, LANES};

verus! {

/// What the batch filter remembers of its last frame, lane by lane.
#[derive(Debug)]
pub struct BatchHistory<T> {
    pub values: Vec<T>,
    pub derivatives: Vec<T>,
    pub timestamp: T,
}

/// Adaptive filter over the `LANES` lanes of a landmark buffer, laid out
/// row by row (lane = landmark * `COORDS` + coordinate).
#[derive(Debug)]
pub struct BatchOneEuroFilter<T> {
    pub params: Params<T>,
    pub history: Option<BatchHistory<T>>,
}

/// Eight consecutive entries of `v` from `start`.
fn gather<T: Copy>(v: &Vec<T>, start: usize) -> (r: [T; 8])
    requires
        start + 8 <= v@.len(),
    ensures
        r@ == v@.subrange(start as int, start + 8),
{
    let n = v.len();
    assert(start + 8 <= n);
    let r = [v[start], v[start + 1], v[start + 2], v[start + 3], v[start + 4], v[start + 5], v[start + 6], v[start + 7]];
    assert(r@ =~= v@.subrange(start as int, start + 8));
    r
}

/// Lane `i` of a later buffer: one kernel step of `input[i]` from lane `i`
/// of the history `h` (values, derivatives, timestamp), over the time
/// elapsed from `h`'s timestamp to `t`.
pub open spec fn lane_step<T, K: Smoothing<T>>(
    kernel: &K,
    params: Params<T>,
    h: (Seq<T>, Seq<T>, T),
    input: Seq<T>,
    t: T,
    i: int,
) -> Estimate<T> {
    kernel.step_spec(params, kernel.elapsed_spec(h.2, t), input[i], Estimate { value: h.0[i], derivative: h.1[i] })
}

/// The history after an accepted buffer `input` at time `t`: the input with
/// the rest derivative on every lane after a cold start, else each lane's
/// step.
pub open spec fn next_lanes<T, K: Smoothing<T>>(
    kernel: &K,
    params: Params<T>,
    lanes: Option<(Seq<T>, Seq<T>, T)>,
    input: Seq<T>,
    t: T,
) -> (Seq<T>, Seq<T>, T) {
    match lanes {
        None => (input, Seq::new(LANES as nat, |i: int| kernel.rest_spec()), t),
        Some(h) => (
            Seq::new(LANES as nat, |i: int| lane_step(kernel, params, h, input, t, i).value),
            Seq::new(LANES as nat, |i: int| lane_step(kernel, params, h, input, t, i).derivative),
            t,
        ),
    }
}

/// The results of a run of accepted buffers, `(input, t)` in order, from
/// the history `lanes`.
pub open spec fn batch_outputs<T, K: Smoothing<T>>(
    kernel: &K,
    params: Params<T>,
    lanes: Option<(Seq<T>, Seq<T>, T)>,
    frames: Seq<(Seq<T>, T)>,
) -> Seq<Seq<T>>
    decreases frames.len(),
{
    if frames.len() == 0 {
        Seq::empty()
    } else {
        let n = next_lanes(kernel, params, lanes, frames[0].0, frames[0].1);
        seq![n.0].add(batch_outputs(kernel, params, Some(n), frames.drop_first()))
    }
}

/// A filter that was reset gives, on any run of buffers, exactly the
/// results of a newly constructed filter with the same tuning, the first
/// of them being the first buffer itself.
pub proof fn lemma_reset_replays<T: Copy, K: Smoothing<T>>(
    reset: BatchOneEuroFilter<T>,
    params: Params<T>,
    kernel: &K,
    frames: Seq<(Seq<T>, T)>,
)
    requires
        reset == BatchOneEuroFilter::<T>::fresh(params),
    ensures
        batch_outputs(kernel, reset.params, reset.lanes(), frames)
            == batch_outputs(kernel, params, BatchOneEuroFilter::<T>::fresh(params).lanes(), frames),
        frames.len() > 0 ==> batch_outputs(kernel, reset.params, reset.lanes(), frames)[0] == frames[0].0,
{
}

impl<T: Copy> BatchOneEuroFilter<T> {
    /// The history's lane sequences, when there is a history.
    pub open spec fn lanes(self) -> Option<(Seq<T>, Seq<T>, T)> {
        match self.history {
            None => None,
            Some(h) => Some((h.values@, h.derivatives@, h.timestamp)),
        }
    }

    /// Every lane sequence of the history has one entry per lane.
    pub open spec fn wf(self) -> bool {
        self.history matches Some(h) ==> h.values@.len() == LANES && h.derivatives@.len() == LANES
    }

    /// A filter with tuning `params` that has seen no buffer.
    pub open spec fn fresh(params: Params<T>) -> Self {
        BatchOneEuroFilter { params, history: None }
    }

    pub fn new(min_cutoff: T, beta: T, derivative_cutoff: T) -> (r: Self)
        ensures
            r == Self::fresh(Params { min_cutoff, beta, derivative_cutoff }),
            r.wf(),
    {
        BatchOneEuroFilter { params: Params { min_cutoff, beta, derivative_cutoff }, history: None }
    }

    /// Smooths a buffer of `rows` by `cols` samples, given row by row, taken
    /// at time `t`. A buffer of any shape but the landmark shape is refused
    /// and leaves the filter as it was. The first buffer passes through
    /// unchanged and is kept with the rest derivative on every lane. On every
    /// later buffer each lane takes one kernel step from its own history, all
    /// lanes over one elapsed time, whichever path runs it; the results
    /// become the new history.
    pub fn filter_batch<K: Smoothing<T>>(
        &mut self,
        kernel: &K,
        rows: usize,
        cols: usize,
        input: &Vec<T>,
        t: T,
    ) -> (r: Result<Vec<T>, ShapeError>)
        requires
            old(self).wf(),
            input@.len() == rows * cols,
        ensures
            final(self).wf(),
            final(self).params == old(self).params,
            r is Ok <==> (rows == LANDMARKS && cols == COORDS),
            r matches Err(e) ==> e == shape_error(rows, cols) && final(self).lanes() == old(self).lanes(),
            r matches Ok(out) ==> out@.len() == LANES && (final(self).lanes() matches Some(h) && h.0 == out@ && h.2 == t),
            r matches Ok(out) ==> (old(self).history is None ==> out@ == input@
                && forall|i: int| 0 <= i < LANES ==> #[trigger] final(self).lanes().unwrap().1[i] == kernel.rest_spec()),
            r matches Ok(out) ==> final(self).lanes() == Some(next_lanes(kernel, old(self).params, old(self).lanes(), input@, t)),
            r matches Ok(out) ==> (old(self).lanes() matches Some(h) ==> forall|i: int| 0 <= i < LANES
                ==> (Estimate { value: #[trigger] out@[i], derivative: final(self).lanes().unwrap().1[i] })
                    == lane_step(kernel, old(self).params, h, input@, t, i)),
    {
        match check_shape(rows, cols) {
            Err(e) => { return Err(e); },
            Ok(()) => {},
        }
        assert(input@.len() == LANES) by (nonlinear_arith)
            requires input@.len() == rows * cols, rows == LANDMARKS, cols == COORDS;
        let h = match self.history.take() {
            None => {
                let mut values: Vec<T> = Vec::new();
                let mut derivatives: Vec<T> = Vec::new();
                let mut out: Vec<T> = Vec::new();
                let rest = kernel.rest();
                let mut i: usize = 0;
                while i < LANES
                    invariant
                        input@.len() == LANES,
                        i <= LANES,
                        values@ == input@.subrange(0, i as int),
                        out@ == values@,
                        derivatives@.len() == i,
                        rest == kernel.rest_spec(),
                        forall|j: int| 0 <= j < i ==> #[trigger] derivatives@[j] == rest,
                    decreases LANES - i,
                {
                    values.push(input[i]);
                    out.push(input[i]);
                    derivatives.push(rest);
                    i = i + 1;
                }
                assert(out@ =~= input@);
                assert(derivatives@ =~= Seq::new(LANES as nat, |j: int| kernel.rest_spec()));
                self.history = Some(BatchHistory { values, derivatives, timestamp: t });
                return Ok(out);
            },
            Some(h) => h,
        };
        let ghost params = self.params;
        let ghost hl = (h.values@, h.derivatives@, h.timestamp);
        let dt = kernel.elapsed(h.timestamp, t);
        let plan = dispatch_plan(LANES, BLOCK, kernel.has_block());
        let mut values: Vec<T> = Vec::new();
        let mut derivatives: Vec<T> = Vec::new();
        let mut out: Vec<T> = Vec::new();
        let mut s: usize = 0;
        while s < plan.len()
            invariant
                tiles(plan@, LANES as int),
                forall|k: int| 0 <= k < plan@.len() && #[trigger] plan@[k].path == Path::Block ==> plan@[k].len == BLOCK,
                input@.len() == LANES,
                h.values@.len() == LANES,
                h.derivatives@.len() == LANES,
                s <= plan@.len(),
                s < plan@.len() ==> values@.len() == plan@[s as int].start,
                s == plan@.len() ==> values@.len() == LANES,
                s == 0 ==> values@.len() == 0,
                out@ == values@,
                derivatives@.len() == values@.len(),
                self.params == params,
                dt == kernel.elapsed_spec(h.timestamp, t),
                hl == (h.values@, h.derivatives@, h.timestamp),
                forall|j: int| 0 <= j < values@.len() ==> (Estimate { value: #[trigger] values@[j], derivative: derivatives@[j] })
                    == lane_step(kernel, params, hl, input@, t, j),
            decreases plan@.len() - s,
        {
            let seg = plan[s];
            proof {
                assert(plan@[s as int].len > 0);
                if s > 0 {
                    assert(plan@[s as int].start == seg_end(plan@[s - 1]));
                }
                if s + 1 < plan@.len() {
                    assert(plan@[s + 1].start == seg_end(plan@[s as int]));
                }
                lemma_segment_within(plan@, s as int);
            }
            let ghost before = values@.len();
            match seg.path {
                Path::Block => {
                    let samples = gather(input, seg.start);
                    let prev_values = gather(&h.values, seg.start);
                    let prev_derivatives = gather(&h.derivatives, seg.start);
                    let (vs, ds) = kernel.step_block(&self.params, dt, samples, prev_values, prev_derivatives);
                    proof {
                        assert forall|l: int| 0 <= l < 8 implies (Estimate { value: #[trigger] vs@[l], derivative: ds@[l] })
                            == lane_step(kernel, params, hl, input@, t, seg.start + l) by {
                            assert(samples@[l] == input@[seg.start + l]);
                            assert(prev_values@[l] == hl.0[seg.start + l]);
                            assert(prev_derivatives@[l] == hl.1[seg.start + l]);
                        }
                    }
                    let mut j: usize = 0;
                    while j < 8
                        invariant
                            j <= 8,
                            before == seg.start,
                            seg.start + 8 <= LANES,
                            input@.len() == LANES,
                            h.values@.len() == LANES,
                            h.derivatives@.len() == LANES,
                            values@.len() == before + j,
                            out@ == values@,
                            derivatives@.len() == values@.len(),
                            dt == kernel.elapsed_spec(h.timestamp, t),
                            hl == (h.values@, h.derivatives@, h.timestamp),
                            self.params == params,
                hl == (h.values@, h.derivatives@, h.timestamp),
                            forall|l: int| 0 <= l < 8 ==> (Estimate { value: #[trigger] vs@[l], derivative: ds@[l] })
                                == lane_step(kernel, params, hl, input@, t, seg.start + l),
                            forall|l: int| 0 <= l < values@.len() ==> (Estimate { value: #[trigger] values@[l], derivative: derivatives@[l] })
                                == lane_step(kernel, params, hl, input@, t, l),
                        decreases 8 - j,
                    {
                        values.push(vs[j]);
                        out.push(vs[j]);
                        derivatives.push(ds[j]);
                        proof {
                            assert forall|l: int| 0 <= l < values@.len() implies (Estimate { value: #[trigger] values@[l], derivative: derivatives@[l] })
                                == lane_step(kernel, params, hl, input@, t, l) by {
                                if l == values@.len() - 1 {
                                    assert(l == seg.start + j);
                                    assert((Estimate { value: vs@[j as int], derivative: ds@[j as int] })
                                        == lane_step(kernel, params, hl, input@, t, seg.start + j));
                                }
                            }
                        }
                        j = j + 1;
                    }
                },
                Path::Scalar => {
                    let mut i: usize = seg.start;
                    while i < seg.start + seg.len
                        invariant
                            seg.start <= i <= seg.start + seg.len,
                            before == seg.start,
                            seg.start + seg.len <= LANES,
                            input@.len() == LANES,
                            h.values@.len() == LANES,
                            h.derivatives@.len() == LANES,
                            values@.len() == before + (i - seg.start),
                            out@ == values@,
                            derivatives@.len() == values@.len(),
                            self.params == params,
                            dt == kernel.elapsed_spec(h.timestamp, t),
                            hl == (h.values@, h.derivatives@, h.timestamp),
                            self.params == params,
                hl == (h.values@, h.derivatives@, h.timestamp),
                            forall|l: int| 0 <= l < values@.len() ==> (Estimate { value: #[trigger] values@[l], derivative: derivatives@[l] })
                                == lane_step(kernel, params, hl, input@, t, l),
                        decreases seg.start + seg.len - i,
                    {
                        let e = kernel.step(
                            &self.params,
                            dt,
                            input[i],
                            Estimate { value: h.values[i], derivative: h.derivatives[i] },
                        );
                        assert(e == lane_step(kernel, params, hl, input@, t, i as int));
                        values.push(e.value);
                        out.push(e.value);
                        derivatives.push(e.derivative);
                        proof {
                            assert forall|l: int| 0 <= l < values@.len() implies (Estimate { value: #[trigger] values@[l], derivative: derivatives@[l] })
                                == lane_step(kernel, params, hl, input@, t, l) by {
                                if l == values@.len() - 1 {
                                    assert(l == i);
                                }
                            }
                        }
                        i = i + 1;
                    }
                },
            }
            s = s + 1;
        }
        proof {
            let n = next_lanes(kernel, params, Some(hl), input@, t);
            assert forall|i: int| 0 <= i < LANES implies values@[i] == n.0[i] && derivatives@[i] == n.1[i] by {
                assert((Estimate { value: values@[i], derivative: derivatives@[i] }) == lane_step(kernel, params, hl, input@, t, i));
            }
            assert(values@ =~= n.0);
            assert(derivatives@ =~= n.1);
        }
        self.history = Some(BatchHistory { values, derivatives, timestamp: t });
        Ok(out)
    }

    /// Forgets all history: the filter is again as constructed, so the same
    /// buffers give the same results as after construction.
    pub fn reset(&mut self)
        ensures
            *final(self) == Self::fresh(old(self).params),
            final(self).wf(),
    {
        self.history = None;
    }
}

proof fn lemma_segment_within(plan: Seq<Segment>, s: int)
    requires
        tiles(plan, LANES as int),
        0 <= s < plan.len(),
    ensures
        seg_end(plan[s]) <= LANES,
    decreases plan.len() - s,
{
    if s + 1 < plan.len() {
        assert(plan[s + 1].start == seg_end(plan[s]));
        assert(plan[s + 1].len > 0);
        lemma_segment_within(plan, s + 1);
    }
}

} // verus!
