//! The hybrid filter: an alpha-beta tracker for fast motion, the adaptive
//! filter for slow motion, and a dead zone that holds the output still while
//! new candidates stay close to it.

use vstd::prelude::*;
use crate::adaptive::{OneEuroFilter, OneEuroFilter2D};
use crate::kernel::Smoothing;

verus! {

/// Position and velocity estimate of the tracker.
#[derive(Clone, Copy, Debug, PartialEq, Eq)]
pub struct Kinematics<T> {
    pub x: T,
    pub y: T,
    pub vx: T,
    pub vy: T,
}

/// Where a speed falls against the two velocity thresholds.
#[derive(Clone, Copy, Debug, PartialEq, Eq, Structural)]
pub enum Band {
    /// Below the low threshold: the hand is at rest.
    Slow,
    Moderate,
    /// Above the high threshold: the predicted position is emitted.
    Fast,
}

/// Radius of the dead zone around the last emitted output.
#[derive(Clone, Copy, Debug, PartialEq, Eq, Structural)]
pub enum DeadZone {
    /// The wider radius, used at rest.
    Wide,
    Nominal,
}

/// Arithmetic of the tracker and of the dead zone. Each method is a
/// function of its arguments: its result is the matching spec function
/// applied to them.
pub trait Tracking<T>: Sized {
    /// A velocity of zero.
    spec fn rest_spec(&self) -> T;

    /// Time from `earlier` to `later`, floored at a small positive value.
    spec fn elapsed_spec(&self, earlier: T, later: T) -> T;

    /// Advances `state` by `dt` at constant velocity, then corrects position
    /// and velocity towards the measurement `(x, y)` with fixed gains.
    spec fn track_spec(&self, state: Kinematics<T>, x: T, y: T, dt: T) -> Kinematics<T>;

    /// The band of the speed of `state`.
    spec fn band_spec(&self, state: Kinematics<T>) -> Band;

    /// Whether `candidate` lies within `zone` of `last`.
    spec fn within_spec(&self, candidate: (T, T), last: (T, T), zone: DeadZone) -> bool;

    fn rest(&self) -> (r: T)
        ensures
            r == self.rest_spec(),
    ;

    fn elapsed(&self, earlier: T, later: T) -> (r: T)
        ensures
            r == self.elapsed_spec(earlier, later),
    ;

    fn track(&self, state: Kinematics<T>, x: T, y: T, dt: T) -> (r: Kinematics<T>)
        ensures
            r == self.track_spec(state, x, y, dt),
    ;

    fn band(&self, state: Kinematics<T>) -> (r: Band)
        ensures
            r == self.band_spec(state),
    ;

    fn within(&self, candidate: (T, T), last: (T, T), zone: DeadZone) -> (r: bool)
        ensures
            r == self.within_spec(candidate, last, zone),
    ;
}

/// How the last frame after the first was handled: the speed band of the
/// tracker's estimate, and whether the dead zone held the output.
#[derive(Clone, Copy, Debug, PartialEq, Eq, Structural)]
pub struct Verdict {
    pub band: Band,
    pub held: bool,
}

/// The tracker's state once the first sample has arrived. `verdict` is
/// `None` right after that sample.
#[derive(Debug)]
pub struct Motion<T> {
    pub kinematics: Kinematics<T>,
    pub timestamp: T,
    pub emitted: (T, T),
    pub verdict: Option<Verdict>,
}

impl<T: Copy> Clone for Motion<T> {
    fn clone(&self) -> (r: Self)
        ensures
            r == *self,
    {
        Motion {
            kinematics: self.kinematics,
            timestamp: self.timestamp,
            emitted: self.emitted,
            verdict: self.verdict,
        }
    }
}

impl<T: Copy> Copy for Motion<T> {}

/// The dead zone in use for a speed band: wide at rest, nominal otherwise.
pub open spec fn zone_spec(band: Band) -> DeadZone {
    if band == Band::Slow {
        DeadZone::Wide
    } else {
        DeadZone::Nominal
    }
}

pub fn zone_for(band: Band) -> (r: DeadZone)
    ensures
        r == zone_spec(band),
{
    match band {
        Band::Slow => DeadZone::Wide,
        _ => DeadZone::Nominal,
    }
}

/// What is emitted for a candidate: the last output while the candidate is
/// inside the dead zone, the candidate otherwise.
pub open spec fn settle_spec<T>(emitted: (T, T), candidate: (T, T), inside: bool) -> (T, T) {
    if inside {
        emitted
    } else {
        candidate
    }
}

pub fn settle<T: Copy>(emitted: (T, T), candidate: (T, T), inside: bool) -> (r: (T, T))
    ensures
        r == settle_spec(emitted, candidate, inside),
{
    if inside {
        emitted
    } else {
        candidate
    }
}

/// Velocity-gated hybrid of the tracker and the adaptive filter, with a
/// dead zone on its output. `motion` is `None` until the first sample.
#[derive(Debug)]
pub struct HybridPredictiveFilter<T> {
    pub axes: OneEuroFilter2D<T>,
    pub motion: Option<Motion<T>>,
}

impl<T: Copy> HybridPredictiveFilter<T> {
    /// `axes` are the adaptive filters used below the high velocity threshold.
    pub fn new(axes: OneEuroFilter2D<T>) -> (r: Self)
        ensures
            r.axes == axes,
            r.motion is None,
    {
        HybridPredictiveFilter { axes, motion: None }
    }

    /// The filter after the point `(x, y)` sampled at time `t`, and what it
    /// emits. The first sample is emitted as it is and seeds the tracker at
    /// rest and both axes. On every later frame the tracker advances over
    /// the elapsed time; a fast frame takes the tracker's position as
    /// candidate and leaves the axes alone, any other frame steps the axes
    /// and takes their smoothed point. The candidate is emitted unless it
    /// lies within the dead zone of the last output, which is then kept.
    pub open spec fn processed<K: Smoothing<T>, R: Tracking<T>>(
        self,
        smoothing: &K,
        tracking: &R,
        x: T,
        y: T,
        t: T,
    ) -> (Self, (T, T)) {
        match self.motion {
            None => {
                let ax = OneEuroFilter::<T>::fresh(self.axes.filter_x.params).stepped(smoothing, x, t).0;
                let ay = OneEuroFilter::<T>::fresh(self.axes.filter_y.params).stepped(smoothing, y, t).0;
                let rest = tracking.rest_spec();
                (
                    HybridPredictiveFilter {
                        axes: OneEuroFilter2D { filter_x: ax, filter_y: ay },
                        motion: Some(Motion {
                            kinematics: Kinematics { x, y, vx: rest, vy: rest },
                            timestamp: t,
                            emitted: (x, y),
                            verdict: None,
                        }),
                    },
                    (x, y),
                )
            },
            Some(m) => {
                let k = tracking.track_spec(m.kinematics, x, y, tracking.elapsed_spec(m.timestamp, t));
                let band = tracking.band_spec(k);
                let sx = self.axes.filter_x.stepped(smoothing, x, t);
                let sy = self.axes.filter_y.stepped(smoothing, y, t);
                let fast = band == Band::Fast;
                let axes = if fast { self.axes } else { OneEuroFilter2D { filter_x: sx.0, filter_y: sy.0 } };
                let candidate = if fast { (k.x, k.y) } else { (sx.1, sy.1) };
                let held = tracking.within_spec(candidate, m.emitted, zone_spec(band));
                let emitted = settle_spec(m.emitted, candidate, held);
                (
                    HybridPredictiveFilter {
                        axes,
                        motion: Some(Motion { kinematics: k, timestamp: t, emitted, verdict: Some(Verdict { band, held }) }),
                    },
                    emitted,
                )
            },
        }
    }

    /// What is emitted for each of `frames`, `(x, y, t)` in order.
    pub open spec fn outputs<K: Smoothing<T>, R: Tracking<T>>(
        self,
        smoothing: &K,
        tracking: &R,
        frames: Seq<(T, T, T)>,
    ) -> Seq<(T, T)>
        decreases frames.len(),
    {
        if frames.len() == 0 {
            Seq::empty()
        } else {
            let (next, r) = self.processed(smoothing, tracking, frames[0].0, frames[0].1, frames[0].2);
            seq![r].add(next.outputs(smoothing, tracking, frames.drop_first()))
        }
    }

    /// Every one of `frames` has its candidate within the dead zone.
    pub open spec fn held_throughout<K: Smoothing<T>, R: Tracking<T>>(
        self,
        smoothing: &K,
        tracking: &R,
        frames: Seq<(T, T, T)>,
    ) -> bool
        decreases frames.len(),
    {
        frames.len() == 0 || {
            let next = self.processed(smoothing, tracking, frames[0].0, frames[0].1, frames[0].2).0;
            &&& next.motion matches Some(m) && m.verdict matches Some(v) && v.held
            &&& next.held_throughout(smoothing, tracking, frames.drop_first())
        }
    }

    /// Filters the point `(x, y)` sampled at time `t`; see `processed`.
    pub fn process<K: Smoothing<T>, R: Tracking<T>>(
        &mut self,
        smoothing: &K,
        tracking: &R,
        x: T,
        y: T,
        t: T,
    ) -> (r: (T, T))
        ensures
            (*final(self), r) == old(self).processed(smoothing, tracking, x, y, t),
    {
        match self.motion {
            None => {
                let rest = tracking.rest();
                self.axes.filter_x.reset();
                self.axes.filter_y.reset();
                let _ = self.axes.filter(smoothing, x, y, t);
                self.motion = Some(Motion {
                    kinematics: Kinematics { x, y, vx: rest, vy: rest },
                    timestamp: t,
                    emitted: (x, y),
                    verdict: None,
                });
                (x, y)
            },
            Some(m) => {
                let dt = tracking.elapsed(m.timestamp, t);
                let k = tracking.track(m.kinematics, x, y, dt);
                let band = tracking.band(k);
                let candidate = match band {
                    Band::Fast => (k.x, k.y),
                    _ => self.axes.filter(smoothing, x, y, t),
                };
                let inside = tracking.within(candidate, m.emitted, zone_for(band));
                let emitted = settle(m.emitted, candidate, inside);
                self.motion = Some(Motion {
                    kinematics: k,
                    timestamp: t,
                    emitted,
                    verdict: Some(Verdict { band, held: inside }),
                });
                emitted
            },
        }
    }

    /// A filter that was reset gives, on any frames, exactly the outputs of
    /// one constructed from the same axes, reset.
    pub proof fn lemma_reset_replays<K: Smoothing<T>, R: Tracking<T>>(
        self,
        axes: OneEuroFilter2D<T>,
        smoothing: &K,
        tracking: &R,
        frames: Seq<(T, T, T)>,
    )
        requires
            (self.motion is None),
            self.axes.filter_x.params == axes.filter_x.params,
            self.axes.filter_y.params == axes.filter_y.params,
        ensures
            self.outputs(smoothing, tracking, frames) == (HybridPredictiveFilter::<T> { axes, motion: None }).outputs(
                smoothing,
                tracking,
                frames,
            ),
    {
        let other = HybridPredictiveFilter::<T> { axes, motion: None };
        if frames.len() > 0 {
            let f = frames[0];
            assert(self.processed(smoothing, tracking, f.0, f.1, f.2) == other.processed(smoothing, tracking, f.0, f.1, f.2));
        }
    }

    /// Once an output has been emitted, while every candidate stays within
    /// the dead zone the filter emits that same output on every frame.
    pub proof fn lemma_dead_zone_holds<K: Smoothing<T>, R: Tracking<T>>(
        self,
        smoothing: &K,
        tracking: &R,
        frames: Seq<(T, T, T)>,
    )
        requires
            (self.motion is Some),
            self.held_throughout(smoothing, tracking, frames),
        ensures
            self.outputs(smoothing, tracking, frames).len() == frames.len(),
            forall|i: int| 0 <= i < frames.len()
                ==> #[trigger] self.outputs(smoothing, tracking, frames)[i] == self.motion.unwrap().emitted,
        decreases frames.len(),
    {
        if frames.len() > 0 {
            let f = frames[0];
            let next = self.processed(smoothing, tracking, f.0, f.1, f.2).0;
            assert(next.motion.unwrap().emitted == self.motion.unwrap().emitted);
            next.lemma_dead_zone_holds(smoothing, tracking, frames.drop_first());
            let rest = next.outputs(smoothing, tracking, frames.drop_first());
            assert(self.outputs(smoothing, tracking, frames) == seq![self.processed(smoothing, tracking, f.0, f.1, f.2).1].add(rest));
            assert forall|i: int| 0 <= i < frames.len()
                implies #[trigger] self.outputs(smoothing, tracking, frames)[i] == self.motion.unwrap().emitted by {
                if i > 0 {
                    assert(rest[i - 1] == next.motion.unwrap().emitted);
                }
            }
        }
    }

    /// Returns to the cold state, axes included: the filter is again as
    /// constructed from axes with the same tuning.
    pub fn reset(&mut self)
        ensures
            final(self).motion is None,
            final(self).axes.filter_x == OneEuroFilter::fresh(old(self).axes.filter_x.params),
            final(self).axes.filter_y == OneEuroFilter::fresh(old(self).axes.filter_y.params),
    {
        self.axes.reset();
        self.motion = None;
    }
}

} // verus!
