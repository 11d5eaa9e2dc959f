use std::cell::Cell;
use std::f32::consts::PI;

use rust_core::{
    Band, BatchOneEuroFilter, DeadZone, Estimate, HybridPredictiveFilter, Kinematics, OneEuroFilter,
    OneEuroFilter2D, Params, Smoothing, Tracking,
};

fn alpha(dt: f32, cutoff: f32) -> f32 {
    let tau = 1.0 / (2.0 * PI * cutoff);
    1.0 / (1.0 + tau / dt)
}

/// The adaptive recurrence on `f32`, with the block path on or off.
struct Recurrence {
    block: bool,
}

impl Smoothing<f32> for Recurrence {
    fn rest_spec(&self) -> f32 {
        self.rest()
    }

    fn elapsed_spec(&self, earlier: f32, later: f32) -> f32 {
        self.elapsed(earlier, later)
    }

    fn step_spec(&self, p: Params<f32>, dt: f32, x: f32, prev: Estimate<f32>) -> Estimate<f32> {
        self.step(&p, dt, x, prev)
    }


    fn rest(&self) -> f32 {
        0.0
    }

    fn elapsed(&self, earlier: f32, later: f32) -> f32 {
        (later - earlier).max(1e-6)
    }

    fn step(&self, p: &Params<f32>, dt: f32, x: f32, prev: Estimate<f32>) -> Estimate<f32> {
        let dx = (x - prev.value) / dt;
        let a_d = alpha(dt, p.derivative_cutoff);
        let dx_hat = a_d * dx + (1.0 - a_d) * prev.derivative;
        let cutoff = p.min_cutoff + p.beta * dx_hat.abs();
        let a = alpha(dt, cutoff);
        Estimate { value: a * x + (1.0 - a) * prev.value, derivative: dx_hat }
    }

    fn has_block(&self) -> bool {
        self.block
    }

    fn step_block(
        &self,
        p: &Params<f32>,
        dt: f32,
        samples: [f32; 8],
        values: [f32; 8],
        derivatives: [f32; 8],
    ) -> ([f32; 8], [f32; 8]) {
        let mut v = [0.0f32; 8];
        let mut d = [0.0f32; 8];
        for i in 0..8 {
            let e = self.step(p, dt, samples[i], Estimate { value: values[i], derivative: derivatives[i] });
            v[i] = e.value;
            d[i] = e.derivative;
        }
        (v, d)
    }
}

/// An integer kernel that counts the lane steps it performs.
struct Counting {
    block: bool,
    lanes: Cell<usize>,
    blocks: Cell<usize>,
}

impl Counting {
    fn new(block: bool) -> Self {
        Counting { block, lanes: Cell::new(0), blocks: Cell::new(0) }
    }

    fn lane(&self, x: i64, prev: Estimate<i64>) -> Estimate<i64> {
        Estimate { value: 3 * x + prev.value, derivative: x - prev.value + prev.derivative }
    }
}

impl Smoothing<i64> for Counting {
    fn rest_spec(&self) -> i64 {
        self.rest()
    }

    fn elapsed_spec(&self, earlier: i64, later: i64) -> i64 {
        self.elapsed(earlier, later)
    }

    fn step_spec(&self, p: Params<i64>, dt: i64, x: i64, prev: Estimate<i64>) -> Estimate<i64> {
        let _ = (p, dt);
        self.lane(x, prev)
    }


    fn rest(&self) -> i64 {
        0
    }

    fn elapsed(&self, earlier: i64, later: i64) -> i64 {
        (later - earlier).max(1)
    }

    fn step(&self, _p: &Params<i64>, _dt: i64, x: i64, prev: Estimate<i64>) -> Estimate<i64> {
        self.lanes.set(self.lanes.get() + 1);
        self.lane(x, prev)
    }

    fn has_block(&self) -> bool {
        self.block
    }

    fn step_block(
        &self,
        _p: &Params<i64>,
        _dt: i64,
        samples: [i64; 8],
        values: [i64; 8],
        derivatives: [i64; 8],
    ) -> ([i64; 8], [i64; 8]) {
        self.blocks.set(self.blocks.get() + 1);
        let mut v = [0i64; 8];
        let mut d = [0i64; 8];
        for i in 0..8 {
            let e = self.lane(samples[i], Estimate { value: values[i], derivative: derivatives[i] });
            v[i] = e.value;
            d[i] = e.derivative;
        }
        (v, d)
    }
}

/// A tracker whose speed band and dead-zone verdict are set by the test.
struct Scripted {
    band: Band,
    inside: bool,
    zones: Cell<Option<DeadZone>>,
}

impl Tracking<f32> for Scripted {
    fn rest_spec(&self) -> f32 {
        self.rest()
    }

    fn elapsed_spec(&self, earlier: f32, later: f32) -> f32 {
        self.elapsed(earlier, later)
    }

    fn track_spec(&self, s: Kinematics<f32>, x: f32, y: f32, dt: f32) -> Kinematics<f32> {
        self.track(s, x, y, dt)
    }

    fn band_spec(&self, s: Kinematics<f32>) -> Band {
        self.band(s)
    }

    fn within_spec(&self, c: (f32, f32), l: (f32, f32), zone: DeadZone) -> bool {
        let _ = (c, l, zone);
        self.inside
    }


    fn rest(&self) -> f32 {
        0.0
    }

    fn elapsed(&self, earlier: f32, later: f32) -> f32 {
        (later - earlier).max(0.001)
    }

    fn track(&self, s: Kinematics<f32>, x: f32, y: f32, dt: f32) -> Kinematics<f32> {
        let px = s.x + s.vx * dt;
        let py = s.y + s.vy * dt;
        let (rx, ry) = (x - px, y - py);
        Kinematics { x: px + 0.5 * rx, y: py + 0.5 * ry, vx: s.vx + 0.1 / dt * rx, vy: s.vy + 0.1 / dt * ry }
    }

    fn band(&self, _s: Kinematics<f32>) -> Band {
        self.band
    }

    fn within(&self, _c: (f32, f32), _l: (f32, f32), zone: DeadZone) -> bool {
        self.zones.set(Some(zone));
        self.inside
    }
}

fn scripted(band: Band, inside: bool) -> Scripted {
    Scripted { band, inside, zones: Cell::new(None) }
}

fn buffer(seed: f32) -> Vec<f32> {
    (0..63).map(|i| seed + (i as f32) * 0.25 - ((i % 5) as f32)).collect()
}

#[test]
fn cold_start_returns_input_for_every_filter() {
    let k = Recurrence { block: true };
    for (mc, b, dc) in [(1.0f32, 0.0f32, 1.0f32), (0.01, 5.0, 30.0), (100.0, 0.5, 0.2)] {
        let mut f = OneEuroFilter::new(mc, b, dc);
        assert_eq!(f.filter(&k, 123.456, 7.0), 123.456);

        let mut f2 = OneEuroFilter2D::new(mc, b, dc);
        assert_eq!(f2.filter(&k, -4.5, 9.25, 0.0), (-4.5, 9.25));

        let mut fb = BatchOneEuroFilter::new(mc, b, dc);
        let input = buffer(mc);
        assert_eq!(fb.filter_batch(&k, 21, 3, &input, 3.0).unwrap(), input);

        let mut h = HybridPredictiveFilter::new(OneEuroFilter2D::new(mc, b, dc));
        assert_eq!(h.process(&k, &scripted(Band::Fast, false), 640.0, 360.0, 1.5), (640.0, 360.0));
    }
}

#[test]
fn concrete_single_channel_scenario() {
    let k = Recurrence { block: false };
    let mut f = OneEuroFilter::new(1.0, 0.0, 1.0);
    assert_eq!(f.filter(&k, 0.0, 0.0), 0.0);
    let r = f.filter(&k, 10.0, 1.0);
    let a = 1.0f32 / (1.0 + (1.0 / (2.0 * PI * 1.0)) / 1.0);
    let expected = a * 10.0 + (1.0 - a) * 0.0;
    assert_eq!(r, expected);
    assert!(r > 0.0 && r < 10.0);
    assert!((r - 8.626_97).abs() < 1e-4);
}

#[test]
fn constant_signal_second_output() {
    let k = Recurrence { block: false };
    let mut f = OneEuroFilter::new(1.0, 0.007, 1.0);
    assert_eq!(f.filter(&k, 5.0, 0.0), 5.0);
    let r = f.filter(&k, 5.0, 0.033);
    assert!((r - 5.0).abs() <= 5.0 * f32::EPSILON);
    let h = f.history.unwrap();
    assert_eq!(h.derivative, 0.0);
    assert_eq!(h.timestamp, 0.033);
}

#[test]
fn elapsed_time_is_floored() {
    let k = Recurrence { block: false };
    let mut f = OneEuroFilter::new(1.0, 0.0, 1.0);
    f.filter(&k, 1.0, 2.0);
    let r = f.filter(&k, 3.0, 1.0);
    assert!(r.is_finite());
    assert_eq!(f.history.unwrap().timestamp, 1.0);
}

#[test]
fn two_axes_do_not_interact() {
    let k = Recurrence { block: false };
    let mut f2 = OneEuroFilter2D::new(1.0, 0.0, 1.0);
    let mut fx = OneEuroFilter::new(1.0, 0.0, 1.0);
    let mut fy = OneEuroFilter::new(1.0, 0.0, 1.0);
    for (i, (x, y)) in [(0.0f32, 100.0f32), (10.0, 90.0), (30.0, 95.0), (31.0, 60.0)].iter().enumerate() {
        let t = i as f32 * 0.1;
        assert_eq!(f2.filter(&k, *x, *y, t), (fx.filter(&k, *x, t), fy.filter(&k, *y, t)));
    }
}

#[test]
fn reset_reproduces_cold_run() {
    let k = Recurrence { block: true };
    let samples = [(1.0f32, 0.0f32), (4.0, 0.02), (3.5, 0.05), (9.0, 0.05), (2.0, 0.1)];
    let mut f = OneEuroFilter::new(0.5, 0.3, 2.0);
    let first: Vec<f32> = samples.iter().map(|(x, t)| f.filter(&k, *x, *t)).collect();
    f.reset();
    assert!(f.history.is_none());
    let second: Vec<f32> = samples.iter().map(|(x, t)| f.filter(&k, *x, *t)).collect();
    assert_eq!(first, second);

    let mut fb = BatchOneEuroFilter::new(0.5, 0.3, 2.0);
    let frames = [(buffer(0.0), 0.0f32), (buffer(3.0), 0.03), (buffer(-2.0), 0.07)];
    let run = |fb: &mut BatchOneEuroFilter<f32>| -> Vec<Vec<f32>> {
        frames.iter().map(|(b, t)| fb.filter_batch(&k, 21, 3, b, *t).unwrap()).collect()
    };
    let a = run(&mut fb);
    fb.reset();
    assert!(fb.history.is_none());
    assert_eq!(a, run(&mut fb));

    let tr = scripted(Band::Moderate, false);
    let mut h = HybridPredictiveFilter::new(OneEuroFilter2D::new(1.0, 0.007, 1.0));
    let pts = [(0.0f32, 0.0f32, 0.0f32), (20.0, 5.0, 0.03), (45.0, -3.0, 0.06)];
    let a: Vec<(f32, f32)> = pts.iter().map(|(x, y, t)| h.process(&k, &tr, *x, *y, *t)).collect();
    h.reset();
    assert!(h.motion.is_none());
    let b: Vec<(f32, f32)> = pts.iter().map(|(x, y, t)| h.process(&k, &tr, *x, *y, *t)).collect();
    assert_eq!(a, b);
}

#[test]
fn block_and_scalar_paths_agree() {
    let params_run = |block: bool| -> Vec<Vec<f32>> {
        let k = Recurrence { block };
        let mut fb = BatchOneEuroFilter::new(1.0, 0.05, 1.0);
        [(buffer(0.0), 0.0f32), (buffer(1.5), 0.033), (buffer(-7.0), 0.066), (buffer(20.0), 0.1)]
            .iter()
            .map(|(b, t)| fb.filter_batch(&k, 21, 3, b, *t).unwrap())
            .collect()
    };
    let with_block = params_run(true);
    let without = params_run(false);
    for (fa, fb) in with_block.iter().zip(without.iter()) {
        assert_eq!(fa.len(), 63);
        for (a, b) in fa.iter().zip(fb.iter()) {
            assert!((a - b).abs() <= 1e-5 * a.abs().max(1.0));
        }
    }
}

#[test]
fn each_lane_is_stepped_once_in_place() {
    let input0: Vec<i64> = (0..63).collect();
    let input1: Vec<i64> = (0..63).map(|i| 100 - 2 * i).collect();
    let mut outputs = Vec::new();
    for block in [true, false] {
        let k = Counting::new(block);
        let mut fb = BatchOneEuroFilter::new(1i64, 1, 1);
        fb.filter_batch(&k, 21, 3, &input0, 0).unwrap();
        let out = fb.filter_batch(&k, 21, 3, &input1, 5).unwrap();
        if block {
            assert_eq!((k.blocks.get(), k.lanes.get()), (7, 7));
        } else {
            assert_eq!((k.blocks.get(), k.lanes.get()), (0, 63));
        }
        for i in 0..63 {
            assert_eq!(out[i], 3 * input1[i] + input0[i]);
        }
        let h = fb.history.as_ref().unwrap();
        assert_eq!(h.values, out);
        assert_eq!(h.timestamp, 5);
        outputs.push(out);
    }
    assert_eq!(outputs[0], outputs[1]);
}

#[test]
fn wrong_shape_is_refused() {
    let k = Recurrence { block: true };
    let mut fb = BatchOneEuroFilter::new(1.0, 0.0, 1.0);
    let short = vec![0.5f32; 60];
    let e = fb.filter_batch(&k, 20, 3, &short, 0.0).unwrap_err();
    assert_eq!((e.expected_rows, e.expected_cols), (21, 3));
    assert_eq!((e.rows, e.cols), (20, 3));
    assert!(fb.history.is_none());

    let first = buffer(1.0);
    fb.filter_batch(&k, 21, 3, &first, 0.0).unwrap();
    let wide = vec![0.5f32; 84];
    let e = fb.filter_batch(&k, 21, 4, &wide, 1.0).unwrap_err();
    assert_eq!((e.rows, e.cols), (21, 4));
    let h = fb.history.as_ref().unwrap();
    assert_eq!(h.values, first);
    assert_eq!(h.timestamp, 0.0);

    let flat = vec![0.5f32; 63];
    assert!(fb.filter_batch(&k, 63, 1, &flat, 1.0).is_err());
    assert!(fb.filter_batch(&k, 3, 21, &flat, 1.0).is_err());
}
