//! Adaptive smoothing of noisy positional input: a single-channel adaptive
//! low-pass filter, a two-axis pairing of it, a fixed-width batch engine over
//! hand landmarks, and a velocity-gated hybrid filter with a dead zone.
//!
//! The filters own their recurrence state and decide what happens on each
//! frame; the numeric steps themselves come from a kernel supplied by the
//! caller (see `kernel`), so the library is generic in the sample type.

pub mod adaptive;
pub mod batch;
pub mod hybrid;
pub mod kernel;
pub mod layout;

pub use adaptive::{OneEuroFilter, OneEuroFilter2D, Snapshot};
pub use batch::{BatchHistory, BatchOneEuroFilter};
pub use hybrid::{settle, zone_for, Band, DeadZone, HybridPredictiveFilter, Kinematics, Motion, Tracking, Verdict};
pub use kernel::{Estimate, Params, Smoothing};
pub use layout::{check_shape, dispatch_plan, Path, Segment, ShapeError};
