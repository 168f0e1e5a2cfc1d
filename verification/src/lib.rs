//! Sleep-timer fade-out controller.
//!
//! The library holds the decision logic of a media fade-out tool: a grammar
//! for free-form duration expressions, a fixed-point volume curve, the
//! per-tick volume computation of the fade scheduler, and the state machine
//! that reconciles playback signals into a single termination outcome. The
//! surrounding program supplies wall-clock time, playback and shutdown as
//! plain values and calls.

pub mod duration_parse;
pub mod fade;
pub mod reconcile;
pub mod volume;
