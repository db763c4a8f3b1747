//! A procedurally animated articulated body ("snake") built from chained
//! circular segments, together with the locomotion state machine that drives
//! its head toward a wandering destination.
//!
//! All geometry is carried out in fixed-point arithmetic: lengths are held in
//! milli-units (one thousandth of a screen unit) and angles, where they are
//! stored, in milliturns (one thousandth of a full turn).  This keeps every
//! quantity an integer, so each operation has an exact contract.

pub mod math;
pub mod vec2;
pub mod circle;
pub mod chain;
pub mod outline;
pub mod snake;
