//! Core of a black-hole visualiser: a per-pixel ray integrator that bends
//! ray directions under an inverse-square pseudo-gravity field and classifies
//! each ray's terminal state into a color.
//!
//! The floating-point vector arithmetic itself lives with the caller; this
//! crate holds what can be stated and proved exactly: the color raster, the
//! per-pixel classification state machine with its fixed step budget, and the
//! priority order of the terminal conditions.

pub mod color;
pub mod march;
pub mod raster;
