//! Verified core of a random-matrix-theory toolkit: where the limiting
//! densities vanish, how the draws of a Gaussian orthogonal ensemble are laid
//! out, which level spacings give a ratio, and how a spectrum is binned.
//!
//! Real numbers are carried as IEEE 754 binary64 bit patterns, so that every
//! decision about a double (is it positive, which of two is smaller, does it
//! lie inside a support interval) is a statement about integers and is
//! proved. The arithmetic on doubles is left to the caller, who hands its
//! results in as patterns.

pub mod ensemble;
pub mod error;
pub mod histogram;
pub mod ieee;
pub mod spacing;
pub mod support;

pub use crate::ensemble::{sample_goe, Matrix};
pub use crate::error::Error;
pub use crate::histogram::{empirical_spectral_density, Histogram};
pub use crate::spacing::{level_spacing_ratios, SpacingRatio};
