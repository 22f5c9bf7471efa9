//! Configuration errors.
//!
//! Malformed curve parameters and unregistered names surface at world-setup
//! time and are fatal: nothing in this crate builds a partial world on top of
//! a rejected configuration.

use vstd::prelude::*;

verus! {

/// What can be wrong with a world configuration.
#[derive(Clone, Copy, Debug, PartialEq, Eq, Structural)]
pub enum ConfigError {
    /// A curve was given no control points.
    EmptyCurve,
    /// A curve control point lies outside the fixed-point range.
    CurveValueOutOfRange,
    /// Curve control points are not strictly increasing along x.
    CurveNotIncreasing,
    /// A tree type name was never registered.
    UnknownTree,
    /// A block name was never registered.
    UnknownBlock,
}

} // verus!
