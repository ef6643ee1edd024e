//! Plain types of the display side: a cursor resolved to polar bins, and
//! how a color table maps values between its stops.

use vstd::prelude::*;

verus! {

/// A cursor position resolved to a sweep's polar bins: a radial index into
/// the sweep's radials and a gate index into a moment's gates.
#[derive(Debug, Clone, Copy, PartialEq, Eq)]
pub struct RadialGate {
    pub radial_index: usize,
    pub gate_index: usize,
}

/// How a color table maps a value between its control points.
#[derive(Debug, Clone, Copy, PartialEq, Eq)]
pub enum ColorTableMode {
    /// One color per value bucket, held until the next stop.
    Stepped,
    /// Linear interpolation between consecutive stops.
    Gradient,
}

} // verus!
