//! Shapes of curve segments and extrapolation beyond a curve's domain.

use vstd::prelude::*;

verus! {

/// Direction for ease family segments.
#[derive(Debug, Clone, Copy, PartialEq, Eq, Structural)]
pub enum EaseDir {
    In,
    Out,
    InOut,
}

/// How to extrapolate beyond the curve's defined domain.
#[derive(Debug, Clone, Copy, PartialEq, Eq, Structural)]
pub enum ExtrapolationMode {
    /// Hold the boundary value.
    Clamp,
    /// Repeat the curve from the beginning.
    Repeat,
    /// Mirror-repeat the curve.
    Mirror,
    /// Extrapolate linearly from the boundary tangent.
    Linear,
    /// Return 0.0 outside the defined domain.
    Zero,
}

/// Extrapolation rules for values outside the curve's defined x range.
#[derive(Debug, Clone, Copy, PartialEq, Eq, Structural)]
pub struct Extrapolation {
    pub left: ExtrapolationMode,
    pub right: ExtrapolationMode,
}

impl Default for Extrapolation {
    /// Both sides hold their boundary value.
    fn default() -> (e: Self)
        ensures
            e.left == ExtrapolationMode::Clamp,
            e.right == ExtrapolationMode::Clamp,
    {
        Extrapolation { left: ExtrapolationMode::Clamp, right: ExtrapolationMode::Clamp }
    }
}

} // verus!
