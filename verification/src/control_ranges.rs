//! Integer bounds of the UI's sliders and drag values, with their defaults.
use vstd::prelude::*;

verus! {

/// Range descriptor for an integer slider or drag value.
#[derive(Debug, Clone, Copy, PartialEq, Eq, Structural)]
pub struct IntRange {
    pub min: i32,
    pub max: i32,
}

impl IntRange {
    /// The range `min..=max`.
    pub fn new(min: i32, max: i32) -> (r: IntRange)
        ensures
            r.min == min,
            r.max == max,
    {
        IntRange { min, max }
    }
}

impl Default for IntRange {
    /// `0..=100`.
    fn default() -> (r: Self)
        ensures
            r.min == 0,
            r.max == 100,
    {
        IntRange { min: 0, max: 100 }
    }
}

/// Slider bounds of the Menger sponge parameters.
#[derive(Debug, Clone, Copy, PartialEq, Eq, Structural)]
pub struct MengerRanges {
    pub iterations: IntRange,
}

impl Default for MengerRanges {
    /// Iterations `1..=8`.
    fn default() -> (r: Self)
        ensures
            r.iterations == (IntRange { min: 1, max: 8 }),
    {
        MengerRanges { iterations: IntRange::new(1, 8) }
    }
}

/// Slider bounds of the Apollonian gasket parameters.
#[derive(Debug, Clone, Copy, PartialEq, Eq, Structural)]
pub struct ApollonianRanges {
    pub iterations: IntRange,
}

impl Default for ApollonianRanges {
    /// Iterations `1..=12`.
    fn default() -> (r: Self)
        ensures
            r.iterations == (IntRange { min: 1, max: 12 }),
    {
        ApollonianRanges { iterations: IntRange::new(1, 12) }
    }
}

} // verus!
