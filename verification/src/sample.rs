//! The Sampling and Limits choices the background-matching tools share.

use vstd::prelude::*;

verus! {

/// When the colour to match is taken.
#[derive(Clone, Copy, PartialEq, Eq, Debug, Structural)]
pub enum Sampling {
    /// Read continuously under the brush as it moves.
    Continuous,
    /// Read once, where the stroke began.
    Once,
    /// The background swatch.
    BackgroundSwatch,
}

/// The sampling an options-bar index names; anything unknown is Continuous.
pub open spec fn sampling_of(v: i32) -> Sampling {
    if v == 1 {
        Sampling::Once
    } else if v == 2 {
        Sampling::BackgroundSwatch
    } else {
        Sampling::Continuous
    }
}

impl Sampling {
    pub fn from_i32(v: i32) -> (s: Sampling)
        ensures
            s == sampling_of(v),
    {
        match v {
            1 => Sampling::Once,
            2 => Sampling::BackgroundSwatch,
            _ => Sampling::Continuous,
        }
    }
}

impl Default for Sampling {
    fn default() -> (s: Sampling)
        ensures
            s == Sampling::Continuous,
    {
        Sampling::Continuous
    }
}

/// Which matching pixels may be touched.
#[derive(Clone, Copy, PartialEq, Eq, Debug, Structural)]
pub enum Limits {
    /// Any matching pixel under the brush.
    Discontiguous,
    /// Only matching pixels connected to the one under the centre.
    Contiguous,
    /// Connected, and keeping the sharpness of edges.
    FindEdges,
}

/// The limits an options-bar index names; anything unknown is Contiguous.
pub open spec fn limits_of(v: i32) -> Limits {
    if v == 0 {
        Limits::Discontiguous
    } else if v == 2 {
        Limits::FindEdges
    } else {
        Limits::Contiguous
    }
}

impl Limits {
    pub fn from_i32(v: i32) -> (l: Limits)
        ensures
            l == limits_of(v),
    {
        match v {
            0 => Limits::Discontiguous,
            2 => Limits::FindEdges,
            _ => Limits::Contiguous,
        }
    }
}

impl Default for Limits {
    fn default() -> (l: Limits)
        ensures
            l == Limits::Contiguous,
    {
        Limits::Contiguous
    }
}

} // verus!
