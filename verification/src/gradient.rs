//! The gradient shapes.

use vstd::prelude::*;

verus! {

/// The five shapes, in options-bar order.
#[derive(Clone, Copy, PartialEq, Eq, Debug, Structural)]
pub enum GradientType {
    /// Straight along the drag. The default.
    Linear,
    /// Circles out from where the drag began.
    Radial,
    /// Sweeps around the start point, the drag setting the zero angle.
    Angle,
    /// Linear, mirrored either side of the start.
    Reflected,
    /// Concentric diamonds out from the start.
    Diamond,
}

/// The shape an options-bar index names; anything unknown is Linear.
pub open spec fn gradient_type_of(v: i32) -> GradientType {
    if v == 1 {
        GradientType::Radial
    } else if v == 2 {
        GradientType::Angle
    } else if v == 3 {
        GradientType::Reflected
    } else if v == 4 {
        GradientType::Diamond
    } else {
        GradientType::Linear
    }
}

impl GradientType {
    pub fn from_i32(v: i32) -> (t: GradientType)
        ensures
            t == gradient_type_of(v),
    {
        match v {
            1 => GradientType::Radial,
            2 => GradientType::Angle,
            3 => GradientType::Reflected,
            4 => GradientType::Diamond,
            _ => GradientType::Linear,
        }
    }

    /// The shape's options-bar index.
    pub fn index(self) -> (v: i32)
        ensures
            gradient_type_of(v) == self,
    {
        match self {
            GradientType::Linear => 0,
            GradientType::Radial => 1,
            GradientType::Angle => 2,
            GradientType::Reflected => 3,
            GradientType::Diamond => 4,
        }
    }
}

impl Default for GradientType {
    fn default() -> (t: GradientType)
        ensures
            t == GradientType::Linear,
    {
        GradientType::Linear
    }
}

} // verus!
