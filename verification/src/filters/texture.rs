//! The choices the texture filters offer: which surface Texturizer lays over
//! the picture, where its light comes from, and which kind of grain Grain
//! adds. The surfaces themselves are computed in floating point, elsewhere.

use vstd::prelude::*;

verus! {

/// The surface Texturizer lays over the picture.
#[derive(Clone, Copy, PartialEq, Eq, Debug, Structural)]
pub enum Texture {
    /// Courses of bricks in running bond, with sunken mortar between them.
    Brick,
    /// Coarse sacking: an uneven weave of thick, wandering threads.
    Burlap,
    /// A fine, even weave. The default.
    Canvas,
    /// Gritty stone, lumpy at several scales at once.
    Sandstone,
}

/// The texture a list index names: Brick, Burlap, Canvas, Sandstone, with
/// anything unknown taken as Canvas.
pub open spec fn texture_of(value: i32) -> Texture {
    if value == 0 {
        Texture::Brick
    } else if value == 1 {
        Texture::Burlap
    } else if value == 3 {
        Texture::Sandstone
    } else {
        Texture::Canvas
    }
}

impl Texture {
    pub fn from_i32(value: i32) -> (t: Texture)
        ensures
            t == texture_of(value),
    {
        match value {
            0 => Texture::Brick,
            1 => Texture::Burlap,
            3 => Texture::Sandstone,
            _ => Texture::Canvas,
        }
    }
}

impl Default for Texture {
    fn default() -> (t: Texture)
        ensures
            t == Texture::Canvas,
    {
        Texture::Canvas
    }
}

/// Where the texture light comes from, in the order the list gives them.
#[derive(Clone, Copy, PartialEq, Eq, Debug, Structural)]
pub enum Light {
    /// The default.
    Bottom,
    BottomLeft,
    Left,
    TopLeft,
    Top,
    TopRight,
    Right,
    BottomRight,
}

/// The light a list index names, anything unknown taken as Bottom.
pub open spec fn light_of(value: i32) -> Light {
    if value == 1 {
        Light::BottomLeft
    } else if value == 2 {
        Light::Left
    } else if value == 3 {
        Light::TopLeft
    } else if value == 4 {
        Light::Top
    } else if value == 5 {
        Light::TopRight
    } else if value == 6 {
        Light::Right
    } else if value == 7 {
        Light::BottomRight
    } else {
        Light::Bottom
    }
}

impl Light {
    pub fn from_i32(value: i32) -> (l: Light)
        ensures
            l == light_of(value),
    {
        match value {
            1 => Light::BottomLeft,
            2 => Light::Left,
            3 => Light::TopLeft,
            4 => Light::Top,
            5 => Light::TopRight,
            6 => Light::Right,
            7 => Light::BottomRight,
            _ => Light::Bottom,
        }
    }
}

impl Default for Light {
    fn default() -> (l: Light)
        ensures
            l == Light::Bottom,
    {
        Light::Bottom
    }
}

/// The kind of grain the Grain filter adds.
#[derive(Clone, Copy, PartialEq, Eq, Debug, Structural)]
pub enum GrainType {
    /// Colour noise, a pixel at a time. The default.
    Regular,
    /// The same, gentler and a little softened.
    Soft,
    /// Specks of the background colour thrown over the picture.
    Sprinkles,
    /// Colour noise gathered into clumps a few pixels across.
    Clumped,
    /// Clumped noise over a picture pushed hard towards black and white.
    Contrasty,
    /// Colour noise in bigger, softer clumps.
    Enlarged,
    /// The picture dithered into the two swatches.
    Stippled,
    /// Dark streaks running across.
    Horizontal,
    /// Dark streaks running down.
    Vertical,
    /// Specks of the foreground colour, thickest in the dark.
    Speckle,
}

/// The grain a list index names, anything unknown taken as Regular.
pub open spec fn grain_of(value: i32) -> GrainType {
    if value == 1 {
        GrainType::Soft
    } else if value == 2 {
        GrainType::Sprinkles
    } else if value == 3 {
        GrainType::Clumped
    } else if value == 4 {
        GrainType::Contrasty
    } else if value == 5 {
        GrainType::Enlarged
    } else if value == 6 {
        GrainType::Stippled
    } else if value == 7 {
        GrainType::Horizontal
    } else if value == 8 {
        GrainType::Vertical
    } else if value == 9 {
        GrainType::Speckle
    } else {
        GrainType::Regular
    }
}

impl GrainType {
    pub fn from_i32(value: i32) -> (g: GrainType)
        ensures
            g == grain_of(value),
    {
        match value {
            1 => GrainType::Soft,
            2 => GrainType::Sprinkles,
            3 => GrainType::Clumped,
            4 => GrainType::Contrasty,
            5 => GrainType::Enlarged,
            6 => GrainType::Stippled,
            7 => GrainType::Horizontal,
            8 => GrainType::Vertical,
            9 => GrainType::Speckle,
            _ => GrainType::Regular,
        }
    }
}

impl Default for GrainType {
    fn default() -> (g: GrainType)
        ensures
            g == GrainType::Regular,
    {
        GrainType::Regular
    }
}

} // verus!
