//! Colour replacement — the settings and stroke state behind the Color
//! Replacement Brush.
//!
//! The tool paints the foreground colour, but only onto pixels that already
//! resemble a *sampled* colour, and only the part of them the chosen mode
//! affects. What gets replaced depends on what is already there, so it applies
//! per dab, with a record of which pixels have already been dealt with so a
//! slow drag does not build up.

use vstd::prelude::*;

use crate::blend::BlendMode;
use crate::buffer::Rgba8;
pub use crate::sample::{Limits as ReplaceLimits, Sampling as ReplaceSampling};

verus! {

/// Which part of the pixel the replacement affects.
#[derive(Clone, Copy, PartialEq, Eq, Debug, Structural)]
pub enum ReplaceMode {
    Hue,
    Saturation,
    /// Hue and saturation, keeping the pixel's own brightness: the default,
    /// and the one that makes the tool useful.
    Color,
    Luminosity,
}

/// The mode a Mode-menu index names; anything unknown is Color.
pub open spec fn replace_mode_of(v: i32) -> ReplaceMode {
    if v == 0 {
        ReplaceMode::Hue
    } else if v == 1 {
        ReplaceMode::Saturation
    } else if v == 3 {
        ReplaceMode::Luminosity
    } else {
        ReplaceMode::Color
    }
}

impl ReplaceMode {
    pub fn from_i32(v: i32) -> (m: ReplaceMode)
        ensures
            m == replace_mode_of(v),
    {
        match v {
            0 => ReplaceMode::Hue,
            1 => ReplaceMode::Saturation,
            3 => ReplaceMode::Luminosity,
            _ => ReplaceMode::Color,
        }
    }

    /// The mode's Mode-menu index, which reads back as the mode.
    pub fn index(self) -> (v: i32)
        ensures
            replace_mode_of(v) == self,
            0 <= v <= 3,
    {
        match self {
            ReplaceMode::Hue => 0,
            ReplaceMode::Saturation => 1,
            ReplaceMode::Color => 2,
            ReplaceMode::Luminosity => 3,
        }
    }

    /// The blend mode that puts the replacement's part into the pixel.
    pub fn blend(self) -> (b: BlendMode)
        ensures
            b == (match self {
                ReplaceMode::Hue => BlendMode::Hue,
                ReplaceMode::Saturation => BlendMode::Saturation,
                ReplaceMode::Color => BlendMode::Color,
                ReplaceMode::Luminosity => BlendMode::Luminosity,
            }),
    {
        match self {
            ReplaceMode::Hue => BlendMode::Hue,
            ReplaceMode::Saturation => BlendMode::Saturation,
            ReplaceMode::Color => BlendMode::Color,
            ReplaceMode::Luminosity => BlendMode::Luminosity,
        }
    }
}

impl Default for ReplaceMode {
    fn default() -> (m: ReplaceMode)
        ensures
            m == ReplaceMode::Color,
    {
        ReplaceMode::Color
    }
}

/// Settings for one colour-replacement stroke.
#[derive(Clone, Copy, Debug, PartialEq, Eq, Structural)]
pub struct ReplaceOptions {
    pub mode: ReplaceMode,
    pub sampling: ReplaceSampling,
    pub limits: ReplaceLimits,
    /// 0-255, how far a pixel may differ per channel and still count as a match.
    pub tolerance: u32,
    /// Feather the edge of the matched region rather than cutting it hard.
    pub antialias: bool,
}

impl Default for ReplaceOptions {
    fn default() -> (o: ReplaceOptions)
        ensures
            o == (ReplaceOptions {
                mode: ReplaceMode::Color,
                sampling: ReplaceSampling::Continuous,
                limits: ReplaceLimits::Contiguous,
                tolerance: 0,
                antialias: false,
            }),
    {
        ReplaceOptions {
            mode: ReplaceMode::Color,
            sampling: ReplaceSampling::Continuous,
            limits: ReplaceLimits::Contiguous,
            tolerance: 0,
            antialias: false,
        }
    }
}

/// State carried across one stroke.
pub struct ColorReplacer {
    options: ReplaceOptions,
    /// The colour being replaced, for the sampling modes that fix it up front.
    reference: Option<Rgba8>,
    /// Pixels already replaced during this stroke, row by row. Without it,
    /// overlapping dabs would blend the replacement in repeatedly and a slow
    /// drag would come out stronger than a fast one.
    done: Vec<bool>,
    width: u32,
}

impl ColorReplacer {
    pub closed spec fn settings(&self) -> ReplaceOptions {
        self.options
    }

    pub closed spec fn reference_colour(&self) -> Option<Rgba8> {
        self.reference
    }

    /// Which pixels have been replaced so far, row by row.
    pub closed spec fn replaced(&self) -> Seq<bool> {
        self.done@
    }

    pub closed spec fn row_width(&self) -> u32 {
        self.width
    }

    /// Start a stroke over a `width` x `height` layer: nothing replaced yet.
    /// `reference` is used for Once and Background Swatch sampling;
    /// Continuous ignores it and reads the layer as it goes.
    pub fn new(width: u32, height: u32, options: ReplaceOptions, reference: Option<Rgba8>) -> (c: ColorReplacer)
        requires
            width as int * height as int <= usize::MAX,
        ensures
            c.settings() == options,
            c.reference_colour() == reference,
            c.row_width() == width,
            c.replaced() == Seq::new((width as int * height as int) as nat, |i: int| false),
    {
        let n = (width as usize) * (height as usize);
        let mut done: Vec<bool> = Vec::with_capacity(n);
        let mut i: usize = 0;
        while i < n
            invariant
                i <= n,
                done@ =~= Seq::new(i as nat, |k: int| false),
            decreases n - i,
        {
            done.push(false);
            i = i + 1;
        }
        ColorReplacer { options, reference, done, width }
    }

    pub fn options(&self) -> (o: ReplaceOptions)
        ensures
            o == self.settings(),
    {
        self.options
    }
}

} // verus!
