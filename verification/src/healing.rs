//! The choices the healing tools offer: how the Spot Healing Brush rebuilds
//! what it covers, how much the Patch tool transfers, and how the
//! Content-Aware Move tool moves. The reconstructions themselves are solved in
//! floating point, elsewhere.

use vstd::prelude::*;

verus! {

/// Which reconstruction to use, as the Type buttons offer them.
#[derive(Clone, Copy, PartialEq, Eq, Debug, Structural)]
pub enum HealMode {
    ProximityMatch,
    CreateTexture,
    /// The default.
    ContentAware,
}

/// The mode a button index names, anything unknown taken as Content-Aware.
pub open spec fn heal_mode_of(v: i32) -> HealMode {
    if v == 0 {
        HealMode::ProximityMatch
    } else if v == 1 {
        HealMode::CreateTexture
    } else {
        HealMode::ContentAware
    }
}

impl HealMode {
    pub fn from_i32(v: i32) -> (m: HealMode)
        ensures
            m == heal_mode_of(v),
    {
        match v {
            0 => HealMode::ProximityMatch,
            1 => HealMode::CreateTexture,
            _ => HealMode::ContentAware,
        }
    }

    /// The mode's button index, which [`HealMode::from_i32`] reads back.
    pub fn index(self) -> (v: i32)
        ensures
            heal_mode_of(v) == self,
            0 <= v <= 2,
    {
        match self {
            HealMode::ProximityMatch => 0,
            HealMode::CreateTexture => 1,
            HealMode::ContentAware => 2,
        }
    }
}

impl Default for HealMode {
    fn default() -> (m: HealMode)
        ensures
            m == HealMode::ContentAware,
    {
        HealMode::ContentAware
    }
}

/// How much of the source to transfer.
#[derive(Clone, Copy, PartialEq, Eq, Debug, Structural)]
pub enum Transfer {
    /// Texture and colour, with the destination's lighting. The default.
    Full,
    /// Texture only: the destination keeps its own colour and takes just the
    /// source's detail, which is what the Patch tool's Transparent option
    /// does.
    TextureOnly,
}

impl Default for Transfer {
    fn default() -> (t: Transfer)
        ensures
            t == Transfer::Full,
    {
        Transfer::Full
    }
}

/// The Content-Aware Move options.
#[derive(Clone, Copy, Debug)]
pub struct MoveOptions {
    /// The drag, in pixels.
    pub dx: i32,
    pub dy: i32,
    /// Leave the original in place, duplicating rather than moving: Extend
    /// mode, for lengthening something like a wall or a branch.
    pub extend: bool,
    /// Structure, 1 to 7: how strictly the fill follows the edges it finds.
    pub structure: u32,
    /// Color, 0 to 10: how far the moved pixels are shifted to match the
    /// colour of their new surroundings.
    pub color: u32,
}

impl Default for MoveOptions {
    /// No drag, moving rather than extending, Structure 4 and Color 0.
    fn default() -> (o: MoveOptions)
        ensures
            o.dx == 0,
            o.dy == 0,
            !o.extend,
            o.structure == 4,
            o.color == 0,
    {
        MoveOptions { dx: 0, dy: 0, extend: false, structure: 4, color: 0 }
    }
}

/// The patch radius a Structure setting compares with: bigger patches follow
/// an edge more faithfully and cost more. Settings outside 1 to 7 count as
/// the nearest end.
pub open spec fn patch_radius_of(structure: u32) -> i32 {
    if structure <= 2 {
        1
    } else if structure <= 5 {
        2
    } else {
        3
    }
}

pub fn patch_radius(structure: u32) -> (r: i32)
    ensures
        r == patch_radius_of(structure),
{
    let s = if structure < 1 {
        1
    } else if structure > 7 {
        7
    } else {
        structure
    };
    if s <= 2 {
        1
    } else if s <= 5 {
        2
    } else {
        3
    }
}

/// Whether pixel `(x, y)` of a `w`-wide, `h`-high mask has a 4-neighbour on
/// which `flag` is `want`.
pub open spec fn has_neighbour(flag: Seq<bool>, w: int, h: int, x: int, y: int, want: bool) -> bool {
    ||| (x > 0 && flag[y * w + x - 1] == want)
    ||| (x + 1 < w && flag[y * w + x + 1] == want)
    ||| (y > 0 && flag[(y - 1) * w + x] == want)
    ||| (y + 1 < h && flag[(y + 1) * w + x] == want)
}

/// Whether a known pixel is 4-adjacent to the hole.
pub fn touches_hole(hole: &[bool], w: usize, h: usize, x: usize, y: usize) -> (r: bool)
    requires
        x < w,
        y < h,
        w * h <= hole@.len(),
    ensures
        r == has_neighbour(hole@, w as int, h as int, x as int, y as int, true),
{
    let n = hole.len();
    proof {
        crate::buffer::lemma_row_index(x as int, y as int, w as int, h as int);
        if y > 0 {
            crate::buffer::lemma_row_index(x as int, y - 1, w as int, h as int);
        }
        if y + 1 < h {
            crate::buffer::lemma_row_index(x as int, y + 1, w as int, h as int);
        }
        if x + 1 < w {
            crate::buffer::lemma_row_index(x + 1, y as int, w as int, h as int);
        }
        assert((y - 1) * w == y * w - w && (y + 1) * w == y * w + w) by (nonlinear_arith);
    }
    let at = y * w + x;
    (x > 0 && hole[at - 1]) || (x + 1 < w && hole[at + 1]) || (y > 0 && hole[at - w]) || (y + 1 < h
        && hole[at + w])
}

/// Whether an unknown pixel is 4-adjacent to something already known.
pub fn touches_known(unknown: &[bool], w: usize, h: usize, x: usize, y: usize) -> (r: bool)
    requires
        x < w,
        y < h,
        w * h <= unknown@.len(),
    ensures
        r == has_neighbour(unknown@, w as int, h as int, x as int, y as int, false),
{
    let n = unknown.len();
    proof {
        crate::buffer::lemma_row_index(x as int, y as int, w as int, h as int);
        if y > 0 {
            crate::buffer::lemma_row_index(x as int, y - 1, w as int, h as int);
        }
        if y + 1 < h {
            crate::buffer::lemma_row_index(x as int, y + 1, w as int, h as int);
        }
        if x + 1 < w {
            crate::buffer::lemma_row_index(x + 1, y as int, w as int, h as int);
        }
        assert((y - 1) * w == y * w - w && (y + 1) * w == y * w + w) by (nonlinear_arith);
    }
    let at = y * w + x;
    (x > 0 && !unknown[at - 1]) || (x + 1 < w && !unknown[at + 1]) || (y > 0 && !unknown[at - w])
        || (y + 1 < h && !unknown[at + w])
}

} // verus!
