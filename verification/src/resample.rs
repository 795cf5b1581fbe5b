//! How pixels are interpolated when an image's size changes.

use vstd::prelude::*;

use crate::buffer::{Pixmap, Rgba8};

verus! {

/// How pixels are interpolated when the size changes.
#[derive(Clone, Copy, Debug, PartialEq, Eq, Structural)]
pub enum Resample {
    /// No interpolation. Keeps hard edges crisp.
    Nearest,
    /// Linear blend of the four neighbours.
    Bilinear,
    /// Catmull-Rom over sixteen neighbours.
    Bicubic,
}

/// The interpolator a Resample-menu index maps onto: Nearest Neighbor (5) and
/// Bilinear (6) are themselves, and the Bicubic variants, Automatic and
/// Preserve Details all collapse onto Bicubic.
pub open spec fn resample_of(v: i32) -> Resample {
    if v == 5 {
        Resample::Nearest
    } else if v == 6 {
        Resample::Bilinear
    } else {
        Resample::Bicubic
    }
}

impl Resample {
    /// Map a Resample menu index onto what the engine implements.
    pub fn from_i32(v: i32) -> (r: Resample)
        ensures
            r == resample_of(v),
    {
        match v {
            5 => Resample::Nearest,
            6 => Resample::Bilinear,
            _ => Resample::Bicubic,
        }
    }
}


/// The pixel at `(x, y)`, clamped to the edge rather than reading nothing.
pub open spec fn clamped_pixel(src: Pixmap, x: int, y: int) -> Rgba8 {
    let cx = if x < 0 {
        0
    } else if x > src.w() - 1 {
        src.w() - 1
    } else {
        x
    };
    let cy = if y < 0 {
        0
    } else if y > src.h() - 1 {
        src.h() - 1
    } else {
        y
    };
    src.at(cx, cy)
}

/// Read a pixel, clamping to the edge rather than reading nothing.
pub fn sample_clamped(src: &Pixmap, x: i32, y: i32) -> (c: Rgba8)
    requires
        1 <= src.w() <= i32::MAX,
        1 <= src.h() <= i32::MAX,
    ensures
        c == clamped_pixel(*src, x as int, y as int),
{
    let max_x = src.width() as i32 - 1;
    let max_y = src.height() as i32 - 1;
    let cx = if x < 0 {
        0
    } else if x > max_x {
        max_x
    } else {
        x
    };
    let cy = if y < 0 {
        0
    } else if y > max_y {
        max_y
    } else {
        y
    };
    src.get(cx, cy)
}

/// What scaling `src` to `width` x `height` gives without filtering: for a
/// zero dimension, an empty image of that size; for an unchanged size, `src`
/// itself; for an empty source, a transparent image of the new size. `None`
/// when pixels have to be interpolated.
pub fn resample_unfiltered(src: &Pixmap, width: u32, height: u32) -> (r: Option<Pixmap>)
    requires
        width as int * height as int <= usize::MAX,
    ensures
        (width == 0 || height == 0) ==> r is Some && r->Some_0.is(
            width as int,
            height as int,
            Seq::<Rgba8>::empty(),
        ),
        (width != 0 && height != 0 && src.w() == width && src.h() == height) ==> r is Some
            && r->Some_0.is(width as int, height as int, src.pixels()),
        (width != 0 && height != 0 && !(src.w() == width && src.h() == height) && (src.w() == 0
            || src.h() == 0)) ==> r is Some && r->Some_0.is(
            width as int,
            height as int,
            Seq::new((width as int * height as int) as nat, |i: int| Rgba8 { r: 0, g: 0, b: 0, a: 0 }),
        ),
        (width != 0 && height != 0 && !(src.w() == width && src.h() == height) && src.w() != 0
            && src.h() != 0) ==> r is None,
{
    if width == 0 || height == 0 {
        let p = Pixmap::new(width, height);
        assert(width as int * height as int == 0) by (nonlinear_arith)
            requires
                width == 0 || height == 0,
        ;
        assert(p.pixels() =~= Seq::<Rgba8>::empty());
        return Some(p);
    }
    if src.width() == width && src.height() == height {
        return Some(src.clone());
    }
    if src.is_empty() {
        return Some(Pixmap::new(width, height));
    }
    None
}

/// What scaling a `src_width` x `src_height` coverage mask to `width` x
/// `height` gives without averaging: when either size has a zero side, every
/// value of the new size is zero. `None` when values have to be averaged.
pub fn resample_coverage_unfiltered(src_width: u32, src_height: u32, width: u32, height: u32) -> (r: Option<Vec<u8>>)
    requires
        width as int * height as int <= usize::MAX,
    ensures
        (width == 0 || height == 0 || src_width == 0 || src_height == 0) ==> r is Some && r->Some_0@
            == Seq::new((width as int * height as int) as nat, |i: int| 0u8),
        !(width == 0 || height == 0 || src_width == 0 || src_height == 0) ==> r is None,
{
    if width == 0 || height == 0 || src_width == 0 || src_height == 0 {
        let n = (width as usize) * (height as usize);
        let mut out: Vec<u8> = Vec::with_capacity(n);
        let mut i: usize = 0;
        while i < n
            invariant
                i <= n,
                n == width as int * height as int,
                out@ =~= Seq::new(i as nat, |k: int| 0u8),
            decreases n - i,
        {
            out.push(0);
            i = i + 1;
        }
        return Some(out);
    }
    None
}

} // verus!
