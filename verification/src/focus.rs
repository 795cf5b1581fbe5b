//! The focus tools: **Blur** and **Sharpen**.
//!
//! One tool with its sign flipped. Both read the same 3x3 neighbourhood and both
//! move a pixel along the line between itself and that neighbourhood's average —
//! Blur *toward* it, Sharpen *away* from it. The neighbourhood is read from a
//! copy of the region a dab covers, so that blurring in place does not feed
//! each pixel the already-softened one beside it.

use vstd::prelude::*;

use crate::buffer::{Pixmap, Rect, Rgba8};

verus! {

/// Which way the pair moves a pixel relative to its neighbourhood.
#[derive(Clone, Copy, PartialEq, Eq, Debug, Structural)]
pub enum FocusMode {
    /// Toward the average: softer.
    Blur,
    /// Away from it: crisper.
    Sharpen,
}

impl FocusMode {
    /// 1 is Sharpen; anything else is Blur.
    pub fn from_i32(v: i32) -> (m: FocusMode)
        ensures
            m == (if v == 1 {
                FocusMode::Sharpen
            } else {
                FocusMode::Blur
            }),
    {
        match v {
            1 => FocusMode::Sharpen,
            _ => FocusMode::Blur,
        }
    }
}

impl Default for FocusMode {
    fn default() -> (m: FocusMode)
        ensures
            m == FocusMode::Blur,
    {
        FocusMode::Blur
    }
}

/// Where the neighbourhood is read from, and where that buffer sits relative to
/// the pixels being written.
pub struct Source<'a> {
    pub pixels: &'a Pixmap,
    pub origin: (i32, i32),
}

/// How many columns (or rows) of a rectangle side the copying loop covers:
/// counting runs over `i32`, so a side too long for one covers none.
pub open spec fn reach(n: u32) -> int {
    if n <= i32::MAX {
        n as int
    } else {
        0
    }
}

/// The pixel at `(x, y)` of the copy of `region` out of a buffer whose
/// top-left sits at `origin`: the buffer's pixel there, transparent outside it.
pub open spec fn copied(pixels: Pixmap, origin: (i32, i32), region: Rect, x: int, y: int) -> Rgba8 {
    if x < reach(region.width) && y < reach(region.height) {
        pixels.at(region.x + x - origin.0, region.y + y - origin.1)
    } else {
        Rgba8 { r: 0, g: 0, b: 0, a: 0 }
    }
}

/// At least one.
pub open spec fn at_least_one(n: u32) -> u32 {
    if n == 0 {
        1
    } else {
        n
    }
}

/// Copy `region` out of `source`, in the *target's* coordinates. Reads outside
/// the buffer come back transparent.
pub fn crop_from(source: &Source, region: Rect) -> (out: Pixmap)
    requires
        at_least_one(region.width) as int * at_least_one(region.height) as int <= usize::MAX,
        reach(region.width) > 0 ==> i32::MIN <= region.x - source.origin.0 && region.x + reach(
            region.width,
        ) - 1 <= i32::MAX && region.x + reach(region.width) - 1 - source.origin.0 <= i32::MAX,
        reach(region.height) > 0 ==> i32::MIN <= region.y - source.origin.1 && region.y + reach(
            region.height,
        ) - 1 <= i32::MAX && region.y + reach(region.height) - 1 - source.origin.1 <= i32::MAX,
    ensures
        out.w() == at_least_one(region.width),
        out.h() == at_least_one(region.height),
        out.pixels() == Seq::new(
            (at_least_one(region.width) as int * at_least_one(region.height) as int) as nat,
            |i: int|
                copied(
                    *source.pixels,
                    source.origin,
                    region,
                    i % (at_least_one(region.width) as int),
                    i / (at_least_one(region.width) as int),
                ),
        ),
{
    let w = if region.width == 0 {
        1
    } else {
        region.width
    };
    let h = if region.height == 0 {
        1
    } else {
        region.height
    };
    let cols: u32 = if region.width <= 2147483647 {
        region.width
    } else {
        0
    };
    let rows: u32 = if region.height <= 2147483647 {
        region.height
    } else {
        0
    };
    let n = (w as usize) * (h as usize);
    let ghost want = Seq::new(
        (w as int * h as int) as nat,
        |i: int| copied(*source.pixels, source.origin, region, i % (w as int), i / (w as int)),
    );
    let mut px: Vec<Rgba8> = Vec::with_capacity(n);
    let mut i: usize = 0;
    while i < n
        invariant
            n == w as int * h as int,
            w == at_least_one(region.width),
            h == at_least_one(region.height),
            cols == reach(region.width),
            rows == reach(region.height),
            reach(region.width) > 0 ==> i32::MIN <= region.x - source.origin.0 && region.x + reach(
                region.width,
            ) - 1 <= i32::MAX && region.x + reach(region.width) - 1 - source.origin.0 <= i32::MAX,
            reach(region.height) > 0 ==> i32::MIN <= region.y - source.origin.1 && region.y
                + reach(region.height) - 1 <= i32::MAX && region.y + reach(region.height) - 1
                - source.origin.1 <= i32::MAX,
            want == Seq::new(
                (w as int * h as int) as nat,
                |i: int| copied(*source.pixels, source.origin, region, i % (w as int), i / (w as int)),
            ),
            i <= n,
            px@ =~= want.subrange(0, i as int),
        decreases n - i,
    {
        proof {
            assert(w > 0);
            assert((i as int) / (w as int) < h as int) by (nonlinear_arith)
                requires
                    0 <= i < w as int * h as int,
                    w > 0,
            ;
        }
        let x = (i % (w as usize)) as u32;
        let y = (i / (w as usize)) as u32;
        if x < cols && y < rows {
            let sx = region.x + (x as i32) - source.origin.0;
            let sy = region.y + (y as i32) - source.origin.1;
            px.push(source.pixels.get(sx, sy));
        } else {
            px.push(Rgba8::transparent());
        }
        i = i + 1;
    }
    assert(px@ =~= want);
    Pixmap::from_pixels(w, h, px)
}

/// `v` held between `low` and `high`.
pub open spec fn clamped(v: int, low: int, high: int) -> int {
    if v < low {
        low
    } else if v > high {
        high
    } else {
        v
    }
}

/// The `k`th pixel of the 3x3 neighbourhood of `(x, y)`, row by row, read off
/// `snapshot` which covers `region`, clamped at its edges.
pub open spec fn neighbour(snapshot: Pixmap, region: Rect, x: int, y: int, k: int) -> Rgba8 {
    let kx = k % 3 - 1;
    let ky = k / 3 - 1;
    snapshot.at(
        clamped(x + kx - region.x, 0, region.width - 1),
        clamped(y + ky - region.y, 0, region.height - 1),
    )
}

/// The least and greatest value of channel `c` over the first `k`
/// neighbours; 255 and 0 over none.
pub open spec fn channel_range(snapshot: Pixmap, region: Rect, x: int, y: int, c: int, k: int) -> (u8, u8)
    decreases k,
{
    if k <= 0 {
        (255u8, 0u8)
    } else {
        let (low, high) = channel_range(snapshot, region, x, y, c, k - 1);
        let v = neighbour(snapshot, region, x, y, k - 1).channel_spec(c);
        (if v < low {
            v
        } else {
            low
        }, if v > high {
            v
        } else {
            high
        })
    }
}

/// Per-channel min and max over the 3x3 neighbourhood.
pub fn neighbourhood_range(snapshot: &Pixmap, region: Rect, x: i32, y: i32) -> (r: ([u8; 3], [u8; 3]))
    requires
        1 <= region.width <= i32::MAX,
        1 <= region.height <= i32::MAX,
        i32::MIN + 1 <= x - region.x <= i32::MAX - 1,
        i32::MIN + 1 <= y - region.y <= i32::MAX - 1,
    ensures
        forall|c: int|
            0 <= c < 3 ==> r.0@[c] == channel_range(*snapshot, region, x as int, y as int, c, 9).0
                && r.1@[c] == channel_range(*snapshot, region, x as int, y as int, c, 9).1,
{
    let mut low: [u8; 3] = [255, 255, 255];
    let mut high: [u8; 3] = [0, 0, 0];
    let mut k: usize = 0;
    while k < 9
        invariant
            k <= 9,
            1 <= region.width <= i32::MAX,
            1 <= region.height <= i32::MAX,
            i32::MIN + 1 <= x - region.x <= i32::MAX - 1,
            i32::MIN + 1 <= y - region.y <= i32::MAX - 1,
            forall|c: int|
                0 <= c < 3 ==> low@[c] == channel_range(*snapshot, region, x as int, y as int, c, k as int).0
                    && high@[c] == channel_range(*snapshot, region, x as int, y as int, c, k as int).1,
        decreases 9 - k,
    {
        let kx = (k % 3) as i32 - 1;
        let ky = (k / 3) as i32 - 1;
        // Clamp at the edges rather than sampling outside.
        let max_x = region.width as i32 - 1;
        let max_y = region.height as i32 - 1;
        let dx = x - region.x + kx;
        let dy = y - region.y + ky;
        let sx = if dx < 0 {
            0
        } else if dx > max_x {
            max_x
        } else {
            dx
        };
        let sy = if dy < 0 {
            0
        } else if dy > max_y {
            max_y
        } else {
            dy
        };
        let p = snapshot.get(sx, sy);
        assert(p == neighbour(*snapshot, region, x as int, y as int, k as int));
        let mut c: usize = 0;
        while c < 3
            invariant
                c <= 3,
                k < 9,
                p == neighbour(*snapshot, region, x as int, y as int, k as int),
                forall|j: int|
                    0 <= j < c ==> low@[j] == channel_range(*snapshot, region, x as int, y as int, j, k + 1).0
                        && high@[j] == channel_range(*snapshot, region, x as int, y as int, j, k + 1).1,
                forall|j: int|
                    c <= j < 3 ==> low@[j] == channel_range(*snapshot, region, x as int, y as int, j, k as int).0
                        && high@[j] == channel_range(*snapshot, region, x as int, y as int, j, k as int).1,
            decreases 3 - c,
        {
            let v = p.channel(c);
            if v < low[c] {
                low[c] = v;
            }
            if v > high[c] {
                high[c] = v;
            }
            c = c + 1;
        }
        k = k + 1;
    }
    (low, high)
}

/// One channel reflected through its neighbourhood average, `2d - a`, held
/// inside `bounds` when given, and then inside 0..=255.
pub open spec fn sharpened(d: u8, a: u8, bounds: Option<(u8, u8)>) -> u8 {
    let v = 2 * d - a;
    let v = match bounds {
        Some((low, high)) => clamped(v, low as int, high as int),
        None => v,
    };
    clamped(v, 0, 255) as u8
}

/// The pixel reflected through its neighbourhood average — the sharpened value.
///
/// `dst + (dst - average)` doubles the pixel's departure from its surroundings,
/// which is exactly a 3x3 unsharp mask at amount 1. `bounds`, when given, is the
/// neighbourhood's own min and max per channel: clamping to it is **Protect
/// Detail**, which keeps repeated passes from overshooting into haloes.
/// Sharpening is about detail, not coverage: alpha is left where it is.
pub fn sharpen(dst: Rgba8, average: Rgba8, bounds: Option<([u8; 3], [u8; 3])>) -> (out: Rgba8)
    requires
        bounds matches Some((low, high)) ==> forall|c: int| 0 <= c < 3 ==> low@[c] <= high@[c],
    ensures
        forall|c: int|
            0 <= c < 3 ==> out.channel_spec(c) == sharpened(
                dst.channel_spec(c),
                average.channel_spec(c),
                match bounds {
                    Some((low, high)) => Some((low@[c], high@[c])),
                    None => None,
                },
            ),
        out.a == dst.a,
{
    let mut out: [u8; 3] = [0, 0, 0];
    let mut c: usize = 0;
    while c < 3
        invariant
            c <= 3,
            bounds matches Some((low, high)) ==> forall|j: int| 0 <= j < 3 ==> low@[j] <= high@[j],
            forall|j: int|
                0 <= j < c ==> out@[j] == sharpened(
                    dst.channel_spec(j),
                    average.channel_spec(j),
                    match bounds {
                        Some((low, high)) => Some((low@[j], high@[j])),
                        None => None,
                    },
                ),
        decreases 3 - c,
    {
        let d = dst.channel(c) as i32;
        let a = average.channel(c) as i32;
        let mut v = d + (d - a);
        match bounds {
            Some((low, high)) => {
                if v < low[c] as i32 {
                    v = low[c] as i32;
                } else if v > high[c] as i32 {
                    v = high[c] as i32;
                }
            },
            None => {},
        }
        let clipped: u8 = if v < 0 {
            0
        } else if v > 255 {
            255
        } else {
            v as u8
        };
        out[c] = clipped;
        c = c + 1;
    }
    Rgba8::new(out[0], out[1], out[2], dst.a)
}

} // verus!
