//! Patterns — the tiles the Pattern Stamp paints with.
//!
//! A pattern is a small square greyscale image repeated across the canvas.
//! Every tile is square and seamless: the generators take positions modulo the
//! tile, so the right edge continues into the left and the bottom into the top.
//! Tiles are grey and opaque, so they read as texture under whatever they are
//! painted over.

use vstd::prelude::*;

use crate::buffer::{lemma_flat_index, Pixmap, Rgba8};
use crate::chars::same_text;

verus! {

/// Side of every generated tile, in pixels.
pub const TILE: u32 = 64;

/// The built-in patterns, in the order the picker lists them.
pub const PATTERN_NAMES: [&'static str; 8] = [
    "Checkerboard",
    "Grid",
    "Diagonal Stripes",
    "Horizontal Lines",
    "Polka Dots",
    "Woven",
    "Bricks",
    "Grain",
];

/// An opaque grey.
pub open spec fn grey(v: u8) -> Rgba8 {
    Rgba8 { r: v, g: v, b: v, a: 255 }
}

/// Two dark and two light quarters.
pub open spec fn checker_value(x: int, y: int) -> u8 {
    if (x < 32) != (y < 32) {
        90
    } else {
        215
    }
}

/// Lines along two edges only: the neighbouring tile supplies the other two,
/// so a repeated grid has single-width lines.
pub open spec fn grid_value(x: int, y: int) -> u8 {
    if x < 2 || y < 2 {
        105
    } else {
        220
    }
}

/// Stripes at 45 degrees with a period of 16, which divides the tile.
pub open spec fn diagonal_value(x: int, y: int) -> u8 {
    if (x + y) % 16 < 8 {
        110
    } else {
        210
    }
}

/// Three dark rows in every eight.
pub open spec fn horizontal_value(x: int, y: int) -> u8 {
    if y % 8 < 3 {
        115
    } else {
        220
    }
}

/// Twice the offset from a dot centre `c` to the middle of pixel `p`, taken
/// the short way round the tile.
pub open spec fn wrapped_twice(p: int, c: int) -> int {
    let d = 2 * p + 1 - 2 * c;
    if d > 64 {
        d - 128
    } else if d < -64 {
        d + 128
    } else {
        d
    }
}

/// Four times the squared distance from dot centre `(cx, cy)` to the middle
/// of pixel `(x, y)`, on the torus.
pub open spec fn dot_distance(x: int, y: int, cx: int, cy: int) -> int {
    wrapped_twice(x, cx) * wrapped_twice(x, cx) + wrapped_twice(y, cy) * wrapped_twice(y, cy)
}

/// Whether `m` is `sqrt(n)` rounded to the nearest integer.
pub open spec fn is_rounded_sqrt(n: int, m: int) -> bool {
    &&& m >= 0
    &&& (2 * m - 1) * (2 * m - 1) <= 4 * n
    &&& 4 * n < (2 * m + 1) * (2 * m + 1)
}

/// `sqrt(n)` rounded to the nearest integer.
pub open spec fn rounded_sqrt(n: int) -> int {
    choose|m: int| is_rounded_sqrt(n, m)
}

/// The grey of a pixel a dot of radius 9 covers, given four times its
/// squared distance from the dot's centre: dark inside, light outside, and
/// over the one-pixel rim between them the light grey blended towards the
/// dark one by how much of the pixel the dot covers, `9.5 - distance`,
/// rounded to the nearest level.
pub open spec fn dot_value(s: int) -> u8 {
    if s <= 289 {
        100
    } else {
        (rounded_sqrt(3600 * s) - 920) as u8
    }
}

/// Four dots on a staggered grid, measured on the torus so a dot on an edge
/// shows on both sides. The dots are far enough apart that no pixel touches
/// two of them.
pub open spec fn polka_value(x: int, y: int) -> u8 {
    if dot_distance(x, y, 16, 16) < 361 {
        dot_value(dot_distance(x, y, 16, 16))
    } else if dot_distance(x, y, 48, 16) < 361 {
        dot_value(dot_distance(x, y, 48, 16))
    } else if dot_distance(x, y, 32, 48) < 361 {
        dot_value(dot_distance(x, y, 32, 48))
    } else if dot_distance(x, y, 0, 48) < 361 {
        dot_value(dot_distance(x, y, 0, 48))
    } else {
        220
    }
}

/// Cells of 16 in which the horizontal and the vertical thread take turns on
/// top.
pub open spec fn woven_value(x: int, y: int) -> u8 {
    let cx = x % 16;
    let cy = y % 16;
    let horizontal_on_top = (x / 16 + y / 16) % 2 == 0;
    let in_horizontal = 3 <= cy < 13;
    let in_vertical = 3 <= cx < 13;
    if horizontal_on_top && in_horizontal {
        190
    } else if !horizontal_on_top && in_vertical {
        190
    } else if in_horizontal || in_vertical {
        140
    } else {
        95
    }
}

/// Bricks of 32 by 16 in running bond, every other course shifted by half a
/// brick, with mortar three pixels wide.
pub open spec fn bricks_value(x: int, y: int) -> u8 {
    let shift = if (y / 16) % 2 == 0 {
        0int
    } else {
        16int
    };
    if y % 16 < 3 || (x + shift) % 32 < 3 {
        205
    } else {
        120
    }
}

/// The grain tile's integer hash: multiply, xor-shift, multiply, xor-shift,
/// all modulo 2^32.
pub open spec fn hash_value(x: u32, y: u32) -> u32 {
    let h0 = x.wrapping_mul(0x9E37_79B9) ^ y.wrapping_mul(0x85EB_CA6B);
    let h1 = h0 ^ (h0 >> 13);
    let h2 = h1.wrapping_mul(0xC2B2_AE35);
    h2 ^ (h2 >> 16)
}

/// Noise from a fixed hash, so the tile comes out the same every time.
pub open spec fn grain_value(x: int, y: int) -> u8 {
    (150 + hash_value(x as u32, y as u32) % 80) as u8
}

/// The grey at `(x, y)` of the pattern at `index`.
pub open spec fn pattern_value(index: int, x: int, y: int) -> u8 {
    if index == 0 {
        checker_value(x, y)
    } else if index == 1 {
        grid_value(x, y)
    } else if index == 2 {
        diagonal_value(x, y)
    } else if index == 3 {
        horizontal_value(x, y)
    } else if index == 4 {
        polka_value(x, y)
    } else if index == 5 {
        woven_value(x, y)
    } else if index == 6 {
        bricks_value(x, y)
    } else {
        grain_value(x, y)
    }
}

/// The pixels of the pattern at `index`, row by row.
pub open spec fn tile_pixels(index: int) -> Seq<Rgba8> {
    Seq::new(4096, |i: int| grey(pattern_value(index, i % 64, i / 64)))
}

/// Whether `p` is the 64 x 64 tile of the pattern at `index`.
pub open spec fn is_tile(p: Pixmap, index: int) -> bool {
    p.is(64, 64, tile_pixels(index))
}

pub fn shade(v: u8) -> (c: Rgba8)
    ensures
        c == grey(v),
{
    Rgba8::opaque(v, v, v)
}

/// Paint a whole tile, asking `value` for each pixel's grey.
fn paint(index: usize) -> (p: Pixmap)
    requires
        index < 8,
    ensures
        is_tile(p, index as int),
{
    let mut px: Vec<Rgba8> = Vec::with_capacity(4096);
    let mut i: usize = 0;
    while i < 4096
        invariant
            index < 8,
            i <= 4096,
            px@ =~= tile_pixels(index as int).subrange(0, i as int),
        decreases 4096 - i,
    {
        let x = (i % 64) as u32;
        let y = (i / 64) as u32;
        let v = value(index, x, y);
        px.push(shade(v));
        i = i + 1;
    }
    assert(px@ =~= tile_pixels(index as int));
    Pixmap::from_pixels(TILE, TILE, px)
}

/// The grey at `(x, y)` of the pattern at `index`.
fn value(index: usize, x: u32, y: u32) -> (v: u8)
    requires
        index < 8,
        x < 64,
        y < 64,
    ensures
        v == pattern_value(index as int, x as int, y as int),
{
    if index == 0 {
        let half: u32 = TILE / 2;
        if (x < half) != (y < half) {
            90
        } else {
            215
        }
    } else if index == 1 {
        if x < 2 || y < 2 {
            105
        } else {
            220
        }
    } else if index == 2 {
        let period: u32 = 16;
        if (x + y) % period < period / 2 {
            110
        } else {
            210
        }
    } else if index == 3 {
        if y % 8 < 3 {
            115
        } else {
            220
        }
    } else if index == 4 {
        polka_at(x, y)
    } else if index == 5 {
        woven_at(x, y)
    } else if index == 6 {
        bricks_at(x, y)
    } else {
        let h = hash(x, y);
        150 + (h % 80) as u8
    }
}

fn checkerboard() -> (p: Pixmap)
    ensures
        is_tile(p, 0),
{
    paint(0)
}

fn grid() -> (p: Pixmap)
    ensures
        is_tile(p, 1),
{
    paint(1)
}

fn diagonal_stripes() -> (p: Pixmap)
    ensures
        is_tile(p, 2),
{
    paint(2)
}

fn horizontal_lines() -> (p: Pixmap)
    ensures
        is_tile(p, 3),
{
    paint(3)
}

fn polka_dots() -> (p: Pixmap)
    ensures
        is_tile(p, 4),
{
    paint(4)
}

fn woven() -> (p: Pixmap)
    ensures
        is_tile(p, 5),
{
    paint(5)
}

fn bricks() -> (p: Pixmap)
    ensures
        is_tile(p, 6),
{
    paint(6)
}

fn grain() -> (p: Pixmap)
    ensures
        is_tile(p, 7),
{
    paint(7)
}

/// Twice the offset from centre `c` to the middle of pixel `p`, the short way
/// round the tile.
fn wrapped_delta(p: u32, c: u32) -> (d: i32)
    requires
        p < 64,
        c <= 64,
    ensures
        d == wrapped_twice(p as int, c as int),
        -64 <= d <= 64,
{
    let d = 2 * (p as i32) + 1 - 2 * (c as i32);
    if d > 64 {
        d - 128
    } else if d < -64 {
        d + 128
    } else {
        d
    }
}

proof fn lemma_square_monotonic(a: int, b: int)
    requires
        0 <= a <= b,
    ensures
        a * a <= b * b,
{
    assert(a * a <= b * b) by (nonlinear_arith)
        requires
            0 <= a <= b,
    ;
}

/// The rounded square root is the one integer that rounds to it.
proof fn lemma_rounded_sqrt(n: int, m: int)
    requires
        is_rounded_sqrt(n, m),
    ensures
        rounded_sqrt(n) == m,
{
    let k = rounded_sqrt(n);
    assert(is_rounded_sqrt(n, k));
    if k < m {
        lemma_square_monotonic(2 * k + 1, 2 * m - 1);
    } else if k > m {
        lemma_square_monotonic(2 * m + 1, 2 * k - 1);
    }
}

/// The grey over a dot's rim, for `289 < s < 361`.
fn rim_value(s: u32) -> (v: u8)
    requires
        289 < s < 361,
    ensures
        v == dot_value(s as int),
{
    let n: u64 = 3600 * s as u64;
    let mut m: u64 = 1020;
    assert((2 * 1020 - 1) * (2 * 1020 - 1) <= 4 * (3600 * 290));
    loop
        invariant
            289 < s < 361,
            n == 3600 * s,
            1020 <= m <= 1140,
            (2 * m - 1) * (2 * m - 1) <= 4 * n,
        ensures
            1020 <= m <= 1140,
            (2 * m - 1) * (2 * m - 1) <= 4 * n,
            4 * n < (2 * m + 1) * (2 * m + 1),
        decreases 1140 - m,
    {
        let odd = 2 * m + 1;
        assert(odd * odd <= 2281 * 2281) by {
            lemma_square_monotonic(odd as int, 2281);
        }
        if odd * odd > 4 * n {
            break;
        }
        proof {
            if m >= 1140 {
                lemma_square_monotonic(2281, odd as int);
            }
        }
        m = m + 1;
    }
    proof {
        lemma_rounded_sqrt(3600 * s as int, m as int);
    }
    (m - 920) as u8
}

/// The grey of the polka-dot tile at `(x, y)`.
fn polka_at(x: u32, y: u32) -> (v: u8)
    requires
        x < 64,
        y < 64,
    ensures
        v == polka_value(x as int, y as int),
{
    let centres: [(u32, u32); 4] = [(16, 16), (48, 16), (32, 48), (0, 48)];
    let mut k: usize = 0;
    while k < 4
        invariant
            x < 64,
            y < 64,
            k <= 4,
            centres@ == seq![(16u32, 16u32), (48u32, 16u32), (32u32, 48u32), (0u32, 48u32)],
            forall|j: int|
                0 <= j < k ==> dot_distance(x as int, y as int, centres@[j].0 as int, centres@[j].1 as int)
                    >= 361,
        decreases 4 - k,
    {
        let (cx, cy) = centres[k];
        let dx = wrapped_delta(x, cx);
        let dy = wrapped_delta(y, cy);
        assert(dx * dx <= 4096 && dy * dy <= 4096 && dx * dx >= 0 && dy * dy >= 0) by (nonlinear_arith)
            requires
                -64 <= dx <= 64,
                -64 <= dy <= 64,
        ;
        let s = (dx * dx + dy * dy) as u32;
        assert(s == dot_distance(x as int, y as int, cx as int, cy as int));
        if s < 361 {
            if s <= 289 {
                return 100;
            } else {
                return rim_value(s);
            }
        }
        k = k + 1;
    }
    220
}

fn woven_at(x: u32, y: u32) -> (v: u8)
    requires
        x < 64,
        y < 64,
    ensures
        v == woven_value(x as int, y as int),
{
    let cell: u32 = 16;
    let (cx, cy) = (x % cell, y % cell);
    let (col, row) = (x / cell, y / cell);
    // Alternating cells put the horizontal thread on top of the vertical one,
    // which is what makes it read as weaving rather than as a grid.
    let horizontal_on_top = (col + row) % 2 == 0;
    let in_horizontal = cy >= 3 && cy < cell - 3;
    let in_vertical = cx >= 3 && cx < cell - 3;
    if horizontal_on_top && in_horizontal {
        190
    } else if !horizontal_on_top && in_vertical {
        190
    } else if in_horizontal || in_vertical {
        140
    } else {
        95
    }
}

fn bricks_at(x: u32, y: u32) -> (v: u8)
    requires
        x < 64,
        y < 64,
    ensures
        v == bricks_value(x as int, y as int),
{
    let (bw, bh): (u32, u32) = (32, 16);
    let mortar: u32 = 3;
    let course = y / bh;
    // Every other course is offset by half a brick — the running bond.
    let shift = if course % 2 == 0 {
        0
    } else {
        bw / 2
    };
    if y % bh < mortar || (x + shift) % bw < mortar {
        205
    } else {
        120
    }
}

/// A small integer hash, for the grain tile.
fn hash(x: u32, y: u32) -> (h: u32)
    ensures
        h == hash_value(x, y),
{
    let mut h = x.wrapping_mul(0x9E37_79B9) ^ y.wrapping_mul(0x85EB_CA6B);
    h = h ^ (h >> 13);
    h = h.wrapping_mul(0xC2B2_AE35);
    h ^ (h >> 16)
}

/// Render the pattern at `index`, or `None` if there is no such pattern.
pub fn tile(index: usize) -> (t: Option<Pixmap>)
    ensures
        index < 8 ==> t is Some && is_tile(t->Some_0, index as int),
        index >= 8 ==> t is None,
{
    if index >= PATTERN_NAMES.len() {
        return None;
    }
    Some(
        if index == 0 {
            checkerboard()
        } else if index == 1 {
            grid()
        } else if index == 2 {
            diagonal_stripes()
        } else if index == 3 {
            horizontal_lines()
        } else if index == 4 {
            polka_dots()
        } else if index == 5 {
            woven()
        } else if index == 6 {
            bricks()
        } else {
            grain()
        },
    )
}

/// The names, as text.
pub open spec fn pattern_names() -> Seq<Seq<char>> {
    PATTERN_NAMES@.map_values(|n: &str| n@)
}

/// The pattern's index by name, for settings that store the name rather than a
/// position in the list.
pub fn index_of(name: &str) -> (r: Option<usize>)
    ensures
        match r {
            Some(i) => i < 8 && pattern_names()[i as int] == name@ && forall|j: int|
                0 <= j < i ==> pattern_names()[j] != name@,
            None => forall|j: int| 0 <= j < 8 ==> pattern_names()[j] != name@,
        },
{
    let mut i: usize = 0;
    while i < PATTERN_NAMES.len()
        invariant
            i <= 8,
            forall|j: int| 0 <= j < i ==> pattern_names()[j] != name@,
        decreases 8 - i,
    {
        if same_text(PATTERN_NAMES[i], name) {
            return Some(i);
        }
        i = i + 1;
    }
    None
}


/// How many columns (or rows) of a `size` the tiling loop covers: counting
/// runs over `i32`, so a side too long for one covers none.
pub open spec fn span(n: u32) -> int {
    if n <= i32::MAX {
        n as int
    } else {
        0
    }
}

/// The pixel at `(x, y)` of `size` pixels filled with the pattern at `index`
/// repeated from `origin`: the tile's top-left corner lands on `origin` and on
/// every whole number of tiles away from it, in both directions.
pub open spec fn tiled_pixel(index: int, size: (u32, u32), origin: (i32, i32), x: int, y: int) -> Rgba8 {
    if x < span(size.0) && y < span(size.1) {
        grey(pattern_value(index, (x - origin.0) % 64, (y - origin.1) % 64))
    } else {
        Rgba8 { r: 0, g: 0, b: 0, a: 0 }
    }
}

/// All the pixels of a tiling, row by row.
pub open spec fn tiled_pixels(index: int, size: (u32, u32), origin: (i32, i32)) -> Seq<Rgba8> {
    Seq::new(
        (size.0 as int * size.1 as int) as nat,
        |i: int| tiled_pixel(index, size, origin, i % (size.0 as int), i / (size.0 as int)),
    )
}

/// Where `p`, counted from `origin`, falls in the tile.
fn tile_offset(p: u32, origin: i32) -> (t: u32)
    ensures
        t == (p as int - origin as int) % 64,
        t < 64,
{
    let d: i64 = p as i64 - origin as i64;
    // Shifting by a whole number of tiles keeps the remainder and makes the
    // dividend non-negative, so a point left of or above the origin wraps round
    // instead of indexing backwards.
    let u: u64 = (d + 4294967296) as u64;
    (u % 64) as u32
}

/// Fill `size` pixels with the pattern repeated from `origin`, or `None` if
/// there is no such pattern.
///
/// `origin` is the document point the tile's top-left corner lands on, which is
/// what the Aligned option decides: aligned pins it to the document, so
/// separate strokes join up seamlessly, and unaligned pins it to wherever each
/// stroke began.
pub fn tiled(index: usize, size: (u32, u32), origin: (i32, i32)) -> (r: Option<Pixmap>)
    requires
        size.0 as int * size.1 as int <= usize::MAX,
    ensures
        index < 8 ==> r is Some && r->Some_0.is(
            size.0 as int,
            size.1 as int,
            tiled_pixels(index as int, size, origin),
        ),
        index < 8 ==> forall|x: int, y: int|
            0 <= x < size.0 && 0 <= y < size.1 ==> #[trigger] r->Some_0.at(x, y) == tiled_pixel(
                index as int,
                size,
                origin,
                x,
                y,
            ),
        index >= 8 ==> r is None,
{
    let tile = match tile(index) {
        Some(t) => t,
        None => return None,
    };
    let (tw, th) = (tile.width(), tile.height());
    if tw == 0 || th == 0 {
        return None;
    }
    let (w, h) = (size.0, size.1);
    // The rows and columns the loops reach: a side past `i32::MAX` reaches none.
    let cols: u32 = if w <= 2147483647 {
        w
    } else {
        0
    };
    let rows: u32 = if h <= 2147483647 {
        h
    } else {
        0
    };
    let n = (w as usize) * (h as usize);
    let mut px: Vec<Rgba8> = Vec::with_capacity(n);
    let mut i: usize = 0;
    while i < n
        invariant
            index < 8,
            is_tile(tile, index as int),
            n == w as int * h as int,
            cols == span(w),
            rows == span(h),
            i <= n,
            px@ =~= tiled_pixels(index as int, (w, h), origin).subrange(0, i as int),
        decreases n - i,
    {
        proof {
            lemma_flat_index(i as int, w as int, h as int);
        }
        let x = (i % (w as usize)) as u32;
        let y = (i / (w as usize)) as u32;
        if x < cols && y < rows {
            let tx = tile_offset(x, origin.0);
            let ty = tile_offset(y, origin.1);
            let c = tile.get(tx as i32, ty as i32);
            proof {
                assert(ty * 64 + tx < 4096);
                assert(tile_pixels(index as int)[ty * 64 + tx] == grey(
                    pattern_value(index as int, tx as int, ty as int),
                ));
            }
            px.push(c);
        } else {
            px.push(Rgba8::transparent());
        }
        i = i + 1;
    }
    assert(px@ =~= tiled_pixels(index as int, (w, h), origin));
    let out = Pixmap::from_pixels(w, h, px);
    proof {
        assert forall|x: int, y: int| 0 <= x < w && 0 <= y < h implies #[trigger] out.at(x, y)
            == tiled_pixel(index as int, size, origin, x, y) by {
            crate::buffer::lemma_row_index(x, y, w as int, h as int);
            crate::buffer::lemma_index_parts(x, y, w as int);
        }
    }
    Some(out)
}

/// A tiling repeats every tile width across and every tile height down,
/// within the part of the canvas it covers.
pub proof fn law_tiled_repeats(index: int, size: (u32, u32), origin: (i32, i32), x: int, y: int)
    requires
        0 <= x,
        0 <= y,
        x + 64 < span(size.0),
        y + 64 < span(size.1),
    ensures
        tiled_pixel(index, size, origin, x + 64, y) == tiled_pixel(index, size, origin, x, y),
        tiled_pixel(index, size, origin, x, y + 64) == tiled_pixel(index, size, origin, x, y),
{
    assert((x + 64 - origin.0) % 64 == (x - origin.0) % 64);
    assert((y + 64 - origin.1) % 64 == (y - origin.1) % 64);
}

/// The tile's own top-left pixel is what lands on `origin`, whenever the
/// origin lies on the canvas.
pub proof fn law_tiled_starts_at_origin(index: int, size: (u32, u32), origin: (i32, i32))
    requires
        0 <= origin.0 < span(size.0),
        0 <= origin.1 < span(size.1),
    ensures
        tiled_pixel(index, size, origin, origin.0 as int, origin.1 as int) == grey(
            pattern_value(index, 0, 0),
        ),
{
}

} // verus!
