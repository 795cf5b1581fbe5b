//! RGBA8 pixel buffers and rectangles.
//!
//! Colour is straight (non-premultiplied) alpha. A [`Pixmap`] is stored row
//! by row, top row first, one [`Rgba8`] per pixel.

use vstd::prelude::*;

use crate::metadata::Orientation;

verus! {

/// One straight-alpha pixel.
#[derive(Clone, Copy, PartialEq, Eq, Debug, Structural)]
pub struct Rgba8 {
    pub r: u8,
    pub g: u8,
    pub b: u8,
    pub a: u8,
}

impl Rgba8 {
    /// No colour and no coverage.
    pub fn transparent() -> (c: Rgba8)
        ensures
            c == clear_px(),
    {
        Rgba8 { r: 0, g: 0, b: 0, a: 0 }
    }

    pub fn white() -> (c: Rgba8)
        ensures
            c == (Rgba8 { r: 255, g: 255, b: 255, a: 255 }),
    {
        Rgba8 { r: 255, g: 255, b: 255, a: 255 }
    }

    pub fn black() -> (c: Rgba8)
        ensures
            c == (Rgba8 { r: 0, g: 0, b: 0, a: 255 }),
    {
        Rgba8 { r: 0, g: 0, b: 0, a: 255 }
    }

    pub fn new(r: u8, g: u8, b: u8, a: u8) -> (c: Rgba8)
        ensures
            c == (Rgba8 { r, g, b, a }),
    {
        Rgba8 { r, g, b, a }
    }

    /// A fully opaque colour.
    pub fn opaque(r: u8, g: u8, b: u8) -> (c: Rgba8)
        ensures
            c == (Rgba8 { r, g, b, a: 255 }),
    {
        Rgba8 { r, g, b, a: 255 }
    }

    /// Channel `c` in file order: 0 red, 1 green, 2 blue, 3 alpha.
    pub open spec fn channel_spec(self, c: int) -> u8 {
        if c == 0 {
            self.r
        } else if c == 1 {
            self.g
        } else if c == 2 {
            self.b
        } else {
            self.a
        }
    }

    pub fn channel(&self, c: usize) -> (v: u8)
        requires
            c < 4,
        ensures
            v == self.channel_spec(c as int),
    {
        if c == 0 {
            self.r
        } else if c == 1 {
            self.g
        } else if c == 2 {
            self.b
        } else {
            self.a
        }
    }
}

pub open spec fn clear_px() -> Rgba8 {
    Rgba8 { r: 0, g: 0, b: 0, a: 0 }
}

/// The bytes `n` pixels take, saturating at `usize::MAX`.
pub open spec fn bytes_of(n: int) -> int {
    if 4 * n <= usize::MAX {
        4 * n
    } else {
        usize::MAX as int
    }
}

/// An axis-aligned rectangle of pixels.
#[derive(Clone, Copy, PartialEq, Eq, Debug, Structural)]
pub struct Rect {
    pub x: i32,
    pub y: i32,
    pub width: u32,
    pub height: u32,
}

impl Rect {
    pub fn new(x: i32, y: i32, width: u32, height: u32) -> (r: Rect)
        ensures
            r == (Rect { x, y, width, height }),
    {
        Rect { x, y, width, height }
    }

    /// One past the last column, as a mathematical integer.
    pub open spec fn right_edge(self) -> int {
        self.x + self.width
    }

    /// One past the last row, as a mathematical integer.
    pub open spec fn bottom_edge(self) -> int {
        self.y + self.height
    }

    /// Whether the rectangle has no pixels.
    pub open spec fn empty(self) -> bool {
        self.width == 0 || self.height == 0
    }

    /// Whether `(px, py)` is one of the rectangle's pixels.
    pub open spec fn holds(self, px: int, py: int) -> bool {
        self.x <= px < self.right_edge() && self.y <= py < self.bottom_edge()
    }

    /// Whether the smallest rectangle holding both has a width and a height
    /// that fit in `u32`.
    pub open spec fn spans_fit(self, other: Rect) -> bool {
        &&& self.right_edge() - other.x <= u32::MAX
        &&& other.right_edge() - self.x <= u32::MAX
        &&& self.bottom_edge() - other.y <= u32::MAX
        &&& other.bottom_edge() - self.y <= u32::MAX
    }

    /// One past the last column.
    pub fn right(&self) -> (r: i32)
        requires
            self.right_edge() <= i32::MAX,
        ensures
            r == self.right_edge(),
    {
        (self.x as i64 + self.width as i64) as i32
    }

    /// One past the last row.
    pub fn bottom(&self) -> (r: i32)
        requires
            self.bottom_edge() <= i32::MAX,
        ensures
            r == self.bottom_edge(),
    {
        (self.y as i64 + self.height as i64) as i32
    }

    pub fn is_empty(&self) -> (r: bool)
        ensures
            r == self.empty(),
    {
        self.width == 0 || self.height == 0
    }

    pub fn contains(&self, px: i32, py: i32) -> (r: bool)
        ensures
            r == self.holds(px as int, py as int),
    {
        let (x, y, w, h) = (self.x as i64, self.y as i64, self.width as i64, self.height as i64);
        (px as i64) >= x && (py as i64) >= y && (px as i64) < x + w && (py as i64) < y + h
    }

    /// The pixels both rectangles hold, or the empty rectangle at the origin
    /// when they share none.
    pub fn intersect(&self, other: &Rect) -> (r: Rect)
        ensures
            forall|px: int, py: int| r.holds(px, py) <==> (self.holds(px, py) && other.holds(px, py)),
            r.empty() ==> r == (Rect { x: 0, y: 0, width: 0, height: 0 }),
    {
        let x0 = if self.x > other.x { self.x } else { other.x };
        let y0 = if self.y > other.y { self.y } else { other.y };
        let r1 = self.x as i64 + self.width as i64;
        let r2 = other.x as i64 + other.width as i64;
        let b1 = self.y as i64 + self.height as i64;
        let b2 = other.y as i64 + other.height as i64;
        let x1 = if r1 < r2 { r1 } else { r2 };
        let y1 = if b1 < b2 { b1 } else { b2 };
        if x1 <= x0 as i64 || y1 <= y0 as i64 {
            return Rect { x: 0, y: 0, width: 0, height: 0 };
        }
        Rect { x: x0, y: y0, width: (x1 - x0 as i64) as u32, height: (y1 - y0 as i64) as u32 }
    }

    /// The smallest rectangle holding both; an empty one adds nothing.
    pub fn union(&self, other: &Rect) -> (r: Rect)
        requires
            !self.empty() && !other.empty() ==> self.spans_fit(*other),
        ensures
            self.empty() ==> r == *other,
            !self.empty() && other.empty() ==> r == *self,
            !self.empty() && !other.empty() ==> {
                &&& r.x == if self.x < other.x { self.x } else { other.x }
                &&& r.y == if self.y < other.y { self.y } else { other.y }
                &&& r.right_edge() == if self.right_edge() > other.right_edge() {
                    self.right_edge()
                } else {
                    other.right_edge()
                }
                &&& r.bottom_edge() == if self.bottom_edge() > other.bottom_edge() {
                    self.bottom_edge()
                } else {
                    other.bottom_edge()
                }
            },
    {
        if self.width == 0 || self.height == 0 {
            return *other;
        }
        if other.width == 0 || other.height == 0 {
            return *self;
        }
        let x0 = if self.x < other.x { self.x } else { other.x };
        let y0 = if self.y < other.y { self.y } else { other.y };
        let r1 = self.x as i64 + self.width as i64;
        let r2 = other.x as i64 + other.width as i64;
        let b1 = self.y as i64 + self.height as i64;
        let b2 = other.y as i64 + other.height as i64;
        let x1 = if r1 > r2 { r1 } else { r2 };
        let y1 = if b1 > b2 { b1 } else { b2 };
        Rect { x: x0, y: y0, width: (x1 - x0 as i64) as u32, height: (y1 - y0 as i64) as u32 }
    }

    /// The rectangle grown by `n` pixels on every side.
    pub fn inflate(&self, n: u32) -> (r: Rect)
        requires
            self.x - n >= i32::MIN,
            self.y - n >= i32::MIN,
            self.width + 2 * n <= u32::MAX,
            self.height + 2 * n <= u32::MAX,
        ensures
            r == (Rect {
                x: (self.x - n) as i32,
                y: (self.y - n) as i32,
                width: (self.width + 2 * n) as u32,
                height: (self.height + 2 * n) as u32,
            }),
    {
        Rect {
            x: (self.x as i64 - n as i64) as i32,
            y: (self.y as i64 - n as i64) as i32,
            width: (self.width as u64 + 2 * n as u64) as u32,
            height: (self.height as u64 + 2 * n as u64) as u32,
        }
    }
}

impl Default for Rect {
    /// The empty rectangle at the origin.
    fn default() -> (r: Rect)
        ensures
            r == (Rect { x: 0, y: 0, width: 0, height: 0 }),
    {
        Rect { x: 0, y: 0, width: 0, height: 0 }
    }
}

/// A width x height image, row-major.
#[derive(Debug)]
pub struct Pixmap {
    width: u32,
    height: u32,
    pixels: Vec<Rgba8>,
}

impl Pixmap {
    #[verifier::type_invariant]
    spec fn sized(&self) -> bool {
        self.pixels@.len() == self.width as int * self.height as int
    }

    pub closed spec fn w(&self) -> u32 {
        self.width
    }

    pub closed spec fn h(&self) -> u32 {
        self.height
    }

    /// Every pixel, row by row.
    pub closed spec fn pixels(&self) -> Seq<Rgba8> {
        self.pixels@
    }

    /// The pixel at `(x, y)`, or transparent outside the image.
    pub open spec fn at(&self, x: int, y: int) -> Rgba8 {
        if 0 <= x < self.w() && 0 <= y < self.h() {
            self.pixels()[y * self.w() + x]
        } else {
            clear_px()
        }
    }

    /// Whether `p` is a `w` x `h` image holding `pixels`.
    pub open spec fn is(&self, w: int, h: int, pixels: Seq<Rgba8>) -> bool {
        &&& self.w() == w
        &&& self.h() == h
        &&& self.pixels() == pixels
    }

    /// A transparent image. The pixel count has to fit in memory.
    pub fn new(width: u32, height: u32) -> (p: Pixmap)
        requires
            width as int * height as int <= usize::MAX,
        ensures
            p.is(
                width as int,
                height as int,
                Seq::new((width as int * height as int) as nat, |i: int| clear_px()),
            ),
    {
        Pixmap::filled(width, height, Rgba8 { r: 0, g: 0, b: 0, a: 0 })
    }

    /// An image of one colour.
    pub fn filled(width: u32, height: u32, color: Rgba8) -> (p: Pixmap)
        requires
            width as int * height as int <= usize::MAX,
        ensures
            p.is(
                width as int,
                height as int,
                Seq::new((width as int * height as int) as nat, |i: int| color),
            ),
    {
        let n = (width as usize) * (height as usize);
        let mut pixels: Vec<Rgba8> = Vec::with_capacity(n);
        let mut i: usize = 0;
        while i < n
            invariant
                i <= n,
                pixels@ =~= Seq::new(i as nat, |k: int| color),
            decreases n - i,
        {
            pixels.push(color);
            i = i + 1;
        }
        Pixmap { width, height, pixels }
    }

    /// An image built from `pixels`, which has to hold exactly `width * height`.
    pub fn from_pixels(width: u32, height: u32, pixels: Vec<Rgba8>) -> (p: Pixmap)
        requires
            pixels@.len() == width as int * height as int,
        ensures
            p.is(width as int, height as int, pixels@),
    {
        Pixmap { width, height, pixels }
    }

    pub fn width(&self) -> (r: u32)
        ensures
            r == self.w(),
    {
        self.width
    }

    pub fn height(&self) -> (r: u32)
        ensures
            r == self.h(),
    {
        self.height
    }

    /// The memory the pixels take, four bytes each. The count saturates at
    /// `usize::MAX`, which no image held in memory comes near.
    pub fn byte_size(&self) -> (r: usize)
        ensures
            r == bytes_of(self.pixels().len() as int),
    {
        proof {
            use_type_invariant(self);
        }
        let n = self.pixels.len();
        if n <= usize::MAX / 4 {
            n * 4
        } else {
            usize::MAX
        }
    }

    /// The number of pixels, `width * height`.
    pub fn len(&self) -> (r: usize)
        ensures
            r == self.pixels().len(),
            r == self.w() as int * self.h() as int,
    {
        proof {
            use_type_invariant(self);
        }
        self.pixels.len()
    }

    /// Whether the image has no pixels at all.
    pub fn is_empty(&self) -> (r: bool)
        ensures
            r == (self.w() == 0 || self.h() == 0),
    {
        proof {
            use_type_invariant(self);
            assert(self.w() == 0 || self.h() == 0 <==> self.w() as int * self.h() as int == 0)
                by (nonlinear_arith);
        }
        self.pixels.len() == 0
    }

    /// The `i`th pixel in row order.
    pub fn pixel(&self, i: usize) -> (c: Rgba8)
        requires
            i < self.pixels().len(),
        ensures
            c == self.pixels()[i as int],
    {
        self.pixels[i]
    }

    /// The whole rectangle the image covers.
    pub fn rect(&self) -> (r: Rect)
        ensures
            r == (Rect { x: 0, y: 0, width: self.w(), height: self.h() }),
    {
        Rect { x: 0, y: 0, width: self.width, height: self.height }
    }

    /// The pixel at `(x, y)`; transparent outside the image.
    pub fn get(&self, x: i32, y: i32) -> (c: Rgba8)
        ensures
            c == self.at(x as int, y as int),
    {
        proof {
            use_type_invariant(self);
        }
        if x < 0 || y < 0 || x as u32 >= self.width || y as u32 >= self.height {
            return Rgba8 { r: 0, g: 0, b: 0, a: 0 };
        }
        let (xu, yu) = (x as usize, y as usize);
        let _n = self.pixels.len();
        proof {
            lemma_row_index(xu as int, yu as int, self.width as int, self.height as int);
        }
        self.pixels[yu * (self.width as usize) + xu]
    }

    /// Write the pixel at `(x, y)`. Writes outside the image are dropped.
    pub fn set(&mut self, x: i32, y: i32, c: Rgba8)
        ensures
            final(self).w() == old(self).w(),
            final(self).h() == old(self).h(),
            final(self).pixels() == (if 0 <= x < old(self).w() && 0 <= y < old(self).h() {
                old(self).pixels().update(y as int * old(self).w() + x as int, c)
            } else {
                old(self).pixels()
            }),
    no_unwind
    {
        proof {
            use_type_invariant(&*self);
        }
        if x < 0 || y < 0 || x as u32 >= self.width || y as u32 >= self.height {
            return;
        }
        let (xu, yu) = (x as usize, y as usize);
        let _n = self.pixels.len();
        proof {
            lemma_row_index(xu as int, yu as int, self.width as int, self.height as int);
        }
        let i = yu * (self.width as usize) + xu;
        self.pixels[i] = c;
    }

    /// The bytes, four per pixel in RGBA order.
    pub fn as_bytes(&self) -> (bytes: Vec<u8>)
        ensures
            bytes@.len() == 4 * self.pixels().len(),
            forall|i: int, c: int|
                0 <= i < self.pixels().len() && 0 <= c < 4 ==> #[trigger] bytes@[4 * i + c]
                    == self.pixels()[i].channel_spec(c),
    {
        let n = self.pixels.len();
        let mut bytes: Vec<u8> = Vec::new();
        let mut i: usize = 0;
        while i < n
            invariant
                n == self.pixels@.len(),
                i <= n,
                bytes@.len() == 4 * i,
                forall|k: int, c: int|
                    0 <= k < i && 0 <= c < 4 ==> #[trigger] bytes@[4 * k + c]
                        == self.pixels@[k].channel_spec(c),
            decreases n - i,
        {
            let p = self.pixels[i];
            bytes.push(p.r);
            bytes.push(p.g);
            bytes.push(p.b);
            bytes.push(p.a);
            proof {
                assert forall|k: int, c: int|
                    0 <= k < i + 1 && 0 <= c < 4 implies #[trigger] bytes@[4 * k + c]
                        == self.pixels@[k].channel_spec(c) by {
                    if k == i {
                        assert(4 * k + c == 4 * i + c);
                    }
                }
            }
            i = i + 1;
        }
        bytes
    }
}

impl Clone for Pixmap {
    fn clone(&self) -> (p: Self)
        ensures
            p.is(self.w() as int, self.h() as int, self.pixels()),
    {
        proof {
            use_type_invariant(self);
        }
        let n = self.pixels.len();
        let mut pixels: Vec<Rgba8> = Vec::with_capacity(n);
        let mut i: usize = 0;
        while i < n
            invariant
                n == self.pixels@.len(),
                i <= n,
                pixels@ =~= self.pixels@.subrange(0, i as int),
            decreases n - i,
        {
            pixels.push(self.pixels[i]);
            i = i + 1;
        }
        assert(pixels@ =~= self.pixels@);
        Pixmap { width: self.width, height: self.height, pixels }
    }
}

/// Row-major indexing stays inside the image.
pub proof fn lemma_row_index(x: int, y: int, w: int, h: int)
    requires
        0 <= x < w,
        0 <= y < h,
    ensures
        0 <= y * w + x < w * h,
        0 <= y * w <= y * w + x,
{
    assert(y * w + x < w * h) by (nonlinear_arith)
        requires
            0 <= x < w,
            0 <= y < h,
    ;
    assert(0 <= y * w) by (nonlinear_arith)
        requires
            0 <= y,
            0 <= w,
    ;
}


/// A flat index into a `w`-wide, `h`-high image is a column and a row inside
/// it.
pub proof fn lemma_flat_index(i: int, w: int, h: int)
    requires
        0 <= i < w * h,
        w >= 0,
        h >= 0,
    ensures
        w > 0,
        0 <= i % w < w,
        0 <= i / w < h,
{
    assert(w > 0) by (nonlinear_arith)
        requires
            0 <= i < w * h,
            w >= 0,
            h >= 0,
    ;
    assert(i / w < h) by (nonlinear_arith)
        requires
            0 <= i < w * h,
            w > 0,
    ;
}

/// The column and row of a flat index read back.
pub proof fn lemma_index_parts(x: int, y: int, w: int)
    requires
        0 <= x < w,
        0 <= y,
    ensures
        (y * w + x) % w == x,
        (y * w + x) / w == y,
{
    vstd::arithmetic::div_mod::lemma_fundamental_div_mod_converse(y * w + x, w, y, x);
}

/// The width and height an image of `w` x `h` has once turned by `o`.
pub open spec fn oriented_size(o: Orientation, w: int, h: int) -> (int, int) {
    match o {
        Orientation::Transpose | Orientation::Rotate90Cw | Orientation::Transverse
        | Orientation::Rotate90Ccw => (h, w),
        _ => (w, h),
    }
}

/// Where pixel `(x, y)` of a `w` x `h` image turned by `o` comes from in the
/// image before it was turned. A clockwise quarter turn, for one, takes
/// `(x, y)` to `(h - 1 - y, x)`.
pub open spec fn source_of(o: Orientation, w: int, h: int, x: int, y: int) -> (int, int) {
    match o {
        Orientation::Upright => (x, y),
        Orientation::FlipHorizontal => (w - 1 - x, y),
        Orientation::Rotate180 => (w - 1 - x, h - 1 - y),
        Orientation::FlipVertical => (x, h - 1 - y),
        Orientation::Transpose => (y, x),
        Orientation::Rotate90Cw => (y, h - 1 - x),
        Orientation::Transverse => (w - 1 - y, h - 1 - x),
        Orientation::Rotate90Ccw => (w - 1 - y, x),
    }
}

fn source_xy(o: Orientation, w: u32, h: u32, x: u32, y: u32) -> (r: (u32, u32))
    requires
        0 <= x < oriented_size(o, w as int, h as int).0,
        0 <= y < oriented_size(o, w as int, h as int).1,
    ensures
        (r.0 as int, r.1 as int) == source_of(o, w as int, h as int, x as int, y as int),
        r.0 < w,
        r.1 < h,
{
    match o {
        Orientation::Upright => (x, y),
        Orientation::FlipHorizontal => (w - 1 - x, y),
        Orientation::Rotate180 => (w - 1 - x, h - 1 - y),
        Orientation::FlipVertical => (x, h - 1 - y),
        Orientation::Transpose => (y, x),
        Orientation::Rotate90Cw => (y, h - 1 - x),
        Orientation::Transverse => (w - 1 - y, h - 1 - x),
        Orientation::Rotate90Ccw => (w - 1 - y, x),
    }
}

impl Pixmap {
    /// The pixels of `self` turned by `o`, row by row.
    pub open spec fn turned_pixels(&self, o: Orientation) -> Seq<Rgba8> {
        let (ow, oh) = oriented_size(o, self.w() as int, self.h() as int);
        Seq::new(
            (ow * oh) as nat,
            |i: int| {
                let (sx, sy) = source_of(o, self.w() as int, self.h() as int, i % ow, i / ow);
                self.at(sx, sy)
            },
        )
    }

    /// The image turned or mirrored by `o`. Right angles and flips only
    /// permute the pixels there are, so nothing is resampled.
    pub fn transformed(&self, o: Orientation) -> (out: Pixmap)
        ensures
            out.is(
                oriented_size(o, self.w() as int, self.h() as int).0,
                oriented_size(o, self.w() as int, self.h() as int).1,
                self.turned_pixels(o),
            ),
            forall|x: int, y: int|
                0 <= x < out.w() && 0 <= y < out.h() ==> #[trigger] out.at(x, y) == {
                    let (sx, sy) = source_of(o, self.w() as int, self.h() as int, x, y);
                    self.at(sx, sy)
                },
    {
        proof {
            use_type_invariant(self);
        }
        let (w, h) = (self.width, self.height);
        let (ow, oh) = match o {
            Orientation::Transpose | Orientation::Rotate90Cw | Orientation::Transverse
            | Orientation::Rotate90Ccw => (h, w),
            _ => (w, h),
        };
        let n = self.pixels.len();
        assert(n == ow as int * oh as int) by (nonlinear_arith)
            requires
                n == w as int * h as int,
                (ow == w && oh == h) || (ow == h && oh == w),
        ;
        let mut px: Vec<Rgba8> = Vec::with_capacity(n);
        let mut i: usize = 0;
        while i < n
            invariant
                n == self.pixels@.len(),
                n == ow as int * oh as int,
                n == w as int * h as int,
                w == self.w(),
                h == self.h(),
                (ow as int, oh as int) == oriented_size(o, w as int, h as int),
                i <= n,
                px@ =~= self.turned_pixels(o).subrange(0, i as int),
            decreases n - i,
        {
            proof {
                lemma_flat_index(i as int, ow as int, oh as int);
            }
            let x = (i % (ow as usize)) as u32;
            let y = (i / (ow as usize)) as u32;
            let (sx, sy) = source_xy(o, w, h, x, y);
            proof {
                lemma_row_index(sx as int, sy as int, w as int, h as int);
            }
            let c = self.pixels[(sy as usize) * (w as usize) + (sx as usize)];
            px.push(c);
            i = i + 1;
        }
        let out = Pixmap { width: ow, height: oh, pixels: px };
        proof {
            assert(px@ =~= self.turned_pixels(o));
            assert forall|x: int, y: int| 0 <= x < out.w() && 0 <= y < out.h() implies #[trigger] out.at(x, y) == {
                let (sx, sy) = source_of(o, self.w() as int, self.h() as int, x, y);
                self.at(sx, sy)
            } by {
                lemma_row_index(x, y, ow as int, oh as int);
                lemma_index_parts(x, y, ow as int);
            }
        }
        out
    }
}


/// A quarter turn back undoes a quarter turn: every pixel of the image a
/// clockwise turn makes, turned back, comes from where it started.
pub proof fn law_quarter_turns_undo_each_other(w: int, h: int, x: int, y: int)
    requires
        0 <= x < w,
        0 <= y < h,
    ensures
        ({
            let (a, b) = source_of(Orientation::Rotate90Ccw, h, w, x, y);
            &&& 0 <= a < h && 0 <= b < w
            &&& source_of(Orientation::Rotate90Cw, w, h, a, b) == (x, y)
        }),
        ({
            let (a, b) = source_of(Orientation::Rotate90Cw, h, w, x, y);
            &&& 0 <= a < h && 0 <= b < w
            &&& source_of(Orientation::Rotate90Ccw, w, h, a, b) == (x, y)
        }),
{
}

/// Turning halfway and every mirror are their own inverses.
pub proof fn law_half_turns_and_mirrors_undo_themselves(o: Orientation, w: int, h: int, x: int, y: int)
    requires
        o == Orientation::Rotate180 || o == Orientation::FlipHorizontal || o == Orientation::FlipVertical
            || o == Orientation::Transpose || o == Orientation::Transverse,
        0 <= x < w,
        0 <= y < h,
    ensures
        ({
            let (ow, oh) = oriented_size(o, w, h);
            let (a, b) = source_of(o, ow, oh, x, y);
            source_of(o, w, h, a, b) == (x, y)
        }),
{
}


/// A colour channel scaled by an alpha, both in 255ths, rounded to nearest.
pub open spec fn scaled(c: u8, a: u8) -> u8 {
    ((c as int * a as int + 127) / 255) as u8
}

/// A premultiplied channel back in straight alpha, rounded to nearest and
/// capped at full.
pub open spec fn unscaled(c: u8, a: u8) -> u8 {
    let v = (c as int * 255 + a as int / 2) / a as int;
    if v > 255 {
        255
    } else {
        v as u8
    }
}

/// `p` with its colour premultiplied by its alpha.
pub open spec fn premultiplied_px(p: Rgba8) -> Rgba8 {
    Rgba8 { r: scaled(p.r, p.a), g: scaled(p.g, p.a), b: scaled(p.b, p.a), a: p.a }
}

/// A premultiplied `p` back in straight alpha: a fully transparent pixel has
/// no colour to recover and becomes transparent black.
pub open spec fn unpremultiplied_px(p: Rgba8) -> Rgba8 {
    if p.a == 0 {
        clear_px()
    } else {
        Rgba8 { r: unscaled(p.r, p.a), g: unscaled(p.g, p.a), b: unscaled(p.b, p.a), a: p.a }
    }
}

fn scale_channel(c: u8, a: u8) -> (r: u8)
    ensures
        r == scaled(c, a),
{
    assert(c as int * a as int + 127 <= 255 * 255 + 127 && 0 <= c as int * a as int) by (nonlinear_arith);
    assert((c as int * a as int + 127) / 255 <= 255) by (nonlinear_arith)
        requires
            c as int * a as int + 127 <= 255 * 255 + 127,
            0 <= c as int * a as int,
    ;
    ((c as u32 * a as u32 + 127) / 255) as u8
}

fn unscale_channel(c: u8, a: u8) -> (r: u8)
    requires
        a > 0,
    ensures
        r == unscaled(c, a),
{
    let v = (c as u32 * 255 + a as u32 / 2) / a as u32;
    if v > 255 {
        255
    } else {
        v as u8
    }
}

/// `p` with its colour premultiplied by its alpha.
pub fn premultiply_pixel(p: Rgba8) -> (q: Rgba8)
    ensures
        q == premultiplied_px(p),
{
    Rgba8 { r: scale_channel(p.r, p.a), g: scale_channel(p.g, p.a), b: scale_channel(p.b, p.a), a: p.a }
}

/// A premultiplied `p` back in straight alpha.
pub fn unpremultiply_pixel(p: Rgba8) -> (q: Rgba8)
    ensures
        q == unpremultiplied_px(p),
{
    if p.a == 0 {
        return Rgba8 { r: 0, g: 0, b: 0, a: 0 };
    }
    Rgba8 { r: unscale_channel(p.r, p.a), g: unscale_channel(p.g, p.a), b: unscale_channel(p.b, p.a), a: p.a }
}

/// Premultiplying keeps a pixel's alpha, and a fully opaque pixel whole.
pub proof fn law_premultiplying_keeps_alpha_and_opaque_pixels(p: Rgba8)
    ensures
        premultiplied_px(p).a == p.a,
        p.a == 255 ==> premultiplied_px(p) == p,
        p.a == 255 ==> unpremultiplied_px(p) == p,
{
    if p.a == 255 {
        assert((p.r as int * 255 + 127) / 255 == p.r as int);
        assert((p.g as int * 255 + 127) / 255 == p.g as int);
        assert((p.b as int * 255 + 127) / 255 == p.b as int);
        assert((p.r as int * 255 + 127) / 255 == p.r as int);
    }
}

impl Pixmap {
    /// Every pixel with its colour premultiplied by its alpha: the form
    /// filtering works in, so that transparent pixels do not bleed their colour
    /// into visible ones. The image is otherwise straight alpha throughout.
    pub fn premultiply(&mut self)
        ensures
            final(self).w() == old(self).w(),
            final(self).h() == old(self).h(),
            final(self).pixels() == old(self).pixels().map_values(|p: Rgba8| premultiplied_px(p)),
    {
        proof {
            use_type_invariant(&*self);
        }
        let n = self.pixels.len();
        let mut i: usize = 0;
        while i < n
            invariant
                n == self.pixels@.len(),
                n == self.width as int * self.height as int,
                i <= n,
                self.w() == old(self).w(),
                self.h() == old(self).h(),
                self.pixels@.len() == old(self).pixels().len(),
                forall|k: int| 0 <= k < i ==> self.pixels@[k] == premultiplied_px(old(self).pixels()[k]),
                forall|k: int| i <= k < n ==> self.pixels@[k] == old(self).pixels()[k],
            decreases n - i,
        {
            let q = premultiply_pixel(self.pixels[i]);
            self.pixels[i] = q;
            i = i + 1;
        }
        assert(self.pixels() =~= old(self).pixels().map_values(|p: Rgba8| premultiplied_px(p)));
    }

    /// Every pixel back from premultiplied to straight alpha.
    pub fn unpremultiply(&mut self)
        ensures
            final(self).w() == old(self).w(),
            final(self).h() == old(self).h(),
            final(self).pixels() == old(self).pixels().map_values(|p: Rgba8| unpremultiplied_px(p)),
    {
        proof {
            use_type_invariant(&*self);
        }
        let n = self.pixels.len();
        let mut i: usize = 0;
        while i < n
            invariant
                n == self.pixels@.len(),
                n == self.width as int * self.height as int,
                i <= n,
                self.w() == old(self).w(),
                self.h() == old(self).h(),
                self.pixels@.len() == old(self).pixels().len(),
                forall|k: int| 0 <= k < i ==> self.pixels@[k] == unpremultiplied_px(old(self).pixels()[k]),
                forall|k: int| i <= k < n ==> self.pixels@[k] == old(self).pixels()[k],
            decreases n - i,
        {
            let q = unpremultiply_pixel(self.pixels[i]);
            self.pixels[i] = q;
            i = i + 1;
        }
        assert(self.pixels() =~= old(self).pixels().map_values(|p: Rgba8| unpremultiplied_px(p)));
    }
}

} // verus!
