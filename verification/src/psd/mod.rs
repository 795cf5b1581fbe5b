//! `.psd` reading and writing.
//!
//! Implemented here: the 26-byte header, parsed and validated; the PackBits
//! (RLE) decoder; the flattened composite at the end of the file, raw or RLE,
//! 8-bit, in Greyscale and RGB; the channel planes of a layer; the blend-mode
//! keys; and the writer of a single flattened RGBA file.
//!
//! The format is big-endian throughout. Anything structurally valid that this
//! does not implement is reported as [`PsdError::Unsupported`] rather than
//! decoded into wrong pixels.

use vstd::prelude::*;
use vstd::slice::slice_subrange;
use vstd::string::StringExecFns;
use vstd::utf8::{encode_utf8, encode_utf8_decode_utf8, encode_utf8_valid_utf8};

use crate::blend::BlendMode;
use crate::buffer::{Pixmap, Rgba8};
use crate::chars::{decimal, decode_lossy, lenient_text, push_decimal};
use crate::layer::LayerStack;
use crate::psd::layers::{min_of, parse_layer_section, read_layer, section_at, RecordView};
use crate::psd::text::{type_tool_at, type_tool_descriptor, Descriptor};

pub mod layered;
pub mod layers;
pub mod text;
pub mod text_write;
pub mod type_back;
pub mod type_block;
pub mod written;

verus! {

/// Everything that can go wrong reading a PSD.
#[derive(Debug, PartialEq, Eq)]
pub enum PsdError {
    /// Missing the `8BPS` magic.
    BadSignature,
    /// Version field was not 1 (PSD) — 2 means PSB, which is not read.
    BadVersion(u16),
    /// Ran off the end of the buffer.
    UnexpectedEof { offset: usize, wanted: usize, available: usize },
    /// Structurally valid but uses a feature that is not implemented.
    Unsupported(String),
    /// Dimensions outside what the format permits.
    InvalidDimensions { width: u32, height: u32 },
}

/// What a [`PsdError`] says, with the message of `Unsupported` as characters.
pub enum Fault {
    BadSignature,
    BadVersion(u16),
    Eof { offset: int, wanted: int, available: int },
    Unsupported(Seq<char>),
    InvalidDimensions { width: u32, height: u32 },
}

impl PsdError {
    pub open spec fn fault(&self) -> Fault {
        match self {
            PsdError::BadSignature => Fault::BadSignature,
            PsdError::BadVersion(v) => Fault::BadVersion(*v),
            PsdError::UnexpectedEof { offset, wanted, available } => Fault::Eof {
                offset: *offset as int,
                wanted: *wanted as int,
                available: *available as int,
            },
            PsdError::Unsupported(s) => Fault::Unsupported(s@),
            PsdError::InvalidDimensions { width, height } => Fault::InvalidDimensions {
                width: *width,
                height: *height,
            },
        }
    }
}

/// A result with its error replaced by what the error says.
pub open spec fn outcome<T>(r: Result<T, PsdError>) -> Result<T, Fault> {
    match r {
        Ok(v) => Ok(v),
        Err(e) => Err(e.fault()),
    }
}

/// The message a [`PsdError`] renders as.
pub open spec fn message_of(f: Fault) -> Seq<char> {
    match f {
        Fault::BadSignature => "not a Photoshop file (bad signature)"@,
        Fault::BadVersion(v) => "unsupported PSD version "@ + decimal(v as nat)
            + " (only version 1 is read)"@,
        Fault::Eof { offset, wanted, available } => "unexpected end of file at offset "@
            + decimal(offset as nat) + ": wanted "@ + decimal(wanted as nat) + " bytes, "@
            + decimal(available as nat) + " available"@,
        Fault::Unsupported(what) => "unsupported PSD feature: "@ + what,
        Fault::InvalidDimensions { width, height } => "invalid image dimensions "@ + decimal(
            width as nat,
        ) + "x"@ + decimal(height as nat),
    }
}

impl PsdError {
    /// The error as a sentence for the user.
    pub fn message(&self) -> (s: String)
        ensures
            s@ == message_of(self.fault()),
    {
        let mut s;
        match self {
            PsdError::BadSignature => {
                s = String::from_str("not a Photoshop file (bad signature)");
            },
            PsdError::BadVersion(v) => {
                s = String::from_str("unsupported PSD version ");
                push_decimal(&mut s, *v as u64);
                s.append(" (only version 1 is read)");
            },
            PsdError::UnexpectedEof { offset, wanted, available } => {
                s = String::from_str("unexpected end of file at offset ");
                push_decimal(&mut s, *offset as u64);
                s.append(": wanted ");
                push_decimal(&mut s, *wanted as u64);
                s.append(" bytes, ");
                push_decimal(&mut s, *available as u64);
                s.append(" available");
            },
            PsdError::Unsupported(what) => {
                s = String::from_str("unsupported PSD feature: ");
                s.append(what.as_str());
            },
            PsdError::InvalidDimensions { width, height } => {
                s = String::from_str("invalid image dimensions ");
                push_decimal(&mut s, *width as u64);
                s.append("x");
                push_decimal(&mut s, *height as u64);
            },
        }
        s
    }
}

/// PSD colour modes, from the header.
#[derive(Clone, Copy, PartialEq, Eq, Debug, Structural)]
pub enum ColorMode {
    Bitmap,
    Grayscale,
    Indexed,
    Rgb,
    Cmyk,
    Multichannel,
    Duotone,
    Lab,
}

/// The mode a header's mode field names, if it names one.
pub open spec fn color_mode_of(v: u16) -> Option<ColorMode> {
    if v == 0 {
        Some(ColorMode::Bitmap)
    } else if v == 1 {
        Some(ColorMode::Grayscale)
    } else if v == 2 {
        Some(ColorMode::Indexed)
    } else if v == 3 {
        Some(ColorMode::Rgb)
    } else if v == 4 {
        Some(ColorMode::Cmyk)
    } else if v == 7 {
        Some(ColorMode::Multichannel)
    } else if v == 8 {
        Some(ColorMode::Duotone)
    } else if v == 9 {
        Some(ColorMode::Lab)
    } else {
        None
    }
}

/// The number a header writes for a mode.
pub open spec fn color_mode_code(m: ColorMode) -> u16 {
    match m {
        ColorMode::Bitmap => 0,
        ColorMode::Grayscale => 1,
        ColorMode::Indexed => 2,
        ColorMode::Rgb => 3,
        ColorMode::Cmyk => 4,
        ColorMode::Multichannel => 7,
        ColorMode::Duotone => 8,
        ColorMode::Lab => 9,
    }
}

impl ColorMode {
    pub fn from_u16(v: u16) -> (m: Option<ColorMode>)
        ensures
            m == color_mode_of(v),
    {
        match v {
            0 => Some(ColorMode::Bitmap),
            1 => Some(ColorMode::Grayscale),
            2 => Some(ColorMode::Indexed),
            3 => Some(ColorMode::Rgb),
            4 => Some(ColorMode::Cmyk),
            7 => Some(ColorMode::Multichannel),
            8 => Some(ColorMode::Duotone),
            9 => Some(ColorMode::Lab),
            _ => None,
        }
    }

    /// The number the header stores for this mode.
    pub fn code(self) -> (v: u16)
        ensures
            v == color_mode_code(self),
    {
        match self {
            ColorMode::Bitmap => 0,
            ColorMode::Grayscale => 1,
            ColorMode::Indexed => 2,
            ColorMode::Rgb => 3,
            ColorMode::Cmyk => 4,
            ColorMode::Multichannel => 7,
            ColorMode::Duotone => 8,
            ColorMode::Lab => 9,
        }
    }
}

/// The 26-byte PSD file header.
#[derive(Clone, Copy, Debug, PartialEq, Eq, Structural)]
pub struct PsdHeader {
    pub channels: u16,
    pub width: u32,
    pub height: u32,
    pub depth: u16,
    pub color_mode: ColorMode,
}

// ---------------------------------------------------------------------------
// Big-endian numbers
// ---------------------------------------------------------------------------

pub open spec fn be_u16(d: Seq<u8>, at: int) -> u16 {
    (d[at] as int * 256 + d[at + 1] as int) as u16
}

pub open spec fn be_u32(d: Seq<u8>, at: int) -> u32 {
    (d[at] as int * 16777216 + d[at + 1] as int * 65536 + d[at + 2] as int * 256 + d[at
        + 3] as int) as u32
}

/// The four bytes of `v`, most significant first.
pub open spec fn u32_bytes(v: u32) -> Seq<u8> {
    seq![(v / 16777216) as u8, ((v / 65536) % 256) as u8, ((v / 256) % 256) as u8, (v % 256) as u8]
}

pub open spec fn u16_bytes(v: u16) -> Seq<u8> {
    seq![(v / 256) as u8, (v % 256) as u8]
}

/// Reading back the four bytes of `v` gives `v`.
pub proof fn lemma_u32_bytes(v: u32)
    ensures
        u32_bytes(v).len() == 4,
        be_u32(u32_bytes(v), 0) == v,
{
}

fn u32_be(v: u32) -> (b: [u8; 4])
    ensures
        b@ == u32_bytes(v),
{
    [(v / 16777216) as u8, ((v / 65536) % 256) as u8, ((v / 256) % 256) as u8, (v % 256) as u8]
}

fn u16_be(v: u16) -> (b: [u8; 2])
    ensures
        b@ == u16_bytes(v),
{
    [(v / 256) as u8, (v % 256) as u8]
}

// ---------------------------------------------------------------------------
// The reader
// ---------------------------------------------------------------------------

/// A cursor over the file bytes that reports running out rather than
/// panicking.
pub struct Reader<'a> {
    pub data: &'a [u8],
    pub pos: usize,
}

/// The error `take` reports when `wanted` bytes are not there at `pos`.
pub open spec fn eof_at(len: int, pos: int, wanted: int) -> Fault {
    Fault::Eof { offset: pos, wanted, available: if pos <= len { len - pos } else { 0 } }
}

/// Whether `n` bytes can be taken at `pos`.
pub open spec fn fits(len: int, pos: int, n: int) -> bool {
    pos <= len && n <= len - pos
}


/// How many bytes bring `n` up to a multiple of `pad`.
pub open spec fn padding(n: int, pad: int) -> int {
    if n % pad == 0 {
        0
    } else {
        pad - n % pad
    }
}

/// What reading a Pascal string padded to a multiple of `pad` at `at` gives:
/// its text and where the reader ends up. The length byte counts toward the
/// padding.
pub open spec fn spec_pascal(d: Seq<u8>, at: int, pad: int) -> Result<(Seq<char>, int), Fault> {
    let len = d.len() as int;
    if !fits(len, at, 1) {
        Err(eof_at(len, at, 1))
    } else if !fits(len, at + 1, d[at] as int) {
        Err(eof_at(len, at + 1, d[at] as int))
    } else {
        let n = d[at] as int;
        let text = lenient_text(d.subrange(at + 1, at + 1 + n));
        let extra = padding(n + 1, pad);
        if extra == 0 {
            Ok((text, at + 1 + n))
        } else if !fits(len, at + 1 + n, extra) {
            Err(eof_at(len, at + 1 + n, extra))
        } else {
            Ok((text, at + 1 + n + extra))
        }
    }
}

/// Where reading a Pascal string at `at` leaves the reader when it runs
/// out: before the length byte, after it, or after the text, depending on
/// which part was missing.
pub open spec fn pascal_stop(d: Seq<u8>, at: int) -> int {
    let len = d.len() as int;
    if !fits(len, at, 1) {
        at
    } else if !fits(len, at + 1, d[at] as int) {
        at + 1
    } else {
        at + 1 + d[at] as int
    }
}

impl<'a> Reader<'a> {
    /// The position never runs past the end.
    pub open spec fn wf(&self) -> bool {
        self.pos <= self.data@.len()
    }

    pub fn new(data: &'a [u8]) -> (r: Reader<'a>)
        ensures
            r.wf(),
            r.data@ == data@,
            r.pos == 0,
    {
        Reader { data, pos: 0 }
    }

    /// How many bytes are left.
    pub fn remaining(&self) -> (n: usize)
        ensures
            n == (if self.pos <= self.data@.len() { self.data@.len() - self.pos } else { 0 }),
    {
        if self.pos <= self.data.len() {
            self.data.len() - self.pos
        } else {
            0
        }
    }

    /// The next `n` bytes.
    pub fn take(&mut self, n: usize) -> (r: Result<&'a [u8], PsdError>)
        requires
            old(self).wf(),
        ensures
            final(self).wf(),
            final(self).data@ == old(self).data@,
            fits(old(self).data@.len() as int, old(self).pos as int, n as int) ==> {
                &&& r is Ok
                &&& r->Ok_0@ == old(self).data@.subrange(
                    old(self).pos as int,
                    old(self).pos + n,
                )
                &&& final(self).pos == old(self).pos + n
            },
            !fits(old(self).data@.len() as int, old(self).pos as int, n as int) ==> {
                &&& outcome(r) == Err::<&[u8], Fault>(
                    eof_at(old(self).data@.len() as int, old(self).pos as int, n as int),
                )
                &&& final(self).pos == old(self).pos
            },
    {
        let available = self.remaining();
        let _len = self.data.len();
        if available < n {
            return Err(PsdError::UnexpectedEof { offset: self.pos, wanted: n, available });
        }
        let out = slice_subrange(self.data, self.pos, self.pos + n);
        self.pos = self.pos + n;
        Ok(out)
    }

    pub fn skip(&mut self, n: usize) -> (r: Result<(), PsdError>)
        requires
            old(self).wf(),
        ensures
            final(self).wf(),
            final(self).data@ == old(self).data@,
            fits(old(self).data@.len() as int, old(self).pos as int, n as int) ==> {
                &&& r is Ok
                &&& final(self).pos == old(self).pos + n
            },
            !fits(old(self).data@.len() as int, old(self).pos as int, n as int) ==> {
                &&& outcome(r) == Err::<(), Fault>(
                    eof_at(old(self).data@.len() as int, old(self).pos as int, n as int),
                )
                &&& final(self).pos == old(self).pos
            },
    {
        match self.take(n) {
            Ok(_) => Ok(()),
            Err(e) => Err(e),
        }
    }

    pub fn u8(&mut self) -> (r: Result<u8, PsdError>)
        requires
            old(self).wf(),
        ensures
            final(self).wf(),
            final(self).data@ == old(self).data@,
            fits(old(self).data@.len() as int, old(self).pos as int, 1) ==> {
                &&& r == Ok::<u8, PsdError>(old(self).data@[old(self).pos as int])
                &&& final(self).pos == old(self).pos + 1
            },
            !fits(old(self).data@.len() as int, old(self).pos as int, 1) ==> {
                &&& outcome(r) == Err::<u8, Fault>(
                    eof_at(old(self).data@.len() as int, old(self).pos as int, 1),
                )
                &&& final(self).pos == old(self).pos
            },
    {
        match self.take(1) {
            Ok(b) => Ok(b[0]),
            Err(e) => Err(e),
        }
    }

    // PSD is big-endian throughout.
    pub fn u16(&mut self) -> (r: Result<u16, PsdError>)
        requires
            old(self).wf(),
        ensures
            final(self).wf(),
            final(self).data@ == old(self).data@,
            fits(old(self).data@.len() as int, old(self).pos as int, 2) ==> {
                &&& r == Ok::<u16, PsdError>(be_u16(old(self).data@, old(self).pos as int))
                &&& final(self).pos == old(self).pos + 2
            },
            !fits(old(self).data@.len() as int, old(self).pos as int, 2) ==> {
                &&& outcome(r) == Err::<u16, Fault>(
                    eof_at(old(self).data@.len() as int, old(self).pos as int, 2),
                )
                &&& final(self).pos == old(self).pos
            },
    {
        match self.take(2) {
            Ok(b) => Ok((b[0] as u16) * 256 + (b[1] as u16)),
            Err(e) => Err(e),
        }
    }

    pub fn i16(&mut self) -> (r: Result<i16, PsdError>)
        requires
            old(self).wf(),
        ensures
            final(self).wf(),
            final(self).data@ == old(self).data@,
            fits(old(self).data@.len() as int, old(self).pos as int, 2) ==> {
                &&& r == Ok::<i16, PsdError>(be_u16(old(self).data@, old(self).pos as int) as i16)
                &&& final(self).pos == old(self).pos + 2
            },
            !fits(old(self).data@.len() as int, old(self).pos as int, 2) ==> {
                &&& outcome(r) == Err::<i16, Fault>(
                    eof_at(old(self).data@.len() as int, old(self).pos as int, 2),
                )
                &&& final(self).pos == old(self).pos
            },
    {
        match self.u16() {
            Ok(v) => Ok(v as i16),
            Err(e) => Err(e),
        }
    }

    pub fn u32(&mut self) -> (r: Result<u32, PsdError>)
        requires
            old(self).wf(),
        ensures
            final(self).wf(),
            final(self).data@ == old(self).data@,
            fits(old(self).data@.len() as int, old(self).pos as int, 4) ==> {
                &&& r == Ok::<u32, PsdError>(be_u32(old(self).data@, old(self).pos as int))
                &&& final(self).pos == old(self).pos + 4
            },
            !fits(old(self).data@.len() as int, old(self).pos as int, 4) ==> {
                &&& outcome(r) == Err::<u32, Fault>(
                    eof_at(old(self).data@.len() as int, old(self).pos as int, 4),
                )
                &&& final(self).pos == old(self).pos
            },
    {
        match self.take(4) {
            Ok(b) => Ok((b[0] as u32) * 16777216 + (b[1] as u32) * 65536 + (b[2] as u32) * 256 + (
            b[3] as u32)),
            Err(e) => Err(e),
        }
    }

    pub fn i32(&mut self) -> (r: Result<i32, PsdError>)
        requires
            old(self).wf(),
        ensures
            final(self).wf(),
            final(self).data@ == old(self).data@,
            fits(old(self).data@.len() as int, old(self).pos as int, 4) ==> {
                &&& r == Ok::<i32, PsdError>(be_u32(old(self).data@, old(self).pos as int) as i32)
                &&& final(self).pos == old(self).pos + 4
            },
            !fits(old(self).data@.len() as int, old(self).pos as int, 4) ==> {
                &&& outcome(r) == Err::<i32, Fault>(
                    eof_at(old(self).data@.len() as int, old(self).pos as int, 4),
                )
                &&& final(self).pos == old(self).pos
            },
    {
        match self.u32() {
            Ok(v) => Ok(v as i32),
            Err(e) => Err(e),
        }
    }

    /// A Pascal string padded to a multiple of `pad` bytes.
    pub fn pascal_string(&mut self, pad: usize) -> (r: Result<String, PsdError>)
        requires
            old(self).wf(),
            pad > 0,
        ensures
            final(self).wf(),
            final(self).data@ == old(self).data@,
            match spec_pascal(old(self).data@, old(self).pos as int, pad as int) {
                Ok((text, end)) => r is Ok && r->Ok_0@ == text && final(self).pos == end,
                Err(f) => outcome(r) == Err::<String, Fault>(f) && final(self).pos == pascal_stop(
                    old(self).data@,
                    old(self).pos as int,
                ),
            },
    {
        let len = match self.u8() {
            Ok(v) => v as usize,
            Err(e) => return Err(e),
        };
        let bytes = match self.take(len) {
            Ok(b) => b,
            Err(e) => return Err(e),
        };
        let s = decode_lossy(bytes);
        // The length byte counts toward the padding.
        let total = len + 1;
        let rem = total % pad;
        if rem != 0 {
            match self.skip(pad - rem) {
                Ok(_) => {},
                Err(e) => return Err(e),
            }
        }
        Ok(s)
    }
}

// ---------------------------------------------------------------------------
// The header
// ---------------------------------------------------------------------------

/// The `8BPS` magic.
pub open spec fn signature() -> Seq<u8> {
    seq![56u8, 66u8, 80u8, 83u8]
}

/// Whether a header's dimensions are ones the format permits: PSD caps
/// documents at 30,000 px per side.
pub open spec fn valid_dimensions(width: u32, height: u32) -> bool {
    1 <= width <= 30000 && 1 <= height <= 30000
}

/// What reading the header out of `d` gives, checked in file order.
pub open spec fn spec_parse_header(d: Seq<u8>) -> Result<PsdHeader, Fault> {
    let len = d.len() as int;
    if len < 4 {
        Err(eof_at(len, 0, 4))
    } else if d.subrange(0, 4) != signature() {
        Err(Fault::BadSignature)
    } else if len < 6 {
        Err(eof_at(len, 4, 2))
    } else if be_u16(d, 4) != 1 {
        Err(Fault::BadVersion(be_u16(d, 4)))
    } else if len < 12 {
        Err(eof_at(len, 6, 6))
    } else if len < 14 {
        Err(eof_at(len, 12, 2))
    } else if len < 18 {
        Err(eof_at(len, 14, 4))
    } else if len < 22 {
        Err(eof_at(len, 18, 4))
    } else if len < 24 {
        Err(eof_at(len, 22, 2))
    } else if len < 26 {
        Err(eof_at(len, 24, 2))
    } else if !valid_dimensions(be_u32(d, 18), be_u32(d, 14)) {
        Err(Fault::InvalidDimensions { width: be_u32(d, 18), height: be_u32(d, 14) })
    } else if color_mode_of(be_u16(d, 24)) is None {
        Err(Fault::Unsupported("colour mode "@ + decimal(be_u16(d, 24) as nat)))
    } else {
        Ok(
            PsdHeader {
                channels: be_u16(d, 12),
                width: be_u32(d, 18),
                height: be_u32(d, 14),
                depth: be_u16(d, 22),
                color_mode: color_mode_of(be_u16(d, 24)).unwrap(),
            },
        )
    }
}

fn is_signature(b: &[u8]) -> (r: bool)
    requires
        b@.len() == 4,
    ensures
        r == (b@ == signature()),
{
    let r = b[0] == 56 && b[1] == 66 && b[2] == 80 && b[3] == 83;
    assert(r ==> b@ =~= signature());
    r
}

/// Parse the 26-byte header.
pub fn parse_header(data: &[u8]) -> (r: Result<PsdHeader, PsdError>)
    ensures
        outcome(r) == spec_parse_header(data@),
{
    let mut r = Reader::new(data);
    let sig = match r.take(4) {
        Ok(b) => b,
        Err(e) => return Err(e),
    };
    if !is_signature(sig) {
        return Err(PsdError::BadSignature);
    }
    let version = match r.u16() {
        Ok(v) => v,
        Err(e) => return Err(e),
    };
    if version != 1 {
        return Err(PsdError::BadVersion(version));
    }
    // Six reserved bytes, always zero.
    match r.skip(6) {
        Ok(_) => {},
        Err(e) => return Err(e),
    }
    let channels = match r.u16() {
        Ok(v) => v,
        Err(e) => return Err(e),
    };
    let height = match r.u32() {
        Ok(v) => v,
        Err(e) => return Err(e),
    };
    let width = match r.u32() {
        Ok(v) => v,
        Err(e) => return Err(e),
    };
    let depth = match r.u16() {
        Ok(v) => v,
        Err(e) => return Err(e),
    };
    let mode_raw = match r.u16() {
        Ok(v) => v,
        Err(e) => return Err(e),
    };

    // PSD caps documents at 30,000 px per side.
    if width == 0 || height == 0 || width > 30000 || height > 30000 {
        return Err(PsdError::InvalidDimensions { width, height });
    }

    let color_mode = match ColorMode::from_u16(mode_raw) {
        Some(m) => m,
        None => {
            let mut what = String::from_str("colour mode ");
            push_decimal(&mut what, mode_raw as u64);
            return Err(PsdError::Unsupported(what));
        },
    };

    Ok(PsdHeader { channels, width, height, depth, color_mode })
}

// ---------------------------------------------------------------------------
// PackBits
// ---------------------------------------------------------------------------

/// What PackBits decoding of `src` from index `i` appends to `acc`, stopping
/// once `acc` holds `expected` bytes or the input runs out. A header byte
/// below 128 is a literal run of itself plus one bytes (cut short at the end of
/// the input); 128 is a no-op; anything above repeats the next byte
/// `257 - header` times.
pub open spec fn unpacked(src: Seq<u8>, i: int, acc: Seq<u8>, expected: int) -> Seq<u8>
    decreases src.len() - i,
{
    if i < 0 || i >= src.len() || acc.len() >= expected {
        acc
    } else if src[i] < 128 {
        let end = if i + 2 + src[i] <= src.len() {
            i + 2 + src[i]
        } else {
            src.len() as int
        };
        unpacked(src, end, acc + src.subrange(i + 1, end), expected)
    } else if src[i] == 128 {
        unpacked(src, i + 1, acc, expected)
    } else if i + 1 >= src.len() {
        acc
    } else {
        unpacked(src, i + 2, acc + Seq::new((257 - src[i]) as nat, |k: int| src[i + 1]), expected)
    }
}

/// `s` cut or zero-padded to exactly `n` bytes.
pub open spec fn fit(s: Seq<u8>, n: int) -> Seq<u8> {
    if s.len() >= n {
        s.subrange(0, n)
    } else {
        s + Seq::new((n - s.len()) as nat, |k: int| 0u8)
    }
}

/// The `expected` bytes one PackBits row decodes to.
pub open spec fn unpack(src: Seq<u8>, expected: int) -> Seq<u8> {
    fit(unpacked(src, 0, seq![], expected), expected)
}

/// PackBits decompression, appending exactly `expected` bytes to `out`: a
/// short row is padded with zeros rather than desynchronising every row after
/// it, and a run that overshoots is cut.
pub fn unpack_bits(src: &[u8], expected: usize, out: &mut Vec<u8>)
    requires
        old(out)@.len() + expected <= usize::MAX,
    ensures
        final(out)@ == old(out)@ + unpack(src@, expected as int),
{
    let start = out.len();
    let ghost base = out@;
    let mut i: usize = 0;
    assert(out@.subrange(start as int, out@.len() as int) =~= seq![]);
    assert(out@.subrange(0, start as int) =~= base);
    while i < src.len() && out.len() - start < expected
        invariant
            start == base.len(),
            start + expected <= usize::MAX,
            i <= src@.len(),
            out@.len() >= start,
            out@.subrange(0, start as int) == base,
            out@.len() - start < expected + 256,
            unpacked(src@, i as int, out@.subrange(start as int, out@.len() as int), expected as int)
                == unpacked(src@, 0, seq![], expected as int),
        ensures
            i >= src@.len() || out@.len() - start >= expected,
            start == base.len(),
            out@.len() >= start,
            out@.subrange(0, start as int) == base,
            start + expected <= usize::MAX,
            unpacked(src@, i as int, out@.subrange(start as int, out@.len() as int), expected as int)
                == unpacked(src@, 0, seq![], expected as int),
        decreases src@.len() - i,
    {
        let ghost acc = out@.subrange(start as int, out@.len() as int);
        let h = src[i];
        i = i + 1;
        if h < 128 {
            // Literal run of h+1 bytes.
            let count = h as usize + 1;
            let end = if count <= src.len() - i {
                i + count
            } else {
                src.len()
            };
            let lit = slice_subrange(src, i, end);
            out.extend_from_slice(lit);
            proof {
                assert(out@.subrange(start as int, out@.len() as int) =~= acc + src@.subrange(
                    i as int,
                    end as int,
                ));
                assert(out@.subrange(0, start as int) =~= base);
            }
            i = end;
        } else if h != 128 {
            // Repeat the next byte 257 - h times. 128 is a no-op by spec.
            if i >= src.len() {
                break;
            }
            let count = 257 - h as usize;
            let byte = src[i];
            i = i + 1;
            let mut k: usize = 0;
            while k < count
                invariant
                    k <= count,
                    count == 257 - h,
                    out@.len() == start + acc.len() + k,
                    out@.subrange(0, start as int) == base,
                    out@.subrange(start as int, out@.len() as int) == acc + Seq::new(
                        k as nat,
                        |j: int| byte,
                    ),
                    start + expected <= usize::MAX,
                    acc.len() < expected,
                decreases count - k,
            {
                let ghost prev = out@;
                out.push(byte);
                proof {
                    assert(out@.subrange(start as int, out@.len() as int) =~= prev.subrange(
                        start as int,
                        prev.len() as int,
                    ).push(byte));
                    assert(out@.subrange(start as int, out@.len() as int) =~= acc + Seq::new(
                        (k + 1) as nat,
                        |j: int| byte,
                    ));
                    assert(out@.subrange(0, start as int) =~= base);
                }
                k = k + 1;
            }
        }
    }
    let ghost decoded = out@.subrange(start as int, out@.len() as int);
    proof {
        assert(unpacked(src@, i as int, decoded, expected as int) == decoded);
    }
    out.resize(start + expected, 0);
    proof {
        assert(out@ =~= base + fit(decoded, expected as int));
    }
}

// ---------------------------------------------------------------------------
// Blend-mode keys
// ---------------------------------------------------------------------------

/// The four-character key a layer record stores for a blend mode.
pub open spec fn key_of(mode: BlendMode) -> Seq<u8> {
    match mode {
        BlendMode::Normal => seq![110u8, 111u8, 114u8, 109u8], // 'norm'
        BlendMode::Dissolve => seq![100u8, 105u8, 115u8, 115u8], // 'diss'
        BlendMode::Darken => seq![100u8, 97u8, 114u8, 107u8], // 'dark'
        BlendMode::Multiply => seq![109u8, 117u8, 108u8, 32u8], // 'mul '
        BlendMode::ColorBurn => seq![105u8, 100u8, 105u8, 118u8], // 'idiv'
        BlendMode::LinearBurn => seq![108u8, 98u8, 114u8, 110u8], // 'lbrn'
        BlendMode::DarkerColor => seq![100u8, 107u8, 67u8, 108u8], // 'dkCl'
        BlendMode::Lighten => seq![108u8, 105u8, 116u8, 101u8], // 'lite'
        BlendMode::Screen => seq![115u8, 99u8, 114u8, 110u8], // 'scrn'
        BlendMode::ColorDodge => seq![100u8, 105u8, 118u8, 32u8], // 'div '
        BlendMode::LinearDodge => seq![108u8, 100u8, 100u8, 103u8], // 'lddg'
        BlendMode::LighterColor => seq![108u8, 103u8, 67u8, 108u8], // 'lgCl'
        BlendMode::Overlay => seq![111u8, 118u8, 101u8, 114u8], // 'over'
        BlendMode::SoftLight => seq![115u8, 76u8, 105u8, 116u8], // 'sLit'
        BlendMode::HardLight => seq![104u8, 76u8, 105u8, 116u8], // 'hLit'
        BlendMode::VividLight => seq![118u8, 76u8, 105u8, 116u8], // 'vLit'
        BlendMode::LinearLight => seq![108u8, 76u8, 105u8, 116u8], // 'lLit'
        BlendMode::PinLight => seq![112u8, 76u8, 105u8, 116u8], // 'pLit'
        BlendMode::HardMix => seq![104u8, 77u8, 105u8, 120u8], // 'hMix'
        BlendMode::Difference => seq![100u8, 105u8, 102u8, 102u8], // 'diff'
        BlendMode::Exclusion => seq![115u8, 109u8, 117u8, 100u8], // 'smud'
        BlendMode::Subtract => seq![102u8, 115u8, 117u8, 98u8], // 'fsub'
        BlendMode::Divide => seq![102u8, 100u8, 105u8, 118u8], // 'fdiv'
        BlendMode::Hue => seq![104u8, 117u8, 101u8, 32u8], // 'hue '
        BlendMode::Saturation => seq![115u8, 97u8, 116u8, 32u8], // 'sat '
        BlendMode::Color => seq![99u8, 111u8, 108u8, 114u8], // 'colr'
        BlendMode::Luminosity => seq![108u8, 117u8, 109u8, 32u8], // 'lum '
    }
}

/// The mode a key names; an unknown key means Normal.
pub open spec fn mode_of_key(key: Seq<u8>) -> BlendMode {
    if key == key_of(BlendMode::Normal) {
        BlendMode::Normal
    } else if key == key_of(BlendMode::Dissolve) {
        BlendMode::Dissolve
    } else if key == key_of(BlendMode::Darken) {
        BlendMode::Darken
    } else if key == key_of(BlendMode::Multiply) {
        BlendMode::Multiply
    } else if key == key_of(BlendMode::ColorBurn) {
        BlendMode::ColorBurn
    } else if key == key_of(BlendMode::LinearBurn) {
        BlendMode::LinearBurn
    } else if key == key_of(BlendMode::DarkerColor) {
        BlendMode::DarkerColor
    } else if key == key_of(BlendMode::Lighten) {
        BlendMode::Lighten
    } else if key == key_of(BlendMode::Screen) {
        BlendMode::Screen
    } else if key == key_of(BlendMode::ColorDodge) {
        BlendMode::ColorDodge
    } else if key == key_of(BlendMode::LinearDodge) {
        BlendMode::LinearDodge
    } else if key == key_of(BlendMode::LighterColor) {
        BlendMode::LighterColor
    } else if key == key_of(BlendMode::Overlay) {
        BlendMode::Overlay
    } else if key == key_of(BlendMode::SoftLight) {
        BlendMode::SoftLight
    } else if key == key_of(BlendMode::HardLight) {
        BlendMode::HardLight
    } else if key == key_of(BlendMode::VividLight) {
        BlendMode::VividLight
    } else if key == key_of(BlendMode::LinearLight) {
        BlendMode::LinearLight
    } else if key == key_of(BlendMode::PinLight) {
        BlendMode::PinLight
    } else if key == key_of(BlendMode::HardMix) {
        BlendMode::HardMix
    } else if key == key_of(BlendMode::Difference) {
        BlendMode::Difference
    } else if key == key_of(BlendMode::Exclusion) {
        BlendMode::Exclusion
    } else if key == key_of(BlendMode::Subtract) {
        BlendMode::Subtract
    } else if key == key_of(BlendMode::Divide) {
        BlendMode::Divide
    } else if key == key_of(BlendMode::Hue) {
        BlendMode::Hue
    } else if key == key_of(BlendMode::Saturation) {
        BlendMode::Saturation
    } else if key == key_of(BlendMode::Color) {
        BlendMode::Color
    } else if key == key_of(BlendMode::Luminosity) {
        BlendMode::Luminosity
    } else {
        BlendMode::Normal
    }
}

fn key_is(key: &[u8], want: [u8; 4]) -> (r: bool)
    ensures
        r == (key@ == want@),
{
    if key.len() != 4 {
        return false;
    }
    let r = key[0] == want[0] && key[1] == want[1] && key[2] == want[2] && key[3] == want[3];
    assert(r ==> key@ =~= want@);
    r
}

/// Map a PSD four-character blend key to a [`BlendMode`]. Unknown keys are
/// read as Normal.
pub fn blend_mode_from_key(key: &[u8]) -> (m: BlendMode)
    ensures
        m == mode_of_key(key@),
{
    if key_is(key, [110, 111, 114, 109]) {
        return BlendMode::Normal;
    }
    if key_is(key, [100, 105, 115, 115]) {
        return BlendMode::Dissolve;
    }
    if key_is(key, [100, 97, 114, 107]) {
        return BlendMode::Darken;
    }
    if key_is(key, [109, 117, 108, 32]) {
        return BlendMode::Multiply;
    }
    if key_is(key, [105, 100, 105, 118]) {
        return BlendMode::ColorBurn;
    }
    if key_is(key, [108, 98, 114, 110]) {
        return BlendMode::LinearBurn;
    }
    if key_is(key, [100, 107, 67, 108]) {
        return BlendMode::DarkerColor;
    }
    if key_is(key, [108, 105, 116, 101]) {
        return BlendMode::Lighten;
    }
    if key_is(key, [115, 99, 114, 110]) {
        return BlendMode::Screen;
    }
    if key_is(key, [100, 105, 118, 32]) {
        return BlendMode::ColorDodge;
    }
    if key_is(key, [108, 100, 100, 103]) {
        return BlendMode::LinearDodge;
    }
    if key_is(key, [108, 103, 67, 108]) {
        return BlendMode::LighterColor;
    }
    if key_is(key, [111, 118, 101, 114]) {
        return BlendMode::Overlay;
    }
    if key_is(key, [115, 76, 105, 116]) {
        return BlendMode::SoftLight;
    }
    if key_is(key, [104, 76, 105, 116]) {
        return BlendMode::HardLight;
    }
    if key_is(key, [118, 76, 105, 116]) {
        return BlendMode::VividLight;
    }
    if key_is(key, [108, 76, 105, 116]) {
        return BlendMode::LinearLight;
    }
    if key_is(key, [112, 76, 105, 116]) {
        return BlendMode::PinLight;
    }
    if key_is(key, [104, 77, 105, 120]) {
        return BlendMode::HardMix;
    }
    if key_is(key, [100, 105, 102, 102]) {
        return BlendMode::Difference;
    }
    if key_is(key, [115, 109, 117, 100]) {
        return BlendMode::Exclusion;
    }
    if key_is(key, [102, 115, 117, 98]) {
        return BlendMode::Subtract;
    }
    if key_is(key, [102, 100, 105, 118]) {
        return BlendMode::Divide;
    }
    if key_is(key, [104, 117, 101, 32]) {
        return BlendMode::Hue;
    }
    if key_is(key, [115, 97, 116, 32]) {
        return BlendMode::Saturation;
    }
    if key_is(key, [99, 111, 108, 114]) {
        return BlendMode::Color;
    }
    if key_is(key, [108, 117, 109, 32]) {
        return BlendMode::Luminosity;
    }
    BlendMode::Normal
}

/// The inverse of [`blend_mode_from_key`].
pub fn blend_mode_key(mode: BlendMode) -> (key: [u8; 4])
    ensures
        key@ == key_of(mode),
{
    let k = match mode {
        BlendMode::Normal => [110, 111, 114, 109],
        BlendMode::Dissolve => [100, 105, 115, 115],
        BlendMode::Darken => [100, 97, 114, 107],
        BlendMode::Multiply => [109, 117, 108, 32],
        BlendMode::ColorBurn => [105, 100, 105, 118],
        BlendMode::LinearBurn => [108, 98, 114, 110],
        BlendMode::DarkerColor => [100, 107, 67, 108],
        BlendMode::Lighten => [108, 105, 116, 101],
        BlendMode::Screen => [115, 99, 114, 110],
        BlendMode::ColorDodge => [100, 105, 118, 32],
        BlendMode::LinearDodge => [108, 100, 100, 103],
        BlendMode::LighterColor => [108, 103, 67, 108],
        BlendMode::Overlay => [111, 118, 101, 114],
        BlendMode::SoftLight => [115, 76, 105, 116],
        BlendMode::HardLight => [104, 76, 105, 116],
        BlendMode::VividLight => [118, 76, 105, 116],
        BlendMode::LinearLight => [108, 76, 105, 116],
        BlendMode::PinLight => [112, 76, 105, 116],
        BlendMode::HardMix => [104, 77, 105, 120],
        BlendMode::Difference => [100, 105, 102, 102],
        BlendMode::Exclusion => [115, 109, 117, 100],
        BlendMode::Subtract => [102, 115, 117, 98],
        BlendMode::Divide => [102, 100, 105, 118],
        BlendMode::Hue => [104, 117, 101, 32],
        BlendMode::Saturation => [115, 97, 116, 32],
        BlendMode::Color => [99, 111, 108, 114],
        BlendMode::Luminosity => [108, 117, 109, 32],
    };
    assert(k@ =~= key_of(mode));
    k
}

/// Every blend mode survives being written as its key and read back.
pub proof fn law_blend_key_round_trip(mode: BlendMode)
    ensures
        mode_of_key(key_of(mode)) == mode,
{
    match mode {
        BlendMode::Normal => {
        },
        BlendMode::Dissolve => {
            assert(key_of(BlendMode::Dissolve)[0] != key_of(BlendMode::Normal)[0]);
        },
        BlendMode::Darken => {
            assert(key_of(BlendMode::Darken)[0] != key_of(BlendMode::Normal)[0]);
            assert(key_of(BlendMode::Darken)[1] != key_of(BlendMode::Dissolve)[1]);
        },
        BlendMode::Multiply => {
            assert(key_of(BlendMode::Multiply)[0] != key_of(BlendMode::Normal)[0]);
            assert(key_of(BlendMode::Multiply)[0] != key_of(BlendMode::Dissolve)[0]);
            assert(key_of(BlendMode::Multiply)[0] != key_of(BlendMode::Darken)[0]);
        },
        BlendMode::ColorBurn => {
            assert(key_of(BlendMode::ColorBurn)[0] != key_of(BlendMode::Normal)[0]);
            assert(key_of(BlendMode::ColorBurn)[0] != key_of(BlendMode::Dissolve)[0]);
            assert(key_of(BlendMode::ColorBurn)[0] != key_of(BlendMode::Darken)[0]);
            assert(key_of(BlendMode::ColorBurn)[0] != key_of(BlendMode::Multiply)[0]);
        },
        BlendMode::LinearBurn => {
            assert(key_of(BlendMode::LinearBurn)[0] != key_of(BlendMode::Normal)[0]);
            assert(key_of(BlendMode::LinearBurn)[0] != key_of(BlendMode::Dissolve)[0]);
            assert(key_of(BlendMode::LinearBurn)[0] != key_of(BlendMode::Darken)[0]);
            assert(key_of(BlendMode::LinearBurn)[0] != key_of(BlendMode::Multiply)[0]);
            assert(key_of(BlendMode::LinearBurn)[0] != key_of(BlendMode::ColorBurn)[0]);
        },
        BlendMode::DarkerColor => {
            assert(key_of(BlendMode::DarkerColor)[0] != key_of(BlendMode::Normal)[0]);
            assert(key_of(BlendMode::DarkerColor)[1] != key_of(BlendMode::Dissolve)[1]);
            assert(key_of(BlendMode::DarkerColor)[1] != key_of(BlendMode::Darken)[1]);
            assert(key_of(BlendMode::DarkerColor)[0] != key_of(BlendMode::Multiply)[0]);
            assert(key_of(BlendMode::DarkerColor)[0] != key_of(BlendMode::ColorBurn)[0]);
            assert(key_of(BlendMode::DarkerColor)[0] != key_of(BlendMode::LinearBurn)[0]);
        },
        BlendMode::Lighten => {
            assert(key_of(BlendMode::Lighten)[0] != key_of(BlendMode::Normal)[0]);
            assert(key_of(BlendMode::Lighten)[0] != key_of(BlendMode::Dissolve)[0]);
            assert(key_of(BlendMode::Lighten)[0] != key_of(BlendMode::Darken)[0]);
            assert(key_of(BlendMode::Lighten)[0] != key_of(BlendMode::Multiply)[0]);
            assert(key_of(BlendMode::Lighten)[0] != key_of(BlendMode::ColorBurn)[0]);
            assert(key_of(BlendMode::Lighten)[1] != key_of(BlendMode::LinearBurn)[1]);
            assert(key_of(BlendMode::Lighten)[0] != key_of(BlendMode::DarkerColor)[0]);
        },
        BlendMode::Screen => {
            assert(key_of(BlendMode::Screen)[0] != key_of(BlendMode::Normal)[0]);
            assert(key_of(BlendMode::Screen)[0] != key_of(BlendMode::Dissolve)[0]);
            assert(key_of(BlendMode::Screen)[0] != key_of(BlendMode::Darken)[0]);
            assert(key_of(BlendMode::Screen)[0] != key_of(BlendMode::Multiply)[0]);
            assert(key_of(BlendMode::Screen)[0] != key_of(BlendMode::ColorBurn)[0]);
            assert(key_of(BlendMode::Screen)[0] != key_of(BlendMode::LinearBurn)[0]);
            assert(key_of(BlendMode::Screen)[0] != key_of(BlendMode::DarkerColor)[0]);
            assert(key_of(BlendMode::Screen)[0] != key_of(BlendMode::Lighten)[0]);
        },
        BlendMode::ColorDodge => {
            assert(key_of(BlendMode::ColorDodge)[0] != key_of(BlendMode::Normal)[0]);
            assert(key_of(BlendMode::ColorDodge)[2] != key_of(BlendMode::Dissolve)[2]);
            assert(key_of(BlendMode::ColorDodge)[1] != key_of(BlendMode::Darken)[1]);
            assert(key_of(BlendMode::ColorDodge)[0] != key_of(BlendMode::Multiply)[0]);
            assert(key_of(BlendMode::ColorDodge)[0] != key_of(BlendMode::ColorBurn)[0]);
            assert(key_of(BlendMode::ColorDodge)[0] != key_of(BlendMode::LinearBurn)[0]);
            assert(key_of(BlendMode::ColorDodge)[1] != key_of(BlendMode::DarkerColor)[1]);
            assert(key_of(BlendMode::ColorDodge)[0] != key_of(BlendMode::Lighten)[0]);
            assert(key_of(BlendMode::ColorDodge)[0] != key_of(BlendMode::Screen)[0]);
        },
        BlendMode::LinearDodge => {
            assert(key_of(BlendMode::LinearDodge)[0] != key_of(BlendMode::Normal)[0]);
            assert(key_of(BlendMode::LinearDodge)[0] != key_of(BlendMode::Dissolve)[0]);
            assert(key_of(BlendMode::LinearDodge)[0] != key_of(BlendMode::Darken)[0]);
            assert(key_of(BlendMode::LinearDodge)[0] != key_of(BlendMode::Multiply)[0]);
            assert(key_of(BlendMode::LinearDodge)[0] != key_of(BlendMode::ColorBurn)[0]);
            assert(key_of(BlendMode::LinearDodge)[1] != key_of(BlendMode::LinearBurn)[1]);
            assert(key_of(BlendMode::LinearDodge)[0] != key_of(BlendMode::DarkerColor)[0]);
            assert(key_of(BlendMode::LinearDodge)[1] != key_of(BlendMode::Lighten)[1]);
            assert(key_of(BlendMode::LinearDodge)[0] != key_of(BlendMode::Screen)[0]);
            assert(key_of(BlendMode::LinearDodge)[0] != key_of(BlendMode::ColorDodge)[0]);
        },
        BlendMode::LighterColor => {
            assert(key_of(BlendMode::LighterColor)[0] != key_of(BlendMode::Normal)[0]);
            assert(key_of(BlendMode::LighterColor)[0] != key_of(BlendMode::Dissolve)[0]);
            assert(key_of(BlendMode::LighterColor)[0] != key_of(BlendMode::Darken)[0]);
            assert(key_of(BlendMode::LighterColor)[0] != key_of(BlendMode::Multiply)[0]);
            assert(key_of(BlendMode::LighterColor)[0] != key_of(BlendMode::ColorBurn)[0]);
            assert(key_of(BlendMode::LighterColor)[1] != key_of(BlendMode::LinearBurn)[1]);
            assert(key_of(BlendMode::LighterColor)[0] != key_of(BlendMode::DarkerColor)[0]);
            assert(key_of(BlendMode::LighterColor)[1] != key_of(BlendMode::Lighten)[1]);
            assert(key_of(BlendMode::LighterColor)[0] != key_of(BlendMode::Screen)[0]);
            assert(key_of(BlendMode::LighterColor)[0] != key_of(BlendMode::ColorDodge)[0]);
            assert(key_of(BlendMode::LighterColor)[1] != key_of(BlendMode::LinearDodge)[1]);
        },
        BlendMode::Overlay => {
            assert(key_of(BlendMode::Overlay)[0] != key_of(BlendMode::Normal)[0]);
            assert(key_of(BlendMode::Overlay)[0] != key_of(BlendMode::Dissolve)[0]);
            assert(key_of(BlendMode::Overlay)[0] != key_of(BlendMode::Darken)[0]);
            assert(key_of(BlendMode::Overlay)[0] != key_of(BlendMode::Multiply)[0]);
            assert(key_of(BlendMode::Overlay)[0] != key_of(BlendMode::ColorBurn)[0]);
            assert(key_of(BlendMode::Overlay)[0] != key_of(BlendMode::LinearBurn)[0]);
            assert(key_of(BlendMode::Overlay)[0] != key_of(BlendMode::DarkerColor)[0]);
            assert(key_of(BlendMode::Overlay)[0] != key_of(BlendMode::Lighten)[0]);
            assert(key_of(BlendMode::Overlay)[0] != key_of(BlendMode::Screen)[0]);
            assert(key_of(BlendMode::Overlay)[0] != key_of(BlendMode::ColorDodge)[0]);
            assert(key_of(BlendMode::Overlay)[0] != key_of(BlendMode::LinearDodge)[0]);
            assert(key_of(BlendMode::Overlay)[0] != key_of(BlendMode::LighterColor)[0]);
        },
        BlendMode::SoftLight => {
            assert(key_of(BlendMode::SoftLight)[0] != key_of(BlendMode::Normal)[0]);
            assert(key_of(BlendMode::SoftLight)[0] != key_of(BlendMode::Dissolve)[0]);
            assert(key_of(BlendMode::SoftLight)[0] != key_of(BlendMode::Darken)[0]);
            assert(key_of(BlendMode::SoftLight)[0] != key_of(BlendMode::Multiply)[0]);
            assert(key_of(BlendMode::SoftLight)[0] != key_of(BlendMode::ColorBurn)[0]);
            assert(key_of(BlendMode::SoftLight)[0] != key_of(BlendMode::LinearBurn)[0]);
            assert(key_of(BlendMode::SoftLight)[0] != key_of(BlendMode::DarkerColor)[0]);
            assert(key_of(BlendMode::SoftLight)[0] != key_of(BlendMode::Lighten)[0]);
            assert(key_of(BlendMode::SoftLight)[1] != key_of(BlendMode::Screen)[1]);
            assert(key_of(BlendMode::SoftLight)[0] != key_of(BlendMode::ColorDodge)[0]);
            assert(key_of(BlendMode::SoftLight)[0] != key_of(BlendMode::LinearDodge)[0]);
            assert(key_of(BlendMode::SoftLight)[0] != key_of(BlendMode::LighterColor)[0]);
            assert(key_of(BlendMode::SoftLight)[0] != key_of(BlendMode::Overlay)[0]);
        },
        BlendMode::HardLight => {
            assert(key_of(BlendMode::HardLight)[0] != key_of(BlendMode::Normal)[0]);
            assert(key_of(BlendMode::HardLight)[0] != key_of(BlendMode::Dissolve)[0]);
            assert(key_of(BlendMode::HardLight)[0] != key_of(BlendMode::Darken)[0]);
            assert(key_of(BlendMode::HardLight)[0] != key_of(BlendMode::Multiply)[0]);
            assert(key_of(BlendMode::HardLight)[0] != key_of(BlendMode::ColorBurn)[0]);
            assert(key_of(BlendMode::HardLight)[0] != key_of(BlendMode::LinearBurn)[0]);
            assert(key_of(BlendMode::HardLight)[0] != key_of(BlendMode::DarkerColor)[0]);
            assert(key_of(BlendMode::HardLight)[0] != key_of(BlendMode::Lighten)[0]);
            assert(key_of(BlendMode::HardLight)[0] != key_of(BlendMode::Screen)[0]);
            assert(key_of(BlendMode::HardLight)[0] != key_of(BlendMode::ColorDodge)[0]);
            assert(key_of(BlendMode::HardLight)[0] != key_of(BlendMode::LinearDodge)[0]);
            assert(key_of(BlendMode::HardLight)[0] != key_of(BlendMode::LighterColor)[0]);
            assert(key_of(BlendMode::HardLight)[0] != key_of(BlendMode::Overlay)[0]);
            assert(key_of(BlendMode::HardLight)[0] != key_of(BlendMode::SoftLight)[0]);
        },
        BlendMode::VividLight => {
            assert(key_of(BlendMode::VividLight)[0] != key_of(BlendMode::Normal)[0]);
            assert(key_of(BlendMode::VividLight)[0] != key_of(BlendMode::Dissolve)[0]);
            assert(key_of(BlendMode::VividLight)[0] != key_of(BlendMode::Darken)[0]);
            assert(key_of(BlendMode::VividLight)[0] != key_of(BlendMode::Multiply)[0]);
            assert(key_of(BlendMode::VividLight)[0] != key_of(BlendMode::ColorBurn)[0]);
            assert(key_of(BlendMode::VividLight)[0] != key_of(BlendMode::LinearBurn)[0]);
            assert(key_of(BlendMode::VividLight)[0] != key_of(BlendMode::DarkerColor)[0]);
            assert(key_of(BlendMode::VividLight)[0] != key_of(BlendMode::Lighten)[0]);
            assert(key_of(BlendMode::VividLight)[0] != key_of(BlendMode::Screen)[0]);
            assert(key_of(BlendMode::VividLight)[0] != key_of(BlendMode::ColorDodge)[0]);
            assert(key_of(BlendMode::VividLight)[0] != key_of(BlendMode::LinearDodge)[0]);
            assert(key_of(BlendMode::VividLight)[0] != key_of(BlendMode::LighterColor)[0]);
            assert(key_of(BlendMode::VividLight)[0] != key_of(BlendMode::Overlay)[0]);
            assert(key_of(BlendMode::VividLight)[0] != key_of(BlendMode::SoftLight)[0]);
            assert(key_of(BlendMode::VividLight)[0] != key_of(BlendMode::HardLight)[0]);
        },
        BlendMode::LinearLight => {
            assert(key_of(BlendMode::LinearLight)[0] != key_of(BlendMode::Normal)[0]);
            assert(key_of(BlendMode::LinearLight)[0] != key_of(BlendMode::Dissolve)[0]);
            assert(key_of(BlendMode::LinearLight)[0] != key_of(BlendMode::Darken)[0]);
            assert(key_of(BlendMode::LinearLight)[0] != key_of(BlendMode::Multiply)[0]);
            assert(key_of(BlendMode::LinearLight)[0] != key_of(BlendMode::ColorBurn)[0]);
            assert(key_of(BlendMode::LinearLight)[1] != key_of(BlendMode::LinearBurn)[1]);
            assert(key_of(BlendMode::LinearLight)[0] != key_of(BlendMode::DarkerColor)[0]);
            assert(key_of(BlendMode::LinearLight)[1] != key_of(BlendMode::Lighten)[1]);
            assert(key_of(BlendMode::LinearLight)[0] != key_of(BlendMode::Screen)[0]);
            assert(key_of(BlendMode::LinearLight)[0] != key_of(BlendMode::ColorDodge)[0]);
            assert(key_of(BlendMode::LinearLight)[1] != key_of(BlendMode::LinearDodge)[1]);
            assert(key_of(BlendMode::LinearLight)[1] != key_of(BlendMode::LighterColor)[1]);
            assert(key_of(BlendMode::LinearLight)[0] != key_of(BlendMode::Overlay)[0]);
            assert(key_of(BlendMode::LinearLight)[0] != key_of(BlendMode::SoftLight)[0]);
            assert(key_of(BlendMode::LinearLight)[0] != key_of(BlendMode::HardLight)[0]);
            assert(key_of(BlendMode::LinearLight)[0] != key_of(BlendMode::VividLight)[0]);
        },
        BlendMode::PinLight => {
            assert(key_of(BlendMode::PinLight)[0] != key_of(BlendMode::Normal)[0]);
            assert(key_of(BlendMode::PinLight)[0] != key_of(BlendMode::Dissolve)[0]);
            assert(key_of(BlendMode::PinLight)[0] != key_of(BlendMode::Darken)[0]);
            assert(key_of(BlendMode::PinLight)[0] != key_of(BlendMode::Multiply)[0]);
            assert(key_of(BlendMode::PinLight)[0] != key_of(BlendMode::ColorBurn)[0]);
            assert(key_of(BlendMode::PinLight)[0] != key_of(BlendMode::LinearBurn)[0]);
            assert(key_of(BlendMode::PinLight)[0] != key_of(BlendMode::DarkerColor)[0]);
            assert(key_of(BlendMode::PinLight)[0] != key_of(BlendMode::Lighten)[0]);
            assert(key_of(BlendMode::PinLight)[0] != key_of(BlendMode::Screen)[0]);
            assert(key_of(BlendMode::PinLight)[0] != key_of(BlendMode::ColorDodge)[0]);
            assert(key_of(BlendMode::PinLight)[0] != key_of(BlendMode::LinearDodge)[0]);
            assert(key_of(BlendMode::PinLight)[0] != key_of(BlendMode::LighterColor)[0]);
            assert(key_of(BlendMode::PinLight)[0] != key_of(BlendMode::Overlay)[0]);
            assert(key_of(BlendMode::PinLight)[0] != key_of(BlendMode::SoftLight)[0]);
            assert(key_of(BlendMode::PinLight)[0] != key_of(BlendMode::HardLight)[0]);
            assert(key_of(BlendMode::PinLight)[0] != key_of(BlendMode::VividLight)[0]);
            assert(key_of(BlendMode::PinLight)[0] != key_of(BlendMode::LinearLight)[0]);
        },
        BlendMode::HardMix => {
            assert(key_of(BlendMode::HardMix)[0] != key_of(BlendMode::Normal)[0]);
            assert(key_of(BlendMode::HardMix)[0] != key_of(BlendMode::Dissolve)[0]);
            assert(key_of(BlendMode::HardMix)[0] != key_of(BlendMode::Darken)[0]);
            assert(key_of(BlendMode::HardMix)[0] != key_of(BlendMode::Multiply)[0]);
            assert(key_of(BlendMode::HardMix)[0] != key_of(BlendMode::ColorBurn)[0]);
            assert(key_of(BlendMode::HardMix)[0] != key_of(BlendMode::LinearBurn)[0]);
            assert(key_of(BlendMode::HardMix)[0] != key_of(BlendMode::DarkerColor)[0]);
            assert(key_of(BlendMode::HardMix)[0] != key_of(BlendMode::Lighten)[0]);
            assert(key_of(BlendMode::HardMix)[0] != key_of(BlendMode::Screen)[0]);
            assert(key_of(BlendMode::HardMix)[0] != key_of(BlendMode::ColorDodge)[0]);
            assert(key_of(BlendMode::HardMix)[0] != key_of(BlendMode::LinearDodge)[0]);
            assert(key_of(BlendMode::HardMix)[0] != key_of(BlendMode::LighterColor)[0]);
            assert(key_of(BlendMode::HardMix)[0] != key_of(BlendMode::Overlay)[0]);
            assert(key_of(BlendMode::HardMix)[0] != key_of(BlendMode::SoftLight)[0]);
            assert(key_of(BlendMode::HardMix)[1] != key_of(BlendMode::HardLight)[1]);
            assert(key_of(BlendMode::HardMix)[0] != key_of(BlendMode::VividLight)[0]);
            assert(key_of(BlendMode::HardMix)[0] != key_of(BlendMode::LinearLight)[0]);
            assert(key_of(BlendMode::HardMix)[0] != key_of(BlendMode::PinLight)[0]);
        },
        BlendMode::Difference => {
            assert(key_of(BlendMode::Difference)[0] != key_of(BlendMode::Normal)[0]);
            assert(key_of(BlendMode::Difference)[2] != key_of(BlendMode::Dissolve)[2]);
            assert(key_of(BlendMode::Difference)[1] != key_of(BlendMode::Darken)[1]);
            assert(key_of(BlendMode::Difference)[0] != key_of(BlendMode::Multiply)[0]);
            assert(key_of(BlendMode::Difference)[0] != key_of(BlendMode::ColorBurn)[0]);
            assert(key_of(BlendMode::Difference)[0] != key_of(BlendMode::LinearBurn)[0]);
            assert(key_of(BlendMode::Difference)[1] != key_of(BlendMode::DarkerColor)[1]);
            assert(key_of(BlendMode::Difference)[0] != key_of(BlendMode::Lighten)[0]);
            assert(key_of(BlendMode::Difference)[0] != key_of(BlendMode::Screen)[0]);
            assert(key_of(BlendMode::Difference)[2] != key_of(BlendMode::ColorDodge)[2]);
            assert(key_of(BlendMode::Difference)[0] != key_of(BlendMode::LinearDodge)[0]);
            assert(key_of(BlendMode::Difference)[0] != key_of(BlendMode::LighterColor)[0]);
            assert(key_of(BlendMode::Difference)[0] != key_of(BlendMode::Overlay)[0]);
            assert(key_of(BlendMode::Difference)[0] != key_of(BlendMode::SoftLight)[0]);
            assert(key_of(BlendMode::Difference)[0] != key_of(BlendMode::HardLight)[0]);
            assert(key_of(BlendMode::Difference)[0] != key_of(BlendMode::VividLight)[0]);
            assert(key_of(BlendMode::Difference)[0] != key_of(BlendMode::LinearLight)[0]);
            assert(key_of(BlendMode::Difference)[0] != key_of(BlendMode::PinLight)[0]);
            assert(key_of(BlendMode::Difference)[0] != key_of(BlendMode::HardMix)[0]);
        },
        BlendMode::Exclusion => {
            assert(key_of(BlendMode::Exclusion)[0] != key_of(BlendMode::Normal)[0]);
            assert(key_of(BlendMode::Exclusion)[0] != key_of(BlendMode::Dissolve)[0]);
            assert(key_of(BlendMode::Exclusion)[0] != key_of(BlendMode::Darken)[0]);
            assert(key_of(BlendMode::Exclusion)[0] != key_of(BlendMode::Multiply)[0]);
            assert(key_of(BlendMode::Exclusion)[0] != key_of(BlendMode::ColorBurn)[0]);
            assert(key_of(BlendMode::Exclusion)[0] != key_of(BlendMode::LinearBurn)[0]);
            assert(key_of(BlendMode::Exclusion)[0] != key_of(BlendMode::DarkerColor)[0]);
            assert(key_of(BlendMode::Exclusion)[0] != key_of(BlendMode::Lighten)[0]);
            assert(key_of(BlendMode::Exclusion)[1] != key_of(BlendMode::Screen)[1]);
            assert(key_of(BlendMode::Exclusion)[0] != key_of(BlendMode::ColorDodge)[0]);
            assert(key_of(BlendMode::Exclusion)[0] != key_of(BlendMode::LinearDodge)[0]);
            assert(key_of(BlendMode::Exclusion)[0] != key_of(BlendMode::LighterColor)[0]);
            assert(key_of(BlendMode::Exclusion)[0] != key_of(BlendMode::Overlay)[0]);
            assert(key_of(BlendMode::Exclusion)[1] != key_of(BlendMode::SoftLight)[1]);
            assert(key_of(BlendMode::Exclusion)[0] != key_of(BlendMode::HardLight)[0]);
            assert(key_of(BlendMode::Exclusion)[0] != key_of(BlendMode::VividLight)[0]);
            assert(key_of(BlendMode::Exclusion)[0] != key_of(BlendMode::LinearLight)[0]);
            assert(key_of(BlendMode::Exclusion)[0] != key_of(BlendMode::PinLight)[0]);
            assert(key_of(BlendMode::Exclusion)[0] != key_of(BlendMode::HardMix)[0]);
            assert(key_of(BlendMode::Exclusion)[0] != key_of(BlendMode::Difference)[0]);
        },
        BlendMode::Subtract => {
            assert(key_of(BlendMode::Subtract)[0] != key_of(BlendMode::Normal)[0]);
            assert(key_of(BlendMode::Subtract)[0] != key_of(BlendMode::Dissolve)[0]);
            assert(key_of(BlendMode::Subtract)[0] != key_of(BlendMode::Darken)[0]);
            assert(key_of(BlendMode::Subtract)[0] != key_of(BlendMode::Multiply)[0]);
            assert(key_of(BlendMode::Subtract)[0] != key_of(BlendMode::ColorBurn)[0]);
            assert(key_of(BlendMode::Subtract)[0] != key_of(BlendMode::LinearBurn)[0]);
            assert(key_of(BlendMode::Subtract)[0] != key_of(BlendMode::DarkerColor)[0]);
            assert(key_of(BlendMode::Subtract)[0] != key_of(BlendMode::Lighten)[0]);
            assert(key_of(BlendMode::Subtract)[0] != key_of(BlendMode::Screen)[0]);
            assert(key_of(BlendMode::Subtract)[0] != key_of(BlendMode::ColorDodge)[0]);
            assert(key_of(BlendMode::Subtract)[0] != key_of(BlendMode::LinearDodge)[0]);
            assert(key_of(BlendMode::Subtract)[0] != key_of(BlendMode::LighterColor)[0]);
            assert(key_of(BlendMode::Subtract)[0] != key_of(BlendMode::Overlay)[0]);
            assert(key_of(BlendMode::Subtract)[0] != key_of(BlendMode::SoftLight)[0]);
            assert(key_of(BlendMode::Subtract)[0] != key_of(BlendMode::HardLight)[0]);
            assert(key_of(BlendMode::Subtract)[0] != key_of(BlendMode::VividLight)[0]);
            assert(key_of(BlendMode::Subtract)[0] != key_of(BlendMode::LinearLight)[0]);
            assert(key_of(BlendMode::Subtract)[0] != key_of(BlendMode::PinLight)[0]);
            assert(key_of(BlendMode::Subtract)[0] != key_of(BlendMode::HardMix)[0]);
            assert(key_of(BlendMode::Subtract)[0] != key_of(BlendMode::Difference)[0]);
            assert(key_of(BlendMode::Subtract)[0] != key_of(BlendMode::Exclusion)[0]);
        },
        BlendMode::Divide => {
            assert(key_of(BlendMode::Divide)[0] != key_of(BlendMode::Normal)[0]);
            assert(key_of(BlendMode::Divide)[0] != key_of(BlendMode::Dissolve)[0]);
            assert(key_of(BlendMode::Divide)[0] != key_of(BlendMode::Darken)[0]);
            assert(key_of(BlendMode::Divide)[0] != key_of(BlendMode::Multiply)[0]);
            assert(key_of(BlendMode::Divide)[0] != key_of(BlendMode::ColorBurn)[0]);
            assert(key_of(BlendMode::Divide)[0] != key_of(BlendMode::LinearBurn)[0]);
            assert(key_of(BlendMode::Divide)[0] != key_of(BlendMode::DarkerColor)[0]);
            assert(key_of(BlendMode::Divide)[0] != key_of(BlendMode::Lighten)[0]);
            assert(key_of(BlendMode::Divide)[0] != key_of(BlendMode::Screen)[0]);
            assert(key_of(BlendMode::Divide)[0] != key_of(BlendMode::ColorDodge)[0]);
            assert(key_of(BlendMode::Divide)[0] != key_of(BlendMode::LinearDodge)[0]);
            assert(key_of(BlendMode::Divide)[0] != key_of(BlendMode::LighterColor)[0]);
            assert(key_of(BlendMode::Divide)[0] != key_of(BlendMode::Overlay)[0]);
            assert(key_of(BlendMode::Divide)[0] != key_of(BlendMode::SoftLight)[0]);
            assert(key_of(BlendMode::Divide)[0] != key_of(BlendMode::HardLight)[0]);
            assert(key_of(BlendMode::Divide)[0] != key_of(BlendMode::VividLight)[0]);
            assert(key_of(BlendMode::Divide)[0] != key_of(BlendMode::LinearLight)[0]);
            assert(key_of(BlendMode::Divide)[0] != key_of(BlendMode::PinLight)[0]);
            assert(key_of(BlendMode::Divide)[0] != key_of(BlendMode::HardMix)[0]);
            assert(key_of(BlendMode::Divide)[0] != key_of(BlendMode::Difference)[0]);
            assert(key_of(BlendMode::Divide)[0] != key_of(BlendMode::Exclusion)[0]);
            assert(key_of(BlendMode::Divide)[1] != key_of(BlendMode::Subtract)[1]);
        },
        BlendMode::Hue => {
            assert(key_of(BlendMode::Hue)[0] != key_of(BlendMode::Normal)[0]);
            assert(key_of(BlendMode::Hue)[0] != key_of(BlendMode::Dissolve)[0]);
            assert(key_of(BlendMode::Hue)[0] != key_of(BlendMode::Darken)[0]);
            assert(key_of(BlendMode::Hue)[0] != key_of(BlendMode::Multiply)[0]);
            assert(key_of(BlendMode::Hue)[0] != key_of(BlendMode::ColorBurn)[0]);
            assert(key_of(BlendMode::Hue)[0] != key_of(BlendMode::LinearBurn)[0]);
            assert(key_of(BlendMode::Hue)[0] != key_of(BlendMode::DarkerColor)[0]);
            assert(key_of(BlendMode::Hue)[0] != key_of(BlendMode::Lighten)[0]);
            assert(key_of(BlendMode::Hue)[0] != key_of(BlendMode::Screen)[0]);
            assert(key_of(BlendMode::Hue)[0] != key_of(BlendMode::ColorDodge)[0]);
            assert(key_of(BlendMode::Hue)[0] != key_of(BlendMode::LinearDodge)[0]);
            assert(key_of(BlendMode::Hue)[0] != key_of(BlendMode::LighterColor)[0]);
            assert(key_of(BlendMode::Hue)[0] != key_of(BlendMode::Overlay)[0]);
            assert(key_of(BlendMode::Hue)[0] != key_of(BlendMode::SoftLight)[0]);
            assert(key_of(BlendMode::Hue)[1] != key_of(BlendMode::HardLight)[1]);
            assert(key_of(BlendMode::Hue)[0] != key_of(BlendMode::VividLight)[0]);
            assert(key_of(BlendMode::Hue)[0] != key_of(BlendMode::LinearLight)[0]);
            assert(key_of(BlendMode::Hue)[0] != key_of(BlendMode::PinLight)[0]);
            assert(key_of(BlendMode::Hue)[1] != key_of(BlendMode::HardMix)[1]);
            assert(key_of(BlendMode::Hue)[0] != key_of(BlendMode::Difference)[0]);
            assert(key_of(BlendMode::Hue)[0] != key_of(BlendMode::Exclusion)[0]);
            assert(key_of(BlendMode::Hue)[0] != key_of(BlendMode::Subtract)[0]);
            assert(key_of(BlendMode::Hue)[0] != key_of(BlendMode::Divide)[0]);
        },
        BlendMode::Saturation => {
            assert(key_of(BlendMode::Saturation)[0] != key_of(BlendMode::Normal)[0]);
            assert(key_of(BlendMode::Saturation)[0] != key_of(BlendMode::Dissolve)[0]);
            assert(key_of(BlendMode::Saturation)[0] != key_of(BlendMode::Darken)[0]);
            assert(key_of(BlendMode::Saturation)[0] != key_of(BlendMode::Multiply)[0]);
            assert(key_of(BlendMode::Saturation)[0] != key_of(BlendMode::ColorBurn)[0]);
            assert(key_of(BlendMode::Saturation)[0] != key_of(BlendMode::LinearBurn)[0]);
            assert(key_of(BlendMode::Saturation)[0] != key_of(BlendMode::DarkerColor)[0]);
            assert(key_of(BlendMode::Saturation)[0] != key_of(BlendMode::Lighten)[0]);
            assert(key_of(BlendMode::Saturation)[1] != key_of(BlendMode::Screen)[1]);
            assert(key_of(BlendMode::Saturation)[0] != key_of(BlendMode::ColorDodge)[0]);
            assert(key_of(BlendMode::Saturation)[0] != key_of(BlendMode::LinearDodge)[0]);
            assert(key_of(BlendMode::Saturation)[0] != key_of(BlendMode::LighterColor)[0]);
            assert(key_of(BlendMode::Saturation)[0] != key_of(BlendMode::Overlay)[0]);
            assert(key_of(BlendMode::Saturation)[1] != key_of(BlendMode::SoftLight)[1]);
            assert(key_of(BlendMode::Saturation)[0] != key_of(BlendMode::HardLight)[0]);
            assert(key_of(BlendMode::Saturation)[0] != key_of(BlendMode::VividLight)[0]);
            assert(key_of(BlendMode::Saturation)[0] != key_of(BlendMode::LinearLight)[0]);
            assert(key_of(BlendMode::Saturation)[0] != key_of(BlendMode::PinLight)[0]);
            assert(key_of(BlendMode::Saturation)[0] != key_of(BlendMode::HardMix)[0]);
            assert(key_of(BlendMode::Saturation)[0] != key_of(BlendMode::Difference)[0]);
            assert(key_of(BlendMode::Saturation)[1] != key_of(BlendMode::Exclusion)[1]);
            assert(key_of(BlendMode::Saturation)[0] != key_of(BlendMode::Subtract)[0]);
            assert(key_of(BlendMode::Saturation)[0] != key_of(BlendMode::Divide)[0]);
            assert(key_of(BlendMode::Saturation)[0] != key_of(BlendMode::Hue)[0]);
        },
        BlendMode::Color => {
            assert(key_of(BlendMode::Color)[0] != key_of(BlendMode::Normal)[0]);
            assert(key_of(BlendMode::Color)[0] != key_of(BlendMode::Dissolve)[0]);
            assert(key_of(BlendMode::Color)[0] != key_of(BlendMode::Darken)[0]);
            assert(key_of(BlendMode::Color)[0] != key_of(BlendMode::Multiply)[0]);
            assert(key_of(BlendMode::Color)[0] != key_of(BlendMode::ColorBurn)[0]);
            assert(key_of(BlendMode::Color)[0] != key_of(BlendMode::LinearBurn)[0]);
            assert(key_of(BlendMode::Color)[0] != key_of(BlendMode::DarkerColor)[0]);
            assert(key_of(BlendMode::Color)[0] != key_of(BlendMode::Lighten)[0]);
            assert(key_of(BlendMode::Color)[0] != key_of(BlendMode::Screen)[0]);
            assert(key_of(BlendMode::Color)[0] != key_of(BlendMode::ColorDodge)[0]);
            assert(key_of(BlendMode::Color)[0] != key_of(BlendMode::LinearDodge)[0]);
            assert(key_of(BlendMode::Color)[0] != key_of(BlendMode::LighterColor)[0]);
            assert(key_of(BlendMode::Color)[0] != key_of(BlendMode::Overlay)[0]);
            assert(key_of(BlendMode::Color)[0] != key_of(BlendMode::SoftLight)[0]);
            assert(key_of(BlendMode::Color)[0] != key_of(BlendMode::HardLight)[0]);
            assert(key_of(BlendMode::Color)[0] != key_of(BlendMode::VividLight)[0]);
            assert(key_of(BlendMode::Color)[0] != key_of(BlendMode::LinearLight)[0]);
            assert(key_of(BlendMode::Color)[0] != key_of(BlendMode::PinLight)[0]);
            assert(key_of(BlendMode::Color)[0] != key_of(BlendMode::HardMix)[0]);
            assert(key_of(BlendMode::Color)[0] != key_of(BlendMode::Difference)[0]);
            assert(key_of(BlendMode::Color)[0] != key_of(BlendMode::Exclusion)[0]);
            assert(key_of(BlendMode::Color)[0] != key_of(BlendMode::Subtract)[0]);
            assert(key_of(BlendMode::Color)[0] != key_of(BlendMode::Divide)[0]);
            assert(key_of(BlendMode::Color)[0] != key_of(BlendMode::Hue)[0]);
            assert(key_of(BlendMode::Color)[0] != key_of(BlendMode::Saturation)[0]);
        },
        BlendMode::Luminosity => {
            assert(key_of(BlendMode::Luminosity)[0] != key_of(BlendMode::Normal)[0]);
            assert(key_of(BlendMode::Luminosity)[0] != key_of(BlendMode::Dissolve)[0]);
            assert(key_of(BlendMode::Luminosity)[0] != key_of(BlendMode::Darken)[0]);
            assert(key_of(BlendMode::Luminosity)[0] != key_of(BlendMode::Multiply)[0]);
            assert(key_of(BlendMode::Luminosity)[0] != key_of(BlendMode::ColorBurn)[0]);
            assert(key_of(BlendMode::Luminosity)[1] != key_of(BlendMode::LinearBurn)[1]);
            assert(key_of(BlendMode::Luminosity)[0] != key_of(BlendMode::DarkerColor)[0]);
            assert(key_of(BlendMode::Luminosity)[1] != key_of(BlendMode::Lighten)[1]);
            assert(key_of(BlendMode::Luminosity)[0] != key_of(BlendMode::Screen)[0]);
            assert(key_of(BlendMode::Luminosity)[0] != key_of(BlendMode::ColorDodge)[0]);
            assert(key_of(BlendMode::Luminosity)[1] != key_of(BlendMode::LinearDodge)[1]);
            assert(key_of(BlendMode::Luminosity)[1] != key_of(BlendMode::LighterColor)[1]);
            assert(key_of(BlendMode::Luminosity)[0] != key_of(BlendMode::Overlay)[0]);
            assert(key_of(BlendMode::Luminosity)[0] != key_of(BlendMode::SoftLight)[0]);
            assert(key_of(BlendMode::Luminosity)[0] != key_of(BlendMode::HardLight)[0]);
            assert(key_of(BlendMode::Luminosity)[0] != key_of(BlendMode::VividLight)[0]);
            assert(key_of(BlendMode::Luminosity)[1] != key_of(BlendMode::LinearLight)[1]);
            assert(key_of(BlendMode::Luminosity)[0] != key_of(BlendMode::PinLight)[0]);
            assert(key_of(BlendMode::Luminosity)[0] != key_of(BlendMode::HardMix)[0]);
            assert(key_of(BlendMode::Luminosity)[0] != key_of(BlendMode::Difference)[0]);
            assert(key_of(BlendMode::Luminosity)[0] != key_of(BlendMode::Exclusion)[0]);
            assert(key_of(BlendMode::Luminosity)[0] != key_of(BlendMode::Subtract)[0]);
            assert(key_of(BlendMode::Luminosity)[0] != key_of(BlendMode::Divide)[0]);
            assert(key_of(BlendMode::Luminosity)[0] != key_of(BlendMode::Hue)[0]);
            assert(key_of(BlendMode::Luminosity)[0] != key_of(BlendMode::Saturation)[0]);
            assert(key_of(BlendMode::Luminosity)[0] != key_of(BlendMode::Color)[0]);
        },
    }
}

/// A key that is not one of the table's reads as Normal.
pub proof fn law_unknown_key_is_normal(key: Seq<u8>)
    requires
        forall|m: BlendMode| key != #[trigger] key_of(m),
    ensures
        mode_of_key(key) == BlendMode::Normal,
{
    assert(key != key_of(BlendMode::Normal));
    assert(key != key_of(BlendMode::Dissolve));
    assert(key != key_of(BlendMode::Darken));
    assert(key != key_of(BlendMode::Multiply));
    assert(key != key_of(BlendMode::ColorBurn));
    assert(key != key_of(BlendMode::LinearBurn));
    assert(key != key_of(BlendMode::DarkerColor));
    assert(key != key_of(BlendMode::Lighten));
    assert(key != key_of(BlendMode::Screen));
    assert(key != key_of(BlendMode::ColorDodge));
    assert(key != key_of(BlendMode::LinearDodge));
    assert(key != key_of(BlendMode::LighterColor));
    assert(key != key_of(BlendMode::Overlay));
    assert(key != key_of(BlendMode::SoftLight));
    assert(key != key_of(BlendMode::HardLight));
    assert(key != key_of(BlendMode::VividLight));
    assert(key != key_of(BlendMode::LinearLight));
    assert(key != key_of(BlendMode::PinLight));
    assert(key != key_of(BlendMode::HardMix));
    assert(key != key_of(BlendMode::Difference));
    assert(key != key_of(BlendMode::Exclusion));
    assert(key != key_of(BlendMode::Subtract));
    assert(key != key_of(BlendMode::Divide));
    assert(key != key_of(BlendMode::Hue));
    assert(key != key_of(BlendMode::Saturation));
    assert(key != key_of(BlendMode::Color));
    assert(key != key_of(BlendMode::Luminosity));
}

// ---------------------------------------------------------------------------
// Image data
// ---------------------------------------------------------------------------

/// `count` planes of `p` raw bytes each, read one after another from `at`.
pub open spec fn raw_planes(d: Seq<u8>, at: int, count: int, p: int) -> Result<Seq<u8>, Fault>
    decreases count,
{
    if count <= 0 {
        Ok(seq![])
    } else if !fits(d.len() as int, at, p) {
        Err(eof_at(d.len() as int, at, p))
    } else {
        match raw_planes(d, at + p, count - 1, p) {
            Ok(rest) => Ok(d.subrange(at, at + p) + rest),
            Err(f) => Err(f),
        }
    }
}

/// `n` big-endian 16-bit lengths read one after another from `at`.
pub open spec fn u16_list(d: Seq<u8>, at: int, n: int) -> Result<Seq<int>, Fault>
    decreases n,
{
    if n <= 0 {
        Ok(seq![])
    } else if !fits(d.len() as int, at, 2) {
        Err(eof_at(d.len() as int, at, 2))
    } else {
        match u16_list(d, at + 2, n - 1) {
            Ok(rest) => Ok(seq![be_u16(d, at) as int] + rest),
            Err(f) => Err(f),
        }
    }
}

/// PackBits rows laid end to end from `at`, one per entry of `lens`, each
/// decoded to `w` bytes; the decoded rows are concatenated.
pub open spec fn rle_rows(d: Seq<u8>, at: int, lens: Seq<int>, w: int) -> Result<Seq<u8>, Fault>
    decreases lens.len(),
{
    if lens.len() == 0 {
        Ok(seq![])
    } else if !fits(d.len() as int, at, lens[0]) {
        Err(eof_at(d.len() as int, at, lens[0]))
    } else {
        match rle_rows(d, at + lens[0], lens.drop_first(), w) {
            Ok(rest) => Ok(unpack(d.subrange(at, at + lens[0]), w) + rest),
            Err(f) => Err(f),
        }
    }
}

/// Interleave `count` planes of `p` bytes, stored one after another in
/// `planes`, into pixels. Greyscale spreads its one plane over red, green and
/// blue; a plane past the colour ones is alpha; a missing plane reads as 0, or
/// 255 for alpha.
pub open spec fn interleave(planes: Seq<u8>, p: int, count: int, grayscale: bool) -> Seq<Rgba8> {
    Seq::new(
        p as nat,
        |i: int|
            {
                let plane = |c: int, missing: u8|
                    if c < count {
                        planes[c * p + i]
                    } else {
                        missing
                    };
                if grayscale {
                    Rgba8 { r: plane(0, 0), g: plane(0, 0), b: plane(0, 0), a: plane(1, 255) }
                } else {
                    Rgba8 { r: plane(0, 0), g: plane(1, 0), b: plane(2, 0), a: plane(3, 255) }
                }
            },
    )
}

/// What decoding the flattened composite at `at` gives.
pub open spec fn spec_composite(d: Seq<u8>, at: int, header: PsdHeader) -> Result<Seq<Rgba8>, Fault> {
    let len = d.len() as int;
    let w = header.width as int;
    let h = header.height as int;
    let count = header.channels as int;
    let gray = header.color_mode == ColorMode::Grayscale;
    if !fits(len, at, 2) {
        Err(eof_at(len, at, 2))
    } else if be_u16(d, at) == 0 {
        match raw_planes(d, at + 2, count, w * h) {
            Ok(planes) => Ok(interleave(planes, w * h, count, gray)),
            Err(f) => Err(f),
        }
    } else if be_u16(d, at) == 1 {
        match u16_list(d, at + 2, h * count) {
            Ok(lens) => match rle_rows(d, at + 2 + 2 * (h * count), lens, w) {
                Ok(planes) => Ok(interleave(planes, w * h, count, gray)),
                Err(f) => Err(f),
            },
            Err(f) => Err(f),
        }
    } else if be_u16(d, at) == 2 || be_u16(d, at) == 3 {
        Err(Fault::Unsupported("ZIP-compressed image data"@))
    } else {
        Err(Fault::Unsupported("compression method "@ + decimal(be_u16(d, at) as nat)))
    }
}

proof fn lemma_raw_planes_len(d: Seq<u8>, at: int, count: int, p: int)
    requires
        at >= 0,
        count >= 0,
        p >= 0,
        raw_planes(d, at, count, p) is Ok,
    ensures
        raw_planes(d, at, count, p)->Ok_0.len() == count * p,
    decreases count,
{
    if count > 0 {
        assert(fits(d.len() as int, at, p));
        assert(raw_planes(d, at + p, count - 1, p) is Ok);
        lemma_raw_planes_len(d, at + p, count - 1, p);
        let rest = raw_planes(d, at + p, count - 1, p)->Ok_0;
        assert(raw_planes(d, at, count, p)->Ok_0 == d.subrange(at, at + p) + rest);
        assert(d.subrange(at, at + p).len() == p);
        assert(count * p == (count - 1) * p + p) by (nonlinear_arith);
    } else {
        assert(count * p == 0) by (nonlinear_arith)
            requires
                count == 0,
        ;
    }
}

proof fn lemma_u16_list_len(d: Seq<u8>, at: int, n: int)
    requires
        n >= 0,
        u16_list(d, at, n) is Ok,
    ensures
        u16_list(d, at, n)->Ok_0.len() == n,
    decreases n,
{
    if n > 0 {
        lemma_u16_list_len(d, at + 2, n - 1);
    }
}

proof fn lemma_rle_rows_len(d: Seq<u8>, at: int, lens: Seq<int>, w: int)
    requires
        w >= 0,
        rle_rows(d, at, lens, w) is Ok,
    ensures
        rle_rows(d, at, lens, w)->Ok_0.len() == lens.len() * w,
    decreases lens.len(),
{
    if lens.len() > 0 {
        lemma_rle_rows_len(d, at + lens[0], lens.drop_first(), w);
        assert(lens.len() * w == (lens.len() - 1) * w + w) by (nonlinear_arith);
    }
}

/// Read `count` raw planes of `p` bytes each onto the end of `out`.
fn read_raw_planes(r: &mut Reader, count: usize, p: usize, out: &mut Vec<u8>) -> (res: Result<
    (),
    PsdError,
>)
    requires
        old(r).wf(),
        old(out)@.len() + count * p <= usize::MAX,
    ensures
        final(r).wf(),
        final(r).data@ == old(r).data@,
        match raw_planes(old(r).data@, old(r).pos as int, count as int, p as int) {
            Ok(planes) => res is Ok && final(out)@ == old(out)@ + planes,
            Err(f) => outcome(res) == Err::<(), Fault>(f),
        },
{
    let ghost d = r.data@;
    let ghost start = r.pos as int;
    let ghost base = out@;
    let mut c: usize = 0;
    while c < count
        invariant
            r.wf(),
            r.data@ == d,
            c <= count,
            r.pos == start + c * p,
            out@.len() == base.len() + c * p,
            base.len() + count * p <= usize::MAX,
            raw_planes(d, start, count as int, p as int) == match raw_planes(
                d,
                r.pos as int,
                (count - c) as int,
                p as int,
            ) {
                Ok(rest) => Ok(out@.subrange(base.len() as int, out@.len() as int) + rest),
                Err(f) => Err(f),
            },
            out@.subrange(0, base.len() as int) == base,
            d == old(r).data@,
            start == old(r).pos,
            base == old(out)@,
        decreases count - c,
    {
        proof {
            assert(c * p + p <= count * p) by (nonlinear_arith)
                requires
                    c < count,
            ;
        }
        let ghost pos = r.pos as int;
        let plane = match r.take(p) {
            Ok(b) => b,
            Err(e) => {
                return Err(e);
            },
        };
        let ghost before = out@;
        out.extend_from_slice(plane);
        proof {
            let done_before = before.subrange(base.len() as int, before.len() as int);
            let done_after = out@.subrange(base.len() as int, out@.len() as int);
            assert(done_after =~= done_before + plane@);
            assert(out@.subrange(0, base.len() as int) =~= base);
            assert((c + 1) * p == c * p + p) by (nonlinear_arith);
            match raw_planes(d, r.pos as int, (count - c - 1) as int, p as int) {
                Ok(rest) => {
                    assert(done_before + (plane@ + rest) =~= done_after + rest);
                },
                Err(f) => {},
            }
        }
        c = c + 1;
    }
    proof {
        assert(out@ =~= base + out@.subrange(base.len() as int, out@.len() as int));
    }
    Ok(())
}

/// Read `n` big-endian row lengths.
fn read_u16_list(r: &mut Reader, n: usize) -> (res: Result<Vec<usize>, PsdError>)
    requires
        old(r).wf(),
    ensures
        final(r).wf(),
        final(r).data@ == old(r).data@,
        match u16_list(old(r).data@, old(r).pos as int, n as int) {
            Ok(lens) => res is Ok && res->Ok_0@.map_values(|v: usize| v as int) == lens
                && final(r).pos == old(r).pos + 2 * n,
            Err(f) => outcome(res) == Err::<Vec<usize>, Fault>(f),
        },
{
    let ghost d = r.data@;
    let ghost start = r.pos as int;
    let mut out: Vec<usize> = Vec::new();
    let mut k: usize = 0;
    while k < n
        invariant
            r.wf(),
            r.data@ == d,
            k <= n,
            out@.len() == k,
            r.pos == start + 2 * k,
            u16_list(d, start, n as int) == match u16_list(d, r.pos as int, (n - k) as int) {
                Ok(rest) => Ok(out@.map_values(|v: usize| v as int) + rest),
                Err(f) => Err(f),
            },
            d == old(r).data@,
            start == old(r).pos,
        decreases n - k,
    {
        let v = match r.u16() {
            Ok(v) => v,
            Err(e) => {
                return Err(e);
            },
        };
        let ghost before = out@;
        out.push(v as usize);
        proof {
            let mb = before.map_values(|v: usize| v as int);
            let ma = out@.map_values(|v: usize| v as int);
            assert(ma =~= mb + seq![v as int]);
            match u16_list(d, r.pos as int, (n - k - 1) as int) {
                Ok(rest) => {
                    assert(mb + (seq![v as int] + rest) =~= ma + rest);
                },
                Err(f) => {},
            }
        }
        k = k + 1;
    }
    proof {
        assert(out@.map_values(|v: usize| v as int) + seq![] =~= out@.map_values(
            |v: usize| v as int,
        ));
    }
    Ok(out)
}

/// Decode the PackBits rows whose lengths are `lens`, each to `w` bytes, onto
/// the end of `out`.
fn read_rle_rows(r: &mut Reader, lens: &Vec<usize>, w: usize, out: &mut Vec<u8>) -> (res: Result<
    (),
    PsdError,
>)
    requires
        old(r).wf(),
        old(out)@.len() + lens@.len() * w <= usize::MAX,
    ensures
        final(r).wf(),
        final(r).data@ == old(r).data@,
        match rle_rows(
            old(r).data@,
            old(r).pos as int,
            lens@.map_values(|v: usize| v as int),
            w as int,
        ) {
            Ok(rows) => res is Ok && final(out)@ == old(out)@ + rows,
            Err(f) => outcome(res) == Err::<(), Fault>(f),
        },
{
    let ghost d = r.data@;
    let ghost all = lens@.map_values(|v: usize| v as int);
    let ghost base = out@;
    let ghost start = r.pos as int;
    let n = lens.len();
    let mut k: usize = 0;
    assert(all.skip(0) =~= all);
    assert(out@.subrange(base.len() as int, out@.len() as int) =~= seq![]);
    assert(out@.subrange(0, base.len() as int) =~= base);
    while k < n
        invariant
            r.wf(),
            r.data@ == d,
            n == lens@.len(),
            all == lens@.map_values(|v: usize| v as int),
            k <= n,
            out@.len() == base.len() + k * w,
            base.len() + n * w <= usize::MAX,
            out@.subrange(0, base.len() as int) == base,
            d == old(r).data@,
            start == old(r).pos,
            base == old(out)@,
            rle_rows(d, start, all, w as int) == match rle_rows(
                d,
                r.pos as int,
                all.skip(k as int),
                w as int,
            ) {
                Ok(rest) => Ok(out@.subrange(base.len() as int, out@.len() as int) + rest),
                Err(f) => Err(f),
            },
        decreases n - k,
    {
        proof {
            assert(all.skip(k as int).drop_first() =~= all.skip(k + 1));
            assert(all.skip(k as int)[0] == lens@[k as int] as int);
            assert(k * w + w <= n * w) by (nonlinear_arith)
                requires
                    k < n,
            ;
        }
        let packed = match r.take(lens[k]) {
            Ok(b) => b,
            Err(e) => {
                return Err(e);
            },
        };
        let ghost before = out@;
        unpack_bits(packed, w, out);
        proof {
            let done_before = before.subrange(base.len() as int, before.len() as int);
            let done_after = out@.subrange(base.len() as int, out@.len() as int);
            assert(done_after =~= done_before + unpack(packed@, w as int));
            assert(out@.subrange(0, base.len() as int) =~= base);
            assert((k + 1) * w == k * w + w) by (nonlinear_arith);
            match rle_rows(d, r.pos as int, all.skip(k + 1), w as int) {
                Ok(rest) => {
                    assert(done_before + (unpack(packed@, w as int) + rest) =~= done_after + rest);
                },
                Err(f) => {},
            }
        }
        k = k + 1;
    }
    proof {
        assert(all.skip(n as int) =~= seq![]);
        assert(out@ =~= base + out@.subrange(base.len() as int, out@.len() as int));
    }
    Ok(())
}

/// Interleave `count` planes of `p` bytes into pixels.
fn interleave_planes(planes: &Vec<u8>, p: usize, count: usize, grayscale: bool) -> (px: Vec<Rgba8>)
    requires
        planes@.len() == count * p,
    ensures
        px@ == interleave(planes@, p as int, count as int, grayscale),
{
    let mut px: Vec<Rgba8> = Vec::new();
    let mut i: usize = 0;
    while i < p
        invariant
            i <= p,
            planes@.len() == count * p,
            px@ =~= interleave(planes@, p as int, count as int, grayscale).subrange(0, i as int),
        decreases p - i,
    {
        let plane = |c: usize, missing: u8| -> (v: u8)
            requires
                c < 4,
                i < p,
                planes@.len() == count * p,
            ensures
                v == (if c < count {
                    planes@[c * p + i]
                } else {
                    missing
                }),
            {
                let _n = planes.len();
                if c < count {
                    proof {
                        assert(c * p + i < count * p) by (nonlinear_arith)
                            requires
                                c < count,
                                i < p,
                        ;
                    }
                    planes[c * p + i]
                } else {
                    missing
                }
            };
        let pixel = if grayscale {
            let v = plane(0, 0);
            Rgba8 { r: v, g: v, b: v, a: plane(1, 255) }
        } else {
            Rgba8 { r: plane(0, 0), g: plane(1, 0), b: plane(2, 0), a: plane(3, 255) }
        };
        px.push(pixel);
        i = i + 1;
    }
    px
}

/// Decode the flattened composite at the reader's position.
pub fn parse_composite(r: &mut Reader, header: &PsdHeader) -> (res: Result<Pixmap, PsdError>)
    requires
        old(r).wf(),
        valid_dimensions(header.width, header.height),
        header.channels as int * (header.width as int * header.height as int) <= usize::MAX,
    ensures
        final(r).wf(),
        final(r).data@ == old(r).data@,
        match spec_composite(old(r).data@, old(r).pos as int, *header) {
            Ok(px) => res is Ok && res->Ok_0.is(header.width as int, header.height as int, px),
            Err(f) => outcome(res) == Err::<Pixmap, Fault>(f),
        },
{
    let compression = match r.u16() {
        Ok(v) => v,
        Err(e) => return Err(e),
    };
    let width = header.width as usize;
    let height = header.height as usize;
    let count = header.channels as usize;
    proof {
        assert(width * height <= 900000000) by (nonlinear_arith)
            requires
                width <= 30000,
                height <= 30000,
        ;
        assert(height * count <= count * (width * height)) by (nonlinear_arith)
            requires
                width >= 1,
        ;
        assert((height * count) * width == count * (width * height)) by (nonlinear_arith);
    }
    let per_channel = width * height;
    let mut planes: Vec<u8> = Vec::new();
    if compression == 0 {
        match read_raw_planes(r, count, per_channel, &mut planes) {
            Ok(_) => {},
            Err(e) => return Err(e),
        }
        proof {
            lemma_raw_planes_len(r.data@, old(r).pos + 2, count as int, per_channel as int);
            assert(planes@ =~= raw_planes(
                r.data@,
                old(r).pos + 2,
                count as int,
                per_channel as int,
            )->Ok_0);
            assert(planes@.len() == count * (width * height));
        }
    } else if compression == 1 {
        let lens = match read_u16_list(r, height * count) {
            Ok(l) => l,
            Err(e) => return Err(e),
        };
        proof {
            lemma_u16_list_len(r.data@, old(r).pos + 2, (height * count) as int);
            assert(lens@.len() == lens@.map_values(|v: usize| v as int).len());
        }
        match read_rle_rows(r, &lens, width, &mut planes) {
            Ok(_) => {},
            Err(e) => return Err(e),
        }
        proof {
            lemma_rle_rows_len(
                r.data@,
                old(r).pos + 2 + 2 * (height * count),
                lens@.map_values(|v: usize| v as int),
                width as int,
            );
            assert(planes@ =~= rle_rows(
                r.data@,
                old(r).pos + 2 + 2 * (height * count),
                lens@.map_values(|v: usize| v as int),
                width as int,
            )->Ok_0);
            assert(planes@.len() == count * (width * height));
        }
    } else if compression == 2 || compression == 3 {
        return Err(PsdError::Unsupported(String::from_str("ZIP-compressed image data")));
    } else {
        let mut what = String::from_str("compression method ");
        push_decimal(&mut what, compression as u64);
        return Err(PsdError::Unsupported(what));
    }
    let grayscale = header.color_mode == ColorMode::Grayscale;
    let px = interleave_planes(&planes, width * height, count, grayscale);
    Ok(Pixmap::from_pixels(header.width, header.height, px))
}


/// What decoding one layer channel at `at` gives: a compression flag, then
/// either the raw plane or, for PackBits, the channel's own row lengths
/// followed by its rows.
pub open spec fn spec_channel(d: Seq<u8>, at: int, w: int, h: int) -> Result<Seq<u8>, Fault> {
    let len = d.len() as int;
    if !fits(len, at, 2) {
        Err(eof_at(len, at, 2))
    } else if be_u16(d, at) == 0 {
        raw_planes(d, at + 2, 1, w * h)
    } else if be_u16(d, at) == 1 {
        match u16_list(d, at + 2, h) {
            Ok(lens) => rle_rows(d, at + 2 + 2 * h, lens, w),
            Err(f) => Err(f),
        }
    } else {
        Err(
            Fault::Unsupported(
                "compression method "@ + decimal(be_u16(d, at) as nat) + " in layer data"@,
            ),
        )
    }
}

/// Decode one channel's plane, starting at its compression flag.
pub fn read_channel(r: &mut Reader, width: u32, height: u32) -> (res: Result<Vec<u8>, PsdError>)
    requires
        old(r).wf(),
        width as int * height as int <= usize::MAX,
    ensures
        final(r).wf(),
        final(r).data@ == old(r).data@,
        match spec_channel(old(r).data@, old(r).pos as int, width as int, height as int) {
            Ok(plane) => res is Ok && res->Ok_0@ == plane && plane.len() == width * height,
            Err(f) => outcome(res) == Err::<Vec<u8>, Fault>(f),
        },
{
    let compression = match r.u16() {
        Ok(v) => v,
        Err(e) => return Err(e),
    };
    let w = width as usize;
    let h = height as usize;
    let per_channel = w * h;
    let mut plane: Vec<u8> = Vec::new();
    if compression == 0 {
        match read_raw_planes(r, 1, per_channel, &mut plane) {
            Ok(_) => {},
            Err(e) => return Err(e),
        }
        proof {
            lemma_raw_planes_len(r.data@, old(r).pos + 2, 1, per_channel as int);
            assert(plane@ =~= raw_planes(r.data@, old(r).pos + 2, 1, per_channel as int)->Ok_0);
        }
        Ok(plane)
    } else if compression == 1 {
        // Unlike the composite, a layer channel's row lengths sit directly in
        // front of its own rows rather than being pooled for the whole image.
        let lens = match read_u16_list(r, h) {
            Ok(l) => l,
            Err(e) => return Err(e),
        };
        proof {
            lemma_u16_list_len(r.data@, old(r).pos + 2, h as int);
            assert(lens@.len() == lens@.map_values(|v: usize| v as int).len());
            assert(lens@.len() * w == w * h) by (nonlinear_arith)
                requires
                    lens@.len() == h,
            ;
        }
        match read_rle_rows(r, &lens, w, &mut plane) {
            Ok(_) => {},
            Err(e) => return Err(e),
        }
        proof {
            lemma_rle_rows_len(
                r.data@,
                old(r).pos + 2 + 2 * h,
                lens@.map_values(|v: usize| v as int),
                w as int,
            );
            assert(plane@ =~= rle_rows(
                r.data@,
                old(r).pos + 2 + 2 * h,
                lens@.map_values(|v: usize| v as int),
                w as int,
            )->Ok_0);
        }
        Ok(plane)
    } else {
        let mut what = String::from_str("compression method ");
        push_decimal(&mut what, compression as u64);
        what.append(" in layer data");
        Err(PsdError::Unsupported(what))
    }
}

// ---------------------------------------------------------------------------
// The whole file
// ---------------------------------------------------------------------------

/// A parsed PSD file.
pub struct PsdFile {
    pub header: PsdHeader,
    /// The layers, bottom first, each with its pixels.
    pub layers: LayerStack,
    /// What each type layer says, by stack position; `None` for the others.
    pub texts: Vec<Option<Descriptor>>,
    /// The flattened composite stored at the end of the file.
    pub composite: Option<Pixmap>,
}

/// A colour mode's name, as the error for an unimplemented one shows it.
pub open spec fn mode_name(m: ColorMode) -> Seq<char> {
    match m {
        ColorMode::Bitmap => "Bitmap"@,
        ColorMode::Grayscale => "Grayscale"@,
        ColorMode::Indexed => "Indexed"@,
        ColorMode::Rgb => "Rgb"@,
        ColorMode::Cmyk => "Cmyk"@,
        ColorMode::Multichannel => "Multichannel"@,
        ColorMode::Duotone => "Duotone"@,
        ColorMode::Lab => "Lab"@,
    }
}

fn mode_name_text(m: ColorMode) -> (s: String)
    ensures
        s@ == mode_name(m),
{
    match m {
        ColorMode::Bitmap => String::from_str("Bitmap"),
        ColorMode::Grayscale => String::from_str("Grayscale"),
        ColorMode::Indexed => String::from_str("Indexed"),
        ColorMode::Rgb => String::from_str("Rgb"),
        ColorMode::Cmyk => String::from_str("Cmyk"),
        ColorMode::Multichannel => String::from_str("Multichannel"),
        ColorMode::Duotone => String::from_str("Duotone"),
        ColorMode::Lab => String::from_str("Lab"),
    }
}

/// Whether the composite's planes can be counted in memory.
pub open spec fn composite_fits(h: PsdHeader) -> bool {
    h.channels as int * (h.width as int * h.height as int) <= usize::MAX
}

/// What parsing `d` gives: the header, the layer records, each layer's
/// pixels and the composite, if it decodes. Only 8-bit RGB and Greyscale are
/// read; the two sections before the layers are skipped by their lengths; a
/// layer section of length zero holds no layers; and the composite is read
/// from where the layer section says it ends, however far its parser got.
pub open spec fn file_at(d: Seq<u8>) -> Result<
    (PsdHeader, Seq<RecordView>, Seq<Seq<Rgba8>>, Option<Seq<Rgba8>>),
    Fault,
> {
    let len = d.len() as int;
    match spec_parse_header(d) {
        Err(f) => Err(f),
        Ok(h) => if h.depth != 8 {
            Err(
                Fault::Unsupported(
                    decimal(h.depth as nat) + "-bit channels (only 8-bit is implemented)"@,
                ),
            )
        } else if !(h.color_mode == ColorMode::Rgb || h.color_mode == ColorMode::Grayscale) {
            Err(
                Fault::Unsupported(
                    mode_name(h.color_mode)
                        + " colour mode (only RGB and Grayscale are implemented)"@,
                ),
            )
        } else if !fits(len, 26, 4) {
            Err(eof_at(len, 26, 4))
        } else {
            // Colour mode data, only non-empty for Indexed and Duotone.
            let c = be_u32(d, 26) as int;
            if !fits(len, 30, c) {
                Err(eof_at(len, 30, c))
            } else if !fits(len, 30 + c, 4) {
                Err(eof_at(len, 30 + c, 4))
            } else {
                // Image resources: thumbnails, guides, the ICC profile.
                let res = be_u32(d, 30 + c) as int;
                let s = 34 + c + res;
                if !fits(len, 34 + c, res) {
                    Err(eof_at(len, 34 + c, res))
                } else if !fits(len, s, 4) {
                    Err(eof_at(len, s, 4))
                } else {
                    let section = be_u32(d, s) as int;
                    let layers = if section > 0 {
                        section_at(d, s + 4)
                    } else {
                        Ok((seq![], seq![]))
                    };
                    match layers {
                        Err(f) => Err(f),
                        Ok((recs, px)) => {
                            let at = min_of(s + 4 + section, len);
                            let composite = if composite_fits(h) {
                                match spec_composite(d, at, h) {
                                    Ok(p) => Some(p),
                                    Err(_) => None,
                                }
                            } else {
                                None
                            };
                            Ok((h, recs, px, composite))
                        },
                    }
                }
            }
        },
    }
}

/// Parse a PSD file: its header, its layers with their pixels and type data,
/// and the flattened composite.
#[verifier::spinoff_prover]
#[verifier::rlimit(40)]
pub fn parse(data: &[u8]) -> (res: Result<PsdFile, PsdError>)
    ensures
        match file_at(data@) {
            Ok((h, recs, px, composite)) => res matches Ok(file) && {
                &&& file.header == h
                &&& file.layers.layers().len() == recs.len()
                &&& file.layers.next_id() == recs.len() + 1
                &&& file.texts@.len() == recs.len()
                &&& forall|k: int|
                    0 <= k < recs.len() ==> read_layer(
                        #[trigger] file.layers.layers()[k],
                        k,
                        recs[k],
                        px[k],
                    ) && match file.texts@[k] {
                        Some(t) => recs[k].text == Some(t@),
                        None => recs[k].text is None,
                    }
                &&& match composite {
                    Some(p) => file.composite matches Some(c) && c.is(
                        h.width as int,
                        h.height as int,
                        p,
                    ),
                    None => file.composite is None,
                }
            },
            Err(f) => outcome(res) == Err::<PsdFile, Fault>(f),
        },
{
    let header = match parse_header(data) {
        Ok(h) => h,
        Err(e) => return Err(e),
    };
    if header.depth != 8 {
        let mut what = String::new();
        push_decimal(&mut what, header.depth as u64);
        what.append("-bit channels (only 8-bit is implemented)");
        return Err(PsdError::Unsupported(what));
    }
    if !(header.color_mode == ColorMode::Rgb || header.color_mode == ColorMode::Grayscale) {
        let mut what = mode_name_text(header.color_mode);
        what.append(" colour mode (only RGB and Grayscale are implemented)");
        return Err(PsdError::Unsupported(what));
    }
    let mut r = Reader::new(data);
    match r.skip(26) {
        Ok(_) => {},
        Err(e) => return Err(e),
    }
    // Colour mode data: only non-empty for Indexed and Duotone.
    let color_data_len = match r.u32() {
        Ok(v) => v as usize,
        Err(e) => return Err(e),
    };
    match r.skip(color_data_len) {
        Ok(_) => {},
        Err(e) => return Err(e),
    }
    // Image resources: thumbnails, guides, the ICC profile and so on.
    let resources_len = match r.u32() {
        Ok(v) => v as usize,
        Err(e) => return Err(e),
    };
    match r.skip(resources_len) {
        Ok(_) => {},
        Err(e) => return Err(e),
    }
    // Layer and mask information.
    let layer_section_len = match r.u32() {
        Ok(v) => v as usize,
        Err(e) => return Err(e),
    };
    let section_end = if layer_section_len <= usize::MAX - r.pos {
        r.pos + layer_section_len
    } else {
        usize::MAX
    };
    let (layers, texts) = if layer_section_len > 0 {
        match parse_layer_section(&mut r, section_end) {
            Ok(found) => found,
            Err(e) => return Err(e),
        }
    } else {
        (LayerStack::new(), Vec::new())
    };
    // Re-sync in case the layer parser stopped early.
    let len = r.data.len();
    r.pos = if section_end <= len {
        section_end
    } else {
        len
    };
    proof {
        assert(valid_dimensions(header.width, header.height));
        let (c, w, h) = (header.channels as int, header.width as int, header.height as int);
        assert(w * h <= 900000000) by (nonlinear_arith)
            requires
                1 <= w <= 30000,
                1 <= h <= 30000,
        ;
        assert(c * (w * h) <= 65535 * 900000000) by (nonlinear_arith)
            requires
                0 <= c <= 65535,
                0 <= w * h <= 900000000,
        ;
    }
    let fits = (header.channels as u64) * (header.width as u64 * header.height as u64)
        <= usize::MAX as u64;
    let composite = if fits {
        match parse_composite(&mut r, &header) {
            Ok(c) => Some(c),
            Err(_) => None,
        }
    } else {
        None
    };
    Ok(PsdFile { header, layers, texts, composite })
}

/// The image a parsed file shows: its composite, or a transparent canvas of
/// its size when it has none.
pub fn to_pixmap(file: &PsdFile) -> (p: Pixmap)
    requires
        file.header.width as int * file.header.height as int <= usize::MAX,
    ensures
        match &file.composite {
            Some(c) => p.is(c.w() as int, c.h() as int, c.pixels()),
            None => p.is(
                file.header.width as int,
                file.header.height as int,
                Seq::new(
                    (file.header.width as int * file.header.height as int) as nat,
                    |i: int| crate::buffer::clear_px(),
                ),
            ),
        },
{
    match &file.composite {
        Some(c) => c.clone(),
        None => Pixmap::new(file.header.width, file.header.height),
    }
}

// ---------------------------------------------------------------------------
// Type layers
// ---------------------------------------------------------------------------

/// The two signatures additional layer information blocks carry, `8BIM` and
/// `8B64`, and the key of the type block, `TySh`.
pub open spec fn block_signature(s: Seq<u8>) -> bool {
    s == seq![56u8, 66u8, 73u8, 77u8] || s == seq![56u8, 66u8, 54u8, 52u8]
}

pub open spec fn type_key() -> Seq<u8> {
    seq![84u8, 121u8, 83u8, 104u8]
}

/// Walking a layer's additional information blocks from `at` while a whole
/// block header fits before `end`: the body of the first `TySh` block, if the
/// walk gets that far. Each block is a signature, a key and a length, and its
/// body is padded to an even length; a signature that is neither of the two
/// means the walk has lost its place and stops.
pub open spec fn type_block(d: Seq<u8>, at: int, end: int) -> Option<Seq<u8>>
    decreases d.len() - at,
{
    let len = d.len() as int;
    if at < 0 || at > len || at + 12 > end || !fits(len, at, 12) {
        None
    } else if !block_signature(d.subrange(at, at + 4)) {
        None
    } else {
        let length = be_u32(d, at + 8) as int;
        if !fits(len, at + 12, length) {
            None
        } else if d.subrange(at + 4, at + 8) == type_key() {
            Some(d.subrange(at + 12, at + 12 + length))
        } else {
            let next = at + 12 + length + length % 2;
            type_block(d, if next <= len { next } else { len }, end)
        }
    }
}

/// Walk a layer's additional information blocks looking for its type data,
/// up to `extra_end`, and read the first `TySh` block's text descriptor.
///
/// Each block is a signature, a four-character key and a length, so the ones
/// that are not wanted can be stepped over exactly. The caller resumes from
/// the section's stated end either way.
#[verifier::spinoff_prover]
#[verifier::rlimit(40)]
pub fn find_type_tool(r: &mut Reader, extra_end: usize) -> (found: Option<Descriptor>)
    requires
        old(r).wf(),
    ensures
        final(r).wf(),
        final(r).data@ == old(r).data@,
        final(r).pos == old(r).pos,
        match type_block(old(r).data@, old(r).pos as int, extra_end as int) {
            Some(body) => match type_tool_at(body) {
                Some(v) => found is Some && found->Some_0@ == v,
                None => found is None,
            },
            None => found is None,
        },
{
    let ghost d = r.data@;
    let resume = r.pos;
    let sig_a: [u8; 4] = [56, 66, 73, 77];
    let sig_b: [u8; 4] = [56, 66, 54, 52];
    let tysh: [u8; 4] = [84, 121, 83, 104];
    assert(sig_a@ == seq![56u8, 66u8, 73u8, 77u8]);
    assert(sig_b@ == seq![56u8, 66u8, 54u8, 52u8]);
    assert(tysh@ == type_key());
    while extra_end >= 12 && r.pos <= extra_end - 12
        invariant
            r.wf(),
            r.data@ == d,
            d == old(r).data@,
            resume <= d.len(),
            resume == old(r).pos,
            type_block(d, old(r).pos as int, extra_end as int) == type_block(
                d,
                r.pos as int,
                extra_end as int,
            ),
            sig_a@ == seq![56u8, 66u8, 73u8, 77u8],
            sig_b@ == seq![56u8, 66u8, 54u8, 52u8],
            tysh@ == type_key(),
        decreases d.len() - r.pos,
    {
        let (signature, key, length) = match block_header(r) {
            Some(h) => h,
            None => {
                r.pos = resume;
                return None;
            },
        };
        // '8BIM' and '8B64' are the two Photoshop writes; anything else means
        // the walk has lost its place and should stop rather than guess.
        if !same_bytes(&signature, &sig_a) && !same_bytes(&signature, &sig_b) {
            r.pos = resume;
            return None;
        }
        let body = match r.take(length) {
            Ok(b) => b,
            Err(_) => {
                r.pos = resume;
                return None;
            },
        };
        if same_bytes(&key, &tysh) {
            // The first one is the layer's; there is no second.
            let found = type_tool_descriptor(body);
            r.pos = resume;
            return found;
        }
        // Block lengths are padded to an even number of bytes.
        let pad = length % 2;
        let len = r.data.len();
        r.pos = if pad <= len - r.pos {
            r.pos + pad
        } else {
            len
        };
    }
    r.pos = resume;
    None
}

/// A block's signature, key and length, if all twelve bytes are there.
fn block_header(r: &mut Reader) -> (h: Option<([u8; 4], [u8; 4], usize)>)
    requires
        old(r).wf(),
    ensures
        final(r).wf(),
        final(r).data@ == old(r).data@,
        fits(old(r).data@.len() as int, old(r).pos as int, 12) ==> {
            &&& h is Some
            &&& h->Some_0.0@ == old(r).data@.subrange(old(r).pos as int, old(r).pos + 4)
            &&& h->Some_0.1@ == old(r).data@.subrange(old(r).pos + 4, old(r).pos + 8)
            &&& h->Some_0.2 == be_u32(old(r).data@, old(r).pos + 8)
            &&& final(r).pos == old(r).pos + 12
        },
        !fits(old(r).data@.len() as int, old(r).pos as int, 12) ==> h is None,
{
    if r.remaining() < 12 {
        return None;
    }
    let d = r.data;
    let p = r.pos;
    let signature = [d[p], d[p + 1], d[p + 2], d[p + 3]];
    let key = [d[p + 4], d[p + 5], d[p + 6], d[p + 7]];
    let length = (d[p + 8] as usize) * 16777216 + (d[p + 9] as usize) * 65536 + (d[p + 10] as usize)
        * 256 + (d[p + 11] as usize);
    r.pos = p + 12;
    assert(signature@ =~= d@.subrange(p as int, p + 4));
    assert(key@ =~= d@.subrange(p + 4, p + 8));
    Some((signature, key, length))
}

fn same_bytes(b: &[u8], want: &[u8; 4]) -> (r: bool)
    ensures
        r == (b@ == want@),
{
    if b.len() != 4 {
        return false;
    }
    let r = b[0] == want[0] && b[1] == want[1] && b[2] == want[2] && b[3] == want[3];
    assert(r ==> b@ =~= want@);
    r
}

// ---------------------------------------------------------------------------
// Writing
// ---------------------------------------------------------------------------

/// One channel of every pixel, in row order: a plane.
pub open spec fn plane_of(px: Seq<Rgba8>, c: int) -> Seq<u8> {
    Seq::new(px.len(), |i: int| px[i].channel_spec(c))
}

/// `n` zero bytes.
pub open spec fn zeros(n: nat) -> Seq<u8> {
    Seq::new(n, |i: int| 0u8)
}

/// The header of a flattened 8-bit RGBA file of `width` x `height`.
pub open spec fn header_bytes(width: u32, height: u32) -> Seq<u8> {
    signature() + u16_bytes(1) + zeros(6) + u16_bytes(4) + u32_bytes(height) + u32_bytes(width)
        + u16_bytes(8) + u16_bytes(3)
}

/// The raw, planar image data: a zero compression flag, then red, green,
/// blue and alpha planes.
pub open spec fn composite_bytes(px: Seq<Rgba8>) -> Seq<u8> {
    u16_bytes(0) + plane_of(px, 0) + plane_of(px, 1) + plane_of(px, 2) + plane_of(px, 3)
}

/// A whole flattened file: header, three empty sections, image data.
pub open spec fn psd_bytes(width: u32, height: u32, px: Seq<Rgba8>) -> Seq<u8> {
    header_bytes(width, height) + u32_bytes(0) + u32_bytes(0) + u32_bytes(0) + composite_bytes(px)
}

/// A layer's channel data: transparency first, then red, green and blue,
/// each raw behind its own compression flag.
pub open spec fn layer_channel_bytes(px: Seq<Rgba8>) -> Seq<u8> {
    u16_bytes(0) + plane_of(px, 3) + u16_bytes(0) + plane_of(px, 0) + u16_bytes(0) + plane_of(px, 1)
        + u16_bytes(0) + plane_of(px, 2)
}

pub(crate) fn push_u16(out: &mut Vec<u8>, v: u16)
    ensures
        final(out)@ == old(out)@ + u16_bytes(v),
{
    let b = u16_be(v);
    out.push(b[0]);
    out.push(b[1]);
    assert(out@ =~= old(out)@ + u16_bytes(v));
}

pub(crate) fn push_u32(out: &mut Vec<u8>, v: u32)
    ensures
        final(out)@ == old(out)@ + u32_bytes(v),
{
    let b = u32_be(v);
    out.push(b[0]);
    out.push(b[1]);
    out.push(b[2]);
    out.push(b[3]);
    assert(out@ =~= old(out)@ + u32_bytes(v));
}

/// Append channel `c` of every pixel of `image`.
fn push_plane(out: &mut Vec<u8>, image: &Pixmap, c: usize)
    requires
        c < 4,
    ensures
        final(out)@ == old(out)@ + plane_of(image.pixels(), c as int),
{
    let n = image.len();
    let mut i: usize = 0;
    while i < n
        invariant
            n == image.pixels().len(),
            c < 4,
            i <= n,
            out@ =~= old(out)@ + plane_of(image.pixels(), c as int).subrange(0, i as int),
        decreases n - i,
    {
        let v = image.pixel(i).channel(c);
        out.push(v);
        i = i + 1;
    }
}

/// The 26-byte header of a flattened RGBA file.
pub fn write_header(out: &mut Vec<u8>, width: u32, height: u32)
    ensures
        final(out)@ == old(out)@ + header_bytes(width, height),
{
    out.push(56);
    out.push(66);
    out.push(80);
    out.push(83);
    push_u16(out, 1);  // version
    let mut k: usize = 0;
    while k < 6
        invariant
            k <= 6,
            out@ =~= old(out)@ + signature() + u16_bytes(1) + zeros(k as nat),
        decreases 6 - k,
    {
        out.push(0);  // reserved
        k = k + 1;
    }
    push_u16(out, 4);  // channels: RGBA
    push_u32(out, height);
    push_u32(out, width);
    push_u16(out, 8);  // depth
    push_u16(out, ColorMode::Rgb.code());
    assert(out@ =~= old(out)@ + header_bytes(width, height));
}

/// The flattened image at the end of the file, raw and planar.
pub fn write_composite(out: &mut Vec<u8>, image: &Pixmap)
    ensures
        final(out)@ == old(out)@ + composite_bytes(image.pixels()),
{
    push_u16(out, 0);  // compression: raw
    push_plane(out, image, 0);
    push_plane(out, image, 1);
    push_plane(out, image, 2);
    push_plane(out, image, 3);
    assert(out@ =~= old(out)@ + composite_bytes(image.pixels()));
}

/// A layer's channel data, in the order its record lists them.
pub fn write_layer_channels(out: &mut Vec<u8>, pixels: &Pixmap)
    ensures
        final(out)@ == old(out)@ + layer_channel_bytes(pixels.pixels()),
{
    push_u16(out, 0);
    push_plane(out, pixels, 3);
    push_u16(out, 0);
    push_plane(out, pixels, 0);
    push_u16(out, 0);
    push_plane(out, pixels, 1);
    push_u16(out, 0);
    push_plane(out, pixels, 2);
    assert(out@ =~= old(out)@ + layer_channel_bytes(pixels.pixels()));
}

/// The bytes a Pascal string holds for `name`: its UTF-8, cut at 255 bytes.
pub open spec fn pascal_name(name: Seq<char>) -> Seq<u8> {
    if encode_utf8(name).len() <= 255 {
        encode_utf8(name)
    } else {
        encode_utf8(name).subrange(0, 255)
    }
}

/// `out` with a Pascal string for `name` appended: the length byte, the
/// bytes, then zeros until the whole of `out` is a multiple of four long.
pub open spec fn pascal_written(out: Seq<u8>, name: Seq<char>) -> Seq<u8> {
    let o = out.push(pascal_name(name).len() as u8) + pascal_name(name);
    o + zeros(padding(o.len() as int, 4) as nat)
}

/// A Pascal string: one length byte, then the bytes, padded so the whole thing
/// is a multiple of four.
pub fn write_pascal_string(out: &mut Vec<u8>, name: &str)
    requires
        old(out)@.len() + 259 <= usize::MAX,
    ensures
        final(out)@ == pascal_written(old(out)@, name@),
{
    let all = name.as_bytes();
    let n: usize = if all.len() <= 255 {
        all.len()
    } else {
        255
    };
    let bytes = slice_subrange(all, 0, n);
    assert(bytes@ =~= pascal_name(name@));
    out.push(n as u8);
    out.extend_from_slice(bytes);
    let ghost o = out@;
    assert(o =~= old(out)@.push(pascal_name(name@).len() as u8) + pascal_name(name@));
    while out.len() % 4 != 0
        invariant
            out@.len() >= o.len(),
            o.len() + 3 <= usize::MAX,
            out@.len() - o.len() <= padding(o.len() as int, 4),
            (out@.len() % 4 == 0) <==> (out@.len() - o.len() == padding(o.len() as int, 4)),
            out@ =~= o + zeros((out@.len() - o.len()) as nat),
        decreases padding(o.len() as int, 4) - (out@.len() - o.len()),
    {
        out.push(0);
    }
    assert(out@.len() - o.len() == padding(o.len() as int, 4));
}

/// A Pascal string written at a four-byte boundary reads back as the name
/// that was written, as long as its UTF-8 fits the length byte, and the reader
/// ends where the writer did.
pub proof fn law_pascal_string_round_trip(out: Seq<u8>, name: Seq<char>, rest: Seq<u8>)
    requires
        out.len() % 4 == 0,
        encode_utf8(name).len() <= 255,
    ensures
        spec_pascal(pascal_written(out, name) + rest, out.len() as int, 4) == Ok::<
            (Seq<char>, int),
            Fault,
        >((name, pascal_written(out, name).len() as int)),
{
    let b = encode_utf8(name);
    let w = pascal_written(out, name);
    let d = w + rest;
    let at = out.len() as int;
    let n = b.len() as int;
    assert(pascal_name(name) == b);
    assert(d[at] == n as u8);
    assert(d.subrange(at + 1, at + 1 + n) =~= b);
    encode_utf8_valid_utf8(name);
    encode_utf8_decode_utf8(name);
    assert(lenient_text(b) == name);
    assert((at + 1 + n) % 4 == (n + 1) % 4);
    assert(w.len() == at + 1 + n + padding(n + 1, 4));
}

/// Pad to an even length.
pub fn pad_to_even(out: &mut Vec<u8>)
    ensures
        final(out)@ == (if old(out)@.len() % 2 == 1 {
            old(out)@.push(0)
        } else {
            old(out)@
        }),
{
    if out.len() % 2 == 1 {
        out.push(0);
    }
}

/// Write a minimal, valid PSD holding `image` as a single flattened layer.
pub fn write_psd(image: &Pixmap) -> (out: Vec<u8>)
    ensures
        out@ == psd_bytes(image.w(), image.h(), image.pixels()),
{
    let mut out: Vec<u8> = Vec::new();
    write_header(&mut out, image.width(), image.height());
    push_u32(&mut out, 0);  // colour mode data: empty for RGB
    push_u32(&mut out, 0);  // image resources: empty
    push_u32(&mut out, 0);  // layer and mask info: empty, i.e. a flattened file
    write_composite(&mut out, image);
    assert(out@ =~= psd_bytes(image.w(), image.h(), image.pixels()));
    out
}


/// The header `write_psd` writes for a `width` x `height` image.
pub open spec fn written_header(width: u32, height: u32) -> PsdHeader {
    PsdHeader { channels: 4, width, height, depth: 8, color_mode: ColorMode::Rgb }
}

/// Where the flattened image starts in a file `write_psd` wrote: after the
/// header and the three empty sections.
pub open spec fn written_composite_at() -> int {
    38
}

/// A file written by `write_psd` reads back: its header parses to the image's
/// size as 8-bit RGBA, and its flattened image data decodes to the very pixels
/// that were written.
pub proof fn law_written_file_reads_back(width: u32, height: u32, px: Seq<Rgba8>)
    requires
        valid_dimensions(width, height),
        px.len() == width * height,
    ensures
        spec_parse_header(psd_bytes(width, height, px)) == Ok::<PsdHeader, Fault>(
            written_header(width, height),
        ),
        spec_composite(psd_bytes(width, height, px), written_composite_at(), written_header(width, height))
            == Ok::<Seq<Rgba8>, Fault>(px),
{
    lemma_written_header(width, height, px);
    lemma_written_composite(width, height, px);
}

#[verifier::spinoff_prover]
proof fn lemma_written_header(width: u32, height: u32, px: Seq<Rgba8>)
    requires
        valid_dimensions(width, height),
        px.len() == width * height,
    ensures
        spec_parse_header(psd_bytes(width, height, px)) == Ok::<PsdHeader, Fault>(
            written_header(width, height),
        ),
{
    let d = psd_bytes(width, height, px);
    assert(d.subrange(0, 4) =~= signature());
    assert(be_u16(d, 4) == 1);
    assert(be_u16(d, 12) == 4);
    assert(be_u32(d, 14) == height) by {
        assert(d[14] == u32_bytes(height)[0]);
        assert(d[15] == u32_bytes(height)[1]);
        assert(d[16] == u32_bytes(height)[2]);
        assert(d[17] == u32_bytes(height)[3]);
        lemma_u32_bytes(height);
    }
    assert(be_u32(d, 18) == width) by {
        assert(d[18] == u32_bytes(width)[0]);
        assert(d[19] == u32_bytes(width)[1]);
        assert(d[20] == u32_bytes(width)[2]);
        assert(d[21] == u32_bytes(width)[3]);
        lemma_u32_bytes(width);
    }
    assert(be_u16(d, 22) == 8);
    assert(be_u16(d, 24) == 3);
}

#[verifier::spinoff_prover]
proof fn lemma_written_composite(width: u32, height: u32, px: Seq<Rgba8>)
    requires
        px.len() == width * height,
    ensures
        spec_composite(psd_bytes(width, height, px), written_composite_at(), written_header(width, height))
            == Ok::<Seq<Rgba8>, Fault>(px),
{
    let d = psd_bytes(width, height, px);
    let n = px.len() as int;
    let p0 = plane_of(px, 0);
    let p1 = plane_of(px, 1);
    let p2 = plane_of(px, 2);
    let p3 = plane_of(px, 3);
    assert(d.len() == 40 + 4 * n);
    assert(be_u16(d, 38) == 0);
    assert(d.subrange(40, 40 + n) =~= p0);
    assert(d.subrange(40 + n, 40 + 2 * n) =~= p1);
    assert(d.subrange(40 + 2 * n, 40 + 3 * n) =~= p2);
    assert(d.subrange(40 + 3 * n, 40 + 4 * n) =~= p3);
    let hdr = written_header(width, height);
    assert(hdr.width as int * hdr.height as int == n);
    reveal_with_fuel(raw_planes, 2);
    assert(raw_planes(d, 40 + 4 * n, 0, n) == Ok::<Seq<u8>, Fault>(seq![]));
    assert(raw_planes(d, 40 + 3 * n, 1, n) == Ok::<Seq<u8>, Fault>(p3)) by {
        assert(p3 + seq![] =~= p3);
    }
    assert(raw_planes(d, 40 + 2 * n, 2, n) == Ok::<Seq<u8>, Fault>(p2 + p3));
    assert(raw_planes(d, 40 + n, 3, n) == Ok::<Seq<u8>, Fault>(p1 + (p2 + p3)));
    assert(raw_planes(d, 40, 4, n) == Ok::<Seq<u8>, Fault>(p0 + (p1 + (p2 + p3))));
    let planes = p0 + p1 + p2 + p3;
    assert(p0 + (p1 + (p2 + p3)) =~= planes);
    assert(interleave(planes, n, 4, false) =~= px) by {
        assert forall|i: int| 0 <= i < n implies #[trigger] interleave(planes, n, 4, false)[i]
            == px[i] by {
            assert(planes[i] == px[i].r);
            assert(planes[n + i] == px[i].g);
            assert(planes[2 * n + i] == px[i].b);
            assert(planes[3 * n + i] == px[i].a);
        }
    }
}

} // verus!
