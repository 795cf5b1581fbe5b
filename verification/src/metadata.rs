//! Reading what a file says about itself — the engine behind File Info.
//!
//! Two things are read:
//!
//! - **EXIF**, parsed out of JPEG and TIFF — camera, lens, exposure,
//!   orientation and resolution;
//! - **the XMP packet**, lifted whole from any format that carries one.
//!
//! Nothing here writes. Unrecognised or truncated files come back empty rather
//! than failing.
//!
//! EXIF stores exposure, aperture, focal length and resolution as fractions.
//! Those are kept as the two integers the file holds ([`FieldValue::Ratio`]);
//! turning a fraction into the decimal a person reads is left to whoever shows
//! it.

use vstd::prelude::*;
use vstd::slice::slice_subrange;
use vstd::string::{StrSliceExecFns, StringExecFns};

use crate::chars::{decimal, decode_lossy, lenient_text, push_decimal};

verus! {

/// What a field holds: text, or a fraction as the file stores it.
#[derive(Clone, Debug, PartialEq, Eq)]
pub enum FieldValue {
    Text(String),
    /// `numerator / denominator`, read as signed 32-bit halves when `signed`.
    /// `unit` names what the number counts, where the file says.
    Ratio { numerator: u32, denominator: u32, signed: bool, unit: String },
}

/// One thing a file says about itself.
#[derive(Clone, Debug, PartialEq, Eq)]
pub struct Field {
    /// Which pane of the dialog it belongs on, e.g. "Camera Data".
    pub category: String,
    pub label: String,
    pub value: FieldValue,
}

/// [`FieldValue`] with its text as characters.
pub enum ValueView {
    Text(Seq<char>),
    Ratio { numerator: u32, denominator: u32, signed: bool, unit: Seq<char> },
}

/// [`Field`] with its text as characters.
pub struct FieldView {
    pub category: Seq<char>,
    pub label: Seq<char>,
    pub value: ValueView,
}

impl View for FieldValue {
    type V = ValueView;

    open spec fn view(&self) -> ValueView {
        match self {
            FieldValue::Text(s) => ValueView::Text(s@),
            FieldValue::Ratio { numerator, denominator, signed, unit } => ValueView::Ratio {
                numerator: *numerator,
                denominator: *denominator,
                signed: *signed,
                unit: unit@,
            },
        }
    }
}

impl View for Field {
    type V = FieldView;

    open spec fn view(&self) -> FieldView {
        FieldView { category: self.category@, label: self.label@, value: self.value@ }
    }
}

impl Field {
    pub fn new(category: &str, label: &str, value: FieldValue) -> (f: Field)
        ensures
            f@ == (FieldView { category: category@, label: label@, value: value@ }),
    {
        Field { category: category.to_owned(), label: label.to_owned(), value }
    }
}

pub const CAMERA: &'static str = "Camera Data";

pub const BASIC: &'static str = "Basic";

/// Everything read out of one file.
pub struct Metadata {
    pub fields: Vec<Field>,
    /// The XMP packet as it appears in the file, if it has one.
    pub xmp: Option<String>,
    /// The EXIF orientation tag, 1-8, when the file carries one: the number
    /// that says which way up the pixels go.
    pub orientation: Option<u32>,
}

/// How a file's pixels have to be turned to be the right way up.
#[derive(Clone, Copy, PartialEq, Eq, Debug, Structural)]
pub enum Orientation {
    Upright,
    FlipHorizontal,
    Rotate180,
    FlipVertical,
    /// Mirrored along the top-left/bottom-right diagonal.
    Transpose,
    Rotate90Cw,
    /// Mirrored along the other diagonal.
    Transverse,
    Rotate90Ccw,
}

/// The orientation EXIF value `v` stands for; anything outside 1-8 is left
/// upright.
pub open spec fn orientation_of(v: u32) -> Orientation {
    if v == 2 {
        Orientation::FlipHorizontal
    } else if v == 3 {
        Orientation::Rotate180
    } else if v == 4 {
        Orientation::FlipVertical
    } else if v == 5 {
        Orientation::Transpose
    } else if v == 6 {
        Orientation::Rotate90Cw
    } else if v == 7 {
        Orientation::Transverse
    } else if v == 8 {
        Orientation::Rotate90Ccw
    } else {
        Orientation::Upright
    }
}

impl Orientation {
    /// From the EXIF tag's value. Anything outside 1-8 is a file being strange,
    /// and leaving those alone is safer than guessing.
    pub fn from_exif(value: u32) -> (o: Orientation)
        ensures
            o == orientation_of(value),
    {
        match value {
            2 => Orientation::FlipHorizontal,
            3 => Orientation::Rotate180,
            4 => Orientation::FlipVertical,
            5 => Orientation::Transpose,
            6 => Orientation::Rotate90Cw,
            7 => Orientation::Transverse,
            8 => Orientation::Rotate90Ccw,
            _ => Orientation::Upright,
        }
    }

    /// Whether applying it swaps width and height: only the quarter turns and
    /// the two diagonal mirrors do.
    pub fn swaps_axes(self) -> (r: bool)
        ensures
            r == (self == Orientation::Transpose || self == Orientation::Rotate90Cw || self
                == Orientation::Transverse || self == Orientation::Rotate90Ccw),
    {
        match self {
            Orientation::Transpose | Orientation::Rotate90Cw | Orientation::Transverse
            | Orientation::Rotate90Ccw => true,
            _ => false,
        }
    }
}

// ---------------------------------------------------------------------------
// Finding the blocks
// ---------------------------------------------------------------------------

/// Whether `b` begins with `prefix`.
pub open spec fn starts(b: Seq<u8>, prefix: Seq<u8>) -> bool {
    b.len() >= prefix.len() && b.subrange(0, prefix.len() as int) == prefix
}

/// The two TIFF headers, little- and big-endian.
pub open spec fn tiff_magic_le() -> Seq<u8> {
    seq![73u8, 73u8, 42u8, 0u8]
}

pub open spec fn tiff_magic_be() -> Seq<u8> {
    seq![77u8, 77u8, 0u8, 42u8]
}

/// What an EXIF APP1 segment's payload starts with: `Exif` and two zeros.
pub open spec fn exif_magic() -> Seq<u8> {
    seq![69u8, 120u8, 105u8, 102u8, 0u8, 0u8]
}

/// Walking a JPEG's segments from `at`: where the EXIF block of the first
/// APP1 segment that holds one starts and ends. Standalone markers carry no
/// length; the start of the scan or the end of the image stops the walk, as
/// does anything that is not a marker or a length that runs off the end.
pub open spec fn jpeg_exif(b: Seq<u8>, at: int) -> Option<(int, int)>
    decreases b.len() - at,
{
    if at < 0 || at + 4 > b.len() {
        None
    } else if b[at] != 0xFF {
        None
    } else {
        let marker = b[at + 1];
        if marker == 0xD8 || (0xD0 <= marker <= 0xD7) {
            jpeg_exif(b, at + 2)
        } else if marker == 0xDA || marker == 0xD9 {
            None
        } else {
            let length = b[at + 2] * 256 + b[at + 3];
            if length < 2 || at + 2 + length > b.len() {
                None
            } else if marker == 0xE1 && starts(b.subrange(at + 4, at + 2 + length), exif_magic()) {
                Some((at + 10, at + 2 + length))
            } else {
                jpeg_exif(b, at + 2 + length)
            }
        }
    }
}

/// Where the TIFF structure EXIF is stored in lies in `b`: a TIFF is one
/// whole, and a JPEG carries one in an APP1 segment.
pub open spec fn exif_span(b: Seq<u8>) -> Option<(int, int)> {
    if starts(b, tiff_magic_le()) || starts(b, tiff_magic_be()) {
        Some((0, b.len() as int))
    } else if !starts(b, seq![0xFFu8, 0xD8u8]) {
        None
    } else {
        jpeg_exif(b, 2)
    }
}

fn has_prefix(b: &[u8], prefix: &[u8]) -> (r: bool)
    ensures
        r == starts(b@, prefix@),
{
    if b.len() < prefix.len() {
        return false;
    }
    let mut i: usize = 0;
    while i < prefix.len()
        invariant
            b@.len() >= prefix@.len(),
            i <= prefix@.len(),
            forall|k: int| 0 <= k < i ==> b@[k] == prefix@[k],
        decreases prefix@.len() - i,
    {
        if b[i] != prefix[i] {
            assert(b@.subrange(0, prefix@.len() as int)[i as int] != prefix@[i as int]);
            return false;
        }
        i = i + 1;
    }
    assert(b@.subrange(0, prefix@.len() as int) =~= prefix@);
    true
}

/// The TIFF header an EXIF block starts with, wherever it is embedded.
fn find_exif(bytes: &[u8]) -> (r: Option<&[u8]>)
    ensures
        match exif_span(bytes@) {
            Some((start, end)) => r is Some && r->Some_0@ == bytes@.subrange(start, end),
            None => r is None,
        },
{
    let le: [u8; 4] = [73, 73, 42, 0];
    let be: [u8; 4] = [77, 77, 0, 42];
    assert(le@ == tiff_magic_le());
    assert(be@ == tiff_magic_be());
    // A TIFF *is* the EXIF structure, so it can be parsed where it lies.
    if has_prefix(bytes, &le) || has_prefix(bytes, &be) {
        assert(bytes@.subrange(0, bytes@.len() as int) =~= bytes@);
        return Some(bytes);
    }
    let soi: [u8; 2] = [0xFF, 0xD8];
    assert(soi@ == seq![0xFFu8, 0xD8u8]);
    if !has_prefix(bytes, &soi) {
        return None;
    }
    let magic: [u8; 6] = [69, 120, 105, 102, 0, 0];
    assert(magic@ == exif_magic());
    // JPEG: walk the segment chain looking for the APP1 that starts
    // "Exif\0\0". Walking rather than searching, because the byte pattern can
    // occur inside compressed image data.
    let mut at: usize = 2;
    while bytes.len() >= 4 && at <= bytes.len() - 4
        invariant
            2 <= at,
            at <= bytes@.len() + 2,
            exif_span(bytes@) == jpeg_exif(bytes@, at as int),
            magic@ == exif_magic(),
        decreases bytes@.len() + 2 - at,
    {
        if bytes[at] != 0xFF {
            return None;
        }
        let marker = bytes[at + 1];
        // Standalone markers carry no length; start-of-scan means the segments
        // are over and the rest is entropy-coded data.
        if marker == 0xD8 || (0xD0 <= marker && marker <= 0xD7) {
            at = at + 2;
            continue;
        }
        if marker == 0xDA || marker == 0xD9 {
            return None;
        }
        let length = (bytes[at + 2] as usize) * 256 + (bytes[at + 3] as usize);
        if length < 2 || length > bytes.len() - at - 2 {
            return None;
        }
        let payload = slice_subrange(bytes, at + 4, at + 2 + length);
        if marker == 0xE1 && has_prefix(payload, &magic) {
            let exif = slice_subrange(payload, 6, payload.len());
            assert(exif@ =~= bytes@.subrange(at + 10, at + 2 + length));
            return Some(exif);
        }
        at = at + 2 + length;
    }
    None
}

/// The XMP packet's opening and closing tags.
pub open spec fn xmp_open() -> Seq<u8> {
    seq![60u8, 120u8, 58u8, 120u8, 109u8, 112u8, 109u8, 101u8, 116u8, 97u8]
}

pub open spec fn xmp_close() -> Seq<u8> {
    seq![60u8, 47u8, 120u8, 58u8, 120u8, 109u8, 112u8, 109u8, 101u8, 116u8, 97u8, 62u8]
}

/// The first place at or after `i` where `needle` occurs in `haystack`.
pub open spec fn first_from(haystack: Seq<u8>, needle: Seq<u8>, i: int) -> Option<int>
    decreases haystack.len() - i,
{
    if i < 0 || i >= haystack.len() || i + needle.len() > haystack.len() {
        None
    } else if haystack.subrange(i, i + needle.len()) == needle {
        Some(i)
    } else {
        first_from(haystack, needle, i + 1)
    }
}

/// The first place `needle` occurs in `haystack`; an empty needle is never
/// found.
pub open spec fn first_match(haystack: Seq<u8>, needle: Seq<u8>) -> Option<int> {
    if needle.len() == 0 {
        None
    } else {
        first_from(haystack, needle, 0)
    }
}

/// The XMP packet in `b`: from the first opening tag to the first closing tag
/// after it, both included, read as text.
pub open spec fn xmp_packet(b: Seq<u8>) -> Option<Seq<char>> {
    match first_match(b, xmp_open()) {
        None => None,
        Some(start) => match first_match(b.subrange(start, b.len() as int), xmp_close()) {
            None => None,
            Some(end) => Some(lenient_text(b.subrange(start, start + end + xmp_close().len()))),
        },
    }
}

/// What `first_from` finds is where `needle` occurs, at or after `i`.
pub proof fn lemma_first_from(haystack: Seq<u8>, needle: Seq<u8>, i: int)
    ensures
        first_from(haystack, needle, i) matches Some(j) ==> i <= j && j + needle.len()
            <= haystack.len() && haystack.subrange(j, j + needle.len() as int) == needle,
    decreases haystack.len() - i,
{
    if !(i < 0 || i >= haystack.len() || i + needle.len() > haystack.len()) && haystack.subrange(
        i,
        i + needle.len(),
    ) != needle {
        lemma_first_from(haystack, needle, i + 1);
    }
}

/// Where `needle` first occurs in `haystack`.
pub fn find(haystack: &[u8], needle: &[u8]) -> (r: Option<usize>)
    ensures
        match first_match(haystack@, needle@) {
            Some(i) => r == Some(i as usize),
            None => r is None,
        },
{
    if needle.len() == 0 || haystack.len() < needle.len() {
        return None;
    }
    let mut i: usize = 0;
    while i <= haystack.len() - needle.len()
        invariant
            needle@.len() > 0,
            needle@.len() <= haystack@.len(),
            first_match(haystack@, needle@) == first_from(haystack@, needle@, i as int),
        decreases haystack@.len() - i,
    {
        let window = slice_subrange(haystack, i, i + needle.len());
        assert(window@.subrange(0, needle@.len() as int) =~= window@);
        if has_prefix(window, needle) {
            return Some(i);
        }
        i = i + 1;
    }
    None
}

/// The XMP packet, wherever it is.
///
/// Found by scanning for its own opening and closing tags rather than by
/// unpicking each format's container: the packet is self-delimiting and every
/// format stores it verbatim, which is what makes one scan correct for all of
/// them.
fn find_xmp(bytes: &[u8]) -> (r: Option<String>)
    ensures
        match xmp_packet(bytes@) {
            Some(text) => r is Some && r->Some_0@ == text,
            None => r is None,
        },
{
    let open: [u8; 10] = [60, 120, 58, 120, 109, 112, 109, 101, 116, 97];
    let close: [u8; 12] = [60, 47, 120, 58, 120, 109, 112, 109, 101, 116, 97, 62];
    assert(open@ == xmp_open());
    assert(close@ == xmp_close());
    let start = match find(bytes, &open) {
        Some(s) => s,
        None => return None,
    };
    proof {
        lemma_first_from(bytes@, xmp_open(), 0);
    }
    let rest = slice_subrange(bytes, start, bytes.len());
    let end = match find(rest, &close) {
        Some(e) => e,
        None => return None,
    };
    proof {
        lemma_first_from(rest@, xmp_close(), 0);
        assert(rest@ =~= bytes@.subrange(start as int, bytes@.len() as int));
    }
    let packet = slice_subrange(bytes, start, start + end + close.len());
    Some(decode_lossy(packet))
}


// ---------------------------------------------------------------------------
// EXIF
// ---------------------------------------------------------------------------

/// A reader over the TIFF structure EXIF is stored in, carrying its byte order.
pub struct Tiff<'a> {
    pub bytes: &'a [u8],
    pub big_endian: bool,
}

/// The 16-bit number at `at`, in the file's byte order, if it is there.
pub open spec fn tiff_u16(b: Seq<u8>, big_endian: bool, at: int) -> Option<u16> {
    if 0 <= at && at + 2 <= b.len() {
        Some(
            if big_endian {
                (b[at] * 256 + b[at + 1]) as u16
            } else {
                (b[at + 1] * 256 + b[at]) as u16
            },
        )
    } else {
        None
    }
}

/// The 32-bit number at `at`, in the file's byte order, if it is there.
pub open spec fn tiff_u32(b: Seq<u8>, big_endian: bool, at: int) -> Option<u32> {
    if 0 <= at && at + 4 <= b.len() {
        Some(
            if big_endian {
                (b[at] * 16777216 + b[at + 1] * 65536 + b[at + 2] * 256 + b[at + 3]) as u32
            } else {
                (b[at + 3] * 16777216 + b[at + 2] * 65536 + b[at + 1] * 256 + b[at]) as u32
            },
        )
    } else {
        None
    }
}

/// Whether `b` starts with `II` (little-endian) or `MM` (big-endian).
pub open spec fn tiff_order(b: Seq<u8>) -> Option<bool> {
    if b.len() < 2 {
        None
    } else if b[0] == 77 && b[1] == 77 {
        Some(true)
    } else if b[0] == 73 && b[1] == 73 {
        Some(false)
    } else {
        None
    }
}

impl<'a> Tiff<'a> {
    pub fn new(bytes: &'a [u8]) -> (t: Option<Tiff<'a>>)
        ensures
            match tiff_order(bytes@) {
                Some(be) => t is Some && t->Some_0.bytes@ == bytes@ && t->Some_0.big_endian == be,
                None => t is None,
            },
    {
        if bytes.len() < 2 {
            return None;
        }
        let big_endian = if bytes[0] == 77 && bytes[1] == 77 {
            true
        } else if bytes[0] == 73 && bytes[1] == 73 {
            false
        } else {
            return None;
        };
        Some(Tiff { bytes, big_endian })
    }

    pub fn u16_at(&self, at: u64) -> (r: Option<u16>)
        ensures
            r == tiff_u16(self.bytes@, self.big_endian, at as int),
    {
        let len = self.bytes.len() as u64;
        if at > len || len - at < 2 {
            return None;
        }
        let i = at as usize;
        let (a, b) = (self.bytes[i] as u16, self.bytes[i + 1] as u16);
        Some(
            if self.big_endian {
                a * 256 + b
            } else {
                b * 256 + a
            },
        )
    }

    pub fn u32_at(&self, at: u64) -> (r: Option<u32>)
        ensures
            r == tiff_u32(self.bytes@, self.big_endian, at as int),
    {
        let len = self.bytes.len() as u64;
        if at > len || len - at < 4 {
            return None;
        }
        let i = at as usize;
        let (a, b, c, d) = (
            self.bytes[i] as u32,
            self.bytes[i + 1] as u32,
            self.bytes[i + 2] as u32,
            self.bytes[i + 3] as u32,
        );
        Some(
            if self.big_endian {
                a * 16777216 + b * 65536 + c * 256 + d
            } else {
                d * 16777216 + c * 65536 + b * 256 + a
            },
        )
    }
}

/// One entry of an image file directory.
#[derive(Clone, Copy)]
pub struct Entry {
    pub tag: u16,
    pub format: u16,
    pub count: u32,
    /// The value itself when it fits in four bytes, or where to find it.
    pub offset: u64,
}

/// Sizes of the TIFF value formats, indexed by their format code.
const FORMAT_SIZES: [u64; 13] = [0, 1, 1, 2, 4, 8, 1, 1, 2, 4, 8, 4, 8];

/// The size of one value of TIFF format `f`; 0 for a format with no size.
pub open spec fn format_size(f: u16) -> int {
    if f == 1 || f == 2 || f == 6 || f == 7 {
        1
    } else if f == 3 || f == 8 {
        2
    } else if f == 4 || f == 9 || f == 11 {
        4
    } else if f == 5 || f == 10 || f == 12 {
        8
    } else {
        0
    }
}

/// Reading entries `i..count` of the directory at `at`: the entries kept, the
/// sub-directories pointed at, and whether every entry could be read. A value
/// of more than four bytes is found through the offset in its entry; the EXIF
/// and GPS pointers are followed rather than kept.
pub open spec fn scan(b: Seq<u8>, be: bool, at: int, i: int, count: int) -> (Seq<Entry>, Seq<int>, bool)
    decreases count - i,
{
    if i >= count {
        (seq![], seq![], true)
    } else {
        let ea = at + 2 + i * 12;
        match (tiff_u16(b, be, ea), tiff_u16(b, be, ea + 2), tiff_u32(b, be, ea + 4)) {
            (Some(tag), Some(format), Some(n)) => {
                let total = format_size(format) * n;
                if total > 4 && tiff_u32(b, be, ea + 8) is None {
                    (seq![], seq![], false)
                } else {
                    let offset = if total > 4 {
                        tiff_u32(b, be, ea + 8)->Some_0 as int
                    } else {
                        ea + 8
                    };
                    let rest = scan(b, be, at, i + 1, count);
                    if tag == 0x8769 || tag == 0x8825 {
                        let here = match tiff_u32(b, be, ea + 8) {
                            Some(sub) => seq![sub as int],
                            None => seq![],
                        };
                        (rest.0, here + rest.1, rest.2)
                    } else {
                        (
                            seq![Entry { tag, format, count: n, offset: offset as u64 }] + rest.0,
                            rest.1,
                            rest.2,
                        )
                    }
                }
            },
            _ => (seq![], seq![], false),
        }
    }
}

/// The entries of the directory at `at` and, when all of it could be read,
/// of the sub-directories it points at, in order. Four levels deep at most,
/// so a file whose pointers loop cannot spin forever; an offset of 0 is no
/// directory.
pub open spec fn collect(b: Seq<u8>, be: bool, at: int, depth: int) -> Seq<Entry>
    decreases 5 - depth, 0int,
{
    if depth > 4 || depth < 0 || at == 0 {
        seq![]
    } else {
        match tiff_u16(b, be, at) {
            None => seq![],
            Some(count) => {
                let s = scan(b, be, at, 0, count as int);
                if !s.2 {
                    s.0
                } else {
                    s.0 + collect_subs(b, be, s.1, depth + 1)
                }
            },
        }
    }
}

/// The entries of each directory in `subs`, one after another.
pub open spec fn collect_subs(b: Seq<u8>, be: bool, subs: Seq<int>, depth: int) -> Seq<Entry>
    decreases 5 - depth, subs.len(),
{
    if subs.len() == 0 || depth > 5 || depth < 1 {
        seq![]
    } else {
        collect_subs(b, be, subs.drop_last(), depth) + collect(b, be, subs.last(), depth)
    }
}

/// Read an image file directory and, through the EXIF and GPS pointer tags,
/// whichever sub-directories hang off it.
fn collect_ifd(tiff: &Tiff, at: u64, entries: &mut Vec<Entry>, depth: u32)
    requires
        depth <= 5,
        at <= u32::MAX,
    ensures
        final(entries)@ == old(entries)@ + collect(
            tiff.bytes@,
            tiff.big_endian,
            at as int,
            depth as int,
        ),
    decreases 5 - depth,
{
    let ghost b = tiff.bytes@;
    let ghost be = tiff.big_endian;
    let max_depth: u32 = 4;
    if depth > max_depth || at == 0 {
        assert(entries@ =~= old(entries)@ + collect(b, be, at as int, depth as int));
        return;
    }
    let count = match tiff.u16_at(at) {
        Some(c) => c,
        None => {
            assert(entries@ =~= old(entries)@ + collect(b, be, at as int, depth as int));
            return;
        },
    };
    let ghost whole = scan(b, be, at as int, 0, count as int);
    let mut subs: Vec<u64> = Vec::new();
    let mut i: u64 = 0;
    while i < count as u64
        invariant
            b == tiff.bytes@,
            be == tiff.big_endian,
            at <= u32::MAX,
            at != 0,
            depth <= 4,
            tiff_u16(b, be, at as int) == Some(count),
            i <= count,
            whole == scan(b, be, at as int, 0, count as int),
            forall|k: int| 0 <= k < subs@.len() ==> subs@[k] <= u32::MAX,
            whole.0 == entries@.subrange(old(entries)@.len() as int, entries@.len() as int) + scan(
                b,
                be,
                at as int,
                i as int,
                count as int,
            ).0,
            whole.1 == subs@.map_values(|v: u64| v as int) + scan(
                b,
                be,
                at as int,
                i as int,
                count as int,
            ).1,
            whole.2 == scan(b, be, at as int, i as int, count as int).2,
            entries@.len() >= old(entries)@.len(),
            entries@.subrange(0, old(entries)@.len() as int) == old(entries)@,
        decreases count - i,
    {
        let ghost pushed = entries@.subrange(old(entries)@.len() as int, entries@.len() as int);
        let ghost before = subs@;
        let entry_at = at + 2 + i * 12;
        let tag = tiff.u16_at(entry_at);
        let format = tiff.u16_at(entry_at + 2);
        let value_count = tiff.u32_at(entry_at + 4);
        if tag.is_none() || format.is_none() || value_count.is_none() {
            let ghost failed = scan(b, be, at as int, i as int, count as int);
            assert(failed.0 =~= Seq::<Entry>::empty() && !failed.2);
            assert(whole.0 =~= pushed);
            assert(entries@ =~= old(entries)@ + pushed);
            assert(entries@ =~= old(entries)@ + collect(b, be, at as int, depth as int));
            return;
        }
        let (tag, format, value_count) = (tag.unwrap(), format.unwrap(), value_count.unwrap());
        // A value of four bytes or fewer is stored in the entry itself; longer
        // ones put an offset there instead.
        let size: u64 = if format < 13 {
            FORMAT_SIZES[format as usize]
        } else {
            0
        };
        assert(size == format_size(format));
        assert(size * (value_count as u64) <= 8 * 0xFFFF_FFFFu64) by (nonlinear_arith)
            requires
                size <= 8,
        ;
        let total = size * value_count as u64;
        let offset = if total > 4 {
            match tiff.u32_at(entry_at + 8) {
                Some(offset) => offset as u64,
                None => {
                    let ghost failed = scan(b, be, at as int, i as int, count as int);
                    assert(failed.0 =~= Seq::<Entry>::empty() && !failed.2);
                    assert(whole.0 =~= pushed);
                    assert(entries@ =~= old(entries)@ + pushed);
                    assert(entries@ =~= old(entries)@ + collect(b, be, at as int, depth as int));
                    return;
                },
            }
        } else {
            entry_at + 8
        };
        // The EXIF and GPS sub-directories, which hold most of what is worth
        // showing.
        if tag == 0x8769 || tag == 0x8825 {
            if let Some(sub) = tiff.u32_at(entry_at + 8) {
                subs.push(sub as u64);
                assert(subs@.map_values(|v: u64| v as int) =~= before.map_values(|v: u64| v as int)
                    + seq![sub as int]);
            } else {
                assert(subs@ == before);
            }
        } else {
            entries.push(Entry { tag, format, count: value_count, offset });
            assert(entries@.subrange(old(entries)@.len() as int, entries@.len() as int) =~= pushed
                + seq![Entry { tag, format, count: value_count, offset }]);
            assert(entries@.subrange(0, old(entries)@.len() as int) =~= old(entries)@);
        }
        i = i + 1;
    }
    let ghost found = entries@.subrange(old(entries)@.len() as int, entries@.len() as int);
    assert(found =~= whole.0);
    assert(subs@.map_values(|v: u64| v as int) =~= whole.1);
    assert(entries@ =~= old(entries)@ + whole.0);
    let mut k: usize = 0;
    while k < subs.len()
        invariant
            b == tiff.bytes@,
            be == tiff.big_endian,
            depth <= 4,
            whole.2,
            k <= subs@.len(),
            forall|j: int| 0 <= j < subs@.len() ==> subs@[j] <= u32::MAX,
            subs@.map_values(|v: u64| v as int) == whole.1,
            entries@ == old(entries)@ + whole.0 + collect_subs(
                b,
                be,
                whole.1.subrange(0, k as int),
                depth + 1,
            ),
        decreases subs@.len() - k,
    {
        let ghost so_far = entries@;
        collect_ifd(tiff, subs[k], entries, depth + 1);
        proof {
            let part = whole.1.subrange(0, k + 1);
            assert(part.drop_last() =~= whole.1.subrange(0, k as int));
            assert(part.last() == subs@[k as int] as int);
            assert(entries@ =~= old(entries)@ + whole.0 + collect_subs(b, be, part, depth + 1));
        }
        k = k + 1;
    }
    assert(whole.1.subrange(0, subs@.len() as int) =~= whole.1);
}


/// The first entry at or after `i` carrying `tag`.
pub open spec fn entry_from(es: Seq<Entry>, tag: u16, i: int) -> Option<Entry>
    decreases es.len() - i,
{
    if i < 0 || i >= es.len() {
        None
    } else if es[i].tag == tag {
        Some(es[i])
    } else {
        entry_from(es, tag, i + 1)
    }
}

fn entry(entries: &Vec<Entry>, tag: u16) -> (r: Option<Entry>)
    ensures
        r == entry_from(entries@, tag, 0),
{
    let mut i: usize = 0;
    while i < entries.len()
        invariant
            i <= entries@.len(),
            entry_from(entries@, tag, 0) == entry_from(entries@, tag, i as int),
        decreases entries@.len() - i,
    {
        if entries[i].tag == tag {
            return Some(entries[i]);
        }
        i = i + 1;
    }
    None
}

/// `s` without the NULs and spaces it ends with.
pub open spec fn trim_end(s: Seq<char>) -> Seq<char>
    decreases s.len(),
{
    if s.len() > 0 && (s.last() == '\0' || s.last() == ' ') {
        trim_end(s.drop_last())
    } else {
        s
    }
}

/// The ASCII text under `tag` (format 2), read up to its count or the end of
/// the file, with trailing NULs and spaces dropped.
pub open spec fn entry_text(b: Seq<u8>, es: Seq<Entry>, tag: u16) -> Option<Seq<char>> {
    match entry_from(es, tag, 0) {
        None => None,
        Some(e) => {
            let end = if e.offset + e.count <= b.len() {
                e.offset + e.count
            } else {
                b.len() as int
            };
            if e.format != 2 || e.offset > end {
                None
            } else {
                Some(trim_end(lenient_text(b.subrange(e.offset as int, end))))
            }
        },
    }
}

/// The whole number under `tag`: a short (format 3) or a long (format 4).
pub open spec fn entry_integer(b: Seq<u8>, be: bool, es: Seq<Entry>, tag: u16) -> Option<u32> {
    match entry_from(es, tag, 0) {
        None => None,
        Some(e) => if e.format == 3 {
            match tiff_u16(b, be, e.offset as int) {
                Some(v) => Some(v as u32),
                None => None,
            }
        } else if e.format == 4 {
            tiff_u32(b, be, e.offset as int)
        } else {
            None
        },
    }
}

/// The fraction under `tag` (format 5, or 10 for signed halves), unless its
/// denominator is zero.
pub open spec fn entry_ratio(b: Seq<u8>, be: bool, es: Seq<Entry>, tag: u16) -> Option<(u32, u32, bool)> {
    match entry_from(es, tag, 0) {
        None => None,
        Some(e) => if e.format != 5 && e.format != 10 {
            None
        } else {
            match (tiff_u32(b, be, e.offset as int), tiff_u32(b, be, e.offset + 4)) {
                (Some(n), Some(d)) => if d == 0 {
                    None
                } else {
                    Some((n, d, e.format == 10))
                },
                _ => None,
            }
        },
    }
}

fn text(tiff: &Tiff, entries: &Vec<Entry>, tag: u16) -> (r: Option<String>)
    ensures
        match entry_text(tiff.bytes@, entries@, tag) {
            Some(t) => r is Some && r->Some_0@ == t,
            None => r is None,
        },
{
    let e = match entry(entries, tag) {
        Some(e) => e,
        None => return None,
    };
    // Format 2 is ASCII; anything else under this tag is a file being strange.
    if e.format != 2 {
        return None;
    }
    let len = tiff.bytes.len() as u64;
    // The text runs to its count or the end of the file, whichever comes first.
    if e.offset > len {
        return None;
    }
    let end = if (e.count as u64) <= len - e.offset {
        e.offset + (e.count as u64)
    } else {
        len
    };
    let raw = slice_subrange(tiff.bytes, e.offset as usize, end as usize);
    let whole = decode_lossy(raw);
    let n = whole.as_str().unicode_len();
    let mut k: usize = n;
    assert(whole@.subrange(0, k as int) =~= whole@);
    while k > 0
        invariant
            k <= whole@.len(),
            trim_end(whole@) == trim_end(whole@.subrange(0, k as int)),
        ensures
            k <= whole@.len(),
            trim_end(whole@) == trim_end(whole@.subrange(0, k as int)),
            k == 0 || (whole@[k - 1] != '\0' && whole@[k - 1] != ' '),
        decreases k,
    {
        let c = whole.as_str().get_char(k - 1);
        if c != '\0' && c != ' ' {
            break;
        }
        assert(whole@.subrange(0, k as int).drop_last() =~= whole@.subrange(0, k - 1));
        k = k - 1;
    }
    assert(trim_end(whole@.subrange(0, k as int)) == whole@.subrange(0, k as int));
    let kept = whole.as_str().substring_char(0, k);
    Some(kept.to_owned())
}

fn integer(tiff: &Tiff, entries: &Vec<Entry>, tag: u16) -> (r: Option<u32>)
    ensures
        r == entry_integer(tiff.bytes@, tiff.big_endian, entries@, tag),
{
    let e = match entry(entries, tag) {
        Some(e) => e,
        None => return None,
    };
    if e.format == 3 {
        match tiff.u16_at(e.offset) {
            Some(v) => Some(v as u32),
            None => None,
        }
    } else if e.format == 4 {
        tiff.u32_at(e.offset)
    } else {
        None
    }
}

/// A rational value — EXIF stores exposure, aperture and focal length as pairs
/// of integers rather than as decimals.
fn ratio(tiff: &Tiff, entries: &Vec<Entry>, tag: u16) -> (r: Option<(u32, u32, bool)>)
    ensures
        r == entry_ratio(tiff.bytes@, tiff.big_endian, entries@, tag),
{
    let e = match entry(entries, tag) {
        Some(e) => e,
        None => return None,
    };
    if e.format != 5 && e.format != 10 {
        return None;
    }
    let first = tiff.u32_at(e.offset);
    let numerator = match first {
        Some(v) => v,
        None => return None,
    };
    let available = tiff.bytes.len();
    assert(e.offset + 4 <= available);
    if e.offset > u64::MAX - 4 {
        return None;
    }
    let denominator = match tiff.u32_at(e.offset + 4) {
        Some(v) => v,
        None => return None,
    };
    if denominator == 0 {
        return None;
    }
    Some((numerator, denominator, e.format == 10))
}

/// The name of each EXIF orientation.
pub open spec fn orientation_word(v: u32) -> Seq<char> {
    if v == 1 {
        "Normal"@
    } else if v == 2 {
        "Flipped horizontally"@
    } else if v == 3 {
        "Rotated 180°"@
    } else if v == 4 {
        "Flipped vertically"@
    } else if v == 5 {
        "Transposed"@
    } else if v == 6 {
        "Rotated 90° clockwise"@
    } else if v == 7 {
        "Transversed"@
    } else if v == 8 {
        "Rotated 90° counter-clockwise"@
    } else {
        "Unknown"@
    }
}

/// How an orientation is shown: its number, then its name in brackets.
pub open spec fn orientation_text(v: u32) -> Seq<char> {
    decimal(v as nat) + " ("@ + orientation_word(v) + ")"@
}

fn orientation_name(value: u32) -> (s: String)
    ensures
        s@ == orientation_text(value),
{
    let name = match value {
        1 => "Normal",
        2 => "Flipped horizontally",
        3 => "Rotated 180°",
        4 => "Flipped vertically",
        5 => "Transposed",
        6 => "Rotated 90° clockwise",
        7 => "Transversed",
        8 => "Rotated 90° counter-clockwise",
        _ => "Unknown",
    };
    let mut s = String::new();
    push_decimal(&mut s, value as u64);
    s.append(" (");
    s.append(name);
    s.append(")");
    s
}


/// The fields, each as characters.
pub open spec fn views(fs: Seq<Field>) -> Seq<FieldView> {
    fs.map_values(|f: Field| f@)
}

fn add_field(fields: &mut Vec<Field>, f: Field)
    ensures
        views(final(fields)@) == views(old(fields)@).push(f@),
{
    let ghost v = f@;
    fields.push(f);
    assert(views(fields@) =~= views(old(fields)@).push(v));
}

/// The field a text tag gives, if it holds any text.
pub open spec fn text_field(b: Seq<u8>, es: Seq<Entry>, tag: u16, category: Seq<char>, label: Seq<char>) -> Seq<FieldView> {
    match entry_text(b, es, tag) {
        Some(t) => if t.len() > 0 {
            seq![FieldView { category, label, value: ValueView::Text(t) }]
        } else {
            seq![]
        },
        None => seq![],
    }
}

/// The camera field a fraction tag gives, if it holds one.
pub open spec fn ratio_field(b: Seq<u8>, be: bool, es: Seq<Entry>, tag: u16, label: Seq<char>, unit: Seq<char>) -> Seq<FieldView> {
    match entry_ratio(b, be, es, tag) {
        Some((n, d, signed)) => seq![
            FieldView {
                category: CAMERA@,
                label,
                value: ValueView::Ratio { numerator: n, denominator: d, signed, unit },
            },
        ],
        None => seq![],
    }
}

/// How a number tag is shown: 0 for ISO, 1 for the flash, 2 for the
/// orientation.
pub open spec fn number_text(kind: int, v: u32) -> Seq<char> {
    if kind == 0 {
        "ISO "@ + decimal(v as nat)
    } else if kind == 1 {
        flash_text(v)
    } else {
        orientation_text(v)
    }
}

/// The camera field a number tag gives, shown the way `kind` says.
pub open spec fn number_field(b: Seq<u8>, be: bool, es: Seq<Entry>, tag: u16, label: Seq<char>, kind: int) -> Seq<FieldView> {
    match entry_integer(b, be, es, tag) {
        Some(v) => seq![FieldView { category: CAMERA@, label, value: ValueView::Text(number_text(kind, v)) }],
        None => seq![],
    }
}

/// What the resolution is counted in: centimetres when the unit tag says 3,
/// inches otherwise.
pub open spec fn resolution_unit(b: Seq<u8>, be: bool, es: Seq<Entry>) -> Seq<char> {
    if entry_integer(b, be, es, 0x0128) == Some(3u32) {
        "Pixels per Centimeter"@
    } else {
        "Pixels per Inch"@
    }
}

/// What the flash tag's low bit, the only part everyone agrees on, says.
pub open spec fn flash_text(v: u32) -> Seq<char> {
    if v % 2 == 1 {
        "Did fire"@
    } else {
        "Did not fire"@
    }
}

/// The Flash field reads off the tag's lowest bit alone: "Did fire" when the
/// Flash tag's value is odd, "Did not fire" when it is even, whatever its
/// other bits (which say how the flash was set and whether it returned).
pub proof fn law_flash_reads_the_low_bit(b: Seq<u8>, be: bool, es: Seq<Entry>, v: u32)
    requires
        entry_integer(b, be, es, 0x9209) == Some(v),
    ensures
        number_field(b, be, es, 0x9209, "Flash"@, 1) == seq![
            FieldView {
                category: CAMERA@,
                label: "Flash"@,
                value: ValueView::Text(
                    if v & 1 == 1 {
                        "Did fire"@
                    } else {
                        "Did not fire"@
                    },
                ),
            },
        ],
{
    assert(v & 1 == v % 2) by (bit_vector);
}

/// Camera and lens.
pub open spec fn camera_fields(b: Seq<u8>, es: Seq<Entry>) -> Seq<FieldView> {
    text_field(b, es, 0x010F, CAMERA@, "Make"@) + text_field(b, es, 0x0110, CAMERA@, "Model"@)
        + text_field(b, es, 0xA434, CAMERA@, "Lens"@) + text_field(b, es, 0x013B, CAMERA@, "Artist"@)
}

/// The shot: focal length, exposure, aperture, ISO, flash, orientation and
/// resolution.
pub open spec fn shot_fields(b: Seq<u8>, be: bool, es: Seq<Entry>) -> Seq<FieldView> {
    ratio_field(b, be, es, 0x920A, "Focal Length"@, Seq::<char>::empty()) + ratio_field(
        b,
        be,
        es,
        0x829A,
        "Exposure Time"@,
        Seq::<char>::empty(),
    ) + ratio_field(b, be, es, 0x829D, "F-Stop"@, Seq::<char>::empty()) + number_field(
        b,
        be,
        es,
        0x8827,
        "ISO Speed Rating"@,
        0,
    ) + number_field(b, be, es, 0x9209, "Flash"@, 1) + number_field(
        b,
        be,
        es,
        0x0112,
        "Orientation"@,
        2,
    ) + ratio_field(b, be, es, 0x011A, "Resolution"@, resolution_unit(b, be, es))
}

/// When, and whose: what the Basic pane shows alongside the file's own dates.
pub open spec fn basic_fields(b: Seq<u8>, es: Seq<Entry>) -> Seq<FieldView> {
    text_field(b, es, 0x9003, BASIC@, "Date Taken"@) + text_field(
        b,
        es,
        0x0131,
        BASIC@,
        "Application"@,
    ) + text_field(b, es, 0x010E, BASIC@, "Description"@) + text_field(
        b,
        es,
        0x8298,
        BASIC@,
        "Copyright Notice"@,
    )
}

/// The fields read out of the directory entries `es`, in the order File Info
/// lists them: camera and lens, the shot, then the dates and credits.
pub open spec fn exif_report(b: Seq<u8>, be: bool, es: Seq<Entry>) -> Seq<FieldView> {
    camera_fields(b, es) + shot_fields(b, be, es) + basic_fields(b, es)
}

/// The directory entries of the TIFF structure `b`, when it is one.
pub open spec fn exif_entries(b: Seq<u8>) -> Option<(bool, Seq<Entry>)> {
    match tiff_order(b) {
        None => None,
        Some(be) => match tiff_u32(b, be, 4) {
            None => None,
            Some(first) => Some((be, collect(b, be, first as int, 0))),
        },
    }
}

/// Every field the TIFF structure `b` gives.
pub open spec fn exif_fields(b: Seq<u8>) -> Seq<FieldView> {
    match exif_entries(b) {
        Some((be, es)) => if es.len() == 0 {
            seq![]
        } else {
            exif_report(b, be, es)
        },
        None => seq![],
    }
}

/// The orientation tag of the TIFF structure `b`, when it has one.
pub open spec fn exif_orientation(b: Seq<u8>) -> Option<u32> {
    match exif_entries(b) {
        Some((be, es)) => entry_integer(b, be, es, 0x0112),
        None => None,
    }
}

fn push_text(
    tiff: &Tiff,
    entries: &Vec<Entry>,
    tag: u16,
    category: &str,
    label: &str,
    fields: &mut Vec<Field>,
)
    ensures
        views(final(fields)@) == views(old(fields)@) + text_field(
            tiff.bytes@,
            entries@,
            tag,
            category@,
            label@,
        ),
{
    if let Some(text) = text(tiff, entries, tag) {
        if text.as_str().unicode_len() > 0 {
            add_field(fields, Field::new(category, label, FieldValue::Text(text)));
            return;
        }
    }
    assert(views(fields@) =~= views(old(fields)@) + text_field(
        tiff.bytes@,
        entries@,
        tag,
        category@,
        label@,
    ));
}

fn push_ratio(tiff: &Tiff, entries: &Vec<Entry>, tag: u16, label: &str, unit: String, fields: &mut Vec<Field>)
    ensures
        views(final(fields)@) == views(old(fields)@) + ratio_field(
            tiff.bytes@,
            tiff.big_endian,
            entries@,
            tag,
            label@,
            unit@,
        ),
{
    if let Some((numerator, denominator, signed)) = ratio(tiff, entries, tag) {
        add_field(
            fields,
            Field::new(CAMERA, label, FieldValue::Ratio { numerator, denominator, signed, unit }),
        );
        assert(views(fields@) =~= views(old(fields)@) + ratio_field(
            tiff.bytes@,
            tiff.big_endian,
            entries@,
            tag,
            label@,
            unit@,
        ));
        return;
    }
    assert(views(fields@) =~= views(old(fields)@) + ratio_field(
        tiff.bytes@,
        tiff.big_endian,
        entries@,
        tag,
        label@,
        unit@,
    ));
}

/// Read the EXIF fields of the TIFF structure `bytes` onto `fields`, and its
/// orientation into `orientation` when it has one.
#[verifier::spinoff_prover]
#[verifier::rlimit(40)]
fn read_exif(bytes: &[u8], fields: &mut Vec<Field>, orientation: &mut Option<u32>)
    ensures
        views(final(fields)@) == views(old(fields)@) + exif_fields(bytes@),
        *final(orientation) == (match exif_orientation(bytes@) {
            Some(v) => Some(v),
            None => *old(orientation),
        }),
{
    let tiff = match Tiff::new(bytes) {
        Some(t) => t,
        None => {
            assert(views(fields@) =~= views(old(fields)@) + exif_fields(bytes@));
            return;
        },
    };
    let first_ifd = match tiff.u32_at(4) {
        Some(v) => v,
        None => {
            assert(views(fields@) =~= views(old(fields)@) + exif_fields(bytes@));
            return;
        },
    };
    let mut entries: Vec<Entry> = Vec::new();
    collect_ifd(&tiff, first_ifd as u64, &mut entries, 0);
    assert(entries@ =~= collect(bytes@, tiff.big_endian, first_ifd as int, 0));
    if entries.len() == 0 {
        assert(views(fields@) =~= views(old(fields)@) + exif_fields(bytes@));
        return;
    }
    let ghost start = views(fields@);
    push_camera(&tiff, &entries, fields);
    push_shot(&tiff, &entries, fields, orientation);
    push_basic(&tiff, &entries, fields);
    assert(views(fields@) =~= start + exif_report(bytes@, tiff.big_endian, entries@));
}

fn push_camera(tiff: &Tiff, entries: &Vec<Entry>, fields: &mut Vec<Field>)
    ensures
        views(final(fields)@) == views(old(fields)@) + camera_fields(tiff.bytes@, entries@),
{
    push_text(tiff, entries, 0x010F, CAMERA, "Make", fields);
    push_text(tiff, entries, 0x0110, CAMERA, "Model", fields);
    push_text(tiff, entries, 0xA434, CAMERA, "Lens", fields);
    push_text(tiff, entries, 0x013B, CAMERA, "Artist", fields);
    assert(views(fields@) =~= views(old(fields)@) + camera_fields(tiff.bytes@, entries@));
}

fn push_basic(tiff: &Tiff, entries: &Vec<Entry>, fields: &mut Vec<Field>)
    ensures
        views(final(fields)@) == views(old(fields)@) + basic_fields(tiff.bytes@, entries@),
{
    push_text(tiff, entries, 0x9003, BASIC, "Date Taken", fields);
    push_text(tiff, entries, 0x0131, BASIC, "Application", fields);
    push_text(tiff, entries, 0x010E, BASIC, "Description", fields);
    push_text(tiff, entries, 0x8298, BASIC, "Copyright Notice", fields);
    assert(views(fields@) =~= views(old(fields)@) + basic_fields(tiff.bytes@, entries@));
}

#[verifier::spinoff_prover]
fn push_shot(tiff: &Tiff, entries: &Vec<Entry>, fields: &mut Vec<Field>, orientation: &mut Option<u32>)
    ensures
        views(final(fields)@) == views(old(fields)@) + shot_fields(
            tiff.bytes@,
            tiff.big_endian,
            entries@,
        ),
        *final(orientation) == (match entry_integer(
            tiff.bytes@,
            tiff.big_endian,
            entries@,
            0x0112,
        ) {
            Some(v) => Some(v),
            None => *old(orientation),
        }),
{
    let ghost b = tiff.bytes@;
    let ghost be = tiff.big_endian;
    let ghost es = entries@;
    push_ratio(tiff, entries, 0x920A, "Focal Length", String::new(), fields);
    push_ratio(tiff, entries, 0x829A, "Exposure Time", String::new(), fields);
    push_ratio(tiff, entries, 0x829D, "F-Stop", String::new(), fields);
    let ghost shot = views(fields@);
    if let Some(value) = integer(tiff, entries, 0x8827) {
        let mut shown = String::from_str("ISO ");
        push_decimal(&mut shown, value as u64);
        add_field(fields, Field::new(CAMERA, "ISO Speed Rating", FieldValue::Text(shown)));
    }
    assert(views(fields@) =~= shot + number_field(
        b,
        be,
        es,
        0x8827,
        "ISO Speed Rating"@,
        0,
    ));
    let ghost iso = views(fields@);
    if let Some(value) = integer(tiff, entries, 0x9209) {
        let fired = value % 2 == 1;
        let shown = if fired {
            "Did fire"
        } else {
            "Did not fire"
        };
        add_field(fields, Field::new(CAMERA, "Flash", FieldValue::Text(String::from_str(shown))));
    }
    assert(views(fields@) =~= iso + number_field(b, be, es, 0x9209, "Flash"@, 1));
    let ghost flash = views(fields@);
    if let Some(value) = integer(tiff, entries, 0x0112) {
        add_field(
            fields,
            Field::new(CAMERA, "Orientation", FieldValue::Text(orientation_name(value))),
        );
        *orientation = Some(value);
    }
    assert(views(fields@) =~= flash + number_field(
        b,
        be,
        es,
        0x0112,
        "Orientation"@,
        2,
    ));
    let ghost turned = views(fields@);
    let unit = match integer(tiff, entries, 0x0128) {
        Some(3) => "Pixels per Centimeter",
        _ => "Pixels per Inch",
    };
    let unit = String::from_str(unit);
    assert(unit@ == resolution_unit(b, be, es));
    push_ratio(tiff, entries, 0x011A, "Resolution", unit, fields);
    assert(views(fields@) =~= turned + ratio_field(
        b,
        be,
        es,
        0x011A,
        "Resolution"@,
        resolution_unit(b, be, es),
    ));
    proof {
        let o = views(old(fields)@);
        let r1 = ratio_field(b, be, es, 0x920A, "Focal Length"@, Seq::<char>::empty());
        let r2 = ratio_field(b, be, es, 0x829A, "Exposure Time"@, Seq::<char>::empty());
        let r3 = ratio_field(b, be, es, 0x829D, "F-Stop"@, Seq::<char>::empty());
        let n0 = number_field(b, be, es, 0x8827, "ISO Speed Rating"@, 0);
        let n1 = number_field(b, be, es, 0x9209, "Flash"@, 1);
        let n2 = number_field(b, be, es, 0x0112, "Orientation"@, 2);
        let r4 = ratio_field(b, be, es, 0x011A, "Resolution"@, resolution_unit(b, be, es));
        lemma_concat(o, r1, r2);
        lemma_concat(o, r1 + r2, r3);
        lemma_concat(o, r1 + r2 + r3, n0);
        lemma_concat(o, r1 + r2 + r3 + n0, n1);
        lemma_concat(o, r1 + r2 + r3 + n0 + n1, n2);
        lemma_concat(o, r1 + r2 + r3 + n0 + n1 + n2, r4);
    }
}

proof fn lemma_concat(a: Seq<FieldView>, b: Seq<FieldView>, c: Seq<FieldView>)
    ensures
        a + b + c == a + (b + c),
{
    assert(a + b + c =~= a + (b + c));
}

/// Read what `bytes` say about themselves.
///
/// Unrecognised or truncated files come back empty rather than failing: File
/// Info showing nothing is a fair answer for a file with nothing to show.
pub fn read(bytes: &[u8]) -> (m: Metadata)
    ensures
        match xmp_packet(bytes@) {
            Some(t) => m.xmp is Some && m.xmp->Some_0@ == t,
            None => m.xmp is None,
        },
        views(m.fields@) == (match exif_span(bytes@) {
            Some((start, end)) => exif_fields(bytes@.subrange(start, end)),
            None => seq![],
        }),
        m.orientation == (match exif_span(bytes@) {
            Some((start, end)) => exif_orientation(bytes@.subrange(start, end)),
            None => None,
        }),
{
    let mut meta = Metadata { fields: Vec::new(), xmp: find_xmp(bytes), orientation: None };
    assert(views(meta.fields@) =~= Seq::<FieldView>::empty());
    if let Some(exif) = find_exif(bytes) {
        let mut orientation = None;
        read_exif(exif, &mut meta.fields, &mut orientation);
        meta.orientation = orientation;
    }
    meta
}

} // verus!
