//! The layer records of a PSD: where each layer sits, how it blends, what it
//! is called, which channels it has and, for a type layer, what it says.

use vstd::prelude::*;

use crate::blend::BlendMode;
use crate::buffer::{Pixmap, Rgba8};
use crate::chars::{numbered, push_decimal};
use crate::layer::{wide_open, Layer, LayerId, LayerKind, LayerStack};
use crate::psd::text::{type_tool_at, Descriptor, DescriptorView};
use crate::psd::{
    be_u16, be_u32, blend_mode_from_key, eof_at, find_type_tool, fits, mode_of_key, outcome,
    pascal_stop, read_channel, spec_channel, spec_pascal, type_block, Fault, PsdError, Reader,
};

verus! {

/// One layer record as the file states it.
pub struct LayerRecord {
    pub top: i32,
    pub left: i32,
    pub bottom: i32,
    pub right: i32,
    /// Each channel's id and the length of its data, in file order.
    pub channels: Vec<(i16, usize)>,
    pub blend_mode: BlendMode,
    pub opacity: u8,
    pub clipping: bool,
    pub hidden: bool,
    pub name: String,
    /// What the layer says, for a type layer.
    pub text: Option<Descriptor>,
}

/// [`LayerRecord`] as plain values.
pub struct RecordView {
    pub top: i32,
    pub left: i32,
    pub bottom: i32,
    pub right: i32,
    pub channels: Seq<(i16, usize)>,
    pub blend_mode: BlendMode,
    pub opacity: u8,
    pub clipping: bool,
    pub hidden: bool,
    pub name: Seq<char>,
    pub text: Option<DescriptorView>,
}

impl View for LayerRecord {
    type V = RecordView;

    open spec fn view(&self) -> RecordView {
        RecordView {
            top: self.top,
            left: self.left,
            bottom: self.bottom,
            right: self.right,
            channels: self.channels@,
            blend_mode: self.blend_mode,
            opacity: self.opacity,
            clipping: self.clipping,
            hidden: self.hidden,
            name: self.name@,
            text: match &self.text {
                Some(t) => Some(t@),
                None => None,
            },
        }
    }
}

/// The bounds at `at`: top, left, bottom and right, four bytes each.
pub open spec fn bounds_at(d: Seq<u8>, at: int) -> Result<(i32, i32, i32, i32), Fault> {
    let len = d.len() as int;
    if !fits(len, at, 4) {
        Err(eof_at(len, at, 4))
    } else if !fits(len, at + 4, 4) {
        Err(eof_at(len, at + 4, 4))
    } else if !fits(len, at + 8, 4) {
        Err(eof_at(len, at + 8, 4))
    } else if !fits(len, at + 12, 4) {
        Err(eof_at(len, at + 12, 4))
    } else {
        Ok(
            (
                be_u32(d, at) as i32,
                be_u32(d, at + 4) as i32,
                be_u32(d, at + 8) as i32,
                be_u32(d, at + 12) as i32,
            ),
        )
    }
}

/// `n` channel entries from `at`: a two-byte id and a four-byte length each.
pub open spec fn channel_list(d: Seq<u8>, at: int, n: int) -> Result<Seq<(i16, usize)>, Fault>
    decreases n,
{
    if n <= 0 {
        Ok(seq![])
    } else {
        match channel_list(d, at, n - 1) {
            Err(f) => Err(f),
            Ok(prev) => {
                let len = d.len() as int;
                let p = at + 6 * (n - 1);
                if !fits(len, p, 2) {
                    Err(eof_at(len, p, 2))
                } else if !fits(len, p + 2, 4) {
                    Err(eof_at(len, p + 2, 4))
                } else {
                    Ok(prev.push((be_u16(d, p) as i16, be_u32(d, p + 2) as usize)))
                }
            },
        }
    }
}

/// The blending part at `at`: the `8BIM` signature (not checked), the mode
/// key, opacity, clipping, the flags byte (bit 1 set on a hidden layer) and a
/// filler byte. The mode, opacity, clipping and whether it is hidden.
pub open spec fn blending_at(d: Seq<u8>, at: int) -> Result<(BlendMode, u8, bool, bool), Fault> {
    let len = d.len() as int;
    if !fits(len, at, 4) {
        Err(eof_at(len, at, 4))
    } else if !fits(len, at + 4, 4) {
        Err(eof_at(len, at + 4, 4))
    } else if !fits(len, at + 8, 1) {
        Err(eof_at(len, at + 8, 1))
    } else if !fits(len, at + 9, 1) {
        Err(eof_at(len, at + 9, 1))
    } else if !fits(len, at + 10, 1) {
        Err(eof_at(len, at + 10, 1))
    } else if !fits(len, at + 11, 1) {
        Err(eof_at(len, at + 11, 1))
    } else {
        Ok(
            (
                mode_of_key(d.subrange(at + 4, at + 8)),
                d[at + 8],
                d[at + 9] != 0,
                d[at + 10] & 2u8 != 0,
            ),
        )
    }
}

/// How a record's blending part is read, byte by byte: the opacity is the
/// byte after the mode key, the layer clips to the one below exactly when the
/// next byte is not zero, and it is hidden exactly when bit 1 (0x02) of the
/// flags byte after that is set, whatever the flags byte's other bits (bit 0
/// is the transparency lock, bit 3 one that Photoshop always sets).
pub proof fn law_blending_read_from_its_bytes(d: Seq<u8>, at: int)
    requires
        0 <= at,
        at + 12 <= d.len(),
    ensures
        blending_at(d, at) matches Ok((mode, opacity, clipping, hidden)) && {
            &&& mode == mode_of_key(d.subrange(at + 4, at + 8))
            &&& opacity == d[at + 8]
            &&& clipping == (d[at + 9] != 0u8)
            &&& hidden == (d[at + 10] & 0x02u8 == 0x02u8)
        },
{
    let f = d[at + 10];
    assert((f & 2u8 != 0u8) == (f & 0x02u8 == 0x02u8)) by (bit_vector);
}

/// The lengths at `at` that frame a record's extra data: its own length, then
/// the mask data and the blending ranges, each a length and that many bytes.
/// Where the extra data ends, and where the name after the two skipped parts
/// starts.
pub open spec fn extra_at(d: Seq<u8>, at: int) -> Result<(int, int), Fault> {
    let len = d.len() as int;
    if !fits(len, at, 4) {
        Err(eof_at(len, at, 4))
    } else if !fits(len, at + 4, 4) {
        Err(eof_at(len, at + 4, 4))
    } else {
        let mask = be_u32(d, at + 4) as int;
        if !fits(len, at + 8, mask) {
            Err(eof_at(len, at + 8, mask))
        } else if !fits(len, at + 8 + mask, 4) {
            Err(eof_at(len, at + 8 + mask, 4))
        } else {
            let ranges = be_u32(d, at + 8 + mask) as int;
            if !fits(len, at + 12 + mask, ranges) {
                Err(eof_at(len, at + 12 + mask, ranges))
            } else {
                Ok((at + 4 + be_u32(d, at) as int, at + 12 + mask + ranges))
            }
        }
    }
}

/// `a`, or `b` if that is smaller.
pub open spec fn min_of(a: int, b: int) -> int {
    if a <= b {
        a
    } else {
        b
    }
}

/// What reading one layer record at `at` gives, and where the reader goes on
/// from: the end of the record's extra data, or the end of the file. A name
/// that cannot be read is left empty; the type data is the first `TySh` block
/// after the name.
pub open spec fn record_at(d: Seq<u8>, at: int) -> Result<(RecordView, int), Fault> {
    let len = d.len() as int;
    match bounds_at(d, at) {
        Err(f) => Err(f),
        Ok((top, left, bottom, right)) => if !fits(len, at + 16, 2) {
            Err(eof_at(len, at + 16, 2))
        } else {
            let count = be_u16(d, at + 16) as int;
            match channel_list(d, at + 18, count) {
                Err(f) => Err(f),
                Ok(channels) => {
                    let p = at + 18 + 6 * count;
                    match blending_at(d, p) {
                        Err(f) => Err(f),
                        Ok((mode, opacity, clipping, hidden)) => match extra_at(d, p + 12) {
                            Err(f) => Err(f),
                            Ok((extra_end, name_at)) => {
                                let (name, after) = match spec_pascal(d, name_at, 4) {
                                    Ok((t, e)) => (t, e),
                                    Err(_) => (Seq::<char>::empty(), pascal_stop(d, name_at)),
                                };
                                let text = match type_block(d, after, extra_end) {
                                    Some(body) => type_tool_at(body),
                                    None => None,
                                };
                                Ok(
                                    (
                                        RecordView {
                                            top,
                                            left,
                                            bottom,
                                            right,
                                            channels,
                                            blend_mode: mode,
                                            opacity,
                                            clipping,
                                            hidden,
                                            name,
                                            text,
                                        },
                                        min_of(extra_end, len),
                                    ),
                                )
                            },
                        },
                    }
                },
            }
        },
    }
}

fn read_bounds(r: &mut Reader) -> (res: Result<(i32, i32, i32, i32), PsdError>)
    requires
        old(r).wf(),
    ensures
        final(r).wf(),
        final(r).data@ == old(r).data@,
        match bounds_at(old(r).data@, old(r).pos as int) {
            Ok(b) => res == Ok::<(i32, i32, i32, i32), PsdError>(b) && final(r).pos == old(r).pos
                + 16,
            Err(f) => outcome(res) == Err::<(i32, i32, i32, i32), Fault>(f),
        },
{
    let top = match r.i32() {
        Ok(v) => v,
        Err(e) => return Err(e),
    };
    let left = match r.i32() {
        Ok(v) => v,
        Err(e) => return Err(e),
    };
    let bottom = match r.i32() {
        Ok(v) => v,
        Err(e) => return Err(e),
    };
    let right = match r.i32() {
        Ok(v) => v,
        Err(e) => return Err(e),
    };
    Ok((top, left, bottom, right))
}

fn read_channel_list(r: &mut Reader, n: usize) -> (res: Result<Vec<(i16, usize)>, PsdError>)
    requires
        old(r).wf(),
    ensures
        final(r).wf(),
        final(r).data@ == old(r).data@,
        match channel_list(old(r).data@, old(r).pos as int, n as int) {
            Ok(c) => res is Ok && res->Ok_0@ == c && final(r).pos == old(r).pos + 6 * n,
            Err(f) => outcome(res) == Err::<Vec<(i16, usize)>, Fault>(f),
        },
{
    let ghost d = r.data@;
    let ghost at = r.pos as int;
    let mut channels: Vec<(i16, usize)> = Vec::new();
    let mut i: usize = 0;
    while i < n
        invariant
            r.wf(),
            r.data@ == d,
            d == old(r).data@,
            at == old(r).pos,
            i <= n,
            r.pos == at + 6 * i,
            channel_list(d, at, i as int) == Ok::<Seq<(i16, usize)>, Fault>(channels@),
        decreases n - i,
    {
        let id = match r.i16() {
            Ok(v) => v,
            Err(e) => {
                proof {
                    lemma_channel_list_stops(d, at, i as int + 1, n as int);
                }
                return Err(e);
            },
        };
        let length = match r.u32() {
            Ok(v) => v as usize,
            Err(e) => {
                proof {
                    lemma_channel_list_stops(d, at, i as int + 1, n as int);
                }
                return Err(e);
            },
        };
        channels.push((id, length));
        i = i + 1;
    }
    Ok(channels)
}

/// Once the list fails at entry `k`, the longer lists fail the same way.
proof fn lemma_channel_list_stops(d: Seq<u8>, at: int, k: int, n: int)
    requires
        1 <= k <= n,
        channel_list(d, at, k) is Err,
    ensures
        channel_list(d, at, n) == channel_list(d, at, k),
    decreases n - k,
{
    if n > k {
        lemma_channel_list_stops(d, at, k, n - 1);
    }
}

fn read_blending(r: &mut Reader) -> (res: Result<(BlendMode, u8, bool, bool), PsdError>)
    requires
        old(r).wf(),
    ensures
        final(r).wf(),
        final(r).data@ == old(r).data@,
        match blending_at(old(r).data@, old(r).pos as int) {
            Ok(b) => res == Ok::<(BlendMode, u8, bool, bool), PsdError>(b) && final(r).pos
                == old(r).pos + 12,
            Err(f) => outcome(res) == Err::<(BlendMode, u8, bool, bool), Fault>(f),
        },
{
    // The blend mode signature, always `8BIM`.
    match r.skip(4) {
        Ok(_) => {},
        Err(e) => return Err(e),
    }
    let key = match r.take(4) {
        Ok(k) => k,
        Err(e) => return Err(e),
    };
    let mode = blend_mode_from_key(key);
    let opacity = match r.u8() {
        Ok(v) => v,
        Err(e) => return Err(e),
    };
    let clipping = match r.u8() {
        Ok(v) => v != 0,
        Err(e) => return Err(e),
    };
    // Bit 1 is set when the layer is hidden.
    let hidden = match r.u8() {
        Ok(flags) => flags & 2 != 0,
        Err(e) => return Err(e),
    };
    // Filler.
    match r.skip(1) {
        Ok(_) => {},
        Err(e) => return Err(e),
    }
    Ok((mode, opacity, clipping, hidden))
}

/// `pos + n`, or `usize::MAX` if that is larger: past the end of any file.
fn end_of(pos: usize, n: usize) -> (e: usize)
    ensures
        e == (if pos + n <= usize::MAX {
            pos + n
        } else {
            usize::MAX as int
        }),
{
    if n <= usize::MAX - pos {
        pos + n
    } else {
        usize::MAX
    }
}

/// The extra data's end, and the reader left at the name.
fn read_extra(r: &mut Reader) -> (res: Result<usize, PsdError>)
    requires
        old(r).wf(),
    ensures
        final(r).wf(),
        final(r).data@ == old(r).data@,
        match extra_at(old(r).data@, old(r).pos as int) {
            Ok((extra_end, name_at)) => res is Ok && res->Ok_0 == min_of(
                extra_end,
                usize::MAX as int,
            ) && final(r).pos == name_at,
            Err(f) => outcome(res) == Err::<usize, Fault>(f),
        },
{
    let extra_len = match r.u32() {
        Ok(v) => v as usize,
        Err(e) => return Err(e),
    };
    let extra_end = end_of(r.pos, extra_len);
    // Layer mask data.
    let mask_len = match r.u32() {
        Ok(v) => v as usize,
        Err(e) => return Err(e),
    };
    match r.skip(mask_len) {
        Ok(_) => {},
        Err(e) => return Err(e),
    }
    // Blending ranges.
    let ranges_len = match r.u32() {
        Ok(v) => v as usize,
        Err(e) => return Err(e),
    };
    match r.skip(ranges_len) {
        Ok(_) => {},
        Err(e) => return Err(e),
    }
    Ok(extra_end)
}

/// The type data a layer's walk finds is the same whether the walk is bounded
/// by the extra data's end or by that end cut to the end of the file.
pub proof fn lemma_type_block_bound(d: Seq<u8>, at: int, e1: int, e2: int)
    requires
        min_of(e1, d.len() as int) == min_of(e2, d.len() as int),
    ensures
        type_block(d, at, e1) == type_block(d, at, e2),
    decreases d.len() - at,
{
    let len = d.len() as int;
    if at < 0 || at > len || !fits(len, at, 12) {
    } else if !crate::psd::block_signature(d.subrange(at, at + 4)) {
    } else {
        let length = be_u32(d, at + 8) as int;
        if fits(len, at + 12, length) {
            let next = at + 12 + length + length % 2;
            lemma_type_block_bound(d, if next <= len { next } else { len }, e1, e2);
        }
    }
}

impl Clone for Descriptor {
    fn clone(&self) -> (c: Descriptor)
        ensures
            c@ == self@,
    {
        Descriptor {
            text: match &self.text {
                Some(t) => Some(t.clone()),
                None => None,
            },
            engine_data: match &self.engine_data {
                Some(e) => Some(e.clone()),
                None => None,
            },
        }
    }
}

/// Read one layer record.
pub fn read_record(r: &mut Reader) -> (res: Result<LayerRecord, PsdError>)
    requires
        old(r).wf(),
    ensures
        final(r).wf(),
        final(r).data@ == old(r).data@,
        match record_at(old(r).data@, old(r).pos as int) {
            Ok((v, next)) => res is Ok && res->Ok_0@ == v && final(r).pos == next,
            Err(f) => outcome(res) == Err::<LayerRecord, Fault>(f),
        },
{
    let ghost d = r.data@;
    let ghost at = r.pos as int;
    let (top, left, bottom, right) = match read_bounds(r) {
        Ok(b) => b,
        Err(e) => return Err(e),
    };
    // Each channel: a two-byte id saying which one it is, and the length of
    // its data further down the file. Both are needed to read the pixels: the
    // ids say which plane is red and which is transparency, and the lengths
    // are the only way to walk from one channel to the next.
    let count = match r.u16() {
        Ok(v) => v as usize,
        Err(e) => return Err(e),
    };
    let channels = match read_channel_list(r, count) {
        Ok(c) => c,
        Err(e) => return Err(e),
    };
    let (blend_mode, opacity, clipping, hidden) = match read_blending(r) {
        Ok(b) => b,
        Err(e) => return Err(e),
    };
    let extra_end = match read_extra(r) {
        Ok(e) => e,
        Err(e) => return Err(e),
    };
    // The legacy Pascal name, padded to 4 bytes.
    let name = match r.pascal_string(4) {
        Ok(s) => s,
        Err(_) => String::new(),
    };
    // The additional layer information blocks, which is where a type layer
    // keeps what it says.
    let len = r.data.len();
    let bound = if extra_end <= len {
        extra_end
    } else {
        len
    };
    proof {
        let p = at + 18 + 6 * count;
        let (e, _) = extra_at(d, p + 12)->Ok_0;
        lemma_type_block_bound(d, r.pos as int, e, bound as int);
    }
    let text = find_type_tool(r, bound);
    r.pos = bound;
    Ok(LayerRecord { top, left, bottom, right, channels, blend_mode, opacity, clipping, hidden, name, text })
}

/// `n` layer records one after another from `at`, and where the last ends.
pub open spec fn records_at(d: Seq<u8>, at: int, n: int) -> Result<(Seq<RecordView>, int), Fault>
    decreases n,
{
    if n <= 0 {
        Ok((seq![], at))
    } else {
        match records_at(d, at, n - 1) {
            Err(f) => Err(f),
            Ok((prev, p)) => match record_at(d, p) {
                Err(f) => Err(f),
                Ok((rec, next)) => Ok((prev.push(rec), next)),
            },
        }
    }
}

/// Once the records fail at the `k`th, the longer runs fail the same way.
proof fn lemma_records_stop(d: Seq<u8>, at: int, k: int, n: int)
    requires
        1 <= k <= n,
        records_at(d, at, k) is Err,
    ensures
        records_at(d, at, n) == records_at(d, at, k),
    decreases n - k,
{
    if n > k {
        lemma_records_stop(d, at, k, n - 1);
    }
}

/// Read `n` layer records.
pub fn read_records(r: &mut Reader, n: usize) -> (res: Result<Vec<LayerRecord>, PsdError>)
    requires
        old(r).wf(),
    ensures
        final(r).wf(),
        final(r).data@ == old(r).data@,
        match records_at(old(r).data@, old(r).pos as int, n as int) {
            Ok((recs, next)) => res is Ok && res->Ok_0@.len() == recs.len() && (forall|i: int|
                0 <= i < recs.len() ==> #[trigger] res->Ok_0@[i]@ == recs[i]) && final(r).pos
                == next,
            Err(f) => outcome(res) == Err::<Vec<LayerRecord>, Fault>(f),
        },
{
    let ghost d = r.data@;
    let ghost at = r.pos as int;
    let mut records: Vec<LayerRecord> = Vec::new();
    let mut i: usize = 0;
    while i < n
        invariant
            r.wf(),
            r.data@ == d,
            d == old(r).data@,
            at == old(r).pos,
            i <= n,
            records_at(d, at, i as int) matches Ok((recs, p)) && records@.len() == recs.len() && (
            forall|j: int| 0 <= j < recs.len() ==> #[trigger] records@[j]@ == recs[j]) && r.pos
                == p,
        decreases n - i,
    {
        match read_record(r) {
            Ok(rec) => records.push(rec),
            Err(e) => {
                proof {
                    lemma_records_stop(d, at, i as int + 1, n as int);
                }
                return Err(e);
            },
        }
        i = i + 1;
    }
    Ok(records)
}

/// The colour and transparency planes read so far, and where the reader is.
pub struct Planes {
    pub red: Seq<u8>,
    pub green: Seq<u8>,
    pub blue: Seq<u8>,
    pub alpha: Seq<u8>,
    pub pos: int,
}

/// Whether a channel id is one of the planes a layer is drawn from: 0, 1 and
/// 2 for the colours and -1 for transparency. The masks, -2 and -3, have
/// bounds of their own and are stepped over.
pub open spec fn drawn(id: i16) -> bool {
    id == 0 || id == 1 || id == 2 || id == -1
}

/// Reading the first `k` of a `w` x `h` layer's channels from `at`. Each
/// channel that is drawn from and decodes replaces the plane its id names;
/// one that does not decode is left out. Either way the next channel starts
/// at this one's stated end, whatever the decoder read, cut to the end of the
/// file.
pub open spec fn planes_at(
    d: Seq<u8>,
    at: int,
    channels: Seq<(i16, usize)>,
    w: int,
    h: int,
    k: int,
) -> Planes
    decreases k,
{
    if k <= 0 {
        Planes { red: seq![], green: seq![], blue: seq![], alpha: seq![], pos: at }
    } else {
        let prev = planes_at(d, at, channels, w, h, k - 1);
        let id = channels[k - 1].0;
        let end = min_of(prev.pos + channels[k - 1].1 as int, d.len() as int);
        if drawn(id) && w * h > 0 && spec_channel(d, prev.pos, w, h) is Ok {
            let plane = spec_channel(d, prev.pos, w, h)->Ok_0;
            if id == 0 {
                Planes { red: plane, pos: end, ..prev }
            } else if id == 1 {
                Planes { green: plane, pos: end, ..prev }
            } else if id == 2 {
                Planes { blue: plane, pos: end, ..prev }
            } else {
                Planes { alpha: plane, pos: end, ..prev }
            }
        } else {
            Planes { pos: end, ..prev }
        }
    }
}

/// Byte `i` of a plane, or `fallback` past its end.
pub open spec fn plane_at(plane: Seq<u8>, i: int, fallback: u8) -> u8 {
    if 0 <= i < plane.len() {
        plane[i]
    } else {
        fallback
    }
}

/// Pixel `i` of a layer drawn from its planes. A greyscale layer has only one
/// colour plane, so green and blue fall back to red rather than to black; no
/// transparency plane means the layer is opaque within its bounds, which is
/// how a background layer is written.
pub open spec fn layer_pixel(p: Planes, i: int) -> Rgba8 {
    let r = plane_at(p.red, i, 0);
    Rgba8 {
        r,
        g: if p.green.len() == 0 {
            r
        } else {
            plane_at(p.green, i, 0)
        },
        b: if p.blue.len() == 0 {
            r
        } else {
            plane_at(p.blue, i, 0)
        },
        a: if p.alpha.len() == 0 {
            255
        } else {
            plane_at(p.alpha, i, 255)
        },
    }
}

fn plane_byte(plane: &Vec<u8>, i: usize, fallback: u8) -> (v: u8)
    ensures
        v == plane_at(plane@, i as int, fallback),
{
    if i < plane.len() {
        plane[i]
    } else {
        fallback
    }
}

/// Read a `width` x `height` layer's channels into its pixels.
///
/// A layer stores each channel separately, and they have to be interleaved
/// to become pixels. Anything unreadable leaves that plane out rather than
/// failing the open: a file with one odd layer should still come up.
pub fn read_layer_pixels(r: &mut Reader, channels: &Vec<(i16, usize)>, width: u32, height: u32) -> (px: Vec<Rgba8>)
    requires
        old(r).wf(),
        width as int * height as int <= usize::MAX,
    ensures
        final(r).wf(),
        final(r).data@ == old(r).data@,
        ({
            let p = planes_at(
                old(r).data@,
                old(r).pos as int,
                channels@,
                width as int,
                height as int,
                channels@.len() as int,
            );
            &&& final(r).pos == p.pos
            &&& px@ == Seq::new((width as int * height as int) as nat, |i: int| layer_pixel(p, i))
        }),
{
    let ghost d = r.data@;
    let ghost at = r.pos as int;
    let per_channel = width as usize * height as usize;
    let mut red: Vec<u8> = Vec::new();
    let mut green: Vec<u8> = Vec::new();
    let mut blue: Vec<u8> = Vec::new();
    let mut alpha: Vec<u8> = Vec::new();
    let mut k: usize = 0;
    while k < channels.len()
        invariant
            r.wf(),
            r.data@ == d,
            d == old(r).data@,
            at == old(r).pos,
            k <= channels@.len(),
            per_channel == width as int * height as int,
            width as int * height as int <= usize::MAX,
            ({
                let p = planes_at(d, at, channels@, width as int, height as int, k as int);
                &&& red@ == p.red
                &&& green@ == p.green
                &&& blue@ == p.blue
                &&& alpha@ == p.alpha
                &&& r.pos == p.pos
            }),
        decreases channels@.len() - k,
    {
        let (id, length) = channels[k];
        let len = r.data.len();
        let stated = end_of(r.pos, length);
        let end = if stated <= len {
            stated
        } else {
            len
        };
        let wanted = (id == 0 || id == 1 || id == 2 || id == -1) && per_channel > 0;
        if wanted {
            match read_channel(r, width, height) {
                Ok(plane) => {
                    if id == 0 {
                        red = plane;
                    } else if id == 1 {
                        green = plane;
                    } else if id == 2 {
                        blue = plane;
                    } else {
                        alpha = plane;
                    }
                },
                Err(_) => {},
            }
        }
        // Always resume at the channel's stated end: the next channel's
        // position depends on this length, not on how far the decoder read.
        r.pos = end;
        k = k + 1;
    }
    let ghost p = planes_at(d, at, channels@, width as int, height as int, channels@.len() as int);
    let mut px: Vec<Rgba8> = Vec::new();
    let mut i: usize = 0;
    while i < per_channel
        invariant
            i <= per_channel,
            per_channel == width as int * height as int,
            red@ == p.red,
            green@ == p.green,
            blue@ == p.blue,
            alpha@ == p.alpha,
            px@ == Seq::new(i as nat, |j: int| layer_pixel(p, j)),
        decreases per_channel - i,
    {
        let r8 = plane_byte(&red, i, 0);
        let g8 = if green.len() == 0 {
            r8
        } else {
            plane_byte(&green, i, 0)
        };
        let b8 = if blue.len() == 0 {
            r8
        } else {
            plane_byte(&blue, i, 0)
        };
        let a8 = if alpha.len() == 0 {
            255
        } else {
            plane_byte(&alpha, i, 255)
        };
        px.push(Rgba8 { r: r8, g: g8, b: b8, a: a8 });
        proof {
            assert(px@ =~= Seq::new((i + 1) as nat, |j: int| layer_pixel(p, j)));
        }
        i = i + 1;
    }
    px
}

/// A layer's extent along one axis: the far edge less the near one, or
/// nothing if the edges are the wrong way round.
pub open spec fn extent(near: i32, far: i32) -> int {
    if far - near > 0 {
        far - near
    } else {
        0
    }
}

/// What a layer is called: its record's name, or "Layer N" after its place
/// in the stack, counting from 1, when the record has none.
pub open spec fn layer_name(name: Seq<char>, k: int) -> Seq<char> {
    if name.len() == 0 {
        numbered("Layer "@, (k + 1) as nat)
    } else {
        name
    }
}

/// The pixels of the first `k` layers, whose channel data follows the records
/// from `at`, one layer after another; and where the last one ends. A layer
/// whose pixel count does not fit in memory is reported as invalid.
pub open spec fn section_pixels(d: Seq<u8>, at: int, recs: Seq<RecordView>, k: int) -> Result<
    (Seq<Seq<Rgba8>>, int),
    Fault,
>
    decreases k,
{
    if k <= 0 {
        Ok((seq![], at))
    } else {
        match section_pixels(d, at, recs, k - 1) {
            Err(f) => Err(f),
            Ok((prev, p)) => {
                let rec = recs[k - 1];
                let w = extent(rec.left, rec.right);
                let h = extent(rec.top, rec.bottom);
                if w * h > usize::MAX {
                    Err(Fault::InvalidDimensions { width: w as u32, height: h as u32 })
                } else {
                    let planes = planes_at(d, p, rec.channels, w, h, rec.channels.len() as int);
                    Ok(
                        (
                            prev.push(Seq::new((w * h) as nat, |i: int| layer_pixel(planes, i))),
                            planes.pos,
                        ),
                    )
                }
            },
        }
    }
}

/// What the layer section holds, read from `at`, where its info length is:
/// the records, and each layer's pixels. An info length of zero means no
/// layers. A negative count only says the first alpha channel is the merged
/// transparency; its size is the count.
pub open spec fn section_at(d: Seq<u8>, at: int) -> Result<(Seq<RecordView>, Seq<Seq<Rgba8>>), Fault> {
    let len = d.len() as int;
    if !fits(len, at, 4) {
        Err(eof_at(len, at, 4))
    } else if be_u32(d, at) == 0 {
        Ok((seq![], seq![]))
    } else if !fits(len, at + 4, 2) {
        Err(eof_at(len, at + 4, 2))
    } else {
        let raw = be_u16(d, at + 4) as i16;
        let count: int = if raw < 0 {
            -raw
        } else {
            raw as int
        };
        match records_at(d, at + 6, count) {
            Err(f) => Err(f),
            Ok((recs, p)) => match section_pixels(d, p, recs, count) {
                Err(f) => Err(f),
                Ok((px, _)) => Ok((recs, px)),
            },
        }
    }
}

/// Whether `l` is the `k`th layer read from the record `rec`, drawn as `px`:
/// placed, blended and named as the record says, raster, unmasked and
/// otherwise as a new layer starts.
pub open spec fn read_layer(l: Layer, k: int, rec: RecordView, px: Seq<Rgba8>) -> bool {
    &&& l.id == LayerId((k + 1) as u64)
    &&& l.name@ == layer_name(rec.name, k)
    &&& l.kind == LayerKind::Raster
    &&& l.pixels.is(extent(rec.left, rec.right), extent(rec.top, rec.bottom), px)
    &&& l.offset == (rec.left, rec.top)
    &&& l.mask is None
    &&& l.mask_enabled
    &&& l.mask_linked
    &&& l.blend_mode == rec.blend_mode
    &&& l.opacity == rec.opacity
    &&& l.fill_opacity == 255
    &&& l.visible == !rec.hidden
    &&& l.clipping == rec.clipping
    &&& !l.lock_transparency
    &&& !l.lock_pixels
    &&& !l.lock_position
    &&& l.label == 0
    &&& l.channels@ == seq![true, true, true]
    &&& l.blend_if.channel == 0
    &&& l.blend_if.this_layer@ == wide_open()
    &&& l.blend_if.underlying@ == wide_open()
    &&& l.transparency_shapes
    &&& l.mask_hides_effects
    &&& l.parent is None
    &&& l.expanded
}

/// Once the pixels fail at the `k`th layer, the longer runs fail the same way.
proof fn lemma_section_pixels_stop(d: Seq<u8>, at: int, recs: Seq<RecordView>, k: int, n: int)
    requires
        1 <= k <= n,
        section_pixels(d, at, recs, k) is Err,
    ensures
        section_pixels(d, at, recs, n) == section_pixels(d, at, recs, k),
    decreases n - k,
{
    if n > k {
        lemma_section_pixels_stop(d, at, recs, k, n - 1);
    }
}

/// A run of `n` records is `n` long.
proof fn lemma_records_len(d: Seq<u8>, at: int, n: int)
    requires
        0 <= n,
        records_at(d, at, n) is Ok,
    ensures
        records_at(d, at, n)->Ok_0.0.len() == n,
    decreases n,
{
    if n > 0 {
        lemma_records_len(d, at, n - 1);
    }
}

/// The pixels of `k` layers are `k` images.
proof fn lemma_section_pixels_len(d: Seq<u8>, at: int, recs: Seq<RecordView>, k: int)
    requires
        0 <= k,
        section_pixels(d, at, recs, k) is Ok,
    ensures
        section_pixels(d, at, recs, k)->Ok_0.0.len() == k,
    decreases k,
{
    if k > 0 {
        lemma_section_pixels_len(d, at, recs, k - 1);
    }
}

/// A record's extent, computed wide enough not to overflow.
fn extent_of(near: i32, far: i32) -> (e: u32)
    ensures
        e == extent(near, far),
{
    let diff = far as i64 - near as i64;
    if diff > 0 {
        diff as u32
    } else {
        0
    }
}

/// The `k`th layer, with id `id`, from its record, its pixels read from the
/// reader's position.
fn layer_from_record(r: &mut Reader, rec: &LayerRecord, id: LayerId, k: usize) -> (l: Layer)
    requires
        old(r).wf(),
        extent(rec.left, rec.right) * extent(rec.top, rec.bottom) <= usize::MAX,
        id.0 == k + 1,
        k < 32768,
    ensures
        final(r).wf(),
        final(r).data@ == old(r).data@,
        ({
            let w = extent(rec.left, rec.right);
            let h = extent(rec.top, rec.bottom);
            let planes = planes_at(
                old(r).data@,
                old(r).pos as int,
                rec.channels@,
                w,
                h,
                rec.channels@.len() as int,
            );
            &&& final(r).pos == planes.pos
            &&& read_layer(l, k as int, rec@, Seq::new((w * h) as nat, |i: int| layer_pixel(planes, i)))
        }),
{
    let width = extent_of(rec.left, rec.right);
    let height = extent_of(rec.top, rec.bottom);
    let name = if rec.name.as_str().is_empty() {
        let mut n = String::from_str("Layer ");
        push_decimal(&mut n, k as u64 + 1);
        n
    } else {
        rec.name.clone()
    };
    let mut layer = Layer::new_raster(id, name, width, height);
    layer.offset = (rec.left, rec.top);
    layer.blend_mode = rec.blend_mode;
    layer.opacity = rec.opacity;
    layer.clipping = rec.clipping;
    layer.visible = !rec.hidden;
    let ghost d = r.data@;
    let ghost at = r.pos as int;
    let px = read_layer_pixels(r, &rec.channels, width, height);
    proof {
        let planes = planes_at(d, at, rec.channels@, width as int, height as int, rec.channels@.len() as int);
        assert(px@ =~= Seq::new((width as int * height as int) as nat, |i: int| layer_pixel(planes, i)));
    }
    layer.pixels = Pixmap::from_pixels(width, height, px);
    assert(layer.name@ == layer_name(rec.name@, k as int));
    assert(layer.id == LayerId((k + 1) as u64));
    layer
}

/// Read the layer section from the reader's position, where its info length
/// is, up to `section_end`: the layers, bottom first, each with its pixels,
/// and what each type layer says, by stack position. The reader is left at
/// the end the info states, cut to the section and the file.
#[verifier::spinoff_prover]
#[verifier::rlimit(40)]
pub fn parse_layer_section(r: &mut Reader, section_end: usize) -> (res: Result<
    (LayerStack, Vec<Option<Descriptor>>),
    PsdError,
>)
    requires
        old(r).wf(),
    ensures
        final(r).wf(),
        final(r).data@ == old(r).data@,
        match section_at(old(r).data@, old(r).pos as int) {
            Ok((recs, px)) => res matches Ok((stack, texts)) && {
                &&& stack.layers().len() == recs.len()
                &&& stack.next_id() == recs.len() + 1
                &&& texts@.len() == recs.len()
                &&& forall|k: int|
                    0 <= k < recs.len() ==> read_layer(#[trigger] stack.layers()[k], k, recs[k], px[k])
                        && match texts@[k] {
                        Some(t) => recs[k].text == Some(t@),
                        None => recs[k].text is None,
                    }
            },
            Err(f) => outcome(res) == Err::<(LayerStack, Vec<Option<Descriptor>>), Fault>(f),
        },
{
    let ghost d = r.data@;
    let ghost at = r.pos as int;
    let mut stack = LayerStack::new();
    let mut texts: Vec<Option<Descriptor>> = Vec::new();
    let layer_info_len = match r.u32() {
        Ok(v) => v as usize,
        Err(e) => return Err(e),
    };
    if layer_info_len == 0 {
        return Ok((stack, texts));
    }
    let stated = end_of(r.pos, layer_info_len);
    let layer_info_end = if stated <= section_end {
        stated
    } else {
        section_end
    };
    // A negative count means the first alpha channel holds transparency data.
    let raw_count = match r.i16() {
        Ok(v) => v,
        Err(e) => return Err(e),
    };
    let count: usize = if raw_count < 0 {
        (-(raw_count as i32)) as usize
    } else {
        raw_count as usize
    };
    assert(count as int == (if raw_count < 0 {
        -raw_count
    } else {
        raw_count as int
    }));
    let records = match read_records(r, count) {
        Ok(recs) => recs,
        Err(e) => return Err(e),
    };
    let ghost recs = records_at(d, at + 6, count as int)->Ok_0.0;
    let ghost p0 = records_at(d, at + 6, count as int)->Ok_0.1;
    proof {
        lemma_records_len(d, at + 6, count as int);
        assert(section_at(d, at) == match section_pixels(d, p0, recs, count as int) {
            Err(f) => Err(f),
            Ok((px, _)) => Ok::<(Seq<RecordView>, Seq<Seq<Rgba8>>), Fault>((recs, px)),
        });
    }
    // The channel data for every layer follows, in the same order as the
    // records, each channel headed by its own compression flag.
    let mut k: usize = 0;
    while k < count
        invariant
            r.wf(),
            r.data@ == d,
            d == old(r).data@,
            at == old(r).pos,
            k <= count,
            count <= 32768,
            records@.len() == count,
            recs.len() == count,
            forall|j: int| 0 <= j < count ==> #[trigger] records@[j]@ == recs[j],
            section_at(d, at) == match section_pixels(d, p0, recs, count as int) {
                Err(f) => Err(f),
                Ok((px, _)) => Ok::<(Seq<RecordView>, Seq<Seq<Rgba8>>), Fault>((recs, px)),
            },
            section_pixels(d, p0, recs, k as int) matches Ok((px, p)) && {
                &&& r.pos == p
                &&& stack.layers().len() == k
                &&& stack.next_id() == k + 1
                &&& texts@.len() == k
                &&& forall|j: int|
                    0 <= j < k ==> read_layer(#[trigger] stack.layers()[j], j, recs[j], px[j])
                        && match texts@[j] {
                        Some(t) => recs[j].text == Some(t@),
                        None => recs[j].text is None,
                    }
            },
        decreases count - k,
    {
        let rec = &records[k];
        assert(rec@ == recs[k as int]);
        let width = extent_of(rec.left, rec.right);
        let height = extent_of(rec.top, rec.bottom);
        proof {
            assert(width as u64 * height as u64 <= 0xffff_ffff_ffff_ffff) by (nonlinear_arith)
                requires
                    width <= 0xffff_ffff,
                    height <= 0xffff_ffff,
            ;
            lemma_section_pixels_len(d, p0, recs, k as int);
        }
        if width as u64 * height as u64 > usize::MAX as u64 {
            proof {
                assert(section_pixels(d, p0, recs, k as int + 1) is Err);
                lemma_section_pixels_stop(d, p0, recs, k as int + 1, count as int);
            }
            return Err(PsdError::InvalidDimensions { width, height });
        }
        let ghost prev_px = section_pixels(d, p0, recs, k as int)->Ok_0.0;
        let ghost prev_layers = stack.layers();
        let ghost prev_texts = texts@;
        let ghost start = r.pos as int;
        let id = stack.allocate_id();
        let layer = layer_from_record(r, rec, id, k);
        let text = match &rec.text {
            Some(t) => Some(t.clone()),
            None => None,
        };
        proof {
            let w = width as int;
            let h = height as int;
            let planes = planes_at(d, start, recs[k as int].channels, w, h, recs[k as int].channels.len() as int);
            let drawn_px = Seq::new((w * h) as nat, |i: int| layer_pixel(planes, i));
            assert(section_pixels(d, p0, recs, k as int + 1) == Ok::<(Seq<Seq<Rgba8>>, int), Fault>(
                (prev_px.push(drawn_px), planes.pos),
            ));
        }
        texts.push(text);
        stack.push(layer);
        proof {
            let now = section_pixels(d, p0, recs, k as int + 1)->Ok_0.0;
            assert forall|j: int| 0 <= j < k + 1 implies read_layer(#[trigger] stack.layers()[j], j, recs[j], now[j])
                && match texts@[j] {
                    Some(t) => recs[j].text == Some(t@),
                    None => recs[j].text is None,
                } by {
                if j < k {
                    assert(stack.layers()[j] == prev_layers[j]);
                    assert(texts@[j] == prev_texts[j]);
                }
            }
        }
        k = k + 1;
    }
    // Whatever the channel walk made of the file, carry on from where the
    // info says it ends: one layer with an unreadable channel must not throw
    // the composite off too.
    let len = r.data.len();
    r.pos = if layer_info_end <= len {
        layer_info_end
    } else {
        len
    };
    Ok((stack, texts))
}

} // verus!
