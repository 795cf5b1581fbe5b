//! What a written layered file reads back as.

use vstd::prelude::*;
use vstd::utf8::encode_utf8;

use crate::buffer::Rgba8;
use crate::chars::lenient_text;
use crate::layer::Layer;
use crate::psd::layered::{
    info_bytes, layered_bytes, section_bytes, blending_bytes, bounds_bytes, channel_entry, entries_bytes, extra_bytes, flags_of, flat_pixels,
    flat_size, i32_bytes, plane_length, planes_bytes, record_bytes, records_bytes, text_for,
    type_frame, writable,
};
use crate::psd::layers::{
    blending_at, bounds_at, channel_list, extent, extra_at, layer_pixel, min_of, planes_at,
    record_at, records_at, section_at, section_pixels, RecordView,
};
use crate::psd::text::type_tool_at;
use crate::psd::{
    be_u16, be_u32, composite_bytes, composite_fits, file_at, fits, header_bytes, interleave,
    key_of, law_blend_key_round_trip, layer_channel_bytes, lemma_u32_bytes, padding, pascal_name,
    pascal_written, plane_of, raw_planes, signature, spec_channel, spec_composite,
    spec_parse_header, spec_pascal, type_block, type_key, u16_bytes, u32_bytes, valid_dimensions,
    written_header, zeros, Fault, PsdHeader, psd_bytes, law_written_file_reads_back,
};

verus! {

/// Whether the bytes of `d` from `p` on begin with `x`.
pub open spec fn holds_at(d: Seq<u8>, p: int, x: Seq<u8>) -> bool {
    &&& 0 <= p
    &&& p + x.len() <= d.len()
    &&& d.subrange(p, p + x.len()) == x
}

/// Bytes that begin with two runs begin with each, one after the other.
pub proof fn lemma_holds_split(d: Seq<u8>, p: int, x: Seq<u8>, y: Seq<u8>)
    requires
        holds_at(d, p, x + y),
    ensures
        holds_at(d, p, x),
        holds_at(d, p + x.len(), y),
{
    let whole = d.subrange(p, p + (x + y).len());
    assert(whole == x + y);
    assert(d.subrange(p, p + x.len()) =~= whole.subrange(0, x.len() as int));
    assert(whole.subrange(0, x.len() as int) =~= x);
    assert(d.subrange(p + x.len(), p + x.len() + y.len()) =~= whole.subrange(
        x.len() as int,
        whole.len() as int,
    ));
    assert(whole.subrange(x.len() as int, whole.len() as int) =~= y);
}

/// Each byte of a run that holds is the run's byte.
pub proof fn lemma_holds_index(d: Seq<u8>, p: int, x: Seq<u8>, i: int)
    requires
        holds_at(d, p, x),
        0 <= i < x.len(),
    ensures
        d[p + i] == x[i],
{
    assert(d.subrange(p, p + x.len())[i] == d[p + i]);
}

/// Four written bytes read back as the number written.
pub proof fn lemma_u32_at(d: Seq<u8>, p: int, v: u32)
    requires
        holds_at(d, p, u32_bytes(v)),
    ensures
        fits(d.len() as int, p, 4),
        be_u32(d, p) == v,
{
    lemma_u32_bytes(v);
    lemma_holds_index(d, p, u32_bytes(v), 0);
    lemma_holds_index(d, p, u32_bytes(v), 1);
    lemma_holds_index(d, p, u32_bytes(v), 2);
    lemma_holds_index(d, p, u32_bytes(v), 3);
}

/// Two written bytes read back as the number written.
pub proof fn lemma_u16_at(d: Seq<u8>, p: int, v: u16)
    requires
        holds_at(d, p, u16_bytes(v)),
    ensures
        fits(d.len() as int, p, 2),
        be_u16(d, p) == v,
{
    lemma_holds_index(d, p, u16_bytes(v), 0);
    lemma_holds_index(d, p, u16_bytes(v), 1);
}

/// A Pascal string written as its length, its bytes and the zeros that pad
/// the whole to a multiple of four reads back as the text of those bytes, and
/// the reader ends after the padding.
pub proof fn lemma_pascal_at(d: Seq<u8>, p: int, bytes: Seq<u8>)
    requires
        bytes.len() <= 255,
        holds_at(
            d,
            p,
            seq![bytes.len() as u8] + bytes + zeros(padding(bytes.len() + 1int, 4) as nat),
        ),
    ensures
        spec_pascal(d, p, 4) == Ok::<(Seq<char>, int), Fault>(
            (lenient_text(bytes), p + 1 + bytes.len() + padding(bytes.len() + 1int, 4)),
        ),
{
    let n = bytes.len() as int;
    let all = seq![bytes.len() as u8] + bytes + zeros(padding(n + 1, 4) as nat);
    lemma_holds_index(d, p, all, 0);
    assert(d.subrange(p + 1, p + 1 + n) =~= all.subrange(1, 1 + n));
    assert(all.subrange(1, 1 + n) =~= bytes);
}

/// A signed number written as four bytes reads back as itself.
pub proof fn lemma_i32_round_trip(v: i32)
    ensures
        (v as u32) as i32 == v,
{
    assert((v as u32) as i32 == v) by (bit_vector);
}

/// The bounds a layer was written with read back.
proof fn lemma_bounds_back(d: Seq<u8>, p: int, l: Layer, w: int, h: int)
    requires
        holds_at(d, p, bounds_bytes(l, w, h)),
    ensures
        bounds_at(d, p) == Ok::<(i32, i32, i32, i32), Fault>(
            (l.offset.1, l.offset.0, (l.offset.1 + h) as i32, (l.offset.0 + w) as i32),
        ),
{
    let top = l.offset.1;
    let left = l.offset.0;
    let bottom = (top + h) as i32;
    let right = (left + w) as i32;
    lemma_holds_split(d, p, i32_bytes(top) + i32_bytes(left) + i32_bytes(bottom), i32_bytes(right));
    lemma_holds_split(d, p, i32_bytes(top) + i32_bytes(left), i32_bytes(bottom));
    lemma_holds_split(d, p, i32_bytes(top), i32_bytes(left));
    lemma_u32_at(d, p, top as u32);
    lemma_u32_at(d, p + 4, left as u32);
    lemma_u32_at(d, p + 8, bottom as u32);
    lemma_u32_at(d, p + 12, right as u32);
    lemma_i32_round_trip(top);
    lemma_i32_round_trip(left);
    lemma_i32_round_trip(bottom);
    lemma_i32_round_trip(right);
}

/// The channels a record is written with: transparency, red, green, blue,
/// each `length` long.
pub open spec fn written_channels(length: u32) -> Seq<(i16, usize)> {
    seq![(-1i16, length as usize), (0i16, length as usize), (1i16, length as usize), (2i16, length as usize)]
}

/// The four channel entries a record was written with read back.
proof fn lemma_entries_back(d: Seq<u8>, p: int, length: u32)
    requires
        holds_at(d, p, entries_bytes(length)),
    ensures
        fits(d.len() as int, p, 2),
        be_u16(d, p) == 4,
        channel_list(d, p + 2, 4) == Ok::<Seq<(i16, usize)>, Fault>(written_channels(length)),
{
    let e0 = channel_entry(-1i16, length);
    let e1 = channel_entry(0i16, length);
    let e2 = channel_entry(1i16, length);
    let e3 = channel_entry(2i16, length);
    lemma_holds_split(d, p, u16_bytes(4) + e0 + e1 + e2, e3);
    lemma_holds_split(d, p, u16_bytes(4) + e0 + e1, e2);
    lemma_holds_split(d, p, u16_bytes(4) + e0, e1);
    lemma_holds_split(d, p, u16_bytes(4), e0);
    lemma_u16_at(d, p, 4);
    lemma_holds_split(d, p + 2, u16_bytes((-1i16) as u16), u32_bytes(length));
    lemma_holds_split(d, p + 8, u16_bytes(0i16 as u16), u32_bytes(length));
    lemma_holds_split(d, p + 14, u16_bytes(1i16 as u16), u32_bytes(length));
    lemma_holds_split(d, p + 20, u16_bytes(2i16 as u16), u32_bytes(length));
    lemma_u16_at(d, p + 2, (-1i16) as u16);
    lemma_u16_at(d, p + 8, 0i16 as u16);
    lemma_u16_at(d, p + 14, 1i16 as u16);
    lemma_u16_at(d, p + 20, 2i16 as u16);
    lemma_u32_at(d, p + 4, length);
    lemma_u32_at(d, p + 10, length);
    lemma_u32_at(d, p + 16, length);
    lemma_u32_at(d, p + 22, length);
    assert(((-1i16) as u16) as i16 == -1i16) by (bit_vector);
    reveal_with_fuel(channel_list, 5);
    assert(channel_list(d, p + 2, 4)->Ok_0 =~= written_channels(length));
}

/// The blending part a record was written with reads back: the mode, the
/// opacity, clipping, and hidden exactly when not visible.
proof fn lemma_blending_back(d: Seq<u8>, p: int, l: Layer)
    requires
        holds_at(d, p, blending_bytes(l)),
    ensures
        blending_at(d, p) == Ok::<(crate::blend::BlendMode, u8, bool, bool), Fault>(
            (l.blend_mode, l.opacity, l.clipping, !l.visible),
        ),
{
    let b = blending_bytes(l);
    let sig = seq![56u8, 66u8, 73u8, 77u8];
    let tail = seq![l.opacity, if l.clipping { 1u8 } else { 0u8 }, flags_of(l.visible), 0u8];
    assert(key_of(l.blend_mode).len() == 4);
    assert(sig.len() == 4);
    assert(tail.len() == 4);
    assert(b == sig + key_of(l.blend_mode) + tail);
    assert(b.len() == 12);
    assert(d.subrange(p + 4, p + 8) =~= key_of(l.blend_mode)) by {
        assert(d.subrange(p + 4, p + 8) =~= d.subrange(p, p + 12).subrange(4, 8));
        assert(b.subrange(4, 8) =~= key_of(l.blend_mode));
    }
    law_blend_key_round_trip(l.blend_mode);
    lemma_holds_index(d, p, b, 8);
    lemma_holds_index(d, p, b, 9);
    lemma_holds_index(d, p, b, 10);
    assert(8u8 & 2u8 == 0u8) by (bit_vector);
    assert(10u8 & 2u8 == 2u8) by (bit_vector);
}

/// What a type frame holds, if anything: the block written into it.
proof fn lemma_type_frame_back(d: Seq<u8>, at: int, t: Option<Seq<u8>>)
    requires
        holds_at(d, at, type_frame(t)),
        t matches Some(b) ==> b.len() <= u32::MAX,
    ensures
        type_block(d, at, at + type_frame(t).len()) == t,
{
    match t {
        Some(b) => {
            let sig = seq![56u8, 66u8, 73u8, 77u8];
            let key = seq![84u8, 121u8, 83u8, 104u8];
            let pad = if b.len() % 2 == 1 {
                seq![0u8]
            } else {
                seq![]
            };
            assert(type_frame(t) == sig + key + u32_bytes(b.len() as u32) + b + pad);
            lemma_holds_split(d, at, sig + key + u32_bytes(b.len() as u32) + b, pad);
            lemma_holds_split(d, at, sig + key + u32_bytes(b.len() as u32), b);
            lemma_holds_split(d, at, sig + key, u32_bytes(b.len() as u32));
            lemma_holds_split(d, at, sig, key);
            lemma_u32_at(d, at + 8, b.len() as u32);
            assert(key =~= type_key());
        },
        None => {},
    }
}

/// The extra data a record was written with reads back: its length frames it,
/// the two empty parts are skipped, the name reads back as the text of its
/// bytes, and the walk after the name finds the type block written, if any.
#[verifier::spinoff_prover]
#[verifier::rlimit(40)]
proof fn lemma_extra_back(d: Seq<u8>, q: int, l: Layer, t: Option<Seq<u8>>)
    requires
        holds_at(d, q, u32_bytes(extra_bytes(l, t).len() as u32) + extra_bytes(l, t)),
        extra_bytes(l, t).len() <= u32::MAX,
        t matches Some(b) ==> b.len() <= u32::MAX,
    ensures
        ({
            let extra = extra_bytes(l, t);
            let named = pascal_written(u32_bytes(0) + u32_bytes(0), l.name@);
            &&& extra_at(d, q) == Ok::<(int, int), Fault>((q + 4 + extra.len(), q + 12))
            &&& spec_pascal(d, q + 12, 4) == Ok::<(Seq<char>, int), Fault>(
                (lenient_text(pascal_name(l.name@)), q + 4 + named.len()),
            )
            &&& type_block(d, q + 4 + named.len(), q + 4 + extra.len()) == t
        }),
{
    let extra = extra_bytes(l, t);
    let zero = u32_bytes(0) + u32_bytes(0);
    let named = pascal_written(zero, l.name@);
    let pn = pascal_name(l.name@);
    let n = pn.len() as int;
    lemma_holds_split(d, q, u32_bytes(extra.len() as u32), extra);
    lemma_u32_at(d, q, extra.len() as u32);
    lemma_holds_split(d, q + 4, named, type_frame(t));
    let pad = padding(zero.len() + 1 + n, 4);
    assert(zero.len() == 8);
    assert(pad == padding(n + 1, 4));
    let tail = seq![n as u8] + pn + zeros(pad as nat);
    assert(named =~= zero + tail);
    lemma_holds_split(d, q + 4, zero, tail);
    lemma_holds_split(d, q + 4, u32_bytes(0), u32_bytes(0));
    lemma_u32_at(d, q + 4, 0);
    lemma_u32_at(d, q + 8, 0);
    assert(n <= 255);
    lemma_pascal_at(d, q + 12, pn);
    lemma_type_frame_back(d, q + 4 + named.len(), t);
}

/// The record a layer is written with, as the reader sees it: bounds from
/// its offset and written size, four channels as long as a plane and its
/// flag, its blending, its name as the text of its Pascal bytes, and what the
/// type block written with it describes.
pub open spec fn written_record(l: Layer, t: Option<Seq<u8>>) -> RecordView {
    let w = flat_size(l).0;
    let h = flat_size(l).1;
    RecordView {
        top: l.offset.1,
        left: l.offset.0,
        bottom: (l.offset.1 + h) as i32,
        right: (l.offset.0 + w) as i32,
        channels: written_channels(plane_length(w, h)),
        blend_mode: l.blend_mode,
        opacity: l.opacity,
        clipping: l.clipping,
        hidden: !l.visible,
        name: lenient_text(pascal_name(l.name@)),
        text: match t {
            Some(b) => type_tool_at(b),
            None => None,
        },
    }
}

/// Whether a layer and its type block fit the counts a record stores: the
/// extra data's length in four bytes, and the block's.
pub open spec fn record_fits(l: Layer, t: Option<Seq<u8>>) -> bool {
    &&& extra_bytes(l, t).len() <= u32::MAX
    &&& t matches Some(b) ==> b.len() <= u32::MAX
}

/// A written record is its bounds, its four channel entries, its blending
/// and its framed extra data, one after another.
proof fn lemma_record_parts(d: Seq<u8>, p: int, l: Layer, t: Option<Seq<u8>>)
    requires
        holds_at(d, p, record_bytes(l, flat_size(l).0, flat_size(l).1, t)),
    ensures
        holds_at(d, p, bounds_bytes(l, flat_size(l).0, flat_size(l).1)),
        holds_at(d, p + 16, entries_bytes(plane_length(flat_size(l).0, flat_size(l).1))),
        holds_at(d, p + 42, blending_bytes(l)),
        holds_at(
            d,
            p + 54,
            u32_bytes(extra_bytes(l, t).len() as u32) + extra_bytes(l, t),
        ),
        record_bytes(l, flat_size(l).0, flat_size(l).1, t).len() == 58 + extra_bytes(l, t).len(),
{
    let w = flat_size(l).0;
    let h = flat_size(l).1;
    let extra = extra_bytes(l, t);
    let a = bounds_bytes(l, w, h);
    let b = entries_bytes(plane_length(w, h));
    let c = blending_bytes(l);
    let e = u32_bytes(extra.len() as u32) + extra;
    assert(record_bytes(l, w, h, t) =~= a + b + c + e);
    lemma_holds_split(d, p, a + b + c, e);
    lemma_holds_split(d, p, a + b, c);
    lemma_holds_split(d, p, a, b);
    assert(a.len() == 16);
    assert(b.len() == 26);
    assert(key_of(l.blend_mode).len() == 4);
    assert(c.len() == 12);
}

/// A written record reads back as [`written_record`], and the reader goes on
/// from its end.
#[verifier::spinoff_prover]
#[verifier::rlimit(40)]
pub proof fn lemma_record_back(d: Seq<u8>, p: int, l: Layer, t: Option<Seq<u8>>)
    requires
        record_fits(l, t),
        holds_at(d, p, record_bytes(l, flat_size(l).0, flat_size(l).1, t)),
    ensures
        record_at(d, p) == Ok::<(RecordView, int), Fault>(
            (written_record(l, t), p + record_bytes(l, flat_size(l).0, flat_size(l).1, t).len()),
        ),
{
    let w = flat_size(l).0;
    let h = flat_size(l).1;
    lemma_record_parts(d, p, l, t);
    lemma_bounds_back(d, p, l, w, h);
    lemma_entries_back(d, p + 16, plane_length(w, h));
    lemma_blending_back(d, p + 42, l);
    lemma_extra_back(d, p + 54, l, t);
    let extra_len = extra_bytes(l, t).len() as int;
    let named_len = pascal_written(u32_bytes(0) + u32_bytes(0), l.name@).len() as int;
    let total = p + 58 + extra_len;
    assert(min_of(total, d.len() as int) == total);
    assert(p + 18 + 6 * 4 == p + 42);
}

/// The records of the first `k` layers as the reader sees them.
pub open spec fn written_records(layers: Seq<Layer>, texts: Seq<Option<Seq<u8>>>, k: int) -> Seq<
    RecordView,
> {
    Seq::new(k as nat, |i: int| written_record(layers[i], text_for(texts, i)))
}

/// Written records read back one after another, and the reader ends after
/// the last.
pub proof fn lemma_records_back(d: Seq<u8>, at: int, layers: Seq<Layer>, texts: Seq<Option<Seq<u8>>>, k: int)
    requires
        0 <= k <= layers.len(),
        forall|i: int| 0 <= i < k ==> record_fits(#[trigger] layers[i], text_for(texts, i)),
        holds_at(d, at, records_bytes(layers, texts, k)),
    ensures
        records_at(d, at, k) == Ok::<(Seq<RecordView>, int), Fault>(
            (written_records(layers, texts, k), at + records_bytes(layers, texts, k).len()),
        ),
    decreases k,
{
    if k == 0 {
        assert(written_records(layers, texts, 0) =~= Seq::<RecordView>::empty());
    } else {
        let l = layers[k - 1];
        let prev = records_bytes(layers, texts, k - 1);
        let rec = record_bytes(l, flat_size(l).0, flat_size(l).1, text_for(texts, k - 1));
        lemma_holds_split(d, at, prev, rec);
        lemma_records_back(d, at, layers, texts, k - 1);
        assert(record_fits(layers[k - 1], text_for(texts, k - 1)));
        lemma_record_back(d, at + prev.len(), l, text_for(texts, k - 1));
        assert(written_records(layers, texts, k - 1).push(written_record(l, text_for(texts, k - 1)))
            =~= written_records(layers, texts, k));
    }
}

/// One plane written raw behind its flag decodes as itself.
proof fn lemma_raw_channel_back(d: Seq<u8>, q: int, plane: Seq<u8>, w: int, h: int)
    requires
        0 <= w,
        0 <= h,
        plane.len() == w * h,
        holds_at(d, q, u16_bytes(0) + plane),
    ensures
        spec_channel(d, q, w, h) == Ok::<Seq<u8>, Fault>(plane),
{
    lemma_holds_split(d, q, u16_bytes(0), plane);
    lemma_u16_at(d, q, 0);
    reveal_with_fuel(raw_planes, 2);
    assert(plane + seq![] =~= plane);
}

/// The channel data a layer's pixels were written as reads back as those
/// pixels, and the reader ends after it.
#[verifier::spinoff_prover]
#[verifier::rlimit(40)]
pub proof fn lemma_layer_pixels_back(d: Seq<u8>, p: int, px: Seq<Rgba8>, w: int, h: int)
    requires
        0 <= w,
        0 <= h,
        px.len() == w * h,
        w * h + 2 <= u32::MAX,
        holds_at(d, p, layer_channel_bytes(px)),
    ensures
        ({
            let planes = planes_at(d, p, written_channels(plane_length(w, h)), w, h, 4);
            &&& planes.pos == p + layer_channel_bytes(px).len()
            &&& Seq::new((w * h) as nat, |i: int| layer_pixel(planes, i)) == px
        }),
{
    let n = w * h;
    let z = u16_bytes(0);
    let a = plane_of(px, 3);
    let r = plane_of(px, 0);
    let g = plane_of(px, 1);
    let b = plane_of(px, 2);
    assert(layer_channel_bytes(px) =~= (z + a) + (z + r) + (z + g) + (z + b));
    lemma_holds_split(d, p, (z + a) + (z + r) + (z + g), z + b);
    lemma_holds_split(d, p, (z + a) + (z + r), z + g);
    lemma_holds_split(d, p, z + a, z + r);
    assert(plane_length(w, h) as int == n + 2);
    let chans = written_channels(plane_length(w, h));
    let step = n + 2;
    assert(d.len() >= p + 4 * step);
    if n > 0 {
        lemma_raw_channel_back(d, p, a, w, h);
        lemma_raw_channel_back(d, p + step, r, w, h);
        lemma_raw_channel_back(d, p + 2 * step, g, w, h);
        lemma_raw_channel_back(d, p + 3 * step, b, w, h);
    }
    reveal_with_fuel(planes_at, 5);
    let planes = planes_at(d, p, chans, w, h, 4);
    assert(planes.pos == p + 4 * step);
    if n > 0 {
        assert(planes.red == r);
        assert(planes.green == g);
        assert(planes.blue == b);
        assert(planes.alpha == a);
    }
    assert(Seq::new(n as nat, |i: int| layer_pixel(planes, i)) =~= px);
}

/// Whether a layer's written pixels are as many as its written size says,
/// and few enough that a channel's length fits its four-byte count.
pub open spec fn pixels_fit(l: Layer) -> bool {
    &&& flat_pixels(l).len() == flat_size(l).0 * flat_size(l).1
    &&& flat_size(l).0 * flat_size(l).1 + 2 <= u32::MAX
}

/// The pixels of the first `k` layers as they are written.
pub open spec fn written_pixels(layers: Seq<Layer>, k: int) -> Seq<Seq<Rgba8>> {
    Seq::new(k as nat, |i: int| flat_pixels(layers[i]))
}

/// The channel data of written layers reads back as their written pixels,
/// one layer after another.
pub proof fn lemma_section_pixels_back(
    d: Seq<u8>,
    at: int,
    layers: Seq<Layer>,
    texts: Seq<Option<Seq<u8>>>,
    n: int,
    k: int,
)
    requires
        0 <= k <= n <= layers.len(),
        forall|i: int|
            0 <= i < k ==> writable(#[trigger] layers[i]) && pixels_fit(layers[i]),
        holds_at(d, at, planes_bytes(layers, k)),
    ensures
        section_pixels(d, at, written_records(layers, texts, n), k) == Ok::<
            (Seq<Seq<Rgba8>>, int),
            Fault,
        >((written_pixels(layers, k), at + planes_bytes(layers, k).len())),
    decreases k,
{
    if k == 0 {
        assert(written_pixels(layers, 0) =~= Seq::<Seq<Rgba8>>::empty());
    } else {
        let l = layers[k - 1];
        let prev = planes_bytes(layers, k - 1);
        let px = flat_pixels(l);
        lemma_holds_split(d, at, prev, layer_channel_bytes(px));
        lemma_section_pixels_back(d, at, layers, texts, n, k - 1);
        assert(writable(layers[k - 1]) && pixels_fit(layers[k - 1]));
        let w = flat_size(l).0;
        let h = flat_size(l).1;
        let rec = written_records(layers, texts, n)[k - 1];
        assert(rec == written_record(l, text_for(texts, k - 1)));
        assert(extent(rec.left, rec.right) == w);
        assert(extent(rec.top, rec.bottom) == h);
        lemma_layer_pixels_back(d, at + prev.len(), px, w, h);
        assert(written_pixels(layers, k - 1).push(px) =~= written_pixels(layers, k));
    }
}

/// The header of a written file reads back as the header written.
#[verifier::spinoff_prover]
proof fn lemma_header_back(d: Seq<u8>, width: u32, height: u32)
    requires
        valid_dimensions(width, height),
        holds_at(d, 0, header_bytes(width, height)),
    ensures
        spec_parse_header(d) == Ok::<PsdHeader, Fault>(written_header(width, height)),
{
    let hb = header_bytes(width, height);
    assert(hb.len() == 26);
    assert forall|i: int| 0 <= i < 26 implies #[trigger] d[i] == hb[i] by {
        lemma_holds_index(d, 0, hb, i);
    }
    assert(d.subrange(0, 4) =~= signature());
    assert(be_u16(d, 4) == 1);
    assert(be_u16(d, 12) == 4);
    lemma_u32_bytes(height);
    lemma_u32_bytes(width);
    assert(be_u32(d, 14) == be_u32(u32_bytes(height), 0));
    assert(be_u32(d, 18) == be_u32(u32_bytes(width), 0));
    assert(be_u16(d, 22) == 8);
    assert(be_u16(d, 24) == 3);
}

/// A composite written at `c` decodes as the pixels written.
#[verifier::spinoff_prover]
#[verifier::rlimit(40)]
proof fn lemma_composite_back(d: Seq<u8>, c: int, width: u32, height: u32, px: Seq<Rgba8>)
    requires
        px.len() == width * height,
        holds_at(d, c, composite_bytes(px)),
    ensures
        spec_composite(d, c, written_header(width, height)) == Ok::<Seq<Rgba8>, Fault>(px),
{
    let n = px.len() as int;
    let z = u16_bytes(0);
    let p0 = plane_of(px, 0);
    let p1 = plane_of(px, 1);
    let p2 = plane_of(px, 2);
    let p3 = plane_of(px, 3);
    assert(composite_bytes(px) =~= z + p0 + p1 + p2 + p3);
    lemma_holds_split(d, c, z + p0 + p1 + p2, p3);
    lemma_holds_split(d, c, z + p0 + p1, p2);
    lemma_holds_split(d, c, z + p0, p1);
    lemma_holds_split(d, c, z, p0);
    lemma_u16_at(d, c, 0);
    let hdr = written_header(width, height);
    assert(hdr.width as int * hdr.height as int == n);
    let at = c + 2;
    reveal_with_fuel(raw_planes, 2);
    assert(raw_planes(d, at + 4 * n, 0, n) == Ok::<Seq<u8>, Fault>(seq![]));
    assert(raw_planes(d, at + 3 * n, 1, n) == Ok::<Seq<u8>, Fault>(p3)) by {
        assert(p3 + seq![] =~= p3);
    }
    assert(raw_planes(d, at + 2 * n, 2, n) == Ok::<Seq<u8>, Fault>(p2 + p3));
    assert(raw_planes(d, at + n, 3, n) == Ok::<Seq<u8>, Fault>(p1 + (p2 + p3)));
    assert(raw_planes(d, at, 4, n) == Ok::<Seq<u8>, Fault>(p0 + (p1 + (p2 + p3))));
    let planes = p0 + p1 + p2 + p3;
    assert(p0 + (p1 + (p2 + p3)) =~= planes);
    assert(interleave(planes, n, 4, false) =~= px) by {
        assert forall|i: int| 0 <= i < n implies #[trigger] interleave(planes, n, 4, false)[i]
            == px[i] by {
            assert(planes[i] == px[i].r);
            assert(planes[n + i] == px[i].g);
            assert(planes[2 * n + i] == px[i].b);
            assert(planes[3 * n + i] == px[i].a);
        }
    }
}

/// Where each part of a written layered file lies.
#[verifier::spinoff_prover]
proof fn lemma_layered_layout(
    layers: Seq<Layer>,
    texts: Seq<Option<Seq<u8>>>,
    width: u32,
    height: u32,
    composite: Seq<Rgba8>,
)
    ensures
        ({
            let d = layered_bytes(layers, texts, width, height, composite);
            let n = layers.len() as int;
            let section = section_bytes(layers, texts);
            let info = info_bytes(layers, texts);
            let records = records_bytes(layers, texts, n);
            &&& holds_at(d, 0, header_bytes(width, height))
            &&& holds_at(d, 26, u32_bytes(0))
            &&& holds_at(d, 30, u32_bytes(0))
            &&& holds_at(d, 34, u32_bytes(section.len() as u32))
            &&& holds_at(d, 38, u32_bytes(info.len() as u32))
            &&& holds_at(d, 42, u16_bytes(n as u16))
            &&& holds_at(d, 44, records)
            &&& holds_at(d, 44int + records.len(), planes_bytes(layers, n))
            &&& holds_at(d, 38int + section.len(), composite_bytes(composite))
            &&& section.len() == 8 + info.len()
            &&& info.len() >= 2
        }),
{
    let d = layered_bytes(layers, texts, width, height, composite);
    let n = layers.len() as int;
    let section = section_bytes(layers, texts);
    let info = info_bytes(layers, texts);
    let records = records_bytes(layers, texts, n);
    let planes = planes_bytes(layers, n);
    let hb = header_bytes(width, height);
    let z = u32_bytes(0);
    let s = u32_bytes(section.len() as u32);
    let comp = composite_bytes(composite);
    assert(hb.len() == 26);
    assert(holds_at(d, 0, d)) by {
        assert(d.subrange(0, d.len() as int) =~= d);
    }
    assert(d == hb + z + z + s + section + comp);
    lemma_holds_split(d, 0, hb + z + z + s + section, comp);
    lemma_holds_split(d, 0, hb + z + z + s, section);
    lemma_holds_split(d, 0, hb + z + z, s);
    lemma_holds_split(d, 0, hb + z, z);
    lemma_holds_split(d, 0, hb, z);
    let i = u32_bytes(info.len() as u32);
    assert(section == i + info + z);
    lemma_holds_split(d, 38, i + info, z);
    lemma_holds_split(d, 38, i, info);
    let raw = u16_bytes(n as u16) + records + planes;
    if raw.len() % 2 == 1 {
        assert(info == raw + seq![0u8]);
        lemma_holds_split(d, 42, raw, seq![0u8]);
    } else {
        assert(info == raw);
    }
    lemma_holds_split(d, 42, u16_bytes(n as u16) + records, planes);
    lemma_holds_split(d, 42, u16_bytes(n as u16), records);
}

/// A layered file this library writes reads back: the header is the
/// composite's size as 8-bit RGB, every layer comes back in order as the
/// record it was written with (its place, size, channels, blend mode,
/// opacity, clipping, visibility, name and type block) and with the pixels it
/// was written as (its own, or its fill colour, with an enabled mask folded
/// into the alpha), and the composite comes back as written.
///
/// This holds of every stack the writer accepts whose counts fit the file's
/// fields: at most 32767 layers, each plane's and each record's extra data's
/// length in four bytes, and the layer section's too.
#[verifier::spinoff_prover]
#[verifier::rlimit(60)]
pub proof fn law_written_layers_read_back(
    layers: Seq<Layer>,
    texts: Seq<Option<Seq<u8>>>,
    width: u32,
    height: u32,
    composite: Seq<Rgba8>,
)
    requires
        valid_dimensions(width, height),
        composite.len() == width * height,
        layers.len() <= 32767,
        forall|k: int|
            0 <= k < layers.len() ==> writable(#[trigger] layers[k]) && pixels_fit(layers[k])
                && record_fits(layers[k], text_for(texts, k)),
        section_bytes(layers, texts).len() <= u32::MAX,
    ensures
        file_at(layered_bytes(layers, texts, width, height, composite)) == Ok::<
            (PsdHeader, Seq<RecordView>, Seq<Seq<Rgba8>>, Option<Seq<Rgba8>>),
            Fault,
        >(
            (
                written_header(width, height),
                written_records(layers, texts, layers.len() as int),
                written_pixels(layers, layers.len() as int),
                Some(composite),
            ),
        ),
{
    let d = layered_bytes(layers, texts, width, height, composite);
    let n = layers.len() as int;
    let section = section_bytes(layers, texts);
    let info = info_bytes(layers, texts);
    let records = records_bytes(layers, texts, n);
    lemma_layered_layout(layers, texts, width, height, composite);
    lemma_header_back(d, width, height);
    lemma_u32_at(d, 26, 0);
    lemma_u32_at(d, 30, 0);
    lemma_u32_at(d, 34, section.len() as u32);
    lemma_u32_at(d, 38, info.len() as u32);
    lemma_u16_at(d, 42, n as u16);
    assert(((n as u16) as i16) as int == n);
    lemma_records_back(d, 44, layers, texts, n);
    lemma_section_pixels_back(d, 44int + records.len(), layers, texts, n, n);
    lemma_composite_back(d, 38int + section.len(), width, height, composite);
    let hdr = written_header(width, height);
    assert(composite_fits(hdr)) by {
        assert(width as int * height as int <= 900000000) by (nonlinear_arith)
            requires
                1 <= width <= 30000,
                1 <= height <= 30000,
        ;
    }
    assert(section_at(d, 38) == Ok::<(Seq<RecordView>, Seq<Seq<Rgba8>>), Fault>(
        (written_records(layers, texts, n), written_pixels(layers, n)),
    ));
}

/// Where the empty sections of a flattened file lie.
#[verifier::spinoff_prover]
proof fn lemma_flat_layout(width: u32, height: u32, px: Seq<Rgba8>)
    ensures
        holds_at(psd_bytes(width, height, px), 26, u32_bytes(0)),
        holds_at(psd_bytes(width, height, px), 30, u32_bytes(0)),
        holds_at(psd_bytes(width, height, px), 34, u32_bytes(0)),
        psd_bytes(width, height, px).len() >= 38,
{
    let d = psd_bytes(width, height, px);
    let hb = header_bytes(width, height);
    let z = u32_bytes(0);
    let comp = composite_bytes(px);
    assert(hb.len() == 26);
    assert(holds_at(d, 0, d)) by {
        assert(d.subrange(0, d.len() as int) =~= d);
    }
    lemma_holds_split(d, 0, hb + z + z + z, comp);
    lemma_holds_split(d, 0, hb + z + z, z);
    lemma_holds_split(d, 0, hb + z, z);
    lemma_holds_split(d, 0, hb, z);
}

/// A flattened file `write_psd` wrote parses whole: its header, no layers,
/// and the very pixels written as the composite.
#[verifier::spinoff_prover]
#[verifier::rlimit(40)]
pub proof fn law_flat_file_parses(width: u32, height: u32, px: Seq<Rgba8>)
    requires
        valid_dimensions(width, height),
        px.len() == width * height,
    ensures
        file_at(psd_bytes(width, height, px)) == Ok::<
            (PsdHeader, Seq<RecordView>, Seq<Seq<Rgba8>>, Option<Seq<Rgba8>>),
            Fault,
        >((written_header(width, height), seq![], seq![], Some(px))),
{
    law_written_file_reads_back(width, height, px);
    lemma_flat_layout(width, height, px);
    let d = psd_bytes(width, height, px);
    lemma_u32_at(d, 26, 0);
    lemma_u32_at(d, 30, 0);
    lemma_u32_at(d, 34, 0);
    assert(width as int * height as int <= 900000000) by (nonlinear_arith)
        requires
            1 <= width <= 30000,
            1 <= height <= 30000,
    ;
    assert(composite_fits(written_header(width, height)));
    assert(min_of(38, d.len() as int) == 38);
}

} // verus!
