//! Writing a layered PSD.
//!
//! Two things are written in a form that keeps how the file looks and costs
//! editability, because each needs a feature this writer does not have: a
//! layer mask is multiplied into the layer's own alpha, and a fill layer is
//! rasterized to pixels. Type layers carry their `TySh` block, built by the
//! caller, so they reopen as text rather than as a picture of text.

use vstd::prelude::*;

use crate::buffer::{Pixmap, Rgba8};
use crate::layer::{Layer, LayerKind, LayerStack};
use crate::psd::{
    blend_mode_key, header_bytes, key_of, layer_channel_bytes, pad_to_even, pascal_written,
    push_u16, push_u32, u16_bytes, u32_bytes, write_composite, write_header, write_layer_channels,
    write_pascal_string, composite_bytes,
};

verus! {

/// The size a layer is written at: a fill layer takes the size of the mask
/// that shapes it, or of its pixels if it has none; anything else, the size
/// of its pixels.
pub open spec fn flat_size(l: Layer) -> (int, int) {
    match l.kind {
        LayerKind::SolidColor(_) => match l.mask {
            Some(m) => (m.w() as int, m.h() as int),
            None => (l.pixels.w() as int, l.pixels.h() as int),
        },
        _ => (l.pixels.w() as int, l.pixels.h() as int),
    }
}

/// A layer's own pixels, or for a fill layer its colour poured at the size it
/// is written at.
pub open spec fn flat_base(l: Layer) -> Seq<Rgba8> {
    match l.kind {
        LayerKind::SolidColor(c) => Seq::new(
            (flat_size(l).0 * flat_size(l).1) as nat,
            |i: int| c,
        ),
        _ => l.pixels.pixels(),
    }
}

/// A pixel with its alpha scaled by a mask's coverage, in 255ths.
pub open spec fn masked(p: Rgba8, cover: u8) -> Rgba8 {
    Rgba8 { a: ((p.a as int * cover as int) / 255) as u8, ..p }
}

/// A layer's pixels as they are written: with an enabled mask multiplied
/// into the alpha, pixel by pixel at the same place.
pub open spec fn flat_pixels(l: Layer) -> Seq<Rgba8> {
    let w = flat_size(l).0;
    let base = flat_base(l);
    match l.mask {
        Some(m) => if l.mask_enabled {
            Seq::new(base.len(), |i: int| masked(base[i], m.at(i % w, i / w).a))
        } else {
            base
        },
        None => base,
    }
}

/// Whether a layer can be written: its size fits the signed coordinates the
/// records use, and so do its right and bottom edges.
pub open spec fn writable(l: Layer) -> bool {
    let (w, h) = flat_size(l);
    &&& w <= i32::MAX
    &&& h <= i32::MAX
    &&& i32::MIN <= l.offset.0 + w <= i32::MAX
    &&& i32::MIN <= l.offset.1 + h <= i32::MAX
}

/// One layer's pixels as they are to be written: its own, with any enabled
/// mask multiplied in, or a fill layer rasterized.
pub fn flattened_layer(layer: &Layer) -> (p: Pixmap)
    requires
        writable(*layer),
    ensures
        p.is(flat_size(*layer).0, flat_size(*layer).1, flat_pixels(*layer)),
{
    let mut pixels = match layer.kind {
        LayerKind::SolidColor(color) => {
            // A fill layer has no pixels of its own: it is a colour poured
            // through the mask, so it is rasterized at the size of whatever
            // shapes it.
            let (w, h) = match &layer.mask {
                Some(mask) => {
                    let _n = mask.len();
                    (mask.width(), mask.height())
                },
                None => {
                    let _n = layer.pixels.len();
                    (layer.pixels.width(), layer.pixels.height())
                },
            };
            Pixmap::filled(w, h, color)
        },
        _ => layer.pixels.clone(),
    };
    match &layer.mask {
        Some(mask) => {
            if layer.mask_enabled {
                let ghost base = pixels.pixels();
                let w = pixels.width();
                let h = pixels.height();
                let n = pixels.len();
                let mut i: usize = 0;
                while i < n
                    invariant
                        n == w as int * h as int,
                        w == flat_size(*layer).0,
                        h == flat_size(*layer).1,
                        w <= i32::MAX,
                        h <= i32::MAX,
                        i <= n,
                        pixels.w() == w,
                        pixels.h() == h,
                        base.len() == n,
                        pixels.pixels().len() == n,
                        forall|j: int|
                            0 <= j < i ==> #[trigger] pixels.pixels()[j] == masked(
                                base[j],
                                mask.at(j % w as int, j / w as int).a,
                            ),
                        forall|j: int| i <= j < n ==> #[trigger] pixels.pixels()[j] == base[j],
                    decreases n - i,
                {
                    let x = i % (w as usize);
                    let y = i / (w as usize);
                    proof {
                        vstd::arithmetic::div_mod::lemma_fundamental_div_mod(i as int, w as int);
                        assert(y < h) by (nonlinear_arith)
                            requires
                                i < w * h,
                                i == w * y + x,
                                0 <= x,
                                w > 0,
                        ;
                        assert(y * w + x == i) by (nonlinear_arith)
                            requires
                                i == w * y + x,
                        ;
                    }
                    let coverage = mask.get(x as i32, y as i32).a as u32;
                    let px = pixels.pixel(i);
                    proof {
                        assert(px.a as u32 * coverage <= 255 * 255) by (nonlinear_arith)
                            requires
                                px.a <= 255,
                                coverage <= 255,
                        ;
                    }
                    let a = ((px.a as u32 * coverage) / 255) as u8;
                    pixels.set(x as i32, y as i32, Rgba8 { a, ..px });
                    i = i + 1;
                }
                proof {
                    assert(pixels.pixels() =~= flat_pixels(*layer));
                }
            }
        },
        None => {},
    }
    pixels
}

/// A signed number's four big-endian bytes.
pub open spec fn i32_bytes(v: i32) -> Seq<u8> {
    u32_bytes(v as u32)
}

/// One channel entry of a record: the id and the length of its data.
pub open spec fn channel_entry(id: i16, length: u32) -> Seq<u8> {
    u16_bytes(id as u16) + u32_bytes(length)
}

/// An additional information block holding a type layer's `TySh` data,
/// padded to an even length; nothing for a layer that is not type.
pub open spec fn type_frame(tysh: Option<Seq<u8>>) -> Seq<u8> {
    match tysh {
        Some(b) => seq![56u8, 66u8, 73u8, 77u8] + seq![84u8, 121u8, 83u8, 104u8] + u32_bytes(
            b.len() as u32,
        ) + b + if b.len() % 2 == 1 {
            seq![0u8]
        } else {
            seq![]
        },
        None => seq![],
    }
}

/// A record's extra data: no mask (it was folded into the alpha), no blending
/// ranges, the name as a Pascal string, and the type block, if any.
pub open spec fn extra_bytes(l: Layer, tysh: Option<Seq<u8>>) -> Seq<u8> {
    pascal_written(u32_bytes(0) + u32_bytes(0), l.name@) + type_frame(tysh)
}

/// The flags byte: the bit Photoshop always sets, and bit 1 on a hidden
/// layer.
pub open spec fn flags_of(visible: bool) -> u8 {
    if visible {
        8
    } else {
        10
    }
}

/// The bounds of a layer written at `w` x `h`: top, left, bottom, right.
pub open spec fn bounds_bytes(l: Layer, w: int, h: int) -> Seq<u8> {
    let left = l.offset.0;
    let top = l.offset.1;
    i32_bytes(top) + i32_bytes(left) + i32_bytes((top + h) as i32) + i32_bytes((left + w) as i32)
}

/// Four channel entries, transparency first, each `length` long.
pub open spec fn entries_bytes(length: u32) -> Seq<u8> {
    u16_bytes(4) + channel_entry(-1i16, length) + channel_entry(0i16, length) + channel_entry(
        1i16,
        length,
    ) + channel_entry(2i16, length)
}

/// The blend mode, opacity, clipping and flags, behind their signature.
pub open spec fn blending_bytes(l: Layer) -> Seq<u8> {
    seq![56u8, 66u8, 73u8, 77u8] + key_of(l.blend_mode) + seq![
        l.opacity,
        if l.clipping {
            1u8
        } else {
            0u8
        },
        flags_of(l.visible),
        0u8,
    ]
}

/// The blending part written for a layer, byte by byte: the `8BIM`
/// signature, the four-byte mode key, the opacity, a clipping byte that is 1
/// exactly when the layer clips to the one below and 0 otherwise, a flags
/// byte with bit 3 always set and bit 1 (0x02) set exactly when the layer is
/// hidden, and a zero filler byte.
pub proof fn law_blending_written_byte_by_byte(l: Layer)
    ensures
        blending_bytes(l).len() == 12,
        blending_bytes(l).subrange(0, 4) == seq![56u8, 66u8, 73u8, 77u8],
        blending_bytes(l).subrange(4, 8) == key_of(l.blend_mode),
        blending_bytes(l)[8] == l.opacity,
        l.clipping ==> blending_bytes(l)[9] == 1u8,
        !l.clipping ==> blending_bytes(l)[9] == 0u8,
        blending_bytes(l)[10] & 0x08u8 == 0x08u8,
        (blending_bytes(l)[10] & 0x02u8 == 0x02u8) == !l.visible,
        blending_bytes(l)[10] & 0xF5u8 == 0u8,
        blending_bytes(l)[11] == 0u8,
{
    let b = blending_bytes(l);
    assert(key_of(l.blend_mode).len() == 4);
    assert(b.subrange(0, 4) =~= seq![56u8, 66u8, 73u8, 77u8]);
    assert(b.subrange(4, 8) =~= key_of(l.blend_mode));
    assert(8u8 & 0x08u8 == 0x08u8 && 8u8 & 0x02u8 == 0u8 && 8u8 & 0xF5u8 == 0u8) by (bit_vector);
    assert(10u8 & 0x08u8 == 0x08u8 && 10u8 & 0x02u8 == 0x02u8 && 10u8 & 0xF5u8 == 0u8) by (bit_vector);
}

/// What a channel entry says a plane of `w` x `h` takes: the plane and its
/// compression flag, as a four-byte count.
pub open spec fn plane_length(w: int, h: int) -> u32 {
    ((w * h + 2) % 0x1_0000_0000) as u32
}

/// The record of a layer written at `w` x `h`: its bounds, four channels
/// (transparency first, each as long as its plane and its compression flag),
/// the blend mode, opacity, clipping and flags, then the extra data.
pub open spec fn record_bytes(l: Layer, w: int, h: int, tysh: Option<Seq<u8>>) -> Seq<u8> {
    let extra = extra_bytes(l, tysh);
    bounds_bytes(l, w, h) + entries_bytes(plane_length(w, h)) + blending_bytes(l) + u32_bytes(
        extra.len() as u32,
    ) + extra
}

fn push_bytes(out: &mut Vec<u8>, b: &[u8])
    ensures
        final(out)@ == old(out)@ + b@,
{
    let mut i: usize = 0;
    while i < b.len()
        invariant
            i <= b@.len(),
            out@ == old(out)@ + b@.subrange(0, i as int),
        decreases b@.len() - i,
    {
        out.push(b[i]);
        assert(out@ =~= old(out)@ + b@.subrange(0, i + 1));
        i = i + 1;
    }
    assert(b@.subrange(0, b@.len() as int) =~= b@);
}

fn write_bounds(out: &mut Vec<u8>, layer: &Layer, w: u32, h: u32)
    requires
        w <= i32::MAX,
        h <= i32::MAX,
        i32::MIN <= layer.offset.0 + w <= i32::MAX,
        i32::MIN <= layer.offset.1 + h <= i32::MAX,
    ensures
        final(out)@ == old(out)@ + bounds_bytes(*layer, w as int, h as int),
{
    let (left, top) = layer.offset;
    let right = left + w as i32;
    let bottom = top + h as i32;
    push_u32(out, top as u32);
    push_u32(out, left as u32);
    push_u32(out, bottom as u32);
    push_u32(out, right as u32);
    assert(out@ =~= old(out)@ + bounds_bytes(*layer, w as int, h as int));
}

fn write_entries(out: &mut Vec<u8>, per_channel: usize)
    ensures
        final(out)@ == old(out)@ + entries_bytes(((per_channel + 2) % 0x1_0000_0000) as u32),
{
    let low = ((per_channel as u64) % 0x1_0000_0000) as u32;
    let length = low.wrapping_add(2);
    proof {
        vstd::arithmetic::div_mod::lemma_add_mod_noop(per_channel as int, 2, 0x1_0000_0000);
        vstd::arithmetic::div_mod::lemma_small_mod(2, 0x1_0000_0000);
        vstd::arithmetic::div_mod::lemma_mod_twice(per_channel as int + 2, 0x1_0000_0000);
    }
    push_u16(out, 4);
    push_u16(out, (-1i16) as u16);
    push_u32(out, length);
    push_u16(out, 0);
    push_u32(out, length);
    push_u16(out, 1);
    push_u32(out, length);
    push_u16(out, 2);
    push_u32(out, length);
    assert(out@ =~= old(out)@ + entries_bytes(length));
}

fn write_blending(out: &mut Vec<u8>, layer: &Layer)
    ensures
        final(out)@ == old(out)@ + blending_bytes(*layer),
{
    out.push(56);
    out.push(66);
    out.push(73);
    out.push(77);
    let key = blend_mode_key(layer.blend_mode);
    push_bytes(out, &key);
    out.push(layer.opacity);
    out.push(if layer.clipping { 1 } else { 0 });
    // Bit 1 marks a hidden layer; bit 3 is one Photoshop always sets.
    out.push(if layer.visible { 8 } else { 10 });
    out.push(0);  // filler
    assert(out@ =~= old(out)@ + blending_bytes(*layer));
}

/// Extra data: no mask (it was folded into the alpha), no blending ranges,
/// the name as a Pascal string, and for a type layer its block, whose length
/// field counts its data and not the padding.
fn extra_data(layer: &Layer, tysh: Option<&[u8]>) -> (extra: Vec<u8>)
    ensures
        extra@ == extra_bytes(
            *layer,
            match tysh {
                Some(b) => Some(b@),
                None => None,
            },
        ),
{
    let mut extra: Vec<u8> = Vec::new();
    push_u32(&mut extra, 0);
    push_u32(&mut extra, 0);
    write_pascal_string(&mut extra, layer.name.as_str());
    let ghost named = extra@;
    match tysh {
        Some(block) => {
            push_bytes(&mut extra, &[56u8, 66, 73, 77]);
            push_bytes(&mut extra, &[84u8, 121, 83, 104]);
            push_u32(&mut extra, block.len() as u32);
            push_bytes(&mut extra, block);
            if block.len() % 2 == 1 {
                extra.push(0);
            }
            assert(extra@ =~= named + type_frame(Some(block@)));
        },
        None => {
            assert(extra@ =~= named + type_frame(None));
        },
    }
    extra
}

/// The fixed part of a layer: where it is, how it blends, what it is called
/// and, for a type layer, what it says.
pub fn write_layer_record(out: &mut Vec<u8>, layer: &Layer, pixels: &Pixmap, tysh: Option<&[u8]>)
    requires
        pixels.w() <= i32::MAX,
        pixels.h() <= i32::MAX,
        i32::MIN <= layer.offset.0 + pixels.w() <= i32::MAX,
        i32::MIN <= layer.offset.1 + pixels.h() <= i32::MAX,
    ensures
        final(out)@ == old(out)@ + record_bytes(
            *layer,
            pixels.w() as int,
            pixels.h() as int,
            match tysh {
                Some(b) => Some(b@),
                None => None,
            },
        ),
{
    let ghost t = match tysh {
        Some(b) => Some(b@),
        None => None::<Seq<u8>>,
    };
    let ghost w = pixels.w() as int;
    let ghost h = pixels.h() as int;
    write_bounds(out, layer, pixels.width(), pixels.height());
    let ghost o1 = out@;
    write_entries(out, pixels.len());
    let ghost o2 = out@;
    write_blending(out, layer);
    let ghost o3 = out@;
    let extra = extra_data(layer, tysh);
    push_u32(out, extra.len() as u32);
    push_bytes(out, extra.as_slice());
    proof {
        let head = bounds_bytes(*layer, w, h);
        let entries = entries_bytes(plane_length(w, h));
        let blend = blending_bytes(*layer);
        let tail = u32_bytes(extra@.len() as u32) + extra@;
        assert(o1 == old(out)@ + head);
        assert(o2 == o1 + entries);
        assert(o3 == o2 + blend);
        assert(out@ == o3 + tail);
        assert(out@ =~= old(out)@ + (head + entries + blend + tail));
        assert(head + entries + blend + tail =~= record_bytes(*layer, w, h, t));
    }
}

/// The type blocks as bytes.
pub open spec fn blocks_view(texts: Seq<Option<Vec<u8>>>) -> Seq<Option<Seq<u8>>> {
    texts.map_values(
        |t: Option<Vec<u8>>|
            match t {
                Some(v) => Some(v@),
                None => None,
            },
    )
}

/// The type block given for layer `k`, if any.
pub open spec fn text_for(texts: Seq<Option<Seq<u8>>>, k: int) -> Option<Seq<u8>> {
    if 0 <= k < texts.len() {
        texts[k]
    } else {
        None
    }
}

/// The records of the first `k` layers, one after another.
pub open spec fn records_bytes(layers: Seq<Layer>, texts: Seq<Option<Seq<u8>>>, k: int) -> Seq<u8>
    decreases k,
{
    if k <= 0 {
        seq![]
    } else {
        let l = layers[k - 1];
        records_bytes(layers, texts, k - 1) + record_bytes(
            l,
            flat_size(l).0,
            flat_size(l).1,
            text_for(texts, k - 1),
        )
    }
}

/// The channel data of the first `k` layers, one after another.
pub open spec fn planes_bytes(layers: Seq<Layer>, k: int) -> Seq<u8>
    decreases k,
{
    if k <= 0 {
        seq![]
    } else {
        planes_bytes(layers, k - 1) + layer_channel_bytes(flat_pixels(layers[k - 1]))
    }
}

/// The layer info: the count, every record, then every layer's channel data,
/// padded to an even length.
pub open spec fn info_bytes(layers: Seq<Layer>, texts: Seq<Option<Seq<u8>>>) -> Seq<u8> {
    let raw = u16_bytes(layers.len() as u16) + records_bytes(layers, texts, layers.len() as int)
        + planes_bytes(layers, layers.len() as int);
    if raw.len() % 2 == 1 {
        raw.push(0)
    } else {
        raw
    }
}

/// The layer and mask section: the info behind its length, and an empty
/// global mask.
pub open spec fn section_bytes(layers: Seq<Layer>, texts: Seq<Option<Seq<u8>>>) -> Seq<u8> {
    let info = info_bytes(layers, texts);
    u32_bytes(info.len() as u32) + info + u32_bytes(0)
}

/// A whole layered file: the header, two empty sections, the layer section
/// behind its length, and the composite.
pub open spec fn layered_bytes(
    layers: Seq<Layer>,
    texts: Seq<Option<Seq<u8>>>,
    width: u32,
    height: u32,
    composite: Seq<Rgba8>,
) -> Seq<u8> {
    let section = section_bytes(layers, texts);
    header_bytes(width, height) + u32_bytes(0) + u32_bytes(0) + u32_bytes(section.len() as u32)
        + section + composite_bytes(composite)
}

/// Write a layered PSD: every layer of `stack`, bottom first, then the
/// flattened `composite`, which other programs show and Photoshop falls back
/// to. `texts` holds the `TySh` block of each type layer, by stack position.
pub fn write_layered_psd_with_text(
    stack: &LayerStack,
    composite: &Pixmap,
    texts: &Vec<Option<Vec<u8>>>,
) -> (out: Vec<u8>)
    requires
        forall|k: int| 0 <= k < stack.layers().len() ==> writable(#[trigger] stack.layers()[k]),
    ensures
        out@ == layered_bytes(
            stack.layers(),
            blocks_view(texts@),
            composite.w(),
            composite.h(),
            composite.pixels(),
        ),
{
    let ghost layers = stack.layers();
    let ghost blocks = blocks_view(texts@);
    let mut out: Vec<u8> = Vec::new();
    write_header(&mut out, composite.width(), composite.height());
    push_u32(&mut out, 0);  // colour mode data: empty
    push_u32(&mut out, 0);  // image resources: empty
    // Photoshop reads a negative count as "the first alpha channel is
    // transparency for the merged result"; a plain count is what an ordinary
    // layered file has.
    let all = stack.as_slice();
    let mut info: Vec<u8> = Vec::new();
    push_u16(&mut info, all.len() as u16);
    // The records come first and the pixels after, so both are built here and
    // joined below.
    let mut channel_data: Vec<u8> = Vec::new();
    let mut k: usize = 0;
    while k < all.len()
        invariant
            all@ == layers,
            blocks == blocks_view(texts@),
            k <= layers.len(),
            forall|j: int| 0 <= j < layers.len() ==> writable(#[trigger] layers[j]),
            info@ == u16_bytes(layers.len() as u16) + records_bytes(layers, blocks, k as int),
            channel_data@ == planes_bytes(layers, k as int),
        decreases layers.len() - k,
    {
        let layer = &all[k];
        assert(writable(layers[k as int]));
        let pixels = flattened_layer(layer);
        let tysh: Option<&[u8]> = if k < texts.len() {
            match &texts[k] {
                Some(b) => Some(b.as_slice()),
                None => None,
            }
        } else {
            None
        };
        assert(match tysh {
            Some(b) => Some(b@),
            None => None::<Seq<u8>>,
        } == text_for(blocks, k as int));
        write_layer_record(&mut info, layer, &pixels, tysh);
        write_layer_channels(&mut channel_data, &pixels);
        proof {
            assert(info@ =~= u16_bytes(layers.len() as u16) + records_bytes(layers, blocks, k + 1));
        }
        k = k + 1;
    }
    push_bytes(&mut info, channel_data.as_slice());
    pad_to_even(&mut info);
    assert(info@ =~= info_bytes(layers, blocks));
    let mut section: Vec<u8> = Vec::new();
    push_u32(&mut section, info.len() as u32);
    push_bytes(&mut section, info.as_slice());
    push_u32(&mut section, 0);  // no global layer mask
    assert(section@ =~= section_bytes(layers, blocks));
    push_u32(&mut out, section.len() as u32);
    push_bytes(&mut out, section.as_slice());
    write_composite(&mut out, composite);
    assert(out@ =~= layered_bytes(layers, blocks, composite.w(), composite.h(), composite.pixels()));
    out
}

/// Write a layered PSD of `stack` and its flattened `composite`, with no type
/// blocks.
pub fn write_layered_psd(stack: &LayerStack, composite: &Pixmap) -> (out: Vec<u8>)
    requires
        forall|k: int| 0 <= k < stack.layers().len() ==> writable(#[trigger] stack.layers()[k]),
    ensures
        out@ == layered_bytes(
            stack.layers(),
            Seq::empty(),
            composite.w(),
            composite.h(),
            composite.pixels(),
        ),
{
    let none: Vec<Option<Vec<u8>>> = Vec::new();
    let out = write_layered_psd_with_text(stack, composite, &none);
    assert(blocks_view(none@) =~= Seq::<Option<Seq<u8>>>::empty());
    out
}

} // verus!
