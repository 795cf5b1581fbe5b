//! What a written `TySh` block reads back as.

use vstd::prelude::*;
use vstd::utf8::{encode_utf8, is_ascii_chars, is_ascii_chars_encode_utf8};

use crate::chars::utf16_encode;
use crate::psd::text::{
    type_tool_at, descriptor_at, engine_key, items_at, key_at, txt_key, unicode_at, value_end, word_at,
    DescriptorView, ENUM, LONG, OBJC, TDTA, TEXT, UNTF,
};
use crate::psd::text_write::{
    descriptor_head, enum_code, enumerated_bytes, key_bytes, law_key_round_trip,
    law_unicode_string_round_trip, unicode_bytes,
};
use crate::psd::text_write::warp_bytes;
use crate::psd::type_block::{
    antialias_of, engine_bytes, orientation_of, settable, setting_text, text_descriptor_bytes,
    type_tool_bytes, with_returns, TextSetting, ONE_BITS,
    box_bytes, long_code, objc_code, pnt_code, tdta_code, text_code, u64_bytes, unit_item,
    untf_code,
};
use crate::buffer::Rgba8;
use crate::layer::Layer;
use crate::psd::layered::{layered_bytes, section_bytes, text_for, writable};
use crate::psd::written::{
    holds_at, law_written_layers_read_back, lemma_holds_index, lemma_holds_split, lemma_u32_at,
    pixels_fit, record_fits, written_records,
};
use crate::psd::{file_at, valid_dimensions};
use crate::psd::{be_u32, u16_bytes, u32_bytes};

verus! {

/// Four bytes that hold are the word they spell.
pub proof fn lemma_word_holds(d: Seq<u8>, p: int, x: Seq<u8>)
    requires
        holds_at(d, p, x),
        x.len() == 4,
    ensures
        word_at(d, p) == Some(be_u32(x, 0)),
{
    lemma_holds_index(d, p, x, 0);
    lemma_holds_index(d, p, x, 1);
    lemma_holds_index(d, p, x, 2);
    lemma_holds_index(d, p, x, 3);
}

/// A written count reads back.
pub proof fn lemma_count_holds(d: Seq<u8>, p: int, v: u32)
    requires
        holds_at(d, p, u32_bytes(v)),
    ensures
        word_at(d, p) == Some(v),
{
    lemma_u32_at(d, p, v);
}

/// A written string reads back wherever it stands.
pub proof fn lemma_unicode_holds(d: Seq<u8>, p: int, text: Seq<char>)
    requires
        holds_at(d, p, unicode_bytes(text)),
        text.len() == 0 || text.last() != '\0',
        utf16_encode(text).len() + 1 <= u32::MAX,
    ensures
        unicode_at(d, p) == Some::<(Seq<char>, int)>((text, p + unicode_bytes(text).len())),
{
    let b = unicode_bytes(text);
    let rest = d.subrange(p + b.len(), d.len() as int);
    let e = d.subrange(p, d.len() as int);
    assert(e =~= b + rest);
    law_unicode_string_round_trip(text, rest);
    let n: int = utf16_encode(text).len() as int + 1;
    let units = utf16_encode(text).push(0u16);
    lemma_holds_split(d, p, u32_bytes(units.len() as u32), crate::psd::text_write::units_bytes(units));
    lemma_u32_at(d, p, n as u32);
    assert(e.subrange(0, 4) =~= d.subrange(p, p + 4));
    assert(be_u32(e, 0) == be_u32(d, p)) by {
        assert(e[0] == d[p]);
        assert(e[1] == d[p + 1]);
        assert(e[2] == d[p + 2]);
        assert(e[3] == d[p + 3]);
    }
    assert(d.subrange(p + 4, p + 4 + 2 * n) =~= e.subrange(4, 4 + 2 * n));
}

/// A written key reads back wherever it stands.
pub proof fn lemma_key_holds(d: Seq<u8>, p: int, name: Seq<char>)
    requires
        holds_at(d, p, key_bytes(name)),
        0 < encode_utf8(name).len() <= u32::MAX,
    ensures
        key_at(d, p) == Some::<(Seq<u8>, int)>((encode_utf8(name), p + key_bytes(name).len())),
{
    let b = key_bytes(name);
    let rest = d.subrange(p + b.len(), d.len() as int);
    let e = d.subrange(p, d.len() as int);
    assert(e =~= b + rest);
    law_key_round_trip(name, rest);
    assert(be_u32(e, 0) == be_u32(d, p)) by {
        assert(e[0] == d[p]);
        assert(e[1] == d[p + 1]);
        assert(e[2] == d[p + 2]);
        assert(e[3] == d[p + 3]);
    }
    let size = encode_utf8(name).len() as int;
    assert(d.subrange(p + 4, p + 4 + size) =~= e.subrange(4, 4 + size));
}

/// The bytes of an ASCII name are its characters.
pub proof fn lemma_ascii_name(s: Seq<char>)
    requires
        is_ascii_chars(s),
        0 < s.len() <= 64,
    ensures
        encode_utf8(s) == Seq::new(s.len(), |i: int| s[i] as u8),
        0 < encode_utf8(s).len() <= u32::MAX,
{
    is_ascii_chars_encode_utf8(s);
    assert(encode_utf8(s) =~= Seq::new(s.len(), |i: int| s[i] as u8));
}


/// A name fit to be a key: its bytes are not empty and their count fits a
/// word.
pub open spec fn keyable(name: Seq<char>) -> bool {
    0 < encode_utf8(name).len() <= u32::MAX
}

/// A descriptor's opening reads back: the walk goes on to its items.
#[verifier::rlimit(100)]
pub proof fn lemma_head_holds(d: Seq<u8>, p: int, class: Seq<char>, items: u32)
    requires
        holds_at(d, p, descriptor_head(class, items)),
        keyable(class),
        items <= 4096,
    ensures
        descriptor_at(d, p) == items_at(
            d,
            p + descriptor_head(class, items).len(),
            items as int,
            DescriptorView { text: None, engine: None },
        ),
{
    let e = Seq::<char>::empty();
    let name = unicode_bytes(e);
    let k = key_bytes(class);
    lemma_holds_split(d, p, name + k, u32_bytes(items));
    lemma_holds_split(d, p, name, k);
    assert(utf16_encode(e) =~= Seq::<u16>::empty());
    lemma_unicode_holds(d, p, e);
    let p1 = p + name.len();
    let b = encode_utf8(class);
    let c: u32 = if b.len() == 4 {
        0
    } else {
        b.len() as u32
    };
    lemma_holds_split(d, p1, u32_bytes(c), b);
    lemma_count_holds(d, p1, c);
    lemma_count_holds(d, p1 + k.len(), items);
}

/// A `Txt ` item reads back as the string, and the walk goes on after it.
#[verifier::rlimit(100)]
pub proof fn lemma_txt_item(d: Seq<u8>, at: int, k: int, acc: DescriptorView, text: Seq<char>)
    requires
        holds_at(d, at, key_bytes("Txt "@)),
        holds_at(d, at + key_bytes("Txt "@).len(), text_code()),
        holds_at(d, at + key_bytes("Txt "@).len() + 4, unicode_bytes(text)),
        text.len() == 0 || text.last() != '\0',
        utf16_encode(text).len() + 1 <= u32::MAX,
        k >= 1,
    ensures
        items_at(d, at, k, acc) == items_at(
            d,
            at + key_bytes("Txt "@).len() + 4 + unicode_bytes(text).len(),
            k - 1,
            DescriptorView { text: Some(text), engine: acc.engine },
        ),
{
    reveal_strlit("Txt ");
    lemma_ascii_name("Txt "@);
    assert(encode_utf8("Txt "@) =~= txt_key());
    lemma_key_holds(d, at, "Txt "@);
    let p1 = at + key_bytes("Txt "@).len();
    lemma_word_holds(d, p1, text_code());
    lemma_unicode_holds(d, p1 + 4, text);
}

/// An enumerated item is stepped over.
#[verifier::rlimit(100)]
pub proof fn lemma_enum_item(
    d: Seq<u8>,
    at: int,
    k: int,
    acc: DescriptorView,
    key: Seq<char>,
    kind: Seq<char>,
    value: Seq<char>,
)
    requires
        holds_at(d, at, key_bytes(key)),
        holds_at(d, at + key_bytes(key).len(), enumerated_bytes(kind, value)),
        keyable(key),
        keyable(kind),
        keyable(value),
        k >= 1,
    ensures
        items_at(d, at, k, acc) == items_at(
            d,
            at + key_bytes(key).len() + enumerated_bytes(kind, value).len(),
            k - 1,
            acc,
        ),
{
    lemma_key_holds(d, at, key);
    let p1 = at + key_bytes(key).len();
    lemma_holds_split(d, p1, enum_code() + key_bytes(kind), key_bytes(value));
    lemma_holds_split(d, p1, enum_code(), key_bytes(kind));
    lemma_word_holds(d, p1, enum_code());
    assert(be_u32(enum_code(), 0) == ENUM);
    lemma_enum_end(d, p1 + 4, kind, value);
    lemma_step(
        d,
        at,
        k,
        acc,
        encode_utf8(key),
        p1,
        ENUM,
        p1 + 4 + key_bytes(kind).len() + key_bytes(value).len(),
    );
}

/// A length in points is stepped over.
#[verifier::rlimit(100)]
pub proof fn lemma_unit_item(d: Seq<u8>, at: int, k: int, acc: DescriptorView, name: Seq<char>, bits: u64)
    requires
        holds_at(d, at, unit_item(name, bits)),
        keyable(name),
        k >= 1,
    ensures
        items_at(d, at, k, acc) == items_at(d, at + unit_item(name, bits).len(), k - 1, acc),
{
    let kb = key_bytes(name);
    lemma_holds_split(d, at, kb + untf_code() + pnt_code(), u64_bytes(bits));
    lemma_holds_split(d, at, kb + untf_code(), pnt_code());
    lemma_holds_split(d, at, kb, untf_code());
    lemma_key_holds(d, at, name);
    lemma_word_holds(d, at + kb.len(), untf_code());
    assert(be_u32(untf_code(), 0) == UNTF);
    lemma_unit_end(d, at + kb.len() + 4);
    lemma_step(d, at, k, acc, encode_utf8(name), at + kb.len(), UNTF, at + kb.len() + 16);
}

/// A box reads back as a descriptor with nothing this library keeps, and ends
/// where it was written to end.
#[verifier::rlimit(100)]
pub proof fn lemma_box_holds(d: Seq<u8>, p: int, class: Seq<char>, b: (u64, u64, u64, u64))
    requires
        holds_at(d, p, descriptor_head(class, 4) + unit_item("Left"@, b.0) + unit_item("Top "@, b.1)
            + unit_item("Rght"@, b.2) + unit_item("Btom"@, b.3)),
        keyable(class),
    ensures
        descriptor_at(d, p) == Some::<(DescriptorView, int)>((
            DescriptorView { text: None, engine: None },
            p + (descriptor_head(class, 4) + unit_item("Left"@, b.0) + unit_item("Top "@, b.1)
                + unit_item("Rght"@, b.2) + unit_item("Btom"@, b.3)).len(),
        )),
{
    let h = descriptor_head(class, 4);
    let u0 = unit_item("Left"@, b.0);
    let u1 = unit_item("Top "@, b.1);
    let u2 = unit_item("Rght"@, b.2);
    let u3 = unit_item("Btom"@, b.3);
    let none = DescriptorView { text: None, engine: None };
    lemma_holds_split(d, p, h + u0 + u1 + u2, u3);
    lemma_holds_split(d, p, h + u0 + u1, u2);
    lemma_holds_split(d, p, h + u0, u1);
    lemma_holds_split(d, p, h, u0);
    lemma_head_holds(d, p, class, 4);
    reveal_strlit("Left");
    reveal_strlit("Top ");
    reveal_strlit("Rght");
    reveal_strlit("Btom");
    lemma_ascii_name("Left"@);
    lemma_ascii_name("Top "@);
    lemma_ascii_name("Rght"@);
    lemma_ascii_name("Btom"@);
    let q0 = p + h.len();
    lemma_unit_item(d, q0, 4, none, "Left"@, b.0);
    lemma_unit_item(d, q0 + u0.len(), 3, none, "Top "@, b.1);
    lemma_unit_item(d, q0 + u0.len() + u1.len(), 2, none, "Rght"@, b.2);
    lemma_unit_item(d, q0 + u0.len() + u1.len() + u2.len(), 1, none, "Btom"@, b.3);
}

/// A box item is stepped over.
#[verifier::rlimit(100)]
pub proof fn lemma_box_item(d: Seq<u8>, at: int, k: int, acc: DescriptorView, name: Seq<char>, b: (u64, u64, u64, u64))
    requires
        holds_at(d, at, key_bytes(name)),
        holds_at(d, at + key_bytes(name).len(), box_bytes(name, b)),
        keyable(name),
        k >= 1,
    ensures
        items_at(d, at, k, acc) == items_at(
            d,
            at + key_bytes(name).len() + box_bytes(name, b).len(),
            k - 1,
            acc,
        ),
{
    let p1 = at + key_bytes(name).len();
    let rest = descriptor_head(name, 4) + unit_item("Left"@, b.0) + unit_item("Top "@, b.1)
        + unit_item("Rght"@, b.2) + unit_item("Btom"@, b.3);
    assert(box_bytes(name, b) =~= objc_code() + rest);
    lemma_holds_split(d, p1, objc_code(), rest);
    lemma_key_holds(d, at, name);
    lemma_word_holds(d, p1, objc_code());
    assert(be_u32(objc_code(), 0) == OBJC);
    lemma_box_holds(d, p1 + 4, name, b);
    lemma_box_end(d, p1 + 4);
    lemma_step(d, at, k, acc, encode_utf8(name), p1, OBJC, p1 + 4 + rest.len());
}

/// A `long` item is stepped over.
#[verifier::rlimit(100)]
pub proof fn lemma_long_item(d: Seq<u8>, at: int, k: int, acc: DescriptorView, name: Seq<char>, v: u32)
    requires
        holds_at(d, at, key_bytes(name)),
        holds_at(d, at + key_bytes(name).len(), long_code()),
        holds_at(d, at + key_bytes(name).len() + 4, u32_bytes(v)),
        keyable(name),
        k >= 1,
    ensures
        items_at(d, at, k, acc) == items_at(d, at + key_bytes(name).len() + 8, k - 1, acc),
{
    lemma_key_holds(d, at, name);
    lemma_word_holds(d, at + key_bytes(name).len(), long_code());
    assert(be_u32(long_code(), 0) == LONG);
    lemma_count_holds(d, at + key_bytes(name).len() + 4, v);
    lemma_long_end(d, at + key_bytes(name).len() + 4);
    lemma_step(d, at, k, acc, encode_utf8(name), at + key_bytes(name).len(), LONG, at + key_bytes(name).len() + 8);
}

/// The EngineData item reads back as the bytes written, and the walk goes on
/// after them.
#[verifier::rlimit(100)]
pub proof fn lemma_engine_item(d: Seq<u8>, at: int, k: int, acc: DescriptorView, engine: Seq<u8>)
    requires
        holds_at(d, at, key_bytes("EngineData"@)),
        holds_at(d, at + key_bytes("EngineData"@).len(), tdta_code()),
        holds_at(d, at + key_bytes("EngineData"@).len() + 4, u32_bytes(engine.len() as u32)),
        holds_at(d, at + key_bytes("EngineData"@).len() + 8, engine),
        engine.len() <= u32::MAX,
        k >= 1,
    ensures
        items_at(d, at, k, acc) == items_at(
            d,
            at + key_bytes("EngineData"@).len() + 8 + engine.len(),
            k - 1,
            DescriptorView { text: acc.text, engine: Some(engine) },
        ),
{
    reveal_strlit("EngineData");
    lemma_ascii_name("EngineData"@);
    assert(encode_utf8("EngineData"@) =~= engine_key());
    lemma_key_holds(d, at, "EngineData"@);
    let p1 = at + key_bytes("EngineData"@).len();
    lemma_word_holds(d, p1, tdta_code());
    assert(be_u32(tdta_code(), 0) == TDTA);
    lemma_count_holds(d, p1 + 4, engine.len() as u32);
}


#[verifier::rlimit(100)]
pub proof fn lemma_enum_end(d: Seq<u8>, p: int, kind: Seq<char>, value: Seq<char>)
    requires
        holds_at(d, p, key_bytes(kind)),
        holds_at(d, p + key_bytes(kind).len(), key_bytes(value)),
        keyable(kind),
        keyable(value),
    ensures
        value_end(d, p, ENUM) == Some(p + key_bytes(kind).len() + key_bytes(value).len()),
{
    lemma_key_holds(d, p, kind);
    lemma_key_holds(d, p + key_bytes(kind).len(), value);
}


/// One item the walk steps over: neither the string nor the EngineData.
#[verifier::rlimit(100)]
pub proof fn lemma_step(d: Seq<u8>, at: int, k: int, acc: DescriptorView, key: Seq<u8>, p1: int, kind: u32, p3: int)
    requires
        0 <= at <= d.len(),
        k >= 1,
        key_at(d, at) == Some::<(Seq<u8>, int)>((key, p1)),
        word_at(d, p1) == Some(kind),
        kind != TEXT,
        kind != TDTA,
        value_end(d, p1 + 4, kind) == Some(p3),
        at < p3 <= d.len(),
    ensures
        items_at(d, at, k, acc) == items_at(d, p3, k - 1, acc),
{
}


/// A length in points ends twelve bytes on.
pub proof fn lemma_unit_end(d: Seq<u8>, p: int)
    requires
        0 <= p,
        p + 12 <= d.len(),
    ensures
        value_end(d, p, UNTF) == Some(p + 12),
{
}

/// A `long` ends four bytes on.
pub proof fn lemma_long_end(d: Seq<u8>, p: int)
    requires
        0 <= p,
        p + 4 <= d.len(),
    ensures
        value_end(d, p, LONG) == Some(p + 4),
{
}

/// An object ends where its descriptor does.
#[verifier::rlimit(100)]
pub proof fn lemma_box_end(d: Seq<u8>, p: int)
    requires
        0 <= p <= d.len(),
        descriptor_at(d, p) is Some,
    ensures
        value_end(d, p, OBJC) == Some(descriptor_at(d, p)->Some_0.1),
{
}


/// Turning line breaks into returns keeps a text non-empty, and keeps whether
/// it ends in a NUL.
proof fn lemma_with_returns_last(s: Seq<char>)
    requires
        s.len() > 0,
    ensures
        with_returns(s).len() > 0,
        (with_returns(s).last() == '\0') == (s.last() == '\0'),
    decreases s.len(),
{
    if s.len() >= 2 && s[0] == '\r' && s[1] == '\n' {
        let r = s.subrange(2, s.len() as int);
        if r.len() > 0 {
            lemma_with_returns_last(r);
            assert(r.last() == s.last());
        } else {
            assert(with_returns(r) =~= Seq::<char>::empty());
            assert(with_returns(s) =~= seq!['\r']);
        }
    } else {
        let r = s.drop_first();
        if r.len() > 0 {
            lemma_with_returns_last(r);
            assert(r.last() == s.last());
        } else {
            assert(with_returns(r) =~= Seq::<char>::empty());
            assert(with_returns(s).len() == 1);
        }
    }
}

/// A written block holds its text descriptor from byte 56 on.
#[verifier::rlimit(100)]
proof fn lemma_block_holds(t: TextSetting, origin: (u64, u64), bounds: (u64, u64, u64, u64))
    ensures
        holds_at(type_tool_bytes(t, origin, bounds), 56, text_descriptor_bytes(t, bounds)),
{
    reveal(type_tool_bytes);
    let blk = type_tool_bytes(t, origin, bounds);
    let desc = text_descriptor_bytes(t, bounds);
    let head = u16_bytes(1) + u64_bytes(ONE_BITS) + u64_bytes(0) + u64_bytes(0) + u64_bytes(ONE_BITS) + u64_bytes(origin.0) + u64_bytes(origin.1) + u16_bytes(50) + u32_bytes(16);
    let s0 = head + desc;
    let s1 = s0 + u16_bytes(1);
    let s2 = s1 + u32_bytes(16);
    let s3 = s2 + warp_bytes();
    let s4 = s3 + u32_bytes(0);
    let s5 = s4 + u32_bytes(0);
    let s6 = s5 + u32_bytes(0);
    let s7 = s6 + u32_bytes(0);
    assert(blk == s7);
    assert(blk.subrange(0, blk.len() as int) =~= blk);
    lemma_holds_split(blk, 0, s6, u32_bytes(0));
    lemma_holds_split(blk, 0, s5, u32_bytes(0));
    lemma_holds_split(blk, 0, s4, u32_bytes(0));
    lemma_holds_split(blk, 0, s3, u32_bytes(0));
    lemma_holds_split(blk, 0, s2, warp_bytes());
    lemma_holds_split(blk, 0, s1, u32_bytes(16));
    lemma_holds_split(blk, 0, s0, u16_bytes(1));
    lemma_holds_split(blk, 0, head, desc);
    assert(head.len() == 56);
}

/// A written text descriptor holds its pieces one after another.
#[verifier::rlimit(100)]
proof fn lemma_descriptor_pieces(d: Seq<u8>, p: int, t: TextSetting, bounds: (u64, u64, u64, u64))
    requires
        holds_at(d, p, text_descriptor_bytes(t, bounds)),
    ensures
        ({
            let w = with_returns(setting_text(t));
            let engine = engine_bytes(t);
            let q0 = p;
            let q1 = q0 + descriptor_head("TxLr"@, 8).len();
            let q2 = q1 + key_bytes("Txt "@).len();
            let q3 = q2 + text_code().len();
            let q4 = q3 + unicode_bytes(w).len();
            let q5 = q4 + key_bytes("textGridding"@).len();
            let q6 = q5 + enumerated_bytes("textGridding"@, "None"@).len();
            let q7 = q6 + key_bytes("Ornt"@).len();
            let q8 = q7 + enumerated_bytes("Ornt"@, orientation_of(t.vertical)).len();
            let q9 = q8 + key_bytes("AntA"@).len();
            let q10 = q9 + enumerated_bytes("Annt"@, antialias_of(t.antialias)).len();
            let q11 = q10 + key_bytes("bounds"@).len();
            let q12 = q11 + box_bytes("bounds"@, bounds).len();
            let q13 = q12 + key_bytes("boundingBox"@).len();
            let q14 = q13 + box_bytes("boundingBox"@, bounds).len();
            let q15 = q14 + key_bytes("TextIndex"@).len();
            let q16 = q15 + long_code().len();
            let q17 = q16 + u32_bytes(0).len();
            let q18 = q17 + key_bytes("EngineData"@).len();
            let q19 = q18 + tdta_code().len();
            let q20 = q19 + u32_bytes(engine.len() as u32).len();
            &&& holds_at(d, q0, descriptor_head("TxLr"@, 8))
            &&& holds_at(d, q1, key_bytes("Txt "@))
            &&& holds_at(d, q2, text_code())
            &&& holds_at(d, q3, unicode_bytes(w))
            &&& holds_at(d, q4, key_bytes("textGridding"@))
            &&& holds_at(d, q5, enumerated_bytes("textGridding"@, "None"@))
            &&& holds_at(d, q6, key_bytes("Ornt"@))
            &&& holds_at(d, q7, enumerated_bytes("Ornt"@, orientation_of(t.vertical)))
            &&& holds_at(d, q8, key_bytes("AntA"@))
            &&& holds_at(d, q9, enumerated_bytes("Annt"@, antialias_of(t.antialias)))
            &&& holds_at(d, q10, key_bytes("bounds"@))
            &&& holds_at(d, q11, box_bytes("bounds"@, bounds))
            &&& holds_at(d, q12, key_bytes("boundingBox"@))
            &&& holds_at(d, q13, box_bytes("boundingBox"@, bounds))
            &&& holds_at(d, q14, key_bytes("TextIndex"@))
            &&& holds_at(d, q15, long_code())
            &&& holds_at(d, q16, u32_bytes(0))
            &&& holds_at(d, q17, key_bytes("EngineData"@))
            &&& holds_at(d, q18, tdta_code())
            &&& holds_at(d, q19, u32_bytes(engine.len() as u32))
            &&& holds_at(d, q20, engine)
        }),
{
    let w = with_returns(setting_text(t));
    let engine = engine_bytes(t);
    reveal(text_descriptor_bytes);
    let desc = text_descriptor_bytes(t, bounds);
    let x0 = descriptor_head("TxLr"@, 8);
    let x1 = key_bytes("Txt "@);
    let x2 = text_code();
    let x3 = unicode_bytes(w);
    let x4 = key_bytes("textGridding"@);
    let x5 = enumerated_bytes("textGridding"@, "None"@);
    let x6 = key_bytes("Ornt"@);
    let x7 = enumerated_bytes("Ornt"@, orientation_of(t.vertical));
    let x8 = key_bytes("AntA"@);
    let x9 = enumerated_bytes("Annt"@, antialias_of(t.antialias));
    let x10 = key_bytes("bounds"@);
    let x11 = box_bytes("bounds"@, bounds);
    let x12 = key_bytes("boundingBox"@);
    let x13 = box_bytes("boundingBox"@, bounds);
    let x14 = key_bytes("TextIndex"@);
    let x15 = long_code();
    let x16 = u32_bytes(0);
    let x17 = key_bytes("EngineData"@);
    let x18 = tdta_code();
    let x19 = u32_bytes(engine.len() as u32);
    let x20 = engine;
    let s0 = x0;
    let s1 = s0 + x1;
    let s2 = s1 + x2;
    let s3 = s2 + x3;
    let s4 = s3 + x4;
    let s5 = s4 + x5;
    let s6 = s5 + x6;
    let s7 = s6 + x7;
    let s8 = s7 + x8;
    let s9 = s8 + x9;
    let s10 = s9 + x10;
    let s11 = s10 + x11;
    let s12 = s11 + x12;
    let s13 = s12 + x13;
    let s14 = s13 + x14;
    let s15 = s14 + x15;
    let s16 = s15 + x16;
    let s17 = s16 + x17;
    let s18 = s17 + x18;
    let s19 = s18 + x19;
    let s20 = s19 + x20;
    assert(desc == s20);
    lemma_holds_split(d, p, s19, x20);
    lemma_holds_split(d, p, s18, x19);
    lemma_holds_split(d, p, s17, x18);
    lemma_holds_split(d, p, s16, x17);
    lemma_holds_split(d, p, s15, x16);
    lemma_holds_split(d, p, s14, x15);
    lemma_holds_split(d, p, s13, x14);
    lemma_holds_split(d, p, s12, x13);
    lemma_holds_split(d, p, s11, x12);
    lemma_holds_split(d, p, s10, x11);
    lemma_holds_split(d, p, s9, x10);
    lemma_holds_split(d, p, s8, x9);
    lemma_holds_split(d, p, s7, x8);
    lemma_holds_split(d, p, s6, x7);
    lemma_holds_split(d, p, s5, x6);
    lemma_holds_split(d, p, s4, x5);
    lemma_holds_split(d, p, s3, x4);
    lemma_holds_split(d, p, s2, x3);
    lemma_holds_split(d, p, s1, x2);
    lemma_holds_split(d, p, s0, x1);
}

/// The names a text descriptor is written with are fit to be keys.
proof fn lemma_descriptor_names()
    ensures
        keyable("TxLr"@),
        keyable("Txt "@),
        keyable("textGridding"@),
        keyable("None"@),
        keyable("Ornt"@),
        keyable("Vrtc"@),
        keyable("Hrzn"@),
        keyable("AntA"@),
        keyable("Annt"@),
        keyable("antiAliasSharp"@),
        keyable("antiAliasNone"@),
        keyable("bounds"@),
        keyable("boundingBox"@),
        keyable("TextIndex"@),
        keyable("EngineData"@),
{
    reveal_strlit("TxLr");
    lemma_ascii_name("TxLr"@);
    reveal_strlit("Txt ");
    lemma_ascii_name("Txt "@);
    reveal_strlit("textGridding");
    lemma_ascii_name("textGridding"@);
    reveal_strlit("None");
    lemma_ascii_name("None"@);
    reveal_strlit("Ornt");
    lemma_ascii_name("Ornt"@);
    reveal_strlit("Vrtc");
    lemma_ascii_name("Vrtc"@);
    reveal_strlit("Hrzn");
    lemma_ascii_name("Hrzn"@);
    reveal_strlit("AntA");
    lemma_ascii_name("AntA"@);
    reveal_strlit("Annt");
    lemma_ascii_name("Annt"@);
    reveal_strlit("antiAliasSharp");
    lemma_ascii_name("antiAliasSharp"@);
    reveal_strlit("antiAliasNone");
    lemma_ascii_name("antiAliasNone"@);
    reveal_strlit("bounds");
    lemma_ascii_name("bounds"@);
    reveal_strlit("boundingBox");
    lemma_ascii_name("boundingBox"@);
    reveal_strlit("TextIndex");
    lemma_ascii_name("TextIndex"@);
    reveal_strlit("EngineData");
    lemma_ascii_name("EngineData"@);
}

/// The first half of a written text descriptor: its opening, the string,
/// and the three enumerated items.
#[verifier::rlimit(100)]
proof fn lemma_walk_head(d: Seq<u8>, p: int, t: TextSetting, bounds: (u64, u64, u64, u64))
    requires
        ({
            let w = with_returns(setting_text(t));
            let engine = engine_bytes(t);
            let q0 = p;
            let q1 = q0 + descriptor_head("TxLr"@, 8).len();
            let q2 = q1 + key_bytes("Txt "@).len();
            let q3 = q2 + text_code().len();
            let q4 = q3 + unicode_bytes(w).len();
            let q5 = q4 + key_bytes("textGridding"@).len();
            let q6 = q5 + enumerated_bytes("textGridding"@, "None"@).len();
            let q7 = q6 + key_bytes("Ornt"@).len();
            let q8 = q7 + enumerated_bytes("Ornt"@, orientation_of(t.vertical)).len();
            let q9 = q8 + key_bytes("AntA"@).len();
            let q10 = q9 + enumerated_bytes("Annt"@, antialias_of(t.antialias)).len();
            &&& holds_at(d, q0, descriptor_head("TxLr"@, 8))
            &&& holds_at(d, q1, key_bytes("Txt "@))
            &&& holds_at(d, q2, text_code())
            &&& holds_at(d, q3, unicode_bytes(w))
            &&& holds_at(d, q4, key_bytes("textGridding"@))
            &&& holds_at(d, q5, enumerated_bytes("textGridding"@, "None"@))
            &&& holds_at(d, q6, key_bytes("Ornt"@))
            &&& holds_at(d, q7, enumerated_bytes("Ornt"@, orientation_of(t.vertical)))
            &&& holds_at(d, q8, key_bytes("AntA"@))
            &&& holds_at(d, q9, enumerated_bytes("Annt"@, antialias_of(t.antialias)))
        }),
        with_returns(setting_text(t)).len() == 0 || with_returns(setting_text(t)).last() != '\0',
        utf16_encode(with_returns(setting_text(t))).len() < u32::MAX,
        keyable("TxLr"@),
        keyable("textGridding"@),
        keyable("None"@),
        keyable("Ornt"@),
        keyable("Vrtc"@),
        keyable("Hrzn"@),
        keyable("AntA"@),
        keyable("Annt"@),
        keyable("antiAliasSharp"@),
        keyable("antiAliasNone"@),
    ensures
        ({
            let w = with_returns(setting_text(t));
            let engine = engine_bytes(t);
            let q0 = p;
            let q1 = q0 + descriptor_head("TxLr"@, 8).len();
            let q2 = q1 + key_bytes("Txt "@).len();
            let q3 = q2 + text_code().len();
            let q4 = q3 + unicode_bytes(w).len();
            let q5 = q4 + key_bytes("textGridding"@).len();
            let q6 = q5 + enumerated_bytes("textGridding"@, "None"@).len();
            let q7 = q6 + key_bytes("Ornt"@).len();
            let q8 = q7 + enumerated_bytes("Ornt"@, orientation_of(t.vertical)).len();
            let q9 = q8 + key_bytes("AntA"@).len();
            let q10 = q9 + enumerated_bytes("Annt"@, antialias_of(t.antialias)).len();
            descriptor_at(d, p) == items_at(d, q10, 4, DescriptorView { text: Some(w), engine: None })
        }),
{
    let w = with_returns(setting_text(t));
    let engine = engine_bytes(t);
    let q0 = p;
    let q1 = q0 + descriptor_head("TxLr"@, 8).len();
    let q2 = q1 + key_bytes("Txt "@).len();
    let q3 = q2 + text_code().len();
    let q4 = q3 + unicode_bytes(w).len();
    let q5 = q4 + key_bytes("textGridding"@).len();
    let q6 = q5 + enumerated_bytes("textGridding"@, "None"@).len();
    let q7 = q6 + key_bytes("Ornt"@).len();
    let q8 = q7 + enumerated_bytes("Ornt"@, orientation_of(t.vertical)).len();
    let q9 = q8 + key_bytes("AntA"@).len();
    let q10 = q9 + enumerated_bytes("Annt"@, antialias_of(t.antialias)).len();
    let none = DescriptorView { text: None, engine: None };
    let acc = DescriptorView { text: Some(w), engine: None };
    lemma_head_holds(d, q0, "TxLr"@, 8);
    lemma_txt_item(d, q1, 8, none, w);
    lemma_enum_item(d, q4, 7, acc, "textGridding"@, "textGridding"@, "None"@);
    lemma_enum_item(d, q6, 6, acc, "Ornt"@, "Ornt"@, orientation_of(t.vertical));
    lemma_enum_item(d, q8, 5, acc, "AntA"@, "Annt"@, antialias_of(t.antialias));
}

/// The second half of a written text descriptor, from the first box on:
/// everything is stepped over up to the EngineData, which is kept.
#[verifier::rlimit(100)]
proof fn lemma_walk_tail(d: Seq<u8>, at: int, t: TextSetting, bounds: (u64, u64, u64, u64), acc: DescriptorView)
    requires
        ({
            let engine = engine_bytes(t);
            let q10 = at;
            let q11 = q10 + key_bytes("bounds"@).len();
            let q12 = q11 + box_bytes("bounds"@, bounds).len();
            let q13 = q12 + key_bytes("boundingBox"@).len();
            let q14 = q13 + box_bytes("boundingBox"@, bounds).len();
            let q15 = q14 + key_bytes("TextIndex"@).len();
            let q16 = q15 + long_code().len();
            let q17 = q16 + u32_bytes(0).len();
            let q18 = q17 + key_bytes("EngineData"@).len();
            let q19 = q18 + tdta_code().len();
            let q20 = q19 + u32_bytes(engine.len() as u32).len();
            &&& holds_at(d, q10, key_bytes("bounds"@))
            &&& holds_at(d, q11, box_bytes("bounds"@, bounds))
            &&& holds_at(d, q12, key_bytes("boundingBox"@))
            &&& holds_at(d, q13, box_bytes("boundingBox"@, bounds))
            &&& holds_at(d, q14, key_bytes("TextIndex"@))
            &&& holds_at(d, q15, long_code())
            &&& holds_at(d, q16, u32_bytes(0))
            &&& holds_at(d, q17, key_bytes("EngineData"@))
            &&& holds_at(d, q18, tdta_code())
            &&& holds_at(d, q19, u32_bytes(engine.len() as u32))
            &&& holds_at(d, q20, engine)
        }),
        engine_bytes(t).len() <= u32::MAX,
        keyable("bounds"@),
        keyable("boundingBox"@),
        keyable("TextIndex"@),
    ensures
        ({
            let engine = engine_bytes(t);
            let q10 = at;
            let q11 = q10 + key_bytes("bounds"@).len();
            let q12 = q11 + box_bytes("bounds"@, bounds).len();
            let q13 = q12 + key_bytes("boundingBox"@).len();
            let q14 = q13 + box_bytes("boundingBox"@, bounds).len();
            let q15 = q14 + key_bytes("TextIndex"@).len();
            let q16 = q15 + long_code().len();
            let q17 = q16 + u32_bytes(0).len();
            let q18 = q17 + key_bytes("EngineData"@).len();
            let q19 = q18 + tdta_code().len();
            let q20 = q19 + u32_bytes(engine.len() as u32).len();
            items_at(d, at, 4, acc) == Some::<(DescriptorView, int)>(
                (DescriptorView { text: acc.text, engine: Some(engine) }, q20 + engine.len()),
            )
        }),
{
    let engine = engine_bytes(t);
    let q10 = at;
    let q11 = q10 + key_bytes("bounds"@).len();
    let q12 = q11 + box_bytes("bounds"@, bounds).len();
    let q13 = q12 + key_bytes("boundingBox"@).len();
    let q14 = q13 + box_bytes("boundingBox"@, bounds).len();
    let q15 = q14 + key_bytes("TextIndex"@).len();
    let q16 = q15 + long_code().len();
    let q17 = q16 + u32_bytes(0).len();
    let q18 = q17 + key_bytes("EngineData"@).len();
    let q19 = q18 + tdta_code().len();
    let q20 = q19 + u32_bytes(engine.len() as u32).len();
    lemma_box_item(d, q10, 4, acc, "bounds"@, bounds);
    lemma_box_item(d, q12, 3, acc, "boundingBox"@, bounds);
    lemma_long_item(d, q14, 2, acc, "TextIndex"@, 0);
    lemma_engine_item(d, q17, 1, acc, engine);
}

/// A written text descriptor reads back as its string and its EngineData.
#[verifier::rlimit(100)]
proof fn lemma_descriptor_holds(d: Seq<u8>, p: int, t: TextSetting, bounds: (u64, u64, u64, u64))
    requires
        holds_at(d, p, text_descriptor_bytes(t, bounds)),
        with_returns(setting_text(t)).len() == 0 || with_returns(setting_text(t)).last() != '\0',
        utf16_encode(with_returns(setting_text(t))).len() < u32::MAX,
        engine_bytes(t).len() <= u32::MAX,
    ensures
        descriptor_at(d, p) == Some::<(DescriptorView, int)>((
            DescriptorView {
                text: Some(with_returns(setting_text(t))),
                engine: Some(engine_bytes(t)),
            },
            p + text_descriptor_bytes(t, bounds).len(),
        )),
{
    let w = with_returns(setting_text(t));
    let engine = engine_bytes(t);
    lemma_descriptor_pieces(d, p, t, bounds);
    lemma_descriptor_names();
    let q0 = p;
    let q1 = q0 + descriptor_head("TxLr"@, 8).len();
    let q2 = q1 + key_bytes("Txt "@).len();
    let q3 = q2 + text_code().len();
    let q4 = q3 + unicode_bytes(w).len();
    let q5 = q4 + key_bytes("textGridding"@).len();
    let q6 = q5 + enumerated_bytes("textGridding"@, "None"@).len();
    let q7 = q6 + key_bytes("Ornt"@).len();
    let q8 = q7 + enumerated_bytes("Ornt"@, orientation_of(t.vertical)).len();
    let q9 = q8 + key_bytes("AntA"@).len();
    let q10 = q9 + enumerated_bytes("Annt"@, antialias_of(t.antialias)).len();
    let q11 = q10 + key_bytes("bounds"@).len();
    let q12 = q11 + box_bytes("bounds"@, bounds).len();
    let q13 = q12 + key_bytes("boundingBox"@).len();
    let q14 = q13 + box_bytes("boundingBox"@, bounds).len();
    let q15 = q14 + key_bytes("TextIndex"@).len();
    let q16 = q15 + long_code().len();
    let q17 = q16 + u32_bytes(0).len();
    let q18 = q17 + key_bytes("EngineData"@).len();
    let q19 = q18 + tdta_code().len();
    let q20 = q19 + u32_bytes(engine.len() as u32).len();
    assert(q20 + engine.len() == p + text_descriptor_bytes(t, bounds).len()) by {
        reveal(text_descriptor_bytes);
    }
    lemma_walk_head(d, p, t, bounds);
    lemma_walk_tail(d, q10, t, bounds, DescriptorView { text: Some(w), engine: None });
}


/// What the library writes as a type layer's block is read back as a type
/// layer: the descriptor's string is the text with its line breaks as returns,
/// and its EngineData is the dump the library wrote. This holds for text that
/// is not empty (the reader declines an empty string as no type layer) and
/// does not end in a NUL (the reader drops trailing NULs), and whose string
/// and dump fit the counts that are written in front of them.
pub proof fn law_written_type_block_reads_back(t: TextSetting, origin: (u64, u64), bounds: (u64, u64, u64, u64))
    requires
        setting_text(t).len() > 0,
        setting_text(t).last() != '\0',
        utf16_encode(with_returns(setting_text(t))).len() < u32::MAX,
        engine_bytes(t).len() <= u32::MAX,
    ensures
        type_tool_at(type_tool_bytes(t, origin, bounds)) == Some(
            DescriptorView {
                text: Some(with_returns(setting_text(t))),
                engine: Some(engine_bytes(t)),
            },
        ),
{
    lemma_with_returns_last(setting_text(t));
    lemma_block_holds(t, origin, bounds);
    lemma_descriptor_holds(type_tool_bytes(t, origin, bounds), 56, t, bounds);
}


/// A type layer written into a layered file comes back from the file as text:
/// the record of layer `i`, whose block the library wrote for `t`, holds the
/// text with its line breaks as returns and the EngineData the library wrote.
/// This holds wherever both the layered file and the block read back.
pub proof fn law_written_type_layer_reads_back_as_text(
    layers: Seq<Layer>,
    texts: Seq<Option<Seq<u8>>>,
    width: u32,
    height: u32,
    composite: Seq<Rgba8>,
    i: int,
    t: TextSetting,
    origin: (u64, u64),
    bounds: (u64, u64, u64, u64),
)
    requires
        valid_dimensions(width, height),
        composite.len() == width * height,
        layers.len() <= 32767,
        forall|k: int|
            0 <= k < layers.len() ==> writable(#[trigger] layers[k]) && pixels_fit(layers[k])
                && record_fits(layers[k], text_for(texts, k)),
        section_bytes(layers, texts).len() <= u32::MAX,
        0 <= i < layers.len(),
        text_for(texts, i) == Some(type_tool_bytes(t, origin, bounds)),
        setting_text(t).len() > 0,
        setting_text(t).last() != '\0',
        utf16_encode(with_returns(setting_text(t))).len() < u32::MAX,
        engine_bytes(t).len() <= u32::MAX,
    ensures
        file_at(layered_bytes(layers, texts, width, height, composite)) matches Ok((_, records, _, _))
            && records[i].text == Some(
            DescriptorView {
                text: Some(with_returns(setting_text(t))),
                engine: Some(engine_bytes(t)),
            },
        ),
{
    law_written_layers_read_back(layers, texts, width, height, composite);
    law_written_type_block_reads_back(t, origin, bounds);
    assert(written_records(layers, texts, layers.len() as int)[i].text == type_tool_at(
        type_tool_bytes(t, origin, bounds),
    ));
}

} // verus!
