//! Writing a PSD type layer — the `TySh` block.
//!
//! The mirror of [`super::text`]. What makes Photoshop treat a layer as *type*
//! rather than as a picture of some text is this block in the layer's
//! additional information: a **descriptor** carrying the string and the
//! layer-level choices, and **EngineData**, the text engine's own dump,
//! carrying how it is set. Photoshop builds a live text object out of what is
//! here, so the dump has to be complete: the run arrays have to agree with the
//! string's length, every run has to name a font in the font set, and the
//! sheets a run refers to have to exist.

use vstd::prelude::*;
use vstd::string::{StrSliceExecFns, StringExecFns};
use vstd::utf8::{char_u32_cast, encode_utf8};

use crate::chars::{
    decimal, encode_utf16, is_white_space, lemma_utf16_decode_concat, push_char, push_decimal,
    utf16_decode, utf16_encode, utf16_of, white_space,
};
use crate::psd::text::{dash_from, key_at, postscript_parts, spaced, trim_nul, unicode_at, units_of, capital};
use crate::psd::{be_u32, lemma_u32_bytes, push_u16, push_u32, u16_bytes, u32_bytes};

verus! {

// ---------------------------------------------------------------------------
// Descriptor pieces
// ---------------------------------------------------------------------------

/// The bytes of `units`, each big-endian.
pub open spec fn units_bytes(units: Seq<u16>) -> Seq<u8>
    decreases units.len(),
{
    if units.len() == 0 {
        seq![]
    } else {
        u16_bytes(units[0]) + units_bytes(units.drop_first())
    }
}

/// A UTF-16BE string as a descriptor writes one: its length in units,
/// counting the trailing null, then the units and the null.
pub open spec fn unicode_bytes(text: Seq<char>) -> Seq<u8> {
    let units = utf16_encode(text).push(0u16);
    u32_bytes(units.len() as u32) + units_bytes(units)
}

/// A key or class code: four-character codes with a zero length, anything
/// longer with its length in bytes in front.
pub open spec fn key_bytes(name: Seq<char>) -> Seq<u8> {
    let b = encode_utf8(name);
    (if b.len() == 4 {
        u32_bytes(0)
    } else {
        u32_bytes(b.len() as u32)
    }) + b
}

/// The bytes of the four-character type code `enum`.
pub open spec fn enum_code() -> Seq<u8> {
    seq![101u8, 110u8, 117u8, 109u8]
}

/// An enumerated value: its type and its value, each a key.
pub open spec fn enumerated_bytes(kind: Seq<char>, value: Seq<char>) -> Seq<u8> {
    enum_code() + key_bytes(kind) + key_bytes(value)
}

/// A descriptor's opening: its own (always empty) name, its class, and how
/// many items follow.
pub open spec fn descriptor_head(class: Seq<char>, items: u32) -> Seq<u8> {
    unicode_bytes(Seq::empty()) + key_bytes(class) + u32_bytes(items)
}

pub(crate) fn push_bytes(out: &mut Vec<u8>, b: &[u8])
    ensures
        final(out)@ == old(out)@ + b@,
{
    let mut i: usize = 0;
    while i < b.len()
        invariant
            i <= b@.len(),
            out@ == old(out)@ + b@.subrange(0, i as int),
        decreases b@.len() - i,
    {
        out.push(b[i]);
        assert(b@.subrange(0, i + 1) =~= b@.subrange(0, i as int).push(b@[i as int]));
        i = i + 1;
    }
    assert(b@.subrange(0, b@.len() as int) =~= b@);
}

/// A key or class code: four-character codes are written with a zero length,
/// anything longer with its length in front.
pub fn key(out: &mut Vec<u8>, name: &str)
    ensures
        final(out)@ == old(out)@ + key_bytes(name@),
{
    let b = name.as_bytes();
    if b.len() == 4 {
        push_u32(out, 0);
    } else {
        push_u32(out, b.len() as u32);
    }
    push_bytes(out, b);
    assert(out@ =~= old(out)@ + key_bytes(name@));
}

pub fn enumerated(out: &mut Vec<u8>, kind: &str, value: &str)
    ensures
        final(out)@ == old(out)@ + enumerated_bytes(kind@, value@),
{
    let code: [u8; 4] = [101, 110, 117, 109];
    assert(code@ == enum_code());
    push_bytes(out, &code);
    key(out, kind);
    key(out, value);
    assert(out@ =~= old(out)@ + enumerated_bytes(kind@, value@));
}

/// A UTF-16BE string, its length counted in units and including the
/// trailing null.
pub fn unicode_string(out: &mut Vec<u8>, text: &str)
    ensures
        final(out)@ == old(out)@ + unicode_bytes(text@),
{
    let mut units = encode_utf16(text);
    units.push(0);
    push_u32(out, units.len() as u32);
    let ghost head = out@;
    let mut i: usize = 0;
    while i < units.len()
        invariant
            i <= units@.len(),
            out@ == head + units_bytes(units@.subrange(0, i as int)),
        decreases units@.len() - i,
    {
        push_u16(out, units[i]);
        proof {
            lemma_units_bytes_push(units@.subrange(0, i as int), units@[i as int]);
            assert(units@.subrange(0, i + 1) =~= units@.subrange(0, i as int).push(units@[i as int]));
        }
        i = i + 1;
    }
    assert(units@.subrange(0, units@.len() as int) =~= units@);
    assert(out@ =~= old(out)@ + unicode_bytes(text@));
}

proof fn lemma_units_bytes_push(units: Seq<u16>, u: u16)
    ensures
        units_bytes(units.push(u)) == units_bytes(units) + u16_bytes(u),
    decreases units.len(),
{
    if units.len() == 0 {
        assert(units.push(u).drop_first() =~= Seq::<u16>::empty());
        assert(units_bytes(Seq::<u16>::empty()) == Seq::<u8>::empty());
        assert(units_bytes(units.push(u)) == u16_bytes(u) + units_bytes(units.push(u).drop_first()));
        assert(units_bytes(units.push(u)) =~= u16_bytes(u));
    } else {
        lemma_units_bytes_push(units.drop_first(), u);
        assert(units.push(u).drop_first() =~= units.drop_first().push(u));
        assert(units_bytes(units.push(u)) =~= units_bytes(units) + u16_bytes(u));
    }
}

/// A descriptor's opening: its own (always empty) name, its class, and how many
/// items follow.
pub fn begin_descriptor(out: &mut Vec<u8>, class: &str, items: u32)
    ensures
        final(out)@ == old(out)@ + descriptor_head(class@, items),
{
    let empty = "";
    proof {
        reveal_strlit("");
    }
    assert(empty@ =~= Seq::<char>::empty());
    unicode_string(out, empty);
    key(out, class);
    push_u32(out, items);
    assert(out@ =~= old(out)@ + descriptor_head(class@, items));
}

/// The bytes of the type code `doub`.
pub open spec fn doub_code() -> Seq<u8> {
    seq![100u8, 111u8, 117u8, 98u8]
}

/// A `doub` item holding zero, under `name`.
pub open spec fn zero_double_item(name: Seq<char>) -> Seq<u8> {
    key_bytes(name) + doub_code() + Seq::new(8, |i: int| 0u8)
}

/// The warp descriptor, saying there is no warp.
pub open spec fn warp_bytes() -> Seq<u8> {
    descriptor_head("warp"@, 5) + key_bytes("warpStyle"@) + enumerated_bytes(
        "warpStyle"@,
        "warpNone"@,
    ) + zero_double_item("warpValue"@) + zero_double_item("warpPerspective"@) + zero_double_item(
        "warpPerspectiveOther"@,
    ) + key_bytes("warpRotate"@) + enumerated_bytes("Ornt"@, "Hrzn"@)
}

fn zero_double(out: &mut Vec<u8>, name: &str)
    ensures
        final(out)@ == old(out)@ + zero_double_item(name@),
{
    key(out, name);
    let code: [u8; 4] = [100, 111, 117, 98];
    assert(code@ == doub_code());
    push_bytes(out, &code);
    // Zero as a big-endian double is eight zero bytes.
    let zero: [u8; 8] = [0; 8];
    assert(zero@ =~= Seq::new(8, |i: int| 0u8));
    push_bytes(out, &zero);
    assert(out@ =~= old(out)@ + zero_double_item(name@));
}

/// The warp descriptor, saying there is no warp — which still has to be said.
pub fn write_warp_descriptor(out: &mut Vec<u8>)
    ensures
        final(out)@ == old(out)@ + warp_bytes(),
{
    begin_descriptor(out, "warp", 5);
    key(out, "warpStyle");
    enumerated(out, "warpStyle", "warpNone");
    zero_double(out, "warpValue");
    zero_double(out, "warpPerspective");
    zero_double(out, "warpPerspectiveOther");
    key(out, "warpRotate");
    enumerated(out, "Ornt", "Hrzn");
    assert(out@ =~= old(out)@ + warp_bytes());
}


// ---------------------------------------------------------------------------
// Reading back what was written
// ---------------------------------------------------------------------------

proof fn lemma_units_bytes(units: Seq<u16>)
    ensures
        units_bytes(units).len() == 2 * units.len(),
        units_of(units_bytes(units)) == units,
    decreases units.len(),
{
    let b = units_bytes(units);
    if units.len() > 0 {
        lemma_units_bytes(units.drop_first());
        let rest = units_bytes(units.drop_first());
        assert(b == u16_bytes(units[0]) + rest);
        assert forall|i: int| 0 <= i < units.len() implies #[trigger] units_of(b)[i] == units[i] by {
            if i > 0 {
                assert(b[2 * i] == rest[2 * (i - 1)]);
                assert(b[2 * i + 1] == rest[2 * (i - 1) + 1]);
                assert(units_of(rest)[i - 1] == units.drop_first()[i - 1]);
            }
        }
        assert(units_of(b) =~= units);
    } else {
        assert(units_of(b) =~= units);
    }
}

/// `s` ending in a NUL loses it, and nothing before it, when trimmed — as long
/// as `s` itself does not end in one.
proof fn lemma_trim_one_nul(s: Seq<char>)
    requires
        s.len() == 0 || s.last() != '\0',
    ensures
        trim_nul(s.push('\0')) == s,
{
    assert(s.push('\0').drop_last() =~= s);
    assert(trim_nul(s) == s);
}

/// A string written by `unicode_string` reads back, through the reader's
/// `unicode_string`, as the text that was written, and the reader ends where
/// the writer did — for text that does not itself end in NULs, which the
/// reader drops, and whose length fits the count.
pub proof fn law_unicode_string_round_trip(text: Seq<char>, rest: Seq<u8>)
    requires
        text.len() == 0 || text.last() != '\0',
        utf16_encode(text).len() + 1 <= u32::MAX,
    ensures
        unicode_at(unicode_bytes(text) + rest, 0) == Some::<(Seq<char>, int)>(
            (text, unicode_bytes(text).len() as int),
        ),
{
    let units = utf16_encode(text).push(0u16);
    let n = units.len();
    let b = unicode_bytes(text);
    let d = b + rest;
    lemma_units_bytes(units);
    lemma_u32_bytes(n as u32);
    assert(d.subrange(0, 4) =~= u32_bytes(n as u32));
    assert(be_u32(d, 0) == be_u32(u32_bytes(n as u32), 0));
    assert(d.subrange(4, 4 + 2 * n as int) =~= units_bytes(units));
    lemma_utf16_decode_concat(text, seq![0u16]);
    assert(utf16_encode(text) + seq![0u16] =~= units);
    assert(seq![0u16].drop_first() =~= Seq::<u16>::empty());
    char_u32_cast('\0', 0u32);
    assert(('\0' as u32) == 0u32);
    assert((0u32 as char) == '\0');
    assert(seq![0u16][0] == 0u16);
    assert(utf16_decode(Seq::<u16>::empty()) == Seq::<char>::empty());
    assert(utf16_decode(seq![0u16]) == seq![(0u16 as u32) as char] + utf16_decode(
        seq![0u16].drop_first(),
    ));
    assert(utf16_decode(seq![0u16]) =~= seq!['\0']);
    assert(text + utf16_decode(seq![0u16]) =~= text.push('\0'));
    lemma_trim_one_nul(text);
}

/// A key written by `key` reads back, through the reader's `key`, as the
/// name's bytes, as long as the name is not empty: an empty name writes a
/// zero length, which reads as a four-character code.
pub proof fn law_key_round_trip(name: Seq<char>, rest: Seq<u8>)
    requires
        0 < encode_utf8(name).len() <= u32::MAX,
    ensures
        key_at(key_bytes(name) + rest, 0) == Some::<(Seq<u8>, int)>(
            (encode_utf8(name), key_bytes(name).len() as int),
        ),
{
    let b = encode_utf8(name);
    let d = key_bytes(name) + rest;
    let n = if b.len() == 4 {
        0u32
    } else {
        b.len() as u32
    };
    lemma_u32_bytes(n);
    assert(d.subrange(0, 4) =~= u32_bytes(n));
    assert(be_u32(d, 0) == be_u32(u32_bytes(n), 0));
    assert(d.subrange(4, 4 + b.len() as int) =~= b);
}


// ---------------------------------------------------------------------------
// EngineData
// ---------------------------------------------------------------------------

/// `n` tabs.
pub open spec fn tabs(n: nat) -> Seq<u8> {
    Seq::new(n, |i: int| 9u8)
}

/// One line of the dump: indented by `depth` tabs, ended by a newline.
pub open spec fn line_bytes(depth: nat, text: Seq<char>) -> Seq<u8> {
    tabs(depth) + encode_utf8(text) + seq![10u8]
}

/// Assembles the EngineData dump line by line as raw bytes, because string
/// values are binary UTF-16 inside parentheses — not printable text.
pub struct Dump {
    pub out: Vec<u8>,
}

impl Dump {
    pub fn new() -> (d: Dump)
        ensures
            d.out@ == seq![10u8, 10u8],
    {
        let mut out: Vec<u8> = Vec::new();
        out.push(10);
        out.push(10);
        Dump { out }
    }

    fn indent(&mut self, depth: usize)
        ensures
            final(self).out@ == old(self).out@ + tabs(depth as nat),
    {
        let mut k: usize = 0;
        while k < depth
            invariant
                k <= depth,
                self.out@ =~= old(self).out@ + tabs(k as nat),
            decreases depth - k,
        {
            self.out.push(9);
            k = k + 1;
        }
    }

    pub fn line(&mut self, depth: usize, text: &str)
        ensures
            final(self).out@ == old(self).out@ + line_bytes(depth as nat, text@),
    {
        self.indent(depth);
        push_bytes(&mut self.out, text.as_bytes());
        self.out.push(10);
        assert(self.out@ =~= old(self).out@ + line_bytes(depth as nat, text@));
    }

    pub fn open(&mut self, depth: usize, name: &str)
        ensures
            final(self).out@ == old(self).out@ + line_bytes(depth as nat, name@) + line_bytes(
                depth as nat,
                "<<"@,
            ),
    {
        self.line(depth, name);
        self.line(depth, "<<");
    }

    pub fn close(&mut self, depth: usize)
        ensures
            final(self).out@ == old(self).out@ + line_bytes(depth as nat, ">>"@),
    {
        self.line(depth, ">>");
    }
}

/// A byte of a string value, escaped: parentheses and backslashes get a
/// backslash in front, so they do not end the string early.
pub open spec fn escaped_byte(b: u8) -> Seq<u8> {
    if b == 40 || b == 41 || b == 92 {
        seq![92u8, b]
    } else {
        seq![b]
    }
}

pub open spec fn escaped(b: Seq<u8>) -> Seq<u8>
    decreases b.len(),
{
    if b.len() == 0 {
        seq![]
    } else {
        escaped(b.drop_last()) + escaped_byte(b.last())
    }
}

/// A string as EngineData writes one: UTF-16BE inside parentheses, behind a
/// byte-order mark, with the bytes that would end it escaped.
pub open spec fn engine_string(text: Seq<char>) -> Seq<u8> {
    seq![40u8, 0xFEu8, 0xFFu8] + escaped(units_bytes(utf16_encode(text))) + seq![41u8]
}

proof fn lemma_units_bytes_len(units: Seq<u16>, i: int)
    requires
        0 <= i < units.len(),
    ensures
        units_bytes(units.subrange(0, i + 1)) == units_bytes(units.subrange(0, i)) + u16_bytes(
            units[i],
        ),
{
    lemma_units_bytes_push(units.subrange(0, i), units[i]);
    assert(units.subrange(0, i + 1) =~= units.subrange(0, i).push(units[i]));
}

/// A string as EngineData writes one: UTF-16BE inside parentheses, behind a
/// byte-order mark. Writes raw binary bytes, which is what Photoshop does and
/// what the reader expects.
pub fn engine_string_bytes(text: &str) -> (out: Vec<u8>)
    ensures
        out@ == engine_string(text@),
{
    let mut out: Vec<u8> = Vec::new();
    out.push(40);
    out.push(0xFE);
    out.push(0xFF);
    let units = encode_utf16(text);
    let ghost all = units_bytes(units@);
    let mut i: usize = 0;
    while i < units.len()
        invariant
            i <= units@.len(),
            out@ == seq![40u8, 0xFEu8, 0xFFu8] + escaped(units_bytes(units@.subrange(0, i as int))),
        decreases units@.len() - i,
    {
        let unit = units[i];
        let pair: [u8; 2] = [(unit / 256) as u8, (unit % 256) as u8];
        let ghost before = units_bytes(units@.subrange(0, i as int));
        proof {
            lemma_units_bytes_len(units@, i as int);
        }
        let mut k: usize = 0;
        while k < 2
            invariant
                k <= 2,
                i < units@.len(),
                pair@ == u16_bytes(unit),
                out@ == seq![40u8, 0xFEu8, 0xFFu8] + escaped(before + pair@.subrange(0, k as int)),
            decreases 2 - k,
        {
            let byte = pair[k];
            if byte == 40 || byte == 41 || byte == 92 {
                out.push(92);
            }
            out.push(byte);
            proof {
                let upto = before + pair@.subrange(0, k + 1);
                assert(upto.drop_last() =~= before + pair@.subrange(0, k as int));
                assert(upto.last() == byte);
            }
            assert(out@ =~= seq![40u8, 0xFEu8, 0xFFu8] + escaped(before + pair@.subrange(0, k + 1)));
            k = k + 1;
        }
        assert(before + pair@.subrange(0, 2) =~= units_bytes(units@.subrange(0, i + 1)));
        i = i + 1;
    }
    assert(units@.subrange(0, units@.len() as int) =~= units@);
    out.push(41);
    out
}

/// A line like `/Text (...)` where the value is a binary UTF-16 string.
pub open spec fn engine_string_line_bytes(depth: nat, key: Seq<char>, text: Seq<char>) -> Seq<u8> {
    tabs(depth) + encode_utf8(key) + seq![32u8] + engine_string(text) + seq![10u8]
}

/// Write a line like `/Text (...)` where the value is a binary UTF-16 string.
pub fn engine_string_line(d: &mut Dump, depth: usize, key: &str, text: &str)
    ensures
        final(d).out@ == old(d).out@ + engine_string_line_bytes(depth as nat, key@, text@),
{
    d.indent(depth);
    push_bytes(&mut d.out, key.as_bytes());
    d.out.push(32);
    let value = engine_string_bytes(text);
    push_bytes(&mut d.out, value.as_slice());
    d.out.push(10);
    assert(d.out@ =~= old(d).out@ + engine_string_line_bytes(depth as nat, key@, text@));
}


/// Appending one more piece to what was written after `base`.
pub proof fn lemma_grow(base: Seq<u8>, acc: Seq<u8>, piece: Seq<u8>, before: Seq<u8>)
    requires
        before == base + acc,
    ensures
        before + piece == base + (acc + piece),
{
    assert(before + piece =~= base + (acc + piece));
}

/// A paragraph sheet: the justification, then the settings every paragraph here shares.
#[verifier::opaque]
pub open spec fn paragraph_sheet_bytes(depth: nat, justification: u8) -> Seq<u8> {
    line_bytes(depth as nat, "/ParagraphSheet"@)
        + line_bytes(depth as nat, "<<"@)
        + line_bytes((depth + 1) as nat, "/DefaultStyleSheet 0"@)
        + line_bytes((depth + 1) as nat, "/Properties"@)
        + line_bytes((depth + 1) as nat, "<<"@)
        + line_bytes((depth + 2) as nat, "/Justification "@ + decimal(justification as nat))
        + line_bytes((depth + 2) as nat, "/FirstLineIndent 0.0"@)
        + line_bytes((depth + 2) as nat, "/StartIndent 0.0"@)
        + line_bytes((depth + 2) as nat, "/EndIndent 0.0"@)
        + line_bytes((depth + 2) as nat, "/SpaceBefore 0.0"@)
        + line_bytes((depth + 2) as nat, "/SpaceAfter 0.0"@)
        + line_bytes((depth + 2) as nat, "/AutoHyphenate true"@)
        + line_bytes((depth + 2) as nat, "/HyphenatedWordSize 6"@)
        + line_bytes((depth + 2) as nat, "/PreHyphen 2"@)
        + line_bytes((depth + 2) as nat, "/PostHyphen 3"@)
        + line_bytes((depth + 2) as nat, "/ConsecutiveHyphens 8"@)
        + line_bytes((depth + 2) as nat, "/Zone 36.0"@)
        + line_bytes((depth + 2) as nat, "/WordSpacing [ .8 1.0 1.33 ]"@)
        + line_bytes((depth + 2) as nat, "/LetterSpacing [ 0.0 0.0 0.0 ]"@)
        + line_bytes((depth + 2) as nat, "/GlyphSpacing [ 1.0 1.0 1.0 ]"@)
        + line_bytes((depth + 2) as nat, "/AutoLeading 1.2"@)
        + line_bytes((depth + 2) as nat, "/LeadingType 0"@)
        + line_bytes((depth + 2) as nat, "/Hanging false"@)
        + line_bytes((depth + 2) as nat, "/Burasagari false"@)
        + line_bytes((depth + 2) as nat, "/KinsokuOrder 0"@)
        + line_bytes((depth + 2) as nat, "/EveryLineComposer false"@)
        + line_bytes((depth + 1) as nat, ">>"@)
        + line_bytes(depth as nat, ">>"@)
        + line_bytes(depth as nat, "/Adjustments"@)
        + line_bytes(depth as nat, "<<"@)
        + line_bytes((depth + 1) as nat, "/Axis [ 1.0 0.0 1.0 ]"@)
        + line_bytes((depth + 1) as nat, "/XY [ 0.0 0.0 ]"@)
        + line_bytes(depth as nat, ">>"@)
}

#[verifier::spinoff_prover]
pub fn write_paragraph_sheet(d: &mut Dump, depth: usize, justification: u8)
    requires
        depth + 2 <= usize::MAX,
    ensures
        final(d).out@ == old(d).out@ + paragraph_sheet_bytes(depth as nat, justification),
{
    let ghost base = d.out@;
    let ghost acc = Seq::<u8>::empty();
    assert(base == base + acc);
    let ghost before = d.out@;
    d.open(depth, "/ParagraphSheet");
    proof {
        lemma_grow(base, acc, line_bytes(depth as nat, "/ParagraphSheet"@), before);
        lemma_grow(base, acc + line_bytes(depth as nat, "/ParagraphSheet"@), line_bytes(depth as nat, "<<"@), before + line_bytes(depth as nat, "/ParagraphSheet"@));
    }
    let ghost acc = acc + line_bytes(depth as nat, "/ParagraphSheet"@) + line_bytes(depth as nat, "<<"@);
    let ghost before = d.out@;
    d.line(depth + 1, "/DefaultStyleSheet 0");
    proof { lemma_grow(base, acc, line_bytes((depth + 1) as nat, "/DefaultStyleSheet 0"@), before); }
    let ghost acc = acc + line_bytes((depth + 1) as nat, "/DefaultStyleSheet 0"@);
    let ghost before = d.out@;
    d.open(depth + 1, "/Properties");
    proof {
        lemma_grow(base, acc, line_bytes((depth + 1) as nat, "/Properties"@), before);
        lemma_grow(base, acc + line_bytes((depth + 1) as nat, "/Properties"@), line_bytes((depth + 1) as nat, "<<"@), before + line_bytes((depth + 1) as nat, "/Properties"@));
    }
    let ghost acc = acc + line_bytes((depth + 1) as nat, "/Properties"@) + line_bytes((depth + 1) as nat, "<<"@);
    let ghost before = d.out@;
    let mut just = String::from_str("/Justification ");
    push_decimal(&mut just, justification as u64);
    d.line(depth + 2, just.as_str());
    proof { lemma_grow(base, acc, line_bytes((depth + 2) as nat, "/Justification "@ + decimal(justification as nat)), before); }
    let ghost acc = acc + line_bytes((depth + 2) as nat, "/Justification "@ + decimal(justification as nat));
    let ghost before = d.out@;
    d.line(depth + 2, "/FirstLineIndent 0.0");
    proof { lemma_grow(base, acc, line_bytes((depth + 2) as nat, "/FirstLineIndent 0.0"@), before); }
    let ghost acc = acc + line_bytes((depth + 2) as nat, "/FirstLineIndent 0.0"@);
    let ghost before = d.out@;
    d.line(depth + 2, "/StartIndent 0.0");
    proof { lemma_grow(base, acc, line_bytes((depth + 2) as nat, "/StartIndent 0.0"@), before); }
    let ghost acc = acc + line_bytes((depth + 2) as nat, "/StartIndent 0.0"@);
    let ghost before = d.out@;
    d.line(depth + 2, "/EndIndent 0.0");
    proof { lemma_grow(base, acc, line_bytes((depth + 2) as nat, "/EndIndent 0.0"@), before); }
    let ghost acc = acc + line_bytes((depth + 2) as nat, "/EndIndent 0.0"@);
    let ghost before = d.out@;
    d.line(depth + 2, "/SpaceBefore 0.0");
    proof { lemma_grow(base, acc, line_bytes((depth + 2) as nat, "/SpaceBefore 0.0"@), before); }
    let ghost acc = acc + line_bytes((depth + 2) as nat, "/SpaceBefore 0.0"@);
    let ghost before = d.out@;
    d.line(depth + 2, "/SpaceAfter 0.0");
    proof { lemma_grow(base, acc, line_bytes((depth + 2) as nat, "/SpaceAfter 0.0"@), before); }
    let ghost acc = acc + line_bytes((depth + 2) as nat, "/SpaceAfter 0.0"@);
    let ghost before = d.out@;
    d.line(depth + 2, "/AutoHyphenate true");
    proof { lemma_grow(base, acc, line_bytes((depth + 2) as nat, "/AutoHyphenate true"@), before); }
    let ghost acc = acc + line_bytes((depth + 2) as nat, "/AutoHyphenate true"@);
    let ghost before = d.out@;
    d.line(depth + 2, "/HyphenatedWordSize 6");
    proof { lemma_grow(base, acc, line_bytes((depth + 2) as nat, "/HyphenatedWordSize 6"@), before); }
    let ghost acc = acc + line_bytes((depth + 2) as nat, "/HyphenatedWordSize 6"@);
    let ghost before = d.out@;
    d.line(depth + 2, "/PreHyphen 2");
    proof { lemma_grow(base, acc, line_bytes((depth + 2) as nat, "/PreHyphen 2"@), before); }
    let ghost acc = acc + line_bytes((depth + 2) as nat, "/PreHyphen 2"@);
    let ghost before = d.out@;
    d.line(depth + 2, "/PostHyphen 3");
    proof { lemma_grow(base, acc, line_bytes((depth + 2) as nat, "/PostHyphen 3"@), before); }
    let ghost acc = acc + line_bytes((depth + 2) as nat, "/PostHyphen 3"@);
    let ghost before = d.out@;
    d.line(depth + 2, "/ConsecutiveHyphens 8");
    proof { lemma_grow(base, acc, line_bytes((depth + 2) as nat, "/ConsecutiveHyphens 8"@), before); }
    let ghost acc = acc + line_bytes((depth + 2) as nat, "/ConsecutiveHyphens 8"@);
    let ghost before = d.out@;
    d.line(depth + 2, "/Zone 36.0");
    proof { lemma_grow(base, acc, line_bytes((depth + 2) as nat, "/Zone 36.0"@), before); }
    let ghost acc = acc + line_bytes((depth + 2) as nat, "/Zone 36.0"@);
    let ghost before = d.out@;
    d.line(depth + 2, "/WordSpacing [ .8 1.0 1.33 ]");
    proof { lemma_grow(base, acc, line_bytes((depth + 2) as nat, "/WordSpacing [ .8 1.0 1.33 ]"@), before); }
    let ghost acc = acc + line_bytes((depth + 2) as nat, "/WordSpacing [ .8 1.0 1.33 ]"@);
    let ghost before = d.out@;
    d.line(depth + 2, "/LetterSpacing [ 0.0 0.0 0.0 ]");
    proof { lemma_grow(base, acc, line_bytes((depth + 2) as nat, "/LetterSpacing [ 0.0 0.0 0.0 ]"@), before); }
    let ghost acc = acc + line_bytes((depth + 2) as nat, "/LetterSpacing [ 0.0 0.0 0.0 ]"@);
    let ghost before = d.out@;
    d.line(depth + 2, "/GlyphSpacing [ 1.0 1.0 1.0 ]");
    proof { lemma_grow(base, acc, line_bytes((depth + 2) as nat, "/GlyphSpacing [ 1.0 1.0 1.0 ]"@), before); }
    let ghost acc = acc + line_bytes((depth + 2) as nat, "/GlyphSpacing [ 1.0 1.0 1.0 ]"@);
    let ghost before = d.out@;
    d.line(depth + 2, "/AutoLeading 1.2");
    proof { lemma_grow(base, acc, line_bytes((depth + 2) as nat, "/AutoLeading 1.2"@), before); }
    let ghost acc = acc + line_bytes((depth + 2) as nat, "/AutoLeading 1.2"@);
    let ghost before = d.out@;
    d.line(depth + 2, "/LeadingType 0");
    proof { lemma_grow(base, acc, line_bytes((depth + 2) as nat, "/LeadingType 0"@), before); }
    let ghost acc = acc + line_bytes((depth + 2) as nat, "/LeadingType 0"@);
    let ghost before = d.out@;
    d.line(depth + 2, "/Hanging false");
    proof { lemma_grow(base, acc, line_bytes((depth + 2) as nat, "/Hanging false"@), before); }
    let ghost acc = acc + line_bytes((depth + 2) as nat, "/Hanging false"@);
    let ghost before = d.out@;
    d.line(depth + 2, "/Burasagari false");
    proof { lemma_grow(base, acc, line_bytes((depth + 2) as nat, "/Burasagari false"@), before); }
    let ghost acc = acc + line_bytes((depth + 2) as nat, "/Burasagari false"@);
    let ghost before = d.out@;
    d.line(depth + 2, "/KinsokuOrder 0");
    proof { lemma_grow(base, acc, line_bytes((depth + 2) as nat, "/KinsokuOrder 0"@), before); }
    let ghost acc = acc + line_bytes((depth + 2) as nat, "/KinsokuOrder 0"@);
    let ghost before = d.out@;
    d.line(depth + 2, "/EveryLineComposer false");
    proof { lemma_grow(base, acc, line_bytes((depth + 2) as nat, "/EveryLineComposer false"@), before); }
    let ghost acc = acc + line_bytes((depth + 2) as nat, "/EveryLineComposer false"@);
    let ghost before = d.out@;
    d.close(depth + 1);
    proof { lemma_grow(base, acc, line_bytes((depth + 1) as nat, ">>"@), before); }
    let ghost acc = acc + line_bytes((depth + 1) as nat, ">>"@);
    let ghost before = d.out@;
    d.close(depth);
    proof { lemma_grow(base, acc, line_bytes(depth as nat, ">>"@), before); }
    let ghost acc = acc + line_bytes(depth as nat, ">>"@);
    let ghost before = d.out@;
    d.open(depth, "/Adjustments");
    proof {
        lemma_grow(base, acc, line_bytes(depth as nat, "/Adjustments"@), before);
        lemma_grow(base, acc + line_bytes(depth as nat, "/Adjustments"@), line_bytes(depth as nat, "<<"@), before + line_bytes(depth as nat, "/Adjustments"@));
    }
    let ghost acc = acc + line_bytes(depth as nat, "/Adjustments"@) + line_bytes(depth as nat, "<<"@);
    let ghost before = d.out@;
    d.line(depth + 1, "/Axis [ 1.0 0.0 1.0 ]");
    proof { lemma_grow(base, acc, line_bytes((depth + 1) as nat, "/Axis [ 1.0 0.0 1.0 ]"@), before); }
    let ghost acc = acc + line_bytes((depth + 1) as nat, "/Axis [ 1.0 0.0 1.0 ]"@);
    let ghost before = d.out@;
    d.line(depth + 1, "/XY [ 0.0 0.0 ]");
    proof { lemma_grow(base, acc, line_bytes((depth + 1) as nat, "/XY [ 0.0 0.0 ]"@), before); }
    let ghost acc = acc + line_bytes((depth + 1) as nat, "/XY [ 0.0 0.0 ]"@);
    let ghost before = d.out@;
    d.close(depth);
    proof { lemma_grow(base, acc, line_bytes(depth as nat, ">>"@), before); }
    let ghost acc = acc + line_bytes(depth as nat, ">>"@);
    reveal(paragraph_sheet_bytes);
    assert(d.out@ == base + acc);
}

/// The grid settings, which say there is no grid.
#[verifier::opaque]
pub open spec fn grid_info_bytes() -> Seq<u8> {
    line_bytes(2nat, "/GridInfo"@)
        + line_bytes(2nat, "<<"@)
        + line_bytes(3nat, "/GridIsOn false"@)
        + line_bytes(3nat, "/ShowGrid false"@)
        + line_bytes(3nat, "/GridSize 18.0"@)
        + line_bytes(3nat, "/GridLeading 22.0"@)
        + line_bytes(3nat, "/GridColor"@)
        + line_bytes(3nat, "<<"@)
        + line_bytes(4nat, "/Type 1"@)
        + line_bytes(4nat, "/Values [ 0.0 0.0 0.0 1.0 ]"@)
        + line_bytes(3nat, ">>"@)
        + line_bytes(3nat, "/GridLeadingFillColor"@)
        + line_bytes(3nat, "<<"@)
        + line_bytes(4nat, "/Type 1"@)
        + line_bytes(4nat, "/Values [ 0.0 0.0 0.0 1.0 ]"@)
        + line_bytes(3nat, ">>"@)
        + line_bytes(3nat, "/AlignLineHeightToGridFlags false"@)
        + line_bytes(2nat, ">>"@)
}

#[verifier::spinoff_prover]
pub fn write_grid_info(d: &mut Dump)
    ensures
        final(d).out@ == old(d).out@ + grid_info_bytes(),
{
    let ghost base = d.out@;
    let ghost acc = Seq::<u8>::empty();
    assert(base == base + acc);
    let ghost before = d.out@;
    d.open(2, "/GridInfo");
    proof {
        lemma_grow(base, acc, line_bytes(2nat, "/GridInfo"@), before);
        lemma_grow(base, acc + line_bytes(2nat, "/GridInfo"@), line_bytes(2nat, "<<"@), before + line_bytes(2nat, "/GridInfo"@));
    }
    let ghost acc = acc + line_bytes(2nat, "/GridInfo"@) + line_bytes(2nat, "<<"@);
    let ghost before = d.out@;
    d.line(3, "/GridIsOn false");
    proof { lemma_grow(base, acc, line_bytes(3nat, "/GridIsOn false"@), before); }
    let ghost acc = acc + line_bytes(3nat, "/GridIsOn false"@);
    let ghost before = d.out@;
    d.line(3, "/ShowGrid false");
    proof { lemma_grow(base, acc, line_bytes(3nat, "/ShowGrid false"@), before); }
    let ghost acc = acc + line_bytes(3nat, "/ShowGrid false"@);
    let ghost before = d.out@;
    d.line(3, "/GridSize 18.0");
    proof { lemma_grow(base, acc, line_bytes(3nat, "/GridSize 18.0"@), before); }
    let ghost acc = acc + line_bytes(3nat, "/GridSize 18.0"@);
    let ghost before = d.out@;
    d.line(3, "/GridLeading 22.0");
    proof { lemma_grow(base, acc, line_bytes(3nat, "/GridLeading 22.0"@), before); }
    let ghost acc = acc + line_bytes(3nat, "/GridLeading 22.0"@);
    let ghost before = d.out@;
    d.open(3, "/GridColor");
    proof {
        lemma_grow(base, acc, line_bytes(3nat, "/GridColor"@), before);
        lemma_grow(base, acc + line_bytes(3nat, "/GridColor"@), line_bytes(3nat, "<<"@), before + line_bytes(3nat, "/GridColor"@));
    }
    let ghost acc = acc + line_bytes(3nat, "/GridColor"@) + line_bytes(3nat, "<<"@);
    let ghost before = d.out@;
    d.line(4, "/Type 1");
    proof { lemma_grow(base, acc, line_bytes(4nat, "/Type 1"@), before); }
    let ghost acc = acc + line_bytes(4nat, "/Type 1"@);
    let ghost before = d.out@;
    d.line(4, "/Values [ 0.0 0.0 0.0 1.0 ]");
    proof { lemma_grow(base, acc, line_bytes(4nat, "/Values [ 0.0 0.0 0.0 1.0 ]"@), before); }
    let ghost acc = acc + line_bytes(4nat, "/Values [ 0.0 0.0 0.0 1.0 ]"@);
    let ghost before = d.out@;
    d.close(3);
    proof { lemma_grow(base, acc, line_bytes(3nat, ">>"@), before); }
    let ghost acc = acc + line_bytes(3nat, ">>"@);
    let ghost before = d.out@;
    d.open(3, "/GridLeadingFillColor");
    proof {
        lemma_grow(base, acc, line_bytes(3nat, "/GridLeadingFillColor"@), before);
        lemma_grow(base, acc + line_bytes(3nat, "/GridLeadingFillColor"@), line_bytes(3nat, "<<"@), before + line_bytes(3nat, "/GridLeadingFillColor"@));
    }
    let ghost acc = acc + line_bytes(3nat, "/GridLeadingFillColor"@) + line_bytes(3nat, "<<"@);
    let ghost before = d.out@;
    d.line(4, "/Type 1");
    proof { lemma_grow(base, acc, line_bytes(4nat, "/Type 1"@), before); }
    let ghost acc = acc + line_bytes(4nat, "/Type 1"@);
    let ghost before = d.out@;
    d.line(4, "/Values [ 0.0 0.0 0.0 1.0 ]");
    proof { lemma_grow(base, acc, line_bytes(4nat, "/Values [ 0.0 0.0 0.0 1.0 ]"@), before); }
    let ghost acc = acc + line_bytes(4nat, "/Values [ 0.0 0.0 0.0 1.0 ]"@);
    let ghost before = d.out@;
    d.close(3);
    proof { lemma_grow(base, acc, line_bytes(3nat, ">>"@), before); }
    let ghost acc = acc + line_bytes(3nat, ">>"@);
    let ghost before = d.out@;
    d.line(3, "/AlignLineHeightToGridFlags false");
    proof { lemma_grow(base, acc, line_bytes(3nat, "/AlignLineHeightToGridFlags false"@), before); }
    let ghost acc = acc + line_bytes(3nat, "/AlignLineHeightToGridFlags false"@);
    let ghost before = d.out@;
    d.close(2);
    proof { lemma_grow(base, acc, line_bytes(2nat, ">>"@), before); }
    let ghost acc = acc + line_bytes(2nat, ">>"@);
    reveal(grid_info_bytes);
    assert(d.out@ == base + acc);
}


// ---------------------------------------------------------------------------
// Fonts, strings and numbers
// ---------------------------------------------------------------------------

/// The UTF-16 length of `text`, which is what EngineData counts characters in.
pub fn utf16_len(text: &str) -> (n: usize)
    ensures
        n == utf16_encode(text@).len(),
{
    encode_utf16(text).len()
}

/// Reading text left to right: the lengths of the paragraphs closed so far,
/// each up to and including its carriage return, and the length of the one
/// still open.
pub open spec fn runs(s: Seq<char>) -> (Seq<int>, int)
    decreases s.len(),
{
    if s.len() == 0 {
        (seq![], 0)
    } else {
        let (closed, open) = runs(s.drop_last());
        let grown = open + utf16_of(s.last()).len();
        if s.last() == '\r' {
            (closed.push(grown), 0)
        } else {
            (closed, grown)
        }
    }
}

/// How many UTF-16 units each paragraph of `s` is: a paragraph runs up to
/// and including its carriage return, and text after the last one, or an
/// empty text, is one more.
pub open spec fn paragraphs(s: Seq<char>) -> Seq<int> {
    let (closed, open) = runs(s);
    if open > 0 || closed.len() == 0 {
        closed.push(open)
    } else {
        closed
    }
}

/// The sum of `v`.
pub open spec fn total(v: Seq<int>) -> int
    decreases v.len(),
{
    if v.len() == 0 {
        0
    } else {
        total(v.drop_last()) + v.last()
    }
}

/// How many characters a paragraph is, one per paragraph in `body`.
///
/// A paragraph runs up to and including its carriage return, so the lengths add
/// up to the whole string — which is the property Photoshop checks.
pub fn paragraph_lengths(body: &str) -> (lengths: Vec<usize>)
    requires
        body@.len() <= usize::MAX / 2,
    ensures
        lengths@.map_values(|v: usize| v as int) == paragraphs(body@),
{
    let n = body.unicode_len();
    let mut lengths: Vec<usize> = Vec::new();
    let mut current: usize = 0;
    let mut i: usize = 0;
    while i < n
        invariant
            n == body@.len(),
            n <= usize::MAX / 2,
            i <= n,
            current <= 2 * i,
            runs(body@.subrange(0, i as int)) == (
                lengths@.map_values(|v: usize| v as int),
                current as int,
            ),
        decreases n - i,
    {
        let c = body.get_char(i);
        assert(body@.subrange(0, i + 1).drop_last() =~= body@.subrange(0, i as int));
        let mut units: Vec<u16> = Vec::new();
        crate::chars::push_utf16(&mut units, c);
        current = current + units.len();
        if c == '\r' {
            lengths.push(current);
            current = 0;
        }
        assert(lengths@.map_values(|v: usize| v as int) =~= runs(body@.subrange(0, i + 1)).0);
        i = i + 1;
    }
    assert(body@.subrange(0, n as int) =~= body@);
    if current > 0 || lengths.len() == 0 {
        lengths.push(current);
    }
    assert(lengths@.map_values(|v: usize| v as int) =~= paragraphs(body@));
    lengths
}

proof fn lemma_utf16_encode_push(s: Seq<char>, c: char)
    ensures
        utf16_encode(s.push(c)) == utf16_encode(s) + utf16_of(c),
    decreases s.len(),
{
    if s.len() == 0 {
        assert(s.push(c).drop_first() =~= Seq::<char>::empty());
        assert(utf16_encode(Seq::<char>::empty()) == Seq::<u16>::empty());
        assert(utf16_encode(s.push(c)) == utf16_of(s.push(c)[0]) + utf16_encode(s.push(c).drop_first()));
        assert(utf16_encode(s.push(c)) =~= utf16_of(c));
    } else {
        lemma_utf16_encode_push(s.drop_first(), c);
        assert(s.push(c).drop_first() =~= s.drop_first().push(c));
        assert(utf16_encode(s.push(c)) =~= utf16_encode(s) + utf16_of(c));
    }
}

proof fn lemma_runs_total(s: Seq<char>)
    ensures
        total(runs(s).0) + runs(s).1 == utf16_encode(s).len(),
        runs(s).1 >= 0,
    decreases s.len(),
{
    if s.len() > 0 {
        lemma_runs_total(s.drop_last());
        lemma_utf16_encode_push(s.drop_last(), s.last());
        assert(s.drop_last().push(s.last()) =~= s);
        let (closed, _) = runs(s.drop_last());
        if s.last() == '\r' {
            assert(closed.push(runs(s).0.last()).drop_last() =~= closed);
        }
    }
}

/// The paragraph lengths add up to the length of the text, counted in UTF-16
/// units — the property Photoshop checks before it accepts the run arrays.
pub proof fn law_paragraph_lengths_add_up(s: Seq<char>)
    ensures
        total(paragraphs(s)) == utf16_encode(s).len(),
{
    lemma_runs_total(s);
    let (closed, open) = runs(s);
    if open > 0 || closed.len() == 0 {
        assert(closed.push(open).drop_last() =~= closed);
    }
}

/// Numbers in decimal with single spaces between them.
pub open spec fn joined(values: Seq<usize>) -> Seq<char>
    decreases values.len(),
{
    if values.len() == 0 {
        seq![]
    } else if values.len() == 1 {
        decimal(values[0] as nat)
    } else {
        joined(values.drop_last()) + seq![' '] + decimal(values.last() as nat)
    }
}

pub fn join_numbers(values: &[usize]) -> (s: String)
    ensures
        s@ == joined(values@),
{
    let mut s = String::new();
    let mut i: usize = 0;
    while i < values.len()
        invariant
            i <= values@.len(),
            s@ == joined(values@.subrange(0, i as int)),
        decreases values@.len() - i,
    {
        assert(values@.subrange(0, i + 1).drop_last() =~= values@.subrange(0, i as int));
        if i > 0 {
            push_char(&mut s, ' ');
        }
        push_decimal(&mut s, values[i] as u64);
        i = i + 1;
    }
    assert(values@.subrange(0, values@.len() as int) =~= values@);
    s
}

/// `s` without its white space.
pub open spec fn without_white(s: Seq<char>) -> Seq<char>
    decreases s.len(),
{
    if s.len() == 0 {
        s
    } else {
        without_white(s.drop_last()) + if white_space(s.last()) {
            Seq::<char>::empty()
        } else {
            seq![s.last()]
        }
    }
}

/// `c` with an ASCII capital made small.
pub open spec fn ascii_lower(c: char) -> char {
    if 'A' <= c && c <= 'Z' {
        ((c as u32) + 32) as char
    } else {
        c
    }
}

/// Whether `s` says `regular`, ignoring ASCII case.
pub open spec fn says_regular(s: Seq<char>) -> bool {
    s.len() == 7 && forall|i: int|
        0 <= i < 7 ==> ascii_lower(s[i]) == seq!['r', 'e', 'g', 'u', 'l', 'a', 'r'][i]
}

/// A family and style as one PostScript name: the family run together,
/// `Helvetica` if that leaves nothing, then a hyphen and the style run
/// together, unless the style is empty or Regular.
pub open spec fn postscript_of(family: Seq<char>, style: Seq<char>) -> Seq<char> {
    let f = without_white(family);
    let f = if f.len() == 0 {
        "Helvetica"@
    } else {
        f
    };
    let s = without_white(style);
    if s.len() == 0 || says_regular(s) {
        f
    } else {
        f + seq!['-'] + s
    }
}

/// `text` with its white space dropped.
fn run_together(text: &str) -> (r: String)
    ensures
        r@ == without_white(text@),
{
    let n = text.unicode_len();
    let mut r = String::new();
    let mut i: usize = 0;
    while i < n
        invariant
            n == text@.len(),
            i <= n,
            r@ == without_white(text@.subrange(0, i as int)),
        decreases n - i,
    {
        let c = text.get_char(i);
        assert(text@.subrange(0, i + 1).drop_last() =~= text@.subrange(0, i as int));
        if !is_white_space(c) {
            push_char(&mut r, c);
        }
        assert(r@ =~= without_white(text@.subrange(0, i + 1)));
        i = i + 1;
    }
    assert(text@.subrange(0, n as int) =~= text@);
    r
}

fn is_regular(style: &String) -> (r: bool)
    ensures
        r == says_regular(style@),
{
    let want: [char; 7] = ['r', 'e', 'g', 'u', 'l', 'a', 'r'];
    assert(want@ == seq!['r', 'e', 'g', 'u', 'l', 'a', 'r']);
    if style.as_str().unicode_len() != 7 {
        return false;
    }
    let mut i: usize = 0;
    while i < 7
        invariant
            style@.len() == 7,
            want@ == seq!['r', 'e', 'g', 'u', 'l', 'a', 'r'],
            i <= 7,
            forall|k: int| 0 <= k < i ==> ascii_lower(style@[k]) == want@[k],
        decreases 7 - i,
    {
        let c = style.as_str().get_char(i);
        let lower = if 'A' <= c && c <= 'Z' {
            ((c as u32) + 32) as u8 as char
        } else {
            c
        };
        assert(lower == ascii_lower(c)) by {
            if 'A' <= c && c <= 'Z' {
                assert(((c as u32) + 32) as u8 as char == ((c as u32) + 32) as char);
            }
        }
        if lower != want[i] {
            return false;
        }
        i = i + 1;
    }
    true
}

/// A family and style written as one PostScript name: `Georgia` + `Bold` gives
/// `Georgia-Bold`.
///
/// The inverse of the reader's `split_postscript_name`, and a heuristic in the
/// same way: a family whose real PostScript name is not its display name run
/// together will be substituted on opening, which costs the reopened text its
/// typeface, not its content.
pub fn postscript_name(family: &str, style: &str) -> (name: String)
    ensures
        name@ == postscript_of(family@, style@),
{
    let family = run_together(family);
    let family = if family.as_str().unicode_len() == 0 {
        String::from_str("Helvetica")
    } else {
        family
    };
    let style = run_together(style);
    if style.as_str().unicode_len() == 0 || is_regular(&style) {
        family
    } else {
        let mut name = family;
        push_char(&mut name, '-');
        name.append(style.as_str());
        name
    }
}


proof fn lemma_no_white(s: Seq<char>)
    requires
        forall|i: int| 0 <= i < s.len() ==> !white_space(#[trigger] s[i]),
    ensures
        without_white(s) == s,
    decreases s.len(),
{
    if s.len() > 0 {
        lemma_no_white(s.drop_last());
        assert(s.drop_last().push(s.last()) =~= s);
    }
}

proof fn lemma_dash_after(f: Seq<char>, rest: Seq<char>, i: int)
    requires
        0 <= i <= f.len(),
        forall|k: int| 0 <= k < f.len() ==> #[trigger] f[k] != '-',
    ensures
        dash_from(f + seq!['-'] + rest, i) == Some(f.len() as int),
    decreases f.len() - i,
{
    if i < f.len() {
        lemma_dash_after(f, rest, i + 1);
    }
}

proof fn lemma_no_dash(f: Seq<char>, i: int)
    requires
        0 <= i,
        forall|k: int| 0 <= k < f.len() ==> #[trigger] f[k] != '-',
    ensures
        dash_from(f, i) is None,
    decreases f.len() - i,
{
    if i < f.len() {
        lemma_no_dash(f, i + 1);
    }
}

proof fn lemma_unspaced(s: Seq<char>)
    requires
        forall|i: int| 1 <= i < s.len() ==> !capital(#[trigger] s[i]),
    ensures
        spaced(s) == s,
    decreases s.len(),
{
    if s.len() > 0 {
        lemma_unspaced(s.drop_last());
        assert(s.drop_last().push(s.last()) =~= s);
    }
}

/// A family and a style written as one PostScript name split back into the
/// same family and style, when the family has no white space or hyphen and
/// the style has no white space, is not Regular, and has no capital but its
/// first (which the reader would space out).
pub proof fn law_postscript_name_splits_back(family: Seq<char>, style: Seq<char>)
    requires
        family.len() > 0,
        forall|i: int| 0 <= i < family.len() ==> !white_space(#[trigger] family[i]) && family[i] != '-',
        style.len() > 0,
        forall|i: int| 0 <= i < style.len() ==> !white_space(#[trigger] style[i]),
        !says_regular(style),
        forall|i: int| 1 <= i < style.len() ==> !capital(#[trigger] style[i]),
    ensures
        postscript_parts(postscript_of(family, style)) == (family, style),
{
    lemma_no_white(family);
    lemma_no_white(style);
    let name = family + seq!['-'] + style;
    assert(postscript_of(family, style) == name);
    lemma_dash_after(family, style, 0);
    assert(name.subrange(0, family.len() as int) =~= family);
    assert(name.subrange(family.len() + 1int, name.len() as int) =~= style);
    lemma_unspaced(style);
}

/// A family written with an empty or Regular style comes back as that family
/// and Regular, when the family has no white space or hyphen.
pub proof fn law_regular_name_splits_back(family: Seq<char>, style: Seq<char>)
    requires
        family.len() > 0,
        forall|i: int| 0 <= i < family.len() ==> !white_space(#[trigger] family[i]) && family[i] != '-',
        without_white(style).len() == 0 || says_regular(without_white(style)),
    ensures
        postscript_parts(postscript_of(family, style)) == (family, "Regular"@),
{
    lemma_no_white(family);
    lemma_no_dash(family, 0);
}

} // verus!
