//! Building strings: decimal numbers, appending characters and decoding
//! UTF-8 leniently.

use vstd::prelude::*;
use vstd::string::StrSliceExecFns;
use vstd::utf8::{
    char_is_scalar, char_u32_cast, decode_utf8, encode_utf8, encode_utf8_decode_utf8, valid_utf8,
};

verus! {

/// The decimal digit `d`, for `d < 10`.
pub open spec fn digit(d: nat) -> char {
    (48 + d) as char
}

/// `n` written in decimal, most significant digit first, with no leading zeros.
pub open spec fn decimal(n: nat) -> Seq<char>
    decreases n,
{
    if n < 10 {
        seq![digit(n)]
    } else {
        decimal(n / 10).push(digit(n % 10))
    }
}

/// A decimal numeral has at least one digit.
pub proof fn lemma_decimal_nonempty(n: nat)
    ensures
        decimal(n).len() >= 1,
    decreases n,
{
    if n >= 10 {
        lemma_decimal_nonempty(n / 10);
    }
}

/// Two numbers with the same decimal numeral are the same number.
pub proof fn lemma_decimal_injective(a: nat, b: nat)
    requires
        decimal(a) == decimal(b),
    ensures
        a == b,
    decreases a + b,
{
    if a < 10 && b < 10 {
        assert(decimal(a)[0] == digit(a));
        assert(decimal(b)[0] == digit(b));
    } else if a < 10 {
        lemma_decimal_nonempty(b / 10);
        assert(decimal(b).len() >= 2);
    } else if b < 10 {
        lemma_decimal_nonempty(a / 10);
        assert(decimal(a).len() >= 2);
    } else {
        let da = decimal(a / 10);
        let db = decimal(b / 10);
        assert(decimal(a).last() == digit(a % 10));
        assert(decimal(b).last() == digit(b % 10));
        assert(decimal(a).drop_last() =~= da);
        assert(decimal(b).drop_last() =~= db);
        lemma_decimal_injective(a / 10, b / 10);
    }
}

/// `prefix` followed by `n` in decimal, as in "Layer 3".
pub open spec fn numbered(prefix: Seq<char>, n: nat) -> Seq<char> {
    prefix + decimal(n)
}

/// Different numbers give different numbered names.
pub proof fn lemma_numbered_injective(prefix: Seq<char>, a: nat, b: nat)
    requires
        numbered(prefix, a) == numbered(prefix, b),
    ensures
        a == b,
{
    let x = numbered(prefix, a);
    let y = numbered(prefix, b);
    assert(x.subrange(prefix.len() as int, x.len() as int) =~= decimal(a));
    assert(y.subrange(prefix.len() as int, y.len() as int) =~= decimal(b));
    lemma_decimal_injective(a, b);
}

/// Appends `c` to `s` through `String::push`, which std documents as
/// appending the given char to the end of the string.
#[verifier::external_body]
pub(crate) fn push_char(s: &mut String, c: char)
    ensures
        final(s)@ == old(s)@.push(c),
{
    s.push(c);
}

/// What `String::from_utf8_lossy` makes of `bytes`.
pub uninterp spec fn utf8_lossy(bytes: Seq<u8>) -> Seq<char>;

/// The text `bytes` hold, read leniently: UTF-8 decoded as such, and
/// otherwise what `String::from_utf8_lossy` makes of it.
pub open spec fn lenient_text(bytes: Seq<u8>) -> Seq<char> {
    if valid_utf8(bytes) {
        decode_utf8(bytes)
    } else {
        utf8_lossy(bytes)
    }
}

/// `String::from_utf8_lossy`, made owned: std documents that it decodes the
/// bytes as UTF-8, putting U+FFFD in place of each invalid sequence, so bytes
/// that are valid UTF-8 come back as exactly the characters they encode.
/// Which characters an invalid input gives is named, not stated.
#[verifier::external_body]
pub(crate) fn decode_lossy(bytes: &[u8]) -> (s: String)
    ensures
        s@ == utf8_lossy(bytes@),
        valid_utf8(bytes@) ==> s@ == decode_utf8(bytes@),
{
    String::from_utf8_lossy(bytes).into_owned()
}

/// Appends every character of `tail` to `s`.
pub fn push_chars(s: &mut String, tail: &Vec<char>)
    ensures
        final(s)@ == old(s)@ + tail@,
{
    let mut i: usize = 0;
    while i < tail.len()
        invariant
            i <= tail@.len(),
            s@ == old(s)@ + tail@.subrange(0, i as int),
        decreases tail@.len() - i,
    {
        let ghost before = s@;
        push_char(s, tail[i]);
        assert(s@ =~= old(s)@ + tail@.subrange(0, i + 1));
        i = i + 1;
    }
    assert(tail@.subrange(0, tail@.len() as int) =~= tail@);
}

/// The digits of `n`, most significant first.
pub fn decimal_digits(n: u64) -> (out: Vec<char>)
    ensures
        out@ == decimal(n as nat),
    decreases n,
{
    if n < 10 {
        let d = (48 + n) as u8;
        let mut out: Vec<char> = Vec::new();
        out.push(d as char);
        assert(out@ =~= seq![digit(n as nat)]);
        out
    } else {
        let mut out = decimal_digits(n / 10);
        let d = (48 + n % 10) as u8;
        out.push(d as char);
        out
    }
}

/// Appends `n` in decimal to `s`.
pub fn push_decimal(s: &mut String, n: u64)
    ensures
        final(s)@ == old(s)@ + decimal(n as nat),
{
    let digits = decimal_digits(n);
    push_chars(s, &digits);
}



/// Whether two strings hold the same characters, compared through their
/// UTF-8 bytes.
pub fn same_text(a: &str, b: &str) -> (r: bool)
    ensures
        r == (a@ == b@),
{
    let x = a.as_bytes();
    let y = b.as_bytes();
    proof {
        encode_utf8_decode_utf8(a@);
        encode_utf8_decode_utf8(b@);
    }
    if x.len() != y.len() {
        assert(encode_utf8(a@) != encode_utf8(b@));
        return false;
    }
    let mut i: usize = 0;
    while i < x.len()
        invariant
            x@ == encode_utf8(a@),
            y@ == encode_utf8(b@),
            x@.len() == y@.len(),
            i <= x@.len(),
            forall|k: int| 0 <= k < i ==> x@[k] == y@[k],
        decreases x@.len() - i,
    {
        if x[i] != y[i] {
            return false;
        }
        i = i + 1;
    }
    assert(x@ =~= y@);
    true
}


/// The characters UTF-16 `units` decode to, each unpaired surrogate becoming
/// U+FFFD.
pub open spec fn utf16_decode(units: Seq<u16>) -> Seq<char>
    decreases units.len(),
{
    if units.len() == 0 {
        seq![]
    } else if units[0] < 0xD800 || units[0] > 0xDFFF {
        seq![(units[0] as u32) as char] + utf16_decode(units.drop_first())
    } else if units[0] <= 0xDBFF && units.len() >= 2 && 0xDC00 <= units[1] <= 0xDFFF {
        seq![((0x10000 + (units[0] - 0xD800) * 1024 + (units[1] - 0xDC00)) as u32) as char] + utf16_decode(
            units.subrange(2, units.len() as int),
        )
    } else {
        seq!['\u{FFFD}'] + utf16_decode(units.drop_first())
    }
}

/// The UTF-16 units of one character: itself below U+10000, a surrogate pair
/// above.
pub open spec fn utf16_of(c: char) -> Seq<u16> {
    if (c as u32) < 0x10000 {
        seq![(c as u32) as u16]
    } else {
        seq![
            (0xD800 + (c as u32 - 0x10000) / 1024) as u16,
            (0xDC00 + (c as u32 - 0x10000) % 1024) as u16,
        ]
    }
}

/// The UTF-16 encoding of `s`.
pub open spec fn utf16_encode(s: Seq<char>) -> Seq<u16>
    decreases s.len(),
{
    if s.len() == 0 {
        seq![]
    } else {
        utf16_of(s[0]) + utf16_encode(s.drop_first())
    }
}

/// `char::from_u32`, which std documents as giving the character whose
/// scalar value is `v`, or `None` when `v` is a surrogate or above U+10FFFF.
#[verifier::external_body]
fn char_from(v: u32) -> (r: Option<char>)
    ensures
        (v < 0xD800 || (0xE000 <= v && v <= 0x10FFFF)) ==> r == Some(v as char),
        !(v < 0xD800 || (0xE000 <= v && v <= 0x10FFFF)) ==> r is None,
{
    char::from_u32(v)
}

/// UTF-16 decoded, with U+FFFD in place of each unpaired surrogate, as
/// `String::from_utf16_lossy` decodes it.
pub fn decode_utf16_lossy(units: &[u16]) -> (s: String)
    ensures
        s@ == utf16_decode(units@),
{
    let n = units.len();
    let mut out = String::new();
    let mut i: usize = 0;
    assert(units@.subrange(0, n as int) =~= units@);
    assert(out@ + utf16_decode(units@) =~= utf16_decode(units@));
    while i < n
        invariant
            n == units@.len(),
            i <= n,
            out@ + utf16_decode(units@.subrange(i as int, n as int)) == utf16_decode(units@),
        decreases n - i,
    {
        let ghost rest = units@.subrange(i as int, n as int);
        let u = units[i];
        if u < 0xD800 || u > 0xDFFF {
            let c = char_from(u as u32);
            assert(rest.drop_first() =~= units@.subrange(i + 1, n as int));
            push_char(&mut out, c.unwrap());
            i = i + 1;
        } else if u <= 0xDBFF && i + 1 < n && 0xDC00 <= units[i + 1] && units[i + 1] <= 0xDFFF {
            let v: u32 = 0x10000 + (u as u32 - 0xD800) * 1024 + (units[i + 1] as u32 - 0xDC00);
            let c = char_from(v);
            assert(rest.subrange(2, rest.len() as int) =~= units@.subrange(i + 2, n as int));
            assert(rest[1] == units@[i + 1]);
            push_char(&mut out, c.unwrap());
            i = i + 2;
        } else {
            assert(rest.drop_first() =~= units@.subrange(i + 1, n as int));
            push_char(&mut out, '\u{FFFD}');
            i = i + 1;
        }
        assert(out@ + utf16_decode(units@.subrange(i as int, n as int)) =~= utf16_decode(units@));
    }
    assert(units@.subrange(n as int, n as int) =~= Seq::<u16>::empty());
    out
}

/// Decoding what encoding gave gives back the text.
pub proof fn law_utf16_round_trip(s: Seq<char>)
    ensures
        utf16_decode(utf16_encode(s)) == s,
    decreases s.len(),
{
    if s.len() > 0 {
        let c = s[0];
        let rest = utf16_encode(s.drop_first());
        law_utf16_round_trip(s.drop_first());
        let e = utf16_encode(s);
        assert(e == utf16_of(c) + rest);
        let v = c as u32;
        char_is_scalar(c);
        char_u32_cast(c, v);
        if v < 0x10000 {
            assert(!(0xD800 <= v <= 0xDFFF));
            assert(e[0] == v as u16);
            assert(e.drop_first() =~= rest);
            assert((e[0] as u32) == v);
        } else {
            assert(v <= 0x10FFFF);
            let hi = (0xD800 + (v - 0x10000) / 1024) as u16;
            let lo = (0xDC00 + (v - 0x10000) % 1024) as u16;
            assert(0xD800 <= hi <= 0xDBFF);
            assert(0xDC00 <= lo <= 0xDFFF);
            assert(e[0] == hi && e[1] == lo);
            assert(e.subrange(2, e.len() as int) =~= rest);
            assert((0x10000 + (hi - 0xD800) * 1024 + (lo - 0xDC00)) as u32 == v);
        }
        assert(s =~= seq![c] + s.drop_first());
    }
}

/// The UTF-16 units of `c`, onto the end of `out`.
pub fn push_utf16(out: &mut Vec<u16>, c: char)
    ensures
        final(out)@ == old(out)@ + utf16_of(c),
{
    let v = c as u32;
    if v < 0x10000 {
        out.push(v as u16);
    } else {
        let w = v - 0x10000;
        out.push((0xD800 + w / 1024) as u16);
        out.push((0xDC00 + w % 1024) as u16);
    }
    assert(out@ =~= old(out)@ + utf16_of(c));
}

/// The UTF-16 encoding of `text`.
pub fn encode_utf16(text: &str) -> (units: Vec<u16>)
    ensures
        units@ == utf16_encode(text@),
{
    let n = text.unicode_len();
    let mut units: Vec<u16> = Vec::new();
    let mut i: usize = 0;
    assert(text@.subrange(0, n as int) =~= text@);
    assert(units@ + utf16_encode(text@) =~= utf16_encode(text@));
    while i < n
        invariant
            n == text@.len(),
            i <= n,
            utf16_encode(text@) == units@ + utf16_encode(text@.subrange(i as int, n as int)),
        decreases n - i,
    {
        let c = text.get_char(i);
        proof {
            let tail = text@.subrange(i as int, n as int);
            assert(tail.drop_first() =~= text@.subrange(i + 1, n as int));
            assert(tail[0] == c);
        }
        push_utf16(&mut units, c);
        i = i + 1;
    }
    assert(text@.subrange(n as int, n as int) =~= Seq::<char>::empty());
    assert(units@ + Seq::<u16>::empty() =~= units@);
    units
}


/// Whether `c` has Unicode's White_Space property, which is what std's
/// `char::is_whitespace` and `str::trim` go by.
pub open spec fn white_space(c: char) -> bool {
    let v = c as u32;
    (0x09 <= v <= 0x0D) || v == 0x20 || v == 0x85 || v == 0xA0 || v == 0x1680 || (0x2000 <= v
        <= 0x200A) || v == 0x2028 || v == 0x2029 || v == 0x202F || v == 0x205F || v == 0x3000
}

pub fn is_white_space(c: char) -> (r: bool)
    ensures
        r == white_space(c),
{
    let v = c as u32;
    (0x09 <= v && v <= 0x0D) || v == 0x20 || v == 0x85 || v == 0xA0 || v == 0x1680 || (0x2000 <= v
        && v <= 0x200A) || v == 0x2028 || v == 0x2029 || v == 0x202F || v == 0x205F || v == 0x3000
}

/// `s` with the white space at both ends trimmed off.
pub open spec fn trim_white(s: Seq<char>) -> Seq<char>
    decreases s.len(),
{
    if s.len() > 0 && white_space(s[0]) {
        trim_white(s.drop_first())
    } else if s.len() > 0 && white_space(s.last()) {
        trim_white(s.drop_last())
    } else {
        s
    }
}

/// `text` with the white space at both ends trimmed off.
pub fn trim(text: &str) -> (r: String)
    ensures
        r@ == trim_white(text@),
{
    let n = text.unicode_len();
    let mut start: usize = 0;
    let mut end: usize = n;
    assert(text@.subrange(0, n as int) =~= text@);
    while start < end
        invariant
            n == text@.len(),
            start <= end <= n,
            trim_white(text@) == trim_white(text@.subrange(start as int, end as int)),
        ensures
            n == text@.len(),
            start <= end <= n,
            trim_white(text@) == trim_white(text@.subrange(start as int, end as int)),
            start == end || (!white_space(text@[start as int]) && !white_space(text@[end - 1])),
        decreases end - start,
    {
        let first = text.get_char(start);
        let last = text.get_char(end - 1);
        let piece = Ghost(text@.subrange(start as int, end as int));
        if is_white_space(first) {
            assert(piece@.drop_first() =~= text@.subrange(start + 1, end as int));
            start = start + 1;
        } else if is_white_space(last) {
            assert(piece@.drop_last() =~= text@.subrange(start as int, end - 1));
            end = end - 1;
        } else {
            break;
        }
    }
    assert(trim_white(text@.subrange(start as int, end as int)) == text@.subrange(
        start as int,
        end as int,
    ));
    text.substring_char(start, end).to_owned()
}


/// Decoding a character's units followed by anything decodes the character,
/// then the rest.
pub proof fn lemma_utf16_decode_prefix(c: char, rest: Seq<u16>)
    ensures
        utf16_decode(utf16_of(c) + rest) == seq![c] + utf16_decode(rest),
{
    let e = utf16_of(c) + rest;
    let v = c as u32;
    char_is_scalar(c);
    char_u32_cast(c, v);
    if v < 0x10000 {
        assert(e.drop_first() =~= rest);
        assert((e[0] as u32) == v);
    } else {
        let hi = (0xD800 + (v - 0x10000) / 1024) as u16;
        let lo = (0xDC00 + (v - 0x10000) % 1024) as u16;
        assert(e[0] == hi && e[1] == lo);
        assert(e.subrange(2, e.len() as int) =~= rest);
        assert((0x10000 + (hi - 0xD800) * 1024 + (lo - 0xDC00)) as u32 == v);
    }
}

/// Decoding an encoding followed by anything decodes the text, then the
/// rest.
pub proof fn lemma_utf16_decode_concat(s: Seq<char>, rest: Seq<u16>)
    ensures
        utf16_decode(utf16_encode(s) + rest) == s + utf16_decode(rest),
    decreases s.len(),
{
    if s.len() == 0 {
        assert(utf16_encode(s) + rest =~= rest);
        assert(s + utf16_decode(rest) =~= utf16_decode(rest));
    } else {
        lemma_utf16_decode_concat(s.drop_first(), rest);
        assert(utf16_encode(s) + rest =~= utf16_of(s[0]) + (utf16_encode(s.drop_first()) + rest));
        lemma_utf16_decode_prefix(s[0], utf16_encode(s.drop_first()) + rest);
        assert(s =~= seq![s[0]] + s.drop_first());
        assert(seq![s[0]] + (s.drop_first() + utf16_decode(rest)) =~= s + utf16_decode(rest));
    }
}

} // verus!
