//! Reading a PSD type layer — the `TySh` block.
//!
//! Photoshop stores a type layer twice over: the pixels in the ordinary
//! channels, and *what it says* in an additional layer information block keyed
//! `TySh`. The block is two formats nested: a **descriptor**, Photoshop's
//! general key/value tree, holding the string itself under `Txt `; and
//! **EngineData**, the text engine's own dump, holding how it is set.
//!
//! The descriptor is walked properly, because finding one key means stepping
//! correctly over every other type. EngineData is *scanned* for the values
//! worth having.

use vstd::prelude::*;
use vstd::slice::{slice_subrange, slice_to_vec};
use vstd::string::{StrSliceExecFns, StringExecFns};

use vstd::utf8::encode_utf8;

use crate::chars::{
    decode_lossy, decode_utf16_lossy, lenient_text, push_char, trim, trim_white, utf16_decode,
};
use crate::metadata::{find, first_match, lemma_first_from};
use crate::psd::{be_u32, fits};

verus! {

/// A cursor over a block that reports running out rather than panicking.
pub struct Cursor<'a> {
    pub data: &'a [u8],
    pub pos: usize,
}

/// The big-endian 32-bit word at `at`, if it is there.
pub open spec fn word_at(d: Seq<u8>, at: int) -> Option<u32> {
    if fits(d.len() as int, at, 4) {
        Some(be_u32(d, at))
    } else {
        None
    }
}

/// Big-endian byte pairs as UTF-16 units.
pub open spec fn units_of(b: Seq<u8>) -> Seq<u16> {
    Seq::new(b.len() / 2, |i: int| (b[2 * i] * 256 + b[2 * i + 1]) as u16)
}

/// `s` without the NULs it ends with.
pub open spec fn trim_nul(s: Seq<char>) -> Seq<char>
    decreases s.len(),
{
    if s.len() > 0 && s.last() == '\0' {
        trim_nul(s.drop_last())
    } else {
        s
    }
}

/// A UTF-16BE string at `at`: a four-byte count of units, then the units; the
/// trailing NULs Photoshop writes are dropped. The text and where it ends.
pub open spec fn unicode_at(d: Seq<u8>, at: int) -> Option<(Seq<char>, int)> {
    match word_at(d, at) {
        None => None,
        Some(n) => if !fits(d.len() as int, at + 4, 2 * n) {
            None
        } else {
            Some(
                (
                    trim_nul(utf16_decode(units_of(d.subrange(at + 4, at + 4 + 2 * n)))),
                    at + 4 + 2 * n,
                ),
            )
        },
    }
}

/// A length-prefixed key at `at`: four bytes of length, or zero meaning the
/// key is itself a four-character code. The key and where it ends.
pub open spec fn key_at(d: Seq<u8>, at: int) -> Option<(Seq<u8>, int)> {
    match word_at(d, at) {
        None => None,
        Some(n) => {
            let size = if n == 0 {
                4
            } else {
                n as int
            };
            if !fits(d.len() as int, at + 4, size) {
                None
            } else {
                Some((d.subrange(at + 4, at + 4 + size), at + 4 + size))
            }
        },
    }
}

impl<'a> Cursor<'a> {
    /// The position never runs past the end.
    pub open spec fn wf(&self) -> bool {
        self.pos <= self.data@.len()
    }

    pub fn new(data: &'a [u8]) -> (c: Cursor<'a>)
        ensures
            c.wf(),
            c.data@ == data@,
            c.pos == 0,
    {
        Cursor { data, pos: 0 }
    }

    /// The next `n` bytes.
    pub fn take(&mut self, n: usize) -> (r: Option<&'a [u8]>)
        requires
            old(self).wf(),
        ensures
            final(self).wf(),
            final(self).data@ == old(self).data@,
            final(self).pos >= old(self).pos,
            fits(old(self).data@.len() as int, old(self).pos as int, n as int) ==> {
                &&& r is Some
                &&& r->Some_0@ == old(self).data@.subrange(
                    old(self).pos as int,
                    old(self).pos + n,
                )
                &&& final(self).pos == old(self).pos + n
            },
            !fits(old(self).data@.len() as int, old(self).pos as int, n as int) ==> r is None,
    {
        if n > self.data.len() - self.pos {
            return None;
        }
        let end = self.pos + n;
        let slice = slice_subrange(self.data, self.pos, end);
        self.pos = end;
        Some(slice)
    }

    pub fn skip(&mut self, n: usize) -> (r: Option<()>)
        requires
            old(self).wf(),
        ensures
            final(self).wf(),
            final(self).data@ == old(self).data@,
            final(self).pos >= old(self).pos,
            fits(old(self).data@.len() as int, old(self).pos as int, n as int) ==> {
                &&& r is Some
                &&& final(self).pos == old(self).pos + n
            },
            !fits(old(self).data@.len() as int, old(self).pos as int, n as int) ==> r is None,
    {
        match self.take(n) {
            Some(_) => Some(()),
            None => None,
        }
    }

    pub fn u32(&mut self) -> (r: Option<u32>)
        requires
            old(self).wf(),
        ensures
            final(self).wf(),
            final(self).data@ == old(self).data@,
            final(self).pos >= old(self).pos,
            r == word_at(old(self).data@, old(self).pos as int),
            r is Some ==> final(self).pos == old(self).pos + 4,
    {
        match self.take(4) {
            Some(b) => Some(
                (b[0] as u32) * 16777216 + (b[1] as u32) * 65536 + (b[2] as u32) * 256 + (b[3] as u32),
            ),
            None => None,
        }
    }

    /// A four-character type or key code.
    pub fn key4(&mut self) -> (r: Option<[u8; 4]>)
        requires
            old(self).wf(),
        ensures
            final(self).wf(),
            final(self).data@ == old(self).data@,
            final(self).pos >= old(self).pos,
            fits(old(self).data@.len() as int, old(self).pos as int, 4) ==> {
                &&& r is Some
                &&& r->Some_0@ == old(self).data@.subrange(
                    old(self).pos as int,
                    old(self).pos + 4,
                )
                &&& final(self).pos == old(self).pos + 4
            },
            !fits(old(self).data@.len() as int, old(self).pos as int, 4) ==> r is None,
    {
        match self.take(4) {
            Some(b) => {
                let k = [b[0], b[1], b[2], b[3]];
                assert(k@ =~= b@);
                Some(k)
            },
            None => None,
        }
    }

    /// A length-prefixed key: four bytes of length, or zero meaning the key is
    /// itself a four-character code.
    pub fn key(&mut self) -> (r: Option<Vec<u8>>)
        requires
            old(self).wf(),
        ensures
            final(self).wf(),
            final(self).data@ == old(self).data@,
            final(self).pos >= old(self).pos,
            match key_at(old(self).data@, old(self).pos as int) {
                Some((k, end)) => r is Some && r->Some_0@ == k && final(self).pos == end,
                None => r is None,
            },
    {
        let length = match self.u32() {
            Some(n) => n as usize,
            None => return None,
        };
        if length == 0 {
            return match self.key4() {
                Some(k) => Some(slice_to_vec(&k)),
                None => None,
            };
        }
        match self.take(length) {
            Some(b) => Some(slice_to_vec(b)),
            None => None,
        }
    }

    /// A UTF-16BE string, four-byte length in *units* including the trailing
    /// null Photoshop writes.
    pub fn unicode_string(&mut self) -> (r: Option<String>)
        requires
            old(self).wf(),
        ensures
            final(self).wf(),
            final(self).data@ == old(self).data@,
            final(self).pos >= old(self).pos,
            match unicode_at(old(self).data@, old(self).pos as int) {
                Some((t, end)) => r is Some && r->Some_0@ == t && final(self).pos == end,
                None => r is None,
            },
    {
        let count = match self.u32() {
            Some(n) => n as u64,
            None => return None,
        };
        let avail = (self.data.len() - self.pos) as u64;
        if 2 * count > avail {
            return None;
        }
        let bytes = match self.take((2 * count) as usize) {
            Some(b) => b,
            None => return None,
        };
        let blen = bytes.len();
        let mut units: Vec<u16> = Vec::new();
        let mut i: usize = 0;
        while i < count as usize
            invariant
                blen == bytes@.len(),
                bytes@.len() == 2 * count,
                i <= count,
                units@ =~= units_of(bytes@).subrange(0, i as int),
            decreases count - i,
        {
            units.push((bytes[2 * i] as u16) * 256 + (bytes[2 * i + 1] as u16));
            i = i + 1;
        }
        assert(units@ =~= units_of(bytes@));
        let text = decode_utf16_lossy(units.as_slice());
        Some(trim_nuls(text))
    }
}

/// `text` without the NULs it ends with.
fn trim_nuls(text: String) -> (r: String)
    ensures
        r@ == trim_nul(text@),
{
    let n = text.as_str().unicode_len();
    let mut k: usize = n;
    assert(text@.subrange(0, k as int) =~= text@);
    while k > 0
        invariant
            k <= text@.len(),
            trim_nul(text@) == trim_nul(text@.subrange(0, k as int)),
        ensures
            k <= text@.len(),
            trim_nul(text@) == trim_nul(text@.subrange(0, k as int)),
            k == 0 || text@[k - 1] != '\0',
        decreases k,
    {
        if text.as_str().get_char(k - 1) != '\0' {
            break;
        }
        assert(text@.subrange(0, k as int).drop_last() =~= text@.subrange(0, k - 1));
        k = k - 1;
    }
    assert(trim_nul(text@.subrange(0, k as int)) == text@.subrange(0, k as int));
    text.as_str().substring_char(0, k).to_owned()
}


// ---------------------------------------------------------------------------
// Descriptors
// ---------------------------------------------------------------------------

/// The four-character type codes a descriptor's values carry, read as
/// big-endian numbers.
pub open spec fn code(c: Seq<u8>) -> u32 {
    be_u32(c, 0)
}

pub const TEXT: u32 = 0x5445_5854;

pub const TDTA: u32 = 0x7464_7461;

pub const OBJ: u32 = 0x6F62_6A20;

pub const OBJC: u32 = 0x4F62_6A63;

pub const GLBO: u32 = 0x476C_624F;

pub const VLLS: u32 = 0x566C_4C73;

pub const DOUB: u32 = 0x646F_7562;

pub const UNTF: u32 = 0x556E_7446;

pub const ENUM: u32 = 0x656E_756D;

pub const TYPE: u32 = 0x7479_7065;

pub const GLBC: u32 = 0x476C_6243;

pub const LONG: u32 = 0x6C6F_6E67;

pub const COMP: u32 = 0x636F_6D70;

pub const BOOL: u32 = 0x626F_6F6C;

pub const ALIS: u32 = 0x616C_6973;

pub const OBAR: u32 = 0x4F62_4172;

pub const UNFL: u32 = 0x556E_466C;

/// The key the string is kept under, `Txt `.
pub open spec fn txt_key() -> Seq<u8> {
    seq![84u8, 120u8, 116u8, 32u8]
}

/// The key EngineData is kept under.
pub open spec fn engine_key() -> Seq<u8> {
    seq![69u8, 110u8, 103u8, 105u8, 110u8, 101u8, 68u8, 97u8, 116u8, 97u8]
}

/// The two values worth having out of a text descriptor.
pub struct Descriptor {
    pub text: Option<String>,
    pub engine_data: Option<Vec<u8>>,
}

/// [`Descriptor`] as characters and bytes.
pub struct DescriptorView {
    pub text: Option<Seq<char>>,
    pub engine: Option<Seq<u8>>,
}

impl View for Descriptor {
    type V = DescriptorView;

    open spec fn view(&self) -> DescriptorView {
        DescriptorView {
            text: match &self.text {
                Some(t) => Some(t@),
                None => None,
            },
            engine: match &self.engine_data {
                Some(e) => Some(e@),
                None => None,
            },
        }
    }
}

/// Reading a descriptor at `at`: its (unused) name, its class, a count of at
/// most 4096 items, then the items. What it holds and where it ends.
pub open spec fn descriptor_at(d: Seq<u8>, at: int) -> Option<(DescriptorView, int)>
    decreases d.len() - at, 1int,
{
    if at < 0 || at > d.len() {
        None
    } else {
        match unicode_at(d, at) {
            None => None,
            Some((_, p1)) => match word_at(d, p1) {
                None => None,
                Some(class) => {
                    let size = if class == 0 {
                        4
                    } else {
                        class as int
                    };
                    if !fits(d.len() as int, p1 + 4, size) {
                        None
                    } else {
                        match word_at(d, p1 + 4 + size) {
                            None => None,
                            Some(count) => if count > 4096 {
                                None
                            } else {
                                items_at(
                                    d,
                                    p1 + 8 + size,
                                    count as int,
                                    DescriptorView { text: None, engine: None },
                                )
                            },
                        }
                    }
                },
            },
        }
    }
}

/// Reading `k` more descriptor items from `at` on top of what `acc` holds:
/// each is a key, a type code and a value. The string under `Txt ` and the
/// EngineData are kept; every other value is stepped over.
pub open spec fn items_at(d: Seq<u8>, at: int, k: int, acc: DescriptorView) -> Option<(DescriptorView, int)>
    decreases d.len() - at, 0int,
{
    if at < 0 || at > d.len() {
        None
    } else if k <= 0 {
        Some((acc, at))
    } else {
        match key_at(d, at) {
            None => None,
            Some((key, p1)) => match word_at(d, p1) {
                None => None,
                Some(kind) => {
                    let p2 = p1 + 4;
                    if kind == TEXT && key == txt_key() {
                        match unicode_at(d, p2) {
                            None => None,
                            Some((t, p3)) => items_at(
                                d,
                                p3,
                                k - 1,
                                DescriptorView { text: Some(t), engine: acc.engine },
                            ),
                        }
                    } else if kind == TDTA && key == engine_key() {
                        match word_at(d, p2) {
                            None => None,
                            Some(n) => if !fits(d.len() as int, p2 + 4, n as int) {
                                None
                            } else {
                                items_at(
                                    d,
                                    p2 + 4 + n,
                                    k - 1,
                                    DescriptorView {
                                        text: acc.text,
                                        engine: Some(d.subrange(p2 + 4, p2 + 4 + n)),
                                    },
                                )
                            },
                        }
                    } else {
                        match value_end(d, p2, kind) {
                            None => None,
                            Some(p3) => if p3 <= at || p3 > d.len() {
                                None
                            } else {
                                items_at(d, p3, k - 1, acc)
                            },
                        }
                    }
                },
            },
        }
    }
}

/// Where the value of type `kind` at `at` ends, if it can be stepped over:
/// nested descriptors, lists and object arrays are walked; everything else
/// has a size. An unknown type has no size, so the walk stops there.
pub open spec fn value_end(d: Seq<u8>, at: int, kind: u32) -> Option<int>
    decreases d.len() - at, 2int,
{
    let len = d.len() as int;
    if at < 0 || at > len {
        None
    } else if kind == OBJ || kind == OBJC || kind == GLBO {
        match descriptor_at(d, at) {
            Some((_, p)) => Some(p),
            None => None,
        }
    } else if kind == VLLS {
        match word_at(d, at) {
            None => None,
            Some(n) => if n > 65536 {
                None
            } else {
                list_end(d, at + 4, n as int)
            },
        }
    } else if kind == DOUB {
        if fits(len, at, 8) {
            Some(at + 8)
        } else {
            None
        }
    } else if kind == UNTF {
        if fits(len, at, 12) {
            Some(at + 12)
        } else {
            None
        }
    } else if kind == TEXT {
        match unicode_at(d, at) {
            Some((_, p)) => Some(p),
            None => None,
        }
    } else if kind == ENUM || kind == TYPE || kind == GLBC {
        match key_at(d, at) {
            None => None,
            Some((_, p1)) => match key_at(d, p1) {
                None => None,
                Some((_, p2)) => Some(p2),
            },
        }
    } else if kind == LONG || kind == COMP {
        if fits(len, at, 4) {
            Some(at + 4)
        } else {
            None
        }
    } else if kind == BOOL {
        if fits(len, at, 1) {
            Some(at + 1)
        } else {
            None
        }
    } else if kind == ALIS || kind == TDTA {
        match word_at(d, at) {
            None => None,
            Some(n) => if fits(len, at + 4, n as int) {
                Some(at + 4 + n)
            } else {
                None
            },
        }
    } else if kind == OBAR {
        if !fits(len, at, 4) {
            None
        } else {
            match unicode_at(d, at + 4) {
                None => None,
                Some((_, p1)) => match key_at(d, p1) {
                    None => None,
                    Some((_, p2)) => match word_at(d, p2) {
                        None => None,
                        Some(n) => if n > 65536 {
                            None
                        } else {
                            array_end(d, p2 + 4, n as int)
                        },
                    },
                },
            }
        }
    } else if kind == UNFL {
        if !fits(len, at, 4) {
            None
        } else {
            match word_at(d, at + 4) {
                None => None,
                Some(n) => if fits(len, at + 8, 8 * n) {
                    Some(at + 8 + 8 * n)
                } else {
                    None
                },
            }
        }
    } else {
        None
    }
}

/// Where a list of `k` typed values from `at` ends.
pub open spec fn list_end(d: Seq<u8>, at: int, k: int) -> Option<int>
    decreases d.len() - at, 0int,
{
    if at < 0 || at > d.len() {
        None
    } else if k <= 0 {
        Some(at)
    } else {
        match word_at(d, at) {
            None => None,
            Some(kind) => match value_end(d, at + 4, kind) {
                None => None,
                Some(p) => if p <= at || p > d.len() {
                    None
                } else {
                    list_end(d, p, k - 1)
                },
            },
        }
    }
}

/// Where an object array's `k` keyed, typed entries from `at` end.
pub open spec fn array_end(d: Seq<u8>, at: int, k: int) -> Option<int>
    decreases d.len() - at, 0int,
{
    if at < 0 || at > d.len() {
        None
    } else if k <= 0 {
        Some(at)
    } else {
        match key_at(d, at) {
            None => None,
            Some((_, p1)) => match word_at(d, p1) {
                None => None,
                Some(kind) => match value_end(d, p1 + 4, kind) {
                    None => None,
                    Some(p) => if p <= at || p > d.len() {
                        None
                    } else {
                        array_end(d, p, k - 1)
                    },
                },
            },
        }
    }
}


/// The number a four-character code reads as.
fn code_of(kind: &[u8; 4]) -> (n: u32)
    ensures
        n == code(kind@),
{
    (kind[0] as u32) * 16777216 + (kind[1] as u32) * 65536 + (kind[2] as u32) * 256 + (kind[3] as u32)
}

/// Whether `b` holds exactly the bytes of `want`.
fn bytes_are(b: &[u8], want: &[u8]) -> (r: bool)
    ensures
        r == (b@ == want@),
{
    if b.len() != want.len() {
        return false;
    }
    let mut i: usize = 0;
    while i < b.len()
        invariant
            b@.len() == want@.len(),
            i <= b@.len(),
            forall|k: int| 0 <= k < i ==> b@[k] == want@[k],
        decreases b@.len() - i,
    {
        if b[i] != want[i] {
            return false;
        }
        i = i + 1;
    }
    assert(b@ =~= want@);
    true
}

/// Walk a descriptor, keeping the two items that matter.
///
/// Everything else still has to be *stepped over* exactly, since the items are
/// laid end to end with no lengths to skip by — which is why this understands
/// every type rather than searching for the keys it wants.
pub fn read_descriptor(r: &mut Cursor) -> (res: Option<Descriptor>)
    requires
        old(r).wf(),
    ensures
        final(r).wf(),
        final(r).data@ == old(r).data@,
        final(r).pos >= old(r).pos,
        match descriptor_at(old(r).data@, old(r).pos as int) {
            Some((v, end)) => res is Some && res->Some_0@ == v && final(r).pos == end,
            None => res is None,
        },
    decreases old(r).data@.len() - old(r).pos, 1int,
{
    let ghost d = r.data@;
    let ghost start = r.pos as int;
    // The descriptor's own name, always empty in practice.
    match r.unicode_string() {
        Some(_) => {},
        None => return None,
    }
    let class_length = match r.u32() {
        Some(n) => n as usize,
        None => return None,
    };
    let skipped = if class_length == 0 {
        r.skip(4)
    } else {
        r.skip(class_length)
    };
    if skipped.is_none() {
        return None;
    }
    let count = match r.u32() {
        Some(n) => n,
        None => return None,
    };
    // A count in the thousands means the block is not what we think it is.
    if count > 4096 {
        return None;
    }
    let ghost items_start = r.pos as int;
    let mut out = Descriptor { text: None, engine_data: None };
    let mut i: u32 = 0;
    while i < count
        invariant
            r.wf(),
            r.data@ == d,
            start == old(r).pos,
            d == old(r).data@,
            r.pos > start,
            i <= count,
            descriptor_at(d, start) == items_at(d, r.pos as int, count - i, out@),
        decreases count - i,
    {
        let ghost item_at = r.pos as int;
        let key = match r.key() {
            Some(k) => k,
            None => return None,
        };
        let kind = match r.key4() {
            Some(k) => k,
            None => return None,
        };
        let ty = code_of(&kind);
        let txt: [u8; 4] = [84, 120, 116, 32];
        let engine: [u8; 10] = [69, 110, 103, 105, 110, 101, 68, 97, 116, 97];
        assert(txt@ == txt_key());
        assert(engine@ == engine_key());
        if ty == TEXT && bytes_are(key.as_slice(), &txt) {
            let t = match r.unicode_string() {
                Some(t) => t,
                None => return None,
            };
            out.text = Some(t);
        } else if ty == TDTA && bytes_are(key.as_slice(), &engine) {
            let length = match r.u32() {
                Some(n) => n as usize,
                None => return None,
            };
            let body = match r.take(length) {
                Some(b) => b,
                None => return None,
            };
            out.engine_data = Some(slice_to_vec(body));
        } else {
            match skip_value(r, &kind) {
                Some(_) => {},
                None => return None,
            }
        }
        assert(r.pos > item_at);
        i = i + 1;
    }
    Some(out)
}

/// Step over one descriptor value of the given type.
pub fn skip_value(r: &mut Cursor, kind: &[u8; 4]) -> (res: Option<()>)
    requires
        old(r).wf(),
    ensures
        final(r).wf(),
        final(r).data@ == old(r).data@,
        final(r).pos >= old(r).pos,
        match value_end(old(r).data@, old(r).pos as int, code(kind@)) {
            Some(end) => res is Some && final(r).pos == end,
            None => res is None,
        },
    decreases old(r).data@.len() - old(r).pos, 2int,
{
    let ghost d = r.data@;
    let ghost start = r.pos as int;
    let ty = code_of(kind);
    if ty == OBJ || ty == OBJC || ty == GLBO {
        // A nested descriptor, read for its structure and discarded.
        match read_descriptor(r) {
            Some(_) => Some(()),
            None => None,
        }
    } else if ty == VLLS {
        let count = match r.u32() {
            Some(n) => n,
            None => return None,
        };
        if count > 65536 {
            return None;
        }
        let mut i: u32 = 0;
        while i < count
            invariant
                r.wf(),
                r.data@ == d,
                start == old(r).pos,
                d == old(r).data@,
                r.pos > start,
                i <= count,
                value_end(d, start, ty) == list_end(d, r.pos as int, count - i),
                ty == VLLS,
                ty == code(kind@),
            decreases count - i,
        {
            let ghost item_at = r.pos as int;
            let item_kind = match r.key4() {
                Some(k) => k,
                None => return None,
            };
            match skip_value(r, &item_kind) {
                Some(_) => {},
                None => return None,
            }
            i = i + 1;
        }
        Some(())
    } else if ty == DOUB {
        r.skip(8)
    } else if ty == UNTF {
        if r.skip(4).is_none() {
            return None;
        }
        r.skip(8)
    } else if ty == TEXT {
        match r.unicode_string() {
            Some(_) => Some(()),
            None => None,
        }
    } else if ty == ENUM || ty == TYPE || ty == GLBC {
        // Two length-prefixed keys: the type and the value.
        if r.key().is_none() {
            return None;
        }
        match r.key() {
            Some(_) => Some(()),
            None => None,
        }
    } else if ty == LONG || ty == COMP {
        r.skip(4)
    } else if ty == BOOL {
        r.skip(1)
    } else if ty == ALIS || ty == TDTA {
        let length = match r.u32() {
            Some(n) => n as usize,
            None => return None,
        };
        r.skip(length)
    } else if ty == OBAR {
        // An object array: version, name, class, then typed entries.
        if r.skip(4).is_none() {
            return None;
        }
        if r.unicode_string().is_none() {
            return None;
        }
        if r.key().is_none() {
            return None;
        }
        let count = match r.u32() {
            Some(n) => n,
            None => return None,
        };
        if count > 65536 {
            return None;
        }
        let mut i: u32 = 0;
        while i < count
            invariant
                r.wf(),
                r.data@ == d,
                start == old(r).pos,
                d == old(r).data@,
                r.pos > start,
                i <= count,
                value_end(d, start, ty) == array_end(d, r.pos as int, count - i),
                ty == OBAR,
                ty == code(kind@),
            decreases count - i,
        {
            if r.key().is_none() {
                return None;
            }
            let item_kind = match r.key4() {
                Some(k) => k,
                None => return None,
            };
            match skip_value(r, &item_kind) {
                Some(_) => {},
                None => return None,
            }
            i = i + 1;
        }
        Some(())
    } else if ty == UNFL {
        if r.skip(4).is_none() {
            return None;
        }
        let count = match r.u32() {
            Some(n) => n as u64,
            None => return None,
        };
        let avail = (r.data.len() - r.pos) as u64;
        if 8 * count > avail {
            return None;
        }
        r.skip((8 * count) as usize)
    } else {
        // An unknown type has no length to skip by, so the walk has to stop
        // here rather than guess and read rubbish.
        None
    }
}


// ---------------------------------------------------------------------------
// The block
// ---------------------------------------------------------------------------

/// What a `TySh` block holds: after a version, a 2x3 transform, a text
/// version and a descriptor version (56 bytes in all), the text descriptor —
/// unless it holds no text, which is not a type layer.
pub open spec fn type_tool_at(block: Seq<u8>) -> Option<DescriptorView> {
    if block.len() < 56 {
        None
    } else {
        match descriptor_at(block, 56) {
            None => None,
            Some((v, _)) => match v.text {
                Some(t) => if t.len() > 0 {
                    Some(v)
                } else {
                    None
                },
                None => None,
            },
        }
    }
}

/// Read a `TySh` block's text descriptor. `None` when it is not one we
/// understand or says nothing, which leaves the layer as ordinary pixels
/// rather than failing the file.
pub fn type_tool_descriptor(block: &[u8]) -> (r: Option<Descriptor>)
    ensures
        match type_tool_at(block@) {
            Some(v) => r is Some && r->Some_0@ == v,
            None => r is None,
        },
{
    let mut c = Cursor::new(block);
    // The version, the transform (which the caller does not need), the text
    // version and the descriptor version.
    if c.skip(56).is_none() {
        return None;
    }
    let d = match read_descriptor(&mut c) {
        Some(d) => d,
        None => return None,
    };
    let empty = match &d.text {
        Some(t) => t.as_str().unicode_len() == 0,
        None => true,
    };
    if empty {
        return None;
    }
    Some(d)
}

// ---------------------------------------------------------------------------
// EngineData
// ---------------------------------------------------------------------------

/// The bytes `/FontSet` and `/Name`.
pub open spec fn font_set_key() -> Seq<u8> {
    seq![47u8, 70u8, 111u8, 110u8, 116u8, 83u8, 101u8, 116u8]
}

pub open spec fn name_key() -> Seq<u8> {
    seq![47u8, 78u8, 97u8, 109u8, 101u8]
}

/// The characters a name written in UTF-16 leaves behind when read as bytes:
/// NULs, byte-order marks and replacement characters.
pub open spec fn is_mark(c: char) -> bool {
    c == '\0' || c == '\u{feff}' || c == '\u{fffd}'
}

/// `s` without those.
pub open spec fn without_marks(s: Seq<char>) -> Seq<char>
    decreases s.len(),
{
    if s.len() == 0 {
        s
    } else {
        without_marks(s.drop_last()) + if is_mark(s.last()) {
            Seq::<char>::empty()
        } else {
            seq![s.last()]
        }
    }
}

/// The first font name in an EngineData dump's resource dictionary: the first
/// parenthesised value after the first `/Name` after `/FontSet`, trimmed and
/// without marks, if anything is left.
pub open spec fn font_name_of(engine: Seq<char>) -> Option<Seq<char>> {
    let b = encode_utf8(engine);
    let len = b.len() as int;
    match first_match(b, font_set_key()) {
        None => None,
        Some(s0) => match first_match(b.subrange(s0, len), name_key()) {
            None => None,
            Some(n0) => match first_match(b.subrange(s0 + n0, len), seq![40u8]) {
                None => None,
                Some(o0) => {
                    let open = s0 + n0 + o0 + 1;
                    match first_match(b.subrange(open, len), seq![41u8]) {
                        None => None,
                        Some(c0) => {
                            let cleaned = without_marks(
                                trim_white(lenient_text(b.subrange(open, open + c0))),
                            );
                            if cleaned.len() == 0 {
                                None
                            } else {
                                Some(cleaned)
                            }
                        },
                    }
                },
            },
        },
    }
}

/// The first font name in the resource dictionary.
pub fn find_font_name(engine: &str) -> (r: Option<String>)
    ensures
        match font_name_of(engine@) {
            Some(t) => r is Some && r->Some_0@ == t,
            None => r is None,
        },
{
    let b = engine.as_bytes();
    let len = b.len();
    let set_key: [u8; 8] = [47, 70, 111, 110, 116, 83, 101, 116];
    let name_tag: [u8; 5] = [47, 78, 97, 109, 101];
    let open_paren: [u8; 1] = [40];
    let close_paren: [u8; 1] = [41];
    assert(set_key@ == font_set_key());
    assert(name_tag@ == name_key());
    assert(open_paren@ == seq![40u8]);
    assert(close_paren@ == seq![41u8]);
    let set_at = match find(b, &set_key) {
        Some(i) => i,
        None => return None,
    };
    proof {
        lemma_first_from(b@, font_set_key(), 0);
    }
    let after_set = slice_subrange(b, set_at, len);
    let name_at = match find(after_set, &name_tag) {
        Some(i) => {
            proof {
                lemma_first_from(after_set@, name_key(), 0);
            }
            i + set_at
        },
        None => return None,
    };
    let after_name = slice_subrange(b, name_at, len);
    let open = match find(after_name, &open_paren) {
        Some(i) => {
            proof {
                lemma_first_from(after_name@, seq![40u8], 0);
                assert(after_name@ =~= b@.subrange(name_at as int, len as int));
            }
            i + name_at + 1
        },
        None => return None,
    };
    let after_open = slice_subrange(b, open, len);
    let close = match find(after_open, &close_paren) {
        Some(i) => {
            proof {
                lemma_first_from(after_open@, seq![41u8], 0);
                assert(after_open@ =~= b@.subrange(open as int, len as int));
            }
            i + open
        },
        None => return None,
    };
    let raw = slice_subrange(b, open, close);
    let text = decode_lossy(raw);
    let trimmed = trim(text.as_str());
    // Photoshop writes UTF-16 in these parentheses when the name needs it,
    // which lands here as text riddled with NULs; dropping them leaves the
    // name.
    let n = trimmed.as_str().unicode_len();
    let mut cleaned = String::new();
    let mut i: usize = 0;
    while i < n
        invariant
            n == trimmed@.len(),
            i <= n,
            cleaned@ == without_marks(trimmed@.subrange(0, i as int)),
        decreases n - i,
    {
        let c = trimmed.as_str().get_char(i);
        assert(trimmed@.subrange(0, i + 1).drop_last() =~= trimmed@.subrange(0, i as int));
        if c != '\0' && c != '\u{feff}' && c != '\u{fffd}' {
            push_char(&mut cleaned, c);
        }
        assert(cleaned@ =~= without_marks(trimmed@.subrange(0, i + 1)));
        i = i + 1;
    }
    assert(trimmed@.subrange(0, n as int) =~= trimmed@);
    if n == 0 || cleaned.as_str().unicode_len() == 0 {
        return None;
    }
    Some(cleaned)
}

/// Whether `c` has Unicode's Uppercase property.
pub uninterp spec fn uppercase(c: char) -> bool;

/// Whether `c` is a capital letter: among ASCII characters `A` to `Z`
/// exactly, and beyond ASCII whatever has Unicode's Uppercase property.
pub open spec fn capital(c: char) -> bool {
    if (c as u32) < 128 {
        'A' <= c && c <= 'Z'
    } else {
        uppercase(c)
    }
}

/// `char::is_uppercase`, which std documents as whether `c` has the
/// Uppercase property; among ASCII characters that is `A` to `Z` exactly.
/// Beyond ASCII the property is named, not stated.
#[verifier::external_body]
fn is_upper(c: char) -> (r: bool)
    ensures
        r == uppercase(c),
        (c as u32) < 128 ==> (r <==> ('A' <= c && c <= 'Z')),
{
    c.is_uppercase()
}

/// The first `-` in `s`, at or after `i`.
pub open spec fn dash_from(s: Seq<char>, i: int) -> Option<int>
    decreases s.len() - i,
{
    if i < 0 || i >= s.len() {
        None
    } else if s[i] == '-' {
        Some(i)
    } else {
        dash_from(s, i + 1)
    }
}

/// A style name read with a space before each capital but the first:
/// `BoldItalic` becomes `Bold Italic`.
pub open spec fn spaced(s: Seq<char>) -> Seq<char>
    decreases s.len(),
{
    if s.len() == 0 {
        s
    } else {
        spaced(s.drop_last()) + if s.len() > 1 && capital(s.last()) {
            seq![' ', s.last()]
        } else {
            seq![s.last()]
        }
    }
}

/// A PostScript font name as a family and a style: split at the first `-`
/// when something follows it, and otherwise the whole name with `Regular`.
pub open spec fn postscript_parts(name: Seq<char>) -> (Seq<char>, Seq<char>) {
    match dash_from(name, 0) {
        Some(j) => if j + 1 < name.len() {
            (name.subrange(0, j), spaced(name.subrange(j + 1, name.len() as int)))
        } else {
            (name, "Regular"@)
        },
        None => (name, "Regular"@),
    }
}

/// Split a PostScript font name into the family and style a font database
/// wants: `Georgia-Bold` becomes `Georgia` and `Bold`.
///
/// A heuristic, and knowingly so: the hyphen convention is a convention, not a
/// rule. Getting it wrong costs the reopened text its style, not its content.
pub fn split_postscript_name(name: &str) -> (r: (String, String))
    ensures
        r.0@ == postscript_parts(name@).0,
        r.1@ == postscript_parts(name@).1,
{
    let n = name.unicode_len();
    let mut j: usize = 0;
    while j < n
        invariant
            n == name@.len(),
            j <= n,
            dash_from(name@, 0) == dash_from(name@, j as int),
        ensures
            n == name@.len(),
            j <= n,
            dash_from(name@, 0) == dash_from(name@, j as int),
            j == n || name@[j as int] == '-',
        decreases n - j,
    {
        if name.get_char(j) == '-' {
            break;
        }
        j = j + 1;
    }
    if j >= n || n - j <= 1 {
        return (name.to_owned(), String::from_str("Regular"));
    }
    let family = name.substring_char(0, j).to_owned();
    let style = name.substring_char(j + 1, n);
    let m = n - (j + 1);
    // "BoldItalic" reads better as "Bold Italic", which is what a font
    // database lists it under.
    let mut spaced_style = String::new();
    let mut k: usize = 0;
    while k < m
        invariant
            m == style@.len(),
            k <= m,
            spaced_style@ == spaced(style@.subrange(0, k as int)),
        decreases m - k,
    {
        let c = style.get_char(k);
        assert(style@.subrange(0, k + 1).drop_last() =~= style@.subrange(0, k as int));
        if k > 0 && is_upper(c) {
            push_char(&mut spaced_style, ' ');
        }
        push_char(&mut spaced_style, c);
        k = k + 1;
    }
    assert(style@.subrange(0, m as int) =~= style@);
    (family, spaced_style)
}

} // verus!
