//! The `TySh` block of a type layer, as this library writes it.
//!
//! The numbers in a type layer are reals: the font size, the leading, the
//! colour's fractions, the text's origin and its box. They reach this module
//! already written out, as the text engine's real-number text and as the
//! eight bytes of each double, so that everything here is the block's
//! structure: which keys, in which order, with which lengths.

use vstd::prelude::*;
use vstd::string::{StrSliceExecFns, StringExecFns};

use crate::chars::{decimal, push_char, push_decimal, same_text};
use crate::layer::TextAlign;
use crate::chars::{utf16_encode, utf16_of};
use crate::psd::{push_u16, push_u32, u16_bytes, u32_bytes};
use crate::psd::text_write::{
    begin_descriptor, descriptor_head, enumerated, enumerated_bytes, key, key_bytes, push_bytes,
    unicode_bytes, unicode_string, warp_bytes, write_warp_descriptor,
    engine_string_line, engine_string_line_bytes, grid_info_bytes, join_numbers, joined,
    lemma_grow, line_bytes, paragraph_lengths, paragraph_sheet_bytes, paragraphs, postscript_name,
    postscript_of, total, utf16_len, write_grid_info, write_paragraph_sheet, Dump,
};

verus! {

/// How one run of text is set, with its real numbers already written out.
pub struct RunSetting {
    pub text: String,
    pub family: String,
    pub style: String,
    /// The font size, written as the engine writes a real.
    pub size: String,
    /// The leading, 1.2 times the size, written the same way.
    pub leading: String,
    /// The fill colour as the engine's four fractions, alpha first.
    pub color: String,
}

/// How a whole type layer is set.
pub struct TextSetting {
    pub runs: Vec<RunSetting>,
    pub align: TextAlign,
    pub antialias: bool,
    pub vertical: bool,
}

/// The text of the first `k` runs, one after another.
pub open spec fn runs_text(runs: Seq<RunSetting>, k: int) -> Seq<char>
    decreases k,
{
    if k <= 0 {
        seq![]
    } else {
        runs_text(runs, k - 1) + runs[k - 1].text@
    }
}

/// The whole text of a setting.
pub open spec fn setting_text(t: TextSetting) -> Seq<char> {
    runs_text(t.runs@, t.runs@.len() as int)
}

/// `s` with its line breaks as carriage returns, which is how the engine ends
/// a line: a carriage return and line feed become one return, and a lone line
/// feed becomes a return.
pub open spec fn with_returns(s: Seq<char>) -> Seq<char>
    decreases s.len(),
{
    if s.len() == 0 {
        s
    } else if s.len() >= 2 && s[0] == '\r' && s[1] == '\n' {
        seq!['\r'] + with_returns(s.subrange(2, s.len() as int))
    } else if s[0] == '\n' {
        seq!['\r'] + with_returns(s.drop_first())
    } else {
        seq![s[0]] + with_returns(s.drop_first())
    }
}

/// The whole text of a setting, concatenated.
pub fn text_of(t: &TextSetting) -> (s: String)
    ensures
        s@ == setting_text(*t),
{
    let mut s = String::new();
    let mut k: usize = 0;
    while k < t.runs.len()
        invariant
            k <= t.runs@.len(),
            s@ == runs_text(t.runs@, k as int),
        decreases t.runs@.len() - k,
    {
        s.append(t.runs[k].text.as_str());
        k = k + 1;
    }
    s
}

/// The text as the engine wants it: line breaks are carriage returns. A line
/// feed left in the string shows up as a missing glyph rather than a new line.
pub fn engine_text(t: &TextSetting) -> (s: String)
    ensures
        s@ == with_returns(setting_text(*t)),
{
    let text = text_of(t);
    let all = text.as_str();
    let n = all.unicode_len();
    let mut out = String::new();
    let mut i: usize = 0;
    assert(all@.subrange(0, n as int) =~= all@);
    assert(out@ + with_returns(all@) =~= with_returns(all@));
    while i < n
        invariant
            n == all@.len(),
            i <= n,
            out@ + with_returns(all@.subrange(i as int, n as int)) == with_returns(all@),
        decreases n - i,
    {
        let ghost rest = all@.subrange(i as int, n as int);
        let c = all.get_char(i);
        if c == '\r' && i + 1 < n && all.get_char(i + 1) == '\n' {
            assert(rest.subrange(2, rest.len() as int) =~= all@.subrange(i + 2, n as int));
            push_char(&mut out, '\r');
            i = i + 2;
        } else {
            assert(rest.drop_first() =~= all@.subrange(i + 1, n as int));
            if c == '\n' {
                push_char(&mut out, '\r');
            } else {
                push_char(&mut out, c);
            }
            i = i + 1;
        }
        assert(out@ + with_returns(all@.subrange(i as int, n as int)) =~= with_returns(all@));
    }
    assert(all@.subrange(n as int, n as int) =~= Seq::<char>::empty());
    out
}

/// The text with the carriage return that always closes the engine's text:
/// the engine appends one to every block, and the run lengths count it.
pub open spec fn closed_text(s: Seq<char>) -> Seq<char> {
    if s.len() > 0 && s.last() == '\r' {
        s
    } else {
        s.push('\r')
    }
}

pub fn engine_text_with_cr(t: &TextSetting) -> (s: String)
    ensures
        s@ == closed_text(with_returns(setting_text(*t))),
{
    let mut body = engine_text(t);
    let n = body.as_str().unicode_len();
    if n == 0 || body.as_str().get_char(n - 1) != '\r' {
        push_char(&mut body, '\r');
    }
    body
}

/// The PostScript name a run's font is written under.
pub open spec fn run_font(r: RunSetting) -> Seq<char> {
    postscript_of(r.family@, r.style@)
}

/// The distinct fonts of the first `k` runs, in the order they first appear.
pub open spec fn fonts_of(runs: Seq<RunSetting>, k: int) -> Seq<Seq<char>>
    decreases k,
{
    if k <= 0 {
        seq![]
    } else {
        let prev = fonts_of(runs, k - 1);
        if prev.contains(run_font(runs[k - 1])) {
            prev
        } else {
            prev.push(run_font(runs[k - 1]))
        }
    }
}

/// The fonts the runs use, in the order they first appear, or Helvetica
/// alone when there are no runs.
pub open spec fn font_set_of(runs: Seq<RunSetting>) -> Seq<Seq<char>> {
    let f = fonts_of(runs, runs.len() as int);
    if f.len() == 0 {
        seq!["Helvetica"@]
    } else {
        f
    }
}

/// The names in `fonts`.
pub open spec fn names(fonts: Seq<String>) -> Seq<Seq<char>> {
    fonts.map_values(|f: String| f@)
}

/// Whether `name` is one of `fonts`.
fn holds_name(fonts: &Vec<String>, name: &str) -> (r: bool)
    ensures
        r == names(fonts@).contains(name@),
{
    let mut i: usize = 0;
    while i < fonts.len()
        invariant
            i <= fonts@.len(),
            forall|j: int| 0 <= j < i ==> fonts@[j]@ != name@,
        decreases fonts@.len() - i,
    {
        if same_text(fonts[i].as_str(), name) {
            assert(names(fonts@)[i as int] == name@);
            return true;
        }
        i = i + 1;
    }
    false
}

/// The fonts the runs use, in the order they first appear. Every run's font
/// is an index into this, so it has to be built the same way as
/// [`font_index`] looks names up, through the same PostScript naming.
pub fn font_set(t: &TextSetting) -> (fonts: Vec<String>)
    ensures
        names(fonts@) == font_set_of(t.runs@),
{
    let mut fonts: Vec<String> = Vec::new();
    let mut k: usize = 0;
    while k < t.runs.len()
        invariant
            k <= t.runs@.len(),
            names(fonts@) == fonts_of(t.runs@, k as int),
        decreases t.runs@.len() - k,
    {
        let run = &t.runs[k];
        let name = postscript_name(run.family.as_str(), run.style.as_str());
        if !holds_name(&fonts, name.as_str()) {
            fonts.push(name);
        }
        assert(names(fonts@) =~= fonts_of(t.runs@, k + 1));
        k = k + 1;
    }
    if fonts.len() == 0 {
        fonts.push(String::from_str("Helvetica"));
    }
    assert(names(fonts@) =~= font_set_of(t.runs@));
    fonts
}

/// The first position of `name` in `fonts`, or 0 when it is not there.
pub open spec fn index_in(fonts: Seq<Seq<char>>, name: Seq<char>) -> int {
    match fonts.index_of_first(name) {
        Some(i) => i,
        None => 0,
    }
}

/// Where a run's font sits in the font set.
pub fn font_index(fonts: &Vec<String>, family: &str, style: &str) -> (at: usize)
    ensures
        at == index_in(names(fonts@), postscript_of(family@, style@)),
{
    let name = postscript_name(family, style);
    let mut i: usize = 0;
    while i < fonts.len()
        invariant
            i <= fonts@.len(),
            name@ == postscript_of(family@, style@),
            forall|j: int| 0 <= j < i ==> fonts@[j]@ != name@,
        decreases fonts@.len() - i,
    {
        if same_text(fonts[i].as_str(), name.as_str()) {
            proof {
                let ns = names(fonts@);
                assert(ns[i as int] == name@);
                assert(ns.contains(name@));
                ns.index_of_first_ensures(name@);
                let k = ns.index_of_first(name@)->Some_0;
                if k < i {
                    assert(fonts@[k]@ == name@);
                }
                if k > i {
                    assert(ns[i as int] != name@);
                }
            }
            return i;
        }
        i = i + 1;
    }
    proof {
        let ns = names(fonts@);
        ns.index_of_first_ensures(name@);
        if ns.contains(name@) {
            let k = ns.index_of_first(name@)->Some_0;
            assert(fonts@[k]@ == name@);
        }
    }
    0
}

proof fn lemma_fonts_of(runs: Seq<RunSetting>, k: int)
    requires
        0 <= k <= runs.len(),
    ensures
        fonts_of(runs, k).no_duplicates(),
        forall|i: int| 0 <= i < k ==> fonts_of(runs, k).contains(#[trigger] run_font(runs[i])),
    decreases k,
{
    if k > 0 {
        lemma_fonts_of(runs, k - 1);
        let prev = fonts_of(runs, k - 1);
        let name = run_font(runs[k - 1]);
        if !prev.contains(name) {
            let now = prev.push(name);
            assert forall|a: int, b: int| 0 <= a < b < now.len() implies now[a] != now[b] by {
                if b == now.len() - 1 {
                    assert(prev[a] == now[a]);
                }
            }
            assert forall|i: int| 0 <= i < k implies now.contains(#[trigger] run_font(runs[i])) by {
                if i < k - 1 {
                    let j = choose|j: int| 0 <= j < prev.len() && prev[j] == run_font(runs[i]);
                    assert(now[j] == prev[j]);
                } else {
                    assert(now[now.len() - 1] == name);
                }
            }
        }
    }
}

/// Every run lands in the font set exactly once: the set names each font
/// one time, every run's font is in it, and the index a run is given points
/// at its own font.
pub proof fn law_every_run_lands_in_the_font_set_once(runs: Seq<RunSetting>)
    ensures
        font_set_of(runs).no_duplicates(),
        forall|i: int|
            0 <= i < runs.len() ==> font_set_of(runs)[index_in(
                font_set_of(runs),
                #[trigger] run_font(runs[i]),
            )] == run_font(runs[i]),
{
    lemma_fonts_of(runs, runs.len() as int);
    assert forall|i: int| 0 <= i < runs.len() implies font_set_of(runs)[index_in(
        font_set_of(runs),
        #[trigger] run_font(runs[i]),
    )] == run_font(runs[i]) by {
        let set = font_set_of(runs);
        assert(set.contains(run_font(runs[i])));
        set.index_of_first_ensures(run_font(runs[i]));
    }
}

// ---------------------------------------------------------------------------
// EngineData
// ---------------------------------------------------------------------------

/// A style sheet: the font by its index in the font set, the size and
/// leading, the fixed settings every run here shares, and the fill colour.
#[verifier::opaque]
pub open spec fn style_sheet_bytes(depth: nat, font: usize, size: Seq<char>, leading: Seq<char>, color: Seq<char>) -> Seq<u8> {
    line_bytes(depth as nat, "/StyleSheet"@)
        + line_bytes(depth as nat, "<<"@)
        + line_bytes((depth + 1) as nat, "/StyleSheetData"@)
        + line_bytes((depth + 1) as nat, "<<"@)
        + line_bytes((depth + 2) as nat, "/Font "@ + decimal(font as nat))
        + line_bytes((depth + 2) as nat, "/FontSize "@ + size)
        + line_bytes((depth + 2) as nat, "/AutoLeading true"@)
        + line_bytes((depth + 2) as nat, "/Leading "@ + leading)
        + line_bytes((depth + 2) as nat, "/HorizontalScale 1.0"@)
        + line_bytes((depth + 2) as nat, "/VerticalScale 1.0"@)
        + line_bytes((depth + 2) as nat, "/Tracking 0"@)
        + line_bytes((depth + 2) as nat, "/BaselineShift 0.0"@)
        + line_bytes((depth + 2) as nat, "/AutoKerning true"@)
        + line_bytes((depth + 2) as nat, "/Kerning 0"@)
        + line_bytes((depth + 2) as nat, "/FontCaps 0"@)
        + line_bytes((depth + 2) as nat, "/FontBaseline 0"@)
        + line_bytes((depth + 2) as nat, "/Underline false"@)
        + line_bytes((depth + 2) as nat, "/Strikethrough false"@)
        + line_bytes((depth + 2) as nat, "/Ligatures true"@)
        + line_bytes((depth + 2) as nat, "/StyleRunAlignment 2"@)
        + line_bytes((depth + 2) as nat, "/NoBreak false"@)
        + line_bytes((depth + 2) as nat, "/FillColor"@)
        + line_bytes((depth + 2) as nat, "<<"@)
        + line_bytes((depth + 3) as nat, "/Type 1"@)
        + line_bytes((depth + 3) as nat, "/Values [ "@ + color + " ]"@)
        + line_bytes((depth + 2) as nat, ">>"@)
        + line_bytes((depth + 2) as nat, "/FillFlag true"@)
        + line_bytes((depth + 2) as nat, "/StrokeFlag false"@)
        + line_bytes((depth + 1) as nat, ">>"@)
        + line_bytes(depth as nat, ">>"@)
}

#[verifier::spinoff_prover]
fn write_style_sheet_lines(d: &mut Dump, depth: usize, font: usize, size: &str, leading: &str, color: &str)
    requires
        depth + 3 <= usize::MAX,
    ensures
        final(d).out@ == old(d).out@ + style_sheet_bytes(depth as nat, font, size@, leading@, color@),
{
    let ghost base = d.out@;
    let ghost acc = Seq::<u8>::empty();
    assert(base == base + acc);
    let ghost before = d.out@;
    d.open(depth, "/StyleSheet");
    proof {
        lemma_grow(base, acc, line_bytes(depth as nat, "/StyleSheet"@), before);
        lemma_grow(base, acc + line_bytes(depth as nat, "/StyleSheet"@), line_bytes(depth as nat, "<<"@), before + line_bytes(depth as nat, "/StyleSheet"@));
    }
    let ghost acc = acc + line_bytes(depth as nat, "/StyleSheet"@) + line_bytes(depth as nat, "<<"@);
    let ghost before = d.out@;
    d.open(depth + 1, "/StyleSheetData");
    proof {
        lemma_grow(base, acc, line_bytes((depth + 1) as nat, "/StyleSheetData"@), before);
        lemma_grow(base, acc + line_bytes((depth + 1) as nat, "/StyleSheetData"@), line_bytes((depth + 1) as nat, "<<"@), before + line_bytes((depth + 1) as nat, "/StyleSheetData"@));
    }
    let ghost acc = acc + line_bytes((depth + 1) as nat, "/StyleSheetData"@) + line_bytes((depth + 1) as nat, "<<"@);
    let ghost before = d.out@;
    let mut line = String::from_str("/Font ");
    push_decimal(&mut line, font as u64);
    d.line(depth + 2, line.as_str());
    proof { lemma_grow(base, acc, line_bytes((depth + 2) as nat, "/Font "@ + decimal(font as nat)), before); }
    let ghost acc = acc + line_bytes((depth + 2) as nat, "/Font "@ + decimal(font as nat));
    let ghost before = d.out@;
    let mut line = String::from_str("/FontSize ");
    line.append(size);
    d.line(depth + 2, line.as_str());
    proof { lemma_grow(base, acc, line_bytes((depth + 2) as nat, "/FontSize "@ + size@), before); }
    let ghost acc = acc + line_bytes((depth + 2) as nat, "/FontSize "@ + size@);
    let ghost before = d.out@;
    d.line(depth + 2, "/AutoLeading true");
    proof { lemma_grow(base, acc, line_bytes((depth + 2) as nat, "/AutoLeading true"@), before); }
    let ghost acc = acc + line_bytes((depth + 2) as nat, "/AutoLeading true"@);
    let ghost before = d.out@;
    let mut line = String::from_str("/Leading ");
    line.append(leading);
    d.line(depth + 2, line.as_str());
    proof { lemma_grow(base, acc, line_bytes((depth + 2) as nat, "/Leading "@ + leading@), before); }
    let ghost acc = acc + line_bytes((depth + 2) as nat, "/Leading "@ + leading@);
    let ghost before = d.out@;
    d.line(depth + 2, "/HorizontalScale 1.0");
    proof { lemma_grow(base, acc, line_bytes((depth + 2) as nat, "/HorizontalScale 1.0"@), before); }
    let ghost acc = acc + line_bytes((depth + 2) as nat, "/HorizontalScale 1.0"@);
    let ghost before = d.out@;
    d.line(depth + 2, "/VerticalScale 1.0");
    proof { lemma_grow(base, acc, line_bytes((depth + 2) as nat, "/VerticalScale 1.0"@), before); }
    let ghost acc = acc + line_bytes((depth + 2) as nat, "/VerticalScale 1.0"@);
    let ghost before = d.out@;
    d.line(depth + 2, "/Tracking 0");
    proof { lemma_grow(base, acc, line_bytes((depth + 2) as nat, "/Tracking 0"@), before); }
    let ghost acc = acc + line_bytes((depth + 2) as nat, "/Tracking 0"@);
    let ghost before = d.out@;
    d.line(depth + 2, "/BaselineShift 0.0");
    proof { lemma_grow(base, acc, line_bytes((depth + 2) as nat, "/BaselineShift 0.0"@), before); }
    let ghost acc = acc + line_bytes((depth + 2) as nat, "/BaselineShift 0.0"@);
    let ghost before = d.out@;
    d.line(depth + 2, "/AutoKerning true");
    proof { lemma_grow(base, acc, line_bytes((depth + 2) as nat, "/AutoKerning true"@), before); }
    let ghost acc = acc + line_bytes((depth + 2) as nat, "/AutoKerning true"@);
    let ghost before = d.out@;
    d.line(depth + 2, "/Kerning 0");
    proof { lemma_grow(base, acc, line_bytes((depth + 2) as nat, "/Kerning 0"@), before); }
    let ghost acc = acc + line_bytes((depth + 2) as nat, "/Kerning 0"@);
    let ghost before = d.out@;
    d.line(depth + 2, "/FontCaps 0");
    proof { lemma_grow(base, acc, line_bytes((depth + 2) as nat, "/FontCaps 0"@), before); }
    let ghost acc = acc + line_bytes((depth + 2) as nat, "/FontCaps 0"@);
    let ghost before = d.out@;
    d.line(depth + 2, "/FontBaseline 0");
    proof { lemma_grow(base, acc, line_bytes((depth + 2) as nat, "/FontBaseline 0"@), before); }
    let ghost acc = acc + line_bytes((depth + 2) as nat, "/FontBaseline 0"@);
    let ghost before = d.out@;
    d.line(depth + 2, "/Underline false");
    proof { lemma_grow(base, acc, line_bytes((depth + 2) as nat, "/Underline false"@), before); }
    let ghost acc = acc + line_bytes((depth + 2) as nat, "/Underline false"@);
    let ghost before = d.out@;
    d.line(depth + 2, "/Strikethrough false");
    proof { lemma_grow(base, acc, line_bytes((depth + 2) as nat, "/Strikethrough false"@), before); }
    let ghost acc = acc + line_bytes((depth + 2) as nat, "/Strikethrough false"@);
    let ghost before = d.out@;
    d.line(depth + 2, "/Ligatures true");
    proof { lemma_grow(base, acc, line_bytes((depth + 2) as nat, "/Ligatures true"@), before); }
    let ghost acc = acc + line_bytes((depth + 2) as nat, "/Ligatures true"@);
    let ghost before = d.out@;
    d.line(depth + 2, "/StyleRunAlignment 2");
    proof { lemma_grow(base, acc, line_bytes((depth + 2) as nat, "/StyleRunAlignment 2"@), before); }
    let ghost acc = acc + line_bytes((depth + 2) as nat, "/StyleRunAlignment 2"@);
    let ghost before = d.out@;
    d.line(depth + 2, "/NoBreak false");
    proof { lemma_grow(base, acc, line_bytes((depth + 2) as nat, "/NoBreak false"@), before); }
    let ghost acc = acc + line_bytes((depth + 2) as nat, "/NoBreak false"@);
    let ghost before = d.out@;
    d.open(depth + 2, "/FillColor");
    proof {
        lemma_grow(base, acc, line_bytes((depth + 2) as nat, "/FillColor"@), before);
        lemma_grow(base, acc + line_bytes((depth + 2) as nat, "/FillColor"@), line_bytes((depth + 2) as nat, "<<"@), before + line_bytes((depth + 2) as nat, "/FillColor"@));
    }
    let ghost acc = acc + line_bytes((depth + 2) as nat, "/FillColor"@) + line_bytes((depth + 2) as nat, "<<"@);
    let ghost before = d.out@;
    d.line(depth + 3, "/Type 1");
    proof { lemma_grow(base, acc, line_bytes((depth + 3) as nat, "/Type 1"@), before); }
    let ghost acc = acc + line_bytes((depth + 3) as nat, "/Type 1"@);
    let ghost before = d.out@;
    let mut line = String::from_str("/Values [ ");
    line.append(color);
    line.append(" ]");
    d.line(depth + 3, line.as_str());
    proof { lemma_grow(base, acc, line_bytes((depth + 3) as nat, "/Values [ "@ + color@ + " ]"@), before); }
    let ghost acc = acc + line_bytes((depth + 3) as nat, "/Values [ "@ + color@ + " ]"@);
    let ghost before = d.out@;
    d.close(depth + 2);
    proof { lemma_grow(base, acc, line_bytes((depth + 2) as nat, ">>"@), before); }
    let ghost acc = acc + line_bytes((depth + 2) as nat, ">>"@);
    let ghost before = d.out@;
    d.line(depth + 2, "/FillFlag true");
    proof { lemma_grow(base, acc, line_bytes((depth + 2) as nat, "/FillFlag true"@), before); }
    let ghost acc = acc + line_bytes((depth + 2) as nat, "/FillFlag true"@);
    let ghost before = d.out@;
    d.line(depth + 2, "/StrokeFlag false");
    proof { lemma_grow(base, acc, line_bytes((depth + 2) as nat, "/StrokeFlag false"@), before); }
    let ghost acc = acc + line_bytes((depth + 2) as nat, "/StrokeFlag false"@);
    let ghost before = d.out@;
    d.close(depth + 1);
    proof { lemma_grow(base, acc, line_bytes((depth + 1) as nat, ">>"@), before); }
    let ghost acc = acc + line_bytes((depth + 1) as nat, ">>"@);
    let ghost before = d.out@;
    d.close(depth);
    proof { lemma_grow(base, acc, line_bytes(depth as nat, ">>"@), before); }
    let ghost acc = acc + line_bytes(depth as nat, ">>"@);
    reveal(style_sheet_bytes);
    assert(d.out@ == base + acc);
}


/// The style sheet of a run, or of the default run when there is none: no
/// family, Regular, 12 points with 14.4 leading, opaque black.
pub open spec fn style_sheet_of(depth: nat, run: Option<RunSetting>, fonts: Seq<Seq<char>>) -> Seq<
    u8,
> {
    match run {
        Some(r) => style_sheet_bytes(
            depth,
            index_in(fonts, run_font(r)) as usize,
            r.size@,
            r.leading@,
            r.color@,
        ),
        None => style_sheet_bytes(
            depth,
            index_in(fonts, postscript_of(Seq::empty(), "Regular"@)) as usize,
            "12.0"@,
            "14.4"@,
            "1.0 0.0 0.0 0.0"@,
        ),
    }
}

/// A run by reference, as a value for the specifications.
pub open spec fn run_value(run: Option<&RunSetting>) -> Option<RunSetting> {
    match run {
        Some(r) => Some(*r),
        None => None,
    }
}

fn write_style_sheet(d: &mut Dump, depth: usize, run: Option<&RunSetting>, fonts: &Vec<String>)
    requires
        depth + 3 <= usize::MAX,
    ensures
        final(d).out@ == old(d).out@ + style_sheet_of(depth as nat, run_value(run), names(fonts@)),
{
    match run {
        Some(r) => {
            let font = font_index(fonts, r.family.as_str(), r.style.as_str());
            write_style_sheet_lines(
                d,
                depth,
                font,
                r.size.as_str(),
                r.leading.as_str(),
                r.color.as_str(),
            );
        },
        None => {
            let font = font_index(fonts, "", "Regular");
            proof {
                reveal_strlit("");
            }
            assert(""@ == Seq::<char>::empty());
            write_style_sheet_lines(d, depth, font, "12.0", "14.4", "1.0 0.0 0.0 0.0");
        },
    }
}

/// `piece`, `n` times over.
pub open spec fn repeated(piece: Seq<u8>, n: nat) -> Seq<u8>
    decreases n,
{
    if n == 0 {
        seq![]
    } else {
        repeated(piece, (n - 1) as nat) + piece
    }
}

/// One entry of the paragraph run array.
pub open spec fn paragraph_item(justification: u8) -> Seq<u8> {
    line_bytes(4, "<<"@) + paragraph_sheet_bytes(5, justification) + line_bytes(4, ">>"@)
}

/// The paragraph run: the default paragraph, one entry per paragraph, and
/// the paragraphs' lengths.
pub open spec fn paragraph_run_bytes(justification: u8, lengths: Seq<usize>) -> Seq<u8> {
    line_bytes(2, "/ParagraphRun"@) + line_bytes(2, "<<"@) + line_bytes(3, "/DefaultRunData"@)
        + line_bytes(3, "<<"@) + paragraph_sheet_bytes(4, justification) + line_bytes(3, ">>"@)
        + line_bytes(3, "/RunArray ["@) + repeated(paragraph_item(justification), lengths.len())
        + line_bytes(3, "]"@) + line_bytes(3, "/RunLengthArray [ "@ + joined(lengths) + " ]"@)
        + line_bytes(3, "/IsJoinable 1"@) + line_bytes(2, ">>"@)
}

/// The number the engine gives an alignment: left 0, right 1, centre 2.
pub open spec fn justification_of(align: TextAlign) -> u8 {
    match align {
        TextAlign::Left => 0,
        TextAlign::Right => 1,
        TextAlign::Center => 2,
    }
}

fn justification(align: TextAlign) -> (j: u8)
    ensures
        j == justification_of(align),
{
    match align {
        TextAlign::Left => 0,
        TextAlign::Right => 1,
        TextAlign::Center => 2,
    }
}

/// The paragraphs' lengths as counts.
pub open spec fn paragraph_counts(body: Seq<char>) -> Seq<usize> {
    paragraphs(body).map_values(|v: int| v as usize)
}

proof fn lemma_counts(lengths: Seq<usize>, body: Seq<char>)
    requires
        lengths.map_values(|v: usize| v as int) == paragraphs(body),
    ensures
        lengths == paragraph_counts(body),
{
    assert forall|i: int| 0 <= i < lengths.len() implies lengths[i] == paragraph_counts(body)[i] by {
        assert(lengths.map_values(|v: usize| v as int)[i] == lengths[i] as int);
    }
    assert(lengths =~= paragraph_counts(body));
}

/// Concatenation regroups.
pub proof fn lemma_regroup(a: Seq<u8>, b: Seq<u8>, c: Seq<u8>)
    ensures
        (a + b) + c == a + (b + c),
{
    assert((a + b) + c =~= a + (b + c));
}

/// Justification is a paragraph property, so alignment lives here rather than
/// with the character runs.
#[verifier::spinoff_prover]
fn write_paragraph_run(d: &mut Dump, t: &TextSetting, body: &str)
    requires
        body@.len() <= usize::MAX / 2,
    ensures
        final(d).out@ == old(d).out@ + paragraph_run_bytes(
            justification_of(t.align),
            paragraph_counts(body@),
        ),
{
    let j = justification(t.align);
    let lengths = paragraph_lengths(body);
    proof {
        lemma_counts(lengths@, body@);
    }
    let ghost base = d.out@;
    d.open(2, "/ParagraphRun");
    proof {
        lemma_regroup(base, line_bytes(2, "/ParagraphRun"@), line_bytes(2, "<<"@));
    }
    let ghost acc = line_bytes(2, "/ParagraphRun"@) + line_bytes(2, "<<"@);
    let ghost before = d.out@;
    d.open(3, "/DefaultRunData");
    proof {
        lemma_grow(base, acc, line_bytes(3, "/DefaultRunData"@), before);
        lemma_grow(base, acc + line_bytes(3, "/DefaultRunData"@), line_bytes(3, "<<"@), before + line_bytes(3, "/DefaultRunData"@));
    }
    let ghost acc = acc + line_bytes(3, "/DefaultRunData"@) + line_bytes(3, "<<"@);
    let ghost before = d.out@;
    write_paragraph_sheet(d, 4, j);
    proof { lemma_grow(base, acc, paragraph_sheet_bytes(4, j), before); }
    let ghost acc = acc + paragraph_sheet_bytes(4, j);
    let ghost before = d.out@;
    d.close(3);
    proof { lemma_grow(base, acc, line_bytes(3, ">>"@), before); }
    let ghost acc = acc + line_bytes(3, ">>"@);
    let ghost before = d.out@;
    d.line(3, "/RunArray [");
    proof { lemma_grow(base, acc, line_bytes(3, "/RunArray ["@), before); }
    let ghost acc = acc + line_bytes(3, "/RunArray ["@);
    let ghost head = d.out@;
    let mut k: usize = 0;
    while k < lengths.len()
        invariant
            k <= lengths@.len(),
            d.out@ == head + repeated(paragraph_item(j), k as nat),
        decreases lengths@.len() - k,
    {
        let ghost before = d.out@;
        d.line(4, "<<");
        write_paragraph_sheet(d, 5, j);
        d.line(4, ">>");
        proof {
            let l1 = line_bytes(4, "<<"@);
            let p = paragraph_sheet_bytes(5, j);
            let l2 = line_bytes(4, ">>"@);
            lemma_regroup(before, l1, p);
            lemma_regroup(before, l1 + p, l2);
            lemma_regroup(head, repeated(paragraph_item(j), k as nat), paragraph_item(j));
        }
        k = k + 1;
    }
    let ghost before = head;
    proof { lemma_grow(base, acc, repeated(paragraph_item(j), lengths@.len()), before); }
    let ghost acc = acc + repeated(paragraph_item(j), lengths@.len());
    let ghost before = d.out@;
    d.line(3, "]");
    proof { lemma_grow(base, acc, line_bytes(3, "]"@), before); }
    let ghost acc = acc + line_bytes(3, "]"@);
    let mut line = String::from_str("/RunLengthArray [ ");
    line.append(join_numbers(lengths.as_slice()).as_str());
    line.append(" ]");
    let ghost before = d.out@;
    d.line(3, line.as_str());
    proof { lemma_grow(base, acc, line_bytes(3, "/RunLengthArray [ "@ + joined(lengths@) + " ]"@), before); }
    let ghost acc = acc + line_bytes(3, "/RunLengthArray [ "@ + joined(lengths@) + " ]"@);
    let ghost before = d.out@;
    d.line(3, "/IsJoinable 1");
    proof { lemma_grow(base, acc, line_bytes(3, "/IsJoinable 1"@), before); }
    let ghost acc = acc + line_bytes(3, "/IsJoinable 1"@);
    let ghost before = d.out@;
    d.close(2);
    proof { lemma_grow(base, acc, line_bytes(2, ">>"@), before); }
    let ghost acc = acc + line_bytes(2, ">>"@);
    assert(d.out@ == base + acc);
}

/// The first run, if there is one.
pub open spec fn first_run(runs: Seq<RunSetting>) -> Option<RunSetting> {
    if runs.len() > 0 {
        Some(runs[0])
    } else {
        None
    }
}

/// One entry of the style run array.
pub open spec fn style_item(run: RunSetting, fonts: Seq<Seq<char>>) -> Seq<u8> {
    line_bytes(4, "<<"@) + style_sheet_of(5, Some(run), fonts) + line_bytes(4, ">>"@)
}

/// The entries of the first `k` runs.
pub open spec fn style_items(runs: Seq<RunSetting>, fonts: Seq<Seq<char>>, k: int) -> Seq<u8>
    decreases k,
{
    if k <= 0 {
        seq![]
    } else {
        style_items(runs, fonts, k - 1) + style_item(runs[k - 1], fonts)
    }
}

/// One length per run, in UTF-16 units; the last counts the carriage return
/// that closes the text as well.
pub open spec fn run_lengths(runs: Seq<RunSetting>) -> Seq<usize> {
    Seq::new(
        runs.len(),
        |i: int|
            (utf16_encode(runs[i].text@).len() + if i == runs.len() - 1 {
                1int
            } else {
                0int
            }) as usize,
    )
}

/// Whether `s` holds a carriage return followed by a line feed.
pub open spec fn has_crlf(s: Seq<char>) -> bool {
    exists|i: int| 0 <= i < s.len() - 1 && s[i] == '\r' && #[trigger] s[i + 1] == '\n'
}

/// Whether `s` ends with a line break.
pub open spec fn ends_in_break(s: Seq<char>) -> bool {
    s.len() > 0 && (s.last() == '\r' || s.last() == '\n')
}

/// The UTF-16 units of the text of the first `k` runs, run by run.
pub open spec fn run_units(runs: Seq<RunSetting>, k: int) -> int
    decreases k,
{
    if k <= 0 {
        0
    } else {
        run_units(runs, k - 1) + utf16_encode(runs[k - 1].text@).len()
    }
}

proof fn lemma_utf16_len_concat(a: Seq<char>, b: Seq<char>)
    ensures
        utf16_encode(a + b).len() == utf16_encode(a).len() + utf16_encode(b).len(),
    decreases a.len(),
{
    if a.len() > 0 {
        lemma_utf16_len_concat(a.drop_first(), b);
        assert((a + b).drop_first() =~= a.drop_first() + b);
        assert((a + b)[0] == a[0]);
    } else {
        assert(a + b =~= b);
    }
}

proof fn lemma_run_units(runs: Seq<RunSetting>, k: int)
    requires
        0 <= k <= runs.len(),
    ensures
        utf16_encode(runs_text(runs, k)).len() == run_units(runs, k),
    decreases k,
{
    if k > 0 {
        lemma_run_units(runs, k - 1);
        lemma_utf16_len_concat(runs_text(runs, k - 1), runs[k - 1].text@);
    } else {
        assert(utf16_encode(Seq::<char>::empty()) =~= Seq::<u16>::empty());
    }
}

/// Without a return and line feed pair, turning line breaks into returns
/// keeps the UTF-16 length, and the text ends in a return exactly when it
/// ended in a line break.
proof fn lemma_with_returns_units(s: Seq<char>)
    requires
        !has_crlf(s),
    ensures
        utf16_encode(with_returns(s)).len() == utf16_encode(s).len(),
        s.len() > 0 ==> with_returns(s).len() > 0 && ((with_returns(s).last() == '\r') == ends_in_break(s)),
    decreases s.len(),
{
    if s.len() > 0 {
        let r = s.drop_first();
        assert(!(s.len() >= 2 && s[0] == '\r' && s[1] == '\n')) by {
            if s.len() >= 2 && s[0] == '\r' && s[1] == '\n' {
                assert(s[0int + 1] == '\n');
            }
        }
        assert(!has_crlf(r)) by {
            if has_crlf(r) {
                let i = choose|i: int| 0 <= i < r.len() - 1 && r[i] == '\r' && #[trigger] r[i + 1] == '\n';
                assert(s[i + 1] == '\r' && s[(i + 1) + 1] == '\n');
            }
        }
        lemma_with_returns_units(r);
        let c = if s[0] == '\n' {
            '\r'
        } else {
            s[0]
        };
        let w = with_returns(s);
        assert(w == seq![c] + with_returns(r));
        assert(w.drop_first() =~= with_returns(r));
        assert(s == seq![s[0]] + r);
        assert(utf16_encode(w) == utf16_of(c) + utf16_encode(with_returns(r)));
        assert(utf16_encode(s) == utf16_of(s[0]) + utf16_encode(r));
        assert(utf16_of(c).len() == utf16_of(s[0]).len());
        if r.len() == 0 {
            assert(with_returns(r) =~= Seq::<char>::empty());
            assert(w.last() == c);
        } else {
            assert(w.last() == with_returns(r).last());
            assert(s.last() == r.last());
        }
    }
}

/// The style run lengths add up to the length of the engine's text, counted
/// in UTF-16 units, as the engine checks before it accepts them: each run
/// counts its own text and the last one the closing return as well. This
/// holds for text with no return and line feed pair (which the engine's text
/// writes as one return) and not ending in a line break (after which no
/// closing return is added).
pub proof fn law_style_lengths_add_up(runs: Seq<RunSetting>)
    requires
        runs.len() > 0,
        forall|i: int| 0 <= i < runs.len() ==> utf16_encode(#[trigger] runs[i].text@).len() < usize::MAX,
        !has_crlf(runs_text(runs, runs.len() as int)),
        !ends_in_break(runs_text(runs, runs.len() as int)),
    ensures
        total(run_lengths(runs).map_values(|v: usize| v as int)) == utf16_encode(
            closed_text(with_returns(runs_text(runs, runs.len() as int))),
        ).len(),
{
    let n = runs.len() as int;
    let text = runs_text(runs, n);
    let v = run_lengths(runs).map_values(|x: usize| x as int);
    // Without the closing return, the lengths are the runs' own.
    let plain = Seq::new(n as nat, |i: int| utf16_encode(runs[i].text@).len() as int);
    assert forall|k: int| 0 <= k <= n implies #[trigger] total(plain.subrange(0, k)) == run_units(runs, k) by {
        lemma_total_prefix(runs, plain, k);
    }
    assert(plain.subrange(0, n) =~= plain);
    assert(v.drop_last() =~= plain.drop_last());
    assert(plain.drop_last() =~= plain.subrange(0, n - 1));
    assert(v.last() == plain.last() + 1);
    assert(total(plain.subrange(0, n - 1)) == run_units(runs, n - 1));
    assert(total(v) == total(v.drop_last()) + v.last());
    assert(total(v) == run_units(runs, n) + 1);
    lemma_run_units(runs, n);
    lemma_with_returns_units(text);
    let w = with_returns(text);
    if text.len() > 0 {
        assert(w.last() != '\r');
    }
    assert(closed_text(w) == w.push('\r'));
    lemma_utf16_len_concat(w, seq!['\r']);
    assert(w.push('\r') =~= w + seq!['\r']);
    assert(utf16_encode(seq!['\r']) == utf16_of('\r') + utf16_encode(seq!['\r'].drop_first()));
    assert(seq!['\r'].drop_first() =~= Seq::<char>::empty());
}

proof fn lemma_total_prefix(runs: Seq<RunSetting>, plain: Seq<int>, k: int)
    requires
        0 <= k <= plain.len(),
        plain.len() == runs.len(),
        forall|i: int| 0 <= i < plain.len() ==> plain[i] == utf16_encode(#[trigger] runs[i].text@).len(),
    ensures
        total(plain.subrange(0, k)) == run_units(runs, k),
    decreases k,
{
    if k > 0 {
        lemma_total_prefix(runs, plain, k - 1);
        assert(plain.subrange(0, k).drop_last() =~= plain.subrange(0, k - 1));
        assert(plain[k - 1] == utf16_encode(runs[k - 1].text@).len());
    }
}

fn run_length_list(t: &TextSetting) -> (lengths: Vec<usize>)
    requires
        forall|i: int| 0 <= i < t.runs@.len() ==> utf16_encode(#[trigger] t.runs@[i].text@).len() < usize::MAX,
    ensures
        lengths@ == run_lengths(t.runs@),
{
    let n = t.runs.len();
    let mut lengths: Vec<usize> = Vec::new();
    let mut i: usize = 0;
    while i < n
        invariant
            n == t.runs@.len(),
            i <= n,
            forall|k: int| 0 <= k < n ==> utf16_encode(#[trigger] t.runs@[k].text@).len() < usize::MAX,
            lengths@.len() == i,
            forall|k: int| 0 <= k < i ==> #[trigger] lengths@[k] == run_lengths(t.runs@)[k],
        decreases n - i,
    {
        let len = utf16_len(t.runs[i].text.as_str());
        assert(utf16_encode(t.runs@[i as int].text@).len() < usize::MAX);
        // The last run absorbs the closing carriage return.
        let len = if i + 1 == n {
            len + 1
        } else {
            len
        };
        lengths.push(len);
        i = i + 1;
    }
    assert(lengths@ =~= run_lengths(t.runs@));
    lengths
}

fn write_style_items(d: &mut Dump, t: &TextSetting, fonts: &Vec<String>)
    ensures
        final(d).out@ == old(d).out@ + style_items(t.runs@, names(fonts@), t.runs@.len() as int),
{
    let ghost head = d.out@;
    let mut k: usize = 0;
    while k < t.runs.len()
        invariant
            k <= t.runs@.len(),
            d.out@ == head + style_items(t.runs@, names(fonts@), k as int),
        decreases t.runs@.len() - k,
    {
        let ghost before = d.out@;
        d.line(4, "<<");
        write_style_sheet(d, 5, Some(&t.runs[k]), fonts);
        d.line(4, ">>");
        proof {
            let l1 = line_bytes(4, "<<"@);
            let p = style_sheet_of(5, Some(t.runs@[k as int]), names(fonts@));
            let l2 = line_bytes(4, ">>"@);
            lemma_regroup(before, l1, p);
            lemma_regroup(before, l1 + p, l2);
            lemma_regroup(
                head,
                style_items(t.runs@, names(fonts@), k as int),
                style_item(t.runs@[k as int], names(fonts@)),
            );
        }
        k = k + 1;
    }
}

/// One entry of the font set: its name and the fixed settings.
pub open spec fn font_item(name: Seq<char>) -> Seq<u8> {
    line_bytes(3, "<<"@) + engine_string_line_bytes(4, "/Name"@, name) + line_bytes(
        4,
        "/Script 0"@,
    ) + line_bytes(4, "/FontType 1"@) + line_bytes(4, "/Synthetic 0"@) + line_bytes(3, ">>"@)
}

/// The entries of the first `k` fonts.
pub open spec fn font_items(fonts: Seq<Seq<char>>, k: int) -> Seq<u8>
    decreases k,
{
    if k <= 0 {
        seq![]
    } else {
        font_items(fonts, k - 1) + font_item(fonts[k - 1])
    }
}

fn write_font_items(d: &mut Dump, fonts: &Vec<String>)
    ensures
        final(d).out@ == old(d).out@ + font_items(names(fonts@), names(fonts@).len() as int),
{
    let ghost head = d.out@;
    let mut k: usize = 0;
    while k < fonts.len()
        invariant
            k <= fonts@.len(),
            d.out@ == head + font_items(names(fonts@), k as int),
        decreases fonts@.len() - k,
    {
        let ghost before = d.out@;
        d.line(3, "<<");
        engine_string_line(d, 4, "/Name", fonts[k].as_str());
        d.line(4, "/Script 0");
        d.line(4, "/FontType 1");
        d.line(4, "/Synthetic 0");
        d.line(3, ">>");
        proof {
            assert(names(fonts@)[k as int] == fonts@[k as int]@);
            let item = font_item(names(fonts@)[k as int]);
            assert(d.out@ =~= before + item);
            lemma_regroup(head, font_items(names(fonts@), k as int), item);
        }
        k = k + 1;
    }
}

/// The style run: the default run's sheet, one sheet per run, and the runs'
/// lengths, the last counting the closing carriage return.
#[verifier::opaque]
pub open spec fn style_run_bytes(runs: Seq<RunSetting>, fonts: Seq<Seq<char>>) -> Seq<u8> {
    line_bytes(2, "/StyleRun"@)
        + line_bytes(2, "<<"@)
        + line_bytes(3, "/DefaultRunData"@)
        + line_bytes(3, "<<"@)
        + style_sheet_of(4, first_run(runs), fonts)
        + line_bytes(3, ">>"@)
        + line_bytes(3, "/RunArray ["@)
        + style_items(runs, fonts, runs.len() as int)
        + line_bytes(3, "]"@)
        + line_bytes(3, "/RunLengthArray [ "@ + joined(run_lengths(runs)) + " ]"@)
        + line_bytes(3, "/IsJoinable 2"@)
        + line_bytes(2, ">>"@)
}

#[verifier::spinoff_prover]
fn write_style_run(d: &mut Dump, t: &TextSetting, fonts: &Vec<String>)
    requires
        forall|i: int| 0 <= i < t.runs@.len() ==> utf16_encode(#[trigger] t.runs@[i].text@).len() < usize::MAX,
    ensures
        final(d).out@ == old(d).out@ + style_run_bytes(t.runs@, names(fonts@)),
{
    let first = if t.runs.len() > 0 {
        Some(&t.runs[0])
    } else {
        None
    };
    assert(run_value(first) == first_run(t.runs@));
    let lengths = run_length_list(t);
    let mut line = String::from_str("/RunLengthArray [ ");
    line.append(join_numbers(lengths.as_slice()).as_str());
    line.append(" ]");
    let ghost base = d.out@;
    d.line(2, "/StyleRun");
    let ghost acc = line_bytes(2, "/StyleRun"@);
    let ghost before = d.out@;
    d.line(2, "<<");
    proof { lemma_grow(base, acc, line_bytes(2, "<<"@), before); }
    let ghost acc = acc + line_bytes(2, "<<"@);
    let ghost before = d.out@;
    d.line(3, "/DefaultRunData");
    proof { lemma_grow(base, acc, line_bytes(3, "/DefaultRunData"@), before); }
    let ghost acc = acc + line_bytes(3, "/DefaultRunData"@);
    let ghost before = d.out@;
    d.line(3, "<<");
    proof { lemma_grow(base, acc, line_bytes(3, "<<"@), before); }
    let ghost acc = acc + line_bytes(3, "<<"@);
    let ghost before = d.out@;
    write_style_sheet(d, 4, first, fonts);
    proof { lemma_grow(base, acc, style_sheet_of(4, first_run(t.runs@), names(fonts@)), before); }
    let ghost acc = acc + style_sheet_of(4, first_run(t.runs@), names(fonts@));
    let ghost before = d.out@;
    d.line(3, ">>");
    proof { lemma_grow(base, acc, line_bytes(3, ">>"@), before); }
    let ghost acc = acc + line_bytes(3, ">>"@);
    let ghost before = d.out@;
    d.line(3, "/RunArray [");
    proof { lemma_grow(base, acc, line_bytes(3, "/RunArray ["@), before); }
    let ghost acc = acc + line_bytes(3, "/RunArray ["@);
    let ghost before = d.out@;
    write_style_items(d, t, fonts);
    proof { lemma_grow(base, acc, style_items(t.runs@, names(fonts@), t.runs@.len() as int), before); }
    let ghost acc = acc + style_items(t.runs@, names(fonts@), t.runs@.len() as int);
    let ghost before = d.out@;
    d.line(3, "]");
    proof { lemma_grow(base, acc, line_bytes(3, "]"@), before); }
    let ghost acc = acc + line_bytes(3, "]"@);
    let ghost before = d.out@;
    d.line(3, line.as_str());
    proof { lemma_grow(base, acc, line_bytes(3, "/RunLengthArray [ "@ + joined(run_lengths(t.runs@)) + " ]"@), before); }
    let ghost acc = acc + line_bytes(3, "/RunLengthArray [ "@ + joined(run_lengths(t.runs@)) + " ]"@);
    let ghost before = d.out@;
    d.line(3, "/IsJoinable 2");
    proof { lemma_grow(base, acc, line_bytes(3, "/IsJoinable 2"@), before); }
    let ghost acc = acc + line_bytes(3, "/IsJoinable 2"@);
    let ghost before = d.out@;
    d.line(2, ">>");
    proof { lemma_grow(base, acc, line_bytes(2, ">>"@), before); }
    let ghost acc = acc + line_bytes(2, ">>"@);
    reveal(style_run_bytes);
    assert(d.out@ == base + acc);
}

/// The resources the runs point at: empty East Asian line-breaking sets,
/// the normal paragraph and style sheets, and the font set.
#[verifier::opaque]
pub open spec fn resources_bytes(align: TextAlign, runs: Seq<RunSetting>, fonts: Seq<Seq<char>>) -> Seq<u8> {
    line_bytes(2, "/KinsokuSet ["@)
        + line_bytes(2, "]"@)
        + line_bytes(2, "/MojiKumiSet ["@)
        + line_bytes(2, "]"@)
        + line_bytes(2, "/TheNormalStyleSheet 0"@)
        + line_bytes(2, "/TheNormalParagraphSheet 0"@)
        + line_bytes(2, "/ParagraphSheetSet ["@)
        + line_bytes(3, "<<"@)
        + engine_string_line_bytes(4, "/Name"@, "Normal RGB"@)
        + line_bytes(4, "/DefaultStyleSheet 0"@)
        + paragraph_sheet_bytes(4, justification_of(align))
        + line_bytes(3, ">>"@)
        + line_bytes(2, "]"@)
        + line_bytes(2, "/StyleSheetSet ["@)
        + line_bytes(3, "<<"@)
        + engine_string_line_bytes(4, "/Name"@, "Normal RGB"@)
        + style_sheet_of(4, first_run(runs), fonts)
        + line_bytes(3, ">>"@)
        + line_bytes(2, "]"@)
        + line_bytes(2, "/FontSet ["@)
        + font_items(fonts, fonts.len() as int)
        + line_bytes(2, "]"@)
        + line_bytes(2, "/SuperscriptSize .583"@)
        + line_bytes(2, "/SuperscriptPosition .333"@)
        + line_bytes(2, "/SubscriptSize .583"@)
        + line_bytes(2, "/SubscriptPosition .333"@)
        + line_bytes(2, "/SmallCapSize .7"@)
}

#[verifier::spinoff_prover]
fn write_resources(d: &mut Dump, t: &TextSetting, fonts: &Vec<String>)
    ensures
        final(d).out@ == old(d).out@ + resources_bytes(t.align, t.runs@, names(fonts@)),
{
    let first = if t.runs.len() > 0 {
        Some(&t.runs[0])
    } else {
        None
    };
    assert(run_value(first) == first_run(t.runs@));
    let j = justification(t.align);
    let ghost base = d.out@;
    d.line(2, "/KinsokuSet [");
    let ghost acc = line_bytes(2, "/KinsokuSet ["@);
    let ghost before = d.out@;
    d.line(2, "]");
    proof { lemma_grow(base, acc, line_bytes(2, "]"@), before); }
    let ghost acc = acc + line_bytes(2, "]"@);
    let ghost before = d.out@;
    d.line(2, "/MojiKumiSet [");
    proof { lemma_grow(base, acc, line_bytes(2, "/MojiKumiSet ["@), before); }
    let ghost acc = acc + line_bytes(2, "/MojiKumiSet ["@);
    let ghost before = d.out@;
    d.line(2, "]");
    proof { lemma_grow(base, acc, line_bytes(2, "]"@), before); }
    let ghost acc = acc + line_bytes(2, "]"@);
    let ghost before = d.out@;
    d.line(2, "/TheNormalStyleSheet 0");
    proof { lemma_grow(base, acc, line_bytes(2, "/TheNormalStyleSheet 0"@), before); }
    let ghost acc = acc + line_bytes(2, "/TheNormalStyleSheet 0"@);
    let ghost before = d.out@;
    d.line(2, "/TheNormalParagraphSheet 0");
    proof { lemma_grow(base, acc, line_bytes(2, "/TheNormalParagraphSheet 0"@), before); }
    let ghost acc = acc + line_bytes(2, "/TheNormalParagraphSheet 0"@);
    let ghost before = d.out@;
    d.line(2, "/ParagraphSheetSet [");
    proof { lemma_grow(base, acc, line_bytes(2, "/ParagraphSheetSet ["@), before); }
    let ghost acc = acc + line_bytes(2, "/ParagraphSheetSet ["@);
    let ghost before = d.out@;
    d.line(3, "<<");
    proof { lemma_grow(base, acc, line_bytes(3, "<<"@), before); }
    let ghost acc = acc + line_bytes(3, "<<"@);
    let ghost before = d.out@;
    engine_string_line(d, 4, "/Name", "Normal RGB");
    proof { lemma_grow(base, acc, engine_string_line_bytes(4, "/Name"@, "Normal RGB"@), before); }
    let ghost acc = acc + engine_string_line_bytes(4, "/Name"@, "Normal RGB"@);
    let ghost before = d.out@;
    d.line(4, "/DefaultStyleSheet 0");
    proof { lemma_grow(base, acc, line_bytes(4, "/DefaultStyleSheet 0"@), before); }
    let ghost acc = acc + line_bytes(4, "/DefaultStyleSheet 0"@);
    let ghost before = d.out@;
    write_paragraph_sheet(d, 4, j);
    proof { lemma_grow(base, acc, paragraph_sheet_bytes(4, justification_of(t.align)), before); }
    let ghost acc = acc + paragraph_sheet_bytes(4, justification_of(t.align));
    let ghost before = d.out@;
    d.line(3, ">>");
    proof { lemma_grow(base, acc, line_bytes(3, ">>"@), before); }
    let ghost acc = acc + line_bytes(3, ">>"@);
    let ghost before = d.out@;
    d.line(2, "]");
    proof { lemma_grow(base, acc, line_bytes(2, "]"@), before); }
    let ghost acc = acc + line_bytes(2, "]"@);
    let ghost before = d.out@;
    d.line(2, "/StyleSheetSet [");
    proof { lemma_grow(base, acc, line_bytes(2, "/StyleSheetSet ["@), before); }
    let ghost acc = acc + line_bytes(2, "/StyleSheetSet ["@);
    let ghost before = d.out@;
    d.line(3, "<<");
    proof { lemma_grow(base, acc, line_bytes(3, "<<"@), before); }
    let ghost acc = acc + line_bytes(3, "<<"@);
    let ghost before = d.out@;
    engine_string_line(d, 4, "/Name", "Normal RGB");
    proof { lemma_grow(base, acc, engine_string_line_bytes(4, "/Name"@, "Normal RGB"@), before); }
    let ghost acc = acc + engine_string_line_bytes(4, "/Name"@, "Normal RGB"@);
    let ghost before = d.out@;
    write_style_sheet(d, 4, first, fonts);
    proof { lemma_grow(base, acc, style_sheet_of(4, first_run(t.runs@), names(fonts@)), before); }
    let ghost acc = acc + style_sheet_of(4, first_run(t.runs@), names(fonts@));
    let ghost before = d.out@;
    d.line(3, ">>");
    proof { lemma_grow(base, acc, line_bytes(3, ">>"@), before); }
    let ghost acc = acc + line_bytes(3, ">>"@);
    let ghost before = d.out@;
    d.line(2, "]");
    proof { lemma_grow(base, acc, line_bytes(2, "]"@), before); }
    let ghost acc = acc + line_bytes(2, "]"@);
    let ghost before = d.out@;
    d.line(2, "/FontSet [");
    proof { lemma_grow(base, acc, line_bytes(2, "/FontSet ["@), before); }
    let ghost acc = acc + line_bytes(2, "/FontSet ["@);
    let ghost before = d.out@;
    write_font_items(d, fonts);
    proof { lemma_grow(base, acc, font_items(names(fonts@), names(fonts@).len() as int), before); }
    let ghost acc = acc + font_items(names(fonts@), names(fonts@).len() as int);
    let ghost before = d.out@;
    d.line(2, "]");
    proof { lemma_grow(base, acc, line_bytes(2, "]"@), before); }
    let ghost acc = acc + line_bytes(2, "]"@);
    let ghost before = d.out@;
    d.line(2, "/SuperscriptSize .583");
    proof { lemma_grow(base, acc, line_bytes(2, "/SuperscriptSize .583"@), before); }
    let ghost acc = acc + line_bytes(2, "/SuperscriptSize .583"@);
    let ghost before = d.out@;
    d.line(2, "/SuperscriptPosition .333");
    proof { lemma_grow(base, acc, line_bytes(2, "/SuperscriptPosition .333"@), before); }
    let ghost acc = acc + line_bytes(2, "/SuperscriptPosition .333"@);
    let ghost before = d.out@;
    d.line(2, "/SubscriptSize .583");
    proof { lemma_grow(base, acc, line_bytes(2, "/SubscriptSize .583"@), before); }
    let ghost acc = acc + line_bytes(2, "/SubscriptSize .583"@);
    let ghost before = d.out@;
    d.line(2, "/SubscriptPosition .333");
    proof { lemma_grow(base, acc, line_bytes(2, "/SubscriptPosition .333"@), before); }
    let ghost acc = acc + line_bytes(2, "/SubscriptPosition .333"@);
    let ghost before = d.out@;
    d.line(2, "/SmallCapSize .7");
    proof { lemma_grow(base, acc, line_bytes(2, "/SmallCapSize .7"@), before); }
    let ghost acc = acc + line_bytes(2, "/SmallCapSize .7"@);
    reveal(resources_bytes);
    assert(d.out@ == base + acc);
}


/// The engine's own dictionary: the text, the paragraph and style runs, the
/// grid, and whether the glyphs are antialiased (1 is Sharp, 0 none).
#[verifier::opaque]
pub open spec fn engine_part_bytes(align: TextAlign, antialias: bool, runs: Seq<RunSetting>, body: Seq<char>, fonts: Seq<Seq<char>>) -> Seq<u8> {
    line_bytes(1, "/EngineDict"@)
        + line_bytes(1, "<<"@)
        + line_bytes(2, "/Editor"@)
        + line_bytes(2, "<<"@)
        + engine_string_line_bytes(3, "/Text"@, body)
        + line_bytes(2, ">>"@)
        + paragraph_run_bytes(justification_of(align), paragraph_counts(body))
        + style_run_bytes(runs, fonts)
        + grid_info_bytes()
        + line_bytes(2, "/AntiAlias "@ + seq![if antialias { '1' } else { '0' }])
        + line_bytes(2, "/UseFractionalGlyphWidths true"@)
        + line_bytes(1, ">>"@)
}

#[verifier::spinoff_prover]
fn write_engine_part(d: &mut Dump, t: &TextSetting, body: &str, fonts: &Vec<String>)
    requires
        body@.len() <= usize::MAX / 2,
        forall|i: int| 0 <= i < t.runs@.len() ==> utf16_encode(#[trigger] t.runs@[i].text@).len() < usize::MAX,
    ensures
        final(d).out@ == old(d).out@ + engine_part_bytes(t.align, t.antialias, t.runs@, body@, names(fonts@)),
{
    let mut anti = String::from_str("/AntiAlias ");
    push_char(&mut anti, if t.antialias { '1' } else { '0' });
    assert(anti@ =~= "/AntiAlias "@ + seq![if t.antialias { '1' } else { '0' }]);
    let ghost base = d.out@;
    d.line(1, "/EngineDict");
    let ghost acc = line_bytes(1, "/EngineDict"@);
    let ghost before = d.out@;
    d.line(1, "<<");
    proof { lemma_grow(base, acc, line_bytes(1, "<<"@), before); }
    let ghost acc = acc + line_bytes(1, "<<"@);
    let ghost before = d.out@;
    d.line(2, "/Editor");
    proof { lemma_grow(base, acc, line_bytes(2, "/Editor"@), before); }
    let ghost acc = acc + line_bytes(2, "/Editor"@);
    let ghost before = d.out@;
    d.line(2, "<<");
    proof { lemma_grow(base, acc, line_bytes(2, "<<"@), before); }
    let ghost acc = acc + line_bytes(2, "<<"@);
    let ghost before = d.out@;
    engine_string_line(d, 3, "/Text", body);
    proof { lemma_grow(base, acc, engine_string_line_bytes(3, "/Text"@, body@), before); }
    let ghost acc = acc + engine_string_line_bytes(3, "/Text"@, body@);
    let ghost before = d.out@;
    d.line(2, ">>");
    proof { lemma_grow(base, acc, line_bytes(2, ">>"@), before); }
    let ghost acc = acc + line_bytes(2, ">>"@);
    let ghost before = d.out@;
    write_paragraph_run(d, t, body);
    proof { lemma_grow(base, acc, paragraph_run_bytes(justification_of(t.align), paragraph_counts(body@)), before); }
    let ghost acc = acc + paragraph_run_bytes(justification_of(t.align), paragraph_counts(body@));
    let ghost before = d.out@;
    write_style_run(d, t, fonts);
    proof { lemma_grow(base, acc, style_run_bytes(t.runs@, names(fonts@)), before); }
    let ghost acc = acc + style_run_bytes(t.runs@, names(fonts@));
    let ghost before = d.out@;
    write_grid_info(d);
    proof { lemma_grow(base, acc, grid_info_bytes(), before); }
    let ghost acc = acc + grid_info_bytes();
    let ghost before = d.out@;
    d.line(2, anti.as_str());
    proof { lemma_grow(base, acc, line_bytes(2, "/AntiAlias "@ + seq![if t.antialias { '1' } else { '0' }]), before); }
    let ghost acc = acc + line_bytes(2, "/AntiAlias "@ + seq![if t.antialias { '1' } else { '0' }]);
    let ghost before = d.out@;
    d.line(2, "/UseFractionalGlyphWidths true");
    proof { lemma_grow(base, acc, line_bytes(2, "/UseFractionalGlyphWidths true"@), before); }
    let ghost acc = acc + line_bytes(2, "/UseFractionalGlyphWidths true"@);
    let ghost before = d.out@;
    d.line(1, ">>");
    proof { lemma_grow(base, acc, line_bytes(1, ">>"@), before); }
    let ghost acc = acc + line_bytes(1, ">>"@);
    reveal(engine_part_bytes);
    assert(d.out@ == base + acc);
}

/// One named resource dictionary.
#[verifier::opaque]
pub open spec fn resource_dict_bytes(name: Seq<char>, align: TextAlign, runs: Seq<RunSetting>, fonts: Seq<Seq<char>>) -> Seq<u8> {
    line_bytes(1, name)
        + line_bytes(1, "<<"@)
        + resources_bytes(align, runs, fonts)
        + line_bytes(1, ">>"@)
}

fn write_resource_dict(d: &mut Dump, name: &str, t: &TextSetting, fonts: &Vec<String>)
    ensures
        final(d).out@ == old(d).out@ + resource_dict_bytes(name@, t.align, t.runs@, names(fonts@)),
{
    let ghost base = d.out@;
    d.line(1, name);
    let ghost acc = line_bytes(1, name@);
    let ghost before = d.out@;
    d.line(1, "<<");
    proof { lemma_grow(base, acc, line_bytes(1, "<<"@), before); }
    let ghost acc = acc + line_bytes(1, "<<"@);
    let ghost before = d.out@;
    write_resources(d, t, fonts);
    proof { lemma_grow(base, acc, resources_bytes(t.align, t.runs@, names(fonts@)), before); }
    let ghost acc = acc + resources_bytes(t.align, t.runs@, names(fonts@));
    let ghost before = d.out@;
    d.line(1, ">>");
    proof { lemma_grow(base, acc, line_bytes(1, ">>"@), before); }
    let ghost acc = acc + line_bytes(1, ">>"@);
    reveal(resource_dict_bytes);
    assert(d.out@ == base + acc);
}

/// The whole dump: the engine's dictionary, then the resources its runs point
/// at, written twice under two names, once as the layer's and once as the
/// document's; for a file whose only text is this layer the two agree.
#[verifier::opaque]
pub open spec fn engine_dict_bytes(align: TextAlign, antialias: bool, runs: Seq<RunSetting>, body: Seq<char>, fonts: Seq<Seq<char>>) -> Seq<u8> {
    line_bytes(0, "<<"@)
        + engine_part_bytes(align, antialias, runs, body, fonts)
        + resource_dict_bytes("/ResourceDict"@, align, runs, fonts)
        + resource_dict_bytes("/DocumentResources"@, align, runs, fonts)
        + line_bytes(0, ">>"@)
}

fn write_engine_dict(d: &mut Dump, t: &TextSetting, body: &str, fonts: &Vec<String>)
    requires
        body@.len() <= usize::MAX / 2,
        forall|i: int| 0 <= i < t.runs@.len() ==> utf16_encode(#[trigger] t.runs@[i].text@).len() < usize::MAX,
    ensures
        final(d).out@ == old(d).out@ + engine_dict_bytes(t.align, t.antialias, t.runs@, body@, names(fonts@)),
{
    let ghost base = d.out@;
    d.line(0, "<<");
    let ghost acc = line_bytes(0, "<<"@);
    let ghost before = d.out@;
    write_engine_part(d, t, body, fonts);
    proof { lemma_grow(base, acc, engine_part_bytes(t.align, t.antialias, t.runs@, body@, names(fonts@)), before); }
    let ghost acc = acc + engine_part_bytes(t.align, t.antialias, t.runs@, body@, names(fonts@));
    let ghost before = d.out@;
    write_resource_dict(d, "/ResourceDict", t, fonts);
    proof { lemma_grow(base, acc, resource_dict_bytes("/ResourceDict"@, t.align, t.runs@, names(fonts@)), before); }
    let ghost acc = acc + resource_dict_bytes("/ResourceDict"@, t.align, t.runs@, names(fonts@));
    let ghost before = d.out@;
    write_resource_dict(d, "/DocumentResources", t, fonts);
    proof { lemma_grow(base, acc, resource_dict_bytes("/DocumentResources"@, t.align, t.runs@, names(fonts@)), before); }
    let ghost acc = acc + resource_dict_bytes("/DocumentResources"@, t.align, t.runs@, names(fonts@));
    let ghost before = d.out@;
    d.line(0, ">>");
    proof { lemma_grow(base, acc, line_bytes(0, ">>"@), before); }
    let ghost acc = acc + line_bytes(0, ">>"@);
    reveal(engine_dict_bytes);
    assert(d.out@ == base + acc);
}


// ---------------------------------------------------------------------------
// The descriptor and the block
// ---------------------------------------------------------------------------

/// The bits of the double that stands for one.
pub const ONE_BITS: u64 = 0x3FF0_0000_0000_0000;

/// The eight big-endian bytes of `v`.
pub open spec fn u64_bytes(v: u64) -> Seq<u8> {
    u32_bytes((v / 0x1_0000_0000) as u32) + u32_bytes((v % 0x1_0000_0000) as u32)
}

fn push_u64(out: &mut Vec<u8>, v: u64)
    ensures
        final(out)@ == old(out)@ + u64_bytes(v),
{
    push_u32(out, (v / 0x1_0000_0000) as u32);
    push_u32(out, (v % 0x1_0000_0000) as u32);
    assert(out@ =~= old(out)@ + u64_bytes(v));
}

/// The type codes `Objc`, `UntF`, `#Pnt`, `TEXT`, `long` and `tdta`.
pub open spec fn objc_code() -> Seq<u8> {
    seq![79u8, 98u8, 106u8, 99u8]
}

pub open spec fn untf_code() -> Seq<u8> {
    seq![85u8, 110u8, 116u8, 70u8]
}

pub open spec fn pnt_code() -> Seq<u8> {
    seq![35u8, 80u8, 110u8, 116u8]
}

pub open spec fn text_code() -> Seq<u8> {
    seq![84u8, 69u8, 88u8, 84u8]
}

pub open spec fn long_code() -> Seq<u8> {
    seq![108u8, 111u8, 110u8, 103u8]
}

pub open spec fn tdta_code() -> Seq<u8> {
    seq![116u8, 100u8, 116u8, 97u8]
}

/// A length in points under `name`: its unit, then the double's bits.
pub open spec fn unit_item(name: Seq<char>, bits: u64) -> Seq<u8> {
    key_bytes(name) + untf_code() + pnt_code() + u64_bytes(bits)
}

/// A box as an object of class `class`: left, top, right and bottom, each the
/// bits of a double.
pub open spec fn box_bytes(class: Seq<char>, b: (u64, u64, u64, u64)) -> Seq<u8> {
    objc_code() + descriptor_head(class, 4) + unit_item("Left"@, b.0) + unit_item("Top "@, b.1)
        + unit_item("Rght"@, b.2) + unit_item("Btom"@, b.3)
}

fn write_unit(out: &mut Vec<u8>, name: &str, bits: u64)
    ensures
        final(out)@ == old(out)@ + unit_item(name@, bits),
{
    let untf: [u8; 4] = [85, 110, 116, 70];
    let pnt: [u8; 4] = [35, 80, 110, 116];
    assert(untf@ == untf_code());
    assert(pnt@ == pnt_code());
    key(out, name);
    push_bytes(out, &untf);
    push_bytes(out, &pnt);
    push_u64(out, bits);
    assert(out@ =~= old(out)@ + unit_item(name@, bits));
}

fn write_box(out: &mut Vec<u8>, class: &str, b: (u64, u64, u64, u64))
    ensures
        final(out)@ == old(out)@ + box_bytes(class@, b),
{
    let objc: [u8; 4] = [79, 98, 106, 99];
    assert(objc@ == objc_code());
    push_bytes(out, &objc);
    begin_descriptor(out, class, 4);
    write_unit(out, "Left", b.0);
    write_unit(out, "Top ", b.1);
    write_unit(out, "Rght", b.2);
    write_unit(out, "Btom", b.3);
    assert(out@ =~= old(out)@ + box_bytes(class@, b));
}

/// The orientation's enumerated value.
pub open spec fn orientation_of(vertical: bool) -> Seq<char> {
    if vertical {
        "Vrtc"@
    } else {
        "Hrzn"@
    }
}

/// The antialiasing's enumerated value: Sharp, which is what the library's own
/// antialiasing means, or none.
pub open spec fn antialias_of(antialias: bool) -> Seq<char> {
    if antialias {
        "antiAliasSharp"@
    } else {
        "antiAliasNone"@
    }
}

/// What the engine is given as its text: line breaks as returns, closed by one.
pub open spec fn engine_body(t: TextSetting) -> Seq<char> {
    closed_text(with_returns(setting_text(t)))
}

/// `b` made even in length by a newline where it is odd, so that the block
/// that holds it needs no padding byte.
pub open spec fn even_padded(b: Seq<u8>) -> Seq<u8> {
    if b.len() % 2 == 1 {
        b.push(10u8)
    } else {
        b
    }
}

/// The EngineData of `t`: two newlines, the dictionary, and a newline more
/// where that makes the length even.
pub open spec fn engine_bytes(t: TextSetting) -> Seq<u8> {
    even_padded(
        seq![10u8, 10u8] + engine_dict_bytes(
            t.align,
            t.antialias,
            t.runs@,
            engine_body(t),
            font_set_of(t.runs@),
        ),
    )
}

/// Whether the counts the writer keeps fit the machine's words.
pub open spec fn settable(t: TextSetting) -> bool {
    &&& setting_text(t).len() < usize::MAX / 2
    &&& forall|i: int|
        0 <= i < t.runs@.len() ==> utf16_encode(#[trigger] t.runs@[i].text@).len() < usize::MAX
}

/// Turning line breaks into returns never lengthens the text.
proof fn lemma_with_returns_len(s: Seq<char>)
    ensures
        with_returns(s).len() <= s.len(),
    decreases s.len(),
{
    if s.len() == 0 {
    } else if s.len() >= 2 && s[0] == '\r' && s[1] == '\n' {
        lemma_with_returns_len(s.subrange(2, s.len() as int));
    } else {
        lemma_with_returns_len(s.drop_first());
    }
}

/// The EngineData of `t`.
pub fn engine_data(t: &TextSetting) -> (out: Vec<u8>)
    requires
        settable(*t),
    ensures
        out@ == engine_bytes(*t),
{
    let body = engine_text_with_cr(t);
    let fonts = font_set(t);
    proof {
        lemma_with_returns_len(setting_text(*t));
    }
    let mut d = Dump::new();
    write_engine_dict(&mut d, t, body.as_str(), &fonts);
    if d.out.len() % 2 == 1 {
        d.out.push(10);
    }
    d.out
}

/// The text descriptor: the string, the layer-level choices, the box twice
/// (the type's own box and the space it takes, one rectangle for point text
/// with no warp), and the EngineData.
#[verifier::opaque]
pub open spec fn text_descriptor_bytes(t: TextSetting, bounds: (u64, u64, u64, u64)) -> Seq<u8> {
    descriptor_head("TxLr"@, 8)
        + key_bytes("Txt "@)
        + text_code()
        + unicode_bytes(with_returns(setting_text(t)))
        + key_bytes("textGridding"@)
        + enumerated_bytes("textGridding"@, "None"@)
        + key_bytes("Ornt"@)
        + enumerated_bytes("Ornt"@, orientation_of(t.vertical))
        + key_bytes("AntA"@)
        + enumerated_bytes("Annt"@, antialias_of(t.antialias))
        + key_bytes("bounds"@)
        + box_bytes("bounds"@, bounds)
        + key_bytes("boundingBox"@)
        + box_bytes("boundingBox"@, bounds)
        + key_bytes("TextIndex"@)
        + long_code()
        + u32_bytes(0)
        + key_bytes("EngineData"@)
        + tdta_code()
        + u32_bytes(engine_bytes(t).len() as u32)
        + engine_bytes(t)
}

#[verifier::spinoff_prover]
fn write_text_descriptor(out: &mut Vec<u8>, t: &TextSetting, bounds: (u64, u64, u64, u64))
    requires
        settable(*t),
    ensures
        final(out)@ == old(out)@ + text_descriptor_bytes(*t, bounds),
{
    let body = engine_text(t);
    let engine = engine_data(t);
    let text: [u8; 4] = [84, 69, 88, 84];
    let long: [u8; 4] = [108, 111, 110, 103];
    let tdta: [u8; 4] = [116, 100, 116, 97];
    assert(text@ == text_code());
    assert(long@ == long_code());
    assert(tdta@ == tdta_code());
    let orientation = if t.vertical { "Vrtc" } else { "Hrzn" };
    let antialias = if t.antialias { "antiAliasSharp" } else { "antiAliasNone" };
    assert(orientation@ == orientation_of(t.vertical));
    assert(antialias@ == antialias_of(t.antialias));
    let ghost base = out@;
    begin_descriptor(out, "TxLr", 8);
    let ghost acc = descriptor_head("TxLr"@, 8);
    let ghost before = out@;
    key(out, "Txt ");
    proof { lemma_grow(base, acc, key_bytes("Txt "@), before); }
    let ghost acc = acc + key_bytes("Txt "@);
    let ghost before = out@;
    push_bytes(out, &text);
    proof { lemma_grow(base, acc, text_code(), before); }
    let ghost acc = acc + text_code();
    let ghost before = out@;
    unicode_string(out, body.as_str());
    proof { lemma_grow(base, acc, unicode_bytes(with_returns(setting_text(*t))), before); }
    let ghost acc = acc + unicode_bytes(with_returns(setting_text(*t)));
    let ghost before = out@;
    key(out, "textGridding");
    proof { lemma_grow(base, acc, key_bytes("textGridding"@), before); }
    let ghost acc = acc + key_bytes("textGridding"@);
    let ghost before = out@;
    enumerated(out, "textGridding", "None");
    proof { lemma_grow(base, acc, enumerated_bytes("textGridding"@, "None"@), before); }
    let ghost acc = acc + enumerated_bytes("textGridding"@, "None"@);
    let ghost before = out@;
    key(out, "Ornt");
    proof { lemma_grow(base, acc, key_bytes("Ornt"@), before); }
    let ghost acc = acc + key_bytes("Ornt"@);
    let ghost before = out@;
    enumerated(out, "Ornt", orientation);
    proof { lemma_grow(base, acc, enumerated_bytes("Ornt"@, orientation_of(t.vertical)), before); }
    let ghost acc = acc + enumerated_bytes("Ornt"@, orientation_of(t.vertical));
    let ghost before = out@;
    key(out, "AntA");
    proof { lemma_grow(base, acc, key_bytes("AntA"@), before); }
    let ghost acc = acc + key_bytes("AntA"@);
    let ghost before = out@;
    enumerated(out, "Annt", antialias);
    proof { lemma_grow(base, acc, enumerated_bytes("Annt"@, antialias_of(t.antialias)), before); }
    let ghost acc = acc + enumerated_bytes("Annt"@, antialias_of(t.antialias));
    let ghost before = out@;
    key(out, "bounds");
    proof { lemma_grow(base, acc, key_bytes("bounds"@), before); }
    let ghost acc = acc + key_bytes("bounds"@);
    let ghost before = out@;
    write_box(out, "bounds", bounds);
    proof { lemma_grow(base, acc, box_bytes("bounds"@, bounds), before); }
    let ghost acc = acc + box_bytes("bounds"@, bounds);
    let ghost before = out@;
    key(out, "boundingBox");
    proof { lemma_grow(base, acc, key_bytes("boundingBox"@), before); }
    let ghost acc = acc + key_bytes("boundingBox"@);
    let ghost before = out@;
    write_box(out, "boundingBox", bounds);
    proof { lemma_grow(base, acc, box_bytes("boundingBox"@, bounds), before); }
    let ghost acc = acc + box_bytes("boundingBox"@, bounds);
    let ghost before = out@;
    key(out, "TextIndex");
    proof { lemma_grow(base, acc, key_bytes("TextIndex"@), before); }
    let ghost acc = acc + key_bytes("TextIndex"@);
    let ghost before = out@;
    push_bytes(out, &long);
    proof { lemma_grow(base, acc, long_code(), before); }
    let ghost acc = acc + long_code();
    let ghost before = out@;
    push_u32(out, 0);
    proof { lemma_grow(base, acc, u32_bytes(0), before); }
    let ghost acc = acc + u32_bytes(0);
    let ghost before = out@;
    key(out, "EngineData");
    proof { lemma_grow(base, acc, key_bytes("EngineData"@), before); }
    let ghost acc = acc + key_bytes("EngineData"@);
    let ghost before = out@;
    push_bytes(out, &tdta);
    proof { lemma_grow(base, acc, tdta_code(), before); }
    let ghost acc = acc + tdta_code();
    let ghost before = out@;
    push_u32(out, engine.len() as u32);
    proof { lemma_grow(base, acc, u32_bytes(engine_bytes(*t).len() as u32), before); }
    let ghost acc = acc + u32_bytes(engine_bytes(*t).len() as u32);
    let ghost before = out@;
    push_bytes(out, engine.as_slice());
    proof { lemma_grow(base, acc, engine_bytes(*t), before); }
    let ghost acc = acc + engine_bytes(*t);
    reveal(text_descriptor_bytes);
    assert(out@ == base + acc);
}

/// A whole `TySh` block: its version; the 2x3 transform, no scale or rotation
/// and translated to the text's origin, which puts reopened text back under
/// the same pixels; the text and descriptor versions and the text
/// descriptor; the warp's versions and descriptor, saying there is none; and
/// the warp's own bounds, which are zero for unwarped text.
#[verifier::opaque]
pub open spec fn type_tool_bytes(t: TextSetting, origin: (u64, u64), bounds: (u64, u64, u64, u64)) -> Seq<u8> {
    u16_bytes(1)
        + u64_bytes(ONE_BITS)
        + u64_bytes(0)
        + u64_bytes(0)
        + u64_bytes(ONE_BITS)
        + u64_bytes(origin.0)
        + u64_bytes(origin.1)
        + u16_bytes(50)
        + u32_bytes(16)
        + text_descriptor_bytes(t, bounds)
        + u16_bytes(1)
        + u32_bytes(16)
        + warp_bytes()
        + u32_bytes(0)
        + u32_bytes(0)
        + u32_bytes(0)
        + u32_bytes(0)
}

#[verifier::spinoff_prover]
fn write_type_tool_block(out: &mut Vec<u8>, t: &TextSetting, origin: (u64, u64), bounds: (u64, u64, u64, u64))
    requires
        settable(*t),
    ensures
        final(out)@ == old(out)@ + type_tool_bytes(*t, origin, bounds),
{
    let ghost base = out@;
    push_u16(out, 1);
    let ghost acc = u16_bytes(1);
    let ghost before = out@;
    push_u64(out, ONE_BITS);
    proof { lemma_grow(base, acc, u64_bytes(ONE_BITS), before); }
    let ghost acc = acc + u64_bytes(ONE_BITS);
    let ghost before = out@;
    push_u64(out, 0);
    proof { lemma_grow(base, acc, u64_bytes(0), before); }
    let ghost acc = acc + u64_bytes(0);
    let ghost before = out@;
    push_u64(out, 0);
    proof { lemma_grow(base, acc, u64_bytes(0), before); }
    let ghost acc = acc + u64_bytes(0);
    let ghost before = out@;
    push_u64(out, ONE_BITS);
    proof { lemma_grow(base, acc, u64_bytes(ONE_BITS), before); }
    let ghost acc = acc + u64_bytes(ONE_BITS);
    let ghost before = out@;
    push_u64(out, origin.0);
    proof { lemma_grow(base, acc, u64_bytes(origin.0), before); }
    let ghost acc = acc + u64_bytes(origin.0);
    let ghost before = out@;
    push_u64(out, origin.1);
    proof { lemma_grow(base, acc, u64_bytes(origin.1), before); }
    let ghost acc = acc + u64_bytes(origin.1);
    let ghost before = out@;
    push_u16(out, 50);
    proof { lemma_grow(base, acc, u16_bytes(50), before); }
    let ghost acc = acc + u16_bytes(50);
    let ghost before = out@;
    push_u32(out, 16);
    proof { lemma_grow(base, acc, u32_bytes(16), before); }
    let ghost acc = acc + u32_bytes(16);
    let ghost before = out@;
    write_text_descriptor(out, t, bounds);
    proof { lemma_grow(base, acc, text_descriptor_bytes(*t, bounds), before); }
    let ghost acc = acc + text_descriptor_bytes(*t, bounds);
    let ghost before = out@;
    push_u16(out, 1);
    proof { lemma_grow(base, acc, u16_bytes(1), before); }
    let ghost acc = acc + u16_bytes(1);
    let ghost before = out@;
    push_u32(out, 16);
    proof { lemma_grow(base, acc, u32_bytes(16), before); }
    let ghost acc = acc + u32_bytes(16);
    let ghost before = out@;
    write_warp_descriptor(out);
    proof { lemma_grow(base, acc, warp_bytes(), before); }
    let ghost acc = acc + warp_bytes();
    let ghost before = out@;
    push_u32(out, 0);
    proof { lemma_grow(base, acc, u32_bytes(0), before); }
    let ghost acc = acc + u32_bytes(0);
    let ghost before = out@;
    push_u32(out, 0);
    proof { lemma_grow(base, acc, u32_bytes(0), before); }
    let ghost acc = acc + u32_bytes(0);
    let ghost before = out@;
    push_u32(out, 0);
    proof { lemma_grow(base, acc, u32_bytes(0), before); }
    let ghost acc = acc + u32_bytes(0);
    let ghost before = out@;
    push_u32(out, 0);
    proof { lemma_grow(base, acc, u32_bytes(0), before); }
    let ghost acc = acc + u32_bytes(0);
    reveal(type_tool_bytes);
    assert(out@ == base + acc);
}


/// The `TySh` block for `t`, whose text was clicked at `origin` and whose box,
/// relative to that origin, is `bounds` (left, top, right, bottom). Each of
/// these numbers is given as the bits of the double it is written as.
pub fn type_tool_block(t: &TextSetting, origin: (u64, u64), bounds: (u64, u64, u64, u64)) -> (out: Vec<u8>)
    requires
        settable(*t),
    ensures
        out@ == type_tool_bytes(*t, origin, bounds),
{
    let mut out: Vec<u8> = Vec::new();
    write_type_tool_block(&mut out, t, origin, bounds);
    assert(out@ =~= type_tool_bytes(*t, origin, bounds));
    out
}

} // verus!
