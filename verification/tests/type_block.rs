use photorust::buffer::{Pixmap, Rgba8};
use photorust::layer::{Layer, LayerStack, TextAlign};
use photorust::psd::layered::write_layered_psd_with_text;
use photorust::psd::parse;
use photorust::psd::text::{find_font_name, split_postscript_name, type_tool_descriptor};
use photorust::psd::text_write::{paragraph_lengths, utf16_len};
use photorust::psd::type_block::{
    engine_data, engine_text, engine_text_with_cr, font_index, font_set, text_of,
    type_tool_block, RunSetting, TextSetting,
};

fn content(runs: Vec<RunSetting>) -> TextSetting {
    TextSetting { runs, align: TextAlign::Left, antialias: true, vertical: false }
}

/// A run whose size and colour are given as the engine writes reals.
fn run(text: &str, family: &str, style: &str, size: &str, leading: &str, color: &str) -> RunSetting {
    RunSetting {
        text: text.to_string(),
        family: family.to_string(),
        style: style.to_string(),
        size: size.to_string(),
        leading: leading.to_string(),
        color: color.to_string(),
    }
}

const BLACK: &str = "1.0 0.0 0.0 0.0";

fn one_run(text: &str) -> TextSetting {
    // 72 points, and the colour (51, 102, 153) as fractions, alpha first.
    content(vec![run(text, "Georgia", "Bold", "72.0", "86.4", "1.0 0.2 0.4 0.6")])
}

fn bits(v: f64) -> u64 {
    v.to_bits()
}

fn block(text: &TextSetting, bounds: (f64, f64, f64, f64)) -> Vec<u8> {
    type_tool_block(
        text,
        (bits(40.0), bits(80.0)),
        (bits(bounds.0), bits(bounds.1), bits(bounds.2), bits(bounds.3)),
    )
}

fn engine_text_of(block: &[u8]) -> String {
    let d = type_tool_descriptor(block).expect("not recognized as a type layer");
    String::from_utf8_lossy(&d.engine_data.expect("no EngineData")).into_owned()
}

/// The number the engine wrote after `key`.
fn engine_number(engine: &str, key: &str) -> f32 {
    let at = engine.find(key).expect("key not written") + key.len();
    let rest = &engine[at..];
    let end = rest
        .find(|c: char| !(c.is_ascii_digit() || c == '.' || c == '-'))
        .unwrap_or(rest.len());
    rest[..end].parse().unwrap()
}

/// The first fill colour the engine wrote: alpha, red, green and blue as
/// fractions, read back as levels.
fn engine_fill_color(engine: &str) -> Rgba8 {
    let at = engine.find("/FillColor").expect("no fill colour");
    let values_at = engine[at..].find("/Values [").unwrap() + at + "/Values [".len();
    let end = engine[values_at..].find(']').unwrap() + values_at;
    let v: Vec<f32> = engine[values_at..end].split_whitespace().map(|n| n.parse().unwrap()).collect();
    let level = |f: f32| (f.clamp(0.0, 1.0) * 255.0 + 0.5) as u8;
    Rgba8::new(level(v[1]), level(v[2]), level(v[3]), level(v[0]))
}

#[test]
fn a_written_block_reads_back_as_text() {
    let block = block(&one_run("TESTTEST"), (0.0, -20.0, 200.0, 10.0));
    let parsed = type_tool_descriptor(&block).expect("not recognized as a type layer");
    assert_eq!(parsed.text.as_deref(), Some("TESTTEST"));
}

#[test]
fn the_settings_survive_the_round_trip() {
    let block = block(&one_run("Hello"), (0.0, 0.0, 100.0, 20.0));
    let engine = engine_text_of(&block);
    let (family, style) = split_postscript_name(&find_font_name(&engine).unwrap());
    assert_eq!(family, "Georgia");
    assert_eq!(style, "Bold");
    assert_eq!(engine_number(&engine, "/FontSize "), 72.0);
    assert_eq!(engine_fill_color(&engine), Rgba8::new(51, 102, 153, 255));
}

#[test]
fn alignment_survives_the_round_trip() {
    for (align, code) in [(TextAlign::Left, 0.0), (TextAlign::Center, 2.0), (TextAlign::Right, 1.0)] {
        let mut text = one_run("Hello");
        text.align = align;
        let engine = engine_text_of(&block(&text, (0.0, 0.0, 10.0, 10.0)));
        assert_eq!(engine_number(&engine, "/Justification "), code);
    }
}

#[test]
fn a_font_with_no_style_is_named_without_a_hyphen() {
    // Round-tripping through the reader's split: no hyphen means Regular.
    let text = content(vec![run("Hi", "Impact", "Regular", "24.0", "28.8", BLACK)]);
    let engine = engine_text_of(&block(&text, (0.0, 0.0, 1.0, 1.0)));
    let (family, style) = split_postscript_name(&find_font_name(&engine).unwrap());
    assert_eq!(family, "Impact");
    assert_eq!(style, "Regular");
}

#[test]
fn every_run_lands_in_the_font_set_once() {
    let text = content(vec![
        run("A", "Georgia", "Bold", "12.0", "14.4", BLACK),
        run("B", "Impact", "Regular", "12.0", "14.4", BLACK),
        run("C", "Georgia", "Bold", "48.0", "57.6", BLACK),
    ]);
    let fonts = font_set(&text);
    assert_eq!(fonts, vec!["Georgia-Bold".to_string(), "Impact".to_string()]);
    // The third run shares the first's font, and so its index.
    assert_eq!(font_index(&fonts, &text.runs[2].family, &text.runs[2].style), 0);
}

/// Photoshop walks the string and the run arrays together; if they disagree
/// on the length it rejects the block and the layer opens as pixels.
#[test]
fn the_run_lengths_add_up_to_the_text() {
    let text = content(vec![
        run("one\ntwo", "Georgia", "Bold", "12.0", "14.4", BLACK),
        run(" three", "Impact", "Regular", "12.0", "14.4", BLACK),
    ]);
    let body = engine_text_with_cr(&text);
    let mut style_lengths: Vec<usize> = text.runs.iter().map(|r| utf16_len(&r.text)).collect();
    if let Some(last) = style_lengths.last_mut() {
        *last += 1;
    }
    let total_styles: usize = style_lengths.iter().sum();
    assert_eq!(total_styles, utf16_len(&body));
    assert_eq!(paragraph_lengths(&body).iter().sum::<usize>(), utf16_len(&body));
}

#[test]
fn line_breaks_are_written_as_carriage_returns() {
    let text = content(vec![run("a\nb\r\nc", "Georgia", "Bold", "12.0", "14.4", BLACK)]);
    assert_eq!(engine_text(&text), "a\rb\rc");
    assert_eq!(paragraph_lengths("a\rb\rc"), vec![2, 2, 1]);
}

#[test]
fn multiline_text_survives_the_round_trip() {
    let text = content(vec![run("two\nlines", "Georgia", "Bold", "12.0", "14.4", BLACK)]);
    let parsed = type_tool_descriptor(&block(&text, (0.0, 0.0, 1.0, 1.0))).unwrap();
    assert_eq!(parsed.text.as_deref(), Some("two\rlines"));
}

#[test]
fn a_run_with_no_font_named_still_writes_a_usable_one() {
    let text = content(vec![run("Hi", "", "", "12.0", "14.4", BLACK)]);
    assert_eq!(font_set(&text), vec!["Helvetica".to_string()]);
    assert!(type_tool_descriptor(&block(&text, (0.0, 0.0, 1.0, 1.0))).is_some());
}

#[test]
fn empty_text_is_still_structurally_valid() {
    // The reader declines it, text with nothing in it is not a type layer,
    // but writing it must not panic on the way.
    let text = content(vec![run("", "Georgia", "Regular", "12.0", "14.4", BLACK)]);
    let block = block(&text, (0.0, 0.0, 0.0, 0.0));
    assert!(!block.is_empty());
    assert!(type_tool_descriptor(&block).is_none());
}

#[test]
fn the_block_opens_with_its_transform() {
    let block = block(&one_run("Hi"), (0.0, 0.0, 1.0, 1.0));
    assert_eq!(&block[0..2], &[0, 1]);
    assert_eq!(&block[2..10], &1.0f64.to_be_bytes());
    assert_eq!(&block[34..42], &40.0f64.to_be_bytes());
    assert_eq!(&block[42..50], &80.0f64.to_be_bytes());
    assert_eq!(&block[50..52], &[0, 50]);
    assert_eq!(&block[52..56], &[0, 0, 0, 16]);
    // The warp's bounds close it: four zero words.
    assert_eq!(&block[block.len() - 16..], &[0u8; 16]);
}

#[test]
fn the_engine_data_is_even_and_read_back_whole() {
    let text = one_run("Hello");
    let engine = engine_data(&text);
    assert_eq!(engine.len() % 2, 0);
    assert!(engine.starts_with("\n\n<<\n".as_bytes()));
    let d = type_tool_descriptor(&block(&text, (0.0, 0.0, 1.0, 1.0))).unwrap();
    assert_eq!(d.engine_data.as_deref(), Some(engine.as_slice()));
}

#[test]
fn the_whole_text_is_the_runs_in_order() {
    let text = content(vec![
        run("ab", "Georgia", "Bold", "12.0", "14.4", BLACK),
        run("c\n", "Impact", "Regular", "12.0", "14.4", BLACK),
    ]);
    assert_eq!(text_of(&text), "abc\n");
    assert_eq!(engine_text_with_cr(&text), "abc\r");
}

#[test]
fn vertical_text_is_written_as_vertical() {
    let mut text = one_run("Hi");
    text.vertical = true;
    let block = block(&text, (0.0, 0.0, 1.0, 1.0));
    let count = |b: &[u8], code: &str| b.windows(4).filter(|w| *w == code.as_bytes()).count();
    assert_eq!(count(&block, "Vrtc"), 1);
    // The warp's rotation is horizontal either way.
    assert_eq!(count(&block, "Hrzn"), 1);
    let flat = self::block(&one_run("Hi"), (0.0, 0.0, 1.0, 1.0));
    assert_eq!(count(&flat, "Vrtc"), 0);
    assert_eq!(count(&flat, "Hrzn"), 2);
}

#[test]
fn a_written_type_layer_comes_back_from_a_layered_file_as_text() {
    let mut stack = LayerStack::new();
    let id = stack.allocate_id();
    stack.push(Layer::new_raster(id, "Words".to_string(), 2, 1));
    let text = one_run("two\nlines");
    let tysh = block(&text, (0.0, 0.0, 2.0, 1.0));
    let bytes = write_layered_psd_with_text(&stack, &Pixmap::new(2, 1), &vec![Some(tysh)]);
    let file = parse(&bytes).unwrap();
    let back = file.texts[0].as_ref().expect("the type block was lost");
    assert_eq!(back.text.as_deref(), Some("two\rlines"));
    assert_eq!(back.engine_data.as_deref(), Some(engine_data(&text).as_slice()));
}
