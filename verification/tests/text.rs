use photorust::psd::text::{
    find_font_name, read_descriptor, split_postscript_name, type_tool_descriptor, Cursor,
};
use photorust::psd::text_write::{
    begin_descriptor, engine_string_bytes, engine_string_line, enumerated, join_numbers, key,
    paragraph_lengths, postscript_name, unicode_string, utf16_len, write_grid_info,
    write_paragraph_sheet, write_warp_descriptor, Dump,
};

fn unicode(text: &str) -> Vec<u8> {
    let mut out = Vec::new();
    let units: Vec<u16> = text.encode_utf16().chain(std::iter::once(0)).collect();
    out.extend_from_slice(&(units.len() as u32).to_be_bytes());
    for unit in units {
        out.extend_from_slice(&unit.to_be_bytes());
    }
    out
}

/// A `TySh` block holding `text`, with an EngineData blob.
fn type_tool_block(text: &str, engine: &str) -> Vec<u8> {
    let mut v = Vec::new();
    v.extend_from_slice(&1u16.to_be_bytes());
    for value in [1.0f64, 0.0, 0.0, 1.0, 40.0, 80.0] {
        v.extend_from_slice(&value.to_be_bytes());
    }
    v.extend_from_slice(&50u16.to_be_bytes());
    v.extend_from_slice(&16u32.to_be_bytes());

    v.extend_from_slice(&unicode(""));
    v.extend_from_slice(&0u32.to_be_bytes());
    v.extend_from_slice("null".as_bytes());
    v.extend_from_slice(&2u32.to_be_bytes());

    v.extend_from_slice(&0u32.to_be_bytes());
    v.extend_from_slice("Txt ".as_bytes());
    v.extend_from_slice("TEXT".as_bytes());
    v.extend_from_slice(&unicode(text));

    v.extend_from_slice(&(10u32).to_be_bytes());
    v.extend_from_slice("EngineData".as_bytes());
    v.extend_from_slice("tdta".as_bytes());
    v.extend_from_slice(&(engine.len() as u32).to_be_bytes());
    v.extend_from_slice(engine.as_bytes());
    v
}

const ENGINE: &str = "<< /ResourceDict << /FontSet [ << /Name (Georgia-Bold) >> ] >> \
                      /EngineDict << /StyleRun << /RunArray [ << /StyleSheet << \
                      /StyleSheetData << /Font 0 /FontSize 72.0 /FillColor << \
                      /Values [ 1.0 0.2 0.4 0.6 ] >> >> >> >> ] >> \
                      /ParagraphRun << /RunArray [ << /ParagraphSheet << \
                      /Properties << /Justification 2 >> >> >> ] >> >> >>";

#[test]
fn it_reads_the_string_out_of_a_type_layer() {
    let block = type_tool_block("TESTTEST", ENGINE);
    let d = type_tool_descriptor(&block).expect("no type data found");
    assert_eq!(d.text.as_deref(), Some("TESTTEST"));
    assert_eq!(d.engine_data.as_deref(), Some(ENGINE.as_bytes()));
}

#[test]
fn text_with_more_than_one_line_survives() {
    let block = type_tool_block("two\rlines", ENGINE);
    assert_eq!(type_tool_descriptor(&block).unwrap().text.as_deref(), Some("two\rlines"));
}

#[test]
fn a_block_that_is_not_a_type_tool_is_declined() {
    assert!(type_tool_descriptor("nonsense".as_bytes()).is_none());
    assert!(type_tool_descriptor(&[]).is_none());
}

#[test]
fn a_block_with_empty_text_is_declined() {
    assert!(type_tool_descriptor(&type_tool_block("", ENGINE)).is_none());
}

#[test]
fn a_truncated_block_does_not_panic() {
    let full = type_tool_block("TESTTEST", ENGINE);
    for cut in 0..full.len() {
        let _ = type_tool_descriptor(&full[..cut]);
    }
}

#[test]
fn the_font_name_is_read_out_of_the_font_set() {
    assert_eq!(find_font_name(ENGINE).as_deref(), Some("Georgia-Bold"));
    assert_eq!(find_font_name("<< /Name (x) >>"), None);
    assert_eq!(find_font_name("/FontSet [ << /Name (\u{feff}\0 ) >> ]"), None);
}

#[test]
fn postscript_names_split_into_family_and_style() {
    assert_eq!(split_postscript_name("Georgia-Bold"), ("Georgia".into(), "Bold".into()));
    assert_eq!(
        split_postscript_name("Helvetica-BoldOblique"),
        ("Helvetica".into(), "Bold Oblique".into())
    );
    assert_eq!(split_postscript_name("Impact"), ("Impact".into(), "Regular".into()));
}

#[test]
fn a_trailing_hyphen_is_no_style() {
    assert_eq!(split_postscript_name("Odd-"), ("Odd-".into(), "Regular".into()));
}

#[test]
fn a_written_name_splits_back() {
    let name = postscript_name("Georgia", "Bold");
    assert_eq!(name, "Georgia-Bold");
    assert_eq!(split_postscript_name(&name), ("Georgia".into(), "Bold".into()));
    assert_eq!(postscript_name("Impact", "Regular"), "Impact");
    assert_eq!(postscript_name("Impact", "REGULAR"), "Impact");
    assert_eq!(postscript_name("Times New Roman", "Bold Italic"), "TimesNewRoman-BoldItalic");
    assert_eq!(postscript_name("", ""), "Helvetica");
}

#[test]
fn a_single_paragraph_still_gets_one_length() {
    assert_eq!(paragraph_lengths("plain"), vec![5]);
    assert_eq!(paragraph_lengths(""), vec![0]);
    assert_eq!(paragraph_lengths("end\r"), vec![4]);
}

#[test]
fn line_breaks_close_paragraphs() {
    assert_eq!(paragraph_lengths("a\rb\rc"), vec![2, 2, 1]);
}

#[test]
fn paragraph_lengths_add_up_to_the_text() {
    let body = "one\rtwo \u{1F600}\r three\r";
    let total: usize = paragraph_lengths(body).iter().sum();
    assert_eq!(total, utf16_len(body));
    assert_eq!(utf16_len("\u{1F600}"), 2);
}

#[test]
fn strings_are_written_as_binary_utf16_behind_a_byte_order_mark() {
    let bytes = engine_string_bytes("AB");
    assert_eq!(bytes, vec![40, 0xfe, 0xff, 0x00, 65, 0x00, 66, 41]);
    let bytes = engine_string_bytes("(");
    assert_eq!(bytes, vec![40, 0xfe, 0xff, 0x00, 92, 40, 41]);
}

#[test]
fn an_engine_string_line_is_indented_and_keyed() {
    let mut d = Dump::new();
    engine_string_line(&mut d, 2, "/Name", "A");
    let mut want = vec![10, 10, 9, 9];
    want.extend_from_slice("/Name ".as_bytes());
    want.extend_from_slice(&[40, 0xfe, 0xff, 0, 65, 41, 10]);
    assert_eq!(d.out, want);
}

#[test]
fn dump_lines_open_and_close() {
    let mut d = Dump::new();
    d.open(1, "/Editor");
    d.close(1);
    assert_eq!(d.out, "\n\n\t/Editor\n\t<<\n\t>>\n".as_bytes());
}

#[test]
fn numbers_are_joined_with_spaces() {
    assert_eq!(join_numbers(&[4, 12, 0]), "4 12 0");
    assert_eq!(join_numbers(&[]), "");
}

#[test]
fn a_paragraph_sheet_carries_its_justification() {
    let mut d = Dump::new();
    write_paragraph_sheet(&mut d, 0, 2);
    let text = String::from_utf8(d.out).unwrap();
    assert!(text.contains("\t\t/Justification 2\n"));
    assert!(text.starts_with("\n\n/ParagraphSheet\n<<\n"));
    assert!(text.ends_with("/Adjustments\n<<\n\t/Axis [ 1.0 0.0 1.0 ]\n\t/XY [ 0.0 0.0 ]\n>>\n"));
}

#[test]
fn the_grid_says_it_is_off() {
    let mut d = Dump::new();
    write_grid_info(&mut d);
    let text = String::from_utf8(d.out).unwrap();
    assert!(text.contains("\t\t\t/GridIsOn false\n"));
    assert!(text.ends_with("\t\t>>\n"));
}

#[test]
fn keys_are_four_character_codes_or_length_prefixed() {
    let mut out = Vec::new();
    key(&mut out, "Txt ");
    assert_eq!(out, vec![0, 0, 0, 0, 84, 120, 116, 32]);
    let mut out = Vec::new();
    key(&mut out, "warpStyle");
    assert_eq!(&out[..4], &[0, 0, 0, 9]);
}

#[test]
fn a_written_string_reads_back() {
    let mut out = Vec::new();
    unicode_string(&mut out, "Héllo \u{1F600}");
    assert_eq!(out, unicode("Héllo \u{1F600}"));
    let mut c = Cursor::new(&out);
    assert_eq!(c.unicode_string().as_deref(), Some("Héllo \u{1F600}"));
    assert_eq!(c.pos, out.len());
}

#[test]
fn the_warp_descriptor_reads_back_as_a_descriptor() {
    let mut out = Vec::new();
    write_warp_descriptor(&mut out);
    let mut c = Cursor::new(&out);
    let d = read_descriptor(&mut c).expect("the warp descriptor did not parse");
    assert!(d.text.is_none());
    assert_eq!(c.pos, out.len());
}

#[test]
fn an_enumerated_value_is_stepped_over() {
    let mut out = Vec::new();
    begin_descriptor(&mut out, "null", 1);
    key(&mut out, "Ornt");
    enumerated(&mut out, "Ornt", "Hrzn");
    let mut c = Cursor::new(&out);
    assert!(read_descriptor(&mut c).is_some());
    assert_eq!(c.pos, out.len());
}
