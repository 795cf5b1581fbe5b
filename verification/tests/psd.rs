use photorust::blend::BlendMode;
use photorust::buffer::{Pixmap, Rgba8};
use photorust::psd::{
    blend_mode_from_key, blend_mode_key, find_type_tool, pad_to_even, parse, parse_composite,
    parse_header, read_channel, to_pixmap, unpack_bits, write_header, write_layer_channels,
    write_pascal_string, write_psd, ColorMode, PsdError, Reader,
};

/// A minimal PSD header.
fn header_bytes(width: u32, height: u32, channels: u16, depth: u16, mode: u16) -> Vec<u8> {
    let mut v = Vec::new();
    v.extend_from_slice(&[56, 66, 80, 83]);
    v.extend_from_slice(&1u16.to_be_bytes());
    v.extend_from_slice(&[0u8; 6]);
    v.extend_from_slice(&channels.to_be_bytes());
    v.extend_from_slice(&height.to_be_bytes());
    v.extend_from_slice(&width.to_be_bytes());
    v.extend_from_slice(&depth.to_be_bytes());
    v.extend_from_slice(&mode.to_be_bytes());
    v
}

#[test]
fn rejects_a_bad_signature() {
    let mut data = header_bytes(4, 4, 3, 8, 3);
    data[0] = 88;
    assert_eq!(parse_header(&data), Err(PsdError::BadSignature));
}

#[test]
fn rejects_psb_version() {
    let mut data = header_bytes(4, 4, 3, 8, 3);
    data[4..6].copy_from_slice(&2u16.to_be_bytes());
    assert_eq!(parse_header(&data), Err(PsdError::BadVersion(2)));
}

#[test]
fn rejects_zero_and_oversized_dimensions() {
    assert!(matches!(
        parse_header(&header_bytes(0, 4, 3, 8, 3)),
        Err(PsdError::InvalidDimensions { .. })
    ));
    assert!(matches!(
        parse_header(&header_bytes(40_000, 4, 3, 8, 3)),
        Err(PsdError::InvalidDimensions { .. })
    ));
}

#[test]
fn truncated_input_reports_eof_not_panic() {
    let data = header_bytes(4, 4, 3, 8, 3);
    for cut in 0..data.len() {
        let result = parse_header(&data[..cut]);
        assert!(result.is_err(), "truncation at {} should fail", cut);
    }
}

#[test]
fn parses_a_valid_header() {
    let h = parse_header(&header_bytes(640, 480, 3, 8, 3)).unwrap();
    assert_eq!(h.width, 640);
    assert_eq!(h.height, 480);
    assert_eq!(h.channels, 3);
    assert_eq!(h.depth, 8);
    assert_eq!(h.color_mode, ColorMode::Rgb);
}

#[test]
fn unknown_color_mode_is_unsupported_not_a_panic() {
    assert!(matches!(
        parse_header(&header_bytes(4, 4, 3, 8, 99)),
        Err(PsdError::Unsupported(_))
    ));
}

#[test]
fn an_unknown_colour_mode_is_named_in_the_error() {
    match parse_header(&header_bytes(4, 4, 3, 8, 99)) {
        Err(PsdError::Unsupported(what)) => assert_eq!(what, "colour mode 99"),
        other => panic!("expected Unsupported, got {:?}", other),
    }
}

#[test]
fn a_short_file_reports_where_it_ran_out() {
    let data = header_bytes(4, 4, 3, 8, 3);
    assert_eq!(
        parse_header(&data[..10]),
        Err(PsdError::UnexpectedEof { offset: 6, wanted: 6, available: 4 })
    );
}

#[test]
fn blend_mode_keys_round_trip() {
    for mode in BlendMode::ALL {
        let key = blend_mode_key(mode);
        assert_eq!(blend_mode_from_key(&key), mode, "{:?}", mode);
    }
}

#[test]
fn unknown_blend_key_defaults_to_normal() {
    assert_eq!(blend_mode_from_key(&[122, 122, 122, 122]), BlendMode::Normal);
}

#[test]
fn multiply_has_its_photoshop_key() {
    assert_eq!(blend_mode_key(BlendMode::Multiply), [109, 117, 108, 32]);
}

#[test]
fn packbits_decodes_literal_runs() {
    let mut out = Vec::new();
    unpack_bits(&[0x02, 1, 2, 3], 3, &mut out);
    assert_eq!(out, vec![1, 2, 3]);
}

#[test]
fn packbits_decodes_repeat_runs() {
    let mut out = Vec::new();
    unpack_bits(&[0xFE, 7], 3, &mut out);
    assert_eq!(out, vec![7, 7, 7]);
}

#[test]
fn packbits_ignores_the_noop_marker() {
    let mut out = Vec::new();
    unpack_bits(&[0x80, 0x00, 5], 1, &mut out);
    assert_eq!(out, vec![5]);
}

#[test]
fn packbits_pads_a_short_row() {
    let mut out = Vec::new();
    unpack_bits(&[0x00, 9], 4, &mut out);
    assert_eq!(out.len(), 4, "row was not padded to the expected width");
    assert_eq!(out[0], 9);
}

#[test]
fn packbits_does_not_overrun_truncated_input() {
    let mut out = Vec::new();
    unpack_bits(&[0x03, 1], 4, &mut out);
    assert_eq!(out.len(), 4);
}

#[test]
fn packbits_appends_after_what_is_there() {
    let mut out = vec![42];
    unpack_bits(&[0xFF, 3], 2, &mut out);
    assert_eq!(out, vec![42, 3, 3]);
}

#[test]
fn written_psd_starts_with_the_magic() {
    let bytes = write_psd(&Pixmap::new(2, 2));
    assert_eq!(&bytes[..4], &[56, 66, 80, 83]);
}

#[test]
fn written_psd_parses_back_with_the_same_pixels() {
    let mut src = Pixmap::new(4, 3);
    src.set(0, 0, Rgba8::new(255, 0, 0, 255));
    src.set(3, 2, Rgba8::new(0, 128, 64, 200));

    let bytes = write_psd(&src);
    let parsed = parse(&bytes).expect("round trip failed");

    assert_eq!(parsed.header.width, 4);
    assert_eq!(parsed.header.height, 3);

    let out = to_pixmap(&parsed);
    assert_eq!(out.get(0, 0), Rgba8::new(255, 0, 0, 255));
    assert_eq!(out.get(3, 2), Rgba8::new(0, 128, 64, 200));
    assert_eq!(out.get(1, 1), Rgba8::new(0, 0, 0, 0));
    assert!(parsed.layers.is_empty());
}

#[test]
fn an_rle_composite_decodes() {
    // 2x1 RGB, PackBits: every row of every channel repeats one byte twice.
    let header = parse_header(&header_bytes(2, 1, 3, 8, 3)).unwrap();
    let mut data = vec![0, 1];
    for _ in 0..3 {
        data.extend_from_slice(&2u16.to_be_bytes());
    }
    data.extend_from_slice(&[0xFF, 10, 0xFF, 20, 0xFF, 30]);
    let mut r = Reader::new(&data);
    let out = parse_composite(&mut r, &header).unwrap();
    assert_eq!(out.get(0, 0), Rgba8::new(10, 20, 30, 255));
    assert_eq!(out.get(1, 0), Rgba8::new(10, 20, 30, 255));
}

#[test]
fn zip_compression_is_reported_as_unsupported() {
    let header = parse_header(&header_bytes(1, 1, 3, 8, 3)).unwrap();
    let data = [0, 2];
    let mut r = Reader::new(&data);
    match parse_composite(&mut r, &header) {
        Err(PsdError::Unsupported(what)) => assert_eq!(what, "ZIP-compressed image data"),
        other => panic!("expected Unsupported, got {:?}", other.err()),
    }
}

#[test]
fn a_greyscale_composite_spreads_its_plane() {
    let header = parse_header(&header_bytes(1, 1, 1, 8, 1)).unwrap();
    let data = [0, 0, 77];
    let mut r = Reader::new(&data);
    let out = parse_composite(&mut r, &header).unwrap();
    assert_eq!(out.get(0, 0), Rgba8::new(77, 77, 77, 255));
}

#[test]
fn a_layer_channel_reads_raw_and_packed() {
    let raw = [0, 0, 1, 2, 3, 4];
    let mut r = Reader::new(&raw);
    assert_eq!(read_channel(&mut r, 2, 2).unwrap(), vec![1, 2, 3, 4]);

    let packed = [0, 1, 0, 2, 0, 2, 0xFF, 5, 0xFF, 6];
    let mut r = Reader::new(&packed);
    assert_eq!(read_channel(&mut r, 2, 2).unwrap(), vec![5, 5, 6, 6]);

    let odd = [0, 7];
    let mut r = Reader::new(&odd);
    match read_channel(&mut r, 1, 1) {
        Err(PsdError::Unsupported(what)) => assert_eq!(what, "compression method 7 in layer data"),
        other => panic!("expected Unsupported, got {:?}", other),
    }
}

#[test]
fn layer_channels_are_written_alpha_first() {
    let pm = Pixmap::filled(1, 1, Rgba8::new(1, 2, 3, 4));
    let mut out = Vec::new();
    write_layer_channels(&mut out, &pm);
    assert_eq!(out, vec![0, 0, 4, 0, 0, 1, 0, 0, 2, 0, 0, 3]);
}

#[test]
fn a_pascal_string_is_padded_to_four_and_reads_back() {
    let mut out = Vec::new();
    write_pascal_string(&mut out, "Layer 1");
    assert_eq!(out.len(), 8);
    assert_eq!(out[0], 7);
    let mut r = Reader::new(&out);
    assert_eq!(r.pascal_string(4).unwrap(), "Layer 1");
    assert_eq!(r.pos, 8);
}

#[test]
fn a_long_name_is_cut_at_255_bytes() {
    let name = "x".repeat(300);
    let mut out = Vec::new();
    write_pascal_string(&mut out, &name);
    assert_eq!(out[0], 255);
    assert_eq!(out.len(), 256);
}

#[test]
fn padding_makes_the_length_even() {
    let mut out = vec![1, 2, 3];
    pad_to_even(&mut out);
    assert_eq!(out, vec![1, 2, 3, 0]);
    pad_to_even(&mut out);
    assert_eq!(out.len(), 4);
}

#[test]
fn the_header_writer_writes_rgba_at_eight_bits() {
    let mut out = Vec::new();
    write_header(&mut out, 3, 2);
    let h = parse_header(&out).unwrap();
    assert_eq!((h.width, h.height, h.channels, h.depth), (3, 2, 4, 8));
    assert_eq!(h.color_mode, ColorMode::Rgb);
}

#[test]
fn errors_render_a_useful_message() {
    let e = PsdError::Unsupported("ZIP".into());
    assert!(e.message().contains("ZIP"));
    assert!(PsdError::BadSignature.message().contains("Photoshop"));
}

#[test]
fn each_error_says_what_went_wrong() {
    assert_eq!(
        PsdError::BadVersion(2).message(),
        "unsupported PSD version 2 (only version 1 is read)"
    );
    assert_eq!(
        PsdError::UnexpectedEof { offset: 6, wanted: 6, available: 4 }.message(),
        "unexpected end of file at offset 6: wanted 6 bytes, 4 available"
    );
    assert_eq!(
        PsdError::InvalidDimensions { width: 0, height: 4 }.message(),
        "invalid image dimensions 0x4"
    );
}

/// A TySh block around a descriptor holding `text`.
fn type_block(text: &str) -> Vec<u8> {
    let mut v = vec![0u8; 56];
    let units: Vec<u16> = "".encode_utf16().chain(std::iter::once(0)).collect();
    v.extend_from_slice(&(units.len() as u32).to_be_bytes());
    for u in units {
        v.extend_from_slice(&u.to_be_bytes());
    }
    v.extend_from_slice(&0u32.to_be_bytes());
    v.extend_from_slice(&[110, 117, 108, 108]);
    v.extend_from_slice(&1u32.to_be_bytes());
    v.extend_from_slice(&0u32.to_be_bytes());
    v.extend_from_slice(&[84, 120, 116, 32]);
    v.extend_from_slice(&[84, 69, 88, 84]);
    let units: Vec<u16> = text.encode_utf16().chain(std::iter::once(0)).collect();
    v.extend_from_slice(&(units.len() as u32).to_be_bytes());
    for u in units {
        v.extend_from_slice(&u.to_be_bytes());
    }
    v
}

#[test]
fn the_type_block_is_found_among_the_others() {
    let mut extra = Vec::new();
    // An unrelated block first: 8BIM, lsct, four bytes.
    extra.extend_from_slice(&[56, 66, 73, 77, 108, 115, 99, 116]);
    extra.extend_from_slice(&4u32.to_be_bytes());
    extra.extend_from_slice(&[0, 0, 0, 0]);
    let body = type_block("Hello");
    extra.extend_from_slice(&[56, 66, 73, 77, 84, 121, 83, 104]);
    extra.extend_from_slice(&(body.len() as u32).to_be_bytes());
    extra.extend_from_slice(&body);
    let end = extra.len();
    let mut r = Reader::new(&extra);
    let found = find_type_tool(&mut r, end).expect("no type block found");
    assert_eq!(found.text.as_deref(), Some("Hello"));
    assert_eq!(r.pos, 0, "the reader was not put back");
}

#[test]
fn a_block_with_a_strange_signature_stops_the_walk() {
    let mut extra = vec![1, 2, 3, 4, 84, 121, 83, 104];
    extra.extend_from_slice(&0u32.to_be_bytes());
    let end = extra.len();
    let mut r = Reader::new(&extra);
    assert!(find_type_tool(&mut r, end).is_none());
}

#[test]
fn parse_is_robust_against_arbitrary_truncation() {
    let full = write_psd(&Pixmap::filled(8, 8, Rgba8::white()));
    // Every prefix must either parse or error, never panic.
    for cut in 0..full.len() {
        let _ = parse(&full[..cut]);
    }
}

#[test]
fn parse_is_robust_against_corrupted_length_fields() {
    let mut data = write_psd(&Pixmap::filled(4, 4, Rgba8::white()));
    // Corrupt the image-resources length to a huge value.
    let resources_at = 26 + 4;
    data[resources_at..resources_at + 4].copy_from_slice(&0xFFFF_FFFFu32.to_be_bytes());
    assert!(parse(&data).is_err(), "should reject an impossible length");
}

#[test]
fn sixteen_bit_files_are_refused_by_parse() {
    let mut data = header_bytes(2, 2, 3, 16, 3);
    data.extend_from_slice(&[0u8; 12]);
    match parse(&data) {
        Err(e) => assert_eq!(
            e.message(),
            "unsupported PSD feature: 16-bit channels (only 8-bit is implemented)"
        ),
        Ok(_) => panic!("a 16-bit file parsed"),
    }
}

#[test]
fn cmyk_files_are_refused_by_parse() {
    let data = header_bytes(2, 2, 4, 8, 4);
    match parse(&data) {
        Err(e) => assert_eq!(
            e.message(),
            "unsupported PSD feature: Cmyk colour mode (only RGB and Grayscale are implemented)"
        ),
        Ok(_) => panic!("a CMYK file parsed"),
    }
}

#[test]
fn a_file_without_a_composite_shows_a_clear_canvas() {
    let mut data = header_bytes(2, 1, 3, 8, 3);
    data.extend_from_slice(&[0u8; 12]);
    let file = parse(&data).expect("did not parse");
    assert!(file.composite.is_none());
    let out = to_pixmap(&file);
    assert_eq!((out.width(), out.height()), (2, 1));
    assert_eq!(out.get(1, 0), Rgba8::transparent());
}

#[test]
fn sixteen_bit_depth_is_rejected_explicitly() {
    let mut data = header_bytes(4, 4, 3, 16, 3);
    data.extend_from_slice(&0u32.to_be_bytes());
    data.extend_from_slice(&0u32.to_be_bytes());
    data.extend_from_slice(&0u32.to_be_bytes());
    match parse(&data) {
        Err(PsdError::Unsupported(msg)) => assert!(msg.contains("16-bit"), "{}", msg),
        other => panic!("expected Unsupported, got {:?}", other.err()),
    }
}

#[test]
fn cmyk_is_rejected_explicitly() {
    let mut data = header_bytes(4, 4, 4, 8, 4);
    data.extend_from_slice(&0u32.to_be_bytes());
    data.extend_from_slice(&0u32.to_be_bytes());
    data.extend_from_slice(&0u32.to_be_bytes());
    assert!(matches!(parse(&data), Err(PsdError::Unsupported(_))));
}
