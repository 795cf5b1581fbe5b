use photorust::metadata::{find, read, FieldValue, Metadata, Orientation};

/// A little-endian TIFF with one IFD holding Make, Model and an exposure.
fn tiff_with_camera() -> Vec<u8> {
    let mut out = Vec::new();
    out.extend_from_slice(&[73, 73, 42, 0]);
    out.extend_from_slice(&8u32.to_le_bytes());

    let entries: [(u16, u16, u32, u32); 3] = [
        (0x010F, 2, 6, 0x50),
        (0x0110, 2, 6, 0x58),
        (0x829A, 5, 1, 0x60),
    ];

    out.extend_from_slice(&(entries.len() as u16).to_le_bytes());
    for (tag, format, count, value) in entries {
        out.extend_from_slice(&tag.to_le_bytes());
        out.extend_from_slice(&format.to_le_bytes());
        out.extend_from_slice(&count.to_le_bytes());
        out.extend_from_slice(&value.to_le_bytes());
    }
    out.extend_from_slice(&0u32.to_le_bytes());

    out.resize(0x50, 0);
    out.extend_from_slice(&[67, 97, 110, 111, 110, 0]);
    out.resize(0x58, 0);
    out.extend_from_slice(&[69, 79, 83, 32, 53, 0]);
    out.resize(0x60, 0);
    out.extend_from_slice(&1u32.to_le_bytes());
    out.extend_from_slice(&250u32.to_le_bytes());
    out
}

fn text_of(meta: &Metadata, label: &str) -> Option<String> {
    meta.fields.iter().find(|f| f.label == label).and_then(|f| match &f.value {
        FieldValue::Text(t) => Some(t.clone()),
        _ => None,
    })
}

#[test]
fn it_reads_camera_fields_out_of_a_tiff() {
    let meta = read(&tiff_with_camera());
    assert_eq!(text_of(&meta, "Make").as_deref(), Some("Canon"));
    assert_eq!(text_of(&meta, "Model").as_deref(), Some("EOS 5"));
}

#[test]
fn a_short_exposure_is_kept_as_its_fraction() {
    let meta = read(&tiff_with_camera());
    let field = meta.fields.iter().find(|f| f.label == "Exposure Time").unwrap();
    assert_eq!(field.category, "Camera Data");
    match &field.value {
        FieldValue::Ratio { numerator, denominator, signed, .. } => {
            assert_eq!((*numerator, *denominator, *signed), (1, 250, false));
        }
        other => panic!("expected a fraction, got {:?}", other),
    }
}

#[test]
fn exif_inside_a_jpeg_is_found_through_its_segments() {
    let exif = tiff_with_camera();
    let mut jpeg = vec![0xFF, 0xD8];
    let payload_len = exif.len() + 6 + 2;
    jpeg.extend_from_slice(&[0xFF, 0xE1]);
    jpeg.extend_from_slice(&(payload_len as u16).to_be_bytes());
    jpeg.extend_from_slice(&[69, 120, 105, 102, 0, 0]);
    jpeg.extend_from_slice(&exif);
    jpeg.extend_from_slice(&[0xFF, 0xD9]);

    let meta = read(&jpeg);
    assert_eq!(text_of(&meta, "Make").as_deref(), Some("Canon"));
}

#[test]
fn the_xmp_packet_comes_back_whole() {
    let mut bytes = vec![0x89, 80, 78, 71, 13, 10, 0x1a, 10, 46, 46, 46, 46];
    bytes.extend_from_slice(
        r#"<x:xmpmeta xmlns:x="adobe:ns:meta/"><rdf:RDF/></x:xmpmeta>"#.as_bytes(),
    );
    bytes.extend_from_slice("trailing junk".as_bytes());

    let meta = read(&bytes);
    let xmp = meta.xmp.expect("no packet found");
    assert!(xmp.starts_with("<x:xmpmeta"));
    assert!(xmp.ends_with("</x:xmpmeta>"));
    assert!(!xmp.contains("trailing junk"), "the scan ran past the packet");
}

#[test]
fn the_orientation_tag_comes_back_as_a_number_too() {
    let mut bytes = tiff_with_camera();
    bytes[8] = 4;
    let entry_at = 8 + 2 + 3 * 12;
    let entry = [
        0x12u8, 0x01, 0x03, 0x00, 0x01, 0x00, 0x00, 0x00, 0x06, 0x00, 0x00, 0x00,
    ];
    bytes.splice(entry_at..entry_at, entry);

    let meta = read(&bytes);
    assert_eq!(meta.orientation, Some(6));
    assert_eq!(text_of(&meta, "Orientation").as_deref(), Some("6 (Rotated 90° clockwise)"));
    assert_eq!(Orientation::from_exif(6), Orientation::Rotate90Cw);
}

#[test]
fn an_orientation_outside_the_standard_is_left_alone() {
    assert_eq!(Orientation::from_exif(0), Orientation::Upright);
    assert_eq!(Orientation::from_exif(9), Orientation::Upright);
}

#[test]
fn only_the_quarter_turns_swap_the_axes() {
    assert!(Orientation::Rotate90Cw.swaps_axes());
    assert!(Orientation::Rotate90Ccw.swaps_axes());
    assert!(Orientation::Transpose.swaps_axes());
    assert!(Orientation::Transverse.swaps_axes());
    assert!(!Orientation::Rotate180.swaps_axes());
    assert!(!Orientation::FlipHorizontal.swaps_axes());
}

#[test]
fn a_file_with_nothing_to_say_reads_empty() {
    let meta = read("not an image at all".as_bytes());
    assert!(meta.fields.is_empty());
    assert!(meta.xmp.is_none());
    assert!(meta.orientation.is_none());
}

#[test]
fn a_truncated_file_does_not_panic() {
    let full = tiff_with_camera();
    for cut in 0..full.len() {
        let _ = read(&full[..cut]);
    }
}

#[test]
fn a_directory_that_points_at_itself_does_not_hang() {
    let mut out = Vec::new();
    out.extend_from_slice(&[73, 73, 42, 0]);
    out.extend_from_slice(&8u32.to_le_bytes());
    out.extend_from_slice(&1u16.to_le_bytes());
    out.extend_from_slice(&0x8769u16.to_le_bytes());
    out.extend_from_slice(&4u16.to_le_bytes());
    out.extend_from_slice(&1u32.to_le_bytes());
    out.extend_from_slice(&8u32.to_le_bytes());
    out.extend_from_slice(&0u32.to_le_bytes());

    let meta = read(&out);
    assert!(meta.fields.is_empty());
}

#[test]
fn a_big_endian_tiff_reads_the_same() {
    let mut out = Vec::new();
    out.extend_from_slice(&[77, 77, 0, 42]);
    out.extend_from_slice(&8u32.to_be_bytes());
    out.extend_from_slice(&2u16.to_be_bytes());
    // ISO 400, a short stored in the entry.
    out.extend_from_slice(&0x8827u16.to_be_bytes());
    out.extend_from_slice(&3u16.to_be_bytes());
    out.extend_from_slice(&1u32.to_be_bytes());
    out.extend_from_slice(&[0x01, 0x90, 0, 0]);
    // Flash that fired.
    out.extend_from_slice(&0x9209u16.to_be_bytes());
    out.extend_from_slice(&3u16.to_be_bytes());
    out.extend_from_slice(&1u32.to_be_bytes());
    out.extend_from_slice(&[0, 1, 0, 0]);
    out.extend_from_slice(&0u32.to_be_bytes());

    let meta = read(&out);
    assert_eq!(text_of(&meta, "ISO Speed Rating").as_deref(), Some("ISO 400"));
    assert_eq!(text_of(&meta, "Flash").as_deref(), Some("Did fire"));
}

#[test]
fn trailing_spaces_and_nuls_are_trimmed() {
    let mut out = Vec::new();
    out.extend_from_slice(&[73, 73, 42, 0]);
    out.extend_from_slice(&8u32.to_le_bytes());
    out.extend_from_slice(&1u16.to_le_bytes());
    out.extend_from_slice(&0x0131u16.to_le_bytes());
    out.extend_from_slice(&2u16.to_le_bytes());
    out.extend_from_slice(&8u32.to_le_bytes());
    out.extend_from_slice(&0x20u32.to_le_bytes());
    out.extend_from_slice(&0u32.to_le_bytes());
    out.resize(0x20, 0);
    out.extend_from_slice(&[65, 112, 112, 32, 32, 0, 0, 0]);

    let meta = read(&out);
    let field = meta.fields.iter().find(|f| f.label == "Application").unwrap();
    assert_eq!(field.category, "Basic");
    assert_eq!(field.value, FieldValue::Text("App".to_string()));
}

#[test]
fn byte_search_finds_the_first_occurrence() {
    assert_eq!(find(&[1, 2, 3, 2, 3], &[2, 3]), Some(1));
    assert_eq!(find(&[1, 2, 3], &[4]), None);
    assert_eq!(find(&[1, 2, 3], &[]), None);
    assert_eq!(find(&[1], &[1, 2]), None);
}
