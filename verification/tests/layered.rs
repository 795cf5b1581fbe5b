use photorust::blend::BlendMode;
use photorust::buffer::{Pixmap, Rgba8};
use photorust::layer::{Layer, LayerKind, LayerStack};
use photorust::psd::layered::{flattened_layer, write_layered_psd, write_layered_psd_with_text};
use photorust::psd::parse;
use photorust::psd::text::find_font_name;

fn header_bytes(width: u32, height: u32, channels: u16, depth: u16, mode: u16) -> Vec<u8> {
    let mut v = Vec::new();
    v.extend_from_slice(&[56, 66, 80, 83]);
    v.extend_from_slice(&1u16.to_be_bytes());
    v.extend_from_slice(&[0u8; 6]);
    v.extend_from_slice(&channels.to_be_bytes());
    v.extend_from_slice(&height.to_be_bytes());
    v.extend_from_slice(&width.to_be_bytes());
    v.extend_from_slice(&depth.to_be_bytes());
    v.extend_from_slice(&mode.to_be_bytes());
    v
}

/// A whole PSD with one 2x2 layer of a known colour, written the way
/// Photoshop writes an uncompressed one.
fn psd_with_one_layer(alpha: u8) -> Vec<u8> {
    let mut v = header_bytes(2, 2, 3, 8, 3);
    v.extend_from_slice(&0u32.to_be_bytes()); // no colour mode data
    v.extend_from_slice(&0u32.to_be_bytes()); // no image resources

    let mut layers = Vec::new();
    let mut info = Vec::new();
    info.extend_from_slice(&1i16.to_be_bytes()); // one layer

    // Bounds: the whole 2x2 canvas.
    info.extend_from_slice(&0i32.to_be_bytes()); // top
    info.extend_from_slice(&0i32.to_be_bytes()); // left
    info.extend_from_slice(&2i32.to_be_bytes()); // bottom
    info.extend_from_slice(&2i32.to_be_bytes()); // right

    // Four channels: red, green, blue and transparency. Each is a
    // compression flag plus four raw bytes.
    let channel_bytes = 2 + 4;
    info.extend_from_slice(&4u16.to_be_bytes());
    for id in [0i16, 1, 2, -1] {
        info.extend_from_slice(&id.to_be_bytes());
        info.extend_from_slice(&(channel_bytes as u32).to_be_bytes());
    }

    info.extend_from_slice(&[56, 66, 73, 77]);
    info.extend_from_slice(&[110, 111, 114, 109]);
    info.push(255); // opacity
    info.push(0); // not clipping
    info.push(0); // flags: visible
    info.push(0); // filler

    // Extra data: no mask, no blending ranges, and a Pascal name padded to
    // four bytes.
    let mut extra = Vec::new();
    extra.extend_from_slice(&0u32.to_be_bytes());
    extra.extend_from_slice(&0u32.to_be_bytes());
    extra.push(5);
    extra.extend_from_slice("Paint".as_bytes());
    extra.extend_from_slice(&[0, 0]); // pad 6 bytes to 8
    info.extend_from_slice(&(extra.len() as u32).to_be_bytes());
    info.extend_from_slice(&extra);

    // The channel data itself, in the order the ids were listed.
    for value in [200u8, 100, 50, alpha] {
        info.extend_from_slice(&0u16.to_be_bytes()); // raw
        info.extend_from_slice(&[value; 4]);
    }

    layers.extend_from_slice(&(info.len() as u32).to_be_bytes());
    layers.extend_from_slice(&info);
    layers.extend_from_slice(&0u32.to_be_bytes()); // no global mask

    v.extend_from_slice(&(layers.len() as u32).to_be_bytes());
    v.extend_from_slice(&layers);

    // A flattened composite, so the file is complete: raw, three channels.
    v.extend_from_slice(&0u16.to_be_bytes());
    v.extend_from_slice(&[9u8; 12]);
    v
}

const ENGINE: &str = "<< /ResourceDict << /FontSet [ << /Name (Impact) >> ] >> \
                      /EngineDict << /StyleRun << /RunArray [ << /StyleSheet << \
                      /StyleSheetData << /FontSize 48.0 >> >> >> ] >> >> >>";

/// The same file, with the layer carrying the `TySh` block that makes it a
/// type layer.
fn psd_with_type_layer() -> Vec<u8> {
    let plain = psd_with_one_layer(255);
    let type_block = {
        let mut block = Vec::new();
        block.extend_from_slice(&1u16.to_be_bytes());
        for value in [1.0f64, 0.0, 0.0, 1.0, 0.0, 0.0] {
            block.extend_from_slice(&value.to_be_bytes());
        }
        block.extend_from_slice(&50u16.to_be_bytes());
        block.extend_from_slice(&16u32.to_be_bytes());

        // Descriptor: name, class, one item, the text itself.
        block.extend_from_slice(&1u32.to_be_bytes());
        block.extend_from_slice(&0u16.to_be_bytes());
        block.extend_from_slice(&0u32.to_be_bytes());
        block.extend_from_slice("null".as_bytes());
        block.extend_from_slice(&2u32.to_be_bytes());

        block.extend_from_slice(&0u32.to_be_bytes());
        block.extend_from_slice("Txt ".as_bytes());
        block.extend_from_slice("TEXT".as_bytes());
        let units: Vec<u16> = "TESTTEST".encode_utf16().chain(std::iter::once(0)).collect();
        block.extend_from_slice(&(units.len() as u32).to_be_bytes());
        for unit in units {
            block.extend_from_slice(&unit.to_be_bytes());
        }

        block.extend_from_slice(&(10u32).to_be_bytes());
        block.extend_from_slice("EngineData".as_bytes());
        block.extend_from_slice("tdta".as_bytes());
        block.extend_from_slice(&(ENGINE.len() as u32).to_be_bytes());
        block.extend_from_slice(ENGINE.as_bytes());
        block
    };

    let mut extra_addition = Vec::new();
    extra_addition.extend_from_slice("8BIM".as_bytes());
    extra_addition.extend_from_slice("TySh".as_bytes());
    extra_addition.extend_from_slice(&(type_block.len() as u32).to_be_bytes());
    extra_addition.extend_from_slice(&type_block);
    if type_block.len() % 2 == 1 {
        extra_addition.push(0);
    }

    splice_extra_block(&plain, &extra_addition)
}

/// Insert `addition` into the single layer's extra data, fixing up the three
/// lengths that describe it.
fn splice_extra_block(psd: &[u8], addition: &[u8]) -> Vec<u8> {
    let mut v = psd.to_vec();
    let section_len_at = 26 + 4 + 4;
    let info_len_at = section_len_at + 4;
    let extra_len_at = info_len_at + 4 + 2 + 16 + 2 + 24 + 8 + 4;
    let extra_at = extra_len_at + 4;

    let read = |v: &Vec<u8>, at: usize| {
        u32::from_be_bytes([v[at], v[at + 1], v[at + 2], v[at + 3]]) as usize
    };
    let extra_len = read(&v, extra_len_at);
    let insert_at = extra_at + extra_len;

    v.splice(insert_at..insert_at, addition.iter().copied());

    let bump = |v: &mut Vec<u8>, at: usize, by: usize| {
        let value = read(v, at) + by;
        v[at..at + 4].copy_from_slice(&(value as u32).to_be_bytes());
    };
    bump(&mut v, extra_len_at, addition.len());
    bump(&mut v, info_len_at, addition.len());
    bump(&mut v, section_len_at, addition.len());
    v
}

/// A stack of three layers, each recognisable: a background, a small red
/// square offset into the canvas, and a half-opacity multiply layer.
fn stack_to_write() -> LayerStack {
    let mut stack = LayerStack::new();

    let id = stack.allocate_id();
    stack.push(Layer::new_filled(id, "Background".to_string(), 4, 4, Rgba8::white()));

    let id = stack.allocate_id();
    let mut square = Layer::new_filled(id, "Red Square".to_string(), 2, 2, Rgba8::opaque(220, 30, 30));
    square.offset = (1, 1);
    stack.push(square);

    let id = stack.allocate_id();
    let mut shade = Layer::new_filled(id, "Shade".to_string(), 4, 4, Rgba8::new(0, 0, 255, 128));
    shade.blend_mode = BlendMode::Multiply;
    shade.opacity = 128;
    shade.visible = false;
    stack.push(shade);

    stack
}

#[test]
fn a_written_file_keeps_its_layers() {
    let stack = stack_to_write();
    let composite = Pixmap::filled(4, 4, Rgba8::white());
    let bytes = write_layered_psd(&stack, &composite);

    let file = parse(&bytes).expect("what was written did not parse");
    assert_eq!(file.layers.len(), 3);
    let names: Vec<&str> = file.layers.iter().map(|l| l.name.as_str()).collect();
    assert_eq!(names, vec!["Background", "Red Square", "Shade"]);
}

#[test]
fn a_written_layers_pixels_and_place_survive_the_round_trip() {
    let stack = stack_to_write();
    let bytes = write_layered_psd(&stack, &Pixmap::filled(4, 4, Rgba8::white()));
    let file = parse(&bytes).unwrap();

    let square = file.layers.get(1).unwrap();
    assert_eq!(square.offset, (1, 1), "the layer moved");
    assert_eq!(square.pixels.width(), 2);
    assert_eq!(square.pixels.get(0, 0), Rgba8::opaque(220, 30, 30));
    // Transparency comes back too.
    assert_eq!(file.layers.get(2).unwrap().pixels.get(0, 0).a, 128);
}

#[test]
fn a_written_layers_settings_survive_the_round_trip() {
    let stack = stack_to_write();
    let bytes = write_layered_psd(&stack, &Pixmap::filled(4, 4, Rgba8::white()));
    let file = parse(&bytes).unwrap();

    let shade = file.layers.get(2).unwrap();
    assert_eq!(shade.blend_mode, BlendMode::Multiply);
    assert!((shade.opacity as f32 / 255.0 - 0.5).abs() < 0.01);
    assert!(!shade.visible, "a hidden layer came back visible");
}

#[test]
fn a_mask_is_written_into_the_layers_own_transparency() {
    let mut stack = LayerStack::new();
    let id = stack.allocate_id();
    let mut layer = Layer::new_filled(id, "Masked".to_string(), 2, 2, Rgba8::opaque(10, 20, 30));
    layer.add_reveal_all_mask();
    if let Some(mask) = layer.mask.as_mut() {
        mask.set(0, 0, Rgba8::new(0, 0, 0, 0));
    }
    stack.push(layer);

    let bytes = write_layered_psd(&stack, &Pixmap::filled(2, 2, Rgba8::white()));
    let file = parse(&bytes).unwrap();
    let written = file.layers.get(0).unwrap();
    assert_eq!(written.pixels.get(0, 0).a, 0, "the mask was dropped");
    assert_eq!(written.pixels.get(1, 1).a, 255);
}

#[test]
fn a_fill_layer_is_written_as_the_colour_it_shows() {
    let mut stack = LayerStack::new();
    let id = stack.allocate_id();
    let mut shape = Layer::new_raster(id, "Rectangle 1".to_string(), 0, 0);
    shape.kind = LayerKind::SolidColor(Rgba8::opaque(10, 200, 10));
    let mut mask = Pixmap::filled(2, 2, Rgba8::new(255, 255, 255, 255));
    mask.set(0, 0, Rgba8::new(0, 0, 0, 0));
    shape.mask = Some(mask);
    stack.push(shape);

    let bytes = write_layered_psd(&stack, &Pixmap::filled(2, 2, Rgba8::white()));
    let file = parse(&bytes).unwrap();
    let written = file.layers.get(0).unwrap();
    assert_eq!(written.pixels.get(1, 1), Rgba8::opaque(10, 200, 10));
    assert_eq!(written.pixels.get(0, 0).a, 0, "the shape's mask was ignored");
}

#[test]
fn the_composite_is_written_alongside_the_layers() {
    let stack = stack_to_write();
    let composite = Pixmap::filled(4, 4, Rgba8::opaque(1, 2, 3));
    let file = parse(&write_layered_psd(&stack, &composite)).unwrap();
    assert_eq!(file.composite.unwrap().get(2, 2), Rgba8::opaque(1, 2, 3));
}

#[test]
fn a_type_layer_arrives_as_text_and_not_only_pixels() {
    let file = parse(&psd_with_type_layer()).expect("did not parse");
    let layer = file.layers.get(0).expect("no layer");

    let content = file.texts[0].as_ref().expect("the layer is not type");
    assert_eq!(content.text.as_deref(), Some("TESTTEST"));
    let engine = String::from_utf8(content.engine_data.clone().unwrap()).unwrap();
    assert_eq!(engine, ENGINE);
    assert_eq!(find_font_name(&engine).as_deref(), Some("Impact"));

    // And it keeps Photoshop's own rendering until it is edited.
    assert_eq!(layer.pixels.get(0, 0), Rgba8::new(200, 100, 50, 255));
}

#[test]
fn an_ordinary_layer_is_not_mistaken_for_type() {
    let file = parse(&psd_with_one_layer(255)).expect("did not parse");
    assert!(file.texts[0].is_none());
}

#[test]
fn a_truncated_type_layer_does_not_panic() {
    let full = psd_with_type_layer();
    for cut in 0..full.len() {
        let _ = parse(&full[..cut]);
    }
}

#[test]
fn a_layered_file_comes_back_with_its_layers_pixels() {
    let file = parse(&psd_with_one_layer(255)).expect("did not parse");
    assert_eq!(file.layers.len(), 1);

    let layer = file.layers.get(0).unwrap();
    assert_eq!(layer.name, "Paint");
    assert_eq!(layer.pixels.width(), 2);
    assert_eq!(layer.pixels.get(0, 0), Rgba8::new(200, 100, 50, 255));
    assert_eq!(layer.pixels.get(1, 1), Rgba8::new(200, 100, 50, 255));
}

#[test]
fn a_layers_transparency_channel_is_its_alpha() {
    let file = parse(&psd_with_one_layer(0)).expect("did not parse");
    assert_eq!(file.layers.get(0).unwrap().pixels.get(0, 0).a, 0);
}

#[test]
fn a_layers_metadata_survives_alongside_its_pixels() {
    let file = parse(&psd_with_one_layer(128)).expect("did not parse");
    let layer = file.layers.get(0).unwrap();
    assert_eq!(layer.offset, (0, 0));
    assert!(layer.visible);
    assert_eq!(layer.opacity, 255);
    assert_eq!(layer.pixels.get(0, 0).a, 128);
}

#[test]
fn a_truncated_layered_file_does_not_panic() {
    let full = psd_with_one_layer(255);
    for cut in 0..full.len() {
        let _ = parse(&full[..cut]);
    }
}

#[test]
fn an_unnamed_layer_is_named_after_its_place() {
    let mut stack = LayerStack::new();
    for _ in 0..2 {
        let id = stack.allocate_id();
        stack.push(Layer::new_raster(id, String::new(), 1, 1));
    }
    let file = parse(&write_layered_psd(&stack, &Pixmap::new(1, 1))).unwrap();
    assert_eq!(file.layers.get(0).unwrap().name, "Layer 1");
    assert_eq!(file.layers.get(1).unwrap().name, "Layer 2");
}

#[test]
fn a_type_block_given_to_the_writer_reads_back() {
    let mut stack = LayerStack::new();
    let id = stack.allocate_id();
    stack.push(Layer::new_raster(id, "Words".to_string(), 1, 1));
    let full = psd_with_type_layer();
    // The TySh body of the hand-built file, taken back out of it.
    let marker = "TySh".as_bytes();
    let at = full.windows(4).position(|w| w == marker).unwrap() + 4;
    let len = u32::from_be_bytes([full[at], full[at + 1], full[at + 2], full[at + 3]]) as usize;
    let body = full[at + 4..at + 4 + len].to_vec();
    let bytes = write_layered_psd_with_text(&stack, &Pixmap::new(1, 1), &vec![Some(body)]);
    let file = parse(&bytes).unwrap();
    let text = file.texts[0].as_ref().expect("the type block was lost");
    assert_eq!(text.text.as_deref(), Some("TESTTEST"));
}

#[test]
fn a_disabled_mask_is_not_folded_in() {
    let mut layer = Layer::new_filled(photorust::layer::LayerId(1), "x".to_string(), 2, 1, Rgba8::opaque(1, 2, 3));
    layer.add_hide_all_mask();
    layer.mask_enabled = false;
    let flat = flattened_layer(&layer);
    assert_eq!(flat.get(0, 0), Rgba8::opaque(1, 2, 3));
    layer.mask_enabled = true;
    let flat = flattened_layer(&layer);
    assert_eq!(flat.get(1, 0).a, 0);
}
