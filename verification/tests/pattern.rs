use photorust::pattern::{index_of, tile, tiled, PATTERN_NAMES, TILE};

#[test]
fn every_pattern_renders_at_the_tile_size() {
    for index in 0..PATTERN_NAMES.len() {
        let tile = tile(index).expect("a listed pattern did not render");
        assert_eq!(tile.width(), TILE);
        assert_eq!(tile.height(), TILE);
    }
    assert!(tile(PATTERN_NAMES.len()).is_none(), "an index past the end rendered");
}

#[test]
fn every_pattern_is_opaque_and_has_some_contrast() {
    for index in 0..PATTERN_NAMES.len() {
        let tile = tile(index).unwrap();
        let mut lowest = 255u8;
        let mut highest = 0u8;
        for y in 0..TILE as i32 {
            for x in 0..TILE as i32 {
                let px = tile.get(x, y);
                assert_eq!(px.a, 255, "{} has a transparent pixel", PATTERN_NAMES[index]);
                lowest = lowest.min(px.r);
                highest = highest.max(px.r);
            }
        }
        assert!(highest - lowest > 30, "{} is nearly flat", PATTERN_NAMES[index]);
    }
}

#[test]
fn tiles_are_seamless_across_their_edges() {
    for index in 0..PATTERN_NAMES.len() {
        let tile = tile(index).unwrap();
        let side = TILE as i32;
        let mut worst = 0i32;
        for i in 0..side {
            let horizontal = (tile.get(0, i).r as i32 - tile.get(side - 1, i).r as i32).abs()
                - (tile.get(1, i).r as i32 - tile.get(0, i).r as i32).abs();
            let vertical = (tile.get(i, 0).r as i32 - tile.get(i, side - 1).r as i32).abs()
                - (tile.get(i, 1).r as i32 - tile.get(i, 0).r as i32).abs();
            worst = worst.max(horizontal).max(vertical);
        }
        assert!(worst <= 130, "{} does not wrap: edge step {worst}", PATTERN_NAMES[index]);
    }
}

#[test]
fn tiling_repeats_from_the_origin() {
    let filled = tiled(0, (TILE * 2, TILE), (0, 0)).unwrap();
    for y in 0..TILE as i32 {
        for x in 0..TILE as i32 {
            assert_eq!(filled.get(x, y), filled.get(x + TILE as i32, y));
        }
    }
}

#[test]
fn tiling_from_a_negative_origin_still_lands_inside_the_tile() {
    let filled = tiled(0, (8, 8), (-3, -5)).unwrap();
    let source = tile(0).unwrap();
    assert_eq!(filled.get(0, 0), source.get(3, 5));
}

#[test]
fn tiling_an_unknown_pattern_gives_nothing() {
    assert!(tiled(8, (4, 4), (0, 0)).is_none());
}

#[test]
fn patterns_can_be_found_by_name() {
    assert_eq!(index_of("Grid"), Some(1));
    assert_eq!(index_of("Not A Pattern"), None);
}

#[test]
fn the_checkerboard_has_its_two_greys() {
    let t = tile(0).unwrap();
    assert_eq!(t.get(0, 0).r, 215);
    assert_eq!(t.get(40, 0).r, 90);
    assert_eq!(t.get(40, 40).r, 215);
}

/// The polka-dot tile, computed the way the float formula for it reads:
/// four dots of radius 9, antialiased over one pixel, on the torus.
fn float_polka(x: i32, y: i32) -> u8 {
    let side = TILE as f32;
    let wrap = |d: f32| {
        let mut d = d % side;
        if d > side / 2.0 {
            d -= side;
        } else if d < -side / 2.0 {
            d += side;
        }
        d
    };
    let mut v: u8 = 220;
    for (cx, cy) in [(16.0f32, 16.0f32), (48.0, 16.0), (32.0, 48.0), (0.0, 48.0)] {
        let dx = wrap(x as f32 + 0.5 - cx);
        let dy = wrap(y as f32 + 0.5 - cy);
        let d = (dx * dx + dy * dy).sqrt();
        let alpha = (9.0f32 + 0.5 - d).clamp(0.0, 1.0);
        if alpha <= 0.0 {
            continue;
        }
        let under = v as f32;
        v = (under + (100.0 - under) * alpha).round().clamp(0.0, 255.0) as u8;
    }
    v
}

#[test]
fn the_polka_dots_match_the_round_dot_formula() {
    let t = tile(4).unwrap();
    for y in 0..TILE as i32 {
        for x in 0..TILE as i32 {
            assert_eq!(t.get(x, y).r, float_polka(x, y), "at ({x}, {y})");
        }
    }
}
