use photorust::filters::texture::{GrainType, Light, Texture};
use photorust::healing::{patch_radius, touches_hole, touches_known, HealMode, MoveOptions, Transfer};

#[test]
fn mode_round_trips_through_its_integer() {
    assert_eq!(HealMode::from_i32(0), HealMode::ProximityMatch);
    assert_eq!(HealMode::from_i32(1), HealMode::CreateTexture);
    assert_eq!(HealMode::from_i32(2), HealMode::ContentAware);
    // Anything unexpected falls back to the default.
    assert_eq!(HealMode::from_i32(99), HealMode::ContentAware);
    assert_eq!(HealMode::default(), HealMode::ContentAware);
}

#[test]
fn every_heal_mode_reads_back_from_its_index() {
    for m in [HealMode::ProximityMatch, HealMode::CreateTexture, HealMode::ContentAware] {
        assert_eq!(HealMode::from_i32(m.index()), m);
    }
}

#[test]
fn the_move_options_default_to_the_panel_defaults() {
    let o = MoveOptions::default();
    assert_eq!((o.dx, o.dy, o.extend, o.structure, o.color), (0, 0, false, 4, 0));
    assert_eq!(Transfer::default(), Transfer::Full);
}

#[test]
fn texture_list_indices_map_onto_surfaces() {
    assert_eq!(Texture::from_i32(0), Texture::Brick);
    assert_eq!(Texture::from_i32(1), Texture::Burlap);
    assert_eq!(Texture::from_i32(2), Texture::Canvas);
    assert_eq!(Texture::from_i32(3), Texture::Sandstone);
    assert_eq!(Texture::from_i32(-4), Texture::Canvas);
    assert_eq!(Texture::default(), Texture::Canvas);
}

#[test]
fn light_list_indices_run_round_from_the_bottom() {
    let all = [
        Light::Bottom,
        Light::BottomLeft,
        Light::Left,
        Light::TopLeft,
        Light::Top,
        Light::TopRight,
        Light::Right,
        Light::BottomRight,
    ];
    for (i, l) in all.iter().enumerate() {
        assert_eq!(Light::from_i32(i as i32), *l);
    }
    assert_eq!(Light::from_i32(8), Light::Bottom);
    assert_eq!(Light::default(), Light::Bottom);
}

#[test]
fn grain_list_indices_map_onto_kinds() {
    assert_eq!(GrainType::from_i32(0), GrainType::Regular);
    assert_eq!(GrainType::from_i32(3), GrainType::Clumped);
    assert_eq!(GrainType::from_i32(9), GrainType::Speckle);
    assert_eq!(GrainType::from_i32(10), GrainType::Regular);
    assert_eq!(GrainType::default(), GrainType::Regular);
}

#[test]
fn structure_picks_the_patch_radius() {
    assert_eq!(patch_radius(0), 1);
    assert_eq!(patch_radius(2), 1);
    assert_eq!(patch_radius(3), 2);
    assert_eq!(patch_radius(5), 2);
    assert_eq!(patch_radius(6), 3);
    assert_eq!(patch_radius(100), 3);
}

#[test]
fn neighbours_of_the_hole_are_found_four_ways() {
    // A 3x3 mask with only the centre in the hole.
    let mut hole = vec![false; 9];
    hole[4] = true;
    assert!(touches_hole(&hole, 3, 3, 1, 0));
    assert!(touches_hole(&hole, 3, 3, 0, 1));
    assert!(!touches_hole(&hole, 3, 3, 0, 0));
    assert!(!touches_hole(&hole, 3, 3, 1, 1));
    // The centre is the only unknown pixel, and it touches the known ring.
    assert!(touches_known(&hole, 3, 3, 1, 1));
    let all_unknown = vec![true; 9];
    assert!(!touches_known(&all_unknown, 3, 3, 1, 1));
}
