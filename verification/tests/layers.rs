use photorust::blend::BlendMode;
use photorust::buffer::{Rect, Rgba8};
use photorust::history::History;
use photorust::layer::{Layer, LayerId, LayerKind, LayerStack};

fn stack_with(n: usize) -> LayerStack {
    let mut s = LayerStack::new();
    for i in 0..n {
        let id = s.allocate_id();
        s.push(Layer::new_raster(id, format!("L{}", i), 4, 4));
    }
    s
}

fn stack_with_name(name: &str) -> LayerStack {
    let mut s = LayerStack::new();
    let id = s.allocate_id();
    s.push(Layer::new_filled(id, name.to_string(), 4, 4, Rgba8::white()));
    s
}

#[test]
fn ids_are_unique_and_never_zero() {
    let mut s = LayerStack::new();
    let ids: Vec<_> = (0..5).map(|_| s.allocate_id()).collect();
    for id in &ids {
        assert!(!id.is_none(), "allocated the NONE sentinel");
    }
    let mut sorted = ids.clone();
    sorted.sort_unstable();
    sorted.dedup();
    assert_eq!(sorted.len(), ids.len());
}

#[test]
fn ids_are_not_reused_after_removal() {
    let mut s = stack_with(2);
    let first = s.get(0).unwrap().id;
    s.remove(0);
    let fresh = s.allocate_id();
    assert_ne!(fresh, first);
}

#[test]
fn index_of_tracks_reordering() {
    let mut s = stack_with(3);
    let bottom = s.get(0).unwrap().id;
    s.reorder(0, 2);
    assert_eq!(s.index_of(bottom), Some(2));
}

#[test]
fn reorder_ignores_out_of_range() {
    let mut s = stack_with(2);
    let before: Vec<_> = s.iter().map(|l| l.id).collect();
    s.reorder(0, 99);
    s.reorder(99, 0);
    s.reorder(1, 1);
    let after: Vec<_> = s.iter().map(|l| l.id).collect();
    assert_eq!(before, after);
}

#[test]
fn insert_clamps_past_the_end() {
    let mut s = stack_with(2);
    let id = s.allocate_id();
    s.insert(99, Layer::new_raster(id, "top".to_string(), 4, 4));
    assert_eq!(s.len(), 3);
    assert_eq!(s.get(2).unwrap().id, id);
}

#[test]
fn zero_opacity_counts_as_invisible() {
    let mut l = Layer::new_raster(LayerId(1), "x".to_string(), 2, 2);
    assert!(!l.is_invisible());
    l.opacity = 0;
    assert!(l.is_invisible());
    l.opacity = 255;
    l.visible = false;
    assert!(l.is_invisible());
}

#[test]
fn a_zero_fill_opacity_is_invisible_too() {
    let mut l = Layer::new_raster(LayerId(1), "x".to_string(), 2, 2);
    l.fill_opacity = 0;
    assert!(l.is_invisible());
    l.fill_opacity = 1;
    assert!(!l.is_invisible());
}

#[test]
fn mask_absent_is_fully_visible() {
    let l = Layer::new_raster(LayerId(1), "x".to_string(), 4, 4);
    assert_eq!(l.mask_at(0, 0), 255);
    // Even outside the layer, since there is no mask to consult.
    assert_eq!(l.mask_at(100, 100), 255);
}

#[test]
fn hide_all_mask_masks_everything() {
    let mut l = Layer::new_raster(LayerId(1), "x".to_string(), 4, 4);
    l.add_hide_all_mask();
    assert_eq!(l.mask_at(1, 1), 0);
}

#[test]
fn reveal_all_mask_reveals_inside_and_hides_outside() {
    let mut l = Layer::new_raster(LayerId(1), "x".to_string(), 4, 4);
    l.add_reveal_all_mask();
    assert_eq!(l.mask_at(1, 1), 255);
    // Outside the mask's extent there is no coverage defined.
    assert_eq!(l.mask_at(50, 50), 0);
}

#[test]
fn disabled_mask_is_ignored() {
    let mut l = Layer::new_raster(LayerId(1), "x".to_string(), 4, 4);
    l.add_hide_all_mask();
    l.mask_enabled = false;
    assert_eq!(l.mask_at(1, 1), 255);
}

#[test]
fn mask_respects_layer_offset() {
    let mut l = Layer::new_raster(LayerId(1), "x".to_string(), 4, 4);
    l.add_reveal_all_mask();
    l.offset = (10, 10);
    assert_eq!(l.mask_at(11, 11), 255);
    assert_eq!(l.mask_at(1, 1), 0);
}

#[test]
fn removing_the_mask_shows_everything_again() {
    let mut l = Layer::new_raster(LayerId(1), "x".to_string(), 4, 4);
    l.add_hide_all_mask();
    l.remove_mask();
    assert_eq!(l.mask_at(1, 1), 255);
}

#[test]
fn suggest_name_avoids_collisions() {
    let mut s = LayerStack::new();
    let id = s.allocate_id();
    s.push(Layer::new_raster(id, "Layer 1".to_string(), 1, 1));
    assert_eq!(s.suggest_name(), "Layer 2");
}

#[test]
fn suggest_name_skips_every_taken_number() {
    let mut s = LayerStack::new();
    for name in ["Layer 2", "Layer 3", "Layer 5"] {
        let id = s.allocate_id();
        s.push(Layer::new_raster(id, name.to_string(), 1, 1));
    }
    assert_eq!(s.suggest_name(), "Layer 4");
}

#[test]
fn shape_names_count_from_one() {
    let mut s = LayerStack::new();
    assert_eq!(s.suggest_shape_name("Rectangle"), "Rectangle 1");
    let id = s.allocate_id();
    s.push(Layer::new_raster(id, "Rectangle 1".to_string(), 1, 1));
    assert_eq!(s.suggest_shape_name("Rectangle"), "Rectangle 2");
    assert_eq!(s.suggest_shape_name("Ellipse"), "Ellipse 1");
}

#[test]
fn bounds_follow_offset() {
    let mut l = Layer::new_raster(LayerId(1), "x".to_string(), 3, 5);
    l.offset = (-2, 7);
    assert_eq!(l.bounds(), Rect::new(-2, 7, 3, 5));
}

#[test]
fn a_new_layer_starts_plain() {
    let l = Layer::new_raster(LayerId(3), "x".to_string(), 2, 3);
    assert_eq!(l.kind, LayerKind::Raster);
    assert_eq!(l.blend_mode, BlendMode::Normal);
    assert_eq!((l.opacity, l.fill_opacity), (255, 255));
    assert!(l.visible && !l.clipping && !l.is_locked());
    assert_eq!(l.parent, None);
    assert_eq!(l.pixels.get(1, 2), Rgba8::transparent());
    assert_eq!(l.byte_size(), 24);
}

#[test]
fn locks_are_reported_one_or_all() {
    let mut l = Layer::new_raster(LayerId(1), "x".to_string(), 1, 1);
    l.lock_pixels = true;
    assert!(l.is_locked());
    assert!(!l.is_fully_locked());
    l.lock_transparency = true;
    l.lock_position = true;
    assert!(l.is_fully_locked());
}

#[test]
fn style_state_round_trips() {
    let mut l = Layer::new_raster(LayerId(1), "x".to_string(), 1, 1);
    let saved = l.style_state();
    l.blend_mode = BlendMode::Multiply;
    l.opacity = 10;
    l.set_style_state(saved);
    assert_eq!(l.style_state(), saved);
    assert_eq!(l.blend_mode, BlendMode::Normal);
}

fn grouped_stack() -> (LayerStack, LayerId) {
    // bottom: loose, member a, member b, folder
    let mut s = LayerStack::new();
    let loose = s.allocate_id();
    s.push(Layer::new_raster(loose, "loose".to_string(), 1, 1));
    let a = s.allocate_id();
    let b = s.allocate_id();
    let g = s.allocate_id();
    let mut la = Layer::new_raster(a, "a".to_string(), 1, 1);
    la.parent = Some(g);
    let mut lb = Layer::new_raster(b, "b".to_string(), 1, 1);
    lb.parent = Some(g);
    s.push(la);
    s.push(lb);
    s.push(Layer::new_group(g, "group".to_string()));
    (s, g)
}

#[test]
fn a_groups_members_are_the_run_beneath_it() {
    let (s, g) = grouped_stack();
    assert_eq!(s.group_members(3), 1..3);
    assert_eq!(s.run_at(3), 1..4);
    assert_eq!(s.run_at(0), 0..1);
    assert_eq!(s.group_members(0), 0..0);
    assert_eq!(s.group_members(9), 0..0);
    assert_eq!(s.group_of(1), Some(3));
    assert_eq!(s.group_of(0), None);
    assert_eq!(s.group_at_position(2), Some(g));
    assert_eq!(s.group_at_position(1), None);
}

#[test]
fn a_layer_inserted_among_members_joins_the_group() {
    let (mut s, g) = grouped_stack();
    let id = s.allocate_id();
    s.insert(2, Layer::new_raster(id, "new".to_string(), 1, 1));
    assert_eq!(s.get(2).unwrap().parent, Some(g));
    assert_eq!(s.group_members(4), 1..4);
}

#[test]
fn a_layer_inserted_outside_a_group_stays_loose() {
    let (mut s, _) = grouped_stack();
    let id = s.allocate_id();
    s.insert(1, Layer::new_raster(id, "new".to_string(), 1, 1));
    assert_eq!(s.get(1).unwrap().parent, None);
}

#[test]
fn the_gap_under_an_empty_folder_is_inside_it() {
    let mut s = LayerStack::new();
    let g = s.allocate_id();
    s.push(Layer::new_group(g, "empty".to_string()));
    assert_eq!(s.group_at_position(0), Some(g));
    let id = s.allocate_id();
    s.insert(0, Layer::new_raster(id, "in".to_string(), 1, 1));
    assert_eq!(s.get(0).unwrap().parent, Some(g));
    assert_eq!(s.group_members(1), 0..1);
}

#[test]
fn lookups_by_id_find_the_layer() {
    let mut s = stack_with(3);
    let id = s.get(1).unwrap().id;
    assert_eq!(s.by_id(id).unwrap().name, "L1");
    s.by_id_mut(id).unwrap().name = "renamed".to_string();
    assert_eq!(s.get(1).unwrap().name, "renamed");
    let removed = s.remove_by_id(id).unwrap();
    assert_eq!(removed.name, "renamed");
    assert_eq!(s.len(), 2);
    assert!(s.by_id(id).is_none());
    assert!(s.remove_by_id(id).is_none());
}

#[test]
fn a_stacks_size_is_its_layers_bytes() {
    let s = stack_with(2);
    assert_eq!(s.byte_size(), 2 * 4 * 4 * 4);
}

#[test]
fn starts_with_a_single_open_state() {
    let h = History::new(LayerStack::new(), (16, 16));
    assert_eq!(h.len(), 1);
    assert_eq!(h.cursor(), 0);
    assert!(!h.can_undo());
    assert!(!h.can_redo());
    assert_eq!(h.state_names(), vec!["Open"]);
}

#[test]
fn push_advances_the_cursor() {
    let mut h = History::new(LayerStack::new(), (16, 16));
    h.push("New Layer".to_string(), stack_with_name("a"), (16, 16));
    assert_eq!(h.len(), 2);
    assert_eq!(h.cursor(), 1);
    assert!(h.can_undo());
    assert!(!h.can_redo());
}

#[test]
fn undo_then_redo_returns_to_the_same_state() {
    let mut h = History::new(LayerStack::new(), (16, 16));
    h.push("New Layer".to_string(), stack_with_name("a"), (16, 16));

    assert_eq!(h.undo().unwrap().stack.len(), 0);
    assert_eq!(h.cursor(), 0);
    assert!(h.can_redo());

    assert_eq!(h.redo().unwrap().stack.len(), 1);
    assert_eq!(h.cursor(), 1);
}

#[test]
fn undo_at_the_start_returns_none() {
    let mut h = History::new(LayerStack::new(), (16, 16));
    assert!(h.undo().is_none());
    assert_eq!(h.cursor(), 0);
}

#[test]
fn redo_at_the_end_returns_none() {
    let mut h = History::new(LayerStack::new(), (16, 16));
    h.push("x".to_string(), stack_with_name("a"), (16, 16));
    assert!(h.redo().is_none());
}

#[test]
fn pushing_after_undo_discards_the_redo_branch() {
    let mut h = History::new(LayerStack::new(), (16, 16));
    h.push("first".to_string(), stack_with_name("a"), (16, 16));
    h.push("second".to_string(), stack_with_name("b"), (16, 16));
    h.undo();
    assert!(h.can_redo());

    h.push("third".to_string(), stack_with_name("c"), (16, 16));
    assert!(!h.can_redo(), "redo branch survived a new action");
    assert_eq!(h.state_names(), vec!["Open", "first", "third"]);
}

#[test]
fn undo_and_redo_names_describe_the_right_steps() {
    let mut h = History::new(LayerStack::new(), (16, 16));
    assert_eq!(h.undo_name(), None);

    h.push("Brush Tool".to_string(), stack_with_name("a"), (16, 16));
    assert_eq!(h.undo_name(), Some("Brush Tool"));
    assert_eq!(h.redo_name(), None);

    h.undo();
    assert_eq!(h.redo_name(), Some("Brush Tool"));
    assert_eq!(h.undo_name(), None);
}

#[test]
fn jump_to_moves_the_cursor_anywhere() {
    let mut h = History::new(LayerStack::new(), (16, 16));
    h.push("a".to_string(), stack_with_name("a"), (16, 16));
    h.push("b".to_string(), stack_with_name("b"), (16, 16));

    assert!(h.jump_to(0).is_some());
    assert_eq!(h.cursor(), 0);
    assert!(h.jump_to(2).is_some());
    assert_eq!(h.cursor(), 2);
    assert!(h.jump_to(99).is_none());
    assert_eq!(h.cursor(), 2, "failed jump moved the cursor");
}

#[test]
fn state_count_limit_evicts_the_oldest() {
    let mut h = History::new(LayerStack::new(), (16, 16));
    h.set_max_states(3);
    for i in 0..5 {
        h.push(format!("s{}", i), stack_with_name("x"), (16, 16));
    }
    assert_eq!(h.len(), 3);
    // The oldest entries, including "Open", were dropped.
    assert_eq!(h.state_names(), vec!["s2", "s3", "s4"]);
    assert_eq!(h.cursor(), 2);
}

#[test]
fn eviction_keeps_the_cursor_pointing_at_the_same_state() {
    let mut h = History::new(LayerStack::new(), (16, 16));
    h.set_max_states(2);
    h.push("a".to_string(), stack_with_name("a"), (16, 16));
    h.push("b".to_string(), stack_with_name("b"), (16, 16));
    // The cursor must still address the newest state.
    assert_eq!(h.state_names()[h.cursor()], "b");
}

#[test]
fn max_states_is_never_below_one() {
    let mut h = History::new(LayerStack::new(), (16, 16));
    h.set_max_states(0);
    assert_eq!(h.max_states(), 1);
    assert!(!h.is_empty());
}

#[test]
fn byte_budget_evicts_old_snapshots() {
    let mut h = History::new(LayerStack::new(), (16, 16));
    // Each pushed stack holds one 64x64 RGBA layer = 16 KiB.
    let big = || {
        let mut s = LayerStack::new();
        let id = s.allocate_id();
        s.push(Layer::new_filled(id, "big".to_string(), 64, 64, Rgba8::white()));
        s
    };
    h.set_max_bytes(40 * 1024);
    for _ in 0..6 {
        h.push("big".to_string(), big(), (16, 16));
    }
    assert!(h.byte_size() <= 40 * 1024, "budget exceeded: {}", h.byte_size());
    assert!(h.len() >= 1);
}

#[test]
fn current_reflects_the_cursor() {
    let mut h = History::new(LayerStack::new(), (16, 16));
    h.push("a".to_string(), stack_with_name("a"), (16, 16));
    assert_eq!(h.current().len(), 1);
    h.undo();
    assert_eq!(h.current().len(), 0);
}

#[test]
fn a_repeated_step_is_coalesced_until_sealed() {
    let mut h = History::new(LayerStack::new(), (16, 16));
    h.push_coalescing("Opacity".to_string(), stack_with_name("a"), (16, 16));
    h.push_coalescing("Opacity".to_string(), stack_with_name("b"), (8, 8));
    assert_eq!(h.len(), 2);
    assert_eq!(h.current_size(), (8, 8));
    assert_eq!(h.current().get(0).unwrap().name, "b");
    h.seal_coalescing();
    h.push_coalescing("Opacity".to_string(), stack_with_name("c"), (8, 8));
    assert_eq!(h.len(), 3);
    h.push_coalescing("Fill".to_string(), stack_with_name("d"), (8, 8));
    assert_eq!(h.state_names(), vec!["Open", "Opacity", "Opacity", "Fill"]);
}

#[test]
fn the_opening_state_is_never_coalesced_into() {
    let mut h = History::new(LayerStack::new(), (16, 16));
    h.push_coalescing("Open".to_string(), stack_with_name("a"), (16, 16));
    assert_eq!(h.len(), 2);
}

#[test]
fn every_layer_can_be_changed_in_place() {
    let mut s = stack_with(3);
    for layer in s.iter_mut() {
        layer.visible = false;
        layer.opacity = 128;
    }
    assert_eq!(s.len(), 3);
    for layer in s.iter() {
        assert!(!layer.visible);
        assert_eq!(layer.opacity, 128);
    }
    assert_eq!(s.get(2).unwrap().name, "L2");
}
