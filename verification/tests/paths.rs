use photorust::path::{PathPoint, PathSet, Subpath, VectorPath};

type Path = VectorPath<(f32, f32)>;

#[test]
fn closing_needs_at_least_two_points() {
    let mut p = Path::new();
    p.append_corner((0.0, 0.0));
    assert!(!p.close_active_subpath(), "a single point should not close");
    p.append_corner((10.0, 0.0));
    assert!(p.close_active_subpath());
    assert!(p.subpaths[0].closed);
    assert!(!p.is_editing(), "closing should end the editing session");
}

#[test]
fn finishing_leaves_the_subpath_open_and_appending_again_starts_a_new_one() {
    let mut p = Path::new();
    p.append_corner((0.0, 0.0));
    p.append_corner((10.0, 0.0));
    p.finish_editing();
    assert!(!p.subpaths[0].closed);

    p.append_corner((50.0, 50.0));
    assert_eq!(p.subpaths.len(), 2, "a new subpath should have started");
}

#[test]
fn deleting_the_last_anchor_removes_the_subpath() {
    let mut p = Path::new();
    p.append_corner((0.0, 0.0));
    assert!(p.delete_anchor(0, 0));
    assert!(p.subpaths.is_empty());
    assert!(p.is_empty());
}

#[test]
fn deleting_reindexes_editing_correctly() {
    let mut p = Path::new();
    p.append_corner((0.0, 0.0));
    p.append_corner((1.0, 1.0));
    p.finish_editing();
    p.append_corner((9.0, 9.0)); // subpath 1, still being edited
    p.append_corner((9.0, 9.0));
    // Delete every point of subpath 0, which should shift subpath 1 to 0
    // and keep `editing` pointing at it.
    p.delete_anchor(0, 1);
    p.delete_anchor(0, 0);
    assert_eq!(p.subpaths.len(), 1);
    assert_eq!(p.editing_subpath(), Some(0));
}

#[test]
fn path_set_ensure_active_creates_a_work_path_once() {
    let mut set: PathSet<(f32, f32)> = PathSet::new();
    assert!(set.is_empty());
    {
        let path = set.ensure_active();
        path.append_corner((0.0, 0.0));
    }
    assert_eq!(set.len(), 1);
    assert_eq!(set.entries()[0].name, "Work Path");
    // A second call must not create a second Work Path.
    set.ensure_active().append_corner((1.0, 1.0));
    assert_eq!(set.len(), 1);
    assert_eq!(set.active().unwrap().subpaths[0].points.len(), 2);
}

#[test]
fn path_set_add_named_numbers_paths_in_order() {
    let mut set: PathSet<(f32, f32)> = PathSet::new();
    let a = set.add_named();
    let b = set.add_named();
    assert_eq!(set.entries()[a].name, "Path 1");
    assert_eq!(set.entries()[b].name, "Path 2");
    assert_eq!(set.active_index(), Some(b));
}

#[test]
fn removing_a_path_updates_the_active_index() {
    let mut set: PathSet<(f32, f32)> = PathSet::new();
    set.add_named();
    let b = set.add_named();
    set.set_active(0);
    assert!(set.remove(0));
    // The active index pointed at the removed entry's slot; `b` shifted down
    // to fill it, but nothing should now claim to be active.
    assert_eq!(set.active_index(), None);
    assert_eq!(set.len(), 1);
    let _ = b;
}

#[test]
fn appending_reports_where_the_point_went() {
    let mut p = Path::new();
    assert_eq!(p.append_corner((0.0, 0.0)), (0, 0));
    assert_eq!(p.append_corner((1.0, 0.0)), (0, 1));
    p.finish_editing();
    assert_eq!(p.append_corner((5.0, 5.0)), (1, 0));
    assert_eq!(p.subpaths[1].points[0].anchor, (5.0, 5.0));
    assert!(p.subpaths[1].points[0].in_handle.is_none());
}

#[test]
fn a_corner_click_strips_the_handles() {
    let mut p = Path::new();
    p.append_corner((0.0, 0.0));
    p.subpaths[0].points[0] =
        PathPoint { anchor: (0.0, 0.0), in_handle: Some((-10.0, 0.0)), out_handle: Some((10.0, 0.0)), smooth: true };
    assert!(p.set_corner(0, 0));
    let pt = p.subpaths[0].points[0];
    assert!(!pt.smooth);
    assert!(pt.in_handle.is_none());
    assert!(pt.out_handle.is_none());
    assert_eq!(pt.anchor, (0.0, 0.0));
    assert!(!p.set_corner(0, 1));
    assert!(!p.set_corner(3, 0));
}

#[test]
fn segments_count_and_wrap_as_the_subpath_closes() {
    let mut s: Subpath<(i32, i32)> = Subpath::new();
    assert_eq!(s.segment_count(), 0);
    s.points.push(PathPoint { anchor: (0, 0), in_handle: None, out_handle: Some((1, 1)), smooth: false });
    assert_eq!(s.segment_count(), 0);
    s.points.push(PathPoint { anchor: (4, 0), in_handle: None, out_handle: None, smooth: false });
    s.points.push(PathPoint { anchor: (4, 4), in_handle: Some((3, 3)), out_handle: None, smooth: false });
    assert_eq!(s.segment_count(), 2);
    assert_eq!(s.segment(0), Some([(0, 0), (1, 1), (4, 0), (4, 0)]));
    assert_eq!(s.segment(1), Some([(4, 0), (4, 0), (3, 3), (4, 4)]));
    assert_eq!(s.segment(2), None);
    s.closed = true;
    assert_eq!(s.segment_count(), 3);
    // The closing segment runs from the last point back to the first.
    assert_eq!(s.segment(2), Some([(4, 4), (4, 4), (0, 0), (0, 0)]));
}

#[test]
fn deleting_inside_a_subpath_keeps_it_and_its_editing() {
    let mut p = Path::new();
    p.append_corner((0.0, 0.0));
    p.append_corner((1.0, 0.0));
    p.append_corner((2.0, 0.0));
    assert!(p.delete_anchor(0, 1));
    assert_eq!(p.subpaths[0].points.len(), 2);
    assert_eq!(p.subpaths[0].points[1].anchor, (2.0, 0.0));
    assert_eq!(p.editing_subpath(), Some(0));
    assert!(!p.delete_anchor(0, 5));
}

#[test]
fn duplicating_and_renaming_paths() {
    let mut set: PathSet<(f32, f32)> = PathSet::new();
    let a = set.add_named();
    set.active_mut().unwrap().append_corner((3.0, 4.0));
    let c = set.duplicate(a).unwrap();
    assert_eq!(set.entries()[c].name, "Path 1 copy");
    assert_eq!(set.entries()[c].path.subpaths[0].points[0].anchor, (3.0, 4.0));
    assert_eq!(set.active_index(), Some(c));
    assert!(set.rename(a, "Outline".to_string()));
    assert_eq!(set.entries()[a].name, "Outline");
    assert!(!set.rename(9, "x".to_string()));
    assert_eq!(set.duplicate(9), None);
}

#[test]
fn removing_an_earlier_path_moves_the_active_index_down() {
    let mut set: PathSet<(f32, f32)> = PathSet::new();
    set.add_named();
    set.add_named();
    let c = set.add_named();
    assert_eq!(set.active_index(), Some(c));
    assert!(set.remove(0));
    assert_eq!(set.active_index(), Some(1));
    assert_eq!(set.entries()[1].name, "Path 3");
    assert!(!set.remove(5));
}

#[test]
fn a_default_path_set_numbers_from_zero() {
    let mut set: PathSet<(f32, f32)> = PathSet::default();
    assert_eq!(set.next_untitled(), 0);
    let a = set.add_named();
    assert_eq!(set.entries()[a].name, "Path 0");
    assert_eq!(set.next_untitled(), 1);
}
