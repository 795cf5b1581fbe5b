use photorust::buffer::{Pixmap, Rgba8};
use photorust::metadata::Orientation;

fn checker(w: u32, h: u32) -> Pixmap {
    let mut px = Pixmap::new(w, h);
    for y in 0..h as i32 {
        for x in 0..w as i32 {
            let v = if (x + y) % 2 == 0 { 255 } else { 40 };
            px.set(x, y, Rgba8::new(v, (x * 10) as u8, (y * 10) as u8, 255));
        }
    }
    px
}

#[test]
fn a_clockwise_quarter_turn_moves_each_pixel_exactly() {
    let src = checker(5, 3);
    let turned = src.transformed(Orientation::Rotate90Cw);
    assert_eq!((turned.width(), turned.height()), (3, 5));
    for y in 0..3i32 {
        for x in 0..5i32 {
            // (x, y) lands at (h - 1 - y, x) under a clockwise quarter turn.
            assert_eq!(turned.get(2 - y, x), src.get(x, y));
        }
    }
}

#[test]
fn four_quarter_turns_change_nothing() {
    let src = checker(6, 4);
    let mut p = src.transformed(Orientation::Upright);
    for _ in 0..4 {
        p = p.transformed(Orientation::Rotate90Cw);
    }
    assert_eq!(p.as_bytes(), src.as_bytes());
}

#[test]
fn a_turn_back_undoes_a_turn() {
    let src = checker(9, 5);
    let back = src.transformed(Orientation::Rotate90Cw).transformed(Orientation::Rotate90Ccw);
    assert_eq!(back.as_bytes(), src.as_bytes());
    let twice = src.transformed(Orientation::Rotate180).transformed(Orientation::Rotate180);
    assert_eq!(twice.as_bytes(), src.as_bytes());
}

#[test]
fn mirrors_and_diagonals_land_where_they_should() {
    let src = checker(4, 3);
    let flipped = src.transformed(Orientation::FlipHorizontal);
    assert_eq!(flipped.get(0, 1), src.get(3, 1));
    let down = src.transformed(Orientation::FlipVertical);
    assert_eq!(down.get(2, 0), src.get(2, 2));
    let t = src.transformed(Orientation::Transpose);
    assert_eq!((t.width(), t.height()), (3, 4));
    assert_eq!(t.get(1, 3), src.get(3, 1));
    let v = src.transformed(Orientation::Transverse);
    assert_eq!(v.get(0, 0), src.get(3, 2));
    let ccw = src.transformed(Orientation::Rotate90Ccw);
    assert_eq!(ccw.get(0, 0), src.get(3, 0));
}
