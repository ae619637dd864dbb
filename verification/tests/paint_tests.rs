use atlas_maker::bitmap::Bitmap;
use atlas_maker::color::Color;
use atlas_maker::fill::flood_fill;
use atlas_maker::paint::{stamp, stamp_line};

const CLEAR: Color = Color { r: 0, g: 0, b: 0, a: 0 };
const RED: Color = Color { r: 255, g: 0, b: 0, a: 255 };
const BLUE: Color = Color { r: 0, g: 0, b: 255, a: 255 };

fn painted(b: &Bitmap) -> Vec<(u32, u32)> {
    let mut out = Vec::new();
    for y in 0..b.height() {
        for x in 0..b.width() {
            if b.get_pixel(x, y) != CLEAR {
                out.push((x, y));
            }
        }
    }
    out
}

#[test]
fn new_bitmap_is_transparent() {
    let b = Bitmap::new(3, 2);
    assert_eq!(b.width(), 3);
    assert_eq!(b.height(), 2);
    assert_eq!(b.pixel_count(), 6);
    assert!(painted(&b).is_empty());
    assert_eq!(b.to_rgba(), vec![0u8; 24]);
}

#[test]
fn set_and_get_pixel() {
    let mut b = Bitmap::new(4, 4);
    b.set_pixel(2, 1, RED);
    assert_eq!(b.get_pixel(2, 1), RED);
    assert_eq!(painted(&b), vec![(2, 1)]);
    let bytes = b.to_rgba();
    assert_eq!(&bytes[4 * (1 * 4 + 2)..4 * (1 * 4 + 2) + 4], &[255, 0, 0, 255]);
}

#[test]
fn rgba_bytes_round_trip() {
    let bytes: Vec<u8> = (0..2 * 3 * 4).map(|i| i as u8).collect();
    let b = Bitmap::from_rgba(2, 3, bytes.clone()).unwrap();
    assert_eq!(b.get_pixel(1, 2), Color { r: 20, g: 21, b: 22, a: 23 });
    assert_eq!(b.to_rgba(), bytes);
    assert!(Bitmap::from_rgba(2, 3, vec![0u8; 23]).is_none());
    assert!(Bitmap::from_rgba(2, 3, vec![0u8; 25]).is_none());
}

#[test]
fn copy_keeps_pixels() {
    let mut b = Bitmap::filled(2, 2, BLUE);
    let c = b.copy();
    b.set_pixel(0, 0, RED);
    assert_eq!(c.get_pixel(0, 0), BLUE);
    assert_eq!(b.get_pixel(0, 0), RED);
}

#[test]
fn checker_pattern() {
    let c = Bitmap::checker(64, 8);
    assert_eq!(c.width(), 64);
    assert_eq!(c.get_pixel(0, 0), Color { r: 45, g: 45, b: 45, a: 255 });
    assert_eq!(c.get_pixel(8, 0), Color { r: 35, g: 35, b: 35, a: 255 });
    assert_eq!(c.get_pixel(8, 8), Color { r: 45, g: 45, b: 45, a: 255 });
    assert_eq!(c.get_pixel(63, 7), Color { r: 35, g: 35, b: 35, a: 255 });
}

#[test]
fn stamp_single_pixel() {
    let mut b = Bitmap::new(8, 8);
    stamp(&mut b, RED, false, false, 2, 3);
    assert_eq!(painted(&b), vec![(2, 3)]);
}

#[test]
fn stamp_mirrored_both_ways() {
    let mut b = Bitmap::new(8, 6);
    stamp(&mut b, RED, true, true, 1, 2);
    let mut p = painted(&b);
    p.sort();
    assert_eq!(p, vec![(1, 2), (1, 3), (6, 2), (6, 3)]);
}

#[test]
fn stamp_mirror_x_only() {
    let mut b = Bitmap::new(5, 5);
    stamp(&mut b, RED, true, false, 0, 4);
    let mut p = painted(&b);
    p.sort();
    assert_eq!(p, vec![(0, 4), (4, 4)]);
}

#[test]
fn stamp_off_canvas_does_nothing() {
    let mut b = Bitmap::new(4, 4);
    stamp(&mut b, RED, false, false, 9, 1);
    assert!(painted(&b).is_empty());
}

#[test]
fn line_horizontal() {
    let mut b = Bitmap::new(8, 8);
    stamp_line(&mut b, RED, false, false, 1, 2, 5, 2);
    let mut p = painted(&b);
    p.sort();
    assert_eq!(p, vec![(1, 2), (2, 2), (3, 2), (4, 2), (5, 2)]);
}

#[test]
fn line_diagonal_and_back() {
    let mut b = Bitmap::new(8, 8);
    stamp_line(&mut b, RED, false, false, 4, 4, 0, 0);
    let mut p = painted(&b);
    p.sort();
    assert_eq!(p, vec![(0, 0), (1, 1), (2, 2), (3, 3), (4, 4)]);
}

#[test]
fn line_steep_has_no_gaps() {
    let mut b = Bitmap::new(10, 10);
    stamp_line(&mut b, RED, false, false, 1, 0, 3, 9);
    let p = painted(&b);
    assert!(p.contains(&(1, 0)));
    assert!(p.contains(&(3, 9)));
    for y in 0..10 {
        assert_eq!(p.iter().filter(|q| q.1 == y).count(), 1, "row {}", y);
    }
    assert_eq!(p.len(), 10);
}

#[test]
fn line_of_one_point() {
    let mut b = Bitmap::new(4, 4);
    stamp_line(&mut b, RED, false, false, 2, 2, 2, 2);
    assert_eq!(painted(&b), vec![(2, 2)]);
}

#[test]
fn fill_connected_region_only() {
    // a blue wall splits the canvas into a left and a right region
    let mut b = Bitmap::new(5, 3);
    for y in 0..3 {
        b.set_pixel(2, y, BLUE);
    }
    flood_fill(&mut b, 0, 0, RED);
    for y in 0..3 {
        assert_eq!(b.get_pixel(0, y), RED);
        assert_eq!(b.get_pixel(1, y), RED);
        assert_eq!(b.get_pixel(2, y), BLUE);
        assert_eq!(b.get_pixel(3, y), CLEAR);
        assert_eq!(b.get_pixel(4, y), CLEAR);
    }
}

#[test]
fn fill_does_not_leak_through_corners() {
    let mut b = Bitmap::new(3, 3);
    b.set_pixel(1, 0, BLUE);
    b.set_pixel(0, 1, BLUE);
    flood_fill(&mut b, 0, 0, RED);
    assert_eq!(b.get_pixel(0, 0), RED);
    assert_eq!(b.get_pixel(1, 1), CLEAR);
    assert_eq!(b.get_pixel(2, 2), CLEAR);
}

#[test]
fn fill_same_color_or_outside_is_a_no_op() {
    let mut b = Bitmap::filled(3, 3, RED);
    flood_fill(&mut b, 1, 1, RED);
    assert_eq!(b.to_rgba(), Bitmap::filled(3, 3, RED).to_rgba());
    let mut c = Bitmap::new(3, 3);
    flood_fill(&mut c, 3, 0, RED);
    assert!(painted(&c).is_empty());
}

#[test]
fn fill_twice_is_fill_once() {
    let mut b = Bitmap::new(4, 4);
    b.set_pixel(1, 1, BLUE);
    flood_fill(&mut b, 0, 0, RED);
    let once = b.to_rgba();
    flood_fill(&mut b, 0, 0, RED);
    assert_eq!(b.to_rgba(), once);
    assert_eq!(b.get_pixel(1, 1), BLUE);
    assert_eq!(b.get_pixel(3, 3), RED);
}

#[test]
fn fill_whole_large_canvas() {
    let mut b = Bitmap::new(64, 64);
    flood_fill(&mut b, 63, 63, BLUE);
    assert_eq!(painted(&b).len(), 64 * 64);
}
