use vstd::prelude::*;

use crate::bitmap::{Bitmap, BitmapView};
use crate::color::Color;
use crate::line::{line_from, line_measure, line_points, line_state_ok, line_step, lemma_line_step, step_toward};

verus! {

pub open spec fn abs(v: int) -> int {
    if v < 0 {
        -v
    } else {
        v
    }
}

/// The pixels one stamp at `(cx, cy)` touches on a `w` by `h` canvas: the pixel
/// itself, its mirror across the vertical axis when `mirror_x` is on, across the
/// horizontal axis when `mirror_y` is on, and across both when both are on.
pub open spec fn mirror_points(
    w: int,
    h: int,
    cx: int,
    cy: int,
    mirror_x: bool,
    mirror_y: bool,
) -> Seq<(int, int)> {
    let mx = w - 1 - cx;
    let my = h - 1 - cy;
    let base = seq![(cx, cy)];
    let with_x = if mirror_x {
        base.push((mx, cy))
    } else {
        base
    };
    let with_y = if mirror_y {
        with_x.push((cx, my))
    } else {
        with_x
    };
    if mirror_x && mirror_y {
        with_y.push((mx, my))
    } else {
        with_y
    }
}

/// Paints each listed pixel that lies on the canvas with `c`, in order.
pub open spec fn paint_points(v: BitmapView, pts: Seq<(int, int)>, c: Color) -> BitmapView
    decreases pts.len(),
{
    if pts.len() == 0 {
        v
    } else {
        paint_points(v.with_pixel(pts[0].0, pts[0].1, c), pts.drop_first(), c)
    }
}

/// One stamp of color `c` at `(cx, cy)`, with the mirrored counterparts.
pub open spec fn spec_stamp(
    v: BitmapView,
    c: Color,
    mirror_x: bool,
    mirror_y: bool,
    cx: int,
    cy: int,
) -> BitmapView {
    paint_points(v, mirror_points(v.width as int, v.height as int, cx, cy, mirror_x, mirror_y), c)
}

/// Stamps at every listed point, in order.
pub open spec fn stamp_all(
    v: BitmapView,
    c: Color,
    mirror_x: bool,
    mirror_y: bool,
    pts: Seq<(int, int)>,
) -> BitmapView
    decreases pts.len(),
{
    if pts.len() == 0 {
        v
    } else {
        stamp_all(spec_stamp(v, c, mirror_x, mirror_y, pts[0].0, pts[0].1), c, mirror_x, mirror_y, pts.drop_first())
    }
}

/// Painting never changes the size of the canvas.
pub proof fn lemma_paint_points_size(v: BitmapView, pts: Seq<(int, int)>, c: Color)
    ensures
        paint_points(v, pts, c).width == v.width,
        paint_points(v, pts, c).height == v.height,
    decreases pts.len(),
{
    if pts.len() > 0 {
        lemma_paint_points_size(v.with_pixel(pts[0].0, pts[0].1, c), pts.drop_first(), c);
    }
}

/// Paints the pixels of `pts` one after the other; points off the canvas are skipped.
fn paint_list(canvas: &mut Bitmap, pts: &Vec<(i64, i64)>, c: Color)
    ensures
        final(canvas)@ == paint_points(
            old(canvas)@,
            pts@.map_values(|p: (i64, i64)| (p.0 as int, p.1 as int)),
            c,
        ),
{
    let ghost all = pts@.map_values(|p: (i64, i64)| (p.0 as int, p.1 as int));
    let n = pts.len();
    let mut i: usize = 0;
    assert(all.skip(0) =~= all);
    while i < n
        invariant
            n == pts@.len(),
            all == pts@.map_values(|p: (i64, i64)| (p.0 as int, p.1 as int)),
            i <= n,
            paint_points(old(canvas)@, all, c) == paint_points(canvas@, all.skip(i as int), c),
        decreases n - i,
    {
        let (x, y) = pts[i];
        let w = canvas.width();
        let h = canvas.height();
        proof {
            assert(all.skip(i as int).drop_first() =~= all.skip(i + 1));
            assert(all.skip(i as int)[0] == (x as int, y as int));
        }
        if x >= 0 && y >= 0 && x < w as i64 && y < h as i64 {
            canvas.set_pixel(x as u32, y as u32, c);
        }
        i = i + 1;
    }
    proof {
        assert(all.skip(n as int) =~= Seq::<(int, int)>::empty());
    }
}

/// A pixel after painting a list of points: `c` where the pixel is one of
/// the points and lies on the canvas, as before everywhere else.
pub proof fn lemma_paint_points_at(v: BitmapView, pts: Seq<(int, int)>, c: Color, x: int, y: int)
    ensures
        paint_points(v, pts, c).width == v.width,
        paint_points(v, pts, c).height == v.height,
        paint_points(v, pts, c).at(x, y) == if pts.contains((x, y)) && v.contains(x, y) {
            c
        } else {
            v.at(x, y)
        },
    decreases pts.len(),
{
    lemma_paint_points_size(v, pts, c);
    if pts.len() > 0 {
        let q = pts[0];
        let v1 = v.with_pixel(q.0, q.1, c);
        let rest = pts.drop_first();
        lemma_paint_points_at(v1, rest, c, x, y);
        if rest.contains((x, y)) {
            let k = choose|k: int| 0 <= k < rest.len() && rest[k] == (x, y);
            assert(pts[k + 1] == (x, y));
        }
        if pts.contains((x, y)) && (x, y) != q {
            let k = choose|k: int| 0 <= k < pts.len() && pts[k] == (x, y);
            assert(rest[k - 1] == (x, y));
        }
        if (x, y) == q {
            assert(pts[0] == (x, y));
        }
    }
}

/// Stamping along a list of points keeps the canvas size, paints each listed
/// point that lies on the canvas with `c`, and never takes `c` away from a
/// pixel that has it.
pub proof fn lemma_stamp_all_at(
    v: BitmapView,
    c: Color,
    mirror_x: bool,
    mirror_y: bool,
    pts: Seq<(int, int)>,
    x: int,
    y: int,
)
    ensures
        stamp_all(v, c, mirror_x, mirror_y, pts).width == v.width,
        stamp_all(v, c, mirror_x, mirror_y, pts).height == v.height,
        v.contains(x, y) && v.at(x, y) == c ==> stamp_all(v, c, mirror_x, mirror_y, pts).at(x, y) == c,
        v.contains(x, y) && pts.contains((x, y)) ==> stamp_all(v, c, mirror_x, mirror_y, pts).at(x, y) == c,
    decreases pts.len(),
{
    if pts.len() > 0 {
        let q = pts[0];
        let v1 = spec_stamp(v, c, mirror_x, mirror_y, q.0, q.1);
        let rest = pts.drop_first();
        law_stamp_pixels(v, c, mirror_x, mirror_y, q.0, q.1, x, y);
        lemma_stamp_all_at(v1, c, mirror_x, mirror_y, rest, x, y);
        if pts.contains((x, y)) && (x, y) != q {
            let k = choose|k: int| 0 <= k < pts.len() && pts[k] == (x, y);
            assert(rest[k - 1] == (x, y));
        }
    }
}

/// What one stamp does, pixel by pixel, on a `w` by `h` canvas: the stamped
/// pixel `(cx, cy)` gets `c`; with `mirror_x` so does its mirror
/// `(w - 1 - cx, cy)` across the vertical axis; with `mirror_y` so does its
/// mirror `(cx, h - 1 - cy)` across the horizontal axis, whatever `mirror_x`
/// is; with both, so does `(w - 1 - cx, h - 1 - cy)`. Each of these only where
/// it lies on the canvas; every other pixel keeps its color, and the canvas
/// keeps its size.
pub proof fn law_stamp_pixels(
    v: BitmapView,
    c: Color,
    mirror_x: bool,
    mirror_y: bool,
    cx: int,
    cy: int,
    x: int,
    y: int,
)
    ensures
        ({
            let r = spec_stamp(v, c, mirror_x, mirror_y, cx, cy);
            let mx = v.width - 1 - cx;
            let my = v.height - 1 - cy;
            let hit = (x == cx && y == cy) || (mirror_x && x == mx && y == cy) || (mirror_y && x == cx && y
                == my) || (mirror_x && mirror_y && x == mx && y == my);
            &&& r.width == v.width
            &&& r.height == v.height
            &&& r.at(x, y) == if hit && v.contains(x, y) {
                c
            } else {
                v.at(x, y)
            }
        }),
{
    let w = v.width as int;
    let h = v.height as int;
    let pts = mirror_points(w, h, cx, cy, mirror_x, mirror_y);
    lemma_paint_points_at(v, pts, c, x, y);
    let mx = w - 1 - cx;
    let my = h - 1 - cy;
    let hit = (x == cx && y == cy) || (mirror_x && x == mx && y == cy) || (mirror_y && x == cx && y == my) || (
    mirror_x && mirror_y && x == mx && y == my);
    if mirror_x && mirror_y {
        assert(pts =~= seq![(cx, cy), (mx, cy), (cx, my), (mx, my)]);
    } else if mirror_x {
        assert(pts =~= seq![(cx, cy), (mx, cy)]);
    } else if mirror_y {
        assert(pts =~= seq![(cx, cy), (cx, my)]);
    } else {
        assert(pts =~= seq![(cx, cy)]);
    }
    if hit {
        if x == cx && y == cy {
            assert(pts[0] == (x, y));
        } else if mirror_x && x == mx && y == cy {
            assert(pts[1] == (x, y));
        } else if mirror_y && x == cx && y == my {
            if mirror_x {
                assert(pts[2] == (x, y));
            } else {
                assert(pts[1] == (x, y));
            }
        } else {
            assert(pts[3] == (x, y));
        }
        assert(pts.contains((x, y)));
    } else {
        assert(!pts.contains((x, y)));
    }
}

/// Stamps color `c` at `(cx, cy)` and at its mirrored counterparts: exactly
/// those pixels, no radius and no falloff.
pub fn stamp(canvas: &mut Bitmap, c: Color, mirror_x: bool, mirror_y: bool, cx: u32, cy: u32)
    requires
        cx <= i32::MAX,
        cy <= i32::MAX,
        old(canvas)@.width <= i32::MAX,
        old(canvas)@.height <= i32::MAX,
    ensures
        final(canvas)@ == spec_stamp(old(canvas)@, c, mirror_x, mirror_y, cx as int, cy as int),
        final(canvas)@.width == old(canvas)@.width,
        final(canvas)@.height == old(canvas)@.height,
        old(canvas)@.contains(cx as int, cy as int) ==> final(canvas)@.at(cx as int, cy as int) == c,
        mirror_x && old(canvas)@.contains(old(canvas)@.width - 1 - cx, cy as int) ==> final(canvas)@.at(
            old(canvas)@.width - 1 - cx,
            cy as int,
        ) == c,
        mirror_y && old(canvas)@.contains(cx as int, old(canvas)@.height - 1 - cy) ==> final(canvas)@.at(
            cx as int,
            old(canvas)@.height - 1 - cy,
        ) == c,
{
    let ghost v = canvas@;
    let w = canvas.width() as i64;
    let h = canvas.height() as i64;
    let x = cx as i64;
    let y = cy as i64;
    let mut positions: Vec<(i64, i64)> = Vec::new();
    positions.push((x, y));
    if mirror_x || mirror_y {
        let mx = w - 1 - x;
        let my = h - 1 - y;
        if mirror_x {
            positions.push((mx, y));
        }
        if mirror_y {
            positions.push((x, my));
        }
        if mirror_x && mirror_y {
            positions.push((mx, my));
        }
    }
    proof {
        let expected = mirror_points(w as int, h as int, cx as int, cy as int, mirror_x, mirror_y);
        assert(positions@.map_values(|p: (i64, i64)| (p.0 as int, p.1 as int)) =~= expected);
    }
    paint_list(canvas, &positions, c);
    proof {
        let (px, py) = (cx as int, cy as int);
        law_stamp_pixels(v, c, mirror_x, mirror_y, px, py, px, py);
        law_stamp_pixels(v, c, mirror_x, mirror_y, px, py, v.width - 1 - px, py);
        law_stamp_pixels(v, c, mirror_x, mirror_y, px, py, px, v.height - 1 - py);
    }
}

/// Stamps every pixel of the Bresenham line from `(x0, y0)` to `(x1, y1)`,
/// both ends included, so that a fast drag leaves no gaps.
pub fn stamp_line(
    canvas: &mut Bitmap,
    c: Color,
    mirror_x: bool,
    mirror_y: bool,
    x0: u32,
    y0: u32,
    x1: u32,
    y1: u32,
)
    requires
        x0 <= i32::MAX,
        y0 <= i32::MAX,
        x1 <= i32::MAX,
        y1 <= i32::MAX,
        old(canvas)@.width <= i32::MAX,
        old(canvas)@.height <= i32::MAX,
    ensures
        final(canvas)@ == stamp_all(
            old(canvas)@,
            c,
            mirror_x,
            mirror_y,
            line_points(x0 as int, y0 as int, x1 as int, y1 as int),
        ),
{
    let ghost (gx0, gy0, gx1, gy1) = (x0 as int, y0 as int, x1 as int, y1 as int);
    let ghost start = old(canvas)@;
    let mut x: i64 = x0 as i64;
    let mut y: i64 = y0 as i64;
    let tx: i64 = x1 as i64;
    let ty: i64 = y1 as i64;
    let dx: i64 = if tx >= x {
        tx - x
    } else {
        x - tx
    };
    let dy: i64 = if ty >= y {
        ty - y
    } else {
        y - ty
    };
    let sx: i64 = if x < tx {
        1
    } else {
        -1
    };
    let sy: i64 = if y < ty {
        1
    } else {
        -1
    };
    let mut err: i128 = dx as i128 - dy as i128;
    proof {
        assert(crate::paint::abs(gx0 - gx0) == 0);
        assert(crate::paint::abs(gy0 - gy0) == 0);
        assert(0 * (dy as int) == 0 && 0 * (dx as int) == 0);
        assert(line_state_ok(gx0, gy0, gx1, gy1, gx0, gy0, err as int));
    }
    loop
        invariant_except_break
            line_state_ok(gx0, gy0, gx1, gy1, x as int, y as int, err as int),
            stamp_all(start, c, mirror_x, mirror_y, line_points(gx0, gy0, gx1, gy1)) == stamp_all(
                canvas@,
                c,
                mirror_x,
                mirror_y,
                line_from(gx0, gy0, gx1, gy1, x as int, y as int, err as int),
            ),
        invariant
            gx0 == x0,
            gy0 == y0,
            gx1 == x1,
            gy1 == y1,
            tx == x1,
            ty == y1,
            dx == crate::paint::abs(gx1 - gx0),
            dy == crate::paint::abs(gy1 - gy0),
            sx == step_toward(gx0, gx1),
            sy == step_toward(gy0, gy1),
            x0 <= i32::MAX,
            y0 <= i32::MAX,
            x1 <= i32::MAX,
            y1 <= i32::MAX,
            canvas@.width == start.width,
            canvas@.height == start.height,
            start.width <= i32::MAX,
            start.height <= i32::MAX,
        ensures
            canvas@ == stamp_all(start, c, mirror_x, mirror_y, line_points(gx0, gy0, gx1, gy1)),
        decreases line_measure(gx0, gy0, gx1, gy1, x as int, y as int),
    {
        let ghost before = canvas@;
        let ghost (ox, oy) = (x as int, y as int);
        let ghost pts = line_from(gx0, gy0, gx1, gy1, x as int, y as int, err as int);
        assert(0 <= x <= i32::MAX && 0 <= y <= i32::MAX);
        stamp(canvas, c, mirror_x, mirror_y, x as u32, y as u32);
        proof {
            lemma_paint_points_size(
                before,
                mirror_points(before.width as int, before.height as int, x as int, y as int, mirror_x, mirror_y),
                c,
            );
        }
        if x == tx && y == ty {
            assert(pts == seq![(ox, oy)]);
            assert(pts[0] == (ox, oy));
            assert(pts.drop_first() =~= Seq::<(int, int)>::empty());
            assert(stamp_all(canvas@, c, mirror_x, mirror_y, Seq::<(int, int)>::empty()) == canvas@);
            break;
        }
        proof {
            lemma_line_step(gx0, gy0, gx1, gy1, x as int, y as int, err as int);
            let i = crate::paint::abs(x - gx0);
            let j = crate::paint::abs(y - gy0);
            assert(0 <= i * dy <= 0x4000_0000_0000_0000) by (nonlinear_arith)
                requires
                    0 <= i <= 0x8000_0000,
                    0 <= dy <= 0x8000_0000,
            ;
            assert(0 <= j * dx <= 0x4000_0000_0000_0000) by (nonlinear_arith)
                requires
                    0 <= j <= 0x8000_0000,
                    0 <= dx <= 0x8000_0000,
            ;
        }
        let ghost (nx, ny, nerr) = line_step(gx0, gy0, gx1, gy1, x as int, y as int, err as int);
        let e2: i128 = 2 * err;
        if e2 > -(dy as i128) {
            err = err - dy as i128;
            x = x + sx;
        }
        if e2 < dx as i128 {
            err = err + dx as i128;
            y = y + sy;
        }
        proof {
            assert((x as int, y as int, err as int) == (nx, ny, nerr));
            let rest = line_from(gx0, gy0, gx1, gy1, nx, ny, nerr);
            assert(pts == seq![(ox, oy)] + rest);
            assert(pts[0] == (ox, oy));
            assert(pts.drop_first() =~= rest);
        }
    }
}

} // verus!
