use vstd::prelude::*;

use crate::paint::abs;

verus! {

/// The direction in which a coordinate walks from `a` toward `b`.
pub open spec fn step_toward(a: int, b: int) -> int {
    if a < b {
        1
    } else {
        -1
    }
}

/// The state `(x, y, err)` of Bresenham's walk from `(x0, y0)` to `(x1, y1)`:
/// `i` steps taken along x and `j` along y, never past the end, and the error
/// term tied to them.
pub open spec fn line_state_ok(x0: int, y0: int, x1: int, y1: int, x: int, y: int, err: int) -> bool {
    let dx = abs(x1 - x0);
    let dy = abs(y1 - y0);
    let i = abs(x - x0);
    let j = abs(y - y0);
    &&& 0 <= i <= dx
    &&& 0 <= j <= dy
    &&& (x0 < x1 ==> x == x0 + i)
    &&& (!(x0 < x1) ==> x == x0 - i)
    &&& (y0 < y1 ==> y == y0 + j)
    &&& (!(y0 < y1) ==> y == y0 - j)
    &&& err == dx - dy - i * dy + j * dx
}

/// One step of the walk: x moves when `2 err > -dy`, y moves when `2 err < dx`.
pub open spec fn line_step(x0: int, y0: int, x1: int, y1: int, x: int, y: int, err: int) -> (int, int, int) {
    let dx = abs(x1 - x0);
    let dy = abs(y1 - y0);
    let e2 = 2 * err;
    let nx = if e2 > -dy {
        x + step_toward(x0, x1)
    } else {
        x
    };
    let err1 = if e2 > -dy {
        err - dy
    } else {
        err
    };
    let ny = if e2 < dx {
        y + step_toward(y0, y1)
    } else {
        y
    };
    let err2 = if e2 < dx {
        err1 + dx
    } else {
        err1
    };
    (nx, ny, err2)
}

/// How many unit moves the walk still has to make, at most.
pub open spec fn line_measure(x0: int, y0: int, x1: int, y1: int, x: int, y: int) -> int {
    (abs(x1 - x0) - abs(x - x0)) + (abs(y1 - y0) - abs(y - y0))
}

/// A step of the walk keeps its state sound, moves each coordinate by at most
/// one toward the end, and brings the end closer.
pub proof fn lemma_line_step(x0: int, y0: int, x1: int, y1: int, x: int, y: int, err: int)
    requires
        line_state_ok(x0, y0, x1, y1, x, y, err),
        !(x == x1 && y == y1),
    ensures
        ({
            let (nx, ny, nerr) = line_step(x0, y0, x1, y1, x, y, err);
            &&& line_state_ok(x0, y0, x1, y1, nx, ny, nerr)
            &&& 0 <= line_measure(x0, y0, x1, y1, nx, ny) < line_measure(x0, y0, x1, y1, x, y)
            &&& abs(nx - x) <= 1
            &&& abs(ny - y) <= 1
        }),
{
    let dx = abs(x1 - x0);
    let dy = abs(y1 - y0);
    let i = abs(x - x0);
    let j = abs(y - y0);
    let e2 = 2 * err;
    if i == dx {
        // x has arrived, so y has not, and x must not move again
        assert(j < dy);
        assert(err <= -dy) by (nonlinear_arith)
            requires
                i == dx,
                0 <= j < dy,
                dx >= 0,
                err == dx - dy - i * dy + j * dx,
        ;
    }
    if j == dy {
        assert(i < dx);
        assert(err >= dx) by (nonlinear_arith)
            requires
                j == dy,
                0 <= i < dx,
                dy >= 0,
                err == dx - dy - i * dy + j * dx,
        ;
    }
    assert((i + 1) * dy == i * dy + dy) by (nonlinear_arith);
    assert((j + 1) * dx == j * dx + dx) by (nonlinear_arith);
    if !(e2 > -dy) && !(e2 < dx) {
        assert(dx == 0 && dy == 0);
    }
}

/// The pixels Bresenham's walk visits from state `(x, y, err)` to the end.
pub open spec fn line_from(x0: int, y0: int, x1: int, y1: int, x: int, y: int, err: int) -> Seq<
    (int, int),
>
    decreases line_measure(x0, y0, x1, y1, x, y),
{
    if !line_state_ok(x0, y0, x1, y1, x, y, err) {
        Seq::empty()
    } else if x == x1 && y == y1 {
        seq![(x, y)]
    } else {
        let (nx, ny, nerr) = line_step(x0, y0, x1, y1, x, y, err);
        proof {
            lemma_line_step(x0, y0, x1, y1, x, y, err);
        }
        seq![(x, y)] + line_from(x0, y0, x1, y1, nx, ny, nerr)
    }
}

/// The starting error term of the walk.
pub open spec fn line_err0(x0: int, y0: int, x1: int, y1: int) -> int {
    abs(x1 - x0) - abs(y1 - y0)
}

/// The pixels of the Bresenham line from `(x0, y0)` to `(x1, y1)`, in order.
pub open spec fn line_points(x0: int, y0: int, x1: int, y1: int) -> Seq<(int, int)> {
    line_from(x0, y0, x1, y1, x0, y0, line_err0(x0, y0, x1, y1))
}

/// Two pixels touch, by side or by corner (or are the same pixel).
pub open spec fn touching(p: (int, int), q: (int, int)) -> bool {
    abs(p.0 - q.0) <= 1 && abs(p.1 - q.1) <= 1
}

/// The walk from a sound state starts at that state's pixel, ends at the end
/// pixel, and each pixel touches the next.
pub proof fn lemma_line_from(x0: int, y0: int, x1: int, y1: int, x: int, y: int, err: int)
    requires
        line_state_ok(x0, y0, x1, y1, x, y, err),
    ensures
        ({
            let pts = line_from(x0, y0, x1, y1, x, y, err);
            &&& pts.len() >= 1
            &&& pts[0] == (x, y)
            &&& pts.last() == (x1, y1)
            &&& forall|k: int| 0 <= k < pts.len() - 1 ==> touching(#[trigger] pts[k], pts[k + 1])
        }),
    decreases line_measure(x0, y0, x1, y1, x, y),
{
    if !(x == x1 && y == y1) {
        let (nx, ny, nerr) = line_step(x0, y0, x1, y1, x, y, err);
        lemma_line_step(x0, y0, x1, y1, x, y, err);
        lemma_line_from(x0, y0, x1, y1, nx, ny, nerr);
        let rest = line_from(x0, y0, x1, y1, nx, ny, nerr);
        let pts = line_from(x0, y0, x1, y1, x, y, err);
        assert(pts == seq![(x, y)] + rest);
        assert forall|k: int| 0 <= k < pts.len() - 1 implies touching(#[trigger] pts[k], pts[k + 1]) by {
            if k > 0 {
                assert(pts[k] == rest[k - 1]);
                assert(pts[k + 1] == rest[k]);
            }
        }
    }
}

/// The Bresenham line between two pixels runs from the first to the second
/// without gaps: it starts at `(x0, y0)`, ends at `(x1, y1)`, and every pixel
/// of it touches the next.
pub proof fn law_line_connects(x0: int, y0: int, x1: int, y1: int)
    ensures
        ({
            let pts = line_points(x0, y0, x1, y1);
            &&& pts.len() >= 1
            &&& pts[0] == (x0, y0)
            &&& pts.last() == (x1, y1)
            &&& forall|k: int| 0 <= k < pts.len() - 1 ==> touching(#[trigger] pts[k], pts[k + 1])
        }),
{
    lemma_line_from(x0, y0, x1, y1, x0, y0, line_err0(x0, y0, x1, y1));
}

} // verus!
