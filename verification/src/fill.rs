use vstd::prelude::*;

use std::collections::HashSet;

use crate::bitmap::{Bitmap, BitmapView, in_rect, lemma_pixel_index, lemma_pixel_index_injective};
use crate::color::Color;
use crate::paint::abs;

verus! {

/// Two pixels share a side.
pub open spec fn side_by_side(p: (int, int), q: (int, int)) -> bool {
    abs(p.0 - q.0) + abs(p.1 - q.1) == 1
}

/// A non-empty walk over pixels of `v`, each of color `target`, each step
/// going to a pixel that shares a side with the last.
pub open spec fn fill_path(v: BitmapView, target: Color, path: Seq<(int, int)>) -> bool {
    &&& path.len() > 0
    &&& forall|k: int|
        0 <= k < path.len() ==> v.contains(#[trigger] path[k].0, path[k].1) && v.at(
            path[k].0,
            path[k].1,
        ) == target
    &&& forall|k: int| 0 <= k < path.len() - 1 ==> side_by_side(#[trigger] path[k], path[k + 1])
}

/// Pixel `p` can be reached from `start` through pixels of the start's color.
pub open spec fn in_region(v: BitmapView, start: (int, int), p: (int, int)) -> bool {
    exists|path: Seq<(int, int)>|
        #[trigger] fill_path(v, v.at(start.0, start.1), path) && path[0] == start && path.last() == p
}

/// The result of a flood fill with `fill` from `(sx, sy)`: every pixel of the
/// start's side-connected region of equal color turns `fill`; nothing else
/// changes. Nothing changes either when the start is off the canvas or
/// already has the fill color.
pub open spec fn spec_flood_fill(v: BitmapView, sx: int, sy: int, fill: Color) -> BitmapView {
    if !v.contains(sx, sy) || v.at(sx, sy) == fill {
        v
    } else {
        BitmapView {
            width: v.width,
            height: v.height,
            pixels: Map::new(
                |p: (int, int)| v.contains(p.0, p.1),
                |p: (int, int)|
                    if in_region(v, (sx, sy), p) {
                        fill
                    } else {
                        v.at(p.0, p.1)
                    },
            ),
        }
    }
}

// ---------------------------------------------------------------------------
// The state of the fill loop and what it keeps true.
// ---------------------------------------------------------------------------

spec fn vis(vs: Seq<bool>, w: int, p: (int, int)) -> bool {
    vs[p.1 * w + p.0]
}

/// The loop has painted `p`: it is on the canvas, visited, and had the target color.
spec fn filled(v0: BitmapView, t: Color, vs: Seq<bool>, p: (int, int)) -> bool {
    v0.contains(p.0, p.1) && vis(vs, v0.width as int, p) && v0.at(p.0, p.1) == t
}

spec fn on_stack(st: Seq<(u32, u32)>, q: (int, int)) -> bool {
    exists|k: int| 0 <= k < st.len() && (#[trigger] st[k]).0 as int == q.0 && st[k].1 as int == q.1
}

spec fn covered(v0: BitmapView, vs: Seq<bool>, st: Seq<(u32, u32)>, q: (int, int)) -> bool {
    !v0.contains(q.0, q.1) || vis(vs, v0.width as int, q) || on_stack(st, q)
}

/// Every side neighbor of `p` is off the canvas, visited, or still to do.
spec fn neighbors_covered(v0: BitmapView, vs: Seq<bool>, st: Seq<(u32, u32)>, p: (int, int)) -> bool {
    &&& covered(v0, vs, st, (p.0 + 1, p.1))
    &&& covered(v0, vs, st, (p.0 - 1, p.1))
    &&& covered(v0, vs, st, (p.0, p.1 + 1))
    &&& covered(v0, vs, st, (p.0, p.1 - 1))
}

/// A pending pixel on the canvas is the start or a side neighbor of a painted pixel.
spec fn origin_ok(v0: BitmapView, t: Color, vs: Seq<bool>, s: (int, int), q: (u32, u32)) -> bool {
    v0.contains(q.0 as int, q.1 as int) ==> ((q.0 as int, q.1 as int) == s || exists|p: (int, int)|
        #[trigger] filled(v0, t, vs, p) && side_by_side(p, (q.0 as int, q.1 as int)))
}

spec fn fill_inv(
    v0: BitmapView,
    t: Color,
    f: Color,
    s: (int, int),
    cv: BitmapView,
    vs: Seq<bool>,
    st: Seq<(u32, u32)>,
) -> bool {
    &&& v0.wf()
    &&& cv.wf()
    &&& cv.width == v0.width
    &&& cv.height == v0.height
    &&& vs.len() == v0.width * v0.height
    &&& v0.contains(s.0, s.1)
    &&& v0.at(s.0, s.1) == t
    &&& t != f
    &&& forall|p: (int, int)|
        v0.contains(p.0, p.1) ==> #[trigger] cv.pixels[p] == (if filled(v0, t, vs, p) {
            f
        } else {
            v0.at(p.0, p.1)
        })
    &&& forall|p: (int, int)| #[trigger] filled(v0, t, vs, p) ==> in_region(v0, s, p)
    &&& forall|p: (int, int)| #[trigger] filled(v0, t, vs, p) ==> neighbors_covered(v0, vs, st, p)
    &&& forall|k: int| 0 <= k < st.len() ==> origin_ok(v0, t, vs, s, #[trigger] st[k])
    &&& (vis(vs, v0.width as int, s) || on_stack(st, s))
}

/// Number of `false` entries.
spec fn count_false(vs: Seq<bool>) -> nat
    decreases vs.len(),
{
    if vs.len() == 0 {
        0
    } else {
        count_false(vs.drop_last()) + if vs.last() {
            0nat
        } else {
            1nat
        }
    }
}

proof fn lemma_count_false_update(vs: Seq<bool>, i: int)
    requires
        0 <= i < vs.len(),
        !vs[i],
    ensures
        count_false(vs.update(i, true)) + 1 == count_false(vs),
    decreases vs.len(),
{
    let u = vs.update(i, true);
    if i == vs.len() - 1 {
        assert(u.drop_last() =~= vs.drop_last());
    } else {
        assert(u.drop_last() =~= vs.drop_last().update(i, true));
        lemma_count_false_update(vs.drop_last(), i);
    }
}

/// Visited flags of pixels other than `q` are unaffected by marking `q`.
proof fn lemma_vis_update(v0: BitmapView, vs: Seq<bool>, q: (int, int), p: (int, int))
    requires
        v0.contains(q.0, q.1),
        v0.contains(p.0, p.1),
        vs.len() == v0.width * v0.height,
    ensures
        vis(vs.update(q.1 * v0.width + q.0, true), v0.width as int, p) == if p == q {
            true
        } else {
            vis(vs, v0.width as int, p)
        },
{
    lemma_pixel_index(v0.width as int, v0.height as int, q.0, q.1);
    lemma_pixel_index(v0.width as int, v0.height as int, p.0, p.1);
    if p != q {
        lemma_pixel_index_injective(v0.width as int, p.0, p.1, q.0, q.1);
    }
}

/// A pixel next to a pixel of the region, with the region's color, is in the region.
proof fn lemma_region_extend(v0: BitmapView, s: (int, int), p: (int, int), q: (int, int))
    requires
        in_region(v0, s, p),
        side_by_side(p, q),
        v0.contains(q.0, q.1),
        v0.at(q.0, q.1) == v0.at(s.0, s.1),
    ensures
        in_region(v0, s, q),
{
    let t = v0.at(s.0, s.1);
    let path = choose|path: Seq<(int, int)>|
        #[trigger] fill_path(v0, t, path) && path[0] == s && path.last() == p;
    let longer = path.push(q);
    assert forall|k: int| 0 <= k < longer.len() implies v0.contains(#[trigger] longer[k].0, longer[k].1)
        && v0.at(longer[k].0, longer[k].1) == t by {
        if k < path.len() {
            assert(longer[k] == path[k]);
        }
    }
    assert forall|k: int| 0 <= k < longer.len() - 1 implies side_by_side(#[trigger] longer[k], longer[k + 1]) by {
        assert(longer[k] == path[k]);
        if k < path.len() - 1 {
            assert(longer[k + 1] == path[k + 1]);
        }
    }
    assert(fill_path(v0, t, longer));
}

/// A popped pixel that needs no painting (off the canvas, seen before, or of
/// another color): marking it visited keeps the loop's facts.
proof fn lemma_step_skip(
    v0: BitmapView,
    t: Color,
    f: Color,
    s: (int, int),
    cv: BitmapView,
    vs: Seq<bool>,
    st: Seq<(u32, u32)>,
    nvs: Seq<bool>,
)
    requires
        fill_inv(v0, t, f, s, cv, vs, st),
        st.len() > 0,
        ({
            let q = (st.last().0 as int, st.last().1 as int);
            if v0.contains(q.0, q.1) && !vis(vs, v0.width as int, q) {
                v0.at(q.0, q.1) != t && nvs == vs.update(q.1 * v0.width + q.0, true)
            } else {
                nvs == vs
            }
        }),
    ensures
        fill_inv(v0, t, f, s, cv, nvs, st.drop_last()),
{
    let q = (st.last().0 as int, st.last().1 as int);
    let nst = st.drop_last();
    let w = v0.width as int;
    if v0.contains(q.0, q.1) {
        lemma_pixel_index(w, v0.height as int, q.0, q.1);
    }
    // `q` is visited from now on, when it is on the canvas; other flags stay.
    assert forall|p: (int, int)| v0.contains(p.0, p.1) implies vis(nvs, w, p) == (vis(vs, w, p) || p
        == q) by {
        if v0.contains(q.0, q.1) && !vis(vs, w, q) {
            lemma_vis_update(v0, vs, q, p);
        }
    }
    assert forall|p: (int, int)| #[trigger] filled(v0, t, nvs, p) == filled(v0, t, vs, p) by {}
    assert forall|p: (int, int)| v0.contains(p.0, p.1) implies #[trigger] cv.pixels[p] == (if filled(
        v0,
        t,
        nvs,
        p,
    ) {
        f
    } else {
        v0.at(p.0, p.1)
    }) by {
        assert(filled(v0, t, nvs, p) == filled(v0, t, vs, p));
    }
    assert forall|r: (int, int)| #[trigger] covered(v0, vs, st, r) implies covered(v0, nvs, nst, r) by {
        if v0.contains(r.0, r.1) && !vis(vs, w, r) {
            let k = choose|k: int|
                0 <= k < st.len() && (#[trigger] st[k]).0 as int == r.0 && st[k].1 as int == r.1;
            if k == st.len() - 1 {
                assert(r == q);
            } else {
                assert(nst[k] == st[k]);
            }
        }
    }
    assert forall|p: (int, int)| #[trigger] filled(v0, t, nvs, p) implies neighbors_covered(
        v0,
        nvs,
        nst,
        p,
    ) by {
        assert(filled(v0, t, vs, p));
        assert(neighbors_covered(v0, vs, st, p));
        assert(covered(v0, vs, st, (p.0 + 1, p.1)));
        assert(covered(v0, vs, st, (p.0 - 1, p.1)));
        assert(covered(v0, vs, st, (p.0, p.1 + 1)));
        assert(covered(v0, vs, st, (p.0, p.1 - 1)));
    }
    assert forall|k: int| 0 <= k < nst.len() implies origin_ok(v0, t, nvs, s, #[trigger] nst[k]) by {
        assert(nst[k] == st[k]);
        assert(origin_ok(v0, t, vs, s, st[k]));
        let qk = (nst[k].0 as int, nst[k].1 as int);
        if v0.contains(qk.0, qk.1) && qk != s {
            let p = choose|p: (int, int)| #[trigger] filled(v0, t, vs, p) && side_by_side(p, qk);
            assert(filled(v0, t, nvs, p));
        }
    }
    assert(covered(v0, vs, st, s));
    assert(covered(v0, nvs, nst, s));
    assert(nvs.len() == vs.len());
    assert(vis(nvs, w, s) || on_stack(nst, s));
}

/// The four side neighbors of `q`, in the order the fill pushes them.
spec fn neighbor(q: (int, int), i: int) -> (int, int) {
    if i == 0 {
        (q.0 + 1, q.1)
    } else if i == 1 {
        (q.0 - 1, q.1)
    } else if i == 2 {
        (q.0, q.1 + 1)
    } else {
        (q.0, q.1 - 1)
    }
}

/// A pushed pair stands for the `i`-th neighbor of `q`, or, when that
/// neighbor is off the canvas, for some pixel off the canvas.
spec fn pushed_ok(v0: BitmapView, q: (int, int), i: int, n: (u32, u32)) -> bool {
    ||| (n.0 as int, n.1 as int) == neighbor(q, i)
    ||| (!v0.contains(n.0 as int, n.1 as int) && !v0.contains(neighbor(q, i).0, neighbor(q, i).1))
}

/// A popped pixel of the target color that was not seen before: painting it,
/// marking it visited and pushing its four neighbors keeps the loop's facts.
proof fn lemma_step_paint(
    v0: BitmapView,
    t: Color,
    f: Color,
    s: (int, int),
    cv: BitmapView,
    vs: Seq<bool>,
    st: Seq<(u32, u32)>,
    nbrs: Seq<(u32, u32)>,
)
    requires
        fill_inv(v0, t, f, s, cv, vs, st),
        st.len() > 0,
        v0.contains(st.last().0 as int, st.last().1 as int),
        !vis(vs, v0.width as int, (st.last().0 as int, st.last().1 as int)),
        v0.at(st.last().0 as int, st.last().1 as int) == t,
        nbrs.len() == 4,
        forall|i: int|
            0 <= i < 4 ==> pushed_ok(v0, (st.last().0 as int, st.last().1 as int), i, #[trigger] nbrs[i]),
    ensures
        fill_inv(
            v0,
            t,
            f,
            s,
            cv.with_pixel(st.last().0 as int, st.last().1 as int, f),
            vs.update(st.last().1 * v0.width + st.last().0, true),
            st.drop_last() + nbrs,
        ),
{
    let q = (st.last().0 as int, st.last().1 as int);
    let w = v0.width as int;
    let nvs = vs.update(st.last().1 * v0.width + st.last().0, true);
    let ncv = cv.with_pixel(q.0, q.1, f);
    let base = st.drop_last();
    let nst = base + nbrs;
    lemma_pixel_index(w, v0.height as int, q.0, q.1);
    assert(nvs.len() == vs.len());
    assert forall|p: (int, int)| v0.contains(p.0, p.1) implies vis(nvs, w, p) == (vis(vs, w, p) || p
        == q) by {
        lemma_vis_update(v0, vs, q, p);
    }
    assert forall|p: (int, int)| #[trigger] filled(v0, t, nvs, p) == (filled(v0, t, vs, p) || p == q) by {}
    // colors
    assert forall|p: (int, int)| v0.contains(p.0, p.1) implies #[trigger] ncv.pixels[p] == (if filled(
        v0,
        t,
        nvs,
        p,
    ) {
        f
    } else {
        v0.at(p.0, p.1)
    }) by {
        assert(filled(v0, t, nvs, p) == (filled(v0, t, vs, p) || p == q));
        if p != q {
            assert(ncv.pixels[p] == cv.pixels[p]);
        }
    }
    // `q` belongs to the region
    assert(origin_ok(v0, t, vs, s, st[st.len() - 1]));
    if q == s {
        let path = seq![s];
        assert(fill_path(v0, t, path));
        assert(in_region(v0, s, q));
    } else {
        let p = choose|p: (int, int)| #[trigger] filled(v0, t, vs, p) && side_by_side(p, q);
        lemma_region_extend(v0, s, p, q);
    }
    assert forall|p: (int, int)| #[trigger] filled(v0, t, nvs, p) implies in_region(v0, s, p) by {
        if p != q {
            assert(filled(v0, t, vs, p));
        }
    }
    // pending pixels stay pending
    assert forall|r: (int, int)| #[trigger] covered(v0, vs, st, r) implies covered(v0, nvs, nst, r) by {
        if v0.contains(r.0, r.1) && !vis(vs, w, r) && r != q {
            let k = choose|k: int|
                0 <= k < st.len() && (#[trigger] st[k]).0 as int == r.0 && st[k].1 as int == r.1;
            assert(k != st.len() - 1);
            assert(nst[k] == st[k]);
        }
    }
    // the neighbors of `q` are pending now
    assert forall|i: int| 0 <= i < 4 implies covered(v0, nvs, nst, #[trigger] neighbor(q, i)) by {
        let n = nbrs[i];
        assert(pushed_ok(v0, q, i, n));
        assert(nst[base.len() + i] == n);
    }
    assert(neighbor(q, 0) == (q.0 + 1, q.1));
    assert(neighbor(q, 1) == (q.0 - 1, q.1));
    assert(neighbor(q, 2) == (q.0, q.1 + 1));
    assert(neighbor(q, 3) == (q.0, q.1 - 1));
    assert forall|p: (int, int)| #[trigger] filled(v0, t, nvs, p) implies neighbors_covered(
        v0,
        nvs,
        nst,
        p,
    ) by {
        if p != q {
            assert(filled(v0, t, vs, p));
            assert(neighbors_covered(v0, vs, st, p));
            assert(covered(v0, vs, st, (p.0 + 1, p.1)));
            assert(covered(v0, vs, st, (p.0 - 1, p.1)));
            assert(covered(v0, vs, st, (p.0, p.1 + 1)));
            assert(covered(v0, vs, st, (p.0, p.1 - 1)));
        } else {
            assert(covered(v0, nvs, nst, neighbor(q, 0)));
            assert(covered(v0, nvs, nst, neighbor(q, 1)));
            assert(covered(v0, nvs, nst, neighbor(q, 2)));
            assert(covered(v0, nvs, nst, neighbor(q, 3)));
        }
    }
    // where pending pixels come from
    assert forall|k: int| 0 <= k < nst.len() implies origin_ok(v0, t, nvs, s, #[trigger] nst[k]) by {
        let qk = (nst[k].0 as int, nst[k].1 as int);
        if k < base.len() {
            assert(nst[k] == st[k]);
            assert(origin_ok(v0, t, vs, s, st[k]));
            if v0.contains(qk.0, qk.1) && qk != s {
                let p = choose|p: (int, int)| #[trigger] filled(v0, t, vs, p) && side_by_side(p, qk);
                assert(filled(v0, t, nvs, p));
            }
        } else {
            let i = k - base.len();
            assert(nst[k] == nbrs[i]);
            assert(pushed_ok(v0, q, i, nbrs[i]));
            if v0.contains(qk.0, qk.1) {
                assert(qk == neighbor(q, i));
                assert(filled(v0, t, nvs, q));
                assert(side_by_side(q, qk));
            }
        }
    }
    assert(covered(v0, vs, st, s));
    assert(covered(v0, nvs, nst, s));
    assert(ncv.wf());
}

/// Side-by-side pixels are each other's neighbors in the fill's sense.
proof fn lemma_side_by_side_neighbor(p: (int, int), q: (int, int))
    requires
        side_by_side(p, q),
    ensures
        exists|i: int| 0 <= i < 4 && #[trigger] neighbor(p, i) == q,
{
    if q.0 == p.0 + 1 {
        assert(neighbor(p, 0) == q);
    } else if q.0 == p.0 - 1 {
        assert(neighbor(p, 1) == q);
    } else if q.1 == p.1 + 1 {
        assert(neighbor(p, 2) == q);
    } else {
        assert(neighbor(p, 3) == q);
    }
}

/// With nothing left to do, every pixel along a fill path from the start is painted.
proof fn lemma_path_filled(
    v0: BitmapView,
    t: Color,
    f: Color,
    s: (int, int),
    cv: BitmapView,
    vs: Seq<bool>,
    path: Seq<(int, int)>,
    k: int,
)
    requires
        fill_inv(v0, t, f, s, cv, vs, Seq::empty()),
        fill_path(v0, t, path),
        path[0] == s,
        0 <= k < path.len(),
    ensures
        filled(v0, t, vs, path[k]),
    decreases k,
{
    let st = Seq::<(u32, u32)>::empty();
    if k == 0 {
        assert(!on_stack(st, s));
    } else {
        lemma_path_filled(v0, t, f, s, cv, vs, path, k - 1);
        let p = path[k - 1];
        let q = path[k];
        assert(side_by_side(path[k - 1], path[k]));
        lemma_side_by_side_neighbor(p, q);
        let i = choose|i: int| 0 <= i < 4 && #[trigger] neighbor(p, i) == q;
        assert(neighbors_covered(v0, vs, st, p));
        assert(neighbor(p, 0) == (p.0 + 1, p.1));
        assert(neighbor(p, 1) == (p.0 - 1, p.1));
        assert(neighbor(p, 2) == (p.0, p.1 + 1));
        assert(neighbor(p, 3) == (p.0, p.1 - 1));
        assert(covered(v0, vs, st, q));
        assert(v0.contains(path[k].0, path[k].1) && v0.at(path[k].0, path[k].1) == t);
        assert(!on_stack(st, q));
    }
}

/// When the loop ends, the canvas is exactly the flood-filled picture.
proof fn lemma_fill_done(v0: BitmapView, t: Color, f: Color, s: (int, int), cv: BitmapView, vs: Seq<bool>)
    requires
        fill_inv(v0, t, f, s, cv, vs, Seq::empty()),
    ensures
        cv == spec_flood_fill(v0, s.0, s.1, f),
{
    let expected = spec_flood_fill(v0, s.0, s.1, f);
    assert forall|p: (int, int)| v0.contains(p.0, p.1) implies filled(v0, t, vs, p) == in_region(
        v0,
        s,
        p,
    ) by {
        if in_region(v0, s, p) {
            let path = choose|path: Seq<(int, int)>|
                #[trigger] fill_path(v0, v0.at(s.0, s.1), path) && path[0] == s && path.last() == p;
            lemma_path_filled(v0, t, f, s, cv, vs, path, path.len() - 1);
        }
    }
    assert forall|p: (int, int)| #[trigger] cv.pixels.dom().contains(p) <==> expected.pixels.dom().contains(p) by {}
    assert forall|p: (int, int)| #[trigger] cv.pixels.dom().contains(p) implies cv.pixels[p]
        == expected.pixels[p] by {
        assert(cv.pixels[p] == (if filled(v0, t, vs, p) {
            f
        } else {
            v0.at(p.0, p.1)
        }));
    }
    assert(cv.pixels =~= expected.pixels);
}

/// The visited pixels, by index, as a sequence of `n` flags.
spec fn marks(visited: Set<usize>, n: nat) -> Seq<bool> {
    Seq::new(n, |k: int| visited.contains(k as usize))
}

/// Flood-fills from `(sx, sy)` with `fill`: the start pixel and every pixel
/// joined to it side by side through pixels of the start's color become
/// `fill`. Nothing happens when the start is off the canvas or already has
/// the fill color.
pub fn flood_fill(canvas: &mut Bitmap, sx: u32, sy: u32, fill: Color)
    ensures
        final(canvas)@ == spec_flood_fill(old(canvas)@, sx as int, sy as int, fill),
{
    let w = canvas.width();
    let h = canvas.height();
    if sx >= w || sy >= h {
        return;
    }
    let target = canvas.get_pixel(sx, sy);
    if target == fill {
        return;
    }
    let ghost v0 = canvas@;
    let ghost s = (sx as int, sy as int);
    proof {
        canvas.lemma_wf();
    }
    let n = canvas.pixel_count();
    let mut visited: HashSet<usize> = HashSet::new();
    let mut stack: Vec<(u32, u32)> = Vec::new();
    stack.push((sx, sy));
    proof {
        let vs = marks(visited@, n as nat);
        let st = stack@;
        assert forall|p: (int, int)| v0.contains(p.0, p.1) implies !vis(vs, w as int, p) by {
            lemma_pixel_index(w as int, h as int, p.0, p.1);
        }
        assert forall|p: (int, int)| !#[trigger] filled(v0, target, vs, p) by {
            if v0.contains(p.0, p.1) {
                lemma_pixel_index(w as int, h as int, p.0, p.1);
            }
        }
        assert(st[0] == (sx, sy));
        assert(on_stack(st, s));
        assert(fill_inv(v0, target, fill, s, canvas@, vs, st));
    }
    while stack.len() > 0
        invariant
            fill_inv(v0, target, fill, s, canvas@, marks(visited@, n as nat), stack@),
            w == v0.width,
            h == v0.height,
            n == w * h,
        decreases 4 * count_false(marks(visited@, n as nat)) + stack@.len(),
    {
        let ghost st = stack@;
        let ghost vs = marks(visited@, n as nat);
        let ghost cv = canvas@;
        let (x, y) = stack.pop().unwrap();
        assert((x, y) == st.last());
        assert(stack@ == st.drop_last());
        if x < w && y < h {
            proof {
                lemma_pixel_index(w as int, h as int, x as int, y as int);
            }
            let k: usize = y as usize * w as usize + x as usize;
            if !visited.contains(&k) {
                visited.insert(k);
                proof {
                    assert(marks(visited@, n as nat) =~= vs.update(k as int, true));
                    lemma_count_false_update(vs, k as int);
                }
                let px = canvas.get_pixel(x, y);
                if px == target {
                    canvas.set_pixel(x, y, fill);
                    let n1 = (x.wrapping_add(1), y);
                    let n2 = (x.wrapping_sub(1), y);
                    let n3 = (x, y.wrapping_add(1));
                    let n4 = (x, y.wrapping_sub(1));
                    stack.push(n1);
                    stack.push(n2);
                    stack.push(n3);
                    stack.push(n4);
                    proof {
                        let q = (x as int, y as int);
                        let nbrs = seq![n1, n2, n3, n4];
                        assert(stack@ =~= st.drop_last() + nbrs);
                        assert forall|i: int| 0 <= i < 4 implies pushed_ok(v0, q, i, #[trigger] nbrs[i]) by {
                            assert(nbrs[0] == n1 && nbrs[1] == n2 && nbrs[2] == n3 && nbrs[3] == n4);
                        }
                        lemma_step_paint(v0, target, fill, s, cv, vs, st, nbrs);
                    }
                } else {
                    proof {
                        lemma_step_skip(v0, target, fill, s, cv, vs, st, marks(visited@, n as nat));
                    }
                }
            } else {
                proof {
                    lemma_step_skip(v0, target, fill, s, cv, vs, st, marks(visited@, n as nat));
                }
            }
        } else {
            proof {
                lemma_step_skip(v0, target, fill, s, cv, vs, st, marks(visited@, n as nat));
            }
        }
    }
    proof {
        assert(stack@ =~= Seq::<(u32, u32)>::empty());
        lemma_fill_done(v0, target, fill, s, canvas@, marks(visited@, n as nat));
    }
}

/// Filling a region that was just filled with the same color changes nothing.
pub proof fn law_fill_idempotent(v: BitmapView, sx: int, sy: int, fill: Color)
    ensures
        spec_flood_fill(spec_flood_fill(v, sx, sy, fill), sx, sy, fill) == spec_flood_fill(v, sx, sy, fill),
{
    if v.contains(sx, sy) && v.at(sx, sy) != fill {
        let s = (sx, sy);
        let path = seq![s];
        assert(path[0] == s && path.last() == s);
        assert(fill_path(v, v.at(s.0, s.1), path));
        assert(in_region(v, s, s));
        let r = spec_flood_fill(v, sx, sy, fill);
        assert(r.pixels[s] == fill);
    }
}

} // verus!
