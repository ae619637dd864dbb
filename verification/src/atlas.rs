use vstd::prelude::*;

use crate::bitmap::{Bitmap, BitmapView, cropped, in_rect, lemma_pixel_index, lemma_pixel_index_injective};
use crate::color::Color;
use vstd::arithmetic::div_mod::{lemma_div_pos_is_pos, lemma_fundamental_div_mod, lemma_fundamental_div_mod_converse, lemma_mod_pos_bound};
use crate::outside::{crop_bitmap, overlaid, overlay_bitmap, overlay_known};

verus! {

/// One cell of the atlas grid: the imported image, the handle the GUI uses to
/// draw it (of whatever type the GUI chooses), and the name of the file it
/// came from.
pub struct Cell<T> {
    pub image: Option<Bitmap>,
    pub texture: Option<T>,
    pub source_file: String,
}

/// What a cell holds, as mathematical values.
pub struct CellView<T> {
    pub image: Option<BitmapView>,
    pub texture: Option<T>,
    pub source_file: Seq<char>,
}

impl<T> CellView<T> {
    /// Nothing imported.
    pub open spec fn empty() -> CellView<T> {
        CellView { image: None, texture: None, source_file: Seq::empty() }
    }
}

impl<T> View for Cell<T> {
    type V = CellView<T>;

    open spec fn view(&self) -> CellView<T> {
        CellView {
            image: match self.image {
                Some(b) => Some(b@),
                None => None,
            },
            texture: self.texture,
            source_file: self.source_file@,
        }
    }
}

impl<T> Cell<T> {
    /// A cell with nothing imported.
    pub fn empty() -> (c: Cell<T>)
        ensures
            c@ == CellView::<T>::empty(),
    {
        Cell { image: None, texture: None, source_file: String::new() }
    }
}

/// The views of a list of cells.
pub open spec fn cell_views<T>(cells: Seq<Cell<T>>) -> Seq<CellView<T>> {
    cells.map_values(|c: Cell<T>| c@)
}

/// The cells of a square grid, row by row.
pub struct GridView<T> {
    pub size: nat,
    pub cells: Seq<CellView<T>>,
}

impl<T> GridView<T> {
    pub open spec fn wf(self) -> bool {
        self.cells.len() == self.size * self.size
    }

    /// The cell at row `r`, column `c`.
    pub open spec fn cell(self, r: int, c: int) -> CellView<T> {
        self.cells[r * self.size + c]
    }
}

/// `new` is `old` resized to `n` by `n`: the cells of the overlapping
/// top-left square keep their row and column, every other cell is empty.
/// Nothing changes when the size stays the same.
pub open spec fn grid_resized<T>(new: GridView<T>, old: GridView<T>, n: nat) -> bool {
    if n == old.size {
        new == old
    } else {
        let keep = if old.size < n {
            old.size
        } else {
            n
        };
        &&& new.size == n
        &&& new.wf()
        &&& forall|r: int, c: int|
            0 <= r < n && 0 <= c < n ==> if r < keep && c < keep {
                #[trigger] new.cell(r, c) == old.cell(r, c)
            } else {
                new.cell(r, c) == CellView::<T>::empty()
            }
    }
}

/// One filled cell as the atlas metadata lists it: where it sits in the grid
/// and in the atlas image, its size, and the file it came from.
pub struct AtlasEntry {
    pub index: usize,
    pub row: usize,
    pub col: usize,
    pub x: u32,
    pub y: u32,
    pub width: u32,
    pub height: u32,
    pub source_file: String,
}

pub struct EntryView {
    pub index: usize,
    pub row: usize,
    pub col: usize,
    pub x: u32,
    pub y: u32,
    pub width: u32,
    pub height: u32,
    pub source_file: Seq<char>,
}

impl View for AtlasEntry {
    type V = EntryView;

    open spec fn view(&self) -> EntryView {
        EntryView {
            index: self.index,
            row: self.row,
            col: self.col,
            x: self.x,
            y: self.y,
            width: self.width,
            height: self.height,
            source_file: self.source_file@,
        }
    }
}

/// The metadata written next to the atlas image.
pub struct AtlasData {
    pub cell_size: u32,
    pub grid_size: usize,
    pub atlas_width: u32,
    pub atlas_height: u32,
    pub entries: Vec<AtlasEntry>,
}

pub open spec fn entry_views(s: Seq<AtlasEntry>) -> Seq<EntryView> {
    s.map_values(|e: AtlasEntry| e@)
}

/// Where cell `i` of a grid of `gs` columns, with cells of `cs` pixels,
/// starts in the atlas image.
pub open spec fn cell_x(i: int, gs: nat, cs: u32) -> int {
    (i % (gs as int)) * cs
}

pub open spec fn cell_y(i: int, gs: nat, cs: u32) -> int {
    (i / (gs as int)) * cs
}

/// The atlas image after the first `k` cells, row by row, were laid on a
/// transparent `cs * gs` square at their grid positions.
pub open spec fn atlas_after<T>(cells: Seq<CellView<T>>, gs: nat, cs: u32, k: nat) -> BitmapView
    decreases k,
{
    if k == 0 {
        BitmapView::blank((cs * gs) as nat, (cs * gs) as nat)
    } else {
        let i = k - 1;
        let prev = atlas_after(cells, gs, cs, (k - 1) as nat);
        match cells[i].image {
            Some(img) => overlaid(prev, img, cell_x(i, gs, cs) as i64, cell_y(i, gs, cs) as i64),
            None => prev,
        }
    }
}

/// The metadata entry of filled cell `i`.
pub open spec fn entry_of<T>(cells: Seq<CellView<T>>, gs: nat, cs: u32, i: int) -> EntryView {
    EntryView {
        index: i as usize,
        row: (i / (gs as int)) as usize,
        col: (i % (gs as int)) as usize,
        x: cell_x(i, gs, cs) as u32,
        y: cell_y(i, gs, cs) as u32,
        width: cs,
        height: cs,
        source_file: cells[i].source_file,
    }
}

/// The entries of the filled cells among the first `k`, in order; empty
/// cells get none.
pub open spec fn entries_after<T>(cells: Seq<CellView<T>>, gs: nat, cs: u32, k: nat) -> Seq<EntryView>
    decreases k,
{
    if k == 0 {
        Seq::empty()
    } else {
        let i = k - 1;
        let prev = entries_after(cells, gs, cs, (k - 1) as nat);
        if cells[i].image is Some {
            prev.push(entry_of(cells, gs, cs, i))
        } else {
            prev
        }
    }
}

/// Every image in the cells is `cs` by `cs`.
pub open spec fn uniform_cells<T>(cells: Seq<CellView<T>>, cs: u32) -> bool {
    forall|i: int|
        0 <= i < cells.len() && (#[trigger] cells[i]).image is Some ==> cells[i].image.unwrap().width == cs
            && cells[i].image.unwrap().height == cs
}

/// The cell, counted row by row, that holds atlas pixel `(px, py)`.
pub open spec fn cell_index(px: int, py: int, gs: nat, cs: u32) -> int {
    (py / (cs as int)) * gs + px / (cs as int)
}

/// Atlas pixel `(px, py)` shows `color` as packing the cells puts it there:
/// transparent for an empty cell and for a fully transparent pixel of the
/// cell's image, the image's pixel where it is opaque.
pub open spec fn packed_pixel<T>(cells: Seq<CellView<T>>, gs: nat, cs: u32, px: int, py: int, color: Color) -> bool {
    let i = cell_index(px, py, gs, cs);
    let dx = px % (cs as int);
    let dy = py % (cs as int);
    match cells[i].image {
        None => color == Color::transparent(),
        Some(img) => if img.at(dx, dy).a == 0 {
            color == Color::transparent()
        } else if img.at(dx, dy).a == 255 {
            color == img.at(dx, dy)
        } else {
            true
        },
    }
}

/// Splitting an atlas coordinate into its cell and the offset in the cell.
pub proof fn lemma_cell_coords(p: int, cs: int, gs: int)
    requires
        0 <= p < cs * gs,
        cs > 0,
    ensures
        0 <= p / cs < gs,
        0 <= p % cs < cs,
        p == (p / cs) * cs + p % cs,
{
    lemma_fundamental_div_mod(p, cs);
    lemma_mod_pos_bound(p, cs);
    lemma_div_pos_is_pos(p, cs);
    let q = p / cs;
    assert(q * cs == cs * q) by (nonlinear_arith);
    if q >= gs {
        assert(q * cs >= gs * cs) by (nonlinear_arith)
            requires
                q >= gs,
                cs > 0,
        ;
        assert(gs * cs == cs * gs) by (nonlinear_arith);
    }
}

/// An atlas pixel lies in the square of cell `(row, col)` exactly when that
/// cell holds it, and then its offset in the square is its offset in the cell.
pub proof fn lemma_in_cell(px: int, py: int, cs: int, gs: int, row: int, col: int)
    requires
        0 <= px < cs * gs,
        0 <= py < cs * gs,
        cs > 0,
        0 <= row < gs,
        0 <= col < gs,
    ensures
        in_rect(cs, cs, px - col * cs, py - row * cs) <==> (py / cs) * gs + px / cs == row * gs + col,
        in_rect(cs, cs, px - col * cs, py - row * cs) ==> px - col * cs == px % cs && py - row * cs == py % cs,
        0 <= (py / cs) * gs + px / cs < gs * gs,
{
    lemma_cell_coords(px, cs, gs);
    lemma_cell_coords(py, cs, gs);
    lemma_pixel_index(gs, gs, px / cs, py / cs);
    if in_rect(cs, cs, px - col * cs, py - row * cs) {
        lemma_fundamental_div_mod_converse(px, cs, col, px - col * cs);
        lemma_fundamental_div_mod_converse(py, cs, row, py - row * cs);
    }
    if (py / cs) * gs + px / cs == row * gs + col {
        if (px / cs, py / cs) != (col, row) {
            lemma_pixel_index_injective(gs, px / cs, py / cs, col, row);
        }
    }
}

pub open spec fn min_int(a: int, b: int) -> int {
    if a < b {
        a
    } else {
        b
    }
}

/// `a - b`, or 0 when `b` is larger.
pub open spec fn sat_sub(a: int, b: int) -> int {
    if a > b {
        a - b
    } else {
        0
    }
}

/// The width and height of the part of the atlas an entry can be read from.
pub open spec fn entry_extent(e: EntryView, atlas: BitmapView) -> (int, int) {
    (
        min_int(e.width as int, sat_sub(atlas.width as int, e.x as int)),
        min_int(e.height as int, sat_sub(atlas.height as int, e.y as int)),
    )
}

/// An entry is restored when it names a cell of the grid and a non-empty part
/// of the atlas.
pub open spec fn entry_applies(size: nat, e: EntryView, atlas: BitmapView) -> bool {
    &&& e.row < size
    &&& e.col < size
    &&& entry_extent(e, atlas).0 != 0
    &&& entry_extent(e, atlas).1 != 0
}

/// The grid after restoring one entry from the atlas image: its cell gets the
/// cropped image and the entry's file name.
pub open spec fn restore_entry<T>(g: GridView<T>, e: EntryView, atlas: BitmapView) -> GridView<T> {
    if entry_applies(g.size, e, atlas) {
        GridView {
            size: g.size,
            cells: g.cells.update(
                e.row * g.size + e.col,
                CellView {
                    image: Some(
                        cropped(atlas, e.x as int, e.y as int, entry_extent(e, atlas).0, entry_extent(e, atlas).1),
                    ),
                    texture: None,
                    source_file: e.source_file,
                },
            ),
        }
    } else {
        g
    }
}

/// The grid after restoring the entries in order.
pub open spec fn restore_entries<T>(g: GridView<T>, entries: Seq<EntryView>, atlas: BitmapView) -> GridView<
    T,
>
    decreases entries.len(),
{
    if entries.len() == 0 {
        g
    } else {
        restore_entries(restore_entry(g, entries[0], atlas), entries.drop_first(), atlas)
    }
}

/// Restoring entries keeps the size of the grid and its well-formedness.
pub proof fn lemma_restore_keeps_shape<T>(g: GridView<T>, entries: Seq<EntryView>, atlas: BitmapView)
    ensures
        restore_entries(g, entries, atlas).size == g.size,
        g.wf() ==> restore_entries(g, entries, atlas).wf(),
    decreases entries.len(),
{
    if entries.len() > 0 {
        let e = entries[0];
        if entry_applies(g.size, e, atlas) {
            lemma_pixel_index(g.size as int, g.size as int, e.col as int, e.row as int);
        }
        lemma_restore_keeps_shape(restore_entry(g, entries[0], atlas), entries.drop_first(), atlas);
    }
}

/// How many of the entries are restored.
pub open spec fn restored_count(size: nat, entries: Seq<EntryView>, atlas: BitmapView) -> nat
    decreases entries.len(),
{
    if entries.len() == 0 {
        0
    } else {
        restored_count(size, entries.drop_first(), atlas) + if entry_applies(size, entries[0], atlas) {
            1nat
        } else {
            0nat
        }
    }
}

/// The grid of cells of the atlas.
pub struct AtlasGrid<T> {
    cells: Vec<Cell<T>>,
    grid_size: usize,
}

impl<T> View for AtlasGrid<T> {
    type V = GridView<T>;

    closed spec fn view(&self) -> GridView<T> {
        GridView { size: self.grid_size as nat, cells: cell_views(self.cells@) }
    }
}

/// `n` empty cells.
fn empty_cells<T>(n: usize) -> (v: Vec<Cell<T>>)
    ensures
        v@.len() == n,
        forall|i: int| 0 <= i < n ==> (#[trigger] v@[i])@ == CellView::<T>::empty(),
{
    let mut v: Vec<Cell<T>> = Vec::new();
    let mut i: usize = 0;
    while i < n
        invariant
            i <= n,
            v@.len() == i,
            forall|k: int| 0 <= k < i ==> (#[trigger] v@[k])@ == CellView::<T>::empty(),
        decreases n - i,
    {
        v.push(Cell::empty());
        i = i + 1;
    }
    v
}

impl<T> AtlasGrid<T> {
    #[verifier::type_invariant]
    closed spec fn inv(self) -> bool {
        self.cells@.len() == self.grid_size * self.grid_size
    }

    /// Every image the grid holds is a well-formed bitmap view.
    pub proof fn lemma_images_wf(&self)
        ensures
            images_wf(self@.cells),
    {
        assert forall|i: int| 0 <= i < self@.cells.len() && (#[trigger] self@.cells[i]).image is Some implies self@.cells[
            i
        ].image.unwrap().wf() by {
            let cell = self.cells@[i];
            match cell.image {
                Some(b) => b.lemma_wf(),
                None => {},
            }
        }
    }

    /// A grid of `n` by `n` empty cells.
    pub fn new(n: usize) -> (g: AtlasGrid<T>)
        requires
            n * n <= usize::MAX,
        ensures
            g@.size == n,
            g@.wf(),
            forall|i: int| 0 <= i < n * n ==> #[trigger] g@.cells[i] == CellView::<T>::empty(),
    {
        let g = AtlasGrid { cells: empty_cells(n * n), grid_size: n };
        assert(g@.cells.len() == n * n);
        g
    }

    pub fn grid_size(&self) -> (n: usize)
        ensures
            n == self@.size,
            self@.wf(),
    {
        proof {
            use_type_invariant(self);
        }
        self.grid_size
    }

    /// The number of cells, `grid_size * grid_size`.
    pub fn len(&self) -> (n: usize)
        ensures
            n == self@.cells.len(),
            self@.wf(),
    {
        proof {
            use_type_invariant(self);
        }
        self.cells.len()
    }

    /// The cell at index `idx`, counted row by row.
    pub fn cell(&self, idx: usize) -> (c: &Cell<T>)
        requires
            idx < self@.cells.len(),
        ensures
            c@ == self@.cells[idx as int],
    {
        &self.cells[idx]
    }

    /// Puts `cell` at index `idx`.
    pub fn set_cell(&mut self, idx: usize, cell: Cell<T>)
        requires
            idx < old(self)@.cells.len(),
        ensures
            final(self)@ == (GridView { cells: old(self)@.cells.update(idx as int, cell@), ..old(self)@ }),
            final(self)@.wf(),
    {
        proof {
            use_type_invariant(&*self);
        }
        let ghost before = self@;
        let ghost cv = cell@;
        let mut taken = AtlasGrid { cells: Vec::new(), grid_size: 0 };
        std::mem::swap(&mut taken, self);
        let AtlasGrid { mut cells, grid_size } = taken;
        let ghost cells0 = cells@;
        cells.set(idx, cell);
        let mut rebuilt = AtlasGrid { cells, grid_size };
        std::mem::swap(&mut rebuilt, self);
        assert(self@.cells =~= before.cells.update(idx as int, cv));
    }

    /// Empties every cell.
    pub fn clear_all(&mut self)
        ensures
            final(self)@.size == old(self)@.size,
            final(self)@.wf(),
            forall|i: int| 0 <= i < final(self)@.cells.len() ==> #[trigger] final(self)@.cells[i] == CellView::<T>::empty(),
    {
        proof {
            use_type_invariant(&*self);
        }
        let n = self.grid_size;
        let count = self.cells.len();
        let mut rebuilt = AtlasGrid { cells: empty_cells(count), grid_size: n };
        std::mem::swap(&mut rebuilt, self);
    }

    /// Makes the grid `new_size` by `new_size`, keeping the cells of the
    /// overlapping top-left square where they were.
    pub fn resize(&mut self, new_size: usize)
        requires
            new_size * new_size <= usize::MAX,
        ensures
            grid_resized(final(self)@, old(self)@, new_size as nat),
            final(self)@.wf(),
    {
        proof {
            use_type_invariant(&*self);
        }
        if new_size == self.grid_size {
            return;
        }
        let ghost before = self@;
        let mut taken = AtlasGrid { cells: Vec::new(), grid_size: 0 };
        std::mem::swap(&mut taken, self);
        let AtlasGrid { mut cells, grid_size: old } = taken;
        let n = new_size;
        let mut fresh: Vec<Cell<T>> = empty_cells(n * n);
        let _old_len = cells.len();
        proof {
            assert forall|r2: int, c2: int| 0 <= r2 < n && 0 <= c2 < n implies (#[trigger] fresh@[r2 * n
                + c2])@ == CellView::<T>::empty() by {
                lemma_pixel_index(n as int, n as int, c2, r2);
            }
            assert forall|r2: int, c2: int| 0 <= r2 < old && 0 <= c2 < old implies (#[trigger] cells@[r2
                * old + c2])@ == before.cell(r2, c2) by {
                lemma_pixel_index(old as int, old as int, c2, r2);
            }
        }
        let keep = if old < n {
            old
        } else {
            n
        };
        let mut r: usize = 0;
        while r < keep
            invariant
                r <= keep,
                keep <= old,
                keep <= n,
                keep == old || keep == n,
                n * n <= usize::MAX,
                old * old <= usize::MAX,
                before.size == old,
                before.wf(),
                cells@.len() == old * old,
                fresh@.len() == n * n,
                forall|r2: int, c2: int|
                    r <= r2 < keep && 0 <= c2 < keep ==> (#[trigger] cells@[r2 * old + c2])@ == before.cell(
                        r2,
                        c2,
                    ),
                forall|r2: int, c2: int|
                    0 <= r2 < n && 0 <= c2 < n ==> if r2 < r && c2 < keep {
                        (#[trigger] fresh@[r2 * n + c2])@ == before.cell(r2, c2)
                    } else {
                        fresh@[r2 * n + c2]@ == CellView::<T>::empty()
                    },
            decreases keep - r,
        {
            let mut c: usize = 0;
            while c < keep
                invariant
                    r < keep,
                    c <= keep,
                    keep <= old,
                    keep <= n,
                    keep == old || keep == n,
                    n * n <= usize::MAX,
                    old * old <= usize::MAX,
                    before.size == old,
                    before.wf(),
                    cells@.len() == old * old,
                    fresh@.len() == n * n,
                    forall|r2: int, c2: int|
                        r <= r2 < keep && 0 <= c2 < keep && !(r2 == r && c2 < c) ==> (#[trigger] cells@[r2
                            * old + c2])@ == before.cell(r2, c2),
                    forall|r2: int, c2: int|
                        0 <= r2 < n && 0 <= c2 < n ==> if (r2 < r && c2 < keep) || (r2 == r && c2 < c) {
                            (#[trigger] fresh@[r2 * n + c2])@ == before.cell(r2, c2)
                        } else {
                            fresh@[r2 * n + c2]@ == CellView::<T>::empty()
                        },
                decreases keep - c,
            {
                proof {
                    lemma_pixel_index(old as int, old as int, c as int, r as int);
                    lemma_pixel_index(n as int, n as int, c as int, r as int);
                }
                let src = r * old + c;
                let dst = r * n + c;
                let ghost cells0 = cells@;
                let ghost fresh0 = fresh@;
                let mut moving = Cell::empty();
                cells.set_and_swap(src, &mut moving);
                fresh.set_and_swap(dst, &mut moving);
                proof {
                    assert forall|r2: int, c2: int|
                        r <= r2 < keep && 0 <= c2 < keep && !(r2 == r && c2 < c + 1) implies (#[trigger] cells@[r2
                        * old + c2])@ == before.cell(r2, c2) by {
                        lemma_pixel_index(old as int, old as int, c2, r2);
                        lemma_pixel_index_injective(old as int, c2, r2, c as int, r as int);
                        assert(cells@[r2 * old + c2] == cells0[r2 * old + c2]);
                    }
                    assert forall|r2: int, c2: int| 0 <= r2 < n && 0 <= c2 < n implies if (r2 < r && c2 < keep)
                        || (r2 == r && c2 < c + 1) {
                        (#[trigger] fresh@[r2 * n + c2])@ == before.cell(r2, c2)
                    } else {
                        fresh@[r2 * n + c2]@ == CellView::<T>::empty()
                    } by {
                        lemma_pixel_index(n as int, n as int, c2, r2);
                        if (r2, c2) != (r as int, c as int) {
                            lemma_pixel_index_injective(n as int, c2, r2, c as int, r as int);
                            assert(fresh@[r2 * n + c2] == fresh0[r2 * n + c2]);
                        }
                    }
                }
                c = c + 1;
            }
            r = r + 1;
        }
        let mut rebuilt = AtlasGrid { cells: fresh, grid_size: n };
        std::mem::swap(&mut rebuilt, self);
        proof {
            let keep_i = keep as int;
            assert forall|r2: int, c2: int| 0 <= r2 < n && 0 <= c2 < n implies if r2 < keep_i && c2 < keep_i {
                #[trigger] self@.cell(r2, c2) == before.cell(r2, c2)
            } else {
                self@.cell(r2, c2) == CellView::<T>::empty()
            } by {
                lemma_pixel_index(n as int, n as int, c2, r2);
                assert(self@.cell(r2, c2) == fresh@[r2 * n + c2]@);
            }
        }
    }
}


impl<T> AtlasGrid<T> {
    /// Packs every filled cell into one `cs * grid_size` square image at its
    /// grid position (cell `(row, col)` at `(col * cs, row * cs)`) and lists
    /// the filled cells, row by row, in the metadata. Empty cells get no
    /// entry.
    pub fn build_atlas(&self, cs: u32) -> (r: (Bitmap, AtlasData))
        requires
            cs * self@.size <= u32::MAX,
            Bitmap::byte_len(cs * self@.size, cs * self@.size) <= usize::MAX,
        ensures
            r.0@ == atlas_after(self@.cells, self@.size, cs, self@.size * self@.size),
            r.1.cell_size == cs,
            r.1.grid_size == self@.size,
            r.1.atlas_width == cs * self@.size,
            r.1.atlas_height == cs * self@.size,
            entry_views(r.1.entries@) == entries_after(self@.cells, self@.size, cs, self@.size * self@.size),
            r.0@.width == cs * self@.size,
            r.0@.height == cs * self@.size,
            uniform_cells(self@.cells, cs) ==> forall|px: int, py: int|
                #[trigger] r.0@.contains(px, py) ==> packed_pixel(self@.cells, self@.size, cs, px, py, r.0@.at(px, py)),
    {
        proof {
            use_type_invariant(self);
        }
        let gs = self.grid_size;
        let _len = self.cells.len();
        let ghost cells = self@.cells;
        if cs > 0 {
            assert(gs <= cs * gs) by (nonlinear_arith)
                requires
                    cs > 0,
            ;
        }
        let side: u32 = (cs as u64 * gs as u64) as u32;
        let mut atlas = Bitmap::new(side, side);
        let mut entries: Vec<AtlasEntry> = Vec::new();
        let mut row: usize = 0;
        assert(entry_views(entries@) =~= Seq::<EntryView>::empty());
        while row < gs
            invariant
                row <= gs,
                gs == self@.size,
                cells == self@.cells,
                cells.len() == gs * gs,
                self.cells@.len() == gs * gs,
                gs * gs <= usize::MAX,
                cs * gs <= u32::MAX,
                cs > 0 ==> gs <= u32::MAX,
                side == cs * gs,
                atlas@ == atlas_after(cells, gs as nat, cs, (row * gs) as nat),
                entry_views(entries@) == entries_after(cells, gs as nat, cs, (row * gs) as nat),
                atlas@.width == side,
                atlas@.height == side,
                uniform_cells(cells, cs) ==> forall|px: int, py: int|
                    #[trigger] atlas@.contains(px, py) ==> if cell_index(px, py, gs as nat, cs) < row * gs {
                        packed_pixel(cells, gs as nat, cs, px, py, atlas@.at(px, py))
                    } else {
                        atlas@.at(px, py) == Color::transparent()
                    },
            decreases gs - row,
        {
            let mut col: usize = 0;
            while col < gs
                invariant
                    row < gs,
                    col <= gs,
                    gs == self@.size,
                    cells == self@.cells,
                    cells.len() == gs * gs,
                    self.cells@.len() == gs * gs,
                    gs * gs <= usize::MAX,
                    cs * gs <= u32::MAX,
                    cs > 0 ==> gs <= u32::MAX,
                    side == cs * gs,
                    atlas@ == atlas_after(cells, gs as nat, cs, (row * gs + col) as nat),
                    entry_views(entries@) == entries_after(cells, gs as nat, cs, (row * gs + col) as nat),
                    atlas@.width == side,
                    atlas@.height == side,
                    uniform_cells(cells, cs) ==> forall|px: int, py: int|
                        #[trigger] atlas@.contains(px, py) ==> if cell_index(px, py, gs as nat, cs) < row * gs + col {
                            packed_pixel(cells, gs as nat, cs, px, py, atlas@.at(px, py))
                        } else {
                            atlas@.at(px, py) == Color::transparent()
                        },
                decreases gs - col,
            {
                proof {
                    lemma_pixel_index(gs as int, gs as int, col as int, row as int);
                    vstd::arithmetic::div_mod::lemma_fundamental_div_mod_converse(
                        (row * gs + col) as int,
                        gs as int,
                        row as int,
                        col as int,
                    );
                    assert(col * cs <= (gs - 1) * cs) by (nonlinear_arith)
                        requires
                            col < gs,
                    ;
                    assert(row * cs <= (gs - 1) * cs) by (nonlinear_arith)
                        requires
                            row < gs,
                    ;
                    assert((gs - 1) * cs <= cs * gs) by (nonlinear_arith);
                }
                let idx = row * gs + col;
                let x: u32 = (col as u64 * cs as u64) as u32;
                let y: u32 = (row as u64 * cs as u64) as u32;
                let ghost k = idx as nat;
                assert(cells[idx as int] == self.cells@[idx as int]@);
                assert(x == cell_x(idx as int, gs as nat, cs));
                assert(y == cell_y(idx as int, gs as nat, cs));
                let ghost before = atlas@;
                match &self.cells[idx].image {
                    Some(cell_img) => {
                        assert(cells[idx as int].image == Some(cell_img@));
                        overlay_bitmap(&mut atlas, cell_img, x as i64, y as i64);
                        proof {
                            if uniform_cells(cells, cs) {
                                let img = cell_img@;
                                assert(img.width == cs && img.height == cs);
                                assert forall|px: int, py: int| #[trigger] atlas@.contains(px, py) implies if cell_index(
                                    px,
                                    py,
                                    gs as nat,
                                    cs,
                                ) < row * gs + col + 1 {
                                    packed_pixel(cells, gs as nat, cs, px, py, atlas@.at(px, py))
                                } else {
                                    atlas@.at(px, py) == Color::transparent()
                                } by {
                                    assert(before.contains(px, py));
                                    assert(cs > 0) by (nonlinear_arith)
                                        requires
                                            0 <= px < cs * gs,
                                    ;
                                    lemma_in_cell(px, py, cs as int, gs as int, row as int, col as int);
                                    assert(overlay_known(before, img, x as int, y as int, px, py, atlas@.at(px, py)));
                                }
                            }
                        }
                        let entry = AtlasEntry {
                            index: idx,
                            row,
                            col,
                            x,
                            y,
                            width: cs,
                            height: cs,
                            source_file: self.cells[idx].source_file.clone(),
                        };
                        let ghost before = entry_views(entries@);
                        assert(entry@ == entry_of(cells, gs as nat, cs, idx as int));
                        entries.push(entry);
                        assert(entry_views(entries@) =~= before.push(entry_of(cells, gs as nat, cs, idx as int)));
                    },
                    None => {
                        proof {
                            if uniform_cells(cells, cs) {
                                assert forall|px: int, py: int| #[trigger] atlas@.contains(px, py) implies if cell_index(
                                    px,
                                    py,
                                    gs as nat,
                                    cs,
                                ) < row * gs + col + 1 {
                                    packed_pixel(cells, gs as nat, cs, px, py, atlas@.at(px, py))
                                } else {
                                    atlas@.at(px, py) == Color::transparent()
                                } by {
                                    assert(cs > 0) by (nonlinear_arith)
                                        requires
                                            0 <= px < cs * gs,
                                    ;
                                    lemma_in_cell(px, py, cs as int, gs as int, row as int, col as int);
                                }
                            }
                        }
                    },
                }
                col = col + 1;
            }
            assert(row * gs + gs == (row + 1) * gs) by (nonlinear_arith);
            row = row + 1;
        }
        proof {
            if uniform_cells(cells, cs) {
                assert forall|px: int, py: int| #[trigger] atlas@.contains(px, py) implies packed_pixel(
                    cells,
                    gs as nat,
                    cs,
                    px,
                    py,
                    atlas@.at(px, py),
                ) by {
                    lemma_in_cell(px, py, cs as int, gs as int, 0, 0);
                }
            }
        }
        let data = AtlasData { cell_size: cs, grid_size: gs, atlas_width: side, atlas_height: side, entries };
        (atlas, data)
    }

    /// Puts back, entry by entry, the part of `atlas` each entry names into
    /// its cell, with its file name; entries outside the grid or outside the
    /// image are skipped. Returns how many cells were restored.
    pub fn restore(&mut self, entries: &Vec<AtlasEntry>, atlas: &Bitmap) -> (loaded: usize)
        ensures
            final(self)@ == restore_entries(old(self)@, entry_views(entries@), atlas@),
            loaded == restored_count(old(self)@.size, entry_views(entries@), atlas@),
            final(self)@.wf(),
    {
        let ghost all = entry_views(entries@);
        let ghost g0 = self@;
        let mut loaded: usize = 0;
        let mut i: usize = 0;
        let n = entries.len();
        let gs = self.grid_size();
        let _count = self.len();
        assert(all.skip(0) =~= all);
        while i < n
            invariant
                n == entries@.len(),
                all == entry_views(entries@),
                i <= n,
                gs == self@.size,
                gs == g0.size,
                gs * gs <= usize::MAX,
                self@.wf(),
                loaded <= i,
                restore_entries(g0, all, atlas@) == restore_entries(self@, all.skip(i as int), atlas@),
                restored_count(gs as nat, all, atlas@) == loaded + restored_count(gs as nat, all.skip(i as int), atlas@),
            decreases n - i,
        {
            let entry = &entries[i];
            let ghost e = all[i as int];
            proof {
                assert(all.skip(i as int).drop_first() =~= all.skip(i + 1));
                assert(all.skip(i as int)[0] == e);
                assert(e == entry@);
            }
            if entry.row < gs && entry.col < gs {
                let aw = atlas.width();
                let ah = atlas.height();
                let avail_w = if aw > entry.x {
                    aw - entry.x
                } else {
                    0
                };
                let avail_h = if ah > entry.y {
                    ah - entry.y
                } else {
                    0
                };
                let w = if entry.width < avail_w {
                    entry.width
                } else {
                    avail_w
                };
                let h = if entry.height < avail_h {
                    entry.height
                } else {
                    avail_h
                };
                if w != 0 && h != 0 {
                    proof {
                        lemma_pixel_index(gs as int, gs as int, entry.col as int, entry.row as int);
                    }
                    let idx = entry.row * gs + entry.col;
                    let sub = crop_bitmap(atlas, entry.x, entry.y, w, h);
                    let cell = Cell { image: Some(sub), texture: None, source_file: entry.source_file.clone() };
                    self.set_cell(idx, cell);
                    loaded = loaded + 1;
                }
            }
            i = i + 1;
        }
        proof {
            assert(all.skip(n as int) =~= Seq::<EntryView>::empty());
        }
        loaded
    }
}

/// How many of the first `k` cells hold an image.
pub open spec fn filled_in<T>(cells: Seq<CellView<T>>, k: int) -> nat
    decreases k,
{
    if k <= 0 {
        0
    } else {
        filled_in(cells, k - 1) + if cells[k - 1].image is Some {
            1nat
        } else {
            0nat
        }
    }
}


/// A pixel that survives being packed into the atlas unchanged: opaque, or
/// transparent black.
pub open spec fn crisp(c: Color) -> bool {
    c.a == 255 || c == Color::transparent()
}

/// Every pixel of every cell image is crisp.
pub open spec fn crisp_cells<T>(cells: Seq<CellView<T>>) -> bool {
    forall|i: int, x: int, y: int|
        0 <= i < cells.len() && cells[i].image is Some && cells[i].image.unwrap().contains(x, y) ==> crisp(
            #[trigger] cells[i].image.unwrap().at(x, y),
        )
}

/// Every cell image is a well-formed bitmap view.
pub open spec fn images_wf<T>(cells: Seq<CellView<T>>) -> bool {
    forall|i: int| 0 <= i < cells.len() && (#[trigger] cells[i]).image is Some ==> cells[i].image.unwrap().wf()
}

/// What a cell looks like once restored from the atlas: its image and file
/// name come back, its GUI handle is still to be made.
pub open spec fn restored_cell<T>(c: CellView<T>) -> CellView<T> {
    CellView { image: c.image, texture: None, source_file: c.source_file }
}

/// `target` with the first `k` cells of `g` that hold an image restored into it.
pub open spec fn restored_prefix<T>(target: GridView<T>, g: GridView<T>, k: int) -> GridView<T> {
    GridView {
        size: target.size,
        cells: Seq::new(
            target.cells.len(),
            |i: int|
                if i < k && g.cells[i].image is Some {
                    restored_cell(g.cells[i])
                } else {
                    target.cells[i]
                },
        ),
    }
}

proof fn lemma_restore_push<T>(g: GridView<T>, s: Seq<EntryView>, e: EntryView, atlas: BitmapView)
    ensures
        restore_entries(g, s.push(e), atlas) == restore_entry(restore_entries(g, s, atlas), e, atlas),
        restored_count(g.size, s.push(e), atlas) == restored_count(g.size, s, atlas) + if entry_applies(
            g.size,
            e,
            atlas,
        ) {
            1nat
        } else {
            0nat
        },
    decreases s.len(),
{
    if s.len() == 0 {
        assert(s.push(e)[0] == e);
        assert(s.push(e).drop_first() =~= Seq::<EntryView>::empty());
        lemma_restore_keeps_shape(g, Seq::<EntryView>::empty(), atlas);
        let g1 = restore_entry(g, e, atlas);
        assert(restore_entries(g1, Seq::<EntryView>::empty(), atlas) == g1);
        assert(restored_count(g.size, Seq::<EntryView>::empty(), atlas) == 0);
        assert(restore_entries(g, s, atlas) == g);
        assert(restored_count(g.size, s, atlas) == 0);
    } else {
        assert(s.push(e)[0] == s[0]);
        assert(s.push(e).drop_first() =~= s.drop_first().push(e));
        lemma_restore_keeps_shape(g, seq![s[0]], atlas);
        lemma_restore_push(restore_entry(g, s[0], atlas), s.drop_first(), e, atlas);
        assert(restore_entry(g, s[0], atlas).size == g.size);
    }
}

/// The entry of a packed cell reads its image back from the atlas.
proof fn lemma_restore_one<T>(g: GridView<T>, cs: u32, atlas: BitmapView, prev: GridView<T>, k: int)
    requires
        g.wf(),
        cs > 0,
        cs * g.size <= u32::MAX,
        g.size * g.size <= usize::MAX,
        uniform_cells(g.cells, cs),
        crisp_cells(g.cells),
        images_wf(g.cells),
        atlas.width == cs * g.size,
        atlas.height == cs * g.size,
        forall|px: int, py: int| #[trigger] atlas.contains(px, py) ==> packed_pixel(g.cells, g.size, cs, px, py, atlas.at(px, py)),
        prev.wf(),
        prev.size == g.size,
        0 <= k < g.size * g.size,
        g.cells[k].image is Some,
    ensures
        entry_applies(g.size, entry_of(g.cells, g.size, cs, k), atlas),
        restore_entry(prev, entry_of(g.cells, g.size, cs, k), atlas) == (GridView {
            size: prev.size,
            cells: prev.cells.update(k, restored_cell(g.cells[k])),
        }),
{
    let gs = g.size as int;
    let e = entry_of(g.cells, g.size, cs, k);
    let img = g.cells[k].image.unwrap();
    lemma_cell_coords(k, gs, gs);
    let row = k / gs;
    let col = k % gs;
    assert(row * cs <= (gs - 1) * cs && col * cs <= (gs - 1) * cs) by (nonlinear_arith)
        requires
            0 <= row < gs,
            0 <= col < gs,
    ;
    assert((gs - 1) * cs + cs == cs * gs) by (nonlinear_arith);
    assert(0 <= row * cs && 0 <= col * cs) by (nonlinear_arith)
        requires
            0 <= row,
            0 <= col,
    ;
    assert(e.row == row && e.col == col);
    assert(e.x == col * cs && e.y == row * cs);
    assert(entry_extent(e, atlas) == (cs as int, cs as int));
    assert(e.row * g.size + e.col == k);
    let piece = cropped(atlas, e.x as int, e.y as int, cs as int, cs as int);
    assert(img.width == cs && img.height == cs);
    assert forall|p: (int, int)| #[trigger] piece.pixels.dom().contains(p) <==> img.pixels.dom().contains(p) by {}
    assert forall|p: (int, int)| #[trigger] piece.pixels.dom().contains(p) implies piece.pixels[p] == img.pixels[p] by {
        let px = col * cs + p.0;
        let py = row * cs + p.1;
        assert(0 <= px < cs * gs && 0 <= py < cs * gs);
        lemma_in_cell(px, py, cs as int, gs, row, col);
        assert(atlas.contains(px, py));
        assert(packed_pixel(g.cells, g.size, cs, px, py, atlas.at(px, py)));
        assert(img.contains(p.0, p.1));
        assert(crisp(img.at(p.0, p.1)));
    }
    assert(piece.pixels =~= img.pixels);
}

/// Restoring the entries of the first `k` cells gives `target` with the
/// first `k` filled cells restored.
proof fn lemma_restore_prefix<T>(g: GridView<T>, cs: u32, atlas: BitmapView, target: GridView<T>, k: nat)
    requires
        g.wf(),
        cs > 0,
        cs * g.size <= u32::MAX,
        g.size * g.size <= usize::MAX,
        uniform_cells(g.cells, cs),
        crisp_cells(g.cells),
        images_wf(g.cells),
        atlas.width == cs * g.size,
        atlas.height == cs * g.size,
        forall|px: int, py: int| #[trigger] atlas.contains(px, py) ==> packed_pixel(g.cells, g.size, cs, px, py, atlas.at(px, py)),
        target.wf(),
        target.size == g.size,
        k <= g.size * g.size,
    ensures
        restore_entries(target, entries_after(g.cells, g.size, cs, k), atlas) == restored_prefix(target, g, k as int),
        restored_count(g.size, entries_after(g.cells, g.size, cs, k), atlas) == filled_in(g.cells, k as int),
    decreases k,
{
    if k == 0 {
        assert(restored_prefix(target, g, 0).cells =~= target.cells);
    } else {
        let j = (k - 1) as nat;
        lemma_restore_prefix(g, cs, atlas, target, j);
        let prev = restored_prefix(target, g, j as int);
        let next = restored_prefix(target, g, k as int);
        if g.cells[j as int].image is Some {
            let e = entry_of(g.cells, g.size, cs, j as int);
            lemma_restore_push(target, entries_after(g.cells, g.size, cs, j), e, atlas);
            lemma_restore_one(g, cs, atlas, prev, j as int);
            assert(next.cells =~= prev.cells.update(j as int, restored_cell(g.cells[j as int])));
        } else {
            assert(next.cells =~= prev.cells);
        }
    }
}

/// Saving an atlas and loading it back restores the grid: every cell that
/// held an image gets that image and its file name back from the packed
/// image and the metadata, every other cell keeps what it had, and as many
/// tiles are restored as cells were filled. This holds when every cell image
/// has the atlas cell size and only opaque or transparent black pixels (the
/// only ones packing stores exactly).
pub proof fn law_atlas_round_trip<T>(g: GridView<T>, cs: u32, atlas: BitmapView, target: GridView<T>)
    requires
        g.wf(),
        cs > 0 || filled_in(g.cells, (g.size * g.size) as int) == 0,
        cs * g.size <= u32::MAX,
        g.size * g.size <= usize::MAX,
        uniform_cells(g.cells, cs),
        crisp_cells(g.cells),
        images_wf(g.cells),
        atlas.width == cs * g.size,
        atlas.height == cs * g.size,
        forall|px: int, py: int| #[trigger] atlas.contains(px, py) ==> packed_pixel(g.cells, g.size, cs, px, py, atlas.at(px, py)),
        target.wf(),
        target.size == g.size,
    ensures
        restore_entries(target, entries_after(g.cells, g.size, cs, g.size * g.size), atlas) == restored_prefix(
            target,
            g,
            (g.size * g.size) as int,
        ),
        restored_count(g.size, entries_after(g.cells, g.size, cs, g.size * g.size), atlas) == filled_in(
            g.cells,
            (g.size * g.size) as int,
        ),
{
    if cs > 0 {
        lemma_restore_prefix(g, cs, atlas, target, g.size * g.size);
    } else {
        let n = g.size * g.size;
        lemma_none_filled(g.cells, g.size, cs, n);
        assert(restored_prefix(target, g, n as int).cells =~= target.cells);
    }
}

/// With no filled cell among the first `k`, there is no entry and no image.
proof fn lemma_none_filled<T>(cells: Seq<CellView<T>>, gs: nat, cs: u32, k: nat)
    requires
        k <= cells.len(),
        filled_in(cells, k as int) == 0,
    ensures
        entries_after(cells, gs, cs, k) == Seq::<EntryView>::empty(),
        forall|i: int| 0 <= i < k ==> (#[trigger] cells[i]).image is None,
    decreases k,
{
    if k > 0 {
        lemma_none_filled(cells, gs, cs, (k - 1) as nat);
    }
}

/// Growing the grid and shrinking it back to its size gives back the very
/// same grid: growing keeps every cell, and shrinking drops only the empty
/// cells growing added.
pub proof fn law_grid_grow_then_shrink<T>(g: GridView<T>, grown: GridView<T>, back: GridView<T>, m: nat)
    requires
        g.wf(),
        g.size <= m,
        grid_resized(grown, g, m),
        grid_resized(back, grown, g.size),
    ensures
        back == g,
{
    if m != g.size {
        let n = g.size;
        assert forall|i: int| 0 <= i < n * n implies #[trigger] back.cells[i] == g.cells[i] by {
            assert(n > 0) by (nonlinear_arith)
                requires
                    0 <= i < n * n,
            ;
            lemma_cell_coords(i, n as int, n as int);
            let r = i / (n as int);
            let c = i % (n as int);
            assert(back.cell(r, c) == grown.cell(r, c));
            assert(grown.cell(r, c) == g.cell(r, c));
        }
        assert(back.cells =~= g.cells);
    }
}

} // verus!
