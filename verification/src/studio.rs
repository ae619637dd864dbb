use vstd::prelude::*;
use vstd::string::*;

use crate::atlas::{
    AtlasData, AtlasGrid, Cell, CellView, EntryView, GridView, atlas_after, entries_after, entry_views,
    crisp_cells, filled_in, grid_resized, images_wf, law_atlas_round_trip, lemma_restore_keeps_shape,
    packed_pixel, restore_entries, restored_count, uniform_cells,
};
use crate::bitmap::{Bitmap, BitmapView};
use crate::outside::{lanczos_outcome, nearest_resized, resize_lanczos3, resize_nearest};
use crate::text::{decimal, decimal_string};
use crate::workspace::{TextureWorkspace, WorkspaceView};

verus! {

/// How the status line is colored.
#[derive(Clone, Copy, Debug, PartialEq, Eq, Structural)]
pub enum StatusKind {
    Info,
    Success,
    Error,
}

/// The two halves of the application.
#[derive(Clone, Copy, Debug, PartialEq, Eq, Structural)]
pub enum AppMode {
    Atlas,
    TextureCreator,
}

/// The shapes the 3D preview can show the texture on.
#[derive(Clone, Copy, Debug, PartialEq, Eq, Structural)]
pub enum PreviewShape {
    Wall,
    Cube,
    Cross,
    Torch,
}

impl PreviewShape {
    /// The shape's name on its button.
    pub fn label(&self) -> (s: &'static str)
        ensures
            *self == PreviewShape::Wall ==> s@ == "Wall (X-Y)"@,
            *self == PreviewShape::Cube ==> s@ == "Cube"@,
            *self == PreviewShape::Cross ==> s@ == "Cross / X"@,
            *self == PreviewShape::Torch ==> s@ == "Torch"@,
    {
        match self {
            PreviewShape::Wall => "Wall (X-Y)",
            PreviewShape::Cube => "Cube",
            PreviewShape::Cross => "Cross / X",
            PreviewShape::Torch => "Torch",
        }
    }
}

impl Default for PreviewShape {
    /// The cube.
    fn default() -> (s: PreviewShape)
        ensures
            s == PreviewShape::Cube,
    {
        PreviewShape::Cube
    }
}

/// A saved, named texture of the block library, which can be loaded back
/// into the canvas.
pub struct BlockType<T> {
    pub name: String,
    pub image: Bitmap,
    pub texture: Option<T>,
}

pub struct BlockView<T> {
    pub name: Seq<char>,
    pub image: BitmapView,
    pub texture: Option<T>,
}

impl<T> View for BlockType<T> {
    type V = BlockView<T>;

    open spec fn view(&self) -> BlockView<T> {
        BlockView { name: self.name@, image: self.image@, texture: self.texture }
    }
}

pub open spec fn block_views<T>(s: Seq<BlockType<T>>) -> Seq<BlockView<T>> {
    s.map_values(|b: BlockType<T>| b@)
}

/// The whole application state that is not drawing: the atlas grid, the
/// status line, the mode, the texture editor and the block library. `T` is
/// the type of the texture handles the GUI keeps beside images.
pub struct AtlasApp<T> {
    pub grid: AtlasGrid<T>,
    pub cell_size: u32,
    pub status: String,
    pub status_kind: StatusKind,
    pub mode: AppMode,
    pub texture: TextureWorkspace,
    pub block_types: Vec<BlockType<T>>,
    pub show_preview_window: bool,
    pub preview_shape: PreviewShape,
    pub show_custom_color_window: bool,
}

pub struct AppView<T> {
    pub grid: GridView<T>,
    pub cell_size: u32,
    pub status: Seq<char>,
    pub status_kind: StatusKind,
    pub mode: AppMode,
    pub texture: WorkspaceView,
    pub blocks: Seq<BlockView<T>>,
    pub show_preview_window: bool,
    pub preview_shape: PreviewShape,
    pub show_custom_color_window: bool,
}

impl<T> View for AtlasApp<T> {
    type V = AppView<T>;

    open spec fn view(&self) -> AppView<T> {
        AppView {
            grid: self.grid@,
            cell_size: self.cell_size,
            status: self.status@,
            status_kind: self.status_kind,
            mode: self.mode,
            texture: self.texture@,
            blocks: block_views(self.block_types@),
            show_preview_window: self.show_preview_window,
            preview_shape: self.preview_shape,
            show_custom_color_window: self.show_custom_color_window,
        }
    }
}

impl<T> AppView<T> {
    /// The application once cell `idx` holds `img`, read from the file
    /// `name`, and the status line says so.
    pub open spec fn with_cell_image(self, idx: int, img: BitmapView, name: Seq<char>) -> AppView<T> {
        AppView {
            grid: GridView {
                cells: self.grid.cells.update(
                    idx,
                    CellView { image: Some(img), texture: None, source_file: name },
                ),
                ..self.grid
            },
            status: "Loaded '"@ + name + "' into cell ["@ + decimal((idx / self.grid.size as int) as nat) + " , "@
                + decimal((idx % self.grid.size as int) as nat) + "]"@,
            status_kind: StatusKind::Success,
            ..self
        }
    }
}

impl<T> Default for AtlasApp<T> {
    /// The application as it opens, as `AtlasApp::new`.
    fn default() -> (app: AtlasApp<T>)
        ensures
            app@.grid.size == 16,
            app@.grid.wf(),
            forall|i: int| 0 <= i < 256 ==> #[trigger] app@.grid.cells[i] == CellView::<T>::empty(),
            app@.cell_size == 64,
            app@.status == "Left-click a cell to import an image"@,
            app@.status_kind == StatusKind::Info,
            app@.mode == AppMode::Atlas,
            app@.texture.canvas == BitmapView::blank(16, 16),
            app@.texture.undo.len() == 0,
            app@.texture.redo.len() == 0,
            app@.blocks.len() == 0,
            !app@.show_preview_window,
            app@.preview_shape == PreviewShape::Cube,
            !app@.show_custom_color_window,
    {
        AtlasApp::new()
    }
}

/// `a` followed by `b`.
fn joined(a: &str, b: &str) -> (s: String)
    ensures
        s@ == a@ + b@,
{
    let mut s = String::from_str(a);
    s.append(b);
    s
}

impl<T> AtlasApp<T> {
    /// The application as it opens: a 16 by 16 grid of empty cells of 64
    /// pixels, the atlas mode, a fresh texture editor, no blocks.
    pub fn new() -> (app: AtlasApp<T>)
        ensures
            app@.grid.size == 16,
            app@.grid.wf(),
            forall|i: int| 0 <= i < 256 ==> #[trigger] app@.grid.cells[i] == CellView::<T>::empty(),
            app@.cell_size == 64,
            app@.status == "Left-click a cell to import an image"@,
            app@.status_kind == StatusKind::Info,
            app@.mode == AppMode::Atlas,
            app@.texture.canvas == BitmapView::blank(16, 16),
            app@.texture.undo.len() == 0,
            app@.texture.redo.len() == 0,
            app@.blocks.len() == 0,
            !app@.show_preview_window,
            app@.preview_shape == PreviewShape::Cube,
            !app@.show_custom_color_window,
    {
        let app = AtlasApp {
            grid: AtlasGrid::new(16),
            cell_size: 64,
            status: String::from_str("Left-click a cell to import an image"),
            status_kind: StatusKind::Info,
            mode: AppMode::Atlas,
            texture: TextureWorkspace::new(),
            block_types: Vec::new(),
            show_preview_window: false,
            preview_shape: PreviewShape::Cube,
            show_custom_color_window: false,
        };
        assert(app@.blocks =~= Seq::<BlockView<T>>::empty());
        app
    }

    /// Shows `msg` on the status line, colored as `kind`.
    pub fn set_status(&mut self, msg: String, kind: StatusKind)
        ensures
            final(self)@ == (AppView { status: msg@, status_kind: kind, ..old(self)@ }),
    {
        self.status = msg;
        self.status_kind = kind;
    }

    /// Makes the atlas grid `new_size` by `new_size`, keeping the cells of the
    /// overlapping top-left square, and says so. Nothing happens when the
    /// size is already `new_size`.
    pub fn resize_grid(&mut self, new_size: usize)
        requires
            new_size * new_size <= usize::MAX,
        ensures
            new_size == old(self)@.grid.size ==> final(self)@ == old(self)@,
            new_size != old(self)@.grid.size ==> final(self)@ == (AppView {
                grid: final(self)@.grid,
                status: "Grid resized to "@ + decimal(new_size as nat) + " x "@ + decimal(new_size as nat),
                status_kind: StatusKind::Success,
                ..old(self)@
            }),
            grid_resized(final(self)@.grid, old(self)@.grid, new_size as nat),
            final(self)@.grid.wf(),
    {
        if new_size == self.grid.grid_size() {
            return;
        }
        self.grid.resize(new_size);
        let n = decimal_string(new_size);
        let mut msg = joined("Grid resized to ", n.as_str());
        msg.append(" x ");
        msg.append(n.as_str());
        self.set_status(msg, StatusKind::Success);
    }

    /// Attaches the GUI's handle for the image of cell `idx`.
    pub fn set_cell_texture(&mut self, idx: usize, texture: T)
        requires
            idx < old(self)@.grid.cells.len(),
        ensures
            final(self)@ == (AppView {
                grid: GridView {
                    cells: old(self)@.grid.cells.update(
                        idx as int,
                        CellView { texture: Some(texture), ..old(self)@.grid.cells[idx as int] },
                    ),
                    ..old(self)@.grid
                },
                ..old(self)@
            }),
    {
        let old_cell = self.grid.cell(idx);
        let image = match &old_cell.image {
            Some(b) => Some(b.copy()),
            None => None,
        };
        let cell = Cell { image, texture: Some(texture), source_file: old_cell.source_file.clone() };
        self.grid.set_cell(idx, cell);
    }

    /// Puts `image` into cell `idx` with the name of its file, and says so.
    pub fn put_cell_image(&mut self, idx: usize, image: Bitmap, src_name: String)
        requires
            idx < old(self)@.grid.cells.len(),
        ensures
            final(self)@ == old(self)@.with_cell_image(idx as int, image@, src_name@),
    {
        let gs = self.grid.grid_size();
        assert(gs > 0) by (nonlinear_arith)
            requires
                idx < gs * gs,
        ;
        let r = idx / gs;
        let c = idx % gs;
        let mut msg = joined("Loaded '", src_name.as_str());
        msg.append("' into cell [");
        msg.append(decimal_string(r).as_str());
        msg.append(" , ");
        msg.append(decimal_string(c).as_str());
        msg.append("]");
        self.grid.set_cell(idx, Cell { image: Some(image), texture: None, source_file: src_name });
        self.set_status(msg, StatusKind::Success);
    }

    /// Puts the image `decoded`, scaled to the cell size with a Lanczos
    /// filter, into cell `idx` with the name of its file, and says so. The
    /// stored image is an outcome of that scaling of `decoded`, it is
    /// `cell_size` by `cell_size`, and an image of that size already goes in
    /// as it is.
    pub fn load_image_into_cell(&mut self, idx: usize, decoded: &Bitmap, src_name: String)
        requires
            idx < old(self)@.grid.cells.len(),
            Bitmap::byte_len(old(self)@.cell_size as int, old(self)@.cell_size as int) <= usize::MAX,
        ensures
            final(self)@.grid.cells[idx as int].image matches Some(img) && {
                &&& lanczos_outcome(decoded@, old(self)@.cell_size, old(self)@.cell_size, img)
                &&& img.width == old(self)@.cell_size
                &&& img.height == old(self)@.cell_size
                &&& (decoded@.width == old(self)@.cell_size && decoded@.height == old(self)@.cell_size) ==> img
                    == decoded@
                &&& final(self)@ == old(self)@.with_cell_image(idx as int, img, src_name@)
            },
    {
        let cs = self.cell_size;
        let resized = resize_lanczos3(decoded, cs, cs);
        self.put_cell_image(idx, resized, src_name);
    }

    /// Empties cell `idx` and says so.
    pub fn clear_cell(&mut self, idx: usize)
        requires
            idx < old(self)@.grid.cells.len(),
        ensures
            final(self)@ == (AppView {
                grid: GridView { cells: old(self)@.grid.cells.update(idx as int, CellView::empty()), ..old(self)@.grid },
                status: "Cleared cell "@ + decimal(idx as nat),
                status_kind: StatusKind::Info,
                ..old(self)@
            }),
    {
        self.grid.set_cell(idx, Cell::empty());
        let msg = joined("Cleared cell ", decimal_string(idx).as_str());
        self.set_status(msg, StatusKind::Info);
    }

    /// Empties every cell of the grid and says so.
    pub fn clear_all(&mut self)
        ensures
            final(self)@ == (AppView {
                grid: final(self)@.grid,
                status: "Cleared all cells"@,
                status_kind: StatusKind::Info,
                ..old(self)@
            }),
            final(self)@.grid.size == old(self)@.grid.size,
            final(self)@.grid.wf(),
            forall|i: int|
                0 <= i < final(self)@.grid.cells.len() ==> #[trigger] final(self)@.grid.cells[i]
                    == CellView::<T>::empty(),
    {
        self.grid.clear_all();
        self.set_status(String::from_str("Cleared all cells"), StatusKind::Info);
    }

    /// The atlas image and its metadata, as Save Atlas writes them: every
    /// filled cell at its grid position in one `cell_size * grid_size`
    /// square, and one entry per filled cell.
    pub fn build_atlas(&self) -> (r: (Bitmap, AtlasData))
        requires
            self@.cell_size * self@.grid.size <= u32::MAX,
            Bitmap::byte_len(self@.cell_size * self@.grid.size, self@.cell_size * self@.grid.size)
                <= usize::MAX,
        ensures
            r.0@ == atlas_after(self@.grid.cells, self@.grid.size, self@.cell_size, self@.grid.size * self@.grid.size),
            r.1.cell_size == self@.cell_size,
            r.1.grid_size == self@.grid.size,
            r.1.atlas_width == self@.cell_size * self@.grid.size,
            r.1.atlas_height == self@.cell_size * self@.grid.size,
            entry_views(r.1.entries@) == entries_after(
                self@.grid.cells,
                self@.grid.size,
                self@.cell_size,
                self@.grid.size * self@.grid.size,
            ),
            r.0@.width == self@.cell_size * self@.grid.size,
            r.0@.height == self@.cell_size * self@.grid.size,
            uniform_cells(self@.grid.cells, self@.cell_size) ==> forall|px: int, py: int|
                #[trigger] r.0@.contains(px, py) ==> packed_pixel(
                    self@.grid.cells,
                    self@.grid.size,
                    self@.cell_size,
                    px,
                    py,
                    r.0@.at(px, py),
                ),
    {
        self.grid.build_atlas(self.cell_size)
    }

    /// Restores an atlas from its metadata and image: takes over its cell
    /// size and grid size, puts each listed part of the image back into its
    /// cell, and says how many were restored.
    pub fn load_atlas(&mut self, data: &AtlasData, atlas: &Bitmap, file_name: String)
        requires
            data.grid_size * data.grid_size <= usize::MAX,
        ensures
            exists|mid: GridView<T>|
                #[trigger] grid_resized(mid, old(self)@.grid, data.grid_size as nat) && final(self)@.grid
                    == restore_entries(mid, entry_views(data.entries@), atlas@),
            final(self)@.grid.size == data.grid_size,
            final(self)@ == (AppView {
                grid: final(self)@.grid,
                cell_size: data.cell_size,
                status: "Loaded '"@ + file_name@ + "'  --  "@ + decimal(data.grid_size as nat) + "x"@ + decimal(
                    data.grid_size as nat,
                ) + " grid,  "@ + decimal(
                    restored_count(data.grid_size as nat, entry_views(data.entries@), atlas@),
                ) + " tiles restored"@,
                status_kind: StatusKind::Success,
                ..old(self)@
            }),
    {
        self.cell_size = data.cell_size;
        self.resize_grid(data.grid_size);
        let ghost mid = self@.grid;
        let loaded = self.grid.restore(&data.entries, atlas);
        let g = decimal_string(data.grid_size);
        let mut msg = joined("Loaded '", file_name.as_str());
        msg.append("'  --  ");
        msg.append(g.as_str());
        msg.append("x");
        msg.append(g.as_str());
        msg.append(" grid,  ");
        msg.append(decimal_string(loaded).as_str());
        msg.append(" tiles restored");
        self.set_status(msg, StatusKind::Success);
        assert(grid_resized(mid, old(self)@.grid, data.grid_size as nat));
        proof {
            lemma_restore_keeps_shape(mid, entry_views(data.entries@), atlas@);
        }
    }

    /// Switches between the atlas and the texture editor, saying so; nothing
    /// happens when `mode` is the current mode.
    pub fn set_mode(&mut self, mode: AppMode)
        ensures
            mode == old(self)@.mode ==> final(self)@ == old(self)@,
            mode == AppMode::Atlas && mode != old(self)@.mode ==> final(self)@ == (AppView {
                mode,
                status: "Switched to Atlas Creator"@,
                status_kind: StatusKind::Info,
                ..old(self)@
            }),
            mode == AppMode::TextureCreator && mode != old(self)@.mode ==> final(self)@ == (AppView {
                mode,
                status: "Switched to Texture Creator  |  Shortcuts: B E G I  Ctrl+Z/Y  M X"@,
                status_kind: StatusKind::Info,
                ..old(self)@
            }),
    {
        if self.mode != mode {
            self.mode = mode;
            match mode {
                AppMode::Atlas => {
                    self.set_status(String::from_str("Switched to Atlas Creator"), StatusKind::Info);
                },
                AppMode::TextureCreator => {
                    self.set_status(
                        String::from_str("Switched to Texture Creator  |  Shortcuts: B E G I  Ctrl+Z/Y  M X"),
                        StatusKind::Info,
                    );
                },
            }
        }
    }

    /// Makes the image `decoded`, scaled to the canvas size by nearest
    /// neighbor, the new canvas (saving the old one for undo), and says so.
    /// The new canvas is `sz` by `sz`, `sz` being the canvas size setting
    /// taken as a `u32`.
    pub fn import_texture(&mut self, decoded: &Bitmap)
        requires
            Bitmap::byte_len(
                (old(self)@.texture.canvas_size_setting as u32) as int,
                (old(self)@.texture.canvas_size_setting as u32) as int,
            ) <= usize::MAX,
        ensures
            ({
                let sz = old(self)@.texture.canvas_size_setting;
                &&& final(self)@ == (AppView {
                    texture: old(self)@.texture.replace_canvas(nearest_resized(decoded@, sz as u32, sz as u32)),
                    status: decimal(sz as nat) + "x"@ + decimal(sz as nat) + " texture imported"@,
                    status_kind: StatusKind::Success,
                    ..old(self)@
                })
                &&& final(self)@.texture.canvas.width == sz as u32
                &&& final(self)@.texture.canvas.height == sz as u32
            }),
    {
        let sz = self.texture.canvas_size_setting;
        let resized = resize_nearest(decoded, sz as u32, sz as u32);
        self.texture.replace_canvas(resized);
        let d = decimal_string(sz);
        let mut msg = joined(d.as_str(), "x");
        msg.append(d.as_str());
        msg.append(" texture imported");
        self.set_status(msg, StatusKind::Success);
    }

    /// Clears the canvas to transparent at the current canvas size (saving
    /// the old one for undo), and says so.
    pub fn clear_canvas(&mut self)
        requires
            Bitmap::byte_len(
                (old(self)@.texture.canvas_size_setting as u32) as int,
                (old(self)@.texture.canvas_size_setting as u32) as int,
            ) <= usize::MAX,
        ensures
            final(self)@ == (AppView {
                texture: old(self)@.texture.replace_canvas(
                    BitmapView::blank(
                        (old(self)@.texture.canvas_size_setting as u32) as nat,
                        (old(self)@.texture.canvas_size_setting as u32) as nat,
                    ),
                ),
                status: "Canvas cleared"@,
                status_kind: StatusKind::Info,
                ..old(self)@
            }),
    {
        let sz = self.texture.canvas_size_setting as u32;
        self.texture.replace_canvas(Bitmap::new(sz, sz));
        self.set_status(String::from_str("Canvas cleared"), StatusKind::Info);
    }

    /// Resizes the canvas to `sz` by `sz` (saving the old one for undo), and
    /// says so.
    pub fn resize_texture_canvas(&mut self, sz: usize)
        requires
            Bitmap::byte_len((sz as u32) as int, (sz as u32) as int) <= usize::MAX,
        ensures
            final(self)@ == (AppView {
                texture: old(self)@.texture.resize_canvas(sz),
                status: "Canvas resized to "@ + decimal(sz as nat) + "x"@ + decimal(sz as nat),
                status_kind: StatusKind::Success,
                ..old(self)@
            }),
    {
        self.texture.resize_canvas(sz);
        let d = decimal_string(sz);
        let mut msg = joined("Canvas resized to ", d.as_str());
        msg.append("x");
        msg.append(d.as_str());
        self.set_status(msg, StatusKind::Success);
    }

    /// Saves a copy of the canvas in the block library as `block_<n>`, `n`
    /// counting from 1, and says so.
    pub fn save_current_as_block(&mut self)
        requires
            old(self)@.blocks.len() < usize::MAX,
        ensures
            ({
                let name = "block_"@ + decimal((old(self)@.blocks.len() + 1) as nat);
                final(self)@ == (AppView {
                    blocks: old(self)@.blocks.push(
                        BlockView { name, image: old(self)@.texture.canvas, texture: None },
                    ),
                    status: "Saved current texture as '"@ + name + "'"@,
                    status_kind: StatusKind::Success,
                    ..old(self)@
                })
            }),
    {
        let image = self.texture.canvas.copy();
        let idx = self.block_types.len();
        let name = joined("block_", decimal_string(idx + 1).as_str());
        let mut msg = joined("Saved current texture as '", name.as_str());
        msg.append("'");
        let ghost before = block_views(self.block_types@);
        let ghost bv = BlockView { name: name@, image: image@, texture: None::<T> };
        self.block_types.push(BlockType { name, image, texture: None });
        assert(block_views(self.block_types@) =~= before.push(bv));
        self.set_status(msg, StatusKind::Success);
    }

    /// Attaches the GUI's handle for the image of block `idx`.
    pub fn set_block_texture(&mut self, idx: usize, texture: T)
        requires
            idx < old(self)@.blocks.len(),
        ensures
            final(self)@ == (AppView {
                blocks: old(self)@.blocks.update(
                    idx as int,
                    BlockView { texture: Some(texture), ..old(self)@.blocks[idx as int] },
                ),
                ..old(self)@
            }),
    {
        let ghost before = block_views(self.block_types@);
        let old_block = &self.block_types[idx];
        let block = BlockType { name: old_block.name.clone(), image: old_block.image.copy(), texture: Some(texture) };
        let ghost bv = block@;
        self.block_types.set(idx, block);
        assert(block_views(self.block_types@) =~= before.update(idx as int, bv));
    }

    /// Makes block `idx` the canvas (saving the old one for undo), with the
    /// canvas size following the block's width, and says so; nothing happens
    /// when there is no such block.
    pub fn load_block_into_canvas(&mut self, idx: usize)
        ensures
            idx >= old(self)@.blocks.len() ==> final(self)@ == old(self)@,
            idx < old(self)@.blocks.len() ==> ({
                let block = old(self)@.blocks[idx as int];
                final(self)@ == (AppView {
                    texture: WorkspaceView {
                        canvas_size_setting: block.image.width as usize,
                        ..old(self)@.texture.replace_canvas(block.image)
                    },
                    status: "Loaded block '"@ + block.name + "' into canvas"@,
                    status_kind: StatusKind::Success,
                    ..old(self)@
                })
            }),
    {
        if idx < self.block_types.len() {
            let image = self.block_types[idx].image.copy();
            let width = image.width();
            let mut msg = joined("Loaded block '", self.block_types[idx].name.as_str());
            msg.append("' into canvas");
            self.texture.replace_canvas(image);
            self.texture.canvas_size_setting = width as usize;
            self.set_status(msg, StatusKind::Success);
        }
    }

    /// Removes block `idx` from the library and says so; nothing happens when
    /// there is no such block.
    pub fn delete_block(&mut self, idx: usize)
        ensures
            idx >= old(self)@.blocks.len() ==> final(self)@ == old(self)@,
            idx < old(self)@.blocks.len() ==> final(self)@ == (AppView {
                blocks: old(self)@.blocks.remove(idx as int),
                status: "Deleted block '"@ + old(self)@.blocks[idx as int].name + "'"@,
                status_kind: StatusKind::Info,
                ..old(self)@
            }),
    {
        if idx < self.block_types.len() {
            let ghost before = block_views(self.block_types@);
            let removed = self.block_types.remove(idx);
            assert(block_views(self.block_types@) =~= before.remove(idx as int));
            let mut msg = joined("Deleted block '", removed.name.as_str());
            msg.append("'");
            self.set_status(msg, StatusKind::Info);
        }
    }

    /// Every image in the grid is a well-formed bitmap view.
    pub proof fn lemma_images_wf(&self)
        ensures
            images_wf(self@.grid.cells),
    {
        self.grid.lemma_images_wf();
    }

    /// The number of cells that hold an image.
    pub fn filled_count(&self) -> (n: usize)
        ensures
            n == filled_in(self@.grid.cells, self@.grid.cells.len() as int),
    {
        let count = self.grid.len();
        let mut n: usize = 0;
        let mut i: usize = 0;
        while i < count
            invariant
                count == self@.grid.cells.len(),
                i <= count,
                n == filled_in(self@.grid.cells, i as int),
                n <= i,
            decreases count - i,
        {
            if self.grid.cell(i).image.is_some() {
                n = n + 1;
            }
            i = i + 1;
        }
        n
    }
}


/// Saving an application's atlas and loading it back into the same
/// application restores its grid: the size stays, and every cell keeps its
/// image and its file name. `atlas` and `entries` are what `build_atlas`
/// gives; `mid` and `after` are what `load_atlas` states of the loaded grid.
/// This holds when every cell image has the cell size and only opaque or
/// transparent black pixels, the ones packing stores exactly.
pub proof fn law_save_then_load<T>(
    before: AppView<T>,
    atlas: BitmapView,
    entries: Seq<EntryView>,
    mid: GridView<T>,
    after: GridView<T>,
)
    requires
        before.grid.wf(),
        before.cell_size * before.grid.size <= u32::MAX,
        before.grid.size * before.grid.size <= usize::MAX,
        uniform_cells(before.grid.cells, before.cell_size),
        crisp_cells(before.grid.cells),
        images_wf(before.grid.cells),
        before.cell_size > 0 || filled_in(before.grid.cells, (before.grid.size * before.grid.size) as int) == 0,
        atlas.width == before.cell_size * before.grid.size,
        atlas.height == before.cell_size * before.grid.size,
        forall|px: int, py: int| #[trigger]
            atlas.contains(px, py) ==> packed_pixel(
                before.grid.cells,
                before.grid.size,
                before.cell_size,
                px,
                py,
                atlas.at(px, py),
            ),
        entries == entries_after(
            before.grid.cells,
            before.grid.size,
            before.cell_size,
            before.grid.size * before.grid.size,
        ),
        grid_resized(mid, before.grid, before.grid.size),
        after == restore_entries(mid, entries, atlas),
    ensures
        after.size == before.grid.size,
        after.cells.len() == before.grid.cells.len(),
        forall|i: int|
            0 <= i < before.grid.cells.len() ==> (#[trigger] after.cells[i]).image == before.grid.cells[i].image
                && after.cells[i].source_file == before.grid.cells[i].source_file,
{
    law_atlas_round_trip(before.grid, before.cell_size, atlas, before.grid);
}

} // verus!
