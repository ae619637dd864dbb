use atlas_maker::atlas::{AtlasData, AtlasEntry, AtlasGrid};
use atlas_maker::bitmap::Bitmap;
use atlas_maker::color::Color;
use atlas_maker::studio::{AppMode, AtlasApp, StatusKind};

const CLEAR: Color = Color { r: 0, g: 0, b: 0, a: 0 };
const RED: Color = Color { r: 255, g: 0, b: 0, a: 255 };
const GREEN: Color = Color { r: 0, g: 255, b: 0, a: 255 };

fn small_app(grid: usize, cell: u32) -> AtlasApp<u32> {
    let mut app: AtlasApp<u32> = AtlasApp::new();
    app.resize_grid(grid);
    app.cell_size = cell;
    app
}

#[test]
fn fresh_app() {
    let app: AtlasApp<u32> = AtlasApp::new();
    assert_eq!(app.grid.grid_size(), 16);
    assert_eq!(app.grid.len(), 256);
    assert_eq!(app.cell_size, 64);
    assert_eq!(app.status, "Left-click a cell to import an image");
    assert!(app.status_kind == StatusKind::Info);
    assert!(app.mode == AppMode::Atlas);
    assert_eq!(app.filled_count(), 0);
    let d: AtlasApp<u32> = AtlasApp::default();
    assert_eq!(d.cell_size, 64);
}

#[test]
fn resize_grid_keeps_overlapping_cells() {
    let mut app = small_app(3, 2);
    app.load_image_into_cell(4, &Bitmap::filled(2, 2, RED), "mid.png".to_string());
    app.set_cell_texture(4, 44);
    app.load_image_into_cell(8, &Bitmap::filled(2, 2, RED), "corner.png".to_string());
    app.resize_grid(2);
    assert_eq!(app.status, "Grid resized to 2 x 2");
    assert!(app.status_kind == StatusKind::Success);
    assert_eq!(app.grid.len(), 4);
    // cell (1, 1) was index 4 of the 3 x 3 grid and is index 3 now
    assert_eq!(app.grid.cell(3).source_file, "mid.png");
    assert_eq!(app.grid.cell(3).texture, Some(44));
    assert_eq!(app.filled_count(), 1);
    app.resize_grid(4);
    assert_eq!(app.grid.cell(5).source_file, "mid.png");
    assert_eq!(app.filled_count(), 1);
}

#[test]
fn resize_grid_to_same_size_changes_nothing() {
    let mut app = small_app(3, 2);
    app.set_status("x".to_string(), StatusKind::Error);
    app.resize_grid(3);
    assert_eq!(app.status, "x");
    assert!(app.status_kind == StatusKind::Error);
}

#[test]
fn load_image_scales_to_cell_size() {
    let mut app = small_app(2, 4);
    app.load_image_into_cell(3, &Bitmap::filled(8, 8, GREEN), "grass.png".to_string());
    let cell = app.grid.cell(3);
    let img = cell.image.as_ref().unwrap();
    assert_eq!((img.width(), img.height()), (4, 4));
    assert_eq!(img.get_pixel(2, 2), GREEN);
    assert_eq!(cell.source_file, "grass.png");
    assert!(cell.texture.is_none());
    assert_eq!(app.status, "Loaded 'grass.png' into cell [1 , 1]");
    assert_eq!(app.filled_count(), 1);
}

#[test]
fn clear_cell_and_all() {
    let mut app = small_app(2, 2);
    app.load_image_into_cell(0, &Bitmap::filled(2, 2, RED), "a.png".to_string());
    app.load_image_into_cell(1, &Bitmap::filled(2, 2, RED), "b.png".to_string());
    app.clear_cell(0);
    assert_eq!(app.status, "Cleared cell 0");
    assert!(app.status_kind == StatusKind::Info);
    assert!(app.grid.cell(0).image.is_none());
    assert_eq!(app.grid.cell(0).source_file, "");
    assert_eq!(app.filled_count(), 1);
    app.clear_all();
    assert_eq!(app.status, "Cleared all cells");
    assert_eq!(app.filled_count(), 0);
    assert_eq!(app.grid.len(), 4);
}

#[test]
fn build_atlas_packs_cells_and_lists_filled_ones() {
    let mut app = small_app(2, 2);
    let mut img = Bitmap::filled(2, 2, RED);
    img.set_pixel(1, 0, GREEN);
    app.load_image_into_cell(1, &img, "one.png".to_string());
    app.load_image_into_cell(2, &Bitmap::filled(2, 2, GREEN), "two.png".to_string());
    let (atlas, data) = app.build_atlas();
    assert_eq!((atlas.width(), atlas.height()), (4, 4));
    assert_eq!(data.cell_size, 2);
    assert_eq!(data.grid_size, 2);
    assert_eq!((data.atlas_width, data.atlas_height), (4, 4));
    assert_eq!(data.entries.len(), 2);
    let e = &data.entries[0];
    assert_eq!((e.index, e.row, e.col, e.x, e.y, e.width, e.height), (1, 0, 1, 2, 0, 2, 2));
    assert_eq!(e.source_file, "one.png");
    let e = &data.entries[1];
    assert_eq!((e.index, e.row, e.col, e.x, e.y, e.width, e.height), (2, 1, 0, 0, 2, 2, 2));
    assert_eq!(e.source_file, "two.png");
    // cell (0, 1) sits at x 2..4, y 0..2
    assert_eq!(atlas.get_pixel(2, 0), RED);
    assert_eq!(atlas.get_pixel(3, 0), GREEN);
    assert_eq!(atlas.get_pixel(3, 1), RED);
    // cell (1, 0) at x 0..2, y 2..4
    assert_eq!(atlas.get_pixel(0, 3), GREEN);
    // empty cells stay transparent
    assert_eq!(atlas.get_pixel(0, 0), CLEAR);
    assert_eq!(atlas.get_pixel(3, 3), CLEAR);
}

#[test]
fn atlas_round_trip() {
    let mut app = small_app(3, 2);
    let mut img = Bitmap::filled(2, 2, RED);
    img.set_pixel(0, 1, CLEAR);
    app.load_image_into_cell(0, &img, "a.png".to_string());
    app.load_image_into_cell(5, &Bitmap::filled(2, 2, GREEN), "b.png".to_string());
    let (atlas, data) = app.build_atlas();

    let mut other: AtlasApp<u32> = AtlasApp::new();
    other.load_atlas(&data, &atlas, "atlas.json".to_string());
    assert_eq!(other.grid.grid_size(), 3);
    assert_eq!(other.cell_size, 2);
    assert_eq!(other.status, "Loaded 'atlas.json'  --  3x3 grid,  2 tiles restored");
    assert!(other.status_kind == StatusKind::Success);
    assert_eq!(other.filled_count(), 2);
    let a = other.grid.cell(0).image.as_ref().unwrap();
    assert_eq!(a.to_rgba(), img.to_rgba());
    assert_eq!(other.grid.cell(0).source_file, "a.png");
    let b = other.grid.cell(5).image.as_ref().unwrap();
    assert_eq!(b.to_rgba(), Bitmap::filled(2, 2, GREEN).to_rgba());
    assert_eq!(other.grid.cell(5).source_file, "b.png");
    assert!(other.grid.cell(1).image.is_none());
}

#[test]
fn restore_skips_entries_outside_grid_or_image() {
    let mut grid: AtlasGrid<u32> = AtlasGrid::new(2);
    let atlas = Bitmap::filled(4, 4, RED);
    let entry = |row: usize, col: usize, x: u32, y: u32| AtlasEntry {
        index: row * 2 + col,
        row,
        col,
        x,
        y,
        width: 2,
        height: 2,
        source_file: format!("{}_{}.png", row, col),
    };
    let entries = vec![entry(2, 0, 0, 0), entry(0, 0, 4, 0), entry(1, 1, 3, 3), entry(0, 1, 2, 0)];
    let loaded = grid.restore(&entries, &atlas);
    assert_eq!(loaded, 2);
    assert!(grid.cell(0).image.is_none());
    // the entry at (3, 3) is cut down to the one pixel left in the image
    let c = grid.cell(3).image.as_ref().unwrap();
    assert_eq!((c.width(), c.height()), (1, 1));
    assert_eq!(grid.cell(1).source_file, "0_1.png");
}

#[test]
fn load_atlas_with_other_grid_size() {
    let mut app = small_app(2, 2);
    app.load_image_into_cell(3, &Bitmap::filled(2, 2, GREEN), "keep.png".to_string());
    let data = AtlasData { cell_size: 2, grid_size: 4, atlas_width: 8, atlas_height: 8, entries: Vec::new() };
    app.load_atlas(&data, &Bitmap::new(8, 8), "empty.json".to_string());
    assert_eq!(app.grid.grid_size(), 4);
    assert_eq!(app.status, "Loaded 'empty.json'  --  4x4 grid,  0 tiles restored");
    // cell (1, 1) kept its image through the resize
    assert_eq!(app.grid.cell(5).source_file, "keep.png");
}

#[test]
fn modes_and_messages() {
    let mut app = small_app(2, 2);
    app.set_mode(AppMode::Atlas);
    assert_eq!(app.status, "Grid resized to 2 x 2");
    app.set_mode(AppMode::TextureCreator);
    assert!(app.mode == AppMode::TextureCreator);
    assert_eq!(app.status, "Switched to Texture Creator  |  Shortcuts: B E G I  Ctrl+Z/Y  M X");
    app.set_mode(AppMode::Atlas);
    assert_eq!(app.status, "Switched to Atlas Creator");
}

#[test]
fn texture_canvas_operations() {
    let mut app: AtlasApp<u32> = AtlasApp::new();
    app.import_texture(&Bitmap::filled(32, 32, RED));
    assert_eq!(app.status, "16x16 texture imported");
    assert_eq!(app.texture.canvas.width(), 16);
    assert_eq!(app.texture.canvas.get_pixel(7, 7), RED);
    app.resize_texture_canvas(8);
    assert_eq!(app.status, "Canvas resized to 8x8");
    assert_eq!(app.texture.canvas.width(), 8);
    app.clear_canvas();
    assert_eq!(app.status, "Canvas cleared");
    assert_eq!(app.texture.canvas.width(), 8);
    assert_eq!(app.texture.canvas.get_pixel(0, 0), CLEAR);
    assert_eq!(app.texture.undo_stack.len(), 3);
}

#[test]
fn block_library() {
    let mut app: AtlasApp<u32> = AtlasApp::new();
    app.texture.canvas.set_pixel(0, 0, RED);
    app.save_current_as_block();
    assert_eq!(app.status, "Saved current texture as 'block_1'");
    app.set_block_texture(0, 7);
    assert_eq!(app.block_types[0].texture, Some(7));
    app.resize_texture_canvas(8);
    app.save_current_as_block();
    assert_eq!(app.block_types[1].name, "block_2");
    app.load_block_into_canvas(0);
    assert_eq!(app.status, "Loaded block 'block_1' into canvas");
    assert_eq!(app.texture.canvas_size_setting, 16);
    assert_eq!(app.texture.canvas.get_pixel(0, 0), RED);
    app.load_block_into_canvas(9);
    assert_eq!(app.status, "Loaded block 'block_1' into canvas");
    app.delete_block(0);
    assert_eq!(app.status, "Deleted block 'block_1'");
    assert_eq!(app.block_types.len(), 1);
    assert_eq!(app.block_types[0].name, "block_2");
    app.delete_block(5);
    assert_eq!(app.block_types.len(), 1);
}

#[test]
fn default_atlas_is_sixteen_cells_of_sixty_four_pixels() {
    let mut app: AtlasApp<u32> = AtlasApp::new();
    // an image of another size is scaled to the 64 x 64 cell
    app.load_image_into_cell(0, &Bitmap::filled(10, 10, GREEN), "grass.png".to_string());
    assert_eq!(app.status, "Loaded 'grass.png' into cell [0 , 0]");
    let img = app.grid.cell(0).image.as_ref().unwrap();
    assert_eq!((img.width(), img.height()), (64, 64));
    let (atlas, data) = app.build_atlas();
    assert_eq!((atlas.width(), atlas.height()), (1024, 1024));
    assert_eq!(data.cell_size, 64);
    assert_eq!(data.grid_size, 16);
    assert_eq!((data.atlas_width, data.atlas_height), (1024, 1024));
    assert_eq!(data.entries.len(), 1);
    let e = &data.entries[0];
    assert_eq!((e.index, e.row, e.col, e.x, e.y, e.width, e.height), (0, 0, 0, 0, 0, 64, 64));
    assert_eq!(e.source_file, "grass.png");
}

#[test]
fn put_cell_image_as_given() {
    let mut app = small_app(3, 2);
    app.put_cell_image(5, Bitmap::filled(7, 1, RED), "odd.png".to_string());
    assert_eq!(app.status, "Loaded 'odd.png' into cell [1 , 2]");
    let img = app.grid.cell(5).image.as_ref().unwrap();
    assert_eq!((img.width(), img.height()), (7, 1));
    assert!(app.grid.cell(5).texture.is_none());
}

#[test]
fn default_app_starts_empty() {
    let app: AtlasApp<u32> = AtlasApp::default();
    assert_eq!(app.grid.grid_size(), 16);
    assert_eq!(app.filled_count(), 0);
    assert!(app.status_kind == StatusKind::Info);
    assert!(app.block_types.is_empty());
}

#[test]
fn grow_then_shrink_gives_the_grid_back() {
    let mut app = small_app(3, 2);
    app.load_image_into_cell(0, &Bitmap::filled(2, 2, RED), "a.png".to_string());
    app.load_image_into_cell(8, &Bitmap::filled(2, 2, GREEN), "b.png".to_string());
    app.resize_grid(5);
    app.resize_grid(3);
    assert_eq!(app.grid.len(), 9);
    assert_eq!(app.filled_count(), 2);
    assert_eq!(app.grid.cell(0).source_file, "a.png");
    assert_eq!(app.grid.cell(8).source_file, "b.png");
    assert_eq!(app.grid.cell(8).image.as_ref().unwrap().get_pixel(1, 1), GREEN);
}

#[test]
fn save_then_load_into_the_same_app() {
    let mut app = small_app(2, 3);
    app.load_image_into_cell(3, &Bitmap::filled(3, 3, RED), "r.png".to_string());
    let (atlas, data) = app.build_atlas();
    app.load_atlas(&data, &atlas, "x.json".to_string());
    assert_eq!(app.grid.grid_size(), 2);
    assert_eq!(app.filled_count(), 1);
    assert_eq!(app.grid.cell(3).image.as_ref().unwrap().to_rgba(), Bitmap::filled(3, 3, RED).to_rgba());
    assert_eq!(app.grid.cell(3).source_file, "r.png");
}

#[test]
fn empty_atlas_of_cell_size_zero_round_trips() {
    let mut app = small_app(2, 0);
    let (atlas, data) = app.build_atlas();
    assert_eq!((atlas.width(), atlas.height()), (0, 0));
    app.load_atlas(&data, &atlas, "z.json".to_string());
    assert_eq!(app.status, "Loaded 'z.json'  --  2x2 grid,  0 tiles restored");
    assert_eq!(app.filled_count(), 0);
}
