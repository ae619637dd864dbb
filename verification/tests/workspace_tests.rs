use atlas_maker::bitmap::Bitmap;
use atlas_maker::color::Color;
use atlas_maker::workspace::{ShortcutKey, TextureWorkspace, Tool, MAX_UNDO};

const CLEAR: Color = Color { r: 0, g: 0, b: 0, a: 0 };
const RED: Color = Color { r: 255, g: 0, b: 0, a: 255 };

#[test]
fn fresh_editor() {
    let ws = TextureWorkspace::new();
    assert_eq!(ws.canvas.width(), 16);
    assert_eq!(ws.canvas.height(), 16);
    assert_eq!(ws.brush_color, Color { r: 205, g: 214, b: 244, a: 255 });
    assert!(ws.tool == Tool::Brush);
    assert_eq!(ws.canvas_size_setting, 16);
    assert!(ws.show_grid && !ws.mirror_x && !ws.mirror_y);
    assert!(ws.undo_stack.is_empty() && ws.redo_stack.is_empty());
    let d = TextureWorkspace::default();
    assert_eq!(d.canvas.to_rgba(), ws.canvas.to_rgba());
}

#[test]
fn brush_and_eraser_stamps() {
    let mut ws = TextureWorkspace::new();
    ws.brush_color = RED;
    ws.stamp(3, 4);
    assert_eq!(ws.canvas.get_pixel(3, 4), RED);
    ws.tool = Tool::Eraser;
    ws.stamp(3, 4);
    assert_eq!(ws.canvas.get_pixel(3, 4), CLEAR);
    ws.tool = Tool::Fill;
    ws.stamp(1, 1);
    assert_eq!(ws.canvas.get_pixel(1, 1), CLEAR);
}

#[test]
fn mirrored_line() {
    let mut ws = TextureWorkspace::new();
    ws.brush_color = RED;
    ws.mirror_x = true;
    ws.stamp_line(0, 0, 2, 0);
    for x in [0u32, 1, 2, 13, 14, 15] {
        assert_eq!(ws.canvas.get_pixel(x, 0), RED, "x = {}", x);
    }
    assert_eq!(ws.canvas.get_pixel(3, 0), CLEAR);
}

#[test]
fn eyedropper_takes_opaque_and_transparent_colors() {
    let mut ws = TextureWorkspace::new();
    ws.canvas.set_pixel(1, 1, Color { r: 10, g: 20, b: 30, a: 255 });
    ws.pick_color(1, 1);
    assert_eq!(ws.brush_color, Color { r: 10, g: 20, b: 30, a: 255 });
    ws.canvas.set_pixel(2, 2, Color { r: 10, g: 20, b: 30, a: 0 });
    ws.pick_color(2, 2);
    assert_eq!(ws.brush_color, CLEAR);
    ws.brush_color = RED;
    ws.pick_color(99, 0);
    assert_eq!(ws.brush_color, RED);
}

#[test]
fn eyedropper_premultiplies_half_alpha() {
    let mut ws = TextureWorkspace::new();
    ws.canvas.set_pixel(0, 0, Color { r: 255, g: 255, b: 255, a: 128 });
    ws.pick_color(0, 0);
    let expected = egui::Color32::from_rgba_unmultiplied(255, 255, 255, 128).to_array();
    assert_eq!(ws.brush_color, Color { r: expected[0], g: expected[1], b: expected[2], a: expected[3] });
    assert_eq!(ws.brush_color.a, 128);
    assert!(ws.brush_color.r < 255);
}

#[test]
fn brush_from_hex_keeps_alpha() {
    let mut ws = TextureWorkspace::new();
    ws.set_brush_from_hex("#102030");
    assert_eq!(ws.brush_color, Color { r: 0x10, g: 0x20, b: 0x30, a: 255 });
    ws.set_brush_from_hex("nonsense");
    assert_eq!(ws.brush_color, Color { r: 0x10, g: 0x20, b: 0x30, a: 255 });
}

#[test]
fn undo_and_redo_an_edit() {
    let mut ws = TextureWorkspace::new();
    ws.brush_color = RED;
    ws.push_undo();
    ws.stamp(0, 0);
    assert_eq!(ws.undo_stack.len(), 1);
    ws.undo();
    assert_eq!(ws.canvas.get_pixel(0, 0), CLEAR);
    assert_eq!(ws.undo_stack.len(), 0);
    assert_eq!(ws.redo_stack.len(), 1);
    ws.redo();
    assert_eq!(ws.canvas.get_pixel(0, 0), RED);
    assert_eq!(ws.undo_stack.len(), 1);
    assert_eq!(ws.redo_stack.len(), 0);
}

#[test]
fn undo_with_empty_history_does_nothing() {
    let mut ws = TextureWorkspace::new();
    ws.canvas.set_pixel(5, 5, RED);
    ws.undo();
    ws.redo();
    assert_eq!(ws.canvas.get_pixel(5, 5), RED);
}

#[test]
fn new_edit_forgets_redo() {
    let mut ws = TextureWorkspace::new();
    ws.push_undo();
    ws.undo();
    assert_eq!(ws.redo_stack.len(), 1);
    ws.push_undo();
    assert_eq!(ws.redo_stack.len(), 0);
}

#[test]
fn undo_history_is_capped() {
    let mut ws = TextureWorkspace::new();
    for i in 0..(MAX_UNDO + 10) {
        ws.canvas.set_pixel(0, 0, Color { r: i as u8, g: 0, b: 0, a: 255 });
        ws.push_undo();
    }
    assert_eq!(ws.undo_stack.len(), MAX_UNDO);
    // the oldest saved canvases were dropped
    assert_eq!(ws.undo_stack[0].get_pixel(0, 0).r, 10);
}

#[test]
fn resize_canvas_keeps_overlap() {
    let mut ws = TextureWorkspace::new();
    ws.canvas.set_pixel(3, 3, RED);
    ws.canvas.set_pixel(12, 12, RED);
    ws.resize_canvas(8);
    assert_eq!(ws.canvas.width(), 8);
    assert_eq!(ws.canvas_size_setting, 8);
    assert_eq!(ws.canvas.get_pixel(3, 3), RED);
    assert_eq!(ws.undo_stack.len(), 1);
    ws.resize_canvas(32);
    assert_eq!(ws.canvas.width(), 32);
    assert_eq!(ws.canvas.get_pixel(3, 3), RED);
    assert_eq!(ws.canvas.get_pixel(12, 12), CLEAR);
    ws.undo();
    ws.undo();
    assert_eq!(ws.canvas.get_pixel(12, 12), RED);
}

#[test]
fn flood_fill_uses_brush() {
    let mut ws = TextureWorkspace::new();
    ws.brush_color = RED;
    ws.flood_fill(0, 0);
    assert_eq!(ws.canvas.get_pixel(15, 15), RED);
}

#[test]
fn shortcuts() {
    let mut ws = TextureWorkspace::new();
    ws.handle_shortcut(ShortcutKey::E, false, false);
    assert!(ws.tool == Tool::Eraser);
    ws.handle_shortcut(ShortcutKey::G, false, false);
    assert!(ws.tool == Tool::Fill);
    ws.handle_shortcut(ShortcutKey::I, false, false);
    assert!(ws.tool == Tool::Eyedropper);
    ws.handle_shortcut(ShortcutKey::B, true, false);
    assert!(ws.tool == Tool::Brush);
    ws.handle_shortcut(ShortcutKey::M, false, false);
    assert!(ws.mirror_x);
    ws.handle_shortcut(ShortcutKey::X, true, false);
    assert!(!ws.mirror_y);
    ws.handle_shortcut(ShortcutKey::X, false, false);
    assert!(ws.mirror_y);
    ws.handle_shortcut(ShortcutKey::H, false, false);
    assert!(!ws.show_grid);
    ws.brush_color = RED;
    ws.push_undo();
    ws.stamp(1, 1);
    ws.handle_shortcut(ShortcutKey::Z, false, false);
    assert_eq!(ws.canvas.get_pixel(1, 1), RED);
    ws.handle_shortcut(ShortcutKey::Z, true, false);
    assert_eq!(ws.canvas.get_pixel(1, 1), CLEAR);
    ws.handle_shortcut(ShortcutKey::Z, true, true);
    assert_eq!(ws.canvas.get_pixel(1, 1), RED);
    ws.handle_shortcut(ShortcutKey::Z, true, false);
    ws.handle_shortcut(ShortcutKey::Y, true, false);
    assert_eq!(ws.canvas.get_pixel(1, 1), RED);
}

#[test]
fn replace_canvas_saves_for_undo() {
    let mut ws = TextureWorkspace::new();
    ws.replace_canvas(Bitmap::filled(4, 4, RED));
    assert_eq!(ws.canvas.width(), 4);
    ws.undo();
    assert_eq!(ws.canvas.width(), 16);
    assert_eq!(ws.canvas.get_pixel(0, 0), CLEAR);
}

#[test]
fn brush_from_bad_hex_stays() {
    let mut ws = TextureWorkspace::new();
    let before = ws.brush_color;
    ws.set_brush_from_hex("\u{20ac}");
    ws.set_brush_from_hex("a\u{e9}");
    ws.set_brush_from_hex("+f+f+f");
    assert_eq!(ws.brush_color, before);
}

#[test]
fn pointer_brush_stroke() {
    let mut ws = TextureWorkspace::new();
    ws.brush_color = RED;
    // press on (0, 0): saved for undo, pixel painted
    ws.pointer_step(Some((0, 0)), true, true, false);
    assert_eq!(ws.undo_stack.len(), 1);
    assert_eq!(ws.last_pixel, Some((0, 0)));
    assert_eq!(ws.canvas.get_pixel(0, 0), RED);
    // drag to (3, 0): the line between is painted, no new undo entry
    ws.pointer_step(Some((3, 0)), false, true, false);
    assert_eq!(ws.undo_stack.len(), 1);
    for x in 0..4u32 {
        assert_eq!(ws.canvas.get_pixel(x, 0), RED);
    }
    assert_eq!(ws.canvas.get_pixel(4, 0), CLEAR);
    // release ends the stroke
    ws.pointer_step(Some((3, 0)), false, false, true);
    assert_eq!(ws.last_pixel, None);
    // hovering does nothing
    ws.pointer_step(Some((9, 9)), false, false, false);
    assert_eq!(ws.canvas.get_pixel(9, 9), CLEAR);
    // off the canvas nothing is painted
    ws.pointer_step(Some((99, 0)), true, true, false);
    assert_eq!(ws.undo_stack.len(), 1);
    ws.undo();
    assert_eq!(ws.canvas.get_pixel(0, 0), CLEAR);
}

#[test]
fn pointer_fill_and_pick() {
    let mut ws = TextureWorkspace::new();
    ws.brush_color = RED;
    ws.tool = Tool::Fill;
    ws.pointer_step(Some((5, 5)), false, true, false);
    assert_eq!(ws.canvas.get_pixel(5, 5), CLEAR);
    ws.pointer_step(Some((5, 5)), true, true, false);
    assert_eq!(ws.undo_stack.len(), 1);
    assert_eq!(ws.canvas.get_pixel(0, 15), RED);
    ws.tool = Tool::Eyedropper;
    ws.brush_color = CLEAR;
    ws.pointer_step(Some((2, 2)), true, false, false);
    assert_eq!(ws.brush_color, CLEAR);
    ws.pointer_step(Some((2, 2)), false, true, false);
    assert_eq!(ws.brush_color, RED);
    assert_eq!(ws.undo_stack.len(), 1);
}

#[test]
fn resize_canvas_size_taken_as_u32() {
    if usize::BITS > 32 {
        let mut ws = TextureWorkspace::new();
        let n = ((1u64 << 32) + 4) as usize;
        ws.resize_canvas(n);
        assert_eq!(ws.canvas.width(), 4);
        assert_eq!(ws.canvas_size_setting, n);
    }
}

#[test]
fn pick_then_stamp_copies_an_opaque_pixel() {
    let mut ws = TextureWorkspace::new();
    let c = Color { r: 12, g: 34, b: 56, a: 255 };
    ws.canvas.set_pixel(1, 2, c);
    ws.pick_color(1, 2);
    ws.stamp(7, 9);
    assert_eq!(ws.brush_color, c);
    assert_eq!(ws.canvas.get_pixel(7, 9), c);
    assert_eq!(ws.canvas.get_pixel(1, 2), c);
    assert_eq!(ws.canvas.get_pixel(7, 8), CLEAR);
}
