use vstd::prelude::*;

use crate::bitmap::{Bitmap, BitmapView, in_rect};
use crate::color::Color;
use crate::fill::{fill_path, flood_fill, in_region, spec_flood_fill};
use crate::line::{law_line_connects, line_points};
use crate::outside::{color_from_unmultiplied, unmultiplied_ok};
use crate::text::{hex_color_spec, parse_hex_color};
use crate::paint::{law_stamp_pixels, lemma_stamp_all_at, mirror_points, paint_points, spec_stamp, stamp_all};

verus! {

/// How many canvases the undo history keeps at most.
pub const MAX_UNDO: usize = 50;

/// The painting tools of the texture editor.
#[derive(Clone, Copy, Debug, PartialEq, Eq, Structural)]
pub enum Tool {
    Brush,
    Eraser,
    Fill,
    Eyedropper,
}

impl Tool {
    /// The tool's name as the tool palette shows it.
    pub fn label(&self) -> (s: &'static str)
        ensures
            *self == Tool::Brush ==> s@ == "Brush"@,
            *self == Tool::Eraser ==> s@ == "Eraser"@,
            *self == Tool::Fill ==> s@ == "Fill"@,
            *self == Tool::Eyedropper ==> s@ == "Pick"@,
    {
        match self {
            Tool::Brush => "Brush",
            Tool::Eraser => "Eraser",
            Tool::Fill => "Fill",
            Tool::Eyedropper => "Pick",
        }
    }

    /// The emoji shown before the tool's name.
    pub fn icon(&self) -> (s: &'static str)
        ensures
            *self == Tool::Brush ==> s@ == "\u{1f58c}"@,
            *self == Tool::Eraser ==> s@ == "\u{1f9f9}"@,
            *self == Tool::Fill ==> s@ == "\u{1f9a7}"@,
            *self == Tool::Eyedropper ==> s@ == "\u{1f4a7}"@,
    {
        match self {
            Tool::Brush => "\u{1f58c}",
            Tool::Eraser => "\u{1f9f9}",
            Tool::Fill => "\u{1f9a7}",
            Tool::Eyedropper => "\u{1f4a7}",
        }
    }
}

/// The keys the texture editor reacts to.
#[derive(Clone, Copy, Debug, PartialEq, Eq, Structural)]
pub enum ShortcutKey {
    B,
    E,
    G,
    I,
    Z,
    Y,
    M,
    X,
    H,
}

/// The state of the pixel-art editor: the canvas, the brush, the tool, the
/// mirror and grid switches, and the undo and redo histories.
pub struct TextureWorkspace {
    pub canvas: Bitmap,
    pub brush_color: Color,
    pub tool: Tool,
    pub canvas_size_setting: usize,
    pub show_grid: bool,
    pub mirror_x: bool,
    pub mirror_y: bool,
    pub undo_stack: Vec<Bitmap>,
    pub redo_stack: Vec<Bitmap>,
    pub cursor_pixel: Option<(u32, u32)>,
    pub last_pixel: Option<(u32, u32)>,
}

/// The pictures held by a list of bitmaps.
pub open spec fn views(s: Seq<Bitmap>) -> Seq<BitmapView> {
    s.map_values(|b: Bitmap| b@)
}

/// What the editor holds, as mathematical values.
pub struct WorkspaceView {
    pub canvas: BitmapView,
    pub undo: Seq<BitmapView>,
    pub redo: Seq<BitmapView>,
    pub brush_color: Color,
    pub tool: Tool,
    pub canvas_size_setting: usize,
    pub show_grid: bool,
    pub mirror_x: bool,
    pub mirror_y: bool,
    pub cursor_pixel: Option<(u32, u32)>,
    pub last_pixel: Option<(u32, u32)>,
}

impl View for TextureWorkspace {
    type V = WorkspaceView;

    open spec fn view(&self) -> WorkspaceView {
        WorkspaceView {
            canvas: self.canvas@,
            undo: views(self.undo_stack@),
            redo: views(self.redo_stack@),
            brush_color: self.brush_color,
            tool: self.tool,
            canvas_size_setting: self.canvas_size_setting,
            show_grid: self.show_grid,
            mirror_x: self.mirror_x,
            mirror_y: self.mirror_y,
            cursor_pixel: self.cursor_pixel,
            last_pixel: self.last_pixel,
        }
    }
}

/// A canvas resized to `n` by `n`: the overlapping part is kept, the rest is
/// transparent.
pub open spec fn resized_canvas(old: BitmapView, n: nat) -> BitmapView {
    BitmapView {
        width: n,
        height: n,
        pixels: Map::new(
            |p: (int, int)| in_rect(n as int, n as int, p.0, p.1),
            |p: (int, int)|
                if old.contains(p.0, p.1) {
                    old.at(p.0, p.1)
                } else {
                    Color::transparent()
                },
        ),
    }
}

impl WorkspaceView {
    pub open spec fn with_canvas(self, c: BitmapView) -> WorkspaceView {
        WorkspaceView { canvas: c, ..self }
    }

    /// Saves the canvas on the undo history (dropping the oldest entry beyond
    /// `MAX_UNDO`) and forgets the redo history.
    pub open spec fn push_undo(self) -> WorkspaceView {
        let u = self.undo.push(self.canvas);
        WorkspaceView {
            undo: if u.len() > MAX_UNDO {
                u.drop_first()
            } else {
                u
            },
            redo: Seq::empty(),
            ..self
        }
    }

    /// Goes back to the last saved canvas; the current one moves to the redo
    /// history. Nothing happens with an empty undo history.
    pub open spec fn undo(self) -> WorkspaceView {
        if self.undo.len() == 0 {
            self
        } else {
            WorkspaceView {
                canvas: self.undo.last(),
                undo: self.undo.drop_last(),
                redo: self.redo.push(self.canvas),
                ..self
            }
        }
    }

    /// Goes forward to the last undone canvas; the current one moves to the
    /// undo history. Nothing happens with an empty redo history.
    pub open spec fn redo(self) -> WorkspaceView {
        if self.redo.len() == 0 {
            self
        } else {
            WorkspaceView {
                canvas: self.redo.last(),
                redo: self.redo.drop_last(),
                undo: self.undo.push(self.canvas),
                ..self
            }
        }
    }

    /// The color the current tool paints with, if it paints pixels one by one.
    pub open spec fn paint_color(self) -> Option<Color> {
        match self.tool {
            Tool::Brush => Some(self.brush_color),
            Tool::Eraser => Some(Color::transparent()),
            _ => None,
        }
    }

    pub open spec fn stamp(self, cx: int, cy: int) -> WorkspaceView {
        match self.paint_color() {
            Some(c) => self.with_canvas(spec_stamp(self.canvas, c, self.mirror_x, self.mirror_y, cx, cy)),
            None => self,
        }
    }

    pub open spec fn stamp_line(self, x0: int, y0: int, x1: int, y1: int) -> WorkspaceView {
        match self.paint_color() {
            Some(c) => self.with_canvas(
                stamp_all(self.canvas, c, self.mirror_x, self.mirror_y, line_points(x0, y0, x1, y1)),
            ),
            None => self,
        }
    }

    pub open spec fn flood_fill(self, x: int, y: int) -> WorkspaceView {
        self.with_canvas(spec_flood_fill(self.canvas, x, y, self.brush_color))
    }

    /// `after` is this editor once the brush has taken the color of pixel
    /// `(x, y)`, read as an unmultiplied color: only the brush changes, and
    /// it is a color that reading may give; off the canvas nothing changes.
    pub open spec fn picked(self, after: WorkspaceView, x: int, y: int) -> bool {
        if self.canvas.contains(x, y) {
            let c = self.canvas.at(x, y);
            &&& after == WorkspaceView { brush_color: after.brush_color, ..self }
            &&& unmultiplied_ok(after.brush_color, c.r, c.g, c.b, c.a)
        } else {
            after == self
        }
    }

    pub open spec fn resize_canvas(self, n: usize) -> WorkspaceView {
        WorkspaceView {
            canvas: resized_canvas(self.canvas, (n as u32) as nat),
            canvas_size_setting: n,
            ..self.push_undo()
        }
    }

    /// Saves the canvas for undo, then replaces it with `c`.
    pub open spec fn replace_canvas(self, c: BitmapView) -> WorkspaceView {
        self.push_undo().with_canvas(c)
    }

    pub open spec fn shortcut(self, key: ShortcutKey, command: bool, shift: bool) -> WorkspaceView {
        match key {
            ShortcutKey::B => WorkspaceView { tool: Tool::Brush, ..self },
            ShortcutKey::E => WorkspaceView { tool: Tool::Eraser, ..self },
            ShortcutKey::G => WorkspaceView { tool: Tool::Fill, ..self },
            ShortcutKey::I => WorkspaceView { tool: Tool::Eyedropper, ..self },
            ShortcutKey::Z => if command {
                if shift {
                    self.redo()
                } else {
                    self.undo()
                }
            } else {
                self
            },
            ShortcutKey::Y => if command {
                self.redo()
            } else {
                self
            },
            ShortcutKey::M => WorkspaceView { mirror_x: !self.mirror_x, ..self },
            ShortcutKey::X => if !command {
                WorkspaceView { mirror_y: !self.mirror_y, ..self }
            } else {
                self
            },
            ShortcutKey::H => WorkspaceView { show_grid: !self.show_grid, ..self },
        }
    }

    /// The canvas pixel a pointer event acts on: the pixel under the pointer
    /// when it lies on the canvas.
    pub open spec fn pointer_target(self, pixel: Option<(u32, u32)>) -> Option<(int, int)> {
        match pixel {
            Some((x, y)) => if self.canvas.contains(x as int, y as int) {
                Some((x as int, y as int))
            } else {
                None
            },
            None => None,
        }
    }

    /// The editor after one frame of the pointer, apart from a picked brush:
    /// a release ends the stroke; then, on a canvas pixel, the brush and the
    /// eraser save the canvas for undo when the button goes down and, while it
    /// is held, stamp the line from the last stamped pixel (or the pixel
    /// itself at the start of a stroke); the fill tool saves for undo and
    /// fills when the button goes down.
    pub open spec fn pointer_step(
        self,
        pixel: Option<(u32, u32)>,
        pressed: bool,
        down: bool,
        released: bool,
    ) -> WorkspaceView {
        let s = if released {
            WorkspaceView { last_pixel: None, ..self }
        } else {
            self
        };
        match s.pointer_target(pixel) {
            Some((x, y)) => match s.tool {
                Tool::Fill => if pressed {
                    s.push_undo().flood_fill(x, y)
                } else {
                    s
                },
                Tool::Eyedropper => s,
                _ => {
                    let s1 = if pressed {
                        s.push_undo()
                    } else {
                        s
                    };
                    if down {
                        let painted = match s1.last_pixel {
                            Some((lx, ly)) => s1.stamp_line(lx as int, ly as int, x, y),
                            None => s1.stamp(x, y),
                        };
                        WorkspaceView { last_pixel: Some((x as u32, y as u32)), ..painted }
                    } else {
                        s1
                    }
                },
            },
            None => s,
        }
    }

    /// The pixel whose color the eyedropper takes in this frame, if any.
    pub open spec fn pointer_picks(self, pixel: Option<(u32, u32)>, down: bool) -> Option<(int, int)> {
        if down && self.tool == Tool::Eyedropper {
            self.pointer_target(pixel)
        } else {
            None
        }
    }
}

impl TextureWorkspace {
    /// A fresh editor.
    pub fn new() -> (ws: TextureWorkspace)
        ensures
            ws@.canvas == BitmapView::blank(16, 16),
            ws@.undo.len() == 0,
            ws@.redo.len() == 0,
            ws@.brush_color == (Color { r: 205, g: 214, b: 244, a: 255 }),
            ws@.tool == Tool::Brush,
            ws@.canvas_size_setting == 16,
            ws@.show_grid,
            !ws@.mirror_x,
            !ws@.mirror_y,
            ws@.cursor_pixel is None,
            ws@.last_pixel is None,
    {
        let ws = TextureWorkspace {
            canvas: Bitmap::filled(16, 16, Color::clear()),
            brush_color: Color::rgb(205, 214, 244),
            tool: Tool::Brush,
            canvas_size_setting: 16,
            show_grid: true,
            mirror_x: false,
            mirror_y: false,
            undo_stack: Vec::new(),
            redo_stack: Vec::new(),
            cursor_pixel: None,
            last_pixel: None,
        };
        assert(ws@.undo =~= Seq::<BitmapView>::empty());
        assert(ws@.redo =~= Seq::<BitmapView>::empty());
        ws
    }

    /// Reads `hex` as a color (see `parse_hex_color`) and, when it is one,
    /// makes it the brush color, keeping the brush's alpha; otherwise the
    /// brush stays as it was.
    pub fn set_brush_from_hex(&mut self, hex: &str)
        ensures
            match hex_color_spec(hex@) {
                Some((r, g, b)) => {
                    &&& final(self)@ == WorkspaceView { brush_color: final(self)@.brush_color, ..old(self)@ }
                    &&& unmultiplied_ok(final(self)@.brush_color, r, g, b, old(self)@.brush_color.a)
                },
                None => final(self)@ == old(self)@,
            },
    {
        if let Some((r, g, b)) = parse_hex_color(hex) {
            self.brush_color = color_from_unmultiplied(r, g, b, self.brush_color.a);
        }
    }

    /// Saves a copy of the canvas on the undo history, keeping at most
    /// `MAX_UNDO` entries, and clears the redo history.
    pub fn push_undo(&mut self)
        ensures
            final(self)@ == old(self)@.push_undo(),
    {
        let ghost before = self@;
        let snapshot = self.canvas.copy();
        self.undo_stack.push(snapshot);
        if self.undo_stack.len() > MAX_UNDO {
            self.undo_stack.remove(0);
        }
        self.redo_stack.clear();
        proof {
            let u = before.undo.push(before.canvas);
            if u.len() > MAX_UNDO {
                assert(self@.undo =~= u.drop_first());
            } else {
                assert(self@.undo =~= u);
            }
            assert(self@.redo =~= Seq::<BitmapView>::empty());
        }
    }

    /// Steps back to the last saved canvas.
    pub fn undo(&mut self)
        ensures
            final(self)@ == old(self)@.undo(),
    {
        let ghost before = self@;
        if let Some(prev) = self.undo_stack.pop() {
            let mut current = prev;
            std::mem::swap(&mut current, &mut self.canvas);
            self.redo_stack.push(current);
            proof {
                assert(self@.undo =~= before.undo.drop_last());
                assert(self@.redo =~= before.redo.push(before.canvas));
            }
        }
    }

    /// The color the current tool paints with, if it paints pixels one by one.
    fn paint_color(&self) -> (c: Option<Color>)
        ensures
            c == self@.paint_color(),
    {
        match self.tool {
            Tool::Brush => Some(self.brush_color),
            Tool::Eraser => Some(Color::clear()),
            _ => None,
        }
    }

    /// Colors exactly the pixel `(cx, cy)`, plus its mirrored counterparts when
    /// mirroring is on, with the brush (or clears them with the eraser); other
    /// tools leave the canvas alone.
    pub fn stamp(&mut self, cx: u32, cy: u32)
        requires
            cx <= i32::MAX,
            cy <= i32::MAX,
            old(self)@.canvas.width <= i32::MAX,
            old(self)@.canvas.height <= i32::MAX,
        ensures
            final(self)@ == old(self)@.stamp(cx as int, cy as int),
    {
        if let Some(c) = self.paint_color() {
            crate::paint::stamp(&mut self.canvas, c, self.mirror_x, self.mirror_y, cx, cy);
        }
    }

    /// Stamps along the Bresenham line from `(x0, y0)` to `(x1, y1)`, so a
    /// fast drag leaves no gaps.
    pub fn stamp_line(&mut self, x0: u32, y0: u32, x1: u32, y1: u32)
        requires
            x0 <= i32::MAX,
            y0 <= i32::MAX,
            x1 <= i32::MAX,
            y1 <= i32::MAX,
            old(self)@.canvas.width <= i32::MAX,
            old(self)@.canvas.height <= i32::MAX,
        ensures
            final(self)@ == old(self)@.stamp_line(x0 as int, y0 as int, x1 as int, y1 as int),
    {
        if let Some(c) = self.paint_color() {
            crate::paint::stamp_line(&mut self.canvas, c, self.mirror_x, self.mirror_y, x0, y0, x1, y1);
        }
    }

    /// Flood-fills the region around `(x, y)` with the brush color.
    pub fn flood_fill(&mut self, x: u32, y: u32)
        ensures
            final(self)@ == old(self)@.flood_fill(x as int, y as int),
            old(self)@.canvas.contains(x as int, y as int) ==> final(self)@.canvas.at(x as int, y as int)
                == old(self)@.brush_color,
    {
        let ghost before = self@;
        flood_fill(&mut self.canvas, x, y, self.brush_color);
        proof {
            if before.canvas.contains(x as int, y as int) {
                law_editor_fill(before, x as int, y as int, x as int, y as int);
            }
        }
    }

    /// Takes the brush color from the canvas at `(x, y)`.
    pub fn pick_color(&mut self, x: u32, y: u32)
        ensures
            old(self)@.picked(final(self)@, x as int, y as int),
    {
        if x < self.canvas.width() && y < self.canvas.height() {
            let px = self.canvas.get_pixel(x, y);
            self.brush_color = color_from_unmultiplied(px.r, px.g, px.b, px.a);
        }
    }

    /// Saves the canvas for undo, then makes it `new_size` by `new_size`
    /// (the size taken as a `u32`), keeping the overlapping pixels.
    pub fn resize_canvas(&mut self, new_size: usize)
        requires
            Bitmap::byte_len((new_size as u32) as int, (new_size as u32) as int) <= usize::MAX,
        ensures
            final(self)@ == old(self)@.resize_canvas(new_size),
    {
        self.push_undo();
        let n = new_size as u32;
        let mut fresh = Bitmap::new(n, n);
        let ow = self.canvas.width();
        let oh = self.canvas.height();
        let copy_w = if ow < n {
            ow
        } else {
            n
        };
        let copy_h = if oh < n {
            oh
        } else {
            n
        };
        let ghost old_canvas = self.canvas@;
        let mut y: u32 = 0;
        while y < copy_h
            invariant
                y <= copy_h,
                copy_h <= n,
                copy_w <= n,
                copy_w <= old_canvas.width,
                copy_h <= old_canvas.height,
                copy_w == n || copy_w == old_canvas.width,
                copy_h == n || copy_h == old_canvas.height,
                self.canvas@ == old_canvas,
                fresh@.width == n,
                fresh@.height == n,
                forall|px: int, py: int|
                    #[trigger] fresh@.contains(px, py) ==> fresh@.at(px, py) == if py < y && old_canvas.contains(
                        px,
                        py,
                    ) {
                        old_canvas.at(px, py)
                    } else {
                        Color::transparent()
                    },
            decreases copy_h - y,
        {
            let mut x: u32 = 0;
            while x < copy_w
                invariant
                    y < copy_h,
                    x <= copy_w,
                    copy_h <= n,
                    copy_w <= n,
                    copy_w <= old_canvas.width,
                    copy_h <= old_canvas.height,
                    copy_w == n || copy_w == old_canvas.width,
                    copy_h == n || copy_h == old_canvas.height,
                    self.canvas@ == old_canvas,
                    fresh@.width == n,
                    fresh@.height == n,
                    forall|px: int, py: int|
                        #[trigger] fresh@.contains(px, py) ==> fresh@.at(px, py) == if (py < y || (py == y
                            && px < x)) && old_canvas.contains(px, py) {
                            old_canvas.at(px, py)
                        } else {
                            Color::transparent()
                        },
                decreases copy_w - x,
            {
                let c = self.canvas.get_pixel(x, y);
                let ghost before = fresh@;
                fresh.set_pixel(x, y, c);
                assert forall|px: int, py: int| #[trigger] fresh@.contains(px, py) implies fresh@.at(px, py)
                    == if (py < y || (py == y && px < x + 1)) && old_canvas.contains(px, py) {
                    old_canvas.at(px, py)
                } else {
                    Color::transparent()
                } by {
                    if (px, py) != (x as int, y as int) {
                        assert(before.contains(px, py));
                    }
                }
                x = x + 1;
            }
            assert forall|px: int, py: int| #[trigger] fresh@.contains(px, py) implies fresh@.at(px, py)
                == if py < y + 1 && old_canvas.contains(px, py) {
                old_canvas.at(px, py)
            } else {
                Color::transparent()
            } by {
                if py == y && old_canvas.contains(px, py) {
                    assert(px < copy_w);
                }
            }
            y = y + 1;
        }
        let ghost pushed = self@;
        self.canvas = fresh;
        self.canvas_size_setting = new_size;
        proof {
            let expected = resized_canvas(old_canvas, n as nat);
            self.canvas.lemma_wf();
            assert forall|p: (int, int)| #[trigger] self.canvas@.pixels.dom().contains(p) implies self.canvas@.pixels[p]
                == expected.pixels[p] by {
                if old_canvas.contains(p.0, p.1) {
                    assert(p.1 < copy_h);
                }
                assert(self.canvas@.contains(p.0, p.1));
            }
            assert(self.canvas@.pixels =~= expected.pixels);
        }
    }

    /// Saves the canvas for undo, then puts `image` in its place (a cleared,
    /// imported or library canvas).
    pub fn replace_canvas(&mut self, image: Bitmap)
        ensures
            final(self)@ == old(self)@.replace_canvas(image@),
    {
        self.push_undo();
        self.canvas = image;
    }

    /// Reacts to a key of the editor: B, E, G and I pick a tool; Ctrl+Z undoes
    /// (Ctrl+Shift+Z redoes); Ctrl+Y redoes; M toggles mirroring across the
    /// vertical axis; X (without Ctrl) across the horizontal axis; H toggles
    /// the pixel grid.
    pub fn handle_shortcut(&mut self, key: ShortcutKey, command: bool, shift: bool)
        ensures
            final(self)@ == old(self)@.shortcut(key, command, shift),
    {
        match key {
            ShortcutKey::B => self.tool = Tool::Brush,
            ShortcutKey::E => self.tool = Tool::Eraser,
            ShortcutKey::G => self.tool = Tool::Fill,
            ShortcutKey::I => self.tool = Tool::Eyedropper,
            ShortcutKey::Z => {
                if command {
                    if shift {
                        self.redo();
                    } else {
                        self.undo();
                    }
                }
            },
            ShortcutKey::Y => {
                if command {
                    self.redo();
                }
            },
            ShortcutKey::M => self.mirror_x = !self.mirror_x,
            ShortcutKey::X => {
                if !command {
                    self.mirror_y = !self.mirror_y;
                }
            },
            ShortcutKey::H => self.show_grid = !self.show_grid,
        }
    }

    /// Steps forward to the last undone canvas.
    pub fn redo(&mut self)
        ensures
            final(self)@ == old(self)@.redo(),
    {
        let ghost before = self@;
        if let Some(next) = self.redo_stack.pop() {
            let mut current = next;
            std::mem::swap(&mut current, &mut self.canvas);
            self.undo_stack.push(current);
            proof {
                assert(self@.redo =~= before.redo.drop_last());
                assert(self@.undo =~= before.undo.push(before.canvas));
            }
        }
    }

    /// Reacts to one frame of the pointer over the canvas: `pixel` is the
    /// canvas pixel under the pointer (`None` off the picture), and the three
    /// flags say whether the main button went down, is held, or came up in
    /// this frame. See `WorkspaceView::pointer_step`; the eyedropper takes the
    /// color of the pixel while the button is held.
    pub fn pointer_step(&mut self, pixel: Option<(u32, u32)>, pressed: bool, down: bool, released: bool)
        requires
            old(self)@.canvas.width <= i32::MAX,
            old(self)@.canvas.height <= i32::MAX,
            old(self)@.last_pixel matches Some((lx, ly)) ==> lx <= i32::MAX && ly <= i32::MAX,
        ensures
            match old(self)@.pointer_step(pixel, pressed, down, released).pointer_picks(pixel, down) {
                Some((x, y)) => old(self)@.pointer_step(pixel, pressed, down, released).picked(final(self)@, x, y),
                None => final(self)@ == old(self)@.pointer_step(pixel, pressed, down, released),
            },
            (pressed && old(self)@.tool != Tool::Eyedropper && match pixel {
                Some((px, py)) => old(self)@.canvas.contains(px as int, py as int),
                None => false,
            }) ==> final(self)@.undo.len() > 0 && final(self)@.undo.last() == old(self)@.canvas,
            !pressed ==> final(self)@.undo == old(self)@.undo && final(self)@.redo == old(self)@.redo,
            (down && (old(self)@.tool == Tool::Brush || old(self)@.tool == Tool::Eraser)) ==> match pixel {
                Some((px, py)) => old(self)@.canvas.contains(px as int, py as int) ==> {
                    &&& final(self)@.canvas.at(px as int, py as int) == if old(self)@.tool == Tool::Brush {
                        old(self)@.brush_color
                    } else {
                        Color::transparent()
                    }
                    &&& final(self)@.last_pixel == pixel
                },
                None => true,
            },
    {
        proof {
            law_press_saves_for_undo(self@, pixel, pressed, down, released);
            if down && (self@.tool == Tool::Brush || self@.tool == Tool::Eraser) {
                if let Some((px, py)) = pixel {
                    if self@.canvas.contains(px as int, py as int) {
                        law_drag_paints(self@, px, py, pressed, released);
                    }
                }
            }
        }
        if released {
            self.last_pixel = None;
        }
        if let Some((x, y)) = pixel {
            if x < self.canvas.width() && y < self.canvas.height() {
                match self.tool {
                    Tool::Fill => {
                        if pressed {
                            self.push_undo();
                            self.flood_fill(x, y);
                        }
                    },
                    Tool::Eyedropper => {
                        if down {
                            self.pick_color(x, y);
                        }
                    },
                    _ => {
                        if pressed {
                            self.push_undo();
                        }
                        if down {
                            match self.last_pixel {
                                Some((lx, ly)) => self.stamp_line(lx, ly, x, y),
                                None => self.stamp(x, y),
                            }
                            self.last_pixel = Some((x, y));
                        }
                    },
                }
            }
        }
    }
}


impl Default for TextureWorkspace {
    /// A fresh editor, as `TextureWorkspace::new`.
    fn default() -> (ws: TextureWorkspace)
        ensures
            ws@.canvas == BitmapView::blank(16, 16),
            ws@.undo.len() == 0,
            ws@.redo.len() == 0,
            ws@.brush_color == (Color { r: 205, g: 214, b: 244, a: 255 }),
            ws@.tool == Tool::Brush,
            ws@.canvas_size_setting == 16,
            ws@.show_grid,
            !ws@.mirror_x,
            !ws@.mirror_y,
            ws@.cursor_pixel is None,
            ws@.last_pixel is None,
    {
        TextureWorkspace::new()
    }
}

/// Undo is reversed by redo: after an undo, a redo brings back the canvas and
/// both histories exactly.
pub proof fn law_redo_reverses_undo(v: WorkspaceView)
    requires
        v.undo.len() > 0,
    ensures
        v.undo().redo() == v,
{
    assert(v.undo().redo().undo =~= v.undo);
    assert(v.undo().redo().redo =~= v.redo);
}

/// Redo is reversed by undo.
pub proof fn law_undo_reverses_redo(v: WorkspaceView)
    requires
        v.redo.len() > 0,
    ensures
        v.redo().undo() == v,
{
    assert(v.redo().undo().undo =~= v.undo);
    assert(v.redo().undo().redo =~= v.redo);
}

/// An edit saved with `push_undo` can be taken back: whatever canvas the edit
/// made, undo returns the canvas from before it, and redo returns the edit.
pub proof fn law_undo_takes_back_an_edit(v: WorkspaceView, edited: BitmapView)
    ensures
        v.replace_canvas(edited).undo().canvas == v.canvas,
        v.replace_canvas(edited).undo().redo().canvas == edited,
{
}

/// The two histories together never hold more than `MAX_UNDO` canvases: each
/// operation on the history keeps that bound.
pub proof fn law_history_bounded(v: WorkspaceView, key: ShortcutKey, command: bool, shift: bool, c: BitmapView, n: usize)
    requires
        v.undo.len() + v.redo.len() <= MAX_UNDO,
    ensures
        v.push_undo().undo.len() + v.push_undo().redo.len() <= MAX_UNDO,
        v.undo().undo.len() + v.undo().redo.len() <= MAX_UNDO,
        v.redo().undo.len() + v.redo().redo.len() <= MAX_UNDO,
        v.shortcut(key, command, shift).undo.len() + v.shortcut(key, command, shift).redo.len() <= MAX_UNDO,
        v.replace_canvas(c).undo.len() + v.replace_canvas(c).redo.len() <= MAX_UNDO,
        v.resize_canvas(n).undo.len() + v.resize_canvas(n).redo.len() <= MAX_UNDO,
{
}


/// The eyedropper and the brush copy a pixel: with no mirroring, picking an
/// opaque pixel and then stamping the brush elsewhere gives that pixel's
/// color to the stamped pixel, and changes nothing else of the canvas.
pub proof fn law_pick_then_stamp(v: WorkspaceView, picked: WorkspaceView, x: int, y: int, x2: int, y2: int)
    requires
        v.tool == Tool::Brush,
        !v.mirror_x,
        !v.mirror_y,
        v.canvas.contains(x, y),
        v.canvas.at(x, y).a == 255,
        v.picked(picked, x, y),
    ensures
        picked.brush_color == v.canvas.at(x, y),
        picked.stamp(x2, y2) == (WorkspaceView {
            canvas: v.canvas.with_pixel(x2, y2, v.canvas.at(x, y)),
            brush_color: v.canvas.at(x, y),
            ..v
        }),
{
    let c = v.canvas.at(x, y);
    let pts = mirror_points(v.canvas.width as int, v.canvas.height as int, x2, y2, false, false);
    assert(pts =~= seq![(x2, y2)]);
    let once = v.canvas.with_pixel(x2, y2, c);
    assert(pts.drop_first() =~= Seq::<(int, int)>::empty());
    assert(paint_points(v.canvas, pts, c) == paint_points(once, pts.drop_first(), c));
    assert(paint_points(once, Seq::<(int, int)>::empty(), c) == once);
}


/// A stamp in the editor, pixel by pixel: with the brush or the eraser, the
/// pixel `(cx, cy)` (column, row) and, as the mirror switches say, its
/// mirrors across the vertical axis `(w - 1 - cx, cy)`, the horizontal axis
/// `(cx, h - 1 - cy)` and both, take the brush color (the eraser: transparent
/// black) where they lie on the canvas; every other pixel, and everything else
/// of the editor, stays. The fill tool and the eyedropper do not stamp.
pub proof fn law_editor_stamp(v: WorkspaceView, cx: int, cy: int, x: int, y: int)
    ensures
        ({
            let r = v.stamp(cx, cy);
            let mx = v.canvas.width - 1 - cx;
            let my = v.canvas.height - 1 - cy;
            let hit = (x == cx && y == cy) || (v.mirror_x && x == mx && y == cy) || (v.mirror_y && x == cx
                && y == my) || (v.mirror_x && v.mirror_y && x == mx && y == my);
            let paints = v.tool == Tool::Brush || v.tool == Tool::Eraser;
            let color = if v.tool == Tool::Brush {
                v.brush_color
            } else {
                Color::transparent()
            };
            &&& r == WorkspaceView { canvas: r.canvas, ..v }
            &&& r.canvas.width == v.canvas.width
            &&& r.canvas.height == v.canvas.height
            &&& r.canvas.at(x, y) == if paints && hit && v.canvas.contains(x, y) {
                color
            } else {
                v.canvas.at(x, y)
            }
        }),
{
    match v.paint_color() {
        Some(c) => law_stamp_pixels(v.canvas, c, v.mirror_x, v.mirror_y, cx, cy, x, y),
        None => {},
    }
}

/// The editor's fill at `(x, y)` (column `x`, row `y`) on the canvas: that
/// pixel, and every pixel joined to it side by side through pixels of its
/// color, take the brush color; every other pixel, those of another color
/// among them, keeps its own; the canvas keeps its size and nothing else of
/// the editor changes.
pub proof fn law_editor_fill(v: WorkspaceView, x: int, y: int, px: int, py: int)
    requires
        v.canvas.contains(x, y),
    ensures
        ({
            let r = v.flood_fill(x, y);
            &&& r == WorkspaceView { canvas: r.canvas, ..v }
            &&& r.canvas.width == v.canvas.width
            &&& r.canvas.height == v.canvas.height
            &&& r.canvas.at(x, y) == v.brush_color
            &&& (v.canvas.contains(px, py) && in_region(v.canvas, (x, y), (px, py))) ==> r.canvas.at(px, py)
                == v.brush_color
            &&& (v.canvas.contains(px, py) && v.canvas.at(px, py) != v.canvas.at(x, y)) ==> r.canvas.at(px, py)
                == v.canvas.at(px, py)
            &&& (v.canvas.contains(px, py) && !in_region(v.canvas, (x, y), (px, py))) ==> r.canvas.at(px, py)
                == v.canvas.at(px, py)
        }),
{
    let c = v.canvas;
    let t = c.at(x, y);
    let s = (x, y);
    let path1 = seq![s];
    assert(path1[0] == s && path1.last() == s);
    assert(fill_path(c, c.at(s.0, s.1), path1));
    assert(in_region(c, s, s));
    if in_region(c, s, (px, py)) {
        let path = choose|path: Seq<(int, int)>|
            #[trigger] fill_path(c, t, path) && path[0] == s && path.last() == (px, py);
        let k = path.len() - 1;
        assert(path[k] == (px, py));
        assert(c.at(path[k].0, path[k].1) == t);
    }
}

/// A press on a canvas pixel with the brush, the eraser or the fill tool
/// saves the canvas from before the press on the undo history, so that undo
/// brings it back; a frame without a press leaves both histories alone.
pub proof fn law_press_saves_for_undo(
    v: WorkspaceView,
    pixel: Option<(u32, u32)>,
    pressed: bool,
    down: bool,
    released: bool,
)
    ensures
        ({
            let r = v.pointer_step(pixel, pressed, down, released);
            &&& (pressed && v.tool != Tool::Eyedropper && match pixel {
                Some((px, py)) => v.canvas.contains(px as int, py as int),
                None => false,
            }) ==> r.undo.len() > 0 && r.undo.last() == v.canvas && r.undo().canvas == v.canvas
            &&& !pressed ==> r.undo == v.undo && r.redo == v.redo
        }),
{
    let s = if released {
        WorkspaceView { last_pixel: None, ..v }
    } else {
        v
    };
    let p = s.push_undo();
    let u = s.undo.push(s.canvas);
    assert(u.last() == v.canvas);
    if u.len() > MAX_UNDO {
        assert(p.undo.last() == u.last());
    }
}


/// While the button is held with the brush or the eraser over a canvas pixel,
/// that pixel ends up painted, with the brush color (the eraser: transparent
/// black), whether the stroke starts there or a drag reaches it; and it
/// becomes the last pixel of the stroke.
pub proof fn law_drag_paints(v: WorkspaceView, x: u32, y: u32, pressed: bool, released: bool)
    requires
        v.tool == Tool::Brush || v.tool == Tool::Eraser,
        v.canvas.contains(x as int, y as int),
    ensures
        ({
            let r = v.pointer_step(Some((x, y)), pressed, true, released);
            &&& r.canvas.at(x as int, y as int) == if v.tool == Tool::Brush {
                v.brush_color
            } else {
                Color::transparent()
            }
            &&& r.last_pixel == Some((x, y))
        }),
{
    let s = if released {
        WorkspaceView { last_pixel: None, ..v }
    } else {
        v
    };
    let s1 = if pressed {
        s.push_undo()
    } else {
        s
    };
    let c = if v.tool == Tool::Brush {
        v.brush_color
    } else {
        Color::transparent()
    };
    assert(s1.paint_color() == Some(c));
    match s1.last_pixel {
        Some((lx, ly)) => {
            let pts = line_points(lx as int, ly as int, x as int, y as int);
            law_line_connects(lx as int, ly as int, x as int, y as int);
            assert(pts[pts.len() - 1] == (x as int, y as int));
            assert(pts.contains((x as int, y as int)));
            lemma_stamp_all_at(s1.canvas, c, s1.mirror_x, s1.mirror_y, pts, x as int, y as int);
        },
        None => {
            law_stamp_pixels(s1.canvas, c, s1.mirror_x, s1.mirror_y, x as int, y as int, x as int, y as int);
        },
    }
}

} // verus!
