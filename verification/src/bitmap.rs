use vstd::prelude::*;

use crate::color::Color;
use crate::outside::crop_rect;

verus! {

/// True when `(x, y)` lies inside a `w` by `h` rectangle anchored at the origin.
pub open spec fn in_rect(w: int, h: int, x: int, y: int) -> bool {
    0 <= x < w && 0 <= y < h
}

/// The mathematical picture of a bitmap: its size and the color of every pixel,
/// keyed by `(x, y)`.
pub struct BitmapView {
    pub width: nat,
    pub height: nat,
    pub pixels: Map<(int, int), Color>,
}

impl BitmapView {
    /// The pixel map covers exactly the rectangle of the bitmap.
    pub open spec fn wf(self) -> bool {
        forall|p: (int, int)|
            #[trigger] self.pixels.dom().contains(p) <==> in_rect(
                self.width as int,
                self.height as int,
                p.0,
                p.1,
            )
    }

    pub open spec fn contains(self, x: int, y: int) -> bool {
        in_rect(self.width as int, self.height as int, x, y)
    }

    pub open spec fn at(self, x: int, y: int) -> Color {
        self.pixels[(x, y)]
    }

    /// A `w` by `h` bitmap whose every pixel is `c`.
    pub open spec fn filled(w: nat, h: nat, c: Color) -> BitmapView {
        BitmapView {
            width: w,
            height: h,
            pixels: Map::new(|p: (int, int)| in_rect(w as int, h as int, p.0, p.1), |p: (int, int)| c),
        }
    }

    /// A `w` by `h` bitmap of transparent black.
    pub open spec fn blank(w: nat, h: nat) -> BitmapView {
        BitmapView::filled(w, h, Color::transparent())
    }

    /// This bitmap with pixel `(x, y)` set to `c`; unchanged when the pixel is outside.
    pub open spec fn with_pixel(self, x: int, y: int, c: Color) -> BitmapView {
        if self.contains(x, y) {
            BitmapView { width: self.width, height: self.height, pixels: self.pixels.insert((x, y), c) }
        } else {
            self
        }
    }
}

/// The color stored in the `i`-th group of four bytes of an RGBA buffer.
pub open spec fn color_at(bytes: Seq<u8>, i: int) -> Color {
    Color { r: bytes[4 * i], g: bytes[4 * i + 1], b: bytes[4 * i + 2], a: bytes[4 * i + 3] }
}

/// Reads a row-major RGBA buffer (four bytes per pixel, as `image::RgbaImage`
/// stores it) as a `w` by `h` bitmap.
pub open spec fn decode_rgba(w: nat, h: nat, bytes: Seq<u8>) -> BitmapView {
    BitmapView {
        width: w,
        height: h,
        pixels: Map::new(
            |p: (int, int)| in_rect(w as int, h as int, p.0, p.1),
            |p: (int, int)| color_at(bytes, p.1 * w + p.0),
        ),
    }
}

/// The part of `src` that a crop at `(x, y)` of size `cw` by `ch` keeps,
/// clipped to the image, with its corner moved to the origin.
pub open spec fn cropped(src: BitmapView, x: int, y: int, cw: int, ch: int) -> BitmapView {
    let (cx, cy, cw2, ch2) = crop_rect(src.width as int, src.height as int, x, y, cw, ch);
    BitmapView {
        width: cw2 as nat,
        height: ch2 as nat,
        pixels: Map::new(
            |p: (int, int)| in_rect(cw2, ch2, p.0, p.1),
            |p: (int, int)| src.at(cx + p.0, cy + p.1),
        ),
    }
}

/// The value of the dark/light checkerboard backdrop at `(x, y)`, with squares
/// of `check` pixels.
pub open spec fn checker_color(check: int, x: int, y: int) -> Color {
    let v: u8 = if ((x / check) + (y / check)) % 2 == 0 {
        45
    } else {
        35
    };
    Color { r: v, g: v, b: v, a: 255 }
}

/// Where pixel `(x, y)` sits, counted in pixels, in a row-major buffer of width `w`.
pub proof fn lemma_pixel_index(w: int, h: int, x: int, y: int)
    requires
        in_rect(w, h, x, y),
    ensures
        0 <= y * w + x < w * h,
        4 * (y * w + x) + 3 < 4 * (w * h),
{
    assert(y * w + x < w * h) by (nonlinear_arith)
        requires
            0 <= x < w,
            0 <= y < h,
    ;
    assert(0 <= y * w) by (nonlinear_arith)
        requires
            0 <= x < w,
            0 <= y < h,
    ;
}

/// Distinct pixels of a bitmap occupy distinct places in its buffer.
pub proof fn lemma_pixel_index_injective(w: int, x1: int, y1: int, x2: int, y2: int)
    requires
        0 <= x1 < w,
        0 <= x2 < w,
        0 <= y1,
        0 <= y2,
        (x1, y1) != (x2, y2),
    ensures
        y1 * w + x1 != y2 * w + x2,
{
    if y1 == y2 {
    } else if y1 < y2 {
        assert(y1 * w + x1 < y2 * w + x2) by (nonlinear_arith)
            requires
                0 <= x1 < w,
                0 <= x2 < w,
                y1 < y2,
        ;
    } else {
        assert(y2 * w + x2 < y1 * w + x1) by (nonlinear_arith)
            requires
                0 <= x1 < w,
                0 <= x2 < w,
                y2 < y1,
        ;
    }
}

/// An RGBA image held as plain bytes: `width * height` pixels, row by row,
/// four bytes (red, green, blue, alpha) each.
pub struct Bitmap {
    pub(crate) width: u32,
    pub(crate) height: u32,
    pub(crate) data: Vec<u8>,
}

impl View for Bitmap {
    type V = BitmapView;

    closed spec fn view(&self) -> BitmapView {
        decode_rgba(self.width as nat, self.height as nat, self.data@)
    }
}

impl Bitmap {
    #[verifier::type_invariant]
    closed spec fn inv(self) -> bool {
        self.data@.len() == 4 * (self.width as int * self.height as int)
    }

    /// The view of any bitmap covers exactly its rectangle.
    pub proof fn lemma_wf(&self)
        ensures
            self@.wf(),
    {
    }

    /// The number of bytes a `w` by `h` RGBA buffer takes.
    pub open spec fn byte_len(w: int, h: int) -> int {
        4 * (w * h)
    }

    /// A `w` by `h` bitmap of transparent black (as `RgbaImage::new`).
    pub fn new(w: u32, h: u32) -> (b: Bitmap)
        requires
            Bitmap::byte_len(w as int, h as int) <= usize::MAX,
        ensures
            b@ == BitmapView::blank(w as nat, h as nat),
    {
        Bitmap::filled(w, h, Color::clear())
    }

    /// A `w` by `h` bitmap whose every pixel is `c` (as `RgbaImage::from_pixel`).
    pub fn filled(w: u32, h: u32, c: Color) -> (b: Bitmap)
        requires
            Bitmap::byte_len(w as int, h as int) <= usize::MAX,
        ensures
            b@ == BitmapView::filled(w as nat, h as nat, c),
    {
        let n: usize = w as usize * h as usize;
        let mut data: Vec<u8> = Vec::new();
        let mut i: usize = 0;
        while i < n
            invariant
                n == w as int * h as int,
                4 * n <= usize::MAX,
                i <= n,
                data@.len() == 4 * i,
                forall|k: int| 0 <= k < i ==> #[trigger] color_at(data@, k) == c,
            decreases n - i,
        {
            let ghost old_data = data@;
            data.push(c.r);
            data.push(c.g);
            data.push(c.b);
            data.push(c.a);
            assert forall|k: int| 0 <= k < i + 1 implies #[trigger] color_at(data@, k) == c by {
                if k < i {
                    assert(color_at(old_data, k) == c);
                }
            }
            i = i + 1;
        }
        let b = Bitmap { width: w, height: h, data };
        proof {
            assert forall|p: (int, int)| in_rect(w as int, h as int, p.0, p.1) implies b@.pixels[p]
                == c by {
                lemma_pixel_index(w as int, h as int, p.0, p.1);
                assert(color_at(data@, p.1 * w + p.0) == c);
            }
            assert(b@.pixels =~= BitmapView::filled(w as nat, h as nat, c).pixels);
        }
        b
    }

    pub fn width(&self) -> (w: u32)
        ensures
            w == self@.width,
    {
        self.width
    }

    pub fn height(&self) -> (h: u32)
        ensures
            h == self@.height,
    {
        self.height
    }

    /// The `size` by `size` checkerboard drawn behind the texture canvas, with
    /// squares of `check` pixels.
    pub fn checker(size: u32, check: u32) -> (r: Bitmap)
        requires
            check > 0,
            Bitmap::byte_len(size as int, size as int) <= usize::MAX,
        ensures
            r@.width == size,
            r@.height == size,
            forall|x: int, y: int| #[trigger] r@.contains(x, y) ==> r@.at(x, y) == checker_color(check as int, x, y),
    {
        let mut img = Bitmap::new(size, size);
        let mut y: u32 = 0;
        while y < size
            invariant
                check > 0,
                y <= size,
                img@.width == size,
                img@.height == size,
                forall|px: int, py: int|
                    #[trigger] img@.contains(px, py) && py < y ==> img@.at(px, py) == checker_color(check as int, px, py),
            decreases size - y,
        {
            let mut x: u32 = 0;
            while x < size
                invariant
                    check > 0,
                    y < size,
                    x <= size,
                    img@.width == size,
                    img@.height == size,
                    forall|px: int, py: int|
                        #[trigger] img@.contains(px, py) && (py < y || (py == y && px < x)) ==> img@.at(px, py)
                            == checker_color(check as int, px, py),
                decreases size - x,
            {
                let light = ((x / check) as u64 + (y / check) as u64) % 2 == 0;
                let v: u8 = if light {
                    45
                } else {
                    35
                };
                let ghost before = img@;
                img.set_pixel(x, y, Color { r: v, g: v, b: v, a: 255 });
                assert(Color { r: v, g: v, b: v, a: 255 } == checker_color(check as int, x as int, y as int));
                assert forall|px: int, py: int|
                    #[trigger] img@.contains(px, py) && (py < y || (py == y && px < x + 1)) implies img@.at(px, py)
                        == checker_color(check as int, px, py) by {
                    if (px, py) != (x as int, y as int) {
                        assert(before.contains(px, py));
                        assert(img@.at(px, py) == before.at(px, py));
                    }
                }
                x = x + 1;
            }
            y = y + 1;
        }
        img
    }

    /// The number of pixels, `width * height`.
    pub fn pixel_count(&self) -> (n: usize)
        ensures
            n == self@.width * self@.height,
    {
        proof {
            use_type_invariant(self);
        }
        let _len = self.data.len();
        self.width as usize * self.height as usize
    }

    /// Reads a row-major RGBA buffer; `None` when its length is not four bytes
    /// per pixel (as `RgbaImage::from_raw`).
    pub fn from_rgba(w: u32, h: u32, bytes: Vec<u8>) -> (r: Option<Bitmap>)
        ensures
            r is Some <==> bytes@.len() == Bitmap::byte_len(w as int, h as int),
            r matches Some(b) ==> b@ == decode_rgba(w as nat, h as nat, bytes@),
    {
        assert(w as int * h as int <= u64::MAX) by (nonlinear_arith)
            requires
                w <= u32::MAX,
                h <= u32::MAX,
        ;
        let n: u64 = w as u64 * h as u64;
        let len = bytes.len();
        if n > (usize::MAX / 4) as u64 {
            assert(4 * n > usize::MAX);
            return None;
        }
        if len != 4 * (n as usize) {
            return None;
        }
        Some(Bitmap { width: w, height: h, data: bytes })
    }

    /// The row-major RGBA bytes of this bitmap (as `RgbaImage::as_raw`).
    pub fn to_rgba(&self) -> (bytes: Vec<u8>)
        ensures
            bytes@.len() == Bitmap::byte_len(self@.width as int, self@.height as int),
            decode_rgba(self@.width, self@.height, bytes@) == self@,
    {
        proof {
            use_type_invariant(self);
        }
        let bytes = self.data.clone();
        assert(bytes@ =~= self.data@);
        bytes
    }

    /// An independent copy with the same pixels.
    pub fn copy(&self) -> (b: Bitmap)
        ensures
            b@ == self@,
    {
        proof {
            use_type_invariant(self);
        }
        let data = self.data.clone();
        assert(data@ =~= self.data@);
        Bitmap { width: self.width, height: self.height, data }
    }

    /// The color of pixel `(x, y)`.
    pub fn get_pixel(&self, x: u32, y: u32) -> (c: Color)
        requires
            self@.contains(x as int, y as int),
        ensures
            c == self@.at(x as int, y as int),
    {
        proof {
            use_type_invariant(self);
            lemma_pixel_index(self.width as int, self.height as int, x as int, y as int);
        }
        let _len = self.data.len();
        let i: usize = 4 * (y as usize * self.width as usize + x as usize);
        Color { r: self.data[i], g: self.data[i + 1], b: self.data[i + 2], a: self.data[i + 3] }
    }

    /// Sets pixel `(x, y)` to `c`.
    pub fn set_pixel(&mut self, x: u32, y: u32, c: Color)
        requires
            old(self)@.contains(x as int, y as int),
        ensures
            final(self)@ == old(self)@.with_pixel(x as int, y as int, c),
    {
        proof {
            use_type_invariant(&*self);
            lemma_pixel_index(self.width as int, self.height as int, x as int, y as int);
        }
        let ghost old_view = self@;
        let ghost w = self.width as int;
        let _len = self.data.len();
        let i: usize = 4 * (y as usize * self.width as usize + x as usize);
        let mut taken = Bitmap { width: 0, height: 0, data: Vec::new() };
        std::mem::swap(&mut taken, self);
        let Bitmap { width, height, mut data } = taken;
        data.set(i, c.r);
        data.set(i + 1, c.g);
        data.set(i + 2, c.b);
        data.set(i + 3, c.a);
        let mut rebuilt = Bitmap { width, height, data };
        std::mem::swap(&mut rebuilt, self);
        proof {
            let expected = old_view.with_pixel(x as int, y as int, c);
            assert forall|p: (int, int)| #[trigger]
                in_rect(w, self.height as int, p.0, p.1) implies self@.pixels[p]
                == expected.pixels[p] by {
                lemma_pixel_index(w, self.height as int, p.0, p.1);
                if p != (x as int, y as int) {
                    lemma_pixel_index_injective(w, p.0, p.1, x as int, y as int);
                }
            }
            assert(self@.pixels =~= expected.pixels);
        }
    }
}

} // verus!
