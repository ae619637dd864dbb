//! The calls this library makes into `egui` and `image` where no proof
//! reaches: each function here is trusted to do what its contract says.

use vstd::prelude::*;

use image::{ImageBuffer, Rgba, RgbaImage};

use crate::bitmap::{Bitmap, BitmapView, cropped};
use crate::color::Color;

verus! {

// ---------------------------------------------------------------------------
// egui
// ---------------------------------------------------------------------------

/// `c` is a color that `egui::Color32::from_rgba_unmultiplied(r, g, b, a)`
/// can build on some platform. This relates the color to the four bytes it
/// was built from; it is not a function, since the channels for a partial
/// alpha go through `f32::powf`, whose precision the platform decides.
pub uninterp spec fn unmultiplied_outcome(r: u8, g: u8, b: u8, a: u8, c: Color) -> bool;

/// What every result of `egui::Color32::from_rgba_unmultiplied(r, g, b, a)`
/// has: it is an outcome of that call; alpha `a`; transparent black when `a`
/// is zero; the channels as given when `a` is full.
pub open spec fn unmultiplied_ok(c: Color, r: u8, g: u8, b: u8, a: u8) -> bool {
    &&& unmultiplied_outcome(r, g, b, a, c)
    &&& c.a == a
    &&& a == 0 ==> c == Color::transparent()
    &&& a == 255 ==> c == (Color { r, g, b, a: 255 })
}

/// Calls `egui::Color32::from_rgba_unmultiplied` and returns the bytes of the
/// `Color32` it builds. Claimed, as ecolor's source shows: alpha is kept; a
/// zero alpha gives transparent black and a full alpha keeps the channels as
/// they are. Between the two, ecolor scales each channel through a gamma
/// table that it fills with `f32::powf`, whose precision std leaves to the
/// platform, so those channels are only tied to the arguments through the
/// relation `unmultiplied_outcome`, not fixed.
#[verifier::external_body]
pub(crate) fn color_from_unmultiplied(r: u8, g: u8, b: u8, a: u8) -> (c: Color)
    ensures
        unmultiplied_outcome(r, g, b, a, c),
        unmultiplied_ok(c, r, g, b, a),
{
    let [r2, g2, b2, a2] = egui::Color32::from_rgba_unmultiplied(r, g, b, a).to_array();
    Color { r: r2, g: g2, b: b2, a: a2 }
}

// ---------------------------------------------------------------------------
// image
// ---------------------------------------------------------------------------

/// What `image::imageops::resize` with the `Nearest` filter makes of `src`
/// scaled to `nw` by `nh`.
pub uninterp spec fn nearest_resized(src: BitmapView, nw: u32, nh: u32) -> BitmapView;

/// Calls `image::imageops::resize` with the `Nearest` filter on the bitmap's
/// RGBA buffer. Claimed, as the crate's source shows: the result is `nw` by
/// `nh`, and a resize to the same size gives back a copy of the input. Which
/// source pixel each pixel copies is left to the name `nearest_resized`.
#[verifier::external_body]
pub(crate) fn resize_nearest(src: &Bitmap, nw: u32, nh: u32) -> (r: Bitmap)
    requires
        Bitmap::byte_len(nw as int, nh as int) <= usize::MAX,
    ensures
        r@ == nearest_resized(src@, nw, nh),
        r@.width == nw,
        r@.height == nh,
        (nw == src@.width && nh == src@.height) ==> r@ == src@,
{
    let img: ImageBuffer<Rgba<u8>, &[u8]> = ImageBuffer::from_raw(src.width, src.height, src.data.as_slice()).unwrap();
    let out = image::imageops::resize(&img, nw, nh, image::imageops::FilterType::Nearest);
    Bitmap { width: nw, height: nh, data: out.into_raw() }
}

/// `out` is an image that `image::imageops::resize` with the `Lanczos3`
/// filter can make of `src` scaled to `nw` by `nh` on some platform. This
/// relates the result to the call's arguments; it is not a function, since
/// the Lanczos kernel is built on `f32::sin`, whose precision the platform
/// decides.
pub uninterp spec fn lanczos_outcome(src: BitmapView, nw: u32, nh: u32, out: BitmapView) -> bool;

/// Calls `image::imageops::resize` with the `Lanczos3` filter on the bitmap's
/// RGBA buffer. Claimed, as the crate's source shows: the result is an
/// outcome of that call on these arguments (`lanczos_outcome`), it is `nw` by
/// `nh`, and a resize to the same size gives back a copy of the input. The
/// resampled pixels themselves come from a kernel built on `f32::sin`, whose
/// precision std leaves to the platform, so they are not fixed.
#[verifier::external_body]
pub(crate) fn resize_lanczos3(src: &Bitmap, nw: u32, nh: u32) -> (r: Bitmap)
    requires
        Bitmap::byte_len(nw as int, nh as int) <= usize::MAX,
    ensures
        lanczos_outcome(src@, nw, nh, r@),
        r@.width == nw,
        r@.height == nh,
        (nw == src@.width && nh == src@.height) ==> r@ == src@,
{
    let img: ImageBuffer<Rgba<u8>, &[u8]> = ImageBuffer::from_raw(src.width, src.height, src.data.as_slice()).unwrap();
    let out = image::imageops::resize(&img, nw, nh, image::imageops::FilterType::Lanczos3);
    Bitmap { width: nw, height: nh, data: out.into_raw() }
}

/// What `image::imageops::overlay` leaves in `bottom` after laying `top` over
/// it with its top-left corner at `(x, y)`.
pub uninterp spec fn overlaid(bottom: BitmapView, top: BitmapView, x: i64, y: i64) -> BitmapView;

/// The color that `image` puts at pixel `(px, py)` of the bottom image when
/// the top image is laid over it with its corner at `(x, y)`, where its
/// source fixes it: outside the top image, and where the top pixel is fully
/// transparent, the bottom pixel stays; where the top pixel is opaque, it
/// replaces the bottom pixel.
pub open spec fn overlay_known(
    bottom: BitmapView,
    top: BitmapView,
    x: int,
    y: int,
    px: int,
    py: int,
    result: Color,
) -> bool {
    let tx = px - x;
    let ty = py - y;
    if !top.contains(tx, ty) || top.at(tx, ty).a == 0 {
        result == bottom.at(px, py)
    } else if top.at(tx, ty).a == 255 {
        result == top.at(tx, ty)
    } else {
        true
    }
}

/// Calls `image::imageops::overlay`, which lays `top` over `bottom` with its
/// top-left corner at `(x, y)` and blends each pair of pixels with
/// `Rgba::blend`. Claimed, as the crate's source shows: `bottom` keeps its
/// size, and its pixels are as `overlay_known` says. Partly transparent top
/// pixels are blended in floating point; those results are left to the name
/// `overlaid`.
#[verifier::external_body]
pub(crate) fn overlay_bitmap(bottom: &mut Bitmap, top: &Bitmap, x: i64, y: i64)
    ensures
        final(bottom)@ == overlaid(old(bottom)@, top@, x, y),
        final(bottom)@.width == old(bottom)@.width,
        final(bottom)@.height == old(bottom)@.height,
        forall|px: int, py: int|
            old(bottom)@.contains(px, py) ==> overlay_known(
                old(bottom)@,
                top@,
                x as int,
                y as int,
                px,
                py,
                #[trigger] final(bottom)@.at(px, py),
            ),
{
    let data = std::mem::take(&mut bottom.data);
    let mut under: RgbaImage = ImageBuffer::from_raw(bottom.width, bottom.height, data).unwrap();
    let over: ImageBuffer<Rgba<u8>, &[u8]> = ImageBuffer::from_raw(top.width, top.height, top.data.as_slice()).unwrap();
    image::imageops::overlay(&mut under, &over, x, y);
    bottom.data = under.into_raw();
}

/// The region `image::imageops::crop_imm` keeps: the corner is pulled inside
/// the image, then width and height are cut to what is left of it.
pub open spec fn crop_rect(w: int, h: int, x: int, y: int, cw: int, ch: int) -> (int, int, int, int) {
    let cx = if x < w {
        x
    } else {
        w
    };
    let cy = if y < h {
        y
    } else {
        h
    };
    let cw2 = if cw < w - cx {
        cw
    } else {
        w - cx
    };
    let ch2 = if ch < h - cy {
        ch
    } else {
        h - cy
    };
    (cx, cy, cw2, ch2)
}

/// Calls `image::imageops::crop_imm(..).to_image()`. Claimed, as the crate's
/// source shows: the result is the region `cropped` describes.
#[verifier::external_body]
pub(crate) fn crop_bitmap(src: &Bitmap, x: u32, y: u32, cw: u32, ch: u32) -> (r: Bitmap)
    ensures
        r@ == cropped(src@, x as int, y as int, cw as int, ch as int),
{
    let img: RgbaImage = ImageBuffer::from_raw(src.width, src.height, src.data.clone()).unwrap();
    let out = image::imageops::crop_imm(&img, x, y, cw, ch).to_image();
    Bitmap { width: out.width(), height: out.height(), data: out.into_raw() }
}

} // verus!
