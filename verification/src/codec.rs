//! What other crates compute for the library: base64 text, image files,
//! resampling and circles. Each function here states what the library relies
//! on; none of it is proved.

use crate::raster::{cropped_pixels, Raster, Rgba};
use base64::Engine;
use vstd::prelude::*;

verus! {

#[verifier::external_type_specification]
#[verifier::external_body]
pub struct ExDecodeError(base64::DecodeError);

#[verifier::external_type_specification]
#[verifier::external_body]
pub struct ExImageError(image::ImageError);

/// The bytes that standard base64 text (with padding) stands for, or `None`
/// where the text is not valid base64.
pub uninterp spec fn base64_decoded(text: Seq<u8>) -> Option<Seq<u8>>;

/// The standard base64 text (with padding) of the bytes.
pub uninterp spec fn base64_encoded(bytes: Seq<u8>) -> Seq<char>;

/// Width, height and pixel bytes of the image that a file's bytes hold, or
/// `None` where they hold no image that can be read.
pub uninterp spec fn decoded_image(bytes: Seq<u8>) -> Option<(u32, u32, Seq<u8>)>;

/// The PNG file of an image, or `None` where the encoder refuses it.
pub uninterp spec fn png_encoded(width: u32, height: u32, pixels: Seq<u8>) -> Option<Seq<u8>>;

/// The pixel bytes of an image resampled to `new_width` by `new_height`
/// pixels, each taken from the nearest pixel of the source.
pub uninterp spec fn nearest_resized(
    width: u32,
    height: u32,
    pixels: Seq<u8>,
    new_width: u32,
    new_height: u32,
) -> Seq<u8>;

/// The pixel bytes of an image after the outline of a circle was drawn on it.
pub uninterp spec fn ring_drawn(
    width: u32,
    height: u32,
    pixels: Seq<u8>,
    cx: i32,
    cy: i32,
    radius: i32,
    r: u8,
    g: u8,
    b: u8,
    a: u8,
) -> Seq<u8>;

/// The pixel bytes of an image after a filled circle was drawn on it.
pub uninterp spec fn disc_drawn(
    width: u32,
    height: u32,
    pixels: Seq<u8>,
    cx: i32,
    cy: i32,
    radius: i32,
    r: u8,
    g: u8,
    b: u8,
    a: u8,
) -> Seq<u8>;

/// The largest distance from the origin, on either axis, at which a ring
/// is drawn, and the largest radius of one.
pub const CIRCLE_REACH: i32 = 0x0fff_ffff;

/// The largest distance from the origin, on either axis, at which a disc is
/// drawn, and the largest radius of one.
pub const DISC_REACH: i32 = 0x7f_ffff;

/// Whether every pixel of `after` is the pixel of `before` or, within
/// `radius` of `(cx, cy)` on both axes, of colour `color`.
pub open spec fn painted_within(
    before: Raster,
    after: Raster,
    cx: int,
    cy: int,
    radius: int,
    color: Rgba,
) -> bool {
    forall|i: int, j: int|
        before.contains(i, j) ==> #[trigger] after.pixel_at(i, j) == before.pixel_at(i, j) || (
        after.pixel_at(i, j) == color && cx - radius <= i <= cx + radius && cy - radius <= j <= cy
            + radius)
}

/// `base64::Engine::decode` on the `STANDARD` engine: the decoded bytes, or
/// the crate's error where the text is not valid base64. The result depends
/// on the text alone.
#[verifier::external_body]
pub(crate) fn decode_base64(text: &[u8]) -> (result: Result<Vec<u8>, base64::DecodeError>)
    ensures
        match result {
            Ok(bytes) => base64_decoded(text@) == Some(bytes@),
            Err(_) => base64_decoded(text@) is None,
        },
{
    base64::engine::general_purpose::STANDARD.decode(text)
}

/// `base64::Engine::encode` on the `STANDARD` engine: the text of the
/// bytes. The crate panics where the text's length, four characters for each
/// three bytes begun, overflows; such inputs are left out.
#[verifier::external_body]
pub(crate) fn encode_base64(bytes: &[u8]) -> (text: String)
    requires
        4 * ((bytes@.len() + 2) / 3) <= isize::MAX,
    ensures
        text@ == base64_encoded(bytes@),
{
    base64::engine::general_purpose::STANDARD.encode(bytes)
}

/// `image::load_from_memory` followed by `DynamicImage::into_rgba8`: the
/// image that the bytes hold, in any format that the crate recognises, as
/// 8-bit RGBA with exactly four bytes for each pixel; or the crate's error.
/// The result depends on the bytes alone.
#[verifier::external_body]
pub(crate) fn decode_image(bytes: &[u8]) -> (result: Result<Raster, image::ImageError>)
    ensures
        match result {
            Ok(img) => img.wf() && decoded_image(bytes@) == Some(
                (img.width, img.height, img.pixels@),
            ),
            Err(_) => decoded_image(bytes@) is None,
        },
{
    let decoded = image::load_from_memory(bytes)?.into_rgba8();
    Ok(Raster { width: decoded.width(), height: decoded.height(), pixels: decoded.into_raw() })
}

/// `ImageBuffer::write_to` with `ImageOutputFormat::Png`, into memory: the
/// PNG file of the image, or the crate's error. The encoder panics on a
/// buffer whose length does not match the dimensions; such images are left
/// out.
#[verifier::external_body]
pub(crate) fn encode_png(img: &Raster) -> (result: Result<Vec<u8>, image::ImageError>)
    requires
        img.wf(),
    ensures
        match result {
            Ok(bytes) => png_encoded(img.width, img.height, img.pixels@) == Some(bytes@),
            Err(_) => png_encoded(img.width, img.height, img.pixels@) is None,
        },
{
    let view = image::ImageBuffer::<image::Rgba<u8>, &[u8]>::from_raw(
        img.width,
        img.height,
        &img.pixels[..],
    ).unwrap();
    let mut bytes = Vec::new();
    view.write_to(&mut std::io::Cursor::new(&mut bytes), image::ImageOutputFormat::Png)?;
    Ok(bytes)
}

/// `image::imageops::resize` with `FilterType::Nearest`: an image of the
/// dimensions asked for. The crate panics on a source without pixels and
/// where a buffer of sixteen bytes for each pixel of the source's width by
/// the new height, or of the new image, is past what can be allocated; such
/// inputs are left out.
#[verifier::external_body]
pub(crate) fn resize_nearest(src: &Raster, width: u32, height: u32) -> (out: Raster)
    requires
        src.wf(),
        src.width > 0,
        src.height > 0,
        16 * (src.width * height) <= isize::MAX,
        16 * (width * height) <= isize::MAX,
    ensures
        out.wf(),
        out.width == width,
        out.height == height,
        out.pixels@ == nearest_resized(src.width, src.height, src.pixels@, width, height),
{
    let view = image::ImageBuffer::<image::Rgba<u8>, &[u8]>::from_raw(
        src.width,
        src.height,
        &src.pixels[..],
    ).unwrap();
    let out = image::imageops::resize(&view, width, height, image::imageops::FilterType::Nearest);
    Raster { width, height, pixels: out.into_raw() }
}

/// `image::imageops::crop_imm` followed by `SubImage::to_image`: the
/// rectangle of `width` by `height` pixels whose top left pixel is `(x, y)`
/// of the source, for a rectangle that lies within the source.
#[verifier::external_body]
pub(crate) fn crop(src: Raster, x: u32, y: u32, width: u32, height: u32) -> (out: Raster)
    requires
        src.wf(),
        x + width <= src.width,
        y + height <= src.height,
    ensures
        out.wf(),
        out.width == width,
        out.height == height,
        out.pixels@ == cropped_pixels(
            src.width as int,
            src.pixels@,
            x as int,
            y as int,
            width as int,
            height as int,
        ),
{
    let whole = image::ImageBuffer::<image::Rgba<u8>, Vec<u8>>::from_raw(
        src.width,
        src.height,
        src.pixels,
    ).unwrap();
    let out = image::imageops::crop_imm(&whole, x, y, width, height).to_image();
    Raster { width: out.width(), height: out.height(), pixels: out.into_raw() }
}

/// `imageproc::drawing::draw_hollow_circle_mut`: draws as much of a circle's
/// outline as lies inside the image. It sets pixels to `color` only, and only
/// pixels within `radius` of the centre on both axes. The crate computes in
/// `i32`; centre and radius are kept where that cannot overflow.
#[verifier::external_body]
pub(crate) fn draw_ring(canvas: &mut Raster, cx: i32, cy: i32, radius: i32, color: Rgba)
    requires
        old(canvas).wf(),
        old(canvas).width <= i32::MAX,
        old(canvas).height <= i32::MAX,
        -CIRCLE_REACH <= cx <= CIRCLE_REACH,
        -CIRCLE_REACH <= cy <= CIRCLE_REACH,
        0 <= radius <= CIRCLE_REACH,
    ensures
        final(canvas).wf(),
        final(canvas).width == old(canvas).width,
        final(canvas).height == old(canvas).height,
        final(canvas).pixels@ == ring_drawn(
            old(canvas).width,
            old(canvas).height,
            old(canvas).pixels@,
            cx,
            cy,
            radius,
            color.r,
            color.g,
            color.b,
            color.a,
        ),
        painted_within(*old(canvas), *final(canvas), cx as int, cy as int, radius as int, color),
{
    let mut view = image::ImageBuffer::<image::Rgba<u8>, &mut [u8]>::from_raw(
        canvas.width,
        canvas.height,
        &mut canvas.pixels[..],
    ).unwrap();
    let ink = image::Rgba([color.r, color.g, color.b, color.a]);
    imageproc::drawing::draw_hollow_circle_mut(&mut view, (cx, cy), radius, ink);
}

/// `imageproc::drawing::draw_filled_circle_mut`: draws as much of a circle
/// and its inside as lies inside the image. It sets pixels to `color` only,
/// and only pixels within `radius` of the centre on both axes. The crate
/// draws the disc as horizontal lines whose ends it holds in single
/// precision; centre and radius are kept where those hold them exactly.
#[verifier::external_body]
pub(crate) fn draw_disc(canvas: &mut Raster, cx: i32, cy: i32, radius: i32, color: Rgba)
    requires
        old(canvas).wf(),
        old(canvas).width <= i32::MAX,
        old(canvas).height <= i32::MAX,
        -DISC_REACH <= cx <= DISC_REACH,
        -DISC_REACH <= cy <= DISC_REACH,
        0 <= radius <= DISC_REACH,
    ensures
        final(canvas).wf(),
        final(canvas).width == old(canvas).width,
        final(canvas).height == old(canvas).height,
        final(canvas).pixels@ == disc_drawn(
            old(canvas).width,
            old(canvas).height,
            old(canvas).pixels@,
            cx,
            cy,
            radius,
            color.r,
            color.g,
            color.b,
            color.a,
        ),
        painted_within(*old(canvas), *final(canvas), cx as int, cy as int, radius as int, color),
{
    let mut view = image::ImageBuffer::<image::Rgba<u8>, &mut [u8]>::from_raw(
        canvas.width,
        canvas.height,
        &mut canvas.pixels[..],
    ).unwrap();
    let ink = image::Rgba([color.r, color.g, color.b, color.a]);
    imageproc::drawing::draw_filled_circle_mut(&mut view, (cx, cy), radius, ink);
}

} // verus!
