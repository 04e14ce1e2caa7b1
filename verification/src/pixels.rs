//! RGBA pixel buffers and the calls into the `image` crate that decode,
//! crop and encode them.

use vstd::prelude::*;

verus! {

/// One RGBA pixel: red, green, blue and alpha channels.
pub type Pixel = [u8; 4];

/// An RGBA image held row by row: the pixel at column `x` and row `y`
/// stands at index `y * width + x` of `pixels`.
pub struct RgbaBuffer {
    pub width: u32,
    pub height: u32,
    pub pixels: Vec<Pixel>,
}

impl RgbaBuffer {
    /// The buffer holds exactly one pixel per position of the grid.
    pub open spec fn wf(&self) -> bool {
        self.pixels@.len() == self.width as int * self.height as int
    }
}

#[verifier::external_type_specification]
#[verifier::external_body]
pub struct ExImageError(image::ImageError);

/// What `image::load_from_memory` followed by `to_rgba8` yields for the
/// bytes `data`: width, height and the pixels row by row, or `None` when
/// the bytes do not decode.
pub uninterp spec fn decoded_rgba(data: Seq<u8>) -> Option<(u32, u32, Seq<Pixel>)>;

/// What the PNG encoder of the `image` crate writes for an RGBA image of
/// the given size and pixels, or `None` when it fails.
pub uninterp spec fn encoded_png(width: u32, height: u32, pixels: Seq<Pixel>) -> Option<Seq<u8>>;

/// Decodes an image of any format the `image` crate recognises into RGBA.
///
/// Calls `image::load_from_memory` and `DynamicImage::to_rgba8`. Trusted:
/// the result is the named decoding of `data`, and the buffer that
/// `to_rgba8` builds has one pixel per position.
#[verifier::external_body]
pub(crate) fn decode_rgba(data: &[u8]) -> (r: Result<RgbaBuffer, image::ImageError>)
    ensures
        match r {
            Ok(img) => decoded_rgba(data@) == Some((img.width, img.height, img.pixels@)),
            Err(_) => decoded_rgba(data@) is None,
        },
        r matches Ok(img) ==> img.wf(),
{
    let rgba = image::load_from_memory(data)?.to_rgba8();
    let (width, height) = rgba.dimensions();
    let pixels = rgba.pixels().map(|p| p.0).collect();
    Ok(RgbaBuffer { width, height, pixels })
}

/// Encodes an RGBA image as PNG.
///
/// Builds an `image::RgbaImage` from the pixels and calls its `write_to`
/// with `ImageOutputFormat::Png`. Trusted: the bytes written are the named
/// encoding of the image; the buffer always fits since `img.wf()` holds.
#[verifier::external_body]
pub(crate) fn encode_png(img: &RgbaBuffer) -> (r: Result<Vec<u8>, image::ImageError>)
    requires
        img.wf(),
    ensures
        match r {
            Ok(bytes) => encoded_png(img.width, img.height, img.pixels@) == Some(bytes@),
            Err(_) => encoded_png(img.width, img.height, img.pixels@) is None,
        },
{
    let raw: Vec<u8> = img.pixels.iter().flatten().copied().collect();
    let rgba = image::RgbaImage::from_raw(img.width, img.height, raw).unwrap();
    let mut output = std::io::Cursor::new(Vec::new());
    rgba.write_to(&mut output, image::ImageOutputFormat::Png)?;
    Ok(output.into_inner())
}

/// Smaller of two integers.
pub open spec fn min_int(a: int, b: int) -> int {
    if a <= b { a } else { b }
}

/// The rectangle that `image::imageops::crop_imm` keeps when asked for
/// `(x, y, w, h)` on a `width` by `height` image: the corner is clamped
/// into the image and the size to what remains of it.
pub open spec fn crop_rect(width: int, height: int, x: int, y: int, w: int, h: int) -> (int, int, int, int) {
    let cx = min_int(x, width);
    let cy = min_int(y, height);
    (cx, cy, min_int(w, width - cx), min_int(h, height - cy))
}

/// The pixels of the rectangle at `(x, y)` of size `w` by `h` (inside the
/// image) of an image whose rows are `width` long, row by row.
pub open spec fn sub_image(pixels: Seq<Pixel>, width: int, x: int, y: int, w: int, h: int) -> Seq<Pixel> {
    Seq::new((w * h) as nat, |i: int| pixels[(y + i / w) * width + (x + i % w)])
}

/// The pixels that a crop of `img` at `(x, y)` of size `w` by `h` keeps.
pub open spec fn cropped_pixels(img: RgbaBuffer, x: int, y: int, w: int, h: int) -> Seq<Pixel> {
    let r = crop_rect(img.width as int, img.height as int, x, y, w, h);
    sub_image(img.pixels@, img.width as int, r.0, r.1, r.2, r.3)
}

/// Copies the part of `img` at `(x, y)` of size `width` by `height` into a
/// new buffer.
///
/// Calls `image::imageops::crop_imm` and `SubImage::to_image`. Trusted: the
/// result is the clamped rectangle of `img`, pixel for pixel, as the source
/// of `crop_imm` and `to_image` shows.
#[verifier::external_body]
pub(crate) fn crop_rgba(img: &RgbaBuffer, x: u32, y: u32, width: u32, height: u32) -> (r: RgbaBuffer)
    requires
        img.wf(),
    ensures
        r.width as int == crop_rect(img.width as int, img.height as int, x as int, y as int, width as int, height as int).2,
        r.height as int == crop_rect(img.width as int, img.height as int, x as int, y as int, width as int, height as int).3,
        r.pixels@ == cropped_pixels(*img, x as int, y as int, width as int, height as int),
        r.wf(),
{
    let raw: Vec<u8> = img.pixels.iter().flatten().copied().collect();
    let rgba = image::RgbaImage::from_raw(img.width, img.height, raw).unwrap();
    let sub = image::imageops::crop_imm(&rgba, x, y, width, height).to_image();
    let (w, h) = sub.dimensions();
    let pixels = sub.pixels().map(|p| p.0).collect();
    RgbaBuffer { width: w, height: h, pixels }
}

} // verus!
