//! Turning BMP files into raw RGBA bytes, as window icons want them.
use vstd::prelude::*;
use crate::bmp_check::{
    bmp_decoder_panics, bmp_decoder_panics_on, bmp_decoder_safe, bmp_dimensions_on,
    bmp_header_refused, bmp_header_refused_on, bmp_height, bmp_pixels_addressable, bmp_width,
};

verus! {

/// A decoded bitmap. `pixels` holds the red, green and blue values of the
/// pixels row by row, top row first, each row from left to right.
pub struct Bitmap {
    pub width: u32,
    pub height: u32,
    pub pixels: Vec<(u8, u8, u8)>,
}

impl Bitmap {
    /// There is one pixel per position.
    pub open spec fn wf(&self) -> bool {
        self.pixels@.len() == self.width * self.height
    }
}

/// Why a BMP file could not be turned into RGBA bytes.
#[derive(Debug)]
pub enum ImageError {
    /// The `bmp` crate could not decode the file; its explanation.
    Decode(String),
    /// The image has `width * height * 4` bytes of RGBA, not the `expected` count.
    SizeMismatch { width: u32, height: u32, expected: usize },
    /// Decoding the file, or reading its pixels with `Image::get_pixel`, would
    /// panic (see `bmp_decoder_panics` and `bmp_pixels_addressable`).
    Malformed,
}

/// What `bmp::from_reader` makes of a file: width, height and pixels in row
/// order, or the details of its error.
pub uninterp spec fn bmp_decoded(bytes: Seq<u8>) -> Result<(u32, u32, Seq<(u8, u8, u8)>), Seq<char>>;

/// Calls `bmp::from_reader` on `bytes` and, on success, reads width, height and
/// every pixel in the order of `Image::coordinates` (row by row from the top,
/// left to right), which yields `width * height` positions. On failure it
/// gives the error's `details`. Decoding is a function of the bytes alone.
/// `requires` keeps out the files on which the decoder or `get_pixel` panics.
/// Running out of memory on a large image depends on the machine and is not
/// ruled out.
#[verifier::external_body]
fn decode_bmp(bytes: &[u8]) -> (r: Result<Bitmap, String>)
    requires
        bmp_decoder_safe(bytes@),
        bmp_header_refused(bytes@) || bmp_pixels_addressable(bytes@),
    ensures
        match r {
            Ok(b) => bmp_decoded(bytes@) == Ok::<(u32, u32, Seq<(u8, u8, u8)>), Seq<char>>(
                (b.width, b.height, b.pixels@),
            ) && b.wf(),
            Err(e) => bmp_decoded(bytes@) == Err::<(u32, u32, Seq<(u8, u8, u8)>), Seq<char>>(e@),
        },
{
    match bmp::from_reader(&mut std::io::Cursor::new(bytes)) {
        Ok(image) => Ok(Bitmap {
            width: image.get_width(),
            height: image.get_height(),
            pixels: image.coordinates().map(|(x, y)| image.get_pixel(x, y)).map(|p| (p.r, p.g, p.b)).collect(),
        }),
        Err(e) => Err(e.details),
    }
}

/// The RGBA bytes of `pixels`: red, green, blue, then 255 for full opacity.
pub open spec fn rgba_bytes(pixels: Seq<(u8, u8, u8)>) -> Seq<u8> {
    Seq::new(
        4 * pixels.len(),
        |i: int|
            if i % 4 == 0 {
                pixels[i / 4].0
            } else if i % 4 == 1 {
                pixels[i / 4].1
            } else if i % 4 == 2 {
                pixels[i / 4].2
            } else {
                255u8
            },
    )
}

/// What `rgba_from_bitmap` gives for a bitmap with these parts.
pub open spec fn rgba_result<const N: usize>(width: u32, height: u32, pixels: Seq<(u8, u8, u8)>, r: Result<[u8; N], ImageError>) -> bool {
    if N == width * height * 4 {
        r matches Ok(buf) && buf@ == rgba_bytes(pixels)
    } else {
        r matches Err(ImageError::SizeMismatch { width: w, height: h, expected: e })
            && w == width && h == height && e == N
    }
}

/// The bitmap as `N` RGBA bytes, row by row; an error when the image does not
/// have exactly `N / 4` pixels.
pub fn rgba_from_bitmap<const N: usize>(bitmap: &Bitmap) -> (r: Result<[u8; N], ImageError>)
    requires
        bitmap.wf(),
    ensures
        rgba_result::<N>(bitmap.width, bitmap.height, bitmap.pixels@, r),
{
    let (height, width) = (bitmap.height, bitmap.width);
    assert((width as u128) * (height as u128) * 4 <= u128::MAX) by (nonlinear_arith)
        requires
            height <= u32::MAX,
            width <= u32::MAX,
    ;
    if (N as u128) != (width as u128) * (height as u128) * 4 {
        return Err(ImageError::SizeMismatch { width, height, expected: N });
    }
    let mut buffer = [0u8; N];
    let n = bitmap.pixels.len();
    assert(4 * n == N);
    let mut i: usize = 0;
    while i < n
        invariant
            n == bitmap.pixels@.len(),
            4 * n == N,
            i <= n,
            forall|k: int| 0 <= k < 4 * i ==> #[trigger] buffer@[k] == rgba_bytes(bitmap.pixels@)[k],
        decreases n - i,
    {
        let pixel = bitmap.pixels[i];
        let offset = i * 4;
        buffer[offset] = pixel.0;
        buffer[offset + 1] = pixel.1;
        buffer[offset + 2] = pixel.2;
        buffer[offset + 3] = 255;
        assert forall|k: int| 0 <= k < 4 * (i + 1) implies #[trigger] buffer@[k] == rgba_bytes(bitmap.pixels@)[k] by {
            if k >= 4 * i {
                assert(k / 4 == i);
            }
        }
        i = i + 1;
    }
    assert(buffer@ =~= rgba_bytes(bitmap.pixels@));
    Ok(buffer)
}

/// Decodes a BMP file into `N` RGBA bytes, row by row from the top: red,
/// green, blue, then 255. Fails with the decoder's error when it refuses the
/// file, and when the image does not have exactly `N / 4` pixels; fails with
/// `Malformed` on the files on which decoding or reading the pixels panics.
pub fn to_rwmj_rgba<const N: usize>(bmp: &[u8]) -> (r: Result<[u8; N], ImageError>)
    ensures
        bmp_header_refused(bmp@) || (!bmp_decoder_panics(bmp@) && N == bmp_width(bmp@) * bmp_height(bmp@) * 4 && bmp_pixels_addressable(bmp@)) ==> match bmp_decoded(bmp@) {
            Err(details) => r matches Err(ImageError::Decode(e)) && e@ == details,
            Ok((width, height, pixels)) => rgba_result::<N>(width, height, pixels, r),
        },
        !bmp_header_refused(bmp@) && bmp_decoder_panics(bmp@) ==> r matches Err(
            ImageError::Malformed,
        ),
        !bmp_header_refused(bmp@) && !bmp_decoder_panics(bmp@) && N != bmp_width(bmp@) * bmp_height(bmp@) * 4 ==> (r matches Err(
            ImageError::SizeMismatch { width: w, height: h, expected: e },
        ) && w == bmp_width(bmp@) && h == bmp_height(bmp@) && e == N),
        !bmp_header_refused(bmp@) && !bmp_decoder_panics(bmp@) && N == bmp_width(bmp@) * bmp_height(bmp@) * 4 && !bmp_pixels_addressable(bmp@) ==> r matches Err(
            ImageError::Malformed,
        ),
{
    if !bmp_header_refused_on(bmp) {
        if bmp_decoder_panics_on(bmp) {
            return Err(ImageError::Malformed);
        }
        let (w, h) = bmp_dimensions_on(bmp);
        assert(w < 0x8000_0000 && h < 0x8000_0000);
        assert((w as u128) * (h as u128) <= 0x4000_0000_0000_0000) by (nonlinear_arith)
            requires
                w < 0x8000_0000,
                h < 0x8000_0000,
        ;
        let pixels = (w as u128) * (h as u128);
        if (N as u128) != pixels * 4 {
            return Err(ImageError::SizeMismatch { width: w as u32, height: h as u32, expected: N });
        }
        if pixels > 0x1_0000_0000 {
            return Err(ImageError::Malformed);
        }
    }
    match decode_bmp(bmp) {
        Err(details) => Err(ImageError::Decode(details)),
        Ok(bitmap) => rgba_from_bitmap::<N>(&bitmap),
    }
}

/// Each pixel becomes four bytes in place: its red, green and blue values,
/// then 255, whatever its colour.
pub proof fn lemma_rgba_layout(pixels: Seq<(u8, u8, u8)>, k: int)
    requires
        0 <= k < pixels.len(),
    ensures
        rgba_bytes(pixels).len() == 4 * pixels.len(),
        rgba_bytes(pixels)[4 * k] == pixels[k].0,
        rgba_bytes(pixels)[4 * k + 1] == pixels[k].1,
        rgba_bytes(pixels)[4 * k + 2] == pixels[k].2,
        rgba_bytes(pixels)[4 * k + 3] == 255,
{
    assert((4 * k) / 4 == k && (4 * k) % 4 == 0);
    assert((4 * k + 1) / 4 == k && (4 * k + 1) % 4 == 1);
    assert((4 * k + 2) / 4 == k && (4 * k + 2) % 4 == 2);
    assert((4 * k + 3) / 4 == k && (4 * k + 3) % 4 == 3);
}

} // verus!
