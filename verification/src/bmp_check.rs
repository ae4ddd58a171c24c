//! Which BMP files make the `bmp` decoder panic, read off its source: the
//! decoder is handed every other file.
use vstd::prelude::*;

verus! {

/// The little-endian `u16` at byte `i`.
pub open spec fn le_u16(b: Seq<u8>, i: int) -> int {
    b[i] + 256 * b[i + 1]
}

/// The little-endian `u32` at byte `i`.
pub open spec fn le_u32(b: Seq<u8>, i: int) -> int {
    b[i] + 256 * b[i + 1] + 65536 * b[i + 2] + 16777216 * b[i + 3]
}

/// The magnitude of the `i32` whose two's complement bits are `v`.
pub open spec fn abs_i32_bits(v: int) -> int {
    if v < 0x8000_0000 {
        v
    } else {
        0x1_0000_0000 - v
    }
}

/// The spacing of single-precision numbers around the integer `x`: 1 below
/// 2^24, doubling with every further binary digit.
pub open spec fn f32_grain(x: nat) -> nat
    decreases x,
{
    if x < 0x100_0000 {
        1
    } else {
        2 * f32_grain(x / 2)
    }
}

/// The integer `x` rounded to single precision, to nearest with ties to even.
pub open spec fn round_f32(x: nat) -> nat {
    let g = f32_grain(x);
    let q = x / g;
    let r = x % g;
    if 2 * r > g || (2 * r == g && q % 2 == 1) {
        (q + 1) * g
    } else {
        q * g
    }
}

/// The number of 4-byte words in a 24-bit row of width `w`, as the decoder
/// computes it in single precision: `floor((24 * w + 31) / 32)`.
pub open spec fn row24_words(w: nat) -> nat {
    round_f32(round_f32(24 * round_f32(w)) + 31) / 32
}

/// The bytes of one row of palette indices of `bpp` bits each (rounded up).
pub open spec fn packed_row_bytes(w: int, bpp: int) -> int {
    if bpp == 1 {
        (w + 7) / 8
    } else if bpp == 4 {
        (w + 1) / 2
    } else {
        w
    }
}

/// The distance between the starts of two rows: the row padded to four bytes.
pub open spec fn row_stride(row: int) -> int {
    if row % 4 == 0 {
        row
    } else {
        row + 4 - row % 4
    }
}

/// The palette index of pixel `k` of a row, read from `byte`: the byte itself
/// at 8 bits per pixel, its high or low half at 4, one of its bits (most
/// significant first) at 1.
pub open spec fn palette_index(byte: u8, k: int, bpp: int) -> u8 {
    if bpp == 8 {
        byte
    } else if bpp == 4 {
        if k % 2 == 0 {
            byte >> 4u8
        } else {
            byte & 15u8
        }
    } else {
        (byte >> ((7 - k % 8) as u8)) & 1u8
    }
}

/// The palette index of pixel `k` of row `y` of the pixel data at `offset`.
pub open spec fn pixel_index_at(b: Seq<u8>, offset: int, stride: int, y: int, k: int, bpp: int) -> u8 {
    palette_index(b[offset + stride * y + (k * bpp) / 8], k, bpp)
}

/// The decoder turns the file down with an error before it reads any pixel:
/// it is too short for the headers, lacks the "BM" mark, has an unsupported
/// header version, bit depth or compression.
pub open spec fn bmp_header_refused(b: Seq<u8>) -> bool {
    b.len() < 54 || {
        let hs = le_u32(b, 14);
        let bpp = le_u16(b, 28);
        let compress = le_u32(b, 30);
        ||| b[0] != 66 || b[1] != 77
        ||| !((hs == 40 && compress != 3) || hs == 108 || hs == 124)
        ||| !(bpp == 1 || bpp == 4 || bpp == 8 || bpp == 24)
        ||| compress == 1 || compress == 2 || compress == 3
    }
}

/// The image width the header gives.
pub open spec fn bmp_width(b: Seq<u8>) -> nat {
    abs_i32_bits(le_u32(b, 18)) as nat
}

/// The image height the header gives.
pub open spec fn bmp_height(b: Seq<u8>) -> nat {
    abs_i32_bits(le_u32(b, 22)) as nat
}

/// The number of palette entries the decoder reads, if it reads a palette:
/// the header's colour count, else 2, 16 or 256 at 1, 4 or 8 bits per pixel.
pub open spec fn bmp_palette_entries(b: Seq<u8>) -> Option<nat> {
    let bpp = le_u16(b, 28);
    let nc = le_u32(b, 46);
    if nc != 0 {
        Some(nc as nat)
    } else if bpp == 1 {
        Some(2)
    } else if bpp == 4 {
        Some(16)
    } else if bpp == 8 {
        Some(256)
    } else {
        None
    }
}

/// On a file whose header it accepts, the decoder panics: the width or height
/// is `i32::MIN` (`abs` overflows); a palette or the pixel vector needs more
/// than `isize::MAX` bytes (three per entry); the 24-bit pixel count or the
/// pixel-array size it records overflows a `u32`; a palette image with rows
/// has 24 bits per pixel, or a row slice past the end of the file, or a pixel
/// whose palette index is not below the header's colour count.
pub open spec fn bmp_decoder_panics(b: Seq<u8>) -> bool {
    let bpp = le_u16(b, 28);
    let nc = le_u32(b, 46);
    let offset = le_u32(b, 10);
    let w = bmp_width(b);
    let h = bmp_height(b);
    let row = packed_row_bytes(w as int, bpp);
    let stride = row_stride(row);
    let words = row24_words(w);
    ||| le_u32(b, 18) == 0x8000_0000 || le_u32(b, 22) == 0x8000_0000
    ||| (bmp_palette_entries(b) matches Some(e) && 3 * e > isize::MAX)
    ||| 3 * (h * w) > isize::MAX
    ||| (bmp_palette_entries(b) is None && h * w > u32::MAX)
    ||| (bmp_palette_entries(b) is Some && h > 0 && {
        ||| bpp == 24
        ||| offset + stride * (h - 1) + row > b.len()
        ||| (nc != 0 && exists|y: int, k: int|
            0 <= y < h && 0 <= k < w && #[trigger] pixel_index_at(b, offset, stride, y, k, bpp)
                >= nc)
    })
    ||| 4 * words > u32::MAX
    ||| h * (4 * words) > u32::MAX
}

/// The decoder can be handed these bytes without panicking: it refuses the
/// header with an error, or it decodes the file.
pub open spec fn bmp_decoder_safe(b: Seq<u8>) -> bool {
    bmp_header_refused(b) || !bmp_decoder_panics(b)
}

/// Reading every pixel of the decoded image with `Image::get_pixel`, which
/// computes positions with `u32` arithmetic, does not overflow.
pub open spec fn bmp_pixels_addressable(b: Seq<u8>) -> bool {
    bmp_width(b) * bmp_height(b) <= 0x1_0000_0000
}

fn read_u16(b: &[u8], i: usize) -> (v: u64)
    requires
        i + 2 <= b@.len(),
    ensures
        v == le_u16(b@, i as int),
{
    b[i] as u64 + 256 * (b[i + 1] as u64)
}

fn read_u32(b: &[u8], i: usize) -> (v: u64)
    requires
        i + 4 <= b@.len(),
    ensures
        v == le_u32(b@, i as int),
        v <= u32::MAX,
{
    b[i] as u64 + 256 * (b[i + 1] as u64) + 65536 * (b[i + 2] as u64) + 16777216 * (b[i + 3] as u64)
}

/// The palette index of pixel `k` read from `byte`, as `palette_index` says.
fn index_in_byte(byte: u8, k: u64, bpp: u64) -> (v: u8)
    ensures
        v == palette_index(byte, k as int, bpp as int),
{
    if bpp == 8 {
        byte
    } else if bpp == 4 {
        if k % 2 == 0 {
            byte >> 4u8
        } else {
            byte & 15u8
        }
    } else {
        let shift: u8 = (7 - k % 8) as u8;
        (byte >> shift) & 1u8
    }
}

/// `x` rounded to single precision, as `round_f32` says.
fn round_f32_exec(x: u64) -> (r: u64)
    requires
        x < 0x100_0000_0000,
    ensures
        r == round_f32(x as nat),
        r <= 2 * x + 1,
{
    let mut g: u64 = 1;
    let mut y: u64 = x;
    while y >= 0x100_0000
        invariant
            f32_grain(x as nat) == g * f32_grain(y as nat),
            g >= 1,
            g * y <= x,
            g == 1 || y >= 0x80_0000,
            x < 0x100_0000_0000,
        decreases y,
    {
        assert(g <= x) by (nonlinear_arith)
            requires
                g * y <= x,
                y >= 1,
                g >= 1,
        ;
        assert(f32_grain(y as nat) == 2 * f32_grain((y / 2) as nat));
        assert(g * f32_grain(y as nat) == (2 * g) * f32_grain((y / 2) as nat)) by (nonlinear_arith)
            requires
                f32_grain(y as nat) == 2 * f32_grain((y / 2) as nat),
        ;
        assert((2 * g) * (y / 2) <= g * y) by (nonlinear_arith)
            requires
                g >= 1,
        ;
        y = y / 2;
        g = 2 * g;
    }
    assert(g == 1 || g <= x) by (nonlinear_arith)
        requires
            g * y <= x,
            g >= 1,
            g == 1 || y >= 0x80_0000,
    ;
    assert(f32_grain(y as nat) == 1);
    assert(g == f32_grain(x as nat)) by (nonlinear_arith)
        requires
            f32_grain(x as nat) == g * f32_grain(y as nat),
            f32_grain(y as nat) == 1,
    ;
    let q = x / g;
    let rem = x % g;
    assert((q + 1) * g <= x + g && q * g <= x) by (nonlinear_arith)
        requires
            q == x / g,
            g >= 1,
    ;
    if 2 * rem > g || (2 * rem == g && q % 2 == 1) {
        (q + 1) * g
    } else {
        q * g
    }
}

/// `row24_words(w)`, computed.
fn row24_words_exec(w: u64) -> (r: u64)
    requires
        w <= 0x8000_0000,
    ensures
        r == row24_words(w as nat),
        r <= 0x1_0000_0000_0000,
{
    let a = round_f32_exec(w);
    let p = round_f32_exec(24 * a);
    let c = round_f32_exec(p + 31);
    c / 32
}

/// Whether some palette index of the pixel rows is `nc` or more.
fn some_index_at_or_past(b: &[u8], offset: u64, stride: u64, row: u64, w: u64, h: u64, bpp: u64, nc: u64) -> (found: bool)
    requires
        bpp == 1 || bpp == 4 || bpp == 8,
        row == packed_row_bytes(w as int, bpp as int),
        stride >= row,
        h > 0,
        w <= 0x8000_0000,
        h <= 0x8000_0000,
        stride <= 0x8000_0004,
        offset <= u32::MAX,
        offset + stride * (h - 1) + row <= b@.len(),
    ensures
        found == exists|y: int, k: int|
            0 <= y < h && 0 <= k < w && #[trigger] pixel_index_at(
                b@,
                offset as int,
                stride as int,
                y,
                k,
                bpp as int,
            ) >= nc,
{
    let n: usize = b.len();
    assert(n as u64 <= u64::MAX);
    let mut y: u64 = 0;
    while y < h
        invariant
            b@.len() <= u64::MAX,
            y <= h,
            bpp == 1 || bpp == 4 || bpp == 8,
            row == packed_row_bytes(w as int, bpp as int),
            stride >= row,
            w <= 0x8000_0000,
            h <= 0x8000_0000,
            stride <= 0x8000_0004,
            offset <= u32::MAX,
            offset + stride * (h - 1) + row <= b@.len(),
            forall|y2: int, k: int|
                0 <= y2 < y && 0 <= k < w ==> #[trigger] pixel_index_at(
                    b@,
                    offset as int,
                    stride as int,
                    y2,
                    k,
                    bpp as int,
                ) < nc,
        decreases h - y,
    {
        assert(stride * y <= stride * (h - 1)) by (nonlinear_arith)
            requires
                y < h,
        ;
        let start: u64 = offset + stride * y;
        let mut k: u64 = 0;
        while k < w
            invariant
                b@.len() <= u64::MAX,
                y < h,
                k <= w,
                start == offset + stride * y,
                start + row <= b@.len(),
                bpp == 1 || bpp == 4 || bpp == 8,
                row == packed_row_bytes(w as int, bpp as int),
                w <= 0x8000_0000,
                forall|y2: int, k2: int|
                    0 <= y2 < y && 0 <= k2 < w ==> #[trigger] pixel_index_at(
                        b@,
                        offset as int,
                        stride as int,
                        y2,
                        k2,
                        bpp as int,
                    ) < nc,
                forall|k2: int|
                    0 <= k2 < k ==> #[trigger] pixel_index_at(
                        b@,
                        offset as int,
                        stride as int,
                        y as int,
                        k2,
                        bpp as int,
                    ) < nc,
            decreases w - k,
        {
            assert((k * bpp) / 8 < row) by (nonlinear_arith)
                requires
                    k < w,
                    bpp == 1 || bpp == 4 || bpp == 8,
                    row == packed_row_bytes(w as int, bpp as int),
            ;
            let pos: u64 = start + (k * bpp) / 8;
            let v = index_in_byte(b[pos as usize], k, bpp);
            assert(v == pixel_index_at(b@, offset as int, stride as int, y as int, k as int, bpp as int));
            if (v as u64) >= nc {
                return true;
            }
            k = k + 1;
        }
        y = y + 1;
    }
    false
}

/// Whether the decoder refuses the header of `b` with an error.
pub fn bmp_header_refused_on(b: &[u8]) -> (refused: bool)
    ensures
        refused == bmp_header_refused(b@),
{
    if b.len() < 54 {
        return true;
    }
    let hs = read_u32(b, 14);
    let bpp = read_u16(b, 28);
    let compress = read_u32(b, 30);
    b[0] != 66 || b[1] != 77 || !((hs == 40 && compress != 3) || hs == 108 || hs == 124) || !(bpp
        == 1 || bpp == 4 || bpp == 8 || bpp == 24) || compress == 1 || compress == 2 || compress
        == 3
}

/// The width and height the header of `b` gives.
pub fn bmp_dimensions_on(b: &[u8]) -> (wh: (u64, u64))
    requires
        !bmp_header_refused(b@),
    ensures
        wh.0 == bmp_width(b@),
        wh.1 == bmp_height(b@),
        wh.0 <= 0x8000_0000,
        wh.1 <= 0x8000_0000,
{
    let wv = read_u32(b, 18);
    let hv = read_u32(b, 22);
    let w: u64 = if wv < 0x8000_0000 { wv } else { 0x1_0000_0000 - wv };
    let h: u64 = if hv < 0x8000_0000 { hv } else { 0x1_0000_0000 - hv };
    (w, h)
}

/// Whether the decoder panics on `b`, whose header it accepts.
#[verifier::rlimit(60)]
#[verifier::spinoff_prover]
pub fn bmp_decoder_panics_on(b: &[u8]) -> (panics: bool)
    requires
        !bmp_header_refused(b@),
    ensures
        panics == bmp_decoder_panics(b@),
{
    let bpp = read_u16(b, 28);
    let nc = read_u32(b, 46);
    let offset = read_u32(b, 10);
    let wv = read_u32(b, 18);
    let hv = read_u32(b, 22);
    let (w, h) = bmp_dimensions_on(b);
    let len = b.len() as u64;
    let entries: Option<u64> = if nc != 0 {
        Some(nc)
    } else if bpp == 1 {
        Some(2)
    } else if bpp == 4 {
        Some(16)
    } else if bpp == 8 {
        Some(256)
    } else {
        None
    };
    let imax = isize::MAX as u128;
    let words = row24_words_exec(w);
    assert((h as u128) * (w as u128) <= 0x4000_0000_0000_0000) by (nonlinear_arith)
        requires
            h <= 0x8000_0000,
            w <= 0x8000_0000,
    ;
    let hw = (h as u128) * (w as u128);
    assert((h as u128) * (4 * (words as u128)) <= 0x8000_0000 * 4 * 0x1_0000_0000_0000) by (nonlinear_arith)
        requires
            h <= 0x8000_0000,
            words <= 0x1_0000_0000_0000,
    ;
    let recorded = (h as u128) * (4 * (words as u128));
    if wv == 0x8000_0000 || hv == 0x8000_0000 {
        return true;
    }
    match entries {
        Some(e) => {
            if 3 * (e as u128) > imax {
                return true;
            }
        },
        None => {},
    }
    if 3 * hw > imax {
        return true;
    }
    if entries.is_none() && hw > u32::MAX as u128 {
        return true;
    }
    if 4 * (words as u128) > u32::MAX as u128 || recorded > u32::MAX as u128 {
        return true;
    }
    if entries.is_some() && h > 0 {
        if bpp == 24 {
            return true;
        }
        let row: u64 = if bpp == 1 {
            (w + 7) / 8
        } else if bpp == 4 {
            (w + 1) / 2
        } else {
            w
        };
        let stride: u64 = if row % 4 == 0 { row } else { row + 4 - row % 4 };
        assert(stride * (h - 1) <= 0x8000_0004 * 0x8000_0000) by (nonlinear_arith)
            requires
                h <= 0x8000_0000,
                h > 0,
                stride <= 0x8000_0004,
        ;
        if offset + stride * (h - 1) + row > len {
            return true;
        }
        if nc != 0 && some_index_at_or_past(b, offset, stride, row, w, h, bpp, nc) {
            return true;
        }
    }
    false
}

} // verus!
