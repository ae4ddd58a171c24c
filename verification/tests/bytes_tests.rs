use noteblock_studio::bitmap::{rgba_from_bitmap, to_rwmj_rgba, Bitmap, ImageError};
use noteblock_studio::frames::{interleave, pair_up, FrameSplitter};
use noteblock_studio::wav::frame_wav;

fn bmp_bytes() -> Vec<u8> {
    let mut img = bmp::Image::new(2, 2);
    img.set_pixel(0, 0, bmp::Pixel::new(1, 2, 3));
    img.set_pixel(1, 0, bmp::Pixel::new(4, 5, 6));
    img.set_pixel(0, 1, bmp::Pixel::new(7, 8, 9));
    img.set_pixel(1, 1, bmp::Pixel::new(10, 11, 12));
    let mut bytes = Vec::new();
    img.to_writer(&mut bytes).unwrap();
    bytes
}

#[test]
fn bmp_becomes_rgba_row_by_row() {
    let rgba = to_rwmj_rgba::<16>(&bmp_bytes()).unwrap();
    assert_eq!(rgba, [1, 2, 3, 255, 4, 5, 6, 255, 7, 8, 9, 255, 10, 11, 12, 255]);
}

#[test]
fn bmp_of_wrong_size_is_refused() {
    match to_rwmj_rgba::<12>(&bmp_bytes()) {
        Err(ImageError::SizeMismatch { width, height, expected }) => {
            assert_eq!((width, height, expected), (2, 2, 12));
        }
        other => panic!("unexpected {:?}", other.map(|_| ())),
    }
}

#[test]
fn garbage_is_not_a_bmp() {
    match to_rwmj_rgba::<16>(&[0u8, 1, 2, 3]) {
        Err(ImageError::Decode(details)) => assert!(!details.is_empty()),
        other => panic!("unexpected {:?}", other.map(|_| ())),
    }
}

#[test]
fn bitmap_to_rgba() {
    let b = Bitmap { width: 1, height: 2, pixels: vec![(9, 8, 7), (6, 5, 4)] };
    assert_eq!(rgba_from_bitmap::<8>(&b).unwrap(), [9, 8, 7, 255, 6, 5, 4, 255]);
    let empty = Bitmap { width: 0, height: 3, pixels: vec![] };
    assert_eq!(rgba_from_bitmap::<0>(&empty).unwrap(), []);
    assert!(rgba_from_bitmap::<4>(&empty).is_err());
}

#[test]
fn interleave_lays_out_left_then_right() {
    let frames = vec![(1, 2), (3, 4), (5, 6)];
    assert_eq!(interleave(&frames), vec![1, 2, 3, 4, 5, 6]);
    assert_eq!(interleave::<u8>(&vec![]), Vec::<u8>::new());
}

#[test]
fn pair_up_drops_trailing_sample() {
    assert_eq!(pair_up(&vec![1, 2, 3, 4, 5]), vec![(1, 2), (3, 4)]);
    assert_eq!(pair_up(&vec![1]), Vec::<(i32, i32)>::new());
}

#[test]
fn pairing_undoes_interleaving() {
    let frames = vec![(0.5f32, -0.5f32), (0.25, 1.0)];
    assert_eq!(pair_up(&interleave(&frames)), frames);
    let stream = vec![1u8, 2, 3, 4, 5];
    assert_eq!(interleave(&pair_up(&stream)), vec![1, 2, 3, 4]);
}

#[test]
fn splitter_hands_out_right_then_left() {
    let mut s = FrameSplitter::new((0, 0));
    assert!(s.needs_frame());
    assert_eq!(s.next_sample(Some((10, 20))), Some(20));
    assert!(!s.needs_frame());
    assert_eq!(s.next_sample(None), Some(10));
    assert!(s.needs_frame());
    assert_eq!(s.next_sample(None), None);
    assert_eq!(s.next_sample(Some((1, 1))), None);
    assert_eq!(s.next_sample(Some((3, 4))), Some(4));
}

#[test]
fn wav_layout() {
    let header = [7u8, 7, 7];
    let samples = [1u8, 2, 3, 4, 5];
    let out = frame_wav(&header, &samples);
    let mut expected = vec![7u8, 7, 7];
    expected.extend_from_slice(b"data");
    expected.extend_from_slice(&5u32.to_ne_bytes());
    expected.extend_from_slice(&samples);
    assert_eq!(out, expected);
    assert_eq!(frame_wav(&[], &[]), [b"data".as_slice(), &0u32.to_ne_bytes()].concat());
}

/// A version-3 BMP with the given header fields, palette entries (blue, green,
/// red, unused) and pixel bytes.
fn handmade_bmp(width: i32, height: i32, bpp: u16, num_colors: u32, palette: &[[u8; 4]], pixels: &[u8]) -> Vec<u8> {
    let offset = 54 + 4 * palette.len() as u32;
    let mut b = Vec::new();
    b.extend_from_slice(b"BM");
    b.extend_from_slice(&(offset + pixels.len() as u32).to_le_bytes());
    b.extend_from_slice(&[0, 0, 0, 0]);
    b.extend_from_slice(&offset.to_le_bytes());
    b.extend_from_slice(&40u32.to_le_bytes());
    b.extend_from_slice(&width.to_le_bytes());
    b.extend_from_slice(&height.to_le_bytes());
    b.extend_from_slice(&1u16.to_le_bytes());
    b.extend_from_slice(&bpp.to_le_bytes());
    b.extend_from_slice(&0u32.to_le_bytes());
    b.extend_from_slice(&(pixels.len() as u32).to_le_bytes());
    b.extend_from_slice(&[0; 8]);
    b.extend_from_slice(&num_colors.to_le_bytes());
    b.extend_from_slice(&0u32.to_le_bytes());
    for entry in palette {
        b.extend_from_slice(entry);
    }
    b.extend_from_slice(pixels);
    b
}

const PALETTE: [[u8; 4]; 2] = [[3, 2, 1, 0], [6, 5, 4, 0]];

#[test]
fn palette_bmp_decodes_bottom_row_first() {
    let bytes = handmade_bmp(2, 2, 8, 2, &PALETTE, &[0, 1, 0, 0, 1, 0, 0, 0]);
    let rgba = to_rwmj_rgba::<16>(&bytes).unwrap();
    assert_eq!(rgba, [4, 5, 6, 255, 1, 2, 3, 255, 1, 2, 3, 255, 4, 5, 6, 255]);
}

#[test]
fn palette_index_past_palette_is_refused() {
    let bytes = handmade_bmp(2, 2, 8, 2, &PALETTE, &[0, 5, 0, 0, 1, 0, 0, 0]);
    assert!(matches!(to_rwmj_rgba::<16>(&bytes), Err(ImageError::Malformed)));
}

#[test]
fn pixel_rows_cut_short_are_refused() {
    let bytes = handmade_bmp(2, 2, 8, 2, &PALETTE, &[0, 1, 0, 0, 1]);
    assert!(matches!(to_rwmj_rgba::<16>(&bytes), Err(ImageError::Malformed)));
}

#[test]
fn deep_bmp_with_palette_is_refused() {
    let bytes = handmade_bmp(1, 1, 24, 2, &PALETTE, &[1, 2, 3, 0]);
    assert!(matches!(to_rwmj_rgba::<4>(&bytes), Err(ImageError::Malformed)));
}

#[test]
fn minimal_width_is_refused() {
    let bytes = handmade_bmp(i32::MIN, 1, 24, 0, &[], &[0; 16]);
    assert!(matches!(to_rwmj_rgba::<4>(&bytes), Err(ImageError::Malformed)));
}

#[test]
fn unsupported_header_reaches_the_decoder() {
    let mut bytes = handmade_bmp(1, 1, 24, 0, &[], &[1, 2, 3, 0]);
    bytes[28] = 16;
    assert!(matches!(to_rwmj_rgba::<4>(&bytes), Err(ImageError::Decode(_))));
}

#[test]
fn deep_bmp_cut_short_still_decodes() {
    // The decoder reads zeros where the pixel bytes are missing.
    let bytes = handmade_bmp(1, 1, 24, 0, &[], &[]);
    assert_eq!(bytes.len(), 54);
    assert_eq!(to_rwmj_rgba::<4>(&bytes).unwrap(), [0, 0, 0, 255]);
}

#[test]
fn palette_past_end_still_decodes() {
    // Two palette entries announced, none present: the pixel rows double as the palette.
    let mut bytes = handmade_bmp(4, 1, 8, 2, &[], &[0, 1, 0, 1]);
    bytes.truncate(58);
    let rgba = to_rwmj_rgba::<16>(&bytes).unwrap();
    assert_eq!(rgba[3], 255);
}

#[test]
fn wide_empty_image_decodes() {
    let bytes = handmade_bmp(1 << 19, 0, 24, 0, &[], &[]);
    assert_eq!(to_rwmj_rgba::<0>(&bytes).unwrap(), []);
    let bytes = handmade_bmp(1 << 30, 0, 24, 0, &[], &[]);
    assert_eq!(to_rwmj_rgba::<0>(&bytes).unwrap(), []);
}

#[test]
fn row_size_overflow_is_refused() {
    // The decoder's single-precision row size times 4 overflows a u32 here.
    let w = i32::MAX;
    let words = ((24.0f32 * w as f32 + 31.0) / 32.0).floor() as u64;
    assert!(words * 4 > u32::MAX as u64);
    let bytes = handmade_bmp(w, 0, 24, 0, &[], &[]);
    assert!(matches!(to_rwmj_rgba::<0>(&bytes), Err(ImageError::Malformed)));
}

#[test]
fn size_mismatch_reports_header_dimensions() {
    let bytes = handmade_bmp(3, 2, 24, 0, &[], &[0; 24]);
    match to_rwmj_rgba::<4>(&bytes) {
        Err(ImageError::SizeMismatch { width, height, expected }) => {
            assert_eq!((width, height, expected), (3, 2, 4));
        }
        other => panic!("unexpected {:?}", other.map(|_| ())),
    }
}
