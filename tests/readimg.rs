use qoidecoder::parsechunks::{
    DiffChunk, FormatError, IndexChunk, LumaChunk, QOIHeader, RGBAChunk, RGBChunk, RunChunk, CHUNK,
};
use qoidecoder::pixel::{pixel_hash, Pixel};
use qoidecoder::readimg::{get_end, get_pixels, parse_all_chunks, reconstruct};

const TRAILER: [u8; 8] = [0, 0, 0, 0, 0, 0, 0, 1];

fn header_bytes(width: u32, height: u32) -> Vec<u8> {
    let mut v = vec![0x71, 0x6F, 0x69, 0x66];
    v.extend_from_slice(&width.to_be_bytes());
    v.extend_from_slice(&height.to_be_bytes());
    v.push(3);
    v.push(0);
    v
}

fn px(r: u8, g: u8, b: u8, a: u8) -> Pixel {
    Pixel { r, g, b, a }
}

#[test]
fn end_marker_recognised() {
    let bytes = [0, 0, 0, 0, 0, 0, 0, 1, 9];
    let (rest, ()) = get_end(&bytes).unwrap();
    assert_eq!(rest, &[9][..]);
    assert_eq!(get_end(&[0, 0, 0, 0, 0, 0, 0, 2]), Err(FormatError::MissingTrailer));
    assert_eq!(get_end(&[0, 0, 0, 0, 0, 0, 1]), Err(FormatError::MissingTrailer));
    assert_eq!(get_end(&[0, 0, 0, 1, 0, 0, 0, 1]), Err(FormatError::MissingTrailer));
}

#[test]
fn end_to_end_rgb_then_run() {
    let mut bytes = header_bytes(1, 2);
    bytes.extend_from_slice(&[0xFE, 10, 20, 30, 0b11000000]);
    bytes.extend_from_slice(&TRAILER);
    let (header, pixels) = get_pixels(&bytes).unwrap();
    assert_eq!(header, QOIHeader { width: 1, height: 2, channels: 3, colorspace: 0 });
    assert_eq!(pixels, vec![px(10, 20, 30, 255), px(10, 20, 30, 255)]);
}

#[test]
fn all_chunks_listed_in_order() {
    let mut bytes = header_bytes(5, 7);
    bytes.extend_from_slice(&[0xFE, 1, 2, 3, 0x71, 0x05, 0xC2]);
    bytes.extend_from_slice(&TRAILER);
    bytes.push(0xAB);
    let (rest, (header, chunks)) = parse_all_chunks(&bytes).unwrap();
    assert_eq!(rest, &[0xAB][..]);
    assert_eq!(header.width, 5);
    assert_eq!(header.height, 7);
    assert_eq!(
        chunks,
        vec![
            CHUNK::RGBChunk(RGBChunk { r: 1, g: 2, b: 3 }),
            CHUNK::DiffChunk(DiffChunk { dr: 3, dg: 0, db: 1 }),
            CHUNK::IndexChunk(IndexChunk { index: 5 }),
            CHUNK::RunChunk(RunChunk { run: 2 }),
        ]
    );
}

#[test]
fn trailer_right_after_header() {
    let mut bytes = header_bytes(0, 0);
    bytes.extend_from_slice(&TRAILER);
    let (_, pixels) = get_pixels(&bytes).unwrap();
    assert!(pixels.is_empty());
}

#[test]
fn zero_bytes_before_trailer_are_cache_references() {
    let mut bytes = header_bytes(2, 1);
    bytes.extend_from_slice(&[0, 0]);
    bytes.extend_from_slice(&TRAILER);
    let (_, pixels) = get_pixels(&bytes).unwrap();
    assert_eq!(pixels, vec![px(0, 0, 0, 0), px(0, 0, 0, 0)]);
}

#[test]
fn bad_signature_decode() {
    let mut bytes = vec![0x51, 0x4F, 0x49, 0x46];
    bytes.extend_from_slice(&[0, 0, 0, 1, 0, 0, 0, 1, 3, 0, 0xFE, 1, 2, 3]);
    bytes.extend_from_slice(&TRAILER);
    assert_eq!(get_pixels(&bytes), Err(FormatError::BadSignature));
}

#[test]
fn missing_trailer_decode() {
    let mut bytes = header_bytes(1, 2);
    bytes.extend_from_slice(&[0xFE, 10, 20, 30, 0b11000000]);
    assert_eq!(get_pixels(&bytes), Err(FormatError::MissingTrailer));
    let mut bytes = header_bytes(1, 1);
    bytes.extend_from_slice(&[0, 0, 0, 0, 0, 0, 0]);
    assert_eq!(get_pixels(&bytes), Err(FormatError::MissingTrailer));
}

#[test]
fn truncated_chunk_decode() {
    let mut bytes = header_bytes(1, 1);
    bytes.extend_from_slice(&[0xFF, 1, 2]);
    assert_eq!(get_pixels(&bytes), Err(FormatError::Truncated));
    assert_eq!(get_pixels(&header_bytes(1, 1)[..10]), Err(FormatError::Truncated));
}

#[test]
fn diff_applied_to_previous_pixel() {
    let chunks = vec![
        CHUNK::RGBAChunk(RGBAChunk { r: 10, g: 10, b: 10, a: 255 }),
        CHUNK::DiffChunk(DiffChunk { dr: 3, dg: 0, db: 1 }),
    ];
    let pixels = reconstruct(&chunks);
    assert_eq!(pixels, vec![px(10, 10, 10, 255), px(11, 8, 9, 255)]);
}

#[test]
fn run_appends_count_plus_one_copies() {
    let chunks = vec![
        CHUNK::RGBAChunk(RGBAChunk { r: 7, g: 8, b: 9, a: 100 }),
        CHUNK::RunChunk(RunChunk { run: 3 }),
    ];
    let pixels = reconstruct(&chunks);
    assert_eq!(pixels.len(), 5);
    assert!(pixels.iter().all(|p| *p == px(7, 8, 9, 100)));
}

#[test]
fn longest_run() {
    let chunks = vec![CHUNK::RunChunk(RunChunk { run: 61 })];
    let pixels = reconstruct(&chunks);
    assert_eq!(pixels.len(), 62);
    assert!(pixels.iter().all(|p| *p == px(0, 0, 0, 255)));
}

#[test]
fn rgb_keeps_previous_alpha() {
    let chunks = vec![
        CHUNK::RGBAChunk(RGBAChunk { r: 1, g: 2, b: 3, a: 40 }),
        CHUNK::RGBChunk(RGBChunk { r: 4, g: 5, b: 6 }),
    ];
    assert_eq!(reconstruct(&chunks), vec![px(1, 2, 3, 40), px(4, 5, 6, 40)]);
}

#[test]
fn cache_returns_latest_pixel_of_a_slot() {
    let p = px(10, 20, 30, 255);
    let q = px(50, 60, 70, 255);
    let hp = pixel_hash(&p) as u8;
    let hq = pixel_hash(&q) as u8;
    assert_eq!(hp, ((3 * 10 + 5 * 20 + 7 * 30 + 11 * 255) % 64) as u8);
    let chunks = vec![
        CHUNK::RGBChunk(RGBChunk { r: 10, g: 20, b: 30 }),
        CHUNK::RGBChunk(RGBChunk { r: 50, g: 60, b: 70 }),
        CHUNK::IndexChunk(IndexChunk { index: hp }),
        CHUNK::IndexChunk(IndexChunk { index: hq }),
        CHUNK::IndexChunk(IndexChunk { index: (hp + 1) % 64 }),
    ];
    let pixels = reconstruct(&chunks);
    assert_eq!(pixels[2], p);
    assert_eq!(pixels[3], q);
    if (hp + 1) % 64 != hq {
        assert_eq!(pixels[4], px(0, 0, 0, 0));
    }
}

#[test]
fn run_first_stores_start_pixel() {
    // Opaque black hashes to 11 * 255 mod 64 = 53.
    assert_eq!(pixel_hash(&px(0, 0, 0, 255)), 53);
    let chunks = vec![
        CHUNK::RunChunk(RunChunk { run: 0 }),
        CHUNK::RGBAChunk(RGBAChunk { r: 1, g: 1, b: 1, a: 1 }),
        CHUNK::IndexChunk(IndexChunk { index: 53 }),
    ];
    assert_eq!(reconstruct(&chunks)[2], px(0, 0, 0, 255));
}

#[test]
fn diff_wraps_below_zero() {
    let chunks = vec![
        CHUNK::RGBAChunk(RGBAChunk { r: 0, g: 255, b: 1, a: 9 }),
        CHUNK::DiffChunk(DiffChunk { dr: 0, dg: 3, db: 0 }),
    ];
    assert_eq!(reconstruct(&chunks)[1], px(254, 0, 255, 9));
}

#[test]
fn luma_wraps_both_ways() {
    let chunks = vec![
        CHUNK::RGBAChunk(RGBAChunk { r: 250, g: 5, b: 3, a: 200 }),
        // green -32, red -32 + 7 = -25, blue -32 - 8 = -40
        CHUNK::LumaChunk(LumaChunk { diff_g: 0, dr_minus_dg: 15, db_minus_dg: 0 }),
        // green +31, red +31 + 7 = +38, blue +31 - 8 = +23
        CHUNK::LumaChunk(LumaChunk { diff_g: 63, dr_minus_dg: 15, db_minus_dg: 0 }),
    ];
    let pixels = reconstruct(&chunks);
    assert_eq!(pixels[1], px(225, 229, 219, 200));
    assert_eq!(pixels[2], px(7, 4, 242, 200));
}

#[test]
fn decoded_stream_uses_cache_and_deltas() {
    let mut bytes = header_bytes(4, 1);
    // opaque (10,10,10), then a difference, then a cache reference to the first pixel
    let first = px(10, 10, 10, 255);
    let slot = pixel_hash(&first) as u8;
    bytes.extend_from_slice(&[0xFF, 10, 10, 10, 255, 0x71, slot, 0b10100000, 0x88]);
    bytes.extend_from_slice(&TRAILER);
    let (_, pixels) = get_pixels(&bytes).unwrap();
    assert_eq!(pixels, vec![first, px(11, 8, 9, 255), first, px(10, 10, 10, 255)]);
}
