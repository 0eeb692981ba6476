use seam_carving::admission::{admits, MAX_BITMAP_PIXELS, MAX_BITMAP_SIDE, MAX_SIDE};
use seam_carving::pipeline::{carve_encoded, RenderError};

fn netpbm(kind: u8, header: &str, data: &[u8]) -> Vec<u8> {
    let mut content = vec![b'P', kind];
    content.extend_from_slice(header.as_bytes());
    content.extend_from_slice(data);
    content
}

fn icon(bodies: &[Vec<u8>]) -> Vec<u8> {
    let mut content = vec![0, 0, 1, 0];
    content.extend_from_slice(&(bodies.len() as u16).to_le_bytes());
    let mut offset = 6 + 16 * bodies.len();
    for body in bodies {
        content.extend_from_slice(&[2, 1, 0, 0]);
        content.extend_from_slice(&1u16.to_le_bytes());
        content.extend_from_slice(&32u16.to_le_bytes());
        content.extend_from_slice(&(body.len() as u32).to_le_bytes());
        content.extend_from_slice(&(offset as u32).to_le_bytes());
        offset += body.len();
    }
    for body in bodies {
        content.extend_from_slice(body);
    }
    content
}

fn png(width: u32, height: u32, rgba: &[u8]) -> Vec<u8> {
    let mut out = Vec::new();
    image::png::PNGEncoder::new(&mut out)
        .encode(rgba, width, height, image::ColorType::RGBA(8))
        .unwrap();
    out
}

#[test]
fn content_without_a_signature_is_admitted() {
    assert!(admits(&[]));
    assert!(admits(&[7]));
    assert!(admits(b"B"));
    assert!(admits(b"P"));
    assert!(admits(&netpbm(b'8', " 1 1 ", &[])));
    assert!(admits(&netpbm(b'0', " 1 1 ", &[])));
    assert!(admits(b"#?RADIANC"));
    assert!(admits(&[0, 0, 1]));
    assert!(admits(&[0, 0, 2, 0, 9, 9]));
    assert!(admits(b"\x89PNG\r\n\x1a"));
    assert!(admits(b"GIF88a"));
    assert!(admits(b"hello"));
    assert!(matches!(carve_encoded(b"hello", 2, 2), Err(RenderError::Undecodable(_))));
}

#[test]
fn formats_with_long_decoders_are_refused() {
    assert!(!admits(b"\x89PNG\r\n\x1a\n"));
    assert!(!admits(&png(2, 1, &[9, 8, 7, 255, 1, 2, 3, 255])));
    assert!(!admits(&[0xff, 0xd8, 0xff, 0xe0]));
    assert!(!admits(b"GIF89a"));
    assert!(!admits(b"GIF87a and more"));
    assert!(!admits(b"RIFF\x00\x00\x00\x00WEBP"));
    assert!(!admits(b"MM.*"));
    assert!(!admits(b"II*.rest"));
    assert!(!admits(&icon(&[])));
    assert!(!admits(&icon(&[png(2, 1, &[9, 8, 7, 255, 1, 2, 3, 255])])));
    let picture = png(1, 1, &[1, 2, 3, 4]);
    assert!(matches!(carve_encoded(&picture, 1, 1), Err(RenderError::Refused)));
}

#[test]
fn radiance_content_is_never_admitted() {
    assert!(!admits(b"#?RADIANCE"));
    assert!(!admits(b"#?RADIANCE\nFORMAT=32-bit_rle_rgbe\n\n-Y 1 +X 1\n\x01\x02\x03\x04"));
    let huge = b"#?RADIANCE\n\n-Y 4000000000 +X 4000000000\n";
    assert!(!admits(huge));
    assert!(matches!(carve_encoded(huge, 2, 2), Err(RenderError::Refused)));
}

#[test]
fn netpbm_needs_small_sides() {
    assert!(admits(&netpbm(b'5', "\n3 1\n255\n", &[0, 255, 0])));
    assert!(admits(&netpbm(b'1', " 2 2 ", b"0110")));
    assert!(admits(&netpbm(b'4', "\t\r\n8  \x0b\x0c1\n", &[0xf0])));
    assert!(admits(&netpbm(b'6', " 00001 1", &[])));
    // no second side
    assert!(!admits(&netpbm(b'5', " 3", &[])));
    assert!(!admits(&netpbm(b'5', " 3 ", &[])));
    assert!(!admits(&netpbm(b'5', "", &[])));
    // signs and other bytes
    assert!(!admits(&netpbm(b'5', " +3 1 255 ", &[0, 255, 0])));
    assert!(!admits(&netpbm(b'5', " 3x 1 255 ", &[0, 255, 0])));
    assert!(!admits(&netpbm(b'5', " 3 1x 255 ", &[0, 255, 0])));
    // zero, too many digits, too large
    assert!(!admits(&netpbm(b'5', " 0 1 255 ", &[])));
    assert!(!admits(&netpbm(b'5', " 1 0 255 ", &[])));
    assert!(!admits(&netpbm(b'5', " 000001 1 255 ", &[0])));
    assert!(!admits(&netpbm(b'5', " 65536 65536 255\n", &[0; 64])));
    assert!(!admits(&netpbm(b'5', " 16385 1 255\n", &[0; 4096])));
    // the arbitrary-map kind
    assert!(!admits(&netpbm(b'7', "\nWIDTH 1\nHEIGHT 1\nDEPTH 1\nMAXVAL 255\nENDHDR\n", &[0])));
}

#[test]
fn netpbm_comments_are_passed_over() {
    assert!(admits(&netpbm(b'5', "\n# made by hand\n3 1\n255\n", &[0, 255, 0])));
    assert!(admits(&netpbm(b'5', "# at once\r3 # between\n 1 255 ", &[0, 255, 0])));
    assert!(admits(&netpbm(b'5', " 3\n#a\n#b\n\n1\n255\n", &[0, 255, 0])));
    // a comment that touches a number would be spliced out of it
    assert!(!admits(&netpbm(b'5', " 3#x\n 1 255 ", &[0, 255, 0])));
    assert!(!admits(&netpbm(b'5', " 3 1#x\n 255 ", &[0, 255, 0])));
    // a comment that never ends
    assert!(!admits(&netpbm(b'5', " 3 # 1 255 ", &[0, 255, 0])));
    let content = netpbm(b'5', "\n# made by hand\n3 1\n# depth\n255\n", &[0, 255, 0]);
    assert_eq!(carve_encoded(&content, 2, 1).unwrap(), vec![0, 0, 0, 255, 0, 0, 0, 255]);
}

#[test]
fn netpbm_sides_must_be_backed_by_content() {
    assert_eq!(MAX_SIDE, 16384);
    let header = " 16384 16384 255\n";
    assert!(!admits(&netpbm(b'5', header, &[0; 64])));
    let mut backed = netpbm(b'4', " 16384 1 ", &[]);
    backed.resize(2048, 0);
    assert!(admits(&backed));
    backed.truncate(2047);
    assert!(!admits(&backed));
    assert!(admits(&netpbm(b'5', " 4 2 ", &[])));
}

#[test]
fn overflowing_graymap_is_refused() {
    let content = netpbm(b'5', "\n65536 65536\n255\n", &[0; 16]);
    assert!(matches!(carve_encoded(&content, 2, 2), Err(RenderError::Refused)));
}

#[test]
fn admitted_graymap_is_decoded_and_carved() {
    let content = netpbm(b'5', "\n3 1\n255\n", &[0, 255, 0]);
    assert_eq!(carve_encoded(&content, 2, 1).unwrap(), vec![0, 0, 0, 255, 0, 0, 0, 255]);
    let text = netpbm(b'2', "\n3 1\n255\n", b"0 255 0\n");
    assert_eq!(carve_encoded(&text, 2, 1).unwrap(), vec![0, 0, 0, 255, 0, 0, 0, 255]);
    let color = netpbm(b'6', " 1 2 255\n", &[1, 2, 3, 4, 5, 6]);
    assert_eq!(carve_encoded(&color, 1, 2).unwrap(), vec![1, 2, 3, 255, 4, 5, 6, 255]);
    let bits = netpbm(b'1', " 2 1\n", b"1 0\n");
    assert_eq!(carve_encoded(&bits, 2, 1).unwrap().len(), 8);
}

#[test]
fn admitted_graymap_without_pixels_is_undecodable() {
    let content = netpbm(b'5', " 4 2 255\n", &[1, 2, 3]);
    assert!(matches!(carve_encoded(&content, 2, 2), Err(RenderError::Undecodable(_))));
}

fn bitmap_header(size: u32, width: u32, height: i32, bits: u16, compression: u32) -> Vec<u8> {
    let mut file = Vec::new();
    file.extend_from_slice(b"BM");
    file.extend_from_slice(&[0; 8]);
    file.extend_from_slice(&(14 + size).to_le_bytes());
    file.extend_from_slice(&size.to_le_bytes());
    file.extend_from_slice(&width.to_le_bytes());
    file.extend_from_slice(&height.to_le_bytes());
    file.extend_from_slice(&1u16.to_le_bytes());
    file.extend_from_slice(&bits.to_le_bytes());
    file.extend_from_slice(&compression.to_le_bytes());
    file.resize(14 + size as usize, 0);
    file
}

#[test]
fn bitmaps_need_plain_full_byte_pixels() {
    assert_eq!((MAX_BITMAP_SIDE, MAX_BITMAP_PIXELS), (65535, 8192 * 4096));
    assert!(admits(&bitmap_header(40, 2, 2, 24, 0)));
    assert!(admits(&bitmap_header(40, 2, -2, 32, 0)));
    assert!(admits(&bitmap_header(124, 5, 5, 24, 0)));
    assert!(admits(&bitmap_header(108, 9, 9, 32, 0)));
    // the core header, unknown headers, a header cut short
    assert!(!admits(&bitmap_header(12, 2, 2, 24, 0)));
    assert!(!admits(&bitmap_header(41, 2, 2, 24, 0)));
    assert!(!admits(&bitmap_header(40, 2, 2, 24, 0)[..33]));
    assert!(!admits(b"BM"));
    // palettes, sixteen bits, run lengths, bit fields
    assert!(!admits(&bitmap_header(40, 2, 2, 8, 0)));
    assert!(!admits(&bitmap_header(40, 2, 2, 1, 0)));
    assert!(!admits(&bitmap_header(40, 2, 2, 16, 0)));
    assert!(!admits(&bitmap_header(40, 2, 2, 8, 1)));
    assert!(!admits(&bitmap_header(40, 2, 2, 4, 2)));
    assert!(!admits(&bitmap_header(40, 2, 2, 32, 3)));
    // sides
    assert!(!admits(&bitmap_header(40, 0, 2, 24, 0)));
    assert!(!admits(&bitmap_header(40, 2, 0, 24, 0)));
    assert!(!admits(&bitmap_header(40, 0x8000_0001, 2, 24, 0)));
    assert!(!admits(&bitmap_header(40, 2, i32::MIN, 24, 0)));
    assert!(!admits(&bitmap_header(40, 65536, 1, 24, 0)));
    // more pixels than bytes
    assert!(!admits(&bitmap_header(40, 11, 5, 24, 0)));
    let mut large = bitmap_header(40, 8192, 4097, 24, 0);
    large.resize(8192 * 4097, 0);
    assert!(!admits(&large));
}

#[test]
fn top_down_bitmap_is_decoded_and_carved() {
    let mut content = bitmap_header(40, 1, -2, 32, 0);
    content.extend_from_slice(&[3, 2, 1, 0, 6, 5, 4, 0]);
    assert_eq!(carve_encoded(&content, 1, 2).unwrap(), vec![1, 2, 3, 255, 4, 5, 6, 255]);
}
