use seam_carving::caption::file_caption;
use seam_carving::pipeline::{carve_encoded, carve_rgba, CarveError, RenderError};
use seam_carving::pixel::{Color, PixelBuffer};

/// An uncompressed 24-bit bitmap file holding the given red, green and blue
/// samples, three per pixel in reading order.
fn bitmap(width: usize, height: usize, samples: &[u8]) -> Vec<u8> {
    let stride = (width * 3 + 3) / 4 * 4;
    let size = 54 + stride * height;
    let mut file = Vec::new();
    file.extend_from_slice(b"BM");
    file.extend_from_slice(&(size as u32).to_le_bytes());
    file.extend_from_slice(&[0; 4]);
    file.extend_from_slice(&54u32.to_le_bytes());
    file.extend_from_slice(&40u32.to_le_bytes());
    file.extend_from_slice(&(width as i32).to_le_bytes());
    file.extend_from_slice(&(height as i32).to_le_bytes());
    file.extend_from_slice(&1u16.to_le_bytes());
    file.extend_from_slice(&24u16.to_le_bytes());
    file.extend_from_slice(&[0; 4]);
    file.extend_from_slice(&((stride * height) as u32).to_le_bytes());
    file.extend_from_slice(&[0; 16]);
    for row in (0..height).rev() {
        for col in 0..width {
            let at = (row * width + col) * 3;
            file.extend_from_slice(&[samples[at + 2], samples[at + 1], samples[at]]);
        }
        file.resize(file.len() + stride - width * 3, 0);
    }
    file
}

#[test]
fn buffer_construction_checks_the_shape() {
    let p = Color { r: 1, g: 2, b: 3, a: 4 };
    assert!(PixelBuffer::new(2, 3, vec![p; 6]).is_some());
    assert!(PixelBuffer::new(2, 3, vec![p; 5]).is_none());
    assert!(PixelBuffer::new(0, 3, vec![]).is_none());
    assert!(PixelBuffer::new(3, 0, vec![]).is_none());
    assert!(PixelBuffer::new(usize::MAX, usize::MAX, vec![p]).is_none());
}

#[test]
fn buffer_is_read_row_major() {
    let pixels: Vec<Color> = (0..6).map(|v| Color { r: v, g: 0, b: 0, a: 255 }).collect();
    let buffer = PixelBuffer::new(3, 2, pixels.clone()).unwrap();
    assert_eq!((buffer.width(), buffer.height()), (3, 2));
    assert_eq!(buffer.get(0, 2), pixels[2]);
    assert_eq!(buffer.get(1, 0), pixels[3]);
    let turned = buffer.transposed();
    assert_eq!((turned.width(), turned.height()), (2, 3));
    assert_eq!(turned.get(2, 0), pixels[2]);
    assert_eq!(turned.get(0, 1), pixels[3]);
    assert_eq!(turned.transposed(), buffer);
}

#[test]
fn samples_are_packed_red_green_blue_alpha() {
    let data = vec![1, 2, 3, 4, 5, 6, 7, 8];
    let buffer = PixelBuffer::from_rgba(2, 1, &data).unwrap();
    assert_eq!(buffer.get(0, 0), Color { r: 1, g: 2, b: 3, a: 4 });
    assert_eq!(buffer.get(0, 1), Color { r: 5, g: 6, b: 7, a: 8 });
    assert_eq!(buffer.to_rgba(), data);
    assert_eq!(PixelBuffer::from_rgba(1, 2, &data).unwrap().to_rgba(), data);
}

#[test]
fn packed_samples_must_be_four_per_pixel() {
    assert!(PixelBuffer::from_rgba(2, 1, &[0; 7]).is_none());
    assert!(PixelBuffer::from_rgba(2, 1, &[0; 9]).is_none());
    assert!(PixelBuffer::from_rgba(0, 1, &[]).is_none());
    assert!(PixelBuffer::from_rgba(1, 0, &[]).is_none());
    assert!(PixelBuffer::from_rgba(usize::MAX, 2, &[0; 8]).is_none());
    assert!(PixelBuffer::from_rgba(usize::MAX / 2, 1, &[0; 4]).is_none());
}

#[test]
fn carving_packed_samples_drops_the_white_pixel() {
    let data = [0, 0, 0, 255, 255, 255, 255, 255, 0, 0, 0, 255];
    assert_eq!(carve_rgba(3, 1, &data, 2, 1), Ok(vec![0, 0, 0, 255, 0, 0, 0, 255]));
    assert_eq!(carve_rgba(3, 1, &data, 3, 1), Ok(data.to_vec()));
}

#[test]
fn carving_packed_samples_reports_each_refusal() {
    let data = [0u8; 8];
    assert_eq!(carve_rgba(2, 1, &data[..7], 1, 1), Err(CarveError::Malformed));
    assert_eq!(carve_rgba(0, 1, &[], 1, 1), Err(CarveError::Malformed));
    assert_eq!(carve_rgba(3, 1, &data, 0, 0), Err(CarveError::Malformed));
    assert_eq!(carve_rgba(2, 1, &data, 0, 1), Err(CarveError::InvalidTarget));
    assert_eq!(carve_rgba(2, 1, &data, 1, 0), Err(CarveError::InvalidTarget));
    assert_eq!(carve_rgba(1, 2, &data, usize::MAX, 0), Err(CarveError::InvalidTarget));
    assert_eq!(carve_rgba(1, 2, &data, usize::MAX, 1), Err(CarveError::TooLarge));
    assert_eq!(carve_rgba(2, 1, &data, usize::MAX, 2), Err(CarveError::TooLarge));
}

#[test]
fn encoded_picture_is_decoded_carved_and_packed() {
    let content = bitmap(3, 1, &[0, 0, 0, 255, 255, 255, 0, 0, 0]);
    let out = carve_encoded(&content, 2, 1).unwrap();
    assert_eq!(out, vec![0, 0, 0, 255, 0, 0, 0, 255]);
    let same = carve_encoded(&content, 3, 1).unwrap();
    assert_eq!(same, vec![0, 0, 0, 255, 255, 255, 255, 255, 0, 0, 0, 255]);
    let grown = carve_encoded(&content, 3, 2).unwrap();
    assert_eq!(grown.len(), 3 * 2 * 4);
}

#[test]
fn encoded_rows_come_out_top_to_bottom() {
    let samples = [1, 2, 3, 4, 5, 6, 7, 8, 9, 10, 11, 12];
    let out = carve_encoded(&bitmap(2, 2, &samples), 2, 2).unwrap();
    assert_eq!(out, vec![1, 2, 3, 255, 4, 5, 6, 255, 7, 8, 9, 255, 10, 11, 12, 255]);
}

#[test]
fn undecodable_content_is_reported() {
    assert!(matches!(carve_encoded(&[], 2, 2), Err(RenderError::Undecodable(_))));
    assert!(matches!(carve_encoded(&[7], 2, 2), Err(RenderError::Undecodable(_))));
    assert!(matches!(carve_encoded(b"not a picture", 2, 2), Err(RenderError::Undecodable(_))));
}

#[test]
fn decoded_picture_with_a_bad_target_is_rejected() {
    let content = bitmap(2, 2, &[1, 2, 3, 4, 5, 6, 7, 8, 9, 10, 11, 12]);
    assert!(matches!(
        carve_encoded(&content, 0, 2),
        Err(RenderError::Rejected(CarveError::InvalidTarget))
    ));
    assert!(matches!(
        carve_encoded(&content, usize::MAX, 2),
        Err(RenderError::Rejected(CarveError::TooLarge))
    ));
}

#[test]
fn caption_names_the_file_and_its_size() {
    assert_eq!(file_caption("cat.png", 0), "cat.png: 0 bytes");
    assert_eq!(file_caption("cat.png", 7), "cat.png: 7 bytes");
    assert_eq!(file_caption("cat.png", 10), "cat.png: 10 bytes");
    assert_eq!(file_caption("a b", 120_034), "a b: 120034 bytes");
    assert_eq!(file_caption("", 1), ": 1 bytes");
    assert_eq!(file_caption("max", usize::MAX), format!("max: {} bytes", usize::MAX));
}
