use seam_carving::pixel::{Color, PixelBuffer};
use seam_carving::resize::{adjust, resize, ResizeError, ResizeRequest};
use seam_carving::seam::Axis;

const BLACK: Color = Color { r: 0, g: 0, b: 0, a: 255 };
const WHITE: Color = Color { r: 255, g: 255, b: 255, a: 255 };

fn gray(v: u8) -> Color {
    Color { r: v, g: v, b: v, a: 255 }
}

fn buffer(width: usize, height: usize, pixels: Vec<Color>) -> PixelBuffer {
    PixelBuffer::new(width, height, pixels).unwrap()
}

fn gradient(width: usize, height: usize) -> PixelBuffer {
    let mut pixels = Vec::new();
    for r in 0..height {
        for c in 0..width {
            pixels.push(Color {
                r: (r * 40 + c * 7) as u8,
                g: (c * 31) as u8,
                b: ((r + c) * 13) as u8,
                a: 255,
            });
        }
    }
    buffer(width, height, pixels)
}

#[test]
fn black_white_black_loses_the_white_pixel() {
    let source = buffer(3, 1, vec![BLACK, WHITE, BLACK]);
    let out = resize(source, 2, 1).unwrap();
    assert_eq!(out, buffer(2, 1, vec![BLACK, BLACK]));
}

#[test]
fn uniform_four_by_four_shrinks_to_uniform_two_by_two() {
    let color = Color { r: 9, g: 120, b: 33, a: 200 };
    let source = buffer(4, 4, vec![color; 16]);
    let out = resize(source, 2, 2).unwrap();
    assert_eq!(out.width(), 2);
    assert_eq!(out.height(), 2);
    assert_eq!(out, buffer(2, 2, vec![color; 4]));
}

#[test]
fn equal_ends_of_a_ramp_lose_the_first_one() {
    // A ramp has its least energy at both ends; the tie goes to the first
    // column and to the first row.
    let row = buffer(4, 1, vec![gray(0), gray(10), gray(20), gray(30)]);
    // energies: 30, 60, 60, 30 -> column 0 goes
    assert_eq!(resize(row, 3, 1).unwrap(), buffer(3, 1, vec![gray(10), gray(20), gray(30)]));
    let column = buffer(1, 4, vec![gray(0), gray(10), gray(20), gray(30)]);
    assert_eq!(resize(column, 1, 3).unwrap(), buffer(1, 3, vec![gray(10), gray(20), gray(30)]));
}

#[test]
fn height_only_shrink_keeps_the_width() {
    let source = gradient(5, 5);
    let out = resize(source.clone(), 5, 3).unwrap();
    assert_eq!(out.width(), 5);
    assert_eq!(out.height(), 3);
    // only horizontal seams were applied
    assert_eq!(out, adjust(source, Axis::Horizontal, 3));
}

#[test]
fn width_only_shrink_keeps_the_height() {
    let source = gradient(5, 4);
    let out = resize(source.clone(), 2, 4).unwrap();
    assert_eq!(out.width(), 2);
    assert_eq!(out.height(), 4);
    assert_eq!(out, adjust(source, Axis::Vertical, 2));
}

#[test]
fn one_by_one_stays_as_it_is() {
    let pixel = Color { r: 1, g: 2, b: 3, a: 4 };
    let out = resize(buffer(1, 1, vec![pixel]), 1, 1).unwrap();
    assert_eq!(out, buffer(1, 1, vec![pixel]));
    assert_eq!(out.get(0, 0), pixel);
}

#[test]
fn resize_reaches_the_requested_dimensions() {
    for &(tw, th) in &[(1, 1), (3, 7), (7, 3), (4, 5), (9, 2), (2, 9), (6, 6)] {
        let out = resize(gradient(4, 5), tw, th).unwrap();
        assert_eq!(out.width(), tw);
        assert_eq!(out.height(), th);
    }
}

#[test]
fn resize_to_own_dimensions_is_the_identity() {
    let source = gradient(6, 4);
    let out = resize(source.clone(), 6, 4).unwrap();
    assert_eq!(out, source);
}

#[test]
fn zero_target_is_refused_whatever_the_other_target() {
    assert_eq!(resize(gradient(3, 2), usize::MAX, 0), Err(ResizeError::InvalidTarget));
    assert_eq!(resize(gradient(3, 2), 0, usize::MAX), Err(ResizeError::InvalidTarget));
}

#[test]
fn zero_target_is_refused() {
    assert_eq!(resize(gradient(3, 3), 0, 3), Err(ResizeError::InvalidTarget));
    assert_eq!(resize(gradient(3, 3), 3, 0), Err(ResizeError::InvalidTarget));
    assert_eq!(resize(gradient(3, 3), 0, 0), Err(ResizeError::InvalidTarget));
}

#[test]
fn growing_a_row_inserts_the_mean_after_the_leftmost_seam() {
    // both energies are 765, the tie goes to column 0
    let out = resize(buffer(2, 1, vec![BLACK, WHITE]), 3, 1).unwrap();
    assert_eq!(out, buffer(3, 1, vec![BLACK, gray(127), WHITE]));
}

#[test]
fn width_is_adjusted_before_height() {
    let source = gradient(4, 4);
    let by_steps = adjust(adjust(source.clone(), Axis::Vertical, 2), Axis::Horizontal, 6);
    assert_eq!(resize(source, 2, 6).unwrap(), by_steps);
}

#[test]
fn adjust_grows_and_shrinks_one_dimension() {
    let grown = adjust(gradient(3, 2), Axis::Vertical, 5);
    assert_eq!((grown.width(), grown.height()), (5, 2));
    let shrunk = adjust(gradient(3, 4), Axis::Horizontal, 1);
    assert_eq!((shrunk.width(), shrunk.height()), (3, 1));
}

#[test]
fn request_needs_positive_targets() {
    assert_eq!(ResizeRequest::new(0, 5), Err(ResizeError::InvalidTarget));
    assert_eq!(ResizeRequest::new(5, 0), Err(ResizeError::InvalidTarget));
    let request = ResizeRequest::new(2, 3).unwrap();
    assert_eq!((request.target_width(), request.target_height()), (2, 3));
}

#[test]
fn applying_a_request_is_resizing() {
    let request = ResizeRequest::new(3, 6).unwrap();
    let out = request.apply(gradient(5, 4));
    assert_eq!((out.width(), out.height()), (3, 6));
    assert_eq!(out, resize(gradient(5, 4), 3, 6).unwrap());
}

#[test]
fn heights_are_adjusted_like_widths_of_the_transposed_image() {
    let source = gradient(4, 5);
    let shrunk = adjust(source.clone(), Axis::Horizontal, 2);
    assert_eq!(shrunk, adjust(source.transposed(), Axis::Vertical, 2).transposed());
    let grown = adjust(source.clone(), Axis::Horizontal, 8);
    assert_eq!(grown, adjust(source.transposed(), Axis::Vertical, 8).transposed());
}
