use seam_carving::editor::{insert, remove};
use seam_carving::pixel::{Color, PixelBuffer};
use seam_carving::seam::{Axis, Seam};

fn gray(v: u8) -> Color {
    Color { r: v, g: v, b: v, a: 255 }
}

fn grays(width: usize, height: usize, values: &[u8]) -> PixelBuffer {
    PixelBuffer::new(width, height, values.iter().map(|&v| gray(v)).collect()).unwrap()
}

#[test]
fn removing_a_vertical_seam_shifts_the_rest_left() {
    let source = grays(3, 2, &[1, 2, 3, 4, 5, 6]);
    let seam = Seam::new(Axis::Vertical, vec![1, 2]).unwrap();
    assert_eq!(remove(&source, &seam), grays(2, 2, &[1, 3, 4, 5]));
}

#[test]
fn removing_a_horizontal_seam_shifts_the_rest_up() {
    let source = grays(2, 3, &[1, 2, 3, 4, 5, 6]);
    let seam = Seam::new(Axis::Horizontal, vec![0, 1]).unwrap();
    assert_eq!(remove(&source, &seam), grays(2, 2, &[3, 2, 5, 6]));
}

#[test]
fn inserting_a_vertical_seam_adds_the_mean_of_both_neighbours() {
    let source = grays(3, 2, &[10, 20, 40, 1, 2, 4]);
    let seam = Seam::new(Axis::Vertical, vec![0, 1]).unwrap();
    assert_eq!(insert(&source, &seam), grays(4, 2, &[10, 15, 20, 40, 1, 2, 3, 4]));
}

#[test]
fn inserting_at_the_right_border_repeats_the_border_pixel() {
    let source = grays(3, 1, &[10, 20, 40]);
    let seam = Seam::new(Axis::Vertical, vec![2]).unwrap();
    assert_eq!(insert(&source, &seam), grays(4, 1, &[10, 20, 40, 40]));
}

#[test]
fn inserting_a_horizontal_seam_adds_a_row() {
    let source = grays(2, 2, &[10, 20, 30, 60]);
    let seam = Seam::new(Axis::Horizontal, vec![0, 1]).unwrap();
    // column 0: 10, mean(10, 30), 30; column 1: 20, 60, mean(60, 60)
    assert_eq!(insert(&source, &seam), grays(2, 3, &[10, 20, 20, 60, 30, 60]));
}

#[test]
fn the_mean_is_taken_per_channel_and_rounded_down() {
    let left = Color { r: 1, g: 255, b: 0, a: 7 };
    let right = Color { r: 2, g: 255, b: 1, a: 10 };
    assert_eq!(left.blend(&right), Color { r: 1, g: 255, b: 0, a: 8 });
    let source = PixelBuffer::new(2, 1, vec![left, right]).unwrap();
    let seam = Seam::new(Axis::Vertical, vec![0]).unwrap();
    let expected = PixelBuffer::new(3, 1, vec![left, left.blend(&right), right]).unwrap();
    assert_eq!(insert(&source, &seam), expected);
}

#[test]
fn removal_after_insertion_restores_the_shape() {
    let source = grays(3, 2, &[1, 2, 3, 4, 5, 6]);
    let seam = Seam::new(Axis::Vertical, vec![2, 1]).unwrap();
    let wider = insert(&source, &seam);
    assert_eq!((wider.width(), wider.height()), (4, 2));
    let other = Seam::new(Axis::Vertical, vec![3, 3]).unwrap();
    let back = remove(&wider, &other);
    assert_eq!((back.width(), back.height()), (3, 2));

    let across = Seam::new(Axis::Horizontal, vec![0, 1, 1]).unwrap();
    let taller = insert(&source, &across);
    assert_eq!((taller.width(), taller.height()), (3, 3));
    let back = remove(&taller, &Seam::new(Axis::Horizontal, vec![2, 2, 2]).unwrap());
    assert_eq!((back.width(), back.height()), (3, 2));
}

#[test]
fn removing_the_inserted_pixels_restores_the_pixels() {
    let source = grays(3, 2, &[1, 2, 3, 4, 5, 6]);
    let seam = Seam::new(Axis::Vertical, vec![0, 1]).unwrap();
    let wider = insert(&source, &seam);
    let added = Seam::new(Axis::Vertical, vec![1, 2]).unwrap();
    assert_eq!(remove(&wider, &added), source);
}
