//! Tests for the value types.

use termnix::Color;
#[test]
fn default_has_no_rgb() {
    assert_eq!(Color::Default.to_rgb(), None);
}

#[test]
fn rgb_is_returned_unchanged() {
    assert_eq!(Color::Rgb(1, 2, 3).to_rgb(), Some((1, 2, 3)));
    assert_eq!(Color::Rgb(255, 0, 128).to_rgb(), Some((255, 0, 128)));
}

#[test]
fn indexed_system_palette_boundaries() {
    assert_eq!(Color::Indexed(0).to_rgb(), Some((0, 0, 0)));
    assert_eq!(Color::Indexed(15).to_rgb(), Some((255, 255, 255)));
}

#[test]
fn indexed_color_cube() {
    assert_eq!(Color::Indexed(16).to_rgb(), Some((0, 0, 0)));
    assert_eq!(Color::Indexed(21).to_rgb(), Some((0, 0, 255)));
    assert_eq!(Color::Indexed(196).to_rgb(), Some((255, 0, 0)));
    assert_eq!(Color::Indexed(231).to_rgb(), Some((255, 255, 255)));
}

#[test]
fn indexed_grayscale_ramp() {
    assert_eq!(Color::Indexed(232).to_rgb(), Some((8, 8, 8)));
    assert_eq!(Color::Indexed(255).to_rgb(), Some((238, 238, 238)));
}
