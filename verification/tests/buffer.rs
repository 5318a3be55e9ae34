use motsu::image::Image;
use motsu::pixel::{Gray, RGB, RGBA};

fn sample_rgba() -> Image<RGBA> {
    // Row 0: red, green. Row 1: blue, white. All fully opaque.
    let bytes = vec![
        255, 0, 0, 255, 0, 255, 0, 255, //
        0, 0, 255, 255, 255, 255, 255, 255,
    ];
    Image::new(2, 2, bytes)
}

#[test]
fn new_keeps_exact_data() {
    let img = sample_rgba();
    assert_eq!(img.height(), 2);
    assert_eq!(img.width(), 2);
    assert_eq!(img.row_size(), 8);
    assert_eq!(img.data().len(), 16);
}

#[test]
fn new_pads_short_data_with_zeros() {
    // Two RGB pixels need 6 bytes; only 4 supplied.
    let img: Image<RGB> = Image::new(1, 2, vec![1, 2, 3, 4]);
    assert_eq!(img.data(), &[1, 2, 3, 4, 0, 0]);
}

#[test]
fn new_truncates_long_data() {
    let img: Image<Gray> = Image::new(2, 2, vec![1, 2, 3, 4, 5, 6, 7]);
    assert_eq!(img.data(), &[1, 2, 3, 4]);
}

#[test]
fn dimension_invariant_after_operations() {
    let img = sample_rgba();
    assert_eq!(img.data().len(), 2 * 2 * 4);
    let gray: Image<Gray> = img.convert();
    assert_eq!(gray.data().len(), 2 * 2 * 1);
    let cropped = img.crop(1, 0, 1, 0);
    assert_eq!(
        cropped.data().len(),
        cropped.height() * cropped.width() * 4
    );
    let padded: Image<RGBA> = Image::new(3, 3, Vec::new());
    assert_eq!(padded.data().len(), 3 * 3 * 4);
}

#[test]
fn get_pixel_reads_row_major() {
    let img = sample_rgba();
    assert_eq!(img.get_pixel(0, 0), RGBA { red: 255, green: 0, blue: 0, alpha: 255 });
    assert_eq!(img.get_pixel(1, 0), RGBA { red: 0, green: 255, blue: 0, alpha: 255 });
    assert_eq!(img.get_pixel(0, 1), RGBA { red: 0, green: 0, blue: 255, alpha: 255 });
    assert_eq!(img.get_pixel(1, 1), RGBA { red: 255, green: 255, blue: 255, alpha: 255 });
}

#[test]
fn to_pixels_and_back_is_lossless() {
    let img = sample_rgba();
    let grid = img.to_pixels();
    assert_eq!(grid.len(), 2);
    assert_eq!(grid[0].len(), 2);
    let rebuilt = Image::from_pixels(grid);
    assert_eq!(rebuilt.height(), 2);
    assert_eq!(rebuilt.width(), 2);
    assert_eq!(rebuilt.data(), img.data());
}

#[test]
fn from_pixels_empty_grid_gives_empty_buffer() {
    let empty: Vec<Vec<RGBA>> = Vec::new();
    let img = Image::from_pixels(empty);
    assert_eq!(img.height(), 0);
    assert_eq!(img.width(), 0);
    assert_eq!(img.data().len(), 0);

    let empty_rows: Vec<Vec<RGBA>> = vec![Vec::new(), Vec::new()];
    let img = Image::from_pixels(empty_rows);
    assert_eq!(img.height(), 0);
    assert_eq!(img.width(), 0);
    assert_eq!(img.data().len(), 0);
}

#[test]
fn convert_to_gray_scenario() {
    let img = sample_rgba();
    let gray: Image<Gray> = img.convert();
    assert_eq!(gray.height(), 2);
    assert_eq!(gray.width(), 2);
    assert_eq!(gray.data(), &[76, 150, 28, 255]);
}

#[test]
fn convert_identity_keeps_bytes() {
    let img = sample_rgba();
    let same: Image<RGBA> = img.convert();
    assert_eq!(same.data(), img.data());
}

#[test]
fn convert_rgb_to_rgba_sets_opaque_alpha() {
    let img: Image<RGB> = Image::new(1, 2, vec![1, 2, 3, 4, 5, 6]);
    let rgba: Image<RGBA> = img.convert();
    assert_eq!(rgba.data(), &[1, 2, 3, 255, 4, 5, 6, 255]);
}

#[test]
fn crop_left_scenario() {
    let img = sample_rgba();
    let cropped = img.crop(1, 0, 0, 0);
    assert_eq!(cropped.height(), 2);
    assert_eq!(cropped.width(), 1);
    assert_eq!(cropped.data(), &[0, 255, 0, 255, 255, 255, 255, 255]);
}

#[test]
fn crop_top_scenario() {
    let img = sample_rgba();
    let cropped = img.crop(0, 0, 1, 0);
    assert_eq!(cropped.height(), 1);
    assert_eq!(cropped.width(), 2);
    assert_eq!(cropped.data(), &[0, 0, 255, 255, 255, 255, 255, 255]);
}

#[test]
fn crop_right_and_bottom() {
    let img = sample_rgba();
    let cropped = img.crop(0, 1, 0, 1);
    assert_eq!(cropped.height(), 1);
    assert_eq!(cropped.width(), 1);
    assert_eq!(cropped.data(), &[255, 0, 0, 255]);
}

#[test]
fn crop_dimension_law() {
    let img: Image<Gray> = Image::new(10, 8, vec![7; 80]);
    let cropped = img.crop(2, 3, 1, 4);
    assert_eq!(cropped.width(), 8 - 2 - 3);
    assert_eq!(cropped.height(), 10 - 1 - 4);
}

#[test]
fn crop_nothing_is_byte_identical() {
    let img = sample_rgba();
    let same = img.crop(0, 0, 0, 0);
    assert_eq!(same.height(), 2);
    assert_eq!(same.width(), 2);
    assert_eq!(same.data(), img.data());
}

#[test]
fn crop_clamps_overlarge_vertical_request() {
    let img = sample_rgba();
    let cropped = img.crop(1, 0, 1, 1);
    // Top and bottom together consume the whole height: the vertical
    // axis is left untouched, the horizontal crop still applies.
    assert_eq!(cropped.height(), 2);
    assert_eq!(cropped.width(), 1);
    assert_eq!(cropped.data(), &[0, 255, 0, 255, 255, 255, 255, 255]);
}

#[test]
fn crop_clamps_overlarge_horizontal_request() {
    let img = sample_rgba();
    let cropped = img.crop(5, 0, 0, 1);
    assert_eq!(cropped.width(), 2);
    assert_eq!(cropped.height(), 1);
    assert_eq!(cropped.data(), &[255, 0, 0, 255, 0, 255, 0, 255]);
}

#[test]
fn into_raw_hands_storage_back() {
    let img: Image<Gray> = Image::new(1, 3, vec![1, 2, 3]);
    assert_eq!(img.into_raw(), vec![1, 2, 3]);
}

#[test]
fn clone_copies_bytes() {
    let img = sample_rgba();
    let copy = img.clone();
    assert_eq!(copy.height(), img.height());
    assert_eq!(copy.width(), img.width());
    assert_eq!(copy.data(), img.data());
}
