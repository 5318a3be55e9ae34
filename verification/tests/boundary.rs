use motsu::codec::{assemble_rgba, image_from_rows, image_to_rows};
use motsu::control::{
    arrow_crop, calculate_delta, click_selection, crop_image, grow_crop, shrink_crop, ArrowKey,
    Crop, Side,
};
use motsu::image::Image;
use motsu::pixel::{RGB, RGBA};

#[test]
fn rows_round_trip() {
    let rows = vec![vec![1u8, 2, 3, 4, 5, 6], vec![7, 8, 9, 10, 11, 12]];
    let img: Image<RGB> = image_from_rows(2, &rows);
    assert_eq!(img.height(), 2);
    assert_eq!(img.width(), 2);
    assert_eq!(img.data(), &[1, 2, 3, 4, 5, 6, 7, 8, 9, 10, 11, 12]);
    let back = image_to_rows(&img);
    assert_eq!(back, rows);
}

#[test]
fn image_from_no_rows_is_empty() {
    let rows: Vec<Vec<u8>> = Vec::new();
    let img: Image<RGBA> = image_from_rows(5, &rows);
    assert_eq!(img.height(), 0);
    assert_eq!(img.width(), 5);
    assert_eq!(img.data().len(), 0);
}

#[test]
fn assemble_rgba_with_alpha_keeps_rows() {
    let rows = vec![vec![1u8, 2, 3, 4, 5, 6, 7, 8]];
    let img = assemble_rgba(2, true, &rows);
    assert_eq!(img.height(), 1);
    assert_eq!(img.width(), 2);
    assert_eq!(img.data(), &[1, 2, 3, 4, 5, 6, 7, 8]);
}

#[test]
fn assemble_rgba_without_alpha_converts() {
    let rows = vec![vec![1u8, 2, 3, 4, 5, 6]];
    let img = assemble_rgba(2, false, &rows);
    assert_eq!(img.height(), 1);
    assert_eq!(img.width(), 2);
    assert_eq!(img.data(), &[1, 2, 3, 255, 4, 5, 6, 255]);
}

#[test]
fn delta_depends_on_accelerator() {
    assert_eq!(calculate_delta(false), 1);
    assert_eq!(calculate_delta(true), 10);
}

#[test]
fn default_crop_is_zero() {
    let c: Crop = Default::default();
    assert_eq!(c, Crop { left: 0, right: 0, top: 0, bottom: 0 });
}

#[test]
fn grow_crop_moves_one_side() {
    let c = Crop { left: 1, right: 2, top: 3, bottom: 4 };
    let r = grow_crop(c, Side::Left, 5, 100, 100);
    assert_eq!(r, Crop { left: 6, right: 2, top: 3, bottom: 4 });
    let r = grow_crop(c, Side::Bottom, 5, 100, 100);
    assert_eq!(r, Crop { left: 1, right: 2, top: 3, bottom: 9 });
}

#[test]
fn grow_crop_clamps_to_leave_one_pixel() {
    let c = Crop { left: 4, right: 5, top: 0, bottom: 0 };
    // Width 12: only 2 more columns may go before one column remains.
    let r = grow_crop(c, Side::Left, 10, 12, 30);
    assert_eq!(r.left, 6);
    assert_eq!(r.right, 5);
    let r = grow_crop(c, Side::Right, 10, 12, 30);
    assert_eq!(r.left, 4);
    assert_eq!(r.right, 7);
}

#[test]
fn shrink_crop_clamps_at_zero() {
    let c = Crop { left: 3, right: 0, top: 7, bottom: 2 };
    let r = shrink_crop(c, Side::Left, 10);
    assert_eq!(r, Crop { left: 0, right: 0, top: 7, bottom: 2 });
    let r = shrink_crop(c, Side::Top, 5);
    assert_eq!(r, Crop { left: 3, right: 0, top: 2, bottom: 2 });
}

#[test]
fn arrow_keys_crop_the_far_side() {
    let c = Crop { left: 1, right: 2, top: 3, bottom: 4 };
    let r = arrow_crop(c, ArrowKey::Up, false, false, 50, 50);
    assert_eq!(r, Crop { left: 1, right: 2, top: 3, bottom: 5 });
    let r = arrow_crop(c, ArrowKey::Down, false, true, 50, 50);
    assert_eq!(r, Crop { left: 1, right: 2, top: 13, bottom: 4 });
    let r = arrow_crop(c, ArrowKey::Left, false, false, 50, 50);
    assert_eq!(r, Crop { left: 1, right: 3, top: 3, bottom: 4 });
    let r = arrow_crop(c, ArrowKey::Right, false, false, 50, 50);
    assert_eq!(r, Crop { left: 2, right: 2, top: 3, bottom: 4 });
}

#[test]
fn reversed_arrow_keys_uncrop_the_near_side() {
    let c = Crop { left: 1, right: 2, top: 3, bottom: 4 };
    let r = arrow_crop(c, ArrowKey::Up, true, true, 50, 50);
    assert_eq!(r, Crop { left: 1, right: 2, top: 0, bottom: 4 });
    let r = arrow_crop(c, ArrowKey::Left, true, false, 50, 50);
    assert_eq!(r, Crop { left: 0, right: 2, top: 3, bottom: 4 });
}

#[test]
fn click_selection_unscaled_window() {
    let c = Crop { left: 0, right: 0, top: 0, bottom: 0 };
    // Window and image are both 100 by 100: clicks map straight to
    // image coordinates.
    let r = click_selection(c, (10, 20), (60, 70), 100, 100, 100, 100);
    assert_eq!(r, Some(Crop { left: 10, right: 40, top: 20, bottom: 30 }));
}

#[test]
fn click_selection_scales_when_image_overflows() {
    let c = Crop { left: 0, right: 0, top: 0, bottom: 0 };
    // A 100 by 100 image shown in a 50 by 50 window: displayed
    // coordinates double on the way back to the image.
    let r = click_selection(c, (10, 20), (30, 40), 50, 50, 100, 100);
    assert_eq!(r, Some(Crop { left: 20, right: 40, top: 40, bottom: 20 }));
}

#[test]
fn click_selection_outside_display_selects_nothing() {
    let c = Crop { left: 0, right: 0, top: 0, bottom: 0 };
    // The 40-wide image sits centered in the 100-wide window, so a
    // click at its far left edge falls outside the displayed image.
    let r = click_selection(c, (0, 50), (60, 60), 100, 100, 40, 40);
    assert_eq!(r, None);
}

#[test]
fn crop_image_applies_all_sides() {
    let bytes = vec![
        255, 0, 0, 255, 0, 255, 0, 255, //
        0, 0, 255, 255, 255, 255, 255, 255,
    ];
    let img: Image<RGBA> = Image::new(2, 2, bytes);
    let c = Crop { left: 0, right: 1, top: 1, bottom: 0 };
    let out = crop_image(&img, c);
    assert_eq!(out.height(), 1);
    assert_eq!(out.width(), 1);
    assert_eq!(out.data(), &[0, 0, 255, 255]);
}
