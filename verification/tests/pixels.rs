use motsu::pixel::{Gray, GrayA, Pixel, PixelConvert, RGB, RGBA};

#[test]
fn gray_round_trip() {
    let p = Gray { gray: 143 };
    let bytes = p.into_vec();
    assert_eq!(bytes, vec![143]);
    assert_eq!(Gray::from_slice(&bytes, 0), p);
}

#[test]
fn graya_round_trip() {
    let p = GrayA { gray: 7, alpha: 200 };
    let bytes = p.into_vec();
    assert_eq!(bytes, vec![7, 200]);
    assert_eq!(GrayA::from_slice(&bytes, 0), p);
}

#[test]
fn rgb_round_trip() {
    let p = RGB { red: 1, green: 2, blue: 3 };
    let bytes = p.into_vec();
    assert_eq!(bytes, vec![1, 2, 3]);
    assert_eq!(RGB::from_slice(&bytes, 0), p);
}

#[test]
fn rgba_round_trip() {
    let p = RGBA { red: 9, green: 8, blue: 7, alpha: 6 };
    let bytes = p.into_vec();
    assert_eq!(bytes, vec![9, 8, 7, 6]);
    assert_eq!(RGBA::from_slice(&bytes, 0), p);
}

#[test]
fn from_slice_reads_at_offset() {
    let bytes = vec![0, 0, 0, 10, 20, 30, 40];
    assert_eq!(
        RGBA::from_slice(&bytes, 3),
        RGBA { red: 10, green: 20, blue: 30, alpha: 40 }
    );
    assert_eq!(GrayA::from_slice(&bytes, 3), GrayA { gray: 10, alpha: 20 });
    assert_eq!(RGB::from_slice(&bytes, 4), RGB { red: 20, green: 30, blue: 40 });
    assert_eq!(Gray::from_slice(&bytes, 6), Gray { gray: 40 });
}

#[test]
fn num_channels_per_format() {
    assert_eq!(Gray::num_channels(), 1);
    assert_eq!(GrayA::num_channels(), 2);
    assert_eq!(RGB::num_channels(), 3);
    assert_eq!(RGBA::num_channels(), 4);
}

#[test]
fn luminance_is_truncating() {
    assert_eq!(motsu::pixel::rgb_to_gray(255, 0, 0), 76);
    assert_eq!(motsu::pixel::rgb_to_gray(0, 255, 0), 150);
    assert_eq!(motsu::pixel::rgb_to_gray(0, 0, 255), 28);
    assert_eq!(motsu::pixel::rgb_to_gray(255, 255, 255), 255);
    assert_eq!(motsu::pixel::rgb_to_gray(0, 0, 0), 0);
}

#[test]
fn conversions_to_gray_use_luminance() {
    let red = RGB { red: 255, green: 0, blue: 0 };
    let g: Gray = red.convert();
    assert_eq!(g, Gray { gray: 76 });
    let white = RGBA { red: 255, green: 255, blue: 255, alpha: 12 };
    let g: Gray = white.convert();
    assert_eq!(g, Gray { gray: 255 });
}

#[test]
fn conversions_default_alpha_to_opaque() {
    let p = RGB { red: 1, green: 2, blue: 3 };
    let q: RGBA = p.convert();
    assert_eq!(q, RGBA { red: 1, green: 2, blue: 3, alpha: 255 });
    let q: GrayA = p.convert();
    assert_eq!(q.alpha, 255);
    let g = Gray { gray: 50 };
    let q: RGBA = g.convert();
    assert_eq!(q, RGBA { red: 50, green: 50, blue: 50, alpha: 255 });
    let q: GrayA = g.convert();
    assert_eq!(q, GrayA { gray: 50, alpha: 255 });
}

#[test]
fn conversions_copy_existing_alpha() {
    let p = RGBA { red: 10, green: 20, blue: 30, alpha: 99 };
    let q: GrayA = p.convert();
    assert_eq!(q.alpha, 99);
    let g = GrayA { gray: 5, alpha: 42 };
    let q: RGBA = g.convert();
    assert_eq!(q, RGBA { red: 5, green: 5, blue: 5, alpha: 42 });
}

#[test]
fn conversions_drop_alpha_to_formats_without() {
    let p = RGBA { red: 10, green: 20, blue: 30, alpha: 99 };
    let q: RGB = p.convert();
    assert_eq!(q, RGB { red: 10, green: 20, blue: 30 });
    let g = GrayA { gray: 5, alpha: 42 };
    let q: Gray = g.convert();
    assert_eq!(q, Gray { gray: 5 });
    let q: RGB = g.convert();
    assert_eq!(q, RGB { red: 5, green: 5, blue: 5 });
}

#[test]
fn identity_conversions_return_input() {
    let g = Gray { gray: 3 };
    let ga = GrayA { gray: 4, alpha: 5 };
    let rgb = RGB { red: 6, green: 7, blue: 8 };
    let rgba = RGBA { red: 9, green: 10, blue: 11, alpha: 12 };
    let g2: Gray = g.convert();
    let ga2: GrayA = ga.convert();
    let rgb2: RGB = rgb.convert();
    let rgba2: RGBA = rgba.convert();
    assert_eq!(g2, g);
    assert_eq!(ga2, ga);
    assert_eq!(rgb2, rgb);
    assert_eq!(rgba2, rgba);
}
