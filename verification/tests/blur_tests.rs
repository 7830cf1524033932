use unblur::{normalize_box_size, Image, ImageBlur, Pixel};

fn px(r: u8, g: u8, b: u8, a: u8) -> Pixel {
    Pixel { r, g, b, a }
}

fn uniform(width: usize, height: usize, p: Pixel) -> Image {
    Image::new(width, height, vec![p; width * height])
}

#[test]
fn normalization_yields_odd_at_least_three() {
    // The full input domain: zero, small odd, small even, larger values.
    assert_eq!(normalize_box_size(0), 3);
    assert_eq!(normalize_box_size(1), 3);
    assert_eq!(normalize_box_size(2), 3);
    assert_eq!(normalize_box_size(3), 3);
    assert_eq!(normalize_box_size(4), 5);
    assert_eq!(normalize_box_size(5), 5);
    assert_eq!(normalize_box_size(14), 15);
    assert_eq!(normalize_box_size(15), 15);
    assert_eq!(normalize_box_size(100), 101);
    for s in 0..200usize {
        let n = normalize_box_size(s);
        assert!(n % 2 == 1);
        assert!(n >= 3);
    }
}

#[test]
fn uniform_raster_is_blur_fixed_point() {
    let p = px(37, 99, 12, 255);
    let img = uniform(10, 7, p);
    for window in [3usize, 5, 9, 15] {
        let out = img.blur(Some(window), Some(1));
        assert_eq!(out.width, 10);
        assert_eq!(out.height, 7);
        assert_eq!(out.pixels, img.pixels);
    }
    let out = img.blur(None, None);
    assert_eq!(out.pixels, img.pixels);
}

#[test]
fn blur_exact_two_pixel_average() {
    let img = Image::new(2, 1, vec![px(10, 20, 30, 40), px(20, 40, 60, 80)]);
    let out = img.blur(Some(3), Some(1));
    assert_eq!(out.width, 2);
    assert_eq!(out.height, 1);
    assert_eq!(out.pixels[0], px(15, 30, 45, 60));
    assert_eq!(out.pixels[1], px(15, 30, 45, 60));
}

#[test]
fn blur_truncating_division_at_edges() {
    // Window 3 on a 3x1 strip: edge pixels average two neighbors, the middle
    // pixel three; division truncates.
    let img = Image::new(3, 1, vec![px(0, 0, 0, 0), px(1, 0, 0, 0), px(3, 0, 0, 0)]);
    let out = img.blur(Some(3), Some(1));
    assert_eq!(out.pixels[0].r, 0); // (0 + 1) / 2
    assert_eq!(out.pixels[1].r, 1); // (0 + 1 + 3) / 3
    assert_eq!(out.pixels[2].r, 2); // (1 + 3) / 2
}

#[test]
fn blur_repeats_rounds() {
    let img = Image::new(3, 1, vec![px(0, 0, 0, 0), px(1, 0, 0, 0), px(3, 0, 0, 0)]);
    let out = img.blur(Some(3), Some(2));
    // First round gives [0, 1, 2]; the second averages that.
    assert_eq!(out.pixels[0].r, 0); // (0 + 1) / 2
    assert_eq!(out.pixels[1].r, 1); // (0 + 1 + 2) / 3
    assert_eq!(out.pixels[2].r, 1); // (1 + 2) / 2
}

#[test]
fn blur_even_window_rounds_up() {
    // Window 2 normalizes to 3, so this equals the window-3 blur.
    let img = Image::new(3, 1, vec![px(0, 0, 0, 0), px(1, 0, 0, 0), px(3, 0, 0, 0)]);
    let a = img.blur(Some(2), Some(1));
    let b = img.blur(Some(3), Some(1));
    assert_eq!(a.pixels, b.pixels);
}
