use raytrace::{generate_img, image_height, Image, Rgb, ASPECT_H, ASPECT_W};

/// The header of a plain-text PPM file: magic number, size, largest channel value.
fn expected_header(width: u64, height: u64) -> String {
    format!("P{}\n{} {}\n255\n", 3, width, height)
}

fn rgb(r: u8, g: u8, b: u8) -> Rgb {
    Rgb { r, g, b }
}

#[test]
fn height_of_wide_image() {
    assert_eq!(image_height(400, 16, 9), 225);
    assert_eq!(image_height(400, ASPECT_W, ASPECT_H), 225);
}

#[test]
fn height_rounds_to_nearest() {
    // 8 * 9 / 16 = 4.5, rounded up
    assert_eq!(image_height(8, 16, 9), 5);
    // 10 * 9 / 16 = 5.625
    assert_eq!(image_height(10, 16, 9), 6);
    // 9 * 9 / 16 = 5.0625
    assert_eq!(image_height(9, 16, 9), 5);
    // 100 / 3 = 33.33
    assert_eq!(image_height(100, 3, 1), 33);
}

#[test]
fn height_is_at_least_one() {
    assert_eq!(image_height(0, 16, 9), 1);
    assert_eq!(image_height(1, 16, 9), 1);
    assert_eq!(image_height(1, 100, 1), 1);
}

#[test]
fn height_of_largest_width() {
    assert_eq!(image_height(u64::MAX, 1, 1), u64::MAX);
    assert_eq!(image_height(u64::MAX, 2, 1), u64::MAX / 2 + 1);
}

#[test]
fn new_image_is_black() {
    let img = Image::new(3, 2);
    assert_eq!(img.width(), 3);
    assert_eq!(img.height(), 2);
    for row in 0..2 {
        for col in 0..3 {
            assert_eq!(img.pixel(row, col), rgb(0, 0, 0));
        }
    }
}

#[test]
fn set_pixel_changes_one_pixel() {
    let mut img = Image::new(3, 2);
    img.set_pixel(1, 2, rgb(1, 2, 3));
    assert_eq!(img.pixel(1, 2), rgb(1, 2, 3));
    assert_eq!(img.pixel(0, 2), rgb(0, 0, 0));
    assert_eq!(img.pixel(1, 1), rgb(0, 0, 0));
}

#[test]
fn shader_fills_row_major() {
    let img = Image::from_shader(4, 3, |row, col| rgb(row as u8, col as u8, (row * 4 + col) as u8));
    assert_eq!(img.width(), 4);
    assert_eq!(img.height(), 3);
    for row in 0..3u64 {
        for col in 0..4u64 {
            assert_eq!(img.pixel(row, col), rgb(row as u8, col as u8, (row * 4 + col) as u8));
        }
    }
}

#[test]
fn shader_called_top_row_first() {
    let order = std::cell::RefCell::new(Vec::new());
    let _img = Image::from_shader(2, 2, |row, col| {
        order.borrow_mut().push((row, col));
        rgb(0, 0, 0)
    });
    assert_eq!(order.into_inner(), vec![(0, 0), (0, 1), (1, 0), (1, 1)]);
}

#[test]
fn empty_image() {
    let img = Image::from_shader(0, 5, |_, _| rgb(9, 9, 9));
    assert_eq!(img.width(), 0);
    assert_eq!(img.height(), 5);
    assert_eq!(img.to_ppm(), expected_header(0, 5).into_bytes());
}

#[test]
fn generated_image_is_sixteen_by_nine() {
    let img = generate_img(400, |row, col| rgb((row % 256) as u8, (col % 256) as u8, 0));
    assert_eq!(img.width(), 400);
    assert_eq!(img.height(), 225);
    assert_eq!(img.pixel(224, 399), rgb(224, (399 % 256) as u8, 0));
    assert_eq!(img.pixel(0, 0), rgb(0, 0, 0));
}

#[test]
fn generated_image_of_width_one() {
    let img = generate_img(1, |_, _| rgb(5, 6, 7));
    assert_eq!(img.height(), 1);
    assert_eq!(img.to_ppm(), (expected_header(1, 1) + "5 6 7\n").into_bytes());
}
