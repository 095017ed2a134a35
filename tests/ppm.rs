use raytrace::{push_decimal, push_header, push_pixel, Image, Rgb};

/// The header of a plain-text PPM file: magic number, size, largest channel value.
fn header_text(width: u64, height: u64) -> String {
    format!("P{}\n{} {}\n255\n", 3, width, height)
}

#[test]
fn decimal_digits() {
    let mut out = b"x".to_vec();
    push_decimal(&mut out, 0);
    assert_eq!(out, b"x0".to_vec());
    let mut out = Vec::new();
    push_decimal(&mut out, 10);
    assert_eq!(out, b"10".to_vec());
    let mut out = Vec::new();
    push_decimal(&mut out, 9);
    assert_eq!(out, b"9".to_vec());
    let mut out = Vec::new();
    push_decimal(&mut out, u64::MAX);
    assert_eq!(out, u64::MAX.to_string().into_bytes());
}

#[test]
fn header_lines() {
    let mut out = Vec::new();
    push_header(&mut out, 400, 225);
    assert_eq!(out, header_text(400, 225).into_bytes());
}

#[test]
fn pixel_line() {
    let mut out = b"x\n".to_vec();
    push_pixel(&mut out, Rgb { r: 255, g: 0, b: 37 });
    assert_eq!(out, b"x\n255 0 37\n".to_vec());
}

#[test]
fn whole_file() {
    let mut img = Image::new(2, 2);
    img.set_pixel(0, 1, Rgb { r: 255, g: 128, b: 7 });
    img.set_pixel(1, 0, Rgb { r: 1, g: 22, b: 100 });
    let text = String::from_utf8(img.to_ppm()).unwrap();
    assert_eq!(text, header_text(2, 2) + "0 0 0\n255 128 7\n1 22 100\n0 0 0\n");
}
