use rtiow::image::Color;
use rtiow::image::Image;

#[test]
fn test_ppm_single_pixel() {
    let img = Image::with_background(1, 1, Color { red: 255, green: 0, blue: 7 });
    let expected: Vec<u8> = b"P3\n1 1\n255\n255 0 7 \n".to_vec();
    assert_eq!(img.ppm_bytes(), expected);
}

#[test]
fn test_ppm_black_rows() {
    // Two rows of three pixels each; every pixel writes "0 0 0 " and every
    // row ends in a newline, as the renderer's text output has it.
    let img = Image::new(2, 3);
    let expected: Vec<u8> = b"P3\n3 2\n255\n0 0 0 0 0 0 0 0 0 \n0 0 0 0 0 0 0 0 0 \n".to_vec();
    assert_eq!(img.ppm_bytes(), expected);
}

#[test]
fn test_ppm_multi_digit_dimensions() {
    let img = Image::with_background(2, 12, Color { red: 10, green: 100, blue: 9 });
    let mut expected: Vec<u8> = b"P3\n12 2\n255\n".to_vec();
    for _ in 0..2 {
        for _ in 0..12 {
            expected.extend_from_slice(b"10 100 9 ");
        }
        expected.push(b'\n');
    }
    assert_eq!(img.ppm_bytes(), expected);
}

#[test]
fn test_ppm_distinct_pixels_row_major() {
    let mut img = Image::new(2, 2);
    img.set_pixel(0, 0, Color { red: 1, green: 2, blue: 3 });
    img.set_pixel(0, 1, Color { red: 4, green: 5, blue: 6 });
    img.set_pixel(1, 0, Color { red: 7, green: 8, blue: 9 });
    img.set_pixel(1, 1, Color { red: 200, green: 128, blue: 64 });
    let expected: Vec<u8> = b"P3\n2 2\n255\n1 2 3 4 5 6 \n7 8 9 200 128 64 \n".to_vec();
    assert_eq!(img.ppm_bytes(), expected);
}

#[test]
fn test_same_fill_same_bytes() {
    // Two fills from the same deterministic per-pixel function give
    // byte-identical output.
    let f = |i: u32, j: u32| Color {
        red: (i * 16 + j) as u8,
        green: (i * j) as u8,
        blue: 5,
    };
    let mut a = Image::new(3, 4);
    let mut b = Image::new(3, 4);
    a.process_in_parallel(f);
    b.process_in_parallel(f);
    assert_eq!(a.ppm_bytes(), b.ppm_bytes());
}

#[test]
fn test_ppm_zero_height() {
    let img = Image::new(0, 3);
    let expected: Vec<u8> = b"P3\n3 0\n255\n".to_vec();
    assert_eq!(img.ppm_bytes(), expected);
}
