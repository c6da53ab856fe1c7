use rtiow::image::Color;
use rtiow::image::Image;

#[test]
fn test_new_is_black() {
    let img = Image::new(2, 3);
    assert_eq!(img.height(), 2);
    assert_eq!(img.width(), 3);
    for i in 0..2 {
        for j in 0..3 {
            assert_eq!(img.pixel(i, j), Color { red: 0, green: 0, blue: 0 });
        }
    }
}

#[test]
fn test_with_background() {
    let bg = Color { red: 10, green: 200, blue: 33 };
    let img = Image::with_background(4, 2, bg);
    assert_eq!(img.height(), 4);
    assert_eq!(img.width(), 2);
    for i in 0..4 {
        for j in 0..2 {
            assert_eq!(img.pixel(i, j), bg);
        }
    }
}

#[test]
fn test_set_and_get_pixel() {
    let mut img = Image::new(3, 3);
    let c = Color { red: 1, green: 2, blue: 3 };
    img.set_pixel(2, 1, c);
    assert_eq!(img.pixel(2, 1), c);
    assert_eq!(img.pixel(1, 2), Color { red: 0, green: 0, blue: 0 });
    assert_eq!(img.pixel(2, 2), Color { red: 0, green: 0, blue: 0 });
}

#[test]
fn test_process_in_parallel_fills_from_coordinates() {
    // A non-square image catches a row/column mix-up, and a per-coordinate
    // value catches a fill that left the background in place.
    let mut img = Image::new(2, 5);
    img.process_in_parallel(|i, j| Color {
        red: (10 * i + j) as u8,
        green: j as u8,
        blue: i as u8,
    });
    assert_eq!(img.height(), 2);
    assert_eq!(img.width(), 5);
    for i in 0..2 {
        for j in 0..5 {
            let c = img.pixel(i, j);
            assert_eq!(c.red, (10 * i + j) as u8);
            assert_eq!(c.green, j as u8);
            assert_eq!(c.blue, i as u8);
        }
    }
}

#[test]
fn test_process_in_parallel_uniform() {
    let mut img = Image::with_background(3, 4, Color { red: 9, green: 9, blue: 9 });
    img.process_in_parallel(|_, _| Color { red: 255, green: 0, blue: 127 });
    for i in 0..3 {
        for j in 0..4 {
            assert_eq!(img.pixel(i, j), Color { red: 255, green: 0, blue: 127 });
        }
    }
}

#[test]
fn test_empty_image() {
    let img = Image::new(0, 7);
    assert_eq!(img.height(), 0);
    assert_eq!(img.width(), 7);
}
