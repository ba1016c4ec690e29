use microbit::display::nonblocking::image::{BitImage, GreyscaleImage, Render, MAX_BRIGHTNESS};

const HEART: [[u8; 5]; 5] = [
    [0, 1, 0, 1, 0],
    [1, 0, 1, 0, 1],
    [1, 0, 0, 0, 1],
    [0, 1, 0, 1, 0],
    [0, 0, 1, 0, 0],
];

#[test]
fn greyscale_image_returns_what_was_stored() {
    let data = [
        [0, 9, 0, 9, 0],
        [9, 5, 9, 5, 9],
        [9, 5, 5, 5, 9],
        [0, 9, 5, 9, 0],
        [0, 0, 9, 0, 0],
    ];
    let image = GreyscaleImage::new(&data);
    for y in 0..5 {
        for x in 0..5 {
            assert_eq!(image.brightness_at(x, y), data[y][x]);
            assert_eq!(Render::brightness_at(&image, x, y), data[y][x]);
        }
    }
}

#[test]
fn bit_image_is_off_or_at_the_maximum() {
    let image = BitImage::new(&HEART);
    for y in 0..5 {
        for x in 0..5 {
            assert_eq!(image.brightness_at(x, y), HEART[y][x] * MAX_BRIGHTNESS);
        }
    }
}

#[test]
fn blank_images_are_dark() {
    let grey = GreyscaleImage::blank();
    let bits = BitImage::blank();
    for y in 0..5 {
        for x in 0..5 {
            assert_eq!(grey.brightness_at(x, y), 0);
            assert_eq!(bits.brightness_at(x, y), 0);
            assert_eq!(Render::brightness_at(&bits, x, y), 0);
        }
    }
}

#[test]
fn brightness_constants() {
    assert_eq!(MAX_BRIGHTNESS, 9);
    assert_eq!(microbit::display::nonblocking::image::BRIGHTNESSES, 10);
}

#[test]
fn bit_image_packs_whatever_it_is_given() {
    // values other than 0 and 1 spill into the pixels to their right
    let image = BitImage::new(&[[2, 0, 0, 0, 0], [0, 0, 3, 0, 0], [0; 5], [0; 5], [0, 0, 0, 0, 255]]);
    assert_eq!(image.brightness_at(0, 0), 0);
    assert_eq!(image.brightness_at(1, 0), 9);
    assert_eq!(image.brightness_at(2, 1), 9);
    assert_eq!(image.brightness_at(3, 1), 9);
    assert_eq!(image.brightness_at(4, 1), 0);
    assert_eq!(image.brightness_at(4, 4), 9);
    assert_eq!(image.brightness_at(3, 4), 0);
}

#[test]
fn images_render_for_tiny_led_matrix() {
    let grey = GreyscaleImage::new(&[[0, 4, 9, 10, 255]; 5]);
    assert_eq!(tiny_led_matrix::Render::brightness_at(&grey, 1, 2), 4);
    assert_eq!(tiny_led_matrix::Render::brightness_at(&grey, 2, 2), 9);
    assert_eq!(tiny_led_matrix::Render::brightness_at(&grey, 3, 0), 9);
    assert_eq!(tiny_led_matrix::Render::brightness_at(&grey, 4, 4), 9);
    assert_eq!(tiny_led_matrix::Render::brightness_at(&grey, 5, 0), 0);
    assert_eq!(tiny_led_matrix::Render::brightness_at(&grey, 0, 5), 0);
    let bits = BitImage::new(&HEART);
    assert_eq!(tiny_led_matrix::Render::brightness_at(&bits, 1, 0), 9);
    assert_eq!(tiny_led_matrix::Render::brightness_at(&bits, 0, 0), 0);
    assert_eq!(tiny_led_matrix::Render::brightness_at(&bits, 7, 7), 0);
    assert_eq!(tiny_led_matrix::MAX_BRIGHTNESS, MAX_BRIGHTNESS);
}
