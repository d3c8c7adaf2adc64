use image::Pixel;
use picture_genetics::canvas::{calculate_total_sum_of_differences, get_average_pixel, Canvas};
use picture_genetics::pixel::{blend, pixel_squared_difference, Rgba};

fn px(r: u8, g: u8, b: u8, a: u8) -> Rgba {
    Rgba { r, g, b, a }
}

fn canvas(width: u32, height: u32, pixels: Vec<Rgba>) -> Canvas {
    Canvas::from_pixels(width, height, pixels).expect("pixel count matches the size")
}

#[test]
fn from_pixels_checks_the_pixel_count() {
    assert!(Canvas::from_pixels(2, 2, vec![px(0, 0, 0, 0); 4]).is_some());
    assert!(Canvas::from_pixels(2, 2, vec![px(0, 0, 0, 0); 3]).is_none());
    assert!(Canvas::from_pixels(0, 5, vec![]).is_some());
}

#[test]
fn from_pixel_fills_every_position() {
    let p = px(1, 2, 3, 4);
    let c = Canvas::from_pixel(3, 2, p);
    assert_eq!(c.width(), 3);
    assert_eq!(c.height(), 2);
    assert_eq!(c.pixels().len(), 6);
    for y in 0..2 {
        for x in 0..3 {
            assert_eq!(c.get_pixel(x, y), p);
        }
    }
}

#[test]
fn get_pixel_reads_row_major() {
    let c = canvas(2, 2, vec![px(1, 0, 0, 0), px(2, 0, 0, 0), px(3, 0, 0, 0), px(4, 0, 0, 0)]);
    assert_eq!(c.get_pixel(1, 0).r, 2);
    assert_eq!(c.get_pixel(0, 1).r, 3);
    assert_eq!(c.get_pixel(1, 1).r, 4);
}

#[test]
fn clone_keeps_size_and_pixels() {
    let c = canvas(2, 1, vec![px(1, 2, 3, 4), px(5, 6, 7, 8)]);
    let d = c.clone();
    assert_eq!(d.width(), 2);
    assert_eq!(d.height(), 1);
    assert_eq!(d.pixels(), c.pixels());
}

#[test]
fn pixel_squared_difference_sums_the_channels() {
    // (10-0)^2 + (0-20)^2 + (255-0)^2 + (3-3)^2
    assert_eq!(pixel_squared_difference(px(10, 0, 255, 3), px(0, 20, 0, 3)), 100 + 400 + 65025);
    assert_eq!(
        pixel_squared_difference(px(0, 0, 0, 0), px(255, 255, 255, 255)),
        260100
    );
}

#[test]
fn total_sum_of_differences_exact_value() {
    let t = canvas(2, 1, vec![px(10, 20, 30, 40), px(0, 0, 0, 0)]);
    let a = canvas(2, 1, vec![px(11, 18, 30, 40), px(3, 0, 0, 4)]);
    // 1 + 4 + 0 + 0 + 9 + 0 + 0 + 16
    assert_eq!(calculate_total_sum_of_differences(&t, &a), 30);
}

#[test]
fn total_sum_of_differences_of_an_image_with_itself_is_zero() {
    let t = canvas(2, 2, vec![px(9, 8, 7, 6), px(1, 2, 3, 4), px(0, 0, 0, 0), px(255, 1, 255, 1)]);
    assert_eq!(calculate_total_sum_of_differences(&t, &t), 0);
}

#[test]
fn total_sum_of_differences_is_symmetric() {
    let t = canvas(2, 1, vec![px(200, 20, 30, 40), px(0, 9, 0, 0)]);
    let a = canvas(2, 1, vec![px(11, 18, 130, 40), px(3, 0, 70, 4)]);
    assert_eq!(
        calculate_total_sum_of_differences(&t, &a),
        calculate_total_sum_of_differences(&a, &t)
    );
}

#[test]
fn total_sum_of_differences_pairs_pixels_in_storage_order() {
    // Sizes differ: only the first two stored pixels are compared.
    let t = canvas(2, 1, vec![px(1, 0, 0, 0), px(2, 0, 0, 0)]);
    let a = canvas(1, 3, vec![px(0, 0, 0, 0), px(0, 0, 0, 0), px(100, 0, 0, 0)]);
    assert_eq!(calculate_total_sum_of_differences(&t, &a), 1 + 4);
}

#[test]
fn average_pixel_rounds_each_channel_down() {
    let c = canvas(2, 1, vec![px(10, 20, 30, 40), px(11, 21, 31, 41)]);
    assert_eq!(get_average_pixel(&c), px(10, 20, 30, 40));
    let d = canvas(3, 1, vec![px(0, 255, 1, 2), px(0, 255, 1, 2), px(2, 254, 1, 2)]);
    assert_eq!(get_average_pixel(&d), px(0, 254, 1, 2));
}

#[test]
fn average_of_a_uniform_canvas_is_its_pixel() {
    let p = px(17, 99, 254, 3);
    assert_eq!(get_average_pixel(&Canvas::from_pixel(5, 4, p)), p);
}

#[test]
fn blend_transparent_keeps_background() {
    let bg = px(1, 2, 3, 200);
    assert_eq!(blend(bg, px(250, 250, 250, 0)), bg);
}

#[test]
fn blend_opaque_replaces_background() {
    let fg = px(9, 8, 7, 255);
    assert_eq!(blend(px(1, 2, 3, 100), fg), fg);
}

#[test]
fn blend_half_alpha_matches_image_crate() {
    let bg = px(0, 0, 255, 255);
    let fg = px(255, 0, 0, 128);
    let mut expected = image::Rgba([0u8, 0, 255, 255]);
    expected.blend(&image::Rgba([255u8, 0, 0, 128]));
    let got = blend(bg, fg);
    assert_eq!([got.r, got.g, got.b, got.a], expected.0);
    assert_ne!(got, bg);
    assert_ne!(got, fg);
}

#[test]
fn blend_pixel_changes_only_that_position() {
    let mut c = Canvas::from_pixel(2, 2, px(0, 0, 0, 255));
    c.blend_pixel(1, 0, px(10, 20, 30, 255));
    assert_eq!(c.get_pixel(1, 0), px(10, 20, 30, 255));
    assert_eq!(c.get_pixel(0, 0), px(0, 0, 0, 255));
    assert_eq!(c.get_pixel(0, 1), px(0, 0, 0, 255));
    assert_eq!(c.get_pixel(1, 1), px(0, 0, 0, 255));
}

#[test]
fn canvases_are_well_formed() {
    assert!(Canvas::from_pixel(4, 3, px(1, 1, 1, 1)).is_well_formed());
    assert!(canvas(2, 1, vec![px(0, 0, 0, 0); 2]).is_well_formed());
}
