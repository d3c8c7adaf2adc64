use picture_genetics::block::{BlockFootprint, ConstructedImage, FootprintError};
use picture_genetics::canvas::{calculate_total_sum_of_differences, Canvas};
use picture_genetics::pixel::Rgba;

fn px(r: u8, g: u8, b: u8, a: u8) -> Rgba {
    Rgba { r, g, b, a }
}

fn canvas(width: u32, height: u32, pixels: Vec<Rgba>) -> Canvas {
    Canvas::from_pixels(width, height, pixels).expect("pixel count matches the size")
}

/// A 2x2 texture: red, green / blue, white, all opaque.
fn texture() -> Canvas {
    canvas(
        2,
        2,
        vec![px(255, 0, 0, 255), px(0, 255, 0, 255), px(0, 0, 255, 255), px(255, 255, 255, 255)],
    )
}

#[test]
fn empty_texture_is_too_small() {
    let empty = canvas(0, 3, vec![]);
    let r = BlockFootprint::new(4, 4, 0, 2, 0, 2, vec![0, 0], vec![0, 0], empty);
    assert_eq!(r.err(), Some(FootprintError::TextureTooSmall));
}

#[test]
fn map_of_wrong_length_is_rejected() {
    let r = BlockFootprint::new(4, 4, 0, 2, 0, 2, vec![0], vec![0, 0], texture());
    assert_eq!(r.err(), Some(FootprintError::TextureMapMismatch));
}

#[test]
fn map_naming_a_missing_texture_column_is_rejected() {
    let r = BlockFootprint::new(4, 4, 0, 2, 0, 2, vec![0, 2], vec![0, 1], texture());
    assert_eq!(r.err(), Some(FootprintError::TextureMapMismatch));
}

#[test]
fn bounds_are_clamped_to_the_canvas() {
    // Raw columns 3..9 on a 5-wide canvas cover columns 3 and 4 only.
    let fp = BlockFootprint::new(5, 4, 3, 9, 7, 8, vec![0, 1], vec![], texture()).unwrap();
    assert_eq!(fp.bounds(), (3, 5, 4, 4));
    assert_eq!(fp.canvas_size(), (5, 4));
}

#[test]
fn stamping_replaces_covered_pixels_with_opaque_texels() {
    let grey = px(100, 100, 100, 255);
    let mut c = Canvas::from_pixel(3, 3, grey);
    // Covers columns 1..3 and rows 0..2, sampling texture columns 0,1 and rows 0,1.
    let fp = BlockFootprint::new(3, 3, 1, 3, 0, 2, vec![0, 1], vec![0, 1], texture()).unwrap();
    fp.apply_to(&mut c);
    assert_eq!(c.get_pixel(1, 0), px(255, 0, 0, 255));
    assert_eq!(c.get_pixel(2, 0), px(0, 255, 0, 255));
    assert_eq!(c.get_pixel(1, 1), px(0, 0, 255, 255));
    assert_eq!(c.get_pixel(2, 1), px(255, 255, 255, 255));
    // Outside the rectangle nothing changes.
    assert_eq!(c.get_pixel(0, 0), grey);
    assert_eq!(c.get_pixel(0, 1), grey);
    assert_eq!(c.get_pixel(0, 2), grey);
    assert_eq!(c.get_pixel(1, 2), grey);
    assert_eq!(c.get_pixel(2, 2), grey);
}

#[test]
fn transparent_texels_leave_the_canvas_alone() {
    let clear = canvas(1, 1, vec![px(9, 9, 9, 0)]);
    let mut c = Canvas::from_pixel(2, 2, px(1, 2, 3, 4));
    let fp = BlockFootprint::new(2, 2, 0, 2, 0, 2, vec![0, 0], vec![0, 0], clear).unwrap();
    fp.apply_to(&mut c);
    assert_eq!(c.pixels(), Canvas::from_pixel(2, 2, px(1, 2, 3, 4)).pixels());
}

#[test]
fn empty_rectangle_changes_nothing_and_samples_nothing() {
    let target = Canvas::from_pixel(3, 3, px(0, 0, 0, 255));
    let mut c = Canvas::from_pixel(3, 3, px(7, 7, 7, 255));
    let fp = BlockFootprint::new(3, 3, 2, 1, 0, 3, vec![], vec![0, 0, 1], texture()).unwrap();
    let s = fp.score_delta(&target, &c, 1);
    assert_eq!(s.delta, 0);
    assert_eq!(s.sampled, 0);
    fp.apply_to(&mut c);
    assert_eq!(c.pixels(), Canvas::from_pixel(3, 3, px(7, 7, 7, 255)).pixels());
}

#[test]
fn score_delta_exact_value() {
    // Target is all red; canvas all black; the block paints one red and one green pixel.
    let red = px(255, 0, 0, 255);
    let black = px(0, 0, 0, 255);
    let target = Canvas::from_pixel(2, 1, red);
    let c = Canvas::from_pixel(2, 1, black);
    let fp = BlockFootprint::new(2, 1, 0, 2, 0, 1, vec![0, 1], vec![0], texture()).unwrap();
    let s = fp.score_delta(&target, &c, 1);
    // Red pixel: 0 - 65025; green pixel: (65025 + 65025) - 65025.
    assert_eq!(s.delta, -65025 + 65025);
    assert_eq!(s.sampled, 2);
}

#[test]
fn incremental_score_matches_full_recomputation() {
    let target = canvas(
        3,
        2,
        vec![
            px(10, 200, 30, 255),
            px(250, 0, 0, 255),
            px(0, 0, 255, 255),
            px(255, 255, 255, 255),
            px(1, 2, 3, 255),
            px(0, 0, 0, 0),
        ],
    );
    let half = canvas(1, 1, vec![px(200, 40, 90, 128)]);
    let c = Canvas::from_pixel(3, 2, px(50, 60, 70, 255));
    let fp = BlockFootprint::new(3, 2, 1, 3, 0, 2, vec![0, 0], vec![0, 0], half).unwrap();
    let before = calculate_total_sum_of_differences(&target, &c) as i128;
    let s = fp.score_delta(&target, &c, 1);
    let mut after_canvas = c.clone();
    fp.apply_to(&mut after_canvas);
    let after = calculate_total_sum_of_differences(&target, &after_canvas) as i128;
    assert_eq!(after, before + s.delta);
    assert_eq!(s.sampled, 4);
}

#[test]
fn sampling_every_fourth_position() {
    let target = Canvas::from_pixel(10, 6, px(0, 0, 0, 255));
    let c = Canvas::from_pixel(10, 6, px(0, 0, 0, 255));
    let cols: Vec<u32> = vec![0; 9];
    let rows: Vec<u32> = vec![0; 5];
    let solid = canvas(1, 1, vec![px(1, 0, 0, 255)]);
    let fp = BlockFootprint::new(10, 6, 1, 10, 1, 6, cols, rows, solid).unwrap();
    let s = fp.score_delta(&target, &c, 4);
    // Columns 1, 5, 9 and rows 1, 5: six samples, each adding 1.
    assert_eq!(s.sampled, 6);
    assert_eq!(s.delta, 6);
}

#[test]
fn scoring_a_larger_canvas_reads_it_by_position() {
    let target = Canvas::from_pixel(2, 1, px(10, 0, 0, 255));
    let c = canvas(3, 2, vec![px(0, 0, 0, 255); 6]);
    let solid = canvas(1, 1, vec![px(10, 0, 0, 255)]);
    let fp = BlockFootprint::new(2, 1, 0, 2, 0, 1, vec![0, 0], vec![0], solid).unwrap();
    let s = fp.score_delta(&target, &c, 1);
    assert_eq!(s.delta, -200);
    assert_eq!(s.sampled, 2);
}

#[test]
fn constructed_image_without_blocks_is_the_starting_canvas() {
    let img = ConstructedImage::new();
    assert_eq!(img.blocks.len(), 0);
    let avg = px(4, 5, 6, 7);
    let out = img.construct_image(3, 2, &avg, &None);
    assert_eq!(out.width(), 3);
    assert_eq!(out.height(), 2);
    assert_eq!(out.pixels(), Canvas::from_pixel(3, 2, avg).pixels());
    let base = canvas(1, 2, vec![px(1, 1, 1, 1), px(2, 2, 2, 2)]);
    let out = img.construct_image(3, 2, &avg, &Some(base.clone()));
    assert_eq!(out.width(), 1);
    assert_eq!(out.pixels(), base.pixels());
}

#[test]
fn constructed_image_stamps_blocks_in_order() {
    let red = canvas(1, 1, vec![px(255, 0, 0, 255)]);
    let blue = canvas(1, 1, vec![px(0, 0, 255, 255)]);
    let mut img = ConstructedImage::new();
    img.blocks.push(BlockFootprint::new(2, 2, 0, 2, 0, 1, vec![0, 0], vec![0], red).unwrap());
    img.blocks.push(BlockFootprint::new(2, 2, 1, 2, 0, 2, vec![0], vec![0, 0], blue).unwrap());
    let avg = px(0, 0, 0, 255);
    let out = img.construct_image(2, 2, &avg, &None);
    assert_eq!(out.get_pixel(0, 0), px(255, 0, 0, 255));
    assert_eq!(out.get_pixel(1, 0), px(0, 0, 255, 255));
    assert_eq!(out.get_pixel(0, 1), avg);
    assert_eq!(out.get_pixel(1, 1), px(0, 0, 255, 255));
}

#[test]
fn constructed_image_passes_over_blocks_for_another_size() {
    let red = canvas(1, 1, vec![px(255, 0, 0, 255)]);
    let mut img = ConstructedImage::new();
    img.blocks.push(BlockFootprint::new(3, 3, 0, 1, 0, 1, vec![0], vec![0], red).unwrap());
    let avg = px(0, 0, 0, 255);
    let out = img.construct_image(2, 2, &avg, &None);
    assert_eq!(out.pixels(), Canvas::from_pixel(2, 2, avg).pixels());
}

#[test]
fn adding_a_block_changes_the_picture_score_by_its_delta() {
    let target = canvas(
        3,
        3,
        vec![
            px(200, 10, 10, 255),
            px(200, 10, 10, 255),
            px(0, 0, 0, 255),
            px(10, 200, 10, 255),
            px(10, 200, 10, 255),
            px(0, 0, 0, 255),
            px(5, 5, 5, 255),
            px(5, 5, 5, 255),
            px(5, 5, 5, 255),
        ],
    );
    let avg = px(60, 60, 60, 255);
    let red = canvas(1, 1, vec![px(190, 20, 20, 200)]);
    let green = canvas(1, 1, vec![px(20, 190, 20, 255)]);
    let mut img = ConstructedImage::new();
    img.blocks.push(BlockFootprint::new(3, 3, 0, 2, 0, 1, vec![0, 0], vec![0], red).unwrap());
    let before = img.construct_image(3, 3, &avg, &None);
    let candidate = BlockFootprint::new(3, 3, 0, 3, 1, 2, vec![0, 0, 0], vec![0], green).unwrap();
    let delta = candidate.score_delta(&target, &before, 1).delta;
    img.blocks.push(candidate);
    let after = img.construct_image(3, 3, &avg, &None);
    let ssd_before = calculate_total_sum_of_differences(&target, &before) as i128;
    let ssd_after = calculate_total_sum_of_differences(&target, &after) as i128;
    assert_eq!(ssd_after, ssd_before + delta);
    assert!(delta < 0);
}

fn render(blocks: Vec<BlockFootprint>, base: &Option<Canvas>) -> Canvas {
    let mut img = ConstructedImage::new();
    img.blocks = blocks;
    img.construct_image(3, 3, &px(60, 60, 60, 255), base)
}

fn sample_blocks() -> (Vec<BlockFootprint>, Vec<BlockFootprint>) {
    let half_red = canvas(1, 1, vec![px(250, 0, 0, 128)]);
    let green = canvas(2, 1, vec![px(0, 250, 0, 255), px(0, 100, 0, 90)]);
    let blue = canvas(1, 1, vec![px(0, 0, 250, 40)]);
    let first = vec![
        BlockFootprint::new(3, 3, 0, 2, 0, 2, vec![0, 0], vec![0, 0], half_red).unwrap(),
        BlockFootprint::new(3, 3, 1, 3, 1, 3, vec![0, 1], vec![0, 0], green.clone()).unwrap(),
    ];
    let second = vec![
        BlockFootprint::new(3, 3, 0, 3, 2, 3, vec![1, 0, 1], vec![0], green).unwrap(),
        BlockFootprint::new(3, 3, 0, 3, 0, 3, vec![0, 0, 0], vec![0, 0, 0], blue).unwrap(),
    ];
    (first, second)
}

#[test]
fn rendering_a_concatenation_is_rendering_the_second_list_over_the_first() {
    let (first, second) = sample_blocks();
    let all: Vec<BlockFootprint> = first.iter().chain(second.iter()).cloned().collect();
    let whole = render(all, &None);
    let over_first = render(first, &None);
    let layered = render(second, &Some(over_first));
    assert_eq!(whole.pixels(), layered.pixels());
}

#[test]
fn transparent_or_empty_blocks_change_nothing_wherever_inserted() {
    let (first, second) = sample_blocks();
    let reference: Vec<BlockFootprint> = first.iter().chain(second.iter()).cloned().collect();
    let expected = render(reference.clone(), &None);
    let clear = canvas(2, 2, vec![px(255, 255, 255, 0); 4]);
    let transparent = BlockFootprint::new(3, 3, 0, 3, 0, 3, vec![0, 1, 0], vec![1, 0, 1], clear).unwrap();
    // Raw bounds past the canvas: clamped to an empty rectangle.
    let off_canvas = BlockFootprint::new(3, 3, 5, 9, 0, 3, vec![], vec![0, 0, 0], texture()).unwrap();
    assert_eq!(off_canvas.bounds(), (3, 3, 0, 3));
    for neutral in [transparent, off_canvas] {
        for at in 0..=reference.len() {
            let mut blocks = reference.clone();
            blocks.insert(at, neutral.clone());
            assert_eq!(render(blocks, &None).pixels(), expected.pixels());
        }
    }
}
