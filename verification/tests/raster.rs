use treader::intervals::highlight_intervals_per_row;
use treader::raster::{apply_search_highlights, crop_whitespace, process_rgb_image, RgbImage};
use treader::regions::turn_rect;
use treader::renderer::{HighlightRect, RotateDirection};

fn white(width: u32, height: u32) -> RgbImage {
    RgbImage {
        width,
        height,
        data: vec![255; (3 * width * height) as usize],
    }
}

fn rect(ul_x: u32, ul_y: u32, lr_x: u32, lr_y: u32) -> HighlightRect {
    HighlightRect {
        ul_x,
        ul_y,
        lr_x,
        lr_y,
    }
}

fn blue(img: &RgbImage, x: u32, y: u32) -> u8 {
    img.data[(3 * (y * img.width + x) + 2) as usize]
}

#[test]
fn large_image_is_highlighted_like_a_small_one() {
    let mut img = white(400, 300);
    apply_search_highlights(&mut img, &[rect(10, 20, 50, 60), rect(40, 50, 500, 500)]);
    for y in 0..300 {
        for x in 0..400 {
            let inside = (x > 10 && x < 50 && y > 20 && y < 60) || (x > 40 && y > 50);
            assert_eq!(blue(&img, x, y), if inside { 128 } else { 255 });
        }
    }
}

#[test]
fn large_image_is_cropped_like_a_small_one() {
    let mut img = white(400, 300);
    img.data[3 * (100 * 400 + 200)] = 0;
    img.data[3 * (150 * 400 + 250) + 1] = 239;
    let cropped = crop_whitespace(img);
    assert_eq!((cropped.width, cropped.height), (67, 67));
    assert_eq!(cropped.data[3 * (8 * 67 + 8)], 0);
    assert_eq!(cropped.data[3 * (58 * 67 + 58) + 1], 239);
}

#[test]
fn cropped_image_is_not_cropped_again() {
    let mut img = white(60, 60);
    img.data[3 * (30 * 60 + 30)] = 0;
    let once = crop_whitespace(img);
    assert_eq!((once.width, once.height), (17, 17));
    let data = once.data.clone();
    let twice = crop_whitespace(once);
    assert_eq!((twice.width, twice.height), (17, 17));
    assert_eq!(twice.data, data);
}

#[test]
fn overlapping_results_are_highlighted_once() {
    let mut img = white(10, 10);
    apply_search_highlights(&mut img, &[rect(0, 0, 9, 9), rect(1, 1, 9, 9), rect(0, 0, 9, 9)]);
    assert_eq!(blue(&img, 5, 5), 128);
    let same = process_rgb_image(white(10, 10), &[rect(0, 0, 9, 9)], false);
    assert_eq!(img.data, same.data);
}

#[test]
fn no_results_leave_the_image_as_it_is() {
    let img = process_rgb_image(white(3, 2), &[], false);
    assert_eq!(img.data, vec![255; 18]);
}

#[test]
fn runs_of_a_row_are_merged() {
    let runs = highlight_intervals_per_row(&[rect(0, 0, 4, 3), rect(2, 0, 8, 3), rect(9, 1, 20, 9)], 12, 4);
    assert_eq!(runs[0], vec![]);
    assert_eq!(runs[1], vec![(1, 8)]);
    assert_eq!(runs[2], vec![(1, 8), (10, 12)]);
    assert_eq!(runs[3], vec![(10, 12)]);
}

fn corners(r: HighlightRect) -> (u32, u32, u32, u32) {
    (r.ul_x, r.ul_y, r.lr_x, r.lr_y)
}

#[test]
fn regions_turn_with_their_page() {
    // On a page of 10 by 20 pixels, columns 2 to 3 of rows 5 to 7.
    let turned = |rotate| corners(turn_rect(rect(1, 4, 4, 8), rotate, 10, 20));
    assert_eq!(turned(RotateDirection::Deg0), (1, 4, 4, 8));
    assert_eq!(turned(RotateDirection::Deg90), (11, 1, 15, 4));
    assert_eq!(turned(RotateDirection::Deg180), (5, 11, 8, 15));
    assert_eq!(turned(RotateDirection::Deg270), (4, 5, 8, 8));
    let twice = turn_rect(
        turn_rect(rect(1, 4, 4, 8), RotateDirection::Deg90, 10, 20),
        RotateDirection::Deg90,
        20,
        10,
    );
    assert_eq!(corners(twice), turned(RotateDirection::Deg180));
    // What sticks out is cut.
    let out = turn_rect(rect(1, 4, 40, 80), RotateDirection::Deg180, 10, 20);
    assert_eq!(corners(out), (0, 0, 8, 15));
}

/// A blank image of 60 by 60 pixels with `rows` blank rows after its last one.
fn white_and_more(rows: usize) -> RgbImage {
    let mut img = white(60, 60);
    img.data.resize(3 * 60 * (60 + rows), 255);
    img
}

#[test]
fn crop_drops_what_follows_the_last_row() {
    let mut img = white_and_more(3);
    img.data[3 * (30 * 60 + 30)] = 0;
    let cropped = crop_whitespace(img);
    assert_eq!((cropped.width, cropped.height), (17, 17));
    assert_eq!(cropped.data.len(), 3 * 17 * 17);
}

#[test]
fn content_after_the_last_row_widens_the_crop() {
    let mut img = white_and_more(3);
    img.data[3 * (30 * 60 + 30)] = 0;
    img.data[3 * (61 * 60 + 40)] = 0;
    let cropped = crop_whitespace(img);
    // Columns 22 to 48, and rows 22 to the last one.
    assert_eq!((cropped.width, cropped.height), (27, 38));
    assert_eq!(cropped.data[3 * (8 * 27 + 8)], 0);
    assert_eq!(cropped.data.len(), 3 * 27 * 38);
}

#[test]
fn content_only_after_the_last_row_leaves_the_margin() {
    let mut img = white_and_more(3);
    img.data[3 * (62 * 60 + 30)] = 0;
    let cropped = crop_whitespace(img);
    assert_eq!((cropped.width, cropped.height), (17, 8));
    assert!(cropped.data.iter().all(|b| *b == 255));
}

#[test]
fn blank_image_keeps_what_follows_its_last_row() {
    let cropped = crop_whitespace(white_and_more(2));
    assert_eq!((cropped.width, cropped.height), (60, 60));
    assert_eq!(cropped.data.len(), 3 * 60 * 62);
    let kept = process_rgb_image(white_and_more(2), &[], false);
    assert_eq!(kept.data.len(), 3 * 60 * 62);
}

#[test]
fn full_image_loses_only_what_follows_its_last_row() {
    let mut img = white_and_more(1);
    for y in [0, 59] {
        for x in [0, 59] {
            img.data[3 * (y * 60 + x)] = 0;
        }
    }
    let cropped = crop_whitespace(img);
    assert_eq!((cropped.width, cropped.height), (60, 60));
    assert_eq!(cropped.data.len(), 3 * 60 * 60);
}
