use std::collections::HashMap;
use treader::image_pipeline::{
    active_window_bounds, apply_converter_msg, image_from_rgb_data, prune_pending_pages,
    ConverterMsg,
};
use treader::interleave::InterleavedAroundWithMax;
use treader::intervals::highlight_intervals_per_row;
use treader::raster::{
    apply_search_highlights, crop_whitespace, process_rgb_image, RgbImage, PAR_PIXEL_CUTOFF,
};
use treader::renderer::{HighlightRect, ImageData, PageInfo};

fn from_pixel(width: u32, height: u32, pixel: [u8; 3]) -> RgbImage {
    RgbImage {
        width,
        height,
        data: pixel.repeat((width * height) as usize),
    }
}

fn copy_of(img: &RgbImage) -> RgbImage {
    RgbImage {
        width: img.width,
        height: img.height,
        data: img.data.clone(),
    }
}

fn dimensions(img: &RgbImage) -> (u32, u32) {
    (img.width, img.height)
}

fn get_pixel(img: &RgbImage, x: u32, y: u32) -> [u8; 3] {
    let at = (y * img.width + x) as usize * 3;
    [img.data[at], img.data[at + 1], img.data[at + 2]]
}

fn put_pixel(img: &mut RgbImage, x: u32, y: u32, pixel: [u8; 3]) {
    let at = (y * img.width + x) as usize * 3;
    img.data[at..at + 3].copy_from_slice(&pixel);
}

fn raw_image_data(width: u32, height: u32, row_stride: usize) -> ImageData {
    ImageData {
        pixels: vec![0; row_stride * height as usize],
        width,
        height,
        row_stride,
    }
}

/// Create a white image with a coloured rectangle drawn on it.
fn white_with_rect(w: u32, h: u32, rx: u32, ry: u32, rw: u32, rh: u32) -> RgbImage {
    let mut img = from_pixel(w, h, [255, 255, 255]);
    for y in ry..(ry + rh).min(h) {
        for x in rx..(rx + rw).min(w) {
            put_pixel(&mut img, x, y, [0, 0, 0]);
        }
    }
    img
}

#[test]
fn crop_whitespace_removes_margins() {
    // 200x200 image with a 50x50 black rectangle at (75, 75)
    let img = white_with_rect(200, 200, 75, 75, 50, 50);
    let cropped = crop_whitespace(img);
    let (w, h) = (cropped.width, cropped.height);
    // Content is 50x50 + 8px margin on each side = 66x66 (clamped to image bounds)
    assert!(w <= 66 + 2 && w >= 60, "unexpected width: {w}");
    assert!(h <= 66 + 2 && h >= 60, "unexpected height: {h}");
}

#[test]
fn crop_whitespace_all_white_returns_unchanged() {
    let img = from_pixel(100, 100, [255, 255, 255]);
    let cropped = crop_whitespace(img);
    assert_eq!(cropped.width, 100);
    assert_eq!(cropped.height, 100);
}

#[test]
fn crop_whitespace_content_at_edges() {
    // Content pixel at (0, 0) — margin extends to clamped bounds
    let img = white_with_rect(100, 100, 0, 0, 1, 1);
    let cropped = crop_whitespace(img);
    // margin: left=0 (clamped), top=0 (clamped), right=0+1+8=9, bottom=0+1+8=9
    assert!(cropped.width <= 10, "w={}", cropped.width);
    assert!(cropped.height <= 10, "h={}", cropped.height);
}

#[test]
fn crop_whitespace_full_content() {
    // Entire image is dark — no cropping should occur
    let img = from_pixel(100, 100, [0, 0, 0]);
    let cropped = crop_whitespace(img);
    // margin extends to edges, so result should be original size
    assert_eq!(cropped.width, 100);
    assert_eq!(cropped.height, 100);
}

#[test]
fn crop_whitespace_empty_image() {
    let img = from_pixel(0, 0, [0, 0, 0]);
    let cropped = crop_whitespace(img);
    assert_eq!(cropped.width, 0);
    assert_eq!(cropped.height, 0);
}

#[test]
fn crop_whitespace_near_threshold() {
    // Pixel at (50,50) with value 239 (just below threshold 240 — counts as content)
    let mut img = from_pixel(100, 100, [255, 255, 255]);
    put_pixel(&mut img, 50, 50, [239, 239, 239]);
    let cropped = crop_whitespace(img);
    assert!(cropped.width < 100, "should have cropped");
}

#[test]
fn crop_whitespace_at_threshold_not_content() {
    // All pixels at exactly 240 — should be treated as white
    let img = from_pixel(100, 100, [240, 240, 240]);
    let cropped = crop_whitespace(img);
    // All white → unchanged
    assert_eq!(cropped.width, 100);
    assert_eq!(cropped.height, 100);
}

#[test]
fn interleaved_iter_works() {
    let got =
        InterleavedAroundWithMax::new(5, 2, 21).collect();

    assert_eq!(
        got,
        vec![
            5, 6, 4, 7, 3, 8, 2, 9, 10, 11, 12, 13, 14, 15, 16, 17, 18, 19, 20
        ]
    );
}

#[test]
fn active_window_bounds_matches_prerender_window() {
    let (start, end) = active_window_bounds(10, 100, 20).unwrap();
    assert_eq!(start, 0);
    assert_eq!(end, 20);

    let (start, end) = active_window_bounds(40, 100, 20).unwrap();
    assert_eq!(start, 30);
    assert_eq!(end, 50);
}

#[test]
fn prune_pending_pages_drops_out_of_window_entries() {
    let mut pending = HashMap::new();
    for page in 0..40 {
        pending.insert(
            page,
            PageInfo {
                page_num: page,
                img_data: raw_image_data(1, 2, 3),
                result_rects: vec![],
            },
        );
    }

    prune_pending_pages(&mut pending, 20, 100, 12);

    assert!(pending.keys().all(|page| (14..26).contains(page)));
}

#[test]
fn go_to_page_before_num_pages_is_preserved_until_document_is_known() {
    let mut pending = HashMap::new();
    let mut page = 0usize;
    let mut n_pages = 0usize;
    let mut auto_crop = false;

    apply_converter_msg(
        ConverterMsg::GoToPage(148),
        &mut pending,
        &mut page,
        &mut n_pages,
        &mut auto_crop,
        20,
    );
    assert_eq!(page, 148);

    apply_converter_msg(
        ConverterMsg::NumPages(200),
        &mut pending,
        &mut page,
        &mut n_pages,
        &mut auto_crop,
        20,
    );
    assert_eq!(page, 148);
}

#[test]
fn image_from_rgb_data_accepts_tightly_packed_rows() {
    let img = image_from_rgb_data(ImageData {
        pixels: vec![255, 0, 0, 0, 255, 0],
        width: 2,
        height: 1,
        row_stride: 6,
    })
    .unwrap();

    assert_eq!(img.width, 2);
    assert_eq!(img.height, 1);
}

#[test]
fn image_from_rgb_data_repacks_padded_rows() {
    let rgb = image_from_rgb_data(ImageData {
        pixels: vec![255, 0, 0, 9, 0, 255, 0, 8],
        width: 1,
        height: 2,
        row_stride: 4,
    })
    .unwrap();

    assert_eq!(get_pixel(&rgb, 0, 0), [255, 0, 0]);
    assert_eq!(get_pixel(&rgb, 0, 1), [0, 255, 0]);
}

#[test]
fn bytes_after_tight_rows_are_kept() {
    let img = image_from_rgb_data(ImageData {
        pixels: vec![1, 2, 3, 4],
        width: 1,
        height: 1,
        row_stride: 3,
    })
    .unwrap();
    assert_eq!(dimensions(&img), (1, 1));
    assert_eq!(img.data, vec![1, 2, 3, 4]);
}

#[test]
fn bytes_after_padded_rows_are_dropped() {
    let img = image_from_rgb_data(ImageData {
        pixels: vec![1, 2, 3, 9, 4, 5, 6, 9, 7, 7],
        width: 1,
        height: 2,
        row_stride: 4,
    })
    .unwrap();
    assert_eq!(img.data, vec![1, 2, 3, 4, 5, 6]);
}

#[test]
fn apply_search_highlights_updates_only_matching_rect_pixels() {
    let mut img = from_pixel(4, 4, [20, 30, 200]);
    let rects = vec![HighlightRect {
        ul_x: 0,
        ul_y: 0,
        lr_x: 3,
        lr_y: 3,
    }];

    apply_search_highlights(&mut img, &rects);

    for y in 0..4 {
        for x in 0..4 {
            let blue = get_pixel(&img, x, y)[2];
            let is_highlighted = (1..3).contains(&x) && (1..3).contains(&y);
            if is_highlighted {
                assert_eq!(blue, 73);
            } else {
                assert_eq!(blue, 200);
            }
        }
    }
}

#[test]
fn apply_search_highlights_clips_rects_to_image_bounds() {
    let mut img = from_pixel(2, 2, [20, 30, 120]);
    let rects = vec![HighlightRect {
        ul_x: 0,
        ul_y: 0,
        lr_x: 10,
        lr_y: 10,
    }];

    apply_search_highlights(&mut img, &rects);

    assert_eq!(get_pixel(&img, 0, 0)[2], 120);
    assert_eq!(get_pixel(&img, 1, 0)[2], 120);
    assert_eq!(get_pixel(&img, 0, 1)[2], 120);
    assert_eq!(get_pixel(&img, 1, 1)[2], 0);
}

#[test]
fn process_rgb_image_matches_sequential_highlight_then_crop() {
    let mut img = from_pixel(12, 12, [255, 255, 255]);
    for y in 3..9 {
        for x in 3..9 {
            put_pixel(&mut img, x, y, [0, 0, 0]);
        }
    }
    let rects = vec![HighlightRect {
        ul_x: 2,
        ul_y: 2,
        lr_x: 10,
        lr_y: 10,
    }];

    let mut expected = copy_of(&img);
    apply_search_highlights(&mut expected, &rects);
    let expected = crop_whitespace(expected);

    let fused = process_rgb_image(img, &rects, true);
    assert_eq!(dimensions(&fused), dimensions(&expected));
    assert_eq!(fused.data, expected.data);
}

#[test]
fn interleaved_single_element() {
    let got =
        InterleavedAroundWithMax::new(0, 0, 1).collect();
    assert_eq!(got, vec![0]);
}

#[test]
fn interleaved_two_elements_from_start() {
    let got =
        InterleavedAroundWithMax::new(0, 0, 2).collect();
    assert_eq!(got, vec![0, 1]);
}

#[test]
fn interleaved_around_at_min() {
    let got =
        InterleavedAroundWithMax::new(0, 0, 5).collect();
    assert_eq!(got, vec![0, 1, 2, 3, 4]);
}

#[test]
fn interleaved_around_at_max_minus_one() {
    let got =
        InterleavedAroundWithMax::new(4, 0, 5).collect();
    assert_eq!(got[0], 4);
    assert_eq!(got[1], 3);
    assert_eq!(got[2], 2);
}

#[test]
fn interleaved_covers_all_indices() {
    let n = 10;
    let got: std::collections::HashSet<usize> =
        InterleavedAroundWithMax::new(5, 0, n)
            .collect()
            .into_iter()
            .take(n)
            .collect();
    assert_eq!(got.len(), n);
    for i in 0..n {
        assert!(got.contains(&i), "missing index {i}");
    }
}

#[test]
fn interleaved_nonzero_inclusive_min() {
    let got =
        InterleavedAroundWithMax::new(5, 3, 8).collect();
    assert_eq!(got, vec![5, 6, 4, 7, 3]);
}

/// Byte-for-byte parity test on a large image that exercises the parallel
/// path (512×512 > PAR_PIXEL_CUTOFF).
#[test]
fn parallel_highlight_and_crop_parity_with_sequential() {
    let w = 512u32;
    let h = 512u32;
    assert!(w * h >= PAR_PIXEL_CUTOFF, "test must exceed cutoff");

    // White image with a dark rectangle at (100,100)-(400,400).
    let mut img = from_pixel(w, h, [255, 255, 255]);
    for y in 100..400 {
        for x in 100..400 {
            put_pixel(&mut img, x, y, [30, 40, 50]);
        }
    }

    let rects = vec![
        HighlightRect {
            ul_x: 120,
            ul_y: 120,
            lr_x: 300,
            lr_y: 300,
        },
        HighlightRect {
            ul_x: 250,
            ul_y: 250,
            lr_x: 380,
            lr_y: 380,
        },
    ];

    // Sequential reference: manually apply highlights then crop.
    let mut seq_img = copy_of(&img);
    {
        let intervals = highlight_intervals_per_row(&rects, w, h);
        let row_stride = w as usize * 3;
        let pixels = &mut seq_img.data;
        for y in 0..h {
            let row_base = y as usize * row_stride;
            let ivs = &intervals[y as usize];
            let mut idx = 0usize;
            for x in 0..w {
                while idx < ivs.len() && x >= ivs[idx].1 {
                    idx += 1;
                }
                let blue_idx = row_base + x as usize * 3 + 2;
                if idx < ivs.len() && x >= ivs[idx].0 {
                    pixels[blue_idx] = pixels[blue_idx].saturating_sub(u8::MAX / 2);
                }
            }
        }
    }
    let seq_cropped = crop_whitespace(seq_img);

    // Parallel path via process_rgb_image.
    let par_result = process_rgb_image(img, &rects, true);

    assert_eq!(
        dimensions(&par_result),
        dimensions(&seq_cropped),
        "dimension mismatch"
    );
    assert_eq!(
        par_result.data,
        seq_cropped.data,
        "pixel data mismatch"
    );
}
