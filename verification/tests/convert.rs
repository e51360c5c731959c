use treader::convert::{
    can_convert, convert_page_info, finish_page, page_image_id, prepare_page, shm_name,
    GenerationCounter, ImageId, MaybeTransferred, NumberOrId,
};
use treader::error::RenderError;
use treader::renderer::{copy_pixmap_rgb, HighlightRect, ImageData, PageInfo};

fn page(page_num: usize, pixels: Vec<u8>, width: u32, height: u32, row_stride: usize) -> PageInfo {
    PageInfo {
        page_num,
        img_data: ImageData {
            pixels,
            width,
            height,
            row_stride,
        },
        result_rects: vec![],
    }
}

#[test]
fn converted_page_carries_its_pixels() {
    let pixels = vec![1, 2, 3, 4, 5, 6, 7, 8, 9, 10, 11, 12];
    let mut counter = GenerationCounter { next: 17 };
    let info = page(6, pixels.clone(), 2, 2, 6);
    let converted = convert_page_info(info, false, &mut counter).unwrap();
    assert_eq!(converted.page_num, 6);
    assert_eq!((converted.pixel_w, converted.pixel_h), (2, 2));
    assert_eq!(converted.generation, 17);
    assert_eq!(converted.num_results, 0);
    assert_eq!(converted.img.image_id_hint().unwrap().get(), 7);
    match converted.img {
        MaybeTransferred::NotYet(sent) => {
            assert!(matches!(sent.num_or_id, NumberOrId::Id(id) if id.get() == 7));
            match sent.image.format {
                kittage::PixelFormat::Rgb24(dim, None) => {
                    assert_eq!((dim.width, dim.height), (2, 2));
                }
                _ => panic!("expected RGB"),
            }
            match sent.image.medium {
                kittage::medium::Medium::Direct { data, .. } => assert_eq!(data.to_vec(), pixels),
                _ => panic!("expected the bytes themselves"),
            }
        }
        MaybeTransferred::Transferred(_) => panic!("expected an image to send"),
    }
}

#[test]
fn prepared_page_is_highlighted_and_cropped() {
    let mut info = page(0, vec![255; 3 * 40 * 40], 40, 40, 120);
    info.result_rects.push(HighlightRect {
        ul_x: 19,
        ul_y: 19,
        lr_x: 21,
        lr_y: 21,
    });
    let (prepared, image) = prepare_page(info, true).unwrap();
    // The one highlighted pixel is content, with eight pixels on each side.
    assert_eq!((prepared.pixel_w, prepared.pixel_h), (17, 17));
    assert_eq!(prepared.num_results, 1);
    assert_eq!(&image.data[3 * (8 * 17 + 8)..3 * (8 * 17 + 8) + 3], &[255, 255, 128]);
    assert_eq!(image.data.iter().filter(|b| **b == 255).count(), 3 * 17 * 17 - 1);
}

#[test]
fn page_image_ids_count_from_one() {
    assert_eq!(page_image_id(0).get(), 1);
    assert_eq!(page_image_id(41).get(), 42);
    assert_eq!(page_image_id(u32::MAX as usize).get(), u32::MAX);
    assert!(ImageId::new(0).is_none());
}

#[test]
fn shm_name_holds_process_time_and_page() {
    assert_eq!(shm_name(12, 3_000_045, 9), "/treader_12_45_9");
}

#[test]
fn short_rows_are_an_error() {
    let mut counter = GenerationCounter::new();
    match convert_page_info(page(0, vec![0; 12], 2, 2, 5), false, &mut counter) {
        Err(RenderError::Converting(text)) => assert_eq!(text, "invalid RGB row stride: 5 for width 2"),
        _ => panic!("expected an error"),
    }
}

#[test]
fn missing_bytes_are_an_error() {
    let mut counter = GenerationCounter::new();
    match convert_page_info(page(0, vec![0; 11], 2, 2, 6), false, &mut counter) {
        Err(RenderError::Converting(text)) => assert_eq!(text, "RGB buffer too short: got 11, need 12"),
        _ => panic!("expected an error"),
    }
}

#[test]
fn only_converted_pages_use_up_a_mark() {
    let mut counter = GenerationCounter::new();
    let mut marks = vec![];
    for len in [3, 2, 3, 3] {
        let info = page(0, vec![0; len], 1, 1, 3);
        marks.push(convert_page_info(info, false, &mut counter).ok().map(|p| p.generation));
    }
    assert_eq!(marks, vec![Some(1), None, Some(2), Some(3)]);
    assert_eq!(counter.next, 4);
}

#[test]
fn two_pipelines_share_one_count() {
    let mut counter = GenerationCounter::new();
    let first = convert_page_info(page(0, vec![0; 3], 1, 1, 3), false, &mut counter).unwrap();
    let (prepared, rgb) = prepare_page(page(0, vec![0; 3], 1, 1, 3), false).unwrap();
    let whole = image::RgbImage::from_raw(rgb.width, rgb.height, rgb.data).unwrap();
    let image = kittage::image::Image::from(image::DynamicImage::ImageRgb8(whole));
    let second = finish_page(prepared, image, &mut counter);
    assert_eq!(first.generation, 1);
    assert_eq!(second.generation, 2);
}

#[test]
fn greatest_mark_is_followed_by_zero() {
    let mut counter = GenerationCounter { next: u64::MAX };
    assert_eq!(counter.take(), u64::MAX);
    assert_eq!(counter.take(), 0);
    assert_eq!(counter.take(), 1);
}

#[test]
fn bytes_after_the_last_row_are_sent_along() {
    let mut counter = GenerationCounter::new();
    let info = page(0, vec![1, 2, 3, 4], 1, 1, 3);
    assert!(can_convert(&info, false));
    let converted = convert_page_info(info, false, &mut counter).unwrap();
    assert_eq!((converted.pixel_w, converted.pixel_h), (1, 1));
    match converted.img {
        MaybeTransferred::NotYet(sent) => match sent.image.medium {
            kittage::medium::Medium::Direct { data, .. } => {
                assert_eq!(data.to_vec(), vec![1, 2, 3, 4])
            }
            _ => panic!("expected the bytes themselves"),
        },
        MaybeTransferred::Transferred(_) => panic!("expected an image to send"),
    }
}

#[test]
fn bytes_after_the_last_row_can_stand_in_the_way() {
    let mut info = page(0, vec![0; 3 * 4 + 3], 2, 2, 6);
    assert!(can_convert(&info, false));
    assert!(!can_convert(&info, true));
    info.img_data.pixels = vec![0; 3 * 4 + 6];
    assert!(can_convert(&info, true));
    info.result_rects.push(HighlightRect {
        ul_x: 0,
        ul_y: 0,
        lr_x: 2,
        lr_y: 2,
    });
    assert!(!can_convert(&info, true));
    assert!(!can_convert(&info, false));
    info.img_data.pixels = vec![0; 3 * 4];
    assert!(can_convert(&info, true));
    // Padded rows, or too few bytes: nothing follows the last row.
    assert!(can_convert(&page(0, vec![0; 20], 2, 2, 7), true));
    assert!(can_convert(&page(0, vec![0; 5], 2, 2, 6), true));
}

#[test]
fn pixmap_copy_drops_alpha() {
    let rgb = copy_pixmap_rgb(&[1, 2, 3, 4, 5, 6], 2, 1, 3).unwrap();
    assert_eq!(rgb.pixels, vec![1, 2, 3, 4, 5, 6]);
    assert_eq!(rgb.row_stride, 6);
    let rgba = copy_pixmap_rgb(&[1, 2, 3, 9, 4, 5, 6, 9, 7], 2, 1, 4).unwrap();
    assert_eq!(rgba.pixels, vec![1, 2, 3, 4, 5, 6]);
    assert_eq!((rgba.width, rgba.height, rgba.row_stride), (2, 1, 6));
}

#[test]
fn pixmap_of_another_format_is_an_error() {
    match copy_pixmap_rgb(&[1], 1, 1, 1) {
        Err(RenderError::Converting(text)) => assert_eq!(
            text,
            "unsupported pixmap format: expected RGB/RGBA, got 1 components"
        ),
        _ => panic!("expected an error"),
    }
}
