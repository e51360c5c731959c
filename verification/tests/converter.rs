use std::collections::HashMap;
use treader::image_pipeline::{
    dequeue_next_page, image_from_rgb_data, page_is_in_active_window, Converter, ConverterAction,
    ConverterEvent, ConverterMsg,
};
use treader::renderer::{ImageData, PageInfo};
use treader::residency::resident_pages;

fn page(page_num: usize, width: u32, height: u32) -> PageInfo {
    PageInfo {
        page_num,
        img_data: ImageData {
            pixels: vec![],
            width,
            height,
            row_stride: 3 * width as usize,
        },
        result_rects: vec![],
    }
}

fn message(c: &mut Converter, msg: ConverterMsg) {
    assert!(matches!(c.step(ConverterEvent::Message(msg)), ConverterAction::Poll));
}

/// Converts whatever waits, and returns the pages in order.
fn drain(c: &mut Converter) -> Vec<usize> {
    let mut order = vec![];
    loop {
        match c.step(ConverterEvent::NoMessage) {
            ConverterAction::Convert { page_info, .. } => order.push(page_info.page_num),
            ConverterAction::Wait => return order,
            _ => panic!("unexpected action"),
        }
    }
}

#[test]
fn nearest_page_is_converted_first() {
    let mut c = Converter::new(20);
    message(&mut c, ConverterMsg::NumPages(100));
    message(&mut c, ConverterMsg::GoToPage(50));
    for p in [44, 58, 51, 48, 50] {
        message(&mut c, ConverterMsg::AddImg(page(p, 1, 1)));
    }
    assert_eq!(drain(&mut c), vec![50, 51, 48, 44, 58]);
}

#[test]
fn pages_outside_the_window_do_not_wait() {
    let mut c = Converter::new(20);
    message(&mut c, ConverterMsg::NumPages(100));
    message(&mut c, ConverterMsg::AddImg(page(20, 1, 1)));
    message(&mut c, ConverterMsg::AddImg(page(19, 1, 1)));
    assert_eq!(c.images.len(), 1);
    message(&mut c, ConverterMsg::GoToPage(60));
    assert!(c.images.is_empty());
    assert!(drain(&mut c).is_empty());
    assert!(page_is_in_active_window(69, 60, 100, 20));
    assert!(!page_is_in_active_window(70, 60, 100, 20));
}

#[test]
fn waiting_images_fit_in_memory() {
    let mut c = Converter::new(20);
    message(&mut c, ConverterMsg::NumPages(100));
    // Each takes 120 million bytes: two fit, and the shown page is one.
    for p in [3, 2, 1, 0] {
        message(&mut c, ConverterMsg::AddImg(page(p, 8000, 5000)));
    }
    let mut left: Vec<usize> = c.images.keys().copied().collect();
    left.sort();
    assert_eq!(left, vec![0, 1]);
}

#[test]
fn crop_setting_goes_with_the_page() {
    let mut c = Converter::new(20);
    message(&mut c, ConverterMsg::NumPages(2));
    message(&mut c, ConverterMsg::AutoCrop(true));
    message(&mut c, ConverterMsg::AddImg(page(1, 1, 1)));
    match c.step(ConverterEvent::NoMessage) {
        ConverterAction::Convert { page_info, auto_crop, .. } => {
            assert_eq!(page_info.page_num, 1);
            assert!(auto_crop);
        }
        _ => panic!("expected a page"),
    }
    assert!(matches!(c.step(ConverterEvent::Disconnected), ConverterAction::Stop));
}

#[test]
fn message_is_awaited_only_when_no_page_waits() {
    let mut c = Converter::new(4);
    assert!(matches!(c.step(ConverterEvent::NoMessage), ConverterAction::Wait));
    message(&mut c, ConverterMsg::NumPages(9));
    message(&mut c, ConverterMsg::GoToPage(5));
    for p in [3, 4, 5, 6] {
        message(&mut c, ConverterMsg::AddImg(page(p, 1, 1)));
    }
    for left in [3, 2, 1, 0] {
        let next = c.step(ConverterEvent::NoMessage);
        assert!(matches!(next, ConverterAction::Convert { .. }));
        assert_eq!(c.images.len(), left);
        assert!(c.iteration < c.prerender);
    }
    assert!(matches!(c.step(ConverterEvent::NoMessage), ConverterAction::Wait));
}

#[test]
fn jump_past_the_end_is_held_at_the_last_page() {
    let mut c = Converter::new(20);
    message(&mut c, ConverterMsg::GoToPage(148));
    message(&mut c, ConverterMsg::NumPages(30));
    assert_eq!(c.page, 29);
}

#[test]
fn no_window_no_page() {
    let mut images = HashMap::new();
    images.insert(0, page(0, 1, 1));
    let mut iteration = 0;
    assert!(dequeue_next_page(&mut images, 0, 0, &mut iteration, 20).is_none());
    assert!(dequeue_next_page(&mut images, 0, 5, &mut iteration, 0).is_none());
    assert!(dequeue_next_page(&mut images, 0, 5, &mut iteration, 20).is_some());
}

#[test]
fn first_image_stays_however_large() {
    let kept = resident_pages(&vec![(4, 300_000_000), (5, 1), (3, 262_144_000)], 4);
    assert_eq!(kept.len(), 1);
    assert!(kept.contains(&4));
    let kept = resident_pages(&vec![(6, 200_000_000), (5, 200_000_000), (9, 62_144_000)], 5);
    assert_eq!(kept.len(), 2);
    assert!(kept.contains(&5) && kept.contains(&9));
}

#[test]
fn size_that_cannot_be_counted_is_an_error() {
    let img = ImageData {
        pixels: vec![],
        width: 1,
        height: u32::MAX,
        row_stride: usize::MAX,
    };
    match image_from_rgb_data(img) {
        Err(treader::error::RenderError::Converting(text)) => {
            assert_eq!(text, "RGB buffer size overflow")
        }
        _ => panic!("expected an error"),
    }
}
