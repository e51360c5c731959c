use treader::app::{App, ScrollAction, SearchJumpResolution, StatusMsg};
use treader::convert::{ConvertedPage, ImageId, MaybeTransferred};
use treader::renderer::DocumentKind;
use treader::terminal::WindowSize;

fn test_ws() -> WindowSize {
    WindowSize {
        rows: 25,
        cols: 80,
        width_px: 800,
        cell_width_px: 10,
        cell_height_px: 20,
    }
}

fn make_converted(page_num: usize, pixel_w: u32, pixel_h: u32) -> ConvertedPage {
    ConvertedPage {
        page_num,
        img: MaybeTransferred::Transferred(ImageId::new(1).unwrap()),
        pixel_w,
        pixel_h,
        generation: 1,
        num_results: 0,
    }
}

#[test]
fn resolve_next_search_page_finds_next_known_hit() {
    let mut app = App::new();
    app.set_n_pages(5);
    app.rendered[0].num_results = Some(0);
    app.rendered[1].num_results = Some(0);
    app.rendered[2].num_results = Some(2);
    app.rendered[3].num_results = Some(0);
    app.rendered[4].num_results = Some(0);

    match app.resolve_next_search_page(0) {
        SearchJumpResolution::Found(page) => assert_eq!(page, 2),
        _ => panic!("expected Found(2)"),
    }
}

#[test]
fn resolve_next_search_page_waits_when_earlier_pages_unknown() {
    let mut app = App::new();
    app.set_n_pages(4);
    app.rendered[1].num_results = None;
    app.rendered[2].num_results = Some(1);
    app.rendered[3].num_results = Some(0);
    app.rendered[0].num_results = Some(0);

    assert!(matches!(
        app.resolve_next_search_page(0),
        SearchJumpResolution::Pending
    ));
}

#[test]
fn resolve_next_search_page_reports_no_result_when_complete() {
    let mut app = App::new();
    app.set_n_pages(3);
    app.rendered[0].num_results = Some(0);
    app.rendered[1].num_results = Some(0);
    app.rendered[2].num_results = Some(0);

    assert!(matches!(
        app.resolve_next_search_page(1),
        SearchJumpResolution::NoResult
    ));
}

/// Set up an app with n pages, current page at `page`, each page rendered
/// at the given pixel dimensions.
fn app_with_pages(n: usize, page: usize, pixel_w: u32, pixel_h: u32) -> App {
    let mut app = App::new();
    app.set_n_pages(n);
    app.page = page;
    for i in 0..n {
        app.rendered[i].converted = Some(make_converted(i, pixel_w, pixel_h));
    }
    app
}

// --- Zoom ---

#[test]
fn zoom_in_increments_level() {
    let mut app = App::new();
    assert!(app.zoom_in());
    assert_eq!(app.zoom_level, 1);
    assert!(app.needs_redraw);
}

#[test]
fn zoom_in_capped_at_max() {
    let mut app = App::new();
    app.zoom_level = 20;
    assert!(!app.zoom_in());
    assert_eq!(app.zoom_level, 20);
}

#[test]
fn zoom_out_decrements_level() {
    let mut app = App::new();
    app.zoom_level = 3;
    assert!(app.zoom_out());
    assert_eq!(app.zoom_level, 2);
}

#[test]
fn zoom_out_stops_at_zero() {
    let mut app = App::new();
    assert!(!app.zoom_out());
    assert_eq!(app.zoom_level, 0);
}

#[test]
fn toggle_zoom_mode_resets_state() {
    let mut app = App::new();
    app.zoom_mode = true;
    app.zoom_level = 5;
    app.pan_x = 100;
    app.scroll_offset = 50;
    app.toggle_zoom_mode();
    assert!(!app.zoom_mode);
    assert_eq!(app.zoom_level, 0);
    assert_eq!(app.pan_x, 0);
    assert_eq!(app.scroll_offset, 0);
}

#[test]
fn set_document_kind_reflowable_disables_zoom() {
    let mut app = App::new();
    app.zoom_mode = true;
    app.zoom_level = 2;
    app.pan_x = 50;
    app.scroll_offset = 25;

    app.set_document_kind(DocumentKind::Reflowable);

    assert_eq!(app.document_kind, DocumentKind::Reflowable);
    assert!(!app.zoom_mode);
    assert_eq!(app.zoom_level, 0);
    assert_eq!(app.pan_x, 0);
    assert_eq!(app.scroll_offset, 0);
}

// --- Page navigation ---

#[test]
fn set_n_pages_initialises_rendered() {
    let mut app = App::new();
    app.set_n_pages(10);
    assert_eq!(app.n_pages, 10);
    assert_eq!(app.rendered.len(), 10);
}

#[test]
fn set_n_pages_clamps_current_page() {
    let mut app = App::new();
    app.set_n_pages(10);
    app.page = 15;
    app.set_n_pages(5);
    assert_eq!(app.page, 4);
}

#[test]
fn go_to_page_clamps_to_max() {
    let mut app = App::new();
    app.set_n_pages(5);
    assert!(app.go_to_page(100));
    assert_eq!(app.page, 4);
}

#[test]
fn go_to_page_resets_scroll_and_pan() {
    let mut app = App::new();
    app.set_n_pages(5);
    app.scroll_offset = 100;
    app.pan_x = 50;
    app.go_to_page(3);
    assert_eq!(app.scroll_offset, 0);
    assert_eq!(app.pan_x, 0);
}

#[test]
fn go_to_same_page_returns_false() {
    let mut app = App::new();
    app.set_n_pages(5);
    app.page = 2;
    assert!(!app.go_to_page(2));
}

#[test]
fn next_page_at_last_returns_false() {
    let mut app = App::new();
    app.set_n_pages(3);
    app.page = 2;
    assert!(!app.next_page());
    assert_eq!(app.page, 2);
}

#[test]
fn prev_page_at_first_returns_false() {
    let mut app = App::new();
    app.set_n_pages(3);
    app.page = 0;
    assert!(!app.prev_page());
    assert_eq!(app.page, 0);
}

#[test]
fn next_prev_page_basic() {
    let mut app = App::new();
    app.set_n_pages(5);
    app.page = 2;
    assert!(app.next_page());
    assert_eq!(app.page, 3);
    assert!(app.prev_page());
    assert_eq!(app.page, 2);
}

// --- Scrolling ---

#[test]
fn max_scroll_zero_when_page_fits() {
    let ws = test_ws();
    // page_area_height_px = (25-1)*20 = 480
    let app = app_with_pages(1, 0, 800, 400);
    assert_eq!(app.max_scroll(&ws), 0);
}

#[test]
fn max_scroll_positive_when_page_taller() {
    let ws = test_ws();
    // page_area_height_px = 480, image = 1000
    let app = app_with_pages(1, 0, 800, 1000);
    assert_eq!(app.max_scroll(&ws), 520);
}

#[test]
fn scroll_down_turns_page_when_fits_on_screen() {
    let ws = test_ws();
    let mut app = app_with_pages(3, 0, 800, 400);
    let action = app.scroll_down(&ws, 60);
    assert!(matches!(action, ScrollAction::TurnNext));
    assert_eq!(app.page, 1);
}

#[test]
fn scroll_down_scrolls_within_tall_page() {
    let ws = test_ws();
    let mut app = app_with_pages(3, 0, 800, 1000);
    let action = app.scroll_down(&ws, 60);
    assert!(matches!(action, ScrollAction::Scrolled));
    assert_eq!(app.scroll_offset, 60);
}

#[test]
fn scroll_down_at_bottom_signals_turn() {
    let ws = test_ws();
    let mut app = app_with_pages(3, 0, 800, 1000);
    app.scroll_offset = 520; // at max
    let action = app.scroll_down(&ws, 60);
    assert!(matches!(action, ScrollAction::TurnNext));
}

#[test]
fn scroll_up_at_top_signals_turn() {
    let ws = test_ws();
    let mut app = app_with_pages(3, 1, 800, 1000);
    app.scroll_offset = 0;
    let action = app.scroll_up(&ws, 60);
    assert!(matches!(action, ScrollAction::TurnPrev));
}

#[test]
fn scroll_up_scrolls_within_page() {
    let ws = test_ws();
    let mut app = app_with_pages(3, 0, 800, 1000);
    app.scroll_offset = 200;
    let action = app.scroll_up(&ws, 60);
    assert!(matches!(action, ScrollAction::Scrolled));
    assert_eq!(app.scroll_offset, 140);
}

#[test]
fn scroll_offset_clamped_to_max() {
    let ws = test_ws();
    let mut app = app_with_pages(1, 0, 800, 1000);
    app.scroll_offset = 500;
    let action = app.scroll_down(&ws, 100);
    assert!(matches!(action, ScrollAction::Scrolled));
    assert_eq!(app.scroll_offset, 520); // clamped to max
}

#[test]
fn viewport_page_scroll_step_keeps_one_line_overlap() {
    let ws = test_ws();
    assert_eq!(App::viewport_page_scroll_step(&ws), 460);
}

#[test]
fn page_down_in_zoom_scrolls_by_viewport_minus_one_line() {
    let ws = test_ws();
    let mut app = app_with_pages(3, 0, 800, 1400);
    let action = app.page_down_in_zoom(&ws);
    assert!(matches!(action, ScrollAction::Scrolled));
    assert_eq!(app.scroll_offset, 460);
}

#[test]
fn page_down_in_zoom_at_bottom_turns_next() {
    let ws = test_ws();
    let mut app = app_with_pages(3, 0, 800, 1000);
    app.scroll_offset = app.max_scroll(&ws);
    let action = app.page_down_in_zoom(&ws);
    assert!(matches!(action, ScrollAction::TurnNext));
}

#[test]
fn page_up_in_zoom_scrolls_by_viewport_minus_one_line() {
    let ws = test_ws();
    let mut app = app_with_pages(3, 1, 800, 1400);
    app.scroll_offset = 900;
    let action = app.page_up_in_zoom(&ws);
    assert!(matches!(action, ScrollAction::Scrolled));
    assert_eq!(app.scroll_offset, 440);
}

#[test]
fn page_up_in_zoom_at_top_turns_prev() {
    let ws = test_ws();
    let mut app = app_with_pages(3, 1, 800, 1000);
    let action = app.page_up_in_zoom(&ws);
    assert!(matches!(action, ScrollAction::TurnPrev));
}

#[test]
fn prev_page_at_bottom_sets_max_scroll() {
    let ws = test_ws();
    let mut app = app_with_pages(3, 1, 800, 1000);
    assert!(app.prev_page_at_bottom(&ws));
    assert_eq!(app.page, 0);
    assert_eq!(app.scroll_offset, 520);
}

// --- Panning ---

#[test]
fn pan_right_within_bounds() {
    let ws = test_ws();
    // width_px = 800, image = 1200
    let mut app = app_with_pages(1, 0, 1200, 480);
    app.pan_right(&ws, 100);
    assert_eq!(app.pan_x, 100);
}

#[test]
fn pan_right_clamped_to_max() {
    let ws = test_ws();
    let mut app = app_with_pages(1, 0, 1200, 480);
    app.pan_right(&ws, 500);
    assert_eq!(app.pan_x, 400); // max_pan_x = 1200 - 800
}

#[test]
fn pan_left_from_zero_stays() {
    let ws = test_ws();
    let mut app = app_with_pages(1, 0, 1200, 480);
    app.pan_left(&ws, 100);
    assert_eq!(app.pan_x, 0);
}

#[test]
fn pan_left_reduces_offset() {
    let ws = test_ws();
    let mut app = app_with_pages(1, 0, 1200, 480);
    app.pan_x = 200;
    app.pan_left(&ws, 50);
    assert_eq!(app.pan_x, 150);
}

#[test]
fn max_pan_x_zero_when_fits() {
    let ws = test_ws();
    let app = app_with_pages(1, 0, 600, 480);
    assert_eq!(app.max_pan_x(&ws), 0);
}

// --- Invalidation ---

#[test]
fn invalidate_clears_all_converted() {
    let mut app = app_with_pages(3, 0, 800, 480);
    assert!(app.rendered[0].converted.is_some());
    app.invalidate_all_pages();
    assert!(app.rendered.iter().all(|r| r.converted.is_none()));
    assert_eq!(app.pending_image_deletes.len(), 3);
    assert!(app.needs_redraw);
}

// --- Search navigation ---

#[test]
fn next_search_result_without_term_returns_false() {
    let mut app = App::new();
    app.set_n_pages(5);
    assert!(!app.next_search_result());
}

#[test]
fn next_search_result_wraps_around() {
    let mut app = App::new();
    app.set_n_pages(5);
    app.page = 3;
    app.search_term = Some("test".to_owned());
    // Mark page 1 as having results
    app.rendered[1].num_results = Some(2);
    assert!(app.next_search_result());
    assert_eq!(app.page, 1);
}

#[test]
fn prev_search_result_wraps_backward() {
    let mut app = App::new();
    app.set_n_pages(5);
    app.page = 1;
    app.search_term = Some("test".to_owned());
    // Mark page 4 as having results
    app.rendered[4].num_results = Some(3);
    assert!(app.prev_search_result());
    assert_eq!(app.page, 4);
}

#[test]
fn search_no_results_returns_false() {
    let mut app = App::new();
    app.set_n_pages(5);
    app.page = 0;
    app.search_term = Some("test".to_owned());
    // All pages have 0 results
    for r in &mut app.rendered {
        r.num_results = Some(0);
    }
    assert!(!app.next_search_result());
}

// --- page_converted ---

#[test]
fn page_converted_triggers_redraw_for_current() {
    let mut app = App::new();
    app.set_n_pages(3);
    app.page = 1;
    app.needs_redraw = false;
    let converted = make_converted(1, 800, 480);
    app.page_converted(converted);
    assert!(app.needs_redraw);
    assert!(app.rendered[1].converted.is_some());
}

#[test]
fn page_converted_no_redraw_for_other_page() {
    let mut app = App::new();
    app.set_n_pages(3);
    app.page = 0;
    app.needs_redraw = false;
    let converted = make_converted(2, 800, 480);
    app.page_converted(converted);
    assert!(!app.needs_redraw);
    assert!(app.rendered[2].converted.is_some());
}

#[test]
fn go_to_page_prunes_far_converted_pages() {
    // Create 256 pages to exceed the 250MB budget (256 * 1.1MB > 250MB)
    let mut app = app_with_pages(256, 0, 800, 480);
    assert_eq!(
        app.rendered
            .iter()
            .filter(|page| page.converted.is_some())
            .count(),
        256
    );

    app.go_to_page(128);

    assert!(app.rendered[128].converted.is_some());
    assert!(app.rendered[0].converted.is_none());
    assert!(!app.pending_image_deletes.is_empty());
    assert!(
        app.rendered
            .iter()
            .filter(|page| page.converted.is_some())
            .count()
            < 250
    );
}

#[test]
fn page_converted_outside_residency_is_not_retained() {
    // Create an app that already exceeds the budget to force pruning of distant pages
    let mut app = app_with_pages(256, 0, 800, 480);
    app.page_converted(make_converted(255, 800, 480));

    assert!(app.rendered[255].converted.is_none());
}

// --- StatusMsg ---

#[test]
fn status_msg_hint_format() {
    let msg = StatusMsg::Hint;
    let text = msg.text(0, 10, false);
    assert!(text.contains("1 / 10"));
    assert!(text.contains("? help"));
}

#[test]
fn status_msg_zoom_indicator() {
    let msg = StatusMsg::Hint;
    let text = msg.text(0, 10, true);
    assert!(text.contains("[ZOOM]"));
}

#[test]
fn status_msg_error_format() {
    let msg = StatusMsg::Error("bad thing".to_owned());
    let text = msg.text(0, 1, false);
    assert!(text.contains("ERROR: bad thing"));
}
