use treader::app::{App, InputMode, ScrollAction, SearchJumpResolution, StatusMsg};
use treader::convert::{ConvertedPage, ImageId, MaybeTransferred};
use treader::real32::Real32;
use treader::renderer::DocumentKind;
use treader::terminal::WindowSize;

fn ws() -> WindowSize {
    WindowSize {
        rows: 25,
        cols: 80,
        width_px: 800,
        cell_width_px: 10,
        cell_height_px: 20,
    }
}

fn page(page_num: usize, id: u32, w: u32, h: u32) -> ConvertedPage {
    ConvertedPage {
        page_num,
        img: MaybeTransferred::Transferred(ImageId::new(id).unwrap()),
        pixel_w: w,
        pixel_h: h,
        generation: 0,
        num_results: 3,
    }
}

fn deletes(app: &App) -> Vec<u32> {
    app.pending_image_deletes.iter().map(|id| id.get()).collect()
}

#[test]
fn new_viewer_is_on_the_first_page() {
    let app = App::new();
    assert_eq!((app.page, app.n_pages, app.zoom_level), (0, 0, 0));
    assert!(matches!(app.msg, StatusMsg::Hint));
    assert!(matches!(app.input_mode, InputMode::Normal));
    assert!(!app.needs_redraw);
}

#[test]
fn shown_image_stays_and_others_are_deleted_in_order() {
    let mut app = App::new();
    app.set_n_pages(4);
    // Each takes 120 million bytes: two fit.
    for p in 0..4 {
        app.rendered[p].converted = Some(page(p, p as u32 + 1, 8000, 5000));
    }
    assert!(app.go_to_page(3));
    assert!(app.rendered[3].converted.is_some());
    assert!(app.rendered[2].converted.is_some());
    assert_eq!(deletes(&app), vec![1, 2]);
    assert_eq!(app.rendered[0].num_results, None);
}

#[test]
fn failed_image_is_given_up() {
    let mut app = App::new();
    app.set_n_pages(2);
    app.page_converted(page(1, 9, 10, 10));
    assert_eq!(app.rendered[1].num_results, Some(3));
    app.page_display_failed(1);
    app.page_display_failed(1);
    app.page_display_failed(7);
    assert!(app.rendered[1].converted.is_none());
    assert_eq!(deletes(&app), vec![9]);
    app.page_converted(page(5, 9, 10, 10));
    assert_eq!(app.rendered.len(), 2);
}

#[test]
fn scroll_down_and_up_lead_back() {
    let mut app = App::new();
    app.set_n_pages(2);
    app.page_converted(page(0, 1, 800, 1000));
    app.scroll_offset = 7;
    assert_eq!(app.scroll_down(&ws(), 100), ScrollAction::Scrolled);
    assert_eq!(app.scroll_offset, 107);
    assert_eq!(app.scroll_up(&ws(), 100), ScrollAction::Scrolled);
    assert_eq!(app.scroll_offset, 7);
    assert_eq!(app.scroll_down(&ws(), u32::MAX), ScrollAction::Scrolled);
    assert_eq!(app.scroll_offset, 520);
}

#[test]
fn last_page_that_fits_is_not_turned() {
    let mut app = App::new();
    app.set_n_pages(1);
    assert_eq!(app.scroll_down(&ws(), 10), ScrollAction::Nothing);
    assert_eq!(app.scroll_up(&ws(), 10), ScrollAction::Nothing);
    assert!(!app.prev_page_at_bottom(&ws()));
}

#[test]
fn no_turn_where_there_is_no_page_to_turn_to() {
    let mut app = App::new();
    app.set_n_pages(1);
    app.page_converted(page(0, 1, 800, 1000));
    assert_eq!(app.scroll_up(&ws(), 60), ScrollAction::Nothing);
    assert_eq!((app.page, app.scroll_offset), (0, 0));
    app.scroll_offset = 520;
    assert_eq!(app.scroll_down(&ws(), 60), ScrollAction::Nothing);
    assert_eq!((app.page, app.scroll_offset), (0, 520));
    assert_eq!(app.page_down_in_zoom(&ws()), ScrollAction::Nothing);

    // With a neighbour, the same places ask for a turn.
    let mut app = App::new();
    app.set_n_pages(3);
    app.page = 1;
    app.page_converted(page(1, 1, 800, 1000));
    assert_eq!(app.scroll_up(&ws(), 60), ScrollAction::TurnPrev);
    app.scroll_offset = 520;
    assert_eq!(app.scroll_down(&ws(), 60), ScrollAction::TurnNext);
    assert_eq!(app.page, 1);
}

#[test]
fn zoom_steps_lead_back() {
    let mut app = App::new();
    app.zoom_in();
    app.zoom_in();
    app.zoom_out();
    assert_eq!(app.zoom_level, 1);
    app.toggle_zoom_mode();
    assert!(app.zoom_mode);
    assert_eq!(app.zoom_level, 1);
    app.toggle_zoom_mode();
    assert_eq!(app.zoom_level, 0);
}

#[test]
fn pan_never_leaves_the_page() {
    let mut app = App::new();
    app.set_n_pages(1);
    app.page_converted(page(0, 1, 1000, 100));
    app.pan_right(&ws(), u32::MAX);
    assert_eq!(app.pan_x, 200);
    app.pan_left(&ws(), 500);
    assert_eq!(app.pan_x, 0);
}

#[test]
fn nearest_result_is_shown() {
    let mut app = App::new();
    app.set_n_pages(6);
    app.search_term = Some("x".to_owned());
    app.got_search_results(2, 1);
    app.got_search_results(4, 1);
    app.got_search_results(77, 1);
    assert!(app.next_search_result());
    assert_eq!(app.page, 2);
    assert!(app.prev_search_result());
    assert_eq!(app.page, 4);
    app.clear_search_results();
    assert!(!app.next_search_result());
    assert!(app.rendered.iter().all(|r| r.num_results.is_none()));
}

#[test]
fn jump_may_come_back_to_where_it_began() {
    let mut app = App::new();
    app.set_n_pages(3);
    for p in 0..3 {
        app.got_search_results(p, usize::from(p == 1));
    }
    assert_eq!(app.resolve_next_search_page(1), SearchJumpResolution::Found(1));
    assert_eq!(App::new().resolve_next_search_page(1), SearchJumpResolution::NoResult);
}

#[test]
fn kind_of_document_decides_zoom_and_font_size() {
    let mut app = App::new();
    assert!(app.supports_zoom());
    app.set_document_kind(DocumentKind::Reflowable);
    assert!(!app.supports_zoom());
    app.set_epub_font_size(Real32 { bits: 10.0f32.to_bits() });
    assert_eq!(app.epub_font_size.unwrap().bits, 10.0f32.to_bits());
    app.set_document_kind(DocumentKind::Fixed);
    assert!(app.epub_font_size.is_none());
}

#[test]
fn status_texts_in_full() {
    assert_eq!(
        StatusMsg::Hint.text(2, 0, false),
        "3 / 1  ? help  q quit  ←/→ page  ↑/↓ scroll  i invert  r rotate  z zoom"
    );
    assert_eq!(StatusMsg::Info("hi".to_owned()).text(9, 120, true), "10 / 120  [ZOOM] hi");
    assert_eq!(
        StatusMsg::Error("no".to_owned()).text(usize::MAX, 1, false),
        format!("{} / 1  ERROR: no", usize::MAX as u128 + 1)
    );
    let mut app = App::new();
    app.show_render_error("bad".to_owned());
    assert!(matches!(&app.msg, StatusMsg::Error(s) if s == "bad"));
    app.show_info("fine".to_owned());
    assert!(matches!(&app.msg, StatusMsg::Info(s) if s == "fine"));
}
