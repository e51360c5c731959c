use treader::error::RenderError;
use treader::real32::{clamp_epub_em, Real32};
use treader::render_loop::{
    pages_to_probe, EpubFigures, PagePlan, Phase, RenderEvent, RenderLoop,
};
use treader::renderer::{
    highlight_plan, page_tint, DocumentKind, HighlightPlan, RenderNotif, RotateDirection,
    SearchQuad, MUPDF_BLACK, MUPDF_WHITE, TINT_BLACK, TINT_WHITE,
};

fn number(x: f32) -> Real32 {
    Real32 { bits: x.to_bits() }
}

fn figures() -> EpubFigures {
    EpubFigures {
        layout_w: number(300.0),
        layout_h: number(400.0),
        default_em: number(10.0),
    }
}

fn send(it: &mut RenderLoop, notif: RenderNotif) -> Option<usize> {
    it.receive(RenderEvent::Notif(notif), figures())
}

fn area(it: &mut RenderLoop, w: f32, h: f32) {
    send(
        it,
        RenderNotif::Area {
            width_px: number(w),
            height_px: number(h),
        },
    );
}

fn quad() -> SearchQuad {
    SearchQuad {
        ul_x: number(1.0),
        ul_y: number(1.0),
        lr_x: number(2.0),
        lr_y: number(2.0),
    }
}

/// A document of `n` pages, about to be rendered for the first time.
fn fixed(n: i32) -> RenderLoop {
    let mut it = RenderLoop::new();
    assert_eq!(it.phase, Phase::AwaitArea);
    area(&mut it, 800.0, 600.0);
    assert_eq!(it.phase, Phase::OpenDocument);
    assert_eq!(it.opened(false), DocumentKind::Fixed);
    assert_eq!(it.phase, Phase::CountPages);
    assert_eq!(it.counted(n).unwrap(), n as usize);
    assert_eq!(it.phase, Phase::StartRound);
    it
}

/// Runs until a message is awaited; every page has `results(page)` results.
/// Returns the pages that were rendered, in order.
fn run(it: &mut RenderLoop, results: fn(usize) -> usize) -> Vec<usize> {
    let mut order = vec![];
    loop {
        match it.phase {
            Phase::StartRound => it.start_round(),
            Phase::RenderPage(page) => {
                order.push(page);
                let n = if it.search_term.is_some() { results(page) } else { 0 };
                it.page_rendered(n);
            }
            Phase::PollRendering | Phase::PollSearching { .. } => {
                assert_eq!(it.receive(RenderEvent::Nothing, figures()), None);
            }
            Phase::SearchPage { page, .. } => {
                let quads = vec![quad(); results(page)];
                let n = quads.len();
                assert_eq!(it.page_searched(Some(quads)), (page, n));
            }
            Phase::AwaitNotif => return order,
            other => panic!("unexpected phase {other:?}"),
        }
    }
}

#[test]
fn pages_are_rendered_outward_from_the_shown_one() {
    let mut it = fixed(100);
    assert_eq!(run(&mut it, |_| 0), (0..24).collect::<Vec<usize>>());
    send(&mut it, RenderNotif::JumpToPage(50));
    let order = run(&mut it, |_| 0);
    assert_eq!(&order[..5], &[50, 51, 49, 52, 48]);
    assert_eq!(order.len(), 24);
}

#[test]
fn left_alone_the_thread_comes_to_rest() {
    for n in [1, 19, 20, 21, 24, 25, 60] {
        for shown in [0, n / 2, n - 1] {
            let mut it = fixed(n as i32);
            run(&mut it, |_| 0);
            send(&mut it, RenderNotif::JumpToPage(shown));
            run(&mut it, |_| 0);
            send(&mut it, RenderNotif::Search("word".to_owned()));
            // A result on every page has every page of the window drawn again.
            run(&mut it, |_| 1);
            assert_eq!(it.phase, Phase::AwaitNotif);
            assert!(it.need_rerender.is_empty());
            assert!(it.rendered[shown].successful);
            assert!(it.rendered.iter().all(|p| p.num_search_found == Some(1)));
        }
    }
}

#[test]
fn dropped_page_is_rendered_before_all_others() {
    let mut it = fixed(30);
    run(&mut it, |_| 0);
    send(&mut it, RenderNotif::PageNeedsReRender(7));
    it.start_round();
    assert_eq!(it.phase, Phase::RenderPage(7));
    it.page_rendered(0);
    assert!(run(&mut it, |_| 0).is_empty());
    send(&mut it, RenderNotif::PageNeedsReRender(99));
    assert!(run(&mut it, |_| 0).is_empty());
}

#[test]
fn search_reaches_every_page_and_renders_hits_again() {
    let mut it = fixed(60);
    run(&mut it, |_| 0);
    send(&mut it, RenderNotif::Search("word".to_owned()));
    let order = run(&mut it, |p| usize::from(p == 22 || p == 40));
    assert!(it.rendered.iter().all(|p| p.num_search_found.is_some()));
    assert_eq!(it.rendered[40].num_search_found, Some(1));
    assert!(!it.rendered[40].successful);
    // The first twenty at once, and the hit beyond them after the scan.
    assert_eq!(order.len(), 21);
    assert_eq!(order[20], 22);
    assert_eq!(highlight_plan(&it.rendered[22]), HighlightPlan::Known);
    assert_eq!(highlight_plan(&it.rendered[40]), HighlightPlan::Known);
    assert_eq!(highlight_plan(&it.rendered[41]), HighlightPlan::Known);
    assert_eq!(highlight_plan(&it.rendered[3]), HighlightPlan::Nothing);
}

#[test]
fn search_from_the_middle_wraps_around() {
    let mut it = fixed(60);
    run(&mut it, |_| 0);
    send(&mut it, RenderNotif::JumpToPage(33));
    run(&mut it, |_| 0);
    send(&mut it, RenderNotif::Search("word".to_owned()));
    run(&mut it, |_| 1);
    assert!(it.rendered.iter().all(|p| p.num_search_found == Some(1)));
}

#[test]
fn search_ends_whatever_page_is_shown() {
    for (shown, n) in [(20, 30), (25, 30), (20, 100), (1, 5), (29, 30), (40, 41), (19, 20), (33, 60)] {
        let mut it = fixed(n);
        run(&mut it, |_| 0);
        send(&mut it, RenderNotif::JumpToPage(shown));
        run(&mut it, |_| 0);
        send(&mut it, RenderNotif::Search("word".to_owned()));
        let mut order = run(&mut it, |_| 1);
        assert!(it.rendered.iter().all(|p| p.num_search_found == Some(1)));
        // Every page of the window has been rendered with its result.
        let start = shown.saturating_sub(12);
        let window: Vec<usize> = (start..(start + 24).min(n as usize)).collect();
        order.sort();
        order.dedup();
        assert_eq!(order, window);
        assert!(window.iter().all(|p| it.rendered[*p].successful));
    }
}

#[test]
fn cleared_search_removes_all_highlights() {
    let mut it = fixed(60);
    run(&mut it, |_| 0);
    send(&mut it, RenderNotif::Search("word".to_owned()));
    run(&mut it, |_| 2);
    assert!(it.rendered.iter().any(|p| p.search_quads.is_some()));
    send(&mut it, RenderNotif::Search(String::new()));
    assert!(it.search_term.is_none());
    assert!(it
        .rendered
        .iter()
        .all(|p| highlight_plan(p) == HighlightPlan::Nothing && !p.successful));
}

#[test]
fn new_search_forgets_the_last_one() {
    let mut it = fixed(60);
    run(&mut it, |_| 0);
    send(&mut it, RenderNotif::Search("one".to_owned()));
    run(&mut it, |_| 2);
    send(&mut it, RenderNotif::Search("two".to_owned()));
    assert!(it
        .rendered
        .iter()
        .all(|p| highlight_plan(p) == HighlightPlan::Search(0)));
}

#[test]
fn failed_search_counts_nothing() {
    let mut it = fixed(60);
    run(&mut it, |_| 0);
    send(&mut it, RenderNotif::Search("word".to_owned()));
    loop {
        match it.phase {
            Phase::StartRound => it.start_round(),
            Phase::RenderPage(_) => it.page_failed(),
            Phase::SearchPage { .. } => break,
            other => panic!("unexpected phase {other:?}"),
        }
    }
    assert_eq!(it.page_searched(None), (0, 0));
    assert_eq!(it.rendered[0].num_search_found, Some(0));
    assert!(it.rendered[0].successful);
}

#[test]
fn toggles_have_everything_rendered_again() {
    let mut it = fixed(10);
    run(&mut it, |_| 0);
    send(&mut it, RenderNotif::Invert);
    assert!(it.invert);
    assert_eq!(run(&mut it, |_| 0).len(), 10);
    send(&mut it, RenderNotif::Tint);
    send_in_round(&mut it, RenderNotif::Invert);
    assert!(it.tinted && !it.invert);
    for _ in 0..3 {
        send_in_round(&mut it, RenderNotif::Rotate);
    }
    assert_eq!(it.rotate, RotateDirection::Deg270);
    send_in_round(&mut it, RenderNotif::Rotate);
    assert_eq!(it.rotate, RotateDirection::Deg0);
    send_in_round(&mut it, RenderNotif::Refresh);
    assert!(it.rendered.iter().all(|p| !p.successful));
}

/// Brings the machine to where it listens, then sends.
fn send_in_round(it: &mut RenderLoop, notif: RenderNotif) {
    it.start_round();
    it.render_failed();
    assert_eq!(it.phase, Phase::PollRendering);
    send(it, notif);
}

#[test]
fn links_are_answered_without_a_new_round() {
    let mut it = fixed(3);
    run(&mut it, |_| 0);
    assert_eq!(send(&mut it, RenderNotif::GetLinks(2)), Some(2));
    assert_eq!(it.phase, Phase::AwaitNotif);
}

#[test]
fn first_document_that_cannot_be_opened_ends_the_thread() {
    let mut it = RenderLoop::new();
    area(&mut it, 800.0, 600.0);
    it.open_failed();
    assert_eq!(it.phase, Phase::Stop);
}

#[test]
fn empty_document_is_an_error_and_the_end() {
    let mut it = RenderLoop::new();
    area(&mut it, 800.0, 600.0);
    it.opened(false);
    assert!(matches!(it.counted(0), Err(RenderError::EmptyDocument)));
    assert_eq!(it.phase, Phase::Stop);
}

#[test]
fn later_failures_wait_for_another_try() {
    let mut it = reflowable();
    run(&mut it, |_| 0);
    send(&mut it, RenderNotif::AdjustFontSize(1));
    assert_eq!(it.phase, Phase::OpenDocument);
    it.open_failed();
    assert_eq!(it.phase, Phase::AwaitRefresh);
    area(&mut it, 500.0, 500.0);
    assert_eq!(it.phase, Phase::AwaitRefresh);
    send(&mut it, RenderNotif::Refresh);
    it.opened(true);
    it.layout_failed();
    assert_eq!(it.phase, Phase::AwaitRetry);
    area(&mut it, 600.0, 500.0);
    assert_eq!(it.phase, Phase::OpenDocument);
    it.opened(false);
    it.count_failed();
    assert_eq!(it.phase, Phase::Pause);
    it.resume();
    assert_eq!(it.phase, Phase::OpenDocument);
}

fn reflowable() -> RenderLoop {
    let mut it = RenderLoop::new();
    send(&mut it, RenderNotif::SetFontSize(number(10.5)));
    area(&mut it, 800.0, 600.0);
    it.opened(true);
    assert_eq!(it.choose_em(number(12.0)).bits, 10.5f32.to_bits());
    it.laid_out(number(300.0), number(400.0));
    it.counted(5).unwrap();
    it
}

#[test]
fn font_size_steps_lay_the_document_out_again() {
    let mut it = reflowable();
    run(&mut it, |_| 0);
    send(&mut it, RenderNotif::AdjustFontSize(1));
    assert_eq!(it.reflow_em.unwrap().bits, 11.5f32.to_bits());
    assert_eq!(it.phase, Phase::OpenDocument);
    it.opened(true);
    assert_eq!(it.choose_em(number(9.0)).bits, 11.5f32.to_bits());
    it.laid_out(number(300.0), number(400.0));
    it.counted(5).unwrap();
    run(&mut it, |_| 0);
    // The same size again changes nothing, nor does the same area.
    send(&mut it, RenderNotif::SetFontSize(number(11.5)));
    assert_eq!(it.phase, Phase::StartRound);
    run(&mut it, |_| 0);
    area(&mut it, 800.0, 600.0);
    assert_eq!(it.phase, Phase::StartRound);
}

#[test]
fn font_size_is_nothing_to_fixed_pages() {
    let mut it = fixed(3);
    run(&mut it, |_| 0);
    send(&mut it, RenderNotif::AdjustFontSize(1));
    assert_eq!(it.phase, Phase::StartRound);
    assert!(it.reflow_em.is_none());
    assert!(run(&mut it, |_| 0).is_empty());
}

#[test]
fn font_sizes_are_held_within_bounds() {
    assert_eq!(clamp_epub_em(number(1.0)).bits, 9.0f32.to_bits());
    assert_eq!(clamp_epub_em(number(-3.0)).bits, 9.0f32.to_bits());
    assert_eq!(clamp_epub_em(number(13.5)).bits, 12.0f32.to_bits());
    assert_eq!(clamp_epub_em(number(10.25)).bits, 10.25f32.to_bits());
    assert!(f32::from_bits(clamp_epub_em(number(f32::NAN)).bits).is_nan());
}

#[test]
fn fewer_pages_move_the_shown_page_back() {
    let mut it = reflowable();
    run(&mut it, |_| 0);
    send(&mut it, RenderNotif::JumpToPage(4));
    run(&mut it, |_| 0);
    send(&mut it, RenderNotif::AdjustFontSize(-1));
    it.opened(true);
    it.choose_em(number(9.0));
    it.laid_out(number(300.0), number(400.0));
    it.counted(2).unwrap();
    assert_eq!(it.start_point, 1);
    assert_eq!(run(&mut it, |_| 0), vec![1, 0]);
}

#[test]
fn closed_channel_ends_the_thread() {
    let mut it = fixed(3);
    run(&mut it, |_| 0);
    it.receive(RenderEvent::Closed, figures());
    assert_eq!(it.phase, Phase::Stop);
}

#[test]
fn plan_follows_the_settings() {
    let mut it = fixed(10);
    run(&mut it, |_| 0);
    send(&mut it, RenderNotif::Rotate);
    send_in_round(&mut it, RenderNotif::Invert);
    it.start_round();
    assert_eq!(
        it.page_plan(MUPDF_BLACK, MUPDF_WHITE),
        PagePlan {
            highlights: HighlightPlan::Nothing,
            tint: Some((MUPDF_WHITE, MUPDF_BLACK)),
            rotate: RotateDirection::Deg90,
        }
    );
}

#[test]
fn at_most_three_pages_are_probed() {
    assert!(matches!(pages_to_probe(0), Err(RenderError::EmptyDocument)));
    assert_eq!(pages_to_probe(2).unwrap(), 2);
    assert_eq!(pages_to_probe(300).unwrap(), 3);
}

#[test]
fn tint_and_inversion_choose_the_colours() {
    assert_eq!(page_tint(false, false, MUPDF_BLACK, MUPDF_WHITE), None);
    assert_eq!(
        page_tint(false, true, MUPDF_BLACK, MUPDF_WHITE),
        Some((MUPDF_WHITE, MUPDF_BLACK))
    );
    assert_eq!(page_tint(true, false, 1, 2), Some((TINT_BLACK, TINT_WHITE)));
    assert_eq!(page_tint(true, true, 1, 2), Some((TINT_WHITE, TINT_BLACK)));
    assert_eq!(page_tint(false, false, 1, MUPDF_WHITE), Some((1, MUPDF_WHITE)));
    assert_eq!((TINT_BLACK, TINT_WHITE), (0x704214, 0xF5E6C8));
}
