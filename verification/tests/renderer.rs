use std::collections::VecDeque;
use treader::real32::{adjust_epub_em, Real32, EPUB_EM_MAX, EPUB_EM_MIN};
use treader::renderer::{
    fill_default, jump_to_page, queue_page_rerender, should_continue_rendering, PrevRender,
    RotateDirection, RENDER_WINDOW,
};

/// The step from one number to another.
fn stepped(em: f32, delta: i8) -> f32 {
    f32::from_bits(adjust_epub_em(Real32 { bits: em.to_bits() }, delta).bits)
}

#[test]
fn adjust_epub_em_clamps_to_bounds() {
    let least = f32::from_bits(EPUB_EM_MIN);
    let greatest = f32::from_bits(EPUB_EM_MAX);
    assert!((stepped(least, -1) - least).abs() < f32::EPSILON);
    assert!((stepped(greatest, 1) - greatest).abs() < f32::EPSILON);
    assert!((stepped(10.0, 1) - 11.0).abs() < f32::EPSILON);
    assert!((stepped(10.0, -1) - 9.0).abs() < f32::EPSILON);
}

#[test]
fn font_size_steps_are_those_of_floating_point() {
    for bits in (EPUB_EM_MIN..=EPUB_EM_MAX).step_by(4099).chain([EPUB_EM_MAX]) {
        let em = f32::from_bits(bits);
        for delta in i8::MIN..=i8::MAX {
            let expected = (em + f32::from(delta)).clamp(9.0, 12.0);
            assert_eq!(stepped(em, delta).to_bits(), expected.to_bits());
        }
    }
    assert!(stepped(f32::NAN, 1).is_nan());
    assert_eq!(stepped(stepped(10.25, 1), -1), 10.25);
}

// --- fill_default ---

#[test]
fn fill_default_initialises_to_size() {
    let mut v: Vec<PrevRender> = vec![];
    fill_default(&mut v, 5);
    assert_eq!(v.len(), 5);
    assert!(v.iter().all(|r| !r.successful));
}

#[test]
fn fill_default_clears_existing() {
    let mut v: Vec<PrevRender> = vec![];
    fill_default(&mut v, 3);
    v[0].successful = true;
    fill_default(&mut v, 2);
    assert_eq!(v.len(), 2);
    assert!(!v[0].successful);
}

#[test]
fn jump_to_page_clears_stale_rerender_backlog() {
    let mut rendered: Vec<PrevRender> = Vec::new();
    fill_default(&mut rendered, 64);
    rendered[40].successful = true;
    let mut need_rerender = VecDeque::from([0, 1, 2, 3]);

    jump_to_page(
        &mut rendered,
        &mut need_rerender,
        40,
        64,
    );

    assert!(need_rerender.is_empty());
    assert!(!rendered[40].successful);
}

#[test]
fn jump_to_page_retains_overlapping_window_entries() {
    let mut rendered: Vec<PrevRender> = Vec::new();
    fill_default(&mut rendered, 64);
    let mut need_rerender = VecDeque::from([18, 21, 24, 40]);

    jump_to_page(
        &mut rendered,
        &mut need_rerender,
        30,
        64,
    );

    assert_eq!(need_rerender, VecDeque::from([18, 21, 24, 40]));
    assert!(!rendered[30].successful);
}

#[test]
fn queue_page_rerender_marks_page_dirty_once() {
    let mut rendered: Vec<PrevRender> = Vec::new();
    fill_default(&mut rendered, 4);
    rendered[2].successful = true;
    let mut need_rerender = VecDeque::new();

    queue_page_rerender(&mut rendered, &mut need_rerender, 2);
    queue_page_rerender(&mut rendered, &mut need_rerender, 2);

    assert_eq!(need_rerender, VecDeque::from([2]));
    assert!(!rendered[2].successful);
}

#[test]
fn should_not_continue_rendering_for_out_of_window_pages() {
    let mut rendered: Vec<PrevRender> = Vec::new();
    fill_default(&mut rendered, 64);
    for page in rendered.iter_mut().take(RENDER_WINDOW) {
        page.successful = true;
        page.num_search_found = Some(0);
    }
    rendered[40].successful = false;

    assert!(!should_continue_rendering(
        &rendered,
        &VecDeque::new(),
        0,
        64,
        None,
    ));
}

#[test]
fn should_continue_rendering_for_pending_current_window_page() {
    let mut rendered: Vec<PrevRender> = Vec::new();
    fill_default(&mut rendered, 64);
    for page in rendered.iter_mut() {
        page.successful = true;
        page.num_search_found = Some(0);
    }
    rendered[12].successful = false;

    assert!(should_continue_rendering(
        &rendered,
        &VecDeque::new(),
        0,
        64,
        None,
    ));
}

// --- RotateDirection ---

#[test]
fn rotate_direction_cycle() {
    let mut r = RotateDirection::Deg0;
    r = match r {
        RotateDirection::Deg0 => RotateDirection::Deg90,
        d => d,
    };
    assert!(matches!(r, RotateDirection::Deg90));
    r = match r {
        RotateDirection::Deg90 => RotateDirection::Deg180,
        d => d,
    };
    assert!(matches!(r, RotateDirection::Deg180));
    r = match r {
        RotateDirection::Deg180 => RotateDirection::Deg270,
        d => d,
    };
    assert!(matches!(r, RotateDirection::Deg270));
    r = match r {
        RotateDirection::Deg270 => RotateDirection::Deg0,
        d => d,
    };
    assert!(matches!(r, RotateDirection::Deg0));
}
