//! What moving about in a document brings about: scrolling, panning, zooming,
//! turning pages, jumping to results, and the images that stay.

use crate::app::{
    cached_sizes, emptied, has_results, hit_after, hit_before, jump_after, law_images_fit_budget,
    law_jump_is_sure, law_next_hit_is_nearest, law_previous_hit_is_nearest, law_shown_image_stays,
    results_unknown, sent_image, sent_images, viewport_step, App, AppView, RenderedPageInfo,
    ScrollAction, SearchJumpResolution, StatusMsg,
};
use crate::convert::{ConvertedPage, ImageId, MaybeTransferred};
use crate::residency::{
    law_nearer_images_leave_no_room, law_nothing_is_given_up_in_vain, resident, total,
    MAX_RESIDENT_BYTES,
};
use crate::terminal::WindowSize;
use crate::text::decimal;
use vstd::math::{abs, max, min};
use vstd::prelude::*;

verus! {

/// Panning moves the page by the step that is asked for, no more and no less,
/// until the edge of its image meets that of the screen, and changes nothing
/// else. To the left again by the same step leads back.
pub proof fn law_pan_moves_by_step(s: AppView, ws: WindowSize, step_px: u32)
    requires
        s.page < s.rendered.len(),
        s.rendered[s.page as int].converted is Some,
    ensures
        ({
            let range = max(0, s.rendered[s.page as int].converted->0.pixel_w - ws.width_px);
            let right = s.panned_right(ws, step_px);
            let left = s.panned_left(step_px);
            &&& s.pan_range(ws) == range
            &&& s.pan_x + step_px <= range ==> right.pan_x == s.pan_x + step_px
                && right.panned_left(step_px).pan_x == s.pan_x
            &&& s.pan_x <= range < s.pan_x + step_px ==> right.pan_x == range
            &&& s.pan_x < range && 0 < step_px ==> s.pan_x < right.pan_x && right.needs_redraw
            &&& range <= s.pan_x ==> right == s
            &&& right == (AppView {
                pan_x: right.pan_x,
                needs_redraw: right.needs_redraw,
                ..s
            })
            &&& left.pan_x == max(0, s.pan_x - step_px)
            &&& 0 < s.pan_x ==> left.needs_redraw
            &&& left == (AppView { pan_x: left.pan_x, needs_redraw: left.needs_redraw, ..s })
        }),
{
}

/// Scrolling moves the page by the step that is asked for, no more and no less,
/// until the edge of its image meets that of the page area, and changes nothing
/// else.
pub proof fn law_scroll_moves_by_step(s: AppView, ws: WindowSize, step_px: u32)
    requires
        s.page < s.rendered.len(),
        s.rendered[s.page as int].converted is Some,
    ensures
        ({
            let range = max(
                0,
                s.rendered[s.page as int].converted->0.pixel_h - ws.page_height(),
            );
            let (down, action) = s.scrolled_down(ws, step_px);
            let (up, back) = s.scrolled_up(ws, step_px);
            &&& s.scroll_range(ws) == range
            &&& s.scroll_offset < range ==> {
                &&& action == ScrollAction::Scrolled
                &&& down.scroll_offset == min(s.scroll_offset + step_px, range)
                &&& down == (AppView {
                    scroll_offset: down.scroll_offset,
                    needs_redraw: true,
                    ..s
                })
            }
            &&& 0 < range && 0 < s.scroll_offset ==> {
                &&& back == ScrollAction::Scrolled
                &&& up.scroll_offset == max(0, s.scroll_offset - step_px)
                &&& up == (AppView { scroll_offset: up.scroll_offset, needs_redraw: true, ..s })
            }
        }),
{
}

/// A page without an image cannot be scrolled or panned.
pub proof fn law_no_image_no_scroll(s: AppView, ws: WindowSize, step_px: u32)
    requires
        s.page >= s.rendered.len() || s.rendered[s.page as int].converted is None,
    ensures
        s.scroll_range(ws) == 0,
        s.pan_range(ws) == 0,
        s.panned_right(ws, step_px) == s,
{
}

/// Where all of a page is visible, scrolling turns pages: it leads where going
/// to the next or the previous page leads, if there is one.
pub proof fn law_scroll_turns_pages(s: AppView, ws: WindowSize, step_px: u32)
    requires
        s.scroll_range(ws) == 0,
        s.page < s.n_pages,
    ensures
        s.page + 1 < s.n_pages ==> s.scrolled_down(ws, step_px).0 == s.at_page(s.page + 1),
        0 < s.page ==> s.scrolled_up(ws, step_px).0 == s.at_page(s.page - 1),
{
}

/// Going back to the bottom of the previous page leads where going to it leads,
/// scrolled down as far as its image goes; on the first page it leads nowhere.
pub proof fn law_back_to_bottom(s: AppView, ws: WindowSize)
    requires
        s.page < s.n_pages,
    ensures
        0 < s.page ==> s.at_previous_bottom(ws) == (AppView {
            scroll_offset: s.at_page(s.page - 1).scroll_range(ws) as u32,
            ..s.at_page(s.page - 1)
        }),
        s.page == 0 ==> s.at_previous_bottom(ws) == s,
{
}

/// A screenful is all of the page area but one line, so that the last line of
/// one screen is the first of the next; it is never nothing.
pub proof fn law_screenful_keeps_a_line(ws: WindowSize)
    ensures
        viewport_step(ws) >= 1,
        ws.page_height() > ws.cell_height_px ==> viewport_step(ws) + ws.cell_height_px
            == ws.page_height(),
        ws.page_height() <= ws.cell_height_px ==> viewport_step(ws) == 1,
{
}

/// A step of zoom is one level, from none to twenty, and changes nothing else.
/// Entering zoom mode changes nothing but the mode; leaving it takes zoom, pan
/// and scroll back.
pub proof fn law_zoom_moves_by_one(s: AppView)
    ensures
        0 <= s.zoom_level < 20 ==> s.zoomed_in().zoom_level == s.zoom_level + 1
            && s.zoomed_in().zoomed_out().zoom_level == s.zoom_level,
        s.zoom_level >= 20 ==> s.zoomed_in() == s,
        s.zoom_level > 0 ==> s.zoomed_out().zoom_level == s.zoom_level - 1,
        s.zoom_level <= 0 ==> s.zoomed_out() == s,
        s.zoomed_in().zoom_level != s.zoom_level ==> s.zoomed_in().needs_redraw,
        s.zoomed_out().zoom_level != s.zoom_level ==> s.zoomed_out().needs_redraw,
        s.zoomed_in() == (AppView {
            zoom_level: s.zoomed_in().zoom_level,
            needs_redraw: s.zoomed_in().needs_redraw,
            ..s
        }),
        s.zoomed_out() == (AppView {
            zoom_level: s.zoomed_out().zoom_level,
            needs_redraw: s.zoomed_out().needs_redraw,
            ..s
        }),
        s.zoom_toggled().zoom_mode == !s.zoom_mode,
        s.zoom_toggled().needs_redraw,
        !s.zoom_mode ==> s.zoom_toggled() == (AppView { zoom_mode: true, needs_redraw: true, ..s }),
        s.zoom_mode ==> s.zoom_toggled() == (AppView {
            zoom_mode: false,
            zoom_level: 0,
            pan_x: 0,
            scroll_offset: 0,
            needs_redraw: true,
            ..s
        }),
{
}

/// Going to a page shows it, or the last one if it is past the end, from its
/// top left corner; going to the shown page changes nothing. Zoom, search,
/// input, and what is known of results stay as they are.
pub proof fn law_go_to_page(s: AppView, page: int)
    requires
        0 <= page,
    ensures
        ({
            let target = min(page, max(0, s.n_pages - 1));
            let t = s.at_page(page);
            &&& s.clamped(page) == target
            &&& t.page == target
            &&& target == s.page ==> t == s
            &&& target != s.page ==> t.scroll_offset == 0 && t.pan_x == 0 && t.needs_redraw
            &&& t == (AppView {
                page: t.page,
                scroll_offset: t.scroll_offset,
                pan_x: t.pan_x,
                needs_redraw: t.needs_redraw,
                rendered: t.rendered,
                deletes: t.deletes,
                ..s
            })
            &&& t.rendered.len() == s.rendered.len()
            &&& forall|i: int|
                0 <= i < s.rendered.len() ==> (#[trigger] t.rendered[i]).num_results
                    == s.rendered[i].num_results && (t.rendered[i].converted
                    == s.rendered[i].converted || t.rendered[i].converted is None)
        }),
{
}

/// Going to a page keeps the image of that page, and all images as long as they
/// fit in memory together.
pub proof fn law_images_stay_on_the_way(s: AppView, page: int)
    requires
        0 <= page,
        s.rendered.len() <= usize::MAX,
    ensures
        ({
            let target = min(page, max(0, s.n_pages - 1));
            let t = s.at_page(page);
            &&& target < s.rendered.len() ==> t.rendered[target] == s.rendered[target]
            &&& total(cached_sizes(s.rendered), cached_sizes(s.rendered).dom())
                <= MAX_RESIDENT_BYTES ==> t.rendered == s.rendered && t.deletes == s.deletes
        }),
{
    let moved = AppView {
        page: s.clamped(page) as usize,
        scroll_offset: 0,
        pan_x: 0,
        ..s
    };
    if s.clamped(page) < s.rendered.len() {
        law_shown_image_stays(moved);
    }
    if total(cached_sizes(s.rendered), cached_sizes(s.rendered).dom()) <= MAX_RESIDENT_BYTES {
        law_fitting_images_stay(moved);
    }
}

/// A jump to a result goes to that page, as long as something is searched for;
/// without a result it leads nowhere.
pub proof fn law_jump_to_result(s: AppView, page: usize)
    requires
        page < s.n_pages,
    ensures
        s.search_term is Some ==> s.at_hit(Some(page)).page == page && s.at_hit(Some(page))
            == s.at_page(page as int),
        s.search_term is None ==> s.at_hit(Some(page)) == s,
        s.at_hit(None) == s,
{
}

/// A page has results if some are known to be on it; it is not known whether it
/// has some before it has been searched.
pub proof fn law_known_results(rendered: Seq<RenderedPageInfo>, p: int)
    ensures
        has_results(rendered, p) <==> 0 <= p < rendered.len() && rendered[p].num_results is Some
            && rendered[p].num_results->0 > 0,
        results_unknown(rendered, p) <==> !(0 <= p < rendered.len()
            && rendered[p].num_results is Some),
{
}

/// The next result is on the nearest page after the shown one that has some,
/// counting on from the last page to the first; the previous one on the nearest
/// before it. There is none only if no other page has results.
pub proof fn law_next_and_previous_result(
    rendered: Seq<RenderedPageInfo>,
    page: usize,
    n_pages: usize,
)
    requires
        page < n_pages,
        rendered.len() == n_pages,
    ensures
        ({
            let next = hit_after(rendered, page as int, n_pages as int, 1);
            let prev = hit_before(rendered, page as int, n_pages as int, 1);
            &&& next matches Some(p) ==> {
                &&& p < n_pages && p != page
                &&& rendered[p as int].num_results is Some && rendered[p as int].num_results->0 > 0
                &&& forall|q: int|
                    #![trigger rendered[q]]
                    (page < q < p || (p < page && (page < q < n_pages || 0 <= q < p))) ==> !(
                    rendered[q].num_results is Some && rendered[q].num_results->0 > 0)
            }
            &&& prev matches Some(p) ==> {
                &&& p < n_pages && p != page
                &&& rendered[p as int].num_results is Some && rendered[p as int].num_results->0 > 0
                &&& forall|q: int|
                    #![trigger rendered[q]]
                    (p < q < page || (page < p && (p < q < n_pages || 0 <= q < page))) ==> !(
                    rendered[q].num_results is Some && rendered[q].num_results->0 > 0)
            }
            &&& next is None || prev is None ==> forall|q: int|
                #![trigger rendered[q]]
                0 <= q < n_pages && q != page ==> !(rendered[q].num_results is Some
                    && rendered[q].num_results->0 > 0)
        }),
{
    let from = page as int;
    let n = n_pages as int;
    law_next_hit_is_nearest(rendered, from, n, 1);
    law_previous_hit_is_nearest(rendered, from, n, 1);
    assert forall|k: int| 0 < k < n implies #[trigger] ((from + k) % n) == if from + k < n {
        from + k
    } else {
        from + k - n
    } by {
        lemma_wrapped(from + k, n);
    }
    assert forall|k: int| 0 < k < n implies #[trigger] ((from + n - k) % n) == if from - k >= 0 {
        from - k
    } else {
        from - k + n
    } by {
        lemma_wrapped(from + n - k, n);
    }
    let next = hit_after(rendered, from, n, 1);
    let prev = hit_before(rendered, from, n, 1);
    assert forall|q: int| #![trigger rendered[q]] 0 <= q < n && q != from implies exists|k: int|
        0 < k < n && q == #[trigger] ((from + k) % n) by {
        let k = if q > from {
            q - from
        } else {
            q - from + n
        };
        assert(q == (from + k) % n);
    }
    assert forall|q: int| #![trigger rendered[q]] 0 <= q < n && q != from implies exists|k: int|
        0 < k < n && q == #[trigger] ((from + n - k) % n) by {
        let k = if q < from {
            from - q
        } else {
            from - q + n
        };
        assert(q == (from + n - k) % n);
    }
}

/// A search jump goes to the first page with results after the one it starts
/// from, counting on from the last page to the first and ending with that page
/// itself, as soon as all pages before it are known to have none. It stays open
/// only while the first page that may have some has not been searched, and
/// leads nowhere only when no page has any.
pub proof fn law_search_jump(rendered: Seq<RenderedPageInfo>, from: usize, n_pages: usize)
    requires
        from < n_pages,
        rendered.len() == n_pages,
    ensures
        ({
            let found = jump_after(rendered, from as int, n_pages as int, 1);
            &&& found matches SearchJumpResolution::Found(p) ==> {
                &&& p < n_pages
                &&& rendered[p as int].num_results is Some && rendered[p as int].num_results->0 > 0
                &&& forall|q: int|
                    #![trigger rendered[q]]
                    (from < q < p || (p <= from && (from < q < n_pages || 0 <= q < p)))
                        ==> rendered[q].num_results == Some(0usize)
            }
            &&& found is NoResult <==> forall|q: int|
                0 <= q < n_pages ==> (#[trigger] rendered[q]).num_results == Some(0usize)
            &&& found is Pending <==> exists|p: int|
                #![trigger rendered[p]]
                0 <= p < n_pages && rendered[p].num_results is None && forall|q: int|
                    #![trigger rendered[q]]
                    (from < q < p || (p <= from && (from < q < n_pages || 0 <= q < p)))
                        ==> rendered[q].num_results == Some(0usize)
        }),
{
    let start = from as int;
    let n = n_pages as int;
    let found = jump_after(rendered, start, n, 1);
    law_jump_is_sure(rendered, start, n, 1);
    assert forall|k: int| 0 < k <= n implies #[trigger] ((start + k) % n) == if start + k < n {
        start + k
    } else {
        start + k - n
    } by {
        lemma_wrapped(start + k, n);
    }
    assert forall|q: int| #![trigger rendered[q]] 0 <= q < n implies exists|k: int|
        0 < k <= n && q == #[trigger] ((start + k) % n) by {
        let k = if q > start {
            q - start
        } else {
            q - start + n
        };
        assert(q == (start + k) % n);
    }
    match found {
        SearchJumpResolution::Found(p) => {
            let k = choose|k: int|
                1 <= k <= n && p == #[trigger] ((start + k) % n) && forall|j: int|
                    1 <= j < k ==> !has_results(rendered, #[trigger] ((start + j) % n))
                        && !results_unknown(rendered, (start + j) % n);
            assert forall|q: int|
                #![trigger rendered[q]]
                (from < q < p || (p <= from && (from < q < n_pages || 0 <= q
                    < p))) implies rendered[q].num_results == Some(0usize) by {
                let j = choose|j: int| 0 < j <= n && q == #[trigger] ((start + j) % n);
                assert(j < k);
            }
        },
        SearchJumpResolution::Pending => {
            let k = choose|k: int|
                1 <= k <= n && results_unknown(rendered, #[trigger] ((start + k) % n)) && forall|
                    j: int,
                |
                    1 <= j < k ==> !has_results(rendered, #[trigger] ((start + j) % n))
                        && !results_unknown(rendered, (start + j) % n);
            let p = (start + k) % n;
            assert(rendered[p].num_results is None);
            assert forall|q: int|
                #![trigger rendered[q]]
                (from < q < p || (p <= from && (from < q < n_pages || 0 <= q
                    < p))) implies rendered[q].num_results == Some(0usize) by {
                let j = choose|j: int| 0 < j <= n && q == #[trigger] ((start + j) % n);
                assert(j < k);
            }
        },
        SearchJumpResolution::NoResult => {
            assert forall|q: int| 0 <= q < n_pages implies (#[trigger] rendered[q]).num_results
                == Some(0usize) by {
                let j = choose|j: int| 0 < j <= n && q == #[trigger] ((start + j) % n);
            }
        },
    }
}

proof fn lemma_wrapped(a: int, n: int)
    requires
        0 < n,
        0 <= a < 2 * n,
    ensures
        a % n == if a < n {
            a
        } else {
            a - n
        },
{
    if a < n {
        vstd::arithmetic::div_mod::lemma_small_mod(a as nat, n as nat);
    } else {
        vstd::arithmetic::div_mod::lemma_small_mod((a - n) as nat, n as nat);
        vstd::arithmetic::div_mod::lemma_mod_add_multiples_vanish(a - n, n);
    }
}

/// Taking images away leaves those of the pages that keep theirs, and all that
/// is known of results. The terminal is told to forget exactly the images that
/// it was sent and that are taken away, after those it was told before.
pub proof fn law_images_taken_away(s: AppView, keep: Set<usize>)
    requires
        s.rendered.len() <= usize::MAX,
    ensures
        ({
            let t = s.only(keep);
            &&& t == (AppView { rendered: t.rendered, deletes: t.deletes, ..s })
            &&& t.rendered.len() == s.rendered.len()
            &&& forall|i: int|
                0 <= i < s.rendered.len() ==> {
                    let after = #[trigger] t.rendered[i];
                    &&& after.num_results == s.rendered[i].num_results
                    &&& keep.contains(i as usize) ==> after.converted == s.rendered[i].converted
                    &&& !keep.contains(i as usize) ==> after.converted is None
                }
            &&& s.deletes.is_prefix_of(t.deletes)
            &&& forall|id: ImageId|
                #![trigger t.deletes.skip(s.deletes.len() as int).contains(id)]
                t.deletes.skip(s.deletes.len() as int).contains(id) <==> exists|i: int|
                    0 <= i < s.rendered.len() && !keep.contains(i as usize) && (
                    #[trigger] s.rendered[i]).converted is Some && s.rendered[i].converted->0.img
                        == MaybeTransferred::Transferred(id)
        }),
{
    let t = s.only(keep);
    let new = sent_images(s.rendered, keep);
    assert(t.deletes.skip(s.deletes.len() as int) =~= new);
    assert forall|id: ImageId| #[trigger] new.contains(id) <==> exists|i: int|
        0 <= i < s.rendered.len() && !keep.contains(i as usize) && (
                    #[trigger] s.rendered[i]).converted is Some && s.rendered[i].converted->0.img
                        == MaybeTransferred::Transferred(id) by {
        lemma_sent(s.rendered, keep, id);
    }
}

proof fn lemma_sent(rendered: Seq<RenderedPageInfo>, keep: Set<usize>, id: ImageId)
    requires
        rendered.len() <= usize::MAX,
    ensures
        sent_images(rendered, keep).contains(id) <==> exists|i: int|
            0 <= i < rendered.len() && !keep.contains(i as usize) && (
                    #[trigger] rendered[i]).converted is Some && rendered[i].converted->0.img
                        == MaybeTransferred::Transferred(id),
    decreases rendered.len(),
{
    if rendered.len() > 0 {
        let rest = rendered.drop_last();
        let before = sent_images(rest, keep);
        let all = sent_images(rendered, keep);
        lemma_sent(rest, keep, id);
        if before.contains(id) {
            let k = choose|k: int| 0 <= k < before.len() && before[k] == id;
            assert(all[k] == id);
            let i = choose|i: int|
                0 <= i < rest.len() && !keep.contains(i as usize) && (
                    #[trigger] rest[i]).converted is Some && rest[i].converted->0.img
                        == MaybeTransferred::Transferred(id);
            assert(rendered[i] == rest[i]);
        }
        let last = rendered.len() - 1;
        if !keep.contains(last as usize) {
            if let Some(ConvertedPage { img: MaybeTransferred::Transferred(sent), .. }) =
                rendered[last].converted {
                assert(all == before + seq![sent]);
                assert(all[before.len() as int] == sent);
            }
        }
        if all.contains(id) && !before.contains(id) {
            let k = choose|k: int| 0 <= k < all.len() && all[k] == id;
            assert(k >= before.len());
            assert(rendered[last].converted is Some && rendered[last].converted->0.img
                == MaybeTransferred::Transferred(id));
        }
        if exists|i: int|
            0 <= i < rendered.len() && !keep.contains(i as usize) && (
                    #[trigger] rendered[i]).converted is Some && rendered[i].converted->0.img
                        == MaybeTransferred::Transferred(id) {
            let i = choose|i: int|
                0 <= i < rendered.len() && !keep.contains(i as usize) && (
                    #[trigger] rendered[i]).converted is Some && rendered[i].converted->0.img
                        == MaybeTransferred::Transferred(id);
            if i < last {
                assert(rest[i] == rendered[i]);
                assert(before.contains(id));
            }
        }
    }
}

/// A page whose image is taken away has at most one that the terminal is to
/// forget: the one that it was sent.
pub proof fn law_sent_image(info: RenderedPageInfo, id: ImageId)
    ensures
        sent_image(info).len() <= 1,
        sent_image(info).contains(id) <==> info.converted is Some && info.converted->0.img
            == MaybeTransferred::Transferred(id),
        emptied(info).converted is None,
        emptied(info).num_results == info.num_results,
{
    if let Some(ConvertedPage { img: MaybeTransferred::Transferred(sent), .. }) = info.converted {
        assert(sent_image(info) == seq![sent]);
        assert(sent_image(info)[0] == sent);
    }
}

/// When memory runs short, images are taken away and nothing else is changed.
/// The terminal is told to forget exactly those that it was sent.
pub proof fn law_short_memory_takes_images_only(s: AppView)
    requires
        s.rendered.len() <= usize::MAX,
    ensures
        ({
            let t = s.pruned();
            &&& t == (AppView { rendered: t.rendered, deletes: t.deletes, ..s })
            &&& t.rendered.len() == s.rendered.len()
            &&& forall|i: int|
                0 <= i < s.rendered.len() ==> (#[trigger] t.rendered[i]).num_results
                    == s.rendered[i].num_results && (t.rendered[i].converted is None
                    || t.rendered[i].converted == s.rendered[i].converted)
            &&& s.deletes.is_prefix_of(t.deletes)
            &&& forall|id: ImageId|
                #![trigger t.deletes.skip(s.deletes.len() as int).contains(id)]
                t.deletes.skip(s.deletes.len() as int).contains(id) <==> exists|i: int|
                    0 <= i < s.rendered.len() && t.rendered[i].converted is None && (
                    #[trigger] s.rendered[i]).converted is Some && s.rendered[i].converted->0.img
                        == MaybeTransferred::Transferred(id)
        }),
{
    let keep = resident(cached_sizes(s.rendered), s.page).pages;
    let t = s.pruned();
    law_images_taken_away(s, keep);
    assert forall|id: ImageId|
        #![trigger t.deletes.skip(s.deletes.len() as int).contains(id)]
        t.deletes.skip(s.deletes.len() as int).contains(id) <==> exists|i: int|
            0 <= i < s.rendered.len() && t.rendered[i].converted is None && (
            #[trigger] s.rendered[i]).converted is Some && s.rendered[i].converted->0.img
                == MaybeTransferred::Transferred(id) by {
        if exists|i: int|
            0 <= i < s.rendered.len() && t.rendered[i].converted is None && (
            #[trigger] s.rendered[i]).converted is Some && s.rendered[i].converted->0.img
                == MaybeTransferred::Transferred(id) {
            let i = choose|i: int|
                0 <= i < s.rendered.len() && t.rendered[i].converted is None && (
                #[trigger] s.rendered[i]).converted is Some && s.rendered[i].converted->0.img
                    == MaybeTransferred::Transferred(id);
            assert(!keep.contains(i as usize));
        }
        if exists|i: int|
            0 <= i < s.rendered.len() && !keep.contains(i as usize) && (
            #[trigger] s.rendered[i]).converted is Some && s.rendered[i].converted->0.img
                == MaybeTransferred::Transferred(id) {
            let i = choose|i: int|
                0 <= i < s.rendered.len() && !keep.contains(i as usize) && (
                #[trigger] s.rendered[i]).converted is Some && s.rendered[i].converted->0.img
                    == MaybeTransferred::Transferred(id);
            assert(t.rendered[i].converted is None);
        }
    }
}

/// The image of a page is given up only because images of pages nearer to the
/// shown one stay that leave no room for it.
pub proof fn law_image_given_up_for_nearer(s: AppView, k: usize)
    requires
        s.rendered.len() <= usize::MAX,
        k < s.rendered.len(),
        s.rendered[k as int].converted is Some,
        s.pruned().rendered[k as int].converted is None,
    ensures
        exists|near: Set<usize>|
            {
                &&& #[trigger] near.subset_of(cached_sizes(s.pruned().rendered).dom())
                &&& total(cached_sizes(s.rendered), near) + cached_sizes(s.rendered)[k]
                    > MAX_RESIDENT_BYTES
                &&& forall|j: usize| #[trigger]
                    near.contains(j) ==> abs(j - s.page) < abs(k - s.page) || (abs(j - s.page)
                        == abs(k - s.page) && j < k)
            },
{
    let sizes = cached_sizes(s.rendered);
    let keep = resident(sizes, s.page).pages;
    assert(sizes.contains_key(k));
    assert(!keep.contains(k));
    law_nearer_images_leave_no_room(sizes, s.page, k);
    law_images_fit_budget(s);
    let near = choose|near: Set<usize>|
        {
            &&& #[trigger] near.subset_of(keep)
            &&& total(sizes, near) + sizes[k] > MAX_RESIDENT_BYTES
            &&& forall|j: usize| #[trigger]
                near.contains(j) ==> abs(j - s.page) < abs(k - s.page) || (abs(j - s.page) == abs(
                    k - s.page,
                ) && j < k)
        };
    assert(near.subset_of(cached_sizes(s.pruned().rendered).dom()));
}

/// The images at hand take three bytes for each of their pixels.
pub proof fn law_cached_sizes(rendered: Seq<RenderedPageInfo>, k: usize)
    ensures
        cached_sizes(rendered).contains_key(k) <==> k < rendered.len() && rendered[k as int].converted
            is Some,
        cached_sizes(rendered).contains_key(k) ==> cached_sizes(rendered)[k]
            == rendered[k as int].converted->0.pixel_w * rendered[k as int].converted->0.pixel_h * 3,
{
    if cached_sizes(rendered).contains_key(k) {
        let c = rendered[k as int].converted->0;
        assert(0 <= c.pixel_w * c.pixel_h) by (nonlinear_arith)
            requires
                0 <= c.pixel_w,
                0 <= c.pixel_h,
        ;
    }
}

/// As long as all images fit in memory, none is given up.
pub proof fn law_fitting_images_stay(s: AppView)
    requires
        s.rendered.len() <= usize::MAX,
        total(cached_sizes(s.rendered), cached_sizes(s.rendered).dom()) <= MAX_RESIDENT_BYTES,
    ensures
        s.pruned().rendered == s.rendered,
        s.pruned().deletes == s.deletes,
{
    let sizes = cached_sizes(s.rendered);
    law_nothing_is_given_up_in_vain(sizes, s.page);
    let keep = resident(sizes, s.page).pages;
    let t = s.pruned();
    assert forall|i: int| 0 <= i < s.rendered.len() implies t.rendered[i] == s.rendered[i] by {
        if s.rendered[i].converted is Some {
            assert(sizes.contains_key(i as usize));
        }
    }
    assert(t.rendered =~= s.rendered);
    law_images_taken_away(s, keep);
    let new = t.deletes.skip(s.deletes.len() as int);
    if new.len() > 0 {
        assert(new.contains(new[0]));
        let i = choose|i: int|
            0 <= i < s.rendered.len() && !keep.contains(i as usize) && (
                    #[trigger] s.rendered[i]).converted is Some && s.rendered[i].converted->0.img
                        == MaybeTransferred::Transferred(new[0]);
        assert(sizes.contains_key(i as usize));
        assert(false);
    }
    assert(t.deletes =~= s.deletes);
}

/// The status bar shows the page, counted from one, and the number of pages,
/// then a mark in zoom mode, and then what there is to say.
pub proof fn law_status_text(msg: StatusMsg, page: usize, n_pages: usize, zoom_mode: bool)
    ensures
        ({
            let text = msg.text_spec(page, n_pages, zoom_mode);
            let place = decimal((page + 1) as nat) + " / "@ + decimal(max(n_pages as int, 1) as nat)
                + "  "@;
            let mark = if zoom_mode {
                "[ZOOM] "@
            } else {
                Seq::empty()
            };
            &&& place.is_prefix_of(text)
            &&& msg matches StatusMsg::Info(s) ==> text.skip(place.len() as int) == mark + s@
            &&& msg matches StatusMsg::Error(s) ==> text.skip(place.len() as int) == mark
                + "ERROR: "@ + s@
            &&& msg is Hint ==> text.skip(place.len() as int) == mark
                + "? help  q quit  ←/→ page  ↑/↓ scroll  i invert  r rotate  z zoom"@
        }),
{
    let text = msg.text_spec(page, n_pages, zoom_mode);
    let place = decimal((page + 1) as nat) + " / "@ + decimal(max(n_pages as int, 1) as nat) + "  "@;
    let mark = if zoom_mode {
        "[ZOOM] "@
    } else {
        Seq::empty()
    };
    reveal_strlit("");
    assert(text =~= place + (mark + msg.detail()));
    assert(text.take(place.len() as int) =~= place);
    assert(text.skip(place.len() as int) =~= mark + msg.detail());
    if let StatusMsg::Error(s) = msg {
        assert(mark + msg.detail() =~= mark + "ERROR: "@ + s@);
    }
}

/// Nothing of the viewer is left out of what is said of it.
pub proof fn law_all_of_the_viewer(app: App)
    ensures
        app@.page == app.page && app@.n_pages == app.n_pages && app@.msg == app.msg,
        app@.rendered == app.rendered@ && app@.needs_redraw == app.needs_redraw,
        app@.scroll_offset == app.scroll_offset && app@.pan_x == app.pan_x,
        app@.zoom_mode == app.zoom_mode && app@.zoom_level == app.zoom_level,
        app@.toc == app.toc@ && app@.metadata == app.metadata@,
        app@.input_mode == app.input_mode && app@.search_term == app.search_term,
        app@.pending_search_jump_from == app.pending_search_jump_from,
        app@.auto_crop == app.auto_crop && app@.tinted == app.tinted,
        app@.inverted == app.inverted && app@.rotation == app.rotation,
        app@.document_kind == app.document_kind && app@.epub_font_size == app.epub_font_size,
        app@.deletes == app.pending_image_deletes@,
{
}

} // verus!
