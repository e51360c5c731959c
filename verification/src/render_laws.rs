//! What the messages to the render thread and its rounds bring about.

use crate::interleave::{law_walk_goes_outward, law_walk_visits_each_once, outward};
use crate::real32::{epub_em, Real32};
use crate::render_loop::{
    batch_end, lemma_first_unsearched, lemma_notified_wf, next_work, num_found, EpubFigures,
    Layout, Phase, RenderEvent, RenderLoop, RenderState,
};
use crate::renderer::{
    HighlightPlan, PrevRender, RenderNotif, RotateDirection, SearchQuad, MUPDF_BLACK, MUPDF_WHITE,
    TINT_BLACK, TINT_WHITE,
};
use crate::seqs::lemma_filter_contains;
use vstd::math::{abs, max, min};
use vstd::prelude::*;

verus! {

/// The work of a round goes through the queue, then through the walk, without
/// leaving a page out: the next page is the first that has not both been
/// rendered and been searched, and what comes after it stays.
pub proof fn law_next_work_is_first(
    queue: Seq<usize>,
    walk: Seq<usize>,
    rendered: Seq<PrevRender>,
)
    ensures
        ({
            let (later_queue, later_walk, page) = next_work(queue, walk, rendered);
            &&& later_queue + later_walk == (queue + walk).skip(
                queue.len() + walk.len() - later_queue.len() - later_walk.len(),
            )
            &&& later_walk.len() <= walk.len()
            &&& page is None ==> later_queue.len() == 0 && later_walk.len() == 0 && forall|i: int|
                0 <= i < queue.len() + walk.len() ==> {
                    let p = rendered[(#[trigger] (queue + walk)[i]) as int];
                    p.successful && p.num_search_found is Some
                }
            &&& page matches Some(page) ==> {
                let at = queue.len() + walk.len() - later_queue.len() - later_walk.len() - 1;
                &&& 0 <= at < queue.len() + walk.len()
                &&& (queue + walk)[at] == page
                &&& !(rendered[page as int].successful
                    && rendered[page as int].num_search_found is Some)
                &&& forall|i: int|
                    0 <= i < at ==> {
                        let p = rendered[(#[trigger] (queue + walk)[i]) as int];
                        p.successful && p.num_search_found is Some
                    }
            }
        }),
    decreases queue.len() + walk.len(),
{
    let all = queue + walk;
    let (later_queue, later_walk, page) = next_work(queue, walk, rendered);
    if all.len() > 0 {
        let first = all[0];
        let p = rendered[first as int];
        if p.successful && p.num_search_found is Some {
            let (q, w) = if queue.len() > 0 {
                (queue.skip(1), walk)
            } else {
                (queue, walk.skip(1))
            };
            law_next_work_is_first(q, w, rendered);
            assert(q + w =~= all.skip(1));
            let done = all.len() - later_queue.len() - later_walk.len();
            assert(all.skip(1).skip(done - 1) =~= all.skip(done));
            let at = if page is Some {
                done - 1
            } else {
                all.len() as int
            };
            assert forall|i: int| 0 <= i < at implies {
                let p = rendered[(#[trigger] all[i]) as int];
                p.successful && p.num_search_found is Some
            } by {
                if i > 0 {
                    assert(all[i] == (q + w)[i - 1]);
                }
            }
            if page is Some {
                assert(all[at] == (q + w)[at - 1]);
            }
        } else {
            assert(later_queue + later_walk =~= all.skip(1));
        }
    } else {
        assert(later_queue + later_walk =~= all.skip(0));
    }
}

/// The pages of a round after the queued ones are those around the shown page,
/// twelve before it and from there on twenty-four in all, as far as there are
/// pages; none comes twice, and none before a nearer one. While pages are still
/// to be searched, the round stops after twenty of them.
pub proof fn law_round_walks_the_window(s: RenderState)
    requires
        s.pages_wf(),
    ensures
        ({
            let walk = s.round_walk();
            let shown = min(s.start_point as int, s.n_pages - 1);
            let start = max(0, shown - 12);
            let end = min(start + 24, s.n_pages as int);
            let searching = s.term is Some && exists|i: int|
                0 <= i < s.n_pages && (#[trigger] s.rendered[i]).num_search_found is None;
            &&& walk.len() == if searching {
                min(end - start, 20)
            } else {
                end - start
            }
            &&& walk[0] == shown
            &&& walk.no_duplicates()
            &&& forall|i: int| 0 <= i < walk.len() ==> start <= (#[trigger] walk[i]) < end
            &&& forall|i: int, j: int|
                0 <= i < j < walk.len() ==> abs((#[trigger] walk[i]) - shown) <= abs(
                    (#[trigger] walk[j]) - shown,
                )
            &&& forall|i: int, q: usize|
                0 <= i < walk.len() && start <= q < end && !(#[trigger] walk.contains(q)) ==> abs(
                    (#[trigger] walk[i]) - shown,
                ) <= abs(q - shown)
        }),
{
    let walk = s.round_walk();
    let shown = s.current();
    let start = max(0, shown - 12) as usize;
    let end = min(start + 24, s.n_pages as int) as usize;
    let window = outward(shown, start, end);
    law_walk_visits_each_once(shown, start, end);
    law_walk_goes_outward(shown, start, end);
    assert(walk =~= window.take(walk.len() as int));
    assert forall|i: int| 0 <= i < walk.len() implies start <= (#[trigger] walk[i]) < end by {
        assert(walk[i] == window[i]);
        assert(window.contains(window[i]));
    }
    assert forall|i: int, j: int| 0 <= i < j < walk.len() implies abs((#[trigger] walk[i]) - shown)
        <= abs((#[trigger] walk[j]) - shown) by {
        assert(walk[i] == window[i] && walk[j] == window[j]);
    }
    assert forall|i: int, q: usize|
        0 <= i < walk.len() && start <= q < end && !(#[trigger] walk.contains(q)) implies abs(
        (#[trigger] walk[i]) - shown,
    ) <= abs(q - shown) by {
        assert(window.contains(q));
        let m = choose|m: int| 0 <= m < window.len() && window[m] == q;
        if m < walk.len() {
            assert(walk[m] == q);
        }
        assert(walk[i] == window[i]);
    }
}

/// If no page counts as rendered, a round begins with the first queued page, or
/// else with the shown one.
proof fn lemma_fresh_round(t: RenderState)
    requires
        t.pages_wf(),
        forall|i: int| 0 <= i < t.n_pages ==> !(#[trigger] t.rendered[i]).successful,
    ensures
        t.round_started().phase == Phase::RenderPage(
            if t.queue.len() > 0 {
                t.queue[0]
            } else {
                min(t.start_point as int, t.n_pages - 1) as usize
            },
        ),
{
    law_round_walks_the_window(t);
}

/// When the pages are to be shown in another area, none counts as rendered any
/// more: the next round begins with the first queued page, or else the shown
/// one. A reflowable document is opened again instead, if the new area asks for
/// another layout. What is searched for and how pages look stays.
pub proof fn law_new_area_renders_all(
    s: RenderState,
    width_px: Real32,
    height_px: Real32,
    figures: EpubFigures,
)
    requires
        s.wf(),
        s.in_rounds(),
    ensures
        ({
            let t = s.notified(RenderNotif::Area { width_px, height_px }, figures);
            &&& t.area == Some((width_px, height_px))
            &&& t.phase is OpenDocument || t.phase is StartRound
            &&& t.phase is OpenDocument ==> s.kind is Reflowable
            &&& s.kind is Reflowable && s.layout is None ==> t.phase is OpenDocument
            &&& s.kind is Reflowable && s.layout is Some && s.em is Some ==> (t.phase is StartRound
                <==> s.layout->0.width.equals(figures.layout_w) && s.layout->0.height.equals(
                figures.layout_h,
            ) && s.layout->0.em.equals(s.em->0))
            &&& s.kind is Reflowable && s.layout is Some && s.em is None && 0x4110_0000
                <= figures.default_em.bits <= 0x4140_0000 ==> (t.phase is StartRound
                <==> s.layout->0.width.equals(figures.layout_w) && s.layout->0.height.equals(
                figures.layout_h,
            ) && s.layout->0.em.equals(figures.default_em))
            &&& t.phase is StartRound ==> {
                &&& forall|i: int|
                    0 <= i < s.n_pages ==> !(#[trigger] t.rendered[i]).successful
                        && t.rendered[i].num_search_found is None && t.rendered[i].search_quads
                        is None
                &&& t.round_started().phase == Phase::RenderPage(
                    if s.queue.len() > 0 {
                        s.queue[0]
                    } else {
                        min(s.start_point as int, s.n_pages - 1) as usize
                    },
                )
            }
            &&& t.n_pages == s.n_pages && t.start_point == s.start_point && t.queue == s.queue
            &&& t.term == s.term && t.em == s.em && t.invert == s.invert && t.tinted == s.tinted
                && t.rotate == s.rotate
            &&& t == (RenderState {
                area: t.area,
                rendered: t.rendered,
                phase: t.phase,
                ..s
            })
        }),
{
    let notif = RenderNotif::Area { width_px, height_px };
    let t = s.notified(notif, figures);
    lemma_notified_wf(s, notif, figures);
    if t.phase is StartRound {
        lemma_fresh_round(t);
    }
}

/// When the look of pages changes, or they are to be refreshed, none counts as
/// rendered any more, but what is known of their search results stays. A
/// message changes what it is about, and nothing else.
pub proof fn law_new_look_renders_all(s: RenderState, notif: RenderNotif, figures: EpubFigures)
    requires
        s.wf(),
        s.in_rounds(),
        notif is Refresh || notif is Invert || notif is Tint || notif is Rotate,
    ensures
        ({
            let t = s.notified(notif, figures);
            &&& t.phase is StartRound
            &&& t.rendered.len() == s.rendered.len()
            &&& forall|i: int|
                0 <= i < s.n_pages ==> !(#[trigger] t.rendered[i]).successful
                    && t.rendered[i].num_search_found == s.rendered[i].num_search_found
                    && t.rendered[i].search_quads == s.rendered[i].search_quads
            &&& t.round_started().phase == Phase::RenderPage(
                if s.queue.len() > 0 {
                    s.queue[0]
                } else {
                    min(s.start_point as int, s.n_pages - 1) as usize
                },
            )
            &&& t.invert == (s.invert != notif is Invert)
            &&& t.tinted == (s.tinted != notif is Tint)
            &&& t.rotate == if notif is Rotate {
                match s.rotate {
                    RotateDirection::Deg0 => RotateDirection::Deg90,
                    RotateDirection::Deg90 => RotateDirection::Deg180,
                    RotateDirection::Deg180 => RotateDirection::Deg270,
                    RotateDirection::Deg270 => RotateDirection::Deg0,
                }
            } else {
                s.rotate
            }
            &&& t.n_pages == s.n_pages && t.start_point == s.start_point && t.queue == s.queue
            &&& t.term == s.term && t.em == s.em && t.area == s.area && t.layout == s.layout
            &&& t == (RenderState {
                invert: t.invert,
                tinted: t.tinted,
                rotate: t.rotate,
                rendered: t.rendered,
                phase: t.phase,
                ..s
            })
        }),
{
    let t = s.notified(notif, figures);
    lemma_notified_wf(s, notif, figures);
    lemma_fresh_round(t);
}

/// A reflowable document that is to have another font size than the one it is
/// laid out with is opened again, with that size. Sizes are numbers from 9 to
/// 12; in that range a step of one adds 2^20 to the bits.
pub proof fn law_new_font_size_opens_again(
    s: RenderState,
    em: Real32,
    laid_out: Real32,
    delta: i8,
    figures: EpubFigures,
)
    requires
        s.kind is Reflowable,
        s.em == Some(laid_out),
        s.layout is Some,
        s.layout->0.em == laid_out,
        0x4110_0000 <= laid_out.bits <= 0x4140_0000,
    ensures
        0x4110_0000 <= em.bits <= 0x4140_0000 && em.bits != laid_out.bits ==> {
            let t = s.notified(RenderNotif::SetFontSize(em), figures);
            t.phase is OpenDocument && t.em == Some(em)
        },
        delta != 0 && 0x4110_0000 <= laid_out.bits + delta * 0x10_0000 <= 0x4140_0000 ==> {
            let t = s.notified(RenderNotif::AdjustFontSize(delta), figures);
            &&& t.phase is OpenDocument
            &&& t.em is Some
            &&& t.em->0.bits == laid_out.bits + delta * 0x10_0000
        },
        s.notified(RenderNotif::SetFontSize(laid_out), figures).phase is StartRound,
        s.notified(RenderNotif::SetFontSize(laid_out), figures).em == s.em,
{
}

/// When a text is searched for, no page counts as searched any more, and pages
/// that are rendered stay so. When the search ends, nothing that was found is
/// left, and exactly the pages that showed something are to be rendered again.
pub proof fn law_search_message(s: RenderState, term: String, figures: EpubFigures)
    ensures
        ({
            let t = s.notified(RenderNotif::Search(term), figures);
            &&& t.phase is StartRound
            &&& t.n_pages == s.n_pages && t.start_point == s.start_point && t.queue == s.queue
            &&& t.rendered.len() == s.rendered.len()
            &&& term@.len() > 0 ==> {
                &&& t.term == Some(term@)
                &&& forall|i: int|
                    0 <= i < s.rendered.len() ==> (#[trigger] t.rendered[i]).num_search_found is None
                        && t.rendered[i].search_quads is None && t.rendered[i].successful
                        == s.rendered[i].successful
            }
            &&& term@.len() == 0 ==> {
                &&& t.term is None
                &&& forall|i: int|
                    0 <= i < s.rendered.len() ==> {
                        let before = s.rendered[i];
                        let after = #[trigger] t.rendered[i];
                        let shown = before.num_search_found is Some && before.num_search_found->0
                            > 0;
                        &&& after.search_quads is None
                        &&& after.successful == (before.successful && !shown)
                        &&& after.num_search_found is Some ==> after.num_search_found == Some(0usize)
                        &&& after.num_search_found is None <==> before.num_search_found is None
                    }
            }
            &&& t == (RenderState {
                rendered: t.rendered,
                term: t.term,
                phase: t.phase,
                ..s
            })
        }),
{
}

/// A jump shows another page and has it rendered again; of the queued pages,
/// those stay that lie in the window around it.
pub proof fn law_jump_moves_the_window(s: RenderState, page: usize, figures: EpubFigures)
    ensures
        ({
            let t = s.notified(RenderNotif::JumpToPage(page), figures);
            let start = max(0, page - 12);
            &&& t.phase is StartRound
            &&& t.start_point == page
            &&& t.n_pages == s.n_pages && t.term == s.term
            &&& t.rendered.len() == s.rendered.len()
            &&& page < s.rendered.len() ==> !t.rendered[page as int].successful
            &&& forall|i: int|
                0 <= i < s.rendered.len() && i != page ==> #[trigger] t.rendered[i] == s.rendered[i]
            &&& forall|q: usize|
                #![trigger t.queue.contains(q)]
                t.queue.contains(q) <==> s.queue.contains(q) && start <= q < start + 24 && q
                    < s.n_pages
            &&& t == (RenderState {
                start_point: t.start_point,
                queue: t.queue,
                rendered: t.rendered,
                phase: t.phase,
                ..s
            })
        }),
{
    let t = s.notified(RenderNotif::JumpToPage(page), figures);
    let start = max(0, page - 12);
    assert forall|q: usize|
        #![trigger t.queue.contains(q)]
        t.queue.contains(q) <==> s.queue.contains(q) && start <= q < start + 24 && q
            < s.n_pages by {
        lemma_filter_contains(
            s.queue,
            |q: usize|
                crate::arith::window_start(page, crate::renderer::RENDER_WINDOW) <= q
                    < crate::arith::window_end(page, s.n_pages, crate::renderer::RENDER_WINDOW),
            q,
        );
    }
}

/// A page whose image has been dropped is queued behind those that are, once,
/// and is to be rendered again; a page that does not exist changes nothing.
pub proof fn law_dropped_page_is_queued(s: RenderState, page: usize, figures: EpubFigures)
    ensures
        ({
            let t = s.notified(RenderNotif::PageNeedsReRender(page), figures);
            &&& t.phase is StartRound
            &&& t.start_point == s.start_point && t.n_pages == s.n_pages && t.term == s.term
            &&& t.rendered.len() == s.rendered.len()
            &&& s.queue.is_prefix_of(t.queue)
            &&& page >= s.rendered.len() ==> t.queue == s.queue && t.rendered == s.rendered
            &&& page < s.rendered.len() ==> {
                &&& !t.rendered[page as int].successful
                &&& t.queue.contains(page)
                &&& t.queue.len() <= s.queue.len() + 1
                &&& s.queue.contains(page) ==> t.queue == s.queue
            }
            &&& forall|i: int|
                0 <= i < s.rendered.len() && i != page ==> #[trigger] t.rendered[i] == s.rendered[i]
            &&& t == (RenderState {
                queue: t.queue,
                rendered: t.rendered,
                phase: t.phase,
                ..s
            })
        }),
{
    let t = s.notified(RenderNotif::PageNeedsReRender(page), figures);
    assert(s.queue.is_prefix_of(t.queue));
    if page < s.rendered.len() && !s.queue.contains(page) {
        assert(t.queue[s.queue.len() as int] == page);
    }
}

/// A page that has been rendered needs no more work and is known to have as
/// many results as it was drawn with; all other pages are as they were.
pub proof fn law_rendered_page_is_done(s: RenderState, num_results: usize)
    requires
        s.phase is RenderPage,
        s.phase->RenderPage_0 < s.rendered.len(),
    ensures
        ({
            let page = s.phase->RenderPage_0 as int;
            let t = s.page_shown(num_results);
            &&& t.phase is PollRendering
            &&& t.rendered.len() == s.rendered.len()
            &&& t.rendered[page].successful
            &&& t.rendered[page].num_search_found == Some(num_results)
            &&& t.rendered[page].search_quads == s.rendered[page].search_quads
            &&& forall|i: int|
                0 <= i < s.rendered.len() && i != page ==> #[trigger] t.rendered[i] == s.rendered[i]
            &&& t.queue == s.queue && t.walk == s.walk && t.start_point == s.start_point && t.term
                == s.term
            &&& t == (RenderState {
                rendered: t.rendered,
                phase: t.phase,
                ..s
            })
        }),
{
}

/// A page that has been searched is known to have as many results as were
/// found, keeps them, and is to be rendered again exactly if there are some;
/// all other pages are as they were.
pub proof fn law_searched_page_keeps_results(s: RenderState, quads: Option<Vec<SearchQuad>>)
    requires
        s.phase is SearchPage,
        s.phase->SearchPage_page < s.rendered.len(),
    ensures
        ({
            let page = s.phase->SearchPage_page as int;
            let found = if quads is Some {
                quads->0.len() as int
            } else {
                0
            };
            let t = s.page_scanned(quads);
            &&& t.rendered.len() == s.rendered.len()
            &&& t.rendered[page].num_search_found is Some
            &&& t.rendered[page].num_search_found->0 == found
            &&& t.rendered[page].search_quads == quads
            &&& t.rendered[page].successful == (s.rendered[page].successful && found == 0)
            &&& forall|i: int|
                0 <= i < s.rendered.len() && i != page ==> #[trigger] t.rendered[i] == s.rendered[i]
            &&& t.start_point == s.start_point && t.n_pages == s.n_pages && t.term == s.term
            &&& t == (RenderState { rendered: t.rendered, ..s }).batch_at(
                s.phase->SearchPage_from,
                page + 1,
            )
        }),
{
}

/// A batch of a search takes the first page from its start on that has not been
/// searched, among the twenty from there. It is over only when all of them have
/// been searched, and then the search goes on right behind them, or with the
/// first page, or is at its end.
pub proof fn law_batch_leaves_no_page_out(s: RenderState, from: usize, page: int)
    requires
        s.pages_wf(),
        from <= s.n_pages,
        from <= page,
        forall|i: int| from <= i < page ==> (#[trigger] s.rendered[i]).num_search_found is Some,
    ensures
        ({
            let t = s.batch_at(from, page);
            let end = min(from + 20, s.n_pages as int);
            let all_searched = forall|i: int|
                from <= i < end ==> (#[trigger] s.rendered[i]).num_search_found is Some;
            &&& t.rendered == s.rendered && t.queue == s.queue && t.term == s.term
            &&& t.phase is SearchPage <==> !all_searched
            &&& t.phase matches Phase::SearchPage { page, from: batch } ==> {
                &&& batch == from
                &&& from <= page < end
                &&& s.rendered[page as int].num_search_found is None
                &&& forall|i: int|
                    from <= i < page ==> (#[trigger] s.rendered[i]).num_search_found is Some
            }
            &&& all_searched ==> {
                let at_end = from < s.start_point <= from + 20 || (s.start_point == 0 && s.n_pages
                    < from + 20);
                &&& t.phase is PollSearching <==> !at_end
                &&& t.phase matches Phase::PollSearching { from: next } ==> next == if s.n_pages
                    < from + 20 {
                    0
                } else {
                    from + 20
                }
                &&& at_end ==> t == s.round_done()
            }
        }),
{
    let end = batch_end(from as int, s.n_pages);
    lemma_first_unsearched(s, page, end);
}

/// When there is no more work in a round, the thread waits exactly if no page is
/// queued, every page of the window is rendered, and none is still to be
/// searched for a text.
pub proof fn law_waits_only_without_work(s: RenderState)
    requires
        s.pages_wf(),
    ensures
        ({
            let shown = min(s.start_point as int, s.n_pages - 1);
            let start = max(0, shown - 12);
            let end = min(start + 24, s.n_pages as int);
            let rests = s.queue.len() == 0 && (forall|i: int|
                start <= i < end ==> (#[trigger] s.rendered[i]).successful) && (s.term is Some
                ==> forall|i: int|
                0 <= i < s.n_pages ==> (#[trigger] s.rendered[i]).num_search_found is Some);
            &&& s.round_done().phase is AwaitNotif <==> rests
            &&& s.round_done().phase is StartRound <==> !rests
            &&& s.round_done().rendered == s.rendered && s.round_done().queue == s.queue
        }),
{
}

/// When the channel is closed, a thread at work ends; one that waits after a
/// failure tries once more. Without a message, nothing is forgotten.
pub proof fn law_closed_channel(s: RenderState, figures: EpubFigures)
    ensures
        ({
            let t = s.received(RenderEvent::Closed, figures);
            &&& s.phase is AwaitArea || s.phase is PollRendering || s.phase is PollSearching
                || s.phase is AwaitNotif ==> t == (RenderState { phase: Phase::Stop, ..s })
            &&& s.phase is AwaitRefresh || s.phase is AwaitRetry ==> t == (RenderState {
                phase: Phase::OpenDocument,
                ..s
            })
        }),
        s.phase is AwaitArea || s.phase is AwaitRefresh || s.phase is AwaitRetry || s.phase
            is AwaitNotif ==> s.received(RenderEvent::Nothing, figures) == s,
        s.received(RenderEvent::Nothing, figures).rendered == s.rendered,
        s.received(RenderEvent::Nothing, figures).term == s.term,
        s.received(RenderEvent::Nothing, figures).start_point == s.start_point,
{
}

/// Before the document is open, an area is what is waited for: it is kept, and
/// the document is opened. After a failure to open, it is kept for the next
/// try, which a refresh starts; after a failure to lay out, it starts one.
pub proof fn law_area_before_pages(
    s: RenderState,
    width_px: Real32,
    height_px: Real32,
    figures: EpubFigures,
)
    requires
        s.phase is AwaitArea || s.phase is AwaitRefresh || s.phase is AwaitRetry,
    ensures
        ({
            let t = s.received(
                RenderEvent::Notif(RenderNotif::Area { width_px, height_px }),
                figures,
            );
            &&& t.area == Some((width_px, height_px))
            &&& t.phase == if s.phase is AwaitRefresh {
                Phase::AwaitRefresh
            } else {
                Phase::OpenDocument
            }
            &&& t == (RenderState {
                area: t.area,
                phase: t.phase,
                ..s
            })
        }),
        !(s.phase is AwaitArea) ==> s.received(
            RenderEvent::Notif(RenderNotif::Refresh),
            figures,
        ).phase is OpenDocument,
        s.received(RenderEvent::Notif(RenderNotif::Refresh), figures).area == s.area,
{
}

/// A font size that is asked for before the document is open is kept, within
/// the bounds of 9 and 12; a step is taken from the size that is known.
pub proof fn law_font_size_before_pages(
    s: RenderState,
    em: Real32,
    delta: i8,
    figures: EpubFigures,
)
    requires
        s.phase is AwaitArea,
    ensures
        ({
            let t = s.received(RenderEvent::Notif(RenderNotif::SetFontSize(em)), figures);
            &&& t.phase is AwaitArea
            &&& t.em is Some
            &&& 0x4110_0000 <= em.bits <= 0x4140_0000 ==> t.em->0 == em
            &&& em.bits < 0x4110_0000 ==> t.em->0.bits == 0x4110_0000
            &&& 0x4140_0000 < em.bits <= 0x7f80_0000 ==> t.em->0.bits == 0x4140_0000
            &&& 0x8000_0000 <= em.bits <= 0xff80_0000 ==> t.em->0.bits == 0x4110_0000
            &&& t == (RenderState {
                em: t.em,
                ..s
            })
        }),
        ({
            let t = s.received(RenderEvent::Notif(RenderNotif::AdjustFontSize(delta)), figures);
            &&& t.phase is AwaitArea
            &&& t.em is Some <==> s.em is Some
            &&& s.em is Some && 0x4110_0000 <= s.em->0.bits <= 0x4140_0000 ==> t.em->0.bits == min(
                0x4140_0000,
                max(0x4110_0000, s.em->0.bits + delta * 0x10_0000),
            )
            &&& t == (RenderState {
                em: t.em,
                ..s
            })
        }),
{
}

/// A document that has been opened shows the page that was shown before, or
/// its last one; none of its pages counts as rendered or searched, and of the
/// queued pages those stay that exist. The first round renders accordingly.
pub proof fn law_opened_document_starts_afresh(s: RenderState, n_pages: usize)
    requires
        0 < n_pages <= i32::MAX,
    ensures
        ({
            let t = s.opened_with(n_pages);
            &&& t.phase is StartRound
            &&& t.ready
            &&& t.n_pages == n_pages
            &&& t.start_point == min(s.start_point as int, n_pages - 1)
            &&& t.rendered.len() == n_pages
            &&& forall|i: int|
                0 <= i < n_pages ==> !(#[trigger] t.rendered[i]).successful
                    && t.rendered[i].num_search_found is None && t.rendered[i].search_quads is None
            &&& forall|q: usize|
                #![trigger t.queue.contains(q)]
                t.queue.contains(q) <==> s.queue.contains(q) && q < n_pages
            &&& t.queue.len() == 0 ==> t.round_started().phase == Phase::RenderPage(t.start_point)
            &&& t.area == s.area && t.term == s.term && t.em == s.em && t.invert == s.invert
                && t.tinted == s.tinted && t.rotate == s.rotate && t.kind == s.kind
            &&& t == (RenderState {
                ready: t.ready,
                n_pages: t.n_pages,
                start_point: t.start_point,
                rendered: t.rendered,
                queue: t.queue,
                walk: t.walk,
                phase: t.phase,
                ..s
            })
        }),
{
    let t = s.opened_with(n_pages);
    assert forall|q: usize|
        #![trigger t.queue.contains(q)]
        t.queue.contains(q) <==> s.queue.contains(q) && q < n_pages by {
        lemma_filter_contains(s.queue, |q: usize| q < n_pages, q);
    }
    if t.queue.len() == 0 {
        lemma_fresh_round(t);
    }
}

/// A page is drawn as the thread has it: turned as all pages are; with the tint
/// in place of black and white, if it is on; with the two changing places, if
/// pages are inverted. Its results are highlighted as they were found; if there
/// are none, the page is not searched again.
pub proof fn law_page_is_drawn_as_told(s: RenderState, black: i32, white: i32)
    requires
        s.phase is RenderPage,
    ensures
        ({
            let plan = s.plan(black, white);
            let p = s.rendered[s.phase->RenderPage_0 as int];
            let dark = if s.tinted {
                TINT_BLACK
            } else {
                black
            };
            let light = if s.tinted {
                TINT_WHITE
            } else {
                white
            };
            &&& plan.rotate == s.rotate
            &&& s.invert ==> plan.tint == Some((light, dark))
            &&& !s.invert && plan.tint is Some ==> plan.tint == Some((dark, light))
            &&& plan.tint is None <==> !s.invert && dark == MUPDF_BLACK && light == MUPDF_WHITE
            &&& plan.highlights is Known <==> p.search_quads is Some
            &&& plan.highlights is Nothing <==> p.search_quads is None && p.num_search_found == Some(
                0usize,
            )
            &&& plan.highlights matches HighlightPlan::Search(expected) ==> p.num_search_found is None
                && expected == 0 || p.num_search_found == Some(expected)
        }),
{
}

/// A round goes on with the next page that needs work; when there is none left,
/// with the search from the shown page on, if a text is searched for, or else it
/// is over.
pub proof fn law_round_goes_on(s: RenderState)
    ensures
        ({
            let (queue, walk, page) = next_work(s.queue, s.walk, s.rendered);
            let rest = RenderState { queue, walk, ..s };
            &&& page matches Some(page) ==> s.advanced() == (RenderState {
                phase: Phase::RenderPage(page),
                ..rest
            })
            &&& page is None && s.term is Some ==> s.advanced() == rest.batch_at(
                s.start_point,
                s.start_point as int,
            )
            &&& page is None && s.term is None ==> s.advanced() == rest.round_done()
            &&& s.round_started() == (RenderState { walk: s.round_walk(), ..s }).advanced()
        }),
{
}

/// Between two pages a message is taken in, and without one the work goes on; a
/// request for links does not disturb it. While nothing is left to do, only a
/// message changes anything.
pub proof fn law_message_is_heard(s: RenderState, notif: RenderNotif, figures: EpubFigures)
    requires
        s.phase is PollRendering || s.phase is PollSearching || s.phase is AwaitNotif,
    ensures
        s.listens(),
        !(notif is GetLinks) ==> s.received(RenderEvent::Notif(notif), figures) == s.notified(
            notif,
            figures,
        ),
        notif is GetLinks ==> s.received(RenderEvent::Notif(notif), figures) == s.received(
            RenderEvent::Nothing,
            figures,
        ),
        s.received(RenderEvent::Nothing, figures) == match s.phase {
            Phase::PollRendering => s.advanced(),
            Phase::PollSearching { from } => s.batch_at(from, from as int),
            _ => s,
        },
{
}

/// Only between two pages, or when nothing is left to do, does the thread answer
/// to messages about pages.
pub proof fn law_listens(s: RenderState)
    ensures
        s.listens() <==> s.phase is PollRendering || s.phase is PollSearching || s.phase is AwaitNotif,
{
}

/// A step in the font size starts from the one that goes with the layout, as
/// long as none was asked for; with it the document is opened again, if it is
/// laid out with another one.
pub proof fn law_first_font_size_step(s: RenderState, delta: i8, figures: EpubFigures)
    requires
        s.kind is Reflowable,
        s.em is None,
        0x4110_0000 <= figures.default_em.bits <= 0x4140_0000,
        0x4110_0000 <= figures.default_em.bits + delta * 0x10_0000 <= 0x4140_0000,
    ensures
        ({
            let t = s.notified(RenderNotif::AdjustFontSize(delta), figures);
            &&& t.em is Some
            &&& t.em->0.bits == figures.default_em.bits + delta * 0x10_0000
            &&& t.phase is OpenDocument <==> s.layout is Some && !s.layout->0.em.equals(t.em->0)
            &&& t.phase is OpenDocument || t.phase is StartRound
        }),
{
}

/// Two layouts are the same if their widths, their heights and their font sizes
/// are.
pub proof fn law_same_layout(a: Layout, b: Layout)
    ensures
        a.equals(b) <==> a.width.equals(b.width) && a.height.equals(b.height) && a.em.equals(b.em),
{
}

/// How many results a page has is how many were found; a page that could not be
/// searched has none.
pub proof fn law_results_are_counted(quads: Option<Vec<SearchQuad>>)
    ensures
        num_found(quads) == if quads is Some {
            quads->0.len() as int
        } else {
            0
        },
{
}

/// A font size is taken, held within its bounds, and the document is opened
/// again exactly if that is another size than the last one asked for, and than
/// the one it is laid out with. Nothing else is changed.
pub proof fn law_font_size_message(s: RenderState, em: Real32, figures: EpubFigures)
    requires
        s.kind is Reflowable,
        !em.is_nan(),
    ensures
        ({
            let wanted = epub_em(em);
            let t = s.notified(RenderNotif::SetFontSize(em), figures);
            &&& t.em is Some
            &&& t.em->0.equals(wanted)
            &&& t.phase is OpenDocument <==> (s.em is None || !s.em->0.equals(wanted)) && s.layout
                is Some && !s.layout->0.em.equals(wanted)
            &&& t.phase is OpenDocument || t.phase is StartRound
            &&& t == (RenderState { em: t.em, phase: t.phase, ..s })
        }),
{
}

/// While the thread waits to open or lay out the document, messages about pages
/// change nothing; those that it waits for are taken by other laws.
pub proof fn law_waiting_ignores_the_rest(
    s: RenderState,
    notif: RenderNotif,
    figures: EpubFigures,
)
    requires
        notif is JumpToPage || notif is PageNeedsReRender || notif is Search || notif is Rotate
            || notif is Invert || notif is Tint || notif is GetLinks,
        s.phase is AwaitArea || s.phase is AwaitRefresh || s.phase is AwaitRetry,
    ensures
        s.received(RenderEvent::Notif(notif), figures) == s,
{
}

/// A message that is about nothing here only begins another round.
pub proof fn law_round_begins_again(s: RenderState, page: usize, figures: EpubFigures)
    ensures
        s.restarted() == (RenderState { phase: Phase::StartRound, ..s }),
        s.notified(RenderNotif::GetLinks(page), figures) == (RenderState {
            phase: Phase::StartRound,
            ..s
        }),
{
}

/// Nothing of the thread is left out of what is said of it.
pub proof fn law_all_of_the_thread(it: RenderLoop)
    ensures
        it@.phase == it.phase && it@.ready == it.document_ready && it@.area == it.preserved_area,
        it@.invert == it.invert && it@.tinted == it.tinted && it@.rotate == it.rotate,
        it@.term is Some <==> it.search_term is Some,
        it.search_term is Some ==> it@.term->0 == it.search_term->0@,
        it@.start_point == it.start_point && it@.em == it.reflow_em && it@.layout == it.last_layout,
        it@.queue == it.need_rerender@ && it@.walk == it.walk@,
        it@.kind == it.kind && it@.n_pages == it.n_pages && it@.rendered == it.rendered@,
{
}

/// A search can begin as long as the shown page is not past the end of the
/// document; no other message asks for anything.
pub proof fn law_when_search_can_begin(s: RenderState, notif: RenderNotif)
    ensures
        s.search_can_begin(notif) <==> {
            &&& notif matches RenderNotif::JumpToPage(page) ==> s.term is None || page <= s.n_pages
            &&& notif matches RenderNotif::Search(term) ==> term@.len() == 0 || s.start_point
                <= s.n_pages
        },
{
}

/// The font size in use is the one that was asked for, else the one that goes
/// with the layout, held within its bounds.
pub proof fn law_font_size_in_use(s: RenderState, default_em: Real32)
    ensures
        s.em is Some ==> s.em_or(default_em) == s.em->0,
        s.em is None && 0x4110_0000 <= default_em.bits <= 0x4140_0000 ==> s.em_or(default_em)
            == default_em,
        s.em is None && default_em.bits < 0x4110_0000 ==> s.em_or(default_em).bits == 0x4110_0000,
        s.em is None && 0x4140_0000 < default_em.bits <= 0x7f80_0000 ==> s.em_or(default_em).bits
            == 0x4140_0000,
{
}

} // verus!
