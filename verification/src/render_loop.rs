//! The decisions of the render thread: what it does next, given what came of
//! the last thing it did.

use crate::arith::{window_end, window_start};
use crate::error::RenderError;
use crate::interleave::{
    law_walk_goes_outward, law_walk_visits_each_once, outward, InterleavedAroundWithMax,
};
use crate::real32::{adjust_epub_em, clamp_epub_em, epub_em, is_font_size, stepped_em, Real32};
use crate::renderer::{
    active_window_bounds, any_unsearched, fill_default, highlight_plan, highlights, jump_to_page,
    page_tint, queue_page_rerender, retain_range, should_continue_rendering, some_unsearched, stale,
    tint_spec, window_exists, window_incomplete, DocumentKind,
    HighlightPlan, PrevRender, RenderNotif, RotateDirection, SearchQuad, RENDER_WINDOW,
};
use crate::seqs::{lemma_filter_contains, lemma_filter_no_duplicates};
use std::collections::VecDeque;
use vstd::math::{max, min};
use vstd::prelude::*;

verus! {

/// The number of pages that are searched between two looks at the messages.
pub const SEARCH_AT_TIME: usize = 20;

/// What the thread does next.
#[derive(Debug, Clone, Copy, PartialEq, Eq, Structural)]
pub enum Phase {
    /// Wait for the pixels available for a page.
    AwaitArea,
    /// Open the document.
    OpenDocument,
    /// Wait for a refresh after the document could not be opened.
    AwaitRefresh,
    /// Lay out a reflowable document.
    LayOut,
    /// Wait for a refresh or another area after the layout failed.
    AwaitRetry,
    /// Count the pages.
    CountPages,
    /// Wait a second after the pages could not be counted.
    Pause,
    /// Begin a round over the pages.
    StartRound,
    /// Render a page.
    RenderPage(usize),
    /// Look for a message between two pages.
    PollRendering,
    /// Search a page, one of the batch that starts at `from`.
    SearchPage { page: usize, from: usize },
    /// Look for a message before the batch that starts at `from`.
    PollSearching { from: usize },
    /// Wait for a message: there is nothing left to do.
    AwaitNotif,
    /// End the thread.
    Stop,
}

/// What came out of the message channel.
pub enum RenderEvent {
    Notif(RenderNotif),
    /// No message was waiting.
    Nothing,
    /// No message can come any more.
    Closed,
}

/// A layout of a reflowable document.
#[derive(Debug, Clone, Copy)]
pub struct Layout {
    pub width: Real32,
    pub height: Real32,
    pub em: Real32,
}

impl Layout {
    /// The two layouts are equal, number by number.
    pub open spec fn equals(self, other: Layout) -> bool {
        self.width.equals(other.width) && self.height.equals(other.height) && self.em.equals(
            other.em,
        )
    }

    /// [`Layout::equals`], computed.
    pub fn same(self, other: Layout) -> (b: bool)
        ensures
            b == self.equals(other),
    {
        self.width.same(other.width) && self.height.same(other.height) && self.em.same(other.em)
    }
}

/// The layout of a reflowable document that goes with a message.
#[derive(Debug, Clone, Copy)]
pub struct EpubFigures {
    /// For the area that the message brings, or else for the present one: the
    /// width of the layout, its height, and the font size that goes with it,
    /// not yet held within its bounds.
    pub layout_w: Real32,
    pub layout_h: Real32,
    pub default_em: Real32,
}

/// How a page is to be drawn.
#[derive(Debug, Clone, Copy, PartialEq, Eq)]
pub struct PagePlan {
    /// Where its highlighted regions come from.
    pub highlights: HighlightPlan,
    /// What takes the place of black and white, if anything does.
    pub tint: Option<(i32, i32)>,
    /// How it is turned.
    pub rotate: RotateDirection,
}

/// The state of the render thread.
pub struct RenderLoop {
    pub phase: Phase,
    /// The pages of the document have been counted once.
    pub document_ready: bool,
    pub preserved_area: Option<(Real32, Real32)>,
    pub invert: bool,
    pub tinted: bool,
    pub rotate: RotateDirection,
    pub search_term: Option<String>,
    /// The page that the viewer shows.
    pub start_point: usize,
    pub reflow_em: Option<Real32>,
    pub last_layout: Option<Layout>,
    /// Pages to render before all others.
    pub need_rerender: VecDeque<usize>,
    pub kind: DocumentKind,
    pub n_pages: usize,
    pub rendered: Vec<PrevRender>,
    /// What is left of the walk around the shown page.
    pub walk: VecDeque<usize>,
}

/// A [`RenderLoop`], mathematically.
#[verifier::ext_equal]
pub struct RenderState {
    pub phase: Phase,
    pub ready: bool,
    pub area: Option<(Real32, Real32)>,
    pub invert: bool,
    pub tinted: bool,
    pub rotate: RotateDirection,
    pub term: Option<Seq<char>>,
    pub start_point: usize,
    pub em: Option<Real32>,
    pub layout: Option<Layout>,
    pub queue: Seq<usize>,
    pub kind: DocumentKind,
    pub n_pages: usize,
    pub rendered: Seq<PrevRender>,
    pub walk: Seq<usize>,
}

impl View for RenderLoop {
    type V = RenderState;

    open spec fn view(&self) -> RenderState {
        RenderState {
            phase: self.phase,
            ready: self.document_ready,
            area: self.preserved_area,
            invert: self.invert,
            tinted: self.tinted,
            rotate: self.rotate,
            term: match self.search_term {
                Some(term) => Some(term@),
                None => None,
            },
            start_point: self.start_point,
            em: self.reflow_em,
            layout: self.last_layout,
            queue: self.need_rerender@,
            kind: self.kind,
            n_pages: self.n_pages,
            rendered: self.rendered@,
            walk: self.walk@,
        }
    }
}

/// A page of which nothing is known.
pub open spec fn unseen() -> PrevRender {
    PrevRender { successful: false, num_search_found: None, search_quads: None }
}

/// Nothing is left to do for the page in this round.
pub open spec fn settled(p: PrevRender) -> bool {
    p.successful && p.num_search_found is Some
}

/// The queue and the walk after the pages have been taken off them, queue
/// first, up to and including the first that needs work; and that page.
pub open spec fn next_work(
    queue: Seq<usize>,
    walk: Seq<usize>,
    rendered: Seq<PrevRender>,
) -> (Seq<usize>, Seq<usize>, Option<usize>)
    decreases queue.len() + walk.len(),
{
    if queue.len() > 0 {
        if settled(rendered[queue[0] as int]) {
            next_work(queue.skip(1), walk, rendered)
        } else {
            (queue.skip(1), walk, Some(queue[0]))
        }
    } else if walk.len() > 0 {
        if settled(rendered[walk[0] as int]) {
            next_work(queue, walk.skip(1), rendered)
        } else {
            (queue, walk.skip(1), Some(walk[0]))
        }
    } else {
        (queue, walk, None)
    }
}

/// The first page of `from..end` that has not been searched.
pub open spec fn first_unsearched(rendered: Seq<PrevRender>, from: int, end: int) -> Option<usize>
    decreases end - from,
{
    if from >= end {
        None
    } else if rendered[from].num_search_found is None {
        Some(from as usize)
    } else {
        first_unsearched(rendered, from + 1, end)
    }
}

/// The end of the batch that starts at `from`.
pub open spec fn batch_end(from: int, n_pages: usize) -> int {
    if from + SEARCH_AT_TIME < n_pages {
        from + SEARCH_AT_TIME
    } else {
        n_pages as int
    }
}

impl RenderState {
    pub open spec fn restarted(self) -> RenderState {
        RenderState { phase: Phase::StartRound, ..self }
    }

    /// The page around which pages are rendered.
    pub open spec fn current(self) -> usize {
        if self.start_point < self.n_pages {
            self.start_point
        } else {
            (self.n_pages - 1) as usize
        }
    }

    /// The pages of a round after the queued ones: those of the window,
    /// outward from the shown page; fewer of them while pages are still to be
    /// searched.
    pub open spec fn round_walk(self) -> Seq<usize> {
        let window = outward(
            self.current(),
            window_start(self.current(), RENDER_WINDOW) as usize,
            window_end(self.current(), self.n_pages, RENDER_WINDOW) as usize,
        );
        let limit = if self.term is Some && some_unsearched(self.rendered) {
            SEARCH_AT_TIME
        } else {
            RENDER_WINDOW
        };
        if window.len() < limit {
            window
        } else {
            window.take(limit as int)
        }
    }

    /// Another round has work to do.
    pub open spec fn more_work(self) -> bool {
        ||| self.queue.len() > 0
        ||| window_incomplete(self.rendered, self.current(), self.n_pages)
        ||| self.term is Some && some_unsearched(self.rendered)
    }

    /// The round is over.
    pub open spec fn round_done(self) -> RenderState {
        RenderState {
            phase: if self.more_work() {
                Phase::StartRound
            } else {
                Phase::AwaitNotif
            },
            ..self
        }
    }

    /// The batch that starts at `from` has been searched. A search begins at
    /// the shown page, goes on from the last page to the first, and ends where
    /// it comes to the shown page again.
    pub open spec fn batch_done(self, from: usize) -> RenderState {
        let next = from + SEARCH_AT_TIME;
        if from < self.start_point <= next {
            self.round_done()
        } else if next > self.n_pages {
            if self.start_point == 0 {
                self.round_done()
            } else {
                RenderState { phase: Phase::PollSearching { from: 0 }, ..self }
            }
        } else {
            RenderState { phase: Phase::PollSearching { from: next as usize }, ..self }
        }
    }

    /// The pages of the batch before `page` have been searched.
    pub open spec fn batch_at(self, from: usize, page: int) -> RenderState {
        match first_unsearched(self.rendered, page, batch_end(from as int, self.n_pages)) {
            Some(page) => RenderState { phase: Phase::SearchPage { page, from }, ..self },
            None => self.batch_done(from),
        }
    }

    /// The walk is at its end.
    pub open spec fn walk_done(self) -> RenderState {
        if self.term is Some {
            self.batch_at(self.start_point, self.start_point as int)
        } else {
            self.round_done()
        }
    }

    /// On to the next page of the round.
    pub open spec fn advanced(self) -> RenderState {
        let (queue, walk, page) = next_work(self.queue, self.walk, self.rendered);
        match page {
            Some(page) => RenderState { queue, walk, phase: Phase::RenderPage(page), ..self },
            None => (RenderState { queue, walk, ..self }).walk_done(),
        }
    }

    pub open spec fn round_started(self) -> RenderState {
        (RenderState { walk: self.round_walk(), ..self }).advanced()
    }
}


/// The number of results of a page's search; none, if it failed.
pub open spec fn num_found(quads: Option<Vec<SearchQuad>>) -> int {
    match quads {
        Some(quads) => quads@.len() as int,
        None => 0,
    }
}

/// A page after its search. One with results is to be rendered with them.
pub open spec fn scanned_page(p: PrevRender, quads: Option<Vec<SearchQuad>>) -> PrevRender {
    PrevRender {
        successful: p.successful && num_found(quads) == 0,
        num_search_found: Some(num_found(quads) as usize),
        search_quads: quads,
    }
}

impl RenderState {
    /// How the page in hand is to be drawn.
    pub open spec fn plan(self, black: i32, white: i32) -> PagePlan {
        PagePlan {
            highlights: highlights(
                self.rendered[self.phase->RenderPage_0 as int],
            ),
            tint: tint_spec(self.tinted, self.invert, black, white),
            rotate: self.rotate,
        }
    }

    /// The page in hand has been rendered.
    pub open spec fn page_shown(self, num_results: usize) -> RenderState {
        let page = self.phase->RenderPage_0;
        RenderState {
            rendered: self.rendered.update(
                page as int,
                PrevRender {
                    successful: true,
                    num_search_found: Some(num_results),
                    ..self.rendered[page as int]
                },
            ),
            phase: Phase::PollRendering,
            ..self
        }
    }

    /// The page in hand has been searched.
    pub open spec fn page_scanned(self, quads: Option<Vec<SearchQuad>>) -> RenderState {
        let page = self.phase->SearchPage_page;
        let from = self.phase->SearchPage_from;
        (RenderState {
            rendered: self.rendered.update(
                page as int,
                scanned_page(self.rendered[page as int], quads),
            ),
            ..self
        }).batch_at(from, page + 1)
    }
}

/// A page when a new text is searched for: what was found of the last one is
/// forgotten.
pub open spec fn unsearched(p: PrevRender) -> PrevRender {
    PrevRender { num_search_found: None, search_quads: None, ..p }
}

/// A page when the search is over: results are forgotten, and a page that
/// shows some is to be rendered without them.
pub open spec fn cleared(p: PrevRender) -> PrevRender {
    let shows = match p.num_search_found {
        Some(n) => n > 0,
        None => false,
    };
    PrevRender {
        successful: p.successful && !shows,
        num_search_found: if shows {
            Some(0)
        } else {
            p.num_search_found
        },
        search_quads: None,
    }
}

impl RenderState {
    /// All pages are to be rendered again.
    pub open spec fn all_stale(self) -> RenderState {
        RenderState {
            rendered: self.rendered.map_values(|p: PrevRender| stale(p)),
            phase: Phase::StartRound,
            ..self
        }
    }

    /// The document has another font size; it is opened again if it has been
    /// laid out with a different one.
    pub open spec fn resized(self, em: Real32) -> RenderState {
        let changed = !(self.em is Some && self.em->0.equals(em));
        let differs = self.layout is Some && !self.layout->0.em.equals(em);
        RenderState {
            em: if changed {
                Some(em)
            } else {
                self.em
            },
            phase: if changed && differs {
                Phase::OpenDocument
            } else {
                Phase::StartRound
            },
            ..self
        }
    }

    /// The font size asked for, else the one that goes with the layout.
    pub open spec fn em_or(self, default_em: Real32) -> Real32 {
        match self.em {
            Some(em) => em,
            None => epub_em(default_em),
        }
    }

    /// The layout that the figures ask for is the present one.
    pub open spec fn layout_fits(self, figures: EpubFigures) -> bool {
        &&& self.layout is Some
        &&& self.layout->0.equals(
            Layout {
                width: figures.layout_w,
                height: figures.layout_h,
                em: self.em_or(figures.default_em),
            },
        )
    }

    /// The state after a message that changes what is rendered. A request for
    /// links changes nothing; it only begins another round.
    pub open spec fn notified(self, notif: RenderNotif, figures: EpubFigures) -> RenderState {
        match notif {
            RenderNotif::Refresh => self.all_stale(),
            RenderNotif::Invert => (RenderState { invert: !self.invert, ..self }).all_stale(),
            RenderNotif::Tint => (RenderState { tinted: !self.tinted, ..self }).all_stale(),
            RenderNotif::Rotate => (RenderState {
                rotate: self.rotate.turned(),
                ..self
            }).all_stale(),
            RenderNotif::AdjustFontSize(delta) => if self.kind is Reflowable {
                self.resized(stepped_em(self.em_or(figures.default_em), delta))
            } else {
                self.restarted()
            },
            RenderNotif::SetFontSize(em) => if self.kind is Reflowable {
                self.resized(epub_em(em))
            } else {
                self.restarted()
            },
            RenderNotif::Area { width_px, height_px } => {
                let s = RenderState { area: Some((width_px, height_px)), ..self };
                if self.kind is Reflowable && !self.layout_fits(figures) {
                    RenderState { phase: Phase::OpenDocument, ..s }
                } else {
                    RenderState {
                        rendered: Seq::new(self.n_pages as nat, |i: int| unseen()),
                        phase: Phase::StartRound,
                        ..s
                    }
                }
            },
            RenderNotif::JumpToPage(page) => RenderState {
                start_point: page,
                queue: self.queue.filter(
                    |q: usize|
                        window_start(page, RENDER_WINDOW) <= q
                            < window_end(page, self.n_pages, RENDER_WINDOW),
                ),
                rendered: self.with_stale(page),
                phase: Phase::StartRound,
                ..self
            },
            RenderNotif::PageNeedsReRender(page) => RenderState {
                queue: if page < self.rendered.len() && !self.queue.contains(page) {
                    self.queue.push(page)
                } else {
                    self.queue
                },
                rendered: self.with_stale(page),
                phase: Phase::StartRound,
                ..self
            },
            RenderNotif::Search(term) => if term@.len() == 0 {
                RenderState {
                    rendered: self.rendered.map_values(|p: PrevRender| cleared(p)),
                    term: None,
                    phase: Phase::StartRound,
                    ..self
                }
            } else {
                RenderState {
                    rendered: self.rendered.map_values(|p: PrevRender| unsearched(p)),
                    term: Some(term@),
                    phase: Phase::StartRound,
                    ..self
                }
            },
            RenderNotif::GetLinks(_) => self.restarted(),
        }
    }

    /// The records of the pages with one page, if it exists, to be rendered
    /// again.
    pub open spec fn with_stale(self, page: usize) -> Seq<PrevRender> {
        if page < self.rendered.len() {
            self.rendered.update(
                page as int,
                stale(self.rendered[page as int]),
            )
        } else {
            self.rendered
        }
    }

    /// The message leaves a search a page to begin at.
    pub open spec fn search_can_begin(self, notif: RenderNotif) -> bool {
        match notif {
            RenderNotif::JumpToPage(page) => self.term is Some ==> page <= self.n_pages,
            RenderNotif::Search(term) => term@.len() > 0 ==> self.start_point <= self.n_pages,
            _ => true,
        }
    }
}

impl RenderState {
    /// Every page of `from..end` has been searched.
    pub open spec fn searched(self, from: int, end: int) -> bool {
        forall|i: int|
            from <= i < end ==> (#[trigger] self.rendered[i]).num_search_found is Some
    }

    /// A search that has come to `from`, having begun at the shown page, has
    /// left no page out.
    pub open spec fn scanned(self, from: int) -> bool {
        ||| self.start_point <= from && self.searched(self.start_point as int, from)
        ||| self.searched(self.start_point as int, self.n_pages as int) && self.searched(0, from)
    }

    /// The pages have been counted and are being rendered.
    pub open spec fn in_rounds(self) -> bool {
        match self.phase {
            Phase::StartRound
            | Phase::RenderPage(_)
            | Phase::PollRendering
            | Phase::SearchPage { .. }
            | Phase::PollSearching { .. }
            | Phase::AwaitNotif => true,
            _ => false,
        }
    }

    /// Every page has its record, and pages that are waiting exist.
    pub open spec fn pages_wf(self) -> bool {
        &&& 0 < self.n_pages <= i32::MAX
        &&& self.rendered.len() == self.n_pages
        &&& forall|i: int| 0 <= i < self.queue.len() ==> #[trigger] self.queue[i] < self.n_pages
        &&& forall|i: int| 0 <= i < self.walk.len() ==> #[trigger] self.walk[i] < self.n_pages
        &&& self.term is Some ==> self.start_point <= self.n_pages
    }

    /// The font size is one that a document can have.
    pub open spec fn em_wf(self) -> bool {
        self.em matches Some(em) ==> is_font_size(em)
    }

    pub open spec fn wf(self) -> bool {
        &&& self.phase is AwaitArea || self.phase is Stop || self.area is Some
        &&& self.queue.no_duplicates()
        &&& self.em_wf()
        &&& self.in_rounds() ==> self.pages_wf()
        &&& match self.phase {
            Phase::RenderPage(page) => page < self.n_pages && !settled(
                self.rendered[page as int],
            ),
            Phase::SearchPage { page, from } => {
                &&& self.term is Some
                &&& self.queue.len() == 0
                &&& self.rendered[page as int].num_search_found is None
                &&& from <= page < batch_end(from as int, self.n_pages)
                &&& self.scanned(from as int)
                &&& self.searched(from as int, page as int)
            },
            Phase::PollSearching { from } => {
                &&& self.term is Some
                &&& self.queue.len() == 0
                &&& from <= self.n_pages
                &&& self.scanned(from as int)
            },
            Phase::AwaitNotif => !self.more_work(),
            _ => true,
        }
    }
}

proof fn lemma_window_exists(s: RenderState)
    requires
        s.pages_wf(),
    ensures
        window_exists(s.rendered, s.current(), s.n_pages),
        window_start(s.current(), RENDER_WINDOW) <= s.current()
            < window_end(s.current(), s.n_pages, RENDER_WINDOW) <= s.n_pages,
{
}

pub proof fn lemma_first_unsearched(s: RenderState, from: int, end: int)
    requires
        0 <= from,
        end <= s.n_pages,
    ensures
        match first_unsearched(s.rendered, from, end) {
            Some(p) => from <= p < end && s.searched(from, p as int)
                && s.rendered[p as int].num_search_found is None,
            None => s.searched(from, end),
        },
    decreases end - from,
{
    if from < end && s.rendered[from].num_search_found is Some {
        lemma_first_unsearched(s, from + 1, end);
    }
}

pub proof fn lemma_batch_wf(s: RenderState, from: usize, page: int)
    requires
        s.pages_wf(),
        s.area is Some,
        s.em_wf(),
        s.queue.len() == 0,
        s.term is Some,
        from <= page,
        from <= s.n_pages,
        s.scanned(from as int),
        s.searched(from as int, page),
    ensures
        s.batch_at(from, page).wf(),
        s.batch_at(from, page).in_rounds(),
{
    let end = batch_end(from as int, s.n_pages);
    lemma_first_unsearched(s, page, end);
    let t = s.batch_at(from, page);
    assert(t.rendered == s.rendered);
    if first_unsearched(s.rendered, page, end) is None {
        assert(s.searched(from as int, end));
        if from >= s.start_point && s.searched(s.start_point as int, from as int) {
            assert(s.searched(s.start_point as int, end));
        }
        if s.searched(s.start_point as int, s.n_pages as int) && s.searched(0, from as int) {
            assert(s.searched(0, end));
        }
    }
}

pub proof fn lemma_next_work_wf(queue: Seq<usize>, walk: Seq<usize>, rendered: Seq<PrevRender>)
    requires
        queue.no_duplicates(),
        forall|i: int| 0 <= i < queue.len() ==> #[trigger] queue[i] < rendered.len(),
        forall|i: int| 0 <= i < walk.len() ==> #[trigger] walk[i] < rendered.len(),
    ensures
        next_work(queue, walk, rendered).0.no_duplicates(),
        forall|i: int|
            0 <= i < next_work(queue, walk, rendered).0.len() ==> #[trigger] next_work(
                queue,
                walk,
                rendered,
            ).0[i] < rendered.len(),
        forall|i: int|
            0 <= i < next_work(queue, walk, rendered).1.len() ==> #[trigger] next_work(
                queue,
                walk,
                rendered,
            ).1[i] < rendered.len(),
        next_work(queue, walk, rendered).2 matches Some(p) ==> p < rendered.len() && !settled(
            rendered[p as int],
        ),
        next_work(queue, walk, rendered).2 is None ==> next_work(queue, walk, rendered).0.len()
            == 0,
    decreases queue.len() + walk.len(),
{
    if queue.len() > 0 {
        if settled(rendered[queue[0] as int]) {
            lemma_next_work_wf(queue.skip(1), walk, rendered);
        }
    } else if walk.len() > 0 {
        if settled(rendered[walk[0] as int]) {
            lemma_next_work_wf(queue, walk.skip(1), rendered);
        }
    }
}

pub proof fn lemma_advanced_wf(s: RenderState)
    requires
        s.pages_wf(),
        s.area is Some,
        s.em_wf(),
        s.queue.no_duplicates(),
    ensures
        s.advanced().wf(),
        s.advanced().in_rounds(),
{
    let (queue, walk, page) = next_work(s.queue, s.walk, s.rendered);
    lemma_next_work_wf(s.queue, s.walk, s.rendered);
    if page is None && s.term is Some {
        let t = RenderState { queue, walk, ..s };
        lemma_batch_wf(t, t.start_point, t.start_point as int);
    }
}

pub proof fn lemma_round_started_wf(s: RenderState)
    requires
        s.wf(),
        s.phase is StartRound,
    ensures
        (RenderState { walk: s.round_walk(), ..s }).pages_wf(),
        s.round_started().wf(),
        s.round_started().in_rounds(),
{
    let walk = s.round_walk();
    let start = window_start(s.current(), RENDER_WINDOW) as usize;
    let end = window_end(s.current(), s.n_pages, RENDER_WINDOW) as usize;
    let all = outward(s.current(), start, end);
    lemma_window_exists(s);
    law_walk_visits_each_once(s.current(), start, end);
    assert forall|i: int| 0 <= i < walk.len() implies #[trigger] walk[i] < s.n_pages by {
        assert(walk[i] == all[i]);
        assert(all.contains(all[i]));
    }
    lemma_advanced_wf(RenderState { walk, ..s });
}

pub proof fn lemma_page_scanned_wf(s: RenderState, quads: Option<Vec<SearchQuad>>)
    requires
        s.wf(),
        s.phase is SearchPage,
    ensures
        s.page_scanned(quads).wf(),
        s.page_scanned(quads).in_rounds(),
        s.page_scanned(quads).rendered == s.rendered.update(
            s.phase->SearchPage_page as int,
            scanned_page(s.rendered[s.phase->SearchPage_page as int], quads),
        ),
{
    let page = s.phase->SearchPage_page;
    let from = s.phase->SearchPage_from;
    let after = RenderState {
        rendered: s.rendered.update(page as int, scanned_page(s.rendered[page as int], quads)),
        ..s
    };
    assert(s.scanned(from as int) ==> after.scanned(from as int)) by {
        assert forall|a: int, b: int| s.searched(a, b) && 0 <= a && b
            <= s.n_pages implies after.searched(a, b) by {}
    }
    assert(after.searched(from as int, page + 1));
    lemma_batch_wf(after, from, page + 1);
}

impl RenderState {
    /// The state after what came out of the channel.
    pub open spec fn received(self, event: RenderEvent, figures: EpubFigures) -> RenderState {
        match self.phase {
            Phase::AwaitArea => match event {
                RenderEvent::Notif(RenderNotif::Area { width_px, height_px }) => RenderState {
                    area: Some((width_px, height_px)),
                    phase: Phase::OpenDocument,
                    ..self
                },
                RenderEvent::Notif(RenderNotif::AdjustFontSize(delta)) => RenderState {
                    em: match self.em {
                        Some(em) => Some(stepped_em(em, delta)),
                        None => None,
                    },
                    ..self
                },
                RenderEvent::Notif(RenderNotif::SetFontSize(em)) => RenderState {
                    em: Some(epub_em(em)),
                    ..self
                },
                RenderEvent::Closed => RenderState { phase: Phase::Stop, ..self },
                _ => self,
            },
            Phase::AwaitRefresh => match event {
                RenderEvent::Notif(RenderNotif::Area { width_px, height_px }) => RenderState {
                    area: Some((width_px, height_px)),
                    ..self
                },
                RenderEvent::Notif(RenderNotif::Refresh) | RenderEvent::Closed => RenderState {
                    phase: Phase::OpenDocument,
                    ..self
                },
                _ => self,
            },
            Phase::AwaitRetry => match event {
                RenderEvent::Notif(RenderNotif::Area { width_px, height_px }) => RenderState {
                    area: Some((width_px, height_px)),
                    phase: Phase::OpenDocument,
                    ..self
                },
                RenderEvent::Notif(RenderNotif::Refresh) | RenderEvent::Closed => RenderState {
                    phase: Phase::OpenDocument,
                    ..self
                },
                _ => self,
            },
            Phase::PollRendering => match event {
                RenderEvent::Closed => RenderState { phase: Phase::Stop, ..self },
                RenderEvent::Nothing | RenderEvent::Notif(RenderNotif::GetLinks(_)) =>
                    self.advanced(),
                RenderEvent::Notif(notif) => self.notified(notif, figures),
            },
            Phase::PollSearching { from } => match event {
                RenderEvent::Closed => RenderState { phase: Phase::Stop, ..self },
                RenderEvent::Nothing | RenderEvent::Notif(RenderNotif::GetLinks(_)) =>
                    self.batch_at(from, from as int),
                RenderEvent::Notif(notif) => self.notified(notif, figures),
            },
            Phase::AwaitNotif => match event {
                RenderEvent::Closed => RenderState { phase: Phase::Stop, ..self },
                RenderEvent::Nothing | RenderEvent::Notif(RenderNotif::GetLinks(_)) => self,
                RenderEvent::Notif(notif) => self.notified(notif, figures),
            },
            _ => self,
        }
    }

    /// The document is open and has this many pages.
    pub open spec fn opened_with(self, n_pages: usize) -> RenderState {
        RenderState {
            ready: true,
            n_pages,
            start_point: if self.start_point < n_pages {
                self.start_point
            } else {
                (n_pages - 1) as usize
            },
            rendered: Seq::new(n_pages as nat, |i: int| unseen()),
            queue: self.queue.filter(|q: usize| q < n_pages),
            walk: Seq::empty(),
            phase: Phase::StartRound,
            ..self
        }
    }

    /// The thread takes messages that change what is rendered.
    pub open spec fn listens(self) -> bool {
        self.phase is PollRendering || self.phase is PollSearching || self.phase is AwaitNotif
    }
}

pub proof fn lemma_notified_wf(s: RenderState, notif: RenderNotif, figures: EpubFigures)
    requires
        s.wf(),
        s.in_rounds(),
        s.search_can_begin(notif),
    ensures
        s.notified(notif, figures).wf(),
{
    let t = s.notified(notif, figures);
    match notif {
        RenderNotif::JumpToPage(page) => {
            let keep = |q: usize|
                window_start(page, RENDER_WINDOW) <= q
                    < window_end(page, s.n_pages, RENDER_WINDOW);
            lemma_filter_no_duplicates(s.queue, keep);
            assert forall|i: int| 0 <= i < t.queue.len() implies #[trigger] t.queue[i]
                < s.n_pages by {
                lemma_filter_contains(s.queue, keep, t.queue[i]);
            }
        },
        RenderNotif::PageNeedsReRender(page) => {
            if page < s.rendered.len() && !s.queue.contains(page) {
                assert(t.queue.no_duplicates()) by {
                    assert forall|i: int, j: int|
                        0 <= i < t.queue.len() && 0 <= j < t.queue.len() && i
                            != j implies t.queue[i] != t.queue[j] by {
                        if i < s.queue.len() {
                            assert(s.queue.contains(s.queue[i]));
                        }
                        if j < s.queue.len() {
                            assert(s.queue.contains(s.queue[j]));
                        }
                    }
                }
            }
        },
        _ => {},
    }
}

impl RenderLoop {
    /// The state before the first message.
    pub fn new() -> (it: Self)
        ensures
            it@.wf(),
            it@ == (RenderState {
                phase: Phase::AwaitArea,
                ready: false,
                area: None,
                invert: false,
                tinted: false,
                rotate: RotateDirection::Deg0,
                term: None,
                start_point: 0,
                em: None,
                layout: None,
                queue: Seq::empty(),
                kind: DocumentKind::Fixed,
                n_pages: 0,
                rendered: Seq::empty(),
                walk: Seq::empty(),
            }),
    {
        RenderLoop {
            phase: Phase::AwaitArea,
            document_ready: false,
            preserved_area: None,
            invert: false,
            tinted: false,
            rotate: RotateDirection::Deg0,
            search_term: None,
            start_point: 0,
            reflow_em: None,
            last_layout: None,
            need_rerender: VecDeque::new(),
            kind: DocumentKind::Fixed,
            n_pages: 0,
            rendered: Vec::new(),
            walk: VecDeque::new(),
        }
    }

    /// The round is over: another one, or wait.
    fn end_round(&mut self)
        requires
            old(self)@.pages_wf(),
        ensures
            final(self)@ == old(self)@.round_done(),
    {
        proof {
            lemma_window_exists(self@);
        }
        let current: usize = if self.start_point < self.n_pages {
            self.start_point
        } else {
            self.n_pages - 1
        };
        let term: Option<&str> = match &self.search_term {
            Some(term) => Some(term.as_str()),
            None => None,
        };
        let more = should_continue_rendering(
            &self.rendered,
            &self.need_rerender,
            current,
            self.n_pages,
            term,
        );
        self.phase = if more {
            Phase::StartRound
        } else {
            Phase::AwaitNotif
        };
    }

    /// A batch is over: the next one, or the end of the round.
    fn end_batch(&mut self, from: usize)
        requires
            old(self)@.pages_wf(),
            from <= old(self).n_pages,
        ensures
            final(self)@ == old(self)@.batch_done(from),
    {
        let next: usize = from + SEARCH_AT_TIME;
        if from < self.start_point && self.start_point <= next {
            self.end_round();
        } else if next > self.n_pages {
            if self.start_point == 0 {
                self.end_round();
            } else {
                self.phase = Phase::PollSearching { from: 0 };
            }
        } else {
            self.phase = Phase::PollSearching { from: next };
        }
    }

    /// On to the next page of a batch that has not been searched.
    fn continue_batch(&mut self, from: usize, page: usize)
        requires
            old(self)@.pages_wf(),
            from <= old(self).n_pages,
            from <= page,
        ensures
            final(self)@ == old(self)@.batch_at(from, page as int),
    {
        let end: usize = if from + SEARCH_AT_TIME < self.n_pages {
            from + SEARCH_AT_TIME
        } else {
            self.n_pages
        };
        let mut i: usize = page;
        while i < end
            invariant
                *self == *old(self),
                self.rendered@.len() == self.n_pages,
                end == batch_end(from as int, self.n_pages),
                end <= self.n_pages,
                first_unsearched(self.rendered@, page as int, end as int) == first_unsearched(
                    self.rendered@,
                    i as int,
                    end as int,
                ),
            decreases end - i,
        {
            if self.rendered[i].num_search_found.is_none() {
                self.phase = Phase::SearchPage { page: i, from };
                return ;
            }
            i += 1;
        }
        self.end_batch(from);
    }

    /// On to the next page of the round, then to the search.
    fn advance(&mut self)
        requires
            old(self)@.pages_wf(),
        ensures
            final(self)@ == old(self)@.advanced(),
    {
        loop
            invariant
                self@.pages_wf(),
                self@.advanced() == old(self)@.advanced(),
            ensures
                self@.pages_wf(),
                self@.advanced() == old(self)@.advanced(),
                self@.queue.len() == 0,
                self@.walk.len() == 0,
            decreases self@.queue.len() + self@.walk.len(),
        {
            let ghost before = self@;
            let page: usize = match self.need_rerender.pop_front() {
                Some(page) => page,
                None => match self.walk.pop_front() {
                    Some(page) => page,
                    None => break ,
                },
            };
            proof {
                if before.queue.len() > 0 {
                    assert(page == before.queue[0]);
                    assert(self@.queue =~= before.queue.skip(1));
                } else {
                    assert(page == before.walk[0]);
                    assert(self@.walk =~= before.walk.skip(1));
                }
            }
            let r = &self.rendered[page];
            if !(r.successful && r.num_search_found.is_some()) {
                self.phase = Phase::RenderPage(page);
                return ;
            }
        }
        proof {
            assert(self@.queue =~= Seq::<usize>::empty());
        }
        if self.search_term.is_some() {
            let from: usize = self.start_point;
            self.continue_batch(from, from);
        } else {
            self.end_round();
        }
    }

    /// Begins a round over the pages: queued pages first, then those around
    /// the shown page.
    pub fn start_round(&mut self)
        requires
            old(self)@.wf(),
            old(self).phase is StartRound,
        ensures
            final(self)@.wf(),
            final(self)@ == old(self)@.round_started(),
    {
        proof {
            lemma_window_exists(self@);
        }
        let current: usize = if self.start_point < self.n_pages {
            self.start_point
        } else {
            self.n_pages - 1
        };
        let (start, end) = active_window_bounds(current, self.n_pages, RENDER_WINDOW);
        let limit: usize = if self.search_term.is_some() && any_unsearched(&self.rendered) {
            SEARCH_AT_TIME
        } else {
            RENDER_WINDOW
        };
        let ghost all = outward(current, start, end);
        let mut around = InterleavedAroundWithMax::new(current, start, end);
        let mut walk: VecDeque<usize> = VecDeque::new();
        proof {
            assert(all.take(0) + all =~= all);
        }
        while walk.len() < limit
            invariant_except_break
                around.wf(),
                walk@.len() <= limit,
                walk@ + around.rest() == all,
            ensures
                walk@ == if all.len() < limit {
                    all
                } else {
                    all.take(limit as int)
                },
            decreases limit - walk@.len(),
        {
            let ghost before = walk@;
            let ghost rest = around.rest();
            match around.next() {
                Some(page) => {
                    walk.push_back(page);
                    assert(walk@ + around.rest() =~= before + rest);
                },
                None => {
                    assert(walk@ =~= all);
                    break ;
                },
            }
        }
        self.walk = walk;
        proof {
            assert(self@.walk == old(self)@.round_walk());
            lemma_round_started_wf(old(self)@);
        }
        self.advance();
    }

    /// How the page in hand is to be drawn, with these colours for black and
    /// white.
    pub fn page_plan(&self, black: i32, white: i32) -> (plan: PagePlan)
        requires
            self@.wf(),
            self.phase is RenderPage,
        ensures
            plan == self@.plan(black, white),
    {
        let page: usize = match self.phase {
            Phase::RenderPage(page) => page,
            _ => 0,
        };
        PagePlan {
            highlights: highlight_plan(&self.rendered[page]),
            tint: page_tint(self.tinted, self.invert, black, white),
            rotate: self.rotate,
        }
    }

    /// The page could not be loaded or copied: on to the next one.
    pub fn page_failed(&mut self)
        requires
            old(self)@.wf(),
            old(self).phase is RenderPage,
        ensures
            final(self)@.wf(),
            final(self)@ == old(self)@.advanced(),
    {
        proof {
            lemma_advanced_wf(self@);
        }
        self.advance();
    }

    /// The page could not be rendered.
    pub fn render_failed(&mut self)
        requires
            old(self)@.wf(),
            old(self).phase is RenderPage,
        ensures
            final(self)@.wf(),
            final(self)@ == (RenderState { phase: Phase::PollRendering, ..old(self)@ }),
    {
        self.phase = Phase::PollRendering;
    }

    /// The page has been rendered, with this many search results on it.
    pub fn page_rendered(&mut self, num_results: usize)
        requires
            old(self)@.wf(),
            old(self).phase is RenderPage,
        ensures
            final(self)@.wf(),
            final(self)@ == old(self)@.page_shown(num_results),
    {
        if let Phase::RenderPage(page) = self.phase {
            self.rendered[page].num_search_found = Some(num_results);
            self.rendered[page].successful = true;
            self.phase = Phase::PollRendering;
        }
    }

    /// The page has been searched: its results, if it could be. Returns the
    /// page, and how many results there are.
    pub fn page_searched(&mut self, quads: Option<Vec<SearchQuad>>) -> (found: (usize, usize))
        requires
            old(self)@.wf(),
            old(self).phase is SearchPage,
        ensures
            final(self)@.wf(),
            final(self)@ == old(self)@.page_scanned(quads),
            found.0 == old(self).phase->SearchPage_page,
            found.1 == num_found(quads),
    {
        let (page, from): (usize, usize) = match self.phase {
            Phase::SearchPage { page, from } => (page, from),
            _ => (0, 0),
        };
        let count: usize = match &quads {
            Some(quads) => quads.len(),
            None => 0,
        };
        let ghost given = quads;
        let ghost before = self@;
        self.rendered[page].search_quads = quads;
        if count > 0 {
            self.rendered[page].successful = false;
        }
        self.rendered[page].num_search_found = Some(count);
        proof {
            assert(self@.rendered =~= before.rendered.update(
                page as int,
                scanned_page(before.rendered[page as int], given),
            ));
            lemma_page_scanned_wf(before, given);
        }
        self.continue_batch(from, page + 1);
        (page, count)
    }

    /// Has all pages rendered again.
    fn make_all_stale(&mut self)
        ensures
            final(self)@ == old(self)@.all_stale(),
    {
        let ghost before = self.rendered@;
        let mut i: usize = 0;
        while i < self.rendered.len()
            invariant
                i <= self.rendered@.len() == before.len(),
                self@ == (RenderState { rendered: self.rendered@, ..old(self)@ }),
                forall|k: int|
                    0 <= k < i ==> #[trigger] self.rendered@[k] == stale(
                        before[k],
                    ),
                forall|k: int| i <= k < before.len() ==> #[trigger] self.rendered@[k] == before[k],
            decreases self.rendered@.len() - i,
        {
            self.rendered[i].successful = false;
            i += 1;
        }
        self.phase = Phase::StartRound;
    }

    /// Forgets what was found of the last text.
    fn forget_results(&mut self)
        ensures
            final(self)@ == (RenderState {
                rendered: old(self)@.rendered.map_values(|p: PrevRender| unsearched(p)),
                ..old(self)@
            }),
    {
        let ghost before = self.rendered@;
        let mut i: usize = 0;
        while i < self.rendered.len()
            invariant
                i <= self.rendered@.len() == before.len(),
                self@ == (RenderState { rendered: self.rendered@, ..old(self)@ }),
                forall|k: int|
                    0 <= k < i ==> #[trigger] self.rendered@[k] == unsearched(before[k]),
                forall|k: int| i <= k < before.len() ==> #[trigger] self.rendered@[k] == before[k],
            decreases self.rendered@.len() - i,
        {
            self.rendered[i].num_search_found = None;
            self.rendered[i].search_quads = None;
            i += 1;
        }
    }

    /// Forgets all results, and has the pages that show some rendered again.
    fn clear_results(&mut self)
        ensures
            final(self)@ == (RenderState {
                rendered: old(self)@.rendered.map_values(|p: PrevRender| cleared(p)),
                ..old(self)@
            }),
    {
        let ghost before = self.rendered@;
        let mut i: usize = 0;
        while i < self.rendered.len()
            invariant
                i <= self.rendered@.len() == before.len(),
                self@ == (RenderState { rendered: self.rendered@, ..old(self)@ }),
                forall|k: int| 0 <= k < i ==> #[trigger] self.rendered@[k] == cleared(before[k]),
                forall|k: int| i <= k < before.len() ==> #[trigger] self.rendered@[k] == before[k],
            decreases self.rendered@.len() - i,
        {
            let shows = match self.rendered[i].num_search_found {
                Some(n) => n > 0,
                None => false,
            };
            if shows {
                self.rendered[i].num_search_found = Some(0);
                self.rendered[i].successful = false;
            }
            self.rendered[i].search_quads = None;
            i += 1;
        }
    }

    /// Takes another font size for a reflowable document.
    fn resize(&mut self, em: Real32)
        ensures
            final(self)@ == old(self)@.resized(em),
    {
        let changed = match self.reflow_em {
            Some(old_em) => !old_em.same(em),
            None => true,
        };
        let differs = match self.last_layout {
            Some(layout) => !layout.em.same(em),
            None => false,
        };
        if changed {
            self.reflow_em = Some(em);
        }
        self.phase = if changed && differs {
            Phase::OpenDocument
        } else {
            Phase::StartRound
        };
    }

    /// Takes another area.
    fn change_area(&mut self, width_px: Real32, height_px: Real32, figures: EpubFigures)
        ensures
            final(self)@ == old(self)@.notified(RenderNotif::Area { width_px, height_px }, figures),
    {
        self.preserved_area = Some((width_px, height_px));
        let em = self.current_em(figures.default_em);
        let wanted = Layout { width: figures.layout_w, height: figures.layout_h, em };
        let fits = match self.last_layout {
            Some(layout) => layout.same(wanted),
            None => false,
        };
        if let DocumentKind::Reflowable = self.kind {
            if !fits {
                self.phase = Phase::OpenDocument;
                return ;
            }
        }
        fill_default(&mut self.rendered, self.n_pages);
        self.phase = Phase::StartRound;
    }

    /// Takes a message that changes what is rendered.
    fn notify(&mut self, notif: RenderNotif, figures: EpubFigures)
        requires
            old(self)@.pages_wf(),
            old(self)@.em_wf(),
        ensures
            final(self)@ == old(self)@.notified(notif, figures),
    {
        match notif {
            RenderNotif::Refresh => self.make_all_stale(),
            RenderNotif::Invert => {
                self.invert = !self.invert;
                self.make_all_stale();
            },
            RenderNotif::Tint => {
                self.tinted = !self.tinted;
                self.make_all_stale();
            },
            RenderNotif::Rotate => {
                self.rotate = self.rotate.clockwise();
                self.make_all_stale();
            },
            RenderNotif::AdjustFontSize(delta) => {
                if let DocumentKind::Reflowable = self.kind {
                    let em = self.current_em(figures.default_em);
                    self.resize(adjust_epub_em(em, delta));
                } else {
                    self.phase = Phase::StartRound;
                }
            },
            RenderNotif::SetFontSize(em) => {
                if let DocumentKind::Reflowable = self.kind {
                    self.resize(clamp_epub_em(em));
                } else {
                    self.phase = Phase::StartRound;
                }
            },
            RenderNotif::Area { width_px, height_px } => {
                self.change_area(width_px, height_px, figures);
            },
            RenderNotif::JumpToPage(page) => {
                self.start_point = page;
                jump_to_page(&mut self.rendered, &mut self.need_rerender, page, self.n_pages);
                self.phase = Phase::StartRound;
            },
            RenderNotif::PageNeedsReRender(page) => {
                queue_page_rerender(&mut self.rendered, &mut self.need_rerender, page);
                self.phase = Phase::StartRound;
            },
            RenderNotif::Search(term) => {
                if term.as_str().is_empty() {
                    self.clear_results();
                    self.search_term = None;
                } else {
                    self.forget_results();
                    self.search_term = Some(term);
                }
                self.phase = Phase::StartRound;
            },
            RenderNotif::GetLinks(_) => {
                self.phase = Phase::StartRound;
            },
        }
    }

    /// Takes what came out of the channel. Returns the page whose links are to
    /// be sent.
    pub fn receive(&mut self, event: RenderEvent, figures: EpubFigures) -> (links: Option<usize>)
        requires
            old(self)@.wf(),
            old(self)@.listens() && event is Notif ==> old(self)@.search_can_begin(event->Notif_0),
        ensures
            final(self)@.wf(),
            final(self)@ == old(self)@.received(event, figures),
            links == match event {
                RenderEvent::Notif(RenderNotif::GetLinks(page)) if old(self)@.listens() => Some(
                    page,
                ),
                _ => None,
            },
    {
        match self.phase {
            Phase::AwaitArea => {
                match event {
                    RenderEvent::Notif(RenderNotif::Area { width_px, height_px }) => {
                        self.preserved_area = Some((width_px, height_px));
                        self.phase = Phase::OpenDocument;
                    },
                    RenderEvent::Notif(RenderNotif::AdjustFontSize(delta)) => {
                        if let Some(em) = self.reflow_em {
                            self.reflow_em = Some(adjust_epub_em(em, delta));
                        }
                    },
                    RenderEvent::Notif(RenderNotif::SetFontSize(em)) => {
                        self.reflow_em = Some(clamp_epub_em(em));
                    },
                    RenderEvent::Closed => {
                        self.phase = Phase::Stop;
                    },
                    _ => {},
                }
                None
            },
            Phase::AwaitRefresh => {
                match event {
                    RenderEvent::Notif(RenderNotif::Area { width_px, height_px }) => {
                        self.preserved_area = Some((width_px, height_px));
                    },
                    RenderEvent::Notif(RenderNotif::Refresh) | RenderEvent::Closed => {
                        self.phase = Phase::OpenDocument;
                    },
                    _ => {},
                }
                None
            },
            Phase::AwaitRetry => {
                match event {
                    RenderEvent::Notif(RenderNotif::Area { width_px, height_px }) => {
                        self.preserved_area = Some((width_px, height_px));
                        self.phase = Phase::OpenDocument;
                    },
                    RenderEvent::Notif(RenderNotif::Refresh) | RenderEvent::Closed => {
                        self.phase = Phase::OpenDocument;
                    },
                    _ => {},
                }
                None
            },
            Phase::PollRendering | Phase::PollSearching { .. } | Phase::AwaitNotif => self.listen(
                event,
                figures,
            ),
            _ => None,
        }
    }

    /// Takes what came out of the channel between two pages.
    fn listen(&mut self, event: RenderEvent, figures: EpubFigures) -> (links: Option<usize>)
        requires
            old(self)@.wf(),
            old(self)@.listens(),
            event is Notif ==> old(self)@.search_can_begin(event->Notif_0),
        ensures
            final(self)@.wf(),
            final(self)@ == old(self)@.received(event, figures),
            links == match event {
                RenderEvent::Notif(RenderNotif::GetLinks(page)) => Some(page),
                _ => None,
            },
    {
        let links: Option<usize> = match event {
            RenderEvent::Closed => {
                self.phase = Phase::Stop;
                return None;
            },
            RenderEvent::Notif(RenderNotif::GetLinks(page)) => Some(page),
            RenderEvent::Nothing => None,
            RenderEvent::Notif(notif) => {
                proof {
                    lemma_notified_wf(self@, notif, figures);
                }
                self.notify(notif, figures);
                return None;
            },
        };
        match self.phase {
            Phase::PollRendering => {
                proof {
                    lemma_advanced_wf(self@);
                }
                self.advance();
            },
            Phase::PollSearching { from } => {
                proof {
                    lemma_batch_wf(self@, from, from as int);
                }
                self.continue_batch(from, from);
            },
            _ => {},
        }
        links
    }

    /// The present font size, or the one that goes with the layout.
    pub fn current_em(&self, default_em: Real32) -> (em: Real32)
        ensures
            em == self@.em_or(default_em),
    {
        match self.reflow_em {
            Some(em) => em,
            None => clamp_epub_em(default_em),
        }
    }

    /// The document is open.
    pub fn opened(&mut self, reflowable: bool) -> (kind: DocumentKind)
        requires
            old(self)@.wf(),
            old(self).phase is OpenDocument,
        ensures
            final(self)@.wf(),
            kind == if reflowable {
                DocumentKind::Reflowable
            } else {
                DocumentKind::Fixed
            },
            final(self)@ == (RenderState {
                kind,
                phase: if reflowable {
                    Phase::LayOut
                } else {
                    Phase::CountPages
                },
                ..old(self)@
            }),
    {
        if reflowable {
            self.kind = DocumentKind::Reflowable;
            self.phase = Phase::LayOut;
        } else {
            self.kind = DocumentKind::Fixed;
            self.phase = Phase::CountPages;
        }
        self.kind
    }

    /// The document could not be opened: the end, unless it could be before.
    pub fn open_failed(&mut self)
        requires
            old(self)@.wf(),
            old(self).phase is OpenDocument,
        ensures
            final(self)@.wf(),
            final(self)@ == (RenderState {
                phase: if old(self)@.ready {
                    Phase::AwaitRefresh
                } else {
                    Phase::Stop
                },
                ..old(self)@
            }),
    {
        self.phase = if self.document_ready {
            Phase::AwaitRefresh
        } else {
            Phase::Stop
        };
    }

    /// The font size to lay out with: the one asked for, else the one that
    /// goes with the area, which is then kept.
    pub fn choose_em(&mut self, default_em: Real32) -> (em: Real32)
        requires
            old(self)@.wf(),
            old(self).phase is LayOut,
        ensures
            final(self)@.wf(),
            em == old(self)@.em_or(default_em),
            final(self)@ == (RenderState { em: Some(em), ..old(self)@ }),
    {
        let em = self.current_em(default_em);
        self.reflow_em = Some(em);
        em
    }

    /// The document has been laid out at this width and height, with the font
    /// size that was chosen.
    pub fn laid_out(&mut self, width: Real32, height: Real32)
        requires
            old(self)@.wf(),
            old(self).phase is LayOut,
            old(self)@.em is Some,
        ensures
            final(self)@.wf(),
            final(self)@ == (RenderState {
                layout: Some(Layout { width, height, em: old(self)@.em->0 }),
                phase: Phase::CountPages,
                ..old(self)@
            }),
    {
        if let Some(em) = self.reflow_em {
            self.last_layout = Some(Layout { width, height, em });
        }
        self.phase = Phase::CountPages;
    }

    /// The layout failed: the end, unless the document could be shown before.
    pub fn layout_failed(&mut self)
        requires
            old(self)@.wf(),
            old(self).phase is LayOut,
        ensures
            final(self)@.wf(),
            final(self)@ == (RenderState {
                phase: if old(self)@.ready {
                    Phase::AwaitRetry
                } else {
                    Phase::Stop
                },
                ..old(self)@
            }),
    {
        self.phase = if self.document_ready {
            Phase::AwaitRetry
        } else {
            Phase::Stop
        };
    }

    /// The pages have been counted. A document without pages is an error, and
    /// the end.
    pub fn counted(&mut self, count: i32) -> (n_pages: Result<usize, RenderError>)
        requires
            old(self)@.wf(),
            old(self).phase is CountPages,
            count >= 0,
        ensures
            final(self)@.wf(),
            count == 0 ==> n_pages == Err::<usize, RenderError>(RenderError::EmptyDocument)
                && final(self)@ == (RenderState { phase: Phase::Stop, ..old(self)@ }),
            count > 0 ==> n_pages == Ok::<usize, RenderError>(count as usize) && final(self)@
                == old(self)@.opened_with(count as usize),
    {
        if count == 0 {
            self.phase = Phase::Stop;
            return Err(RenderError::EmptyDocument);
        }
        let n_pages: usize = count as usize;
        let ghost queue = self.need_rerender@;
        if self.start_point >= n_pages {
            self.start_point = n_pages - 1;
        }
        self.document_ready = true;
        self.n_pages = n_pages;
        fill_default(&mut self.rendered, n_pages);
        retain_range(&mut self.need_rerender, 0, n_pages);
        self.walk = VecDeque::new();
        self.phase = Phase::StartRound;
        proof {
            let keep = |q: usize| 0 <= q < n_pages;
            assert(keep =~= (|q: usize| q < n_pages));
            lemma_filter_no_duplicates(queue, keep);
            assert forall|i: int| 0 <= i < self@.queue.len() implies #[trigger] self@.queue[i]
                < n_pages by {
                lemma_filter_contains(queue, keep, self@.queue[i]);
            }
        }
        Ok(n_pages)
    }

    /// The pages could not be counted: the end, unless they could be before.
    pub fn count_failed(&mut self)
        requires
            old(self)@.wf(),
            old(self).phase is CountPages,
        ensures
            final(self)@.wf(),
            final(self)@ == (RenderState {
                phase: if old(self)@.ready {
                    Phase::Pause
                } else {
                    Phase::Stop
                },
                ..old(self)@
            }),
    {
        self.phase = if self.document_ready {
            Phase::Pause
        } else {
            Phase::Stop
        };
    }

    /// The pause is over.
    pub fn resume(&mut self)
        requires
            old(self)@.wf(),
            old(self).phase is Pause,
        ensures
            final(self)@.wf(),
            final(self)@ == (RenderState { phase: Phase::OpenDocument, ..old(self)@ }),
    {
        self.phase = Phase::OpenDocument;
    }
}

/// When the thread waits, no page is queued, all pages around the shown one
/// are rendered as they are to be shown, and while a text is searched for,
/// every page of the document has been searched.
pub proof fn law_idle_means_done(s: RenderState)
    requires
        s.wf(),
        s.phase is AwaitNotif,
    ensures
        s.queue.len() == 0,
        ({
            let shown = min(s.start_point as int, s.n_pages - 1);
            let start = max(0, shown - 12);
            forall|i: int|
                start <= i < start + 24 && i < s.n_pages ==> (#[trigger] s.rendered[i]).successful
        }),
        !window_incomplete(s.rendered, s.current(), s.n_pages),
        s.term is Some ==> s.searched(0, s.n_pages as int) && forall|i: int|
            0 <= i < s.n_pages ==> (#[trigger] s.rendered[i]).num_search_found is Some,
{
}

/// A search that ends has left no page out.
pub proof fn law_finished_search_is_complete(s: RenderState, from: usize, page: int)
    requires
        s.pages_wf(),
        from <= page,
        from <= s.n_pages,
        s.scanned(from as int),
        s.searched(from as int, page),
    ensures
        !(s.batch_at(from, page).phase is SearchPage) && !(s.batch_at(from, page).phase
            is PollSearching) ==> s.searched(0, s.n_pages as int),
{
    let end = batch_end(from as int, s.n_pages);
    lemma_first_unsearched(s, page, end);
    if first_unsearched(s.rendered, page, end) is None {
        assert(s.searched(from as int, end));
    }
}

/// How far a search that has come to `from` still is from its end: to the
/// last page, and from the first page to the shown one.
pub open spec fn search_ahead(s: RenderState, from: int) -> int {
    if from < s.start_point {
        s.start_point - from
    } else {
        s.n_pages - from + 1 + s.start_point
    }
}

/// A search ends, whatever page is shown: with each batch it comes nearer to
/// its end.
pub proof fn law_search_ends(s: RenderState, from: usize)
    requires
        s.start_point <= s.n_pages,
        from <= s.n_pages,
    ensures
        s.batch_done(from).phase matches Phase::PollSearching { from: next } ==> {
            &&& next <= s.n_pages
            &&& 0 <= search_ahead(s, next as int) < search_ahead(s, from as int)
        },
{
}

/// A page on which a search finds something is rendered again, with what was
/// found highlighted.
pub proof fn law_hit_is_rendered_again(s: RenderState, quads: Option<Vec<SearchQuad>>)
    requires
        s.wf(),
        s.phase is SearchPage,
        num_found(quads) > 0,
    ensures
        ({
            let p = s.page_scanned(quads).rendered[s.phase->SearchPage_page as int];
            &&& !p.successful
            &&& highlights(p) is Known
            &&& p.search_quads == quads
        }),
{
}

/// When the search is cleared, no page is shown with highlighted regions any
/// more: those that were are rendered again, and nothing is searched for.
pub proof fn law_cleared_search_shows_nothing(s: RenderState, term: String, figures: EpubFigures)
    requires
        term@.len() == 0,
    ensures
        s.notified(RenderNotif::Search(term), figures).term is None,
        forall|i: int|
            0 <= i < s.rendered.len() ==> {
                let p = #[trigger] s.notified(RenderNotif::Search(term), figures).rendered[i];
                &&& highlights(p) is Nothing || highlights(p)
                    == HighlightPlan::Search(0)
                &&& s.rendered[i].num_search_found matches Some(n) ==> n > 0 ==> !p.successful
            },
{
}

/// When another text is searched for, nothing is left of the results of the
/// last one: every page is searched anew.
pub proof fn law_new_search_starts_afresh(s: RenderState, term: String, figures: EpubFigures)
    requires
        term@.len() > 0,
    ensures
        s.notified(RenderNotif::Search(term), figures).term == Some(term@),
        forall|i: int|
            0 <= i < s.rendered.len() ==> highlights(
                #[trigger] s.notified(RenderNotif::Search(term), figures).rendered[i],
            ) == HighlightPlan::Search(0),
{
}

/// Inverting twice, tinting twice, or four quarter turns have all pages
/// rendered again and change nothing else.
pub proof fn law_toggles_cancel(s: RenderState, figures: EpubFigures)
    ensures
        s.notified(RenderNotif::Invert, figures).notified(RenderNotif::Invert, figures)
            == s.all_stale(),
        s.notified(RenderNotif::Tint, figures).notified(RenderNotif::Tint, figures)
            == s.all_stale(),
        s.notified(RenderNotif::Rotate, figures).notified(RenderNotif::Rotate, figures).notified(
            RenderNotif::Rotate,
            figures,
        ).notified(RenderNotif::Rotate, figures) == s.all_stale(),
{
    let i = s.notified(RenderNotif::Invert, figures);
    assert(i.notified(RenderNotif::Invert, figures) =~= s.all_stale());
    let t = s.notified(RenderNotif::Tint, figures);
    assert(t.notified(RenderNotif::Tint, figures) =~= s.all_stale());
    let r = s.notified(RenderNotif::Rotate, figures).notified(RenderNotif::Rotate, figures);
    assert(r.notified(RenderNotif::Rotate, figures).notified(RenderNotif::Rotate, figures)
        =~= s.all_stale());
}

/// A refresh has every page rendered again, and forgets no search result.
pub proof fn law_refresh_renders_all(s: RenderState, figures: EpubFigures)
    ensures
        forall|i: int|
            0 <= i < s.rendered.len() ==> {
                let p = #[trigger] s.notified(RenderNotif::Refresh, figures).rendered[i];
                &&& !p.successful
                &&& p.num_search_found == s.rendered[i].num_search_found
                &&& p.search_quads == s.rendered[i].search_quads
            },
{
}

/// Font sizes are for reflowable documents only: with any other, a message
/// about them changes nothing.
pub proof fn law_font_size_is_for_reflowable(
    s: RenderState,
    delta: i8,
    em: Real32,
    figures: EpubFigures,
)
    requires
        s.kind is Fixed,
    ensures
        s.notified(RenderNotif::AdjustFontSize(delta), figures) == s.restarted(),
        s.notified(RenderNotif::SetFontSize(em), figures) == s.restarted(),
{
}

/// A page that is jumped to is the first that the next round renders, unless
/// other pages near it were queued before.
pub proof fn law_jump_renders_target_first(s: RenderState, page: usize, figures: EpubFigures)
    requires
        s.wf(),
        s.in_rounds(),
        page < s.n_pages,
        s.notified(RenderNotif::JumpToPage(page), figures).queue.len() == 0,
    ensures
        s.notified(RenderNotif::JumpToPage(page), figures).round_started().phase
            == Phase::RenderPage(page),
{
    let t = s.notified(RenderNotif::JumpToPage(page), figures);
    let start = window_start(page, RENDER_WINDOW) as usize;
    let end = window_end(page, s.n_pages, RENDER_WINDOW) as usize;
    law_walk_goes_outward(page, start, end);
    law_walk_visits_each_once(page, start, end);
    assert(t.current() == page);
    assert(t.round_walk()[0] == page);
    assert(!settled(t.rendered[page as int]));
}

/// A page whose image the terminal has dropped is the first that the next
/// round renders, unless others were queued before.
pub proof fn law_dropped_page_is_rendered_first(s: RenderState, page: usize, figures: EpubFigures)
    requires
        s.wf(),
        s.in_rounds(),
        page < s.n_pages,
        s.queue.len() == 0,
    ensures
        s.notified(RenderNotif::PageNeedsReRender(page), figures).round_started().phase
            == Phase::RenderPage(page),
{
    let t = s.notified(RenderNotif::PageNeedsReRender(page), figures);
    assert(t.queue[0] == page);
    assert(!settled(t.rendered[page as int]));
}

/// A page that is rendered as it is to be shown, and has been searched, is not
/// rendered again.
pub proof fn law_settled_page_is_left_alone(s: RenderState)
    requires
        s.pages_wf(),
        s.queue.no_duplicates(),
    ensures
        s.advanced().phase matches Phase::RenderPage(page) ==> !settled(
            s.rendered[page as int],
        ),
{
    lemma_next_work_wf(s.queue, s.walk, s.rendered);
}

/// The first pages of a document, at most this many, show whether it can be
/// rendered.
pub const PROBED_PAGES: usize = 3;

/// How many pages of a document with `count` pages are tried. One without
/// pages is an error.
pub fn pages_to_probe(count: i32) -> (n: Result<usize, RenderError>)
    requires
        count >= 0,
    ensures
        match n {
            Ok(n) => count > 0 && n == if count < PROBED_PAGES {
                count as int
            } else {
                PROBED_PAGES as int
            },
            Err(error) => count == 0 && error is EmptyDocument,
        },
{
    if count == 0 {
        Err(RenderError::EmptyDocument)
    } else if (count as usize) < PROBED_PAGES {
        Ok(count as usize)
    } else {
        Ok(PROBED_PAGES)
    }
}

} // verus!
