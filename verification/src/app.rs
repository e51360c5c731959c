//! Application state: page tracking, scroll and zoom, status messages, and the
//! converted image cache.

use crate::arith::{excess, least};
use crate::convert::{ConvertedPage, ImageId, MaybeTransferred};
use crate::real32::Real32;
use crate::renderer::{fill_default, DocumentKind, LinkInfo, TocEntry};
use crate::residency::{
    distinct_pages, image_byte_count, image_bytes, law_residents_fit_budget, law_shown_page_stays,
    lemma_part_fits_budget, lists, resident, resident_pages, total, MAX_RESIDENT_BYTES,
};
use crate::terminal::WindowSize;
use crate::text::{decimal, push_decimal};
use std::collections::HashSet;
use vstd::prelude::*;

verus! {

broadcast use vstd::std_specs::hash::group_hash_axioms;

/// The greatest zoom level.
pub const MAX_ZOOM_LEVEL: i16 = 20;

/// What the status bar says besides the page.
pub enum StatusMsg {
    /// Default hint shown when idle.
    Hint,
    Info(String),
    Error(String),
}

impl StatusMsg {
    /// The message without the page.
    pub open spec fn detail(self) -> Seq<char> {
        match self {
            StatusMsg::Hint =>
                "? help  q quit  ←/→ page  ↑/↓ scroll  i invert  r rotate  z zoom"@,
            StatusMsg::Info(s) => s@,
            StatusMsg::Error(s) => "ERROR: "@ + s@,
        }
    }

    /// The text of the status bar: the page, counted from one, of at least
    /// one page; a mark in zoom mode; the message.
    pub open spec fn text_spec(self, page: usize, n_pages: usize, zoom_mode: bool) -> Seq<char> {
        decimal((page + 1) as nat) + " / "@ + decimal(
            if n_pages == 0 {
                1
            } else {
                n_pages as nat
            },
        ) + "  "@ + (if zoom_mode {
            "[ZOOM] "@
        } else {
            ""@
        }) + self.detail()
    }

    /// [`StatusMsg::text_spec`], computed.
    pub fn text(&self, page: usize, n_pages: usize, zoom_mode: bool) -> (text: String)
        ensures
            text@ == self.text_spec(page, n_pages, zoom_mode),
    {
        let mut text = String::new();
        push_decimal(&mut text, page as u128 + 1);
        text.append(" / ");
        push_decimal(
            &mut text,
            if n_pages == 0 {
                1
            } else {
                n_pages as u128
            },
        );
        text.append("  ");
        if zoom_mode {
            text.append("[ZOOM] ");
        } else {
            text.append("");
        }
        let ghost before = text@;
        match self {
            StatusMsg::Hint => {
                text.append("? help  q quit  ←/→ page  ↑/↓ scroll  i invert  r rotate  z zoom");
            },
            StatusMsg::Info(s) => {
                text.append(s.as_str());
            },
            StatusMsg::Error(s) => {
                text.append("ERROR: ");
                text.append(s.as_str());
                assert(text@ =~= before + self.detail());
            },
        }
        assert(text@ =~= self.text_spec(page, n_pages, zoom_mode));
        text
    }
}

/// What is there of a page to display.
pub struct RenderedPageInfo {
    /// The converted Kitty image ready for display, if available.
    pub converted: Option<ConvertedPage>,
    /// Number of search results on this page, if known.
    pub num_results: Option<usize>,
}

impl Default for RenderedPageInfo {
    fn default() -> (info: Self)
        ensures
            info == (RenderedPageInfo { converted: None, num_results: None }),
    {
        RenderedPageInfo { converted: None, num_results: None }
    }
}

#[derive(Debug, Clone, Copy, PartialEq, Eq, Structural)]
pub enum ScrollAction {
    /// Scroll position changed within page.
    Scrolled,
    /// At boundary: turn to next page.
    TurnNext,
    /// At boundary: turn to previous page.
    TurnPrev,
    /// No change (already at boundary and no page to turn to).
    Nothing,
}

pub enum InputMode {
    /// Normal viewing mode.
    Normal,
    /// Entering a page number (go-to-page).
    GoToPage(String),
    /// Entering a search term.
    Search(String),
    /// Displaying the table of contents.
    Toc { scroll: usize },
    /// Displaying document metadata.
    Metadata,
    /// Displaying links on the current page; user types number to follow.
    Links { links: Vec<LinkInfo>, input: String },
}

#[derive(Debug, Clone, Copy, PartialEq, Eq, Structural)]
pub enum SearchJumpResolution {
    /// A page that is not searched yet may come first.
    Pending,
    Found(usize),
    NoResult,
}

/// The state of the viewer.
pub struct App {
    pub page: usize,
    pub n_pages: usize,
    pub msg: StatusMsg,
    pub rendered: Vec<RenderedPageInfo>,
    /// Set to true when the current page's image changed and needs a screen update.
    pub needs_redraw: bool,
    /// Vertical scroll offset in pixels from the top of the page image.
    pub scroll_offset: u32,
    pub zoom_mode: bool,
    /// Zoom level: 0 is fit-to-screen, positive is zoomed in.
    pub zoom_level: i16,
    /// Horizontal scroll offset in pixels.
    pub pan_x: u32,
    pub toc: Vec<TocEntry>,
    pub input_mode: InputMode,
    pub search_term: Option<String>,
    pub pending_search_jump_from: Option<usize>,
    pub auto_crop: bool,
    pub tinted: bool,
    pub inverted: bool,
    /// Rotation in degrees (0, 90, 180, 270), tracked for state persistence.
    pub rotation: u16,
    pub metadata: Vec<(String, String)>,
    pub document_kind: DocumentKind,
    pub epub_font_size: Option<Real32>,
    /// Images that the terminal is to forget.
    pub pending_image_deletes: Vec<ImageId>,
}

/// An [`App`], mathematically.
#[verifier::ext_equal]
pub struct AppView {
    pub page: usize,
    pub n_pages: usize,
    pub msg: StatusMsg,
    pub rendered: Seq<RenderedPageInfo>,
    pub needs_redraw: bool,
    pub scroll_offset: u32,
    pub zoom_mode: bool,
    pub zoom_level: i16,
    pub pan_x: u32,
    pub toc: Seq<TocEntry>,
    pub input_mode: InputMode,
    pub search_term: Option<String>,
    pub pending_search_jump_from: Option<usize>,
    pub auto_crop: bool,
    pub tinted: bool,
    pub inverted: bool,
    pub rotation: u16,
    pub metadata: Seq<(String, String)>,
    pub document_kind: DocumentKind,
    pub epub_font_size: Option<Real32>,
    pub deletes: Seq<ImageId>,
}

impl View for App {
    type V = AppView;

    open spec fn view(&self) -> AppView {
        AppView {
            page: self.page,
            n_pages: self.n_pages,
            msg: self.msg,
            rendered: self.rendered@,
            needs_redraw: self.needs_redraw,
            scroll_offset: self.scroll_offset,
            zoom_mode: self.zoom_mode,
            zoom_level: self.zoom_level,
            pan_x: self.pan_x,
            toc: self.toc@,
            input_mode: self.input_mode,
            search_term: self.search_term,
            pending_search_jump_from: self.pending_search_jump_from,
            auto_crop: self.auto_crop,
            tinted: self.tinted,
            inverted: self.inverted,
            rotation: self.rotation,
            metadata: self.metadata@,
            document_kind: self.document_kind,
            epub_font_size: self.epub_font_size,
            deletes: self.pending_image_deletes@,
        }
    }
}

/// A page without its image.
pub open spec fn emptied(info: RenderedPageInfo) -> RenderedPageInfo {
    RenderedPageInfo { converted: None, ..info }
}

/// What the terminal is to forget when a page gives up its image: the image,
/// if it has been sent.
pub open spec fn sent_image(info: RenderedPageInfo) -> Seq<ImageId> {
    match info.converted {
        Some(ConvertedPage { img: MaybeTransferred::Transferred(id), .. }) => seq![id],
        _ => Seq::empty(),
    }
}

/// The images that the terminal is to forget when all pages but these give
/// theirs up, in the order of the pages.
pub open spec fn sent_images(rendered: Seq<RenderedPageInfo>, keep: Set<usize>) -> Seq<ImageId>
    decreases rendered.len(),
{
    if rendered.len() == 0 {
        Seq::empty()
    } else {
        let before = sent_images(rendered.drop_last(), keep);
        if keep.contains((rendered.len() - 1) as usize) {
            before
        } else {
            before + sent_image(rendered.last())
        }
    }
}

/// The sizes of the images at hand, by page.
pub open spec fn cached_sizes(rendered: Seq<RenderedPageInfo>) -> Map<usize, nat> {
    Map::new(
        |k: usize| k < rendered.len() && rendered[k as int].converted is Some,
        |k: usize|
            image_bytes(
                rendered[k as int].converted->0.pixel_w,
                rendered[k as int].converted->0.pixel_h,
            ),
    )
}

impl AppView {
    /// All pages but these give up their images.
    pub open spec fn only(self, keep: Set<usize>) -> AppView {
        AppView {
            rendered: Seq::new(
                self.rendered.len(),
                |i: int|
                    if keep.contains(i as usize) {
                        self.rendered[i]
                    } else {
                        emptied(self.rendered[i])
                    },
            ),
            deletes: self.deletes + sent_images(self.rendered, keep),
            ..self
        }
    }

    /// Pages give up their images until the rest fits in memory, those far
    /// from the shown page first.
    pub open spec fn pruned(self) -> AppView {
        self.only(resident(cached_sizes(self.rendered), self.page).pages)
    }
}

/// The page has search results.
pub open spec fn has_results(rendered: Seq<RenderedPageInfo>, p: int) -> bool {
    0 <= p < rendered.len() && match rendered[p].num_results {
        Some(n) => n > 0,
        None => false,
    }
}

/// It is not known whether the page has search results.
pub open spec fn results_unknown(rendered: Seq<RenderedPageInfo>, p: int) -> bool {
    0 <= p < rendered.len() ==> rendered[p].num_results is None
}

/// The first page with search results of those `i`, `i + 1` and so on, up to
/// `n - 1`, pages after `from`, counting on from the last page to the first.
pub open spec fn hit_after(rendered: Seq<RenderedPageInfo>, from: int, n: int, i: int) -> Option<
    usize,
>
    decreases n - i,
{
    if i >= n {
        None
    } else if has_results(rendered, (from + i) % n) {
        Some(((from + i) % n) as usize)
    } else {
        hit_after(rendered, from, n, i + 1)
    }
}

/// The same backward.
pub open spec fn hit_before(rendered: Seq<RenderedPageInfo>, from: int, n: int, i: int) -> Option<
    usize,
>
    decreases n - i,
{
    if i >= n {
        None
    } else if has_results(rendered, (from + n - i) % n) {
        Some(((from + n - i) % n) as usize)
    } else {
        hit_before(rendered, from, n, i + 1)
    }
}

/// The page to jump to, of those `i`, `i + 1` and so on, up to `n`, pages
/// after `from`: the first with results, once all before it are known to have
/// none.
pub open spec fn jump_after(rendered: Seq<RenderedPageInfo>, from: int, n: int, i: int) ->
    SearchJumpResolution
    decreases n + 1 - i,
{
    if i > n {
        SearchJumpResolution::NoResult
    } else if has_results(rendered, (from + i) % n) {
        SearchJumpResolution::Found(((from + i) % n) as usize)
    } else if results_unknown(rendered, (from + i) % n) {
        SearchJumpResolution::Pending
    } else {
        jump_after(rendered, from, n, i + 1)
    }
}

impl AppView {
    /// The page, or the last one if there is no such page.
    pub open spec fn clamped(self, page: int) -> int {
        least(page, excess(self.n_pages as int, 1))
    }

    /// Another page is shown, from its top left corner. Nothing changes if it
    /// is the shown one.
    pub open spec fn at_page(self, page: int) -> AppView {
        if self.clamped(page) == self.page {
            self
        } else {
            AppView {
                needs_redraw: true,
                ..(AppView {
                    page: self.clamped(page) as usize,
                    scroll_offset: 0,
                    pan_x: 0,
                    ..self
                }).pruned()
            }
        }
    }

    /// Pixel height of the shown page; none, if its image is not there.
    pub open spec fn pixel_h(self) -> u32 {
        if self.page < self.rendered.len() && self.rendered[self.page as int].converted is Some {
            self.rendered[self.page as int].converted->0.pixel_h
        } else {
            0
        }
    }

    /// Pixel width of the shown page; none, if its image is not there.
    pub open spec fn pixel_w(self) -> u32 {
        if self.page < self.rendered.len() && self.rendered[self.page as int].converted is Some {
            self.rendered[self.page as int].converted->0.pixel_w
        } else {
            0
        }
    }

    /// How far the shown page can be scrolled.
    pub open spec fn scroll_range(self, ws: WindowSize) -> int {
        excess(self.pixel_h() as int, ws.page_height() as int)
    }

    /// How far the shown page can be moved sideways.
    pub open spec fn pan_range(self, ws: WindowSize) -> int {
        excess(self.pixel_w() as int, ws.width_px as int)
    }

    /// Scrolling down: on to the next page where all of the page is visible;
    /// at its bottom, only the wish to turn. Nothing at all where there is no
    /// page to turn to.
    pub open spec fn scrolled_down(self, ws: WindowSize, step_px: u32) -> (AppView, ScrollAction) {
        let range = self.scroll_range(ws);
        if range == 0 {
            let next = self.at_page(self.page + 1);
            (
                next,
                if next.page == self.page {
                    ScrollAction::Nothing
                } else {
                    ScrollAction::TurnNext
                },
            )
        } else if self.scroll_offset >= range {
            (
                self,
                if self.clamped(self.page + 1) == self.page {
                    ScrollAction::Nothing
                } else {
                    ScrollAction::TurnNext
                },
            )
        } else {
            (
                AppView {
                    scroll_offset: least(self.scroll_offset + step_px, range) as u32,
                    needs_redraw: true,
                    ..self
                },
                ScrollAction::Scrolled,
            )
        }
    }

    /// Scrolling up, in the same way.
    pub open spec fn scrolled_up(self, ws: WindowSize, step_px: u32) -> (AppView, ScrollAction) {
        if self.scroll_range(ws) == 0 {
            let prev = self.at_page(excess(self.page as int, 1));
            (
                prev,
                if prev.page == self.page {
                    ScrollAction::Nothing
                } else {
                    ScrollAction::TurnPrev
                },
            )
        } else if self.scroll_offset == 0 {
            (
                self,
                if self.clamped(excess(self.page as int, 1)) == self.page {
                    ScrollAction::Nothing
                } else {
                    ScrollAction::TurnPrev
                },
            )
        } else {
            (
                AppView {
                    scroll_offset: excess(self.scroll_offset as int, step_px as int) as u32,
                    needs_redraw: true,
                    ..self
                },
                ScrollAction::Scrolled,
            )
        }
    }

    /// Zoomed in by one step, as far as that goes.
    pub open spec fn zoomed_in(self) -> AppView {
        if self.zoom_level < MAX_ZOOM_LEVEL {
            AppView { zoom_level: (self.zoom_level + 1) as i16, needs_redraw: true, ..self }
        } else {
            self
        }
    }

    /// Zoomed out by one step, as far as that goes.
    pub open spec fn zoomed_out(self) -> AppView {
        if self.zoom_level > 0 {
            AppView { zoom_level: (self.zoom_level - 1) as i16, needs_redraw: true, ..self }
        } else {
            self
        }
    }

    /// In zoom mode, or out of it with everything as it was before any zoom.
    pub open spec fn zoom_toggled(self) -> AppView {
        if self.zoom_mode {
            AppView {
                zoom_mode: false,
                zoom_level: 0,
                pan_x: 0,
                scroll_offset: 0,
                needs_redraw: true,
                ..self
            }
        } else {
            AppView { zoom_mode: true, needs_redraw: true, ..self }
        }
    }

    /// Moved to the right, as far as the page goes.
    pub open spec fn panned_right(self, ws: WindowSize, step_px: u32) -> AppView {
        if self.pan_x < self.pan_range(ws) {
            AppView {
                pan_x: least(self.pan_x + step_px, self.pan_range(ws)) as u32,
                needs_redraw: true,
                ..self
            }
        } else {
            self
        }
    }

    /// Moved to the left, as far as the page goes.
    pub open spec fn panned_left(self, step_px: u32) -> AppView {
        if self.pan_x > 0 {
            AppView {
                pan_x: excess(self.pan_x as int, step_px as int) as u32,
                needs_redraw: true,
                ..self
            }
        } else {
            self
        }
    }

    /// On the previous page, at its bottom; unchanged on the first page.
    pub open spec fn at_previous_bottom(self, ws: WindowSize) -> AppView {
        let prev = self.at_page(excess(self.page as int, 1));
        if prev.page != self.page {
            AppView { scroll_offset: prev.scroll_range(ws) as u32, ..prev }
        } else {
            prev
        }
    }

    /// The page that a search jump goes to is shown, if there is one.
    pub open spec fn at_hit(self, hit: Option<usize>) -> AppView {
        match hit {
            Some(page) if self.search_term is Some => self.at_page(page as int),
            _ => self,
        }
    }
}

/// A screenful but one line; at least one pixel.
pub open spec fn viewport_step(ws: WindowSize) -> int {
    if ws.page_height() <= ws.cell_height_px {
        1
    } else {
        ws.page_height() - ws.cell_height_px
    }
}

/// Takes a page's image away; the terminal is to forget it, if it was sent.
/// Tells whether there was one.
fn take_converted_for_delete(
    slot: &mut Option<ConvertedPage>,
    pending_image_deletes: &mut Vec<ImageId>,
) -> (taken: bool)
    ensures
        taken == (*old(slot) is Some),
        *final(slot) is None,
        final(pending_image_deletes)@ == old(pending_image_deletes)@ + sent_image(
            RenderedPageInfo { converted: *old(slot), num_results: None },
        ),
{
    match slot.take() {
        None => {
            proof {
                assert(pending_image_deletes@ =~= pending_image_deletes@ + Seq::empty());
            }
            false
        },
        Some(converted) => {
            if let MaybeTransferred::Transferred(image_id) = converted.img {
                pending_image_deletes.push(image_id);
            }
            true
        },
    }
}

impl App {
    pub fn new() -> (app: Self)
        ensures
            app@ == (AppView {
                page: 0,
                n_pages: 0,
                msg: StatusMsg::Hint,
                rendered: Seq::empty(),
                needs_redraw: false,
                scroll_offset: 0,
                zoom_mode: false,
                zoom_level: 0,
                pan_x: 0,
                toc: Seq::empty(),
                input_mode: InputMode::Normal,
                search_term: None,
                pending_search_jump_from: None,
                auto_crop: false,
                tinted: false,
                inverted: false,
                rotation: 0,
                metadata: Seq::empty(),
                document_kind: DocumentKind::Fixed,
                epub_font_size: None,
                deletes: Seq::empty(),
            }),
    {
        App {
            page: 0,
            n_pages: 0,
            msg: StatusMsg::Hint,
            rendered: Vec::new(),
            needs_redraw: false,
            scroll_offset: 0,
            zoom_mode: false,
            zoom_level: 0,
            pan_x: 0,
            toc: Vec::new(),
            input_mode: InputMode::Normal,
            search_term: None,
            pending_search_jump_from: None,
            auto_crop: false,
            tinted: false,
            inverted: false,
            rotation: 0,
            metadata: Vec::new(),
            document_kind: DocumentKind::Fixed,
            epub_font_size: None,
            pending_image_deletes: Vec::new(),
        }
    }

    /// Takes the images of all pages but these away.
    fn keep_only(&mut self, keep: &HashSet<usize>)
        ensures
            final(self)@ == old(self)@.only(keep@),
    {
        let ghost before = self@;
        let n: usize = self.rendered.len();
        let mut i: usize = 0;
        proof {
            assert(before.deletes =~= before.deletes + sent_images(
                before.rendered.take(0),
                keep@,
            ));
        }
        while i < n
            invariant
                i <= n == self.rendered@.len() == before.rendered.len(),
                self@ == (AppView { rendered: self@.rendered, deletes: self@.deletes, ..before }),
                self@.deletes == before.deletes + sent_images(
                    before.rendered.take(i as int),
                    keep@,
                ),
                forall|k: int|
                    0 <= k < i ==> #[trigger] self@.rendered[k] == before.only(keep@).rendered[k],
                forall|k: int|
                    i <= k < n ==> #[trigger] self@.rendered[k] == before.rendered[k],
            decreases n - i,
        {
            let ghost done = before.rendered.take(i + 1);
            proof {
                assert(done.drop_last() =~= before.rendered.take(i as int));
                assert(done.last() == before.rendered[i as int]);
            }
            let ghost pending = self@.deletes;
            if !keep.contains(&i) {
                take_converted_for_delete(
                    &mut self.rendered[i].converted,
                    &mut self.pending_image_deletes,
                );
                assert(self@.deletes =~= before.deletes + sent_images(done, keep@));
            }
            i += 1;
        }
        proof {
            assert(before.rendered.take(n as int) =~= before.rendered);
        }
    }

    /// Invalidate all cached converted pages (e.g. after area/zoom change).
    pub fn invalidate_all_pages(&mut self)
        ensures
            final(self)@ == (AppView {
                needs_redraw: true,
                ..old(self)@.only(Set::empty())
            }),
    {
        let none: HashSet<usize> = HashSet::new();
        self.keep_only(&none);
        self.needs_redraw = true;
    }

    /// The images at hand, and their sizes.
    fn list_cached(&self) -> (entries: Vec<(usize, u128)>)
        ensures
            lists(entries@, cached_sizes(self@.rendered)),
            forall|i: int|
                0 <= i < entries@.len() ==> (#[trigger] entries@[i]).1 <= u128::MAX
                    - MAX_RESIDENT_BYTES,
    {
        let mut entries: Vec<(usize, u128)> = Vec::new();
        let ghost sizes = cached_sizes(self@.rendered);
        let mut k: usize = 0;
        while k < self.rendered.len()
            invariant
                k <= self.rendered@.len(),
                sizes == cached_sizes(self.rendered@),
                distinct_pages(entries@),
                forall|i: int|
                    0 <= i < entries@.len() ==> (#[trigger] entries@[i]).0 < k
                        && sizes.contains_key(entries@[i].0) && sizes[entries@[i].0]
                        == entries@[i].1 && entries@[i].1 <= u128::MAX - MAX_RESIDENT_BYTES,
                forall|p: usize|
                    p < k && sizes.contains_key(p) ==> exists|i: int|
                        0 <= i < entries@.len() && (#[trigger] entries@[i]).0 == p,
            decreases self.rendered@.len() - k,
        {
            let ghost before = entries@;
            if let Some(converted) = &self.rendered[k].converted {
                let bytes: u128 = image_byte_count(converted.pixel_w, converted.pixel_h);
                entries.push((k, bytes));
            }
            proof {
                assert forall|p: usize| p < k + 1 && sizes.contains_key(p) implies exists|i: int|
                    0 <= i < entries@.len() && (#[trigger] entries@[i]).0 == p by {
                    if p < k {
                        let i = choose|i: int|
                            0 <= i < before.len() && (#[trigger] before[i]).0 == p;
                        assert(entries@[i] == before[i]);
                    } else {
                        assert(entries@[before.len() as int].0 == k);
                    }
                }
            }
            k += 1;
        }
        entries
    }

    /// Takes images away until the rest fits in memory.
    fn prune_converted_pages(&mut self)
        ensures
            final(self)@ == old(self)@.pruned(),
    {
        let entries = self.list_cached();
        let keep = resident_pages(&entries, self.page);
        self.keep_only(&keep);
    }

    /// Called when the renderer reports the total page count.
    pub fn set_n_pages(&mut self, n: usize)
        ensures
            final(self)@ == (AppView {
                rendered: Seq::new(
                    n as nat,
                    |i: int| RenderedPageInfo { converted: None, num_results: None },
                ),
                n_pages: n,
                page: least(old(self).page as int, excess(n as int, 1)) as usize,
                ..old(self)@
            }),
    {
        fill_default(&mut self.rendered, n);
        self.n_pages = n;
        let last: usize = n.saturating_sub(1);
        if self.page > last {
            self.page = last;
        }
    }

    pub fn set_document_kind(&mut self, kind: DocumentKind)
        ensures
            final(self)@ == if kind is Fixed {
                AppView {
                    document_kind: kind,
                    epub_font_size: None,
                    needs_redraw: true,
                    ..old(self)@
                }
            } else if old(self).zoom_mode {
                AppView {
                    document_kind: kind,
                    zoom_mode: false,
                    zoom_level: 0,
                    pan_x: 0,
                    scroll_offset: 0,
                    needs_redraw: true,
                    ..old(self)@
                }
            } else {
                AppView { document_kind: kind, needs_redraw: true, ..old(self)@ }
            },
    {
        self.document_kind = kind;
        match kind {
            DocumentKind::Fixed => {
                self.epub_font_size = None;
            },
            DocumentKind::Reflowable => {
                if self.zoom_mode {
                    self.zoom_mode = false;
                    self.zoom_level = 0;
                    self.pan_x = 0;
                    self.scroll_offset = 0;
                }
            },
        }
        self.needs_redraw = true;
    }

    pub fn supports_zoom(&self) -> (yes: bool)
        ensures
            yes == (self.document_kind is Fixed),
    {
        match self.document_kind {
            DocumentKind::Fixed => true,
            DocumentKind::Reflowable => false,
        }
    }

    pub fn set_epub_font_size(&mut self, size: Real32)
        ensures
            final(self)@ == (AppView { epub_font_size: Some(size), ..old(self)@ }),
    {
        self.epub_font_size = Some(size);
    }

    /// Called when the renderer reports search result counts for a page.
    pub fn got_search_results(&mut self, page_num: usize, num_results: usize)
        ensures
            final(self)@ == if page_num < old(self)@.rendered.len() {
                AppView {
                    rendered: old(self)@.rendered.update(
                        page_num as int,
                        RenderedPageInfo {
                            num_results: Some(num_results),
                            ..old(self)@.rendered[page_num as int]
                        },
                    ),
                    ..old(self)@
                }
            } else {
                old(self)@
            },
    {
        if page_num < self.rendered.len() {
            self.rendered[page_num].num_results = Some(num_results);
        }
    }

    /// Called when the image pipeline produces a display-ready image.
    pub fn page_converted(&mut self, converted: ConvertedPage)
        ensures
            final(self)@ == if converted.page_num < old(self)@.rendered.len() {
                AppView {
                    needs_redraw: old(self).needs_redraw || converted.page_num == old(self).page,
                    ..(AppView {
                        rendered: old(self)@.rendered.update(
                            converted.page_num as int,
                            RenderedPageInfo {
                                num_results: Some(converted.num_results),
                                converted: Some(converted),
                            },
                        ),
                        ..old(self)@
                    }).pruned()
                }
            } else {
                old(self)@
            },
    {
        let page_num: usize = converted.page_num;
        let ghost shown = RenderedPageInfo {
            num_results: Some(converted.num_results),
            converted: Some(converted),
        };
        if page_num < self.rendered.len() {
            self.rendered[page_num].num_results = Some(converted.num_results);
            self.rendered[page_num].converted = Some(converted);
            proof {
                assert(self@.rendered =~= old(self)@.rendered.update(page_num as int, shown));
            }
            self.prune_converted_pages();
            if page_num == self.page {
                self.needs_redraw = true;
            }
        }
    }

    /// Mark a page's image as gone (e.g. Kitty evicted it under memory pressure).
    pub fn page_display_failed(&mut self, page_num: usize)
        ensures
            final(self)@ == if page_num < old(self)@.rendered.len() {
                AppView {
                    rendered: old(self)@.rendered.update(
                        page_num as int,
                        emptied(old(self)@.rendered[page_num as int]),
                    ),
                    deletes: old(self)@.deletes + sent_image(
                        old(self)@.rendered[page_num as int],
                    ),
                    ..old(self)@
                }
            } else {
                old(self)@
            },
    {
        if page_num < self.rendered.len() {
            take_converted_for_delete(
                &mut self.rendered[page_num].converted,
                &mut self.pending_image_deletes,
            );
        }
    }

    /// Show a render error, given in words, in the status bar.
    pub fn show_render_error(&mut self, err: String)
        ensures
            final(self)@ == (AppView { msg: StatusMsg::Error(err), ..old(self)@ }),
    {
        self.msg = StatusMsg::Error(err);
    }

    pub fn show_info(&mut self, s: String)
        ensures
            final(self)@ == (AppView { msg: StatusMsg::Info(s), ..old(self)@ }),
    {
        self.msg = StatusMsg::Info(s);
    }

    /// The page, or the last one if there is no such page.
    fn clamp_page(&self, page: usize) -> (clamped: usize)
        ensures
            clamped == self@.clamped(page as int),
    {
        let last: usize = self.n_pages.saturating_sub(1);
        if page < last {
            page
        } else {
            last
        }
    }

    /// Navigate to a page, returning `true` if the page actually changed.
    pub fn go_to_page(&mut self, new_page: usize) -> (changed: bool)
        ensures
            final(self)@ == old(self)@.at_page(new_page as int),
            changed == (old(self)@.clamped(new_page as int) != old(self).page),
    {
        let clamped: usize = self.clamp_page(new_page);
        if clamped != self.page {
            self.page = clamped;
            self.scroll_offset = 0;
            self.pan_x = 0;
            self.prune_converted_pages();
            self.needs_redraw = true;
            true
        } else {
            false
        }
    }

    /// Go to next page, scroll offset reset to 0 (top).
    pub fn next_page(&mut self) -> (changed: bool)
        ensures
            final(self)@ == old(self)@.at_page(old(self).page + 1),
            changed == (old(self)@.clamped(old(self).page + 1) != old(self).page),
    {
        let next: usize = self.page.saturating_add(1);
        self.go_to_page(next)
    }

    /// Go to previous page, scroll offset set to max (bottom) so up-scroll
    /// at boundary feels natural.
    pub fn prev_page_at_bottom(&mut self, ws: &WindowSize) -> (changed: bool)
        ensures
            changed == (old(self)@.clamped(excess(old(self).page as int, 1)) != old(self).page),
            final(self)@ == old(self)@.at_previous_bottom(*ws),
    {
        let new_page: usize = self.page.saturating_sub(1);
        if self.go_to_page(new_page) {
            self.scroll_offset = self.max_scroll(ws);
            true
        } else {
            false
        }
    }

    /// Go to previous page, at its top.
    pub fn prev_page(&mut self) -> (changed: bool)
        ensures
            final(self)@ == old(self)@.at_page(excess(old(self).page as int, 1)),
            changed == (old(self)@.clamped(excess(old(self).page as int, 1)) != old(self).page),
    {
        let prev: usize = self.page.saturating_sub(1);
        self.go_to_page(prev)
    }

    /// Maximum scroll offset for the current page (0 if the page fits on screen).
    pub fn max_scroll(&self, ws: &WindowSize) -> (max: u32)
        ensures
            max == self@.scroll_range(*ws),
    {
        self.current_page_pixel_h().saturating_sub(ws.page_area_height_px())
    }

    /// Pixel height of the current page's rendered image.
    fn current_page_pixel_h(&self) -> (px: u32)
        ensures
            px == self@.pixel_h(),
    {
        if self.page < self.rendered.len() {
            match &self.rendered[self.page].converted {
                Some(converted) => converted.pixel_h,
                None => 0,
            }
        } else {
            0
        }
    }

    /// Pixel width of the current page's rendered image.
    fn current_page_pixel_w(&self) -> (px: u32)
        ensures
            px == self@.pixel_w(),
    {
        if self.page < self.rendered.len() {
            match &self.rendered[self.page].converted {
                Some(converted) => converted.pixel_w,
                None => 0,
            }
        } else {
            0
        }
    }

    /// Scroll down by `step_px` pixels. Returns what happened.
    pub fn scroll_down(&mut self, ws: &WindowSize, step_px: u32) -> (action: ScrollAction)
        ensures
            (final(self)@, action) == old(self)@.scrolled_down(*ws, step_px),
    {
        let max: u32 = self.max_scroll(ws);
        if max == 0 {
            if self.next_page() {
                return ScrollAction::TurnNext;
            }
            return ScrollAction::Nothing;
        }
        if self.scroll_offset >= max {
            if self.clamp_page(self.page.saturating_add(1)) == self.page {
                ScrollAction::Nothing
            } else {
                ScrollAction::TurnNext
            }
        } else {
            self.scroll_offset = if step_px < max - self.scroll_offset {
                self.scroll_offset + step_px
            } else {
                max
            };
            self.needs_redraw = true;
            ScrollAction::Scrolled
        }
    }

    /// Scroll up by `step_px` pixels. Returns what happened.
    pub fn scroll_up(&mut self, ws: &WindowSize, step_px: u32) -> (action: ScrollAction)
        ensures
            (final(self)@, action) == old(self)@.scrolled_up(*ws, step_px),
    {
        let max: u32 = self.max_scroll(ws);
        if max == 0 {
            if self.prev_page() {
                return ScrollAction::TurnPrev;
            }
            return ScrollAction::Nothing;
        }
        if self.scroll_offset == 0 {
            if self.clamp_page(self.page.saturating_sub(1)) == self.page {
                ScrollAction::Nothing
            } else {
                ScrollAction::TurnPrev
            }
        } else {
            self.scroll_offset = self.scroll_offset.saturating_sub(step_px);
            self.needs_redraw = true;
            ScrollAction::Scrolled
        }
    }

    /// A viewport-sized vertical step with a one-line overlap.
    pub fn viewport_page_scroll_step(ws: &WindowSize) -> (step: u32)
        ensures
            step == viewport_step(*ws),
    {
        let step: u32 = ws.page_area_height_px().saturating_sub(ws.cell_height_px as u32);
        if step < 1 {
            1
        } else {
            step
        }
    }

    /// Move down by one viewport in zoom mode, keeping one line of overlap.
    pub fn page_down_in_zoom(&mut self, ws: &WindowSize) -> (action: ScrollAction)
        ensures
            (final(self)@, action) == old(self)@.scrolled_down(*ws, viewport_step(*ws) as u32),
    {
        self.scroll_down(ws, Self::viewport_page_scroll_step(ws))
    }

    /// Move up by one viewport in zoom mode, keeping one line of overlap.
    pub fn page_up_in_zoom(&mut self, ws: &WindowSize) -> (action: ScrollAction)
        ensures
            (final(self)@, action) == old(self)@.scrolled_up(*ws, viewport_step(*ws) as u32),
    {
        self.scroll_up(ws, Self::viewport_page_scroll_step(ws))
    }

    /// Enter zoom mode, or leave it; leaving it resets the zoom.
    pub fn toggle_zoom_mode(&mut self)
        ensures
            final(self)@ == old(self)@.zoom_toggled(),
    {
        self.zoom_mode = !self.zoom_mode;
        if !self.zoom_mode {
            self.zoom_level = 0;
            self.pan_x = 0;
            self.scroll_offset = 0;
        }
        self.needs_redraw = true;
    }

    pub fn zoom_in(&mut self) -> (changed: bool)
        ensures
            changed == (old(self).zoom_level < MAX_ZOOM_LEVEL),
            final(self)@ == old(self)@.zoomed_in(),
    {
        if self.zoom_level < MAX_ZOOM_LEVEL {
            self.zoom_level += 1;
            self.needs_redraw = true;
            true
        } else {
            false
        }
    }

    pub fn zoom_out(&mut self) -> (changed: bool)
        ensures
            changed == (old(self).zoom_level > 0),
            final(self)@ == old(self)@.zoomed_out(),
    {
        if self.zoom_level > 0 {
            self.zoom_level -= 1;
            self.needs_redraw = true;
            true
        } else {
            false
        }
    }

    /// Maximum horizontal pan offset (0 if image fits horizontally).
    pub fn max_pan_x(&self, ws: &WindowSize) -> (max: u32)
        ensures
            max == self@.pan_range(*ws),
    {
        self.current_page_pixel_w().saturating_sub(ws.width_px as u32)
    }

    /// Pan right by `step_px` pixels.
    pub fn pan_right(&mut self, ws: &WindowSize, step_px: u32)
        ensures
            final(self)@ == old(self)@.panned_right(*ws, step_px),
    {
        let max: u32 = self.max_pan_x(ws);
        if self.pan_x < max {
            self.pan_x = if step_px < max - self.pan_x {
                self.pan_x + step_px
            } else {
                max
            };
            self.needs_redraw = true;
        }
    }

    /// Pan left by `step_px` pixels.
    pub fn pan_left(&mut self, _ws: &WindowSize, step_px: u32)
        ensures
            final(self)@ == old(self)@.panned_left(step_px),
    {
        if self.pan_x > 0 {
            self.pan_x = self.pan_x.saturating_sub(step_px);
            self.needs_redraw = true;
        }
    }

    /// Whether the page has search results; `None` if that is not known.
    fn known_results(&self, page: usize) -> (known: Option<bool>)
        ensures
            known is None <==> results_unknown(self@.rendered, page as int),
            known matches Some(some) ==> some == has_results(self@.rendered, page as int),
    {
        if page < self.rendered.len() {
            match self.rendered[page].num_results {
                Some(n) => Some(n > 0),
                None => None,
            }
        } else {
            None
        }
    }

    /// Find next page with search results (forward from current page).
    pub fn next_search_result(&mut self) -> (changed: bool)
        ensures
            final(self)@ == old(self)@.at_hit(
                hit_after(old(self)@.rendered, old(self).page as int, old(self).n_pages as int, 1),
            ),
            changed == (final(self).page != old(self).page),
    {
        if self.search_term.is_none() {
            return false;
        }
        let n: usize = self.n_pages;
        let mut i: usize = 1;
        while i < n
            invariant
                1 <= i,
                *self == *old(self),
                n == self.n_pages,
                self.search_term is Some,
                hit_after(self@.rendered, self.page as int, n as int, 1) == hit_after(
                    self@.rendered,
                    self.page as int,
                    n as int,
                    i as int,
                ),
            decreases n - i,
        {
            let page: usize = ((self.page as u128 + i as u128) % (n as u128)) as usize;
            if let Some(true) = self.known_results(page) {
                return self.go_to_page(page);
            }
            i += 1;
        }
        false
    }

    /// Find previous page with search results (backward from current page).
    pub fn prev_search_result(&mut self) -> (changed: bool)
        ensures
            final(self)@ == old(self)@.at_hit(
                hit_before(old(self)@.rendered, old(self).page as int, old(self).n_pages as int, 1),
            ),
            changed == (final(self).page != old(self).page),
    {
        if self.search_term.is_none() {
            return false;
        }
        let n: usize = self.n_pages;
        let mut i: usize = 1;
        while i < n
            invariant
                1 <= i,
                *self == *old(self),
                n == self.n_pages,
                self.search_term is Some,
                hit_before(self@.rendered, self.page as int, n as int, 1) == hit_before(
                    self@.rendered,
                    self.page as int,
                    n as int,
                    i as int,
                ),
            decreases n - i,
        {
            let page: usize = ((self.page as u128 + n as u128 - i as u128) % (n as u128)) as usize;
            if let Some(true) = self.known_results(page) {
                return self.go_to_page(page);
            }
            i += 1;
        }
        false
    }

    pub fn clear_search_results(&mut self)
        ensures
            final(self)@ == (AppView {
                rendered: old(self)@.rendered.map_values(
                    |info: RenderedPageInfo| RenderedPageInfo { num_results: None, ..info },
                ),
                ..old(self)@
            }),
    {
        let ghost before = self@.rendered;
        let mut i: usize = 0;
        while i < self.rendered.len()
            invariant
                i <= self.rendered@.len() == before.len(),
                self@ == (AppView { rendered: self@.rendered, ..old(self)@ }),
                forall|k: int|
                    0 <= k < i ==> #[trigger] self@.rendered[k] == (RenderedPageInfo {
                        num_results: None,
                        ..before[k]
                    }),
                forall|k: int| i <= k < before.len() ==> #[trigger] self@.rendered[k] == before[k],
            decreases self.rendered@.len() - i,
        {
            self.rendered[i].num_results = None;
            i += 1;
        }
    }

    /// The page that a search from `from_page` jumps to, as far as it is known.
    pub fn resolve_next_search_page(&self, from_page: usize) -> (found: SearchJumpResolution)
        ensures
            found == if self.n_pages == 0 {
                SearchJumpResolution::NoResult
            } else {
                jump_after(self@.rendered, from_page as int, self.n_pages as int, 1)
            },
    {
        let n: usize = self.n_pages;
        if n == 0 {
            return SearchJumpResolution::NoResult;
        }
        let mut i: usize = 0;
        while i < n
            invariant
                i <= n,
                n == self.n_pages,
                jump_after(self@.rendered, from_page as int, n as int, 1) == jump_after(
                    self@.rendered,
                    from_page as int,
                    n as int,
                    i + 1,
                ),
            decreases n - i,
        {
            let page: usize = ((from_page as u128 + i as u128 + 1) % (n as u128)) as usize;
            match self.known_results(page) {
                Some(true) => {
                    return SearchJumpResolution::Found(page);
                },
                Some(false) => {},
                None => {
                    return SearchJumpResolution::Pending;
                },
            }
            i += 1;
        }
        SearchJumpResolution::NoResult
    }
}

/// Whatever page is asked for, the page that is shown exists.
pub proof fn law_shown_page_exists(s: AppView, page: int)
    requires
        s.page < s.n_pages,
        0 <= page,
    ensures
        s.at_page(page).page < s.n_pages,
        s.at_page(page).n_pages == s.n_pages,
        page < s.n_pages ==> s.at_page(page).page == page,
{
}

/// Turning to the next page and back shows the same page, from its top left
/// corner.
pub proof fn law_turn_and_back(s: AppView)
    requires
        s.page + 1 < s.n_pages,
    ensures
        s.at_page(s.page + 1).page == s.page + 1,
        s.at_page(s.page + 1).at_page(s.page as int).page == s.page,
        s.at_page(s.page + 1).at_page(s.page as int).scroll_offset == 0,
        s.at_page(s.page + 1).at_page(s.page as int).pan_x == 0,
{
}

/// Scrolling, turning and zooming never scroll past the bottom of the page.
pub proof fn law_scroll_stays_on_page(s: AppView, ws: WindowSize, step_px: u32, page: int)
    requires
        s.scroll_offset <= s.scroll_range(ws),
        0 <= page,
    ensures
        s.scrolled_down(ws, step_px).0.scroll_offset <= s.scrolled_down(
            ws,
            step_px,
        ).0.scroll_range(ws),
        s.scrolled_up(ws, step_px).0.scroll_offset <= s.scrolled_up(ws, step_px).0.scroll_range(ws),
        s.at_page(page).scroll_offset <= s.at_page(page).scroll_range(ws),
        s.at_previous_bottom(ws).scroll_offset <= s.at_previous_bottom(ws).scroll_range(ws),
        s.zoom_toggled().scroll_offset <= s.zoom_toggled().scroll_range(ws),
{
}

/// Going back to the bottom of the previous page shows that page as far down as
/// it can be scrolled.
pub proof fn law_previous_page_at_bottom(s: AppView, ws: WindowSize)
    requires
        0 < s.page < s.n_pages,
    ensures
        s.at_previous_bottom(ws).page == s.page - 1,
        s.at_previous_bottom(ws).scroll_offset == s.at_previous_bottom(ws).scroll_range(ws),
{
}

/// A page that fits on the screen is turned, not scrolled; one that does not
/// is scrolled until its end is reached, and only then is to be turned. Where
/// there is no page to turn to, nothing happens.
pub proof fn law_scroll_or_turn(s: AppView, ws: WindowSize, step_px: u32)
    requires
        s.page < s.n_pages,
    ensures
        s.scroll_range(ws) == 0 && s.page + 1 < s.n_pages ==> s.scrolled_down(ws, step_px).0.page
            == s.page + 1 && s.scrolled_down(ws, step_px).1 == ScrollAction::TurnNext,
        s.scroll_range(ws) == 0 && 0 < s.page ==> s.scrolled_up(ws, step_px).0.page == s.page - 1
            && s.scrolled_up(ws, step_px).1 == ScrollAction::TurnPrev,
        s.scroll_offset >= s.scroll_range(ws) && s.page + 1 == s.n_pages ==> s.scrolled_down(
            ws,
            step_px,
        ) == (s, ScrollAction::Nothing),
        (s.scroll_range(ws) == 0 || s.scroll_offset == 0) && s.page == 0 ==> s.scrolled_up(
            ws,
            step_px,
        ) == (s, ScrollAction::Nothing),
        0 < s.scroll_range(ws) <= s.scroll_offset && s.page + 1 < s.n_pages ==> s.scrolled_down(
            ws,
            step_px,
        ) == (s, ScrollAction::TurnNext),
        s.scroll_range(ws) > 0 && s.scroll_offset == 0 && 0 < s.page ==> s.scrolled_up(ws, step_px)
            == (s, ScrollAction::TurnPrev),
        s.scroll_range(ws) > 0 ==> s.scrolled_down(ws, step_px).0.page == s.page && s.scrolled_up(
            ws,
            step_px,
        ).0.page == s.page,
        s.scroll_offset < s.scroll_range(ws) && step_px > 0 ==> s.scrolled_down(
            ws,
            step_px,
        ).0.scroll_offset > s.scroll_offset,
        s.scroll_range(ws) > 0 && s.scroll_offset > 0 && step_px > 0 ==> s.scrolled_up(
            ws,
            step_px,
        ).0.scroll_offset < s.scroll_offset,
{
}

/// Scrolling down and up again leads back, unless the bottom was met.
pub proof fn law_scroll_and_back(s: AppView, ws: WindowSize, step_px: u32)
    requires
        s.scroll_offset + step_px <= s.scroll_range(ws),
        s.scroll_offset < s.scroll_range(ws),
        step_px > 0,
    ensures
        s.scrolled_down(ws, step_px).0.scrolled_up(ws, step_px).0 == (AppView {
            needs_redraw: true,
            ..s
        }),
{
}

/// Panning never leaves the page.
pub proof fn law_pan_stays_on_page(s: AppView, ws: WindowSize, step_px: u32)
    requires
        s.pan_x <= s.pan_range(ws),
    ensures
        s.panned_right(ws, step_px).pan_x <= s.pan_range(ws),
        s.panned_left(step_px).pan_x <= s.pan_range(ws),
{
}

/// The zoom level stays between none and the greatest; a step in and a step
/// out lead back; leaving zoom mode resets zoom, pan and scroll.
pub proof fn law_zoom(s: AppView)
    requires
        0 <= s.zoom_level <= MAX_ZOOM_LEVEL,
    ensures
        0 <= s.zoomed_in().zoom_level <= MAX_ZOOM_LEVEL,
        0 <= s.zoomed_out().zoom_level <= MAX_ZOOM_LEVEL,
        s.zoom_level < MAX_ZOOM_LEVEL ==> s.zoomed_in().zoomed_out().zoom_level == s.zoom_level,
        s.zoom_mode ==> s.zoom_toggled().zoom_level == 0 && s.zoom_toggled().pan_x == 0
            && s.zoom_toggled().scroll_offset == 0,
{
}

/// The image of the shown page is never given up, and what is given up is
/// nothing but images.
pub proof fn law_shown_image_stays(s: AppView)
    requires
        s.page < s.rendered.len(),
    ensures
        s.pruned().rendered[s.page as int] == s.rendered[s.page as int],
        s.pruned().rendered.len() == s.rendered.len(),
        forall|i: int|
            0 <= i < s.rendered.len() ==> (#[trigger] s.pruned().rendered[i]).num_results
                == s.rendered[i].num_results,
{
    let sizes = cached_sizes(s.rendered);
    if s.rendered[s.page as int].converted is Some {
        law_shown_page_stays(sizes, s.page);
    }
}

/// The images that stay fit in memory, unless a single one does not.
pub proof fn law_images_fit_budget(s: AppView)
    requires
        s.rendered.len() <= usize::MAX,
    ensures
        cached_sizes(s.pruned().rendered).dom() == resident(
            cached_sizes(s.rendered),
            s.page,
        ).pages,
        total(cached_sizes(s.pruned().rendered), cached_sizes(s.pruned().rendered).dom())
            <= MAX_RESIDENT_BYTES || cached_sizes(s.pruned().rendered).dom().len() == 1,
{
    let sizes = cached_sizes(s.rendered);
    law_residents_fit_budget(sizes, s.page);
    assert(cached_sizes(s.pruned().rendered).dom() =~= resident(
        sizes,
        s.page,
    ).pages);
    lemma_part_fits_budget(sizes, s.page, cached_sizes(s.pruned().rendered));
}

/// An image that was sent and is given up is one that the terminal is told to
/// forget.
pub proof fn law_given_up_image_is_deleted(
    rendered: Seq<RenderedPageInfo>,
    keep: Set<usize>,
    page: usize,
    id: ImageId,
)
    requires
        page < rendered.len() <= usize::MAX,
        !keep.contains(page),
        sent_image(rendered[page as int]) == seq![id],
    ensures
        sent_images(rendered, keep).contains(id),
    decreases rendered.len(),
{
    let last = (rendered.len() - 1) as usize;
    let before = sent_images(rendered.drop_last(), keep);
    if page == last {
        let all = sent_images(rendered, keep);
        assert(all == before + seq![id]);
        assert(all[before.len() as int] == id);
    } else {
        law_given_up_image_is_deleted(rendered.drop_last(), keep, page, id);
        let k = choose|k: int| 0 <= k < before.len() && before[k] == id;
        assert(sent_images(rendered, keep)[k] == id);
    }
}

/// A jump to the next result goes to a page with results, and passes none on
/// its way; there is none to go to only if no other page has results.
pub proof fn law_next_hit_is_nearest(rendered: Seq<RenderedPageInfo>, from: int, n: int, i: int)
    requires
        0 <= from,
        0 < i,
        0 < n <= usize::MAX,
    ensures
        hit_after(rendered, from, n, i) matches Some(p) ==> p < n && has_results(
            rendered,
            p as int,
        ) && exists|k: int|
            i <= k < n && p == #[trigger] ((from + k) % n) && forall|j: int|
                i <= j < k ==> !has_results(rendered, #[trigger] ((from + j) % n)),
        hit_after(rendered, from, n, i) is None ==> forall|j: int|
            i <= j < n ==> !has_results(rendered, #[trigger] ((from + j) % n)),
    decreases n - i,
{
    if i < n {
        if has_results(rendered, (from + i) % n) {
            assert(0 <= (from + i) % n < n) by (nonlinear_arith)
                requires
                    0 < n,
            ;
            assert(hit_after(rendered, from, n, i) == Some(((from + i) % n) as usize));
        } else {
            law_next_hit_is_nearest(rendered, from, n, i + 1);
            if let Some(p) = hit_after(rendered, from, n, i) {
                let k = choose|k: int|
                    i + 1 <= k < n && p == #[trigger] ((from + k) % n) && forall|j: int|
                        i + 1 <= j < k ==> !has_results(rendered, #[trigger] ((from + j) % n));
                assert(i <= k < n && p == (from + k) % n);
            }
        }
    }
}

/// The same of a jump to the previous result.
pub proof fn law_previous_hit_is_nearest(
    rendered: Seq<RenderedPageInfo>,
    from: int,
    n: int,
    i: int,
)
    requires
        0 <= from,
        0 < i,
        0 < n <= usize::MAX,
    ensures
        hit_before(rendered, from, n, i) matches Some(p) ==> p < n && has_results(
            rendered,
            p as int,
        ) && exists|k: int|
            i <= k < n && p == #[trigger] ((from + n - k) % n) && forall|j: int|
                i <= j < k ==> !has_results(rendered, #[trigger] ((from + n - j) % n)),
        hit_before(rendered, from, n, i) is None ==> forall|j: int|
            i <= j < n ==> !has_results(rendered, #[trigger] ((from + n - j) % n)),
    decreases n - i,
{
    if i < n {
        if has_results(rendered, (from + n - i) % n) {
            assert(0 <= (from + n - i) % n < n) by (nonlinear_arith)
                requires
                    0 < n,
            ;
            assert(hit_before(rendered, from, n, i) == Some(((from + n - i) % n) as usize));
        } else {
            law_previous_hit_is_nearest(rendered, from, n, i + 1);
            if let Some(p) = hit_before(rendered, from, n, i) {
                let k = choose|k: int|
                    i + 1 <= k < n && p == #[trigger] ((from + n - k) % n) && forall|j: int|
                        i + 1 <= j < k ==> !has_results(rendered, #[trigger] ((from + n - j) % n));
                assert(i <= k < n && p == (from + n - k) % n);
            }
        }
    }
}

/// A search jump is resolved as soon as it is sure, and not before: to a page
/// with results when all pages before it are known to have none, to nothing
/// when no page has any. It stays open only for a page that may come first.
pub proof fn law_jump_is_sure(rendered: Seq<RenderedPageInfo>, from: int, n: int, i: int)
    requires
        0 <= from,
        0 < i <= n + 1,
        0 < n <= usize::MAX,
    ensures
        match jump_after(rendered, from, n, i) {
            SearchJumpResolution::Found(p) => p < n && has_results(rendered, p as int) && exists|
                k: int,
            |
                i <= k <= n && p == #[trigger] ((from + k) % n) && forall|j: int|
                    i <= j < k ==> !has_results(rendered, #[trigger] ((from + j) % n))
                        && !results_unknown(rendered, (from + j) % n),
            SearchJumpResolution::NoResult => forall|j: int|
                i <= j <= n ==> !has_results(rendered, #[trigger] ((from + j) % n))
                    && !results_unknown(rendered, (from + j) % n),
            SearchJumpResolution::Pending => exists|k: int|
                i <= k <= n && results_unknown(rendered, #[trigger] ((from + k) % n)) && forall|
                    j: int,
                |
                    i <= j < k ==> !has_results(rendered, #[trigger] ((from + j) % n))
                        && !results_unknown(rendered, (from + j) % n),
        },
    decreases n + 1 - i,
{
    if i <= n {
        assert(0 <= (from + i) % n < n) by (nonlinear_arith)
            requires
                0 < n,
        ;
        if has_results(rendered, (from + i) % n) {
            assert(jump_after(rendered, from, n, i) == SearchJumpResolution::Found(
                ((from + i) % n) as usize,
            ));
        } else if !results_unknown(rendered, (from + i) % n) {
            law_jump_is_sure(rendered, from, n, i + 1);
            match jump_after(rendered, from, n, i) {
                SearchJumpResolution::Found(p) => {
                    let k = choose|k: int|
                        i + 1 <= k <= n && p == #[trigger] ((from + k) % n) && forall|j: int|
                            i + 1 <= j < k ==> !has_results(
                                rendered,
                                #[trigger] ((from + j) % n),
                            ) && !results_unknown(rendered, (from + j) % n);
                    assert(i <= k <= n && p == (from + k) % n);
                },
                SearchJumpResolution::Pending => {
                    let k = choose|k: int|
                        i + 1 <= k <= n && results_unknown(rendered, #[trigger] ((from + k) % n))
                            && forall|j: int|
                            i + 1 <= j < k ==> !has_results(
                                rendered,
                                #[trigger] ((from + j) % n),
                            ) && !results_unknown(rendered, (from + j) % n);
                    assert(i <= k <= n && results_unknown(rendered, (from + k) % n));
                },
                SearchJumpResolution::NoResult => {},
            }
        }
    }
}

} // verus!
