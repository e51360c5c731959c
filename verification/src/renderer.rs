//! Rendered pages, and what is kept of them between two rounds of rendering.

use crate::arith::{window_end, window_start};
use crate::error::RenderError;
use crate::real32::Real32;
use crate::text::{decimal, push_decimal};
use std::collections::VecDeque;
use vstd::math::max;
use vstd::prelude::*;

verus! {

/// Black and white of a page that is not coloured.
pub const MUPDF_BLACK: i32 = 0;

pub const MUPDF_WHITE: i32 = 0x00ff_ffff;

/// Black and white of a page with the warm tint.
pub const TINT_BLACK: i32 = 0x0070_4214;

pub const TINT_WHITE: i32 = 0x00f5_e6c8;

/// The number of pages around the current one that are kept rendered.
pub const RENDER_WINDOW: usize = 24;

/// What the viewer tells the renderer.
#[derive(Debug)]
pub enum RenderNotif {
    /// The pixels available for a page have changed.
    Area { width_px: Real32, height_px: Real32 },
    /// Jump to a page, counted from zero.
    JumpToPage(usize),
    /// Render a page again whose image the terminal has dropped.
    PageNeedsReRender(usize),
    /// Search for a text; the empty text ends the search.
    Search(String),
    /// Rotate all pages by 90 degrees clockwise.
    Rotate,
    /// Swap black and white, or swap them back.
    Invert,
    /// Switch the warm tint on or off.
    Tint,
    /// Make the font of a reflowable document larger or smaller by this much.
    AdjustFontSize(i8),
    /// Set the font size of a reflowable document.
    SetFontSize(Real32),
    /// Render everything again.
    Refresh,
    /// Ask for the links on a page.
    GetLinks(usize),
}

#[derive(Debug, Clone, Copy, PartialEq, Eq, Structural)]
pub enum DocumentKind {
    /// Pages have a geometry of their own.
    Fixed,
    /// Text is laid out for the area at hand.
    Reflowable,
}

/// What the renderer tells the viewer.
pub enum RenderInfo {
    DocumentKind(DocumentKind),
    EpubFontSize(Real32),
    NumPages(usize),
    Page(PageInfo),
    SearchResults { page_num: usize, num_results: usize },
    Toc(Vec<TocEntry>),
    Metadata(Vec<(String, String)>),
    Links(Vec<LinkInfo>),
}

/// A link on a page.
pub struct LinkInfo {
    pub text: String,
    pub uri: String,
    pub page: Option<usize>,
}

/// An entry of the table of contents.
#[derive(Clone, Debug)]
pub struct TocEntry {
    pub title: String,
    pub page: usize,
    pub level: usize,
}

/// A highlighted region of a rendered page, in image pixels.
///
/// The region is open on all four sides: the pixels on the lines through its
/// two corners are not part of it.
#[derive(Clone, Debug)]
pub struct HighlightRect {
    pub ul_x: u32,
    pub ul_y: u32,
    pub lr_x: u32,
    pub lr_y: u32,
}

/// RGB bytes of a rendered page; a row may be longer than its pixels.
pub struct ImageData {
    pub pixels: Vec<u8>,
    pub width: u32,
    pub height: u32,
    pub row_stride: usize,
}

/// A rendered page with the search results on it.
pub struct PageInfo {
    pub page_num: usize,
    pub img_data: ImageData,
    pub result_rects: Vec<HighlightRect>,
}

/// Where a search result lies on its page: two opposite corners, in the units
/// of the document.
#[derive(Clone, Copy, Debug)]
pub struct SearchQuad {
    pub ul_x: Real32,
    pub ul_y: Real32,
    pub lr_x: Real32,
    pub lr_y: Real32,
}

/// What is kept of a page between two rounds of rendering.
pub struct PrevRender {
    /// The page has been rendered as it is to be shown.
    pub successful: bool,
    /// The number of search results on the page, once it has been searched.
    pub num_search_found: Option<usize>,
    /// The search results, if the page was searched without being rendered.
    pub search_quads: Option<Vec<SearchQuad>>,
}

impl Default for PrevRender {
    fn default() -> (p: Self)
        ensures
            p == (PrevRender { successful: false, num_search_found: None, search_quads: None }),
    {
        PrevRender { successful: false, num_search_found: None, search_quads: None }
    }
}

#[derive(Debug, Clone, Copy, PartialEq, Eq, Structural)]
pub enum RotateDirection {
    Deg0,
    Deg90,
    Deg180,
    Deg270,
}

impl RotateDirection {
    /// A quarter turn clockwise further.
    pub open spec fn turned(self) -> RotateDirection {
        match self {
            RotateDirection::Deg0 => RotateDirection::Deg90,
            RotateDirection::Deg90 => RotateDirection::Deg180,
            RotateDirection::Deg180 => RotateDirection::Deg270,
            RotateDirection::Deg270 => RotateDirection::Deg0,
        }
    }

    /// [`RotateDirection::turned`], computed.
    pub fn clockwise(self) -> (next: RotateDirection)
        ensures
            next == self.turned(),
    {
        match self {
            RotateDirection::Deg0 => RotateDirection::Deg90,
            RotateDirection::Deg90 => RotateDirection::Deg180,
            RotateDirection::Deg180 => RotateDirection::Deg270,
            RotateDirection::Deg270 => RotateDirection::Deg0,
        }
    }

    /// Degrees clockwise.
    pub open spec fn angle(self) -> u16 {
        match self {
            RotateDirection::Deg0 => 0,
            RotateDirection::Deg90 => 90,
            RotateDirection::Deg180 => 180,
            RotateDirection::Deg270 => 270,
        }
    }

    /// [`RotateDirection::angle`], computed.
    pub fn degrees(self) -> (d: u16)
        ensures
            d == self.angle(),
    {
        match self {
            RotateDirection::Deg0 => 0,
            RotateDirection::Deg90 => 90,
            RotateDirection::Deg180 => 180,
            RotateDirection::Deg270 => 270,
        }
    }

    /// Width and height of the page change places.
    pub fn swaps_sides(self) -> (b: bool)
        ensures
            b == (self.angle() % 180 != 0),
    {
        match self {
            RotateDirection::Deg0 => false,
            RotateDirection::Deg90 => true,
            RotateDirection::Deg180 => false,
            RotateDirection::Deg270 => true,
        }
    }
}

/// A quarter turn adds 90 degrees, and four of them make none.
pub proof fn law_four_turns(r: RotateDirection)
    ensures
        r.turned().angle() == (r.angle() + 90) % 360,
        r.turned().turned().turned().turned() == r,
{
}

/// Makes the vector hold `size` default values and nothing else.
pub fn fill_default<T: Default>(vec: &mut Vec<T>, size: usize)
    ensures
        final(vec)@.len() == size,
        forall|i: int| 0 <= i < size ==> call_ensures(T::default, (), #[trigger] final(vec)@[i]),
{
    vec.clear();
    let mut i: usize = 0;
    while i < size
        invariant
            i <= size,
            vec@.len() == i,
            forall|k: int| 0 <= k < i ==> call_ensures(T::default, (), #[trigger] vec@[k]),
        decreases size - i,
    {
        vec.push(T::default());
        i += 1;
    }
}

/// The window of pages to render around `page`: its first page, and its end.
/// All pages take the place of a window that would end at the first one.
pub fn active_window_bounds(page: usize, n_pages: usize, window: usize) -> (bounds: (usize, usize))
    requires
        0 < n_pages,
    ensures
        bounds.0 == window_start(page, window),
        bounds.1 == if window_end(page, n_pages, window) == 0 {
            n_pages as int
        } else {
            window_end(page, n_pages, window)
        },
{
    let start: usize = page.saturating_sub(window / 2);
    let end: usize = start.saturating_add(window);
    let end: usize = if end < n_pages {
        end
    } else {
        n_pages
    };
    if end == 0 {
        (start, n_pages)
    } else {
        (start, end)
    }
}

/// The page is to be rendered again.
pub open spec fn stale(p: PrevRender) -> PrevRender {
    PrevRender { successful: false, ..p }
}

/// Has a page rendered again, if there is one of that number.
fn force_page_rerender(rendered: &mut Vec<PrevRender>, page: usize)
    ensures
        final(rendered)@ == if page < old(rendered)@.len() {
            old(rendered)@.update(page as int, stale(old(rendered)@[page as int]))
        } else {
            old(rendered)@
        },
{
    if page < rendered.len() {
        rendered[page].successful = false;
    }
}

/// Whether the page waits in the queue.
fn queue_contains(queue: &VecDeque<usize>, page: usize) -> (found: bool)
    ensures
        found == queue@.contains(page),
{
    let mut i: usize = 0;
    while i < queue.len()
        invariant
            i <= queue@.len(),
            forall|k: int| 0 <= k < i ==> queue@[k] != page,
        decreases queue@.len() - i,
    {
        if queue[i] == page {
            return true;
        }
        i += 1;
    }
    false
}

/// Has a page rendered again before all others, if there is one of that
/// number; it is queued once.
pub fn queue_page_rerender(
    rendered: &mut Vec<PrevRender>,
    need_rerender: &mut VecDeque<usize>,
    page: usize,
)
    ensures
        final(rendered)@ == if page < old(rendered)@.len() {
            old(rendered)@.update(page as int, stale(old(rendered)@[page as int]))
        } else {
            old(rendered)@
        },
        final(need_rerender)@ == if page < old(rendered)@.len() && !old(need_rerender)@.contains(
            page,
        ) {
            old(need_rerender)@.push(page)
        } else {
            old(need_rerender)@
        },
{
    if page >= rendered.len() {
        return ;
    }
    force_page_rerender(rendered, page);
    if !queue_contains(need_rerender, page) {
        need_rerender.push_back(page);
    }
}

/// Keeps the queued pages from `start` up to, but without, `end`.
pub(crate) fn retain_range(queue: &mut VecDeque<usize>, start: usize, end: usize)
    ensures
        final(queue)@ == old(queue)@.filter(|q: usize| start <= q < end),
{
    let ghost before = queue@;
    let ghost stays = |q: usize| start <= q < end;
    let n: usize = queue.len();
    let mut i: usize = 0;
    proof {
        reveal(Seq::filter);
        assert(before.skip(0) =~= before);
        assert(queue@ =~= before.skip(0) + before.take(0).filter(stays));
    }
    while i < n
        invariant
            i <= n,
            n == before.len(),
            stays == (|q: usize| start <= q < end),
            queue@ == before.skip(i as int) + before.take(i as int).filter(stays),
        decreases n - i,
    {
        proof {
            reveal(Seq::filter);
            assert(before.take(i + 1).drop_last() =~= before.take(i as int));
        }
        let ghost kept = before.take(i as int).filter(stays);
        if let Some(page) = queue.pop_front() {
            assert(page == before[i as int]);
            assert(queue@ =~= before.skip(i + 1) + kept);
            if start <= page && page < end {
                queue.push_back(page);
                assert(queue@ =~= before.skip(i + 1) + kept.push(page));
            }
        }
        i += 1;
    }
    proof {
        assert(before.take(n as int) =~= before);
        assert(queue@ =~= before.filter(stays));
    }
}

/// Drops the queued pages that a jump to `page` leaves outside the window, and
/// has that page rendered again.
pub fn jump_to_page(
    rendered: &mut Vec<PrevRender>,
    need_rerender: &mut VecDeque<usize>,
    page: usize,
    n_pages: usize,
)
    requires
        0 < n_pages,
    ensures
        final(need_rerender)@ == old(need_rerender)@.filter(
            |q: usize|
                window_start(page, RENDER_WINDOW) <= q < window_end(page, n_pages, RENDER_WINDOW),
        ),
        final(rendered)@ == if page < old(rendered)@.len() {
            old(rendered)@.update(page as int, stale(old(rendered)@[page as int]))
        } else {
            old(rendered)@
        },
{
    let (start, end) = active_window_bounds(page, n_pages, RENDER_WINDOW);
    retain_range(need_rerender, start, end);
    proof {
        assert((|q: usize| start <= q < end) =~= (|q: usize|
            window_start(page, RENDER_WINDOW) <= q < window_end(page, n_pages, RENDER_WINDOW)));
    }
    force_page_rerender(rendered, page);
}

/// Some page of the window is not rendered as it is to be shown.
pub open spec fn window_incomplete(
    rendered: Seq<PrevRender>,
    current_page: usize,
    n_pages: usize,
) -> bool {
    exists|i: int|
        window_start(current_page, RENDER_WINDOW) <= i < window_end(
            current_page,
            n_pages,
            RENDER_WINDOW,
        ) && !(#[trigger] rendered[i]).successful
}

/// The window can be cut out of the rendered pages.
pub open spec fn window_exists(
    rendered: Seq<PrevRender>,
    current_page: usize,
    n_pages: usize,
) -> bool {
    &&& 0 < n_pages
    &&& window_start(current_page, RENDER_WINDOW) <= window_end(
        current_page,
        n_pages,
        RENDER_WINDOW,
    ) <= rendered.len()
}

/// Some page of the window around `current_page` is still to be rendered.
fn active_window_needs_render(
    rendered: &Vec<PrevRender>,
    current_page: usize,
    n_pages: usize,
) -> (needs: bool)
    requires
        window_exists(rendered@, current_page, n_pages),
    ensures
        needs == window_incomplete(rendered@, current_page, n_pages),
{
    let (start, end) = active_window_bounds(current_page, n_pages, RENDER_WINDOW);
    let mut i: usize = start;
    while i < end
        invariant
            start <= i <= end <= rendered@.len(),
            forall|k: int| start <= k < i ==> (#[trigger] rendered@[k]).successful,
            start == window_start(current_page, RENDER_WINDOW),
            end == window_end(current_page, n_pages, RENDER_WINDOW),
        decreases end - i,
    {
        if !rendered[i].successful {
            return true;
        }
        i += 1;
    }
    false
}

/// Some page has not been searched.
pub open spec fn some_unsearched(rendered: Seq<PrevRender>) -> bool {
    exists|i: int| 0 <= i < rendered.len() && (#[trigger] rendered[i]).num_search_found is None
}

pub fn any_unsearched(rendered: &Vec<PrevRender>) -> (any: bool)
    ensures
        any == some_unsearched(rendered@),
{
    let mut i: usize = 0;
    while i < rendered.len()
        invariant
            i <= rendered@.len(),
            forall|k: int| 0 <= k < i ==> (#[trigger] rendered@[k]).num_search_found is Some,
        decreases rendered@.len() - i,
    {
        if rendered[i].num_search_found.is_none() {
            return true;
        }
        i += 1;
    }
    false
}

/// There is work for another round: a queued page, a page of the window, or,
/// while a text is searched for, a page that has not been searched.
pub fn should_continue_rendering(
    rendered: &Vec<PrevRender>,
    need_rerender: &VecDeque<usize>,
    current_page: usize,
    n_pages: usize,
    search_term: Option<&str>,
) -> (more: bool)
    requires
        need_rerender@.len() == 0 ==> window_exists(rendered@, current_page, n_pages),
    ensures
        more == (need_rerender@.len() > 0 || window_incomplete(rendered@, current_page, n_pages)
            || (search_term is Some && some_unsearched(rendered@))),
{
    need_rerender.len() > 0 || active_window_needs_render(rendered, current_page, n_pages) || (
    search_term.is_some() && any_unsearched(rendered))
}

/// The colours that take the place of black and white on a page; none, if it
/// stays as it is.
pub open spec fn tint_spec(tinted: bool, invert: bool, black: i32, white: i32) -> Option<
    (i32, i32),
> {
    let (dark, light) = if tinted {
        (TINT_BLACK, TINT_WHITE)
    } else {
        (black, white)
    };
    if invert {
        Some((light, dark))
    } else if dark != MUPDF_BLACK || light != MUPDF_WHITE {
        Some((dark, light))
    } else {
        None
    }
}

/// [`tint_spec`], computed.
pub fn page_tint(tinted: bool, invert: bool, black: i32, white: i32) -> (tint: Option<(i32, i32)>)
    ensures
        tint == tint_spec(tinted, invert, black, white),
{
    let (dark, light): (i32, i32) = if tinted {
        (TINT_BLACK, TINT_WHITE)
    } else {
        (black, white)
    };
    if invert {
        Some((light, dark))
    } else if dark != MUPDF_BLACK || light != MUPDF_WHITE {
        Some((dark, light))
    } else {
        None
    }
}

/// Where the highlighted regions of a page come from.
#[derive(Debug, Clone, Copy, PartialEq, Eq, Structural)]
pub enum HighlightPlan {
    /// They are known already.
    Known,
    /// The page is to be searched; about so many results are expected.
    Search(usize),
    /// There are none.
    Nothing,
}

/// Where the highlighted regions of a page come from, by what is kept of it.
pub open spec fn highlights(p: PrevRender) -> HighlightPlan {
    if p.search_quads is Some {
        HighlightPlan::Known
    } else {
        match p.num_search_found {
            None => HighlightPlan::Search(0),
            Some(0) => HighlightPlan::Nothing,
            Some(count) => HighlightPlan::Search(count),
        }
    }
}

/// [`highlights`], computed.
pub fn highlight_plan(prev_render: &PrevRender) -> (plan: HighlightPlan)
    ensures
        plan == highlights(*prev_render),
{
    if prev_render.search_quads.is_some() {
        HighlightPlan::Known
    } else {
        match prev_render.num_search_found {
            None => HighlightPlan::Search(0),
            Some(count) => if count == 0 {
                HighlightPlan::Nothing
            } else {
                HighlightPlan::Search(count)
            },
        }
    }
}

/// Of every four bytes, the first three.
pub open spec fn without_alpha(samples: Seq<u8>) -> Seq<u8> {
    Seq::new(3 * (samples.len() / 4), |i: int| samples[4 * (i / 3) + i % 3])
}

/// Why a page cannot be copied whose pixels have this many components.
pub open spec fn bad_format_text(components: u8) -> Seq<char> {
    "unsupported pixmap format: expected RGB/RGBA, got "@ + decimal(components as nat)
        + " components"@
}

fn strip_alpha(samples: &[u8]) -> (pixels: Vec<u8>)
    ensures
        pixels@ == without_alpha(samples@),
{
    let n: usize = samples.len() / 4;
    let mut pixels: Vec<u8> = Vec::new();
    let mut k: usize = 0;
    while k < n
        invariant
            n == samples@.len() / 4,
            samples@.len() <= usize::MAX,
            k <= n,
            pixels@.len() == 3 * k,
            forall|i: int|
                0 <= i < 3 * k ==> #[trigger] pixels@[i] == samples@[4 * (i / 3) + i % 3],
        decreases n - k,
    {
        pixels.push(samples[4 * k]);
        pixels.push(samples[4 * k + 1]);
        pixels.push(samples[4 * k + 2]);
        k += 1;
    }
    assert(pixels@ =~= without_alpha(samples@));
    pixels
}

/// The bytes of a rendered page without an alpha channel.
pub fn copy_pixmap_rgb(samples: &[u8], width: u32, height: u32, components: u8) -> (copy: Result<
    ImageData,
    RenderError,
>)
    requires
        3 * width <= usize::MAX,
    ensures
        match copy {
            Ok(data) => {
                &&& components == 3 || components == 4
                &&& data.pixels@ == if components == 3 {
                    samples@
                } else {
                    without_alpha(samples@)
                }
                &&& data.width == width
                &&& data.height == height
                &&& data.row_stride == 3 * width
            },
            Err(error) => components != 3 && components != 4 && error.converting(
                bad_format_text(components),
            ),
        },
{
    let row_stride: usize = 3 * width as usize;
    match components {
        3 => {
            let mut pixels: Vec<u8> = Vec::new();
            pixels.extend_from_slice(samples);
            assert(pixels@ =~= samples@);
            Ok(ImageData { pixels, width, height, row_stride })
        },
        4 => Ok(ImageData { pixels: strip_alpha(samples), width, height, row_stride }),
        other => {
            let mut text = "unsupported pixmap format: expected RGB/RGBA, got ".to_owned();
            push_decimal(&mut text, other as u128);
            text.append(" components");
            assert(text@ =~= bad_format_text(components));
            Err(RenderError::Converting(text))
        },
    }
}

/// A page is not turned to begin with, and looks as it is turned: the angle
/// grows by 90 degrees with each turn.
pub proof fn law_angles(r: RotateDirection)
    ensures
        RotateDirection::Deg0.angle() == 0,
        r.turned().angle() == if r.angle() == 270 {
            0
        } else {
            (r.angle() + 90) as u16
        },
        r.turned() != r && r.turned().turned() != r && r.turned().turned().turned() != r,
{
}

/// Inverting a page makes black and white change places, and the tint stands
/// for both of them; a page with its own black and white is left as it is.
pub proof fn law_colours(tinted: bool, black: i32, white: i32)
    ensures
        tint_spec(tinted, true, black, white) is Some,
        tint_spec(tinted, false, black, white) matches Some((dark, light)) ==> tint_spec(
            tinted,
            true,
            black,
            white,
        ) == Some((light, dark)),
        tint_spec(true, false, black, white) == Some((TINT_BLACK, TINT_WHITE)),
        tint_spec(false, true, black, white) == Some((white, black)),
        tint_spec(false, false, black, white) == if black == MUPDF_BLACK && white == MUPDF_WHITE {
            None::<(i32, i32)>
        } else {
            Some((black, white))
        },
{
}

/// Without the alpha channel, every pixel keeps its red, green and blue.
pub proof fn law_pixels_keep_colour(samples: Seq<u8>, pixel: int, channel: int)
    requires
        0 <= channel < 3,
    ensures
        without_alpha(samples).len() == 3 * (samples.len() / 4),
        0 <= pixel < samples.len() / 4 ==> without_alpha(samples)[3 * pixel + channel] == samples[4 * pixel + channel],
{
    assert((3 * pixel + channel) / 3 == pixel && (3 * pixel + channel) % 3 == channel);
}

/// A page that is to be rendered again keeps what is known of its results.
pub proof fn law_stale_page(p: PrevRender)
    ensures
        !stale(p).successful,
        stale(p).num_search_found == p.num_search_found,
        stale(p).search_quads == p.search_quads,
{
}

/// More is to be rendered if a page of the window is not, and to be searched if
/// a page has not been.
pub proof fn law_more_to_do(rendered: Seq<PrevRender>, page: usize, n_pages: usize)
    ensures
        window_incomplete(rendered, page, n_pages) <==> {
            let start = max(0, page - 12);
            exists|i: int|
                start <= i < start + 24 && i < n_pages && !(#[trigger] rendered[i]).successful
        },
        some_unsearched(rendered) <==> exists|i: int|
            0 <= i < rendered.len() && (#[trigger] rendered[i]).num_search_found is None,
{
}

/// Results that were found are taken as they are; without them, a page that is
/// known to have none is not searched, and any other is.
pub proof fn law_where_highlights_come_from(p: PrevRender)
    ensures
        p.search_quads is Some ==> highlights(p) is Known,
        p.search_quads is None ==> match p.num_search_found {
            None => highlights(p) == HighlightPlan::Search(0),
            Some(n) => highlights(p) == if n == 0 {
                HighlightPlan::Nothing
            } else {
                HighlightPlan::Search(n)
            },
        },
{
}

} // verus!
