//! From rendered pages to images for the terminal: which page is next, and
//! which rendered pages wait for their turn.

use crate::arith::{distance, window_end, window_start};
use crate::error::RenderError;
use crate::interleave::{
    law_walk_by_nearness, law_walk_goes_outward, law_walk_visits_each_once, outward, walkable,
    InterleavedAroundWithMax,
};
use crate::raster::{chunk, lemma_chunk_bounds, lemma_chunk_order, Raster, RgbImage};
use crate::renderer::{ImageData, PageInfo};
use crate::residency::{
    image_byte_count, image_bytes, law_nearer_images_leave_no_room,
    law_nothing_is_given_up_in_vain, law_residents_fit_budget, law_shown_page_stays,
    lemma_part_fits_budget, lists, resident, resident_pages, total, MAX_RESIDENT_BYTES,
};
use crate::text::{decimal, push_decimal};
use std::collections::HashMap;
use vstd::math::{abs, max, min};
use vstd::prelude::*;

verus! {

/// A message from the viewer or the renderer.
pub enum ConverterMsg {
    /// The document has this many pages.
    NumPages(usize),
    /// The viewer shows this page.
    GoToPage(usize),
    /// A page has been rendered.
    AddImg(PageInfo),
    /// Whitespace margins are to be cropped, or not.
    AutoCrop(bool),
}

/// `k` lies in the window around `page`.
pub open spec fn in_window(k: int, page: usize, n_pages: usize, prerender: usize) -> bool {
    window_start(page, prerender) <= k < window_end(page, n_pages, prerender)
}

/// The window of pages to prepare around `page`: its first page, and its end.
/// There is none if the window would end at page zero.
pub fn active_window_bounds(page: usize, n_pages: usize, prerender: usize) -> (bounds: Option<
    (usize, usize),
>)
    ensures
        bounds is None <==> window_end(page, n_pages, prerender) == 0,
        bounds matches Some((start, end)) ==> start == window_start(page, prerender) && end
            == window_end(page, n_pages, prerender),
{
    if n_pages == 0 {
        return None;
    }
    let start: usize = page.saturating_sub(prerender / 2);
    let end: usize = start.saturating_add(prerender);
    let end: usize = if end < n_pages {
        end
    } else {
        n_pages
    };
    if end == 0 {
        None
    } else {
        Some((start, end))
    }
}

/// Page `page_num` lies in the window around `page`.
pub fn page_is_in_active_window(
    page_num: usize,
    page: usize,
    n_pages: usize,
    prerender: usize,
) -> (inside: bool)
    ensures
        inside == in_window(page_num as int, page, n_pages, prerender),
{
    match active_window_bounds(page, n_pages, prerender) {
        Some((start, end)) => start <= page_num && page_num < end,
        None => false,
    }
}

/// Row `y` of rendered bytes, without its padding.
pub open spec fn rendered_row(img: ImageData, y: int) -> Seq<u8> {
    img.pixels@.subrange(y * img.row_stride, y * img.row_stride + 3 * img.width)
}

pub open spec fn bad_stride_text(row_stride: nat, width: nat) -> Seq<char> {
    "invalid RGB row stride: "@ + decimal(row_stride) + " for width "@ + decimal(width)
}

pub open spec fn short_buffer_text(got: nat, need: nat) -> Seq<char> {
    "RGB buffer too short: got "@ + decimal(got) + ", need "@ + decimal(need)
}

/// The image in rendered bytes, or why there is none. Bytes after the last row
/// stay with it where the rows have no padding, and are dropped where they do.
pub open spec fn decoded(img: ImageData) -> Result<Raster, Seq<char>> {
    let need = img.row_stride * img.height;
    if img.row_stride < 3 * img.width {
        Err(bad_stride_text(img.row_stride as nat, img.width as nat))
    } else if need > usize::MAX {
        Err("RGB buffer size overflow"@)
    } else if img.pixels@.len() < need {
        Err(short_buffer_text(img.pixels@.len(), need as nat))
    } else {
        Ok(
            Raster {
                width: img.width as nat,
                rows: Seq::new(img.height as nat, |y: int| rendered_row(img, y)),
                beyond: if img.row_stride == 3 * img.width {
                    img.pixels@.skip(need)
                } else {
                    Seq::empty()
                },
            },
        )
    }
}

/// The image in rendered bytes: their rows, without padding. Rows that have
/// none are taken over as they are, with all that follows them.
pub fn image_from_rgb_data(img_data: ImageData) -> (res: Result<RgbImage, RenderError>)
    requires
        3 * img_data.width <= usize::MAX,
    ensures
        match decoded(img_data) {
            Ok(r) => res matches Ok(img) && img.wf() && img@ == r && img.width == img_data.width
                && img.height == img_data.height,
            Err(message) => res matches Err(e) && e.converting(message),
        },
{
    let ImageData { pixels, width, height, row_stride } = img_data;
    let tight_stride: usize = width as usize * 3;
    if row_stride < tight_stride {
        let mut message = "invalid RGB row stride: ".to_owned();
        push_decimal(&mut message, row_stride as u128);
        message.append(" for width ");
        push_decimal(&mut message, width as u128);
        return Err(RenderError::Converting(message));
    }
    let required_len: usize = match row_stride.checked_mul(height as usize) {
        Some(len) => len,
        None => return Err(RenderError::Converting("RGB buffer size overflow".to_owned())),
    };
    if pixels.len() < required_len {
        let mut message = "RGB buffer too short: got ".to_owned();
        push_decimal(&mut message, pixels.len() as u128);
        message.append(", need ");
        push_decimal(&mut message, required_len as u128);
        return Err(RenderError::Converting(message));
    }
    if row_stride == tight_stride {
        let img = RgbImage { width, height, data: pixels };
        proof {
            assert(row_stride * height == height * (3 * width)) by (nonlinear_arith)
                requires
                    row_stride == 3 * width,
            ;
            assert forall|y: int| 0 <= y < height implies #[trigger] img@.rows[y] == rendered_row(
                img_data,
                y,
            ) by {
                lemma_chunk_bounds(required_len as int, row_stride as int, height as int, y);
                assert(img@.rows[y] =~= rendered_row(img_data, y));
            }
            assert(Ok::<Raster, Seq<char>>(img@) == decoded(img_data)) by {
                assert(img@ =~= decoded(img_data)->Ok_0);
            }
        }
        return Ok(img);
    }
    let mut data: Vec<u8> = Vec::new();
    let mut y: u32 = 0;
    proof {
        assert(row_stride * height == height * row_stride) by (nonlinear_arith);
    }
    while y < height
        invariant
            y <= height,
            tight_stride == 3 * width < row_stride,
            required_len == height * row_stride <= pixels@.len(),
            pixels@ == img_data.pixels@,
            width == img_data.width,
            row_stride == img_data.row_stride,
            data@.len() == y * tight_stride,
            forall|k: int|
                0 <= k < y ==> #[trigger] chunk(data@, tight_stride as int, k) == rendered_row(
                    img_data,
                    k,
                ),
        decreases height - y,
    {
        proof {
            lemma_chunk_bounds(required_len as int, row_stride as int, height as int, y as int);
        }
        let base: usize = y as usize * row_stride;
        let ghost before = data@;
        let row = vstd::slice::slice_subrange(pixels.as_slice(), base, base + tight_stride);
        data.extend_from_slice(row);
        proof {
            assert(data@ =~= before + rendered_row(img_data, y as int));
            assert((y + 1) * tight_stride == y * tight_stride + tight_stride) by (nonlinear_arith);
            assert forall|k: int| 0 <= k < y + 1 implies #[trigger] chunk(
                data@,
                tight_stride as int,
                k,
            ) == rendered_row(img_data, k) by {
                lemma_chunk_bounds(data@.len() as int, tight_stride as int, y + 1, k);
                if k < y {
                    lemma_chunk_order(tight_stride as int, k, y as int);
                    assert(chunk(data@, tight_stride as int, k) =~= chunk(
                        before,
                        tight_stride as int,
                        k,
                    ));
                } else {
                    assert(chunk(data@, tight_stride as int, k) =~= rendered_row(img_data, k));
                }
            }
        }
        y += 1;
    }
    let img = RgbImage { width, height, data };
    proof {
        assert forall|k: int| 0 <= k < height implies #[trigger] img@.rows[k] == rendered_row(
            img_data,
            k,
        ) by {
            assert(img@.rows[k] == chunk(data@, tight_stride as int, k));
        }
        assert(img.exact());
        assert(img@ =~= decoded(img_data)->Ok_0);
    }
    Ok(img)
}

/// The bytes of the images of waiting pages.
pub open spec fn pending_sizes(images: Map<usize, PageInfo>) -> Map<usize, nat> {
    images.map_values(|p: PageInfo| image_bytes(p.img_data.width, p.img_data.height))
}

/// The waiting pages that still have a use: those in the window that are near
/// enough to stay in memory.
pub open spec fn pruned(
    images: Map<usize, PageInfo>,
    page: usize,
    n_pages: usize,
    prerender: usize,
) -> Map<usize, PageInfo> {
    images.restrict(
        Set::new(
            |k: usize|
                in_window(k as int, page, n_pages, prerender) && resident(
                    pending_sizes(images),
                    page,
                ).pages.contains(k),
        ),
    )
}

/// The waiting pages with the bytes of their images.
fn list_pending(images: &HashMap<usize, PageInfo>) -> (entries: Vec<(usize, u128)>)
    ensures
        lists(entries@, pending_sizes(images@)),
        forall|i: int|
            0 <= i < entries@.len() ==> (#[trigger] entries@[i]).1 <= u128::MAX - MAX_RESIDENT_BYTES,
{
    broadcast use vstd::std_specs::hash::group_hash_axioms;

    let ghost sizes = pending_sizes(images@);
    let mut entries: Vec<(usize, u128)> = Vec::new();
    let pairs = images.iter();
    let ghost all = vstd::std_specs::iter::IteratorSpec::remaining(&pairs);
    for (k, info) in it: pairs
        invariant
            sizes == pending_sizes(images@),
            it.seq() == all,
            all.no_duplicates(),
            forall|i: int|
                0 <= i < all.len() ==> images@.contains_key(*(#[trigger] all[i]).0)
                    && images@[*all[i].0] == *all[i].1,
            entries@.len() == it.index(),
            forall|i: int|
                0 <= i < entries@.len() ==> (#[trigger] entries@[i]).0 == *all[i].0
                    && sizes.contains_key(entries@[i].0) && entries@[i].1 == sizes[entries@[i].0]
                    && entries@[i].1 <= u128::MAX - MAX_RESIDENT_BYTES,
    {
        let bytes: u128 = image_byte_count(info.img_data.width, info.img_data.height);
        entries.push((*k, bytes));
    }
    proof {
        assert(entries@.len() == all.len());
        assert forall|i: int, j: int| 0 <= i < j < entries@.len() implies (#[trigger] entries@[i]).0
            != (#[trigger] entries@[j]).0 by {
            assert(all[i] != all[j]);
        }
        assert forall|k: usize| sizes.contains_key(k) implies exists|i: int|
            0 <= i < entries@.len() && (#[trigger] entries@[i]).0 == k by {
            assert(images@.contains_key(k));
            let i = choose|i: int| 0 <= i < all.len() && all[i] == (&k, &images@[k]);
            assert(entries@[i].0 == k);
        }
    }
    entries
}

/// Drops the waiting pages that no longer have a use.
pub fn prune_pending_pages(
    images: &mut HashMap<usize, PageInfo>,
    page: usize,
    n_pages: usize,
    prerender: usize,
)
    ensures
        final(images)@ == pruned(old(images)@, page, n_pages, prerender),
{
    broadcast use vstd::std_specs::hash::group_hash_axioms;

    let ghost before = images@;
    let ghost after = pruned(before, page, n_pages, prerender);
    let entries = list_pending(images);
    let near = resident_pages(&entries, page);
    let mut i: usize = 0;
    proof {
        assert forall|k: usize| #[trigger] images@.contains_key(k) <==> before.contains_key(k) && (
        after.contains_key(k) || exists|j: int|
            i <= j < entries@.len() && (#[trigger] entries@[j]).0 == k) by {
            if before.contains_key(k) {
                assert(pending_sizes(before).contains_key(k));
            }
        }
    }
    while i < entries.len()
        invariant
            i <= entries@.len(),
            lists(entries@, pending_sizes(before)),
            after == pruned(before, page, n_pages, prerender),
            near@ == resident(pending_sizes(before), page).pages,
            forall|k: usize| #[trigger]
                images@.contains_key(k) <==> before.contains_key(k) && (after.contains_key(k)
                    || exists|j: int| i <= j < entries@.len() && (#[trigger] entries@[j]).0 == k),
            forall|k: usize| #[trigger] images@.contains_key(k) ==> images@[k] == before[k],
        decreases entries@.len() - i,
    {
        let k: usize = entries[i].0;
        proof {
            assert(pending_sizes(before).contains_key(k));
        }
        let ghost was = images@;
        if !(page_is_in_active_window(k, page, n_pages, prerender) && near.contains(&k)) {
            images.remove(&k);
        }
        proof {
            assert(after.contains_key(k) <==> before.contains_key(k) && in_window(
                k as int,
                page,
                n_pages,
                prerender,
            ) && near@.contains(k));
            assert forall|m: usize| #[trigger] images@.contains_key(m) <==> before.contains_key(m)
                && (after.contains_key(m) || exists|j: int|
                i + 1 <= j < entries@.len() && (#[trigger] entries@[j]).0 == m) by {
                if m == k {
                    assert(entries@[i as int].0 == k);
                } else {
                    assert(was.contains_key(m) <==> images@.contains_key(m));
                    if was.contains_key(m) && !after.contains_key(m) {
                        let j = choose|j: int| i <= j < entries@.len() && (#[trigger] entries@[j]).0 == m;
                        assert(j != i);
                        assert(entries@[j].0 == m);
                    }
                }
            }
        }
        i += 1;
    }
    proof {
        assert forall|k: usize| #[trigger] images@.contains_key(k) <==> after.contains_key(k) by {
            if before.contains_key(k) {
                assert(pending_sizes(before).contains_key(k));
            }
        }
        assert(images@ =~= after);
    }
}

/// What the conversion knows: the rendered pages that wait, the page that is
/// shown, the number of pages, and whether margins are cropped.
#[verifier::ext_equal]
pub struct ConverterView {
    pub images: Map<usize, PageInfo>,
    pub page: usize,
    pub n_pages: usize,
    pub auto_crop: bool,
}

/// A message taken in, before pages without a use are dropped.
pub open spec fn received(c: ConverterView, msg: ConverterMsg, prerender: usize) -> ConverterView {
    match msg {
        ConverterMsg::AddImg(img) => if in_window(
            img.page_num as int,
            c.page,
            c.n_pages,
            prerender,
        ) {
            ConverterView { images: c.images.insert(img.page_num, img), ..c }
        } else {
            c
        },
        ConverterMsg::NumPages(total) => ConverterView {
            images: Map::empty(),
            n_pages: total,
            page: if total == 0 {
                0
            } else if c.page < total {
                c.page
            } else {
                (total - 1) as usize
            },
            ..c
        },
        ConverterMsg::GoToPage(page) => ConverterView { page, ..c },
        ConverterMsg::AutoCrop(on) => ConverterView { auto_crop: on, ..c },
    }
}

/// What the conversion knows after a message.
pub open spec fn applied(c: ConverterView, msg: ConverterMsg, prerender: usize) -> ConverterView {
    let r = received(c, msg, prerender);
    ConverterView { images: pruned(r.images, r.page, r.n_pages, prerender), ..r }
}

/// Takes in a message.
pub fn apply_converter_msg(
    msg: ConverterMsg,
    images: &mut HashMap<usize, PageInfo>,
    page: &mut usize,
    n_pages: &mut usize,
    auto_crop: &mut bool,
    prerender: usize,
)
    ensures
        (ConverterView {
            images: final(images)@,
            page: *final(page),
            n_pages: *final(n_pages),
            auto_crop: *final(auto_crop),
        }) == applied(
            ConverterView {
                images: old(images)@,
                page: *old(page),
                n_pages: *old(n_pages),
                auto_crop: *old(auto_crop),
            },
            msg,
            prerender,
        ),
{
    broadcast use vstd::std_specs::hash::group_hash_axioms;

    match msg {
        ConverterMsg::AddImg(img) => {
            if img.page_num < *n_pages && page_is_in_active_window(
                img.page_num,
                *page,
                *n_pages,
                prerender,
            ) {
                images.insert(img.page_num, img);
            }
        },
        ConverterMsg::NumPages(total_pages) => {
            images.clear();
            *n_pages = total_pages;
            let last: usize = total_pages.saturating_sub(1);
            if *page > last {
                *page = last;
            }
        },
        ConverterMsg::GoToPage(new_page) => {
            *page = new_page;
        },
        ConverterMsg::AutoCrop(on) => {
            *auto_crop = on;
        },
    }
    prune_pending_pages(images, *page, *n_pages, prerender);
}

/// The page around which the waiting pages are taken.
pub open spec fn centre(page: usize, n_pages: usize) -> usize {
    if n_pages == 0 {
        0
    } else if page < n_pages {
        page
    } else {
        (n_pages - 1) as usize
    }
}

/// The pages in the order in which the waiting ones are taken.
pub open spec fn conversion_order(page: usize, n_pages: usize, prerender: usize) -> Seq<usize> {
    outward(
        centre(page, n_pages),
        window_start(page, prerender) as usize,
        window_end(page, n_pages, prerender) as usize,
    )
}

/// Whether waiting pages are looked through at all.
pub open spec fn dequeues(
    images: Map<usize, PageInfo>,
    n_pages: usize,
    iteration: usize,
    prerender: usize,
) -> bool {
    images.len() > 0 && n_pages > 0 && iteration < prerender
}

/// Place `i` of the order is the first whose page waits.
pub open spec fn first_waiting(order: Seq<usize>, images: Map<usize, PageInfo>, i: int) -> bool {
    &&& 0 <= i < order.len()
    &&& images.contains_key(order[i])
    &&& forall|j: int| 0 <= j < i ==> !images.contains_key(#[trigger] order[j])
}

/// Around the page it is centred on, the window can be walked.
proof fn lemma_window_walkable(page: usize, n_pages: usize, prerender: usize)
    requires
        0 < n_pages,
        0 < prerender,
        window_start(page, prerender) <= window_end(page, n_pages, prerender),
    ensures
        walkable(
            centre(page, n_pages),
            window_start(page, prerender) as usize,
            window_end(page, n_pages, prerender) as usize,
        ),
        window_end(page, n_pages, prerender) - window_start(page, prerender) <= prerender,
{
}

/// Takes the waiting page that is nearest to the current one, and notes its
/// place in the order in `iteration`.
pub fn dequeue_next_page(
    images: &mut HashMap<usize, PageInfo>,
    page: usize,
    n_pages: usize,
    iteration: &mut usize,
    prerender: usize,
) -> (next: Option<PageInfo>)
    requires
        dequeues(old(images)@, n_pages, *old(iteration), prerender) ==> window_start(page, prerender)
            <= window_end(page, n_pages, prerender),
    ensures
        next is None ==> final(images)@ == old(images)@ && *final(iteration) == *old(iteration) && (
        dequeues(old(images)@, n_pages, *old(iteration), prerender) ==> forall|i: int|
            0 <= i < conversion_order(page, n_pages, prerender).len()
                ==> !old(images)@.contains_key(
                #[trigger] conversion_order(page, n_pages, prerender)[i],
            )),
        next matches Some(info) ==> {
            let order = conversion_order(page, n_pages, prerender);
            let at = *final(iteration) as int;
            &&& dequeues(old(images)@, n_pages, *old(iteration), prerender)
            &&& first_waiting(order, old(images)@, at)
            &&& info == old(images)@[order[at]]
            &&& final(images)@ == old(images)@.remove(order[at])
        },
{
    broadcast use vstd::std_specs::hash::group_hash_axioms;

    if images.is_empty() || n_pages == 0 || *iteration >= prerender {
        return None;
    }
    let ghost order = conversion_order(page, n_pages, prerender);
    let (idx_start, idx_end): (usize, usize) = match active_window_bounds(page, n_pages, prerender) {
        Some(bounds) => bounds,
        None => {
            return None;
        },
    };
    let current_page: usize = if page < n_pages {
        page
    } else {
        n_pages - 1
    };
    proof {
        lemma_window_walkable(page, n_pages, prerender);
        law_walk_visits_each_once(current_page, idx_start, idx_end);
    }
    let mut walk = InterleavedAroundWithMax::new(current_page, idx_start, idx_end);
    let ghost all = walk.rest();
    assert(order =~= all);
    let mut i: usize = 0;
    while i < prerender
        invariant_except_break
            i <= prerender,
            walk.wf(),
            all == order,
            order.len() <= prerender,
            i <= order.len(),
            walk.rest() == order.skip(i as int),
            images@ == old(images)@,
            *iteration == *old(iteration),
            dequeues(old(images)@, n_pages, *old(iteration), prerender),
            order == conversion_order(page, n_pages, prerender),
            forall|j: int| 0 <= j < i ==> !images@.contains_key(#[trigger] order[j]),
        ensures
            images@ == old(images)@,
            *iteration == *old(iteration),
            order == conversion_order(page, n_pages, prerender),
            forall|j: int| 0 <= j < order.len() ==> !images@.contains_key(#[trigger] order[j]),
        decreases prerender - i,
    {
        match walk.next() {
            None => {
                break ;
            },
            Some(candidate) => {
                proof {
                    assert(candidate == order[i as int]);
                    assert(order.skip(i as int).skip(1) =~= order.skip(i + 1));
                }
                if let Some(info) = images.remove(&candidate) {
                    *iteration = i;
                    return Some(info);
                }
                proof {
                    assert(images@ =~= old(images)@);
                }
            },
        }
        i += 1;
    }
    None
}

/// What the conversion is told: a message, that there is none at the moment,
/// or that there will be no more.
pub enum ConverterEvent {
    Message(ConverterMsg),
    NoMessage,
    Disconnected,
}

/// What the conversion does next.
pub enum ConverterAction {
    /// Look for a message, without waiting.
    Poll,
    /// Convert this page and hand it on, then look for a message.
    Convert { page_info: PageInfo, auto_crop: bool },
    /// Wait for a message.
    Wait,
    /// End.
    Stop,
}

/// The state of the conversion between two events.
pub struct Converter {
    pub images: HashMap<usize, PageInfo>,
    pub page: usize,
    pub n_pages: usize,
    pub auto_crop: bool,
    pub prerender: usize,
    /// The place of the page that was taken last in the order of conversion.
    pub iteration: usize,
}

impl Converter {
    /// What the messages so far have told.
    pub open spec fn known(&self) -> ConverterView {
        ConverterView {
            images: self.images@,
            page: self.page,
            n_pages: self.n_pages,
            auto_crop: self.auto_crop,
        }
    }

    /// Only pages in the window wait, and the page that was taken last was one
    /// of those to prepare.
    pub open spec fn wf(&self) -> bool {
        &&& forall|k: usize| #[trigger]
            self.images@.contains_key(k) ==> in_window(
                k as int,
                self.page,
                self.n_pages,
                self.prerender,
            )
        &&& self.iteration < self.prerender || self.prerender == 0
    }

    /// The conversion before the first message.
    pub fn new(prerender: usize) -> (c: Self)
        ensures
            c.wf(),
            c.known() == (ConverterView { images: Map::empty(), page: 0, n_pages: 0, auto_crop: false }),
            c.prerender == prerender,
            c.iteration == 0,
    {
        broadcast use vstd::std_specs::hash::group_hash_axioms;

        Converter {
            images: HashMap::new(),
            page: 0,
            n_pages: 0,
            auto_crop: false,
            prerender,
            iteration: 0,
        }
    }

    /// Takes in an event and says what to do next. A message sends the search
    /// for waiting pages back to its start; without one, the nearest waiting
    /// page is converted, and only if no page waits is a message awaited.
    pub fn step(&mut self, event: ConverterEvent) -> (action: ConverterAction)
        requires
            old(self).wf(),
        ensures
            final(self).wf(),
            final(self).prerender == old(self).prerender,
            match event {
                ConverterEvent::Message(msg) => {
                    &&& action is Poll
                    &&& final(self).known() == applied(old(self).known(), msg, old(self).prerender)
                    &&& final(self).iteration == 0
                },
                ConverterEvent::Disconnected => action is Stop && *final(self) == *old(self),
                ConverterEvent::NoMessage => {
                    let order = conversion_order(
                        old(self).page,
                        old(self).n_pages,
                        old(self).prerender,
                    );
                    match action {
                        ConverterAction::Convert { page_info, auto_crop } => {
                            let at = final(self).iteration as int;
                            &&& first_waiting(order, old(self).known().images, at)
                            &&& page_info == old(self).known().images[order[at]]
                            &&& auto_crop == old(self).auto_crop
                            &&& final(self).known() == (ConverterView {
                                images: old(self).known().images.remove(order[at]),
                                ..old(self).known()
                            })
                        },
                        ConverterAction::Wait => {
                            &&& old(self).known().images == Map::<usize, PageInfo>::empty()
                            &&& final(self).known() == old(self).known()
                            &&& final(self).iteration == old(self).iteration
                        },
                        _ => false,
                    }
                },
            },
    {
        broadcast use vstd::std_specs::hash::group_hash_axioms;

        match event {
            ConverterEvent::Disconnected => ConverterAction::Stop,
            ConverterEvent::Message(msg) => {
                apply_converter_msg(
                    msg,
                    &mut self.images,
                    &mut self.page,
                    &mut self.n_pages,
                    &mut self.auto_crop,
                    self.prerender,
                );
                self.iteration = 0;
                ConverterAction::Poll
            },
            ConverterEvent::NoMessage => {
                proof {
                    if self.images@.len() > 0 {
                        law_waiting_page_is_found(*self);
                        lemma_window_walkable(self.page, self.n_pages, self.prerender);
                        law_walk_visits_each_once(
                            centre(self.page, self.n_pages),
                            window_start(self.page, self.prerender) as usize,
                            window_end(self.page, self.n_pages, self.prerender) as usize,
                        );
                    } else {
                        assert(self.images@ =~= Map::empty());
                    }
                }
                match dequeue_next_page(
                    &mut self.images,
                    self.page,
                    self.n_pages,
                    &mut self.iteration,
                    self.prerender,
                ) {
                    Some(page_info) => ConverterAction::Convert {
                        page_info,
                        auto_crop: self.auto_crop,
                    },
                    None => ConverterAction::Wait,
                }
            },
        }
    }
}

/// As long as a page waits, the conversion finds one: it never rests before all
/// waiting pages are converted.
pub proof fn law_waiting_page_is_found(c: Converter)
    requires
        c.wf(),
        c.images@.len() > 0,
    ensures
        window_start(c.page, c.prerender) <= window_end(c.page, c.n_pages, c.prerender),
        dequeues(c.images@, c.n_pages, c.iteration, c.prerender),
        exists|i: int|
            first_waiting(conversion_order(c.page, c.n_pages, c.prerender), c.images@, i),
{
    let order = conversion_order(c.page, c.n_pages, c.prerender);
    let k = c.images@.dom().choose();
    assert(c.images@.contains_key(k));
    lemma_window_walkable(c.page, c.n_pages, c.prerender);
    law_walk_visits_each_once(
        centre(c.page, c.n_pages),
        window_start(c.page, c.prerender) as usize,
        window_end(c.page, c.n_pages, c.prerender) as usize,
    );
    assert(order.contains(k));
    let j = choose|j: int| 0 <= j < order.len() && order[j] == k;
    lemma_first_waiting(order, c.images@, j);
}

/// If the page at some place waits, there is a first such place.
proof fn lemma_first_waiting(order: Seq<usize>, images: Map<usize, PageInfo>, j: int)
    requires
        0 <= j < order.len(),
        images.contains_key(order[j]),
    ensures
        exists|i: int| first_waiting(order, images, i),
    decreases j,
{
    if exists|m: int| 0 <= m < j && images.contains_key(#[trigger] order[m]) {
        let m = choose|m: int| 0 <= m < j && images.contains_key(#[trigger] order[m]);
        lemma_first_waiting(order, images, m);
    } else {
        assert(first_waiting(order, images, j));
    }
}

/// After a message, only pages of the window wait, and their images fit in
/// memory together, unless there is but one.
pub proof fn law_waiting_pages_are_near(c: ConverterView, msg: ConverterMsg, prerender: usize)
    ensures
        forall|k: usize| #[trigger]
            applied(c, msg, prerender).images.contains_key(k) ==> in_window(
                k as int,
                applied(c, msg, prerender).page,
                applied(c, msg, prerender).n_pages,
                prerender,
            ),
        applied(c, msg, prerender).images.dom().finite(),
        total(
            pending_sizes(applied(c, msg, prerender).images),
            applied(c, msg, prerender).images.dom(),
        ) <= MAX_RESIDENT_BYTES || applied(c, msg, prerender).images.dom().len() == 1,
{
    let r = received(c, msg, prerender);
    let left = applied(c, msg, prerender).images;
    assert(pending_sizes(left).dom() =~= left.dom());
    lemma_part_fits_budget(pending_sizes(r.images), r.page, pending_sizes(left));
}

/// The shown page, once rendered, is never dropped before it is converted.
pub proof fn law_shown_page_waits(
    images: Map<usize, PageInfo>,
    page: usize,
    n_pages: usize,
    prerender: usize,
)
    requires
        images.contains_key(page),
        page < n_pages,
        0 < prerender,
    ensures
        pruned(images, page, n_pages, prerender).contains_key(page),
        pruned(images, page, n_pages, prerender)[page] == images[page],
{
    law_shown_page_stays(pending_sizes(images), page);
}

/// A page that was jumped to before the pages were counted is kept, if there
/// is such a page; else the last page takes its place.
pub proof fn law_early_jump_is_kept(
    c: ConverterView,
    page: usize,
    total: usize,
    prerender: usize,
)
    requires
        0 < total,
    ensures
        applied(
            applied(c, ConverterMsg::GoToPage(page), prerender),
            ConverterMsg::NumPages(total),
            prerender,
        ).page == if page < total {
            page
        } else {
            (total - 1) as usize
        },
{
}

/// Of the waiting pages in the window, the one that is converted first is
/// nearest to the shown page.
pub proof fn law_nearest_page_first(
    images: Map<usize, PageInfo>,
    page: usize,
    n_pages: usize,
    prerender: usize,
    i: int,
    k: usize,
)
    requires
        page < n_pages,
        first_waiting(conversion_order(page, n_pages, prerender), images, i),
        images.contains_key(k),
        in_window(k as int, page, n_pages, prerender),
    ensures
        distance(page, conversion_order(page, n_pages, prerender)[i])
            <= distance(page, k),
{
    let order = conversion_order(page, n_pages, prerender);
    let start = window_start(page, prerender) as usize;
    let end = window_end(page, n_pages, prerender) as usize;
    lemma_window_walkable(page, n_pages, prerender);
    law_walk_visits_each_once(page, start, end);
    law_walk_goes_outward(page, start, end);
    assert(order.contains(k));
    let j = choose|j: int| 0 <= j < order.len() && order[j] == k;
    assert(images.contains_key(order[j]));
    assert(i <= j);
}

/// The window of pages to prepare begins half its size before the shown page
/// and is as large as it can be.
pub proof fn law_window_of_pages(k: int, page: usize, n_pages: usize, prerender: usize)
    ensures
        in_window(k, page, n_pages, prerender) <==> {
            let start = max(0, page - prerender / 2);
            start <= k < start + prerender && k < n_pages
        },
{
}

/// Rendered bytes hold an image exactly if no row is shorter than its pixels
/// and no row is missing. Each byte of a pixel is where its row and column say.
pub proof fn law_decoded_pixels(img: ImageData, x: int, y: int, channel: int)
    requires
        0 <= channel < 3,
    ensures
        decoded(img) is Ok <==> 3 * img.width <= img.row_stride && img.row_stride * img.height
            <= usize::MAX && img.row_stride * img.height <= img.pixels@.len(),
        decoded(img) matches Ok(r) ==> {
            &&& r.width == img.width
            &&& r.rows.len() == img.height
            &&& 0 <= y < img.height ==> r.rows[y].len() == 3 * img.width
            &&& 0 <= y < img.height && 0 <= x < img.width ==> r.rows[y][3 * x + channel]
                == img.pixels@[y * img.row_stride + 3 * x + channel]
            &&& img.row_stride == 3 * img.width ==> r.beyond == img.pixels@.skip(
                img.row_stride * img.height,
            )
            &&& img.row_stride > 3 * img.width ==> r.beyond.len() == 0
        },
{
    let stride = img.row_stride as int;
    let height = img.height as int;
    assert(height * stride == stride * height) by (nonlinear_arith);
    if 0 <= y < height {
        lemma_chunk_bounds(height * stride, stride, height, y);
    }
}

/// Why there is no image in rendered bytes: the shorter row is told before the
/// missing one.
pub proof fn law_undecodable(img: ImageData)
    ensures
        img.row_stride < 3 * img.width ==> decoded(img) == Err::<Raster, Seq<char>>(
            "invalid RGB row stride: "@ + decimal(img.row_stride as nat) + " for width "@ + decimal(
                img.width as nat,
            ),
        ),
        img.row_stride >= 3 * img.width && img.row_stride * img.height <= usize::MAX
            && img.pixels@.len() < img.row_stride * img.height ==> decoded(img) == Err::<
            Raster,
            Seq<char>,
        >(
            "RGB buffer too short: got "@ + decimal(img.pixels@.len()) + ", need "@ + decimal(
                (img.row_stride * img.height) as nat,
            ),
        ),
        img.row_stride >= 3 * img.width && img.row_stride * img.height > usize::MAX ==> decoded(img)
            == Err::<Raster, Seq<char>>("RGB buffer size overflow"@),
{
}

/// The image of a waiting page takes three bytes for each of its pixels.
pub proof fn law_pending_sizes(images: Map<usize, PageInfo>, k: usize)
    ensures
        pending_sizes(images).dom() == images.dom(),
        images.contains_key(k) ==> pending_sizes(images)[k] == images[k].img_data.width
            * images[k].img_data.height * 3,
{
    assert(pending_sizes(images).dom() =~= images.dom());
    if images.contains_key(k) {
        let d = images[k].img_data;
        assert(0 <= d.width * d.height) by (nonlinear_arith)
            requires
                0 <= d.width,
                0 <= d.height,
        ;
    }
}

/// Of the waiting pages, those of the window stay, as long as all images fit in
/// memory; a page that stays is not changed.
pub proof fn law_window_keeps_waiting(
    images: Map<usize, PageInfo>,
    page: usize,
    n_pages: usize,
    prerender: usize,
    k: usize,
)
    ensures
        ({
            let after = pruned(images, page, n_pages, prerender);
            let start = max(0, page - prerender / 2);
            let inside = start <= k < start + prerender && k < n_pages;
            &&& after.contains_key(k) ==> images.contains_key(k) && after[k] == images[k] && inside
            &&& total(pending_sizes(images), images.dom()) <= MAX_RESIDENT_BYTES
                && images.contains_key(k) && inside ==> after.contains_key(k)
        }),
{
    law_pending_sizes(images, k);
    if total(pending_sizes(images), images.dom()) <= MAX_RESIDENT_BYTES {
        law_nothing_is_given_up_in_vain(pending_sizes(images), page);
    }
}

/// What a message tells is what is known afterwards: a rendered page waits if
/// it lies in the window; another shown page moves the window; another number
/// of pages takes all waiting pages away and keeps the shown page within it;
/// and the setting for margins is the one told.
pub proof fn law_message_is_taken_in(c: ConverterView, msg: ConverterMsg, prerender: usize)
    ensures
        ({
            let r = received(c, msg, prerender);
            let t = applied(c, msg, prerender);
            &&& t.images == pruned(r.images, t.page, t.n_pages, prerender)
            &&& msg matches ConverterMsg::AddImg(info) ==> {
                let start = max(0, c.page - prerender / 2);
                &&& r.images == if start <= info.page_num < start + prerender && info.page_num
                    < c.n_pages {
                    c.images.insert(info.page_num, info)
                } else {
                    c.images
                }
                &&& t.page == c.page && t.n_pages == c.n_pages && t.auto_crop == c.auto_crop
            }
            &&& msg matches ConverterMsg::GoToPage(page) ==> {
                &&& t.page == page
                &&& r.images == c.images
                &&& t.n_pages == c.n_pages && t.auto_crop == c.auto_crop
            }
            &&& msg matches ConverterMsg::NumPages(n) ==> {
                &&& t.n_pages == n
                &&& t.page == min(c.page as int, max(0, n - 1))
                &&& t.images.dom() == Set::<usize>::empty()
                &&& t.auto_crop == c.auto_crop
            }
            &&& msg matches ConverterMsg::AutoCrop(on) ==> {
                &&& t.auto_crop == on
                &&& r.images == c.images
                &&& t.page == c.page && t.n_pages == c.n_pages
            }
        }),
{
    let t = applied(c, msg, prerender);
    if msg is NumPages {
        assert(t.images.dom() =~= Set::<usize>::empty());
    }
}

/// The shown page, when it has been rendered, waits for conversion, and is the
/// first to be converted.
pub proof fn law_shown_page_is_converted_first(
    c: ConverterView,
    info: PageInfo,
    prerender: usize,
    i: int,
)
    requires
        info.page_num == c.page,
        c.page < c.n_pages,
        0 < prerender,
    ensures
        ({
            let t = applied(c, ConverterMsg::AddImg(info), prerender);
            &&& t.images.contains_key(c.page)
            &&& t.images[c.page] == info
            &&& first_waiting(conversion_order(t.page, t.n_pages, prerender), t.images, i)
                ==> conversion_order(t.page, t.n_pages, prerender)[i] == c.page
        }),
{
    let r = received(c, ConverterMsg::AddImg(info), prerender);
    let t = applied(c, ConverterMsg::AddImg(info), prerender);
    law_shown_page_waits(r.images, c.page, c.n_pages, prerender);
    let order = conversion_order(t.page, t.n_pages, prerender);
    if first_waiting(order, t.images, i) {
        law_nearest_page_first(t.images, t.page, t.n_pages, prerender, i, c.page);
    }
}

/// A waiting page of the window is given up only because images of pages nearer
/// to the shown one leave no room for its image.
pub proof fn law_waiting_page_given_up_for_nearer(
    images: Map<usize, PageInfo>,
    page: usize,
    n_pages: usize,
    prerender: usize,
    k: usize,
)
    requires
        images.contains_key(k),
        max(0, page - prerender / 2) <= k < max(0, page - prerender / 2) + prerender,
        k < n_pages,
        !pruned(images, page, n_pages, prerender).contains_key(k),
    ensures
        exists|near: Set<usize>|
            {
                &&& #[trigger] near.subset_of(images.dom())
                &&& total(pending_sizes(images), near) + pending_sizes(images)[k]
                    > MAX_RESIDENT_BYTES
                &&& forall|j: usize| #[trigger]
                    near.contains(j) ==> abs(j - page) < abs(k - page) || (abs(j - page) == abs(
                        k - page,
                    ) && j < k)
            },
{
    let sizes = pending_sizes(images);
    law_pending_sizes(images, k);
    assert(!resident(sizes, page).pages.contains(k));
    law_nearer_images_leave_no_room(sizes, page, k);
    law_residents_fit_budget(sizes, page);
    let near = choose|near: Set<usize>|
        {
            &&& #[trigger] near.subset_of(resident(sizes, page).pages)
            &&& total(sizes, near) + sizes[k] > MAX_RESIDENT_BYTES
            &&& forall|j: usize| #[trigger]
                near.contains(j) ==> abs(j - page) < abs(k - page) || (abs(j - page) == abs(
                    k - page,
                ) && j < k)
        };
    assert(near.subset_of(images.dom()));
}

/// Whatever page is shown, the waiting page of the window that is converted
/// first is nearest to it, or to the last page if it is past the end.
pub proof fn law_nearest_waiting_page_first(
    images: Map<usize, PageInfo>,
    page: usize,
    n_pages: usize,
    prerender: usize,
    i: int,
    k: usize,
)
    requires
        first_waiting(conversion_order(page, n_pages, prerender), images, i),
        images.contains_key(k),
        max(0, page - prerender / 2) <= k < max(0, page - prerender / 2) + prerender,
        k < n_pages,
    ensures
        ({
            let shown = min(page as int, n_pages - 1);
            let first = conversion_order(page, n_pages, prerender)[i];
            &&& images.contains_key(first)
            &&& abs(first - shown) <= abs(k - shown)
            &&& abs(first - shown) == abs(k - shown) ==> k <= first
        }),
{
    let order = conversion_order(page, n_pages, prerender);
    let around = centre(page, n_pages);
    let start = window_start(page, prerender) as usize;
    let end = window_end(page, n_pages, prerender) as usize;
    lemma_window_walkable(page, n_pages, prerender);
    law_walk_visits_each_once(around, start, end);
    assert(order.contains(k));
    let j = choose|j: int| 0 <= j < order.len() && order[j] == k;
    assert(images.contains_key(order[j]));
    assert(i <= j);
    if i < j {
        law_walk_by_nearness(around, start, end, i, j);
    }
}

/// What is known is all that the messages told; the first waiting page of an
/// order is one that waits, with none before it.
pub proof fn law_first_and_known(
    c: Converter,
    order: Seq<usize>,
    images: Map<usize, PageInfo>,
    i: int,
)
    ensures
        c.known().images == c.images@ && c.known().page == c.page && c.known().n_pages == c.n_pages
            && c.known().auto_crop == c.auto_crop,
        first_waiting(order, images, i) <==> 0 <= i < order.len() && images.contains_key(order[i])
            && forall|j: int| 0 <= j < i ==> !images.contains_key(#[trigger] order[j]),
        forall|n: usize, at: usize, size: usize|
            #[trigger] dequeues(images, n, at, size) <==> images.len() > 0 && n > 0 && at < size,
{
}

} // verus!
