//! Pages ready for the terminal, and their images in its memory.

use crate::error::RenderError;
use crate::image_pipeline::{decoded, image_from_rgb_data};
use crate::raster::{
    lemma_processed_width, process_rgb_image, processable, processed, Raster, RgbImage,
};
use crate::renderer::PageInfo;
use crate::terminal::law_digits_are_read_back;
use crate::text::{decimal, push_decimal};
use vstd::prelude::*;

verus! {

/// An image as the terminal receives it; nothing here looks inside.
#[verifier::external_type_specification]
#[verifier::external_body]
pub struct ExKittyImage<'data>(kittage::image::Image<'data>);

/// The number by which the terminal knows an image; never zero.
#[derive(Clone, Copy, Debug, PartialEq, Eq)]
pub struct ImageId {
    raw: u32,
}

impl View for ImageId {
    type V = u32;

    closed spec fn view(&self) -> u32 {
        self.raw
    }
}

impl ImageId {
    #[verifier::type_invariant]
    spec fn wf(self) -> bool {
        self.raw != 0
    }

    /// The image with this number, unless it is zero.
    pub fn new(raw: u32) -> (id: Option<ImageId>)
        ensures
            id is None <==> raw == 0,
            id matches Some(i) ==> i@ == raw,
    {
        if raw == 0 {
            None
        } else {
            Some(ImageId { raw })
        }
    }

    pub fn get(self) -> (raw: u32)
        ensures
            raw == self@,
            raw != 0,
    {
        proof {
            use_type_invariant(&self);
        }
        self.raw
    }
}

/// How an image is addressed when it is sent: by a number that the terminal
/// answers with an id, or by an id.
#[derive(Clone, Copy, Debug)]
pub enum NumberOrId {
    Number(ImageId),
    Id(ImageId),
}

/// An image that is still to be sent.
#[derive(Debug)]
pub struct TransmitImage {
    pub num_or_id: NumberOrId,
    pub image: kittage::image::Image<'static>,
}

#[derive(Debug)]
pub enum MaybeTransferred {
    /// Image data ready to transmit for the first time.
    NotYet(TransmitImage),
    /// Image already in the terminal's memory; this id displays it again.
    Transferred(ImageId),
}

impl MaybeTransferred {
    /// The id under which the terminal knows the image, or will know it.
    pub open spec fn id_hint(self) -> Option<ImageId> {
        match self {
            MaybeTransferred::NotYet(image) => match image.num_or_id {
                NumberOrId::Id(id) => Some(id),
                NumberOrId::Number(_) => None,
            },
            MaybeTransferred::Transferred(id) => Some(id),
        }
    }

    /// [`MaybeTransferred::id_hint`], computed.
    pub fn image_id_hint(&self) -> (hint: Option<ImageId>)
        ensures
            hint == self.id_hint(),
    {
        match self {
            MaybeTransferred::NotYet(image) => match image.num_or_id {
                NumberOrId::Id(id) => Some(id),
                NumberOrId::Number(_) => None,
            },
            MaybeTransferred::Transferred(id) => Some(*id),
        }
    }
}

/// A page ready for display.
pub struct ConvertedPage {
    pub page_num: usize,
    pub img: MaybeTransferred,
    pub pixel_w: u32,
    pub pixel_h: u32,
    pub generation: u64,
    pub num_results: usize,
}

/// The mark that follows a mark; the greatest is followed by zero.
pub open spec fn next_mark(mark: u64) -> u64 {
    if mark == u64::MAX {
        0
    } else {
        (mark + 1) as u64
    }
}

/// Counts the pages that have been converted. One counter serves all
/// conversions of a process, so that its marks tell their pages apart.
#[derive(Debug)]
pub struct GenerationCounter {
    /// What the next page that is converted is marked with.
    pub next: u64,
}

impl GenerationCounter {
    /// The counter before the first page.
    pub fn new() -> (counter: Self)
        ensures
            counter.next == 1,
    {
        GenerationCounter { next: 1 }
    }

    /// A mark for one page.
    pub fn take(&mut self) -> (mark: u64)
        ensures
            mark == old(self).next,
            final(self).next == next_mark(old(self).next),
    {
        let mark: u64 = self.next;
        self.next = mark.wrapping_add(1);
        mark
    }
}

/// What a conversion does with the mark that is next: a page that could be
/// converted carries it and uses it up.
pub open spec fn marked(before: u64, res: Result<ConvertedPage, RenderError>, after: u64) -> bool {
    match res {
        Ok(page) => page.generation == before && after == next_mark(before),
        Err(_) => after == before,
    }
}

/// How many of the conversions from `i` up to, but without, `j` gave a page.
pub open spec fn converted_between(
    results: Seq<Result<ConvertedPage, RenderError>>,
    i: int,
    j: int,
) -> nat
    decreases j - i,
{
    if j <= i {
        0
    } else {
        converted_between(results, i, j - 1) + if results[j - 1] is Ok {
            1nat
        } else {
            0
        }
    }
}

proof fn lemma_marks_count(
    marks: Seq<u64>,
    results: Seq<Result<ConvertedPage, RenderError>>,
    i: int,
    j: int,
)
    requires
        marks.len() == results.len() + 1,
        forall|k: int|
            0 <= k < results.len() ==> marked(marks[k], #[trigger] results[k], marks[k + 1]),
        0 <= i <= j <= results.len(),
    ensures
        marks[j] == (marks[i] + converted_between(results, i, j)) % 0x1_0000_0000_0000_0000,
    decreases j - i,
{
    if i < j {
        lemma_marks_count(marks, results, i, j - 1);
        assert(marked(marks[j - 1], results[j - 1], marks[j]));
    }
}

/// Over a run of conversions that share a counter, each page is marked by how
/// many were converted before it. So two pages have different marks, and the
/// later one has the greater mark, as long as the counter has not come round.
pub proof fn law_marks_tell_pages_apart(
    marks: Seq<u64>,
    results: Seq<Result<ConvertedPage, RenderError>>,
    i: int,
    j: int,
)
    requires
        marks.len() == results.len() + 1,
        forall|k: int|
            0 <= k < results.len() ==> marked(marks[k], #[trigger] results[k], marks[k + 1]),
        0 <= i < j < results.len(),
        results[i] is Ok,
        results[j] is Ok,
    ensures
        results[j]->Ok_0.generation == (results[i]->Ok_0.generation + converted_between(
            results,
            i,
            j,
        )) % 0x1_0000_0000_0000_0000,
        converted_between(results, i, j) < 0x1_0000_0000_0000_0000 ==> results[i]->Ok_0.generation
            != results[j]->Ok_0.generation,
        results[i]->Ok_0.generation + converted_between(results, i, j) <= u64::MAX
            ==> results[i]->Ok_0.generation < results[j]->Ok_0.generation,
{
    lemma_marks_count(marks, results, i, j);
    lemma_first_counts(results, i, j);
    assert(marked(marks[i], results[i], marks[i + 1]));
    assert(marked(marks[j], results[j], marks[j + 1]));
}

proof fn lemma_first_counts(results: Seq<Result<ConvertedPage, RenderError>>, i: int, j: int)
    requires
        0 <= i < j,
        results[i] is Ok,
    ensures
        converted_between(results, i, j) >= 1,
    decreases j,
{
    if i + 1 < j {
        lemma_first_counts(results, i, j - 1);
    }
}

/// The number of the image of a page: one more than the page, counted in 32
/// bits and held at the greatest number.
pub open spec fn image_id_of_page(page_num: usize) -> u32 {
    let low = page_num as int % 0x1_0000_0000;
    if low + 1 > u32::MAX {
        u32::MAX
    } else {
        (low + 1) as u32
    }
}

/// [`image_id_of_page`], computed.
pub fn page_image_id(page_num: usize) -> (id: ImageId)
    ensures
        id@ == image_id_of_page(page_num),
{
    let low: u64 = (page_num as u64) % 0x1_0000_0000;
    ImageId { raw: (low as u32).saturating_add(1) }
}

/// The name of the shared memory that carries the image of a page.
pub open spec fn shm_name_text(pid: u32, nanos: u128, page_num: usize) -> Seq<char> {
    "/treader_"@ + decimal(pid as nat) + "_"@ + decimal(nanos as nat % 1_000_000) + "_"@ + decimal(
        page_num as nat,
    )
}

/// A name for shared memory that two images do not easily share: it holds the
/// process, the time in nanoseconds up to a millisecond, and the page.
pub fn shm_name(pid: u32, nanos: u128, page_num: usize) -> (name: String)
    ensures
        name@ == shm_name_text(pid, nanos, page_num),
{
    let mut name = "/treader_".to_owned();
    push_decimal(&mut name, pid as u128);
    name.append("_");
    push_decimal(&mut name, nanos % 1_000_000);
    name.append("_");
    push_decimal(&mut name, page_num as u128);
    name
}

/// What is known of a page whose pixels are final, before it is made into an
/// image for the terminal.
pub struct PreparedPage {
    pub page_num: usize,
    pub pixel_w: u32,
    pub pixel_h: u32,
    pub id: ImageId,
    pub num_results: usize,
}

/// The page can be converted: a row of its pixels can be counted, and what is
/// to be done to its image can be done with the bytes after the last row.
pub open spec fn convertible(page_info: PageInfo, auto_crop: bool) -> bool {
    &&& 3 * page_info.img_data.width <= usize::MAX
    &&& decoded(page_info.img_data) matches Ok(r) ==> processable(
        r,
        page_info.result_rects@,
        auto_crop,
    )
}

/// [`convertible`], computed.
pub fn can_convert(page_info: &PageInfo, auto_crop: bool) -> (can: bool)
    ensures
        can == convertible(*page_info, auto_crop),
{
    let img = &page_info.img_data;
    let ghost r = decoded(*img)->Ok_0;
    let stride: usize = match (img.width as usize).checked_mul(3) {
        Some(stride) => stride,
        None => {
            return false;
        },
    };
    if img.row_stride != stride || img.width == 0 || img.height == 0 {
        proof {
            assert(0 < stride ==> 0nat % (stride as nat) == 0 && 0nat / (stride as nat) == 0)
                by (nonlinear_arith);
        }
        return true;
    }
    let need: usize = match stride.checked_mul(img.height as usize) {
        Some(need) => need,
        None => {
            return true;
        },
    };
    if img.pixels.len() <= need {
        proof {
            assert(0nat % (stride as nat) == 0 && 0nat / (stride as nat) == 0) by (nonlinear_arith)
                requires
                    0 < stride,
            ;
            assert(decoded(*img) is Ok ==> r.beyond.len() == 0);
        }
        return true;
    }
    let beyond: usize = img.pixels.len() - need;
    proof {
        assert(r.beyond.len() == beyond);
    }
    page_info.result_rects.len() == 0 && (!auto_crop || beyond % stride == 0 && img.height as u128 + (
    beyond / stride) as u128 <= 0x1_0000_0000)
}

/// `prepared` and `image` are what becomes of `page_info`, whose pixels are
/// those of `r`.
pub open spec fn is_prepared(
    page_info: PageInfo,
    r: Raster,
    auto_crop: bool,
    prepared: PreparedPage,
    image: RgbImage,
) -> bool {
    &&& image.wf()
    &&& image@ == processed(r, page_info.result_rects@, auto_crop)
    &&& prepared.page_num == page_info.page_num
    &&& prepared.pixel_w == image.width
    &&& prepared.pixel_h == image.height
    &&& prepared.id@ == image_id_of_page(page_info.page_num)
    &&& prepared.num_results == page_info.result_rects@.len()
}

/// The final pixels of a rendered page.
pub fn prepare_page(page_info: PageInfo, auto_crop: bool) -> (res: Result<
    (PreparedPage, RgbImage),
    RenderError,
>)
    requires
        convertible(page_info, auto_crop),
    ensures
        match decoded(page_info.img_data) {
            Ok(r) => res matches Ok((prepared, image)) && is_prepared(
                page_info,
                r,
                auto_crop,
                prepared,
                image,
            ),
            Err(message) => res matches Err(e) && e.converting(message),
        },
{
    let PageInfo { page_num, img_data, result_rects } = page_info;
    let rgb = match image_from_rgb_data(img_data) {
        Ok(rgb) => rgb,
        Err(e) => {
            return Err(e);
        },
    };
    let image = process_rgb_image(rgb, result_rects.as_slice(), auto_crop);
    let prepared = PreparedPage {
        page_num,
        pixel_w: image.width,
        pixel_h: image.height,
        id: page_image_id(page_num),
        num_results: result_rects.len(),
    };
    Ok((prepared, image))
}

/// The page as it is shown, with `image` the terminal's form of its pixels.
pub open spec fn finished(
    prepared: PreparedPage,
    image: kittage::image::Image<'static>,
    generation: u64,
) -> ConvertedPage {
    ConvertedPage {
        page_num: prepared.page_num,
        img: MaybeTransferred::NotYet(
            TransmitImage { num_or_id: NumberOrId::Id(prepared.id), image },
        ),
        pixel_w: prepared.pixel_w,
        pixel_h: prepared.pixel_h,
        generation,
        num_results: prepared.num_results,
    }
}

/// The page as it is shown, with the mark that is next.
pub fn finish_page(
    prepared: PreparedPage,
    image: kittage::image::Image<'static>,
    counter: &mut GenerationCounter,
) -> (page: ConvertedPage)
    ensures
        page == finished(prepared, image, old(counter).next),
        marked(old(counter).next, Ok(page), final(counter).next),
{
    ConvertedPage {
        page_num: prepared.page_num,
        img: MaybeTransferred::NotYet(
            TransmitImage { num_or_id: NumberOrId::Id(prepared.id), image },
        ),
        pixel_w: prepared.pixel_w,
        pixel_h: prepared.pixel_h,
        generation: counter.take(),
        num_results: prepared.num_results,
    }
}

/// The image that kittage makes of RGB bytes, to be sent in the terminal's
/// input stream.
pub uninterp spec fn kitty_image_of(
    width: u32,
    height: u32,
    data: Seq<u8>,
) -> kittage::image::Image<'static>;

/// The terminal's form of an image, to be sent in its input stream.
///
/// Trusted: `kittage::image::Image::from` makes its result from the dimensions
/// and all bytes of the image alone. `image::RgbImage::from_raw` takes no image
/// with too few bytes, and none whose rows are longer than a machine word counts.
#[verifier::external_body]
fn kitty_image(img: RgbImage) -> (image: kittage::image::Image<'static>)
    requires
        img.wf(),
        3 * img.width <= usize::MAX,
    ensures
        image == kitty_image_of(img.width, img.height, img.data@),
{
    let whole = image::RgbImage::from_raw(img.width, img.height, img.data)
        .expect("an image has the bytes that its dimensions ask for");
    kittage::image::Image::from(image::DynamicImage::ImageRgb8(whole))
}

/// Makes a rendered page into one that the terminal can show, its image to be
/// sent in the input stream, and marks it with what `counter` says.
pub fn convert_page_info(
    page_info: PageInfo,
    auto_crop: bool,
    counter: &mut GenerationCounter,
) -> (res: Result<ConvertedPage, RenderError>)
    requires
        convertible(page_info, auto_crop),
    ensures
        marked(old(counter).next, res, final(counter).next),
        match decoded(page_info.img_data) {
            Ok(r) => res matches Ok(page) && exists|p: PreparedPage, img: RgbImage|
                {
                    &&& #[trigger] is_prepared(page_info, r, auto_crop, p, img)
                    &&& page == finished(
                        p,
                        kitty_image_of(img.width, img.height, img.data@),
                        old(counter).next,
                    )
                },
            Err(message) => res matches Err(e) && e.converting(message),
        },
{
    let (prepared, img) = match prepare_page(page_info, auto_crop) {
        Ok(parts) => parts,
        Err(e) => {
            return Err(e);
        },
    };
    proof {
        let r = decoded(page_info.img_data)->Ok_0;
        lemma_processed_width(r, page_info.result_rects@, auto_crop);
    }
    let image = kitty_image(img);
    Ok(finish_page(prepared, image, counter))
}

/// The image of a page has the number after that of the page, so that no two
/// pages share one and none has the number zero.
pub proof fn law_image_ids_tell_pages_apart(p: usize, q: usize)
    requires
        p < u32::MAX,
        q < u32::MAX,
    ensures
        image_id_of_page(p) == p + 1,
        p != q ==> image_id_of_page(p) != image_id_of_page(q),
        forall|k: usize| 0 < #[trigger] image_id_of_page(k),
        forall|k: usize|
            k as int % 0x1_0000_0000 == u32::MAX ==> #[trigger] image_id_of_page(k) == u32::MAX,
{
    vstd::arithmetic::div_mod::lemma_small_mod(p as nat, 0x1_0000_0000);
    vstd::arithmetic::div_mod::lemma_small_mod(q as nat, 0x1_0000_0000);
}

/// A page that is ready for display tells of its image: its size, its page, the
/// id that it is to be sent under, its mark, and the results that are on it.
pub proof fn law_page_tells_of_its_image(
    page_info: PageInfo,
    r: Raster,
    auto_crop: bool,
    prepared: PreparedPage,
    rgb: RgbImage,
    image: kittage::image::Image<'static>,
    generation: u64,
)
    requires
        is_prepared(page_info, r, auto_crop, prepared, rgb),
    ensures
        ({
            let page = finished(prepared, image, generation);
            &&& page.page_num == page_info.page_num
            &&& page.num_results == page_info.result_rects@.len()
            &&& page.pixel_w == rgb.width && page.pixel_h == rgb.height
            &&& page.generation == generation
            &&& page.img is NotYet
            &&& page.img->NotYet_0.image == image
            &&& page.img->NotYet_0.num_or_id matches NumberOrId::Id(id) && id@ == image_id_of_page(
                page_info.page_num,
            )
            &&& rgb@ == processed(r, page_info.result_rects@, auto_crop)
            &&& rgb@.rows.len() == page.pixel_h && rgb@.width == page.pixel_w
        }),
{
}

/// A page that could be converted carries the mark that was next and uses it
/// up; one that could not be leaves it.
pub proof fn law_mark_is_used_up(
    before: u64,
    res: Result<ConvertedPage, RenderError>,
    after: u64,
)
    requires
        marked(before, res, after),
        before < u64::MAX,
    ensures
        res matches Ok(page) ==> page.generation == before && after == before + 1,
        res is Err ==> after == before,
{
}

/// Shared memory is named after the page as well, so that two pages of a process
/// never share a name.
pub proof fn law_shm_names_tell_pages_apart(pid: u32, nanos: u128, p: usize, q: usize)
    requires
        p != q,
    ensures
        shm_name_text(pid, nanos, p) != shm_name_text(pid, nanos, q),
        "/treader_"@.is_prefix_of(shm_name_text(pid, nanos, p)),
        shm_name_text(pid, nanos, p) == "/treader_"@ + decimal(pid as nat) + "_"@ + decimal(
            (nanos % 1_000_000) as nat,
        ) + "_"@ + decimal(p as nat),
{
    let start = "/treader_"@ + decimal(pid as nat) + "_"@ + decimal(nanos as nat % 1_000_000) + "_"@;
    let a = shm_name_text(pid, nanos, p);
    let b = shm_name_text(pid, nanos, q);
    assert(a =~= start + decimal(p as nat));
    assert(b =~= start + decimal(q as nat));
    assert(a.skip(start.len() as int) =~= decimal(p as nat));
    assert(b.skip(start.len() as int) =~= decimal(q as nat));
    law_digits_are_read_back(p as nat);
    law_digits_are_read_back(q as nat);
    assert(a.take("/treader_"@.len() as int) =~= "/treader_"@);
}

/// The terminal knows an image by its id once it has been sent, and will know it
/// by its id if that is how it is to be sent; by a number it is not known.
pub proof fn law_known_by_id(img: MaybeTransferred)
    ensures
        img matches MaybeTransferred::Transferred(id) ==> img.id_hint() == Some(id),
        img matches MaybeTransferred::NotYet(image) ==> {
            &&& image.num_or_id matches NumberOrId::Id(id) ==> img.id_hint() == Some(id)
            &&& image.num_or_id is Number ==> img.id_hint() is None
        },
{
}

/// What can be converted: every page of which a row can be counted, unless bytes
/// follow its last row. Then nothing can be highlighted on it, and it can be cut
/// only if they are whole rows, no more than can be counted in 32 bits.
pub proof fn law_what_can_be_converted(page_info: PageInfo, auto_crop: bool)
    ensures
        convertible(page_info, auto_crop) <==> {
            let img = page_info.img_data;
            let stride = 3 * img.width;
            let extra = img.pixels@.len() - img.row_stride * img.height;
            &&& stride <= usize::MAX
            &&& img.row_stride == stride && 0 < img.width && 0 < img.height && img.row_stride
                * img.height <= usize::MAX && 0 < extra ==> {
                &&& page_info.result_rects@.len() == 0
                &&& auto_crop ==> extra % stride == 0 && img.height + extra / stride
                    <= 0x1_0000_0000
            }
        },
{
    let img = page_info.img_data;
    let stride = 3 * img.width as int;
    let extra = img.pixels@.len() - img.row_stride * img.height;
    if 0 < stride {
        assert(0nat % (stride as nat) == 0 && 0nat / (stride as nat) == 0) by (nonlinear_arith)
            requires
                0 < stride,
        ;
    }
    if decoded(img) is Ok {
        let r = decoded(img)->Ok_0;
        if img.row_stride == stride {
            assert(r.beyond.len() == extra);
        } else {
            assert(r.beyond.len() == 0);
        }
    }
}

} // verus!
