//! Which page images stay in memory: the nearest ones that fit the budget.

use crate::arith::distance;
use crate::seqs::{lemma_insert_contains, lemma_push_contains};
use std::collections::HashSet;
use vstd::math::abs;
use vstd::prelude::*;

verus! {

/// Memory for page images, in bytes.
pub const MAX_RESIDENT_BYTES: u128 = 262144000;

/// Bytes that an image of three bytes a pixel takes.
pub open spec fn image_bytes(width: u32, height: u32) -> nat {
    (width * height * 3) as nat
}

/// [`image_bytes`], computed.
pub fn image_byte_count(width: u32, height: u32) -> (bytes: u128)
    ensures
        bytes == image_bytes(width, height),
        bytes <= u128::MAX - MAX_RESIDENT_BYTES,
{
    proof {
        assert(width * height <= 0xffff_ffff * 0xffff_ffff) by (nonlinear_arith)
            requires
                0 <= width <= 0xffff_ffff,
                0 <= height <= 0xffff_ffff,
        ;
        assert(0 <= width * height) by (nonlinear_arith);
    }
    width as u128 * height as u128 * 3
}

/// Pages that stay, and the bytes that they take together.
#[verifier::ext_equal]
pub struct Resident {
    pub pages: Set<usize>,
    pub bytes: nat,
}

/// The first page stays whatever its size; another one if it still fits.
pub open spec fn keep(r: Resident, page: usize, bytes: nat) -> Resident {
    if r.pages.len() == 0 || r.bytes + bytes <= MAX_RESIDENT_BYTES {
        Resident { pages: r.pages.insert(page), bytes: r.bytes + bytes }
    } else {
        r
    }
}

/// Offers page `k` its place, if there is an image of it.
pub open spec fn offer(r: Resident, sizes: Map<usize, nat>, k: int) -> Resident {
    if 0 <= k <= usize::MAX && sizes.contains_key(k as usize) {
        keep(r, k as usize, sizes[k as usize])
    } else {
        r
    }
}

/// What stays of the pages less than `reach` away from `page`: they are offered
/// a place from the nearest one outward, of two equally near ones the lower
/// one first.
pub open spec fn resident_within(sizes: Map<usize, nat>, page: usize, reach: nat) -> Resident
    decreases reach,
{
    if reach == 0 {
        Resident { pages: Set::empty(), bytes: 0 }
    } else {
        let far = (reach - 1) as nat;
        let nearer = resident_within(sizes, page, far);
        if far == 0 {
            offer(nearer, sizes, page as int)
        } else {
            offer(offer(nearer, sizes, page - far), sizes, page + far)
        }
    }
}

/// The pages whose images stay in memory while `page` is shown, where `sizes`
/// holds the bytes of each image that there is.
pub open spec fn resident(sizes: Map<usize, nat>, page: usize) -> Resident {
    resident_within(sizes, page, (usize::MAX + 1) as nat)
}

/// `a` is offered a place before `b`.
pub open spec fn nearer(a: usize, b: usize, page: usize) -> bool {
    distance(a, page) < distance(b, page) || (distance(a, page) == distance(b, page) && a < b)
}

pub open spec fn nearest_first(entries: Seq<(usize, u128)>, page: usize) -> bool {
    forall|i: int, j: int|
        0 <= i < j < entries.len() ==> nearer((#[trigger] entries[i]).0, (#[trigger] entries[j]).0, page)
}

/// No page is listed twice.
pub open spec fn distinct_pages(entries: Seq<(usize, u128)>) -> bool {
    forall|i: int, j: int|
        0 <= i < j < entries.len() ==> (#[trigger] entries[i]).0 != (#[trigger] entries[j]).0
}

/// `entries` lists every page of `sizes` once, with its size.
pub open spec fn lists(entries: Seq<(usize, u128)>, sizes: Map<usize, nat>) -> bool {
    &&& distinct_pages(entries)
    &&& forall|i: int|
        0 <= i < entries.len() ==> sizes.contains_key((#[trigger] entries[i]).0)
            && sizes[entries[i].0] == entries[i].1
    &&& forall|k: usize|
        sizes.contains_key(k) ==> exists|i: int|
            0 <= i < entries.len() && (#[trigger] entries[i]).0 == k
}

/// What stays when the entries are offered a place in their order.
spec fn resident_in_order(entries: Seq<(usize, u128)>, n: nat) -> Resident
    decreases n,
{
    if n == 0 {
        Resident { pages: Set::empty(), bytes: 0 }
    } else {
        let e = entries[n - 1];
        keep(resident_in_order(entries, (n - 1) as nat), e.0, e.1 as nat)
    }
}

/// The number of entries among the first `n` that are less than `reach` away.
proof fn split_at_distance(
    entries: Seq<(usize, u128)>,
    page: usize,
    reach: nat,
    n: nat,
) -> (m: nat)
    requires
        nearest_first(entries, page),
        n <= entries.len(),
        forall|j: int| n <= j < entries.len() ==> distance((#[trigger] entries[j]).0, page) >= reach,
    ensures
        m <= n,
        forall|j: int| 0 <= j < m ==> distance((#[trigger] entries[j]).0, page) < reach,
        forall|j: int| m <= j < entries.len() ==> distance((#[trigger] entries[j]).0, page) >= reach,
    decreases n,
{
    if n > 0 && distance(entries[n - 1].0, page) >= reach {
        split_at_distance(entries, page, reach, (n - 1) as nat)
    } else {
        n
    }
}

/// Offering sorted entries a place in their order is the walk outward.
proof fn lemma_in_order_is_outward(
    entries: Seq<(usize, u128)>,
    sizes: Map<usize, nat>,
    page: usize,
    reach: nat,
    n: nat,
)
    requires
        lists(entries, sizes),
        nearest_first(entries, page),
        n <= entries.len(),
        forall|j: int| 0 <= j < n ==> distance((#[trigger] entries[j]).0, page) < reach,
        forall|j: int| n <= j < entries.len() ==> distance((#[trigger] entries[j]).0, page) >= reach,
    ensures
        resident_in_order(entries, n) == resident_within(sizes, page, reach),
    decreases reach,
{
    if reach == 0 {
        if n > 0 {
            assert(distance(entries[0].0, page) < 0);
        }
    } else {
        let far = (reach - 1) as nat;
        let m = split_at_distance(entries, page, far, n);
        lemma_in_order_is_outward(entries, sizes, page, far, m);
        assert forall|j: int| m <= j < n implies (#[trigger] entries[j]).0 == page - far
            || entries[j].0 == page + far by {
            assert(distance(entries[j].0, page) < reach);
        }
        if n >= m + 3 {
            let a = entries[m as int];
            let b = entries[m as int + 1];
            let c = entries[m as int + 2];
            assert(nearer(a.0, b.0, page) && nearer(b.0, c.0, page));
            assert(false);
        }
        let low = page - far;
        let high = page + far;
        let has_low = 0 <= low <= usize::MAX && sizes.contains_key(low as usize);
        let has_high = 0 <= high <= usize::MAX && sizes.contains_key(high as usize);
        if has_low {
            let i = choose|i: int| 0 <= i < entries.len() && (#[trigger] entries[i]).0 == low as usize;
            assert(m <= i < n);
        }
        if has_high {
            let i = choose|i: int|
                0 <= i < entries.len() && (#[trigger] entries[i]).0 == high as usize;
            assert(m <= i < n);
        }
        if n >= m + 1 {
            assert(sizes.contains_key(entries[m as int].0));
        }
        if n >= m + 2 {
            assert(nearer(entries[m as int].0, entries[m as int + 1].0, page));
            assert(sizes.contains_key(entries[m as int + 1].0));
        }
        reveal_with_fuel(resident_in_order, 3);
        if n == m {
            assert(!has_low && !has_high);
        } else if n == m + 1 {
            let e = entries[m as int];
            assert(resident_in_order(entries, n) == keep(resident_in_order(entries, m), e.0, e.1 as nat));
            if far == 0 {
            } else if has_low {
                assert(e.0 == low);
                assert(!has_high);
            } else {
                assert(e.0 == high);
            }
        } else {
            assert(n == m + 2);
            assert(entries[m as int].0 == low && entries[m as int + 1].0 == high && far > 0);
        }
    }
}

fn abs_diff(a: usize, b: usize) -> (d: usize)
    ensures
        d == distance(a, b),
{
    if a < b {
        b - a
    } else {
        a - b
    }
}

fn comes_before(a: usize, b: usize, page: usize) -> (before: bool)
    ensures
        before == nearer(a, b, page),
{
    let da: usize = abs_diff(a, page);
    let db: usize = abs_diff(b, page);
    da < db || (da == db && a < b)
}

/// Entries with the same elements list the same pages.
proof fn lemma_lists_same(
    a: Seq<(usize, u128)>,
    b: Seq<(usize, u128)>,
    sizes: Map<usize, nat>,
)
    requires
        lists(a, sizes),
        distinct_pages(b),
        forall|e: (usize, u128)| b.contains(e) <==> a.contains(e),
    ensures
        lists(b, sizes),
{
    assert forall|i: int| 0 <= i < b.len() implies sizes.contains_key((#[trigger] b[i]).0)
        && sizes[b[i].0] == b[i].1 by {
        assert(b.contains(b[i]));
        let k = choose|k: int| 0 <= k < a.len() && a[k] == b[i];
        assert(sizes.contains_key(a[k].0));
    }
    assert forall|k: usize| sizes.contains_key(k) implies exists|i: int|
        0 <= i < b.len() && (#[trigger] b[i]).0 == k by {
        let i = choose|i: int| 0 <= i < a.len() && (#[trigger] a[i]).0 == k;
        assert(a.contains(a[i]));
        let j = choose|j: int| 0 <= j < b.len() && b[j] == a[i];
        assert(b[j].0 == k);
    }
}

/// The entries in the order in which they are offered a place.
fn sort_nearest_first(entries: &Vec<(usize, u128)>, page: usize) -> (sorted: Vec<(usize, u128)>)
    requires
        distinct_pages(entries@),
    ensures
        sorted@.len() == entries@.len(),
        nearest_first(sorted@, page),
        forall|e: (usize, u128)| sorted@.contains(e) <==> entries@.contains(e),
{
    let mut sorted: Vec<(usize, u128)> = Vec::with_capacity(entries.len());
    let mut i: usize = 0;
    while i < entries.len()
        invariant
            i <= entries@.len(),
            distinct_pages(entries@),
            sorted@.len() == i,
            nearest_first(sorted@, page),
            forall|e: (usize, u128)| sorted@.contains(e) <==> entries@.take(i as int).contains(e),
        decreases entries@.len() - i,
    {
        let entry: (usize, u128) = entries[i];
        let mut at: usize = sorted.len();
        proof {
            assert forall|k: int| 0 <= k < sorted@.len() implies (#[trigger] sorted@[k]).0
                != entry.0 by {
                assert(sorted@.contains(sorted@[k]));
                let was = entries@.take(i as int);
                let m = choose|m: int| 0 <= m < was.len() && was[m] == sorted@[k];
                assert(entries@[m].0 != entries@[i as int].0);
            }
        }
        while at > 0 && comes_before(entry.0, sorted[at - 1].0, page)
            invariant
                at <= sorted@.len(),
                nearest_first(sorted@, page),
                forall|k: int|
                    at <= k < sorted@.len() ==> nearer(entry.0, (#[trigger] sorted@[k]).0, page),
            decreases at,
        {
            at -= 1;
        }
        let ghost before = sorted@;
        sorted.insert(at, entry);
        proof {
            assert(entries@.take(i + 1) =~= entries@.take(i as int).push(entry));
            assert forall|e: (usize, u128)|
                sorted@.contains(e) <==> entries@.take(i + 1).contains(e) by {
                lemma_insert_contains(before, at as int, entry, e);
                lemma_push_contains(entries@.take(i as int), entry, e);
            }
        }
        i += 1;
    }
    proof {
        assert(entries@.take(i as int) =~= entries@);
    }
    sorted
}

/// The listed pages whose images stay in memory while `page` is shown.
pub fn resident_pages(entries: &Vec<(usize, u128)>, page: usize) -> (pages: HashSet<usize>)
    requires
        distinct_pages(entries@),
        forall|i: int| 0 <= i < entries@.len() ==> (#[trigger] entries@[i]).1 <= u128::MAX - MAX_RESIDENT_BYTES,
    ensures
        forall|sizes: Map<usize, nat>| #[trigger]
            lists(entries@, sizes) ==> pages@ == resident(sizes, page).pages,
{
    broadcast use vstd::std_specs::hash::group_hash_axioms;

    let sorted = sort_nearest_first(entries, page);
    proof {
        assert forall|k: int| 0 <= k < sorted@.len() implies (#[trigger] sorted@[k]).1 <= u128::MAX
            - MAX_RESIDENT_BYTES by {
            assert(sorted@.contains(sorted@[k]));
            let i = choose|i: int| 0 <= i < entries@.len() && entries@[i] == sorted@[k];
            assert(entries@[i].1 <= u128::MAX - MAX_RESIDENT_BYTES);
        }
    }
    let mut pages: HashSet<usize> = HashSet::new();
    let mut bytes: u128 = 0;
    let mut i: usize = 0;
    while i < sorted.len()
        invariant
            i <= sorted@.len(),
            pages@.finite(),
            (Resident { pages: pages@, bytes: bytes as nat }) == resident_in_order(sorted@, i as nat),
            pages@.len() == 0 ==> bytes == 0,
            forall|k: int| 0 <= k < sorted@.len() ==> (#[trigger] sorted@[k]).1 <= u128::MAX - MAX_RESIDENT_BYTES,
        decreases sorted@.len() - i,
    {
        let entry: (usize, u128) = sorted[i];
        let first: bool = pages.is_empty();
        if first || (bytes <= MAX_RESIDENT_BYTES && bytes + entry.1 <= MAX_RESIDENT_BYTES) {
            pages.insert(entry.0);
            bytes = bytes + entry.1;
        }
        i += 1;
    }
    proof {
        assert forall|sizes: Map<usize, nat>| #[trigger] lists(entries@, sizes) implies pages@
            == resident(sizes, page).pages by {
            lemma_lists_same(entries@, sorted@, sizes);
            assert forall|j: int| 0 <= j < sorted@.len() implies distance((#[trigger] sorted@[j]).0, page)
                < usize::MAX + 1 by {}
            lemma_in_order_is_outward(
                sorted@,
                sizes,
                page,
                (usize::MAX + 1) as nat,
                sorted@.len(),
            );
        }
    }
    pages
}

proof fn lemma_resident_grows(sizes: Map<usize, nat>, page: usize, a: nat, b: nat)
    requires
        a <= b,
    ensures
        resident_within(sizes, page, a).pages.subset_of(resident_within(sizes, page, b).pages),
    decreases b,
{
    if a < b {
        lemma_resident_grows(sizes, page, a, (b - 1) as nat);
    }
}

/// The image of the page that is shown always stays.
pub proof fn law_shown_page_stays(sizes: Map<usize, nat>, page: usize)
    requires
        sizes.contains_key(page),
    ensures
        resident(sizes, page).pages.contains(page),
{
    reveal_with_fuel(resident_within, 2);
    assert(resident_within(sizes, page, 1).pages.contains(page));
    lemma_resident_grows(sizes, page, 1, (usize::MAX + 1) as nat);
}

/// The sizes of those of the first `n` pages that are among `pages`, added up.
pub open spec fn total_below(sizes: Map<usize, nat>, pages: Set<usize>, n: nat) -> nat
    decreases n,
{
    if n == 0 {
        0
    } else {
        let rest = total_below(sizes, pages, (n - 1) as nat);
        if pages.contains((n - 1) as usize) {
            rest + sizes[(n - 1) as usize]
        } else {
            rest
        }
    }
}

/// The sizes of these pages, added up.
pub open spec fn total(sizes: Map<usize, nat>, pages: Set<usize>) -> nat {
    total_below(sizes, pages, (usize::MAX + 1) as nat)
}

proof fn lemma_total_insert(sizes: Map<usize, nat>, pages: Set<usize>, k: usize, n: nat)
    requires
        !pages.contains(k),
        n <= usize::MAX + 1,
    ensures
        total_below(sizes, pages.insert(k), n) == total_below(sizes, pages, n) + if k < n {
            sizes[k]
        } else {
            0
        },
    decreases n,
{
    if n > 0 {
        lemma_total_insert(sizes, pages, k, (n - 1) as nat);
    }
}

/// Fewer pages, with sizes that are the same, take no more.
proof fn lemma_total_fewer(
    a: Map<usize, nat>,
    b: Map<usize, nat>,
    few: Set<usize>,
    many: Set<usize>,
    n: nat,
)
    requires
        few.subset_of(many),
        forall|k: usize| #[trigger] few.contains(k) ==> a[k] == b[k],
        n <= usize::MAX + 1,
    ensures
        total_below(a, few, n) <= total_below(b, many, n),
    decreases n,
{
    if n > 0 {
        lemma_total_fewer(a, b, few, many, (n - 1) as nat);
        if few.contains((n - 1) as usize) {
            assert(many.contains((n - 1) as usize));
        }
    }
}

/// Of the images that may stay, some stay: together they fit the budget,
/// unless there is but one.
pub proof fn lemma_part_fits_budget(
    sizes: Map<usize, nat>,
    page: usize,
    left: Map<usize, nat>,
)
    requires
        left.dom().subset_of(resident(sizes, page).pages),
        forall|k: usize| #[trigger] left.contains_key(k) ==> left[k] == sizes[k],
    ensures
        left.dom().finite(),
        total(left, left.dom()) <= MAX_RESIDENT_BYTES || left.dom().len() == 1,
{
    let kept = resident(sizes, page).pages;
    law_residents_fit_budget(sizes, page);
    lemma_total_fewer(left, sizes, left.dom(), kept, (usize::MAX + 1) as nat);
    vstd::set_lib::lemma_set_subset_finite(kept, left.dom());
    vstd::set_lib::lemma_len_subset(left.dom(), kept);
    if left.dom().len() == 0 {
        assert(left.dom() =~= Set::empty());
        lemma_total_none(left, (usize::MAX + 1) as nat);
    }
}

proof fn lemma_total_none(sizes: Map<usize, nat>, n: nat)
    ensures
        total_below(sizes, Set::empty(), n) == 0,
    decreases n,
{
    if n > 0 {
        lemma_total_none(sizes, (n - 1) as nat);
    }
}

/// A page that is offered a place adds its size.
proof fn lemma_offer_total(r: Resident, sizes: Map<usize, nat>, k: int)
    requires
        r.bytes == total(sizes, r.pages),
        0 <= k <= usize::MAX ==> !r.pages.contains(k as usize),
    ensures
        offer(r, sizes, k).bytes == total(sizes, offer(r, sizes, k).pages),
{
    if 0 <= k <= usize::MAX {
        lemma_total_insert(sizes, r.pages, k as usize, (usize::MAX + 1) as nat);
    }
}

proof fn lemma_resident_fits(sizes: Map<usize, nat>, page: usize, reach: nat)
    ensures
        ({
            let r = resident_within(sizes, page, reach);
            &&& r.pages.finite()
            &&& r.pages.len() == 0 ==> r.bytes == 0
            &&& r.bytes <= MAX_RESIDENT_BYTES || r.pages.len() == 1
            &&& r.bytes == total(sizes, r.pages)
            &&& forall|k: usize| #[trigger]
                r.pages.contains(k) ==> sizes.contains_key(k) && distance(k, page) < reach
        }),
    decreases reach,
{
    if reach == 0 {
        lemma_total_none(sizes, (usize::MAX + 1) as nat);
    } else {
        let far = (reach - 1) as nat;
        lemma_resident_fits(sizes, page, far);
        let close = resident_within(sizes, page, far);
        if far == 0 {
            lemma_offer_total(close, sizes, page as int);
        } else {
            lemma_offer_total(close, sizes, page - far);
            lemma_offer_total(offer(close, sizes, page - far), sizes, page + far);
        }
    }
}

/// What stays fits the budget, all sizes added up, unless it is a single image;
/// and only images that there are can stay.
pub proof fn law_residents_fit_budget(sizes: Map<usize, nat>, page: usize)
    ensures
        resident(sizes, page).pages.finite(),
        resident(sizes, page).bytes == total(sizes, resident(sizes, page).pages),
        total(sizes, resident(sizes, page).pages) <= MAX_RESIDENT_BYTES || resident(
            sizes,
            page,
        ).pages.len() == 1,
        resident(sizes, page).pages.subset_of(sizes.dom()),
{
    lemma_resident_fits(sizes, page, (usize::MAX + 1) as nat);
}

/// What stays of the images that are offered a place before that of page `k`.
pub open spec fn resident_before(sizes: Map<usize, nat>, page: usize, k: usize) -> Resident {
    let close = resident_within(sizes, page, distance(k, page));
    if k <= page {
        close
    } else {
        offer(close, sizes, page - distance(k, page))
    }
}

/// An image is given up only if it no longer fits beside nearer ones that stay.
pub proof fn law_given_up_only_for_nearer(sizes: Map<usize, nat>, page: usize, k: usize)
    requires
        sizes.contains_key(k),
        !resident(sizes, page).pages.contains(k),
    ensures
        resident_before(sizes, page, k).pages.len() > 0,
        resident_before(sizes, page, k).bytes + sizes[k] > MAX_RESIDENT_BYTES,
        resident_before(sizes, page, k).pages.subset_of(resident(sizes, page).pages),
        forall|j: usize| #[trigger]
            resident_before(sizes, page, k).pages.contains(j) ==> nearer(j, k, page),
{
    let d = distance(k, page);
    let all = (usize::MAX + 1) as nat;
    let close = resident_within(sizes, page, d);
    lemma_resident_fits(sizes, page, d);
    lemma_resident_grows(sizes, page, d, all);
    lemma_resident_grows(sizes, page, d + 1, all);
    if k > page {
        assert(k == page + d);
        assert(resident_before(sizes, page, k).pages.subset_of(
            resident_within(sizes, page, d + 1).pages,
        ));
    }
}

/// What stays before page `k` is offered a place takes what its images take.
proof fn lemma_resident_before(sizes: Map<usize, nat>, page: usize, k: usize)
    ensures
        ({
            let r = resident_before(sizes, page, k);
            &&& r.bytes == total(sizes, r.pages)
            &&& !r.pages.contains(k)
        }),
{
    let d = distance(k, page);
    lemma_resident_fits(sizes, page, d);
    if k > page {
        lemma_offer_total(resident_within(sizes, page, d), sizes, page - d);
    }
}

/// Sizes add up: no pages take nothing, and one more page takes as much more as
/// its image.
pub proof fn law_sizes_add_up(sizes: Map<usize, nat>, pages: Set<usize>, k: usize)
    requires
        !pages.contains(k),
    ensures
        total(sizes, Set::empty()) == 0,
        total(sizes, pages.insert(k)) == total(sizes, pages) + sizes[k],
{
    lemma_total_none(sizes, (usize::MAX + 1) as nat);
    lemma_total_insert(sizes, pages, k, (usize::MAX + 1) as nat);
}

/// An image is given up only because images of nearer pages stay that leave no
/// room for it; of two equally near pages, the lower one counts as nearer.
pub proof fn law_nearer_images_leave_no_room(sizes: Map<usize, nat>, page: usize, k: usize)
    requires
        sizes.contains_key(k),
        !resident(sizes, page).pages.contains(k),
    ensures
        exists|near: Set<usize>|
            {
                &&& #[trigger] near.subset_of(resident(sizes, page).pages)
                &&& total(sizes, near) + sizes[k] > MAX_RESIDENT_BYTES
                &&& forall|j: usize| #[trigger]
                    near.contains(j) ==> abs(j - page) < abs(k - page) || (abs(j - page) == abs(
                        k - page,
                    ) && j < k)
            },
{
    law_given_up_only_for_nearer(sizes, page, k);
    lemma_resident_before(sizes, page, k);
    let near = resident_before(sizes, page, k).pages;
    assert forall|j: usize| #[trigger] near.contains(j) implies abs(j - page) < abs(k - page) || (
    abs(j - page) == abs(k - page) && j < k) by {
        assert(nearer(j, k, page));
    }
    assert(near.subset_of(resident(sizes, page).pages));
}

/// As long as all images fit, all stay.
pub proof fn law_nothing_is_given_up_in_vain(sizes: Map<usize, nat>, page: usize)
    requires
        total(sizes, sizes.dom()) <= MAX_RESIDENT_BYTES,
    ensures
        resident(sizes, page).pages == sizes.dom(),
{
    let kept = resident(sizes, page).pages;
    law_residents_fit_budget(sizes, page);
    assert forall|k: usize| sizes.contains_key(k) implies kept.contains(k) by {
        if !kept.contains(k) {
            law_given_up_only_for_nearer(sizes, page, k);
            lemma_resident_before(sizes, page, k);
            let near = resident_before(sizes, page, k).pages;
            law_sizes_add_up(sizes, near, k);
            lemma_total_fewer(
                sizes,
                sizes,
                near.insert(k),
                sizes.dom(),
                (usize::MAX + 1) as nat,
            );
        }
    }
    assert(kept =~= sizes.dom());
}

/// A list of images names every page that has one once, with its size.
pub proof fn law_lists(entries: Seq<(usize, u128)>, sizes: Map<usize, nat>)
    ensures
        lists(entries, sizes) <==> {
            &&& forall|i: int, j: int|
                0 <= i < j < entries.len() ==> (#[trigger] entries[i]).0 != (#[trigger] entries[j]).0
            &&& forall|i: int|
                0 <= i < entries.len() ==> sizes.contains_key((#[trigger] entries[i]).0)
                    && sizes[entries[i].0] == entries[i].1
            &&& forall|k: usize|
                sizes.contains_key(k) ==> exists|i: int|
                    0 <= i < entries.len() && (#[trigger] entries[i]).0 == k
        },
        forall|w: u32, h: u32| #[trigger] image_bytes(w, h) == 3 * (w * h),
{
    assert forall|w: u32, h: u32| #[trigger] image_bytes(w, h) == 3 * (w * h) by {
        assert(0 <= w * h) by (nonlinear_arith)
            requires
                0 <= w,
                0 <= h,
        ;
    }
}

} // verus!
