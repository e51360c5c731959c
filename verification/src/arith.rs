//! Small arithmetic that several modules speak of.

use vstd::math::abs;
use vstd::prelude::*;

verus! {

pub open spec fn least(a: int, b: int) -> int {
    if a < b {
        a
    } else {
        b
    }
}

/// `a` less `b`, but not less than nothing.
pub open spec fn excess(a: int, b: int) -> int {
    if a < b {
        0
    } else {
        a - b
    }
}

/// How far apart two numbers are.
pub open spec fn distance(a: usize, b: usize) -> nat {
    if a < b {
        (b - a) as nat
    } else {
        (a - b) as nat
    }
}

/// The first of `window` pages around `page`.
pub open spec fn window_start(page: usize, window: usize) -> int {
    excess(page as int, (window / 2) as int)
}

/// The end of the `window` pages around `page`, which is not one of them.
pub open spec fn window_end(page: usize, n_pages: usize, window: usize) -> int {
    least(window_start(page, window) + window, n_pages as int)
}

/// A window around a page begins half its size before the page and is as large
/// as it can be: it is cut only by the ends of the document.
pub proof fn law_window_surrounds_page(page: usize, n_pages: usize, window: usize)
    ensures
        0 <= window_start(page, window) <= page,
        window_start(page, window) == 0 || page - window_start(page, window) == window / 2,
        page - window_start(page, window) <= window / 2,
        window_end(page, n_pages, window) <= n_pages,
        window_end(page, n_pages, window) == n_pages || window_end(page, n_pages, window)
            - window_start(page, window) == window,
        window_end(page, n_pages, window) - window_start(page, window) <= window,
        page < n_pages && 0 < window ==> page < window_end(page, n_pages, window),
{
}

/// The distance of two numbers is the same from either of them, leads from one
/// to the other, and is nothing only from a number to itself.
pub proof fn law_distance(a: usize, b: usize)
    ensures
        distance(a, b) == distance(b, a),
        a + distance(a, b) == b || b + distance(a, b) == a,
        distance(a, b) == abs(a - b),
{
}

} // verus!
