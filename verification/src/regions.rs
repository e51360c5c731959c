//! Highlighted regions on a page that is turned.

use crate::arith::excess;
use crate::intervals::inside;
use crate::renderer::{HighlightRect, RotateDirection};
use vstd::prelude::*;

verus! {

/// Where pixel `(x, y)` of a page of `width` by `height` pixels goes when the
/// page is turned.
pub open spec fn turned_pixel(
    rotate: RotateDirection,
    width: int,
    height: int,
    x: int,
    y: int,
) -> (int, int) {
    match rotate {
        RotateDirection::Deg0 => (x, y),
        RotateDirection::Deg90 => (height - 1 - y, x),
        RotateDirection::Deg180 => (width - 1 - x, height - 1 - y),
        RotateDirection::Deg270 => (y, width - 1 - x),
    }
}

/// Column or row `at`, counted from the other side.
pub open spec fn mirrored(at: u32, size: u32) -> u32 {
    excess(excess(size as int, 1), at as int) as u32
}

/// A region of a page of `width` by `height` pixels, turned with the page.
pub open spec fn turned_rect(
    rect: HighlightRect,
    rotate: RotateDirection,
    width: u32,
    height: u32,
) -> HighlightRect {
    match rotate {
        RotateDirection::Deg0 => rect,
        RotateDirection::Deg90 => HighlightRect {
            ul_x: mirrored(rect.lr_y, height),
            ul_y: rect.ul_x,
            lr_x: mirrored(rect.ul_y, height),
            lr_y: rect.lr_x,
        },
        RotateDirection::Deg180 => HighlightRect {
            ul_x: mirrored(rect.lr_x, width),
            ul_y: mirrored(rect.lr_y, height),
            lr_x: mirrored(rect.ul_x, width),
            lr_y: mirrored(rect.ul_y, height),
        },
        RotateDirection::Deg270 => HighlightRect {
            ul_x: rect.ul_y,
            ul_y: mirrored(rect.lr_x, width),
            lr_x: rect.lr_y,
            lr_y: mirrored(rect.ul_x, width),
        },
    }
}

fn mirror(at: u32, size: u32) -> (other: u32)
    ensures
        other == mirrored(at, size),
{
    size.saturating_sub(1).saturating_sub(at)
}

/// [`turned_rect`], computed.
pub fn turn_rect(rect: HighlightRect, rotate: RotateDirection, width: u32, height: u32) -> (turned:
    HighlightRect)
    ensures
        turned == turned_rect(rect, rotate, width, height),
{
    match rotate {
        RotateDirection::Deg0 => rect,
        RotateDirection::Deg90 => HighlightRect {
            ul_x: mirror(rect.lr_y, height),
            ul_y: rect.ul_x,
            lr_x: mirror(rect.ul_y, height),
            lr_y: rect.lr_x,
        },
        RotateDirection::Deg180 => HighlightRect {
            ul_x: mirror(rect.lr_x, width),
            ul_y: mirror(rect.lr_y, height),
            lr_x: mirror(rect.ul_x, width),
            lr_y: mirror(rect.ul_y, height),
        },
        RotateDirection::Deg270 => HighlightRect {
            ul_x: rect.ul_y,
            ul_y: mirror(rect.lr_x, width),
            lr_x: rect.lr_y,
            lr_y: mirror(rect.ul_x, width),
        },
    }
}

/// A region turns with its page: a pixel lies in it before the turn if and only
/// if it does afterwards. A region that sticks out of the page loses no pixel
/// but those of the last column and row.
pub proof fn law_region_turns_with_page(
    rect: HighlightRect,
    rotate: RotateDirection,
    width: u32,
    height: u32,
    x: int,
    y: int,
)
    requires
        0 <= x < width,
        0 <= y < height,
    ensures
        ({
            let (tx, ty) = turned_pixel(rotate, width as int, height as int, x, y);
            let turned = turned_rect(rect, rotate, width, height);
            &&& inside(turned, tx, ty) ==> inside(rect, x, y)
            &&& (rect.lr_x < width && rect.lr_y < height) || (x + 1 < width && y + 1 < height) ==> (
            inside(turned, tx, ty) <==> inside(rect, x, y))
        }),
{
}

/// Pages turn clockwise: with a quarter turn the left edge becomes the top
/// edge, and two quarter turns are half a turn.
pub proof fn law_pages_turn_clockwise(width: int, height: int, x: int, y: int)
    ensures
        turned_pixel(RotateDirection::Deg0, width, height, x, y) == (x, y),
        turned_pixel(RotateDirection::Deg90, width, height, 0, y).1 == 0,
        turned_pixel(RotateDirection::Deg90, width, height, 0, height - 1) == (0int, 0int),
        ({
            let (tx, ty) = turned_pixel(RotateDirection::Deg90, width, height, x, y);
            let (ux, uy) = turned_pixel(RotateDirection::Deg90, height, width, tx, ty);
            let (vx, vy) = turned_pixel(RotateDirection::Deg90, width, height, ux, uy);
            &&& (ux, uy) == turned_pixel(RotateDirection::Deg180, width, height, x, y)
            &&& (vx, vy) == turned_pixel(RotateDirection::Deg270, width, height, x, y)
            &&& turned_pixel(RotateDirection::Deg90, height, width, vx, vy) == (x, y)
        }),
        turned_pixel(RotateDirection::Deg90, width, height, x + 1, y).1 == turned_pixel(
            RotateDirection::Deg90,
            width,
            height,
            x,
            y,
        ).1 + 1,
        turned_pixel(RotateDirection::Deg90, width, height, x, y + 1).0 == turned_pixel(
            RotateDirection::Deg90,
            width,
            height,
            x,
            y,
        ).0 - 1,
{
}

/// A result that lies within its page is highlighted where the page shows it
/// after a turn: the pixel that `(x, y)` becomes lies strictly between the
/// turned corners exactly if `(x, y)` lies strictly between the corners.
pub proof fn law_turned_result_is_shown(
    rect: HighlightRect,
    width: u32,
    height: u32,
    x: int,
    y: int,
)
    requires
        0 <= x < width,
        0 <= y < height,
        rect.lr_x < width,
        rect.lr_y < height,
    ensures
        ({
            let shown = rect.ul_x < x < rect.lr_x && rect.ul_y < y < rect.lr_y;
            let a = turned_rect(rect, RotateDirection::Deg0, width, height);
            let b = turned_rect(rect, RotateDirection::Deg90, width, height);
            let c = turned_rect(rect, RotateDirection::Deg180, width, height);
            let d = turned_rect(rect, RotateDirection::Deg270, width, height);
            &&& shown <==> a.ul_x < x < a.lr_x && a.ul_y < y < a.lr_y
            &&& shown <==> b.ul_x < height - 1 - y < b.lr_x && b.ul_y < x < b.lr_y
            &&& shown <==> c.ul_x < width - 1 - x < c.lr_x && c.ul_y < height - 1 - y < c.lr_y
            &&& shown <==> d.ul_x < y < d.lr_x && d.ul_y < width - 1 - x < d.lr_y
        }),
{
}

} // verus!
