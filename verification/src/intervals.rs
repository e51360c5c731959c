//! Horizontal runs of highlighted pixels, row by row.

use crate::renderer::HighlightRect;
use crate::seqs::{lemma_insert_contains, lemma_push_contains};
use vstd::prelude::*;

verus! {

/// Pixel `(x, y)` lies strictly inside `rect`.
pub open spec fn inside(rect: HighlightRect, x: int, y: int) -> bool {
    &&& rect.ul_x < x < rect.lr_x
    &&& rect.ul_y < y < rect.lr_y
}

/// Pixel `(x, y)` lies inside one of the rectangles.
pub open spec fn highlighted(rects: Seq<HighlightRect>, x: int, y: int) -> bool {
    exists|i: int| 0 <= i < rects.len() && #[trigger] inside(rects[i], x, y)
}

/// Column `x` lies in the half-open run `run`.
pub open spec fn in_run(run: (u32, u32), x: int) -> bool {
    run.0 <= x < run.1
}

/// Column `x` lies in one of the runs.
pub open spec fn covered(runs: Seq<(u32, u32)>, x: int) -> bool {
    exists|i: int| 0 <= i < runs.len() && #[trigger] in_run(runs[i], x)
}

/// Every run is non-empty and ends within the first `width` columns.
pub open spec fn runs_fit(runs: Seq<(u32, u32)>, width: u32) -> bool {
    forall|i: int| 0 <= i < runs.len() ==> (#[trigger] runs[i]).0 < runs[i].1 <= width
}

/// The runs go from left to right and no two of them touch.
pub open spec fn runs_apart(runs: Seq<(u32, u32)>) -> bool {
    forall|i: int, j: int| 0 <= i < j < runs.len() ==> (#[trigger] runs[i]).1 < (#[trigger] runs[j]).0
}

/// Runs ordered by their first column, then by their end.
pub open spec fn run_le(a: (u32, u32), b: (u32, u32)) -> bool {
    a.0 < b.0 || (a.0 == b.0 && a.1 <= b.1)
}

pub open spec fn runs_sorted(runs: Seq<(u32, u32)>) -> bool {
    forall|i: int, j: int| 0 <= i < j < runs.len() ==> run_le(#[trigger] runs[i], #[trigger] runs[j])
}

pub proof fn lemma_covered_push(runs: Seq<(u32, u32)>, run: (u32, u32), x: int)
    ensures
        covered(runs.push(run), x) <==> covered(runs, x) || in_run(run, x),
{
    let all = runs.push(run);
    if covered(runs, x) {
        let i = choose|i: int| 0 <= i < runs.len() && #[trigger] in_run(runs[i], x);
        assert(in_run(all[i], x));
    }
    if in_run(run, x) {
        assert(in_run(all[runs.len() as int], x));
    }
    if covered(all, x) {
        let i = choose|i: int| 0 <= i < all.len() && #[trigger] in_run(all[i], x);
        if i < runs.len() {
            assert(in_run(runs[i], x));
        }
    }
}

proof fn lemma_covered_same_elements(a: Seq<(u32, u32)>, b: Seq<(u32, u32)>, x: int)
    requires
        forall|r: (u32, u32)| a.contains(r) <==> b.contains(r),
    ensures
        covered(a, x) <==> covered(b, x),
{
    if covered(a, x) {
        let i = choose|i: int| 0 <= i < a.len() && #[trigger] in_run(a[i], x);
        assert(a.contains(a[i]));
        let j = choose|j: int| 0 <= j < b.len() && b[j] == a[i];
        assert(in_run(b[j], x));
    }
    if covered(b, x) {
        let i = choose|i: int| 0 <= i < b.len() && #[trigger] in_run(b[i], x);
        assert(b.contains(b[i]));
        let j = choose|j: int| 0 <= j < a.len() && a[j] == b[i];
        assert(in_run(a[j], x));
    }
}

/// The runs in order of their first column.
fn sort_runs(runs: &Vec<(u32, u32)>) -> (sorted: Vec<(u32, u32)>)
    ensures
        sorted@.len() == runs@.len(),
        runs_sorted(sorted@),
        forall|r: (u32, u32)| sorted@.contains(r) <==> runs@.contains(r),
{
    let mut sorted: Vec<(u32, u32)> = Vec::with_capacity(runs.len());
    let mut i: usize = 0;
    while i < runs.len()
        invariant
            i <= runs@.len(),
            sorted@.len() == i,
            runs_sorted(sorted@),
            forall|r: (u32, u32)| sorted@.contains(r) <==> runs@.take(i as int).contains(r),
        decreases runs@.len() - i,
    {
        let run: (u32, u32) = runs[i];
        let mut at: usize = sorted.len();
        while at > 0 && (sorted[at - 1].0 > run.0 || (sorted[at - 1].0 == run.0 && sorted[at
            - 1].1 > run.1))
            invariant
                at <= sorted@.len(),
                runs_sorted(sorted@),
                forall|k: int| at <= k < sorted@.len() ==> run_le(run, #[trigger] sorted@[k]),
            decreases at,
        {
            at -= 1;
        }
        let ghost before = sorted@;
        sorted.insert(at, run);
        proof {
            assert(runs@.take(i + 1) =~= runs@.take(i as int).push(run));
            assert forall|r: (u32, u32)| sorted@.contains(r) <==> runs@.take(i + 1).contains(r) by {
                lemma_insert_contains(before, at as int, run, r);
                lemma_push_contains(runs@.take(i as int), run, r);
            }
        }
        i += 1;
    }
    proof {
        assert(runs@.take(i as int) =~= runs@);
    }
    sorted
}

/// The same columns in runs that go from left to right and do not touch.
fn merge_runs(runs: &Vec<(u32, u32)>, width: u32) -> (merged: Vec<(u32, u32)>)
    requires
        runs_fit(runs@, width),
    ensures
        runs_fit(merged@, width),
        runs_apart(merged@),
        forall|x: int| covered(merged@, x) <==> covered(runs@, x),
{
    let sorted = sort_runs(runs);
    let mut merged: Vec<(u32, u32)> = Vec::with_capacity(sorted.len());
    proof {
        assert forall|x: int| covered(sorted@, x) <==> covered(runs@, x) by {
            lemma_covered_same_elements(sorted@, runs@, x);
        }
        assert forall|i: int| 0 <= i < sorted@.len() implies (#[trigger] sorted@[i]).0 < sorted@[i].1
            <= width by {
            assert(sorted@.contains(sorted@[i]));
            let k = choose|k: int| 0 <= k < runs@.len() && runs@[k] == sorted@[i];
        }
    }
    if sorted.len() == 0 {
        return merged;
    }
    let mut cur: (u32, u32) = sorted[0];
    let mut i: usize = 1;
    proof {
        assert(sorted@.take(1) =~= Seq::<(u32, u32)>::empty().push(cur));
        assert(merged@.push(cur) =~= Seq::<(u32, u32)>::empty().push(cur));
    }
    while i < sorted.len()
        invariant
            1 <= i <= sorted@.len(),
            runs_sorted(sorted@),
            runs_fit(sorted@, width),
            runs_fit(merged@.push(cur), width),
            runs_apart(merged@.push(cur)),
            forall|k: int| i <= k < sorted@.len() ==> cur.0 <= (#[trigger] sorted@[k]).0,
            forall|x: int| covered(merged@.push(cur), x) <==> covered(sorted@.take(i as int), x),
        decreases sorted@.len() - i,
    {
        let next: (u32, u32) = sorted[i];
        let ghost old_all = merged@.push(cur);
        let ghost old_merged = merged@;
        let ghost old_cur = cur;
        proof {
            assert(cur == old_all[merged@.len() as int]);
        }
        if next.0 <= cur.1 {
            if next.1 > cur.1 {
                cur.1 = next.1;
            }
        } else {
            merged.push(cur);
            cur = next;
        }
        proof {
            let all = merged@.push(cur);
            assert(sorted@.take(i + 1) =~= sorted@.take(i as int).push(next));
            assert forall|x: int| covered(all, x) <==> covered(sorted@.take(i + 1), x) by {
                lemma_covered_push(sorted@.take(i as int), next, x);
                lemma_covered_push(old_merged, old_cur, x);
                lemma_covered_push(merged@, cur, x);
            }
            assert forall|a: int| 0 <= a < all.len() implies (#[trigger] all[a]).0 < all[a].1
                <= width by {
                if a < old_all.len() - 1 {
                    assert(all[a] == old_all[a]);
                }
            }
            assert forall|a: int, b: int| 0 <= a < b < all.len() implies (#[trigger] all[a]).1 < (
            #[trigger] all[b]).0 by {
                if a < old_all.len() - 1 {
                    assert(all[a] == old_all[a]);
                    assert(old_all[a].1 < old_all[old_all.len() - 1].0);
                }
                if b < old_all.len() - 1 {
                    assert(all[b] == old_all[b]);
                }
            }
        }
        i += 1;
    }
    merged.push(cur);
    proof {
        assert(sorted@.take(i as int) =~= sorted@);
    }
    merged
}

/// For every row of a `width` by `height` image, the runs of columns that some
/// rectangle highlights, merged and in order from left to right.
pub fn highlight_intervals_per_row(
    rects: &[HighlightRect],
    width: u32,
    height: u32,
) -> (rows: Vec<Vec<(u32, u32)>>)
    ensures
        rows@.len() == height,
        forall|y: int|
            0 <= y < height ==> runs_fit((#[trigger] rows@[y])@, width) && runs_apart(rows@[y]@),
        forall|x: int, y: int|
            0 <= x < width && 0 <= y < height ==> (#[trigger] covered(rows@[y]@, x)
                <==> highlighted(rects@, x, y)),
{
    let mut rows: Vec<Vec<(u32, u32)>> = Vec::new();
    let mut filled: u32 = 0;
    while filled < height
        invariant
            filled <= height,
            rows@.len() == filled,
            forall|y: int| 0 <= y < filled ==> (#[trigger] rows@[y])@.len() == 0,
        decreases height - filled,
    {
        rows.push(Vec::new());
        filled += 1;
    }
    let mut r: usize = 0;
    while r < rects.len()
        invariant
            r <= rects@.len(),
            rows@.len() == height,
            forall|y: int| 0 <= y < height ==> runs_fit((#[trigger] rows@[y])@, width),
            forall|x: int, y: int|
                0 <= x < width && 0 <= y < height ==> (#[trigger] covered(rows@[y]@, x)
                    <==> highlighted(rects@.take(r as int), x, y)),
        decreases rects@.len() - r,
    {
        let rect = &rects[r];
        let x_start: u32 = if rect.ul_x.saturating_add(1) < width {
            rect.ul_x.saturating_add(1)
        } else {
            width
        };
        let x_end: u32 = if rect.lr_x < width { rect.lr_x } else { width };
        let y_start: u32 = if rect.ul_y.saturating_add(1) < height {
            rect.ul_y.saturating_add(1)
        } else {
            height
        };
        let y_end: u32 = if rect.lr_y < height { rect.lr_y } else { height };
        let ghost before = rows@;
        proof {
            assert(rects@.take(r + 1) =~= rects@.take(r as int).push(*rect));
        }
        if x_start < x_end && y_start < y_end {
            let run: (u32, u32) = (x_start, x_end);
            let mut y: u32 = y_start;
            while y < y_end
                invariant
                    y_start <= y <= y_end <= height,
                    run.0 < run.1 <= width,
                    rows@.len() == height,
                    before.len() == height,
                    forall|k: int|
                        0 <= k < height ==> (#[trigger] rows@[k])@ == if y_start <= k < y {
                            before[k]@.push(run)
                        } else {
                            before[k]@
                        },
                decreases y_end - y,
            {
                rows[y as usize].push(run);
                y += 1;
            }
            proof {
                assert forall|k: int| 0 <= k < height implies runs_fit((#[trigger] rows@[k])@, width) by {
                    assert(runs_fit(before[k]@, width));
                }
            }
        }
        proof {
            assert forall|x: int, y: int| 0 <= x < width && 0 <= y < height implies (
            #[trigger] covered(rows@[y]@, x) <==> highlighted(rects@.take(r + 1), x, y)) by {
                assert(covered(before[y]@, x) <==> highlighted(rects@.take(r as int), x, y));
                lemma_covered_push(before[y]@, (x_start, x_end), x);
                lemma_highlighted_push(rects@.take(r as int), *rect, x, y);
            }
        }
        r += 1;
    }
    proof {
        assert(rects@.take(r as int) =~= rects@);
    }
    let mut row: usize = 0;
    while row < rows.len()
        invariant
            row <= rows@.len(),
            rows@.len() == height,
            forall|y: int| 0 <= y < height ==> runs_fit((#[trigger] rows@[y])@, width),
            forall|y: int| 0 <= y < row ==> runs_apart((#[trigger] rows@[y])@),
            forall|x: int, y: int|
                0 <= x < width && 0 <= y < height ==> (#[trigger] covered(rows@[y]@, x)
                    <==> highlighted(rects@, x, y)),
        decreases rows@.len() - row,
    {
        let ghost before = rows@;
        let merged = merge_runs(&rows[row], width);
        rows[row] = merged;
        proof {
            assert forall|x: int, y: int| 0 <= x < width && 0 <= y < height implies (
            #[trigger] covered(rows@[y]@, x) <==> highlighted(rects@, x, y)) by {
                assert(covered(before[y]@, x) <==> highlighted(rects@, x, y));
            }
        }
        row += 1;
    }
    rows
}

proof fn lemma_highlighted_push(rects: Seq<HighlightRect>, rect: HighlightRect, x: int, y: int)
    ensures
        highlighted(rects.push(rect), x, y) <==> highlighted(rects, x, y) || inside(rect, x, y),
{
    let all = rects.push(rect);
    if highlighted(rects, x, y) {
        let i = choose|i: int| 0 <= i < rects.len() && #[trigger] inside(rects[i], x, y);
        assert(inside(all[i], x, y));
    }
    if inside(rect, x, y) {
        assert(inside(all[rects.len() as int], x, y));
    }
    if highlighted(all, x, y) {
        let i = choose|i: int| 0 <= i < all.len() && #[trigger] inside(all[i], x, y);
        if i < rects.len() {
            assert(inside(rects[i], x, y));
        }
    }
}

/// What is said of runs and results: a pixel is highlighted if it lies strictly
/// inside one of the rectangles, and a column is covered if one of the runs,
/// from its start up to but without its end, holds it.
pub proof fn law_runs_and_results(
    rects: Seq<HighlightRect>,
    runs: Seq<(u32, u32)>,
    x: int,
    y: int,
)
    ensures
        highlighted(rects, x, y) <==> exists|i: int|
            0 <= i < rects.len() && (#[trigger] rects[i]).ul_x < x < rects[i].lr_x && rects[i].ul_y
                < y < rects[i].lr_y,
        covered(runs, x) <==> exists|i: int|
            0 <= i < runs.len() && (#[trigger] runs[i]).0 <= x < runs[i].1,
        runs_apart(runs) <==> forall|i: int, j: int|
            0 <= i < j < runs.len() ==> (#[trigger] runs[i]).1 < (#[trigger] runs[j]).0,
{
    if exists|i: int|
        0 <= i < rects.len() && (#[trigger] rects[i]).ul_x < x < rects[i].lr_x && rects[i].ul_y < y
            < rects[i].lr_y {
        let i = choose|i: int|
            0 <= i < rects.len() && (#[trigger] rects[i]).ul_x < x < rects[i].lr_x && rects[i].ul_y
                < y < rects[i].lr_y;
        assert(inside(rects[i], x, y));
    }
    if exists|i: int| 0 <= i < runs.len() && (#[trigger] runs[i]).0 <= x < runs[i].1 {
        let i = choose|i: int| 0 <= i < runs.len() && (#[trigger] runs[i]).0 <= x < runs[i].1;
        assert(in_run(runs[i], x));
    }
}

} // verus!
