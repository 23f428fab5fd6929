//! What the average colour around a point is made of: every point of the
//! square that samples to a pixel, whatever its colour.

use vstd::prelude::*;
use crate::canvas::PhysicalCanvas;
use crate::color::channel;

verus! {

/// The number of points `cx - r .. cx + hi - 1` of row `y` that sample to a
/// pixel.
pub open spec fn present_in_row(c: PhysicalCanvas, cx: int, y: int, r: int, hi: int) -> int
    decreases hi + r,
{
    if hi <= -r {
        0
    } else {
        present_in_row(c, cx, y, r, hi - 1) + if c.spec_sample(cx + hi - 1, y) is Some {
            1int
        } else {
            0int
        }
    }
}

/// The sum of component `k` of the pixels sampled at the points
/// `cx - r .. cx + hi - 1` of row `y`.
pub open spec fn component_in_row(c: PhysicalCanvas, cx: int, y: int, r: int, hi: int, k: int) -> int
    decreases hi + r,
{
    if hi <= -r {
        0
    } else {
        component_in_row(c, cx, y, r, hi - 1, k) + match c.spec_sample(cx + hi - 1, y) {
            Some(px) => channel(px, k),
            None => 0,
        }
    }
}

/// The number of points of rows `cy - r .. cy + hi - 1` of the square of
/// half-width `r` around (`cx`, `cy`) that sample to a pixel.
pub open spec fn present_in_square(c: PhysicalCanvas, cx: int, cy: int, r: int, hi: int) -> int
    decreases hi + r,
{
    if hi <= -r {
        0
    } else {
        present_in_square(c, cx, cy, r, hi - 1) + present_in_row(c, cx, cy + hi - 1, r, r + 1)
    }
}

/// The sum of component `k` over the pixels sampled in rows
/// `cy - r .. cy + hi - 1` of the square of half-width `r` around (`cx`, `cy`).
pub open spec fn component_in_square(c: PhysicalCanvas, cx: int, cy: int, r: int, hi: int, k: int) -> int
    decreases hi + r,
{
    if hi <= -r {
        0
    } else {
        component_in_square(c, cx, cy, r, hi - 1, k) + component_in_row(c, cx, cy + hi - 1, r, r + 1, k)
    }
}

proof fn lemma_row_counts(c: PhysicalCanvas, cx: int, y: int, r: int, hi: int, k: int)
    requires
        0 <= k <= 2,
    ensures
        c.row_total(cx, y, r, hi, 3) == present_in_row(c, cx, y, r, hi),
        c.row_total(cx, y, r, hi, k) == component_in_row(c, cx, y, r, hi, k),
    decreases hi + r,
{
    if hi > -r {
        lemma_row_counts(c, cx, y, r, hi - 1, k);
    }
}

proof fn lemma_square_counts(c: PhysicalCanvas, cx: int, cy: int, r: int, hi: int, k: int)
    requires
        0 <= k <= 2,
    ensures
        c.square_total(cx, cy, r, hi, 3) == present_in_square(c, cx, cy, r, hi),
        c.square_total(cx, cy, r, hi, k) == component_in_square(c, cx, cy, r, hi, k),
    decreases hi + r,
{
    if hi > -r {
        lemma_square_counts(c, cx, cy, r, hi - 1, k);
        lemma_row_counts(c, cx, cy + hi - 1, r, r + 1, k);
    }
}

/// The average of component `k` over the square of half-width `r` around
/// (`cx`, `cy`) is the sum of that component over every point that samples
/// to a pixel, whatever its colour, divided by the number of such points; 0
/// when there is none. (A square of `n` present pixels of which `b` are black
/// and the rest white averages `255 * (n - b) / n` in each component.)
pub proof fn lemma_average_of_present_samples(c: PhysicalCanvas, cx: int, cy: int, r: int, k: int)
    requires
        0 <= k <= 2,
    ensures
        c.square_total(cx, cy, r, r + 1, 3) == present_in_square(c, cx, cy, r, r + 1),
        c.square_average(cx, cy, r, k) == if present_in_square(c, cx, cy, r, r + 1) == 0 {
            0
        } else {
            component_in_square(c, cx, cy, r, r + 1, k) / present_in_square(c, cx, cy, r, r + 1)
        },
{
    lemma_square_counts(c, cx, cy, r, r + 1, k);
}

} // verus!
