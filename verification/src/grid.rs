//! The grid of codels: its shape and what it holds at each place.

use crate::color::{ColorName, PietColor};
use vstd::prelude::*;

verus! {

/// Number of rows.
pub open spec fn grid_height(g: Seq<Vec<PietColor>>) -> int {
    g.len() as int
}

/// Number of columns, read from the first row.
pub open spec fn grid_width(g: Seq<Vec<PietColor>>) -> int {
    if g.len() == 0 {
        0
    } else {
        g[0]@.len() as int
    }
}

/// A grid a program can run on: at least one codel, every row as long as the
/// first, every colour well formed, and no more codels than an `i32` counts.
pub open spec fn valid_grid(g: Seq<Vec<PietColor>>) -> bool {
    &&& grid_height(g) > 0
    &&& grid_width(g) > 0
    &&& grid_width(g) * grid_height(g) <= i32::MAX
    &&& forall|y: int| 0 <= y < g.len() ==> (#[trigger] g[y])@.len() == grid_width(g)
    &&& forall|y: int, x: int|
        0 <= y < g.len() && 0 <= x < g[y]@.len() ==> (#[trigger] g[y]@[x]).well_formed()
}

/// The place `(x, y)` lies on the grid; `x` grows rightward, `y` downward.
pub open spec fn inside(g: Seq<Vec<PietColor>>, p: (int, int)) -> bool {
    &&& 0 <= p.0 < grid_width(g)
    &&& 0 <= p.1 < grid_height(g)
}

/// The colour at a place on the grid.
pub open spec fn name_at(g: Seq<Vec<PietColor>>, p: (int, int)) -> ColorName {
    g[p.1]@[p.0].name
}

/// The classified colour at a place on the grid.
pub open spec fn color_at(g: Seq<Vec<PietColor>>, p: (int, int)) -> PietColor {
    g[p.1]@[p.0]
}

/// A place given in machine integers, as a pair of mathematical ones.
pub open spec fn pt(p: (i32, i32)) -> (int, int) {
    (p.0 as int, p.1 as int)
}

/// Both sides of a valid grid fit in an `i32`.
pub proof fn lemma_sides_fit(g: Seq<Vec<PietColor>>)
    requires
        valid_grid(g),
    ensures
        grid_width(g) <= i32::MAX,
        grid_height(g) <= i32::MAX,
{
    let w = grid_width(g);
    let h = grid_height(g);
    assert(w <= w * h && h <= w * h) by (nonlinear_arith)
        requires
            w >= 1,
            h >= 1,
    ;
}

/// Tells whether a grid is one a program can run on.
pub fn is_valid_grid(grid: &Vec<Vec<PietColor>>) -> (ok: bool)
    ensures
        ok == valid_grid(grid@),
{
    let h = grid.len();
    if h == 0 {
        return false;
    }
    let w = grid[0].len();
    if w == 0 {
        return false;
    }
    if w > i32::MAX as usize || h > i32::MAX as usize {
        proof {
            if valid_grid(grid@) {
                lemma_sides_fit(grid@);
            }
        }
        return false;
    }
    assert((w as u64) * (h as u64) <= u64::MAX) by (nonlinear_arith)
        requires
            w <= i32::MAX,
            h <= i32::MAX,
    ;
    if (w as u64) * (h as u64) > i32::MAX as u64 {
        return false;
    }
    let mut y: usize = 0;
    while y < h
        invariant
            y <= h,
            h == grid@.len(),
            w == grid_width(grid@),
            w > 0,
            forall|j: int| 0 <= j < y ==> (#[trigger] grid@[j])@.len() == w,
            forall|j: int, i: int|
                0 <= j < y && 0 <= i < grid@[j]@.len() ==> (#[trigger] grid@[j]@[i]).well_formed(),
        decreases h - y,
    {
        if grid[y].len() != w {
            return false;
        }
        let mut x: usize = 0;
        while x < w
            invariant
                x <= w,
                y < h,
                h == grid@.len(),
                grid@[y as int]@.len() == w,
                forall|i: int| 0 <= i < x ==> (#[trigger] grid@[y as int]@[i]).well_formed(),
            decreases w - x,
        {
            let c = grid[y][x];
            let twin = PietColor::of_name(c.name);
            if c.hue != twin.hue || c.lightness != twin.lightness {
                return false;
            }
            x += 1;
        }
        y += 1;
    }
    true
}

} // verus!
