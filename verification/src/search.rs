//! The search engine: try every start cell and every enumerated direction,
//! and report whether the word occurs anywhere on the torus.

use vstd::prelude::*;
use crate::directions::{offset_valid, spec_offset_valid};
use crate::grid::Grid;
use crate::matcher::{matches_line, spec_line_matches};

verus! {

/// The word occurs on the line that starts at cell `idx` (in row-major
/// order) and advances by the direction-set vector `(dx, dy)`.
pub open spec fn spec_dir_hit(g: Grid, idx: int, dx: int, dy: int, word: Seq<char>) -> bool {
    &&& spec_offset_valid(dx, dy, g.spec_width(), g.spec_height())
    &&& spec_line_matches(g, idx % g.spec_width(), idx / g.spec_width(), dx, dy, word)
}

/// Some direction of the enumerated set carries the word out of cell
/// `idx`.
pub open spec fn spec_found_at(g: Grid, idx: int, word: Seq<char>) -> bool {
    exists|dx: int, dy: int|
        0 <= dx <= g.spec_width() && 0 <= dy <= g.spec_height() && #[trigger] spec_dir_hit(
            g,
            idx,
            dx,
            dy,
            word,
        )
}

/// The word occurs somewhere in the grid: some start cell and some
/// direction of the enumerated set carry it.
pub open spec fn spec_assess(g: Grid, word: Seq<char>) -> bool {
    exists|idx: int| 0 <= idx < g.contents().len() && #[trigger] spec_found_at(g, idx, word)
}

/// The word occurs on the line that starts at cell `idx` and advances by
/// `(dx, dy)` — with no direction filtering; the reference for checking
/// that the enumerated direction set misses nothing.
pub open spec fn spec_brute_hit(g: Grid, idx: int, dx: int, dy: int, word: Seq<char>) -> bool {
    spec_line_matches(g, idx % g.spec_width(), idx / g.spec_width(), dx, dy, word)
}

/// Some direction in the full candidate square `[0, W] x [0, H]` carries
/// the word out of cell `idx`.
pub open spec fn spec_brute_found_at(g: Grid, idx: int, word: Seq<char>) -> bool {
    exists|dx: int, dy: int|
        0 <= dx <= g.spec_width() && 0 <= dy <= g.spec_height() && #[trigger] spec_brute_hit(
            g,
            idx,
            dx,
            dy,
            word,
        )
}

/// The brute-force search: every start cell against every candidate in
/// the full square `[0, W] x [0, H]`, with no primitivity filtering.
pub open spec fn spec_assess_brute(g: Grid, word: Seq<char>) -> bool {
    exists|idx: int| 0 <= idx < g.contents().len() && #[trigger] spec_brute_found_at(g, idx, word)
}

/// Tries every direction of the enumerated set out of the start cell
/// `content_index`; true exactly when one of them carries the word.
pub fn start_letter(grid: &Grid, word: &Vec<char>, content_index: usize) -> (r: bool)
    requires
        grid.wf(),
    ensures
        r == spec_found_at(*grid, content_index as int, word@),
{
    let w = grid.width();
    let h = grid.height();
    let start_x = content_index % w;
    let start_y = content_index / w;
    let mut offset_y: usize = 0;
    loop
        invariant
            grid.wf(),
            w as int == grid.spec_width(),
            h as int == grid.spec_height(),
            start_x as int == content_index as int % (w as int),
            start_y as int == content_index as int / (w as int),
            offset_y <= h,
            forall|dy: int, dx: int|
                0 <= dy < offset_y && 0 <= dx <= w ==> !spec_dir_hit(*grid, content_index as int,
                    dx, dy, word@),
        ensures
            forall|dy: int, dx: int|
                0 <= dy <= h && 0 <= dx <= w ==> !spec_dir_hit(*grid, content_index as int, dx,
                    dy, word@),
        decreases h - offset_y,
    {
        let mut offset_x: usize = 0;
        loop
            invariant
                grid.wf(),
                w as int == grid.spec_width(),
                h as int == grid.spec_height(),
                start_x as int == content_index as int % (w as int),
                start_y as int == content_index as int / (w as int),
                offset_y <= h,
                offset_x <= w,
                forall|dx: int|
                    0 <= dx < offset_x ==> !spec_dir_hit(*grid, content_index as int, dx,
                        offset_y as int, word@),
            ensures
                forall|dx: int|
                    0 <= dx <= w ==> !spec_dir_hit(*grid, content_index as int, dx,
                        offset_y as int, word@),
            decreases w - offset_x,
        {
            if offset_valid(offset_x, offset_y, w, h) {
                if matches_line(grid, start_x, start_y, offset_x, offset_y, word) {
                    proof {
                        assert(spec_dir_hit(*grid, content_index as int, offset_x as int,
                            offset_y as int, word@));
                    }
                    return true;
                }
            }
            if offset_x == w {
                break;
            }
            offset_x = offset_x + 1;
        }
        if offset_y == h {
            break;
        }
        offset_y = offset_y + 1;
    }
    false
}

/// The public search entry point: true exactly when the word occurs as a
/// straight wrapped line anywhere in the grid, for some start cell and
/// some direction of the enumerated set.
pub fn assess(grid: &Grid, word: &Vec<char>) -> (r: bool)
    requires
        grid.wf(),
    ensures
        r == spec_assess(*grid, word@),
{
    let length = grid.len();
    let mut content_index: usize = 0;
    while content_index < length
        invariant
            grid.wf(),
            length as int == grid.contents().len(),
            content_index <= length,
            forall|idx: int|
                0 <= idx < content_index ==> !spec_found_at(*grid, idx, word@),
        decreases length - content_index,
    {
        if start_letter(grid, word, content_index) {
            return true;
        }
        content_index = content_index + 1;
    }
    false
}

} // verus!
