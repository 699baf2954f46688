//! Testing one candidate line: walk the grid from a start cell along a
//! fixed step vector, wrapping at both edges, and compare characters with
//! the word in order.

use vstd::prelude::*;
use vstd::arithmetic::div_mod::{
    lemma_add_mod_noop, lemma_fundamental_div_mod_converse_mod, lemma_mod_bound, lemma_mod_twice,
};
use vstd::arithmetic::mul::lemma_mul_is_distributive_add;
use crate::grid::Grid;

verus! {

/// The grid character at step `i` of the line that starts at `(sx, sy)`
/// and advances by `(dx, dy)` each step.
pub open spec fn line_char(g: Grid, sx: int, sy: int, dx: int, dy: int, i: int) -> char {
    g.spec_char_at(sx + dx * i, sy + dy * i)
}

/// The word lies along the line that starts at `(sx, sy)` and advances by
/// `(dx, dy)` each step, all coordinates taken modulo the grid's width and
/// height.
pub open spec fn spec_line_matches(g: Grid, sx: int, sy: int, dx: int, dy: int, word: Seq<char>) -> bool {
    forall|i: int| 0 <= i < word.len() ==> #[trigger] line_char(g, sx, sy, dx, dy, i) == word[i]
}

/// One wrapped step along an axis: `(x + d) % m`, computed without
/// overflow for reduced `x` and `d`.
fn step_wrap(x: usize, d: usize, m: usize) -> (r: usize)
    requires
        x < m,
        d < m,
    ensures
        r as int == (x + d) % (m as int),
{
    if d >= m - x {
        proof {
            lemma_fundamental_div_mod_converse_mod(x + d, m as int, 1, x + d - m);
        }
        d - (m - x)
    } else {
        proof {
            lemma_fundamental_div_mod_converse_mod(x + d, m as int, 0, x + d);
        }
        x + d
    }
}

/// After a wrapped step, the running coordinate is still the start plus
/// `i + 1` steps, modulo `m`.
proof fn lemma_step_keeps_line(s: int, d: int, i: int, m: int, x: int)
    requires
        m > 0,
        i >= 0,
        x == (s + d * i) % m,
    ensures
        (x + d % m) % m == (s + d * (i + 1)) % m,
{
    lemma_add_mod_noop(s + d * i, d, m);
    lemma_mod_twice(s + d * i, m);
    assert((x + d % m) % m == (s + d * i + d) % m);
    lemma_mul_is_distributive_add(d, i, 1);
}

/// Tests a single candidate line: true exactly when every character of
/// `word` matches the grid along the line from `(start_x, start_y)` with
/// step `(offset_x, offset_y)`.
pub fn matches_line(
    grid: &Grid,
    start_x: usize,
    start_y: usize,
    offset_x: usize,
    offset_y: usize,
    word: &Vec<char>,
) -> (r: bool)
    requires
        grid.wf(),
    ensures
        r == spec_line_matches(
            *grid,
            start_x as int,
            start_y as int,
            offset_x as int,
            offset_y as int,
            word@,
        ),
{
    let w = grid.width();
    let h = grid.height();
    let dx = offset_x % w;
    let dy = offset_y % h;
    let mut x = start_x % w;
    let mut y = start_y % h;
    let mut i: usize = 0;
    while i < word.len()
        invariant
            grid.wf(),
            w as int == grid.spec_width(),
            h as int == grid.spec_height(),
            dx as int == offset_x as int % (w as int),
            dy as int == offset_y as int % (h as int),
            x < w,
            y < h,
            i <= word.len(),
            x as int == (start_x + offset_x * i) % (w as int),
            y as int == (start_y + offset_y * i) % (h as int),
            forall|j: int|
                0 <= j < i ==> #[trigger] line_char(*grid, start_x as int, start_y as int,
                    offset_x as int, offset_y as int, j) == word@[j],
        decreases word.len() - i,
    {
        let c = grid.char_at(x, y);
        proof {
            lemma_mod_twice(start_x + offset_x * i, w as int);
            lemma_mod_twice(start_y + offset_y * i, h as int);
            assert(grid.spec_char_at(x as int, y as int) == line_char(*grid, start_x as int,
                start_y as int, offset_x as int, offset_y as int, i as int));
        }
        if c != word[i] {
            return false;
        }
        proof {
            lemma_step_keeps_line(start_x as int, offset_x as int, i as int, w as int, x as int);
            lemma_step_keeps_line(start_y as int, offset_y as int, i as int, h as int, y as int);
            lemma_mod_bound(x as int + dx as int, w as int);
            lemma_mod_bound(y as int + dy as int, h as int);
        }
        x = step_wrap(x, dx, w);
        y = step_wrap(y, dy, h);
        i = i + 1;
    }
    true
}

} // verus!
