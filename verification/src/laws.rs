//! Properties of the search, proved once and for all: a word with a
//! character the grid lacks is never found; a found line can be read
//! backwards along the reversed direction; and the filtered search agrees
//! with the brute-force search on every torus whose residue directions are
//! all covered by the enumerated set.

use vstd::prelude::*;
use vstd::arithmetic::div_mod::{
    lemma_add_mod_noop_right, lemma_fundamental_div_mod, lemma_fundamental_div_mod_converse,
    lemma_mod_bound, lemma_mod_multiples_vanish, lemma_mod_self_0, lemma_mul_mod_noop_left,
    lemma_small_mod, lemma_sub_mod_noop_right,
};
use vstd::arithmetic::mul::lemma_mul_is_distributive_sub;
use crate::directions::{covered_dir, directions_covered, spec_gcd, spec_offset_valid};
use crate::grid::Grid;
use crate::matcher::{line_char, spec_line_matches};
use crate::search::{
    spec_assess, spec_assess_brute, spec_brute_found_at, spec_brute_hit, spec_dir_hit,
    spec_found_at,
};

verus! {

/// Every cell the walk can reach is a cell of the content buffer.
proof fn lemma_cell_index_in_range(g: Grid, x: int, y: int)
    requires
        g.wf(),
    ensures
        0 <= (y % g.spec_height()) * g.spec_width() + x % g.spec_width() < g.contents().len(),
{
    let w = g.spec_width();
    let h = g.spec_height();
    g.lemma_dims();
    let n = g.contents().len() as int;
    lemma_fundamental_div_mod(n, w);
    lemma_mod_bound(x, w);
    lemma_mod_bound(y, h);
    assert(0 <= (y % h) * w + x % w < n) by (nonlinear_arith)
        requires
            0 <= y % h < h,
            0 <= x % w < w,
            0 < w,
            n == w * h,
    ;
}

/// A word that uses a character the grid does not contain is never found:
/// the search returns false on it whatever the start cell and direction.
pub proof fn lemma_absent_char_never_found(g: Grid, word: Seq<char>, k: int)
    requires
        g.wf(),
        0 <= k < word.len(),
        forall|j: int| 0 <= j < g.contents().len() ==> g.contents()[j] != word[k],
    ensures
        !spec_assess(g, word),
        !spec_assess_brute(g, word),
{
    let w = g.spec_width();
    let h = g.spec_height();
    g.lemma_dims();
    if spec_assess(g, word) {
        let idx = choose|idx: int| 0 <= idx < g.contents().len() && #[trigger] spec_found_at(
            g,
            idx,
            word,
        );
        let (dx, dy) = choose|dx: int, dy: int|
            0 <= dx <= w && 0 <= dy <= h && #[trigger] spec_dir_hit(g, idx, dx, dy, word);
        assert(line_char(g, idx % w, idx / w, dx, dy, k) == word[k]);
        lemma_cell_index_in_range(g, idx % w + dx * k, idx / w + dy * k);
        assert(false);
    }
    if spec_assess_brute(g, word) {
        let idx = choose|idx: int|
            0 <= idx < g.contents().len() && #[trigger] spec_brute_found_at(g, idx, word);
        let (dx, dy) = choose|dx: int, dy: int|
            0 <= dx <= w && 0 <= dy <= h && #[trigger] spec_brute_hit(g, idx, dx, dy, word);
        assert(line_char(g, idx % w, idx / w, dx, dy, k) == word[k]);
        lemma_cell_index_in_range(g, idx % w + dx * k, idx / w + dy * k);
        assert(false);
    }
}

/// Reading a line backwards: the cell `i` steps along the reversed
/// direction from the line's end is the cell `n - 1 - i` steps along the
/// original direction from its start, modulo `m`.
proof fn lemma_reverse_coord(s: int, d: int, n: int, i: int, m: int)
    requires
        m > 0,
        0 <= i < n,
    ensures
        ((s + d * (n - 1)) % m + ((m - d % m) % m) * i) % m == (s + d * (n - 1 - i)) % m,
{
    let a = s + d * (n - 1);
    let e = d % m;
    let r = (m - e) % m;
    lemma_mod_bound(d, m);
    lemma_add_mod_noop_right(r * i, a, m);
    assert((r * i + a % m) % m == (r * i + a) % m);
    if e == 0 {
        lemma_mod_self_0(m);
        assert(r == 0);
    } else {
        lemma_small_mod((m - e) as nat, m as nat);
        assert(r == m - e);
        assert(a + r * i == m * i + (a - e * i)) by (nonlinear_arith)
            requires
                r == m - e,
        ;
        lemma_mod_multiples_vanish(i, a - e * i, m);
    }
    assert((a + r * i) % m == (a - e * i) % m);
    lemma_mul_mod_noop_left(d, i, m);
    lemma_sub_mod_noop_right(a, e * i, m);
    lemma_sub_mod_noop_right(a, d * i, m);
    assert((a - e * i) % m == (a - d * i) % m);
    lemma_mul_is_distributive_sub(d, n - 1, i);
    assert(a - d * i == s + d * (n - 1 - i));
}

/// Directional symmetry: when the word lies along a line, the reversed
/// word lies along the reversed direction, starting from the cell the
/// original line ends on.
pub proof fn lemma_directional_symmetry(
    g: Grid,
    sx: int,
    sy: int,
    dx: int,
    dy: int,
    word: Seq<char>,
)
    requires
        g.wf(),
        word.len() >= 1,
        spec_line_matches(g, sx, sy, dx, dy, word),
    ensures
        spec_line_matches(
            g,
            (sx + dx * (word.len() - 1)) % g.spec_width(),
            (sy + dy * (word.len() - 1)) % g.spec_height(),
            (g.spec_width() - dx % g.spec_width()) % g.spec_width(),
            (g.spec_height() - dy % g.spec_height()) % g.spec_height(),
            word.reverse(),
        ),
{
    let w = g.spec_width();
    let h = g.spec_height();
    g.lemma_dims();
    let n = word.len() as int;
    let ex = (sx + dx * (n - 1)) % w;
    let ey = (sy + dy * (n - 1)) % h;
    let rdx = (w - dx % w) % w;
    let rdy = (h - dy % h) % h;
    let rev = word.reverse();
    assert forall|i: int| 0 <= i < rev.len() implies #[trigger] line_char(g, ex, ey, rdx, rdy, i)
        == rev[i] by {
        lemma_reverse_coord(sx, dx, n, i, w);
        lemma_reverse_coord(sy, dy, n, i, h);
        assert(line_char(g, sx, sy, dx, dy, n - 1 - i) == word[n - 1 - i]);
        assert((ex + rdx * i) % w == (sx + dx * (n - 1 - i)) % w);
        assert((ey + rdy * i) % h == (sy + dy * (n - 1 - i)) % h);
        assert(line_char(g, ex, ey, rdx, rdy, i) == line_char(g, sx, sy, dx, dy, n - 1 - i));
    }
}

/// The brute-force search is symmetric under word reversal: whenever it
/// finds a word, it finds the reversed word too, from the end cell of the
/// original line along the reversed direction.
pub proof fn lemma_reverse_search(g: Grid, word: Seq<char>)
    requires
        g.wf(),
        word.len() >= 1,
        spec_assess_brute(g, word),
    ensures
        spec_assess_brute(g, word.reverse()),
{
    let w = g.spec_width();
    let h = g.spec_height();
    g.lemma_dims();
    let n = word.len() as int;
    let idx = choose|idx: int|
        0 <= idx < g.contents().len() && #[trigger] spec_brute_found_at(g, idx, word);
    let (dx, dy) = choose|dx: int, dy: int|
        0 <= dx <= w && 0 <= dy <= h && #[trigger] spec_brute_hit(g, idx, dx, dy, word);
    let sx = idx % w;
    let sy = idx / w;
    let ex = (sx + dx * (n - 1)) % w;
    let ey = (sy + dy * (n - 1)) % h;
    let rdx = (w - dx % w) % w;
    let rdy = (h - dy % h) % h;
    lemma_directional_symmetry(g, sx, sy, dx, dy, word);
    lemma_mod_bound(sx + dx * (n - 1), w);
    lemma_mod_bound(sy + dy * (n - 1), h);
    lemma_mod_bound(w - dx % w, w);
    lemma_mod_bound(h - dy % h, h);
    let idx2 = ey * w + ex;
    lemma_cell_index_in_range(g, ex, ey);
    lemma_small_mod(ex as nat, w as nat);
    lemma_small_mod(ey as nat, h as nat);
    assert(idx2 == (ey % h) * w + ex % w);
    lemma_fundamental_div_mod_converse(idx2, w, ey, ex);
    assert(spec_brute_hit(g, idx2, rdx, rdy, word.reverse()));
    assert(spec_brute_found_at(g, idx2, word.reverse()));
}

/// A line depends on its direction only through the direction's residues
/// modulo the grid dimensions.
proof fn lemma_line_matches_residue(
    g: Grid,
    sx: int,
    sy: int,
    dx: int,
    dy: int,
    cx: int,
    cy: int,
    word: Seq<char>,
)
    requires
        g.wf(),
        dx % g.spec_width() == cx % g.spec_width(),
        dy % g.spec_height() == cy % g.spec_height(),
    ensures
        spec_line_matches(g, sx, sy, dx, dy, word) == spec_line_matches(g, sx, sy, cx, cy, word),
{
    let w = g.spec_width();
    let h = g.spec_height();
    g.lemma_dims();
    assert forall|i: int| 0 <= i < word.len() implies line_char(g, sx, sy, dx, dy, i) == line_char(
        g,
        sx,
        sy,
        cx,
        cy,
        i,
    ) by {
        lemma_mul_mod_noop_left(dx, i, w);
        lemma_mul_mod_noop_left(cx, i, w);
        lemma_add_mod_noop_right(sx, dx * i, w);
        lemma_add_mod_noop_right(sx, cx * i, w);
        lemma_mul_mod_noop_left(dy, i, h);
        lemma_mul_mod_noop_left(cy, i, h);
        lemma_add_mod_noop_right(sy, dy * i, h);
        lemma_add_mod_noop_right(sy, cy * i, h);
        assert((sx + dx * i) % w == (sx + cx * i) % w);
        assert((sy + dy * i) % h == (sy + cy * i) % h);
    }
    assert(spec_line_matches(g, sx, sy, dx, dy, word) ==> spec_line_matches(
        g,
        sx,
        sy,
        cx,
        cy,
        word,
    ));
    assert(spec_line_matches(g, sx, sy, cx, cy, word) ==> spec_line_matches(
        g,
        sx,
        sy,
        dx,
        dy,
        word,
    ));
}

/// Soundness of the filter: whatever the filtered search finds, the
/// brute-force search over the full candidate square finds as well.
pub proof fn lemma_enumerated_implies_brute(g: Grid, word: Seq<char>)
    requires
        g.wf(),
        spec_assess(g, word),
    ensures
        spec_assess_brute(g, word),
{
    let w = g.spec_width();
    let h = g.spec_height();
    g.lemma_dims();
    let idx = choose|idx: int| 0 <= idx < g.contents().len() && #[trigger] spec_found_at(
        g,
        idx,
        word,
    );
    let (dx, dy) = choose|dx: int, dy: int|
        0 <= dx <= w && 0 <= dy <= h && #[trigger] spec_dir_hit(g, idx, dx, dy, word);
    assert(spec_brute_hit(g, idx, dx, dy, word));
    assert(spec_brute_found_at(g, idx, word));
}

/// The filtered search equals the brute-force search on every torus whose
/// residue directions all have representatives in the enumerated set.
/// The hypothesis is not vacuous and not universal: it fails, for
/// instance, on the 2 x 2 torus, where no filtered candidate is congruent
/// to the stationary step `(0, 0)`.
pub proof fn lemma_assess_equals_brute(g: Grid, word: Seq<char>)
    requires
        g.wf(),
        directions_covered(g.spec_width(), g.spec_height()),
    ensures
        spec_assess(g, word) == spec_assess_brute(g, word),
{
    let w = g.spec_width();
    let h = g.spec_height();
    g.lemma_dims();
    if spec_assess(g, word) {
        lemma_enumerated_implies_brute(g, word);
    }
    if spec_assess_brute(g, word) {
        let idx = choose|idx: int|
            0 <= idx < g.contents().len() && #[trigger] spec_brute_found_at(g, idx, word);
        let (dx, dy) = choose|dx: int, dy: int|
            0 <= dx <= w && 0 <= dy <= h && #[trigger] spec_brute_hit(g, idx, dx, dy, word);
        lemma_mod_bound(dx, w);
        lemma_mod_bound(dy, h);
        assert(covered_dir(dx % w, dy % h, w, h));
        let (cx, cy) = choose|cx: int, cy: int|
            0 <= cx <= w && 0 <= cy <= h && cx % w == dx % w && cy % h == dy % h
                && #[trigger] spec_offset_valid(cx, cy, w, h);
        lemma_line_matches_residue(g, idx % w, idx / w, dx, dy, cx, cy, word);
        assert(spec_dir_hit(g, idx, cx, cy, word));
        assert(spec_found_at(g, idx, word));
    }
}

/// The coverage hypothesis is satisfiable: on the 4 x 5 torus every
/// residue direction has a representative in the enumerated set, so the
/// filtered search equals the brute-force search on every 4 x 5 grid.
pub proof fn lemma_four_by_five_covered()
    ensures
        directions_covered(4, 5),
{
    reveal_with_fuel(spec_gcd, 8);
    assert(covered_dir(0, 0, 4, 5)) by {
        assert(spec_offset_valid(4, 5, 4, 5));
    }
    assert(covered_dir(0, 1, 4, 5)) by {
        assert(spec_offset_valid(0, 1, 4, 5));
    }
    assert(covered_dir(0, 2, 4, 5)) by {
        assert(spec_offset_valid(4, 2, 4, 5));
    }
    assert(covered_dir(0, 3, 4, 5)) by {
        assert(spec_offset_valid(4, 3, 4, 5));
    }
    assert(covered_dir(0, 4, 4, 5)) by {
        assert(spec_offset_valid(0, 4, 4, 5));
    }
    assert(covered_dir(1, 0, 4, 5)) by {
        assert(spec_offset_valid(1, 0, 4, 5));
    }
    assert(covered_dir(2, 0, 4, 5)) by {
        assert(spec_offset_valid(2, 5, 4, 5));
    }
    assert(covered_dir(3, 0, 4, 5)) by {
        assert(spec_offset_valid(3, 0, 4, 5));
    }
    assert(covered_dir(1, 1, 4, 5)) by {
        assert(spec_offset_valid(1, 1, 4, 5));
    }
    assert(covered_dir(1, 2, 4, 5)) by {
        assert(spec_offset_valid(1, 2, 4, 5));
    }
    assert(covered_dir(1, 3, 4, 5)) by {
        assert(spec_offset_valid(1, 3, 4, 5));
    }
    assert(covered_dir(1, 4, 4, 5)) by {
        assert(spec_offset_valid(1, 4, 4, 5));
    }
    assert(covered_dir(2, 1, 4, 5)) by {
        assert(spec_offset_valid(2, 1, 4, 5));
    }
    assert(covered_dir(2, 2, 4, 5)) by {
        assert(spec_offset_valid(2, 2, 4, 5));
    }
    assert(covered_dir(2, 3, 4, 5)) by {
        assert(spec_offset_valid(2, 3, 4, 5));
    }
    assert(covered_dir(2, 4, 4, 5)) by {
        assert(spec_offset_valid(2, 4, 4, 5));
    }
    assert(covered_dir(3, 1, 4, 5)) by {
        assert(spec_offset_valid(3, 1, 4, 5));
    }
    assert(covered_dir(3, 2, 4, 5)) by {
        assert(spec_offset_valid(3, 2, 4, 5));
    }
    assert(covered_dir(3, 3, 4, 5)) by {
        assert(spec_offset_valid(3, 3, 4, 5));
    }
    assert(covered_dir(3, 4, 4, 5)) by {
        assert(spec_offset_valid(3, 4, 4, 5));
    }
    assert forall|a: int, b: int| 0 <= a < 4 && 0 <= b < 5 implies #[trigger] covered_dir(
        a,
        b,
        4,
        5,
    ) by {
        if a == 0 {
            if b == 0 {
                assert(covered_dir(0, 0, 4, 5));
            } else if b == 1 {
                assert(covered_dir(0, 1, 4, 5));
            } else if b == 2 {
                assert(covered_dir(0, 2, 4, 5));
            } else if b == 3 {
                assert(covered_dir(0, 3, 4, 5));
            } else {
                assert(covered_dir(0, 4, 4, 5));
            }
        } else if a == 1 {
            if b == 0 {
                assert(covered_dir(1, 0, 4, 5));
            } else if b == 1 {
                assert(covered_dir(1, 1, 4, 5));
            } else if b == 2 {
                assert(covered_dir(1, 2, 4, 5));
            } else if b == 3 {
                assert(covered_dir(1, 3, 4, 5));
            } else {
                assert(covered_dir(1, 4, 4, 5));
            }
        } else if a == 2 {
            if b == 0 {
                assert(covered_dir(2, 0, 4, 5));
            } else if b == 1 {
                assert(covered_dir(2, 1, 4, 5));
            } else if b == 2 {
                assert(covered_dir(2, 2, 4, 5));
            } else if b == 3 {
                assert(covered_dir(2, 3, 4, 5));
            } else {
                assert(covered_dir(2, 4, 4, 5));
            }
        } else {
            if b == 0 {
                assert(covered_dir(3, 0, 4, 5));
            } else if b == 1 {
                assert(covered_dir(3, 1, 4, 5));
            } else if b == 2 {
                assert(covered_dir(3, 2, 4, 5));
            } else if b == 3 {
                assert(covered_dir(3, 3, 4, 5));
            } else {
                assert(covered_dir(3, 4, 4, 5));
            }
        }
    }
}

/// The coverage hypothesis is not universal: on the 2 x 2 torus no
/// candidate congruent to the stationary step `(0, 0)` passes the filter,
/// so the equivalence with the brute-force search is not available there.
pub proof fn lemma_two_by_two_not_covered()
    ensures
        !directions_covered(2, 2),
{
    reveal_with_fuel(spec_gcd, 4);
    assert forall|dx: int, dy: int|
        0 <= dx <= 2 && 0 <= dy <= 2 && dx % 2 == 0 && dy % 2 == 0 implies !spec_offset_valid(
        dx,
        dy,
        2,
        2,
    ) by {
        assert(dx == 0 || dx == 2);
        assert(dy == 0 || dy == 2);
        assert(spec_gcd(2, 2) == 2);
        assert(spec_gcd(0, 2) == 2);
        assert(spec_gcd(2, 0) == 2);
        assert(spec_gcd(0, 0) == 0);
    }
    assert(!covered_dir(0, 0, 2, 2));
}

} // verus!
