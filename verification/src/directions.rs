//! Enumeration of the step vectors that a search must try: the two axis
//! units, the two wrap units, and the diagonal candidates whose raw or
//! axis-mirrored form is a primitive (coprime) step.

use vstd::prelude::*;

verus! {

/// Mathematical greatest common divisor by Euclid's recursion; in
/// particular `spec_gcd(a, 0) == a` and `spec_gcd(0, b) == b`.
pub open spec fn spec_gcd(a: nat, b: nat) -> nat
    decreases b,
{
    if b == 0 {
        a
    } else {
        spec_gcd(b, a % b)
    }
}

/// Relies on `gcd::Gcd::gcd` for `usize` (the binary GCD algorithm): it
/// returns the greatest common divisor of its arguments, with
/// `gcd(a, 0) == a` and `gcd(0, b) == b`.
#[verifier::external_body]
fn gcd_usize(a: usize, b: usize) -> (r: usize)
    ensures
        r as nat == spec_gcd(a as nat, b as nat),
{
    gcd::Gcd::gcd(a, b)
}

/// The direction filter, for a candidate `(x, y)` with `0 <= x <= w` and
/// `0 <= y <= h`: keep the two axis units, the two wrap units, and any
/// strictly diagonal step one of whose four axis-mirrored forms is
/// coprime.
pub open spec fn spec_offset_valid(x: int, y: int, w: int, h: int) -> bool {
    ||| x + y == 1
    ||| (x == 0 && y > 0 && y == h - 1)
    ||| (x > 0 && x == w - 1 && y == 0)
    ||| (x > 0 && y > 0 && {
        ||| spec_gcd(x as nat, y as nat) == 1
        ||| spec_gcd((w - x) as nat, y as nat) == 1
        ||| spec_gcd(x as nat, (h - y) as nat) == 1
        ||| spec_gcd((w - x) as nat, (h - y) as nat) == 1
    })
}

/// The residue direction `(a, b)` has a representative in the enumerated
/// set: some candidate of the square `[0, w] x [0, h]` passes the filter
/// and steps to the same cells.
pub open spec fn covered_dir(a: int, b: int, w: int, h: int) -> bool {
    exists|dx: int, dy: int|
        0 <= dx <= w && 0 <= dy <= h && dx % w == a && dy % h == b && #[trigger] spec_offset_valid(
            dx,
            dy,
            w,
            h,
        )
}

/// Every residue direction on the `w` x `h` torus has a representative in
/// the enumerated set. This does not hold of every shape — on a 2 x 2
/// torus no filtered candidate is congruent to the stationary step
/// `(0, 0)` — and it is exactly the hypothesis under which the filtered
/// search equals the brute-force search.
pub open spec fn directions_covered(w: int, h: int) -> bool {
    forall|a: int, b: int| 0 <= a < w && 0 <= b < h ==> #[trigger] covered_dir(a, b, w, h)
}

/// Decides whether the step vector `(x, y)` belongs to the direction set
/// for a `width` x `height` torus.
pub fn offset_valid(x: usize, y: usize, width: usize, height: usize) -> (r: bool)
    requires
        x <= width,
        y <= height,
    ensures
        r == spec_offset_valid(x as int, y as int, width as int, height as int),
{
    if (x == 0 && y == 1) || (x == 1 && y == 0) {
        true
    } else if x == 0 && y > 0 && y == height - 1 {
        true
    } else if x > 0 && x == width - 1 && y == 0 {
        true
    } else if x > 0 && y > 0 {
        gcd_usize(x, y) == 1 || gcd_usize(width - x, y) == 1 || gcd_usize(x, height - y) == 1
            || gcd_usize(width - x, height - y) == 1
    } else {
        false
    }
}

} // verus!
