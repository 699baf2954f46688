//! The rectangular, wrap-around character grid and its construction-time
//! validation.

use vstd::prelude::*;
use vstd::arithmetic::div_mod::{
    lemma_fundamental_div_mod, lemma_fundamental_div_mod_converse, lemma_mod_bound,
    lemma_mod_mod,
};

verus! {

/// Everything that can go wrong at the validation boundary: a grid whose
/// content is empty or does not fill its declared width evenly, or a query
/// word that is too short to search for.
#[derive(Clone, Copy, Debug, PartialEq, Eq, Structural)]
pub enum SearchError {
    InvalidGridShape,
    InvalidWordLength,
}

/// A grid shape is acceptable when the content is non-empty and splits
/// evenly into rows of the declared width.
pub open spec fn valid_shape(len: int, width: int) -> bool {
    width > 0 && len > 0 && len % width == 0
}

/// A rectangular character grid, read with wraparound in both axes: the
/// cell at `(x, y)` is the cell at `(x mod width, y mod height)`, so the
/// grid has no edges for search purposes.
#[derive(Clone, Debug)]
pub struct Grid {
    content: Vec<char>,
    width: usize,
}

impl Grid {
    /// The characters of the grid in row-major order.
    pub closed spec fn contents(&self) -> Seq<char> {
        self.content@
    }

    /// The declared row length.
    pub closed spec fn spec_width(&self) -> int {
        self.width as int
    }

    /// The number of rows.
    pub open spec fn spec_height(&self) -> int {
        self.contents().len() as int / self.spec_width()
    }

    /// The construction-time invariant: a positive width that evenly
    /// divides a non-empty content length.
    pub open spec fn wf(&self) -> bool {
        valid_shape(self.contents().len() as int, self.spec_width())
    }

    /// The character at `(x mod width, y mod height)`, defined for every
    /// pair of coordinates.
    pub open spec fn spec_char_at(&self, x: int, y: int) -> char {
        self.contents()[(y % self.spec_height()) * self.spec_width() + x % self.spec_width()]
    }

    /// A well-formed grid has positive dimensions, and its content length
    /// is exactly their product.
    pub proof fn lemma_dims(&self)
        requires
            self.wf(),
        ensures
            self.spec_width() > 0,
            self.spec_height() > 0,
            self.contents().len() as int == self.spec_width() * self.spec_height(),
    {
        let w = self.spec_width();
        let n = self.contents().len() as int;
        lemma_fundamental_div_mod(n, w);
        assert(n / w >= 1) by (nonlinear_arith)
            requires
                n == w * (n / w),
                n > 0,
                w > 0,
        ;
    }

    /// Validating constructor: accepts exactly the valid shapes and
    /// reports `InvalidGridShape` for every other input.
    pub fn construct(content: Vec<char>, width: usize) -> (r: Result<Grid, SearchError>)
        ensures
            r is Ok <==> valid_shape(content@.len() as int, width as int),
            r is Ok ==> r->Ok_0.wf() && r->Ok_0.contents() == content@ && r->Ok_0.spec_width()
                == width as int,
            r is Err ==> r->Err_0 == SearchError::InvalidGridShape,
    {
        if width > 0 && content.len() > 0 && content.len() % width == 0 {
            Ok(Grid { content, width })
        } else {
            Err(SearchError::InvalidGridShape)
        }
    }

    /// Option-valued constructor: `Some` exactly on the valid shapes.
    pub fn new(content: Vec<char>, width: usize) -> (r: Option<Grid>)
        ensures
            r is Some <==> valid_shape(content@.len() as int, width as int),
            r is Some ==> r->0.wf() && r->0.contents() == content@ && r->0.spec_width()
                == width as int,
    {
        match Grid::construct(content, width) {
            Ok(g) => Some(g),
            Err(_) => None,
        }
    }

    /// Number of rows: content length over width.
    pub fn height(&self) -> (h: usize)
        requires
            self.wf(),
        ensures
            h as int == self.spec_height(),
            h >= 1,
    {
        proof {
            lemma_fundamental_div_mod(self.contents().len() as int, self.spec_width());
            assert(self.contents().len() as int / self.spec_width() >= 1) by (nonlinear_arith)
                requires
                    self.contents().len() as int == self.spec_width() * (self.contents().len()
                        as int / self.spec_width()),
                    self.contents().len() > 0,
                    self.spec_width() > 0,
            ;
        }
        self.content.len() / self.width
    }

    /// The declared row length.
    pub fn width(&self) -> (w: usize)
        requires
            self.wf(),
        ensures
            w as int == self.spec_width(),
            w >= 1,
    {
        self.width
    }

    /// Content length; equals `width * height`.
    pub fn len(&self) -> (n: usize)
        requires
            self.wf(),
        ensures
            n as int == self.contents().len(),
            n as int == self.spec_width() * self.spec_height(),
            n >= 1,
    {
        proof {
            lemma_fundamental_div_mod(self.contents().len() as int, self.spec_width());
        }
        self.content.len()
    }

    /// The grid split into its rows, each of length `width`, in top-down
    /// order; used for display by an external harness.
    pub fn rows(&self) -> (r: Vec<Vec<char>>)
        requires
            self.wf(),
        ensures
            r@.len() == self.spec_height(),
            forall|i: int|
                0 <= i < r@.len() ==> (#[trigger] r@[i])@ == self.contents().subrange(
                    i * self.spec_width(),
                    (i + 1) * self.spec_width(),
                ),
    {
        proof {
            self.lemma_dims();
        }
        let w = self.width;
        let h = self.height();
        let n = self.content.len();
        let mut out: Vec<Vec<char>> = Vec::new();
        let mut y: usize = 0;
        while y < h
            invariant
                self.wf(),
                w as int == self.spec_width(),
                h as int == self.spec_height(),
                self.contents().len() as int == (w as int) * (h as int),
                n as int == (w as int) * (h as int),
                y <= h,
                out@.len() == y,
                forall|i: int|
                    0 <= i < y ==> (#[trigger] out@[i])@ == self.contents().subrange(
                        i * (w as int),
                        (i + 1) * (w as int),
                    ),
            decreases h - y,
        {
            let mut row: Vec<char> = Vec::new();
            let mut j: usize = 0;
            while j < w
                invariant
                    self.wf(),
                    w as int == self.spec_width(),
                    h as int == self.spec_height(),
                    self.contents().len() as int == (w as int) * (h as int),
                    n as int == (w as int) * (h as int),
                    y < h,
                    j <= w,
                    row@.len() == j,
                    forall|k: int|
                        0 <= k < j ==> row@[k] == self.contents()[y * (w as int) + k],
                decreases w - j,
            {
                proof {
                    assert(y * (w as int) + j < n as int) by (nonlinear_arith)
                        requires
                            y < h,
                            j < w,
                            0 < w,
                            n as int == (w as int) * (h as int),
                    ;
                }
                row.push(self.content[y * w + j]);
                j = j + 1;
            }
            proof {
                assert(0 <= y * (w as int) && (y + 1) * (w as int) <= self.contents().len())
                    by (nonlinear_arith)
                    requires
                        y < h,
                        0 < w,
                        self.contents().len() as int == (w as int) * (h as int),
                ;
                assert((y + 1) * (w as int) == y * (w as int) + w) by (nonlinear_arith);
                assert(row@ =~= self.contents().subrange(
                    y * (w as int),
                    (y + 1) * (w as int),
                ));
            }
            out.push(row);
            y = y + 1;
        }
        out
    }

    /// The grid repeated `n` times downward: the same width, an `n`-fold
    /// height, and the same toroidal content at every coordinate.
    pub fn tile_down(&self, n: usize) -> (r: Option<Grid>)
        requires
            self.wf(),
            n * self.contents().len() <= usize::MAX,
        ensures
            r is Some <==> n > 0,
            r is Some ==> r->0.wf() && r->0.spec_width() == self.spec_width()
                && r->0.spec_height() == n * self.spec_height() && forall|x: int, y: int|
                #[trigger] r->0.spec_char_at(x, y) == self.spec_char_at(x, y),
    {
        if n == 0 {
            return None;
        }
        proof {
            self.lemma_dims();
        }
        let w = self.width;
        let h = self.height();
        let len = self.content.len();
        let mut out: Vec<char> = Vec::new();
        let mut rep: usize = 0;
        while rep < n
            invariant
                self.wf(),
                w as int == self.spec_width(),
                h as int == self.spec_height(),
                len as int == self.contents().len(),
                n >= 1,
                n * (len as int) <= usize::MAX,
                rep <= n,
                out@.len() == rep * (len as int),
                forall|i: int|
                    0 <= i < out@.len() ==> out@[i] == self.contents()[i % (len as int)],
            decreases n - rep,
        {
            let mut j: usize = 0;
            while j < len
                invariant
                    self.wf(),
                    w as int == self.spec_width(),
                    h as int == self.spec_height(),
                    len as int == self.contents().len(),
                    n >= 1,
                    n * (len as int) <= usize::MAX,
                    rep < n,
                    j <= len,
                    out@.len() == rep * (len as int) + j,
                    forall|i: int|
                        0 <= i < out@.len() ==> out@[i] == self.contents()[i % (len as int)],
                decreases len - j,
            {
                out.push(self.content[j]);
                proof {
                    assert(rep * (len as int) + j < n * (len as int)) by (nonlinear_arith)
                        requires
                            rep < n,
                            0 <= j < len,
                    ;
                    lemma_fundamental_div_mod_converse(
                        rep * (len as int) + j,
                        len as int,
                        rep as int,
                        j as int,
                    );
                }
                j = j + 1;
            }
            proof {
                assert((rep + 1) * (len as int) == rep * (len as int) + len) by (nonlinear_arith);
            }
            rep = rep + 1;
        }
        let g = Grid { content: out, width: w };
        proof {
            let wi = w as int;
            let hi = h as int;
            let ni = n as int;
            let li = len as int;
            assert(g.contents().len() as int == ni * li);
            assert(ni * li == wi * (ni * hi) && ni * li > 0) by (nonlinear_arith)
                requires
                    li == wi * hi,
                    ni >= 1,
                    li > 0,
                    wi > 0,
                    hi > 0,
            ;
            assert(ni * hi > 0) by (nonlinear_arith)
                requires
                    ni >= 1,
                    hi > 0,
            ;
            lemma_fundamental_div_mod_converse(ni * li, wi, ni * hi, 0);
            assert(g.wf());
            assert(g.spec_height() == ni * hi);
            assert forall|x: int, y: int| #[trigger] g.spec_char_at(x, y) == self.spec_char_at(
                x,
                y,
            ) by {
                let hn = ni * hi;
                lemma_mod_bound(y, hn);
                lemma_mod_bound(x, wi);
                let yy = y % hn;
                lemma_fundamental_div_mod(yy, hi);
                lemma_mod_bound(yy, hi);
                let q = yy / hi;
                let ry = yy % hi;
                assert(0 <= q < ni) by (nonlinear_arith)
                    requires
                        yy == hi * q + ry,
                        0 <= yy < ni * hi,
                        0 <= ry < hi,
                        hi > 0,
                ;
                let i0 = yy * wi + x % wi;
                let r0 = ry * wi + x % wi;
                assert(i0 == q * li + r0 && 0 <= r0 < li && i0 < ni * li) by (nonlinear_arith)
                    requires
                        i0 == yy * wi + x % wi,
                        r0 == ry * wi + x % wi,
                        yy == hi * q + ry,
                        li == wi * hi,
                        0 <= ry < hi,
                        0 <= x % wi < wi,
                        0 <= q < ni,
                        wi > 0,
                        hi > 0,
                ;
                lemma_fundamental_div_mod_converse(i0, li, q, r0);
                assert(g.contents()[i0] == self.contents()[r0]);
                lemma_mod_mod(y, hi, ni);
                assert(ry == y % hi);
            }
        }
        Some(g)
    }

    /// Each row repeated `n` times to the right: an `n`-fold width, the
    /// same height, and the same toroidal content at every coordinate.
    pub fn tile_right(&self, n: usize) -> (r: Option<Grid>)
        requires
            self.wf(),
            n * self.contents().len() <= usize::MAX,
        ensures
            r is Some <==> n > 0,
            r is Some ==> r->0.wf() && r->0.spec_width() == n * self.spec_width()
                && r->0.spec_height() == self.spec_height() && forall|x: int, y: int|
                #[trigger] r->0.spec_char_at(x, y) == self.spec_char_at(x, y),
    {
        if n == 0 {
            return None;
        }
        proof {
            self.lemma_dims();
        }
        let w = self.width;
        let h = self.height();
        let len = self.content.len();
        proof {
            assert(w * n <= len * n && h as int * ((w * n) as int) == n * (len as int))
                by (nonlinear_arith)
                requires
                    len as int == (w as int) * (h as int),
                    w >= 1,
                    h >= 1,
                    n >= 1,
            ;
        }
        let nw = w * n;
        let mut out: Vec<char> = Vec::new();
        let mut y: usize = 0;
        while y < h
            invariant
                self.wf(),
                w as int == self.spec_width(),
                h as int == self.spec_height(),
                len as int == self.contents().len(),
                nw as int == (w as int) * (n as int),
                n >= 1,
                n * (len as int) <= usize::MAX,
                y <= h,
                out@.len() == y * (nw as int),
                forall|i: int|
                    0 <= i < out@.len() ==> out@[i] == self.contents()[(i / (nw as int)) * (
                    w as int) + (i % (nw as int)) % (w as int)],
            decreases h - y,
        {
            let mut rep: usize = 0;
            while rep < n
                invariant
                    self.wf(),
                    w as int == self.spec_width(),
                    h as int == self.spec_height(),
                    len as int == self.contents().len(),
                    nw as int == (w as int) * (n as int),
                    n >= 1,
                    n * (len as int) <= usize::MAX,
                    y < h,
                    rep <= n,
                    out@.len() == y * (nw as int) + rep * (w as int),
                    forall|i: int|
                        0 <= i < out@.len() ==> out@[i] == self.contents()[(i / (nw as int)) * (
                        w as int) + (i % (nw as int)) % (w as int)],
                decreases n - rep,
            {
                let mut j: usize = 0;
                while j < w
                    invariant
                        self.wf(),
                        w as int == self.spec_width(),
                        h as int == self.spec_height(),
                        len as int == self.contents().len(),
                        nw as int == (w as int) * (n as int),
                        n >= 1,
                        n * (len as int) <= usize::MAX,
                        y < h,
                        rep < n,
                        j <= w,
                        out@.len() == y * (nw as int) + rep * (w as int) + j,
                        forall|i: int|
                            0 <= i < out@.len() ==> out@[i] == self.contents()[(i / (nw as int))
                                * (w as int) + (i % (nw as int)) % (w as int)],
                    decreases w - j,
                {
                    proof {
                        self.lemma_dims();
                        assert(y * (w as int) + j < len as int) by (nonlinear_arith)
                            requires
                                y < h,
                                0 <= j < w,
                                len as int == (w as int) * (h as int),
                        ;
                    }
                    out.push(self.content[y * w + j]);
                    proof {
                        let wi = w as int;
                        let nwi = nw as int;
                        let p = y * nwi + rep * wi + j;
                        let rp = rep * wi + j;
                        assert(0 <= rp < nwi && p == y * nwi + rp) by (nonlinear_arith)
                            requires
                                p == y * nwi + rep * wi + j,
                                rp == rep * wi + j,
                                0 <= rep < n,
                                0 <= j,
                                j < wi,
                                nwi == wi * (n as int),
                                wi > 0,
                                0 <= y,
                        ;
                        lemma_fundamental_div_mod_converse(p, nwi, y as int, rp);
                        lemma_fundamental_div_mod_converse(rp, wi, rep as int, j as int);
                    }
                    j = j + 1;
                }
                proof {
                    assert((rep + 1) * (w as int) == rep * (w as int) + w) by (nonlinear_arith);
                }
                rep = rep + 1;
            }
            proof {
                assert((y + 1) * (nw as int) == y * (nw as int) + (n as int) * (w as int)
                    && (n as int) * (w as int) == n * (w as int)) by (nonlinear_arith)
                    requires
                        nw as int == (w as int) * (n as int),
                ;
            }
            y = y + 1;
        }
        let g = Grid { content: out, width: nw };
        proof {
            let wi = w as int;
            let hi = h as int;
            let ni = n as int;
            let nwi = nw as int;
            assert(g.contents().len() as int == hi * nwi);
            assert(nwi > 0) by (nonlinear_arith)
                requires
                    nwi == wi * ni,
                    wi > 0,
                    ni >= 1,
            ;
            assert(hi * nwi > 0) by (nonlinear_arith)
                requires
                    hi > 0,
                    nwi > 0,
            ;
            lemma_fundamental_div_mod_converse(hi * nwi, nwi, hi, 0);
            assert(g.wf());
            assert(g.spec_height() == hi);
            assert forall|x: int, y2: int| #[trigger] g.spec_char_at(x, y2) == self.spec_char_at(
                x,
                y2,
            ) by {
                lemma_mod_bound(y2, hi);
                lemma_mod_bound(x, nwi);
                let yy = y2 % hi;
                let xx = x % nwi;
                let i0 = yy * nwi + xx;
                assert(0 <= i0 < hi * nwi) by (nonlinear_arith)
                    requires
                        i0 == yy * nwi + xx,
                        0 <= yy < hi,
                        0 <= xx < nwi,
                        nwi > 0,
                ;
                lemma_fundamental_div_mod_converse(i0, nwi, yy, xx);
                assert(g.contents()[i0] == self.contents()[yy * wi + xx % wi]);
                lemma_mod_mod(x, wi, ni);
                assert(xx % wi == x % wi);
            }
        }
        Some(g)
    }

    /// The character at `(x mod width, y mod height)` — always in range,
    /// by construction.
    pub fn char_at(&self, x: usize, y: usize) -> (c: char)
        requires
            self.wf(),
        ensures
            c == self.spec_char_at(x as int, y as int),
    {
        let w = self.width;
        let h = self.height();
        let n = self.content.len();
        let xm = x % w;
        let ym = y % h;
        proof {
            lemma_fundamental_div_mod(n as int, w as int);
            lemma_mod_bound(x as int, w as int);
            lemma_mod_bound(y as int, h as int);
            assert(ym * w + xm < n) by (nonlinear_arith)
                requires
                    ym < h,
                    xm < w,
                    0 < w,
                    n as int == w as int * (h as int),
            ;
        }
        self.content[ym * w + xm]
    }
}

} // verus!
