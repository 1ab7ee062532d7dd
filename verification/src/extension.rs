//! Flattens a matrix of extension field elements to one of base field
//! elements. The flattening is done horizontally, resulting in a wider
//! matrix: each extension element expands to its basis coefficients.
//!
//! Field elements are held as their canonical representatives, so a base
//! field element is a plain unsigned integer and an extension element is
//! its ordered list of basis coefficients over the base field.

use vstd::arithmetic::div_mod::{
    lemma_fundamental_div_mod, lemma_fundamental_div_mod_converse_div,
    lemma_fundamental_div_mod_converse_mod, lemma_multiply_divide_lt,
};
use vstd::arithmetic::mul::lemma_mul_inequality;
use vstd::prelude::*;

verus! {

/// An extension field element: its basis coefficients over the base field,
/// in basis order, each a canonical base-field representative.
#[derive(Clone, Debug)]
pub struct ExtElem {
    pub coeffs: Vec<u64>,
}

/// A dense row-major matrix of extension field elements: `width` elements
/// per row, rows stored one after another.
#[derive(Clone, Debug)]
pub struct RowMajorMatrix {
    pub values: Vec<ExtElem>,
    pub width: usize,
    pub dimension: usize,
}

impl RowMajorMatrix {
    /// The stored values fill whole rows and every element has the fixed
    /// extension dimension.
    pub open spec fn wf(self) -> bool {
        &&& (self.width == 0 ==> self.values@.len() == 0)
        &&& (self.width > 0 ==> self.values@.len() as int % (self.width as int) == 0)
        &&& forall|i: int|
            0 <= i < self.values@.len() ==> (#[trigger] self.values@[i]).coeffs@.len()
                == self.dimension
    }

    /// The number of rows.
    pub open spec fn spec_height(self) -> int {
        if self.width == 0 {
            0
        } else {
            self.values@.len() as int / (self.width as int)
        }
    }

    pub fn new(values: Vec<ExtElem>, width: usize, dimension: usize) -> (m: RowMajorMatrix)
        requires
            width == 0 ==> values@.len() == 0,
            width > 0 ==> values@.len() as int % (width as int) == 0,
            forall|i: int|
                0 <= i < values@.len() ==> (#[trigger] values@[i]).coeffs@.len() == dimension,
        ensures
            m.wf(),
            m.values == values,
            m.width == width,
            m.dimension == dimension,
    {
        RowMajorMatrix { values, width, dimension }
    }

    /// The number of rows.
    pub fn height(&self) -> (h: usize)
        ensures
            h as int == self.spec_height(),
    {
        if self.width == 0 {
            0
        } else {
            self.values.len() / self.width
        }
    }
}

/// Row `r` of the matrix, flattened to base field elements: element `e` of
/// the row expands to its `dimension` basis coefficients in order, so flat
/// column `c` reads coefficient `c % dimension` of element `c / dimension`.
pub open spec fn flat_row(m: RowMajorMatrix, r: int) -> Seq<u64> {
    Seq::new(
        (m.width * m.dimension) as nat,
        |c: int| m.values@[r * m.width + c / (m.dimension as int)].coeffs@[c % (m.dimension as int)],
    )
}

/// In a well-formed matrix, element `e` of row `r` lies inside the stored
/// values.
proof fn lemma_row_elem_in_bounds(m: RowMajorMatrix, r: int, e: int)
    requires
        m.wf(),
        0 <= r < m.spec_height(),
        0 <= e < m.width,
    ensures
        0 <= r * m.width + e < m.values@.len(),
{
    let w = m.width as int;
    let len = m.values@.len() as int;
    lemma_fundamental_div_mod(len, w);
    assert(len == w * m.spec_height());
    lemma_mul_inequality(r + 1, m.spec_height(), w);
    assert((r + 1) * w == r * w + w) by (nonlinear_arith);
    assert(m.spec_height() * w == w * m.spec_height()) by (nonlinear_arith);
    assert(r * w >= 0) by (nonlinear_arith)
        requires
            r >= 0 && w > 0,
    ;
}

/// A non-owning view that reinterprets a matrix of extension field elements
/// as a wider matrix over the base field, without copying the storage.
#[derive(Clone, Debug)]
pub struct FlatMatrixView {
    inner: RowMajorMatrix,
}

impl FlatMatrixView {
    pub fn new(inner: RowMajorMatrix) -> (v: FlatMatrixView)
        ensures
            v.inner() == inner,
    {
        FlatMatrixView { inner }
    }

    /// The wrapped matrix of extension field elements.
    pub closed spec fn inner(self) -> RowMajorMatrix {
        self.inner
    }

    /// A borrow of the wrapped matrix.
    pub fn inner_ref(&self) -> (m: &RowMajorMatrix)
        ensures
            *m == self.inner(),
    {
        &self.inner
    }

    /// The flattened width: the inner width times the extension dimension.
    pub fn width(&self) -> (w: usize)
        requires
            self.inner().width * self.inner().dimension <= usize::MAX,
        ensures
            w == self.inner().width * self.inner().dimension,
    {
        self.inner.width * self.inner.dimension
    }

    /// The height of the inner matrix.
    pub fn height(&self) -> (h: usize)
        ensures
            h as int == self.inner().spec_height(),
    {
        self.inner.height()
    }

    /// A lazy pass over row `r` of the flattened matrix.
    pub fn row<'a>(&'a self, r: usize) -> (it: FlatIter<'a>)
        requires
            self.inner().wf(),
            (r as int) < self.inner().spec_height(),
            self.inner().width * self.inner().dimension <= usize::MAX,
        ensures
            it.wf(),
            it.matrix() == self.inner(),
            it.row_index() == r,
            it.position() == 0,
    {
        FlatIter { m: &self.inner, r, k: 0 }
    }

    /// Row `r` of the flattened matrix, materialized as an allocated
    /// sequence for random-access callers.
    pub fn row_slice(&self, r: usize) -> (out: Vec<u64>)
        requires
            self.inner().wf(),
            (r as int) < self.inner().spec_height(),
            self.inner().width * self.inner().dimension <= usize::MAX,
        ensures
            out@ == flat_row(self.inner(), r as int),
    {
        let w = self.inner.width;
        let d = self.inner.dimension;
        let mut out: Vec<u64> = Vec::new();
        let mut e: usize = 0;
        while e < w
            invariant
                self.inner().wf(),
                (r as int) < self.inner().spec_height(),
                w == self.inner().width,
                d == self.inner().dimension,
                w * d <= usize::MAX,
                e <= w,
                out@.len() == e * d,
                forall|c: int|
                    0 <= c < out@.len() ==> out@[c] == flat_row(self.inner(), r as int)[c],
            decreases w - e,
        {
            let n = self.inner.values.len();
            proof {
                lemma_row_elem_in_bounds(self.inner(), r as int, e as int);
                lemma_mul_inequality(e as int + 1, w as int, d as int);
                assert((e + 1) * d == e * d + d) by (nonlinear_arith);
                assert(r * w + e < n);
            }
            let elem = &self.inner.values[r * w + e];
            let mut j: usize = 0;
            while j < d
                invariant
                    self.inner().wf(),
                    (r as int) < self.inner().spec_height(),
                    w == self.inner().width,
                    d == self.inner().dimension,
                    w * d <= usize::MAX,
                    e < w,
                    j <= d,
                    e * d + d <= w * d,
                    *elem == self.inner().values@[r * w + e],
                    elem.coeffs@.len() == d,
                    out@.len() == e * d + j,
                    forall|c: int|
                        0 <= c < out@.len() ==> out@[c] == flat_row(self.inner(), r as int)[c],
                decreases d - j,
            {
                out.push(elem.coeffs[j]);
                proof {
                    let c = (e * d + j) as int;
                    lemma_fundamental_div_mod_converse_div(c, d as int, e as int, j as int);
                    lemma_fundamental_div_mod_converse_mod(c, d as int, e as int, j as int);
                    assert(out@[c] == flat_row(self.inner(), r as int)[c]);
                }
                j += 1;
            }
            e += 1;
        }
        proof {
            assert(out@ =~= flat_row(self.inner(), r as int));
        }
        out
    }
}

/// A lazy, finite, non-restartable pass over one row of a flattened matrix:
/// it yields the basis coefficients of each extension element of the row in
/// order before advancing to the next element.
pub struct FlatIter<'a> {
    m: &'a RowMajorMatrix,
    r: usize,
    k: usize,
}

impl<'a> FlatIter<'a> {
    /// The matrix the iterator walks.
    pub closed spec fn matrix(self) -> RowMajorMatrix {
        *self.m
    }

    /// The row the iterator walks.
    pub closed spec fn row_index(self) -> int {
        self.r as int
    }

    /// How many base field elements have been yielded so far.
    pub closed spec fn position(self) -> int {
        self.k as int
    }

    /// The iterator points into a well-formed matrix and has yielded at most
    /// a full row.
    pub closed spec fn wf(self) -> bool {
        &&& self.m.wf()
        &&& (self.r as int) < self.m.spec_height()
        &&& self.k <= self.m.width * self.m.dimension
        &&& self.m.width * self.m.dimension <= usize::MAX
    }

    /// The next base field element of the row: the coefficient at the
    /// current flat position, or `None` once the row is exhausted.
    pub fn next(&mut self) -> (item: Option<u64>)
        requires
            old(self).wf(),
        ensures
            final(self).wf(),
            final(self).matrix() == old(self).matrix(),
            final(self).row_index() == old(self).row_index(),
            old(self).position() < flat_row(old(self).matrix(), old(self).row_index()).len()
                ==> item == Some(
                flat_row(old(self).matrix(), old(self).row_index())[old(self).position()],
            ) && final(self).position() == old(self).position() + 1,
            old(self).position() >= flat_row(old(self).matrix(), old(self).row_index()).len()
                ==> item is None && final(self).position() == old(self).position(),
    {
        let w = self.m.width;
        let d = self.m.dimension;
        let total = w * d;
        if self.k < total {
            let ghost k0 = self.k;
            proof {
                assert(d > 0) by (nonlinear_arith)
                    requires
                        k0 < w * d && w >= 0 && d >= 0,
                ;
                lemma_multiply_divide_lt(k0 as int, d as int, w as int);
                assert(d as int * w as int == w as int * d as int) by (nonlinear_arith);
            }
            let e = self.k / d;
            let j = self.k % d;
            let n = self.m.values.len();
            proof {
                lemma_row_elem_in_bounds(*old(self).m, old(self).r as int, e as int);
                assert(self.r * w + e < n);
            }
            let val = self.m.values[self.r * w + e].coeffs[j];
            self.k = self.k + 1;
            Some(val)
        } else {
            None
        }
    }
}

} // verus!
