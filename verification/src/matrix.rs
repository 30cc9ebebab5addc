//! The dense matrix type and its operations.
//!
//! A [`Matrix`] owns a rectangular, non-empty grid of elements, stored
//! row-major. Every operation is specified against the mathematical model
//! of the grid, a `Seq<Seq<T>>` of well-formed elements.

use vstd::prelude::*;

use crate::elem::{FromElem, ToMatrix};
use crate::errors::MatrixError;

verus! {

/// A dense matrix over the element type `T`, stored as its rows.
#[derive(Clone, Debug, PartialEq)]
pub struct Matrix<T: ToMatrix> {
    entries: Vec<Vec<T>>,
}

/// The model of a vector of rows.
pub open spec fn vecs_view<T: ToMatrix>(v: Seq<Vec<T>>) -> Seq<Seq<T>> {
    Seq::new(v.len(), |i: int| v[i]@)
}

/// A rectangular, non-empty grid of well-formed elements.
pub open spec fn mat_wf<T: ToMatrix>(m: Seq<Seq<T>>) -> bool {
    &&& m.len() >= 1
    &&& m[0].len() >= 1
    &&& forall|i: int| 0 <= i < m.len() ==> (#[trigger] m[i]).len() == m[0].len()
    &&& forall|i: int, j: int|
        0 <= i < m.len() && 0 <= j < m[i].len() ==> (#[trigger] m[i][j]).wf()
}

/// As many rows as columns.
pub open spec fn mat_square<T: ToMatrix>(m: Seq<Seq<T>>) -> bool {
    m.len() == m[0].len()
}

/// All rows share the first row's length.
pub open spec fn rows_equal<T: ToMatrix>(m: Seq<Seq<T>>) -> bool {
    forall|i: int| 0 <= i < m.len() ==> (#[trigger] m[i]).len() == m[0].len()
}

/// Entry `(j, i)` of the argument at position `(i, j)`.
pub open spec fn transpose_of<T: ToMatrix>(m: Seq<Seq<T>>) -> Seq<Seq<T>> {
    Seq::new(m[0].len(), |j: int| Seq::new(m.len(), |i: int| m[i][j]))
}

/// The grid with row `r` and column `c` removed.
pub open spec fn submatrix_of<T: ToMatrix>(m: Seq<Seq<T>>, r: int, c: int) -> Seq<Seq<T>> {
    Seq::new(
        (m.len() - 1) as nat,
        |i: int|
            Seq::new(
                (m[0].len() - 1) as nat,
                |j: int|
                    m[if i < r {
                        i
                    } else {
                        i + 1
                    }][if j < c {
                        j
                    } else {
                        j + 1
                    }],
            ),
    )
}

/// Element-wise sum.
pub open spec fn add_of<T: ToMatrix>(m: Seq<Seq<T>>, n: Seq<Seq<T>>) -> Seq<Seq<T>> {
    Seq::new(m.len(), |i: int| Seq::new(m[0].len(), |j: int| m[i][j].add_val(n[i][j])))
}

/// Element-wise additive inverse.
pub open spec fn neg_of<T: ToMatrix>(m: Seq<Seq<T>>) -> Seq<Seq<T>> {
    Seq::new(m.len(), |i: int| Seq::new(m[0].len(), |j: int| m[i][j].neg_val()))
}

/// The sum of the other grid's element-wise inverse.
pub open spec fn sub_of<T: ToMatrix>(m: Seq<Seq<T>>, n: Seq<Seq<T>>) -> Seq<Seq<T>> {
    add_of(m, neg_of(n))
}

/// Every entry multiplied by `s` on the right.
pub open spec fn scale_of<T: ToMatrix>(m: Seq<Seq<T>>, s: T) -> Seq<Seq<T>> {
    Seq::new(m.len(), |i: int| Seq::new(m[0].len(), |j: int| m[i][j].mul_val(s)))
}

/// Column `j` of the grid.
pub open spec fn col_of<T: ToMatrix>(m: Seq<Seq<T>>, j: int) -> Seq<T> {
    Seq::new(m.len(), |i: int| m[i][j])
}

/// The sum of the products `r[t] * c[t]` for `t` up to and including
/// `k`, accumulated from the first product, as the matrix product forms
/// its entries.
pub open spec fn dot_prefix<T: ToMatrix>(r: Seq<T>, c: Seq<T>, k: int) -> T
    decreases k,
{
    if k <= 0 {
        r[0].mul_val(c[0])
    } else {
        dot_prefix(r, c, k - 1).add_val(r[k].mul_val(c[k]))
    }
}

/// The inner product of a row and a column of equal length.
pub open spec fn dot_of<T: ToMatrix>(r: Seq<T>, c: Seq<T>) -> T {
    dot_prefix(r, c, r.len() - 1)
}

/// The matrix product: entry `(i, j)` is the inner product of row `i` of
/// `m` and column `j` of `n`.
pub open spec fn mul_of<T: ToMatrix>(m: Seq<Seq<T>>, n: Seq<Seq<T>>) -> Seq<Seq<T>> {
    Seq::new(m.len(), |i: int| Seq::new(n[0].len(), |j: int| dot_of(m[i], col_of(n, j))))
}

/// The all-zero grid of the given dimensions.
pub open spec fn zero_of<T: ToMatrix>(h: nat, w: nat) -> Seq<Seq<T>> {
    Seq::new(h, |i: int| Seq::new(w, |j: int| T::zero_val()))
}

/// The square grid with ones on the diagonal and zeros elsewhere.
pub open spec fn identity_of<T: ToMatrix>(n: nat) -> Seq<Seq<T>> {
    Seq::new(
        n,
        |i: int|
            Seq::new(
                n,
                |j: int|
                    if i == j {
                        T::one_val()
                    } else {
                        T::zero_val()
                    },
            ),
    )
}

/// The square grid with the given diagonal and zeros elsewhere.
pub open spec fn diagonal_of<T: ToMatrix>(d: Seq<T>) -> Seq<Seq<T>> {
    Seq::new(
        d.len(),
        |i: int|
            Seq::new(
                d.len(),
                |j: int|
                    if i == j {
                        d[i]
                    } else {
                        T::zero_val()
                    },
            ),
    )
}

/// The sum of the first `k + 1` diagonal entries, accumulated from the
/// first.
pub open spec fn trace_prefix<T: ToMatrix>(m: Seq<Seq<T>>, k: int) -> T
    decreases k,
{
    if k <= 0 {
        m[0][0]
    } else {
        trace_prefix(m, k - 1).add_val(m[k][k])
    }
}

/// The sum of the diagonal entries.
pub open spec fn trace_of<T: ToMatrix>(m: Seq<Seq<T>>) -> T {
    trace_prefix(m, m.len() - 1)
}

/// The cofactor expansion of the determinant along the first row,
/// truncated to the first `k` columns: the alternating sum of
/// `m[0][i] * det(minor i)`, accumulated from the additive identity.
pub open spec fn det_prefix<T: ToMatrix>(m: Seq<Seq<T>>, k: int) -> T
    decreases m.len(), k,
{
    if k <= 0 || m.len() == 0 {
        T::zero_val()
    } else {
        let prev = det_prefix(m, k - 1);
        let term = m[0][k - 1].mul_val(det_of(submatrix_of(m, 0, k - 1)));
        if (k - 1) % 2 == 0 {
            prev.add_val(term)
        } else {
            prev.sub_val(term)
        }
    }
}

/// The determinant of a square grid, by cofactor expansion along the
/// first row; a single entry is its own determinant.
pub open spec fn det_of<T: ToMatrix>(m: Seq<Seq<T>>) -> T
    decreases m.len(), m.len() + 1int,
{
    if m.len() == 1 {
        m[0][0]
    } else {
        det_prefix(m, m.len() as int)
    }
}

impl<T: ToMatrix> View for Matrix<T> {
    type V = Seq<Seq<T>>;

    closed spec fn view(&self) -> Seq<Seq<T>> {
        vecs_view(self.entries@)
    }
}

impl<T: ToMatrix> Matrix<T> {
    /// The representation invariant: the grid is rectangular, non-empty,
    /// and holds well-formed elements.
    pub open spec fn wf(self) -> bool {
        mat_wf(self@)
    }

    /// Creates a matrix from the given rows. Fails with `UnequalRows`
    /// if, and only if, the rows do not all share one length.
    pub fn from(entries: Vec<Vec<T>>) -> (r: Result<Matrix<T>, MatrixError>)
        requires
            entries@.len() >= 1,
            entries@[0]@.len() >= 1,
            forall|i: int, j: int|
                0 <= i < entries@.len() && 0 <= j < entries@[i]@.len() ==> (#[trigger] entries@[i]@[j]).wf(),
        ensures
            rows_equal(vecs_view(entries@)) ==> (r matches Ok(m) && m@ == vecs_view(entries@)
                && m.wf()),
            !rows_equal(vecs_view(entries@)) ==> r == Err::<Matrix<T>, MatrixError>(
                MatrixError::UnequalRows,
            ),
    {
        let row_len = entries[0].len();
        let mut equal_rows = true;
        let mut i: usize = 1;
        while i < entries.len()
            invariant
                entries@.len() >= 1,
                1 <= i <= entries@.len(),
                row_len == entries@[0]@.len(),
                equal_rows <==> forall|k: int|
                    0 <= k < i ==> (#[trigger] entries@[k]@).len() == entries@[0]@.len(),
            decreases entries@.len() - i,
        {
            if entries[i].len() != row_len {
                equal_rows = false;
            }
            i = i + 1;
        }
        proof {
            let vv = vecs_view(entries@);
            assert forall|k: int| 0 <= k < entries@.len() implies (#[trigger] vv[k]).len()
                == entries@[k]@.len() by {
                assert(vv[k] == entries@[k]@);
            }
            if equal_rows {
                assert forall|k: int| 0 <= k < vv.len() implies (#[trigger] vv[k]).len()
                    == vv[0].len() by {
                    assert(entries@[k]@.len() == entries@[0]@.len());
                }
                assert(rows_equal(vv));
            } else {
                assert(exists|k: int|
                    0 <= k < entries@.len() && (#[trigger] entries@[k]@).len()
                        != entries@[0]@.len());
                let k0 = choose|k: int|
                    0 <= k < entries@.len() && (#[trigger] entries@[k]@).len()
                        != entries@[0]@.len();
                assert(vv[k0].len() != vv[0].len());
                assert(!rows_equal(vv));
            }
        }
        if equal_rows {
            let m = Matrix { entries };
            proof {
                assert(m@ =~= vecs_view(entries@));
                assert forall|i: int, j: int|
                    0 <= i < m@.len() && 0 <= j < m@[i].len() implies (#[trigger] m@[i][j]).wf() by {
                    assert(m@[i] == entries@[i]@);
                    assert(entries@[i]@[j].wf());
                }
            }
            Ok(m)
        } else {
            Err(MatrixError::UnequalRows)
        }
    }

    /// Wraps an already rectangular grid of rows.
    pub(crate) fn from_grid(entries: Vec<Vec<T>>) -> (r: Self)
        ensures
            r@ == vecs_view(entries@),
    {
        Matrix { entries }
    }

    /// The number of rows.
    pub fn height(&self) -> (r: usize)
        requires
            self.wf(),
        ensures
            r == self@.len(),
    {
        self.entries.len()
    }

    /// The number of columns.
    pub fn width(&self) -> (r: usize)
        requires
            self.wf(),
        ensures
            r == self@[0].len(),
    {
        self.entries[0].len()
    }

    /// A reference to the rows of the matrix.
    pub fn rows(&self) -> (r: &Vec<Vec<T>>)
        requires
            self.wf(),
        ensures
            vecs_view(r@) == self@,
    {
        &self.entries
    }

    /// Whether the matrix has as many rows as columns.
    pub fn is_square(&self) -> (r: bool)
        requires
            self.wf(),
        ensures
            r == mat_square(self@),
    {
        self.height() == self.width()
    }

    /// A new matrix with entry `(i, j)` equal to this matrix's entry
    /// `(j, i)`.
    pub fn transpose(&self) -> (r: Self)
        requires
            self.wf(),
        ensures
            r@ == transpose_of(self@),
            r.wf(),
    {
        let h = self.entries.len();
        let w = self.entries[0].len();
        let mut out: Vec<Vec<T>> = Vec::new();
        let mut j: usize = 0;
        while j < w
            invariant
                self.wf(),
                h == self@.len(),
                w == self@[0].len(),
                j <= w,
                out@.len() == j,
                forall|a: int| 0 <= a < j ==> (#[trigger] out@[a])@ == transpose_of(self@)[a],
            decreases w - j,
        {
            let mut column: Vec<T> = Vec::new();
            let mut i: usize = 0;
            while i < h
                invariant
                    self.wf(),
                    h == self@.len(),
                    w == self@[0].len(),
                    j < w,
                    i <= h,
                    column@.len() == i,
                    forall|b: int| 0 <= b < i ==> column@[b] == self@[b][j as int],
                decreases h - i,
            {
                proof {
                    assert(self@[i as int] == self.entries@[i as int]@);
                    assert(self@[i as int].len() == w);
                }
                column.push(self.entries[i][j]);
                i = i + 1;
            }
            proof {
                assert(column@ =~= transpose_of(self@)[j as int]);
            }
            out.push(column);
            j = j + 1;
        }
        let m = Matrix { entries: out };
        proof {
            assert(m@ =~= transpose_of(self@));
            assert forall|a: int, b: int|
                0 <= a < m@.len() && 0 <= b < m@[a].len() implies (#[trigger] m@[a][b]).wf() by {
                assert(m@[a][b] == self@[b][a]);
            }
        }
        m
    }

    /// The columns of the matrix, materialized by transposition.
    pub fn columns(&self) -> (r: Vec<Vec<T>>)
        requires
            self.wf(),
        ensures
            vecs_view(r@) == transpose_of(self@),
    {
        let t = self.transpose();
        t.entries
    }

    /// A new matrix with the given zero-based row and column removed.
    pub fn submatrix(&self, row: usize, col: usize) -> (r: Self)
        requires
            self.wf(),
            self@.len() >= 2,
            self@[0].len() >= 2,
            row < self@.len(),
            col < self@[0].len(),
        ensures
            r@ == submatrix_of(self@, row as int, col as int),
            r.wf(),
    {
        let h = self.entries.len();
        let w = self.entries[0].len();
        let ghost target = submatrix_of(self@, row as int, col as int);
        let mut out: Vec<Vec<T>> = Vec::new();
        let mut m: usize = 0;
        while m < h
            invariant
                self.wf(),
                h == self@.len(),
                w == self@[0].len(),
                row < h,
                col < w,
                m <= h,
                target == submatrix_of(self@, row as int, col as int),
                out@.len() == (if m <= row {
                    m as int
                } else {
                    m - 1
                }),
                forall|a: int| 0 <= a < out@.len() ==> (#[trigger] out@[a])@ == target[a],
            decreases h - m,
        {
            if m != row {
                let mut new_row: Vec<T> = Vec::new();
                let mut n: usize = 0;
                while n < w
                    invariant
                        self.wf(),
                        h == self@.len(),
                        w == self@[0].len(),
                        m < h,
                        col < w,
                        n <= w,
                        new_row@.len() == (if n <= col {
                            n as int
                        } else {
                            n - 1
                        }),
                        forall|b: int|
                            0 <= b < new_row@.len() ==> #[trigger] new_row@[b] == self@[m as int][if b
                                < col {
                                b
                            } else {
                                b + 1
                            }],
                    decreases w - n,
                {
                    if n != col {
                        proof {
                            assert(self@[m as int] == self.entries@[m as int]@);
                            assert(self@[m as int].len() == w);
                        }
                        new_row.push(self.entries[m][n]);
                    }
                    n = n + 1;
                }
                proof {
                    let a = out@.len() as int;
                    let src = if a < row {
                        a
                    } else {
                        a + 1
                    };
                    assert(src == m as int);
                    assert(new_row@ =~= target[a]);
                }
                out.push(new_row);
            }
            m = m + 1;
        }
        let res = Matrix { entries: out };
        proof {
            assert(res@ =~= target);
            assert forall|a: int, b: int|
                0 <= a < res@.len() && 0 <= b < res@[a].len() implies (#[trigger] res@[a][b]).wf() by {
                let si = if a < row {
                    a
                } else {
                    a + 1
                };
                let sj = if b < col {
                    b
                } else {
                    b + 1
                };
                assert(res@[a][b] == self@[si][sj]);
            }
        }
        res
    }

    /// The element-wise sum of two matrices of equal dimensions.
    pub fn add(self, other: Self) -> (r: Self)
        requires
            self.wf(),
            other.wf(),
            self@.len() == other@.len(),
            self@[0].len() == other@[0].len(),
        ensures
            r@ == add_of(self@, other@),
            r.wf(),
    {
        let h = self.entries.len();
        let w = self.entries[0].len();
        let mut out: Vec<Vec<T>> = Vec::new();
        let mut i: usize = 0;
        while i < h
            invariant
                self.wf(),
                other.wf(),
                h == self@.len(),
                w == self@[0].len(),
                self@.len() == other@.len(),
                self@[0].len() == other@[0].len(),
                i <= h,
                out@.len() == i,
                forall|a: int| 0 <= a < i ==> (#[trigger] out@[a])@ == add_of(self@, other@)[a],
            decreases h - i,
        {
            let mut new_row: Vec<T> = Vec::new();
            let mut j: usize = 0;
            while j < w
                invariant
                    self.wf(),
                    other.wf(),
                    h == self@.len(),
                    w == self@[0].len(),
                    self@.len() == other@.len(),
                    self@[0].len() == other@[0].len(),
                    i < h,
                    j <= w,
                    new_row@.len() == j,
                    forall|b: int|
                        0 <= b < j ==> #[trigger] new_row@[b] == self@[i as int][b].add_val(
                            other@[i as int][b],
                        ),
                decreases w - j,
            {
                proof {
                    assert(self@[i as int] == self.entries@[i as int]@);
                    assert(other@[i as int] == other.entries@[i as int]@);
                    assert(self@[i as int].len() == w);
                    assert(other@[i as int].len() == w);
                }
                let x = self.entries[i][j].add_elem(other.entries[i][j]);
                new_row.push(x);
                j = j + 1;
            }
            proof {
                assert(new_row@ =~= add_of(self@, other@)[i as int]);
            }
            out.push(new_row);
            i = i + 1;
        }
        let m = Matrix { entries: out };
        proof {
            assert(m@ =~= add_of(self@, other@));
            assert forall|a: int, b: int|
                0 <= a < m@.len() && 0 <= b < m@[a].len() implies (#[trigger] m@[a][b]).wf() by {
                assert(m@[a][b] == self@[a][b].add_val(other@[a][b]));
                T::lemma_ops_wf(self@[a][b], other@[a][b]);
            }
        }
        m
    }

    /// The element-wise additive inverse.
    pub fn neg(self) -> (r: Self)
        requires
            self.wf(),
        ensures
            r@ == neg_of(self@),
            r.wf(),
    {
        let h = self.entries.len();
        let w = self.entries[0].len();
        let mut out: Vec<Vec<T>> = Vec::new();
        let mut i: usize = 0;
        while i < h
            invariant
                self.wf(),
                h == self@.len(),
                w == self@[0].len(),
                i <= h,
                out@.len() == i,
                forall|a: int| 0 <= a < i ==> (#[trigger] out@[a])@ == neg_of(self@)[a],
            decreases h - i,
        {
            let mut new_row: Vec<T> = Vec::new();
            let mut j: usize = 0;
            while j < w
                invariant
                    self.wf(),
                    h == self@.len(),
                    w == self@[0].len(),
                    i < h,
                    j <= w,
                    new_row@.len() == j,
                    forall|b: int|
                        0 <= b < j ==> #[trigger] new_row@[b] == self@[i as int][b].neg_val(),
                decreases w - j,
            {
                proof {
                    assert(self@[i as int] == self.entries@[i as int]@);
                    assert(self@[i as int].len() == w);
                }
                let x = self.entries[i][j].neg_elem();
                new_row.push(x);
                j = j + 1;
            }
            proof {
                assert(new_row@ =~= neg_of(self@)[i as int]);
            }
            out.push(new_row);
            i = i + 1;
        }
        let m = Matrix { entries: out };
        proof {
            assert(m@ =~= neg_of(self@));
            assert forall|a: int, b: int|
                0 <= a < m@.len() && 0 <= b < m@[a].len() implies (#[trigger] m@[a][b]).wf() by {
                assert(m@[a][b] == self@[a][b].neg_val());
                T::lemma_ops_wf(self@[a][b], self@[a][b]);
            }
        }
        m
    }

    /// The element-wise difference: the sum of `self` and the inverse of
    /// `other`.
    pub fn sub(self, other: Self) -> (r: Self)
        requires
            self.wf(),
            other.wf(),
            self@.len() == other@.len(),
            self@[0].len() == other@[0].len(),
        ensures
            r@ == sub_of(self@, other@),
            r.wf(),
    {
        let ghost o = other@;
        let n = other.neg();
        proof {
            assert(n@[0].len() == o[0].len());
        }
        self.add(n)
    }

    /// Multiplies every entry by `scalar`, in place.
    pub fn mul_scalar(&mut self, scalar: T)
        requires
            old(self).wf(),
            scalar.wf(),
        ensures
            final(self)@ == scale_of(old(self)@, scalar),
            final(self).wf(),
    {
        let h = self.entries.len();
        let w = self.entries[0].len();
        let mut out: Vec<Vec<T>> = Vec::new();
        let mut i: usize = 0;
        while i < h
            invariant
                self.wf(),
                self@ == old(self)@,
                scalar.wf(),
                h == self@.len(),
                w == self@[0].len(),
                i <= h,
                out@.len() == i,
                forall|a: int| 0 <= a < i ==> (#[trigger] out@[a])@ == scale_of(self@, scalar)[a],
                forall|a: int, b: int|
                    0 <= a < i && 0 <= b < w ==> (#[trigger] out@[a]@[b]).wf(),
            decreases h - i,
        {
            let mut new_row: Vec<T> = Vec::new();
            let mut j: usize = 0;
            while j < w
                invariant
                    self.wf(),
                    scalar.wf(),
                    h == self@.len(),
                    w == self@[0].len(),
                    i < h,
                    j <= w,
                    new_row@.len() == j,
                    forall|b: int|
                        0 <= b < j ==> #[trigger] new_row@[b] == self@[i as int][b].mul_val(scalar),
                    forall|b: int| 0 <= b < j ==> (#[trigger] new_row@[b]).wf(),
                decreases w - j,
            {
                proof {
                    assert(self@[i as int] == self.entries@[i as int]@);
                    assert(self@[i as int].len() == w);
                }
                let x = self.entries[i][j].mul_elem(scalar);
                new_row.push(x);
                j = j + 1;
            }
            proof {
                assert(new_row@ =~= scale_of(self@, scalar)[i as int]);
            }
            out.push(new_row);
            i = i + 1;
        }
        proof {
            assert(vecs_view(out@) =~= scale_of(self@, scalar));
        }
        self.entries = out;
    }

    /// The all-zero matrix of the given dimensions.
    pub fn zero(height: usize, width: usize) -> (r: Self)
        requires
            height >= 1,
            width >= 1,
        ensures
            r@ == zero_of::<T>(height as nat, width as nat),
            r.wf(),
    {
        let mut out: Vec<Vec<T>> = Vec::new();
        let mut i: usize = 0;
        while i < height
            invariant
                i <= height,
                out@.len() == i,
                forall|a: int|
                    0 <= a < i ==> (#[trigger] out@[a])@ == zero_of::<T>(
                        height as nat,
                        width as nat,
                    )[a],
            decreases height - i,
        {
            let mut new_row: Vec<T> = Vec::new();
            let mut j: usize = 0;
            while j < width
                invariant
                    j <= width,
                    new_row@.len() == j,
                    forall|b: int| 0 <= b < j ==> #[trigger] new_row@[b] == T::zero_val(),
                decreases width - j,
            {
                new_row.push(T::zero_elem());
                j = j + 1;
            }
            proof {
                assert(new_row@ =~= zero_of::<T>(height as nat, width as nat)[i as int]);
            }
            out.push(new_row);
            i = i + 1;
        }
        let m = Matrix { entries: out };
        proof {
            assert(m@ =~= zero_of::<T>(height as nat, width as nat));
            assert forall|a: int, b: int|
                0 <= a < m@.len() && 0 <= b < m@[a].len() implies (#[trigger] m@[a][b]).wf() by {
                assert(m@[a][b] == T::zero_val());
                T::lemma_identities_wf();
            }
        }
        m
    }

    /// The square matrix with the multiplicative identity on the diagonal
    /// and the additive identity elsewhere.
    pub fn identity(size: usize) -> (r: Self)
        requires
            size >= 1,
        ensures
            r@ == identity_of::<T>(size as nat),
            r.wf(),
    {
        let mut out: Vec<Vec<T>> = Vec::new();
        let mut i: usize = 0;
        while i < size
            invariant
                i <= size,
                out@.len() == i,
                forall|a: int|
                    0 <= a < i ==> (#[trigger] out@[a])@ == identity_of::<T>(size as nat)[a],
            decreases size - i,
        {
            let mut new_row: Vec<T> = Vec::new();
            let mut j: usize = 0;
            while j < size
                invariant
                    i < size,
                    j <= size,
                    new_row@.len() == j,
                    forall|b: int|
                        0 <= b < j ==> #[trigger] new_row@[b] == (if b == i {
                            T::one_val()
                        } else {
                            T::zero_val()
                        }),
                decreases size - j,
            {
                if j == i {
                    new_row.push(T::one_elem());
                } else {
                    new_row.push(T::zero_elem());
                }
                j = j + 1;
            }
            proof {
                assert(new_row@ =~= identity_of::<T>(size as nat)[i as int]);
            }
            out.push(new_row);
            i = i + 1;
        }
        let m = Matrix { entries: out };
        proof {
            assert(m@ =~= identity_of::<T>(size as nat));
            assert forall|a: int, b: int|
                0 <= a < m@.len() && 0 <= b < m@[a].len() implies (#[trigger] m@[a][b]).wf() by {
                T::lemma_identities_wf();
            }
        }
        m
    }

    /// The square matrix with the given diagonal and the additive identity
    /// elsewhere.
    pub fn diagonal_matrix(diag: Vec<T>) -> (r: Self)
        requires
            diag@.len() >= 1,
            forall|k: int| 0 <= k < diag@.len() ==> (#[trigger] diag@[k]).wf(),
        ensures
            r@ == diagonal_of(diag@),
            r.wf(),
    {
        let size = diag.len();
        let mut out: Vec<Vec<T>> = Vec::new();
        let mut i: usize = 0;
        while i < size
            invariant
                size == diag@.len(),
                forall|k: int| 0 <= k < diag@.len() ==> (#[trigger] diag@[k]).wf(),
                i <= size,
                out@.len() == i,
                forall|a: int| 0 <= a < i ==> (#[trigger] out@[a])@ == diagonal_of(diag@)[a],
            decreases size - i,
        {
            let mut new_row: Vec<T> = Vec::new();
            let mut j: usize = 0;
            while j < size
                invariant
                    size == diag@.len(),
                    i < size,
                    j <= size,
                    new_row@.len() == j,
                    forall|b: int|
                        0 <= b < j ==> #[trigger] new_row@[b] == (if b == i {
                            diag@[i as int]
                        } else {
                            T::zero_val()
                        }),
                decreases size - j,
            {
                if j == i {
                    new_row.push(diag[i]);
                } else {
                    new_row.push(T::zero_elem());
                }
                j = j + 1;
            }
            proof {
                assert(new_row@ =~= diagonal_of(diag@)[i as int]);
            }
            out.push(new_row);
            i = i + 1;
        }
        let m = Matrix { entries: out };
        proof {
            assert(m@ =~= diagonal_of(diag@));
            assert forall|a: int, b: int|
                0 <= a < m@.len() && 0 <= b < m@[a].len() implies (#[trigger] m@[a][b]).wf() by {
                T::lemma_identities_wf();
            }
        }
        m
    }

    /// The sum of the diagonal entries of a square matrix; `NotSquare`
    /// if, and only if, the matrix is not square.
    pub fn trace(self) -> (r: Result<T, MatrixError>)
        requires
            self.wf(),
        ensures
            mat_square(self@) ==> r == Ok::<T, MatrixError>(trace_of(self@)),
            !mat_square(self@) ==> r == Err::<T, MatrixError>(MatrixError::NotSquare),
            r matches Ok(v) ==> v.wf(),
    {
        if !self.is_square() {
            return Err(MatrixError::NotSquare);
        }
        let h = self.entries.len();
        proof {
            assert(self@[0] == self.entries@[0]@);
        }
        let mut out = self.entries[0][0];
        let mut i: usize = 1;
        while i < h
            invariant
                self.wf(),
                mat_square(self@),
                h == self@.len(),
                1 <= i <= h,
                out == trace_prefix(self@, i - 1),
                out.wf(),
            decreases h - i,
        {
            proof {
                assert(self@[i as int] == self.entries@[i as int]@);
                assert(self@[i as int].len() == self@[0].len());
            }
            out = out.add_elem(self.entries[i][i]);
            i = i + 1;
        }
        Ok(out)
    }

    /// The matrix product. The width of `self` must equal the height of
    /// `other`; entry `(i, j)` is the inner product of row `i` of `self`
    /// and column `j` of `other`.
    pub fn mul(self, other: Self) -> (r: Self)
        requires
            self.wf(),
            other.wf(),
            self@[0].len() == other@.len(),
        ensures
            r@ == mul_of(self@, other@),
            r.wf(),
    {
        let h = self.entries.len();
        let w = self.entries[0].len();
        let cols = other.columns();
        let cw = cols.len();
        proof {
            assert(vecs_view(cols@).len() == cols@.len());
            assert(transpose_of(other@).len() == other@[0].len());
            assert(cw == other@[0].len());
        }
        let mut out: Vec<Vec<T>> = Vec::new();
        let mut i: usize = 0;
        while i < h
            invariant
                self.wf(),
                other.wf(),
                h == self@.len(),
                w == self@[0].len(),
                w == other@.len(),
                cw == other@[0].len(),
                vecs_view(cols@) == transpose_of(other@),
                cols@.len() == cw,
                i <= h,
                out@.len() == i,
                forall|a: int| 0 <= a < i ==> (#[trigger] out@[a])@ == mul_of(self@, other@)[a],
                forall|a: int, b: int|
                    0 <= a < i && 0 <= b < cw ==> (#[trigger] out@[a]@[b]).wf(),
            decreases h - i,
        {
            let mut new_row: Vec<T> = Vec::new();
            let mut j: usize = 0;
            while j < cw
                invariant
                    self.wf(),
                    other.wf(),
                    h == self@.len(),
                    w == self@[0].len(),
                    w == other@.len(),
                    cw == other@[0].len(),
                    vecs_view(cols@) == transpose_of(other@),
                    cols@.len() == cw,
                    i < h,
                    j <= cw,
                    new_row@.len() == j,
                    forall|b: int|
                        0 <= b < j ==> #[trigger] new_row@[b] == dot_of(
                            self@[i as int],
                            col_of(other@, b),
                        ),
                    forall|b: int| 0 <= b < j ==> (#[trigger] new_row@[b]).wf(),
                decreases cw - j,
            {
                proof {
                    assert(self@[i as int] == self.entries@[i as int]@);
                    assert(self@[i as int].len() == w);
                    assert(cols@[j as int]@ == vecs_view(cols@)[j as int]);
                    assert(cols@[j as int]@ =~= col_of(other@, j as int));
                    assert(other@[0][j as int].wf());
                }
                let mut prod = self.entries[i][0].mul_elem(cols[j][0]);
                let mut k: usize = 1;
                while k < w
                    invariant
                        self.wf(),
                        other.wf(),
                        h == self@.len(),
                        w == self@[0].len(),
                        w == other@.len(),
                        cw == other@[0].len(),
                        i < h,
                        j < cw,
                        1 <= k <= w,
                        cols@.len() == cw,
                        cols@[j as int]@ == col_of(other@, j as int),
                        prod == dot_prefix(self@[i as int], col_of(other@, j as int), k - 1),
                        prod.wf(),
                    decreases w - k,
                {
                    proof {
                        assert(self@[i as int] == self.entries@[i as int]@);
                        assert(self@[i as int].len() == w);
                        assert(self@[i as int][k as int].wf());
                        assert(other@[k as int][j as int].wf());
                        assert(col_of(other@, j as int)[k as int] == other@[k as int][j as int]);
                    }
                    let term = self.entries[i][k].mul_elem(cols[j][k]);
                    prod = prod.add_elem(term);
                    k = k + 1;
                }
                proof {
                    assert(prod == dot_of(self@[i as int], col_of(other@, j as int)));
                }
                new_row.push(prod);
                j = j + 1;
            }
            proof {
                assert(new_row@ =~= mul_of(self@, other@)[i as int]);
            }
            out.push(new_row);
            i = i + 1;
        }
        let m = Matrix { entries: out };
        proof {
            assert(m@ =~= mul_of(self@, other@));
            assert forall|a: int, b: int|
                0 <= a < m@.len() && 0 <= b < m@[a].len() implies (#[trigger] m@[a][b]).wf() by {
                assert(m@[a] == out@[a]@);
                assert(out@[a]@[b].wf());
            }
        }
        m
    }

    /// The determinant of a square matrix, by recursive cofactor
    /// expansion along the first row; `NotSquare` if, and only if, the
    /// matrix is not square.
    pub fn det(&self) -> (r: Result<T, MatrixError>)
        requires
            self.wf(),
        ensures
            mat_square(self@) ==> r == Ok::<T, MatrixError>(det_of(self@)),
            !mat_square(self@) ==> r == Err::<T, MatrixError>(MatrixError::NotSquare),
            r matches Ok(v) ==> v.wf(),
        decreases self@.len(),
    {
        if !self.is_square() {
            return Err(MatrixError::NotSquare);
        }
        let w = self.entries[0].len();
        if w == 1 {
            proof {
                assert(self@[0] == self.entries@[0]@);
            }
            let v = self.entries[0][0];
            return Ok(v);
        }
        let mut out = T::zero_elem();
        proof {
            T::lemma_identities_wf();
        }
        let mut i: usize = 0;
        while i < w
            invariant
                self.wf(),
                mat_square(self@),
                w == self@[0].len(),
                w >= 2,
                i <= w,
                out == det_prefix(self@, i as int),
                out.wf(),
            decreases w - i,
        {
            let minor = self.submatrix(0, i);
            proof {
                assert(mat_square(minor@));
            }
            let d = minor.det().unwrap();
            proof {
                assert(self@[0] == self.entries@[0]@);
                assert(self@[0][i as int].wf());
            }
            let term = self.entries[0][i].mul_elem(d);
            if i % 2 == 0 {
                out = out.add_elem(term);
            } else {
                out = out.sub_elem(term);
            }
            i = i + 1;
        }
        Ok(out)
    }
}

/// The grid with every entry converted element-wise.
pub open spec fn convert_of<T: ToMatrix, S: FromElem<T>>(m: Seq<Seq<T>>) -> Seq<Seq<S>> {
    Seq::new(m.len(), |i: int| Seq::new(m[0].len(), |j: int| S::from_val(m[i][j])))
}

/// Conversion into a matrix over another element type, dimension for
/// dimension and entry for entry.
pub trait MatrixFrom<T: ToMatrix>: Sized {
    /// What the conversion guarantees of its result.
    spec fn matrix_from_post(input: Matrix<T>, r: Self) -> bool;

    /// Builds a value of `Self` from the given matrix.
    fn matrix_from(input: Matrix<T>) -> (r: Self)
        requires
            input.wf(),
        ensures
            Self::matrix_from_post(input, r),
    ;
}

/// The companion of [`MatrixFrom`], with the receiver and the target
/// exchanged.
pub trait MatrixInto<U>: Sized {
    /// When the conversion may be asked for.
    spec fn matrix_into_req(self) -> bool;

    /// What the conversion guarantees of its result.
    spec fn matrix_into_post(self, r: U) -> bool;

    /// Converts `self` into a value of `U`.
    fn matrix_into(self) -> (r: U)
        requires
            self.matrix_into_req(),
        ensures
            self.matrix_into_post(r),
    ;
}

impl<T: ToMatrix, S: FromElem<T>> MatrixFrom<T> for Matrix<S> {
    open spec fn matrix_from_post(input: Matrix<T>, r: Matrix<S>) -> bool {
        r@ == convert_of::<T, S>(input@) && r.wf()
    }

    fn matrix_from(input: Matrix<T>) -> (r: Matrix<S>) {
        let h = input.entries.len();
        let w = input.entries[0].len();
        let mut out: Vec<Vec<S>> = Vec::new();
        let mut i: usize = 0;
        while i < h
            invariant
                input.wf(),
                h == input@.len(),
                w == input@[0].len(),
                i <= h,
                out@.len() == i,
                forall|a: int|
                    0 <= a < i ==> (#[trigger] out@[a])@ == convert_of::<T, S>(input@)[a],
                forall|a: int, b: int|
                    0 <= a < i && 0 <= b < w ==> (#[trigger] out@[a]@[b]).wf(),
            decreases h - i,
        {
            let mut new_row: Vec<S> = Vec::new();
            let mut j: usize = 0;
            while j < w
                invariant
                    input.wf(),
                    h == input@.len(),
                    w == input@[0].len(),
                    i < h,
                    j <= w,
                    new_row@.len() == j,
                    forall|b: int|
                        0 <= b < j ==> #[trigger] new_row@[b] == S::from_val(input@[i as int][b]),
                    forall|b: int| 0 <= b < j ==> (#[trigger] new_row@[b]).wf(),
                decreases w - j,
            {
                proof {
                    assert(input@[i as int] == input.entries@[i as int]@);
                    assert(input@[i as int].len() == w);
                    assert(input@[i as int][j as int].wf());
                }
                let x = S::from_elem(input.entries[i][j]);
                new_row.push(x);
                j = j + 1;
            }
            proof {
                assert(new_row@ =~= convert_of::<T, S>(input@)[i as int]);
            }
            out.push(new_row);
            i = i + 1;
        }
        let m = Matrix { entries: out };
        proof {
            assert(m@ =~= convert_of::<T, S>(input@));
            assert forall|a: int, b: int|
                0 <= a < m@.len() && 0 <= b < m@[a].len() implies (#[trigger] m@[a][b]).wf() by {
                assert(m@[a] == out@[a]@);
                assert(out@[a]@[b].wf());
            }
        }
        m
    }
}

impl<U: MatrixFrom<S>, S: ToMatrix> MatrixInto<U> for Matrix<S> {
    open spec fn matrix_into_req(self) -> bool {
        self.wf()
    }

    open spec fn matrix_into_post(self, r: U) -> bool {
        U::matrix_from_post(self, r)
    }

    fn matrix_into(self) -> (r: U) {
        U::matrix_from(self)
    }
}

} // verus!
