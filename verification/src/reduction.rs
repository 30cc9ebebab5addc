//! The row-reduction algorithms: determinant by forward elimination, the
//! echelon forms, and Gauss-Jordan inversion. They require a
//! [`FieldToMatrix`] element type, since they divide by pivots.
//!
//! Each elimination step builds a fresh grid of rows from the old one;
//! the working grids stay rectangular and hold well-formed elements
//! throughout.

use vstd::prelude::*;

use crate::elem::{FieldToMatrix, ToMatrix};
use crate::errors::MatrixError;
use crate::matrix::{identity_of, mat_square, mat_wf, transpose_of, vecs_view, Matrix};

verus! {

/// A rectangular grid of `h` rows of width `w`, all entries well formed.
spec fn vg_ok<T: ToMatrix>(g: Seq<Vec<T>>, h: int, w: int) -> bool {
    &&& g.len() == h
    &&& forall|a: int| 0 <= a < h ==> (#[trigger] g[a])@.len() == w
    &&& forall|a: int, k: int| 0 <= a < h && 0 <= k < w ==> (#[trigger] g[a]@[k]).wf()
}

/// A well-formed matrix view, seen as a grid of row vectors.
proof fn grid_from_mat<T: ToMatrix>(g: Seq<Vec<T>>, m: Seq<Seq<T>>)
    requires
        vecs_view(g) == m,
        mat_wf(m),
    ensures
        g.len() == m.len(),
        vg_ok(g, m.len() as int, m[0].len() as int),
{
    assert(vecs_view(g).len() == g.len());
    assert forall|a: int| 0 <= a < g.len() implies (#[trigger] g[a])@.len() == m[0].len() by {
        assert(vecs_view(g)[a] == g[a]@);
        assert(m[a].len() == m[0].len());
    }
    assert forall|a: int, k: int|
        0 <= a < g.len() && 0 <= k < m[0].len() implies (#[trigger] g[a]@[k]).wf() by {
        assert(vecs_view(g)[a] == g[a]@);
        assert(m[a][k].wf());
    }
}

/// A rectangular grid of well-formed rows is a well-formed matrix view.
proof fn mat_from_grid<T: ToMatrix>(g: Seq<Vec<T>>, h: int, w: int)
    requires
        vg_ok(g, h, w),
        h >= 1,
        w >= 1,
    ensures
        mat_wf(vecs_view(g)),
        vecs_view(g).len() == h,
        vecs_view(g)[0].len() == w,
{
    assert(vecs_view(g).len() == g.len());
    assert forall|a: int| 0 <= a < h implies (#[trigger] vecs_view(g)[a]).len() == w by {
        assert(vecs_view(g)[a] == g[a]@);
    }
    assert forall|a: int, k: int|
        0 <= a < h && 0 <= k < vecs_view(g)[a].len() implies (#[trigger] vecs_view(
        g,
    )[a][k]).wf() by {
        assert(vecs_view(g)[a] == g[a]@);
    }
}

/// An element-for-element copy of one row.
fn copy_row<T: ToMatrix>(src: &Vec<T>) -> (r: Vec<T>)
    ensures
        r@ == src@,
{
    let mut out: Vec<T> = Vec::new();
    let mut k: usize = 0;
    while k < src.len()
        invariant
            k <= src@.len(),
            out@.len() == k,
            forall|b: int| 0 <= b < k ==> #[trigger] out@[b] == src@[b],
        decreases src@.len() - k,
    {
        out.push(src[k]);
        k = k + 1;
    }
    proof {
        assert(out@ =~= src@);
    }
    out
}

/// A row-for-row copy of a grid.
fn copy_grid<T: ToMatrix>(g: &Vec<Vec<T>>) -> (r: Vec<Vec<T>>)
    ensures
        r@.len() == g@.len(),
        forall|a: int| 0 <= a < g@.len() ==> (#[trigger] r@[a])@ == g@[a]@,
{
    let mut out: Vec<Vec<T>> = Vec::new();
    let mut t: usize = 0;
    while t < g.len()
        invariant
            t <= g@.len(),
            out@.len() == t,
            forall|a: int| 0 <= a < t ==> (#[trigger] out@[a])@ == g@[a]@,
        decreases g@.len() - t,
    {
        out.push(copy_row(&g[t]));
        t = t + 1;
    }
    out
}

/// The grid with rows `a` and `b` exchanged.
fn swap_rows<T: ToMatrix>(g: &Vec<Vec<T>>, a: usize, b: usize) -> (r: Vec<Vec<T>>)
    requires
        a < g@.len(),
        b < g@.len(),
    ensures
        r@.len() == g@.len(),
        forall|t: int|
            0 <= t < g@.len() ==> (#[trigger] r@[t])@ == g@[if t == a {
                b as int
            } else if t == b {
                a as int
            } else {
                t
            }]@,
{
    let mut out: Vec<Vec<T>> = Vec::new();
    let mut t: usize = 0;
    while t < g.len()
        invariant
            a < g@.len(),
            b < g@.len(),
            t <= g@.len(),
            out@.len() == t,
            forall|s: int|
                0 <= s < t ==> (#[trigger] out@[s])@ == g@[if s == a {
                    b as int
                } else if s == b {
                    a as int
                } else {
                    s
                }]@,
        decreases g@.len() - t,
    {
        let src = if t == a {
            b
        } else if t == b {
            a
        } else {
            t
        };
        out.push(copy_row(&g[src]));
        t = t + 1;
    }
    out
}

/// The grid with rows `a` and `b` exchanged, at the specification level.
pub open spec fn swap_of<T: ToMatrix>(g: Seq<Seq<T>>, a: int, b: int) -> Seq<Seq<T>> {
    Seq::new(
        g.len(),
        |t: int|
            g[if t == a {
                b
            } else if t == b {
                a
            } else {
                t
            }],
    )
}

/// Row `t` after one elimination step against pivot row `i`: from column
/// `col` on, the multiple of row `i` that zeroes entry `(t, col)` is
/// subtracted; earlier columns are unchanged.
pub open spec fn elim_row_of<T: FieldToMatrix>(g: Seq<Seq<T>>, i: int, col: int, t: int) -> Seq<
    T,
> {
    Seq::new(
        g[t].len(),
        |k: int|
            if k >= col {
                g[t][k].sub_val(g[i][k].mul_val(g[t][col].div_val(g[i][col])))
            } else {
                g[t][k]
            },
    )
}

/// The grid after one forward-elimination step: rows at and above the
/// pivot row `i` unchanged, every row below eliminated against it in
/// column `col`.
pub open spec fn elim_below_of<T: FieldToMatrix>(g: Seq<Seq<T>>, i: int, col: int) -> Seq<Seq<T>> {
    Seq::new(
        g.len(),
        |t: int|
            if t <= i {
                g[t]
            } else {
                elim_row_of(g, i, col, t)
            },
    )
}

/// The index of the first row at or below `j` whose entry in column
/// `col` is nonzero; the grid's length when there is none.
pub open spec fn find_pivot<T: FieldToMatrix>(g: Seq<Seq<T>>, col: int, j: int) -> int
    decreases g.len() - j,
{
    if j >= g.len() {
        g.len() as int
    } else if g[j][col] != T::zero_val() {
        j
    } else {
        find_pivot(g, col, j + 1)
    }
}

/// `find_pivot` returns the first nonzero position, given a prefix of
/// zeros.
proof fn lemma_find_pivot_char<T: FieldToMatrix>(g: Seq<Seq<T>>, col: int, j: int, p: int)
    requires
        0 <= j <= p <= g.len(),
        forall|t: int| j <= t < p ==> #[trigger] g[t][col] == T::zero_val(),
        p < g.len() ==> g[p][col] != T::zero_val(),
    ensures
        find_pivot(g, col, j) == p,
    decreases p - j,
{
    if j < p {
        lemma_find_pivot_char(g, col, j + 1, p);
    }
}

/// `mult` times the first `k` diagonal entries, accumulated from `mult`.
pub open spec fn diag_prefix<T: ToMatrix>(g: Seq<Seq<T>>, mult: T, k: int) -> T
    decreases k,
{
    if k <= 0 {
        mult
    } else {
        diag_prefix(g, mult, k - 1).mul_val(g[k - 1][k - 1])
    }
}

/// The forward-elimination determinant, from pivot row `i` on with the
/// accumulated sign `mult`: swap in a nonzero pivot (flipping the sign)
/// or stop with the additive identity when the pivot column is all zero
/// below; once the last row is reached, the result is `mult` times the
/// product of the diagonal.
pub open spec fn det_field_rec<T: FieldToMatrix>(g: Seq<Seq<T>>, i: int, mult: T) -> T
    decreases g.len() - i,
{
    if i < 0 || i + 1 >= g.len() {
        diag_prefix(g, mult, g.len() as int)
    } else if g[i][i] == T::zero_val() {
        let p = find_pivot(g, i, i + 1);
        if p >= g.len() {
            T::zero_val()
        } else {
            det_field_rec(elim_below_of(swap_of(g, i, p), i, i), i + 1, mult.neg_val())
        }
    } else {
        det_field_rec(elim_below_of(g, i, i), i + 1, mult)
    }
}

/// The row echelon form, from working row `i` on with the running column
/// offset: a zero pivot is swapped away or, when its whole column below
/// is zero, passed by raising the offset; each step eliminates the
/// column below the pivot; the recursion stops when the rows or the
/// columns are exhausted.
pub open spec fn row_echelon_rec<T: FieldToMatrix>(g: Seq<Seq<T>>, i: int, offset: int) -> Seq<
    Seq<T>,
>
    decreases g.len() - i,
{
    let w = g[0].len() as int;
    if i < 0 || offset < 0 || i + 1 >= g.len() || offset >= w || i >= w - offset {
        g
    } else {
        let col = i + offset;
        if g[i][col] == T::zero_val() {
            let p = find_pivot(g, col, i + 1);
            if p >= g.len() {
                let o2 = offset + 1;
                if o2 < w && i < w - o2 {
                    row_echelon_rec(elim_below_of(g, i, i + o2), i + 1, o2)
                } else {
                    row_echelon_rec(g, i + 1, o2)
                }
            } else {
                row_echelon_rec(elim_below_of(swap_of(g, i, p), i, col), i + 1, offset)
            }
        } else {
            row_echelon_rec(elim_below_of(g, i, col), i + 1, offset)
        }
    }
}

/// The first column at or after `o` in which the row holds a nonzero
/// entry; the row's length when there is none.
pub open spec fn skip_zeros<T: FieldToMatrix>(r: Seq<T>, o: int) -> int
    decreases r.len() - o,
{
    if o >= r.len() {
        r.len() as int
    } else if r[o] != T::zero_val() {
        o
    } else {
        skip_zeros(r, o + 1)
    }
}

/// `skip_zeros` returns the first nonzero column, given a prefix of
/// zeros.
proof fn lemma_skip_zeros_char<T: FieldToMatrix>(r: Seq<T>, o: int, p: int)
    requires
        0 <= o <= p <= r.len(),
        forall|c: int| o <= c < p ==> #[trigger] r[c] == T::zero_val(),
        p < r.len() ==> r[p] != T::zero_val(),
    ensures
        skip_zeros(r, o) == p,
    decreases p - o,
{
    if o < p {
        lemma_skip_zeros_char(r, o + 1, p);
    }
}

/// The row divided, from column `o` on, by its entry in column `o`.
pub open spec fn divided_row_of<T: FieldToMatrix>(r: Seq<T>, o: int) -> Seq<T> {
    Seq::new(
        r.len(),
        |k: int|
            if k >= o {
                r[k].div_val(r[o])
            } else {
                r[k]
            },
    )
}

/// Pivot normalization from row `t` on, with the running offset `o`:
/// each row's leading nonzero entry from the offset on divides the rest
/// of the row, and the offset moves one past it; a row with no such
/// entry is left unchanged.
pub open spec fn reduced_rec<T: FieldToMatrix>(g: Seq<Seq<T>>, t: int, o: int) -> Seq<Seq<T>>
    decreases g.len() - t,
{
    if t < 0 || t >= g.len() || o < 0 {
        g
    } else {
        let o2 = skip_zeros(g[t], o);
        if o2 >= g[t].len() {
            reduced_rec(g, t + 1, o2)
        } else {
            reduced_rec(g.update(t, divided_row_of(g[t], o2)), t + 1, o2 + 1)
        }
    }
}

/// Row `t` of the companion grid after subtracting `ratio` times its row
/// `i`, over the full width.
pub open spec fn elim_row_with<T: FieldToMatrix>(gb: Seq<Seq<T>>, i: int, t: int, ratio: T) -> Seq<
    T,
> {
    Seq::new(gb[t].len(), |k: int| gb[t][k].sub_val(gb[i][k].mul_val(ratio)))
}

/// The companion grid after one mirrored elimination step: each row below
/// `i` has subtracted the same multiple of row `i` that the main grid's
/// elimination used, over the full width.
pub open spec fn elim_companion_of<T: FieldToMatrix>(
    ga: Seq<Seq<T>>,
    gb: Seq<Seq<T>>,
    i: int,
) -> Seq<Seq<T>> {
    Seq::new(
        gb.len(),
        |t: int|
            if t <= i {
                gb[t]
            } else {
                elim_row_with(gb, i, t, ga[t][i].div_val(ga[i][i]))
            },
    )
}

/// The forward phase of Gauss-Jordan inversion on the main grid and its
/// companion: swaps are mirrored, eliminations use the main grid's
/// ratios; a pivot column that is all zero below stops the phase with no
/// result.
pub open spec fn fwd_rec<T: FieldToMatrix>(ga: Seq<Seq<T>>, gb: Seq<Seq<T>>, i: int) -> Option<
    (Seq<Seq<T>>, Seq<Seq<T>>),
>
    decreases ga.len() - i,
{
    if i < 0 || i + 1 >= ga.len() {
        Some((ga, gb))
    } else if ga[i][i] == T::zero_val() {
        let p = find_pivot(ga, i, i + 1);
        if p >= ga.len() {
            None
        } else {
            let sa = swap_of(ga, i, p);
            let sb = swap_of(gb, i, p);
            fwd_rec(elim_below_of(sa, i, i), elim_companion_of(sa, sb, i), i + 1)
        }
    } else {
        fwd_rec(elim_below_of(ga, i, i), elim_companion_of(ga, gb, i), i + 1)
    }
}

/// The row with every entry divided by `d`.
pub open spec fn row_div_all<T: FieldToMatrix>(r: Seq<T>, d: T) -> Seq<T> {
    Seq::new(r.len(), |k: int| r[k].div_val(d))
}

/// The normalization phase: each row of both grids is divided by the
/// main grid's diagonal entry, which must not be the additive identity.
pub open spec fn norm_rec<T: FieldToMatrix>(ga: Seq<Seq<T>>, gb: Seq<Seq<T>>, t: int) -> Option<
    (Seq<Seq<T>>, Seq<Seq<T>>),
>
    decreases ga.len() - t,
{
    if t < 0 || t >= ga.len() {
        Some((ga, gb))
    } else if ga[t][t] == T::zero_val() {
        None
    } else {
        norm_rec(
            ga.update(t, divided_row_of(ga[t], t)),
            gb.update(t, row_div_all(gb[t], ga[t][t])),
            t + 1,
        )
    }
}

/// One backward-elimination step on the companion grid: every row above
/// row `i` has subtracted the main grid's entry in column `i` times
/// companion row `i`.
pub open spec fn back_step<T: FieldToMatrix>(ga: Seq<Seq<T>>, gb: Seq<Seq<T>>, i: int) -> Seq<
    Seq<T>,
> {
    Seq::new(
        gb.len(),
        |t: int|
            if t < i {
                elim_row_with(gb, i, t, ga[t][i])
            } else {
                gb[t]
            },
    )
}

/// The backward phase, from row `i` down to row 1.
pub open spec fn back_rec<T: FieldToMatrix>(ga: Seq<Seq<T>>, gb: Seq<Seq<T>>, i: int) -> Seq<
    Seq<T>,
>
    decreases i,
{
    if i < 1 {
        gb
    } else {
        back_rec(ga, back_step(ga, gb, i), i - 1)
    }
}

/// Gauss-Jordan inversion of a square grid: forward elimination with an
/// identity companion, normalization of the diagonal, then backward
/// elimination; no result when a pivot shows the grid singular.
pub open spec fn inverse_spec<T: FieldToMatrix>(g: Seq<Seq<T>>) -> Option<Seq<Seq<T>>> {
    match fwd_rec(g, identity_of(g.len()), 0) {
        Option::None => Option::None,
        Option::Some(p) => match norm_rec(p.0, p.1, 0) {
            Option::None => Option::None,
            Option::Some(q) => Option::Some(back_rec(q.0, q.1, q.0.len() - 1)),
        },
    }
}

/// One forward-elimination step: for every row below row `i`, subtracts
/// the multiple of row `i` that zeroes its entry in column `col`,
/// restricted to columns at and after `col`.
fn eliminate_below<T: FieldToMatrix>(g: &Vec<Vec<T>>, i: usize, col: usize, h: usize, w: usize) -> (r:
    Vec<Vec<T>>)
    requires
        vg_ok(g@, h as int, w as int),
        i < h,
        col < w,
    ensures
        vg_ok(r@, h as int, w as int),
        forall|t: int| 0 <= t <= i ==> (#[trigger] r@[t])@ == g@[t]@,
        vecs_view(r@) == elim_below_of(vecs_view(g@), i as int, col as int),
{
    let ghost gv = vecs_view(g@);
    let mut out: Vec<Vec<T>> = Vec::new();
    let mut t: usize = 0;
    while t < h
        invariant
            vg_ok(g@, h as int, w as int),
            gv == vecs_view(g@),
            i < h,
            col < w,
            t <= h,
            out@.len() == t,
            forall|s: int| 0 <= s < t && s <= i ==> (#[trigger] out@[s])@ == g@[s]@,
            forall|s: int|
                i < s < t ==> (#[trigger] out@[s])@ == elim_row_of(gv, i as int, col as int, s),
            forall|s: int| 0 <= s < t ==> (#[trigger] out@[s])@.len() == w,
            forall|s: int, k: int| 0 <= s < t && 0 <= k < w ==> (#[trigger] out@[s]@[k]).wf(),
        decreases h - t,
    {
        proof {
            assert(gv[t as int] == g@[t as int]@);
            assert(gv[i as int] == g@[i as int]@);
        }
        if t <= i {
            out.push(copy_row(&g[t]));
        } else {
            let ratio = g[t][col].div_elem(g[i][col]);
            let mut new_row: Vec<T> = Vec::new();
            let mut k: usize = 0;
            while k < w
                invariant
                    vg_ok(g@, h as int, w as int),
                    gv == vecs_view(g@),
                    i < h,
                    t < h,
                    col < w,
                    ratio.wf(),
                    ratio == gv[t as int][col as int].div_val(gv[i as int][col as int]),
                    k <= w,
                    new_row@.len() == k,
                    forall|b: int|
                        0 <= b < k ==> #[trigger] new_row@[b] == elim_row_of(
                            gv,
                            i as int,
                            col as int,
                            t as int,
                        )[b],
                    forall|b: int| 0 <= b < k ==> (#[trigger] new_row@[b]).wf(),
                decreases w - k,
            {
                proof {
                    assert(gv[t as int] == g@[t as int]@);
                    assert(gv[i as int] == g@[i as int]@);
                }
                if k >= col {
                    new_row.push(g[t][k].sub_elem(g[i][k].mul_elem(ratio)));
                } else {
                    new_row.push(g[t][k]);
                }
                k = k + 1;
            }
            proof {
                assert(gv[t as int].len() == w);
                assert(new_row@ =~= elim_row_of(gv, i as int, col as int, t as int));
            }
            out.push(new_row);
        }
        t = t + 1;
    }
    proof {
        assert forall|s: int| 0 <= s < h implies (#[trigger] vecs_view(out@)[s]) == elim_below_of(
            gv,
            i as int,
            col as int,
        )[s] by {
            assert(vecs_view(out@)[s] == out@[s]@);
            if s <= i {
                assert(out@[s]@ == g@[s]@);
                assert(gv[s] == g@[s]@);
            }
        }
        assert(vecs_view(out@) =~= elim_below_of(gv, i as int, col as int));
    }
    out
}

impl<T: FieldToMatrix> Matrix<T> {
    /// The determinant of a square matrix by forward elimination: row
    /// swaps flip the sign of an accumulated multiplier, and the result
    /// is that multiplier times the product of the diagonal. `NotSquare`
    /// if, and only if, the matrix is not square; every square matrix
    /// yields a well-formed value.
    #[verifier::loop_isolation(false)]
    pub fn det_in_field(&self) -> (r: Result<T, MatrixError>)
        requires
            self.wf(),
        ensures
            !mat_square(self@) ==> r == Err::<T, MatrixError>(MatrixError::NotSquare),
            mat_square(self@) ==> r == Ok::<T, MatrixError>(
                det_field_rec(self@, 0, T::one_val()),
            ),
            r matches Ok(v) ==> v.wf(),
    {
        if !self.is_square() {
            return Err(MatrixError::NotSquare);
        }
        let h = self.height();
        let w = self.width();
        let rows_ref = self.rows();
        let mut rows = copy_grid(rows_ref);
        proof {
            grid_from_mat(rows_ref@, self@);
            assert forall|a: int| 0 <= a < h implies (#[trigger] rows@[a])@.len() == w by {
                assert(rows@[a]@ == rows_ref@[a]@);
            }
            assert forall|a: int, k: int|
                0 <= a < h && 0 <= k < w implies (#[trigger] rows@[a]@[k]).wf() by {
                assert(rows@[a]@ == rows_ref@[a]@);
            }
            assert forall|a: int| 0 <= a < h implies #[trigger] vecs_view(rows@)[a] == self@[a] by {
                assert(vecs_view(rows@)[a] == rows@[a]@);
                assert(rows@[a]@ == rows_ref@[a]@);
                assert(vecs_view(rows_ref@)[a] == rows_ref@[a]@);
            }
            assert(vecs_view(rows@) =~= self@);
        }
        let ghost target = det_field_rec(self@, 0, T::one_val());
        let mut multiplier = T::one_elem();
        let mut i: usize = 0;
        while i < h - 1
            invariant
                vg_ok(rows@, h as int, w as int),
                multiplier.wf(),
                h == w,
                h >= 1,
                i <= h - 1,
                det_field_rec(vecs_view(rows@), i as int, multiplier) == target,
            decreases h - i,
        {
            let ghost gv0 = vecs_view(rows@);
            proof {
                assert(gv0[i as int] == rows@[i as int]@);
            }
            if rows[i][i].eq_elem(T::zero_elem()) {
                let mut j: usize = i + 1;
                let mut found: usize = h;
                while j < h
                    invariant
                        vg_ok(rows@, h as int, w as int),
                        gv0 == vecs_view(rows@),
                        i < h,
                        h == w,
                        i + 1 <= j <= h,
                        found <= h,
                        found == h ==> forall|t: int|
                            i < t < j ==> (#[trigger] gv0[t])[i as int] == T::zero_val(),
                        found < h ==> i < found < j && gv0[found as int][i as int]
                            != T::zero_val() && forall|t: int|
                            i < t < found ==> (#[trigger] gv0[t])[i as int] == T::zero_val(),
                    decreases h - j,
                {
                    proof {
                        assert(rows@[j as int]@.len() == w);
                        assert(gv0[j as int] == rows@[j as int]@);
                    }
                    if found == h {
                        if !rows[j][i].eq_elem(T::zero_elem()) {
                            found = j;
                        }
                    }
                    j = j + 1;
                }
                if found == h {
                    proof {
                        T::lemma_identities_wf();
                        lemma_find_pivot_char(gv0, i as int, i + 1, h as int);
                    }
                    return Ok(T::zero_elem());
                }
                proof {
                    lemma_find_pivot_char(gv0, i as int, i + 1, found as int);
                }
                let ghost old_rows = rows@;
                rows = swap_rows(&rows, i, found);
                proof {
                    assert forall|a: int, k: int|
                        0 <= a < h && 0 <= k < w implies (#[trigger] rows@[a]@[k]).wf() by {}
                    assert forall|a: int| 0 <= a < h implies #[trigger] vecs_view(rows@)[a]
                        == swap_of(gv0, i as int, found as int)[a] by {
                        assert(vecs_view(rows@)[a] == rows@[a]@);
                        let src = if a == i {
                            found as int
                        } else if a == found {
                            i as int
                        } else {
                            a
                        };
                        assert(gv0[src] == old_rows[src]@);
                    }
                    assert(vecs_view(rows@) =~= swap_of(gv0, i as int, found as int));
                }
                multiplier = multiplier.neg_elem();
            }
            rows = eliminate_below(&rows, i, i, h, w);
            i = i + 1;
        }
        proof {
            assert(det_field_rec(vecs_view(rows@), i as int, multiplier) == diag_prefix(
                vecs_view(rows@),
                multiplier,
                h as int,
            ));
        }
        let ghost gfin = vecs_view(rows@);
        let ghost mfin = multiplier;
        let mut acc = multiplier;
        let mut idx: usize = 0;
        while idx < h
            invariant
                vg_ok(rows@, h as int, w as int),
                gfin == vecs_view(rows@),
                h == w,
                acc.wf(),
                idx <= h,
                acc == diag_prefix(gfin, mfin, idx as int),
            decreases h - idx,
        {
            proof {
                assert(gfin[idx as int] == rows@[idx as int]@);
            }
            acc = acc.mul_elem(rows[idx][idx]);
            idx = idx + 1;
        }
        Ok(acc)
    }

    /// The row echelon form by forward Gaussian elimination, keeping a
    /// column offset to pass all-zero pivot columns. The result has the
    /// same dimensions as the input.
    #[verifier::loop_isolation(false)]
    pub fn row_echelon(&self) -> (r: Self)
        requires
            self.wf(),
        ensures
            r.wf(),
            r@ == row_echelon_rec(self@, 0, 0),
            r@.len() == self@.len(),
            r@[0].len() == self@[0].len(),
    {
        let h = self.height();
        let w = self.width();
        let rows_ref = self.rows();
        let mut rows = copy_grid(rows_ref);
        proof {
            grid_from_mat(rows_ref@, self@);
            assert forall|a: int| 0 <= a < h implies (#[trigger] rows@[a])@.len() == w by {
                assert(rows@[a]@ == rows_ref@[a]@);
            }
            assert forall|a: int, k: int|
                0 <= a < h && 0 <= k < w implies (#[trigger] rows@[a]@[k]).wf() by {
                assert(rows@[a]@ == rows_ref@[a]@);
            }
            assert forall|a: int| 0 <= a < h implies #[trigger] vecs_view(rows@)[a] == self@[a] by {
                assert(vecs_view(rows@)[a] == rows@[a]@);
                assert(rows@[a]@ == rows_ref@[a]@);
                assert(vecs_view(rows_ref@)[a] == rows_ref@[a]@);
            }
            assert(vecs_view(rows@) =~= self@);
        }
        let ghost target = row_echelon_rec(self@, 0, 0);
        let mut offset: usize = 0;
        let mut i: usize = 0;
        let mut done = false;
        while !done && i < h - 1
            invariant
                vg_ok(rows@, h as int, w as int),
                h >= 1,
                w >= 1,
                i <= h - 1,
                offset <= w,
                row_echelon_rec(vecs_view(rows@), i as int, offset as int) == target,
                done ==> vecs_view(rows@) == target,
            decreases h - i, if done { 0int } else { 1int },
        {
            let ghost gv0 = vecs_view(rows@);
            let ghost off0 = offset as int;
            proof {
                assert(gv0.len() == h);
                assert(gv0[0] == rows@[0]@);
                assert(gv0[0].len() == w);
            }
            if offset >= w || i >= w - offset {
                proof {
                    assert(row_echelon_rec(gv0, i as int, off0) == gv0);
                }
                done = true;
            } else {
            let col = i + offset;
            proof {
                assert(gv0[i as int] == rows@[i as int]@);
            }
            if rows[i][col].eq_elem(T::zero_elem()) {
                let mut j: usize = i + 1;
                let mut found: usize = h;
                while j < h
                    invariant
                        vg_ok(rows@, h as int, w as int),
                        gv0 == vecs_view(rows@),
                        i < h,
                        col < w,
                        i + 1 <= j <= h,
                        found <= h,
                        found == h ==> forall|t: int|
                            i < t < j ==> (#[trigger] gv0[t])[col as int] == T::zero_val(),
                        found < h ==> i < found < j && gv0[found as int][col as int]
                            != T::zero_val() && forall|t: int|
                            i < t < found ==> (#[trigger] gv0[t])[col as int] == T::zero_val(),
                    decreases h - j,
                {
                    proof {
                        assert(rows@[j as int]@.len() == w);
                        assert(gv0[j as int] == rows@[j as int]@);
                    }
                    if found == h {
                        if !rows[j][col].eq_elem(T::zero_elem()) {
                            found = j;
                        }
                    }
                    j = j + 1;
                }
                if found < h {
                    proof {
                        lemma_find_pivot_char(gv0, col as int, i + 1, found as int);
                    }
                    let ghost old_rows = rows@;
                    rows = swap_rows(&rows, i, found);
                    proof {
                        assert forall|a: int, k: int|
                            0 <= a < h && 0 <= k < w implies (#[trigger] rows@[a]@[k]).wf() by {}
                        assert forall|a: int| 0 <= a < h implies #[trigger] vecs_view(rows@)[a]
                            == swap_of(gv0, i as int, found as int)[a] by {
                            assert(vecs_view(rows@)[a] == rows@[a]@);
                            let src = if a == i {
                                found as int
                            } else if a == found {
                                i as int
                            } else {
                                a
                            };
                            assert(gv0[src] == old_rows[src]@);
                        }
                        assert(vecs_view(rows@) =~= swap_of(gv0, i as int, found as int));
                    }
                } else {
                    proof {
                        lemma_find_pivot_char(gv0, col as int, i + 1, h as int);
                    }
                    offset = offset + 1;
                }
            }
            if offset < w && i < w - offset {
                rows = eliminate_below(&rows, i, i + offset, h, w);
            }
            proof {
                assert(row_echelon_rec(gv0, i as int, off0) == row_echelon_rec(
                    vecs_view(rows@),
                    i + 1,
                    offset as int,
                ));
            }
            i = i + 1;
            }
        }
        proof {
            if !done {
                assert(vecs_view(rows@).len() == h);
                assert(row_echelon_rec(vecs_view(rows@), i as int, offset as int) == vecs_view(
                    rows@,
                ));
            }
        }
        let m = Matrix::from_grid(rows);
        proof {
            mat_from_grid(rows@, h as int, w as int);
            assert(m@ == vecs_view(rows@));
        }
        m
    }

    /// The column echelon form: the transpose of the row echelon form of
    /// the transpose. The result has the same dimensions as the input.
    #[verifier::loop_isolation(false)]
    pub fn column_echelon(&self) -> (r: Self)
        requires
            self.wf(),
        ensures
            r.wf(),
            r@ == transpose_of(row_echelon_rec(transpose_of(self@), 0, 0)),
            r@.len() == self@.len(),
            r@[0].len() == self@[0].len(),
    {
        let t = self.transpose();
        proof {
            assert(t@.len() == self@[0].len());
            assert(t@[0].len() == self@.len());
        }
        let e = t.row_echelon();
        let back = e.transpose();
        proof {
            assert(back@.len() == e@[0].len());
            assert(back@[0].len() == e@.len());
        }
        back
    }

    /// The reduced row echelon form: the row echelon form with every
    /// row divided by its leading nonzero entry, normalizing each pivot
    /// to the multiplicative identity. The result has the same dimensions
    /// as the input.
    #[verifier::loop_isolation(false)]
    pub fn reduced_row_echelon(&self) -> (r: Self)
        requires
            self.wf(),
        ensures
            r.wf(),
            r@ == reduced_rec(row_echelon_rec(self@, 0, 0), 0, 0),
            r@.len() == self@.len(),
            r@[0].len() == self@[0].len(),
    {
        let e = self.row_echelon();
        let h = e.height();
        let w = e.width();
        let g_ref = e.rows();
        let g = copy_grid(g_ref);
        let ghost gv = vecs_view(g@);
        proof {
            grid_from_mat(g_ref@, e@);
            assert forall|a: int| 0 <= a < h implies (#[trigger] g@[a])@.len() == w by {
                assert(g@[a]@ == g_ref@[a]@);
            }
            assert forall|a: int, k: int|
                0 <= a < h && 0 <= k < w implies (#[trigger] g@[a]@[k]).wf() by {
                assert(g@[a]@ == g_ref@[a]@);
            }
            assert forall|a: int| 0 <= a < h implies #[trigger] gv[a] == e@[a] by {
                assert(gv[a] == g@[a]@);
                assert(g@[a]@ == g_ref@[a]@);
                assert(vecs_view(g_ref@)[a] == g_ref@[a]@);
            }
            assert(gv =~= e@);
        }
        let ghost target = reduced_rec(gv, 0, 0);
        let mut out: Vec<Vec<T>> = Vec::new();
        let mut offset: usize = 0;
        let mut t: usize = 0;
        proof {
            assert(vecs_view(out@) + gv.subrange(0, h as int) =~= gv);
        }
        while t < h
            invariant
                vg_ok(g@, h as int, w as int),
                gv == vecs_view(g@),
                h >= 1,
                w >= 1,
                t <= h,
                offset <= w,
                out@.len() == t,
                forall|s: int| 0 <= s < t ==> (#[trigger] out@[s])@.len() == w,
                forall|s: int, k: int| 0 <= s < t && 0 <= k < w ==> (#[trigger] out@[s]@[k]).wf(),
                reduced_rec(
                    vecs_view(out@) + gv.subrange(t as int, h as int),
                    t as int,
                    offset as int,
                ) == target,
            decreases h - t,
        {
            let ghost hyb0 = vecs_view(out@) + gv.subrange(t as int, h as int);
            let ghost off0 = offset as int;
            proof {
                assert(hyb0.len() == h);
                assert(hyb0[t as int] == gv.subrange(t as int, h as int)[0]);
                assert(hyb0[t as int] == gv[t as int]);
                assert(gv[t as int] == g@[t as int]@);
                assert(gv[t as int].len() == w);
            }
            while offset < w && g[t][offset].eq_elem(T::zero_elem())
                invariant
                    vg_ok(g@, h as int, w as int),
                    gv == vecs_view(g@),
                    gv[t as int] == g@[t as int]@,
                    t < h,
                    off0 <= offset <= w,
                    forall|c: int| off0 <= c < offset ==> #[trigger] gv[t as int][c]
                        == T::zero_val(),
                decreases w - offset,
            {
                offset = offset + 1;
            }
            proof {
                lemma_skip_zeros_char(gv[t as int], off0, offset as int);
            }
            if offset < w {
                let divisor = g[t][offset];
                let mut new_row: Vec<T> = Vec::new();
                let mut k: usize = 0;
                while k < w
                    invariant
                        vg_ok(g@, h as int, w as int),
                        gv == vecs_view(g@),
                        gv[t as int] == g@[t as int]@,
                        t < h,
                        offset < w,
                        divisor.wf(),
                        divisor == gv[t as int][offset as int],
                        k <= w,
                        new_row@.len() == k,
                        forall|b: int|
                            0 <= b < k ==> #[trigger] new_row@[b] == divided_row_of(
                                gv[t as int],
                                offset as int,
                            )[b],
                        forall|b: int| 0 <= b < k ==> (#[trigger] new_row@[b]).wf(),
                    decreases w - k,
                {
                    if k >= offset {
                        new_row.push(g[t][k].div_elem(divisor));
                    } else {
                        new_row.push(g[t][k]);
                    }
                    k = k + 1;
                }
                proof {
                    assert(new_row@ =~= divided_row_of(gv[t as int], offset as int));
                }
                out.push(new_row);
                proof {
                    let hyb1 = vecs_view(out@) + gv.subrange(t + 1, h as int);
                    assert forall|s: int| 0 <= s < h implies #[trigger] hyb1[s] == hyb0.update(
                        t as int,
                        divided_row_of(gv[t as int], offset as int),
                    )[s] by {
                        if s < t {
                            assert(hyb1[s] == vecs_view(out@)[s]);
                            assert(hyb0[s] == vecs_view(out@.drop_last())[s]);
                            assert(vecs_view(out@)[s] == out@[s]@);
                            assert(vecs_view(out@.drop_last())[s] == out@.drop_last()[s]@);
                        } else if s == t {
                            assert(hyb1[s] == vecs_view(out@)[s]);
                            assert(vecs_view(out@)[s] == out@[s]@);
                        } else {
                            assert(hyb1[s] == gv.subrange(t + 1, h as int)[s - t - 1]);
                            assert(hyb0[s] == gv.subrange(t as int, h as int)[s - t]);
                        }
                    }
                    assert(vecs_view(out@) + gv.subrange(t + 1, h as int) =~= hyb0.update(
                        t as int,
                        divided_row_of(gv[t as int], offset as int),
                    ));
                }
                offset = offset + 1;
            } else {
                out.push(copy_row(&g[t]));
                proof {
                    let hyb1 = vecs_view(out@) + gv.subrange(t + 1, h as int);
                    assert forall|s: int| 0 <= s < h implies #[trigger] hyb1[s] == hyb0[s] by {
                        if s < t {
                            assert(hyb1[s] == vecs_view(out@)[s]);
                            assert(hyb0[s] == vecs_view(out@.drop_last())[s]);
                            assert(vecs_view(out@)[s] == out@[s]@);
                            assert(vecs_view(out@.drop_last())[s] == out@.drop_last()[s]@);
                        } else if s == t {
                            assert(hyb1[s] == vecs_view(out@)[s]);
                            assert(vecs_view(out@)[s] == out@[s]@);
                            assert(hyb0[s] == gv[t as int]);
                        } else {
                            assert(hyb1[s] == gv.subrange(t + 1, h as int)[s - t - 1]);
                            assert(hyb0[s] == gv.subrange(t as int, h as int)[s - t]);
                        }
                    }
                    assert(vecs_view(out@) + gv.subrange(t + 1, h as int) =~= hyb0);
                }
            }
            t = t + 1;
        }
        proof {
            assert(vecs_view(out@) + gv.subrange(h as int, h as int) =~= vecs_view(out@));
        }
        let m = Matrix::from_grid(out);
        proof {
            mat_from_grid(out@, h as int, w as int);
        }
        m
    }

    /// The inverse of a square matrix by Gauss-Jordan elimination on an
    /// augmented identity matrix. `NotSquare` if, and only if, the matrix
    /// is not square; `Singular` when elimination meets a pivot column
    /// with no nonzero entry.
    #[verifier::loop_isolation(false)]
    pub fn inverse(&self) -> (r: Result<Self, MatrixError>)
        requires
            self.wf(),
        ensures
            !mat_square(self@) ==> r == Err::<Matrix<T>, MatrixError>(MatrixError::NotSquare),
            mat_square(self@) ==> (inverse_spec(self@) matches Some(m) ==> (r matches Ok(mm)
                && mm@ == m && mm.wf() && mm@.len() == self@.len() && mm@[0].len()
                == self@[0].len())),
            mat_square(self@) ==> (inverse_spec(self@) is None ==> r == Err::<
                Matrix<T>,
                MatrixError,
            >(MatrixError::Singular)),
    {
        if !self.is_square() {
            return Err(MatrixError::NotSquare);
        }
        let h = self.height();
        let w = self.width();
        let rows_ref = self.rows();
        let mut rows = copy_grid(rows_ref);
        let ident = Matrix::<T>::identity(h);
        let ident_ref = ident.rows();
        let mut out = copy_grid(ident_ref);
        proof {
            grid_from_mat(rows_ref@, self@);
            assert forall|a: int| 0 <= a < h implies (#[trigger] rows@[a])@.len() == w by {
                assert(rows@[a]@ == rows_ref@[a]@);
            }
            assert forall|a: int, k: int|
                0 <= a < h && 0 <= k < w implies (#[trigger] rows@[a]@[k]).wf() by {
                assert(rows@[a]@ == rows_ref@[a]@);
            }
            grid_from_mat(ident_ref@, ident@);
            assert forall|a: int| 0 <= a < h implies (#[trigger] out@[a])@.len() == w by {
                assert(out@[a]@ == ident_ref@[a]@);
            }
            assert forall|a: int, k: int|
                0 <= a < h && 0 <= k < w implies (#[trigger] out@[a]@[k]).wf() by {
                assert(out@[a]@ == ident_ref@[a]@);
            }
            assert forall|a: int| 0 <= a < h implies #[trigger] vecs_view(rows@)[a] == self@[a] by {
                assert(vecs_view(rows@)[a] == rows@[a]@);
                assert(rows@[a]@ == rows_ref@[a]@);
                assert(vecs_view(rows_ref@)[a] == rows_ref@[a]@);
            }
            assert(vecs_view(rows@) =~= self@);
            assert forall|a: int| 0 <= a < h implies #[trigger] vecs_view(out@)[a] == identity_of::<
                T,
            >(self@.len())[a] by {
                assert(vecs_view(out@)[a] == out@[a]@);
                assert(out@[a]@ == ident_ref@[a]@);
                assert(vecs_view(ident_ref@)[a] == ident_ref@[a]@);
                assert(ident@[a] == identity_of::<T>(h as nat)[a]);
            }
            assert(vecs_view(out@) =~= identity_of::<T>(self@.len()));
        }
        let ghost ftarget = fwd_rec(self@, identity_of(self@.len()), 0);
        // forward elimination, mirrored onto the companion grid
        let mut i: usize = 0;
        while i < h - 1
            invariant
                vg_ok(rows@, h as int, w as int),
                vg_ok(out@, h as int, w as int),
                h == w,
                h >= 1,
                i <= h - 1,
                fwd_rec(vecs_view(rows@), vecs_view(out@), i as int) == ftarget,
            decreases h - i,
        {
            let ghost gva0 = vecs_view(rows@);
            let ghost gvb0 = vecs_view(out@);
            proof {
                assert(gva0[i as int] == rows@[i as int]@);
            }
            if rows[i][i].eq_elem(T::zero_elem()) {
                let mut j: usize = i + 1;
                let mut found: usize = h;
                while j < h
                    invariant
                        vg_ok(rows@, h as int, w as int),
                        gva0 == vecs_view(rows@),
                        i < h,
                        h == w,
                        i + 1 <= j <= h,
                        found <= h,
                        found == h ==> forall|t: int|
                            i < t < j ==> (#[trigger] gva0[t])[i as int] == T::zero_val(),
                        found < h ==> i < found < j && gva0[found as int][i as int]
                            != T::zero_val() && forall|t: int|
                            i < t < found ==> (#[trigger] gva0[t])[i as int] == T::zero_val(),
                    decreases h - j,
                {
                    proof {
                        assert(rows@[j as int]@.len() == w);
                        assert(gva0[j as int] == rows@[j as int]@);
                    }
                    if found == h {
                        if !rows[j][i].eq_elem(T::zero_elem()) {
                            found = j;
                        }
                    }
                    j = j + 1;
                }
                if found == h {
                    proof {
                        lemma_find_pivot_char(gva0, i as int, i + 1, h as int);
                        assert(fwd_rec(gva0, gvb0, i as int) is None);
                        assert(inverse_spec(self@) is None);
                    }
                    return Err(MatrixError::Singular);
                }
                proof {
                    lemma_find_pivot_char(gva0, i as int, i + 1, found as int);
                }
                let ghost old_rows = rows@;
                let ghost old_out = out@;
                rows = swap_rows(&rows, i, found);
                out = swap_rows(&out, i, found);
                proof {
                    assert forall|a: int, k: int|
                        0 <= a < h && 0 <= k < w implies (#[trigger] rows@[a]@[k]).wf() by {}
                    assert forall|a: int, k: int|
                        0 <= a < h && 0 <= k < w implies (#[trigger] out@[a]@[k]).wf() by {}
                    assert forall|a: int| 0 <= a < h implies #[trigger] vecs_view(rows@)[a]
                        == swap_of(gva0, i as int, found as int)[a] by {
                        assert(vecs_view(rows@)[a] == rows@[a]@);
                        let src = if a == i {
                            found as int
                        } else if a == found {
                            i as int
                        } else {
                            a
                        };
                        assert(gva0[src] == old_rows[src]@);
                    }
                    assert(vecs_view(rows@) =~= swap_of(gva0, i as int, found as int));
                    assert forall|a: int| 0 <= a < h implies #[trigger] vecs_view(out@)[a]
                        == swap_of(gvb0, i as int, found as int)[a] by {
                        assert(vecs_view(out@)[a] == out@[a]@);
                        let src = if a == i {
                            found as int
                        } else if a == found {
                            i as int
                        } else {
                            a
                        };
                        assert(gvb0[src] == old_out[src]@);
                    }
                    assert(vecs_view(out@) =~= swap_of(gvb0, i as int, found as int));
                }
            }
            let ghost gva1 = vecs_view(rows@);
            let ghost gvb1 = vecs_view(out@);
            let mut new_rows: Vec<Vec<T>> = Vec::new();
            let mut new_out: Vec<Vec<T>> = Vec::new();
            let mut t: usize = 0;
            while t < h
                invariant
                    vg_ok(rows@, h as int, w as int),
                    vg_ok(out@, h as int, w as int),
                    gva1 == vecs_view(rows@),
                    gvb1 == vecs_view(out@),
                    i < h,
                    w >= 1,
                    t <= h,
                    new_rows@.len() == t,
                    new_out@.len() == t,
                    forall|s: int|
                        0 <= s < t ==> (#[trigger] new_rows@[s])@ == elim_below_of(
                            gva1,
                            i as int,
                            i as int,
                        )[s],
                    forall|s: int|
                        0 <= s < t ==> (#[trigger] new_out@[s])@ == elim_companion_of(
                            gva1,
                            gvb1,
                            i as int,
                        )[s],
                    forall|s: int| 0 <= s < t ==> (#[trigger] new_rows@[s])@.len() == w,
                    forall|s: int, k: int|
                        0 <= s < t && 0 <= k < w ==> (#[trigger] new_rows@[s]@[k]).wf(),
                    forall|s: int| 0 <= s < t ==> (#[trigger] new_out@[s])@.len() == w,
                    forall|s: int, k: int|
                        0 <= s < t && 0 <= k < w ==> (#[trigger] new_out@[s]@[k]).wf(),
                decreases h - t,
            {
                proof {
                    assert(gva1[t as int] == rows@[t as int]@);
                    assert(gvb1[t as int] == out@[t as int]@);
                    assert(gva1[i as int] == rows@[i as int]@);
                    assert(gvb1[i as int] == out@[i as int]@);
                }
                if t <= i {
                    new_rows.push(copy_row(&rows[t]));
                    new_out.push(copy_row(&out[t]));
                } else {
                    let ratio = rows[t][i].div_elem(rows[i][i]);
                    let mut row_a: Vec<T> = Vec::new();
                    let mut k: usize = 0;
                    while k < w
                        invariant
                            vg_ok(rows@, h as int, w as int),
                            gva1 == vecs_view(rows@),
                            gva1[t as int] == rows@[t as int]@,
                            gva1[i as int] == rows@[i as int]@,
                            i < h,
                            i < t < h,
                            ratio.wf(),
                            ratio == gva1[t as int][i as int].div_val(gva1[i as int][i as int]),
                            k <= w,
                            row_a@.len() == k,
                            forall|b: int|
                                0 <= b < k ==> #[trigger] row_a@[b] == elim_row_of(
                                    gva1,
                                    i as int,
                                    i as int,
                                    t as int,
                                )[b],
                            forall|b: int| 0 <= b < k ==> (#[trigger] row_a@[b]).wf(),
                        decreases w - k,
                    {
                        if k >= i {
                            row_a.push(rows[t][k].sub_elem(rows[i][k].mul_elem(ratio)));
                        } else {
                            row_a.push(rows[t][k]);
                        }
                        k = k + 1;
                    }
                    let mut row_b: Vec<T> = Vec::new();
                    let mut k2: usize = 0;
                    while k2 < w
                        invariant
                            vg_ok(out@, h as int, w as int),
                            gvb1 == vecs_view(out@),
                            gvb1[t as int] == out@[t as int]@,
                            gvb1[i as int] == out@[i as int]@,
                            i < h,
                            i < t < h,
                            ratio.wf(),
                            k2 <= w,
                            row_b@.len() == k2,
                            forall|b: int|
                                0 <= b < k2 ==> #[trigger] row_b@[b] == elim_row_with(
                                    gvb1,
                                    i as int,
                                    t as int,
                                    ratio,
                                )[b],
                            forall|b: int| 0 <= b < k2 ==> (#[trigger] row_b@[b]).wf(),
                        decreases w - k2,
                    {
                        row_b.push(out[t][k2].sub_elem(out[i][k2].mul_elem(ratio)));
                        k2 = k2 + 1;
                    }
                    proof {
                        assert(gva1[t as int].len() == w);
                        assert(gvb1[t as int].len() == w);
                        assert(row_a@ =~= elim_row_of(gva1, i as int, i as int, t as int));
                        assert(row_b@ =~= elim_row_with(gvb1, i as int, t as int, ratio));
                    }
                    new_rows.push(row_a);
                    new_out.push(row_b);
                }
                t = t + 1;
            }
            proof {
                assert forall|s: int| 0 <= s < h implies #[trigger] vecs_view(new_rows@)[s]
                    == elim_below_of(gva1, i as int, i as int)[s] by {
                    assert(vecs_view(new_rows@)[s] == new_rows@[s]@);
                }
                assert(vecs_view(new_rows@) =~= elim_below_of(gva1, i as int, i as int));
                assert forall|s: int| 0 <= s < h implies #[trigger] vecs_view(new_out@)[s]
                    == elim_companion_of(gva1, gvb1, i as int)[s] by {
                    assert(vecs_view(new_out@)[s] == new_out@[s]@);
                }
                assert(vecs_view(new_out@) =~= elim_companion_of(gva1, gvb1, i as int));
            }
            rows = new_rows;
            out = new_out;
            proof {
                assert(fwd_rec(gva0, gvb0, i as int) == fwd_rec(
                    vecs_view(rows@),
                    vecs_view(out@),
                    i + 1,
                ));
            }
            i = i + 1;
        }
        proof {
            assert(ftarget == Some((vecs_view(rows@), vecs_view(out@))));
        }
        let ghost gva2 = vecs_view(rows@);
        let ghost gvb2 = vecs_view(out@);
        let ghost ntarget = norm_rec(gva2, gvb2, 0);
        // normalize every row of both grids by the diagonal entry
        let mut norm_rows: Vec<Vec<T>> = Vec::new();
        let mut norm_out: Vec<Vec<T>> = Vec::new();
        let mut t: usize = 0;
        proof {
            assert(vecs_view(norm_rows@) + gva2.subrange(0, h as int) =~= gva2);
            assert(vecs_view(norm_out@) + gvb2.subrange(0, h as int) =~= gvb2);
        }
        while t < h
            invariant
                vg_ok(rows@, h as int, w as int),
                vg_ok(out@, h as int, w as int),
                gva2 == vecs_view(rows@),
                gvb2 == vecs_view(out@),
                h == w,
                t <= h,
                norm_rows@.len() == t,
                norm_out@.len() == t,
                forall|s: int| 0 <= s < t ==> (#[trigger] norm_rows@[s])@.len() == w,
                forall|s: int, k: int|
                    0 <= s < t && 0 <= k < w ==> (#[trigger] norm_rows@[s]@[k]).wf(),
                forall|s: int| 0 <= s < t ==> (#[trigger] norm_out@[s])@.len() == w,
                forall|s: int, k: int|
                    0 <= s < t && 0 <= k < w ==> (#[trigger] norm_out@[s]@[k]).wf(),
                norm_rec(
                    vecs_view(norm_rows@) + gva2.subrange(t as int, h as int),
                    vecs_view(norm_out@) + gvb2.subrange(t as int, h as int),
                    t as int,
                ) == ntarget,
            decreases h - t,
        {
            let ghost hyb_a0 = vecs_view(norm_rows@) + gva2.subrange(t as int, h as int);
            let ghost hyb_b0 = vecs_view(norm_out@) + gvb2.subrange(t as int, h as int);
            proof {
                assert(hyb_a0.len() == h);
                assert(hyb_a0[t as int] == gva2.subrange(t as int, h as int)[0]);
                assert(hyb_a0[t as int] == gva2[t as int]);
                assert(hyb_b0[t as int] == gvb2.subrange(t as int, h as int)[0]);
                assert(hyb_b0[t as int] == gvb2[t as int]);
                assert(gva2[t as int] == rows@[t as int]@);
                assert(gvb2[t as int] == out@[t as int]@);
            }
            if rows[t][t].eq_elem(T::zero_elem()) {
                proof {
                    assert(norm_rec(hyb_a0, hyb_b0, t as int) is None);
                    assert(inverse_spec(self@) is None);
                }
                return Err(MatrixError::Singular);
            }
            let divisor = rows[t][t];
            let mut row_a: Vec<T> = Vec::new();
            let mut k: usize = 0;
            while k < w
                invariant
                    vg_ok(rows@, h as int, w as int),
                    gva2 == vecs_view(rows@),
                    gva2[t as int] == rows@[t as int]@,
                    t < h,
                    divisor.wf(),
                    divisor == gva2[t as int][t as int],
                    k <= w,
                    row_a@.len() == k,
                    forall|b: int|
                        0 <= b < k ==> #[trigger] row_a@[b] == divided_row_of(
                            gva2[t as int],
                            t as int,
                        )[b],
                    forall|b: int| 0 <= b < k ==> (#[trigger] row_a@[b]).wf(),
                decreases w - k,
            {
                if k >= t {
                    row_a.push(rows[t][k].div_elem(divisor));
                } else {
                    row_a.push(rows[t][k]);
                }
                k = k + 1;
            }
            let mut row_b: Vec<T> = Vec::new();
            let mut k2: usize = 0;
            while k2 < w
                invariant
                    vg_ok(out@, h as int, w as int),
                    gvb2 == vecs_view(out@),
                    gvb2[t as int] == out@[t as int]@,
                    t < h,
                    divisor.wf(),
                    k2 <= w,
                    row_b@.len() == k2,
                    forall|b: int|
                        0 <= b < k2 ==> #[trigger] row_b@[b] == row_div_all(
                            gvb2[t as int],
                            divisor,
                        )[b],
                    forall|b: int| 0 <= b < k2 ==> (#[trigger] row_b@[b]).wf(),
                decreases w - k2,
            {
                row_b.push(out[t][k2].div_elem(divisor));
                k2 = k2 + 1;
            }
            proof {
                assert(gva2[t as int].len() == w);
                assert(gvb2[t as int].len() == w);
                assert(row_a@ =~= divided_row_of(gva2[t as int], t as int));
                assert(row_b@ =~= row_div_all(gvb2[t as int], divisor));
            }
            norm_rows.push(row_a);
            norm_out.push(row_b);
            proof {
                let hyb_a1 = vecs_view(norm_rows@) + gva2.subrange(t + 1, h as int);
                assert forall|s: int| 0 <= s < h implies #[trigger] hyb_a1[s] == hyb_a0.update(
                    t as int,
                    divided_row_of(gva2[t as int], t as int),
                )[s] by {
                    if s < t {
                        assert(hyb_a1[s] == vecs_view(norm_rows@)[s]);
                        assert(hyb_a0[s] == vecs_view(norm_rows@.drop_last())[s]);
                        assert(vecs_view(norm_rows@)[s] == norm_rows@[s]@);
                        assert(vecs_view(norm_rows@.drop_last())[s] == norm_rows@.drop_last()[s]@);
                    } else if s == t {
                        assert(hyb_a1[s] == vecs_view(norm_rows@)[s]);
                        assert(vecs_view(norm_rows@)[s] == norm_rows@[s]@);
                    } else {
                        assert(hyb_a1[s] == gva2.subrange(t + 1, h as int)[s - t - 1]);
                        assert(hyb_a0[s] == gva2.subrange(t as int, h as int)[s - t]);
                    }
                }
                assert(vecs_view(norm_rows@) + gva2.subrange(t + 1, h as int) =~= hyb_a0.update(
                    t as int,
                    divided_row_of(gva2[t as int], t as int),
                ));
                let hyb_b1 = vecs_view(norm_out@) + gvb2.subrange(t + 1, h as int);
                assert forall|s: int| 0 <= s < h implies #[trigger] hyb_b1[s] == hyb_b0.update(
                    t as int,
                    row_div_all(gvb2[t as int], divisor),
                )[s] by {
                    if s < t {
                        assert(hyb_b1[s] == vecs_view(norm_out@)[s]);
                        assert(hyb_b0[s] == vecs_view(norm_out@.drop_last())[s]);
                        assert(vecs_view(norm_out@)[s] == norm_out@[s]@);
                        assert(vecs_view(norm_out@.drop_last())[s] == norm_out@.drop_last()[s]@);
                    } else if s == t {
                        assert(hyb_b1[s] == vecs_view(norm_out@)[s]);
                        assert(vecs_view(norm_out@)[s] == norm_out@[s]@);
                    } else {
                        assert(hyb_b1[s] == gvb2.subrange(t + 1, h as int)[s - t - 1]);
                        assert(hyb_b0[s] == gvb2.subrange(t as int, h as int)[s - t]);
                    }
                }
                assert(vecs_view(norm_out@) + gvb2.subrange(t + 1, h as int) =~= hyb_b0.update(
                    t as int,
                    row_div_all(gvb2[t as int], divisor),
                ));
                assert(norm_rec(hyb_a0, hyb_b0, t as int) == norm_rec(
                    vecs_view(norm_rows@) + gva2.subrange(t + 1, h as int),
                    vecs_view(norm_out@) + gvb2.subrange(t + 1, h as int),
                    t + 1,
                ));
            }
            t = t + 1;
        }
        proof {
            assert(vecs_view(norm_rows@) + gva2.subrange(h as int, h as int) =~= vecs_view(
                norm_rows@,
            ));
            assert(vecs_view(norm_out@) + gvb2.subrange(h as int, h as int) =~= vecs_view(
                norm_out@,
            ));
            assert(ntarget == Some((vecs_view(norm_rows@), vecs_view(norm_out@))));
        }
        let rows = norm_rows;
        let mut out = norm_out;
        let ghost gan = vecs_view(rows@);
        let ghost gbn = vecs_view(out@);
        let ghost btarget = back_rec(gan, gbn, h - 1);
        proof {
            assert(gan.len() == h);
            assert(inverse_spec(self@) == Some(btarget));
        }
        // backward elimination on the companion grid alone
        let mut i: usize = h;
        while i > 1
            invariant
                vg_ok(rows@, h as int, w as int),
                vg_ok(out@, h as int, w as int),
                gan == vecs_view(rows@),
                h == w,
                h >= 1,
                1 <= i <= h,
                back_rec(gan, vecs_view(out@), i - 1) == btarget,
            decreases i,
        {
            i = i - 1;
            let ghost gvb = vecs_view(out@);
            let mut new_out: Vec<Vec<T>> = Vec::new();
            let mut t: usize = 0;
            while t < h
                invariant
                    vg_ok(rows@, h as int, w as int),
                    vg_ok(out@, h as int, w as int),
                    gan == vecs_view(rows@),
                    gvb == vecs_view(out@),
                    i < h,
                    t <= h,
                    new_out@.len() == t,
                    forall|s: int|
                        0 <= s < t ==> (#[trigger] new_out@[s])@ == back_step(
                            gan,
                            gvb,
                            i as int,
                        )[s],
                    forall|s: int| 0 <= s < t ==> (#[trigger] new_out@[s])@.len() == w,
                    forall|s: int, k: int|
                        0 <= s < t && 0 <= k < w ==> (#[trigger] new_out@[s]@[k]).wf(),
                decreases h - t,
            {
                proof {
                    assert(gvb[t as int] == out@[t as int]@);
                    assert(gvb[i as int] == out@[i as int]@);
                    assert(gan[t as int] == rows@[t as int]@);
                }
                if t < i {
                    let ratio = rows[t][i];
                    let mut row_b: Vec<T> = Vec::new();
                    let mut k: usize = 0;
                    while k < w
                        invariant
                            vg_ok(out@, h as int, w as int),
                            gvb == vecs_view(out@),
                            gvb[t as int] == out@[t as int]@,
                            gvb[i as int] == out@[i as int]@,
                            i < h,
                            t < h,
                            ratio.wf(),
                            ratio == gan[t as int][i as int],
                            k <= w,
                            row_b@.len() == k,
                            forall|b: int|
                                0 <= b < k ==> #[trigger] row_b@[b] == elim_row_with(
                                    gvb,
                                    i as int,
                                    t as int,
                                    ratio,
                                )[b],
                            forall|b: int| 0 <= b < k ==> (#[trigger] row_b@[b]).wf(),
                        decreases w - k,
                    {
                        row_b.push(out[t][k].sub_elem(out[i][k].mul_elem(ratio)));
                        k = k + 1;
                    }
                    proof {
                        assert(gvb[t as int].len() == w);
                        assert(row_b@ =~= elim_row_with(gvb, i as int, t as int, ratio));
                    }
                    new_out.push(row_b);
                } else {
                    new_out.push(copy_row(&out[t]));
                }
                t = t + 1;
            }
            out = new_out;
            proof {
                assert forall|s: int| 0 <= s < h implies #[trigger] vecs_view(out@)[s]
                    == back_step(gan, gvb, i as int)[s] by {
                    assert(vecs_view(out@)[s] == out@[s]@);
                }
                assert(vecs_view(out@) =~= back_step(gan, gvb, i as int));
                assert(back_rec(gan, gvb, i as int) == back_rec(
                    gan,
                    vecs_view(out@),
                    i - 1,
                ));
            }
        }
        proof {
            assert(back_rec(gan, vecs_view(out@), 0) == vecs_view(out@));
        }
        let m = Matrix::from_grid(out);
        proof {
            mat_from_grid(out@, h as int, w as int);
        }
        Ok(m)
    }
}

} // verus!
