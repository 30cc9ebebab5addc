//! Algebraic laws of the matrix operations, proved from the element
//! laws of [`ToMatrix`]: addition is associative and commutative, a
//! matrix cancels with its negation, the identity matrix is neutral for
//! multiplication, and transposition is an involution.

use vstd::prelude::*;

use crate::elem::{FieldToMatrix, ToMatrix};
use crate::matrix::{
    add_of, col_of, det_of, dot_of, dot_prefix, identity_of, mat_square, mat_wf, mul_of, neg_of,
    transpose_of, zero_of,
};
use crate::reduction::det_field_rec;

verus! {

/// Matrix addition is associative: `(A + B) + C == A + (B + C)` for
/// matrices of equal dimensions.
pub proof fn lemma_matrix_add_assoc<T: ToMatrix>(a: Seq<Seq<T>>, b: Seq<Seq<T>>, c: Seq<Seq<T>>)
    requires
        mat_wf(a),
        mat_wf(b),
        mat_wf(c),
        a.len() == b.len(),
        b.len() == c.len(),
        a[0].len() == b[0].len(),
        b[0].len() == c[0].len(),
    ensures
        add_of(add_of(a, b), c) == add_of(a, add_of(b, c)),
{
    let l = add_of(add_of(a, b), c);
    let r = add_of(a, add_of(b, c));
    assert forall|i: int| 0 <= i < a.len() implies l[i] =~= r[i] by {
        assert forall|j: int| 0 <= j < a[0].len() implies l[i][j] == r[i][j] by {
            assert(add_of(a, b)[i][j] == a[i][j].add_val(b[i][j]));
            assert(add_of(b, c)[i][j] == b[i][j].add_val(c[i][j]));
            T::lemma_add_assoc(a[i][j], b[i][j], c[i][j]);
        }
    }
    assert(l =~= r);
}

/// Matrix addition is commutative: `A + B == B + A` for matrices of
/// equal dimensions.
pub proof fn lemma_matrix_add_comm<T: ToMatrix>(a: Seq<Seq<T>>, b: Seq<Seq<T>>)
    requires
        mat_wf(a),
        mat_wf(b),
        a.len() == b.len(),
        a[0].len() == b[0].len(),
    ensures
        add_of(a, b) == add_of(b, a),
{
    let l = add_of(a, b);
    let r = add_of(b, a);
    assert forall|i: int| 0 <= i < a.len() implies l[i] =~= r[i] by {
        assert forall|j: int| 0 <= j < a[0].len() implies l[i][j] == r[i][j] by {
            T::lemma_add_comm(a[i][j], b[i][j]);
        }
    }
    assert(l =~= r);
}

/// A matrix cancels with its negation: `A + (-A)` is the zero matrix of
/// the same dimensions.
pub proof fn lemma_matrix_add_neg<T: ToMatrix>(a: Seq<Seq<T>>)
    requires
        mat_wf(a),
    ensures
        add_of(a, neg_of(a)) == zero_of::<T>(a.len(), a[0].len()),
{
    let l = add_of(a, neg_of(a));
    let r = zero_of::<T>(a.len(), a[0].len());
    assert forall|i: int| 0 <= i < a.len() implies l[i] =~= r[i] by {
        assert forall|j: int| 0 <= j < a[0].len() implies l[i][j] == r[i][j] by {
            assert(neg_of(a)[i][j] == a[i][j].neg_val());
            T::lemma_add_neg(a[i][j]);
        }
    }
    assert(l =~= r);
}

/// The inner product of a row of well-formed entries with a unit column
/// (the identity at position `j`) selects the row's entry `j`.
proof fn lemma_dot_unit_col<T: ToMatrix>(r: Seq<T>, c: Seq<T>, j: int, k: int)
    requires
        0 <= k < r.len(),
        c.len() == r.len(),
        0 <= j < r.len(),
        forall|t: int| 0 <= t < r.len() ==> (#[trigger] r[t]).wf(),
        forall|t: int|
            0 <= t < c.len() ==> #[trigger] c[t] == (if t == j {
                T::one_val()
            } else {
                T::zero_val()
            }),
    ensures
        dot_prefix(r, c, k) == (if j <= k {
            r[j]
        } else {
            T::zero_val()
        }),
        dot_prefix(r, c, k).wf(),
    decreases k,
{
    T::lemma_identities_wf();
    if k <= 0 {
        if j == 0 {
            T::lemma_mul_one(r[0]);
        } else {
            T::lemma_mul_zero(r[0]);
        }
    } else {
        lemma_dot_unit_col(r, c, j, k - 1);
        let prev = dot_prefix(r, c, k - 1);
        if k == j {
            T::lemma_mul_one(r[k]);
            T::lemma_add_comm(T::zero_val(), r[k]);
            T::lemma_add_zero(r[k]);
        } else {
            T::lemma_mul_zero(r[k]);
            T::lemma_add_zero(prev);
        }
    }
}

/// The inner product of a unit row (the identity at position `j`) with a
/// column of well-formed entries selects the column's entry `j`.
proof fn lemma_dot_unit_row<T: ToMatrix>(r: Seq<T>, c: Seq<T>, j: int, k: int)
    requires
        0 <= k < r.len(),
        c.len() == r.len(),
        0 <= j < r.len(),
        forall|t: int| 0 <= t < c.len() ==> (#[trigger] c[t]).wf(),
        forall|t: int|
            0 <= t < r.len() ==> #[trigger] r[t] == (if t == j {
                T::one_val()
            } else {
                T::zero_val()
            }),
    ensures
        dot_prefix(r, c, k) == (if j <= k {
            c[j]
        } else {
            T::zero_val()
        }),
        dot_prefix(r, c, k).wf(),
    decreases k,
{
    T::lemma_identities_wf();
    if k <= 0 {
        if j == 0 {
            T::lemma_mul_comm(T::one_val(), c[0]);
            T::lemma_mul_one(c[0]);
        } else {
            T::lemma_mul_comm(T::zero_val(), c[0]);
            T::lemma_mul_zero(c[0]);
        }
    } else {
        lemma_dot_unit_row(r, c, j, k - 1);
        let prev = dot_prefix(r, c, k - 1);
        if k == j {
            T::lemma_mul_comm(T::one_val(), c[k]);
            T::lemma_mul_one(c[k]);
            T::lemma_add_comm(T::zero_val(), c[k]);
            T::lemma_add_zero(c[k]);
        } else {
            T::lemma_mul_comm(T::zero_val(), c[k]);
            T::lemma_mul_zero(c[k]);
            T::lemma_add_zero(prev);
        }
    }
}

/// The identity matrix is neutral on the right: `A * identity(A.width())
/// == A` for every well-formed matrix.
pub proof fn lemma_mul_identity_right<T: ToMatrix>(a: Seq<Seq<T>>)
    requires
        mat_wf(a),
    ensures
        mul_of(a, identity_of(a[0].len())) == a,
{
    let w = a[0].len();
    let ident = identity_of::<T>(w);
    let l = mul_of(a, ident);
    assert forall|i: int| 0 <= i < a.len() implies l[i] =~= a[i] by {
        assert(a[i].len() == w);
        assert forall|j: int| 0 <= j < w implies l[i][j] == a[i][j] by {
            let c = col_of(ident, j);
            assert(l[i][j] == dot_of(a[i], c));
            assert forall|t: int|
                0 <= t < c.len() implies #[trigger] c[t] == (if t == j {
                    T::one_val()
                } else {
                    T::zero_val()
                }) by {
                assert(c[t] == ident[t][j]);
            }
            lemma_dot_unit_col(a[i], c, j, w - 1);
        }
    }
    assert(l =~= a);
}

/// The identity matrix is neutral on the left: `identity(A.height()) * A
/// == A` for every well-formed matrix.
pub proof fn lemma_mul_identity_left<T: ToMatrix>(a: Seq<Seq<T>>)
    requires
        mat_wf(a),
    ensures
        mul_of(identity_of(a.len()), a) == a,
{
    let h = a.len();
    let ident = identity_of::<T>(h);
    let l = mul_of(ident, a);
    assert(ident[0].len() == h);
    assert forall|i: int| 0 <= i < h implies l[i] =~= a[i] by {
        assert(a[i].len() == a[0].len());
        assert(l[i].len() == a[0].len());
        assert forall|j: int| 0 <= j < a[0].len() implies l[i][j] == a[i][j] by {
            let c = col_of(a, j);
            assert(l[i][j] == dot_of(ident[i], c));
            assert(ident[i].len() == h);
            assert(c.len() == h);
            assert forall|t: int|
                0 <= t < h implies #[trigger] ident[i][t] == (if t == i {
                    T::one_val()
                } else {
                    T::zero_val()
                }) by {}
            assert forall|t: int| 0 <= t < c.len() implies (#[trigger] c[t]).wf() by {
                assert(c[t] == a[t][j]);
            }
            lemma_dot_unit_row(ident[i], c, i, h - 1);
            assert(c[i] == a[i][j]);
        }
    }
    assert(l =~= a);
}

/// For a matrix of one entry, the cofactor determinant and the
/// elimination determinant agree: both are the sole entry.
pub proof fn lemma_det_agreement_single<T: FieldToMatrix>(a: Seq<Seq<T>>)
    requires
        mat_wf(a),
        mat_square(a),
        a.len() == 1,
    ensures
        det_of(a) == a[0][0],
        det_field_rec(a, 0, T::one_val()) == a[0][0],
{
    T::lemma_identities_wf();
    T::lemma_mul_comm(T::one_val(), a[0][0]);
    T::lemma_mul_one(a[0][0]);
    assert(det_field_rec(a, 0, T::one_val()) == crate::reduction::diag_prefix(
        a,
        T::one_val(),
        1,
    ));
    assert(crate::reduction::diag_prefix(a, T::one_val(), 0) == T::one_val());
}

/// Transposition is an involution: `A.transpose().transpose() == A` for
/// every well-formed matrix.
pub proof fn lemma_transpose_involutive<T: ToMatrix>(a: Seq<Seq<T>>)
    requires
        mat_wf(a),
    ensures
        transpose_of(transpose_of(a)) == a,
{
    let t = transpose_of(a);
    let tt = transpose_of(t);
    assert forall|i: int| 0 <= i < a.len() implies tt[i] =~= a[i] by {
        assert(a[i].len() == a[0].len());
        assert forall|j: int| 0 <= j < a[i].len() implies tt[i][j] == a[i][j] by {
            assert(tt[i][j] == t[j][i]);
            assert(t[j][i] == a[i][j]);
        }
    }
    assert(tt =~= a);
}

} // verus!
