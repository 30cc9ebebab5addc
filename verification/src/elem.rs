//! The capability interface a type must offer to be a matrix element.
//!
//! [`ToMatrix`] describes ring-like arithmetic: a well-formedness
//! predicate, specification-level operations, executable operations that
//! implement them, and, as proof obligations that every implementation
//! discharges, the algebraic laws the matrix proofs rest on.
//! [`FieldToMatrix`] extends it with equality testing and division for
//! the row-reduction algorithms. [`FromElem`] is the per-element
//! conversion behind matrix type conversion.

use vstd::prelude::*;

verus! {

/// A matrix element: a value with ring-like arithmetic, whose executable
/// operations match their specification-level counterparts.
///
/// `wf` is the set of values the arithmetic is about; every operation
/// maps well-formed values to well-formed values, and the laws below
/// hold on well-formed values.
pub trait ToMatrix: Sized + Copy {
    /// Which values of the carrier type denote ring elements.
    spec fn wf(self) -> bool;

    /// The additive identity.
    spec fn zero_val() -> Self;

    /// The multiplicative identity.
    spec fn one_val() -> Self;

    /// Addition, at the specification level.
    spec fn add_val(self, other: Self) -> Self;

    /// Subtraction, at the specification level.
    spec fn sub_val(self, other: Self) -> Self;

    /// Multiplication, at the specification level.
    spec fn mul_val(self, other: Self) -> Self;

    /// Additive inverse, at the specification level.
    spec fn neg_val(self) -> Self;

    /// Returns the additive identity.
    fn zero_elem() -> (r: Self)
        ensures
            r == Self::zero_val(),
            r.wf(),
    ;

    /// Returns the multiplicative identity.
    fn one_elem() -> (r: Self)
        ensures
            r == Self::one_val(),
            r.wf(),
    ;

    /// Adds two elements.
    fn add_elem(self, other: Self) -> (r: Self)
        requires
            self.wf(),
            other.wf(),
        ensures
            r == self.add_val(other),
            r.wf(),
    ;

    /// Subtracts `other` from `self`.
    fn sub_elem(self, other: Self) -> (r: Self)
        requires
            self.wf(),
            other.wf(),
        ensures
            r == self.sub_val(other),
            r.wf(),
    ;

    /// Multiplies two elements.
    fn mul_elem(self, other: Self) -> (r: Self)
        requires
            self.wf(),
            other.wf(),
        ensures
            r == self.mul_val(other),
            r.wf(),
    ;

    /// Negates an element.
    fn neg_elem(self) -> (r: Self)
        requires
            self.wf(),
        ensures
            r == self.neg_val(),
            r.wf(),
    ;

    /// The identities are well formed.
    proof fn lemma_identities_wf()
        ensures
            Self::zero_val().wf(),
            Self::one_val().wf(),
    ;

    /// The results of the operations on well-formed values are well
    /// formed.
    proof fn lemma_ops_wf(a: Self, b: Self)
        requires
            a.wf(),
            b.wf(),
        ensures
            a.add_val(b).wf(),
            a.sub_val(b).wf(),
            a.mul_val(b).wf(),
            a.neg_val().wf(),
    ;

    /// Addition is commutative.
    proof fn lemma_add_comm(a: Self, b: Self)
        requires
            a.wf(),
            b.wf(),
        ensures
            a.add_val(b) == b.add_val(a),
    ;

    /// Addition is associative.
    proof fn lemma_add_assoc(a: Self, b: Self, c: Self)
        requires
            a.wf(),
            b.wf(),
            c.wf(),
        ensures
            a.add_val(b).add_val(c) == a.add_val(b.add_val(c)),
    ;

    /// The additive identity is neutral.
    proof fn lemma_add_zero(a: Self)
        requires
            a.wf(),
        ensures
            a.add_val(Self::zero_val()) == a,
    ;

    /// Every element cancels with its additive inverse.
    proof fn lemma_add_neg(a: Self)
        requires
            a.wf(),
        ensures
            a.add_val(a.neg_val()) == Self::zero_val(),
    ;

    /// Subtraction is addition of the additive inverse.
    proof fn lemma_sub_def(a: Self, b: Self)
        requires
            a.wf(),
            b.wf(),
        ensures
            a.sub_val(b) == a.add_val(b.neg_val()),
    ;

    /// Multiplication is commutative.
    proof fn lemma_mul_comm(a: Self, b: Self)
        requires
            a.wf(),
            b.wf(),
        ensures
            a.mul_val(b) == b.mul_val(a),
    ;

    /// The additive identity absorbs multiplication.
    proof fn lemma_mul_zero(a: Self)
        requires
            a.wf(),
        ensures
            a.mul_val(Self::zero_val()) == Self::zero_val(),
    ;

    /// The multiplicative identity is neutral.
    proof fn lemma_mul_one(a: Self)
        requires
            a.wf(),
        ensures
            a.mul_val(Self::one_val()) == a,
    ;
}

/// A matrix element over which the row-reduction algorithms run: a
/// [`ToMatrix`] element with decidable equality and a total executable
/// division.
///
/// Division is total as an operation; only its values at nonzero divisors
/// are meaningful to the algorithms, which test divisors first.
pub trait FieldToMatrix: ToMatrix {
    /// Division, at the specification level.
    spec fn div_val(self, other: Self) -> Self;

    /// Tests two elements for equality.
    fn eq_elem(self, other: Self) -> (r: bool)
        requires
            self.wf(),
            other.wf(),
        ensures
            r == (self == other),
    ;

    /// Divides `self` by `other`.
    fn div_elem(self, other: Self) -> (r: Self)
        requires
            self.wf(),
            other.wf(),
        ensures
            r == self.div_val(other),
            r.wf(),
    ;
}

/// Per-element conversion from another element type, behind
/// [`crate::matrix::MatrixFrom`].
pub trait FromElem<T: ToMatrix>: ToMatrix {
    /// The conversion, at the specification level.
    spec fn from_val(t: T) -> Self;

    /// Converts a value of `T` into a value of `Self`.
    fn from_elem(t: T) -> (r: Self)
        requires
            t.wf(),
        ensures
            r == Self::from_val(t),
            r.wf(),
    ;
}

} // verus!
