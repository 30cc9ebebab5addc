//! `i64` as a matrix element: the ring of integers with wrapping
//! (two's-complement) arithmetic.

use vstd::arithmetic::div_mod::{
    lemma_fundamental_div_mod, lemma_mod_equivalence, lemma_mod_multiples_basic, lemma_small_mod,
};
use vstd::prelude::*;
use vstd::wrapping::i64_specs;

use crate::elem::ToMatrix;

verus! {

/// The number of distinct `i64` values, the modulus of wrapping arithmetic.
pub open spec fn i64_span() -> int {
    0x1_0000_0000_0000_0000
}

/// `signed_crop` keeps the residue class: it changes its argument by a
/// multiple of the span.
proof fn lemma_crop_residue(x: int)
    ensures
        (i64_specs::signed_crop(x) - x) % i64_span() == 0,
{
    let m: int = i64_span();
    lemma_fundamental_div_mod(x, m);
    if x % m > i64::MAX as int {
        lemma_mod_multiples_basic(-(x / m) - 1, m);
    } else {
        lemma_mod_multiples_basic(-(x / m), m);
    }
}

/// Arguments in the same residue class crop to the same value.
proof fn lemma_crop_congruent(x: int, y: int)
    requires
        (x - y) % i64_span() == 0,
    ensures
        i64_specs::signed_crop(x) == i64_specs::signed_crop(y),
{
    lemma_mod_equivalence(x, y, i64_span());
}

/// Cropping a value already in range leaves it unchanged.
proof fn lemma_crop_small(x: int)
    requires
        i64::MIN <= x <= i64::MAX,
    ensures
        i64_specs::signed_crop(x) == x,
{
    let m: int = i64_span();
    if x >= 0 {
        lemma_small_mod(x as nat, m as nat);
    } else {
        lemma_mod_multiples_basic(1, m);
        lemma_mod_equivalence(x + m, x, m);
        lemma_small_mod((x + m) as nat, m as nat);
    }
}

impl ToMatrix for i64 {
    open spec fn wf(self) -> bool {
        true
    }

    open spec fn zero_val() -> i64 {
        0
    }

    open spec fn one_val() -> i64 {
        1
    }

    open spec fn add_val(self, other: i64) -> i64 {
        i64_specs::signed_crop(self + other)
    }

    open spec fn sub_val(self, other: i64) -> i64 {
        i64_specs::signed_crop(self + i64_specs::signed_crop(-other))
    }

    open spec fn mul_val(self, other: i64) -> i64 {
        i64_specs::signed_crop(self * other)
    }

    open spec fn neg_val(self) -> i64 {
        i64_specs::signed_crop(-self)
    }

    fn zero_elem() -> (r: i64) {
        0
    }

    fn one_elem() -> (r: i64) {
        1
    }

    fn add_elem(self, other: i64) -> (r: i64) {
        proof {
            if i64::MIN <= self + other <= i64::MAX {
                lemma_crop_small(self + other);
            } else if self + other > i64::MAX {
                lemma_crop_congruent(self + other, self + other - i64_span());
                lemma_crop_small(self + other - i64_span());
                lemma_mod_multiples_basic(-1, i64_span());
            } else {
                lemma_crop_congruent(self + other, self + other + i64_span());
                lemma_crop_small(self + other + i64_span());
                lemma_mod_multiples_basic(1, i64_span());
            }
        }
        self.wrapping_add(other)
    }

    fn sub_elem(self, other: i64) -> (r: i64) {
        self.add_elem(other.neg_elem())
    }

    fn mul_elem(self, other: i64) -> (r: i64) {
        self.wrapping_mul(other)
    }

    fn neg_elem(self) -> (r: i64) {
        proof {
            if self == i64::MIN {
                lemma_crop_congruent(-(i64::MIN as int), -(i64::MIN as int) - i64_span());
                lemma_crop_small(-(i64::MIN as int) - i64_span());
                lemma_mod_multiples_basic(1, i64_span());
            } else {
                lemma_crop_small(-self);
            }
        }
        if self == i64::MIN {
            i64::MIN
        } else {
            -self
        }
    }

    proof fn lemma_identities_wf() {
    }

    proof fn lemma_ops_wf(a: i64, b: i64) {
    }

    proof fn lemma_add_comm(a: i64, b: i64) {
    }

    proof fn lemma_add_assoc(a: i64, b: i64, c: i64) {
        lemma_crop_residue(a + b);
        lemma_crop_congruent(i64_specs::signed_crop(a + b) + c, a + b + c);
        lemma_crop_residue(b + c);
        lemma_crop_congruent(a + i64_specs::signed_crop(b + c), a + b + c);
    }

    proof fn lemma_add_zero(a: i64) {
        lemma_crop_small(a as int);
    }

    proof fn lemma_add_neg(a: i64) {
        lemma_crop_residue(-a);
        lemma_crop_congruent(a + i64_specs::signed_crop(-a), 0);
        lemma_crop_small(0);
    }

    proof fn lemma_sub_def(a: i64, b: i64) {
    }

    proof fn lemma_mul_comm(a: i64, b: i64) {
    }

    proof fn lemma_mul_zero(a: i64) {
        lemma_crop_small(0);
    }

    proof fn lemma_mul_one(a: i64) {
        lemma_crop_small(a as int);
    }
}

} // verus!
