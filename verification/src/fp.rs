//! A prime-field matrix element: the integers modulo the prime 65521.
//!
//! Unlike machine integers, `Fp` offers exact division, so every
//! field-only matrix algorithm (row reduction, inversion) runs on it.
//! Division is defined through the power `b^(p-2)`, computed and
//! specified by the same repeated-multiplication formula; at a nonzero
//! divisor it yields the multiplicative inverse.

use vstd::arithmetic::div_mod::{
    lemma_add_mod_noop, lemma_add_mod_noop_right, lemma_fundamental_div_mod, lemma_mod_equivalence,
    lemma_mod_multiples_basic, lemma_mod_self_0, lemma_small_mod,
};
use vstd::prelude::*;

use crate::elem::{FieldToMatrix, FromElem, ToMatrix};

verus! {

/// The modulus: a prime, so every nonzero residue is invertible.
pub open spec fn fp_p() -> int {
    65521
}

/// A residue modulo [`fp_p`]. Well-formed values are canonical: the
/// stored representative is below the modulus.
#[derive(Clone, Copy, Debug, PartialEq, Eq, Structural)]
pub struct Fp {
    /// The stored representative of the residue.
    pub v: u64,
}

/// The canonical residue of an arbitrary integer.
pub open spec fn fp_of_int(x: int) -> Fp {
    Fp { v: (x % fp_p()) as u64 }
}

/// `b^e` by repeated multiplication, reduced after every step.
pub open spec fn fp_pow(b: int, e: nat) -> int
    decreases e,
{
    if e == 0 {
        1
    } else {
        (b * fp_pow(b, (e - 1) as nat)) % fp_p()
    }
}

/// The canonical residue of a negative integer, written over the residue
/// of its magnitude.
proof fn lemma_mod_of_negative(x: int)
    requires
        x < 0,
    ensures
        (-x) % fp_p() == 0 ==> x % fp_p() == 0,
        (-x) % fp_p() != 0 ==> x % fp_p() == fp_p() - ((-x) % fp_p()),
{
    let p: int = fp_p();
    let mag = -x;
    lemma_fundamental_div_mod(mag, p);
    let q = mag / p;
    let r = mag % p;
    if r == 0 {
        lemma_mod_multiples_basic(-q, p);
    } else {
        lemma_mod_multiples_basic(-(q + 1), p);
        lemma_mod_equivalence(x, p - r, p);
        lemma_small_mod((p - r) as nat, p as nat);
    }
}

impl Fp {
    /// The canonical residue of `x`, for building `Fp` values from
    /// ordinary integers, negative ones included.
    pub fn new(x: i64) -> (r: Fp)
        ensures
            r == fp_of_int(x as int),
            r.wf(),
    {
        if x >= 0 {
            let v = (x as u64) % 65521;
            proof {
                lemma_small_mod((x as int % fp_p()) as nat, fp_p() as nat);
            }
            Fp { v }
        } else {
            let mag: u64 = (-(x as i128)) as u64;
            let r0 = mag % 65521;
            proof {
                lemma_mod_of_negative(x as int);
            }
            if r0 == 0 {
                Fp { v: 0 }
            } else {
                Fp { v: 65521 - r0 }
            }
        }
    }
}

impl ToMatrix for Fp {
    open spec fn wf(self) -> bool {
        self.v < 65521
    }

    open spec fn zero_val() -> Fp {
        Fp { v: 0 }
    }

    open spec fn one_val() -> Fp {
        Fp { v: 1 }
    }

    open spec fn add_val(self, other: Fp) -> Fp {
        Fp { v: ((self.v + other.v) % fp_p()) as u64 }
    }

    open spec fn sub_val(self, other: Fp) -> Fp {
        self.add_val(other.neg_val())
    }

    open spec fn mul_val(self, other: Fp) -> Fp {
        Fp { v: ((self.v * other.v) % fp_p()) as u64 }
    }

    open spec fn neg_val(self) -> Fp {
        Fp { v: ((fp_p() - (self.v as int % fp_p())) % fp_p()) as u64 }
    }

    fn zero_elem() -> (r: Fp) {
        Fp { v: 0 }
    }

    fn one_elem() -> (r: Fp) {
        Fp { v: 1 }
    }

    fn add_elem(self, other: Fp) -> (r: Fp) {
        Fp { v: (self.v + other.v) % 65521 }
    }

    fn sub_elem(self, other: Fp) -> (r: Fp) {
        self.add_elem(other.neg_elem())
    }

    fn mul_elem(self, other: Fp) -> (r: Fp) {
        proof {
            assert(self.v * other.v < 65521 * 65521) by (nonlinear_arith)
                requires
                    self.v < 65521,
                    other.v < 65521,
            ;
        }
        Fp { v: (self.v * other.v) % 65521 }
    }

    fn neg_elem(self) -> (r: Fp) {
        proof {
            lemma_small_mod(self.v as nat, fp_p() as nat);
            if self.v == 0 {
                lemma_mod_self_0(fp_p());
            } else {
                lemma_small_mod((fp_p() - self.v) as nat, fp_p() as nat);
            }
        }
        if self.v == 0 {
            Fp { v: 0 }
        } else {
            Fp { v: 65521 - self.v }
        }
    }

    proof fn lemma_identities_wf() {
    }

    proof fn lemma_ops_wf(a: Fp, b: Fp) {
    }

    proof fn lemma_add_comm(a: Fp, b: Fp) {
    }

    proof fn lemma_add_assoc(a: Fp, b: Fp, c: Fp) {
        let p: int = fp_p();
        lemma_small_mod(c.v as nat, p as nat);
        lemma_add_mod_noop(a.v + b.v, c.v as int, p);
        lemma_add_mod_noop_right(a.v as int, b.v + c.v, p);
    }

    proof fn lemma_add_zero(a: Fp) {
        lemma_small_mod(a.v as nat, fp_p() as nat);
    }

    proof fn lemma_add_neg(a: Fp) {
        let p: int = fp_p();
        lemma_small_mod(a.v as nat, p as nat);
        if a.v == 0 {
            lemma_mod_self_0(p);
        } else {
            lemma_small_mod((p - a.v) as nat, p as nat);
            lemma_mod_self_0(p);
        }
    }

    proof fn lemma_sub_def(a: Fp, b: Fp) {
    }

    proof fn lemma_mul_comm(a: Fp, b: Fp) {
    }

    proof fn lemma_mul_zero(a: Fp) {
    }

    proof fn lemma_mul_one(a: Fp) {
        lemma_small_mod(a.v as nat, fp_p() as nat);
    }
}

impl FieldToMatrix for Fp {
    open spec fn div_val(self, other: Fp) -> Fp {
        Fp { v: ((self.v * fp_pow(other.v as int, (fp_p() - 2) as nat)) % fp_p()) as u64 }
    }

    fn eq_elem(self, other: Fp) -> (r: bool) {
        self.v == other.v
    }

    fn div_elem(self, other: Fp) -> (r: Fp) {
        let b = other.v;
        let mut acc: u64 = 1;
        let mut i: u64 = 0;
        while i < 65519
            invariant
                b == other.v,
                b < 65521,
                i <= 65519,
                acc as int == fp_pow(b as int, i as nat),
                acc < 65521,
            decreases 65519 - i,
        {
            proof {
                assert(acc * b < 65521 * 65521) by (nonlinear_arith)
                    requires
                        acc < 65521,
                        b < 65521,
                ;
            }
            proof {
                assert(acc as int * b as int == b as int * acc as int) by (nonlinear_arith);
            }
            acc = (acc * b) % 65521;
            i = i + 1;
        }
        proof {
            assert(self.v * acc < 65521 * 65521) by (nonlinear_arith)
                requires
                    self.v < 65521,
                    acc < 65521,
            ;
        }
        Fp { v: (self.v * acc) % 65521 }
    }
}

impl FromElem<i64> for Fp {
    open spec fn from_val(t: i64) -> Fp {
        fp_of_int(t as int)
    }

    fn from_elem(t: i64) -> (r: Fp) {
        Fp::new(t)
    }
}

} // verus!
