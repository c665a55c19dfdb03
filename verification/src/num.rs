//! Single precision numbers, held as their bit patterns.
//!
//! Coordinates, radii and thresholds are IEEE 754 binary32 values. The library
//! never does arithmetic on them; it only compares and clamps, and comparing
//! needs nothing but the bits. `Num::val` gives each pattern its exact value in
//! units of 2^-149, the smallest step a single precision number can take, so
//! every comparison below is stated over whole numbers.

use vstd::prelude::*;

verus! {

/// The bits of 0.
pub const ZERO_BITS: u32 = 0;

/// The bits of 1.
pub const ONE_BITS: u32 = 0x3f80_0000;

/// The bits of one half.
pub const HALF_BITS: u32 = 0x3f00_0000;

/// A single precision number.
#[derive(Clone, Copy, Debug, PartialEq, Eq, Structural)]
pub struct Num {
    pub bits: u32,
}

/// The pattern without its sign bit.
pub open spec fn unsigned_bits(bits: u32) -> nat {
    (bits % 0x8000_0000) as nat
}

/// The magnitude of a pattern without sign, in units of 2^-149.
///
/// Infinity follows the same formula, which places it above every finite number.
pub open spec fn magnitude(m: nat) -> nat {
    let exponent = m / 0x80_0000;
    let fraction = m % 0x80_0000;
    if exponent == 0 {
        fraction
    } else {
        (0x80_0000 + fraction) * vstd::arithmetic::power2::pow2((exponent - 1) as nat)
    }
}

impl Num {
    /// The number with the given bits.
    pub fn of(bits: u32) -> (r: Num)
        ensures
            r.bits == bits,
    {
        Num { bits }
    }

    /// Whether the pattern stands for no number at all.
    pub open spec fn is_nan_spec(self) -> bool {
        unsigned_bits(self.bits) > 0x7f80_0000
    }

    /// The exact value, in units of 2^-149.
    pub open spec fn val(self) -> int {
        if self.bits >= 0x8000_0000 {
            -(magnitude(unsigned_bits(self.bits)) as int)
        } else {
            magnitude(unsigned_bits(self.bits)) as int
        }
    }

    /// `self < other`; false as soon as one side is not a number.
    pub open spec fn lt(self, other: Num) -> bool {
        !self.is_nan_spec() && !other.is_nan_spec() && self.val() < other.val()
    }

    /// `self <= other`; false as soon as one side is not a number.
    pub open spec fn le(self, other: Num) -> bool {
        !self.is_nan_spec() && !other.is_nan_spec() && self.val() <= other.val()
    }

    /// `self` moved to the nearer end of `lo..=hi` when it lies outside.
    pub open spec fn clamp_spec(self, lo: Num, hi: Num) -> Num {
        if self.lt(lo) {
            lo
        } else if hi.lt(self) {
            hi
        } else {
            self
        }
    }

    pub fn is_nan(self) -> (r: bool)
        ensures
            r == self.is_nan_spec(),
    {
        self.bits % 0x8000_0000 > 0x7f80_0000
    }

    /// `self < other`, as the machine compares single precision numbers.
    pub fn less(self, other: Num) -> (r: bool)
        ensures
            r == self.lt(other),
    {
        let a: u32 = self.bits % 0x8000_0000;
        let b: u32 = other.bits % 0x8000_0000;
        let a_neg: bool = self.bits >= 0x8000_0000;
        let b_neg: bool = other.bits >= 0x8000_0000;
        proof {
            lemma_magnitude_order(a as nat, b as nat);
            lemma_magnitude_order(b as nat, a as nat);
            lemma_magnitude_zero(a as nat);
            lemma_magnitude_zero(b as nat);
        }
        if a > 0x7f80_0000 || b > 0x7f80_0000 {
            false
        } else if a_neg && b_neg {
            b < a
        } else if a_neg {
            a > 0 || b > 0
        } else if b_neg {
            false
        } else {
            a < b
        }
    }

    /// `self <= other`, as the machine compares single precision numbers.
    pub fn at_most(self, other: Num) -> (r: bool)
        ensures
            r == self.le(other),
    {
        if self.is_nan() || other.is_nan() {
            false
        } else {
            !other.less(self)
        }
    }

    /// Whether both stand for the same number; positive and negative zero do.
    pub fn same(self, other: Num) -> (r: bool)
        ensures
            r == (!self.is_nan_spec() && !other.is_nan_spec() && self.val() == other.val()),
    {
        self.at_most(other) && other.at_most(self)
    }

    /// Clamps to `lo..=hi`. A pattern that is no number is left as it is.
    pub fn clamp(self, lo: Num, hi: Num) -> (r: Num)
        requires
            lo.le(hi),
        ensures
            r == self.clamp_spec(lo, hi),
            !self.is_nan_spec() ==> lo.le(r) && r.le(hi),
    {
        if self.less(lo) {
            lo
        } else if hi.less(self) {
            hi
        } else {
            self
        }
    }
}

/// A larger pattern without sign has a larger magnitude.
pub proof fn lemma_magnitude_order(a: nat, b: nat)
    ensures
        a < b ==> magnitude(a) < magnitude(b),
{
    if a < b {
        let ea = a / 0x80_0000;
        let eb = b / 0x80_0000;
        let fa = a % 0x80_0000;
        let fb = b % 0x80_0000;
        assert(ea <= eb);
        if ea == eb {
            assert(fa < fb);
            if ea > 0 {
                let p = vstd::arithmetic::power2::pow2((ea - 1) as nat);
                vstd::arithmetic::power2::lemma_pow2_pos((ea - 1) as nat);
                assert((0x80_0000 + fa) * p < (0x80_0000 + fb) * p) by (nonlinear_arith)
                    requires
                        fa < fb,
                        p > 0,
                ;
            }
        } else {
            let q = vstd::arithmetic::power2::pow2((eb - 1) as nat);
            vstd::arithmetic::power2::lemma_pow2_pos((eb - 1) as nat);
            assert((0x80_0000 + fb) * q >= 0x80_0000 * q) by (nonlinear_arith)
                requires
                    q > 0,
                    fb >= 0,
            ;
            if ea > 0 {
                let p = vstd::arithmetic::power2::pow2((ea - 1) as nat);
                vstd::arithmetic::power2::lemma_pow2_pos((ea - 1) as nat);
                vstd::arithmetic::power2::lemma_pow2_adds((ea - 1) as nat, 1);
                vstd::arithmetic::power2::lemma2_to64();
                assert(vstd::arithmetic::power2::pow2(ea as nat) == 2 * p) by (nonlinear_arith)
                    requires
                        vstd::arithmetic::power2::pow2((ea - 1) as nat) * vstd::arithmetic::power2::pow2(1) == vstd::arithmetic::power2::pow2(ea as nat),
                        vstd::arithmetic::power2::pow2(1) == 2,
                        p == vstd::arithmetic::power2::pow2((ea - 1) as nat),
                ;
                if ea < eb - 1 {
                    vstd::arithmetic::power2::lemma_pow2_strictly_increases(ea as nat, (eb - 1) as nat);
                }
                assert((0x80_0000 + fa) * p < 0x80_0000 * q) by (nonlinear_arith)
                    requires
                        fa < 0x80_0000,
                        p > 0,
                        q >= 2 * p,
                ;
            }
        }
    }
}

/// Zero lies below one.
pub proof fn lemma_unit_interval()
    ensures
        (Num { bits: ZERO_BITS }).le(Num { bits: ONE_BITS }),
{
    lemma_magnitude_order(0, ONE_BITS as nat);
}

/// Only the empty pattern has magnitude zero.
pub proof fn lemma_magnitude_zero(a: nat)
    ensures
        magnitude(a) == 0 <==> a == 0,
{
    lemma_magnitude_order(0, a);
}

/// Figures are ordered as their patterns are: from zero up in the order of the patterns,
/// below zero against it, every negative one below every positive one; zero has two
/// patterns, and what is no number is above and below nothing.
pub proof fn law_figures_are_ordered_as_their_patterns(a: Num, b: Num)
    ensures
        a.bits < 0x8000_0000 && b.bits < 0x8000_0000 && b.bits <= 0x7f80_0000 ==> (a.lt(b) <==> a.bits
            < b.bits),
        0x8000_0000 <= a.bits <= 0xff80_0000 && 0x8000_0000 <= b.bits ==> (a.lt(b) <==> a.bits
            > b.bits),
        0x8000_0000 < a.bits <= 0xff80_0000 && b.bits <= 0x7f80_0000 ==> a.lt(b),
        a.bits == 0x8000_0000 && b.bits == 0 ==> !a.lt(b) && !b.lt(a),
        0x7f80_0000 < a.bits < 0x8000_0000 || 0xff80_0000 < a.bits ==> !a.lt(b) && !b.lt(a)
            && !a.le(b) && !b.le(a),
{
    let m = unsigned_bits(a.bits);
    let n = unsigned_bits(b.bits);
    lemma_magnitude_order(m, n);
    lemma_magnitude_order(n, m);
    lemma_magnitude_zero(m);
    lemma_magnitude_zero(n);
}

/// Limiting leaves what is within the limits as it is and puts the nearer limit in place
/// of anything else; what is no number stays as it is.
pub proof fn law_limiting_keeps_what_is_within(x: Num, lo: Num, hi: Num)
    requires
        lo.le(hi),
    ensures
        lo.le(x) && x.le(hi) ==> x.clamp_spec(lo, hi) == x,
        x.lt(lo) ==> x.clamp_spec(lo, hi) == lo,
        hi.lt(x) ==> x.clamp_spec(lo, hi) == hi,
        x.is_nan_spec() ==> x.clamp_spec(lo, hi) == x,
{
}

} // verus!
