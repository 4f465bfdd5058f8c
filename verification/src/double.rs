//! Binary floating-point values, held as their bits and compared as numbers.
use vstd::arithmetic::power2::{
    lemma_pow2_adds, lemma_pow2_pos, lemma_pow2_strictly_increases, lemma_pow2_unfold, pow2,
};
use vstd::prelude::*;

verus! {

/// The bits of `1.0`.
pub const ONE_BITS: u64 = 0x3FF0_0000_0000_0000;

/// The sign bit of a double.
const SIGN: u64 = 0x8000_0000_0000_0000;

/// The bits of positive infinity; a larger magnitude is not a number.
const INFINITY: u64 = 0x7FF0_0000_0000_0000;

/// One unit in the exponent field of a double.
pub const STEP: u64 = 0x10_0000_0000_0000;

/// A double-precision value, by its IEEE 754 bits.
#[derive(Debug, Clone, Copy, PartialEq, Eq, Structural)]
pub struct Double {
    pub bits: u64,
}

/// The value that a magnitude (all bits but the sign) encodes, counted in the
/// smallest positive double, two to the power of minus 1074. The infinite
/// magnitude comes out above every finite one.
pub open spec fn magnitude_units(magnitude: nat) -> nat {
    let exponent = magnitude / STEP as nat;
    let fraction = magnitude % STEP as nat;
    if exponent == 0 {
        fraction
    } else {
        (fraction + STEP as nat) * pow2((exponent - 1) as nat)
    }
}

impl Double {
    pub open spec fn magnitude(self) -> nat {
        (self.bits % 0x8000_0000_0000_0000u64) as nat
    }

    pub open spec fn is_negative(self) -> bool {
        self.bits >= 0x8000_0000_0000_0000u64
    }

    pub open spec fn is_nan(self) -> bool {
        self.magnitude() > 0x7FF0_0000_0000_0000u64
    }

    /// The value, counted in the smallest positive double. Both zeros are 0.
    pub open spec fn units(self) -> int {
        if self.is_negative() {
            -(magnitude_units(self.magnitude()) as int)
        } else {
            magnitude_units(self.magnitude()) as int
        }
    }

    /// `self >= other` as numbers; never when one of them is not a number.
    pub open spec fn ge(self, other: Double) -> bool {
        !self.is_nan() && !other.is_nan() && self.units() >= other.units()
    }

    /// Is this value a number, and at least `other`?
    pub fn at_least(self, other: Double) -> (r: bool)
        ensures
            r == self.ge(other),
    {
        let a: u64 = self.bits % SIGN;
        let b: u64 = other.bits % SIGN;
        if a > INFINITY || b > INFINITY {
            return false;
        }
        proof {
            lemma_units_order(a as nat, b as nat);
            lemma_units_order(b as nat, a as nat);
            lemma_units_order(0, a as nat);
            lemma_units_order(0, b as nat);
            assert(magnitude_units(0) == 0) by {
                lemma_zero_units();
            }
        }
        if self.bits < SIGN {
            if other.bits < SIGN {
                a >= b
            } else {
                true
            }
        } else if other.bits < SIGN {
            a == 0 && b == 0
        } else {
            a <= b
        }
    }
}

pub proof fn lemma_zero_units()
    ensures
        magnitude_units(0) == 0,
{
    assert(0nat / STEP as nat == 0) by (nonlinear_arith)
        requires
            STEP as nat > 0,
    ;
    assert(0nat % STEP as nat == 0) by (nonlinear_arith)
        requires
            STEP as nat > 0,
    ;
}

/// A larger magnitude encodes a larger value.
pub proof fn lemma_units_order(a: nat, b: nat)
    ensures
        a < b ==> magnitude_units(a) < magnitude_units(b),
{
    if a < b {
        let s = STEP as nat;
        let ea = a / s;
        let fa = a % s;
        let eb = b / s;
        let fb = b % s;
        assert(a == ea * s + fa && fa < s && b == eb * s + fb && fb < s) by (nonlinear_arith)
            requires
                s > 0,
                ea == a / s,
                fa == a % s,
                eb == b / s,
                fb == b % s,
        ;
        assert(ea <= eb) by (nonlinear_arith)
            requires
                a == ea * s + fa,
                b == eb * s + fb,
                fb < s,
                a < b,
        ;
        if eb > 0 {
            lemma_pow2_pos((eb - 1) as nat);
            let p = pow2((eb - 1) as nat);
            assert((fb + s) * p >= s * p) by (nonlinear_arith)
                requires
                    fb >= 0,
                    p >= 0,
            ;
            if ea == eb {
                assert(fa < fb);
                assert((fa + s) * p < (fb + s) * p) by (nonlinear_arith)
                    requires
                        fa < fb,
                        p > 0,
                ;
            } else if ea == 0 {
                assert(s * p >= s) by (nonlinear_arith)
                    requires
                        p >= 1,
                        s >= 0,
                ;
            } else {
                let q = pow2((ea - 1) as nat);
                lemma_pow2_pos((ea - 1) as nat);
                lemma_pow2_unfold(ea);
                assert(pow2(ea) <= p) by {
                    if ea < eb - 1 {
                        lemma_pow2_strictly_increases(ea, (eb - 1) as nat);
                    }
                }
                assert(2 * q <= p);
                assert((fa + s) * q < s * p) by (nonlinear_arith)
                    requires
                        fa < s,
                        q > 0,
                        2 * q <= p,
                        s > 0,
                ;
            }
        }
    }
}

/// The bits of `1.0` encode one.
pub proof fn law_one_is_one()
    ensures
        (Double { bits: ONE_BITS }).units() == pow2(1074),
        !(Double { bits: ONE_BITS }).is_nan(),
{
    let r = Double { bits: ONE_BITS };
    let m = r.magnitude();
    assert(m == 0x3FF0_0000_0000_0000nat);
    assert(m / STEP as nat == 1023 && m % STEP as nat == 0);
    assert(r.units() == STEP as nat * pow2(1022));
    vstd::arithmetic::power2::lemma2_to64_rest();
    lemma_pow2_adds(52, 1022);
}

/// At-least is a total preorder on the values that are numbers.
pub proof fn law_at_least_is_a_total_preorder(a: Double, b: Double, c: Double)
    requires
        !a.is_nan(),
        !b.is_nan(),
        !c.is_nan(),
    ensures
        a.ge(a),
        a.ge(b) || b.ge(a),
        a.ge(b) && b.ge(c) ==> a.ge(c),
{
}

} // verus!
