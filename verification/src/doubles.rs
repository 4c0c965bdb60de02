//! Double-precision numbers, looked at through their bits.
//!
//! The highest bit is the sign, the next 11 are the exponent, and the other 52
//! the fraction.

use vstd::prelude::*;

verus! {

/// Two to the power of `n`.
pub open spec fn pow2(n: nat) -> nat
    decreases n,
{
    if n == 0 {
        1
    } else {
        2 * pow2((n - 1) as nat)
    }
}

pub open spec fn is_negative(bits: u64) -> bool {
    bits >= 0x8000_0000_0000_0000
}

/// The bits without the sign.
pub open spec fn magnitude(bits: u64) -> u64 {
    bits % 0x8000_0000_0000_0000
}

pub open spec fn exponent(bits: u64) -> u64 {
    magnitude(bits) / 0x10_0000_0000_0000
}

pub open spec fn fraction(bits: u64) -> u64 {
    bits % 0x10_0000_0000_0000
}

/// Whether a double is a number, and not infinite.
pub open spec fn is_finite(bits: u64) -> bool {
    exponent(bits) != 0x7ff
}

/// The significand as a whole number.
pub open spec fn significand(bits: u64) -> nat {
    if exponent(bits) == 0 {
        fraction(bits) as nat
    } else {
        (0x10_0000_0000_0000 + fraction(bits)) as nat
    }
}

/// By which power of two the significand is to be multiplied.
pub open spec fn scale(bits: u64) -> int {
    if exponent(bits) == 0 {
        -1074
    } else {
        exponent(bits) - 1075
    }
}

/// Whether a double is a finite number above 0.
pub open spec fn is_positive_finite(bits: u64) -> bool {
    !is_negative(bits) && is_finite(bits) && significand(bits) > 0
}

/// The whole number that a double is, if it is one and not below 0.
pub open spec fn whole_number(bits: u64) -> Option<nat> {
    if !is_finite(bits) {
        None
    } else if significand(bits) == 0 {
        Some(0)
    } else if is_negative(bits) {
        None
    } else if scale(bits) >= 0 {
        Some(significand(bits) * pow2(scale(bits) as nat))
    } else if significand(bits) % pow2((-scale(bits)) as nat) == 0 {
        Some(significand(bits) / pow2((-scale(bits)) as nat))
    } else {
        None
    }
}

/// A number, cut off at what 64 bits hold.
pub open spec fn saturated(n: nat) -> u64 {
    if n <= u64::MAX {
        n as u64
    } else {
        u64::MAX
    }
}

proof fn lemma_pow2_grows(a: nat, b: nat)
    requires
        a <= b,
    ensures
        0 < pow2(a) <= pow2(b),
    decreases b,
{
    if a < b {
        lemma_pow2_grows(a, (b - 1) as nat);
    } else if a > 0 {
        lemma_pow2_grows((a - 1) as nat, (b - 1) as nat);
    }
}

/// A double is a finite number above 0 if its bits, as a whole number, lie
/// between those of zero and those of infinity.
pub proof fn law_positive_by_bits(bits: u64)
    ensures
        is_positive_finite(bits) == (0 < bits < 0x7ff0_0000_0000_0000),
{
}

/// Whether a double is a finite number above 0.
pub fn positive_finite(bits: u64) -> (r: bool)
    ensures
        r == is_positive_finite(bits),
{
    bits > 0 && bits < 0x7ff0_0000_0000_0000
}

fn power_of_two(n: u64) -> (r: u64)
    requires
        n <= 63,
    ensures
        r == pow2(n as nat),
{
    let mut p: u64 = 1;
    let mut i: u64 = 0;
    proof {
        lemma_pow2_63();
    }
    while i < n
        invariant
            i <= n <= 63,
            p == pow2(i as nat),
            pow2(63) == 0x8000_0000_0000_0000,
        decreases n - i,
    {
        proof {
            lemma_pow2_grows((i + 1) as nat, 63);
        }
        p = p * 2;
        i = i + 1;
    }
    p
}

proof fn lemma_pow2_63()
    ensures
        pow2(11) == 0x800,
        pow2(12) == 0x1000,
        pow2(53) == 0x20_0000_0000_0000,
        pow2(63) == 0x8000_0000_0000_0000,
{
    reveal_with_fuel(pow2, 64);
}

/// From the 52nd power of two up to the 53rd, each step of the bits is a step to
/// the next whole number.
pub proof fn law_steps_are_whole(f: u64)
    requires
        f < 0x10_0000_0000_0000,
    ensures
        whole_number((0x4330_0000_0000_0000 + f) as u64) == Some(
            (0x10_0000_0000_0000 + f) as nat,
        ),
{
    let bits = (0x4330_0000_0000_0000 + f) as u64;
    assert(exponent(bits) == 1075);
    assert(fraction(bits) == f);
    assert(pow2(0) == 1);
    assert(significand(bits) * pow2(0) == significand(bits)) by (nonlinear_arith)
        requires
            pow2(0) == 1,
    ;
}

/// One more in the exponent is twice the number; what was no whole number
/// becomes at most an odd one. Nothing below zero is a whole number.
pub proof fn law_exponent_doubles(bits: u64)
    requires
        1 <= exponent(bits) <= 0x7fd,
        bits < 0x8000_0000_0000_0000,
    ensures
        match whole_number((bits + 0x10_0000_0000_0000) as u64) {
            Some(m) => whole_number(bits) == if m % 2 == 0 {
                Some(m / 2)
            } else {
                None::<nat>
            },
            None => whole_number(bits) is None,
        },
        whole_number((bits + 0x8000_0000_0000_0000) as u64) is None,
{
    let next = (bits + 0x10_0000_0000_0000) as u64;
    let below = (bits + 0x8000_0000_0000_0000) as u64;
    assert(magnitude(below) == bits && fraction(below) == fraction(bits));
    assert(exponent(next) == exponent(bits) + 1 && fraction(next) == fraction(bits));
    let m = significand(bits) as int;
    assert(significand(next) == m && scale(next) == scale(bits) + 1);
    let s = scale(bits);
    if s >= 0 {
        let p = pow2(s as nat) as int;
        assert(pow2((s + 1) as nat) == 2 * p);
        assert((m * (2 * p)) % 2 == 0 && (m * (2 * p)) / 2 == m * p) by {
            assert(m * (2 * p) == 2 * (m * p)) by (nonlinear_arith);
        }
    } else {
        let q = pow2((-s - 1) as nat) as int;
        let p = pow2((-s) as nat) as int;
        lemma_pow2_grows(0, (-s - 1) as nat);
        assert(p == 2 * q && q > 0);
        let a = m / p;
        let b = m / q;
        vstd::arithmetic::div_mod::lemma_fundamental_div_mod(m, p);
        vstd::arithmetic::div_mod::lemma_fundamental_div_mod(m, q);
        if m % p == 0 {
            assert(m == q * (2 * a)) by (nonlinear_arith)
                requires
                    m == p * a + 0,
                    p == 2 * q,
            ;
            assert(m == (2 * a) * q + 0) by (nonlinear_arith)
                requires
                    m == q * (2 * a),
            ;
            vstd::arithmetic::div_mod::lemma_fundamental_div_mod_converse(m, q, 2 * a, 0);
            assert(b == 2 * a);
        } else if m % q == 0 && b % 2 == 0 {
            let c = b / 2;
            assert(m == c * p + 0) by (nonlinear_arith)
                requires
                    m == q * b + 0,
                    p == 2 * q,
                    b == 2 * c,
            ;
            vstd::arithmetic::div_mod::lemma_fundamental_div_mod_converse(m, p, c, 0);
        }
        if s == -1 {
            assert(q == 1) by {
                reveal_with_fuel(pow2, 2);
            }
            assert(m % 1 == 0 && m / 1 == m);
            assert(m * pow2(0) == m) by (nonlinear_arith)
                requires
                    pow2(0) == 1,
            ;
        }
    }
}

/// The whole number that a double is, cut off at what 64 bits hold.
pub fn to_whole(bits: u64) -> (r: Option<u64>)
    ensures
        match whole_number(bits) {
            Some(n) => r == Some(saturated(n)),
            None => r is None,
        },
{
    let e: u64 = (bits % 0x8000_0000_0000_0000) / 0x10_0000_0000_0000;
    let f: u64 = bits % 0x10_0000_0000_0000;
    if e == 0x7ff {
        return None;
    }
    let m: u64 = if e == 0 {
        f
    } else {
        0x10_0000_0000_0000 + f
    };
    assert(m < 0x20_0000_0000_0000);
    if m == 0 {
        return Some(0);
    }
    if bits >= 0x8000_0000_0000_0000 {
        return None;
    }
    proof {
        lemma_pow2_63();
    }
    if e >= 1075 {
        let s: u64 = e - 1075;
        if s <= 11 {
            let p = power_of_two(s);
            proof {
                lemma_pow2_grows(s as nat, 11);
                assert(m * p < 0x20_0000_0000_0000 * 0x800) by (nonlinear_arith)
                    requires
                        m < 0x20_0000_0000_0000,
                        0 < p <= 0x800,
                ;
            }
            Some(m * p)
        } else {
            proof {
                let p = pow2(s as nat);
                lemma_pow2_grows(12, s as nat);
                assert(m * p >= 0x10_0000_0000_0000 * 0x1000) by (nonlinear_arith)
                    requires
                        m >= 0x10_0000_0000_0000,
                        p >= 0x1000,
                ;
            }
            Some(u64::MAX)
        }
    } else {
        let s: u64 = if e == 0 {
            1074
        } else {
            1075 - e
        };
        if s >= 53 {
            proof {
                let p = pow2(s as nat);
                lemma_pow2_grows(53, s as nat);
                vstd::arithmetic::div_mod::lemma_small_mod(m as nat, p);
            }
            None
        } else {
            let p = power_of_two(s);
            proof {
                lemma_pow2_grows(s as nat, 63);
            }
            if m % p == 0 {
                proof {
                    assert(m / p <= m) by (nonlinear_arith)
                        requires
                            p > 0,
                    ;
                }
                Some(m / p)
            } else {
                None
            }
        }
    }
}

} // verus!
