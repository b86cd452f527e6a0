//! Fixed-point time values.
//!
//! Time positions in the document (label bounds, clip offsets) arrive on the
//! wire as 8-byte IEEE 754 binary64 numbers of seconds. The library keeps
//! them as signed two's-complement fixed-point values with 32 fractional
//! bits: `units` counts 2^-32 second steps. Conversion from the wire bits is
//! pure integer arithmetic and rounds half away from zero; values whose
//! magnitude does not fit (including infinities and NaN) are rejected.

use vstd::prelude::*;
use vstd::arithmetic::power2::{
    pow2, lemma_pow2_adds, lemma_pow2_pos, lemma_pow2_strictly_increases, lemma2_to64,
    lemma2_to64_rest,
};
use vstd::arithmetic::mul::lemma_mul_inequality;

verus! {

/// Number of fixed-point units in one second (2^32).
pub const SECOND_UNITS: u64 = 0x1_0000_0000;

/// A time position in seconds, held as a count of 2^-32 second units.
#[derive(Debug, Clone, Copy, PartialEq, Eq, Structural)]
pub struct Fixed {
    pub units: i64,
}

/// Sign bit of an IEEE 754 binary64 bit pattern.
pub open spec fn f64_sign(bits: u64) -> bool {
    bits / 0x8000_0000_0000_0000 == 1
}

/// Biased exponent field (11 bits) of an IEEE 754 binary64 bit pattern.
pub open spec fn f64_exp(bits: u64) -> int {
    (bits / 0x10_0000_0000_0000) as int % 0x800
}

/// Fraction field (52 bits) of an IEEE 754 binary64 bit pattern.
pub open spec fn f64_frac(bits: u64) -> int {
    bits as int % 0x10_0000_0000_0000
}

/// Magnitude of a finite binary64 value in 2^-32 second units, rounded half
/// away from zero. A normal number with biased exponent `e` and fraction `m`
/// has magnitude `(2^52 + m) * 2^(e - 1075)` seconds, which is
/// `(2^52 + m) * 2^(e - 1043)` units; subnormal numbers are below half a
/// unit and round to zero.
pub open spec fn f64_mag_units(bits: u64) -> int {
    let e = f64_exp(bits);
    let m = f64_frac(bits);
    if e == 0 {
        0
    } else {
        let sig = m + 0x10_0000_0000_0000;
        if e >= 1043 {
            sig * pow2((e - 1043) as nat)
        } else {
            (sig + pow2((1043 - e - 1) as nat)) / pow2((1043 - e) as nat) as int
        }
    }
}

/// The rounded magnitude is never negative.
pub proof fn lemma_mag_units_nonneg(bits: u64)
    ensures
        f64_mag_units(bits) >= 0,
{
    let e = f64_exp(bits);
    let m = f64_frac(bits);
    if e != 0 {
        let sig = m + 0x10_0000_0000_0000;
        if e >= 1043 {
            lemma_pow2_pos((e - 1043) as nat);
            assert(sig * pow2((e - 1043) as nat) >= 0) by (nonlinear_arith)
                requires
                    sig >= 0,
                    pow2((e - 1043) as nat) >= 1,
            ;
        } else {
            lemma_pow2_pos((1043 - e) as nat);
            lemma_pow2_pos((1043 - e - 1) as nat);
            vstd::arithmetic::div_mod::lemma_div_pos_is_pos(
                sig + pow2((1043 - e - 1) as nat),
                pow2((1043 - e) as nat) as int,
            );
        }
    }
}

/// The fixed-point value a finite binary64 bit pattern stands for, when its
/// rounded magnitude fits an `i64`.
pub open spec fn f64_units(bits: u64) -> int {
    if f64_sign(bits) {
        -f64_mag_units(bits)
    } else {
        f64_mag_units(bits)
    }
}

impl Fixed {
    /// The time zero seconds.
    pub fn zero() -> (r: Fixed)
        ensures
            r.units == 0,
    {
        Fixed { units: 0 }
    }

    /// A whole number of seconds, when it fits the 31 whole bits.
    pub fn from_seconds(secs: i64) -> (r: Option<Fixed>)
        ensures
            r matches Some(f) ==> f.units == secs * SECOND_UNITS,
            r is None <==> (secs * SECOND_UNITS < i64::MIN || secs * SECOND_UNITS > i64::MAX),
    {
        match secs.checked_mul(0x1_0000_0000) {
            Some(u) => Some(Fixed { units: u }),
            None => None,
        }
    }

    /// Decodes an IEEE 754 binary64 bit pattern into fixed-point seconds.
    /// Returns `None` for NaN, infinities, and magnitudes beyond the i64
    /// unit range; rounding is half away from zero.
    pub fn from_f64_bits(bits: u64) -> (r: Option<Fixed>)
        ensures
            r matches Some(f) ==> f.units == f64_units(bits),
            r is None <==> (f64_exp(bits) == 0x7FF || f64_mag_units(bits) > i64::MAX),
    {
        let e: u64 = (bits / 0x10_0000_0000_0000) % 0x800;
        let m: u64 = bits % 0x10_0000_0000_0000;
        let neg: bool = bits >= 0x8000_0000_0000_0000;
        proof {
            assert(neg == f64_sign(bits)) by (nonlinear_arith)
                requires
                    neg == (bits >= 0x8000_0000_0000_0000),
                    bits <= u64::MAX,
            ;
        }
        if e == 0x7FF {
            return None;
        }
        let mag: u64 = if e == 0 {
            0
        } else {
            let sig: u64 = m + 0x10_0000_0000_0000;
            assert(sig < 0x20_0000_0000_0000);
            if e >= 1043 {
                let k: u64 = e - 1043;
                if k > 10 {
                    proof {
                        lemma2_to64();
                        if e - 1043 != 11 {
                            lemma_pow2_strictly_increases(11, (e - 1043) as nat);
                        }
                        lemma_mul_inequality(
                            0x10_0000_0000_0000,
                            sig as int,
                            pow2((e - 1043) as nat) as int,
                        );
                        assert(f64_mag_units(bits) >= 0x10_0000_0000_0000 * pow2(
                            (e - 1043) as nat,
                        ) as int);
                        assert(pow2((e - 1043) as nat) >= pow2(11) >= 0x800);
                        assert(f64_mag_units(bits) > i64::MAX) by (nonlinear_arith)
                            requires
                                f64_mag_units(bits) >= 0x10_0000_0000_0000 * pow2(
                                    (e - 1043) as nat,
                                ) as int,
                                pow2((e - 1043) as nat) >= 0x800,
                        ;
                    }
                    return None;
                }
                let p: u64 = pow2_u64(k);
                proof {
                    lemma2_to64();
                    lemma_pow2_strictly_increases(k as nat, 11);
                    lemma_mul_inequality(sig as int, 0x20_0000_0000_0000, p as int);
                    assert(0x20_0000_0000_0000 * (p as int) <= 0x20_0000_0000_0000 * 0x800)
                        by (nonlinear_arith)
                        requires
                            p as int <= 0x800,
                    ;
                    assert(sig * p <= 0x20_0000_0000_0000 * 0x800) by {
                        lemma_mul_inequality(sig as int, 0x20_0000_0000_0000, p as int);
                    }
                }
                sig * p
            } else {
                let k: u64 = 1043 - e;
                if k >= 54 {
                    proof {
                        if k - 1 != 53 {
                            lemma_pow2_strictly_increases(53, (k - 1) as nat);
                        }
                        lemma2_to64();
                        lemma2_to64_rest();
                        assert(sig + pow2((k - 1) as nat) < 2 * pow2((k - 1) as nat));
                        lemma_pow2_adds(1, (k - 1) as nat);
                        assert(2 * pow2((k - 1) as nat) == pow2(k as nat));
                        vstd::arithmetic::div_mod::lemma_basic_div(
                            (sig + pow2((k - 1) as nat)) as int,
                            pow2(k as nat) as int,
                        );
                    }
                    0
                } else {
                    let half: u64 = pow2_u64(k - 1);
                    let p: u64 = pow2_u64(k);
                    proof {
                        lemma2_to64();
                        lemma2_to64_rest();
                        if (k - 1) as nat != 53 {
                            lemma_pow2_strictly_increases((k - 1) as nat, 53);
                        }
                        assert(half <= 0x20_0000_0000_0000);
                        lemma_pow2_pos(k as nat);
                    }
                    (sig + half) / p
                }
            }
        };
        if mag > 0x7FFF_FFFF_FFFF_FFFF {
            return None;
        }
        if neg {
            Some(Fixed { units: -(mag as i64) })
        } else {
            Some(Fixed { units: mag as i64 })
        }
    }
}

/// 2^k for k up to 63, as a machine word.
pub fn pow2_u64(k: u64) -> (r: u64)
    requires
        k <= 63,
    ensures
        r as nat == pow2(k as nat),
{
    let mut r: u64 = 1;
    let mut i: u64 = 0;
    assert(pow2(0) == 1) by {
        lemma2_to64();
    }
    while i < k
        invariant
            i <= k <= 63,
            r as nat == pow2(i as nat),
        decreases k - i,
    {
        proof {
            lemma_pow2_adds(i as nat, 1);
            lemma2_to64();
            if (i + 1) as nat != 64 {
                lemma_pow2_strictly_increases((i + 1) as nat, 64);
            }
            assert(pow2(64) == 0x1_0000_0000_0000_0000);
        }
        r = r * 2;
        i = i + 1;
    }
    r
}

} // verus!
