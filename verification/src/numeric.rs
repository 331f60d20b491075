//! Numeric conversions for the deserialiser: exact whole-number extraction
//! from a high-precision decimal, the decimal-to-integer rescale used by the
//! `decimal` logical type, and the trusted conversions to IEEE-754 bit
//! patterns.
use vstd::prelude::*;

use crate::json::Dec;
use crate::util::{lemma_pow10_increases, lemma_pow10_pos, pow10, pow10_i128};

verus! {

/// The exclusive magnitude bound of the 96-bit decimal working range.
pub const DEC_MAG_BOUND: u128 = 0x1000000000000000000000000;

/// Whether a decimal fits rust_decimal's representation: a 96-bit
/// mantissa and a scale of at most 28.
pub open spec fn dec_representable(d: Dec) -> bool {
    -(DEC_MAG_BOUND as int) < d.mantissa < DEC_MAG_BOUND as int && d.scale <= 28
}

/// Relies on rust_decimal: `Decimal::try_from_i128_with_scale` rebuilds the
/// decimal, succeeding exactly on 96-bit mantissas with scale at most 28,
/// and `ToPrimitive::to_f32` (through `to_f64` and a defined cast) always
/// converts a decimal to a nearby 32-bit float; `to_bits` exposes its
/// IEEE-754 bits. Only the success split is stated: the conversion's
/// fractional path rounds through `f64::powi`, whose precision Rust
/// leaves unspecified, so nothing is promised of the bits themselves.
#[verifier::external_body]
pub(crate) fn dec_to_f32_bits(mantissa: i128, scale: u32) -> (r: Option<u32>)
    ensures
        r is Some <==> dec_representable(Dec { mantissa, scale }),
{
    let d = rust_decimal::Decimal::try_from_i128_with_scale(mantissa, scale).ok()?;
    let f = rust_decimal::prelude::ToPrimitive::to_f32(&d)?;
    Some(f.to_bits())
}

/// Relies on rust_decimal: as `dec_to_f32_bits`, through
/// `ToPrimitive::to_f64`; only the success split is stated, for the same
/// reason.
#[verifier::external_body]
pub(crate) fn dec_to_f64_bits(mantissa: i128, scale: u32) -> (r: Option<u64>)
    ensures
        r is Some <==> dec_representable(Dec { mantissa, scale }),
{
    let d = rust_decimal::Decimal::try_from_i128_with_scale(mantissa, scale).ok()?;
    let f = rust_decimal::prelude::ToPrimitive::to_f64(&d)?;
    Some(f.to_bits())
}

/// |m| as an unsigned 128-bit integer.
pub fn abs_u128(m: i128) -> (r: u128)
    ensures
        r as int == (if m >= 0 {
            m as int
        } else {
            -(m as int)
        }),
{
    if m >= 0 {
        m as u128
    } else {
        ((-(m + 1)) as u128) + 1
    }
}

/// The exact whole-number value of a decimal, or `None` when it has a
/// fractional part.
pub fn dec_to_int(d: Dec) -> (r: Option<i128>)
    ensures
        r is Some ==> d.is_integer() && r->0 as int == d.int_value(),
        r is None ==> !d.is_integer(),
{
    let m = d.mantissa;
    if d.scale == 0 {
        proof {
            assert(pow10(0) == 1);
            vstd::arithmetic::div_mod::lemma_fundamental_div_mod_converse(m as int, 1, m as int, 0);
        }
        return Some(m);
    }
    match pow10_i128(d.scale) {
        None => {
            // scale > 38, so 10^scale exceeds any 128-bit mantissa.
            proof {
                lemma_pow10_increases(39, d.scale as nat);
                reveal_with_fuel(pow10, 41);
                assert(pow10(39) > 0x100000000000000000000000000000000);
                let p = pow10(d.scale as nat);
                if m > 0 {
                    vstd::arithmetic::div_mod::lemma_fundamental_div_mod_converse(
                        m as int,
                        p,
                        0,
                        m as int,
                    );
                } else if m < 0 {
                    vstd::arithmetic::div_mod::lemma_fundamental_div_mod_converse(
                        m as int,
                        p,
                        -1,
                        m + p,
                    );
                } else {
                    vstd::arithmetic::div_mod::lemma_fundamental_div_mod_converse(0, p, 0, 0);
                }
            }
            if m == 0 {
                Some(0)
            } else {
                None
            }
        },
        Some(p) => {
            proof {
                lemma_pow10_pos(d.scale as nat);
                lemma_pow10_increases(1, d.scale as nat);
            }
            let pu = p as u128;
            let mag = abs_u128(m);
            let q = mag / pu;
            let r0 = mag % pu;
            proof {
                assert(pu >= 10);
                vstd::arithmetic::div_mod::lemma_fundamental_div_mod(mag as int, pu as int);
                assert(q as int <= mag as int / 10) by (nonlinear_arith)
                    requires
                        q == mag / pu,
                        pu >= 10,
                ;
                vstd::arithmetic::div_mod::lemma_div_is_ordered_by_denominator(mag as int, 1, 10);
            }
            if r0 != 0 {
                proof {
                    let pi = pu as int;
                    if m >= 0 {
                        vstd::arithmetic::div_mod::lemma_fundamental_div_mod_converse(
                            m as int,
                            pi,
                            q as int,
                            r0 as int,
                        );
                    } else {
                        assert(m as int == pi * (-(q as int) - 1) + (pi - r0 as int))
                            by (nonlinear_arith)
                            requires
                                mag as int == pi * (q as int) + r0 as int,
                                m as int == -(mag as int),
                                pi > 0,
                        ;
                        vstd::arithmetic::div_mod::lemma_fundamental_div_mod_converse(
                            m as int,
                            pi,
                            -(q as int) - 1,
                            pi - r0 as int,
                        );
                    }
                }
                None
            } else if m >= 0 {
                proof {
                    vstd::arithmetic::div_mod::lemma_fundamental_div_mod_converse(
                        m as int,
                        pu as int,
                        q as int,
                        0,
                    );
                }
                Some(q as i128)
            } else {
                proof {
                    assert(m as int == (pu as int) * (-(q as int)) + 0) by (nonlinear_arith)
                        requires
                            mag as int == (pu as int) * (q as int) + 0,
                            m as int == -(mag as int),
                    ;
                    vstd::arithmetic::div_mod::lemma_fundamental_div_mod_converse(
                        m as int,
                        pu as int,
                        -(q as int),
                        0,
                    );
                }
                Some(-(q as i128))
            }
        },
    }
}

/// Round `m / p` half away from zero, for `p >= 1`.
pub open spec fn round_half_away(m: int, p: int) -> int {
    if m >= 0 {
        if 2 * (m % p) >= p {
            m / p + 1
        } else {
            m / p
        }
    } else {
        if 2 * ((-m) % p) >= p {
            -((-m) / p) - 1
        } else {
            -((-m) / p)
        }
    }
}

/// The rescaled whole number a decimal denotes at the target scale:
/// `m * 10^(target - scale)`, rounded half away from zero when digits are
/// dropped; `None` when the result leaves the 96-bit working range.
pub open spec fn spec_decimal_int(d: Dec, target: u32) -> Option<int> {
    let n = if target >= d.scale {
        d.mantissa * pow10((target - d.scale) as nat)
    } else {
        round_half_away(d.mantissa as int, pow10((d.scale - target) as nat))
    };
    if -(DEC_MAG_BOUND as int) < n < DEC_MAG_BOUND as int {
        Some(n)
    } else {
        None
    }
}

/// Rescale a decimal to a whole number at the target scale.
pub fn decimal_rescale(d: Dec, target: u32) -> (r: Option<i128>)
    ensures
        match r {
            Some(n) => spec_decimal_int(d, target) == Some(n as int),
            None => spec_decimal_int(d, target) is None,
        },
{
    let m = d.mantissa;
    let mag = abs_u128(m);
    if target >= d.scale {
        let diff = target - d.scale;
        if m == 0 {
            proof {
                lemma_pow10_pos(diff as nat);
                assert(0 * pow10(diff as nat) == 0) by (nonlinear_arith);
            }
            return Some(0);
        }
        match pow10_i128(diff) {
            None => {
                // 10^diff alone exceeds the working range.
                proof {
                    lemma_pow10_increases(39, diff as nat);
                    reveal_with_fuel(pow10, 41);
                    let p = pow10(diff as nat);
                    let n = m as int * p;
                    assert(n >= DEC_MAG_BOUND as int || n <= -(DEC_MAG_BOUND as int))
                        by (nonlinear_arith)
                        requires
                            p >= pow10(39),
                            pow10(39) > 0x100000000000000000000000000000000,
                            m != 0,
                            n == m as int * p,
                    ;
                }
                None
            },
            Some(p) => {
                proof {
                    lemma_pow10_pos(diff as nat);
                }
                let pu = p as u128;
                let limit = DEC_MAG_BOUND / pu;
                if mag > limit {
                    proof {
                        let pi = pu as int;
                        let b = DEC_MAG_BOUND as int;
                        vstd::arithmetic::div_mod::lemma_fundamental_div_mod(b, pi);
                        assert((mag as int) * pi > b) by (nonlinear_arith)
                            requires
                                mag as int >= b / pi + 1,
                                b == pi * (b / pi) + b % pi,
                                0 <= b % pi < pi,
                                pi > 0,
                        ;
                        let n = m as int * pi;
                        assert(n >= DEC_MAG_BOUND as int || n <= -(DEC_MAG_BOUND as int))
                            by (nonlinear_arith)
                            requires
                                (mag as int) * pi > DEC_MAG_BOUND as int,
                                mag as int == (if m as int >= 0 {
                                    m as int
                                } else {
                                    -(m as int)
                                }),
                                n == m as int * pi,
                        ;
                    }
                    None
                } else {
                    proof {
                        let pi = pu as int;
                        let b = DEC_MAG_BOUND as int;
                        vstd::arithmetic::div_mod::lemma_fundamental_div_mod(b, pi);
                        assert((mag as int) * pi <= b) by (nonlinear_arith)
                            requires
                                mag as int <= b / pi,
                                b == pi * (b / pi) + b % pi,
                                0 <= b % pi < pi,
                                pi > 0,
                        ;
                    }
                    let num = mag * pu;
                    if num >= DEC_MAG_BOUND {
                        proof {
                            let n = m as int * pu as int;
                            assert(n >= DEC_MAG_BOUND as int || n <= -(DEC_MAG_BOUND as int))
                                by (nonlinear_arith)
                                requires
                                    (mag as int) * (pu as int) >= DEC_MAG_BOUND as int,
                                    mag as int == (if m as int >= 0 {
                                        m as int
                                    } else {
                                        -(m as int)
                                    }),
                                    n == m as int * pu as int,
                            ;
                        }
                        None
                    } else if m >= 0 {
                        proof {
                            assert(m as int * pu as int == num as int) by (nonlinear_arith)
                                requires
                                    mag as int == m as int,
                                    num as int == mag as int * pu as int,
                            ;
                        }
                        Some(num as i128)
                    } else {
                        proof {
                            assert(m as int * pu as int == -(num as int)) by (nonlinear_arith)
                                requires
                                    mag as int == -(m as int),
                                    num as int == mag as int * pu as int,
                            ;
                        }
                        Some(-(num as i128))
                    }
                }
            },
        }
    } else {
        let diff = d.scale - target;
        match pow10_i128(diff) {
            None => {
                // 10^diff exceeds twice any 128-bit mantissa: rounds to zero.
                proof {
                    lemma_pow10_increases(39, diff as nat);
                    reveal_with_fuel(pow10, 41);
                    let p = pow10(diff as nat);
                    vstd::arithmetic::div_mod::lemma_small_mod(mag as nat, p as nat);
                    vstd::arithmetic::div_mod::lemma_basic_div(mag as int, p);
                    assert(round_half_away(m as int, p) == 0);
                }
                Some(0)
            },
            Some(p) => {
                proof {
                    lemma_pow10_pos(diff as nat);
                }
                let pu = p as u128;
                proof {
                    lemma_pow10_increases(1, diff as nat);
                    lemma_pow10_increases(diff as nat, 38);
                    reveal_with_fuel(pow10, 40);
                    vstd::arithmetic::div_mod::lemma_fundamental_div_mod(mag as int, pu as int);
                    assert((mag / pu) as int <= mag as int / 10) by (nonlinear_arith)
                        requires
                            pu >= 10,
                    ;
                    vstd::arithmetic::div_mod::lemma_div_is_ordered_by_denominator(
                        mag as int,
                        1,
                        10,
                    );
                }
                let q = mag / pu;
                let r0 = mag % pu;
                let qr = if 2 * r0 >= pu {
                    q + 1
                } else {
                    q
                };
                let n: i128 = if m >= 0 {
                    qr as i128
                } else {
                    -(qr as i128)
                };
                proof {
                    assert(n as int == round_half_away(m as int, pu as int));
                }
                if n <= -0x1000000000000000000000000 || n >= 0x1000000000000000000000000 {
                    None
                } else {
                    Some(n)
                }
            },
        }
    }
}

} // verus!
