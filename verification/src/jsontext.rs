//! A JSON text parser over raw bytes: the grammar of RFC 8259 with UTF-8
//! validation, string escapes including surrogate pairs, and numbers read
//! exactly into the high-precision decimal model. `spec_parse_json` is the
//! defining specification; the executable parser returns exactly what it
//! says. Nesting is bounded by a fixed depth; numbers whose digits exceed
//! the 128-bit working range are rejected.
use vstd::prelude::*;

use crate::json::{jmembers_view, json_view, jsons_view, Dec, Json, JsonV};
use crate::uuid::{hex_digit, hex_val};

verus! {

/// Nesting depth bound for arrays and objects.
pub const MAX_DEPTH: u32 = 128;

/// Largest mantissa magnitude the number reader accepts.
pub const MAX_MANTISSA: u128 = 0x7fffffffffffffffffffffffffffffff;

pub open spec fn is_ws(c: u8) -> bool {
    c == 32 || c == 9 || c == 10 || c == 13
}

pub open spec fn is_digit(c: u8) -> bool {
    48 <= c <= 57
}

/// Index of the first non-whitespace byte at or after `i`.
pub open spec fn spec_ws_end(s: Seq<u8>, i: int) -> int
    decreases
            (if 0 <= i && i < s.len() {
                s.len() - i
            } else {
                0
            }),
{
    if 0 <= i && i < s.len() && is_ws(s[i]) {
        spec_ws_end(s, i + 1)
    } else {
        i
    }
}

/// Index of the first non-digit byte at or after `i`.
pub open spec fn spec_digits_end(s: Seq<u8>, i: int) -> int
    decreases
            (if 0 <= i && i < s.len() {
                s.len() - i
            } else {
                0
            }),
{
    if 0 <= i && i < s.len() && is_digit(s[i]) {
        spec_digits_end(s, i + 1)
    } else {
        i
    }
}

/// Left fold of the digit run `s[i..j)` onto `acc`, refusing any prefix
/// that would push the value past the working bound.
pub open spec fn spec_acc_digits(s: Seq<u8>, i: int, j: int, acc: int) -> Option<int>
    decreases
            (if i < j {
                j - i
            } else {
                0
            }),
{
    if i >= j {
        Some(acc)
    } else if !(0 <= i < s.len()) {
        None
    } else if acc * 10 + (s[i] - 48) > MAX_MANTISSA as int {
        None
    } else {
        spec_acc_digits(s, i + 1, j, acc * 10 + (s[i] - 48))
    }
}

/// Exponent digits folded with a small cap.
pub open spec fn spec_acc_exp(s: Seq<u8>, i: int, j: int, acc: int) -> Option<int>
    decreases
            (if i < j {
                j - i
            } else {
                0
            }),
{
    if i >= j {
        Some(acc)
    } else if !(0 <= i < s.len()) {
        None
    } else if acc * 10 + (s[i] - 48) > 999_999 {
        None
    } else {
        spec_acc_exp(s, i + 1, j, acc * 10 + (s[i] - 48))
    }
}

/// 10^n over the integers, bounded check left to callers.
pub open spec fn spec_pow10(n: nat) -> int {
    crate::util::pow10(n)
}

/// A number literal starting at `i`: its decimal and the index after it.
pub open spec fn spec_parse_number(s: Seq<u8>, i: int) -> Option<(Dec, int)> {
    if !(0 <= i < s.len()) {
        None
    } else {
        let neg = s[i] == 45;
        let i1 = if neg {
            i + 1
        } else {
            i
        };
        if !(i1 < s.len() && is_digit(s[i1])) {
            None
        } else {
            let int_end = if s[i1] == 48 {
                i1 + 1
            } else {
                spec_digits_end(s, i1)
            };
            let has_frac = int_end < s.len() && s[int_end] == 46;
            let frac_start = int_end + 1;
            let frac_end = if has_frac {
                spec_digits_end(s, frac_start)
            } else {
                int_end
            };
            if has_frac && frac_end == frac_start {
                None
            } else {
                let exp_ok = spec_parse_exp(s, frac_end);
                match exp_ok {
                    None => None,
                    Some((e_val, after)) => {
                        let m0 = match spec_acc_digits(s, i1, int_end, 0) {
                            None => None::<int>,
                            Some(a) => if has_frac {
                                spec_acc_digits(s, frac_start, frac_end, a)
                            } else {
                                Some(a)
                            },
                        };
                        match m0 {
                            None => None,
                            Some(m) => {
                                let fraclen = if has_frac {
                                    frac_end - frac_start
                                } else {
                                    0
                                };
                                let e_eff = e_val - fraclen;
                                if e_eff >= 0 {
                                    let m1 = m * spec_pow10(e_eff as nat);
                                    if m1 > MAX_MANTISSA as int {
                                        None
                                    } else {
                                        Some(
                                            (
                                                Dec {
                                                    mantissa: (if neg {
                                                        -m1
                                                    } else {
                                                        m1
                                                    }) as i128,
                                                    scale: 0,
                                                },
                                                after,
                                            ),
                                        )
                                    }
                                } else if -e_eff > 0xFFFFFFFF {
                                    None
                                } else {
                                    Some(
                                        (
                                            Dec {
                                                mantissa: (if neg {
                                                    -m
                                                } else {
                                                    m
                                                }) as i128,
                                                scale: (-e_eff) as u32,
                                            },
                                            after,
                                        ),
                                    )
                                }
                            },
                        }
                    },
                }
            }
        }
    }
}

/// The optional exponent part at `i`: its signed value and the index after
/// it; value zero when absent.
pub open spec fn spec_parse_exp(s: Seq<u8>, i: int) -> Option<(int, int)> {
    if 0 <= i < s.len() && (s[i] == 101 || s[i] == 69) {
        let j = if i + 1 < s.len() && (s[i + 1] == 43 || s[i + 1] == 45) {
            i + 2
        } else {
            i + 1
        };
        let eneg = i + 1 < s.len() && s[i + 1] == 45;
        if !(j < s.len() && is_digit(s[j])) {
            None
        } else {
            let e_end = spec_digits_end(s, j);
            match spec_acc_exp(s, j, e_end, 0) {
                None => None,
                Some(e) => Some(
                    (
                        if eneg {
                            -e
                        } else {
                            e
                        },
                        e_end,
                    ),
                ),
            }
        }
    } else {
        Some((0, i))
    }
}

pub open spec fn is_cont(c: u8) -> bool {
    0x80 <= c <= 0xBF
}

/// Length of the well-formed UTF-8 sequence starting at `i`, if any.
pub open spec fn spec_utf8_step(s: Seq<u8>, i: int) -> Option<int> {
    if !(0 <= i < s.len()) {
        None
    } else {
        let c = s[i];
        if c < 0x80 {
            Some(1)
        } else if 0xC2 <= c <= 0xDF {
            if i + 2 <= s.len() && is_cont(s[i + 1]) {
                Some(2)
            } else {
                None
            }
        } else if c == 0xE0 {
            if s.len() - i >= 3 && 0xA0 <= s[i + 1] <= 0xBF && is_cont(s[i + 2]) {
                Some(3)
            } else {
                None
            }
        } else if (0xE1 <= c <= 0xEC) || c == 0xEE || c == 0xEF {
            if i + 3 <= s.len() && is_cont(s[i + 1]) && is_cont(s[i + 2]) {
                Some(3)
            } else {
                None
            }
        } else if c == 0xED {
            if i + 3 <= s.len() && 0x80 <= s[i + 1] <= 0x9F && is_cont(s[i + 2]) {
                Some(3)
            } else {
                None
            }
        } else if c == 0xF0 {
            if s.len() - i >= 4 && 0x90 <= s[i + 1] <= 0xBF && is_cont(s[i + 2]) && is_cont(
                s[i + 3],
            ) {
                Some(4)
            } else {
                None
            }
        } else if 0xF1 <= c <= 0xF3 {
            if i + 4 <= s.len() && is_cont(s[i + 1]) && is_cont(s[i + 2]) && is_cont(s[i + 3]) {
                Some(4)
            } else {
                None
            }
        } else if c == 0xF4 {
            if i + 4 <= s.len() && 0x80 <= s[i + 1] <= 0x8F && is_cont(s[i + 2]) && is_cont(
                s[i + 3],
            ) {
                Some(4)
            } else {
                None
            }
        } else {
            None
        }
    }
}

/// UTF-8 bytes of a code point.
pub open spec fn spec_utf8_enc(cp: int) -> Seq<u8> {
    if cp < 0x80 {
        seq![cp as u8]
    } else if cp < 0x800 {
        seq![(0xC0 + cp / 0x40) as u8, (0x80 + cp % 0x40) as u8]
    } else if cp < 0x10000 {
        seq![
            (0xE0 + cp / 0x1000) as u8,
            (0x80 + (cp / 0x40) % 0x40) as u8,
            (0x80 + cp % 0x40) as u8,
        ]
    } else {
        seq![
            (0xF0 + cp / 0x40000) as u8,
            (0x80 + (cp / 0x1000) % 0x40) as u8,
            (0x80 + (cp / 0x40) % 0x40) as u8,
            (0x80 + cp % 0x40) as u8,
        ]
    }
}

/// Value of four hex digits at `i`, or 65536 when any is not hex.
pub open spec fn spec_hex4(s: Seq<u8>, i: int) -> int {
    if 0 <= i && i + 4 <= s.len() && hex_val(s[i]) < 16 && hex_val(s[i + 1]) < 16 && hex_val(
        s[i + 2],
    ) < 16 && hex_val(s[i + 3]) < 16 {
        hex_val(s[i]) * 0x1000 + hex_val(s[i + 1]) * 0x100 + hex_val(s[i + 2]) * 0x10 + hex_val(
            s[i + 3],
        )
    } else {
        0x10000
    }
}

/// Decoded byte for a single-character escape, or 0 for invalid (paired
/// with the validity test below).
pub open spec fn spec_esc_valid(e: u8) -> bool {
    e == 34 || e == 92 || e == 47 || e == 98 || e == 102 || e == 110 || e == 114 || e == 116
}

pub open spec fn spec_esc_byte(e: u8) -> u8 {
    if e == 98 {
        8u8
    } else if e == 102 {
        12u8
    } else if e == 110 {
        10u8
    } else if e == 114 {
        13u8
    } else if e == 116 {
        9u8
    } else {
        e
    }
}

/// A `\u` escape at `i` (the backslash): the decoded UTF-8 bytes and the
/// index after it, surrogate pairs combined, lone surrogates refused.
pub open spec fn spec_unicode_escape(s: Seq<u8>, i: int) -> Option<(Seq<u8>, int)> {
    let cp = spec_hex4(s, i + 2);
    if cp >= 0x10000 {
        None
    } else if 0xD800 <= cp < 0xDC00 {
        if i + 8 <= s.len() && s[i + 6] == 92 && s[i + 7] == 117 {
            let low = spec_hex4(s, i + 8);
            if 0xDC00 <= low < 0xE000 {
                Some((spec_utf8_enc(0x10000 + (cp - 0xD800) * 0x400 + (low - 0xDC00)), i + 12))
            } else {
                None
            }
        } else {
            None
        }
    } else if 0xDC00 <= cp < 0xE000 {
        None
    } else {
        Some((spec_utf8_enc(cp), i + 6))
    }
}

/// The body of a string literal from `i` (just after the opening quote):
/// the decoded bytes and the index after the closing quote.
pub open spec fn spec_parse_string(s: Seq<u8>, i: int) -> Option<(Seq<u8>, int)>
    decreases
            (if 0 <= i && i < s.len() {
                s.len() - i
            } else {
                0
            }),
{
    if !(0 <= i < s.len()) {
        None
    } else {
        let c = s[i];
        if c == 34 {
            Some((Seq::<u8>::empty(), i + 1))
        } else if c == 92 {
            if i + 1 >= s.len() {
                None
            } else if s[i + 1] == 117 {
                match spec_unicode_escape(s, i) {
                    None => None,
                    Some((bs, j)) => if j <= i {
                        None
                    } else {
                        match spec_parse_string(s, j) {
                            None => None,
                            Some((t, k)) => Some((bs + t, k)),
                        }
                    },
                }
            } else if spec_esc_valid(s[i + 1]) {
                match spec_parse_string(s, i + 2) {
                    None => None,
                    Some((t, k)) => Some((seq![spec_esc_byte(s[i + 1])] + t, k)),
                }
            } else {
                None
            }
        } else if c < 32 {
            None
        } else {
            match spec_utf8_step(s, i) {
                None => None,
                Some(l) => if l < 1 {
                    None
                } else {
                    match spec_parse_string(s, i + l) {
                        None => None,
                        Some((t, k)) => Some((s.subrange(i, i + l) + t, k)),
                    }
                },
            }
        }
    }
}

/// A JSON value at `i` (whitespace first skipped), with nesting depth `d`:
/// the value and the index after it.
pub open spec fn spec_parse_value(s: Seq<u8>, i: int, d: nat) -> Option<(JsonV, int)>
    decreases d,
            (if 0 <= i && i <= s.len() {
                s.len() - i
            } else {
                0
            }),
            0int,
{
    if !(0 <= i && i <= s.len()) {
        None
    } else {
    let p = spec_ws_end(s, i);
    if !(i <= p < s.len()) {
        None
    } else {
        let c = s[p];
        if c == 110 {
            // null
            if p + 4 <= s.len() && s[p + 1] == 117 && s[p + 2] == 108 && s[p + 3] == 108 {
                Some((JsonV::Null, p + 4))
            } else {
                None
            }
        } else if c == 116 {
            // true
            if p + 4 <= s.len() && s[p + 1] == 114 && s[p + 2] == 117 && s[p + 3] == 101 {
                Some((JsonV::Bool(true), p + 4))
            } else {
                None
            }
        } else if c == 102 {
            // false
            if p + 5 <= s.len() && s[p + 1] == 97 && s[p + 2] == 108 && s[p + 3] == 115 && s[p + 4]
                == 101 {
                Some((JsonV::Bool(false), p + 5))
            } else {
                None
            }
        } else if c == 34 {
            match spec_parse_string(s, p + 1) {
                None => None,
                Some((t, k)) => Some((JsonV::Str(t), k)),
            }
        } else if c == 45 || is_digit(c) {
            match spec_parse_number(s, p) {
                None => None,
                Some((dec, k)) => Some((JsonV::Num(dec), k)),
            }
        } else if c == 91 {
            // array
            if d == 0 {
                None
            } else {
                let q = spec_ws_end(s, p + 1);
                if !(p < q && q < s.len()) {
                    None
                } else if s[q] == 93 {
                    Some((JsonV::Arr(Seq::<JsonV>::empty()), q + 1))
                } else {
                    match spec_parse_items(s, q, (d - 1) as nat) {
                        None => None,
                        Some((vs, k)) => Some((JsonV::Arr(vs), k)),
                    }
                }
            }
        } else if c == 123 {
            // object
            if d == 0 {
                None
            } else {
                let q = spec_ws_end(s, p + 1);
                if !(p < q && q < s.len()) {
                    None
                } else if s[q] == 125 {
                    Some((JsonV::Obj(Seq::<(Seq<u8>, JsonV)>::empty()), q + 1))
                } else {
                    match spec_parse_members(s, q, (d - 1) as nat) {
                        None => None,
                        Some((ms, k)) => Some((JsonV::Obj(ms), k)),
                    }
                }
            }
        } else {
            None
        }
    }
    }
}

/// One or more comma-separated values ending with `]`.
pub open spec fn spec_parse_items(s: Seq<u8>, i: int, d: nat) -> Option<(Seq<JsonV>, int)>
    decreases d,
            (if 0 <= i && i <= s.len() {
                s.len() - i
            } else {
                0
            }),
            1int,
{
    if !(0 <= i && i <= s.len()) {
        None
    } else {
    match spec_parse_value(s, i, d) {
        None => None,
        Some((v, j)) => if j <= i || j > s.len() {
            None
        } else {
            let q = spec_ws_end(s, j);
            if !(j <= q && q < s.len()) {
                None
            } else if s[q] == 93 {
                Some((seq![v], q + 1))
            } else if s[q] == 44 {
                match spec_parse_items(s, q + 1, d) {
                    None => None,
                    Some((vs, k)) => Some((seq![v] + vs, k)),
                }
            } else {
                None
            }
        },
    }
    }
}

/// One or more comma-separated `"key": value` members ending with `}`.
pub open spec fn spec_parse_members(s: Seq<u8>, i: int, d: nat) -> Option<
    (Seq<(Seq<u8>, JsonV)>, int),
>
    decreases d,
            (if 0 <= i && i <= s.len() {
                s.len() - i
            } else {
                0
            }),
            1int,
{
    if !(0 <= i && i <= s.len()) {
        None
    } else {
    if !(0 <= i < s.len() && s[i] == 34) {
        None
    } else {
        match spec_parse_string(s, i + 1) {
            None => None,
            Some((key, j)) => if j <= i || j > s.len() {
                None
            } else {
                let q = spec_ws_end(s, j);
                if !(j <= q && q < s.len() && s[q] == 58) {
                    None
                } else {
                    match spec_parse_value(s, q + 1, d) {
                        None => None,
                        Some((v, j2)) => if j2 <= q || j2 > s.len() {
                            None
                        } else {
                            let q2 = spec_ws_end(s, j2);
                            if !(j2 <= q2 && q2 < s.len()) {
                                None
                            } else if s[q2] == 125 {
                                Some((seq![(key, v)], q2 + 1))
                            } else if s[q2] == 44 {
                                let q3 = spec_ws_end(s, q2 + 1);
                                if q3 <= q2 {
                                    None
                                } else {
                                    match spec_parse_members(s, q3, d) {
                                        None => None,
                                        Some((ms, k)) => Some((seq![(key, v)] + ms, k)),
                                    }
                                }
                            } else {
                                None
                            }
                        },
                    }
                }
            },
        }
    }
    }
}

/// A complete JSON document: one value with only whitespace around it.
pub open spec fn spec_parse_json(s: Seq<u8>) -> Option<JsonV> {
    match spec_parse_value(s, 0, MAX_DEPTH as nat) {
        None => None,
        Some((v, j)) => if spec_ws_end(s, j) == s.len() {
            Some(v)
        } else {
            None
        },
    }
}

fn ws_end(s: &[u8], i: usize) -> (r: usize)
    requires
        i <= s.len(),
    ensures
        r as int == spec_ws_end(s@, i as int),
        i <= r <= s.len(),
{
    let mut r = i;
    while r < s.len() && (s[r] == 32 || s[r] == 9 || s[r] == 10 || s[r] == 13)
        invariant
            i <= r <= s.len(),
            spec_ws_end(s@, i as int) == spec_ws_end(s@, r as int),
        decreases s.len() - r,
    {
        r = r + 1;
    }
    r
}

fn digits_end(s: &[u8], i: usize) -> (r: usize)
    requires
        i <= s.len(),
    ensures
        r as int == spec_digits_end(s@, i as int),
        i <= r <= s.len(),
{
    let mut r = i;
    while r < s.len() && 48 <= s[r] && s[r] <= 57
        invariant
            i <= r <= s.len(),
            spec_digits_end(s@, i as int) == spec_digits_end(s@, r as int),
        decreases s.len() - r,
    {
        r = r + 1;
    }
    r
}

/// Every byte before the digit-run end is a digit.
proof fn lemma_digits_range(s: Seq<u8>, i: int)
    ensures
        forall|k: int| i <= k < spec_digits_end(s, i) ==> is_digit(s[k]),
        spec_digits_end(s, i) >= i,
        0 <= i <= s.len() ==> spec_digits_end(s, i) <= s.len(),
    decreases
            (if 0 <= i && i < s.len() {
                s.len() - i
            } else {
                0
            }),
{
    if 0 <= i && i < s.len() && is_digit(s[i]) {
        lemma_digits_range(s, i + 1);
    }
}

fn acc_digits(s: &[u8], i: usize, j: usize, acc0: u128) -> (r: Option<u128>)
    requires
        j <= s.len(),
        forall|k: int| i <= k < j ==> is_digit(s@[k]),
        acc0 <= MAX_MANTISSA,
    ensures
        match r {
            Some(a) => spec_acc_digits(s@, i as int, j as int, acc0 as int) == Some(a as int) && a
                <= MAX_MANTISSA,
            None => spec_acc_digits(s@, i as int, j as int, acc0 as int) is None,
        },
{
    let mut acc = acc0;
    let mut k = i;
    while k < j
        invariant
            j <= s.len(),
            i <= k,
            k <= j || k == i,
            acc <= MAX_MANTISSA,
            forall|q: int| i <= q < j ==> is_digit(s@[q]),
            spec_acc_digits(s@, i as int, j as int, acc0 as int) == spec_acc_digits(
                s@,
                k as int,
                j as int,
                acc as int,
            ),
        decreases j - k,
    {
        let d = s[k];
        let dv = (d - 48) as u128;
        proof {
            let m = MAX_MANTISSA as int;
            let di = s@[k as int] - 48;
            vstd::arithmetic::div_mod::lemma_fundamental_div_mod(m - di, 10);
            assert((acc as int > (m - di) / 10) == ((acc as int) * 10 + di > m))
                by (nonlinear_arith)
                requires
                    m - di == 10 * ((m - di) / 10) + (m - di) % 10,
                    0 <= (m - di) % 10 < 10,
            ;
        }
        if acc > (MAX_MANTISSA - dv) / 10 {
            return None;
        }
        acc = acc * 10 + dv;
        k = k + 1;
    }
    Some(acc)
}

fn hex4(s: &[u8], i: usize) -> (r: u32)
    ensures
        r as int == spec_hex4(s@, i as int),
{
    if s.len() < 4 || i > s.len() - 4 {
        return 0x10000;
    }
    let a = hex_digit(s[i]);
    let b = hex_digit(s[i + 1]);
    let c = hex_digit(s[i + 2]);
    let d = hex_digit(s[i + 3]);
    if a >= 16 || b >= 16 || c >= 16 || d >= 16 {
        return 0x10000;
    }
    (a as u32) * 0x1000 + (b as u32) * 0x100 + (c as u32) * 0x10 + (d as u32)
}

fn utf8_step(s: &[u8], i: usize) -> (r: Option<usize>)
    requires
        i < s.len(),
    ensures
        match r {
            Some(l) => spec_utf8_step(s@, i as int) == Some(l as int) && 1 <= l && i + l <= s.len(),
            None => spec_utf8_step(s@, i as int) is None,
        },
{
    let c = s[i];
    if c < 0x80 {
        Some(1)
    } else if 0xC2 <= c && c <= 0xDF {
        if s.len() - i >= 2 && 0x80 <= s[i + 1] && s[i + 1] <= 0xBF {
            Some(2)
        } else {
            None
        }
    } else if c == 0xE0 {
        if s.len() - i >= 3 && 0xA0 <= s[i + 1] && s[i + 1] <= 0xBF && 0x80 <= s[i + 2] && s[i + 2]
            <= 0xBF {
            Some(3)
        } else {
            None
        }
    } else if (0xE1 <= c && c <= 0xEC) || c == 0xEE || c == 0xEF {
        if s.len() - i >= 3 && 0x80 <= s[i + 1] && s[i + 1] <= 0xBF && 0x80 <= s[i + 2] && s[i + 2]
            <= 0xBF {
            Some(3)
        } else {
            None
        }
    } else if c == 0xED {
        if s.len() - i >= 3 && 0x80 <= s[i + 1] && s[i + 1] <= 0x9F && 0x80 <= s[i + 2] && s[i + 2]
            <= 0xBF {
            Some(3)
        } else {
            None
        }
    } else if c == 0xF0 {
        if s.len() - i >= 4 && 0x90 <= s[i + 1] && s[i + 1] <= 0xBF && 0x80 <= s[i + 2] && s[i + 2]
            <= 0xBF && 0x80 <= s[i + 3] && s[i + 3] <= 0xBF {
            Some(4)
        } else {
            None
        }
    } else if 0xF1 <= c && c <= 0xF3 {
        if s.len() - i >= 4 && 0x80 <= s[i + 1] && s[i + 1] <= 0xBF && 0x80 <= s[i + 2] && s[i + 2]
            <= 0xBF && 0x80 <= s[i + 3] && s[i + 3] <= 0xBF {
            Some(4)
        } else {
            None
        }
    } else if c == 0xF4 {
        if s.len() - i >= 4 && 0x80 <= s[i + 1] && s[i + 1] <= 0x8F && 0x80 <= s[i + 2] && s[i + 2]
            <= 0xBF && 0x80 <= s[i + 3] && s[i + 3] <= 0xBF {
            Some(4)
        } else {
            None
        }
    } else {
        None
    }
}

fn utf8_enc(cp: u32, out: &mut Vec<u8>)
    requires
        cp < 0x110000,
    ensures
        final(out)@ == old(out)@ + spec_utf8_enc(cp as int),
{
    if cp < 0x80 {
        out.push(cp as u8);
        proof {
            assert(final(out)@ =~= old(out)@ + spec_utf8_enc(cp as int));
        }
    } else if cp < 0x800 {
        out.push((0xC0 + cp / 0x40) as u8);
        out.push((0x80 + cp % 0x40) as u8);
        proof {
            assert(final(out)@ =~= old(out)@ + spec_utf8_enc(cp as int));
        }
    } else if cp < 0x10000 {
        out.push((0xE0 + cp / 0x1000) as u8);
        out.push((0x80 + (cp / 0x40) % 0x40) as u8);
        out.push((0x80 + cp % 0x40) as u8);
        proof {
            assert(final(out)@ =~= old(out)@ + spec_utf8_enc(cp as int));
        }
    } else {
        out.push((0xF0 + cp / 0x40000) as u8);
        out.push((0x80 + (cp / 0x1000) % 0x40) as u8);
        out.push((0x80 + (cp / 0x40) % 0x40) as u8);
        out.push((0x80 + cp % 0x40) as u8);
        proof {
            assert(final(out)@ =~= old(out)@ + spec_utf8_enc(cp as int));
        }
    }
}

fn unicode_escape(s: &[u8], i: usize, out: &mut Vec<u8>) -> (r: Option<usize>)
    requires
        i < s.len(),
    ensures
        match r {
            Some(j) => match spec_unicode_escape(s@, i as int) {
                Some((bs, sj)) => final(out)@ == old(out)@ + bs && j as int == sj && i < j
                    <= s.len(),
                None => false,
            },
            None => spec_unicode_escape(s@, i as int) is None,
        },
{
    if s.len() - i < 6 {
        return None;
    }
    let cp = hex4(s, i + 2);
    if cp >= 0x10000 {
        return None;
    }
    if 0xD800 <= cp && cp < 0xDC00 {
        if s.len() - i >= 8 && s[i + 6] == 92 && s[i + 7] == 117 {
            let low = hex4(s, i + 8);
            if 0xDC00 <= low && low < 0xE000 {
                let full = 0x10000 + (cp - 0xD800) * 0x400 + (low - 0xDC00);
                utf8_enc(full, out);
                Some(i + 12)
            } else {
                None
            }
        } else {
            None
        }
    } else if 0xDC00 <= cp && cp < 0xE000 {
        None
    } else {
        utf8_enc(cp, out);
        Some(i + 6)
    }
}

/// Scan a string body from just after the opening quote.
fn parse_string(s: &[u8], i: usize) -> (r: Option<(Vec<u8>, usize)>)
    requires
        i <= s.len(),
    ensures
        match r {
            Some((v, j)) => match spec_parse_string(s@, i as int) {
                Some((t, sj)) => v@ == t && j as int == sj && i < j <= s.len(),
                None => false,
            },
            None => spec_parse_string(s@, i as int) is None,
        },
{
    let mut out: Vec<u8> = Vec::new();
    let mut cur = i;
    loop
        invariant
            i <= cur <= s.len(),
            (match spec_parse_string(s@, cur as int) {
                Some((t, k)) => spec_parse_string(s@, i as int) == Some::<(Seq<u8>, int)>(
                    (out@ + t, k),
                ),
                None => spec_parse_string(s@, i as int) is None,
            }),
        decreases s.len() - cur,
    {
        if cur >= s.len() {
            return None;
        }
        let ghost cur0 = cur as int;
        let ghost out0 = out@;
        let c = s[cur];
        if c == 34 {
            proof {
                assert(out@ + Seq::<u8>::empty() =~= out@);
            }
            return Some((out, cur + 1));
        } else if c == 92 {
            if cur + 1 >= s.len() {
                return None;
            }
            let e = s[cur + 1];
            if e == 117 {
                match unicode_escape(s, cur, &mut out) {
                    None => {
                        return None;
                    },
                    Some(j) => {
                        cur = j;
                        proof {
                            let bs = spec_unicode_escape(s@, cur0)->Some_0.0;
                            assert forall|t: Seq<u8>, k: int|
                                spec_parse_string(s@, cur as int) == Some::<(Seq<u8>, int)>(
                                    (t, k),
                                ) implies spec_parse_string(s@, i as int) == Some::<(Seq<u8>, int)>(
                                (out@ + t, k),
                            ) by {
                                assert(spec_parse_string(s@, cur0) == Some::<(Seq<u8>, int)>(
                                    (bs + t, k),
                                ));
                                assert(out0 + (bs + t) =~= out@ + t);
                            }
                        }
                    },
                }
            } else if e == 34 || e == 92 || e == 47 || e == 98 || e == 102 || e == 110 || e == 114
                || e == 116 {
                let b: u8 = if e == 98 {
                    8
                } else if e == 102 {
                    12
                } else if e == 110 {
                    10
                } else if e == 114 {
                    13
                } else if e == 116 {
                    9
                } else {
                    e
                };
                out.push(b);
                cur = cur + 2;
                proof {
                    assert forall|t: Seq<u8>, k: int|
                        spec_parse_string(s@, cur as int) == Some::<(Seq<u8>, int)>(
                            (t, k),
                        ) implies spec_parse_string(s@, i as int) == Some::<(Seq<u8>, int)>(
                        (out@ + t, k),
                    ) by {
                        assert(spec_parse_string(s@, cur0) == Some::<(Seq<u8>, int)>(
                            (seq![spec_esc_byte(s@[cur0 + 1])] + t, k),
                        ));
                        assert(out0 + (seq![spec_esc_byte(s@[cur0 + 1])] + t) =~= out@ + t);
                    }
                }
            } else {
                return None;
            }
        } else if c < 32 {
            return None;
        } else {
            match utf8_step(s, cur) {
                None => {
                    return None;
                },
                Some(l) => {
                    let mut m: usize = 0;
                    while m < l
                        invariant
                            m <= l,
                            cur + l <= s.len(),
                            out@ == out0 + s@.subrange(cur0, cur0 + m),
                            cur as int == cur0,
                        decreases l - m,
                    {
                        out.push(s[cur + m]);
                        m = m + 1;
                        proof {
                            assert(out0 + s@.subrange(cur0, cur0 + m - 1) + seq![
                                s@[cur0 + m - 1],
                            ] =~= out0 + s@.subrange(cur0, cur0 + m));
                        }
                    }
                    cur = cur + l;
                    proof {
                        assert forall|t: Seq<u8>, k: int|
                            spec_parse_string(s@, cur as int) == Some::<(Seq<u8>, int)>(
                                (t, k),
                            ) implies spec_parse_string(s@, i as int) == Some::<(Seq<u8>, int)>(
                            (out@ + t, k),
                        ) by {
                            assert(spec_parse_string(s@, cur0) == Some::<(Seq<u8>, int)>(
                                (s@.subrange(cur0, cur as int) + t, k),
                            ));
                            assert(out0 + (s@.subrange(cur0, cur as int) + t) =~= out@ + t);
                        }
                    }
                },
            }
        }
    }
}

/// Read a number literal.
fn parse_number(s: &[u8], i: usize) -> (r: Option<(Dec, usize)>)
    requires
        i < s.len(),
    ensures
        match r {
            Some((d, j)) => spec_parse_number(s@, i as int) == Some((d, j as int)) && i < j
                <= s.len(),
            None => spec_parse_number(s@, i as int) is None,
        },
{
    let neg = s[i] == 45;
    let i1 = if neg {
        i + 1
    } else {
        i
    };
    if !(i1 < s.len() && 48 <= s[i1] && s[i1] <= 57) {
        return None;
    }
    let int_end = if s[i1] == 48 {
        i1 + 1
    } else {
        digits_end(s, i1)
    };
    let has_frac = int_end < s.len() && s[int_end] == 46;
    let frac_start = if has_frac {
        int_end + 1
    } else {
        int_end
    };
    let frac_end = if has_frac {
        digits_end(s, frac_start)
    } else {
        int_end
    };
    if has_frac && frac_end == frac_start {
        return None;
    }
    let exp = parse_exp(s, frac_end);
    proof {
        lemma_digits_range(s@, i1 as int);
        lemma_digits_range(s@, i1 as int + 1);
        lemma_digits_range(s@, frac_start as int);
        assert(int_end > i1);
    }
    match exp {
        None => None,
        Some((e_val, after)) => {
            let a0 = acc_digits(s, i1, int_end, 0);
            let m0 = match a0 {
                None => None,
                Some(a) => if has_frac {
                    acc_digits(s, frac_start, frac_end, a)
                } else {
                    Some(a)
                },
            };
            match m0 {
                None => None,
                Some(m) => {
                    let fraclen: usize = if has_frac {
                        frac_end - frac_start
                    } else {
                        0
                    };
                    let e_eff: i128 = (e_val as i128) - (fraclen as i128);
                    if e_eff >= 0 {
                        scale_up(neg, m, e_eff, after)
                    } else {
                        let sc = -e_eff;
                        if sc > 0xFFFFFFFF {
                            None
                        } else {
                            let mantissa: i128 = if neg {
                                -(m as i128)
                            } else {
                                m as i128
                            };
                            Some((Dec { mantissa, scale: sc as u32 }, after))
                        }
                    }
                },
            }
        },
    }
}

/// Multiply the mantissa up when the exponent exceeds the fraction length.
fn scale_up(neg: bool, m: u128, e_eff: i128, after: usize) -> (r: Option<(Dec, usize)>)
    requires
        0 <= e_eff,
        m <= MAX_MANTISSA,
    ensures
        ({
            let m1 = m as int * spec_pow10(e_eff as nat);
            match r {
                Some((d, j)) => m1 <= MAX_MANTISSA as int && j == after && d == (Dec {
                    mantissa: (if neg {
                        -m1
                    } else {
                        m1
                    }) as i128,
                    scale: 0,
                }),
                None => m1 > MAX_MANTISSA as int,
            }
        }),
{
    if m == 0 {
        proof {
            crate::util::lemma_pow10_pos(e_eff as nat);
            assert(0int * spec_pow10(e_eff as nat) == 0) by (nonlinear_arith);
        }
        return Some((Dec { mantissa: 0, scale: 0 }, after));
    }
    if e_eff > 38 {
        proof {
            crate::util::lemma_pow10_increases(39, e_eff as nat);
            reveal_with_fuel(crate::util::pow10, 41);
            assert(m as int * spec_pow10(e_eff as nat) > MAX_MANTISSA as int) by (nonlinear_arith)
                requires
                    m >= 1,
                    spec_pow10(e_eff as nat) >= crate::util::pow10(39),
                    crate::util::pow10(39) > 0x100000000000000000000000000000000,
            ;
        }
        return None;
    }
    match crate::util::pow10_i128(e_eff as u32) {
        None => {
            proof {
                assert(false);
            }
            None
        },
        Some(p) => {
            proof {
                crate::util::lemma_pow10_pos(e_eff as nat);
            }
            let pu = p as u128;
            let limit = MAX_MANTISSA / pu;
            if m > limit {
                proof {
                    let pi = pu as int;
                    let b = MAX_MANTISSA as int;
                    vstd::arithmetic::div_mod::lemma_fundamental_div_mod(b, pi);
                    assert(m as int * pi > b) by (nonlinear_arith)
                        requires
                            m as int >= b / pi + 1,
                            b == pi * (b / pi) + b % pi,
                            0 <= b % pi < pi,
                            pi > 0,
                    ;
                }
                None
            } else {
                proof {
                    let pi = pu as int;
                    let b = MAX_MANTISSA as int;
                    vstd::arithmetic::div_mod::lemma_fundamental_div_mod(b, pi);
                    assert(m as int * pi <= b) by (nonlinear_arith)
                        requires
                            m as int <= b / pi,
                            b == pi * (b / pi) + b % pi,
                            0 <= b % pi < pi,
                            pi > 0,
                    ;
                }
                let m1 = m * pu;
                let mantissa: i128 = if neg {
                    -(m1 as i128)
                } else {
                    m1 as i128
                };
                Some((Dec { mantissa, scale: 0 }, after))
            }
        },
    }
}

/// Read the optional exponent part.
fn parse_exp(s: &[u8], i: usize) -> (r: Option<(i64, usize)>)
    requires
        i <= s.len(),
    ensures
        match r {
            Some((e, j)) => spec_parse_exp(s@, i as int) == Some((e as int, j as int)) && i <= j
                <= s.len(),
            None => spec_parse_exp(s@, i as int) is None,
        },
{
    if i < s.len() && (s[i] == 101 || s[i] == 69) {
        let j = if i + 1 < s.len() && (s[i + 1] == 43 || s[i + 1] == 45) {
            i + 2
        } else {
            i + 1
        };
        let eneg = i + 1 < s.len() && s[i + 1] == 45;
        if !(j < s.len() && 48 <= s[j] && s[j] <= 57) {
            return None;
        }
        let e_end = digits_end(s, j);
        proof {
            lemma_digits_range(s@, j as int);
        }
        match acc_exp(s, j, e_end, 0) {
            None => None,
            Some(e) => Some(
                (
                    if eneg {
                        -e
                    } else {
                        e
                    },
                    e_end,
                ),
            ),
        }
    } else {
        Some((0, i))
    }
}

/// How an executable parse result relates to the specification's.
pub open spec fn parse_value_matches(r: Option<(Json, usize)>, s: Option<(JsonV, int)>) -> bool {
    match (r, s) {
        (Some((v, j)), Some((sv, sj))) => json_view(v) == sv && j as int == sj,
        (None, None) => true,
        _ => false,
    }
}

/// Parse one JSON value, whitespace skipped first.
pub fn parse_value(s: &[u8], i: usize, d: u32) -> (r: Option<(Json, usize)>)
    requires
        i <= s.len(),
    ensures
        parse_value_matches(r, spec_parse_value(s@, i as int, d as nat)),
        r is Some ==> i < r->Some_0.1 && r->Some_0.1 <= s.len(),
    decreases d, s.len() - i, 0int,
{
    let p = ws_end(s, i);
    if p >= s.len() {
        return None;
    }
    let c = s[p];
    if c == 110 {
        if s.len() - p >= 4 && s[p + 1] == 117 && s[p + 2] == 108 && s[p + 3] == 108 {
            Some((Json::Null, p + 4))
        } else {
            None
        }
    } else if c == 116 {
        if s.len() - p >= 4 && s[p + 1] == 114 && s[p + 2] == 117 && s[p + 3] == 101 {
            Some((Json::Bool(true), p + 4))
        } else {
            None
        }
    } else if c == 102 {
        if s.len() - p >= 5 && s[p + 1] == 97 && s[p + 2] == 108 && s[p + 3] == 115 && s[p + 4]
            == 101 {
            Some((Json::Bool(false), p + 5))
        } else {
            None
        }
    } else if c == 34 {
        match parse_string(s, p + 1) {
            None => None,
            Some((bytes, k)) => Some((Json::Str(bytes), k)),
        }
    } else if c == 45 || (48 <= c && c <= 57) {
        match parse_number(s, p) {
            None => None,
            Some((dec, k)) => Some((Json::Num(dec), k)),
        }
    } else if c == 91 {
        if d == 0 {
            None
        } else {
            let q = ws_end(s, p + 1);
            if q >= s.len() {
                None
            } else if s[q] == 93 {
                let v: Vec<Json> = Vec::new();
                proof {
                    assert(jsons_view(v@) =~= Seq::<JsonV>::empty());
                }
                Some((Json::Arr(v), q + 1))
            } else {
                match parse_items(s, q, d - 1) {
                    None => None,
                    Some((vs, k)) => Some((Json::Arr(vs), k)),
                }
            }
        }
    } else if c == 123 {
        if d == 0 {
            None
        } else {
            let q = ws_end(s, p + 1);
            if q >= s.len() {
                None
            } else if s[q] == 125 {
                let v: Vec<(Vec<u8>, Json)> = Vec::new();
                proof {
                    assert(jmembers_view(v@) =~= Seq::<(Seq<u8>, JsonV)>::empty());
                }
                Some((Json::Obj(v), q + 1))
            } else {
                match parse_members(s, q, d - 1) {
                    None => None,
                    Some((ms, k)) => Some((Json::Obj(ms), k)),
                }
            }
        }
    } else {
        None
    }
}

/// Parse the comma-separated values of a non-empty array.
fn parse_items(s: &[u8], i: usize, d: u32) -> (r: Option<(Vec<Json>, usize)>)
    requires
        i <= s.len(),
    ensures
        match r {
            Some((vs, j)) => match spec_parse_items(s@, i as int, d as nat) {
                Some((t, k)) => jsons_view(vs@) == t && j as int == k && i < j <= s.len(),
                None => false,
            },
            None => spec_parse_items(s@, i as int, d as nat) is None,
        },
    decreases d, s.len() - i, 1int,
{
    let mut out: Vec<Json> = Vec::new();
    let mut cur = i;
    proof {
        assert(jsons_view(out@) =~= Seq::<JsonV>::empty());
    }
    loop
        invariant
            i <= cur <= s.len(),
            (match spec_parse_items(s@, cur as int, d as nat) {
                Some((t, k)) => spec_parse_items(s@, i as int, d as nat) == Some::<
                    (Seq<JsonV>, int),
                >((jsons_view(out@) + t, k)) && cur < k <= s.len(),
                None => spec_parse_items(s@, i as int, d as nat) is None,
            }) || (match spec_parse_items(s@, cur as int, d as nat) {
                Some((t, k)) => spec_parse_items(s@, i as int, d as nat) == Some::<
                    (Seq<JsonV>, int),
                >((jsons_view(out@) + t, k)),
                None => spec_parse_items(s@, i as int, d as nat) is None,
            }),
        decreases s.len() - cur,
    {
        let ghost cur0 = cur as int;
        let ghost out0 = out@;
        match parse_value(s, cur, d) {
            None => {
                return None;
            },
            Some((v, j)) => {
                let q = ws_end(s, j);
                if q >= s.len() {
                    return None;
                }
                if s[q] == 93 {
                    out.push(v);
                    proof {
                        crate::json::lemma_jsons_view_push(out0, v);
                        assert(spec_parse_items(s@, cur0, d as nat) == Some::<(Seq<JsonV>, int)>(
                            (seq![json_view(v)], q + 1),
                        ));
                        assert(jsons_view(out0) + seq![json_view(v)] =~= jsons_view(out@));
                    }
                    return Some((out, q + 1));
                } else if s[q] == 44 {
                    out.push(v);
                    cur = q + 1;
                    proof {
                        crate::json::lemma_jsons_view_push(out0, v);
                        assert forall|t: Seq<JsonV>, k: int|
                            spec_parse_items(s@, cur as int, d as nat) == Some::<(Seq<JsonV>, int)>(
                                (t, k),
                            ) implies spec_parse_items(s@, i as int, d as nat) == Some::<
                            (Seq<JsonV>, int),
                        >((jsons_view(out@) + t, k)) by {
                            assert(spec_parse_items(s@, cur0, d as nat) == Some::<
                                (Seq<JsonV>, int),
                            >((seq![json_view(v)] + t, k)));
                            assert(jsons_view(out0) + (seq![json_view(v)] + t) =~= jsons_view(out@)
                                + t);
                        }
                    }
                } else {
                    return None;
                }
            },
        }
    }
}

/// Parse the comma-separated members of a non-empty object.
fn parse_members(s: &[u8], i: usize, d: u32) -> (r: Option<(Vec<(Vec<u8>, Json)>, usize)>)
    requires
        i <= s.len(),
    ensures
        match r {
            Some((ms, j)) => match spec_parse_members(s@, i as int, d as nat) {
                Some((t, k)) => jmembers_view(ms@) == t && j as int == k && i < j <= s.len(),
                None => false,
            },
            None => spec_parse_members(s@, i as int, d as nat) is None,
        },
    decreases d, s.len() - i, 1int,
{
    let mut out: Vec<(Vec<u8>, Json)> = Vec::new();
    let mut cur = i;
    proof {
        assert(jmembers_view(out@) =~= Seq::<(Seq<u8>, JsonV)>::empty());
    }
    loop
        invariant
            i <= cur <= s.len(),
            (match spec_parse_members(s@, cur as int, d as nat) {
                Some((t, k)) => spec_parse_members(s@, i as int, d as nat) == Some::<
                    (Seq<(Seq<u8>, JsonV)>, int),
                >((jmembers_view(out@) + t, k)),
                None => spec_parse_members(s@, i as int, d as nat) is None,
            }),
        decreases s.len() - cur,
    {
        let ghost cur0 = cur as int;
        let ghost out0 = out@;
        if cur >= s.len() || s[cur] != 34 {
            return None;
        }
        match parse_string(s, cur + 1) {
            None => {
                return None;
            },
            Some((key, j)) => {
                let q = ws_end(s, j);
                if q >= s.len() || s[q] != 58 {
                    return None;
                }
                match parse_value(s, q + 1, d) {
                    None => {
                        return None;
                    },
                    Some((v, j2)) => {
                        let q2 = ws_end(s, j2);
                        if q2 >= s.len() {
                            return None;
                        }
                        if s[q2] == 125 {
                            let ghost keyg = key;
                            out.push((key, v));
                            proof {
                                crate::json::lemma_jmembers_view_push(out0, keyg, v);
                                assert(spec_parse_members(s@, cur0, d as nat) == Some::<
                                    (Seq<(Seq<u8>, JsonV)>, int),
                                >((seq![(keyg@, json_view(v))], q2 + 1)));
                                assert(jmembers_view(out0) + seq![(keyg@, json_view(v))]
                                    =~= jmembers_view(out@));
                            }
                            return Some((out, q2 + 1));
                        } else if s[q2] == 44 {
                            let q3 = ws_end(s, q2 + 1);
                            let ghost keyg = key;
                            out.push((key, v));
                            cur = q3;
                            proof {
                                crate::json::lemma_jmembers_view_push(out0, keyg, v);
                                assert forall|t: Seq<(Seq<u8>, JsonV)>, k: int|
                                    spec_parse_members(s@, cur as int, d as nat) == Some::<
                                        (Seq<(Seq<u8>, JsonV)>, int),
                                    >((t, k)) implies spec_parse_members(s@, i as int, d as nat)
                                    == Some::<(Seq<(Seq<u8>, JsonV)>, int)>(
                                    (jmembers_view(out@) + t, k),
                                ) by {
                                    assert(spec_parse_members(s@, cur0, d as nat) == Some::<
                                        (Seq<(Seq<u8>, JsonV)>, int),
                                    >((seq![(keyg@, json_view(v))] + t, k)));
                                    assert(jmembers_view(out0) + (seq![(keyg@, json_view(v))] + t)
                                        =~= jmembers_view(out@) + t);
                                }
                            }
                        } else {
                            return None;
                        }
                    },
                }
            },
        }
    }
}

/// Parse a complete JSON document.
pub fn parse_json(s: &[u8]) -> (r: Option<Json>)
    ensures
        match spec_parse_json(s@) {
            Some(jv) => r is Some && json_view(r->0) == jv,
            None => r is None,
        },
{
    match parse_value(s, 0, MAX_DEPTH) {
        None => None,
        Some((v, j)) => {
            let e = ws_end(s, j);
            if e == s.len() {
                Some(v)
            } else {
                None
            }
        },
    }
}

fn acc_exp(s: &[u8], i: usize, j: usize, acc0: i64) -> (r: Option<i64>)
    requires
        j <= s.len(),
        forall|k: int| i <= k < j ==> is_digit(s@[k]),
        0 <= acc0 <= 999_999,
    ensures
        match r {
            Some(a) => spec_acc_exp(s@, i as int, j as int, acc0 as int) == Some(a as int) && 0
                <= a <= 999_999,
            None => spec_acc_exp(s@, i as int, j as int, acc0 as int) is None,
        },
{
    let mut acc = acc0;
    let mut k = i;
    while k < j
        invariant
            j <= s.len(),
            i <= k,
            k <= j || k == i,
            0 <= acc <= 999_999,
            forall|q: int| i <= q < j ==> is_digit(s@[q]),
            spec_acc_exp(s@, i as int, j as int, acc0 as int) == spec_acc_exp(
                s@,
                k as int,
                j as int,
                acc as int,
            ),
        decreases j - k,
    {
        let d = s[k];
        let step = acc * 10 + ((d - 48) as i64);
        if step > 999_999 {
            return None;
        }
        acc = step;
        k = k + 1;
    }
    Some(acc)
}

} // verus!
