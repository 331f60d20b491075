//! RFC 3339 date-time handling. Parsing is delegated to chrono behind one
//! trusted wrapper that exposes three plain values — the local calendar
//! date as days since 1970-01-01, the local time of day in nanoseconds,
//! and the UTC offset in seconds — and every logical date/time value is
//! computed from those by verified arithmetic.
use vstd::prelude::*;

verus! {

/// What chrono's RFC 3339 parser yields for a byte string: `None` when the
/// bytes are not a valid offset date-time, else (days since epoch of the
/// local date, nanoseconds of the local time of day, offset seconds).
/// Determined by the input alone.
pub uninterp spec fn rfc3339_parts(s: Seq<u8>) -> Option<(i64, u64, i32)>;

/// Relies on chrono: `DateTime::<FixedOffset>::from_str` parses RFC 3339;
/// `date_naive`/`time` give the local date and time of day, whose distances
/// from `NaiveDate::default()` (1970-01-01) and `NaiveTime::default()`
/// (midnight) are exact by `TimeDelta::num_days`/`num_nanoseconds`; and
/// `FixedOffset::local_minus_utc` gives the offset. The bounds restate
/// chrono's documented ranges: dates within about ±262,000 years of the
/// epoch, a time of day below 86,401 seconds (leap second included), and
/// an offset strictly within one day.
#[verifier::external_body]
pub(crate) fn parse_rfc3339(s: &[u8]) -> (r: Option<(i64, u64, i32)>)
    ensures
        r == rfc3339_parts(s@),
        match r {
            Some(p) => -100_000_000 < p.0 < 100_000_000 && p.1 < 86_401_000_000_000 && -86400
                < p.2 < 86400,
            None => true,
        },
{
    let txt = core::str::from_utf8(s).ok()?;
    let dt: chrono::DateTime<chrono::FixedOffset> = txt.parse().ok()?;
    let days = dt.date_naive().signed_duration_since(chrono::NaiveDate::default()).num_days();
    let tod = dt.time().signed_duration_since(chrono::NaiveTime::default());
    let nanos = u64::try_from(tod.num_nanoseconds()?).ok()?;
    let offset = dt.offset().local_minus_utc();
    Some((days, nanos, offset))
}

/// Nanoseconds since the Unix epoch of the instant `(days, time of day,
/// offset)` describes: local wall-clock nanoseconds minus the offset.
pub open spec fn spec_epoch_nanos(p: (i64, u64, i32)) -> int {
    p.0 as int * 86_400_000_000_000 + p.1 as int - p.2 as int * 1_000_000_000
}

/// Milliseconds since the epoch, rounded toward minus infinity.
pub open spec fn spec_ts_millis(p: (i64, u64, i32)) -> int {
    spec_epoch_nanos(p) / 1_000_000
}

/// Microseconds since the epoch, rounded toward minus infinity.
pub open spec fn spec_ts_micros(p: (i64, u64, i32)) -> int {
    spec_epoch_nanos(p) / 1_000
}

/// Local wall-clock nanoseconds since the epoch, ignoring the offset.
pub open spec fn spec_local_nanos(p: (i64, u64, i32)) -> int {
    p.0 as int * 86_400_000_000_000 + p.1 as int
}

pub open spec fn spec_local_millis(p: (i64, u64, i32)) -> int {
    spec_local_nanos(p) / 1_000_000
}

pub open spec fn spec_local_micros(p: (i64, u64, i32)) -> int {
    spec_local_nanos(p) / 1_000
}

/// Floor division of a bounded 128-bit value by a positive constant.
fn div_floor_i128(a: i128, b: u64) -> (r: i128)
    requires
        b >= 1,
        -0x40000000000000000000000000000000 < a < 0x40000000000000000000000000000000,
    ensures
        r as int == a as int / b as int,
{
    if a >= 0 {
        let q = (a as u128) / (b as u128);
        proof {
            vstd::arithmetic::div_mod::lemma_div_nonincreasing(a as int, b as int);
            vstd::arithmetic::div_mod::lemma_div_pos_is_pos(a as int, b as int);
        }
        q as i128
    } else {
        let mag = ((-(a + 1)) as u128) + 1;
        let q = (mag + (b as u128) - 1) / (b as u128);
        proof {
            let ai = a as int;
            let bi = b as int;
            let qi = q as int;
            vstd::arithmetic::div_mod::lemma_fundamental_div_mod(mag as int + bi - 1, bi);
            assert(ai == bi * (-qi) + (bi - 1 - ((mag as int + bi - 1) % bi))) by (nonlinear_arith)
                requires
                    mag as int + bi - 1 == bi * qi + (mag as int + bi - 1) % bi,
                    mag as int == -ai,
            ;
            vstd::arithmetic::div_mod::lemma_fundamental_div_mod_converse(
                ai,
                bi,
                -qi,
                bi - 1 - ((mag as int + bi - 1) % bi),
            );
            assert(qi <= mag as int) by (nonlinear_arith)
                requires
                    mag as int + bi - 1 == bi * qi + (mag as int + bi - 1) % bi,
                    (mag as int + bi - 1) % bi >= 0,
                    bi >= 1,
                    mag as int >= 1,
            ;
        }
        -(q as i128)
    }
}

/// Milliseconds since the epoch of a parsed date-time.
pub fn epoch_millis(p: (i64, u64, i32)) -> (r: i64)
    requires
        -100_000_000 < p.0 < 100_000_000,
        p.1 < 86_401_000_000_000,
        -86400 < p.2 < 86400,
    ensures
        r as int == spec_ts_millis(p),
{
    let nanos: i128 = (p.0 as i128) * 86_400_000_000_000 + (p.1 as i128) - (p.2 as i128)
        * 1_000_000_000;
    let q = div_floor_i128(nanos, 1_000_000);
    q as i64
}

/// Microseconds since the epoch of a parsed date-time.
pub fn epoch_micros(p: (i64, u64, i32)) -> (r: i64)
    requires
        -100_000_000 < p.0 < 100_000_000,
        p.1 < 86_401_000_000_000,
        -86400 < p.2 < 86400,
    ensures
        r as int == spec_ts_micros(p),
{
    let nanos: i128 = (p.0 as i128) * 86_400_000_000_000 + (p.1 as i128) - (p.2 as i128)
        * 1_000_000_000;
    let q = div_floor_i128(nanos, 1_000);
    q as i64
}

/// Local wall-clock milliseconds since the epoch, offset ignored.
pub fn local_millis(p: (i64, u64, i32)) -> (r: i64)
    requires
        -100_000_000 < p.0 < 100_000_000,
        p.1 < 86_401_000_000_000,
    ensures
        r as int == spec_local_millis(p),
{
    let nanos: i128 = (p.0 as i128) * 86_400_000_000_000 + (p.1 as i128);
    let q = div_floor_i128(nanos, 1_000_000);
    q as i64
}

/// Local wall-clock microseconds since the epoch, offset ignored.
pub fn local_micros(p: (i64, u64, i32)) -> (r: i64)
    requires
        -100_000_000 < p.0 < 100_000_000,
        p.1 < 86_401_000_000_000,
    ensures
        r as int == spec_local_micros(p),
{
    let nanos: i128 = (p.0 as i128) * 86_400_000_000_000 + (p.1 as i128);
    let q = div_floor_i128(nanos, 1_000);
    q as i64
}

} // verus!
