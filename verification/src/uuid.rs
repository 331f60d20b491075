//! Canonical UUID text: parsing of the hyphenated (and plain 32-digit)
//! hexadecimal form into sixteen bytes, and rendering back to the
//! lowercase hyphenated form.
use vstd::prelude::*;

verus! {

/// Value of a hexadecimal digit; 16 marks a byte outside 0-9a-fA-F.
pub open spec fn hex_val(c: u8) -> int {
    if 48 <= c <= 57 {
        c - 48
    } else if 97 <= c <= 102 {
        c - 97 + 10
    } else if 65 <= c <= 70 {
        c - 65 + 10
    } else {
        16
    }
}

/// Lowercase hexadecimal digit for a value below 16.
pub open spec fn hex_char(v: int) -> u8 {
    if v < 10 {
        (48 + v) as u8
    } else {
        (87 + v) as u8
    }
}

/// Position of the d-th hex digit in the hyphenated UUID form.
pub open spec fn uuid_digit_pos(d: int) -> int {
    d + (if d >= 8 {
        1int
    } else {
        0int
    }) + (if d >= 12 {
        1int
    } else {
        0int
    }) + (if d >= 16 {
        1int
    } else {
        0int
    }) + (if d >= 20 {
        1int
    } else {
        0int
    })
}

/// The sixteen bytes denoted by a UUID text: the 36-byte hyphenated form
/// (hyphens at 8, 13, 18 and 23) or the plain 32-digit form; `None`
/// otherwise.
pub open spec fn spec_uuid_parse(s: Seq<u8>) -> Option<Seq<u8>> {
    if s.len() == 36 {
        if s[8] == 45 && s[13] == 45 && s[18] == 45 && s[23] == 45 && (forall|d: int|
            0 <= d < 32 ==> hex_val(s[uuid_digit_pos(d)]) < 16) {
            Some(
                Seq::new(
                    16,
                    |i: int|
                        (hex_val(s[uuid_digit_pos(2 * i)]) * 16 + hex_val(
                            s[uuid_digit_pos(2 * i + 1)],
                        )) as u8,
                ),
            )
        } else {
            None
        }
    } else if s.len() == 32 {
        if forall|d: int| 0 <= d < 32 ==> hex_val(s[d]) < 16 {
            Some(Seq::new(16, |i: int| (hex_val(s[2 * i]) * 16 + hex_val(s[2 * i + 1])) as u8))
        } else {
            None
        }
    } else {
        None
    }
}

/// The lowercase hyphenated text of sixteen bytes.
pub open spec fn spec_uuid_render(b: Seq<u8>) -> Seq<u8> {
    Seq::new(
        36,
        |i: int|
            if i == 8 || i == 13 || i == 18 || i == 23 {
                45u8
            } else {
                let d = i - (if i > 8 {
                    1int
                } else {
                    0int
                }) - (if i > 13 {
                    1int
                } else {
                    0int
                }) - (if i > 18 {
                    1int
                } else {
                    0int
                }) - (if i > 23 {
                    1int
                } else {
                    0int
                });
                if d % 2 == 0 {
                    hex_char(b[d / 2] as int / 16)
                } else {
                    hex_char(b[d / 2] as int % 16)
                }
            },
    )
}

pub fn hex_digit(c: u8) -> (r: u8)
    ensures
        r as int == hex_val(c),
{
    if 48 <= c && c <= 57 {
        c - 48
    } else if 97 <= c && c <= 102 {
        c - 97 + 10
    } else if 65 <= c && c <= 70 {
        c - 65 + 10
    } else {
        16
    }
}

fn uuid_pos(d: usize) -> (r: usize)
    requires
        d < 32,
    ensures
        r as int == uuid_digit_pos(d as int),
        r < 36,
{
    let mut r = d;
    if d >= 8 {
        r = r + 1;
    }
    if d >= 12 {
        r = r + 1;
    }
    if d >= 16 {
        r = r + 1;
    }
    if d >= 20 {
        r = r + 1;
    }
    r
}

/// Parse a UUID text into its sixteen bytes.
pub fn uuid_parse(s: &[u8]) -> (r: Option<Vec<u8>>)
    ensures
        match r {
            Some(v) => spec_uuid_parse(s@) == Some(v@) && v@.len() == 16,
            None => spec_uuid_parse(s@) is None,
        },
{
    if s.len() == 36 {
        if !(s[8] == 45 && s[13] == 45 && s[18] == 45 && s[23] == 45) {
            return None;
        }
        let mut out: Vec<u8> = Vec::new();
        let mut i: usize = 0;
        while i < 16
            invariant
                i <= 16,
                s@.len() == 36,
                s@[8] == 45 && s@[13] == 45 && s@[18] == 45 && s@[23] == 45,
                out@.len() == i,
                forall|d: int| 0 <= d < 2 * i ==> hex_val(s@[uuid_digit_pos(d)]) < 16,
                forall|k: int|
                    0 <= k < i ==> out@[k] as int == hex_val(s@[uuid_digit_pos(2 * k)]) * 16
                        + hex_val(s@[uuid_digit_pos(2 * k + 1)]),
            decreases 16 - i,
        {
            let hi = hex_digit(s[uuid_pos(2 * i)]);
            let lo = hex_digit(s[uuid_pos(2 * i + 1)]);
            if hi >= 16 || lo >= 16 {
                return None;
            }
            out.push(hi * 16 + lo);
            i = i + 1;
        }
        proof {
            let v = Seq::new(
                16,
                |i: int|
                    (hex_val(s@[uuid_digit_pos(2 * i)]) * 16 + hex_val(
                        s@[uuid_digit_pos(2 * i + 1)],
                    )) as u8,
            );
            assert(out@ =~= v);
        }
        Some(out)
    } else if s.len() == 32 {
        let mut out: Vec<u8> = Vec::new();
        let mut i: usize = 0;
        while i < 16
            invariant
                i <= 16,
                s@.len() == 32,
                out@.len() == i,
                forall|d: int| 0 <= d < 2 * i ==> hex_val(s@[d]) < 16,
                forall|k: int|
                    0 <= k < i ==> out@[k] as int == hex_val(s@[2 * k]) * 16 + hex_val(
                        s@[2 * k + 1],
                    ),
            decreases 16 - i,
        {
            let hi = hex_digit(s[2 * i]);
            let lo = hex_digit(s[2 * i + 1]);
            if hi >= 16 || lo >= 16 {
                return None;
            }
            out.push(hi * 16 + lo);
            i = i + 1;
        }
        proof {
            let v = Seq::new(16, |i: int| (hex_val(s@[2 * i]) * 16 + hex_val(s@[2 * i + 1])) as u8);
            assert(out@ =~= v);
        }
        Some(out)
    } else {
        None
    }
}

/// Render sixteen bytes as lowercase hyphenated UUID text.
pub fn uuid_render(b: &[u8]) -> (r: Vec<u8>)
    requires
        b@.len() == 16,
    ensures
        r@ == spec_uuid_render(b@),
{
    let mut out: Vec<u8> = Vec::new();
    let mut i: usize = 0;
    while i < 36
        invariant
            i <= 36,
            b@.len() == 16,
            out@.len() == i,
            forall|k: int| 0 <= k < i ==> out@[k] == spec_uuid_render(b@)[k],
        decreases 36 - i,
    {
        if i == 8 || i == 13 || i == 18 || i == 23 {
            out.push(45);
        } else {
            let mut d = i;
            if i > 8 {
                d = d - 1;
            }
            if i > 13 {
                d = d - 1;
            }
            if i > 18 {
                d = d - 1;
            }
            if i > 23 {
                d = d - 1;
            }
            let byte = b[d / 2];
            let v = if d % 2 == 0 {
                byte / 16
            } else {
                byte % 16
            };
            let c = if v < 10 {
                48 + v
            } else {
                87 + v
            };
            out.push(c);
        }
        i = i + 1;
    }
    proof {
        assert(out@ =~= spec_uuid_render(b@));
    }
    out
}

/// Rendering then parsing returns the same sixteen bytes.
pub proof fn lemma_uuid_round_trip(b: Seq<u8>)
    requires
        b.len() == 16,
    ensures
        spec_uuid_parse(spec_uuid_render(b)) == Some(b),
{
    let s = spec_uuid_render(b);
    assert(s.len() == 36);
    assert forall|d: int| 0 <= d < 32 implies hex_val(s[uuid_digit_pos(d)]) < 16 by {
        assert(s[uuid_digit_pos(d)] == (if d % 2 == 0 {
            hex_char(b[d / 2] as int / 16)
        } else {
            hex_char(b[d / 2] as int % 16)
        }));
    }
    let v = spec_uuid_parse(s)->Some_0;
    assert forall|i: int| 0 <= i < 16 implies v[i] == b[i] by {
        assert(s[uuid_digit_pos(2 * i)] == hex_char(b[i] as int / 16));
        assert(s[uuid_digit_pos(2 * i + 1)] == hex_char(b[i] as int % 16));
    }
    assert(v =~= b);
}

} // verus!
