//! Standard-alphabet base64 with mandatory canonical padding: the encoder
//! always pads with `=`, and the decoder rejects missing or non-canonical
//! padding and non-zero trailing bits.
use vstd::prelude::*;

verus! {

/// The standard-alphabet symbol for a 6-bit value.
pub open spec fn b64_sym(v: int) -> u8 {
    if v < 26 {
        (65 + v) as u8
    } else if v < 52 {
        (97 + (v - 26)) as u8
    } else if v < 62 {
        (48 + (v - 52)) as u8
    } else if v == 62 {
        43u8
    } else {
        47u8
    }
}

/// The 6-bit value of a symbol; 64 marks a byte outside the alphabet.
pub open spec fn b64_val(c: int) -> int {
    if 65 <= c <= 90 {
        c - 65
    } else if 97 <= c <= 122 {
        c - 97 + 26
    } else if 48 <= c <= 57 {
        c - 48 + 52
    } else if c == 43 {
        62
    } else if c == 47 {
        63
    } else {
        64
    }
}

pub proof fn lemma_b64_sym_val(v: int)
    requires
        0 <= v < 64,
    ensures
        b64_val(b64_sym(v) as int) == v,
{
}

/// The base64 encoding of a byte sequence, padded with `=`.
pub open spec fn b64_encode(s: Seq<u8>) -> Seq<u8>
    decreases s.len(),
{
    if s.len() == 0 {
        Seq::<u8>::empty()
    } else if s.len() == 1 {
        seq![
            b64_sym(s[0] as int / 4),
            b64_sym((s[0] % 4) * 16),
            61u8,
            61u8,
        ]
    } else if s.len() == 2 {
        seq![
            b64_sym(s[0] as int / 4),
            b64_sym((s[0] % 4) * 16 + s[1] / 16),
            b64_sym((s[1] % 16) * 4),
            61u8,
        ]
    } else {
        seq![
            b64_sym(s[0] as int / 4),
            b64_sym((s[0] % 4) * 16 + s[1] / 16),
            b64_sym((s[1] % 16) * 4 + s[2] / 64),
            b64_sym(s[2] as int % 64),
        ] + b64_encode(s.skip(3))
    }
}

/// The canonical decoding of a base64 sequence: `None` for any input the
/// strict decoder rejects (bad length, symbols outside the alphabet,
/// misplaced or missing padding, non-zero discarded bits).
pub open spec fn b64_decode(s: Seq<u8>) -> Option<Seq<u8>>
    decreases s.len(),
{
    if s.len() == 0 {
        Some(Seq::<u8>::empty())
    } else if s.len() % 4 != 0 {
        None
    } else if s.len() == 4 {
        let v0 = b64_val(s[0] as int);
        let v1 = b64_val(s[1] as int);
        let v2 = b64_val(s[2] as int);
        let v3 = b64_val(s[3] as int);
        if v0 == 64 || v1 == 64 {
            None
        } else if s[2] == 61 && s[3] == 61 {
            if v1 % 16 == 0 {
                Some(seq![(v0 * 4 + v1 / 16) as u8])
            } else {
                None
            }
        } else if s[3] == 61 {
            if v2 != 64 && v2 % 4 == 0 {
                Some(seq![(v0 * 4 + v1 / 16) as u8, ((v1 % 16) * 16 + v2 / 4) as u8])
            } else {
                None
            }
        } else if v2 != 64 && v3 != 64 {
            Some(
                seq![
                    (v0 * 4 + v1 / 16) as u8,
                    ((v1 % 16) * 16 + v2 / 4) as u8,
                    ((v2 % 4) * 64 + v3) as u8,
                ],
            )
        } else {
            None
        }
    } else {
        let v0 = b64_val(s[0] as int);
        let v1 = b64_val(s[1] as int);
        let v2 = b64_val(s[2] as int);
        let v3 = b64_val(s[3] as int);
        if v0 == 64 || v1 == 64 || v2 == 64 || v3 == 64 {
            None
        } else {
            match b64_decode(s.skip(4)) {
                Some(rest) => Some(
                    seq![
                        (v0 * 4 + v1 / 16) as u8,
                        ((v1 % 16) * 16 + v2 / 4) as u8,
                        ((v2 % 4) * 64 + v3) as u8,
                    ] + rest,
                ),
                None => None,
            }
        }
    }
}

fn sym(v: u8) -> (r: u8)
    requires
        v < 64,
    ensures
        r == b64_sym(v as int),
{
    if v < 26 {
        65 + v
    } else if v < 52 {
        97 + (v - 26)
    } else if v < 62 {
        48 + (v - 52)
    } else if v == 62 {
        43
    } else {
        47
    }
}

fn val(c: u8) -> (r: u8)
    ensures
        r == b64_val(c as int) || (r == 64 && b64_val(c as int) == 64),
        r as int == b64_val(c as int),
{
    if 65 <= c && c <= 90 {
        c - 65
    } else if 97 <= c && c <= 122 {
        c - 97 + 26
    } else if 48 <= c && c <= 57 {
        c - 48 + 52
    } else if c == 43 {
        62
    } else if c == 47 {
        63
    } else {
        64
    }
}

/// Encode bytes as padded standard-alphabet base64.
pub fn base64_encode(s: &[u8]) -> (r: Vec<u8>)
    ensures
        r@ == b64_encode(s@),
{
    let mut out: Vec<u8> = Vec::new();
    let mut i: usize = 0;
    proof {
        assert(s@.skip(0) =~= s@);
        assert(out@ + b64_encode(s@) =~= b64_encode(s@));
    }
    while s.len() - i >= 3
        invariant
            i <= s.len(),
            out@ + b64_encode(s@.skip(i as int)) == b64_encode(s@),
        decreases s.len() - i,
    {
        let ghost i0 = i as int;
        let ghost out0 = out@;
        let b0 = s[i];
        let b1 = s[i + 1];
        let b2 = s[i + 2];
        out.push(sym(b0 / 4));
        out.push(sym((b0 % 4) * 16 + b1 / 16));
        out.push(sym((b1 % 16) * 4 + b2 / 64));
        out.push(sym(b2 % 64));
        i = i + 3;
        proof {
            let t = s@.skip(i0);
            assert(t.skip(3) =~= s@.skip(i0 + 3));
            assert(t[0] == b0 && t[1] == b1 && t[2] == b2);
            let g = seq![
                b64_sym(b0 as int / 4),
                b64_sym((b0 % 4) * 16 + b1 / 16),
                b64_sym((b1 % 16) * 4 + b2 / 64),
                b64_sym(b2 as int % 64),
            ];
            assert(b64_encode(t) == g + b64_encode(t.skip(3)));
            assert(out@ =~= out0 + g);
            assert((out0 + g) + b64_encode(s@.skip(i as int)) =~= out0 + (g + b64_encode(
                s@.skip(i as int),
            )));
        }
    }
    let ghost out0 = out@;
    let rem = s.len() - i;
    if rem == 1 {
        let b0 = s[i];
        proof {
            assert(s@.skip(i as int)[0] == b0);
        }
        out.push(sym(b0 / 4));
        out.push(sym((b0 % 4) * 16));
        out.push(61);
        out.push(61);
        proof {
            assert(out@ =~= out0 + b64_encode(s@.skip(i as int)));
        }
    } else if rem == 2 {
        let b0 = s[i];
        let b1 = s[i + 1];
        proof {
            assert(s@.skip(i as int)[0] == b0 && s@.skip(i as int)[1] == b1);
        }
        out.push(sym(b0 / 4));
        out.push(sym((b0 % 4) * 16 + b1 / 16));
        out.push(sym((b1 % 16) * 4));
        out.push(61);
        proof {
            assert(out@ =~= out0 + b64_encode(s@.skip(i as int)));
        }
    } else {
        proof {
            assert(s@.skip(i as int) =~= Seq::<u8>::empty());
            assert(out@ =~= out0 + b64_encode(s@.skip(i as int)));
        }
    }
    out
}

/// Decode padded standard-alphabet base64, rejecting anything
/// non-canonical.
pub fn base64_decode(s: &[u8]) -> (r: Option<Vec<u8>>)
    ensures
        match r {
            Some(v) => b64_decode(s@) == Some(v@),
            None => b64_decode(s@) is None,
        },
{
    if s.len() % 4 != 0 {
        if s.len() != 0 {
            return None;
        }
        return Some(Vec::new());
    }
    let mut out: Vec<u8> = Vec::new();
    let mut i: usize = 0;
    proof {
        assert(s@.skip(0) =~= s@);
        assert forall|t: Seq<u8>| b64_decode(s@.skip(0)) == Some(t) implies b64_decode(s@)
            == Some(out@ + t) by {
            assert(out@ + t =~= t);
        }
    }
    while s.len() - i > 4
        invariant
            i <= s.len(),
            s.len() % 4 == 0,
            i % 4 == 0,
            forall|t: Seq<u8>|
                b64_decode(s@.skip(i as int)) == Some(t) ==> b64_decode(s@) == Some(out@ + t),
            b64_decode(s@.skip(i as int)) is None ==> b64_decode(s@) is None,
        decreases s.len() - i,
    {
        let ghost i0 = i as int;
        let ghost out0 = out@;
        let v0 = val(s[i]);
        let v1 = val(s[i + 1]);
        let v2 = val(s[i + 2]);
        let v3 = val(s[i + 3]);
        proof {
            let t = s@.skip(i as int);
            assert(t.skip(4) =~= s@.skip(i + 4));
            assert(t[0] == s@[i as int] && t[1] == s@[i + 1] && t[2] == s@[i + 2] && t[3] == s@[i
                + 3]);
            assert(t.len() % 4 == 0) by (nonlinear_arith)
                requires
                    t.len() == s@.len() - i,
                    s@.len() % 4 == 0,
                    i as int % 4 == 0,
                    i <= s@.len(),
            ;
        }
        if v0 == 64 || v1 == 64 || v2 == 64 || v3 == 64 {
            return None;
        }
        out.push(v0 * 4 + v1 / 16);
        out.push((v1 % 16) * 16 + v2 / 4);
        out.push((v2 % 4) * 64 + v3);
        i = i + 4;
        proof {
            let t = s@.skip(i0);
            let g = seq![
                (b64_val(t[0] as int) * 4 + b64_val(t[1] as int) / 16) as u8,
                ((b64_val(t[1] as int) % 16) * 16 + b64_val(t[2] as int) / 4) as u8,
                ((b64_val(t[2] as int) % 4) * 64 + b64_val(t[3] as int)) as u8,
            ];
            assert(out@ =~= out0 + g);
            assert forall|u: Seq<u8>| b64_decode(s@.skip(i as int)) == Some(u) implies b64_decode(
                s@,
            ) == Some(out@ + u) by {
                assert(b64_decode(t) == Some(g + u));
                assert(out0 + (g + u) =~= out@ + u);
            }
        }
    }
    if i == s.len() {
        proof {
            assert(s@.skip(i as int) =~= Seq::<u8>::empty());
            assert(b64_decode(s@.skip(i as int)) == Some(Seq::<u8>::empty()));
            assert(out@ + Seq::<u8>::empty() =~= out@);
        }
        return Some(out);
    }
    let ghost out0 = out@;
    let v0 = val(s[i]);
    let v1 = val(s[i + 1]);
    let v2 = val(s[i + 2]);
    let v3 = val(s[i + 3]);
    proof {
        let t = s@.skip(i as int);
        assert(t.len() == 4);
        assert(t[0] == s@[i as int] && t[1] == s@[i + 1] && t[2] == s@[i + 2] && t[3] == s@[i + 3]);
    }
    if v0 == 64 || v1 == 64 {
        return None;
    }
    if s[i + 2] == 61 && s[i + 3] == 61 {
        if v1 % 16 != 0 {
            return None;
        }
        out.push(v0 * 4 + v1 / 16);
        proof {
            let t = s@.skip(i as int);
            assert(b64_decode(t) == Some(seq![(b64_val(t[0] as int) * 4 + b64_val(t[1] as int)
                / 16) as u8]));
            assert(out@ =~= out0 + seq![(b64_val(t[0] as int) * 4 + b64_val(t[1] as int)
                / 16) as u8]);
        }
        Some(out)
    } else if s[i + 3] == 61 {
        if v2 == 64 || v2 % 4 != 0 {
            return None;
        }
        out.push(v0 * 4 + v1 / 16);
        out.push((v1 % 16) * 16 + v2 / 4);
        proof {
            let t = s@.skip(i as int);
            let g = seq![
                (b64_val(t[0] as int) * 4 + b64_val(t[1] as int) / 16) as u8,
                ((b64_val(t[1] as int) % 16) * 16 + b64_val(t[2] as int) / 4) as u8,
            ];
            assert(b64_decode(t) == Some(g));
            assert(out@ =~= out0 + g);
        }
        Some(out)
    } else {
        if v2 == 64 || v3 == 64 {
            return None;
        }
        out.push(v0 * 4 + v1 / 16);
        out.push((v1 % 16) * 16 + v2 / 4);
        out.push((v2 % 4) * 64 + v3);
        proof {
            let t = s@.skip(i as int);
            let g = seq![
                (b64_val(t[0] as int) * 4 + b64_val(t[1] as int) / 16) as u8,
                ((b64_val(t[1] as int) % 16) * 16 + b64_val(t[2] as int) / 4) as u8,
                ((b64_val(t[2] as int) % 4) * 64 + b64_val(t[3] as int)) as u8,
            ];
            assert(b64_decode(t) == Some(g));
            assert(out@ =~= out0 + g);
        }
        Some(out)
    }
}

/// Decoding inverts encoding: every encoded sequence decodes canonically
/// back to the original bytes.
pub proof fn lemma_b64_round_trip(s: Seq<u8>)
    ensures
        b64_decode(b64_encode(s)) == Some(s),
    decreases s.len(),
{
    if s.len() == 0 {
        assert(b64_decode(b64_encode(s)) == Some(s));
    } else if s.len() == 1 {
        let e = b64_encode(s);
        assert(e.len() == 4);
        lemma_b64_sym_val(s[0] as int / 4);
        lemma_b64_sym_val((s[0] % 4) * 16);
        assert(b64_decode(e) == Some(seq![s[0]]));
        assert(seq![s[0]] =~= s);
    } else if s.len() == 2 {
        let e = b64_encode(s);
        lemma_b64_sym_val(s[0] as int / 4);
        lemma_b64_sym_val((s[0] % 4) * 16 + s[1] / 16);
        lemma_b64_sym_val((s[1] % 16) * 4);
        assert(b64_decode(e) == Some(seq![s[0], s[1]]));
        assert(seq![s[0], s[1]] =~= s);
    } else {
        let e = b64_encode(s);
        lemma_b64_round_trip(s.skip(3));
        lemma_b64_sym_val(s[0] as int / 4);
        lemma_b64_sym_val((s[0] % 4) * 16 + s[1] / 16);
        lemma_b64_sym_val((s[1] % 16) * 4 + s[2] / 64);
        lemma_b64_sym_val(s[2] as int % 64);
        let head = seq![
            b64_sym(s[0] as int / 4),
            b64_sym((s[0] % 4) * 16 + s[1] / 16),
            b64_sym((s[1] % 16) * 4 + s[2] / 64),
            b64_sym(s[2] as int % 64),
        ];
        let rest = b64_encode(s.skip(3));
        assert(e == head + rest);
        assert(e.skip(4) =~= rest);
        assert(rest.len() % 4 == 0) by {
            lemma_b64_encode_len(s.skip(3));
        }
        if s.len() == 3 {
            assert(rest.len() == 0) by {
                lemma_b64_encode_len(s.skip(3));
            }
            assert(e.len() == 4);
            assert(b64_decode(e) == Some(seq![s[0], s[1], s[2]]));
            assert(seq![s[0], s[1], s[2]] =~= s);
        } else {
            assert(rest.len() >= 4) by {
                lemma_b64_encode_len(s.skip(3));
            }
            assert(e.len() >= 8);
            assert(e.len() % 4 == 0);
            assert(b64_decode(e) == Some(seq![s[0], s[1], s[2]] + s.skip(3)));
            assert(seq![s[0], s[1], s[2]] + s.skip(3) =~= s);
        }
    }
}

/// The encoding of `n` bytes occupies `4 * ceil(n / 3)` symbols.
pub proof fn lemma_b64_encode_len(s: Seq<u8>)
    ensures
        b64_encode(s).len() == 4 * ((s.len() + 2) / 3),
    decreases s.len(),
{
    if s.len() >= 3 {
        lemma_b64_encode_len(s.skip(3));
    }
}

} // verus!
