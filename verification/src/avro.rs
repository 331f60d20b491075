//! The Avro binary encoding of typed values, and the framed record format:
//! one zero magic byte, the big-endian 32-bit schema id, then the value's
//! binary encoding.
use vstd::prelude::*;

use crate::util::{be32, be32_bytes};
use crate::uuid::spec_uuid_render;
use crate::value::Value;

verus! {

broadcast use vstd::std_specs::vec::group_vec_axioms;

/// The zig-zag image of a signed integer.
pub open spec fn zigzag(n: int) -> nat {
    if n >= 0 {
        (2 * n) as nat
    } else {
        (-2 * n - 1) as nat
    }
}

/// Base-128 little-endian groups, the low seven bits first, a continuation
/// bit on every group but the last.
pub open spec fn varint(u: nat) -> Seq<u8>
    decreases u,
{
    if u < 128 {
        seq![u as u8]
    } else {
        seq![(128 + (u % 128)) as u8] + varint(u / 128)
    }
}

/// An Avro long: the varint of the zig-zag image.
pub open spec fn avro_long(n: int) -> Seq<u8> {
    varint(zigzag(n))
}

/// The four little-endian bytes of a 32-bit value.
pub open spec fn le32(b: u32) -> Seq<u8> {
    seq![
        (b % 256) as u8,
        ((b / 0x100) % 256) as u8,
        ((b / 0x10000) % 256) as u8,
        ((b / 0x1000000) % 256) as u8,
    ]
}

/// The eight little-endian bytes of a 64-bit value.
pub open spec fn le64(b: u64) -> Seq<u8> {
    seq![
        (b % 256) as u8,
        ((b / 0x100) % 256) as u8,
        ((b / 0x10000) % 256) as u8,
        ((b / 0x1000000) % 256) as u8,
        ((b / 0x100000000) % 256) as u8,
        ((b / 0x10000000000) % 256) as u8,
        ((b / 0x1000000000000) % 256) as u8,
        ((b / 0x100000000000000) % 256) as u8,
    ]
}

/// The Avro binary encoding of a typed value. Defined over the value
/// itself, since a float's wire bytes are its stored bit pattern, which
/// the mathematical model deliberately does not fix.
pub open spec fn spec_avro_encode(v: Value) -> Seq<u8>
    decreases v,
{
    match v {
        Value::Null => Seq::<u8>::empty(),
        Value::Boolean(b) => seq![
            if b {
                1u8
            } else {
                0u8
            },
        ],
        Value::Int(n) => avro_long(n as int),
        Value::Long(n) => avro_long(n as int),
        Value::Float(bits) => le32(bits),
        Value::Double(bits) => le64(bits),
        Value::Bytes(b) => avro_long(b@.len() as int) + b@,
        Value::String(s) => avro_long(s@.len() as int) + s@,
        Value::Fixed(_, b) => b@,
        Value::Enum(i, _) => avro_long(i as int),
        Value::Union(i, inner) => avro_long(i as int) + spec_avro_encode(*inner),
        Value::Array(vs) => if vs@.len() == 0 {
            avro_long(0)
        } else {
            avro_long(vs@.len() as int) + spec_encode_items(vs@) + avro_long(0)
        },
        Value::Mapping(ps) => if ps@.len() == 0 {
            avro_long(0)
        } else {
            avro_long(ps@.len() as int) + spec_encode_entries(ps@) + avro_long(0)
        },
        Value::Record(ps) => spec_encode_fields(ps@),
        Value::Decimal(b) => avro_long(b@.len() as int) + b@,
        Value::Uuid(b) => if b@.len() == 16 {
            avro_long(36) + spec_uuid_render(b@)
        } else {
            avro_long(b@.len() as int) + b@
        },
        Value::Date(n) => avro_long(n as int),
        Value::TimeMillis(n) => avro_long(n as int),
        Value::TimeMicros(n) => avro_long(n as int),
        Value::TimestampMillis(n) => avro_long(n as int),
        Value::TimestampMicros(n) => avro_long(n as int),
        Value::LocalTimestampMillis(n) => avro_long(n as int),
        Value::LocalTimestampMicros(n) => avro_long(n as int),
    }
}

pub open spec fn spec_encode_items(vs: Seq<Value>) -> Seq<u8>
    decreases vs,
{
    if vs.len() == 0 {
        Seq::<u8>::empty()
    } else {
        spec_avro_encode(vs[0]) + spec_encode_items(vs.skip(1))
    }
}

pub open spec fn spec_encode_entries(ps: Seq<(Vec<u8>, Value)>) -> Seq<u8>
    decreases ps,
{
    if ps.len() == 0 {
        Seq::<u8>::empty()
    } else {
        avro_long(ps[0].0@.len() as int) + ps[0].0@ + spec_avro_encode(ps[0].1)
            + spec_encode_entries(ps.skip(1))
    }
}

pub open spec fn spec_encode_fields(ps: Seq<(Vec<u8>, Value)>) -> Seq<u8>
    decreases ps,
{
    if ps.len() == 0 {
        Seq::<u8>::empty()
    } else {
        spec_avro_encode(ps[0].1) + spec_encode_fields(ps.skip(1))
    }
}

fn write_varint(u: u128, out: &mut Vec<u8>)
    ensures
        final(out)@ == old(out)@ + varint(u as nat),
    decreases u,
{
    if u < 128 {
        out.push(u as u8);
        proof {
            assert(final(out)@ =~= old(out)@ + varint(u as nat));
        }
    } else {
        out.push(128 + (u % 128) as u8);
        write_varint(u / 128, out);
        proof {
            assert(old(out)@.push((128 + (u as nat % 128)) as u8) + varint(u as nat / 128) =~= old(
                out,
            )@ + varint(u as nat));
        }
    }
}

fn write_long(n: i64, out: &mut Vec<u8>)
    ensures
        final(out)@ == old(out)@ + avro_long(n as int),
{
    let z: u128 = if n >= 0 {
        (n as u128) * 2
    } else {
        ((-(n + 1)) as u128) * 2 + 1
    };
    proof {
        assert(z as nat == zigzag(n as int));
    }
    write_varint(z, out);
}

fn write_len(n: usize, out: &mut Vec<u8>)
    ensures
        final(out)@ == old(out)@ + avro_long(n as int),
{
    let z: u128 = (n as u128) * 2;
    proof {
        assert(z as nat == zigzag(n as int));
    }
    write_varint(z, out);
}

fn write_bytes(b: &[u8], out: &mut Vec<u8>)
    ensures
        final(out)@ == old(out)@ + b@,
{
    let mut i: usize = 0;
    while i < b.len()
        invariant
            i <= b.len(),
            out@ == old(out)@ + b@.take(i as int),
        decreases b.len() - i,
    {
        out.push(b[i]);
        i = i + 1;
        proof {
            assert(old(out)@ + b@.take(i - 1) + seq![b@[i - 1]] =~= old(out)@ + b@.take(i as int));
        }
    }
    proof {
        assert(old(out)@ + b@.take(b@.len() as int) =~= old(out)@ + b@);
    }
}

fn write_le32(b: u32, out: &mut Vec<u8>)
    ensures
        final(out)@ == old(out)@ + le32(b),
{
    out.push((b % 256) as u8);
    out.push(((b / 0x100) % 256) as u8);
    out.push(((b / 0x10000) % 256) as u8);
    out.push((b / 0x1000000) as u8);
    proof {
        assert(final(out)@ =~= old(out)@ + le32(b));
    }
}

fn write_le64(b: u64, out: &mut Vec<u8>)
    ensures
        final(out)@ == old(out)@ + le64(b),
{
    out.push((b % 256) as u8);
    out.push(((b / 0x100) % 256) as u8);
    out.push(((b / 0x10000) % 256) as u8);
    out.push(((b / 0x1000000) % 256) as u8);
    out.push(((b / 0x100000000) % 256) as u8);
    out.push(((b / 0x10000000000) % 256) as u8);
    out.push(((b / 0x1000000000000) % 256) as u8);
    out.push((b / 0x100000000000000) as u8);
    proof {
        assert(final(out)@ =~= old(out)@ + le64(b));
    }
}

/// Append the Avro binary encoding of a value.
fn avro_write(v: &Value, out: &mut Vec<u8>)
    ensures
        final(out)@ == old(out)@ + spec_avro_encode(*v),
    decreases v,
{
    match v {
        Value::Null => {
            proof {
                assert(old(out)@ + spec_avro_encode(*v) =~= old(out)@);
            }
        },
        Value::Boolean(b) => {
            out.push(
                if *b {
                    1
                } else {
                    0
                },
            );
            proof {
                assert(final(out)@ =~= old(out)@ + spec_avro_encode(*v));
            }
        },
        Value::Int(n) => {
            write_long(*n as i64, out);
        },
        Value::Long(n) => {
            write_long(*n, out);
        },
        Value::Float(bits) => {
            write_le32(*bits, out);
        },
        Value::Double(bits) => {
            write_le64(*bits, out);
        },
        Value::Bytes(b) => {
            write_len(b.len(), out);
            write_bytes(b.as_slice(), out);
            proof {
                assert(out@ =~= old(out)@ + spec_avro_encode(*v));
            }
        },
        Value::String(s) => {
            write_len(s.len(), out);
            write_bytes(s.as_slice(), out);
            proof {
                assert(out@ =~= old(out)@ + spec_avro_encode(*v));
            }
        },
        Value::Fixed(_, b) => {
            write_bytes(b.as_slice(), out);
        },
        Value::Enum(i, _) => {
            write_len(*i, out);
        },
        Value::Union(i, inner) => {
            write_len(*i, out);
            avro_write(inner, out);
            proof {
                assert(out@ =~= old(out)@ + spec_avro_encode(*v));
            }
        },
        Value::Array(vs) => {
            if vs.len() == 0 {
                write_len(0, out);
            } else {
                write_len(vs.len(), out);
                let ghost mid = out@;
                let mut k: usize = 0;
                proof {
                    assert(vs@.skip(0) =~= vs@);
                }
                while k < vs.len()
                    invariant
                        *v == Value::Array(*vs),
                        k <= vs.len(),
                        out@ + spec_encode_items(vs@.skip(k as int)) == mid + spec_encode_items(
                            vs@,
                        ),
                    decreases vs.len() - k,
                {
                    let ghost k0 = k as int;
                    let ghost out0 = out@;
                    proof {
                        assert(vs@.skip(k0)[0] == vs@[k0]);
                        assert(vs@.skip(k0).skip(1) =~= vs@.skip(k0 + 1));
                        assert(decreases_to!(*v => v->Array_0));
                        assert(v->Array_0 == *vs);
                        assert(decreases_to!(*vs => vs@));
                        assert(decreases_to!(vs@ => vs@[k0]));
                    }
                    avro_write(&vs[k], out);
                    k = k + 1;
                    proof {
                        assert(out0 + (spec_avro_encode(vs@[k0]) + spec_encode_items(
                            vs@.skip(k0 + 1),
                        )) =~= out@ + spec_encode_items(vs@.skip(k0 + 1)));
                    }
                }
                proof {
                    assert(vs@.skip(vs@.len() as int) =~= Seq::<Value>::empty());
                    assert(out@ + Seq::<u8>::empty() =~= out@);
                }
                write_len(0, out);
                proof {
                    assert(final(out)@ =~= old(out)@ + spec_avro_encode(*v));
                }
            }
        },
        Value::Mapping(ps) => {
            if ps.len() == 0 {
                write_len(0, out);
            } else {
                write_len(ps.len(), out);
                let ghost mid = out@;
                let mut k: usize = 0;
                proof {
                    assert(ps@.skip(0) =~= ps@);
                }
                while k < ps.len()
                    invariant
                        *v == Value::Mapping(*ps),
                        k <= ps.len(),
                        out@ + spec_encode_entries(ps@.skip(k as int)) == mid + spec_encode_entries(
                            ps@,
                        ),
                    decreases ps.len() - k,
                {
                    let ghost k0 = k as int;
                    let ghost out0 = out@;
                    proof {
                        assert(ps@.skip(k0)[0] == ps@[k0]);
                        assert(ps@.skip(k0).skip(1) =~= ps@.skip(k0 + 1));
                        assert(decreases_to!(*v => v->Mapping_0));
                        assert(v->Mapping_0 == *ps);
                        assert(decreases_to!(*ps => ps@));
                        assert(decreases_to!(ps@ => ps@[k0]));
                        assert(decreases_to!(ps@[k0] => ps@[k0].1));
                    }
                    write_len(ps[k].0.len(), out);
                    write_bytes(ps[k].0.as_slice(), out);
                    avro_write(&ps[k].1, out);
                    k = k + 1;
                    proof {
                        let e = ps@[k0];
                        assert(out0 + (avro_long(e.0@.len() as int) + e.0@ + spec_avro_encode(e.1)
                            + spec_encode_entries(ps@.skip(k0 + 1))) =~= out@ + spec_encode_entries(
                            ps@.skip(k0 + 1),
                        ));
                    }
                }
                proof {
                    assert(ps@.skip(ps@.len() as int) =~= Seq::<(Vec<u8>, Value)>::empty());
                    assert(out@ + Seq::<u8>::empty() =~= out@);
                }
                write_len(0, out);
                proof {
                    assert(final(out)@ =~= old(out)@ + spec_avro_encode(*v));
                }
            }
        },
        Value::Record(ps) => {
            let mut k: usize = 0;
            proof {
                assert(ps@.skip(0) =~= ps@);
            }
            while k < ps.len()
                invariant
                    *v == Value::Record(*ps),
                    k <= ps.len(),
                    out@ + spec_encode_fields(ps@.skip(k as int)) == old(out)@
                        + spec_encode_fields(ps@),
                decreases ps.len() - k,
            {
                let ghost k0 = k as int;
                let ghost out0 = out@;
                proof {
                    assert(ps@.skip(k0)[0] == ps@[k0]);
                    assert(ps@.skip(k0).skip(1) =~= ps@.skip(k0 + 1));
                    assert(decreases_to!(*v => v->Record_0));
                    assert(v->Record_0 == *ps);
                    assert(decreases_to!(*ps => ps@));
                    assert(decreases_to!(ps@ => ps@[k0]));
                    assert(decreases_to!(ps@[k0] => ps@[k0].1));
                }
                avro_write(&ps[k].1, out);
                k = k + 1;
                proof {
                    let e = ps@[k0];
                    assert(out0 + (spec_avro_encode(e.1) + spec_encode_fields(ps@.skip(k0 + 1)))
                        =~= out@ + spec_encode_fields(ps@.skip(k0 + 1)));
                }
            }
            proof {
                assert(ps@.skip(ps@.len() as int) =~= Seq::<(Vec<u8>, Value)>::empty());
                assert(out@ + Seq::<u8>::empty() =~= out@);
            }
        },
        Value::Decimal(b) => {
            write_len(b.len(), out);
            write_bytes(b.as_slice(), out);
            proof {
                assert(out@ =~= old(out)@ + spec_avro_encode(*v));
            }
        },
        Value::Uuid(b) => {
            if b.len() == 16 {
                write_len(36, out);
                let text = crate::uuid::uuid_render(b.as_slice());
                write_bytes(text.as_slice(), out);
                proof {
                    assert(out@ =~= old(out)@ + spec_avro_encode(*v));
                }
            } else {
                write_len(b.len(), out);
                write_bytes(b.as_slice(), out);
                proof {
                    assert(out@ =~= old(out)@ + spec_avro_encode(*v));
                }
            }
        },
        Value::Date(n) => {
            write_long(*n as i64, out);
        },
        Value::TimeMillis(n) => {
            write_long(*n as i64, out);
        },
        Value::TimeMicros(n) => {
            write_long(*n, out);
        },
        Value::TimestampMillis(n) => {
            write_long(*n, out);
        },
        Value::TimestampMicros(n) => {
            write_long(*n, out);
        },
        Value::LocalTimestampMillis(n) => {
            write_long(*n, out);
        },
        Value::LocalTimestampMicros(n) => {
            write_long(*n, out);
        },
    }
}

/// The Avro binary encoding of a typed value as a fresh buffer.
pub fn avro_encode(v: &Value) -> (r: Vec<u8>)
    ensures
        r@ == spec_avro_encode(*v),
{
    let mut out: Vec<u8> = Vec::new();
    avro_write(v, &mut out);
    proof {
        assert(Seq::<u8>::empty() + spec_avro_encode(*v) =~= spec_avro_encode(*v));
    }
    out
}

/// A framed record: zero magic byte, big-endian schema id, Avro binary
/// encoding of the value.
pub open spec fn spec_framed(id: u32, v: Value) -> Seq<u8> {
    seq![0u8] + be32(id) + spec_avro_encode(v)
}

/// Framing law: a framed record is at least five bytes, its first byte is
/// the zero magic byte, and its next four bytes are the schema id in
/// big-endian order — whatever the value encodes to.
pub proof fn lemma_framing(id: u32, v: Value)
    ensures
        spec_framed(id, v).len() >= 5,
        spec_framed(id, v)[0] == 0,
        spec_framed(id, v).subrange(1, 5) == be32(id),
{
    assert(spec_framed(id, v).subrange(1, 5) =~= be32(id));
}

/// Frame an encoded value for the wire. The first byte of the result is
/// zero and the next four are the schema id in big-endian order.
pub fn frame_record(id: u32, v: &Value) -> (r: Vec<u8>)
    ensures
        r@ == spec_framed(id, *v),
        r@.len() >= 5,
        r@[0] == 0,
        r@.subrange(1, 5) == be32(id),
{
    let mut out: Vec<u8> = Vec::new();
    out.push(0);
    let idb = be32_bytes(id);
    write_bytes(idb.as_slice(), &mut out);
    avro_write(v, &mut out);
    proof {
        assert(out@ =~= spec_framed(id, *v));
        assert(out@.subrange(1, 5) =~= be32(id));
    }
    out
}

} // verus!
