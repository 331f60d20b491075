//! The round-trip law of the deserialiser: for every typed value in
//! canonical well-formed shape under a schema, rendering it back to JSON
//! and deserialising again returns exactly the same value. The shape pins
//! union tags to the first variant that accepts the rendered value and
//! enum tags to the first occurrence of the symbol — the normalisation the
//! deserialiser itself applies — and leaves floating-point values out, as
//! no JSON rendering is defined for them here.
use vstd::prelude::*;

use crate::base64::{b64_encode, lemma_b64_round_trip};
use crate::deser::{
    spec_deser, spec_deser_fields, spec_deser_members, spec_deser_seq, spec_deser_union,
    spec_position,
};
use crate::json::{spec_obj_lookup, Dec, JsonV};
use crate::numeric::{spec_decimal_int, DEC_MAG_BOUND};
use crate::schema::{RecordField, Schema};
use crate::util::{min_tc, pow10};
use crate::uuid::{lemma_uuid_round_trip, spec_uuid_render};
use crate::value::{DeserError, ValueV};

verus! {

/// The signed big-endian value of a two's-complement byte sequence.
pub open spec fn tc_val(b: Seq<u8>) -> int
    decreases b.len(),
{
    if b.len() == 0 {
        0
    } else if b.len() == 1 {
        if b[0] >= 128 {
            b[0] - 256
        } else {
            b[0] as int
        }
    } else {
        tc_val(b.take(b.len() - 1)) * 256 + b.last()
    }
}

/// Reading back the minimal two's-complement bytes returns the integer.
pub proof fn lemma_tc_val_min_tc(n: int)
    ensures
        tc_val(min_tc(n)) == n,
    decreases (if n < 0 {
        -n
    } else {
        n
    }),
{
    if -128 <= n < 128 {
        assert(min_tc(n).len() == 1);
    } else {
        lemma_tc_val_min_tc(n / 256);
        let b = min_tc(n);
        assert(b == min_tc(n / 256).push((n % 256) as u8));
        assert(b.take(b.len() - 1) =~= min_tc(n / 256));
        assert(b.last() == (n % 256) as u8);
        vstd::arithmetic::div_mod::lemma_fundamental_div_mod(n, 256);
    }
}

/// The canonical JSON rendering of a well-formed typed value under its
/// schema. Floating-point values have no rendering and map to null.
pub open spec fn to_json(s: Schema, v: ValueV) -> JsonV
    decreases v, 0int,
{
    match v {
        ValueV::Null => JsonV::Null,
        ValueV::Boolean(b) => JsonV::Bool(b),
        ValueV::Int(n) => JsonV::Num(Dec { mantissa: n as i128, scale: 0 }),
        ValueV::Long(n) => JsonV::Num(Dec { mantissa: n as i128, scale: 0 }),
        ValueV::Float => JsonV::Null,
        ValueV::Double => JsonV::Null,
        ValueV::Bytes(b) => JsonV::Str(b64_encode(b)),
        ValueV::String(t) => JsonV::Str(t),
        ValueV::Fixed(_, b) => JsonV::Str(b64_encode(b)),
        ValueV::Enum(_, sym) => JsonV::Str(sym),
        ValueV::Union(i, inner) => match s {
            Schema::Union(vars) => if 0 <= i < vars@.len() {
                to_json(vars@[i], *inner)
            } else {
                JsonV::Null
            },
            _ => JsonV::Null,
        },
        ValueV::Array(vs) => match s {
            Schema::Array(items) => JsonV::Arr(to_jsons(*items, vs)),
            _ => JsonV::Null,
        },
        ValueV::Mapping(ps) => match s {
            Schema::Mapping(values) => JsonV::Obj(to_json_members(*values, ps)),
            _ => JsonV::Null,
        },
        ValueV::Record(ps) => match s {
            Schema::Record(fields) => JsonV::Obj(to_json_fields(fields@, ps)),
            _ => JsonV::Null,
        },
        ValueV::Decimal(b) => match s {
            Schema::Decimal(scale) => JsonV::Num(Dec { mantissa: tc_val(b) as i128, scale }),
            _ => JsonV::Null,
        },
        ValueV::Uuid(b) => JsonV::Str(spec_uuid_render(b)),
        ValueV::Date(n) => JsonV::Num(Dec { mantissa: n as i128, scale: 0 }),
        ValueV::TimeMillis(n) => JsonV::Num(Dec { mantissa: n as i128, scale: 0 }),
        ValueV::TimeMicros(n) => JsonV::Num(Dec { mantissa: n as i128, scale: 0 }),
        ValueV::TimestampMillis(n) => JsonV::Num(Dec { mantissa: n as i128, scale: 0 }),
        ValueV::TimestampMicros(n) => JsonV::Num(Dec { mantissa: n as i128, scale: 0 }),
        ValueV::LocalTimestampMillis(n) => JsonV::Num(Dec { mantissa: n as i128, scale: 0 }),
        ValueV::LocalTimestampMicros(n) => JsonV::Num(Dec { mantissa: n as i128, scale: 0 }),
    }
}

pub open spec fn to_jsons(item: Schema, vs: Seq<ValueV>) -> Seq<JsonV>
    decreases vs, 1int,
{
    if vs.len() == 0 {
        Seq::<JsonV>::empty()
    } else {
        seq![to_json(item, vs[0])] + to_jsons(item, vs.skip(1))
    }
}

pub open spec fn to_json_members(values: Schema, ps: Seq<(Seq<u8>, ValueV)>) -> Seq<
    (Seq<u8>, JsonV),
>
    decreases ps, 1int,
{
    if ps.len() == 0 {
        Seq::<(Seq<u8>, JsonV)>::empty()
    } else {
        seq![(ps[0].0, to_json(values, ps[0].1))] + to_json_members(values, ps.skip(1))
    }
}

pub open spec fn to_json_fields(fields: Seq<RecordField>, ps: Seq<(Seq<u8>, ValueV)>) -> Seq<
    (Seq<u8>, JsonV),
>
    decreases ps, 1int,
{
    if ps.len() == 0 || fields.len() == 0 {
        Seq::<(Seq<u8>, JsonV)>::empty()
    } else {
        seq![(fields[0].name@, to_json(fields[0].schema, ps[0].1))] + to_json_fields(
            fields.skip(1),
            ps.skip(1),
        )
    }
}

/// A typed value in canonical well-formed shape under a schema: union
/// tags point at the first variant that accepts the rendered value; enum
/// tags at the first occurrence of the symbol; record fields carry their
/// schema's names, which are distinct; byte lengths agree with fixed
/// sizes; decimals hold minimal two's-complement bytes in the working
/// range; floats are excluded.
pub open spec fn wf_value(s: Schema, v: ValueV) -> bool
    decreases v, 0int,
{
    match v {
        ValueV::Null => s == Schema::Null,
        ValueV::Boolean(_) => s == Schema::Boolean,
        ValueV::Int(_) => s == Schema::Int,
        ValueV::Long(_) => s == Schema::Long,
        ValueV::Float => false,
        ValueV::Double => false,
        ValueV::Bytes(_) => s == Schema::Bytes,
        ValueV::String(_) => s == Schema::String,
        ValueV::Fixed(n, b) => (s matches Schema::Fixed(sz) && n == sz as int && b.len() == n),
        ValueV::Enum(i, sym) => (s matches Schema::Enum(symbols) && spec_position(symbols@, sym)
            == Some(i)),
        ValueV::Union(i, inner) => (s matches Schema::Union(vars) && 0 <= i < vars@.len()
            && wf_value(vars@[i], *inner) && (forall|q: int|
            0 <= q < i ==> spec_deser(vars@[q], to_json(vars@[i], *inner)) is Err)),
        ValueV::Array(vs) => (s matches Schema::Array(items) && wf_seq(*items, vs)),
        ValueV::Mapping(ps) => (s matches Schema::Mapping(values) && wf_members(*values, ps)),
        ValueV::Record(ps) => (s matches Schema::Record(fields) && ps.len() == fields@.len() && (
        forall|k: int| 0 <= k < ps.len() ==> (#[trigger] ps[k].0) == fields@[k].name@) && (forall|
            j: int,
            k: int,
        |
            0 <= j < k < fields@.len() ==> fields@[j].name@ != fields@[k].name@) && wf_fields(
            fields@,
            ps,
        )),
        ValueV::Decimal(b) => (s matches Schema::Decimal(_) && (exists|n: int|
            -(DEC_MAG_BOUND as int) < n < DEC_MAG_BOUND as int && b == min_tc(n))),
        ValueV::Uuid(b) => s == Schema::Uuid && b.len() == 16,
        ValueV::Date(_) => s == Schema::Date,
        ValueV::TimeMillis(_) => s == Schema::TimeMillis,
        ValueV::TimeMicros(_) => s == Schema::TimeMicros,
        ValueV::TimestampMillis(_) => s == Schema::TimestampMillis,
        ValueV::TimestampMicros(_) => s == Schema::TimestampMicros,
        ValueV::LocalTimestampMillis(_) => s == Schema::LocalTimestampMillis,
        ValueV::LocalTimestampMicros(_) => s == Schema::LocalTimestampMicros,
    }
}

pub open spec fn wf_seq(item: Schema, vs: Seq<ValueV>) -> bool
    decreases vs, 1int,
{
    if vs.len() == 0 {
        true
    } else {
        wf_value(item, vs[0]) && wf_seq(item, vs.skip(1))
    }
}

pub open spec fn wf_members(values: Schema, ps: Seq<(Seq<u8>, ValueV)>) -> bool
    decreases ps, 1int,
{
    if ps.len() == 0 {
        true
    } else {
        wf_value(values, ps[0].1) && wf_members(values, ps.skip(1))
    }
}

pub open spec fn wf_fields(fields: Seq<RecordField>, ps: Seq<(Seq<u8>, ValueV)>) -> bool
    decreases ps, 1int,
{
    if ps.len() == 0 || fields.len() == 0 {
        true
    } else {
        wf_value(fields[0].schema, ps[0].1) && wf_fields(fields.skip(1), ps.skip(1))
    }
}

proof fn lemma_int_dec(n: int)
    requires
        -0x80000000000000000000000000000000 <= n < 0x80000000000000000000000000000000,
    ensures
        (Dec { mantissa: n as i128, scale: 0 }).is_integer(),
        (Dec { mantissa: n as i128, scale: 0 }).int_value() == n,
{
    assert(pow10(0) == 1);
    vstd::arithmetic::div_mod::lemma_fundamental_div_mod_converse(n, 1, n, 0);
}

/// The union helper picks index `i` when every earlier variant refuses
/// the value and variant `i` accepts it.
proof fn lemma_union_pick(vars: Seq<Schema>, j: JsonV, i: int, inner: ValueV)
    requires
        0 <= i < vars.len(),
        forall|q: int| 0 <= q < i ==> spec_deser(vars[q], j) is Err,
        spec_deser(vars[i], j) == Ok::<ValueV, DeserError>(inner),
    ensures
        spec_deser_union(vars, j) == Ok::<(int, ValueV), DeserError>((i, inner)),
    decreases i,
{
    if i == 0 {
    } else {
        assert(vars.skip(1)[i - 1] == vars[i]);
        assert(forall|q: int| 0 <= q < i - 1 ==> vars.skip(1)[q] == vars[q + 1]);
        lemma_union_pick(vars.skip(1), j, i - 1, inner);
    }
}

/// In an association list with distinct keys, looking up the k-th key
/// yields the k-th value.
proof fn lemma_lookup_at(members: Seq<(Seq<u8>, JsonV)>, k: int)
    requires
        0 <= k < members.len(),
        forall|a: int, b: int| 0 <= a < b < members.len() ==> members[a].0 != members[b].0,
    ensures
        spec_obj_lookup(members, members[k].0) == Some(members[k].1),
    decreases k,
{
    if k == 0 {
    } else {
        assert(members[0].0 != members[k].0);
        assert(members.skip(1)[k - 1] == members[k]);
        assert(forall|a: int, b: int|
            0 <= a < b < members.skip(1).len() ==> members.skip(1)[a].0 != members.skip(1)[b].0);
        lemma_lookup_at(members.skip(1), k - 1);
    }
}

proof fn lemma_to_json_fields_index(fields: Seq<RecordField>, ps: Seq<(Seq<u8>, ValueV)>, k: int)
    requires
        fields.len() == ps.len(),
        0 <= k < ps.len(),
    ensures
        to_json_fields(fields, ps).len() == ps.len(),
        to_json_fields(fields, ps)[k] == (fields[k].name@, to_json(fields[k].schema, ps[k].1)),
    decreases k,
{
    lemma_to_json_fields_len(fields, ps);
    if k > 0 {
        lemma_to_json_fields_index(fields.skip(1), ps.skip(1), k - 1);
    } else {
        lemma_to_json_fields_len(fields.skip(1), ps.skip(1));
    }
}

proof fn lemma_to_json_fields_len(fields: Seq<RecordField>, ps: Seq<(Seq<u8>, ValueV)>)
    requires
        fields.len() == ps.len(),
    ensures
        to_json_fields(fields, ps).len() == ps.len(),
    decreases ps.len(),
{
    if ps.len() > 0 {
        lemma_to_json_fields_len(fields.skip(1), ps.skip(1));
    }
}

/// Round trip for every element of an array.
proof fn lemma_rt_seq(item: Schema, vs: Seq<ValueV>)
    requires
        wf_seq(item, vs),
    ensures
        spec_deser_seq(item, to_jsons(item, vs)) == Ok::<Seq<ValueV>, DeserError>(vs),
    decreases vs, 1int,
{
    if vs.len() == 0 {
        assert(to_jsons(item, vs).len() == 0);
        assert(vs =~= Seq::<ValueV>::empty());
    } else {
        lemma_deser_round_trip(item, vs[0]);
        lemma_rt_seq(item, vs.skip(1));
        let elems = to_jsons(item, vs);
        assert(elems[0] == to_json(item, vs[0]));
        assert(elems.skip(1) =~= to_jsons(item, vs.skip(1)));
        assert(spec_deser_seq(item, elems) == Ok::<Seq<ValueV>, DeserError>(
            seq![vs[0]] + vs.skip(1),
        ));
        assert(seq![vs[0]] + vs.skip(1) =~= vs);
    }
}

/// Round trip for every member of a map, keys kept verbatim.
proof fn lemma_rt_members(values: Schema, ps: Seq<(Seq<u8>, ValueV)>)
    requires
        wf_members(values, ps),
    ensures
        spec_deser_members(values, to_json_members(values, ps)) == Ok::<
            Seq<(Seq<u8>, ValueV)>,
            DeserError,
        >(ps),
    decreases ps, 1int,
{
    if ps.len() == 0 {
        assert(to_json_members(values, ps).len() == 0);
        assert(ps =~= Seq::<(Seq<u8>, ValueV)>::empty());
    } else {
        lemma_deser_round_trip(values, ps[0].1);
        lemma_rt_members(values, ps.skip(1));
        let members = to_json_members(values, ps);
        assert(members[0] == (ps[0].0, to_json(values, ps[0].1)));
        assert(members.skip(1) =~= to_json_members(values, ps.skip(1)));
        assert((ps[0].0, ps[0].1) == ps[0]);
        assert(spec_deser_members(values, members) == Ok::<Seq<(Seq<u8>, ValueV)>, DeserError>(
            seq![(ps[0].0, ps[0].1)] + ps.skip(1),
        ));
        assert(seq![(ps[0].0, ps[0].1)] + ps.skip(1) =~= ps);
    }
}

/// Round trip for the fields of a record against the full member list.
proof fn lemma_rt_fields(
    fields: Seq<RecordField>,
    ps: Seq<(Seq<u8>, ValueV)>,
    full_fields: Seq<RecordField>,
    full_ps: Seq<(Seq<u8>, ValueV)>,
    k: int,
)
    requires
        0 <= k <= full_fields.len(),
        full_fields.len() == full_ps.len(),
        fields == full_fields.skip(k),
        ps == full_ps.skip(k),
        wf_fields(full_fields, full_ps),
        forall|q: int| 0 <= q < full_ps.len() ==> (#[trigger] full_ps[q].0) == full_fields[q].name@,
        forall|a: int, b: int|
            0 <= a < b < full_fields.len() ==> full_fields[a].name@ != full_fields[b].name@,
    ensures
        spec_deser_fields(fields, to_json_fields(full_fields, full_ps)) == Ok::<
            Seq<(Seq<u8>, ValueV)>,
            DeserError,
        >(ps),
    decreases full_ps, full_fields.len() - k,
{
    let members = to_json_fields(full_fields, full_ps);
    lemma_to_json_fields_len(full_fields, full_ps);
    lemma_wf_fields_suffix(full_fields, full_ps, k);
    if k == full_fields.len() {
        assert(fields.len() == 0);
        assert(ps =~= Seq::<(Seq<u8>, ValueV)>::empty());
    } else {
        let f = full_fields[k];
        assert(fields[0] == f);
        assert(ps[0] == full_ps[k]);
        lemma_to_json_fields_index(full_fields, full_ps, k);
        assert(forall|a: int, b: int| 0 <= a < b < members.len() ==> members[a].0 != members[b].0)
            by {
            assert forall|a: int, b: int| 0 <= a < b < members.len() implies members[a].0
                != members[b].0 by {
                lemma_to_json_fields_index(full_fields, full_ps, a);
                lemma_to_json_fields_index(full_fields, full_ps, b);
            }
        }
        lemma_lookup_at(members, k);
        assert(spec_obj_lookup(members, f.name@) == Some(to_json(f.schema, full_ps[k].1)));
        lemma_deser_round_trip(f.schema, full_ps[k].1);
        assert(fields.skip(1) =~= full_fields.skip(k + 1));
        assert(ps.skip(1) =~= full_ps.skip(k + 1));
        lemma_rt_fields(full_fields.skip(k + 1), full_ps.skip(k + 1), full_fields, full_ps, k + 1);
        assert(full_ps[k].0 == f.name@);
        assert((f.name@, full_ps[k].1) == full_ps[k]);
        assert(seq![(f.name@, full_ps[k].1)] + full_ps.skip(k + 1) =~= ps);
    }
}

/// Well-formedness of a zipped field list passes to its suffixes.
proof fn lemma_wf_fields_suffix(fields: Seq<RecordField>, ps: Seq<(Seq<u8>, ValueV)>, k: int)
    requires
        wf_fields(fields, ps),
        0 <= k <= ps.len(),
        fields.len() == ps.len(),
    ensures
        wf_fields(fields.skip(k), ps.skip(k)),
    decreases k,
{
    if k > 0 {
        if ps.len() > 0 {
            assert(fields.skip(1).skip(k - 1) =~= fields.skip(k));
            assert(ps.skip(1).skip(k - 1) =~= ps.skip(k));
            lemma_wf_fields_suffix(fields.skip(1), ps.skip(1), k - 1);
        } else {
            assert(ps.skip(k) =~= ps);
            assert(fields.skip(k) =~= fields);
        }
    } else {
        assert(fields.skip(0) =~= fields);
        assert(ps.skip(0) =~= ps);
    }
}

/// Round trip: deserialising the canonical JSON rendering of any typed
/// value in canonical well-formed shape returns exactly that value.
pub proof fn lemma_deser_round_trip(s: Schema, v: ValueV)
    requires
        wf_value(s, v),
    ensures
        spec_deser(s, to_json(s, v)) == Ok::<ValueV, DeserError>(v),
    decreases v, 0int,
{
    match v {
        ValueV::Null => {},
        ValueV::Boolean(_) => {},
        ValueV::Int(n) => {
            lemma_int_dec(n as int);
        },
        ValueV::Long(n) => {
            lemma_int_dec(n as int);
        },
        ValueV::Float => {},
        ValueV::Double => {},
        ValueV::Bytes(b) => {
            lemma_b64_round_trip(b);
        },
        ValueV::String(_) => {},
        ValueV::Fixed(n, b) => {
            lemma_b64_round_trip(b);
        },
        ValueV::Enum(i, sym) => {},
        ValueV::Union(i, inner) => {
            if let Schema::Union(vars) = s {
                lemma_deser_round_trip(vars@[i], *inner);
                lemma_union_pick(vars@, to_json(vars@[i], *inner), i, *inner);
            }
        },
        ValueV::Array(vs) => {
            if let Schema::Array(items) = s {
                lemma_rt_seq(*items, vs);
            }
        },
        ValueV::Mapping(ps) => {
            if let Schema::Mapping(values) = s {
                lemma_rt_members(*values, ps);
            }
        },
        ValueV::Record(ps) => {
            if let Schema::Record(fields) = s {
                assert(fields@.skip(0) =~= fields@);
                assert(ps.skip(0) =~= ps);
                lemma_rt_fields(fields@, ps, fields@, ps, 0);
            }
        },
        ValueV::Decimal(b) => {
            if let Schema::Decimal(scale) = s {
                let n = choose|n: int|
                    -(DEC_MAG_BOUND as int) < n < DEC_MAG_BOUND as int && b == min_tc(n);
                lemma_tc_val_min_tc(n);
                let d = Dec { mantissa: n as i128, scale };
                assert(d.mantissa as int * pow10(0) == n) by (nonlinear_arith)
                    requires
                        d.mantissa as int == n,
                        pow10(0) == 1,
                ;
                assert(spec_decimal_int(d, scale) == Some(n));
            }
        },
        ValueV::Uuid(b) => {
            lemma_uuid_round_trip(b);
        },
        ValueV::Date(n) => {
            lemma_int_dec(n as int);
        },
        ValueV::TimeMillis(n) => {
            lemma_int_dec(n as int);
        },
        ValueV::TimeMicros(n) => {
            lemma_int_dec(n as int);
        },
        ValueV::TimestampMillis(n) => {
            lemma_int_dec(n as int);
        },
        ValueV::TimestampMicros(n) => {
            lemma_int_dec(n as int);
        },
        ValueV::LocalTimestampMillis(n) => {
            lemma_int_dec(n as int);
        },
        ValueV::LocalTimestampMicros(n) => {
            lemma_int_dec(n as int);
        },
    }
}

} // verus!
