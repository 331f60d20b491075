//! The schema-registry side of the encoder: parsing a registry schema
//! document into the runtime schema tree, the subject-name strategies, and
//! the cached (id, schema) pair whose `encode` turns a JSON payload into a
//! framed Avro record.
use vstd::prelude::*;

use crate::avro::spec_framed;
use crate::deser::{deserialize, spec_deser};
use crate::json::{
    jmembers_view, json_view, jsons_view, lemma_jmembers_view_index, lemma_jmembers_view_len,
    lemma_jsons_view_index, lemma_jsons_view_len, Json, JsonV,
};
use crate::jsontext::{parse_json, spec_parse_json};
use crate::schema::{
    field_view, fields_view, schema_view, schemas_view, symbols_view, RecordField, RecordFieldV,
    Schema, SchemaV,
};
use crate::util::{be32, bytes_eq, clone_bytes};
use crate::value::{value_view, DeserError, Value};

verus! {

/// Why a schema document was rejected at startup.
#[derive(Debug, Clone, Copy, PartialEq, Eq, Structural)]
pub enum SchemaError {
    /// A construct the deserialiser cannot represent (duration, named
    /// references, nanosecond timestamps, big decimals).
    Unsupported,
    /// A document that does not follow the schema grammar.
    Malformed,
}

/// Why a payload could not be encoded.
#[derive(Debug, Clone, Copy, PartialEq, Eq, Structural)]
pub enum EncodeError {
    /// The payload is not a JSON document.
    InvalidJson,
    /// The document does not deserialise against the schema.
    Deser(DeserError),
}

fn name_is(name: &Vec<u8>, expect: &[u8]) -> (r: bool)
    ensures
        r == (name@ == expect@),
{
    bytes_eq(name.as_slice(), expect)
}

/// Member-key and type-name byte constants of the schema grammar.
pub open spec fn key_type() -> Seq<u8> {
    seq![116u8, 121u8, 112u8, 101u8]  // type
}

pub open spec fn key_logical() -> Seq<u8> {
    seq![108u8, 111u8, 103u8, 105u8, 99u8, 97u8, 108u8, 84u8, 121u8, 112u8, 101u8]  // logicalType
}

pub open spec fn key_items() -> Seq<u8> {
    seq![105u8, 116u8, 101u8, 109u8, 115u8]  // items
}

pub open spec fn key_values() -> Seq<u8> {
    seq![118u8, 97u8, 108u8, 117u8, 101u8, 115u8]  // values
}

pub open spec fn key_symbols() -> Seq<u8> {
    seq![115u8, 121u8, 109u8, 98u8, 111u8, 108u8, 115u8]  // symbols
}

pub open spec fn key_size() -> Seq<u8> {
    seq![115u8, 105u8, 122u8, 101u8]  // size
}

pub open spec fn key_scale() -> Seq<u8> {
    seq![115u8, 99u8, 97u8, 108u8, 101u8]  // scale
}

pub open spec fn key_fields() -> Seq<u8> {
    seq![102u8, 105u8, 101u8, 108u8, 100u8, 115u8]  // fields
}

pub open spec fn key_name() -> Seq<u8> {
    seq![110u8, 97u8, 109u8, 101u8]  // name
}

pub open spec fn key_default() -> Seq<u8> {
    seq![100u8, 101u8, 102u8, 97u8, 117u8, 108u8, 116u8]  // default
}

pub open spec fn name_array() -> Seq<u8> {
    seq![97u8, 114u8, 114u8, 97u8, 121u8]  // array
}

pub open spec fn name_map() -> Seq<u8> {
    seq![109u8, 97u8, 112u8]  // map
}

pub open spec fn name_enum() -> Seq<u8> {
    seq![101u8, 110u8, 117u8, 109u8]  // enum
}

pub open spec fn name_fixed() -> Seq<u8> {
    seq![102u8, 105u8, 120u8, 101u8, 100u8]  // fixed
}

pub open spec fn name_record() -> Seq<u8> {
    seq![114u8, 101u8, 99u8, 111u8, 114u8, 100u8]  // record
}

pub open spec fn logical_uuid() -> Seq<u8> {
    seq![117u8, 117u8, 105u8, 100u8]  // uuid
}

pub open spec fn logical_date() -> Seq<u8> {
    seq![100u8, 97u8, 116u8, 101u8]  // date
}

pub open spec fn logical_time_millis() -> Seq<u8> {
    seq![116u8, 105u8, 109u8, 101u8, 45u8, 109u8, 105u8, 108u8, 108u8, 105u8, 115u8]  // time-millis
}

pub open spec fn logical_time_micros() -> Seq<u8> {
    seq![116u8, 105u8, 109u8, 101u8, 45u8, 109u8, 105u8, 99u8, 114u8, 111u8, 115u8]  // time-micros
}

pub open spec fn logical_timestamp_millis() -> Seq<u8> {
    seq![116u8, 105u8, 109u8, 101u8, 115u8, 116u8, 97u8, 109u8, 112u8, 45u8, 109u8, 105u8, 108u8, 108u8, 105u8, 115u8]  // timestamp-millis
}

pub open spec fn logical_timestamp_micros() -> Seq<u8> {
    seq![116u8, 105u8, 109u8, 101u8, 115u8, 116u8, 97u8, 109u8, 112u8, 45u8, 109u8, 105u8, 99u8, 114u8, 111u8, 115u8]  // timestamp-micros
}

pub open spec fn logical_local_timestamp_millis() -> Seq<u8> {
    seq![108u8, 111u8, 99u8, 97u8, 108u8, 45u8, 116u8, 105u8, 109u8, 101u8, 115u8, 116u8, 97u8, 109u8, 112u8, 45u8, 109u8, 105u8, 108u8, 108u8, 105u8, 115u8]  // local-timestamp-millis
}

pub open spec fn logical_local_timestamp_micros() -> Seq<u8> {
    seq![108u8, 111u8, 99u8, 97u8, 108u8, 45u8, 116u8, 105u8, 109u8, 101u8, 115u8, 116u8, 97u8, 109u8, 112u8, 45u8, 109u8, 105u8, 99u8, 114u8, 111u8, 115u8]  // local-timestamp-micros
}

pub open spec fn logical_decimal() -> Seq<u8> {
    seq![100u8, 101u8, 99u8, 105u8, 109u8, 97u8, 108u8]  // decimal
}

pub open spec fn logical_timestamp_nanos() -> Seq<u8> {
    seq![116u8, 105u8, 109u8, 101u8, 115u8, 116u8, 97u8, 109u8, 112u8, 45u8, 110u8, 97u8, 110u8, 111u8, 115u8]  // timestamp-nanos
}

pub open spec fn logical_local_timestamp_nanos() -> Seq<u8> {
    seq![108u8, 111u8, 99u8, 97u8, 108u8, 45u8, 116u8, 105u8, 109u8, 101u8, 115u8, 116u8, 97u8, 109u8, 112u8, 45u8, 110u8, 97u8, 110u8, 111u8, 115u8]  // local-timestamp-nanos
}

pub open spec fn logical_duration() -> Seq<u8> {
    seq![100u8, 117u8, 114u8, 97u8, 116u8, 105u8, 111u8, 110u8]  // duration
}

pub open spec fn logical_big_decimal() -> Seq<u8> {
    seq![98u8, 105u8, 103u8, 45u8, 100u8, 101u8, 99u8, 105u8, 109u8, 97u8, 108u8]  // big-decimal
}

/// Index of the last member bound to `key`, or -1 when absent: a later
/// occurrence of a key overrides an earlier one.
pub open spec fn spec_last_member(members: Seq<(Seq<u8>, JsonV)>, key: Seq<u8>) -> int
    decreases members.len(),
{
    if members.len() == 0 {
        -1
    } else if members.last().0 == key {
        members.len() - 1
    } else {
        spec_last_member(members.drop_last(), key)
    }
}

/// A whole-number member value within `[0, bound]`.
pub open spec fn spec_int_in(j: JsonV, bound: int) -> Option<int> {
    match j {
        JsonV::Num(d) => if d.is_integer() && 0 <= d.int_value() <= bound {
            Some(d.int_value())
        } else {
            None
        },
        _ => None,
    }
}

/// The decimal scale member: absent means scale zero; a non-integer or
/// out-of-range value is malformed.
pub open spec fn spec_scale_member(members: Seq<(Seq<u8>, JsonV)>) -> Result<u32, SchemaError> {
    let si = spec_last_member(members, key_scale());
    if !(0 <= si < members.len()) {
        Ok(0u32)
    } else {
        match spec_int_in(members[si].1, 0xFFFFFFFF) {
            Some(v) => Ok(v as u32),
            None => Err(SchemaError::Malformed),
        }
    }
}

/// The schema a primitive type name denotes, if any.
pub open spec fn spec_primitive_v(name: Seq<u8>) -> Option<SchemaV> {
    if name == seq![110u8, 117u8, 108u8, 108u8] {
        Some(SchemaV::Null)
    } else if name == seq![98u8, 111u8, 111u8, 108u8, 101u8, 97u8, 110u8] {
        Some(SchemaV::Boolean)
    } else if name == seq![105u8, 110u8, 116u8] {
        Some(SchemaV::Int)
    } else if name == seq![108u8, 111u8, 110u8, 103u8] {
        Some(SchemaV::Long)
    } else if name == seq![102u8, 108u8, 111u8, 97u8, 116u8] {
        Some(SchemaV::Float)
    } else if name == seq![100u8, 111u8, 117u8, 98u8, 108u8, 101u8] {
        Some(SchemaV::Double)
    } else if name == seq![98u8, 121u8, 116u8, 101u8, 115u8] {
        Some(SchemaV::Bytes)
    } else if name == seq![115u8, 116u8, 114u8, 105u8, 110u8, 103u8] {
        Some(SchemaV::String)
    } else {
        None
    }
}

/// The overlay a `logicalType` name selects over a primitive base; an
/// unknown overlay falls back to the base type, and the constructs the
/// value tree cannot represent are refused.
pub open spec fn spec_logical(base: Seq<u8>, logical: Seq<u8>, members: Seq<(Seq<u8>, JsonV)>) -> Result<
    SchemaV,
    SchemaError,
> {
    if logical == logical_uuid() && base == seq![115u8, 116u8, 114u8, 105u8, 110u8, 103u8] {
        Ok(SchemaV::Uuid)
    } else if logical == logical_date() && base == seq![105u8, 110u8, 116u8] {
        Ok(SchemaV::Date)
    } else if logical == logical_time_millis() && base == seq![105u8, 110u8, 116u8] {
        Ok(SchemaV::TimeMillis)
    } else if logical == logical_time_micros() && base == seq![108u8, 111u8, 110u8, 103u8] {
        Ok(SchemaV::TimeMicros)
    } else if logical == logical_timestamp_millis() && base == seq![108u8, 111u8, 110u8, 103u8] {
        Ok(SchemaV::TimestampMillis)
    } else if logical == logical_timestamp_micros() && base == seq![108u8, 111u8, 110u8, 103u8] {
        Ok(SchemaV::TimestampMicros)
    } else if logical == logical_local_timestamp_millis() && base == seq![108u8, 111u8, 110u8, 103u8] {
        Ok(SchemaV::LocalTimestampMillis)
    } else if logical == logical_local_timestamp_micros() && base == seq![108u8, 111u8, 110u8, 103u8] {
        Ok(SchemaV::LocalTimestampMicros)
    } else if logical == logical_decimal() && base == seq![98u8, 121u8, 116u8, 101u8, 115u8] {
        match spec_scale_member(members) {
            Ok(sc) => Ok(SchemaV::Decimal(sc)),
            Err(e) => Err(e),
        }
    } else if logical == logical_timestamp_nanos() || logical == logical_local_timestamp_nanos()
        || logical == logical_duration() || logical == logical_big_decimal() {
        Err(SchemaError::Unsupported)
    } else {
        match spec_primitive_v(base) {
            Some(s) => Ok(s),
            None => Err(SchemaError::Unsupported),
        }
    }
}

/// The schema a registry document denotes: the defining specification of
/// `parse_schema`. A bare string names a primitive; an array is a union;
/// an object is read through its `type` member (a nested document stands
/// for itself), with `logicalType`, `items`, `values`, `symbols`, `size`,
/// `scale` and `fields` read as the grammar gives them; everything else
/// is malformed, and representable-but-unsupported constructs are refused.
pub open spec fn spec_parse_schema(j: JsonV) -> Result<SchemaV, SchemaError>
    decreases j, 2int,
{
    match j {
        JsonV::Str(name) => match spec_primitive_v(name) {
            Some(s) => Ok(s),
            None => Err(SchemaError::Unsupported),
        },
        JsonV::Arr(variants) => match spec_parse_union(variants) {
            Ok(vs) => Ok(SchemaV::Union(vs)),
            Err(e) => Err(e),
        },
        JsonV::Obj(members) => {
            let ti = spec_last_member(members, key_type());
            if !(0 <= ti < members.len()) {
                Err(SchemaError::Malformed)
            } else {
                match members[ti].1 {
                    JsonV::Str(tp) => spec_parse_typed(members, tp),
                    _ => spec_parse_schema(members[ti].1),
                }
            }
        },
        _ => Err(SchemaError::Malformed),
    }
}

/// An object document whose `type` member is the name `tp`.
pub open spec fn spec_parse_typed(members: Seq<(Seq<u8>, JsonV)>, tp: Seq<u8>) -> Result<
    SchemaV,
    SchemaError,
>
    decreases members, 1int,
{
    let li = spec_last_member(members, key_logical());
    if 0 <= li < members.len() {
        match members[li].1 {
            JsonV::Str(l) => spec_logical(tp, l, members),
            _ => Err(SchemaError::Malformed),
        }
    } else {
        match spec_primitive_v(tp) {
            Some(s) => Ok(s),
            None => if tp == name_array() {
                let ii = spec_last_member(members, key_items());
                if 0 <= ii < members.len() {
                    match spec_parse_schema(members[ii].1) {
                        Ok(s) => Ok(SchemaV::Array(Box::new(s))),
                        Err(e) => Err(e),
                    }
                } else {
                    Err(SchemaError::Malformed)
                }
            } else if tp == name_map() {
                let vi = spec_last_member(members, key_values());
                if 0 <= vi < members.len() {
                    match spec_parse_schema(members[vi].1) {
                        Ok(s) => Ok(SchemaV::Mapping(Box::new(s))),
                        Err(e) => Err(e),
                    }
                } else {
                    Err(SchemaError::Malformed)
                }
            } else if tp == name_enum() {
                let si = spec_last_member(members, key_symbols());
                if 0 <= si < members.len() {
                    match members[si].1 {
                        JsonV::Arr(syms) => match spec_symbols(syms) {
                            Ok(ss) => Ok(SchemaV::Enum(ss)),
                            Err(e) => Err(e),
                        },
                        _ => Err(SchemaError::Malformed),
                    }
                } else {
                    Err(SchemaError::Malformed)
                }
            } else if tp == name_fixed() {
                let zi = spec_last_member(members, key_size());
                if 0 <= zi < members.len() {
                    match spec_int_in(members[zi].1, 0xFFFFFFFF) {
                        Some(n) => Ok(SchemaV::Fixed(n)),
                        None => Err(SchemaError::Malformed),
                    }
                } else {
                    Err(SchemaError::Malformed)
                }
            } else if tp == name_record() {
                let fi = spec_last_member(members, key_fields());
                if 0 <= fi < members.len() {
                    match members[fi].1 {
                        JsonV::Arr(farr) => match spec_parse_fields(farr) {
                            Ok(fs) => Ok(SchemaV::Record(fs)),
                            Err(e) => Err(e),
                        },
                        _ => Err(SchemaError::Malformed),
                    }
                } else {
                    Err(SchemaError::Malformed)
                }
            } else {
                // named references and anything else unrepresentable
                Err(SchemaError::Unsupported)
            },
        }
    }
}

/// The variants of a union document, in order; the first failure wins.
pub open spec fn spec_parse_union(vs: Seq<JsonV>) -> Result<Seq<SchemaV>, SchemaError>
    decreases vs, 1int,
{
    if vs.len() == 0 {
        Ok(Seq::<SchemaV>::empty())
    } else {
        match spec_parse_schema(vs[0]) {
            Err(e) => Err(e),
            Ok(s) => match spec_parse_union(vs.skip(1)) {
                Err(e) => Err(e),
                Ok(t) => Ok(seq![s] + t),
            },
        }
    }
}

/// An enum symbol list: every element a string.
pub open spec fn spec_symbols(vs: Seq<JsonV>) -> Result<Seq<Seq<u8>>, SchemaError>
    decreases vs.len(),
{
    if vs.len() == 0 {
        Ok(Seq::<Seq<u8>>::empty())
    } else {
        match vs[0] {
            JsonV::Str(s) => match spec_symbols(vs.skip(1)) {
                Err(e) => Err(e),
                Ok(t) => Ok(seq![s] + t),
            },
            _ => Err(SchemaError::Malformed),
        }
    }
}

/// The fields of a record document, in order; the first failure wins.
pub open spec fn spec_parse_fields(vs: Seq<JsonV>) -> Result<Seq<RecordFieldV>, SchemaError>
    decreases vs, 1int,
{
    if vs.len() == 0 {
        Ok(Seq::<RecordFieldV>::empty())
    } else {
        match spec_parse_field(vs[0]) {
            Err(e) => Err(e),
            Ok(f) => match spec_parse_fields(vs.skip(1)) {
                Err(e) => Err(e),
                Ok(t) => Ok(seq![f] + t),
            },
        }
    }
}

/// One record field document: its `name`, its `type` (a full schema
/// document), and its optional `default` kept verbatim.
pub open spec fn spec_parse_field(f: JsonV) -> Result<RecordFieldV, SchemaError>
    decreases f, 1int,
{
    match f {
        JsonV::Obj(members) => {
            let ni = spec_last_member(members, key_name());
            if !(0 <= ni < members.len()) {
                Err(SchemaError::Malformed)
            } else {
                match members[ni].1 {
                    JsonV::Str(name) => {
                        let ti = spec_last_member(members, key_type());
                        if !(0 <= ti < members.len()) {
                            Err(SchemaError::Malformed)
                        } else {
                            match spec_parse_schema(members[ti].1) {
                                Err(e) => Err(e),
                                Ok(s) => {
                                    let di = spec_last_member(members, key_default());
                                    let dflt = if 0 <= di < members.len() {
                                        Some(members[di].1)
                                    } else {
                                        None
                                    };
                                    Ok(RecordFieldV { name, schema: s, default: dflt })
                                },
                            }
                        }
                    },
                    _ => Err(SchemaError::Malformed),
                }
            }
        },
        _ => Err(SchemaError::Malformed),
    }
}

/// How an executable schema result relates to the specification's.
pub open spec fn schema_matches(r: Result<Schema, SchemaError>, s: Result<SchemaV, SchemaError>) -> bool {
    match (r, s) {
        (Ok(a), Ok(b)) => schema_view(a) == b,
        (Err(x), Err(y)) => x == y,
        _ => false,
    }
}

fn primitive_of(name: &Vec<u8>) -> (r: Option<Schema>)
    ensures
        (match r {
            Some(s) => spec_primitive_v(name@) == Some(schema_view(s)),
            None => spec_primitive_v(name@) is None,
        }),
{
    let n_null: [u8; 4] = [110, 117, 108, 108];
    let n_boolean: [u8; 7] = [98, 111, 111, 108, 101, 97, 110];
    let n_int: [u8; 3] = [105, 110, 116];
    let n_long: [u8; 4] = [108, 111, 110, 103];
    let n_float: [u8; 5] = [102, 108, 111, 97, 116];
    let n_double: [u8; 6] = [100, 111, 117, 98, 108, 101];
    let n_bytes: [u8; 5] = [98, 121, 116, 101, 115];
    let n_string: [u8; 6] = [115, 116, 114, 105, 110, 103];
    proof {
        assert(n_null@ =~= seq![110u8, 117u8, 108u8, 108u8]);
        assert(n_boolean@ =~= seq![98u8, 111u8, 111u8, 108u8, 101u8, 97u8, 110u8]);
        assert(n_int@ =~= seq![105u8, 110u8, 116u8]);
        assert(n_long@ =~= seq![108u8, 111u8, 110u8, 103u8]);
        assert(n_float@ =~= seq![102u8, 108u8, 111u8, 97u8, 116u8]);
        assert(n_double@ =~= seq![100u8, 111u8, 117u8, 98u8, 108u8, 101u8]);
        assert(n_bytes@ =~= seq![98u8, 121u8, 116u8, 101u8, 115u8]);
        assert(n_string@ =~= seq![115u8, 116u8, 114u8, 105u8, 110u8, 103u8]);
    }
    if name_is(name, n_null.as_slice()) {
        Some(Schema::Null)
    } else if name_is(name, n_boolean.as_slice()) {
        Some(Schema::Boolean)
    } else if name_is(name, n_int.as_slice()) {
        Some(Schema::Int)
    } else if name_is(name, n_long.as_slice()) {
        Some(Schema::Long)
    } else if name_is(name, n_float.as_slice()) {
        Some(Schema::Float)
    } else if name_is(name, n_double.as_slice()) {
        Some(Schema::Double)
    } else if name_is(name, n_bytes.as_slice()) {
        Some(Schema::Bytes)
    } else if name_is(name, n_string.as_slice()) {
        Some(Schema::String)
    } else {
        None
    }
}

fn obj_last<'a>(members: &'a Vec<(Vec<u8>, Json)>, key: &[u8]) -> (r: Option<&'a Json>)
    ensures
        (match r {
            Some(x) => ({
                let i = spec_last_member(jmembers_view(members@), key@);
                &&& 0 <= i < jmembers_view(members@).len()
                &&& json_view(*x) == jmembers_view(members@)[i].1
                &&& exists|q: int| 0 <= q < members@.len() && members@[q].1 == *x
            }),
            None => spec_last_member(jmembers_view(members@), key@) == -1,
        }),
{
    proof {
        lemma_jmembers_view_len(members@);
        assert(jmembers_view(members@).take(members@.len() as int) =~= jmembers_view(members@));
    }
    let mut k = members.len();
    while k > 0
        invariant
            k <= members@.len(),
            jmembers_view(members@).len() == members@.len(),
            spec_last_member(jmembers_view(members@), key@) == spec_last_member(
                jmembers_view(members@).take(k as int),
                key@,
            ),
        decreases k,
    {
        proof {
            lemma_jmembers_view_index(members@, k - 1);
            let v = jmembers_view(members@);
            assert(v.take(k as int).drop_last() =~= v.take(k - 1));
            assert(v.take(k as int).last() == v[k - 1]);
        }
        if bytes_eq(members[k - 1].0.as_slice(), key) {
            proof {
                assert(jmembers_view(members@)[k - 1].0 == key@);
                assert(spec_last_member(jmembers_view(members@), key@) == k - 1);
            }
            return Some(&members[k - 1].1);
        }
        k = k - 1;
    }
    proof {
        assert(jmembers_view(members@).take(0) =~= Seq::<(Seq<u8>, JsonV)>::empty());
    }
    None
}

/// A whole-number member value within `[0, bound]`.
fn member_index(val: &Json, bound: u128) -> (r: Option<u128>)
    requires
        bound <= 0xFFFFFFFF,
    ensures
        (match r {
            Some(v) => spec_int_in(json_view(*val), bound as int) == Some(v as int),
            None => spec_int_in(json_view(*val), bound as int) is None,
        }),
{
    match val {
        Json::Num(d) => match crate::numeric::dec_to_int(*d) {
            Some(v) => if 0 <= v && (v as u128) <= bound {
                Some(v as u128)
            } else {
                None
            },
            None => None,
        },
        _ => None,
    }
}

/// The overlay selected by a `logicalType` member over a primitive base.
fn logical_of(base: &Vec<u8>, logical: &Vec<u8>, members: &Vec<(Vec<u8>, Json)>) -> (r: Result<
    Schema,
    SchemaError,
>)
    ensures
        schema_matches(r, spec_logical(base@, logical@, jmembers_view(members@))),
{
    let l_uuid: [u8; 4] = [117, 117, 105, 100];
    let l_date: [u8; 4] = [100, 97, 116, 101];
    let l_time_millis: [u8; 11] = [116, 105, 109, 101, 45, 109, 105, 108, 108, 105, 115];
    let l_time_micros: [u8; 11] = [116, 105, 109, 101, 45, 109, 105, 99, 114, 111, 115];
    let l_ts_millis: [u8; 16] = [116, 105, 109, 101, 115, 116, 97, 109, 112, 45, 109, 105, 108, 108, 105, 115];
    let l_ts_micros: [u8; 16] = [116, 105, 109, 101, 115, 116, 97, 109, 112, 45, 109, 105, 99, 114, 111, 115];
    let l_lts_millis: [u8; 22] = [108, 111, 99, 97, 108, 45, 116, 105, 109, 101, 115, 116, 97, 109, 112, 45, 109, 105, 108, 108, 105, 115];
    let l_lts_micros: [u8; 22] = [108, 111, 99, 97, 108, 45, 116, 105, 109, 101, 115, 116, 97, 109, 112, 45, 109, 105, 99, 114, 111, 115];
    let l_decimal: [u8; 7] = [100, 101, 99, 105, 109, 97, 108];
    let l_ts_nanos: [u8; 15] = [116, 105, 109, 101, 115, 116, 97, 109, 112, 45, 110, 97, 110, 111, 115];
    let l_lts_nanos: [u8; 21] = [108, 111, 99, 97, 108, 45, 116, 105, 109, 101, 115, 116, 97, 109, 112, 45, 110, 97, 110, 111, 115];
    let l_duration: [u8; 8] = [100, 117, 114, 97, 116, 105, 111, 110];
    let l_big_decimal: [u8; 11] = [98, 105, 103, 45, 100, 101, 99, 105, 109, 97, 108];
    let n_string: [u8; 6] = [115, 116, 114, 105, 110, 103];
    let n_int: [u8; 3] = [105, 110, 116];
    let n_long: [u8; 4] = [108, 111, 110, 103];
    let n_bytes: [u8; 5] = [98, 121, 116, 101, 115];
    let k_scale: [u8; 5] = [115, 99, 97, 108, 101];
    proof {
        assert(l_uuid@ =~= logical_uuid());
        assert(l_date@ =~= logical_date());
        assert(l_time_millis@ =~= logical_time_millis());
        assert(l_time_micros@ =~= logical_time_micros());
        assert(l_ts_millis@ =~= logical_timestamp_millis());
        assert(l_ts_micros@ =~= logical_timestamp_micros());
        assert(l_lts_millis@ =~= logical_local_timestamp_millis());
        assert(l_lts_micros@ =~= logical_local_timestamp_micros());
        assert(l_decimal@ =~= logical_decimal());
        assert(l_ts_nanos@ =~= logical_timestamp_nanos());
        assert(l_lts_nanos@ =~= logical_local_timestamp_nanos());
        assert(l_duration@ =~= logical_duration());
        assert(l_big_decimal@ =~= logical_big_decimal());
        assert(n_string@ =~= seq![115u8, 116u8, 114u8, 105u8, 110u8, 103u8]);
        assert(n_int@ =~= seq![105u8, 110u8, 116u8]);
        assert(n_long@ =~= seq![108u8, 111u8, 110u8, 103u8]);
        assert(n_bytes@ =~= seq![98u8, 121u8, 116u8, 101u8, 115u8]);
        assert(k_scale@ =~= key_scale());
    }
    if name_is(logical, l_uuid.as_slice()) && name_is(base, n_string.as_slice()) {
        Ok(Schema::Uuid)
    } else if name_is(logical, l_date.as_slice()) && name_is(base, n_int.as_slice()) {
        Ok(Schema::Date)
    } else if name_is(logical, l_time_millis.as_slice()) && name_is(base, n_int.as_slice()) {
        Ok(Schema::TimeMillis)
    } else if name_is(logical, l_time_micros.as_slice()) && name_is(base, n_long.as_slice()) {
        Ok(Schema::TimeMicros)
    } else if name_is(logical, l_ts_millis.as_slice()) && name_is(base, n_long.as_slice()) {
        Ok(Schema::TimestampMillis)
    } else if name_is(logical, l_ts_micros.as_slice()) && name_is(base, n_long.as_slice()) {
        Ok(Schema::TimestampMicros)
    } else if name_is(logical, l_lts_millis.as_slice()) && name_is(base, n_long.as_slice()) {
        Ok(Schema::LocalTimestampMillis)
    } else if name_is(logical, l_lts_micros.as_slice()) && name_is(base, n_long.as_slice()) {
        Ok(Schema::LocalTimestampMicros)
    } else if name_is(logical, l_decimal.as_slice()) && name_is(base, n_bytes.as_slice()) {
        match obj_last(members, k_scale.as_slice()) {
            None => Ok(Schema::Decimal(0)),
            Some(x) => match member_index(x, 0xFFFFFFFF) {
                Some(v) => Ok(Schema::Decimal(v as u32)),
                None => Err(SchemaError::Malformed),
            },
        }
    } else if name_is(logical, l_ts_nanos.as_slice()) || name_is(logical, l_lts_nanos.as_slice())
        || name_is(logical, l_duration.as_slice()) || name_is(logical, l_big_decimal.as_slice()) {
        Err(SchemaError::Unsupported)
    } else {
        match primitive_of(base) {
            Some(s) => Ok(s),
            None => Err(SchemaError::Unsupported),
        }
    }
}

/// Parse a registry schema document into the runtime schema tree, exactly
/// as `spec_parse_schema` says. Total: every document either yields a
/// schema or is rejected here, at startup — a construct the deserialiser
/// cannot represent is refused as `Unsupported`, anything outside the
/// grammar as `Malformed` — so no payload can crash on an unrepresentable
/// schema later.
pub fn parse_schema(json: &Json) -> (r: Result<Schema, SchemaError>)
    ensures
        schema_matches(r, spec_parse_schema(json_view(*json))),
    decreases json, 2int,
{
    match json {
        Json::Str(name) => {
            match primitive_of(name) {
                Some(s) => Ok(s),
                None => Err(SchemaError::Unsupported),
            }
        },
        Json::Arr(variants) => {
            let mut out: Vec<Schema> = Vec::new();
            let mut k: usize = 0;
            proof {
                lemma_jsons_view_len(variants@);
                assert(jsons_view(variants@).skip(0) =~= jsons_view(variants@));
                assert forall|t: Seq<SchemaV>|
                    spec_parse_union(jsons_view(variants@).skip(0)) == Ok::<_, SchemaError>(
                        t,
                    ) implies spec_parse_union(jsons_view(variants@)) == Ok::<_, SchemaError>(
                    schemas_view(out@) + t,
                ) by {
                    assert(schemas_view(out@) + t =~= t);
                }
            }
            while k < variants.len()
                invariant
                    *json == Json::Arr(*variants),
                    k <= variants.len(),
                    jsons_view(variants@).len() == variants@.len(),
                    forall|t: Seq<SchemaV>|
                        spec_parse_union(jsons_view(variants@).skip(k as int)) == Ok::<
                            _,
                            SchemaError,
                        >(t) ==> spec_parse_union(jsons_view(variants@)) == Ok::<_, SchemaError>(
                            schemas_view(out@) + t,
                        ),
                    spec_parse_union(jsons_view(variants@).skip(k as int)) is Err
                        ==> spec_parse_union(jsons_view(variants@)) == spec_parse_union(
                        jsons_view(variants@).skip(k as int),
                    ),
                decreases variants.len() - k,
            {
                let ghost k0 = k as int;
                let ghost out0 = out@;
                proof {
                    lemma_jsons_view_index(variants@, k0);
                    let t0 = jsons_view(variants@).skip(k0);
                    assert(t0.skip(1) =~= jsons_view(variants@).skip(k0 + 1));
                    assert(t0[0] == jsons_view(variants@)[k0]);
                    assert(decreases_to!(*json => json->Arr_0));
                    assert(json->Arr_0 == *variants);
                    assert(decreases_to!(*variants => variants@));
                    assert(decreases_to!(variants@ => variants@[k0]));
                }
                match parse_schema(&variants[k]) {
                    Err(e) => {
                        proof {
                            assert(spec_parse_union(jsons_view(variants@).skip(k0)) == Err::<
                                Seq<SchemaV>,
                                SchemaError,
                            >(e));
                        }
                        return Err(e);
                    },
                    Ok(s) => {
                        let ghost sg = s;
                        let ghost sv = schema_view(s);
                        out.push(s);
                        k = k + 1;
                        proof {
                            crate::schema::lemma_schemas_view_push(out0, sg);
                            let t0 = jsons_view(variants@).skip(k0);
                            assert forall|t: Seq<SchemaV>|
                                spec_parse_union(jsons_view(variants@).skip(k as int)) == Ok::<
                                    _,
                                    SchemaError,
                                >(t) implies spec_parse_union(jsons_view(variants@)) == Ok::<
                                _,
                                SchemaError,
                            >(schemas_view(out@) + t) by {
                                assert(spec_parse_union(jsons_view(variants@).skip(k0)) == Ok::<
                                    _,
                                    SchemaError,
                                >(seq![sv] + t));
                                assert(schemas_view(out0) + (seq![sv] + t) =~= schemas_view(out@)
                                    + t);
                            }
                        }
                    },
                }
            }
            proof {
                assert(jsons_view(variants@).skip(jsons_view(variants@).len() as int) =~= Seq::<
                    JsonV,
                >::empty());
                assert(schemas_view(out@) + Seq::<SchemaV>::empty() =~= schemas_view(out@));
            }
            Ok(Schema::Union(out))
        },
        Json::Obj(members) => {
            let k_type: [u8; 4] = [116, 121, 112, 101];
            proof {
                assert(k_type@ =~= key_type());
                lemma_jmembers_view_len(members@);
            }
            match obj_last(members, k_type.as_slice()) {
                None => Err(SchemaError::Malformed),
                Some(tj) => {
                    match tj {
                        Json::Str(tp) => parse_schema_typed(json, members, tp),
                        _ => {
                            proof {
                                let q = choose|q: int|
                                    0 <= q < members@.len() && members@[q].1 == *tj;
                                assert(decreases_to!(*json => json->Obj_0));
                                assert(json->Obj_0 == *members);
                                assert(decreases_to!(*members => members@));
                                assert(decreases_to!(members@ => members@[q]));
                                assert(decreases_to!(members@[q] => members@[q].1));
                            }
                            parse_schema(tj)
                        },
                    }
                },
            }
        },
        _ => Err(SchemaError::Malformed),
    }
}

/// An object document whose `type` member names its kind.
fn parse_schema_typed(json: &Json, members: &Vec<(Vec<u8>, Json)>, tp: &Vec<u8>) -> (r: Result<
    Schema,
    SchemaError,
>)
    requires
        *json == Json::Obj(*members),
    ensures
        schema_matches(r, spec_parse_typed(jmembers_view(members@), tp@)),
    decreases json, 1int,
{
    let k_logical: [u8; 11] = [108, 111, 103, 105, 99, 97, 108, 84, 121, 112, 101];
    let k_items: [u8; 5] = [105, 116, 101, 109, 115];
    let k_values: [u8; 6] = [118, 97, 108, 117, 101, 115];
    let k_symbols: [u8; 7] = [115, 121, 109, 98, 111, 108, 115];
    let k_size: [u8; 4] = [115, 105, 122, 101];
    let k_fields: [u8; 6] = [102, 105, 101, 108, 100, 115];
    let n_array: [u8; 5] = [97, 114, 114, 97, 121];
    let n_map: [u8; 3] = [109, 97, 112];
    let n_enum: [u8; 4] = [101, 110, 117, 109];
    let n_fixed: [u8; 5] = [102, 105, 120, 101, 100];
    let n_record: [u8; 6] = [114, 101, 99, 111, 114, 100];
    proof {
        assert(k_logical@ =~= key_logical());
        assert(k_items@ =~= key_items());
        assert(k_values@ =~= key_values());
        assert(k_symbols@ =~= key_symbols());
        assert(k_size@ =~= key_size());
        assert(k_fields@ =~= key_fields());
        assert(n_array@ =~= name_array());
        assert(n_map@ =~= name_map());
        assert(n_enum@ =~= name_enum());
        assert(n_fixed@ =~= name_fixed());
        assert(n_record@ =~= name_record());
        lemma_jmembers_view_len(members@);
    }
    match obj_last(members, k_logical.as_slice()) {
        Some(lx) => {
            return match lx {
                Json::Str(l) => logical_of(tp, l, members),
                _ => Err(SchemaError::Malformed),
            };
        },
        None => {},
    }
    if let Some(s) = primitive_of(tp) {
        return Ok(s);
    }
    if name_is(tp, n_array.as_slice()) {
        match obj_last(members, k_items.as_slice()) {
            Some(x) => {
                proof {
                    let q = choose|q: int| 0 <= q < members@.len() && members@[q].1 == *x;
                    assert(decreases_to!(*json => json->Obj_0));
                    assert(json->Obj_0 == *members);
                    assert(decreases_to!(*members => members@));
                    assert(decreases_to!(members@ => members@[q]));
                    assert(decreases_to!(members@[q] => members@[q].1));
                }
                match parse_schema(x) {
                    Ok(s) => Ok(Schema::Array(Box::new(s))),
                    Err(e) => Err(e),
                }
            },
            None => Err(SchemaError::Malformed),
        }
    } else if name_is(tp, n_map.as_slice()) {
        match obj_last(members, k_values.as_slice()) {
            Some(x) => {
                proof {
                    let q = choose|q: int| 0 <= q < members@.len() && members@[q].1 == *x;
                    assert(decreases_to!(*json => json->Obj_0));
                    assert(json->Obj_0 == *members);
                    assert(decreases_to!(*members => members@));
                    assert(decreases_to!(members@ => members@[q]));
                    assert(decreases_to!(members@[q] => members@[q].1));
                }
                match parse_schema(x) {
                    Ok(s) => Ok(Schema::Mapping(Box::new(s))),
                    Err(e) => Err(e),
                }
            },
            None => Err(SchemaError::Malformed),
        }
    } else if name_is(tp, n_enum.as_slice()) {
        match obj_last(members, k_symbols.as_slice()) {
            Some(x) => {
                match x {
                    Json::Arr(syms) => {
                        let mut out: Vec<Vec<u8>> = Vec::new();
                        let mut k: usize = 0;
                        proof {
                            lemma_jsons_view_len(syms@);
                            assert(jsons_view(syms@).skip(0) =~= jsons_view(syms@));
                            assert forall|t: Seq<Seq<u8>>|
                                spec_symbols(jsons_view(syms@).skip(0)) == Ok::<_, SchemaError>(
                                    t,
                                ) implies spec_symbols(jsons_view(syms@)) == Ok::<_, SchemaError>(
                                symbols_view(out@) + t,
                            ) by {
                                assert(symbols_view(out@) + t =~= t);
                            }
                        }
                        while k < syms.len()
                            invariant
                                k <= syms.len(),
                                jsons_view(syms@).len() == syms@.len(),
                                spec_parse_typed(jmembers_view(members@), tp@) == (
                                match spec_symbols(jsons_view(syms@)) {
                                    Ok(ss) => Ok::<SchemaV, SchemaError>(SchemaV::Enum(ss)),
                                    Err(e) => Err::<SchemaV, SchemaError>(e),
                                }),
                                forall|t: Seq<Seq<u8>>|
                                    spec_symbols(jsons_view(syms@).skip(k as int)) == Ok::<
                                        _,
                                        SchemaError,
                                    >(t) ==> spec_symbols(jsons_view(syms@)) == Ok::<
                                        _,
                                        SchemaError,
                                    >(symbols_view(out@) + t),
                                spec_symbols(jsons_view(syms@).skip(k as int)) is Err
                                    ==> spec_symbols(jsons_view(syms@)) == spec_symbols(
                                    jsons_view(syms@).skip(k as int),
                                ),
                            decreases syms.len() - k,
                        {
                            let ghost k0 = k as int;
                            let ghost out0 = out@;
                            proof {
                                lemma_jsons_view_index(syms@, k0);
                                let t0 = jsons_view(syms@).skip(k0);
                                assert(t0.skip(1) =~= jsons_view(syms@).skip(k0 + 1));
                                assert(t0[0] == jsons_view(syms@)[k0]);
                            }
                            match &syms[k] {
                                Json::Str(sym) => {
                                    let c = clone_bytes(sym);
                                    let ghost cg = c;
                                    out.push(c);
                                    k = k + 1;
                                    proof {
                                        crate::schema::lemma_symbols_view_push(out0, cg);
                                        assert forall|t: Seq<Seq<u8>>|
                                            spec_symbols(jsons_view(syms@).skip(k as int)) == Ok::<
                                                _,
                                                SchemaError,
                                            >(t) implies spec_symbols(jsons_view(syms@)) == Ok::<
                                            _,
                                            SchemaError,
                                        >(symbols_view(out@) + t) by {
                                            assert(spec_symbols(jsons_view(syms@).skip(k0)) == Ok::<
                                                _,
                                                SchemaError,
                                            >(seq![cg@] + t));
                                            assert(symbols_view(out0) + (seq![cg@] + t)
                                                =~= symbols_view(out@) + t);
                                        }
                                    }
                                },
                                _ => {
                                    proof {
                                        assert(spec_symbols(jsons_view(syms@).skip(k0)) == Err::<
                                            Seq<Seq<u8>>,
                                            SchemaError,
                                        >(SchemaError::Malformed));
                                    }
                                    return Err(SchemaError::Malformed);
                                },
                            }
                        }
                        proof {
                            assert(jsons_view(syms@).skip(jsons_view(syms@).len() as int) =~= Seq::<
                                JsonV,
                            >::empty());
                            assert(symbols_view(out@) + Seq::<Seq<u8>>::empty() =~= symbols_view(
                                out@,
                            ));
                        }
                        Ok(Schema::Enum(out))
                    },
                    _ => Err(SchemaError::Malformed),
                }
            },
            None => Err(SchemaError::Malformed),
        }
    } else if name_is(tp, n_fixed.as_slice()) {
        match obj_last(members, k_size.as_slice()) {
            Some(x) => match member_index(x, 0xFFFFFFFF) {
                Some(v) => Ok(Schema::Fixed(v as usize)),
                None => Err(SchemaError::Malformed),
            },
            None => Err(SchemaError::Malformed),
        }
    } else if name_is(tp, n_record.as_slice()) {
        match obj_last(members, k_fields.as_slice()) {
            Some(x) => {
                match x {
                    Json::Arr(farr) => {
                        let ghost fx = *x;
                        let mut out: Vec<RecordField> = Vec::new();
                        let mut k: usize = 0;
                        proof {
                            lemma_jsons_view_len(farr@);
                            assert(jsons_view(farr@).skip(0) =~= jsons_view(farr@));
                            assert forall|t: Seq<RecordFieldV>|
                                spec_parse_fields(jsons_view(farr@).skip(0)) == Ok::<
                                    _,
                                    SchemaError,
                                >(t) implies spec_parse_fields(jsons_view(farr@)) == Ok::<
                                _,
                                SchemaError,
                            >(fields_view(out@) + t) by {
                                assert(fields_view(out@) + t =~= t);
                            }
                        }
                        while k < farr.len()
                            invariant
                                *json == Json::Obj(*members),
                                fx == Json::Arr(*farr),
                                spec_parse_typed(jmembers_view(members@), tp@) == (
                                match spec_parse_fields(jsons_view(farr@)) {
                                    Ok(fs) => Ok::<SchemaV, SchemaError>(SchemaV::Record(fs)),
                                    Err(e) => Err::<SchemaV, SchemaError>(e),
                                }),
                                exists|q: int|
                                    0 <= q < members@.len() && members@[q].1 == fx,
                                k <= farr.len(),
                                jsons_view(farr@).len() == farr@.len(),
                                forall|t: Seq<RecordFieldV>|
                                    spec_parse_fields(jsons_view(farr@).skip(k as int)) == Ok::<
                                        _,
                                        SchemaError,
                                    >(t) ==> spec_parse_fields(jsons_view(farr@)) == Ok::<
                                        _,
                                        SchemaError,
                                    >(fields_view(out@) + t),
                                spec_parse_fields(jsons_view(farr@).skip(k as int)) is Err
                                    ==> spec_parse_fields(jsons_view(farr@)) == spec_parse_fields(
                                    jsons_view(farr@).skip(k as int),
                                ),
                            decreases farr.len() - k,
                        {
                            let ghost k0 = k as int;
                            let ghost out0 = out@;
                            proof {
                                lemma_jsons_view_index(farr@, k0);
                                let t0 = jsons_view(farr@).skip(k0);
                                assert(t0.skip(1) =~= jsons_view(farr@).skip(k0 + 1));
                                assert(t0[0] == jsons_view(farr@)[k0]);
                                let q = choose|q: int|
                                    0 <= q < members@.len() && members@[q].1 == fx;
                                assert(decreases_to!(*json => json->Obj_0));
                                assert(json->Obj_0 == *members);
                                assert(decreases_to!(*members => members@));
                                assert(decreases_to!(members@ => members@[q]));
                                assert(decreases_to!(members@[q] => members@[q].1));
                                assert(decreases_to!(fx => fx->Arr_0));
                                assert(fx->Arr_0 == *farr);
                                assert(decreases_to!(*farr => farr@));
                                assert(decreases_to!(farr@ => farr@[k0]));
                            }
                            match parse_record_field(&farr[k]) {
                                Err(e) => {
                                    proof {
                                        assert(spec_parse_fields(jsons_view(farr@).skip(k0))
                                            == Err::<Seq<RecordFieldV>, SchemaError>(e));
                                    }
                                    return Err(e);
                                },
                                Ok(f) => {
                                    let ghost fg = f;
                                    out.push(f);
                                    k = k + 1;
                                    proof {
                                        crate::schema::lemma_fields_view_push(out0, fg);
                                        assert forall|t: Seq<RecordFieldV>|
                                            spec_parse_fields(jsons_view(farr@).skip(k as int))
                                                == Ok::<_, SchemaError>(
                                                t,
                                            ) implies spec_parse_fields(jsons_view(farr@)) == Ok::<
                                            _,
                                            SchemaError,
                                        >(fields_view(out@) + t) by {
                                            assert(spec_parse_fields(jsons_view(farr@).skip(k0))
                                                == Ok::<_, SchemaError>(
                                                seq![field_view(fg)] + t,
                                            ));
                                            assert(fields_view(out0) + (seq![field_view(fg)] + t)
                                                =~= fields_view(out@) + t);
                                        }
                                    }
                                },
                            }
                        }
                        proof {
                            assert(jsons_view(farr@).skip(jsons_view(farr@).len() as int) =~= Seq::<
                                JsonV,
                            >::empty());
                            assert(fields_view(out@) + Seq::<RecordFieldV>::empty() =~= fields_view(
                                out@,
                            ));
                        }
                        Ok(Schema::Record(out))
                    },
                    _ => Err(SchemaError::Malformed),
                }
            },
            None => Err(SchemaError::Malformed),
        }
    } else {
        // named references and anything else unrepresentable
        Err(SchemaError::Unsupported)
    }
}

/// Parse one record field: its name, its schema, its optional default.
fn parse_record_field(field: &Json) -> (r: Result<RecordField, SchemaError>)
    ensures
        schema_matches_field(r, spec_parse_field(json_view(*field))),
    decreases field, 1int,
{
    let k_name: [u8; 4] = [110, 97, 109, 101];
    let k_type: [u8; 4] = [116, 121, 112, 101];
    let k_default: [u8; 7] = [100, 101, 102, 97, 117, 108, 116];
    proof {
        assert(k_name@ =~= key_name());
        assert(k_type@ =~= key_type());
        assert(k_default@ =~= key_default());
    }
    match field {
        Json::Obj(members) => {
            proof {
                lemma_jmembers_view_len(members@);
            }
            let name = match obj_last(members, k_name.as_slice()) {
                Some(Json::Str(n)) => clone_bytes(n),
                Some(_) => {
                    return Err(SchemaError::Malformed);
                },
                None => {
                    return Err(SchemaError::Malformed);
                },
            };
            let schema = match obj_last(members, k_type.as_slice()) {
                Some(x) => {
                    proof {
                        let q = choose|q: int| 0 <= q < members@.len() && members@[q].1 == *x;
                        assert(decreases_to!(*field => field->Obj_0));
                        assert(field->Obj_0 == *members);
                        assert(decreases_to!(*members => members@));
                        assert(decreases_to!(members@ => members@[q]));
                        assert(decreases_to!(members@[q] => members@[q].1));
                    }
                    match parse_schema(x) {
                        Ok(s) => s,
                        Err(e) => {
                            return Err(e);
                        },
                    }
                },
                None => {
                    return Err(SchemaError::Malformed);
                },
            };
            let default = match obj_last(members, k_default.as_slice()) {
                Some(d) => Some(clone_json(d)),
                None => None,
            };
            Ok(RecordField { name, schema, default })
        },
        _ => Err(SchemaError::Malformed),
    }
}

/// How an executable field result relates to the specification's.
pub open spec fn schema_matches_field(
    r: Result<RecordField, SchemaError>,
    s: Result<RecordFieldV, SchemaError>,
) -> bool {
    match (r, s) {
        (Ok(a), Ok(b)) => field_view(a) == b,
        (Err(x), Err(y)) => x == y,
        _ => false,
    }
}

/// A structural copy of a JSON value.
pub fn clone_json(j: &Json) -> (r: Json)
    ensures
        json_view(r) == json_view(*j),
    decreases j,
{
    match j {
        Json::Null => Json::Null,
        Json::Bool(b) => Json::Bool(*b),
        Json::Num(d) => Json::Num(*d),
        Json::Str(s) => Json::Str(clone_bytes(s)),
        Json::Arr(elems) => {
            let mut out: Vec<Json> = Vec::new();
            let mut k: usize = 0;
            while k < elems.len()
                invariant
                    k <= elems.len(),
                    *j == Json::Arr(*elems),
                    out@.len() == k,
                    crate::json::jsons_view(out@) == crate::json::jsons_view(
                        elems@.take(k as int),
                    ),
                decreases elems.len() - k,
            {
                proof {
                    assert(decreases_to!(*j => j->Arr_0));
                    assert(j->Arr_0 == *elems);
                    assert(decreases_to!(*elems => elems@));
                    assert(decreases_to!(elems@ => elems@[k as int]));
                }
                let ghost out0 = out@;
                let c = clone_json(&elems[k]);
                let ghost cg = c;
                out.push(c);
                k = k + 1;
                proof {
                    crate::json::lemma_jsons_view_push(out0, cg);
                    crate::json::lemma_jsons_view_push(elems@.take(k - 1), elems@[k - 1]);
                    assert(elems@.take(k - 1).push(elems@[k - 1]) =~= elems@.take(k as int));
                }
            }
            proof {
                assert(elems@.take(elems@.len() as int) =~= elems@);
            }
            Json::Arr(out)
        },
        Json::Obj(members) => {
            let mut out: Vec<(Vec<u8>, Json)> = Vec::new();
            let mut k: usize = 0;
            while k < members.len()
                invariant
                    k <= members.len(),
                    *j == Json::Obj(*members),
                    out@.len() == k,
                    crate::json::jmembers_view(out@) == crate::json::jmembers_view(
                        members@.take(k as int),
                    ),
                decreases members.len() - k,
            {
                proof {
                    assert(decreases_to!(*j => j->Obj_0));
                    assert(j->Obj_0 == *members);
                    assert(decreases_to!(*members => members@));
                    assert(decreases_to!(members@ => members@[k as int]));
                    assert(decreases_to!(members@[k as int] => members@[k as int].1));
                }
                let ghost out0 = out@;
                let key = clone_bytes(&members[k].0);
                let ghost keyg = key;
                let c = clone_json(&members[k].1);
                let ghost cg = c;
                out.push((key, c));
                k = k + 1;
                proof {
                    crate::json::lemma_jmembers_view_push(out0, keyg, cg);
                    crate::json::lemma_jmembers_view_push(
                        members@.take(k - 1),
                        members@[k - 1].0,
                        members@[k - 1].1,
                    );
                    assert(members@.take(k - 1).push((members@[k - 1].0, members@[k - 1].1))
                        =~= members@.take(k as int));
                }
            }
            proof {
                assert(members@.take(members@.len() as int) =~= members@);
            }
            Json::Obj(out)
        },
    }
}

/// The registry subject name for a topic under the three strategies.
pub enum SubjectNameStrategy {
    TopicName,
    RecordName(Vec<u8>),
    TopicRecordName(Vec<u8>),
}

/// Choose the strategy from the configured options: an explicit record
/// name selects the record-name strategy; otherwise a topic-record name
/// selects the combined strategy; otherwise the topic-name strategy, the
/// default.
pub fn select_strategy(record_name: Option<Vec<u8>>, topic_record_name: Option<Vec<u8>>) -> (r:
    SubjectNameStrategy)
    ensures
        (match record_name {
            Some(n) => r == SubjectNameStrategy::RecordName(n),
            None => match topic_record_name {
                Some(n) => r == SubjectNameStrategy::TopicRecordName(n),
                None => r == SubjectNameStrategy::TopicName,
            },
        }),
{
    match record_name {
        Some(n) => SubjectNameStrategy::RecordName(n),
        None => match topic_record_name {
            Some(n) => SubjectNameStrategy::TopicRecordName(n),
            None => SubjectNameStrategy::TopicName,
        },
    }
}

/// The subject looked up in the registry: `{topic}-value` for the topic
/// strategy, the record name alone for the record strategy, and
/// `{topic}-{record}` for the combined strategy.
pub fn subject_name_strategy(strategy: &SubjectNameStrategy, topic: &Vec<u8>) -> (r: Vec<u8>)
    ensures
        match *strategy {
            SubjectNameStrategy::TopicName => r@ == topic@ + seq![45u8, 118u8, 97u8, 108u8, 117u8, 101u8],
            SubjectNameStrategy::RecordName(ref n) => r@ == n@,
            SubjectNameStrategy::TopicRecordName(ref n) => r@ == topic@ + seq![45u8] + n@,
        },
{
    match strategy {
        SubjectNameStrategy::TopicName => {
            let mut out = clone_bytes(topic);
            let suffix: [u8; 6] = [45, 118, 97, 108, 117, 101];
            let mut k: usize = 0;
            while k < 6
                invariant
                    k <= 6,
                    suffix@ =~= seq![45u8, 118u8, 97u8, 108u8, 117u8, 101u8],
                    out@ == topic@ + suffix@.take(k as int),
                decreases 6 - k,
            {
                out.push(suffix[k]);
                k = k + 1;
                proof {
                    assert(topic@ + suffix@.take(k - 1) + seq![suffix@[k - 1]] =~= topic@
                        + suffix@.take(k as int));
                }
            }
            proof {
                assert(suffix@.take(6) =~= suffix@);
            }
            out
        },
        SubjectNameStrategy::RecordName(n) => clone_bytes(n),
        SubjectNameStrategy::TopicRecordName(n) => {
            let mut out = clone_bytes(topic);
            out.push(45);
            let mut k: usize = 0;
            while k < n.len()
                invariant
                    k <= n.len(),
                    out@ == topic@ + seq![45u8] + n@.take(k as int),
                decreases n.len() - k,
            {
                out.push(n[k]);
                k = k + 1;
                proof {
                    assert(topic@ + seq![45u8] + n@.take(k - 1) + seq![n@[k - 1]] =~= topic@ + seq![
                        45u8,
                    ] + n@.take(k as int));
                }
            }
            proof {
                assert(n@.take(n@.len() as int) =~= n@);
            }
            out
        },
    }
}

/// The cached (id, parsed schema) pair resolved at startup.
pub struct SchemaRegistry {
    pub id: u32,
    pub schema: Schema,
}

impl SchemaRegistry {
    pub fn new(id: u32, schema: Schema) -> (r: SchemaRegistry)
        ensures
            r.id == id,
            r.schema == schema,
    {
        SchemaRegistry { id, schema }
    }

    /// Encode a JSON payload against the cached schema into a framed Avro
    /// record: parse, deserialise, serialise, frame. The first byte of a
    /// successful result is zero and the next four are the schema id in
    /// big-endian order; the body is the binary encoding of a value whose
    /// model is exactly what the deserialiser's specification gives (the
    /// model leaves only float bit patterns open).
    pub fn encode(&self, payload: &[u8]) -> (r: Result<Vec<u8>, EncodeError>)
        ensures
            match spec_parse_json(payload@) {
                None => r == Err::<Vec<u8>, EncodeError>(EncodeError::InvalidJson),
                Some(jv) => match spec_deser(self.schema, jv) {
                    Err(e) => r == Err::<Vec<u8>, EncodeError>(EncodeError::Deser(e)),
                    Ok(sv) => r is Ok && (exists|v: Value|
                        value_view(v) == sv && r->Ok_0@ == spec_framed(self.id, v)),
                },
            },
            r is Ok ==> r->Ok_0@.len() >= 5 && r->Ok_0@[0] == 0 && r->Ok_0@.subrange(1, 5) == be32(
                self.id,
            ),
    {
        let json = match parse_json(payload) {
            Some(j) => j,
            None => {
                return Err(EncodeError::InvalidJson);
            },
        };
        let value = match deserialize(&self.schema, &json) {
            Ok(v) => v,
            Err(e) => {
                return Err(EncodeError::Deser(e));
            },
        };
        let framed = crate::avro::frame_record(self.id, &value);
        proof {
            let ghost sv = spec_deser(self.schema, json_view(json))->Ok_0;
            assert(value_view(value) == sv && framed@ == spec_framed(self.id, value));
        }
        Ok(framed)
    }
}

} // verus!
