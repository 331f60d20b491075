//! The schema-directed JSON-to-Avro deserialiser: for every supported
//! schema node and JSON node, either the typed value or the reason the
//! payload is rejected. `spec_deser` is the defining specification; the
//! executable functions are proved to return exactly what it says.
use vstd::prelude::*;

use crate::base64::{b64_decode, base64_decode};
use crate::datetime::{
    epoch_micros, epoch_millis, local_micros, local_millis, parse_rfc3339, rfc3339_parts,
    spec_local_micros, spec_local_millis, spec_ts_micros, spec_ts_millis,
};
use crate::json::{
    jmembers_view, json_view, jsons_view, lemma_jmembers_view_index, lemma_jmembers_view_len,
    lemma_jsons_view_index, lemma_jsons_view_len, spec_obj_lookup, Json, JsonV,
};
use crate::numeric::{
    dec_representable, dec_to_f32_bits, dec_to_f64_bits, dec_to_int, decimal_rescale,
    spec_decimal_int,
};
use crate::schema::{RecordField, Schema};
use crate::util::{bytes_eq, clone_bytes, min_tc, min_tc_bytes};
use crate::uuid::{spec_uuid_parse, uuid_parse};
use crate::value::{
    lemma_pairs_view_push, lemma_values_view_push, pairs_view, value_view, values_view, DeserError,
    Value, ValueV,
};

verus! {

/// How an executable result relates to the specification's: same success
/// or failure, the value equal at the model level, the error identical.
pub open spec fn deser_matches(r: Result<Value, DeserError>, s: Result<ValueV, DeserError>) -> bool {
    match (r, s) {
        (Ok(v), Ok(sv)) => value_view(v) == sv,
        (Err(e), Err(se)) => e == se,
        _ => false,
    }
}

pub open spec fn spec_deser_null(j: JsonV) -> Result<ValueV, DeserError> {
    match j {
        JsonV::Null => Ok(ValueV::Null),
        _ => Err(DeserError::TypeMismatch),
    }
}

pub open spec fn spec_deser_boolean(j: JsonV) -> Result<ValueV, DeserError> {
    match j {
        JsonV::Bool(b) => Ok(ValueV::Boolean(b)),
        _ => Err(DeserError::TypeMismatch),
    }
}

pub open spec fn spec_deser_int(j: JsonV) -> Result<ValueV, DeserError> {
    match j {
        JsonV::Num(d) => if d.is_integer() && -0x80000000 <= d.int_value() < 0x80000000 {
            Ok(ValueV::Int(d.int_value() as i32))
        } else {
            Err(DeserError::OutOfRange)
        },
        _ => Err(DeserError::TypeMismatch),
    }
}

pub open spec fn spec_deser_long(j: JsonV) -> Result<ValueV, DeserError> {
    match j {
        JsonV::Num(d) => if d.is_integer() && -0x8000000000000000 <= d.int_value()
            < 0x8000000000000000 {
            Ok(ValueV::Long(d.int_value() as i64))
        } else {
            Err(DeserError::OutOfRange)
        },
        _ => Err(DeserError::TypeMismatch),
    }
}

pub open spec fn spec_deser_float(j: JsonV) -> Result<ValueV, DeserError> {
    match j {
        JsonV::Num(d) => if dec_representable(d) {
            Ok(ValueV::Float)
        } else {
            Err(DeserError::OutOfRange)
        },
        _ => Err(DeserError::TypeMismatch),
    }
}

pub open spec fn spec_deser_double(j: JsonV) -> Result<ValueV, DeserError> {
    match j {
        JsonV::Num(d) => if dec_representable(d) {
            Ok(ValueV::Double)
        } else {
            Err(DeserError::OutOfRange)
        },
        _ => Err(DeserError::TypeMismatch),
    }
}

pub open spec fn spec_deser_string(j: JsonV) -> Result<ValueV, DeserError> {
    match j {
        JsonV::Str(s) => Ok(ValueV::String(s)),
        _ => Err(DeserError::TypeMismatch),
    }
}

pub open spec fn spec_deser_bytes(j: JsonV) -> Result<ValueV, DeserError> {
    match j {
        JsonV::Str(s) => match b64_decode(s) {
            Some(b) => Ok(ValueV::Bytes(b)),
            None => Err(DeserError::InvalidBase64),
        },
        _ => Err(DeserError::TypeMismatch),
    }
}

pub open spec fn spec_deser_fixed(size: usize, j: JsonV) -> Result<ValueV, DeserError> {
    match j {
        JsonV::Str(s) => match b64_decode(s) {
            Some(b) => if b.len() == size {
                Ok(ValueV::Fixed(size as int, b))
            } else {
                Err(DeserError::FixedSizeMismatch)
            },
            None => Err(DeserError::InvalidBase64),
        },
        _ => Err(DeserError::TypeMismatch),
    }
}

pub open spec fn spec_deser_uuid(j: JsonV) -> Result<ValueV, DeserError> {
    match j {
        JsonV::Str(s) => match spec_uuid_parse(s) {
            Some(b) => Ok(ValueV::Uuid(b)),
            None => Err(DeserError::InvalidUuid),
        },
        _ => Err(DeserError::TypeMismatch),
    }
}

pub open spec fn spec_deser_decimal(scale: u32, j: JsonV) -> Result<ValueV, DeserError> {
    match j {
        JsonV::Num(d) => match spec_decimal_int(d, scale) {
            Some(n) => Ok(ValueV::Decimal(min_tc(n))),
            None => Err(DeserError::DecimalOverflow),
        },
        _ => Err(DeserError::TypeMismatch),
    }
}

/// First position of `key` in a symbol list.
pub open spec fn spec_position(symbols: Seq<Vec<u8>>, key: Seq<u8>) -> Option<int>
    decreases symbols.len(),
{
    if symbols.len() == 0 {
        None
    } else if symbols[0]@ == key {
        Some(0)
    } else {
        match spec_position(symbols.skip(1), key) {
            Some(i) => Some(i + 1),
            None => None,
        }
    }
}

pub open spec fn spec_deser_enum(symbols: Seq<Vec<u8>>, j: JsonV) -> Result<ValueV, DeserError> {
    match j {
        JsonV::Str(s) => match spec_position(symbols, s) {
            Some(i) => Ok(ValueV::Enum(i, s)),
            None => Err(DeserError::UnknownEnumSymbol),
        },
        JsonV::Num(d) => if d.is_integer() {
            if 0 <= d.int_value() < symbols.len() {
                Ok(ValueV::Enum(d.int_value(), symbols[d.int_value()]@))
            } else {
                Err(DeserError::EnumIndexOutOfRange)
            }
        } else {
            Err(DeserError::OutOfRange)
        },
        _ => Err(DeserError::TypeMismatch),
    }
}

pub open spec fn spec_deser_date(j: JsonV) -> Result<ValueV, DeserError> {
    match j {
        JsonV::Str(s) => match rfc3339_parts(s) {
            Some(p) => if -0x80000000 <= p.0 < 0x80000000 {
                Ok(ValueV::Date(p.0 as i32))
            } else {
                Err(DeserError::OutOfRange)
            },
            None => Err(DeserError::InvalidDateTime),
        },
        JsonV::Num(d) => if d.is_integer() && -0x80000000 <= d.int_value() < 0x80000000 {
            Ok(ValueV::Date(d.int_value() as i32))
        } else {
            Err(DeserError::OutOfRange)
        },
        _ => Err(DeserError::TypeMismatch),
    }
}

pub open spec fn spec_deser_time_millis(j: JsonV) -> Result<ValueV, DeserError> {
    match j {
        JsonV::Str(s) => match rfc3339_parts(s) {
            Some(p) => if p.1 as int / 1_000_000 < 0x80000000 {
                Ok(ValueV::TimeMillis((p.1 as int / 1_000_000) as i32))
            } else {
                Err(DeserError::OutOfRange)
            },
            None => Err(DeserError::InvalidDateTime),
        },
        JsonV::Num(d) => if d.is_integer() && -0x80000000 <= d.int_value() < 0x80000000 {
            Ok(ValueV::TimeMillis(d.int_value() as i32))
        } else {
            Err(DeserError::OutOfRange)
        },
        _ => Err(DeserError::TypeMismatch),
    }
}

pub open spec fn spec_deser_time_micros(j: JsonV) -> Result<ValueV, DeserError> {
    match j {
        JsonV::Str(s) => match rfc3339_parts(s) {
            Some(p) => Ok(ValueV::TimeMicros((p.1 as int / 1_000) as i64)),
            None => Err(DeserError::InvalidDateTime),
        },
        JsonV::Num(d) => if d.is_integer() && -0x8000000000000000 <= d.int_value()
            < 0x8000000000000000 {
            Ok(ValueV::TimeMicros(d.int_value() as i64))
        } else {
            Err(DeserError::OutOfRange)
        },
        _ => Err(DeserError::TypeMismatch),
    }
}

pub open spec fn spec_deser_timestamp_millis(j: JsonV) -> Result<ValueV, DeserError> {
    match j {
        JsonV::Str(s) => match rfc3339_parts(s) {
            Some(p) => if -0x8000000000000000 <= spec_ts_millis(p) < 0x8000000000000000 {
                Ok(ValueV::TimestampMillis(spec_ts_millis(p) as i64))
            } else {
                Err(DeserError::OutOfRange)
            },
            None => Err(DeserError::InvalidDateTime),
        },
        JsonV::Num(d) => if d.is_integer() && -0x8000000000000000 <= d.int_value()
            < 0x8000000000000000 {
            Ok(ValueV::TimestampMillis(d.int_value() as i64))
        } else {
            Err(DeserError::OutOfRange)
        },
        _ => Err(DeserError::TypeMismatch),
    }
}

pub open spec fn spec_deser_timestamp_micros(j: JsonV) -> Result<ValueV, DeserError> {
    match j {
        JsonV::Str(s) => match rfc3339_parts(s) {
            Some(p) => if -0x8000000000000000 <= spec_ts_micros(p) < 0x8000000000000000 {
                Ok(ValueV::TimestampMicros(spec_ts_micros(p) as i64))
            } else {
                Err(DeserError::OutOfRange)
            },
            None => Err(DeserError::InvalidDateTime),
        },
        JsonV::Num(d) => if d.is_integer() && -0x8000000000000000 <= d.int_value()
            < 0x8000000000000000 {
            Ok(ValueV::TimestampMicros(d.int_value() as i64))
        } else {
            Err(DeserError::OutOfRange)
        },
        _ => Err(DeserError::TypeMismatch),
    }
}

pub open spec fn spec_deser_local_timestamp_millis(j: JsonV) -> Result<ValueV, DeserError> {
    match j {
        JsonV::Str(s) => match rfc3339_parts(s) {
            Some(p) => if -0x8000000000000000 <= spec_local_millis(p) < 0x8000000000000000 {
                Ok(ValueV::LocalTimestampMillis(spec_local_millis(p) as i64))
            } else {
                Err(DeserError::OutOfRange)
            },
            None => Err(DeserError::InvalidDateTime),
        },
        JsonV::Num(d) => if d.is_integer() && -0x8000000000000000 <= d.int_value()
            < 0x8000000000000000 {
            Ok(ValueV::LocalTimestampMillis(d.int_value() as i64))
        } else {
            Err(DeserError::OutOfRange)
        },
        _ => Err(DeserError::TypeMismatch),
    }
}

pub open spec fn spec_deser_local_timestamp_micros(j: JsonV) -> Result<ValueV, DeserError> {
    match j {
        JsonV::Str(s) => match rfc3339_parts(s) {
            Some(p) => if -0x8000000000000000 <= spec_local_micros(p) < 0x8000000000000000 {
                Ok(ValueV::LocalTimestampMicros(spec_local_micros(p) as i64))
            } else {
                Err(DeserError::OutOfRange)
            },
            None => Err(DeserError::InvalidDateTime),
        },
        JsonV::Num(d) => if d.is_integer() && -0x8000000000000000 <= d.int_value()
            < 0x8000000000000000 {
            Ok(ValueV::LocalTimestampMicros(d.int_value() as i64))
        } else {
            Err(DeserError::OutOfRange)
        },
        _ => Err(DeserError::TypeMismatch),
    }
}

/// The typed value for each schema and JSON node pair: the defining
/// specification of the deserialiser.
pub open spec fn spec_deser(s: Schema, j: JsonV) -> Result<ValueV, DeserError>
    decreases s, j,
{
    match s {
        Schema::Null => spec_deser_null(j),
        Schema::Boolean => spec_deser_boolean(j),
        Schema::Int => spec_deser_int(j),
        Schema::Long => spec_deser_long(j),
        Schema::Float => spec_deser_float(j),
        Schema::Double => spec_deser_double(j),
        Schema::Bytes => spec_deser_bytes(j),
        Schema::String => spec_deser_string(j),
        Schema::Array(items) => match j {
            JsonV::Arr(elems) => match spec_deser_seq(*items, elems) {
                Ok(vs) => Ok(ValueV::Array(vs)),
                Err(e) => Err(e),
            },
            _ => Err(DeserError::TypeMismatch),
        },
        Schema::Mapping(values) => match j {
            JsonV::Obj(members) => match spec_deser_members(*values, members) {
                Ok(ps) => Ok(ValueV::Mapping(ps)),
                Err(e) => Err(e),
            },
            _ => Err(DeserError::TypeMismatch),
        },
        Schema::Union(variants) => match spec_deser_union(variants@, j) {
            Ok((i, v)) => Ok(ValueV::Union(i, Box::new(v))),
            Err(e) => Err(e),
        },
        Schema::Record(fields) => match j {
            JsonV::Obj(members) => match spec_deser_fields(fields@, members) {
                Ok(ps) => Ok(ValueV::Record(ps)),
                Err(e) => Err(e),
            },
            _ => Err(DeserError::TypeMismatch),
        },
        Schema::Enum(symbols) => spec_deser_enum(symbols@, j),
        Schema::Fixed(size) => spec_deser_fixed(size, j),
        Schema::Decimal(scale) => spec_deser_decimal(scale, j),
        Schema::Uuid => spec_deser_uuid(j),
        Schema::Date => spec_deser_date(j),
        Schema::TimeMillis => spec_deser_time_millis(j),
        Schema::TimeMicros => spec_deser_time_micros(j),
        Schema::TimestampMillis => spec_deser_timestamp_millis(j),
        Schema::TimestampMicros => spec_deser_timestamp_micros(j),
        Schema::LocalTimestampMillis => spec_deser_local_timestamp_millis(j),
        Schema::LocalTimestampMicros => spec_deser_local_timestamp_micros(j),
    }
}

/// Element-wise deserialisation of an array; the first failure wins.
pub open spec fn spec_deser_seq(item: Schema, elems: Seq<JsonV>) -> Result<Seq<ValueV>, DeserError>
    decreases item, elems,
{
    if elems.len() == 0 {
        Ok(Seq::<ValueV>::empty())
    } else {
        match spec_deser(item, elems[0]) {
            Err(e) => Err(e),
            Ok(v) => match spec_deser_seq(item, elems.skip(1)) {
                Err(e) => Err(e),
                Ok(t) => Ok(seq![v] + t),
            },
        }
    }
}

/// Member-wise deserialisation of a map object; keys kept verbatim, in
/// order; the first failure wins.
pub open spec fn spec_deser_members(values: Schema, members: Seq<(Seq<u8>, JsonV)>) -> Result<
    Seq<(Seq<u8>, ValueV)>,
    DeserError,
>
    decreases values, members,
{
    if members.len() == 0 {
        Ok(Seq::<(Seq<u8>, ValueV)>::empty())
    } else {
        match spec_deser(values, members[0].1) {
            Err(e) => Err(e),
            Ok(v) => match spec_deser_members(values, members.skip(1)) {
                Err(e) => Err(e),
                Ok(t) => Ok(seq![(members[0].0, v)] + t),
            },
        }
    }
}

/// The first variant, in declaration order, that accepts the value.
pub open spec fn spec_deser_union(variants: Seq<Schema>, j: JsonV) -> Result<
    (int, ValueV),
    DeserError,
>
    decreases variants, j,
{
    if variants.len() == 0 {
        Err(DeserError::NoUnionVariant)
    } else {
        match spec_deser(variants[0], j) {
            Ok(v) => Ok((0, v)),
            Err(_) => match spec_deser_union(variants.skip(1), j) {
                Ok((i, v)) => Ok((i + 1, v)),
                Err(e) => Err(e),
            },
        }
    }
}

/// Field-by-field deserialisation of a record in schema order: a member's
/// value under the field name, else the schema default, else failure.
pub open spec fn spec_deser_fields(
    fields: Seq<RecordField>,
    members: Seq<(Seq<u8>, JsonV)>,
) -> Result<Seq<(Seq<u8>, ValueV)>, DeserError>
    decreases fields, members,
{
    if fields.len() == 0 {
        Ok(Seq::<(Seq<u8>, ValueV)>::empty())
    } else {
        let f = fields[0];
        let source = match spec_obj_lookup(members, f.name@) {
            Some(x) => Some(x),
            None => match f.default {
                Some(d) => Some(json_view(d)),
                None => None,
            },
        };
        match source {
            None => Err(DeserError::MissingField),
            Some(x) => match spec_deser(f.schema, x) {
                Err(e) => Err(e),
                Ok(v) => match spec_deser_fields(fields.skip(1), members) {
                    Err(e) => Err(e),
                    Ok(t) => Ok(seq![(f.name@, v)] + t),
                },
            },
        }
    }
}

/// An array against its item schema.
pub open spec fn spec_deser_array(item: Schema, j: JsonV) -> Result<ValueV, DeserError> {
    match j {
        JsonV::Arr(elems) => match spec_deser_seq(item, elems) {
            Ok(vs) => Ok(ValueV::Array(vs)),
            Err(e) => Err(e),
        },
        _ => Err(DeserError::TypeMismatch),
    }
}

/// A map object against its value schema.
pub open spec fn spec_deser_map(values: Schema, j: JsonV) -> Result<ValueV, DeserError> {
    match j {
        JsonV::Obj(members) => match spec_deser_members(values, members) {
            Ok(ps) => Ok(ValueV::Mapping(ps)),
            Err(e) => Err(e),
        },
        _ => Err(DeserError::TypeMismatch),
    }
}

/// A union value: the matching variant's index and inner value.
pub open spec fn spec_deser_union_value(variants: Seq<Schema>, j: JsonV) -> Result<
    ValueV,
    DeserError,
> {
    match spec_deser_union(variants, j) {
        Ok((i, v)) => Ok(ValueV::Union(i, Box::new(v))),
        Err(e) => Err(e),
    }
}

/// A record object against its field list.
pub open spec fn spec_deser_record(fields: Seq<RecordField>, j: JsonV) -> Result<
    ValueV,
    DeserError,
> {
    match j {
        JsonV::Obj(members) => match spec_deser_fields(fields, members) {
            Ok(ps) => Ok(ValueV::Record(ps)),
            Err(e) => Err(e),
        },
        _ => Err(DeserError::TypeMismatch),
    }
}

pub fn deserialize_null(json: &Json) -> (r: Result<Value, DeserError>)
    ensures
        deser_matches(r, spec_deser_null(json_view(*json))),
{
    match json {
        Json::Null => Ok(Value::Null),
        _ => Err(DeserError::TypeMismatch),
    }
}

pub fn deserialize_boolean(json: &Json) -> (r: Result<Value, DeserError>)
    ensures
        deser_matches(r, spec_deser_boolean(json_view(*json))),
{
    match json {
        Json::Bool(b) => Ok(Value::Boolean(*b)),
        _ => Err(DeserError::TypeMismatch),
    }
}

pub fn deserialize_int(json: &Json) -> (r: Result<Value, DeserError>)
    ensures
        deser_matches(r, spec_deser_int(json_view(*json))),
{
    match json {
        Json::Num(d) => match dec_to_int(*d) {
            Some(v) => if -0x80000000 <= v && v < 0x80000000 {
                Ok(Value::Int(v as i32))
            } else {
                Err(DeserError::OutOfRange)
            },
            None => Err(DeserError::OutOfRange),
        },
        _ => Err(DeserError::TypeMismatch),
    }
}

pub fn deserialize_long(json: &Json) -> (r: Result<Value, DeserError>)
    ensures
        deser_matches(r, spec_deser_long(json_view(*json))),
{
    match json {
        Json::Num(d) => match dec_to_int(*d) {
            Some(v) => if -0x8000000000000000 <= v && v < 0x8000000000000000 {
                Ok(Value::Long(v as i64))
            } else {
                Err(DeserError::OutOfRange)
            },
            None => Err(DeserError::OutOfRange),
        },
        _ => Err(DeserError::TypeMismatch),
    }
}

pub fn deserialize_float(json: &Json) -> (r: Result<Value, DeserError>)
    ensures
        deser_matches(r, spec_deser_float(json_view(*json))),
{
    match json {
        Json::Num(d) => match dec_to_f32_bits(d.mantissa, d.scale) {
            Some(bits) => Ok(Value::Float(bits)),
            None => Err(DeserError::OutOfRange),
        },
        _ => Err(DeserError::TypeMismatch),
    }
}

pub fn deserialize_double(json: &Json) -> (r: Result<Value, DeserError>)
    ensures
        deser_matches(r, spec_deser_double(json_view(*json))),
{
    match json {
        Json::Num(d) => match dec_to_f64_bits(d.mantissa, d.scale) {
            Some(bits) => Ok(Value::Double(bits)),
            None => Err(DeserError::OutOfRange),
        },
        _ => Err(DeserError::TypeMismatch),
    }
}

pub fn deserialize_string(json: &Json) -> (r: Result<Value, DeserError>)
    ensures
        deser_matches(r, spec_deser_string(json_view(*json))),
{
    match json {
        Json::Str(s) => Ok(Value::String(clone_bytes(s))),
        _ => Err(DeserError::TypeMismatch),
    }
}

/// Decode a standard-alphabet base64 byte string, as the byte-oriented
/// schema nodes require.
pub fn deserialize_base64_byte_string(s: &[u8]) -> (r: Result<Vec<u8>, DeserError>)
    ensures
        match r {
            Ok(v) => b64_decode(s@) == Some(v@),
            Err(e) => b64_decode(s@) is None && e == DeserError::InvalidBase64,
        },
{
    match base64_decode(s) {
        Some(v) => Ok(v),
        None => Err(DeserError::InvalidBase64),
    }
}

pub fn deserialize_bytes(json: &Json) -> (r: Result<Value, DeserError>)
    ensures
        deser_matches(r, spec_deser_bytes(json_view(*json))),
{
    match json {
        Json::Str(s) => match deserialize_base64_byte_string(s.as_slice()) {
            Ok(b) => Ok(Value::Bytes(b)),
            Err(e) => Err(e),
        },
        _ => Err(DeserError::TypeMismatch),
    }
}

pub fn deserialize_fixed(size: usize, json: &Json) -> (r: Result<Value, DeserError>)
    ensures
        deser_matches(r, spec_deser_fixed(size, json_view(*json))),
{
    match json {
        Json::Str(s) => match deserialize_base64_byte_string(s.as_slice()) {
            Ok(b) => if b.len() == size {
                Ok(Value::Fixed(size, b))
            } else {
                Err(DeserError::FixedSizeMismatch)
            },
            Err(e) => Err(e),
        },
        _ => Err(DeserError::TypeMismatch),
    }
}

pub fn deserialize_uuid(json: &Json) -> (r: Result<Value, DeserError>)
    ensures
        deser_matches(r, spec_deser_uuid(json_view(*json))),
{
    match json {
        Json::Str(s) => match uuid_parse(s.as_slice()) {
            Some(b) => Ok(Value::Uuid(b)),
            None => Err(DeserError::InvalidUuid),
        },
        _ => Err(DeserError::TypeMismatch),
    }
}

pub fn deserialize_decimal(scale: u32, json: &Json) -> (r: Result<Value, DeserError>)
    ensures
        deser_matches(r, spec_deser_decimal(scale, json_view(*json))),
{
    match json {
        Json::Num(d) => match decimal_rescale(*d, scale) {
            Some(n) => Ok(Value::Decimal(min_tc_bytes(n))),
            None => Err(DeserError::DecimalOverflow),
        },
        _ => Err(DeserError::TypeMismatch),
    }
}

pub fn deserialize_date(json: &Json) -> (r: Result<Value, DeserError>)
    ensures
        deser_matches(r, spec_deser_date(json_view(*json))),
{
    match json {
        Json::Str(s) => match parse_rfc3339(s.as_slice()) {
            Some(p) => Ok(Value::Date(p.0 as i32)),
            None => Err(DeserError::InvalidDateTime),
        },
        Json::Num(d) => match dec_to_int(*d) {
            Some(v) => if -0x80000000 <= v && v < 0x80000000 {
                Ok(Value::Date(v as i32))
            } else {
                Err(DeserError::OutOfRange)
            },
            None => Err(DeserError::OutOfRange),
        },
        _ => Err(DeserError::TypeMismatch),
    }
}

pub fn deserialize_time_millis(json: &Json) -> (r: Result<Value, DeserError>)
    ensures
        deser_matches(r, spec_deser_time_millis(json_view(*json))),
{
    match json {
        Json::Str(s) => match parse_rfc3339(s.as_slice()) {
            Some(p) => Ok(Value::TimeMillis((p.1 / 1_000_000) as i32)),
            None => Err(DeserError::InvalidDateTime),
        },
        Json::Num(d) => match dec_to_int(*d) {
            Some(v) => if -0x80000000 <= v && v < 0x80000000 {
                Ok(Value::TimeMillis(v as i32))
            } else {
                Err(DeserError::OutOfRange)
            },
            None => Err(DeserError::OutOfRange),
        },
        _ => Err(DeserError::TypeMismatch),
    }
}

pub fn deserialize_time_micros(json: &Json) -> (r: Result<Value, DeserError>)
    ensures
        deser_matches(r, spec_deser_time_micros(json_view(*json))),
{
    match json {
        Json::Str(s) => match parse_rfc3339(s.as_slice()) {
            Some(p) => Ok(Value::TimeMicros((p.1 / 1_000) as i64)),
            None => Err(DeserError::InvalidDateTime),
        },
        Json::Num(d) => match dec_to_int(*d) {
            Some(v) => if -0x8000000000000000 <= v && v < 0x8000000000000000 {
                Ok(Value::TimeMicros(v as i64))
            } else {
                Err(DeserError::OutOfRange)
            },
            None => Err(DeserError::OutOfRange),
        },
        _ => Err(DeserError::TypeMismatch),
    }
}

pub fn deserialize_timestamp_millis(json: &Json) -> (r: Result<Value, DeserError>)
    ensures
        deser_matches(r, spec_deser_timestamp_millis(json_view(*json))),
{
    match json {
        Json::Str(s) => match parse_rfc3339(s.as_slice()) {
            Some(p) => Ok(Value::TimestampMillis(epoch_millis(p))),
            None => Err(DeserError::InvalidDateTime),
        },
        Json::Num(d) => match dec_to_int(*d) {
            Some(v) => if -0x8000000000000000 <= v && v < 0x8000000000000000 {
                Ok(Value::TimestampMillis(v as i64))
            } else {
                Err(DeserError::OutOfRange)
            },
            None => Err(DeserError::OutOfRange),
        },
        _ => Err(DeserError::TypeMismatch),
    }
}

pub fn deserialize_timestamp_micros(json: &Json) -> (r: Result<Value, DeserError>)
    ensures
        deser_matches(r, spec_deser_timestamp_micros(json_view(*json))),
{
    match json {
        Json::Str(s) => match parse_rfc3339(s.as_slice()) {
            Some(p) => Ok(Value::TimestampMicros(epoch_micros(p))),
            None => Err(DeserError::InvalidDateTime),
        },
        Json::Num(d) => match dec_to_int(*d) {
            Some(v) => if -0x8000000000000000 <= v && v < 0x8000000000000000 {
                Ok(Value::TimestampMicros(v as i64))
            } else {
                Err(DeserError::OutOfRange)
            },
            None => Err(DeserError::OutOfRange),
        },
        _ => Err(DeserError::TypeMismatch),
    }
}

pub fn deserialize_local_timestamp_millis(json: &Json) -> (r: Result<Value, DeserError>)
    ensures
        deser_matches(r, spec_deser_local_timestamp_millis(json_view(*json))),
{
    match json {
        Json::Str(s) => match parse_rfc3339(s.as_slice()) {
            Some(p) => Ok(Value::LocalTimestampMillis(local_millis(p))),
            None => Err(DeserError::InvalidDateTime),
        },
        Json::Num(d) => match dec_to_int(*d) {
            Some(v) => if -0x8000000000000000 <= v && v < 0x8000000000000000 {
                Ok(Value::LocalTimestampMillis(v as i64))
            } else {
                Err(DeserError::OutOfRange)
            },
            None => Err(DeserError::OutOfRange),
        },
        _ => Err(DeserError::TypeMismatch),
    }
}

/// Skipping a matchless prefix does not change a symbol search, up to the
/// index offset.
proof fn lemma_position_skip(symbols: Seq<Vec<u8>>, key: Seq<u8>, k: int)
    requires
        0 <= k <= symbols.len(),
        forall|j: int| 0 <= j < k ==> symbols[j]@ != key,
    ensures
        spec_position(symbols, key) == match spec_position(symbols.skip(k), key) {
            Some(i) => Some(i + k),
            None => None::<int>,
        },
    decreases k,
{
    if k == 0 {
        assert(symbols.skip(0) =~= symbols);
    } else {
        assert(symbols.skip(1).skip(k - 1) =~= symbols.skip(k));
        assert(forall|j: int| 0 <= j < k - 1 ==> symbols.skip(1)[j]@ != key);
        lemma_position_skip(symbols.skip(1), key, k - 1);
    }
}

/// Skipping a matchless prefix does not change an object lookup.
proof fn lemma_obj_lookup_skip(members: Seq<(Seq<u8>, JsonV)>, key: Seq<u8>, k: int)
    requires
        0 <= k <= members.len(),
        forall|j: int| 0 <= j < k ==> members[j].0 != key,
    ensures
        spec_obj_lookup(members, key) == spec_obj_lookup(members.skip(k), key),
    decreases k,
{
    if k == 0 {
        assert(members.skip(0) =~= members);
    } else {
        assert(members.skip(1).skip(k - 1) =~= members.skip(k));
        assert(forall|j: int| 0 <= j < k - 1 ==> members.skip(1)[j].0 != key);
        lemma_obj_lookup_skip(members.skip(1), key, k - 1);
    }
}

/// First member bound to `key`, if any.
fn obj_lookup<'a>(members: &'a Vec<(Vec<u8>, Json)>, key: &Vec<u8>) -> (r: Option<&'a Json>)
    ensures
        match r {
            Some(x) => spec_obj_lookup(jmembers_view(members@), key@) == Some(json_view(*x)),
            None => spec_obj_lookup(jmembers_view(members@), key@) is None,
        },
{
    proof {
        lemma_jmembers_view_len(members@);
    }
    let mut k: usize = 0;
    while k < members.len()
        invariant
            k <= members.len(),
            jmembers_view(members@).len() == members@.len(),
            forall|j: int| 0 <= j < k ==> #[trigger] jmembers_view(members@)[j].0 != key@,
        decreases members.len() - k,
    {
        proof {
            lemma_jmembers_view_index(members@, k as int);
        }
        if bytes_eq(members[k].0.as_slice(), key.as_slice()) {
            proof {
                lemma_obj_lookup_skip(jmembers_view(members@), key@, k as int);
                assert(jmembers_view(members@).skip(k as int)[0] == jmembers_view(members@)[
                    k as int]);
            }
            return Some(&members[k].1);
        }
        k = k + 1;
    }
    proof {
        lemma_obj_lookup_skip(jmembers_view(members@), key@, members@.len() as int);
        assert(jmembers_view(members@).skip(members@.len() as int) =~= Seq::<
            (Seq<u8>, JsonV),
        >::empty());
    }
    None
}

pub fn deserialize_enum(symbols: &Vec<Vec<u8>>, json: &Json) -> (r: Result<Value, DeserError>)
    ensures
        deser_matches(r, spec_deser_enum(symbols@, json_view(*json))),
{
    match json {
        Json::Str(s) => {
            let mut k: usize = 0;
            while k < symbols.len()
                invariant
                    *json == Json::Str(*s),
                    k <= symbols.len(),
                    forall|j: int| 0 <= j < k ==> symbols@[j]@ != s@,
                decreases symbols.len() - k,
            {
                if bytes_eq(symbols[k].as_slice(), s.as_slice()) {
                    proof {
                        lemma_position_skip(symbols@, s@, k as int);
                        assert(symbols@.skip(k as int)[0] == symbols@[k as int]);
                    }
                    return Ok(Value::Enum(k, clone_bytes(s)));
                }
                k = k + 1;
            }
            proof {
                lemma_position_skip(symbols@, s@, symbols@.len() as int);
                assert(symbols@.skip(symbols@.len() as int) =~= Seq::<Vec<u8>>::empty());
            }
            Err(DeserError::UnknownEnumSymbol)
        },
        Json::Num(d) => match dec_to_int(*d) {
            Some(v) => if v >= 0 && v < symbols.len() as i128 {
                let idx = v as usize;
                Ok(Value::Enum(idx, clone_bytes(&symbols[idx])))
            } else {
                Err(DeserError::EnumIndexOutOfRange)
            },
            None => Err(DeserError::OutOfRange),
        },
        _ => Err(DeserError::TypeMismatch),
    }
}

pub fn deserialize_array(items: &Schema, json: &Json) -> (r: Result<Value, DeserError>)
    ensures
        deser_matches(r, spec_deser_array(*items, json_view(*json))),
    decreases items, 1int,
{
    match json {
        Json::Arr(elems) => {
            let mut out: Vec<Value> = Vec::new();
            let mut k: usize = 0;
            proof {
                lemma_jsons_view_len(elems@);
                assert(jsons_view(elems@).skip(0) =~= jsons_view(elems@));
                assert forall|t: Seq<ValueV>|
                    spec_deser_seq(*items, jsons_view(elems@).skip(0)) == Ok::<_, DeserError>(
                        t,
                    ) implies spec_deser_seq(*items, jsons_view(elems@)) == Ok::<_, DeserError>(
                    values_view(out@) + t,
                ) by {
                    assert(values_view(out@) + t =~= t);
                }
            }
            while k < elems.len()
                invariant
                    *json == Json::Arr(*elems),
                    k <= elems.len(),
                    jsons_view(elems@).len() == elems@.len(),
                    forall|t: Seq<ValueV>|
                        spec_deser_seq(*items, jsons_view(elems@).skip(k as int)) == Ok::<
                            _,
                            DeserError,
                        >(t) ==> spec_deser_seq(*items, jsons_view(elems@)) == Ok::<_, DeserError>(
                            values_view(out@) + t,
                        ),
                    spec_deser_seq(*items, jsons_view(elems@).skip(k as int)) is Err
                        ==> spec_deser_seq(*items, jsons_view(elems@)) == spec_deser_seq(
                        *items,
                        jsons_view(elems@).skip(k as int),
                    ),
                decreases elems.len() - k,
            {
                let ghost k0 = k as int;
                let ghost out0 = out@;
                proof {
                    lemma_jsons_view_index(elems@, k0);
                    let t0 = jsons_view(elems@).skip(k0);
                    assert(t0.skip(1) =~= jsons_view(elems@).skip(k0 + 1));
                    assert(t0[0] == jsons_view(elems@)[k0]);
                }
                match deserialize(items, &elems[k]) {
                    Err(e) => {
                        proof {
                            assert(spec_deser_seq(*items, jsons_view(elems@).skip(k0)) == Err::<
                                Seq<ValueV>,
                                DeserError,
                            >(e));
                        }
                        return Err(e);
                    },
                    Ok(v) => {
                        out.push(v);
                        k = k + 1;
                        proof {
                            lemma_values_view_push(out0, v);
                            let t0 = jsons_view(elems@).skip(k0);
                            assert forall|t: Seq<ValueV>|
                                spec_deser_seq(*items, jsons_view(elems@).skip(k as int)) == Ok::<
                                    _,
                                    DeserError,
                                >(t) implies spec_deser_seq(*items, jsons_view(elems@)) == Ok::<
                                _,
                                DeserError,
                            >(values_view(out@) + t) by {
                                assert(spec_deser_seq(*items, t0) == Ok::<_, DeserError>(
                                    seq![value_view(v)] + t,
                                ));
                                assert(values_view(out0) + (seq![value_view(v)] + t) =~= values_view(
                                    out@,
                                ) + t);
                            }
                        }
                    },
                }
            }
            proof {
                assert(jsons_view(elems@).skip(jsons_view(elems@).len() as int) =~= Seq::<
                    JsonV,
                >::empty());
                assert(values_view(out@) + Seq::<ValueV>::empty() =~= values_view(out@));
            }
            Ok(Value::Array(out))
        },
        _ => Err(DeserError::TypeMismatch),
    }
}

pub fn deserialize_map(values: &Schema, json: &Json) -> (r: Result<Value, DeserError>)
    ensures
        deser_matches(r, spec_deser_map(*values, json_view(*json))),
    decreases values, 1int,
{
    match json {
        Json::Obj(members) => {
            let mut out: Vec<(Vec<u8>, Value)> = Vec::new();
            let mut k: usize = 0;
            proof {
                lemma_jmembers_view_len(members@);
                assert(jmembers_view(members@).skip(0) =~= jmembers_view(members@));
                assert forall|t: Seq<(Seq<u8>, ValueV)>|
                    spec_deser_members(*values, jmembers_view(members@).skip(0)) == Ok::<
                        _,
                        DeserError,
                    >(t) implies spec_deser_members(*values, jmembers_view(members@)) == Ok::<
                    _,
                    DeserError,
                >(pairs_view(out@) + t) by {
                    assert(pairs_view(out@) + t =~= t);
                }
            }
            while k < members.len()
                invariant
                    *json == Json::Obj(*members),
                    k <= members.len(),
                    jmembers_view(members@).len() == members@.len(),
                    forall|t: Seq<(Seq<u8>, ValueV)>|
                        spec_deser_members(*values, jmembers_view(members@).skip(k as int)) == Ok::<
                            _,
                            DeserError,
                        >(t) ==> spec_deser_members(*values, jmembers_view(members@)) == Ok::<
                            _,
                            DeserError,
                        >(pairs_view(out@) + t),
                    spec_deser_members(*values, jmembers_view(members@).skip(k as int)) is Err
                        ==> spec_deser_members(*values, jmembers_view(members@))
                        == spec_deser_members(
                        *values,
                        jmembers_view(members@).skip(k as int),
                    ),
                decreases members.len() - k,
            {
                let ghost k0 = k as int;
                let ghost out0 = out@;
                proof {
                    lemma_jmembers_view_index(members@, k0);
                    let t0 = jmembers_view(members@).skip(k0);
                    assert(t0.skip(1) =~= jmembers_view(members@).skip(k0 + 1));
                    assert(t0[0] == jmembers_view(members@)[k0]);
                }
                match deserialize(values, &members[k].1) {
                    Err(e) => {
                        proof {
                            assert(spec_deser_members(*values, jmembers_view(members@).skip(k0))
                                == Err::<Seq<(Seq<u8>, ValueV)>, DeserError>(e));
                        }
                        return Err(e);
                    },
                    Ok(v) => {
                        let key = clone_bytes(&members[k].0);
                        let ghost keyg = key;
                        out.push((key, v));
                        k = k + 1;
                        proof {
                            lemma_pairs_view_push(out0, keyg, v);
                            assert(pairs_view(out@) == pairs_view(out0).push(
                                (members@[k0].0@, value_view(v)),
                            ));
                            let t0 = jmembers_view(members@).skip(k0);
                            assert forall|t: Seq<(Seq<u8>, ValueV)>|
                                spec_deser_members(*values, jmembers_view(members@).skip(k as int))
                                    == Ok::<_, DeserError>(t) implies spec_deser_members(
                                *values,
                                jmembers_view(members@),
                            ) == Ok::<_, DeserError>(pairs_view(out@) + t) by {
                                assert(spec_deser_members(*values, t0) == Ok::<_, DeserError>(
                                    seq![(members@[k0].0@, value_view(v))] + t,
                                ));
                                assert(pairs_view(out0) + (seq![(members@[k0].0@, value_view(v))]
                                    + t) =~= pairs_view(out@) + t);
                            }
                        }
                    },
                }
            }
            proof {
                assert(jmembers_view(members@).skip(jmembers_view(members@).len() as int) =~= Seq::<
                    (Seq<u8>, JsonV),
                >::empty());
                assert(pairs_view(out@) + Seq::<(Seq<u8>, ValueV)>::empty() =~= pairs_view(out@));
            }
            Ok(Value::Mapping(out))
        },
        _ => Err(DeserError::TypeMismatch),
    }
}

pub fn deserialize_union(variants: &Vec<Schema>, json: &Json) -> (r: Result<Value, DeserError>)
    ensures
        deser_matches(r, spec_deser_union_value(variants@, json_view(*json))),
    decreases variants, 1int,
{
    let mut k: usize = 0;
    proof {
        assert(variants@.skip(0) =~= variants@);
    }
    while k < variants.len()
        invariant
            k <= variants.len(),
            (match spec_deser_union(variants@.skip(k as int), json_view(*json)) {
                Ok((i, v)) => spec_deser_union(variants@, json_view(*json)) == Ok::<_, DeserError>(
                    (i + k, v),
                ),
                Err(e) => spec_deser_union(variants@, json_view(*json)) == Err::<
                    (int, ValueV),
                    _,
                >(e),
            }),
        decreases variants.len() - k,
    {
        let ghost k0 = k as int;
        proof {
            let t0 = variants@.skip(k0);
            assert(t0.skip(1) =~= variants@.skip(k0 + 1));
            assert(t0[0] == variants@[k0]);
        }
        match deserialize(&variants[k], json) {
            Ok(v) => {
                proof {
                    let t0 = variants@.skip(k0);
                    assert(spec_deser_union(t0, json_view(*json)) == Ok::<_, DeserError>(
                        (0int, value_view(v)),
                    ));
                }
                return Ok(Value::Union(k, Box::new(v)));
            },
            Err(_) => {
                k = k + 1;
            },
        }
    }
    proof {
        assert(variants@.skip(variants@.len() as int) =~= Seq::<Schema>::empty());
    }
    Err(DeserError::NoUnionVariant)
}

pub fn deserialize_record(fields: &Vec<RecordField>, json: &Json) -> (r: Result<Value, DeserError>)
    ensures
        deser_matches(r, spec_deser_record(fields@, json_view(*json))),
    decreases fields, 1int,
{
    match json {
        Json::Obj(members) => {
            let mut out: Vec<(Vec<u8>, Value)> = Vec::new();
            let mut k: usize = 0;
            proof {
                lemma_jmembers_view_len(members@);
                assert(fields@.skip(0) =~= fields@);
                assert forall|t: Seq<(Seq<u8>, ValueV)>|
                    spec_deser_fields(fields@.skip(0), jmembers_view(members@)) == Ok::<
                        _,
                        DeserError,
                    >(t) implies spec_deser_fields(fields@, jmembers_view(members@)) == Ok::<
                    _,
                    DeserError,
                >(pairs_view(out@) + t) by {
                    assert(pairs_view(out@) + t =~= t);
                }
            }
            while k < fields.len()
                invariant
                    *json == Json::Obj(*members),
                    k <= fields.len(),
                    forall|t: Seq<(Seq<u8>, ValueV)>|
                        spec_deser_fields(fields@.skip(k as int), jmembers_view(members@)) == Ok::<
                            _,
                            DeserError,
                        >(t) ==> spec_deser_fields(fields@, jmembers_view(members@)) == Ok::<
                            _,
                            DeserError,
                        >(pairs_view(out@) + t),
                    spec_deser_fields(fields@.skip(k as int), jmembers_view(members@)) is Err
                        ==> spec_deser_fields(fields@, jmembers_view(members@))
                        == spec_deser_fields(
                        fields@.skip(k as int),
                        jmembers_view(members@),
                    ),
                decreases fields.len() - k,
            {
                let ghost k0 = k as int;
                let ghost out0 = out@;
                proof {
                    let t0 = fields@.skip(k0);
                    assert(t0.skip(1) =~= fields@.skip(k0 + 1));
                    assert(t0[0] == fields@[k0]);
                }
                let f = &fields[k];
                let source: &Json = match obj_lookup(members, &f.name) {
                    Some(x) => x,
                    None => {
                        match &f.default {
                            Some(d) => d,
                            None => {
                                proof {
                                    assert(spec_deser_fields(
                                        fields@.skip(k0),
                                        jmembers_view(members@),
                                    ) == Err::<Seq<(Seq<u8>, ValueV)>, DeserError>(
                                        DeserError::MissingField,
                                    ));
                                }
                                return Err(DeserError::MissingField);
                            },
                        }
                    },
                };
                proof {
                    let f0 = fields@.skip(k0)[0];
                    assert(match spec_obj_lookup(jmembers_view(members@), f0.name@) {
                        Some(x) => Some(x),
                        None => match f0.default {
                            Some(d) => Some(json_view(d)),
                            None => None,
                        },
                    } == Some(json_view(*source)));
                }
                match deserialize(&f.schema, source) {
                    Err(e) => {
                        proof {
                            assert(spec_deser_fields(fields@.skip(k0), jmembers_view(members@))
                                == Err::<Seq<(Seq<u8>, ValueV)>, DeserError>(e));
                        }
                        return Err(e);
                    },
                    Ok(v) => {
                        let key = clone_bytes(&f.name);
                        let ghost keyg = key;
                        out.push((key, v));
                        k = k + 1;
                        proof {
                            lemma_pairs_view_push(out0, keyg, v);
                            assert(pairs_view(out@) == pairs_view(out0).push(
                                (fields@[k0].name@, value_view(v)),
                            ));
                            let t0 = fields@.skip(k0);
                            assert forall|t: Seq<(Seq<u8>, ValueV)>|
                                spec_deser_fields(fields@.skip(k as int), jmembers_view(members@))
                                    == Ok::<_, DeserError>(t) implies spec_deser_fields(
                                fields@,
                                jmembers_view(members@),
                            ) == Ok::<_, DeserError>(pairs_view(out@) + t) by {
                                assert(spec_deser_fields(t0, jmembers_view(members@)) == Ok::<
                                    _,
                                    DeserError,
                                >(seq![(fields@[k0].name@, value_view(v))] + t));
                                assert(pairs_view(out0) + (seq![
                                    (fields@[k0].name@, value_view(v)),
                                ] + t) =~= pairs_view(out@) + t);
                            }
                        }
                    },
                }
            }
            proof {
                assert(fields@.skip(fields@.len() as int) =~= Seq::<RecordField>::empty());
                assert(pairs_view(out@) + Seq::<(Seq<u8>, ValueV)>::empty() =~= pairs_view(out@));
            }
            Ok(Value::Record(out))
        },
        _ => Err(DeserError::TypeMismatch),
    }
}

/// Walk the schema tree and deserialise the JSON node against it.
pub fn deserialize(schema: &Schema, json: &Json) -> (r: Result<Value, DeserError>)
    ensures
        deser_matches(r, spec_deser(*schema, json_view(*json))),
    decreases schema, 0int,
{
    match schema {
        Schema::Null => deserialize_null(json),
        Schema::Boolean => deserialize_boolean(json),
        Schema::Int => deserialize_int(json),
        Schema::Long => deserialize_long(json),
        Schema::Float => deserialize_float(json),
        Schema::Double => deserialize_double(json),
        Schema::Bytes => deserialize_bytes(json),
        Schema::String => deserialize_string(json),
        Schema::Array(items) => deserialize_array(items, json),
        Schema::Mapping(values) => deserialize_map(values, json),
        Schema::Union(variants) => deserialize_union(variants, json),
        Schema::Record(fields) => deserialize_record(fields, json),
        Schema::Enum(symbols) => deserialize_enum(symbols, json),
        Schema::Fixed(size) => deserialize_fixed(*size, json),
        Schema::Decimal(scale) => deserialize_decimal(*scale, json),
        Schema::Uuid => deserialize_uuid(json),
        Schema::Date => deserialize_date(json),
        Schema::TimeMillis => deserialize_time_millis(json),
        Schema::TimeMicros => deserialize_time_micros(json),
        Schema::TimestampMillis => deserialize_timestamp_millis(json),
        Schema::TimestampMicros => deserialize_timestamp_micros(json),
        Schema::LocalTimestampMillis => deserialize_local_timestamp_millis(json),
        Schema::LocalTimestampMicros => deserialize_local_timestamp_micros(json),
    }
}

/// Deserialise a JSON document against a schema: the library's main entry
/// point into the typed-value world.
pub fn deserialize_json(schema: &Schema, json: &Json) -> (r: Result<Value, DeserError>)
    ensures
        deser_matches(r, spec_deser(*schema, json_view(*json))),
{
    deserialize(schema, json)
}

pub fn deserialize_local_timestamp_micros(json: &Json) -> (r: Result<Value, DeserError>)
    ensures
        deser_matches(r, spec_deser_local_timestamp_micros(json_view(*json))),
{
    match json {
        Json::Str(s) => match parse_rfc3339(s.as_slice()) {
            Some(p) => Ok(Value::LocalTimestampMicros(local_micros(p))),
            None => Err(DeserError::InvalidDateTime),
        },
        Json::Num(d) => match dec_to_int(*d) {
            Some(v) => if -0x8000000000000000 <= v && v < 0x8000000000000000 {
                Ok(Value::LocalTimestampMicros(v as i64))
            } else {
                Err(DeserError::OutOfRange)
            },
            None => Err(DeserError::OutOfRange),
        },
        _ => Err(DeserError::TypeMismatch),
    }
}

} // verus!
