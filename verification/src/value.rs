//! The typed Avro value tree produced by the deserialiser. Floating-point
//! values carry their IEEE-754 bit patterns; strings carry UTF-8 bytes;
//! decimals carry their minimal two's-complement big-endian bytes; UUIDs
//! carry their sixteen raw bytes.
use vstd::prelude::*;

verus! {

#[derive(Debug, PartialEq)]
pub enum Value {
    Null,
    Boolean(bool),
    Int(i32),
    Long(i64),
    Float(u32),
    Double(u64),
    Bytes(Vec<u8>),
    String(Vec<u8>),
    Fixed(usize, Vec<u8>),
    Enum(usize, Vec<u8>),
    Union(usize, Box<Value>),
    Array(Vec<Value>),
    Mapping(Vec<(Vec<u8>, Value)>),
    Record(Vec<(Vec<u8>, Value)>),
    Decimal(Vec<u8>),
    Uuid(Vec<u8>),
    Date(i32),
    TimeMillis(i32),
    TimeMicros(i64),
    TimestampMillis(i64),
    TimestampMicros(i64),
    LocalTimestampMillis(i64),
    LocalTimestampMicros(i64),
}

/// The mathematical model of a typed value: byte and element sequences in
/// place of vectors. Floating-point values carry no bit pattern here: the
/// bits come from a conversion whose precision Rust leaves unspecified,
/// so the model does not fix them.
pub enum ValueV {
    Null,
    Boolean(bool),
    Int(i32),
    Long(i64),
    Float,
    Double,
    Bytes(Seq<u8>),
    String(Seq<u8>),
    Fixed(int, Seq<u8>),
    Enum(int, Seq<u8>),
    Union(int, Box<ValueV>),
    Array(Seq<ValueV>),
    Mapping(Seq<(Seq<u8>, ValueV)>),
    Record(Seq<(Seq<u8>, ValueV)>),
    Decimal(Seq<u8>),
    Uuid(Seq<u8>),
    Date(i32),
    TimeMillis(i32),
    TimeMicros(i64),
    TimestampMillis(i64),
    TimestampMicros(i64),
    LocalTimestampMillis(i64),
    LocalTimestampMicros(i64),
}

pub open spec fn value_view(v: Value) -> ValueV
    decreases v,
{
    match v {
        Value::Null => ValueV::Null,
        Value::Boolean(b) => ValueV::Boolean(b),
        Value::Int(n) => ValueV::Int(n),
        Value::Long(n) => ValueV::Long(n),
        Value::Float(_) => ValueV::Float,
        Value::Double(_) => ValueV::Double,
        Value::Bytes(b) => ValueV::Bytes(b@),
        Value::String(s) => ValueV::String(s@),
        Value::Fixed(n, b) => ValueV::Fixed(n as int, b@),
        Value::Enum(i, s) => ValueV::Enum(i as int, s@),
        Value::Union(i, inner) => ValueV::Union(i as int, Box::new(value_view(*inner))),
        Value::Array(vs) => ValueV::Array(values_view(vs@)),
        Value::Mapping(ps) => ValueV::Mapping(pairs_view(ps@)),
        Value::Record(ps) => ValueV::Record(pairs_view(ps@)),
        Value::Decimal(b) => ValueV::Decimal(b@),
        Value::Uuid(b) => ValueV::Uuid(b@),
        Value::Date(n) => ValueV::Date(n),
        Value::TimeMillis(n) => ValueV::TimeMillis(n),
        Value::TimeMicros(n) => ValueV::TimeMicros(n),
        Value::TimestampMillis(n) => ValueV::TimestampMillis(n),
        Value::TimestampMicros(n) => ValueV::TimestampMicros(n),
        Value::LocalTimestampMillis(n) => ValueV::LocalTimestampMillis(n),
        Value::LocalTimestampMicros(n) => ValueV::LocalTimestampMicros(n),
    }
}

pub open spec fn values_view(vs: Seq<Value>) -> Seq<ValueV>
    decreases vs,
{
    if vs.len() == 0 {
        Seq::<ValueV>::empty()
    } else {
        seq![value_view(vs[0])] + values_view(vs.skip(1))
    }
}

pub open spec fn pairs_view(ps: Seq<(Vec<u8>, Value)>) -> Seq<(Seq<u8>, ValueV)>
    decreases ps,
{
    if ps.len() == 0 {
        Seq::<(Seq<u8>, ValueV)>::empty()
    } else {
        seq![(ps[0].0@, value_view(ps[0].1))] + pairs_view(ps.skip(1))
    }
}

pub proof fn lemma_values_view_push(vs: Seq<Value>, v: Value)
    ensures
        values_view(vs.push(v)) == values_view(vs).push(value_view(v)),
    decreases vs.len(),
{
    if vs.len() == 0 {
        assert(vs.push(v).skip(1) =~= Seq::<Value>::empty());
        assert(vs.push(v)[0] == v);
        assert(values_view(Seq::<Value>::empty()) == Seq::<ValueV>::empty());
        assert(values_view(vs.push(v)) =~= values_view(vs).push(value_view(v)));
    } else {
        assert(vs.push(v).skip(1) =~= vs.skip(1).push(v));
        lemma_values_view_push(vs.skip(1), v);
        assert(vs.push(v)[0] == vs[0]);
        assert(values_view(vs.push(v)) == seq![value_view(vs[0])] + values_view(
            vs.skip(1),
        ).push(value_view(v)));
        assert(values_view(vs.push(v)) =~= values_view(vs).push(value_view(v)));
    }
}

pub proof fn lemma_pairs_view_push(ps: Seq<(Vec<u8>, Value)>, k: Vec<u8>, v: Value)
    ensures
        pairs_view(ps.push((k, v))) == pairs_view(ps).push((k@, value_view(v))),
    decreases ps.len(),
{
    if ps.len() == 0 {
        assert(ps.push((k, v)).skip(1) =~= Seq::<(Vec<u8>, Value)>::empty());
        assert(ps.push((k, v))[0] == (k, v));
        assert(pairs_view(Seq::<(Vec<u8>, Value)>::empty()) == Seq::<(Seq<u8>, ValueV)>::empty());
        assert(pairs_view(ps.push((k, v))) =~= pairs_view(ps).push((k@, value_view(v))));
    } else {
        assert(ps.push((k, v)).skip(1) =~= ps.skip(1).push((k, v)));
        lemma_pairs_view_push(ps.skip(1), k, v);
        assert(ps.push((k, v))[0] == ps[0]);
        assert(pairs_view(ps.push((k, v))) == seq![(ps[0].0@, value_view(ps[0].1))] + pairs_view(
            ps.skip(1),
        ).push((k@, value_view(v))));
        assert(pairs_view(ps.push((k, v))) =~= pairs_view(ps).push((k@, value_view(v))));
    }
}

/// The reason a payload was rejected by the deserialiser.
#[derive(Debug, Clone, Copy, PartialEq, Eq, Structural)]
pub enum DeserError {
    /// The JSON node's kind does not match the schema node.
    TypeMismatch,
    /// A number does not convert exactly into the target range.
    OutOfRange,
    /// A byte string is not canonical standard-alphabet base64.
    InvalidBase64,
    /// A base64-decoded byte string does not match the fixed size.
    FixedSizeMismatch,
    /// An enum symbol is not in the symbol list.
    UnknownEnumSymbol,
    /// An enum index is outside the symbol list.
    EnumIndexOutOfRange,
    /// A record field is missing and has no default.
    MissingField,
    /// No union variant accepted the value.
    NoUnionVariant,
    /// A string is not a canonical UUID.
    InvalidUuid,
    /// A string is not an RFC 3339 date-time.
    InvalidDateTime,
    /// A decimal rescale overflowed the 96-bit working range.
    DecimalOverflow,
}

} // verus!
