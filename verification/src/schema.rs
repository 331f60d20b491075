//! The runtime Avro schema tree: the supported primitives, composites and
//! logical overlays. Constructs the deserialiser cannot represent (duration,
//! references, nanosecond timestamps, big decimals) are rejected when a
//! schema document is parsed, so they have no node here.
use vstd::prelude::*;

use crate::json::{json_view, Json, JsonV};

verus! {

#[derive(Debug, PartialEq)]
pub enum Schema {
    Null,
    Boolean,
    Int,
    Long,
    Float,
    Double,
    Bytes,
    String,
    Array(Box<Schema>),
    Mapping(Box<Schema>),
    Union(Vec<Schema>),
    Record(Vec<RecordField>),
    Enum(Vec<Vec<u8>>),
    Fixed(usize),
    Decimal(u32),
    Uuid,
    Date,
    TimeMillis,
    TimeMicros,
    TimestampMillis,
    TimestampMicros,
    LocalTimestampMillis,
    LocalTimestampMicros,
}

/// A record field: its name, its schema, and an optional default used when
/// an incoming object omits the field.
#[derive(Debug, PartialEq)]
pub struct RecordField {
    pub name: Vec<u8>,
    pub schema: Schema,
    pub default: Option<Json>,
}

/// The mathematical model of a schema node: byte and element sequences in
/// place of vectors.
pub enum SchemaV {
    Null,
    Boolean,
    Int,
    Long,
    Float,
    Double,
    Bytes,
    String,
    Array(Box<SchemaV>),
    Mapping(Box<SchemaV>),
    Union(Seq<SchemaV>),
    Record(Seq<RecordFieldV>),
    Enum(Seq<Seq<u8>>),
    Fixed(int),
    Decimal(u32),
    Uuid,
    Date,
    TimeMillis,
    TimeMicros,
    TimestampMillis,
    TimestampMicros,
    LocalTimestampMillis,
    LocalTimestampMicros,
}

pub struct RecordFieldV {
    pub name: Seq<u8>,
    pub schema: SchemaV,
    pub default: Option<JsonV>,
}

pub open spec fn schema_view(s: Schema) -> SchemaV
    decreases s,
{
    match s {
        Schema::Null => SchemaV::Null,
        Schema::Boolean => SchemaV::Boolean,
        Schema::Int => SchemaV::Int,
        Schema::Long => SchemaV::Long,
        Schema::Float => SchemaV::Float,
        Schema::Double => SchemaV::Double,
        Schema::Bytes => SchemaV::Bytes,
        Schema::String => SchemaV::String,
        Schema::Array(items) => SchemaV::Array(Box::new(schema_view(*items))),
        Schema::Mapping(values) => SchemaV::Mapping(Box::new(schema_view(*values))),
        Schema::Union(variants) => SchemaV::Union(schemas_view(variants@)),
        Schema::Record(fields) => SchemaV::Record(fields_view(fields@)),
        Schema::Enum(symbols) => SchemaV::Enum(symbols_view(symbols@)),
        Schema::Fixed(size) => SchemaV::Fixed(size as int),
        Schema::Decimal(scale) => SchemaV::Decimal(scale),
        Schema::Uuid => SchemaV::Uuid,
        Schema::Date => SchemaV::Date,
        Schema::TimeMillis => SchemaV::TimeMillis,
        Schema::TimeMicros => SchemaV::TimeMicros,
        Schema::TimestampMillis => SchemaV::TimestampMillis,
        Schema::TimestampMicros => SchemaV::TimestampMicros,
        Schema::LocalTimestampMillis => SchemaV::LocalTimestampMillis,
        Schema::LocalTimestampMicros => SchemaV::LocalTimestampMicros,
    }
}

pub open spec fn schemas_view(ss: Seq<Schema>) -> Seq<SchemaV>
    decreases ss,
{
    if ss.len() == 0 {
        Seq::<SchemaV>::empty()
    } else {
        seq![schema_view(ss[0])] + schemas_view(ss.skip(1))
    }
}

pub open spec fn fields_view(fs: Seq<RecordField>) -> Seq<RecordFieldV>
    decreases fs,
{
    if fs.len() == 0 {
        Seq::<RecordFieldV>::empty()
    } else {
        seq![field_view(fs[0])] + fields_view(fs.skip(1))
    }
}

pub open spec fn field_view(f: RecordField) -> RecordFieldV
    decreases f,
{
    RecordFieldV {
        name: f.name@,
        schema: schema_view(f.schema),
        default: match f.default {
            Some(d) => Some(json_view(d)),
            None => None,
        },
    }
}

pub open spec fn symbols_view(ss: Seq<Vec<u8>>) -> Seq<Seq<u8>>
    decreases ss,
{
    if ss.len() == 0 {
        Seq::<Seq<u8>>::empty()
    } else {
        seq![ss[0]@] + symbols_view(ss.skip(1))
    }
}

pub proof fn lemma_schemas_view_push(ss: Seq<Schema>, s: Schema)
    ensures
        schemas_view(ss.push(s)) == schemas_view(ss).push(schema_view(s)),
    decreases ss.len(),
{
    if ss.len() == 0 {
        assert(ss.push(s).skip(1) =~= Seq::<Schema>::empty());
        assert(ss.push(s)[0] == s);
        assert(schemas_view(Seq::<Schema>::empty()) == Seq::<SchemaV>::empty());
        assert(schemas_view(ss.push(s)) =~= schemas_view(ss).push(schema_view(s)));
    } else {
        assert(ss.push(s).skip(1) =~= ss.skip(1).push(s));
        lemma_schemas_view_push(ss.skip(1), s);
        assert(ss.push(s)[0] == ss[0]);
        assert(schemas_view(ss.push(s)) == seq![schema_view(ss[0])] + schemas_view(
            ss.skip(1),
        ).push(schema_view(s)));
        assert(schemas_view(ss.push(s)) =~= schemas_view(ss).push(schema_view(s)));
    }
}

pub proof fn lemma_fields_view_push(fs: Seq<RecordField>, f: RecordField)
    ensures
        fields_view(fs.push(f)) == fields_view(fs).push(field_view(f)),
    decreases fs.len(),
{
    if fs.len() == 0 {
        assert(fs.push(f).skip(1) =~= Seq::<RecordField>::empty());
        assert(fs.push(f)[0] == f);
        assert(fields_view(Seq::<RecordField>::empty()) == Seq::<RecordFieldV>::empty());
        assert(fields_view(fs.push(f)) =~= fields_view(fs).push(field_view(f)));
    } else {
        assert(fs.push(f).skip(1) =~= fs.skip(1).push(f));
        lemma_fields_view_push(fs.skip(1), f);
        assert(fs.push(f)[0] == fs[0]);
        assert(fields_view(fs.push(f)) == seq![field_view(fs[0])] + fields_view(fs.skip(1)).push(
            field_view(f),
        ));
        assert(fields_view(fs.push(f)) =~= fields_view(fs).push(field_view(f)));
    }
}

pub proof fn lemma_symbols_view_push(ss: Seq<Vec<u8>>, s: Vec<u8>)
    ensures
        symbols_view(ss.push(s)) == symbols_view(ss).push(s@),
    decreases ss.len(),
{
    if ss.len() == 0 {
        assert(ss.push(s).skip(1) =~= Seq::<Vec<u8>>::empty());
        assert(ss.push(s)[0] == s);
        assert(symbols_view(Seq::<Vec<u8>>::empty()) == Seq::<Seq<u8>>::empty());
        assert(symbols_view(ss.push(s)) =~= symbols_view(ss).push(s@));
    } else {
        assert(ss.push(s).skip(1) =~= ss.skip(1).push(s));
        lemma_symbols_view_push(ss.skip(1), s);
        assert(ss.push(s)[0] == ss[0]);
        assert(symbols_view(ss.push(s)) == seq![ss[0]@] + symbols_view(ss.skip(1)).push(s@));
        assert(symbols_view(ss.push(s)) =~= symbols_view(ss).push(s@));
    }
}

} // verus!
