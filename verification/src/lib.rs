//! Schema-aware ingress library: a JSON model, an Avro schema tree, a
//! schema-directed JSON-to-Avro deserialiser, the Avro binary wire framer,
//! and the pure decision logic of the producer and ingress pipeline.
pub mod avro;
pub mod base64;
pub mod cleanup;
pub mod config;
pub mod datetime;
pub mod deser;
pub mod json;
pub mod jsontext;
pub mod laws;
pub mod numeric;
pub mod producer;
pub mod registry;
pub mod schema;
pub mod telemetry;
pub mod util;
pub mod uuid;
pub mod value;
