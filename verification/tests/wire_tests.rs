use kafka_proxy::deser::deserialize_json;
use kafka_proxy::json::{Dec, Json};
use kafka_proxy::jsontext::parse_json;
use kafka_proxy::producer::{
    coap_response, decode_line, dead_letter_line, encode_payload, rest_response_code, settle_send,
    CoapStatus, FanIn, IngressAction, IngressEvent, IngressLoop, Producer, SendLedger, SendOutcome,
};
use kafka_proxy::registry::{parse_schema, EncodeError, SchemaError, SchemaRegistry, SubjectNameStrategy};
use kafka_proxy::schema::{RecordField, Schema};
use kafka_proxy::value::{DeserError, Value};

#[test]
fn parse_json_scalars() {
    assert_eq!(parse_json(b"null"), Some(Json::Null));
    assert_eq!(parse_json(b"true"), Some(Json::Bool(true)));
    assert_eq!(parse_json(b"false"), Some(Json::Bool(false)));
    assert_eq!(
        parse_json(b"123"),
        Some(Json::Num(Dec {
            mantissa: 123,
            scale: 0
        }))
    );
    assert_eq!(
        parse_json(b"-12.5e1"),
        Some(Json::Num(Dec {
            mantissa: -125,
            scale: 0
        }))
    );
    assert_eq!(
        parse_json(b"123.456789"),
        Some(Json::Num(Dec {
            mantissa: 123456789,
            scale: 6
        }))
    );
    assert_eq!(parse_json(b"\"ab\\n\""), Some(Json::Str(b"ab\n".to_vec())));
    assert_eq!(parse_json(b"01"), None);
    assert_eq!(parse_json(b"tru"), None);
    assert_eq!(parse_json(b"\"unterminated"), None);
}

#[test]
fn parse_json_structures() {
    assert_eq!(
        parse_json(b" [1, 2] "),
        Some(Json::Arr(vec![
            Json::Num(Dec {
                mantissa: 1,
                scale: 0
            }),
            Json::Num(Dec {
                mantissa: 2,
                scale: 0
            }),
        ]))
    );
    assert_eq!(
        parse_json(b"{\"a\": true}"),
        Some(Json::Obj(vec![(b"a".to_vec(), Json::Bool(true))]))
    );
    assert_eq!(parse_json(b"[1,]"), None);
    assert_eq!(parse_json(b"{\"a\":}"), None);
}

#[test]
fn parse_json_unicode_escape() {
    assert_eq!(
        parse_json(b"\"\\u00e9\""),
        Some(Json::Str(vec![0xC3, 0xA9]))
    );
    assert_eq!(
        parse_json(b"\"\\ud83d\\ude00\""),
        Some(Json::Str(vec![0xF0, 0x9F, 0x98, 0x80]))
    );
    assert_eq!(parse_json(b"\"\\ud83d\""), None);
}

#[test]
fn schema_parse_primitives_and_logical() {
    assert_eq!(parse_schema(&Json::Str(b"int".to_vec())), Ok(Schema::Int));
    let doc = parse_json(b"{\"type\":\"int\",\"logicalType\":\"date\"}").unwrap();
    assert_eq!(parse_schema(&doc), Ok(Schema::Date));
    let dec = parse_json(
        b"{\"type\":\"bytes\",\"logicalType\":\"decimal\",\"precision\":9,\"scale\":6}",
    )
    .unwrap();
    assert_eq!(parse_schema(&dec), Ok(Schema::Decimal(6)));
    let dur = parse_json(b"{\"type\":\"fixed\",\"name\":\"d\",\"size\":12,\"logicalType\":\"duration\"}")
        .unwrap();
    assert_eq!(parse_schema(&dur), Err(SchemaError::Unsupported));
    assert_eq!(
        parse_schema(&Json::Str(b"SomeRef".to_vec())),
        Err(SchemaError::Unsupported)
    );
}

#[test]
fn schema_parse_composites() {
    let arr = parse_json(b"{\"type\":\"array\",\"items\":\"int\"}").unwrap();
    assert_eq!(
        parse_schema(&arr),
        Ok(Schema::Array(Box::new(Schema::Int)))
    );
    let uni = parse_json(b"[\"null\",\"int\",\"string\"]").unwrap();
    assert_eq!(
        parse_schema(&uni),
        Ok(Schema::Union(vec![
            Schema::Null,
            Schema::Int,
            Schema::String
        ]))
    );
    let map = parse_json(b"{\"type\":\"map\",\"values\":\"long\"}").unwrap();
    assert_eq!(parse_schema(&map), Ok(Schema::Mapping(Box::new(Schema::Long))));
    let fixed = parse_json(b"{\"type\":\"fixed\",\"name\":\"h\",\"size\":4}").unwrap();
    assert_eq!(parse_schema(&fixed), Ok(Schema::Fixed(4)));
    let record = parse_json(
        b"{\"type\":\"record\",\"name\":\"r\",\"fields\":[{\"name\":\"a\",\"type\":\"int\",\"default\":1}]}",
    )
    .unwrap();
    assert_eq!(
        parse_schema(&record),
        Ok(Schema::Record(vec![RecordField {
            name: b"a".to_vec(),
            schema: Schema::Int,
            default: Some(Json::Num(Dec {
                mantissa: 1,
                scale: 0
            })),
        }]))
    );
    let enum_doc = parse_json(b"{\"type\":\"enum\",\"name\":\"e\",\"symbols\":[\"A\",\"B\"]}")
        .unwrap();
    assert_eq!(
        parse_schema(&enum_doc),
        Ok(Schema::Enum(vec![b"A".to_vec(), b"B".to_vec()]))
    );
    let missing = parse_json(b"{\"type\":\"enum\",\"name\":\"e\"}").unwrap();
    assert_eq!(parse_schema(&missing), Err(SchemaError::Malformed));
}

#[test]
fn registry_encode_frames_record() {
    let registry = SchemaRegistry::new(7, Schema::Int);
    let framed = registry.encode(b"123").unwrap();
    assert_eq!(framed[0], 0);
    assert_eq!(&framed[1..5], &7u32.to_be_bytes());
    // Avro zig-zag varint of 123
    assert_eq!(&framed[5..], &[0xF6, 0x01]);
}

#[test]
fn registry_encode_rejects_bad_payloads() {
    let registry = SchemaRegistry::new(7, Schema::Int);
    assert_eq!(registry.encode(b"not json"), Err(EncodeError::InvalidJson));
    assert_eq!(
        registry.encode(b"\"text\""),
        Err(EncodeError::Deser(DeserError::TypeMismatch))
    );
}

#[test]
fn encode_without_schema_is_identity() {
    assert_eq!(encode_payload(&None, b"hello"), Ok(b"hello".to_vec()));
    assert_eq!(rest_response_code(true), 204);
    assert_eq!(rest_response_code(false), 500);
}

#[test]
fn avro_encoding_of_values() {
    let registry = SchemaRegistry::new(1, Schema::Long);
    assert_eq!(&registry.encode(b"1").unwrap()[5..], &[0x02]);
    assert_eq!(&registry.encode(b"-1").unwrap()[5..], &[0x01]);
    let s = SchemaRegistry::new(1, Schema::String);
    assert_eq!(&s.encode(b"\"ab\"").unwrap()[5..], &[0x04, 0x61, 0x62]);
}

#[test]
fn dead_letter_line_is_base64_with_newline() {
    assert_eq!(dead_letter_line(b"test"), b"dGVzdA==\n".to_vec());
    assert_eq!(dead_letter_line(b""), b"\n".to_vec());
}

#[test]
fn decode_line_respects_base64_flag() {
    assert_eq!(decode_line(b"dGVzdA==", true), Ok(b"test".to_vec()));
    assert_eq!(decode_line(b"dGVzdA==", false), Ok(b"dGVzdA==".to_vec()));
    assert_eq!(
        decode_line(b"not base64!", true),
        Err(DeserError::InvalidBase64)
    );
}

#[test]
fn send_outcomes_are_exclusive() {
    assert_eq!(settle_send(true, true), SendOutcome::Delivered);
    assert_eq!(settle_send(true, false), SendOutcome::Delivered);
    assert_eq!(settle_send(false, true), SendOutcome::DeadLettered);
    assert_eq!(settle_send(false, false), SendOutcome::Dropped);
}

#[test]
fn ledger_counts_each_outcome_once() {
    let mut ledger = SendLedger::new();
    ledger.record(b"a", SendOutcome::Delivered);
    assert_eq!((ledger.success, ledger.failure, ledger.produced), (1, 0, 1));
    assert_eq!(ledger.dead_letters.len(), 0);
    ledger.record(b"b", SendOutcome::DeadLettered);
    assert_eq!((ledger.success, ledger.failure, ledger.produced), (1, 1, 1));
    assert_eq!(ledger.dead_letters, vec![b"Yg==\n".to_vec()]);
    ledger.record(b"c", SendOutcome::Dropped);
    assert_eq!((ledger.success, ledger.failure, ledger.produced), (1, 2, 1));
    assert_eq!(ledger.dead_letters.len(), 1);
}

#[test]
fn fan_in_never_exceeds_limit() {
    let mut fan = FanIn::new(2);
    assert!(fan.try_begin());
    assert!(fan.try_begin());
    assert!(!fan.try_begin());
    fan.complete();
    assert!(fan.try_begin());
}

#[test]
fn ingress_loop_stops_after_shutdown() {
    let mut run = IngressLoop::new();
    assert_eq!(run.step(IngressEvent::Message), IngressAction::Dispatch);
    assert_eq!(run.step(IngressEvent::TransportError), IngressAction::Continue);
    assert_eq!(run.step(IngressEvent::Message), IngressAction::Dispatch);
    assert_eq!(run.step(IngressEvent::Shutdown), IngressAction::Finish);
    assert_eq!(run.step(IngressEvent::Message), IngressAction::Finish);
    assert_eq!(run.step(IngressEvent::TransportError), IngressAction::Finish);
}

#[test]
fn ingress_loop_finishes_at_stream_end() {
    let mut run = IngressLoop::new();
    assert_eq!(run.step(IngressEvent::StreamEnd), IngressAction::Finish);
    assert_eq!(run.step(IngressEvent::Message), IngressAction::Finish);
}

#[test]
fn coap_status_mapping() {
    assert_eq!(coap_response(true, true, true), CoapStatus::Changed);
    assert_eq!(
        coap_response(true, true, false),
        CoapStatus::InternalServerError
    );
    assert_eq!(coap_response(true, false, true), CoapStatus::NotFound);
    assert_eq!(coap_response(false, true, true), CoapStatus::MethodNotAllowed);
}

#[test]
fn parse_tuple_splits_at_first_equals() {
    assert_eq!(
        Producer::parse_tuple(b"linger.ms=5"),
        Ok((b"linger.ms".to_vec(), b"5".to_vec()))
    );
    assert_eq!(
        Producer::parse_tuple(b"a=b=c"),
        Ok((b"a".to_vec(), b"b=c".to_vec()))
    );
    assert!(Producer::parse_tuple(b"novalue").is_err());
}

#[test]
fn env_key_mapping() {
    assert_eq!(
        Producer::map_env_key(b"LINGER_MS"),
        b"linger.ms".to_vec()
    );
    assert_eq!(
        Producer::map_env_key(b"SASL__MECHANISM"),
        b"sasl_mechanism".to_vec()
    );
}

#[test]
fn enum_rejects_unknown_symbol_and_bad_index() {
    let schema = Schema::Enum(vec![b"A".to_vec(), b"B".to_vec(), b"C".to_vec()]);
    assert_eq!(
        deserialize_json(&schema, &Json::Str(b"X".to_vec())),
        Err(DeserError::UnknownEnumSymbol)
    );
    assert_eq!(
        deserialize_json(
            &schema,
            &Json::Num(kafka_proxy::json::Dec {
                mantissa: 3,
                scale: 0
            })
        ),
        Err(DeserError::EnumIndexOutOfRange)
    );
}

#[test]
fn error_variants_reach_their_inputs() {
    assert_eq!(
        deserialize_json(&Schema::Fixed(3), &Json::Str(b"dGVzdA==".to_vec())),
        Err(DeserError::FixedSizeMismatch)
    );
    assert_eq!(
        deserialize_json(&Schema::Bytes, &Json::Str(b"!!".to_vec())),
        Err(DeserError::InvalidBase64)
    );
    assert_eq!(
        deserialize_json(&Schema::Uuid, &Json::Str(b"nope".to_vec())),
        Err(DeserError::InvalidUuid)
    );
    assert_eq!(
        deserialize_json(&Schema::Date, &Json::Str(b"yesterday".to_vec())),
        Err(DeserError::InvalidDateTime)
    );
    let record = Schema::Record(vec![kafka_proxy::schema::RecordField {
        name: b"a".to_vec(),
        schema: Schema::Int,
        default: None,
    }]);
    assert_eq!(
        deserialize_json(&record, &Json::Obj(vec![])),
        Err(DeserError::MissingField)
    );
    let union = Schema::Union(vec![Schema::Null, Schema::Int]);
    assert_eq!(
        deserialize_json(&union, &Json::Str(b"x".to_vec())),
        Err(DeserError::NoUnionVariant)
    );
    assert_eq!(
        deserialize_json(
            &Schema::Int,
            &Json::Num(kafka_proxy::json::Dec {
                mantissa: 15,
                scale: 1
            })
        ),
        Err(DeserError::OutOfRange)
    );
    assert_eq!(
        deserialize_json(
            &Schema::Decimal(28),
            &Json::Num(kafka_proxy::json::Dec {
                mantissa: 170141183460469231731687303715884105727,
                scale: 0
            })
        ),
        Err(DeserError::DecimalOverflow)
    );
}

#[test]
fn telemetry_cells_mark_broker_state() {
    let stats = kafka_proxy::telemetry::StatsSnapshot {
        replyq: 1,
        msg_cnt: 2,
        tx: 3,
        tx_bytes: 4,
        rx: 5,
        rx_bytes: 6,
        txmsgs: 7,
        txmsg_bytes: 8,
        rxmsgs: 9,
        rxmsg_bytes: 10,
        brokers: vec![kafka_proxy::telemetry::BrokerStats {
            name: b"b0".to_vec(),
            nodeid: 0,
            nodename: b"localhost".to_vec(),
            state: b"UP".to_vec(),
            outbuf_cnt: 11,
            outbuf_msg_cnt: 12,
            waitresp_cnt: 13,
            waitresp_msg_cnt: 14,
            tx: 15,
            txbytes: 16,
            rx: 17,
            rxbytes: 18,
        }],
    };
    let cells = kafka_proxy::telemetry::stats_cells(&stats);
    assert_eq!(cells.len(), 26);
    assert_eq!(cells[0].name, b"replyq".to_vec());
    assert_eq!(cells[0].value, 1);
    assert_eq!(cells[9].name, b"rxmsgsbytes".to_vec());
    assert_eq!(cells[9].value, 10);
    // state cells: UP is index 6
    for k in 0..8 {
        let cell = &cells[10 + k];
        assert_eq!(cell.name, b"broker_state".to_vec());
        assert_eq!(cell.value, if k == 6 { 1 } else { 0 });
        assert_eq!(cell.broker.as_deref(), Some(b"b0".as_slice()));
    }
    assert_eq!(cells[10 + 6].state.as_deref(), Some(b"UP".as_slice()));
    assert_eq!(cells[18].value, 11);
    assert_eq!(cells[25].value, 18);
    assert_eq!(cells[18].name, b"broker_outbufcnt".to_vec());
}

#[test]
fn subject_names_follow_strategy() {
    let topic = b"events".to_vec();
    assert_eq!(
        kafka_proxy::registry::subject_name_strategy(&SubjectNameStrategy::TopicName, &topic),
        b"events-value".to_vec()
    );
    assert_eq!(
        kafka_proxy::registry::subject_name_strategy(
            &SubjectNameStrategy::RecordName(b"Payment".to_vec()),
            &topic
        ),
        b"Payment".to_vec()
    );
    assert_eq!(
        kafka_proxy::registry::subject_name_strategy(
            &SubjectNameStrategy::TopicRecordName(b"Payment".to_vec()),
            &topic
        ),
        b"events-Payment".to_vec()
    );
}

#[test]
fn client_config_orders_defaults_env_and_args() {
    let producer = Producer {
        bootstrap_server: b"127.0.0.1:9092".to_vec(),
        topic: b"t".to_vec(),
        schema_registry_url: None,
        producer_config: vec![(b"linger.ms".to_vec(), b"5".to_vec())],
        dead_letters: None,
    };
    let defaults = vec![(b"client.id".to_vec(), b"kafka-proxy".to_vec())];
    let env = vec![(b"BATCH_SIZE".to_vec(), b"100".to_vec())];
    let cfg = producer.client_config(&defaults, &env);
    assert_eq!(
        cfg,
        vec![
            (b"client.id".to_vec(), b"kafka-proxy".to_vec()),
            (b"batch.size".to_vec(), b"100".to_vec()),
            (b"linger.ms".to_vec(), b"5".to_vec()),
        ]
    );
}

#[test]
fn record_payload_encodes_end_to_end() {
    let schema = Schema::Record(vec![
        RecordField {
            name: b"a".to_vec(),
            schema: Schema::Int,
            default: None,
        },
        RecordField {
            name: b"b".to_vec(),
            schema: Schema::String,
            default: None,
        },
    ]);
    let registry = SchemaRegistry::new(9, schema);
    let framed = registry.encode(b"{\"a\": 3, \"b\": \"hi\"}").unwrap();
    assert_eq!(framed[0], 0);
    assert_eq!(&framed[1..5], &9u32.to_be_bytes());
    // int 3 zig-zag, then string length 2 and the bytes
    assert_eq!(&framed[5..], &[0x06, 0x04, 0x68, 0x69]);
}
