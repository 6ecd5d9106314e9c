use node_stream::codec::DecodeError;
use node_stream::data::GasCostSummary;
use node_stream::data::MoveCallRec;
use node_stream::data::NodeStreamPayload;
use node_stream::data::Object;
use node_stream::data::ObjectChangeStatus;
use node_stream::data::ObjectRef;
use node_stream::data::Owner;
use node_stream::data::OwnedRef;
use node_stream::data::TransactionData;
use node_stream::data::TransactionEffects;
use node_stream::data::TxInfoData;
use node_stream::data::TxInfoMetadata;

fn meta() -> TxInfoMetadata {
    TxInfoMetadata {
        message_process_timestamp_ms: 1_700_000_000_123,
        checkpoint_id: 42,
        sender: 777,
        tx_digest: 123_456_789,
    }
}

fn sample_object(is_package: bool) -> Object {
    Object { id: 5, version: 3, digest: 99, is_package, contents: vec![0, 1, 2, 255, 128] }
}

fn sample_effects() -> TransactionEffects {
    TransactionEffects {
        created: vec![OwnedRef {
            reference: ObjectRef { id: 1, version: 1, digest: 10 },
            owner: Owner::Address(1000),
        }],
        mutated: vec![OwnedRef {
            reference: ObjectRef { id: 2, version: 7, digest: 20 },
            owner: Owner::Shared(1),
        }],
        deleted: vec![ObjectRef { id: 3, version: 2, digest: 30 }],
        wrapped: vec![],
        unwrapped: vec![OwnedRef {
            reference: ObjectRef { id: 4, version: 9, digest: 40 },
            owner: Owner::Immutable,
        }],
        unwrapped_then_deleted: vec![ObjectRef { id: 6, version: 1, digest: 60 }],
        gas: GasCostSummary {
            computation_cost: 100,
            storage_cost: 200,
            storage_rebate: 50,
            non_refundable_storage_fee: 5,
        },
    }
}

fn round_trip(data: TxInfoData) {
    let topic = data.to_topic();
    let payload = NodeStreamPayload { metadata: meta(), data };
    let bytes = topic.payload_to_bytes(&payload);
    let decoded = topic.payload_from_bytes(&bytes).expect("decoding an encoding must succeed");
    assert_eq!(decoded, payload);
}

#[test]
fn round_trip_string() {
    round_trip(TxInfoData::String("hello stream".to_string()));
    round_trip(TxInfoData::String(String::new()));
    round_trip(TxInfoData::String("unicode: \u{00e9}\u{4e16}\u{1f600}".to_string()));
}

#[test]
fn round_trip_package_publish() {
    round_trip(TxInfoData::PackagePublish(sample_object(true)));
}

#[test]
fn round_trip_object_change_light() {
    round_trip(TxInfoData::ObjectChangeLight(ObjectChangeStatus::Created(
        ObjectRef { id: 1, version: 2, digest: 3 },
        Owner::Object(17),
    )));
    round_trip(TxInfoData::ObjectChangeLight(ObjectChangeStatus::LoadedChildObject(11, 4)));
    round_trip(TxInfoData::ObjectChangeLight(ObjectChangeStatus::Wrapped(ObjectRef {
        id: 8,
        version: 1,
        digest: 80,
    })));
}

#[test]
fn round_trip_object_change_raw() {
    round_trip(TxInfoData::ObjectChangeRaw(
        ObjectChangeStatus::Mutated(ObjectRef { id: 2, version: 5, digest: 7 }, Owner::Address(3)),
        Some(sample_object(false)),
    ));
    round_trip(TxInfoData::ObjectChangeRaw(
        ObjectChangeStatus::Deleted(ObjectRef { id: 9, version: 1, digest: 90 }),
        None,
    ));
}

#[test]
fn round_trip_move_call() {
    round_trip(TxInfoData::MoveCall(55, "coin".to_string(), "transfer".to_string()));
}

#[test]
fn round_trip_transaction() {
    round_trip(TxInfoData::Transaction(TransactionData {
        sender: 31,
        move_calls: vec![
            MoveCallRec { package: 1, module: "a".to_string(), function: "b".to_string() },
            MoveCallRec { package: 2, module: "m2".to_string(), function: "f2".to_string() },
        ],
    }));
    round_trip(TxInfoData::Transaction(TransactionData { sender: 0, move_calls: vec![] }));
}

#[test]
fn round_trip_effects() {
    round_trip(TxInfoData::Effects(sample_effects()));
}

#[test]
fn round_trip_gas_cost_summary() {
    round_trip(TxInfoData::GasCostSummary(GasCostSummary {
        computation_cost: u64::MAX,
        storage_cost: 0,
        storage_rebate: 1,
        non_refundable_storage_fee: 2,
    }));
}

#[test]
fn encoding_is_deterministic() {
    let data = TxInfoData::Effects(sample_effects());
    let topic = data.to_topic();
    let payload = NodeStreamPayload { metadata: meta(), data };
    let once = topic.payload_to_bytes(&payload);
    let twice = topic.payload_to_bytes(&payload);
    assert_eq!(once, twice);
}

#[test]
fn empty_input_fails() {
    let topic = node_stream::topic::TxInfoNodeStreamTopic::Effects;
    assert!(topic.payload_from_bytes(&[]).is_err());
}

#[test]
fn truncated_input_fails() {
    let data = TxInfoData::PackagePublish(sample_object(true));
    let topic = data.to_topic();
    let payload = NodeStreamPayload { metadata: meta(), data };
    let bytes = topic.payload_to_bytes(&payload);
    for cut in [1, bytes.len() / 2, bytes.len() - 1] {
        let r = topic.payload_from_bytes(&bytes[..cut]);
        assert!(r.is_err(), "a truncated encoding must not decode");
    }
}

#[test]
fn trailing_bytes_fail() {
    let data = TxInfoData::String("x".to_string());
    let topic = data.to_topic();
    let payload = NodeStreamPayload { metadata: meta(), data };
    let mut bytes = topic.payload_to_bytes(&payload);
    bytes.push(0);
    assert_eq!(topic.payload_from_bytes(&bytes), Err(DecodeError::TrailingBytes));
}

#[test]
fn unknown_body_tag_fails() {
    let data = TxInfoData::GasCostSummary(sample_effects().gas);
    let topic = data.to_topic();
    let payload = NodeStreamPayload { metadata: meta(), data };
    let mut bytes = topic.payload_to_bytes(&payload);
    // The body tag sits right after the four metadata integers.
    bytes[32] = 250;
    assert_eq!(topic.payload_from_bytes(&bytes), Err(DecodeError::InvalidTag));
}

#[test]
fn invalid_utf8_fails() {
    let data = TxInfoData::String("ab".to_string());
    let topic = data.to_topic();
    let payload = NodeStreamPayload { metadata: meta(), data };
    let mut bytes = topic.payload_to_bytes(&payload);
    // The two text bytes are the last two; 0xff is never valid UTF-8.
    let n = bytes.len();
    bytes[n - 2] = 0xff;
    assert_eq!(topic.payload_from_bytes(&bytes), Err(DecodeError::InvalidText));
}

#[test]
fn distinct_payloads_encode_differently() {
    let a = TxInfoData::String("a".to_string());
    let b = TxInfoData::String("b".to_string());
    let topic = a.to_topic();
    let pa = NodeStreamPayload { metadata: meta(), data: a };
    let pb = NodeStreamPayload { metadata: meta(), data: b };
    assert_ne!(topic.payload_to_bytes(&pa), topic.payload_to_bytes(&pb));
}
