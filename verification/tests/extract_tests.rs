use node_stream::data::ChildEntry;
use node_stream::data::GasCostSummary;
use node_stream::data::MoveCallRec;
use node_stream::data::Object;
use node_stream::data::ObjectChangeStatus;
use node_stream::data::ObjectRef;
use node_stream::data::Owner;
use node_stream::data::OwnedRef;
use node_stream::data::TransactionData;
use node_stream::data::TransactionEffects;
use node_stream::data::TxInfoData;
use node_stream::extract::from_post_exec;
use node_stream::extract::ExtractError;
use node_stream::store::MapStore;
use node_stream::store::StoreEntry;
use node_stream::topic::TxInfoNodeStreamTopic;

fn obj(id: u64, version: u64, is_package: bool, contents: Vec<u8>) -> Object {
    Object { id, version, digest: id * 10, is_package, contents }
}

fn gas() -> GasCostSummary {
    GasCostSummary {
        computation_cost: 10,
        storage_cost: 20,
        storage_rebate: 5,
        non_refundable_storage_fee: 1,
    }
}

/// One created object A, one mutated B, one deleted C, one loaded child D.
fn scenario() -> (TransactionData, TransactionEffects, Vec<ChildEntry>, MapStore) {
    let a = ObjectRef { id: 1, version: 1, digest: 10 };
    let b = ObjectRef { id: 2, version: 4, digest: 20 };
    let c = ObjectRef { id: 3, version: 2, digest: 30 };
    let tx = TransactionData {
        sender: 9,
        move_calls: vec![MoveCallRec {
            package: 7,
            module: "bank".to_string(),
            function: "pay".to_string(),
        }],
    };
    let effects = TransactionEffects {
        created: vec![OwnedRef { reference: a, owner: Owner::Address(100) }],
        mutated: vec![OwnedRef { reference: b, owner: Owner::Shared(1) }],
        deleted: vec![c],
        wrapped: vec![],
        unwrapped: vec![],
        unwrapped_then_deleted: vec![],
        gas: gas(),
    };
    let children = vec![ChildEntry { id: 4, version: 1 }];
    let store = MapStore {
        entries: vec![
            StoreEntry { id: 1, version: 1, object: obj(1, 1, false, vec![1, 1]) },
            StoreEntry { id: 2, version: 4, object: obj(2, 4, false, vec![2, 2]) },
            StoreEntry { id: 4, version: 1, object: obj(4, 1, false, vec![4]) },
        ],
        faults: vec![],
    };
    (tx, effects, children, store)
}

#[test]
fn emission_order() {
    let (tx, effects, children, store) = scenario();
    let out = TxInfoData::from_post_exec(&tx, effects.clone(), &children, &store).unwrap();
    assert_eq!(out.len(), 12);
    let a = ObjectRef { id: 1, version: 1, digest: 10 };
    let b = ObjectRef { id: 2, version: 4, digest: 20 };
    let c = ObjectRef { id: 3, version: 2, digest: 30 };
    let light_a = ObjectChangeStatus::Created(a, Owner::Address(100));
    let light_b = ObjectChangeStatus::Mutated(b, Owner::Shared(1));
    let light_c = ObjectChangeStatus::Deleted(c);
    let light_d = ObjectChangeStatus::LoadedChildObject(4, 1);
    assert_eq!(out[0], TxInfoData::ObjectChangeLight(light_a));
    assert_eq!(out[1], TxInfoData::ObjectChangeLight(light_b));
    assert_eq!(out[2], TxInfoData::ObjectChangeLight(light_c));
    assert_eq!(out[3], TxInfoData::ObjectChangeLight(light_d));
    assert_eq!(out[4], TxInfoData::ObjectChangeRaw(light_a, Some(obj(1, 1, false, vec![1, 1]))));
    assert_eq!(out[5], TxInfoData::ObjectChangeRaw(light_b, Some(obj(2, 4, false, vec![2, 2]))));
    assert_eq!(out[6], TxInfoData::ObjectChangeRaw(light_c, None));
    assert_eq!(out[7], TxInfoData::ObjectChangeRaw(light_d, Some(obj(4, 1, false, vec![4]))));
    assert_eq!(out[8], TxInfoData::GasCostSummary(gas()));
    assert_eq!(out[9], TxInfoData::MoveCall(7, "bank".to_string(), "pay".to_string()));
    assert_eq!(out[10], TxInfoData::Effects(effects));
    assert_eq!(out[11], TxInfoData::Transaction(tx));
}

#[test]
fn deleted_resolves_to_none_and_mutated_to_store_contents() {
    let (tx, effects, children, store) = scenario();
    let out = TxInfoData::from_post_exec(&tx, effects, &children, &store).unwrap();
    match &out[6] {
        TxInfoData::ObjectChangeRaw(ObjectChangeStatus::Deleted(_), resolved) => {
            assert!(resolved.is_none());
        },
        other => panic!("expected the deleted object's raw event, got {:?}", other),
    }
    match &out[5] {
        TxInfoData::ObjectChangeRaw(ObjectChangeStatus::Mutated(_, _), Some(o)) => {
            assert_eq!(o.contents, vec![2, 2]);
        },
        other => panic!("expected the mutated object's raw event, got {:?}", other),
    }
}

#[test]
fn package_detection_emits_one_extra_event() {
    let a = ObjectRef { id: 1, version: 1, digest: 10 };
    let tx = TransactionData { sender: 1, move_calls: vec![] };
    let effects = TransactionEffects {
        created: vec![OwnedRef { reference: a, owner: Owner::Immutable }],
        mutated: vec![],
        deleted: vec![],
        wrapped: vec![],
        unwrapped: vec![],
        unwrapped_then_deleted: vec![],
        gas: gas(),
    };
    let package = obj(1, 1, true, vec![9, 9, 9]);
    let store = MapStore {
        entries: vec![StoreEntry { id: 1, version: 1, object: package.clone() }],
        faults: vec![],
    };
    let out = TxInfoData::from_post_exec(&tx, effects, &vec![], &store).unwrap();
    assert_eq!(out.len(), 6);
    let light = ObjectChangeStatus::Created(a, Owner::Immutable);
    assert_eq!(out[0], TxInfoData::ObjectChangeLight(light));
    assert_eq!(out[1], TxInfoData::PackagePublish(package.clone()));
    assert_eq!(out[2], TxInfoData::ObjectChangeRaw(light, Some(package)));
    let publishes = out
        .iter()
        .filter(|d| matches!(d, TxInfoData::PackagePublish(_)))
        .count();
    assert_eq!(publishes, 1);
}

#[test]
fn loaded_child_package_is_not_published() {
    let tx = TransactionData { sender: 1, move_calls: vec![] };
    let effects = TransactionEffects {
        created: vec![],
        mutated: vec![],
        deleted: vec![],
        wrapped: vec![],
        unwrapped: vec![],
        unwrapped_then_deleted: vec![],
        gas: gas(),
    };
    let children = vec![ChildEntry { id: 4, version: 2 }];
    let store = MapStore {
        entries: vec![StoreEntry { id: 4, version: 2, object: obj(4, 2, true, vec![1]) }],
        faults: vec![],
    };
    let out = TxInfoData::from_post_exec(&tx, effects, &children, &store).unwrap();
    let publishes = out
        .iter()
        .filter(|d| matches!(d, TxInfoData::PackagePublish(_)))
        .count();
    assert_eq!(publishes, 0);
}

#[test]
fn store_fault_aborts_with_no_partial_list() {
    let (tx, effects, children, mut store) = scenario();
    store.faults.push((2, 4));
    let r = TxInfoData::from_post_exec(&tx, effects, &children, &store);
    assert_eq!(r, Err(ExtractError::StoreInconsistency));
}

#[test]
fn extraction_is_deterministic_to_the_byte() {
    let (tx, effects, children, store) = scenario();
    let first = from_post_exec(5, 6, 9, 77, &tx, &effects, &children, &store).unwrap();
    let second = from_post_exec(5, 6, 9, 77, &tx, &effects, &children, &store).unwrap();
    assert_eq!(first.len(), second.len());
    for (x, y) in first.iter().zip(second.iter()) {
        let bx = x.1.payload_to_bytes(&x.0);
        let by = y.1.payload_to_bytes(&y.0);
        assert_eq!(bx, by);
    }
}

#[test]
fn payloads_carry_shared_metadata_and_matching_topics() {
    let (tx, effects, children, store) = scenario();
    let out = from_post_exec(1234, 56, 9, 77, &tx, &effects, &children, &store).unwrap();
    assert_eq!(out.len(), 12);
    for (payload, topic) in &out {
        assert_eq!(payload.metadata.message_process_timestamp_ms, 1234);
        assert_eq!(payload.metadata.checkpoint_id, 56);
        assert_eq!(payload.metadata.sender, 9);
        assert_eq!(payload.metadata.tx_digest, 77);
        assert_eq!(*topic, payload.data.to_topic());
    }
    assert_eq!(out[11].1, TxInfoNodeStreamTopic::Transaction);
    assert_eq!(out[10].1, TxInfoNodeStreamTopic::Effects);
}
