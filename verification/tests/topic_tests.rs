use node_stream::topic::NodeStreamTopic;
use node_stream::topic::TopicParseError;
use node_stream::topic::TxInfoNodeStreamTopic;

fn all_kinds() -> Vec<TxInfoNodeStreamTopic> {
    vec![
        TxInfoNodeStreamTopic::String,
        TxInfoNodeStreamTopic::PackagePublish,
        TxInfoNodeStreamTopic::ObjectChangeLight,
        TxInfoNodeStreamTopic::ObjectChangeRaw,
        TxInfoNodeStreamTopic::MoveCall,
        TxInfoNodeStreamTopic::Transaction,
        TxInfoNodeStreamTopic::Effects,
        TxInfoNodeStreamTopic::GasCostSummary,
    ]
}

#[test]
fn topic_names_round_trip() {
    for kind in all_kinds() {
        let name = kind.topic_name();
        let parsed = TxInfoNodeStreamTopic::from_str(name.as_str());
        assert_eq!(parsed, Ok(kind));
    }
}

#[test]
fn topic_names_are_fixed() {
    assert_eq!(TxInfoNodeStreamTopic::String.topic_name(), "string");
    assert_eq!(TxInfoNodeStreamTopic::PackagePublish.topic_name(), "package_publish");
    assert_eq!(TxInfoNodeStreamTopic::ObjectChangeLight.topic_name(), "object_change_light");
    assert_eq!(TxInfoNodeStreamTopic::ObjectChangeRaw.topic_name(), "object_change_raw");
    assert_eq!(TxInfoNodeStreamTopic::MoveCall.topic_name(), "move_call");
    assert_eq!(TxInfoNodeStreamTopic::Transaction.topic_name(), "transaction");
    assert_eq!(TxInfoNodeStreamTopic::Effects.topic_name(), "effects");
    assert_eq!(TxInfoNodeStreamTopic::GasCostSummary.topic_name(), "gas_cost_summary");
}

#[test]
fn unknown_topics_are_invalid() {
    for bad in ["", "String", "effects ", " effects", "42", "object-change-light", "Transaction"] {
        assert_eq!(TxInfoNodeStreamTopic::from_str(bad), Err(TopicParseError::InvalidTopic));
    }
}

#[test]
fn epoch_scoped_topic_names() {
    let t: NodeStreamTopic = TxInfoNodeStreamTopic::Effects.topic_for_epoch(7);
    assert_eq!(t.name, "7-effects");
    let t = TxInfoNodeStreamTopic::String.topic_for_epoch(0);
    assert_eq!(t.name, "0-string");
    let t = TxInfoNodeStreamTopic::GasCostSummary.topic_for_epoch(u64::MAX);
    assert_eq!(t.name, "18446744073709551615-gas_cost_summary");
}

#[test]
fn epoch_scoping_separates_topics() {
    for kind in all_kinds() {
        let a = kind.topic_for_epoch(1);
        let b = kind.topic_for_epoch(2);
        assert_ne!(a.name, b.name);
        let c = kind.topic_for_epoch(10);
        let d = kind.topic_for_epoch(100);
        assert_ne!(c.name, d.name);
    }
}

#[test]
fn topics_are_stable_across_calls() {
    let a = TxInfoNodeStreamTopic::MoveCall.topic_for_epoch(42);
    let b = TxInfoNodeStreamTopic::MoveCall.topic_for_epoch(42);
    assert_eq!(a.name, b.name);
    assert_eq!(a.name, "42-move_call");
}
