use soradyne_core::flow::journal::device_id_to_filename;
use soradyne_core::flow::flow_core::FlowSchema;
use soradyne_core::flow::stream::{StreamSpec, StreamCardinality};
use soradyne_core::flow::conflict::{ConflictResolver, LastWriteWins};
use soradyne_core::flow::error::{FlowError, persistence_error};

#[test]
fn test_flow_schema_builder() {
    let schema = FlowSchema::new("TestFlow")
        .with_stream(StreamSpec::drip("convergent_state"))
        .with_stream(StreamSpec::jet("live_updates", StreamCardinality::PerParty));

    assert_eq!(schema.streams.len(), 2);
    assert_eq!(schema.streams[0].name, "convergent_state");
    assert_eq!(schema.streams[0].category, Some("drip".to_string()));
}

#[test]
fn stream_spec_constructors() {
    let s = StreamSpec::singleton("state");
    assert_eq!(s.name, "state");
    assert_eq!(s.category, None);
    assert_eq!(s.description, None);
    assert_eq!(s.cardinality, StreamCardinality::Singleton);

    let j = StreamSpec::jet("events", StreamCardinality::Unbounded).with_description("fast events");
    assert_eq!(j.category, Some("jet".to_string()));
    assert_eq!(j.cardinality, StreamCardinality::Unbounded);
    assert_eq!(j.description, Some("fast events".to_string()));
    assert_eq!(j.name, "events");
}

#[test]
fn schema_declares_streams() {
    let schema = FlowSchema::new("S").with_stream(StreamSpec::drip("a")).with_stream(StreamSpec::singleton("bb"));
    assert_eq!(schema.name, "S");
    assert!(schema.declares_stream("a"));
    assert!(schema.declares_stream("bb"));
    assert!(!schema.declares_stream("b"));
    assert!(!FlowSchema::new("empty").declares_stream("a"));
}

#[test]
fn last_write_wins_takes_remote() {
    let r = LastWriteWins;
    assert_eq!(r.resolve(&1u32, &2u32), 2);
    assert_eq!(r.resolve(&"local".to_string(), &"remote".to_string()), "remote");
}

#[test]
fn persistence_error_carries_message() {
    match persistence_error("disk full") {
        FlowError::PersistenceError(m) => assert_eq!(m, "disk full"),
        other => panic!("unexpected {:?}", other),
    }
}

#[test]
fn device_ids_become_safe_file_names() {
    assert_eq!(device_id_to_filename("device_A"), "device_A");
    assert_eq!(device_id_to_filename("a/b:c d"), "a_b_c_d");
    assert_eq!(device_id_to_filename("x-1_é"), "x-1_é");
    assert_eq!(device_id_to_filename(""), "");
}
