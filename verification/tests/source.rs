use amqp_source::{
    handle_ack, receive_event, AckAction, AmqpSource, AmqpSourceConfig, BatchStatus,
    DecodeOutcome, FieldPath, FinalizerEntry, Forwarded, LogEvent, LogNamespace, LoopState,
    RawDelivery, Timestamp, Value,
};

#[derive(Debug, PartialEq, Eq)]
struct Handle(u64);

fn bytes(text: &str) -> Value {
    Value::Bytes(text.as_bytes().to_vec())
}

fn delivery(tag: u64) -> RawDelivery<Handle> {
    RawDelivery {
        payload: b"hello".to_vec(),
        routing_key: "rk".to_string(),
        exchange: "ex".to_string(),
        delivery_tag: tag,
        timestamp: None,
        acker: Handle(tag),
    }
}

fn message(text: &str) -> LogEvent {
    let mut event = LogEvent::new();
    event.insert(FieldPath::event("message"), bytes(text));
    event
}

#[test]
fn entry_keeps_the_handle_of_its_delivery() {
    let entry = FinalizerEntry::from(delivery(5));
    assert_eq!(entry.acker, Handle(5));
}

#[test]
fn delivered_is_acknowledged() {
    let action = handle_ack(BatchStatus::Delivered, FinalizerEntry { acker: Handle(1) });
    assert_eq!(action, AckAction::Ack(Handle(1)));
}

#[test]
fn errored_is_rejected() {
    let action = handle_ack(BatchStatus::Errored, FinalizerEntry { acker: Handle(2) });
    assert_eq!(action, AckAction::Reject(Handle(2)));
}

#[test]
fn rejected_is_rejected() {
    let action = handle_ack(BatchStatus::Rejected, FinalizerEntry { acker: Handle(3) });
    assert_eq!(action, AckAction::Reject(Handle(3)));
}

#[test]
fn new_source_is_running() {
    let tracking: AmqpSource<Handle> = AmqpSource::new(true);
    assert_eq!(tracking.state(), LoopState::Running);
    assert!(tracking.is_running());
    assert!(tracking.tracks_acknowledgements());
    assert!(tracking.has_capacity());
    assert_eq!(tracking.in_flight(), 0);
    assert_eq!(tracking.result(), None);
    let plain: AmqpSource<Handle> = AmqpSource::new(false);
    assert!(plain.is_running());
    assert!(!plain.tracks_acknowledgements());
    assert!(plain.has_capacity());
    assert_eq!(plain.result(), None);
}

#[test]
fn tracked_delivery_is_resolved_once() {
    let mut source = AmqpSource::new(true);
    let forwarded = source.finalize_event_stream(true, delivery(7));
    assert_eq!(forwarded, Forwarded::Registered(0));
    assert_eq!(source.in_flight(), 1);
    assert_eq!(
        source.on_completion(0, BatchStatus::Delivered),
        Some(AckAction::Ack(Handle(7)))
    );
    assert_eq!(source.in_flight(), 0);
    assert_eq!(source.on_completion(0, BatchStatus::Delivered), None);
    assert_eq!(source.on_completion(0, BatchStatus::Rejected), None);
    assert!(source.is_running());
}

#[test]
fn tracked_delivery_is_rejected_on_failure() {
    for status in [BatchStatus::Errored, BatchStatus::Rejected] {
        let mut source = AmqpSource::new(true);
        assert_eq!(source.finalize_event_stream(true, delivery(9)), Forwarded::Registered(0));
        assert_eq!(source.on_completion(0, status), Some(AckAction::Reject(Handle(9))));
        assert_eq!(source.on_completion(0, status), None);
        assert!(source.is_running());
    }
}

#[test]
fn completions_arrive_in_any_order() {
    let mut source = AmqpSource::new(true);
    assert_eq!(source.finalize_event_stream(true, delivery(10)), Forwarded::Registered(0));
    assert_eq!(source.finalize_event_stream(true, delivery(11)), Forwarded::Registered(1));
    assert_eq!(source.finalize_event_stream(true, delivery(12)), Forwarded::Registered(2));
    assert_eq!(source.on_completion(1, BatchStatus::Delivered), Some(AckAction::Ack(Handle(11))));
    assert_eq!(source.finalize_event_stream(true, delivery(13)), Forwarded::Registered(3));
    assert_eq!(source.on_completion(3, BatchStatus::Errored), Some(AckAction::Reject(Handle(13))));
    assert_eq!(source.on_completion(0, BatchStatus::Delivered), Some(AckAction::Ack(Handle(10))));
    assert_eq!(source.in_flight(), 1);
    assert_eq!(source.on_completion(2, BatchStatus::Rejected), Some(AckAction::Reject(Handle(12))));
    assert_eq!(source.in_flight(), 0);
}

#[test]
fn unknown_completion_is_ignored() {
    let mut source = AmqpSource::new(true);
    assert_eq!(source.finalize_event_stream(true, delivery(1)), Forwarded::Registered(0));
    assert_eq!(source.on_completion(5, BatchStatus::Delivered), None);
    assert_eq!(source.in_flight(), 1);
    assert!(source.is_running());
}

#[test]
fn untracked_delivery_is_acknowledged_at_once() {
    let mut source = AmqpSource::new(false);
    let forwarded = source.finalize_event_stream(true, delivery(21));
    assert_eq!(forwarded, Forwarded::Acknowledge(Handle(21)));
    assert!(!source.tracks_acknowledgements());
    assert_eq!(source.in_flight(), 0);
    assert!(source.is_running());
    assert_eq!(source.on_completion(0, BatchStatus::Delivered), None);
}

#[test]
fn failed_send_ends_the_loop_without_acknowledging() {
    for acknowledgements in [true, false] {
        let mut source = AmqpSource::new(acknowledgements);
        if acknowledgements {
            assert_eq!(source.finalize_event_stream(true, delivery(1)), Forwarded::Registered(0));
        }
        assert_eq!(source.finalize_event_stream(false, delivery(2)), Forwarded::Unacknowledged);
        assert_eq!(source.state(), LoopState::Terminated);
        assert_eq!(source.result(), Some(Err(())));
        assert_eq!(source.in_flight(), 0);
        assert_eq!(source.on_completion(0, BatchStatus::Delivered), None);
    }
}

#[test]
fn shutdown_drops_what_is_in_flight() {
    let mut source = AmqpSource::new(true);
    for tag in 0..5u64 {
        assert_eq!(source.finalize_event_stream(true, delivery(tag)), Forwarded::Registered(tag));
    }
    assert_eq!(source.in_flight(), 5);
    assert_eq!(source.on_shutdown(), 5);
    assert_eq!(source.state(), LoopState::Terminated);
    assert_eq!(source.result(), Some(Ok(())));
    assert_eq!(source.in_flight(), 0);
    for id in 0..5u64 {
        assert_eq!(source.on_completion(id, BatchStatus::Delivered), None);
    }
    assert_eq!(source.finalize_event_stream(true, delivery(9)), Forwarded::Unacknowledged);
    assert_eq!(source.in_flight(), 0);
    assert_eq!(source.on_shutdown(), 0);
}

#[test]
fn shutdown_without_tracking() {
    let mut source: AmqpSource<Handle> = AmqpSource::new(false);
    assert_eq!(source.on_shutdown(), 0);
    assert_eq!(source.state(), LoopState::Terminated);
    assert_eq!(source.result(), Some(Ok(())));
    assert_eq!(source.finalize_event_stream(true, delivery(1)), Forwarded::Unacknowledged);
}

#[test]
fn closed_consumer_exits_cleanly() {
    let mut source = AmqpSource::new(true);
    assert_eq!(source.finalize_event_stream(true, delivery(1)), Forwarded::Registered(0));
    source.on_consumer_closed();
    assert_eq!(source.state(), LoopState::Terminated);
    assert_eq!(source.result(), Some(Ok(())));
    assert_eq!(source.on_completion(0, BatchStatus::Delivered), None);
}

#[test]
fn consume_error_is_fatal() {
    let mut source = AmqpSource::new(true);
    assert_eq!(source.finalize_event_stream(true, delivery(1)), Forwarded::Registered(0));
    source.on_consume_error();
    assert_eq!(source.state(), LoopState::Terminated);
    assert_eq!(source.result(), Some(Err(())));
    assert_eq!(source.in_flight(), 0);
    assert_eq!(source.on_completion(0, BatchStatus::Delivered), None);
}

#[test]
fn exit_is_final() {
    let mut failed: AmqpSource<Handle> = AmqpSource::new(true);
    failed.on_consume_error();
    failed.on_shutdown();
    failed.on_consumer_closed();
    assert_eq!(failed.result(), Some(Err(())));
    let mut clean: AmqpSource<Handle> = AmqpSource::new(true);
    clean.on_shutdown();
    clean.on_consume_error();
    assert_eq!(clean.finalize_event_stream(false, delivery(1)), Forwarded::Unacknowledged);
    assert_eq!(clean.result(), Some(Ok(())));
}

#[test]
fn decode_errors_are_never_fatal_for_the_loop() {
    let config = AmqpSourceConfig::default();
    let mut source = AmqpSource::new(true);
    let msg = delivery(3);
    let events = receive_event(
        &config,
        LogNamespace::Legacy,
        vec![DecodeOutcome::Error { can_continue: false }],
        &msg,
    );
    assert!(events.is_empty());
    assert_eq!(source.finalize_event_stream(true, msg), Forwarded::Registered(0));
    assert!(source.is_running());
}

#[test]
fn received_records_carry_the_provenance_of_the_delivery() {
    let config = AmqpSourceConfig::default();
    let mut msg = delivery(42);
    msg.timestamp = Some(1_600_000_000_005);
    let events = receive_event(
        &config,
        LogNamespace::Legacy,
        vec![
            DecodeOutcome::Frame { events: vec![message("one"), message("two")], byte_size: 6 },
            DecodeOutcome::Error { can_continue: true },
            DecodeOutcome::Frame { events: vec![message("three")], byte_size: 5 },
            DecodeOutcome::Error { can_continue: false },
            DecodeOutcome::Frame { events: vec![message("four")], byte_size: 4 },
        ],
        &msg,
    );
    assert_eq!(events.len(), 3);
    for (event, text) in events.iter().zip(["one", "two", "three"]) {
        assert_eq!(event.len(), 6);
        assert_eq!(event.get(&FieldPath::event("message")), Some(&bytes(text)));
        assert_eq!(event.get(&FieldPath::event("routing")), Some(&bytes("rk")));
        assert_eq!(event.get(&FieldPath::event("exchange")), Some(&bytes("ex")));
        assert_eq!(event.get(&FieldPath::event("offset")), Some(&Value::Integer(42)));
        assert_eq!(event.get(&FieldPath::event("source_type")), Some(&bytes("amqp")));
        assert_eq!(
            event.get(&FieldPath::event("timestamp")),
            Some(&Value::Timestamp(Timestamp { seconds: 1_600_000_000, nanoseconds: 5_000_000 }))
        );
    }
}

#[test]
fn received_records_use_the_configured_field_names() {
    let mut config = AmqpSourceConfig::default();
    config.routing_key_field = "message_key".to_string();
    config.exchange_key = "exchange".to_string();
    let mut msg = delivery(1);
    msg.routing_key = "my_key".to_string();
    msg.exchange = "test-exchange".to_string();
    let events = receive_event(
        &config,
        LogNamespace::Legacy,
        vec![DecodeOutcome::Frame { events: vec![message("my message")], byte_size: 10 }],
        &msg,
    );
    assert_eq!(events.len(), 1);
    assert_eq!(events[0].get(&FieldPath::event("message")), Some(&bytes("my message")));
    assert_eq!(events[0].get(&FieldPath::event("message_key")), Some(&bytes("my_key")));
    assert_eq!(events[0].get(&FieldPath::event("source_type")), Some(&bytes("amqp")));
    assert_eq!(events[0].get(&FieldPath::event("exchange")), Some(&bytes("test-exchange")));
    assert!(events[0].contains(&FieldPath::event("timestamp")));
}

#[test]
fn delivery_tag_is_reinterpreted_as_signed() {
    let config = AmqpSourceConfig::default();
    let msg = delivery(u64::MAX);
    let events = receive_event(
        &config,
        LogNamespace::Vector,
        vec![DecodeOutcome::Frame { events: vec![message("m")], byte_size: 1 }],
        &msg,
    );
    assert_eq!(
        events[0].get(&FieldPath::metadata("amqp", "offset")),
        Some(&Value::Integer(-1))
    );
    let msg = delivery(1u64 << 63);
    let events = receive_event(
        &config,
        LogNamespace::Vector,
        vec![DecodeOutcome::Frame { events: vec![message("m")], byte_size: 1 }],
        &msg,
    );
    assert_eq!(
        events[0].get(&FieldPath::metadata("amqp", "offset")),
        Some(&Value::Integer(i64::MIN))
    );
}

#[test]
fn unrepresentable_broker_timestamp_counts_as_absent() {
    let config = AmqpSourceConfig::default();
    let mut msg = delivery(1);
    msg.timestamp = Some(i64::MAX as u64);
    let events = receive_event(
        &config,
        LogNamespace::Vector,
        vec![DecodeOutcome::Frame { events: vec![message("m")], byte_size: 1 }],
        &msg,
    );
    assert_eq!(events[0].get(&FieldPath::metadata("amqp", "timestamp")), None);
    assert!(events[0].contains(&FieldPath::metadata("vector", "ingest_timestamp")));
}
