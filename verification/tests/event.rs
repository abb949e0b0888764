use amqp_source::{FieldPath, LogEvent, Timestamp, Value};

fn bytes(text: &str) -> Value {
    Value::Bytes(text.as_bytes().to_vec())
}

#[test]
fn new_event_is_empty() {
    let event = LogEvent::new();
    assert_eq!(event.len(), 0);
    assert!(!event.contains(&FieldPath::event("message")));
    assert_eq!(event.get(&FieldPath::event("message")), None);
}

#[test]
fn insert_then_get() {
    let mut event = LogEvent::new();
    event.insert(FieldPath::event("message"), bytes("hello"));
    event.insert(FieldPath::event("count"), Value::Integer(3));
    assert_eq!(event.len(), 2);
    assert!(event.contains(&FieldPath::event("message")));
    assert_eq!(event.get(&FieldPath::event("message")), Some(&bytes("hello")));
    assert_eq!(event.get(&FieldPath::event("count")), Some(&Value::Integer(3)));
    assert_eq!(event.get(&FieldPath::event("other")), None);
}

#[test]
fn insert_overwrites() {
    let mut event = LogEvent::new();
    event.insert(FieldPath::event("message"), bytes("hello"));
    event.insert(FieldPath::event("other"), Value::Integer(1));
    event.insert(FieldPath::event("message"), bytes("bye"));
    assert_eq!(event.len(), 2);
    assert_eq!(event.get(&FieldPath::event("message")), Some(&bytes("bye")));
    assert_eq!(event.get(&FieldPath::event("other")), Some(&Value::Integer(1)));
}

#[test]
fn try_insert_keeps_what_is_there() {
    let mut event = LogEvent::new();
    event.try_insert(FieldPath::event("message"), bytes("hello"));
    event.try_insert(FieldPath::event("message"), bytes("bye"));
    assert_eq!(event.len(), 1);
    assert_eq!(event.get(&FieldPath::event("message")), Some(&bytes("hello")));
}

#[test]
fn event_and_metadata_slots_are_apart() {
    let mut event = LogEvent::new();
    event.insert(FieldPath::event("timestamp"), Value::Integer(1));
    event.insert(FieldPath::metadata("amqp", "timestamp"), Value::Integer(2));
    event.insert(FieldPath::metadata("vector", "timestamp"), Value::Integer(3));
    assert_eq!(event.len(), 3);
    assert_eq!(event.get(&FieldPath::event("timestamp")), Some(&Value::Integer(1)));
    assert_eq!(event.get(&FieldPath::metadata("amqp", "timestamp")), Some(&Value::Integer(2)));
    assert_eq!(event.get(&FieldPath::metadata("vector", "timestamp")), Some(&Value::Integer(3)));
    assert_eq!(event.get(&FieldPath::metadata("timestamp", "amqp")), None);
}

#[test]
fn same_slot_compares_whole_paths() {
    assert!(FieldPath::event("a").same_slot(&FieldPath::event("a")));
    assert!(!FieldPath::event("a").same_slot(&FieldPath::event("b")));
    assert!(!FieldPath::event("a").same_slot(&FieldPath::metadata("a", "a")));
    assert!(FieldPath::metadata("n", "a").same_slot(&FieldPath::metadata("n", "a")));
    assert!(!FieldPath::metadata("n", "a").same_slot(&FieldPath::metadata("m", "a")));
    assert!(!FieldPath::metadata("n", "a").same_slot(&FieldPath::metadata("n", "b")));
}

#[test]
fn clone_copies_every_field() {
    let mut event = LogEvent::new();
    event.insert(FieldPath::event("message"), bytes("hello"));
    event.insert(
        FieldPath::metadata("amqp", "timestamp"),
        Value::Timestamp(Timestamp { seconds: 1, nanoseconds: 2 }),
    );
    let mut copy = event.clone();
    assert_eq!(copy.len(), 2);
    assert_eq!(copy.get(&FieldPath::event("message")), Some(&bytes("hello")));
    assert_eq!(
        copy.get(&FieldPath::metadata("amqp", "timestamp")),
        Some(&Value::Timestamp(Timestamp { seconds: 1, nanoseconds: 2 }))
    );
    copy.insert(FieldPath::event("message"), bytes("changed"));
    assert_eq!(event.get(&FieldPath::event("message")), Some(&bytes("hello")));
    assert_eq!(bytes("x").clone(), bytes("x"));
    assert_eq!(FieldPath::event("x").clone(), FieldPath::event("x"));
}
