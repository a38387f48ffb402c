use quickcheck::{QuickCheck, TestResult};
use vector::event::{
    Action, Event, FieldValue, LogEvent, Metric, EVENT_SIZE, LOG_EVENT_SIZE, VALUE_SIZE,
};

fn value_from(tag: u8, n: i64, bytes: Vec<u8>) -> FieldValue {
    match tag % 4 {
        0 => FieldValue::Null,
        1 => FieldValue::Boolean(n % 2 == 0),
        2 => FieldValue::Integer(n),
        _ => FieldValue::Bytes(bytes),
    }
}

fn log_from(fields: Vec<(String, u8, i64, Vec<u8>)>) -> LogEvent {
    let mut log = LogEvent::new();
    for (key, tag, n, bytes) in fields {
        log.insert_flat(key, value_from(tag, n, bytes));
    }
    log
}

fn event_from(is_metric: bool, name: String, fields: Vec<(String, u8, i64, Vec<u8>)>) -> Event {
    if is_metric {
        Event::Metric(Metric { name, value: fields.len() as i64 })
    } else {
        Event::Log(log_from(fields))
    }
}

type EventInput = (bool, String, Vec<(String, u8, i64, Vec<u8>)>);

#[test]
fn at_least_wrapper_size() {
    fn inner(input: EventInput) -> TestResult {
        let event = event_from(input.0, input.1, input.2);
        let baseline = Event::structural_size();
        assert!(baseline <= event.size_of());
        TestResult::passed()
    }

    QuickCheck::new()
        .tests(1_000)
        .max_tests(10_000)
        .quickcheck(inner as fn(EventInput) -> TestResult);
}

#[test]
fn exactly_equal_if_no_allocated_bytes() {
    fn inner(input: EventInput) -> TestResult {
        let event = event_from(input.0, input.1, input.2);
        let allocated_sz = event.allocated_bytes();
        if allocated_sz == 0 {
            let baseline = Event::structural_size();
            assert_eq!(baseline, event.size_of());
            return TestResult::passed();
        }
        TestResult::discard()
    }

    QuickCheck::new()
        .tests(1_000)
        .max_tests(10_000)
        .quickcheck(inner as fn(EventInput) -> TestResult);
}

#[test]
fn size_greater_than_allocated_size() {
    fn inner(input: EventInput) -> TestResult {
        let event = event_from(input.0, input.1, input.2);
        let total_sz = event.size_of();
        let allocated_sz = event.allocated_bytes();

        assert!(total_sz > allocated_sz);
        TestResult::passed()
    }

    QuickCheck::new()
        .tests(1_000)
        .max_tests(10_000)
        .quickcheck(inner as fn(EventInput) -> TestResult);
}

type ActionInput = (u8, String, u8, i64, Vec<u8>);

#[test]
fn log_operation_maintains_size() {
    fn inner(actions: Vec<ActionInput>, fields: Vec<(String, u8, i64, Vec<u8>)>) -> TestResult {
        let mut log_event = log_from(fields);
        let mut current_size = log_event.size_of();

        for (choice, key, tag, n, bytes) in actions {
            match Action::arbitrary(choice, key, value_from(tag, n, bytes)) {
                Action::InsertFlat { key, value } => {
                    let new_value_sz = value.size_of();
                    let old_value_sz = log_event.get_flat(&key).map_or(0, |x| x.size_of());
                    if !log_event.contains(&key) {
                        current_size += key.len();
                    }
                    log_event.insert_flat(key, value);
                    current_size -= old_value_sz;
                    current_size += new_value_sz;
                }
                Action::SizeOf => {
                    assert_eq!(current_size, log_event.size_of());
                }
                Action::Contains { key } => {
                    log_event.contains(&key);
                }
                Action::Remove { key } => {
                    if let Some(value) = log_event.remove(&key) {
                        current_size -= value.size_of();
                        current_size -= key.len();
                    }
                }
            }
        }
        assert_eq!(current_size, log_event.size_of());

        TestResult::passed()
    }

    QuickCheck::new()
        .tests(1_000)
        .max_tests(10_000)
        .quickcheck(inner as fn(Vec<ActionInput>, Vec<(String, u8, i64, Vec<u8>)>) -> TestResult);
}

#[test]
fn empty_log_has_only_its_footprint() {
    let log = LogEvent::new();
    assert_eq!(log.allocated_bytes(), 0);
    assert_eq!(log.size_of(), LOG_EVENT_SIZE);
    let event = Event::Log(log);
    assert_eq!(event.size_of(), EVENT_SIZE);
    assert_eq!(event.size_of(), Event::structural_size());
}

#[test]
fn field_sizes_are_exact() {
    let mut log = LogEvent::new();
    // "abc" key (3 bytes) + value footprint + 5 payload bytes
    assert!(log.insert_flat("abc".to_string(), FieldValue::Bytes(vec![1, 2, 3, 4, 5])).is_none());
    assert_eq!(log.allocated_bytes(), 3 + VALUE_SIZE + 5);
    // replacing keeps the key and swaps the value's size
    let old = log.insert_flat("abc".to_string(), FieldValue::Integer(7));
    assert!(matches!(old, Some(FieldValue::Bytes(ref b)) if b.len() == 5));
    assert_eq!(log.allocated_bytes(), 3 + VALUE_SIZE);
    // a multi-byte key counts its UTF-8 bytes
    log.insert_flat("é".to_string(), FieldValue::Null);
    assert_eq!(log.allocated_bytes(), 3 + VALUE_SIZE + 2 + VALUE_SIZE);
    assert!(log.contains(&"é".to_string()));
    let removed = log.remove(&"abc".to_string());
    assert!(matches!(removed, Some(FieldValue::Integer(7))));
    assert_eq!(log.allocated_bytes(), 2 + VALUE_SIZE);
    assert!(log.remove(&"abc".to_string()).is_none());
    assert_eq!(log.size_of(), LOG_EVENT_SIZE + 2 + VALUE_SIZE);
}

#[test]
fn metric_size_counts_its_name() {
    let event = Event::Metric(Metric { name: "metric1".to_string(), value: 42 });
    assert_eq!(event.allocated_bytes(), 7);
    assert_eq!(event.size_of(), EVENT_SIZE + 7);
    let copy = event.duplicate();
    assert_eq!(copy.size_of(), event.size_of());
}

#[test]
fn apply_follows_deltas() {
    let mut log = LogEvent::new();
    let start = log.size_of();
    log.apply(Action::arbitrary(0, "k".to_string(), FieldValue::Bytes(vec![0; 10])));
    assert_eq!(log.size_of(), start + 1 + VALUE_SIZE + 10);
    log.apply(Action::arbitrary(1, "k".to_string(), FieldValue::Null));
    log.apply(Action::arbitrary(2, "k".to_string(), FieldValue::Null));
    assert_eq!(log.size_of(), start + 1 + VALUE_SIZE + 10);
    log.apply(Action::arbitrary(3, "k".to_string(), FieldValue::Null));
    assert_eq!(log.size_of(), start);
}

#[test]
fn arbitrary_picks_by_choice() {
    assert!(matches!(Action::arbitrary(4, "a".to_string(), FieldValue::Null), Action::InsertFlat { .. }));
    assert!(matches!(Action::arbitrary(5, "a".to_string(), FieldValue::Null), Action::SizeOf));
    assert!(matches!(Action::arbitrary(6, "a".to_string(), FieldValue::Null), Action::Contains { .. }));
    assert!(matches!(Action::arbitrary(7, "a".to_string(), FieldValue::Null), Action::Remove { .. }));
}

#[test]
fn insert_then_remove_restores_size() {
    let mut log = LogEvent::new();
    log.insert_flat("kept".to_string(), FieldValue::Integer(1));
    let start = log.size_of();
    log.apply_all(vec![
        Action::InsertFlat { key: "new".to_string(), value: FieldValue::Bytes(vec![1, 2, 3]) },
        Action::SizeOf,
        Action::Contains { key: "new".to_string() },
        Action::Remove { key: "new".to_string() },
        Action::Remove { key: "absent".to_string() },
    ]);
    assert_eq!(log.size_of(), start);
    assert!(log.contains(&"kept".to_string()));
    assert!(!log.contains(&"new".to_string()));
}

#[test]
fn apply_all_sums_the_deltas() {
    let mut log = LogEvent::new();
    let start = log.size_of();
    log.apply_all(vec![
        Action::InsertFlat { key: "a".to_string(), value: FieldValue::Bytes(vec![0; 4]) },
        Action::InsertFlat { key: "b".to_string(), value: FieldValue::Null },
        Action::InsertFlat { key: "a".to_string(), value: FieldValue::Bytes(vec![0; 10]) },
    ]);
    // a: 1 + VALUE_SIZE + 4, b: 1 + VALUE_SIZE, then a's value grows by 6
    assert_eq!(log.size_of(), start + (1 + VALUE_SIZE + 4) + (1 + VALUE_SIZE) + 6);
}
