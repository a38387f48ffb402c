use vector::buffer::Acker;
use vector::data_type::DataType;
use vector::event::{Event, LogEvent, Metric, FieldValue, BATCH_SIZE, EVENT_SIZE};
use vector::sinks::{
    default_print_amount, BlackHole, BlackholeConfig, BlackholeSink, HumioMetricsConfig,
};

#[test]
fn blackhole_generate_config() {
    // the settings that the generated configuration serialises
    let config = BlackholeConfig::default();
    assert_eq!(config, BlackholeConfig { print_amount: 1000, rate: None });
    let (sink, health) = config.build(Acker::Null);
    assert_eq!(health, Ok(()));
    assert_eq!(sink.config().print_amount, default_print_amount());
}

#[test]
fn metrics_generate_config() {
    let value = HumioMetricsConfig::generate_config().expect("the template parses");
    assert_eq!(value.get("host_key").and_then(|v| v.as_str()), Some("hostname"));
    assert_eq!(value.get("token").and_then(|v| v.as_str()), Some("${HUMIO_TOKEN}"));
    let codec = value.get("encoding").and_then(|e| e.get("codec")).and_then(|v| v.as_str());
    assert_eq!(codec, Some("json"));
}

#[test]
fn blackhole() {
    let config = BlackholeConfig { print_amount: 10, rate: None };
    let mut sink = BlackholeSink::new(config, Acker::Null);
    let mut expected_bytes = 0;
    for chunk in 0..10 {
        let events: Vec<Event> = (0..10)
            .map(|i| {
                let mut log = LogEvent::new();
                log.insert_flat("message".to_string(), FieldValue::Integer(chunk * 10 + i));
                Event::Log(log)
            })
            .collect();
        expected_bytes += BATCH_SIZE + events.iter().map(|e| e.size_of()).sum::<usize>();
        sink.record_chunk(&events);
    }
    assert_eq!(sink.total_events(), 100);
    assert_eq!(sink.total_raw_bytes(), expected_bytes);
    assert_eq!(sink.acker(), Acker::Null);
}

#[test]
fn blackhole_counts_and_acks() {
    let mut sink = BlackholeSink::new(BlackholeConfig::default(), Acker::Counter(0));
    let events = vec![
        Event::Metric(Metric { name: "ab".to_string(), value: 1 }),
        Event::Metric(Metric { name: "cde".to_string(), value: 2 }),
    ];
    sink.record_chunk(&events);
    assert_eq!(sink.total_events(), 2);
    assert_eq!(sink.total_raw_bytes(), BATCH_SIZE + EVENT_SIZE + 2 + EVENT_SIZE + 3);
    assert_eq!(sink.acker(), Acker::Counter(2));
    assert_eq!(sink.config().print_amount, 1000);
}

#[test]
fn blackhole_defaults() {
    assert_eq!(default_print_amount(), 1000);
    let config = BlackholeConfig::default();
    assert_eq!(config.print_amount, 1000);
    assert_eq!(config.rate, None);
    assert_eq!(config.input_type(), DataType::Any);
    assert_eq!(config.sink_type(), "blackhole");
}

#[test]
fn black_hole_accepts_everything() {
    let mut hole = BlackHole;
    assert_eq!(hole.start_send(Event::Log(LogEvent::new())), Ok(()));
    assert_eq!(hole.poll_complete(), Ok(()));
}

#[test]
fn humio_metrics_types() {
    let config = HumioMetricsConfig {
        token: "atoken".to_string(),
        endpoint: Some("https://localhost:9200/".to_string()),
        source: None,
        encoding: "json".to_string(),
        event_type: None,
        host_key: "host".to_string(),
    };
    assert_eq!(config.input_type(), DataType::Metric);
    assert_eq!(config.sink_type(), "humio_metrics");
}

#[test]
fn data_type_compatibility() {
    assert!(DataType::Any.accepts(DataType::Log));
    assert!(DataType::Metric.accepts(DataType::Any));
    assert!(DataType::Log.accepts(DataType::Log));
    assert!(!DataType::Log.accepts(DataType::Metric));
    assert!(!DataType::Metric.accepts(DataType::Log));
}

#[test]
fn blackhole_build_is_fresh_and_healthy() {
    let config = BlackholeConfig { print_amount: 5, rate: Some(3) };
    let (sink, health) = config.build(Acker::Counter(0));
    assert_eq!(health, Ok(()));
    assert_eq!(sink.total_events(), 0);
    assert_eq!(sink.total_raw_bytes(), 0);
    assert_eq!(sink.config(), config);
}

#[test]
fn humio_logs_config_copies_fields() {
    let config = HumioMetricsConfig {
        token: "atoken".to_string(),
        endpoint: Some("https://localhost:9200/".to_string()),
        source: Some("src".to_string()),
        encoding: "json".to_string(),
        event_type: None,
        host_key: "hostname".to_string(),
    };
    let logs = config.logs_config();
    assert_eq!(logs.token, "atoken");
    assert_eq!(logs.endpoint, Some("https://localhost:9200/".to_string()));
    assert_eq!(logs.source, Some("src".to_string()));
    assert_eq!(logs.encoding, "json");
    assert_eq!(logs.event_type, None);
    assert_eq!(logs.host_key, "hostname");
}
