use vector::buffer::{AckError, Acker, Buffer};
use vector::diff::{Component, Config, ConfigDiff, Difference};
use vector::event::{Event, Metric};
use vector::fanout::{Fanout, FanoutError};
use vector::validate::ConfigError;
use vector::topology::{
    failed_healthchecks, handle_errors, retain, step, take_healthchecks, Command, Pieces, Signal,
    State, TaskOutcome,
};

fn component(kind: &str, settings: &str, inputs: &[&str]) -> Component {
    Component {
        component_type: kind.to_string(),
        settings: settings.to_string(),
        inputs: inputs.iter().map(|s| s.to_string()).collect(),
    }
}

fn named(list: Vec<(&str, Component)>) -> Vec<(String, Component)> {
    list.into_iter().map(|(n, c)| (n.to_string(), c)).collect()
}

fn metric(name: &str, value: i64) -> Event {
    Event::Metric(Metric { name: name.to_string(), value })
}

fn sorted(mut v: Vec<String>) -> Vec<String> {
    v.sort();
    v
}

fn drain(buffer: &mut Buffer) -> Vec<(String, i64)> {
    let mut out = Vec::new();
    while let Some(e) = buffer.pop() {
        match e {
            Event::Metric(m) => out.push((m.name, m.value)),
            Event::Log(_) => out.push(("log".to_string(), 0)),
        }
    }
    out
}

#[test]
fn diff_partitions_names() {
    let old = named(vec![
        ("a", component("file", "x", &[])),
        ("b", component("remap", "y", &["a"])),
        ("c", component("remap", "z", &["a"])),
        ("d", component("console", "", &["b"])),
    ]);
    let new = named(vec![
        ("a", component("file", "x", &[])),
        ("b", component("remap", "y2", &["a"])),
        ("c", component("remap", "z", &["a", "b"])),
        ("e", component("blackhole", "", &["c"])),
    ]);
    let diff = Difference::between(&old, &new);
    assert_eq!(sorted(diff.to_add.clone()), vec!["e".to_string()]);
    assert_eq!(sorted(diff.to_remove.clone()), vec!["d".to_string()]);
    assert_eq!(sorted(diff.to_change.clone()), vec!["b".to_string(), "c".to_string()]);
    // "a" is the one unchanged name: new names = added + changed + unchanged
    let mut all: Vec<String> = diff.to_add.iter().chain(diff.to_change.iter()).cloned().collect();
    all.push("a".to_string());
    assert_eq!(sorted(all), vec!["a", "b", "c", "e"]);
}

#[test]
fn initial_diff_adds_everything() {
    let config = Config {
        sources: named(vec![("in", component("stdin", "", &[]))]),
        transforms: named(vec![("t", component("remap", "", &["in"]))]),
        sinks: named(vec![("out", component("blackhole", "", &["t"]))]),
        healthchecks: true,
    };
    let diff = ConfigDiff::initial(&config);
    assert_eq!(diff.sources.to_add, vec!["in".to_string()]);
    assert_eq!(diff.transforms.to_add, vec!["t".to_string()]);
    assert_eq!(diff.sinks.to_add, vec!["out".to_string()]);
    assert!(diff.sinks.to_remove.is_empty() && diff.sinks.to_change.is_empty());
    let same = ConfigDiff::new(&config, &config);
    assert!(same.sinks.to_add.is_empty() && same.sinks.to_remove.is_empty());
    assert!(same.transforms.to_change.is_empty());
}

#[test]
fn fanout_delivers_every_event_in_order() {
    let mut fanout = Fanout::new();
    for name in ["x", "y", "z"] {
        assert_eq!(fanout.add(name.to_string(), Buffer::new(10, Acker::Null)), Ok(()));
    }
    for i in 0..5 {
        assert!(fanout.send(metric("m", i)).is_ok());
    }
    for name in ["x", "y", "z"] {
        let mut buffer = fanout.remove(&name.to_string()).expect("attached");
        let got = drain(&mut buffer);
        let expected: Vec<(String, i64)> = (0..5).map(|i| ("m".to_string(), i)).collect();
        assert_eq!(got, expected);
    }
    assert_eq!(fanout.len(), 0);
}

#[test]
fn fanout_refuses_duplicates_and_blocks_when_full() {
    let mut fanout = Fanout::new();
    assert_eq!(fanout.add("a".to_string(), Buffer::new(1, Acker::Null)), Ok(()));
    assert_eq!(
        fanout.add("a".to_string(), Buffer::new(1, Acker::Null)),
        Err(FanoutError::Duplicate)
    );
    assert!(fanout.ready());
    assert!(fanout.send(metric("first", 1)).is_ok());
    assert!(!fanout.ready());
    let back = fanout.send(metric("second", 2));
    assert!(matches!(back, Err(Event::Metric(ref m)) if m.name == "second"));
    assert!(fanout.remove(&"missing".to_string()).is_none());
}

#[test]
fn hot_swap_keeps_old_events_with_old_instance() {
    let mut fanout = Fanout::new();
    fanout.add("t".to_string(), Buffer::new(10, Acker::Null)).unwrap();
    fanout.send(metric("before", 1)).unwrap();
    fanout.send(metric("before", 2)).unwrap();
    let mut old = match fanout.replace(&"t".to_string(), Buffer::new(10, Acker::Null)) {
        Ok(old) => old,
        Err(_) => panic!("t is attached"),
    };
    fanout.send(metric("after", 3)).unwrap();
    assert_eq!(drain(&mut old), vec![("before".to_string(), 1), ("before".to_string(), 2)]);
    let mut new = fanout.remove(&"t".to_string()).unwrap();
    assert_eq!(drain(&mut new), vec![("after".to_string(), 3)]);
    assert!(fanout.replace(&"t".to_string(), Buffer::new(1, Acker::Null)).is_err());
}

#[test]
fn ack_counts_exactly_what_was_delivered() {
    let mut buffer = Buffer::new(100, Acker::Counter(0));
    for i in 0..50 {
        assert!(buffer.try_push(metric("e", i)).is_ok());
    }
    for _ in 0..50 {
        assert!(buffer.pop().is_some());
    }
    assert_eq!(buffer.delivered(), 50);
    assert_eq!(buffer.ack(50), Ok(()));
    assert_eq!(buffer.acked(), 50);
    assert_eq!(buffer.ack(1), Err(AckError::Excess));
    assert_eq!(buffer.acked(), 50);
}

#[test]
fn buffer_blocks_when_full() {
    let mut buffer = Buffer::new(2, Acker::Null);
    assert!(buffer.has_room());
    assert!(buffer.try_push(metric("a", 1)).is_ok());
    assert!(buffer.try_push(metric("b", 2)).is_ok());
    assert!(!buffer.has_room());
    assert!(buffer.try_push(metric("c", 3)).is_err());
    assert_eq!(buffer.len(), 2);
    assert_eq!(buffer.ack(1), Err(AckError::Excess));
    assert!(buffer.pop().is_some());
    assert_eq!(buffer.ack(1), Ok(()));
    assert_eq!(buffer.acked(), 0);
}

#[test]
fn reload_with_failing_healthcheck_keeps_old_graph() {
    let old = Config {
        sources: named(vec![("in", component("stdin", "", &[]))]),
        transforms: Vec::new(),
        sinks: named(vec![("A", component("blackhole", "", &["in"]))]),
        healthchecks: true,
    };
    let new = Config {
        sources: named(vec![("in", component("stdin", "", &[]))]),
        transforms: Vec::new(),
        sinks: named(vec![
            ("A", component("blackhole", "", &["in"])),
            ("B", component("http", "", &["in"])),
        ]),
        healthchecks: true,
    };
    let mut fanout = Fanout::new();
    fanout.add("A".to_string(), Buffer::new(10, Acker::Null)).unwrap();
    fanout.send(metric("e", 1)).unwrap();

    let (state, command) = step(State::Running, Signal::ReloadRequested);
    assert_eq!((state, command), (State::Reloading, Command::BuildAndCheck));
    let diff = ConfigDiff::new(&old, &new);
    assert_eq!(diff.sinks.to_add, vec!["B".to_string()]);
    let mut pieces = Pieces { healthchecks: vec![("B".to_string(), false)] };
    let checks = take_healthchecks(&diff, &mut pieces);
    let failed = failed_healthchecks(&checks);
    assert_eq!(failed, vec!["B".to_string()]);
    let (state, command) = step(state, Signal::ReloadChecked { built: true, healthy: failed.is_empty() });
    assert_eq!((state, command), (State::Running, Command::Discard));

    // A keeps receiving; B was never wired
    fanout.send(metric("e", 2)).unwrap();
    assert!(fanout.remove(&"B".to_string()).is_none());
    let mut a = fanout.remove(&"A".to_string()).unwrap();
    assert_eq!(drain(&mut a), vec![("e".to_string(), 1), ("e".to_string(), 2)]);
}

#[test]
fn fatal_failure_shuts_everything_down() {
    assert!(handle_errors(TaskOutcome::Fatal));
    assert!(!handle_errors(TaskOutcome::Errored));
    assert!(!handle_errors(TaskOutcome::Finished));
    assert_eq!(step(State::Running, Signal::Fatal), (State::ShuttingDown, Command::CancelAll));
    assert_eq!(step(State::Reloading, Signal::Fatal), (State::ShuttingDown, Command::CancelAll));
    assert_eq!(
        step(State::ShuttingDown, Signal::ShutdownWaited { all_finished: false }),
        (State::Stopped, Command::ForceTerminate)
    );
    assert_eq!(
        step(State::ShuttingDown, Signal::ShutdownWaited { all_finished: true }),
        (State::Stopped, Command::Idle)
    );
}

#[test]
fn start_and_reload_transitions() {
    let start = |built, healthy, require| Signal::Start { built, healthy, require_healthchecks: require };
    assert_eq!(step(State::Stopped, start(true, true, true)), (State::Running, Command::SpawnAll));
    assert_eq!(step(State::Stopped, start(true, false, false)), (State::Running, Command::SpawnAll));
    assert_eq!(
        step(State::Stopped, start(true, false, true)),
        (State::Stopped, Command::ReportStartFailure)
    );
    assert_eq!(
        step(State::Stopped, start(false, true, true)),
        (State::Stopped, Command::ReportStartFailure)
    );
    assert_eq!(step(State::Reloading, Signal::ReloadRequested), (State::Reloading, Command::Reject));
    assert_eq!(
        step(State::Reloading, Signal::ReloadChecked { built: true, healthy: true }),
        (State::Running, Command::Install)
    );
    assert_eq!(
        step(State::Running, Signal::ShutdownRequested),
        (State::ShuttingDown, Command::CancelAll)
    );
}

#[test]
fn take_healthchecks_splits_by_diff() {
    let old = Config {
        sources: Vec::new(),
        transforms: Vec::new(),
        sinks: named(vec![("keep", component("a", "", &[])), ("chg", component("a", "1", &[]))]),
        healthchecks: true,
    };
    let new = Config {
        sources: Vec::new(),
        transforms: Vec::new(),
        sinks: named(vec![
            ("keep", component("a", "", &[])),
            ("chg", component("a", "2", &[])),
            ("add", component("a", "", &[])),
        ]),
        healthchecks: true,
    };
    let diff = ConfigDiff::new(&old, &new);
    let mut pieces = Pieces {
        healthchecks: vec![("keep".to_string(), 1), ("chg".to_string(), 2), ("add".to_string(), 3)],
    };
    let taken = take_healthchecks(&diff, &mut pieces);
    assert_eq!(taken, vec![("chg".to_string(), 2), ("add".to_string(), 3)]);
    assert_eq!(pieces.healthchecks, vec![("keep".to_string(), 1)]);
}

#[test]
fn retain_keeps_in_order() {
    let mut v = vec![1, 2, 3, 4, 5, 6];
    let _ = retain(&mut v, |x: &i32| *x % 2 == 0);
    assert_eq!(v, vec![2, 4, 6]);
    let mut e: Vec<i32> = Vec::new();
    let _ = retain(&mut e, |_x: &i32| false);
    assert!(e.is_empty());
}

#[test]
fn failed_healthchecks_lists_failures_in_order() {
    let results = vec![
        ("a".to_string(), true),
        ("b".to_string(), false),
        ("c".to_string(), false),
    ];
    assert_eq!(failed_healthchecks(&results), vec!["b".to_string(), "c".to_string()]);
    assert!(failed_healthchecks(&Vec::new()).is_empty());
}

#[test]
fn validation_collects_every_error() {
    let config = Config {
        sources: named(vec![("in", component("stdin", "", &[]))]),
        transforms: named(vec![("t", component("remap", "", &["in", "ghost"]))]),
        sinks: named(vec![
            ("out", component("blackhole", "", &["t", "nope"])),
            ("in", component("console", "", &["t"])),
        ]),
        healthchecks: true,
    };
    let errors = config.validation_errors();
    assert_eq!(errors.len(), 3);
    assert!(matches!(&errors[0], ConfigError::DuplicateName(n) if n == "in"));
    assert!(matches!(&errors[1], ConfigError::UnknownInput { component, input }
        if component == "t" && input == "ghost"));
    assert!(matches!(&errors[2], ConfigError::UnknownInput { component, input }
        if component == "out" && input == "nope"));
    assert!(config.validate().is_err());

    let good = Config {
        sources: named(vec![("in", component("stdin", "", &[]))]),
        transforms: named(vec![("t", component("remap", "", &["in"]))]),
        sinks: named(vec![("out", component("blackhole", "", &["t", "in"]))]),
        healthchecks: false,
    };
    assert!(good.validate().is_ok());
}
