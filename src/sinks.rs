use vstd::prelude::*;
use crate::buffer::Acker;
use crate::data_type::DataType;
use crate::event::{
    batch_size_of, batch_total, events_allocated, lemma_events_total, models, Event, BATCH_SIZE,
    EVENT_SIZE,
};

verus! {

#[verifier::external_type_specification]
#[verifier::external_body]
pub struct ExTomlValue(toml::Value);

#[verifier::external_type_specification]
#[verifier::external_body]
pub struct ExTomlError(toml::de::Error);

/// Whether a text is a well-formed TOML document.
pub uninterp spec fn toml_accepts(text: Seq<char>) -> bool;

/// Relies on `toml::from_str`: parses a TOML document, which succeeds exactly
/// on well-formed text. Only the settings template is handed to it: the
/// parser recurses without a depth limit on nested arrays, so an arbitrary
/// text could exhaust the stack.
#[verifier::external_body]
fn parse_toml(text: &str) -> (r: Result<toml::Value, toml::de::Error>)
    requires
        text@ == HUMIO_METRICS_TEMPLATE@,
    ensures
        r is Ok <==> toml_accepts(text@),
{
    toml::from_str(text)
}

/// A sink that accepts every event and drops it.
#[derive(Debug, Clone, Copy, PartialEq, Eq, Structural)]
pub struct BlackHole;

impl BlackHole {
    /// Accepts an event and drops it; never refuses.
    pub fn start_send(&mut self, _item: Event) -> (r: Result<(), ()>)
        ensures
            r is Ok,
    {
        Ok(())
    }

    /// Nothing is ever pending.
    pub fn poll_complete(&mut self) -> (r: Result<(), ()>)
        ensures
            r is Ok,
    {
        Ok(())
    }
}

/// How many events a blackhole sink takes per report.
pub fn default_print_amount() -> (r: usize)
    ensures
        r == 1000,
{
    1_000
}

/// Settings of the blackhole sink.
#[derive(Debug, Clone, Copy, PartialEq, Eq, Structural)]
pub struct BlackholeConfig {
    /// Events counted per report.
    pub print_amount: usize,
    /// Events per second to pace the input to, if any.
    pub rate: Option<usize>,
}

impl Default for BlackholeConfig {
    fn default() -> (r: BlackholeConfig)
        ensures
            r.print_amount == 1000,
            r.rate is None,
    {
        BlackholeConfig { print_amount: default_print_amount(), rate: None }
    }
}

impl BlackholeConfig {
    /// A fresh sink with these settings, and its healthcheck's outcome: a
    /// blackhole is always healthy.
    pub fn build(&self, acker: Acker) -> (r: (BlackholeSink, Result<(), String>))
        ensures
            r.0.spec_total_events() == 0,
            r.0.spec_total_raw_bytes() == 0,
            r.0.spec_config() == *self,
            r.0.spec_acker() == acker,
            r.1 is Ok,
    {
        (BlackholeSink::new(*self, acker), Ok(()))
    }

    /// Accepts every kind of event.
    pub fn input_type(&self) -> (r: DataType)
        ensures
            r == DataType::Any,
    {
        DataType::Any
    }

    /// The type tag under which this sink is registered.
    pub fn sink_type(&self) -> (r: &'static str)
        ensures
            r@ == "blackhole"@,
    {
        "blackhole"
    }
}

/// A sink that counts what it receives, acknowledges it, and drops it.
#[derive(Debug)]
pub struct BlackholeSink {
    total_events: usize,
    total_raw_bytes: usize,
    config: BlackholeConfig,
    acker: Acker,
}

impl BlackholeSink {
    /// A sink that has received nothing yet.
    pub fn new(config: BlackholeConfig, acker: Acker) -> (r: BlackholeSink)
        ensures
            r.spec_total_events() == 0,
            r.spec_total_raw_bytes() == 0,
            r.spec_config() == config,
            r.spec_acker() == acker,
    {
        BlackholeSink { config, total_events: 0, total_raw_bytes: 0, acker }
    }

    pub closed spec fn spec_total_events(&self) -> nat {
        self.total_events as nat
    }

    pub closed spec fn spec_total_raw_bytes(&self) -> nat {
        self.total_raw_bytes as nat
    }

    pub closed spec fn spec_config(&self) -> BlackholeConfig {
        self.config
    }

    pub closed spec fn spec_acker(&self) -> Acker {
        self.acker
    }

    /// Events received so far.
    pub fn total_events(&self) -> (r: usize)
        ensures
            r == self.spec_total_events(),
    {
        self.total_events
    }

    /// Bytes received so far, as the events' total sizes.
    pub fn total_raw_bytes(&self) -> (r: usize)
        ensures
            r == self.spec_total_raw_bytes(),
    {
        self.total_raw_bytes
    }

    /// The acknowledgement counter.
    pub fn acker(&self) -> (r: Acker)
        ensures
            r == self.spec_acker(),
    {
        self.acker
    }

    /// The settings.
    pub fn config(&self) -> (r: BlackholeConfig)
        ensures
            r == self.spec_config(),
    {
        self.config
    }

    /// Counts a chunk of received events and their size, then acknowledges
    /// them all.
    pub fn record_chunk(&mut self, events: &Vec<Event>)
        requires
            forall|i: int| 0 <= i < events.len() ==> (#[trigger] events@[i]).wf(),
            batch_total(models(events@)) <= usize::MAX,
            old(self).spec_total_events() + events.len() <= usize::MAX,
            old(self).spec_total_raw_bytes() + batch_total(models(events@)) <= usize::MAX,
            old(self).spec_acker().spec_count() + events.len() <= usize::MAX,
        ensures
            final(self).spec_total_events() == old(self).spec_total_events() + events.len(),
            final(self).spec_total_raw_bytes() == old(self).spec_total_raw_bytes() + batch_total(
                models(events@),
            ),
            final(self).spec_total_raw_bytes() == old(self).spec_total_raw_bytes() + BATCH_SIZE
                + events.len() * EVENT_SIZE + events_allocated(models(events@)),
            final(self).spec_config() == old(self).spec_config(),
            final(self).spec_acker().spec_count() == old(self).spec_acker().spec_count()
                + if old(self).spec_acker() == Acker::Null { 0 } else { events.len() as int },
            (final(self).spec_acker() == Acker::Null) == (old(self).spec_acker() == Acker::Null),
    {
        proof {
            lemma_events_total(models(events@));
        }
        let message_len = batch_size_of(events);
        self.total_events = self.total_events + events.len();
        self.total_raw_bytes = self.total_raw_bytes + message_len;
        self.acker.ack(events.len());
    }
}

fn copy_text(t: &Option<String>) -> (r: Option<String>)
    ensures
        r.is_some() == t.is_some(),
        t is Some ==> r.unwrap()@ == t.unwrap()@,
{
    match t {
        Some(s) => Some(s.clone()),
        None => None,
    }
}

/// The settings template that a new humio metrics sink starts from.
pub const HUMIO_METRICS_TEMPLATE: &'static str = "host_key = \"hostname\"\ntoken = \"${HUMIO_TOKEN}\"\nencoding.codec = \"json\"\n";

/// Settings of the sink that sends metrics to Humio, as log lines.
#[derive(Debug, Clone)]
pub struct HumioMetricsConfig {
    pub token: String,
    /// The address to send to; `host` is accepted as its older name.
    pub endpoint: Option<String>,
    pub source: Option<String>,
    pub encoding: String,
    pub event_type: Option<String>,
    pub host_key: String,
}

/// Settings of the sink that sends log lines to Humio.
#[derive(Debug, Clone)]
pub struct HumioLogsConfig {
    pub token: String,
    pub endpoint: Option<String>,
    pub source: Option<String>,
    pub encoding: String,
    pub event_type: Option<String>,
    pub host_key: String,
}

impl HumioMetricsConfig {
    /// The settings of the log sink that metrics are sent through, once each
    /// metric is turned into a log line: the same fields, copied.
    pub fn logs_config(&self) -> (r: HumioLogsConfig)
        ensures
            r.token@ == self.token@,
            r.endpoint.is_some() == self.endpoint.is_some(),
            self.endpoint is Some ==> r.endpoint.unwrap()@ == self.endpoint.unwrap()@,
            r.source.is_some() == self.source.is_some(),
            self.source is Some ==> r.source.unwrap()@ == self.source.unwrap()@,
            r.encoding@ == self.encoding@,
            r.event_type.is_some() == self.event_type.is_some(),
            self.event_type is Some ==> r.event_type.unwrap()@ == self.event_type.unwrap()@,
            r.host_key@ == self.host_key@,
    {
        HumioLogsConfig {
            token: self.token.clone(),
            endpoint: copy_text(&self.endpoint),
            source: copy_text(&self.source),
            encoding: self.encoding.clone(),
            event_type: copy_text(&self.event_type),
            host_key: self.host_key.clone(),
        }
    }

    /// The settings template as a TOML table, when it parses.
    pub fn generate_config() -> (r: Option<toml::Value>)
        ensures
            r is Some <==> toml_accepts(HUMIO_METRICS_TEMPLATE@),
    {
        match parse_toml(HUMIO_METRICS_TEMPLATE) {
            Ok(v) => Some(v),
            Err(_) => None,
        }
    }

    /// Accepts metrics only.
    pub fn input_type(&self) -> (r: DataType)
        ensures
            r == DataType::Metric,
    {
        DataType::Metric
    }

    /// The type tag under which this sink is registered.
    pub fn sink_type(&self) -> (r: &'static str)
        ensures
            r@ == "humio_metrics"@,
    {
        "humio_metrics"
    }
}

} // verus!
