//! Observations, and the columns that a table of them has.
use vstd::prelude::*;

use crate::json::{json_text, last_values, object_of, string_object, value_text};
use crate::num::Num;

verus! {

/// What kind of telemetry an observation is.
#[derive(Clone, Copy, Debug, PartialEq, Eq, Structural)]
pub enum TelemetryKind {
    Metric,
    Log,
    Trace,
}

/// What an observation says of a resource.
#[derive(Clone, Copy, Debug, PartialEq, Eq, Structural)]
pub enum Signal {
    Utilization,
    Saturation,
    Rate,
    Errors,
    Duration,
    Raw,
}

/// How severe a log line is.
#[derive(Clone, Copy, Debug, PartialEq, Eq, Structural)]
pub enum LogLevel {
    Debug,
    Info,
    Warn,
    Error,
}

/// The name of a kind.
pub open spec fn kind_text(kind: TelemetryKind) -> Seq<char> {
    match kind {
        TelemetryKind::Metric => "metric"@,
        TelemetryKind::Log => "log"@,
        TelemetryKind::Trace => "trace"@,
    }
}

/// The name of a signal.
pub open spec fn signal_text(signal: Signal) -> Seq<char> {
    match signal {
        Signal::Utilization => "utilization"@,
        Signal::Saturation => "saturation"@,
        Signal::Rate => "rate"@,
        Signal::Errors => "errors"@,
        Signal::Duration => "duration"@,
        Signal::Raw => "raw"@,
    }
}

/// The name of a severity.
pub open spec fn severity_text(level: LogLevel) -> Seq<char> {
    match level {
        LogLevel::Debug => "debug"@,
        LogLevel::Info => "info"@,
        LogLevel::Warn => "warn"@,
        LogLevel::Error => "error"@,
    }
}

/// The name of a kind.
pub fn kind_tag(kind: &TelemetryKind) -> (r: &'static str)
    ensures
        r@ == kind_text(*kind),
{
    match kind {
        TelemetryKind::Metric => "metric",
        TelemetryKind::Log => "log",
        TelemetryKind::Trace => "trace",
    }
}

/// The name of a signal.
pub fn signal_tag(signal: &Signal) -> (r: &'static str)
    ensures
        r@ == signal_text(*signal),
{
    match signal {
        Signal::Utilization => "utilization",
        Signal::Saturation => "saturation",
        Signal::Rate => "rate",
        Signal::Errors => "errors",
        Signal::Duration => "duration",
        Signal::Raw => "raw",
    }
}

/// The name of a severity, where there is one.
pub fn severity_tag(severity: Option<&LogLevel>) -> (r: Option<&'static str>)
    ensures
        r is Some <==> severity is Some,
        r matches Some(s) ==> severity is Some && s@ == severity_text(*severity->0),
{
    match severity {
        Some(LogLevel::Debug) => Some("debug"),
        Some(LogLevel::Info) => Some("info"),
        Some(LogLevel::Warn) => Some("warn"),
        Some(LogLevel::Error) => Some("error"),
        None => None,
    }
}

/// One observation.
#[derive(Debug)]
pub struct Observation {
    pub ts: i64,
    pub metric_id: String,
    pub kind: TelemetryKind,
    pub signal: Signal,
    pub value: Num,
    pub labels: Vec<(String, String)>,
    pub severity: Option<LogLevel>,
}

/// A row of the table of observations.
#[derive(Debug)]
pub struct ObservationRow {
    pub ts: i64,
    pub metric_id: String,
    pub kind: &'static str,
    pub signal: &'static str,
    pub value: Num,
    /// The labels as a JSON object; nothing where there are none.
    pub labels: Option<String>,
    pub severity: Option<&'static str>,
}

/// Whether a row is that of an observation.
pub open spec fn is_row_of(o: Observation, r: ObservationRow) -> bool {
    &&& r.ts == o.ts
    &&& r.metric_id@ == o.metric_id@
    &&& r.kind@ == kind_text(o.kind)
    &&& r.signal@ == signal_text(o.signal)
    &&& r.value == o.value
    &&& r.labels is None <==> o.labels@.len() == 0
    &&& r.labels matches Some(s) ==> s@ == json_text(string_object(last_values(o.labels@)))
    &&& r.severity is Some <==> o.severity is Some
    &&& r.severity matches Some(s) ==> o.severity is Some && s@ == severity_text(o.severity->0)
}

fn copied(labels: &Vec<(String, String)>) -> (r: Vec<(String, String)>)
    ensures
        last_values(r@) == last_values(labels@),
{
    let mut out: Vec<(String, String)> = Vec::new();
    let mut i: usize = 0;
    while i < labels.len()
        invariant
            i <= labels@.len(),
            last_values(out@) == last_values(labels@.take(i as int)),
        decreases labels@.len() - i,
    {
        let ghost before = out@;
        out.push((labels[i].0.as_str().to_owned(), labels[i].1.as_str().to_owned()));
        proof {
            assert(out@.drop_last() =~= before);
            assert(labels@.take(i + 1).drop_last() =~= labels@.take(i as int));
            assert(labels@.take(i + 1).last() == labels@[i as int]);
        }
        i += 1;
    }
    assert(labels@.take(i as int) =~= labels@);
    out
}

fn row_of(o: &Observation) -> (r: ObservationRow)
    ensures
        is_row_of(*o, r),
{
    let labels: Option<String>;
    if o.labels.len() == 0 {
        labels = None;
    } else {
        let v = object_of(copied(&o.labels));
        labels = Some(value_text(&v));
    }
    let severity = match &o.severity {
        Some(l) => severity_tag(Some(l)),
        None => severity_tag(None),
    };
    ObservationRow {
        ts: o.ts,
        metric_id: o.metric_id.as_str().to_owned(),
        kind: kind_tag(&o.kind),
        signal: signal_tag(&o.signal),
        value: o.value,
        labels,
        severity,
    }
}

/// The names of the columns.
pub fn column_names() -> (r: Vec<&'static str>)
    ensures
        crate::repl::flags::word_texts(r@) == seq![
            "ts"@,
            "metric_id"@,
            "kind"@,
            "signal"@,
            "value"@,
            "labels"@,
            "severity"@,
        ],
{
    let mut v: Vec<&'static str> = Vec::new();
    v.push("ts");
    v.push("metric_id");
    v.push("kind");
    v.push("signal");
    v.push("value");
    v.push("labels");
    v.push("severity");
    assert(crate::repl::flags::word_texts(v@) =~= seq![
        "ts"@,
        "metric_id"@,
        "kind"@,
        "signal"@,
        "value"@,
        "labels"@,
        "severity"@,
    ]);
    v
}

/// The rows of observations, in their order.
pub fn observations_to_rows(observations: &Vec<Observation>) -> (r: Vec<ObservationRow>)
    ensures
        r@.len() == observations@.len(),
        forall|i: int| 0 <= i < r@.len() ==> is_row_of(observations@[i], #[trigger] r@[i]),
{
    let mut out: Vec<ObservationRow> = Vec::new();
    let mut i: usize = 0;
    while i < observations.len()
        invariant
            i <= observations@.len(),
            out@.len() == i,
            forall|k: int| 0 <= k < i ==> is_row_of(observations@[k], #[trigger] out@[k]),
        decreases observations@.len() - i,
    {
        out.push(row_of(&observations[i]));
        i += 1;
    }
    out
}

} // verus!
