//! The log of a session of the engine: what is recorded about layouts and
//! detected patterns, and when a record is made at all.  Writing the records
//! out is left to the caller.
use vstd::prelude::*;
use crate::anti_patterns::{detect_anti_patterns, pattern_views, patterns_of, texts, AntiPattern, AntiPatternConfig, PatternView};
use crate::error::OptaError;
use crate::model::OptaModel;

verus! {

/// A record of the log.  The payload is a document of its own, as text.
#[derive(Debug, Clone)]
pub struct TelemetryEvent {
    /// Seconds since the epoch.
    pub timestamp: u64,
    pub session_id: String,
    pub event_type: String,
    pub payload: String,
}

impl TelemetryEvent {
    /// A record made at `timestamp`.
    pub fn new(session_id: String, event_type: String, payload: String, timestamp: u64) -> (event:
        Self)
        ensures
            event == (TelemetryEvent { timestamp, session_id, event_type, payload }),
    {
        Self { timestamp, session_id, event_type, payload }
    }
}

/// What is recorded when a layout has run.  The temperature counts
/// millionths.
#[derive(Debug, Clone)]
pub struct LayoutConvergedPayload {
    pub iterations: usize,
    pub final_temperature: i64,
    pub duration_ms: u64,
    pub node_count: usize,
    pub edge_count: usize,
}

/// What is recorded about a detected pattern.  The severity counts
/// millionths.
#[derive(Debug, Clone)]
pub struct PatternDetectedPayload {
    pub pattern_type: String,
    pub severity: i64,
    pub node_ids: Vec<String>,
}

/// What is recorded about the quality of a layout.  Penalty and score count
/// millionths.
#[derive(Debug, Clone)]
pub struct LayoutQualityPayload {
    pub graph_hash: String,
    pub edge_crossings: usize,
    pub overlap_penalty: i64,
    pub quality_score: i64,
}

/// The log of one session.  It records nothing until it is enabled.
#[derive(Debug, Clone)]
pub struct TelemetryLogger {
    pub session_id: String,
    pub enabled: bool,
}

/// `uuid::Uuid::new_v4`, written out as text: a fresh random identifier.
/// Nothing is said about its value.
#[verifier::external_body]
fn new_session_id() -> (id: String)
{
    uuid::Uuid::new_v4().to_string()
}

impl TelemetryLogger {
    /// The log of the session `session_id`, disabled.
    pub fn new(session_id: String) -> (logger: Self)
        ensures
            logger.session_id == session_id,
            !logger.enabled,
    {
        Self { session_id, enabled: false }
    }

    /// Lets the log record.
    pub fn enable(&mut self)
        ensures
            final(self).enabled,
            final(self).session_id == old(self).session_id,
    {
        self.enabled = true;
    }

    /// Stops the log from recording.
    pub fn disable(&mut self)
        ensures
            !final(self).enabled,
            final(self).session_id == old(self).session_id,
    {
        self.enabled = false;
    }

    /// Whether the log records.
    pub fn is_enabled(&self) -> (enabled: bool)
        ensures
            enabled == self.enabled,
    {
        self.enabled
    }

    /// The record to write for an event at `timestamp`: none while the log
    /// is disabled.
    pub fn log_event(&self, event_type: String, payload: String, timestamp: u64) -> (record: Option<
        TelemetryEvent,
    >)
        ensures
            !self.enabled ==> record is None,
            self.enabled ==> record is Some && record->0.timestamp == timestamp
                && record->0.session_id@ == self.session_id@ && record->0.event_type == event_type
                && record->0.payload == payload,
    {
        if !self.enabled {
            return None;
        }
        Some(TelemetryEvent::new(self.session_id.clone(), event_type, payload, timestamp))
    }
}

impl Default for TelemetryLogger {
    /// The log of a session with a fresh random identifier, disabled.
    fn default() -> (logger: Self)
        ensures
            !logger.enabled,
    {
        Self::new(new_session_id())
    }
}

/// What is recorded about a pattern, as mathematical values.
pub struct PayloadView {
    pub pattern_type: Seq<char>,
    pub severity: int,
    pub node_ids: Seq<Seq<char>>,
}

impl View for PatternDetectedPayload {
    type V = PayloadView;

    open spec fn view(&self) -> PayloadView {
        PayloadView {
            pattern_type: self.pattern_type@,
            severity: self.severity as int,
            node_ids: texts(self.node_ids@),
        }
    }
}

/// What is recorded about a pattern: its kind, its severity (one for a
/// cycle, one half for an isolated node, else its own) and the nodes that it
/// touches.
pub open spec fn payload_of(pattern: PatternView) -> PayloadView {
    match pattern {
        PatternView::Cycle { nodes } => PayloadView {
            pattern_type: "cycle"@,
            severity: 1_000_000,
            node_ids: nodes,
        },
        PatternView::Bottleneck { node_id, severity, .. } => PayloadView {
            pattern_type: "bottleneck"@,
            severity,
            node_ids: seq![node_id],
        },
        PatternView::IsolatedComponent { node_id } => PayloadView {
            pattern_type: "isolated"@,
            severity: 500_000,
            node_ids: seq![node_id],
        },
        PatternView::OverCoupling { node_id, severity, .. } => PayloadView {
            pattern_type: "over_coupling"@,
            severity,
            node_ids: seq![node_id],
        },
    }
}

fn copy_texts(list: &Vec<String>) -> (copy: Vec<String>)
    ensures
        texts(copy@) == texts(list@),
{
    let mut copy: Vec<String> = Vec::new();
    let mut i: usize = 0;
    while i < list.len()
        invariant
            i <= list.len(),
            texts(copy@) == texts(list@).take(i as int),
        decreases list.len() - i,
    {
        let ghost prior = texts(copy@);
        copy.push(list[i].clone());
        assert(texts(copy@) =~= prior.push(list[i as int]@));
        assert(texts(copy@) =~= texts(list@).take(i + 1));
        i = i + 1;
    }
    assert(texts(list@).take(i as int) =~= texts(list@));
    copy
}

fn one_text(id: &String) -> (list: Vec<String>)
    ensures
        texts(list@) == seq![id@],
{
    let mut list: Vec<String> = Vec::new();
    list.push(id.clone());
    assert(texts(list@) =~= seq![id@]);
    list
}

/// What is recorded about a pattern.
pub fn pattern_payload(pattern: &AntiPattern) -> (payload: PatternDetectedPayload)
    ensures
        payload@ == payload_of(pattern@),
{
    match pattern {
        AntiPattern::Cycle { nodes } => PatternDetectedPayload {
            pattern_type: String::from_str("cycle"),
            severity: 1_000_000,
            node_ids: copy_texts(nodes),
        },
        AntiPattern::Bottleneck { node_id, severity, .. } => PatternDetectedPayload {
            pattern_type: String::from_str("bottleneck"),
            severity: *severity,
            node_ids: one_text(node_id),
        },
        AntiPattern::IsolatedComponent { node_id } => PatternDetectedPayload {
            pattern_type: String::from_str("isolated"),
            severity: 500_000,
            node_ids: one_text(node_id),
        },
        AntiPattern::OverCoupling { node_id, severity, .. } => PatternDetectedPayload {
            pattern_type: String::from_str("over_coupling"),
            severity: *severity,
            node_ids: one_text(node_id),
        },
    }
}

/// The views of a sequence of payloads.
pub open spec fn payload_views(payloads: Seq<PatternDetectedPayload>) -> Seq<PayloadView> {
    Seq::new(payloads.len(), |i: int| payloads[i]@)
}

/// What a log records about the given patterns: one payload for each, in
/// order, if there is a log and it is enabled; else nothing.
pub open spec fn recorded(patterns: Seq<PatternView>, logger: Option<&TelemetryLogger>) -> Seq<
    PayloadView,
> {
    match logger {
        Some(logger) => if logger.enabled {
            Seq::new(patterns.len(), |i: int| payload_of(patterns[i]))
        } else {
            Seq::empty()
        },
        None => Seq::empty(),
    }
}

/// Looks for anti-patterns in the model's graph, and says what the log is to
/// record about them.
pub fn detect_anti_patterns_with_telemetry(
    model: &OptaModel,
    config: &AntiPatternConfig,
    logger: Option<&TelemetryLogger>,
) -> (r: Result<(Vec<AntiPattern>, Vec<PatternDetectedPayload>), OptaError>)
    ensures
        r is Ok,
        pattern_views(r->Ok_0.0@) == patterns_of(model@, *config),
        payload_views(r->Ok_0.1@) == recorded(patterns_of(model@, *config), logger),
{
    let patterns: Vec<AntiPattern> = match detect_anti_patterns(model, config) {
        Ok(patterns) => patterns,
        Err(error) => {
            return Err(error);
        },
    };
    let mut payloads: Vec<PatternDetectedPayload> = Vec::new();
    let recording: bool = match logger {
        Some(logger) => logger.is_enabled(),
        None => false,
    };
    if recording {
        let ghost views = pattern_views(patterns@);
        let mut i: usize = 0;
        while i < patterns.len()
            invariant
                i <= patterns.len(),
                views == pattern_views(patterns@),
                payloads.len() == i,
                forall|a: int| 0 <= a < i ==> (#[trigger] payloads[a])@ == payload_of(views[a]),
            decreases patterns.len() - i,
        {
            payloads.push(pattern_payload(&patterns[i]));
            i = i + 1;
        }
    }
    assert(payload_views(payloads@) =~= recorded(patterns_of(model@, *config), logger));
    Ok((patterns, payloads))
}

} // verus!
