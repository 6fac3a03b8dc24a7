//! The events that the bridge reports, their names and levels, and the rules
//! by which events are sampled.  Rates and scores count millionths.
use vstd::prelude::*;
use crate::fixed::SCALE;
use crate::model::{last_index_of, opt_text};

verus! {

/// Why the cache had no answer.
#[derive(Debug, Clone)]
pub enum CacheMissReason {
    NoSimilarPrompt,
    SimilarityBelowThreshold,
    CacheEmpty,
    CacheDisabled,
    Error(String),
}

/// The state that a health check found.
#[derive(Debug, Clone, Copy, PartialEq, Eq, Structural)]
pub enum HealthStatus {
    Healthy,
    Degraded,
    Unhealthy,
}

/// An event.  Every event carries the time at which it was made, in
/// milliseconds since the epoch.
#[derive(Debug, Clone)]
pub enum TelemetryEvent {
    PromptStart { prompt_id: String, prompt_length: usize, has_cache_anchors: bool, timestamp: u64 },
    PromptEnd {
        prompt_id: String,
        duration_ms: u64,
        success: bool,
        error_message: Option<String>,
        timestamp: u64,
    },
    CacheHit {
        prompt_id: String,
        similarity_score: i64,
        latency_ms: u64,
        tokens_saved: usize,
        timestamp: u64,
    },
    CacheMiss { prompt_id: String, reason: CacheMissReason, timestamp: u64 },
    ModelInferenceStart { prompt_id: String, model_name: String, prompt_tokens: usize, timestamp: u64 },
    ModelInferenceEnd {
        prompt_id: String,
        duration_ms: u64,
        tokens_generated: usize,
        tokens_per_second: i64,
        timestamp: u64,
    },
    BridgeInitialized { widget_log_path: String, module_cached: bool, duration_ms: u64, timestamp: u64 },
    BridgeError {
        operation: String,
        error_type: String,
        error_message: String,
        prompt_id: Option<String>,
        timestamp: u64,
    },
    BurnRouterDecision {
        prompt_id: String,
        strategy: String,
        cache_anchors_count: usize,
        estimated_tokens: usize,
        timestamp: u64,
    },
    PromptRefinement {
        prompt_id: String,
        original_length: usize,
        refined_length: usize,
        quality_score: i64,
        changes_count: usize,
        timestamp: u64,
    },
    HealthCheck { status: HealthStatus, details: Option<String>, timestamp: u64 },
    CacheStats {
        hit_rate: i64,
        total_hits: u64,
        total_misses: u64,
        total_requests: u64,
        avg_latency_ms: i64,
        cache_size_bytes: u64,
        timestamp: u64,
    },
    /// An event of the caller's own making; `data` holds its fields, each
    /// with its value as text.
    Custom { name: String, data: Vec<(String, String)>, timestamp: u64 },
}

/// The levels of an event.
#[derive(Debug, Clone, Copy, PartialEq, Eq, Structural)]
pub enum Level {
    Error,
    Warn,
    Info,
    Debug,
}

impl TelemetryEvent {
    /// The start of a prompt's processing.
    pub fn prompt_start(prompt_id: String, prompt_length: usize, has_cache_anchors: bool, timestamp: u64) -> (event:
        Self)
        ensures
            event == (TelemetryEvent::PromptStart {
                prompt_id,
                prompt_length,
                has_cache_anchors,
                timestamp,
            }),
    {
        TelemetryEvent::PromptStart { prompt_id, prompt_length, has_cache_anchors, timestamp }
    }

    /// The end of a prompt's processing.
    pub fn prompt_end(
        prompt_id: String,
        duration_ms: u64,
        success: bool,
        error_message: Option<String>,
        timestamp: u64,
    ) -> (event: Self)
        ensures
            event == (TelemetryEvent::PromptEnd {
                prompt_id,
                duration_ms,
                success,
                error_message,
                timestamp,
            }),
    {
        TelemetryEvent::PromptEnd { prompt_id, duration_ms, success, error_message, timestamp }
    }

    /// An answer from the cache.
    pub fn cache_hit(
        prompt_id: String,
        similarity_score: i64,
        latency_ms: u64,
        tokens_saved: usize,
        timestamp: u64,
    ) -> (event: Self)
        ensures
            event == (TelemetryEvent::CacheHit {
                prompt_id,
                similarity_score,
                latency_ms,
                tokens_saved,
                timestamp,
            }),
    {
        TelemetryEvent::CacheHit { prompt_id, similarity_score, latency_ms, tokens_saved, timestamp }
    }

    /// No answer from the cache.
    pub fn cache_miss(prompt_id: String, reason: CacheMissReason, timestamp: u64) -> (event: Self)
        ensures
            event == (TelemetryEvent::CacheMiss { prompt_id, reason, timestamp }),
    {
        TelemetryEvent::CacheMiss { prompt_id, reason, timestamp }
    }

    /// A failure of the bridge.
    pub fn bridge_error(
        operation: String,
        error_type: String,
        error_message: String,
        prompt_id: Option<String>,
        timestamp: u64,
    ) -> (event: Self)
        ensures
            event == (TelemetryEvent::BridgeError {
                operation,
                error_type,
                error_message,
                prompt_id,
                timestamp,
            }),
    {
        TelemetryEvent::BridgeError { operation, error_type, error_message, prompt_id, timestamp }
    }

    /// The bridge is up.
    pub fn bridge_initialized(widget_log_path: String, module_cached: bool, duration_ms: u64, timestamp: u64) -> (event:
        Self)
        ensures
            event == (TelemetryEvent::BridgeInitialized {
                widget_log_path,
                module_cached,
                duration_ms,
                timestamp,
            }),
    {
        TelemetryEvent::BridgeInitialized { widget_log_path, module_cached, duration_ms, timestamp }
    }

    /// The outcome of a health check.
    pub fn health_check(status: HealthStatus, details: Option<String>, timestamp: u64) -> (event: Self)
        ensures
            event == (TelemetryEvent::HealthCheck { status, details, timestamp }),
    {
        TelemetryEvent::HealthCheck { status, details, timestamp }
    }

    /// An event of the caller's own making.
    pub fn custom(name: String, data: Vec<(String, String)>, timestamp: u64) -> (event: Self)
        ensures
            event == (TelemetryEvent::Custom { name, data, timestamp }),
    {
        TelemetryEvent::Custom { name, data, timestamp }
    }

    /// When the event was made.
    pub open spec fn made_at(self) -> u64 {
        match self {
            TelemetryEvent::PromptStart { timestamp, .. } => timestamp,
            TelemetryEvent::PromptEnd { timestamp, .. } => timestamp,
            TelemetryEvent::CacheHit { timestamp, .. } => timestamp,
            TelemetryEvent::CacheMiss { timestamp, .. } => timestamp,
            TelemetryEvent::ModelInferenceStart { timestamp, .. } => timestamp,
            TelemetryEvent::ModelInferenceEnd { timestamp, .. } => timestamp,
            TelemetryEvent::BridgeInitialized { timestamp, .. } => timestamp,
            TelemetryEvent::BridgeError { timestamp, .. } => timestamp,
            TelemetryEvent::BurnRouterDecision { timestamp, .. } => timestamp,
            TelemetryEvent::PromptRefinement { timestamp, .. } => timestamp,
            TelemetryEvent::HealthCheck { timestamp, .. } => timestamp,
            TelemetryEvent::CacheStats { timestamp, .. } => timestamp,
            TelemetryEvent::Custom { timestamp, .. } => timestamp,
        }
    }

    /// When the event was made.
    pub fn timestamp(&self) -> (t: u64)
        ensures
            t == self.made_at(),
    {
        match self {
            TelemetryEvent::PromptStart { timestamp, .. } => *timestamp,
            TelemetryEvent::PromptEnd { timestamp, .. } => *timestamp,
            TelemetryEvent::CacheHit { timestamp, .. } => *timestamp,
            TelemetryEvent::CacheMiss { timestamp, .. } => *timestamp,
            TelemetryEvent::ModelInferenceStart { timestamp, .. } => *timestamp,
            TelemetryEvent::ModelInferenceEnd { timestamp, .. } => *timestamp,
            TelemetryEvent::BridgeInitialized { timestamp, .. } => *timestamp,
            TelemetryEvent::BridgeError { timestamp, .. } => *timestamp,
            TelemetryEvent::BurnRouterDecision { timestamp, .. } => *timestamp,
            TelemetryEvent::PromptRefinement { timestamp, .. } => *timestamp,
            TelemetryEvent::HealthCheck { timestamp, .. } => *timestamp,
            TelemetryEvent::CacheStats { timestamp, .. } => *timestamp,
            TelemetryEvent::Custom { timestamp, .. } => *timestamp,
        }
    }

    /// The prompt that the event is about, if it is about one.
    pub open spec fn about(self) -> Option<Seq<char>> {
        match self {
            TelemetryEvent::PromptStart { prompt_id, .. } => Some(prompt_id@),
            TelemetryEvent::PromptEnd { prompt_id, .. } => Some(prompt_id@),
            TelemetryEvent::CacheHit { prompt_id, .. } => Some(prompt_id@),
            TelemetryEvent::CacheMiss { prompt_id, .. } => Some(prompt_id@),
            TelemetryEvent::ModelInferenceStart { prompt_id, .. } => Some(prompt_id@),
            TelemetryEvent::ModelInferenceEnd { prompt_id, .. } => Some(prompt_id@),
            TelemetryEvent::BurnRouterDecision { prompt_id, .. } => Some(prompt_id@),
            TelemetryEvent::PromptRefinement { prompt_id, .. } => Some(prompt_id@),
            TelemetryEvent::BridgeError { prompt_id, .. } => opt_text(prompt_id),
            _ => None,
        }
    }

    /// The prompt that the event is about, if it is about one.
    pub fn prompt_id(&self) -> (id: Option<&str>)
        ensures
            match id {
                Some(id) => self.about() == Some(id@),
                None => self.about() is None,
            },
    {
        match self {
            TelemetryEvent::PromptStart { prompt_id, .. } => Some(prompt_id.as_str()),
            TelemetryEvent::PromptEnd { prompt_id, .. } => Some(prompt_id.as_str()),
            TelemetryEvent::CacheHit { prompt_id, .. } => Some(prompt_id.as_str()),
            TelemetryEvent::CacheMiss { prompt_id, .. } => Some(prompt_id.as_str()),
            TelemetryEvent::ModelInferenceStart { prompt_id, .. } => Some(prompt_id.as_str()),
            TelemetryEvent::ModelInferenceEnd { prompt_id, .. } => Some(prompt_id.as_str()),
            TelemetryEvent::BurnRouterDecision { prompt_id, .. } => Some(prompt_id.as_str()),
            TelemetryEvent::PromptRefinement { prompt_id, .. } => Some(prompt_id.as_str()),
            TelemetryEvent::BridgeError { prompt_id, .. } => match prompt_id {
                Some(id) => Some(id.as_str()),
                None => None,
            },
            _ => None,
        }
    }

    /// The identifier that ties the event to others: the prompt's.
    pub fn correlation_id(&self) -> (id: Option<&str>)
        ensures
            match id {
                Some(id) => self.about() == Some(id@),
                None => self.about() is None,
            },
    {
        self.prompt_id()
    }

    /// The identifier of the trace that the event belongs to: the prompt's.
    pub fn trace_id(&self) -> (id: Option<&str>)
        ensures
            match id {
                Some(id) => self.about() == Some(id@),
                None => self.about() is None,
            },
    {
        self.prompt_id()
    }

    /// The name of the event's kind.
    pub open spec fn kind(self) -> Seq<char> {
        match self {
            TelemetryEvent::PromptStart { .. } => "prompt_start"@,
            TelemetryEvent::PromptEnd { .. } => "prompt_end"@,
            TelemetryEvent::CacheHit { .. } => "cache_hit"@,
            TelemetryEvent::CacheMiss { .. } => "cache_miss"@,
            TelemetryEvent::ModelInferenceStart { .. } => "model_inference_start"@,
            TelemetryEvent::ModelInferenceEnd { .. } => "model_inference_end"@,
            TelemetryEvent::BridgeInitialized { .. } => "bridge_initialized"@,
            TelemetryEvent::BridgeError { .. } => "bridge_error"@,
            TelemetryEvent::BurnRouterDecision { .. } => "burn_router_decision"@,
            TelemetryEvent::PromptRefinement { .. } => "prompt_refinement"@,
            TelemetryEvent::HealthCheck { .. } => "health_check"@,
            TelemetryEvent::CacheStats { .. } => "cache_stats"@,
            TelemetryEvent::Custom { .. } => "custom"@,
        }
    }

    /// The name of the event's kind.
    pub fn event_name(&self) -> (name: &'static str)
        ensures
            name@ == self.kind(),
    {
        match self {
            TelemetryEvent::PromptStart { .. } => "prompt_start",
            TelemetryEvent::PromptEnd { .. } => "prompt_end",
            TelemetryEvent::CacheHit { .. } => "cache_hit",
            TelemetryEvent::CacheMiss { .. } => "cache_miss",
            TelemetryEvent::ModelInferenceStart { .. } => "model_inference_start",
            TelemetryEvent::ModelInferenceEnd { .. } => "model_inference_end",
            TelemetryEvent::BridgeInitialized { .. } => "bridge_initialized",
            TelemetryEvent::BridgeError { .. } => "bridge_error",
            TelemetryEvent::BurnRouterDecision { .. } => "burn_router_decision",
            TelemetryEvent::PromptRefinement { .. } => "prompt_refinement",
            TelemetryEvent::HealthCheck { .. } => "health_check",
            TelemetryEvent::CacheStats { .. } => "cache_stats",
            TelemetryEvent::Custom { .. } => "custom",
        }
    }

    /// How grave the event is: failures are errors, a degraded health is a
    /// warning, beginnings and cache misses are for debugging, all else is
    /// information.
    pub open spec fn gravity(self) -> Level {
        match self {
            TelemetryEvent::BridgeError { .. } => Level::Error,
            TelemetryEvent::CacheMiss { reason, .. } => if reason is Error {
                Level::Error
            } else {
                Level::Debug
            },
            TelemetryEvent::HealthCheck { status, .. } => match status {
                HealthStatus::Unhealthy => Level::Error,
                HealthStatus::Degraded => Level::Warn,
                HealthStatus::Healthy => Level::Info,
            },
            TelemetryEvent::PromptEnd { success, .. } => if success {
                Level::Info
            } else {
                Level::Error
            },
            TelemetryEvent::PromptStart { .. } => Level::Debug,
            TelemetryEvent::ModelInferenceStart { .. } => Level::Debug,
            TelemetryEvent::BurnRouterDecision { .. } => Level::Debug,
            _ => Level::Info,
        }
    }

    /// How grave the event is.
    pub fn severity(&self) -> (level: Level)
        ensures
            level == self.gravity(),
    {
        match self {
            TelemetryEvent::BridgeError { .. } => Level::Error,
            TelemetryEvent::CacheMiss { reason, .. } => match reason {
                CacheMissReason::Error(_) => Level::Error,
                _ => Level::Debug,
            },
            TelemetryEvent::HealthCheck { status, .. } => match status {
                HealthStatus::Unhealthy => Level::Error,
                HealthStatus::Degraded => Level::Warn,
                HealthStatus::Healthy => Level::Info,
            },
            TelemetryEvent::PromptEnd { success, .. } => if *success {
                Level::Info
            } else {
                Level::Error
            },
            TelemetryEvent::PromptStart { .. } => Level::Debug,
            TelemetryEvent::ModelInferenceStart { .. } => Level::Debug,
            TelemetryEvent::BurnRouterDecision { .. } => Level::Debug,
            _ => Level::Info,
        }
    }

    /// The level of the event, by name.
    pub fn level(&self) -> (name: &'static str)
        ensures
            name@ == level_name(self.gravity()),
    {
        match self.severity() {
            Level::Error => "error",
            Level::Warn => "warn",
            Level::Info => "info",
            Level::Debug => "debug",
        }
    }
}

/// The name of a level.
pub open spec fn level_name(level: Level) -> Seq<char> {
    match level {
        Level::Error => "error"@,
        Level::Warn => "warn"@,
        Level::Info => "info"@,
        Level::Debug => "debug"@,
    }
}

/// Whether an event is sampled at the given rate.  A rate of one or more
/// keeps every event, a rate of zero or less none.  Else errors and warnings
/// are kept; an event about a prompt is kept if the hash of the prompt's
/// identifier is at most the rate's share of the largest hash; an event about
/// no prompt is kept if its time, taken modulo one hundred, is below the rate
/// in hundredths.
pub open spec fn sampled(level: Level, rate: int, hash: Option<u64>, timestamp: u64) -> bool {
    if rate >= SCALE {
        true
    } else if rate <= 0 {
        false
    } else if level == Level::Error || level == Level::Warn {
        true
    } else {
        match hash {
            Some(hash) => hash <= rate * u64::MAX / (SCALE as int),
            None => (timestamp % 100) < rate / 10_000,
        }
    }
}

/// Whether an event of the given level and time is sampled at the given
/// rate, where `hash` is the hash of its prompt's identifier, if it is about
/// a prompt.
pub fn sample_decision(level: Level, rate: i64, hash: Option<u64>, timestamp: u64) -> (keep: bool)
    ensures
        keep == sampled(level, rate as int, hash, timestamp),
{
    if rate >= SCALE {
        return true;
    }
    if rate <= 0 {
        return false;
    }
    match level {
        Level::Error => true,
        Level::Warn => true,
        _ => match hash {
            Some(hash) => {
                let share: u128 = (rate as u128) * (u64::MAX as u128) / 1_000_000;
                (hash as u128) <= share
            },
            None => {
                let hundredths: u64 = (rate / 10_000) as u64;
                timestamp % 100 < hundredths
            },
        },
    }
}

/// `BuildHasher::hash_one` for std's default hasher: the hash of a text.
/// Nothing is said about its value.
#[verifier::external_body]
fn hash_of(text: &str) -> (hash: u64)
{
    std::hash::BuildHasher::hash_one(
        &std::hash::BuildHasherDefault::<std::collections::hash_map::DefaultHasher>::default(),
        text,
    )
}

impl TelemetryEvent {
    /// Whether the event is sampled at the given rate.  An event about a
    /// prompt is judged by the hash of the prompt's identifier, so that all
    /// events about one prompt fare alike.
    pub fn should_sample(&self, sample_rate: i64) -> (keep: bool)
        ensures
            sample_rate >= SCALE ==> keep,
            sample_rate <= 0 ==> !keep,
            0 < sample_rate < SCALE && (self.gravity() == Level::Error || self.gravity()
                == Level::Warn) ==> keep,
            self.about() is None ==> keep == sampled(
                self.gravity(),
                sample_rate as int,
                None,
                self.made_at(),
            ),
            self.about() is Some ==> exists|hash: u64|
                keep == #[trigger] sampled(
                    self.gravity(),
                    sample_rate as int,
                    Some(hash),
                    self.made_at(),
                ),
    {
        let hash: Option<u64> = match self.prompt_id() {
            Some(id) => Some(hash_of(id)),
            None => None,
        };
        let keep = sample_decision(self.severity(), sample_rate, hash, self.timestamp());
        proof {
            if hash is Some {
                assert(keep == sampled(
                    self.gravity(),
                    sample_rate as int,
                    Some(hash->0),
                    self.made_at(),
                ));
            }
        }
        keep
    }
}

/// The settings of the collector.  `event_sampling` holds rates for kinds of
/// events, by name; where a name occurs more than once, its last rate counts.
#[derive(Debug, Clone)]
pub struct TelemetryConfig {
    pub enabled: bool,
    pub batch_size: usize,
    pub max_queue_size: usize,
    pub debug_logging: bool,
    pub sample_rate: i64,
    pub event_sampling: Vec<(String, i64)>,
}

/// The names of the kinds that have a rate of their own, in order.
pub open spec fn sampled_kinds(rates: Seq<(String, i64)>) -> Seq<Seq<char>> {
    Seq::new(rates.len(), |i: int| rates[i].0@)
}

impl TelemetryConfig {
    /// The rate for events of a kind: the kind's own, if it has one, else the
    /// general one.
    pub open spec fn rate_for(self, kind: Seq<char>) -> int {
        match last_index_of(sampled_kinds(self.event_sampling@), kind) {
            Some(i) => self.event_sampling@[i].1 as int,
            None => self.sample_rate as int,
        }
    }

    /// The rate at which events like `event` are sampled.
    pub fn sample_rate_for_event(&self, event: &TelemetryEvent) -> (rate: i64)
        ensures
            rate == self.rate_for(event.kind()),
    {
        let name: String = String::from_str(event.event_name());
        let ghost kinds = sampled_kinds(self.event_sampling@);
        let mut i: usize = self.event_sampling.len();
        assert(kinds.take(i as int) =~= kinds);
        while i > 0
            invariant
                i <= self.event_sampling.len(),
                kinds == sampled_kinds(self.event_sampling@),
                name@ == event.kind(),
                last_index_of(kinds.take(i as int), name@) == last_index_of(kinds, name@),
            decreases i,
        {
            i = i - 1;
            assert(kinds.take(i + 1).drop_last() =~= kinds.take(i as int));
            if self.event_sampling[i].0 == name {
                return self.event_sampling[i].1;
            }
        }
        self.sample_rate
    }

    /// Whether an event is collected: collection is enabled and the event is
    /// sampled at the rate for its kind.
    pub fn should_collect(&self, event: &TelemetryEvent) -> (collect: bool)
        ensures
            !self.enabled ==> !collect,
            self.enabled && self.rate_for(event.kind()) >= SCALE ==> collect,
            self.enabled && self.rate_for(event.kind()) <= 0 ==> !collect,
            self.enabled && 0 < self.rate_for(event.kind()) < SCALE && (event.gravity()
                == Level::Error || event.gravity() == Level::Warn) ==> collect,
            self.enabled && event.about() is None ==> collect == sampled(
                event.gravity(),
                self.rate_for(event.kind()),
                None,
                event.made_at(),
            ),
    {
        if !self.enabled {
            return false;
        }
        let rate = self.sample_rate_for_event(event);
        event.should_sample(rate)
    }
}

impl Default for TelemetryConfig {
    /// Collection is enabled, in batches of ten and with a thousand events
    /// queued at most; all events are kept but for a tenth of the prompt
    /// starts, half of the cache misses and a fifth of the router's
    /// decisions.
    fn default() -> (config: Self)
        ensures
            config.enabled,
            config.batch_size == 10,
            config.max_queue_size == 1000,
            !config.debug_logging,
            config.sample_rate == SCALE,
            config.event_sampling@.len() == 3,
            config.event_sampling@[0].0@ == "prompt_start"@ && config.event_sampling@[0].1 == 100_000,
            config.event_sampling@[1].0@ == "cache_miss"@ && config.event_sampling@[1].1 == 500_000,
            config.event_sampling@[2].0@ == "burn_router_decision"@ && config.event_sampling@[2].1
                == 200_000,
    {
        let mut event_sampling: Vec<(String, i64)> = Vec::new();
        event_sampling.push((String::from_str("prompt_start"), 100_000));
        event_sampling.push((String::from_str("cache_miss"), 500_000));
        event_sampling.push((String::from_str("burn_router_decision"), 200_000));
        Self {
            enabled: true,
            batch_size: 10,
            max_queue_size: 1000,
            debug_logging: false,
            sample_rate: SCALE,
            event_sampling,
        }
    }
}

} // verus!
