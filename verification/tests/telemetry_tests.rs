use optacore::anti_patterns::{AntiPattern, AntiPatternConfig};
use optacore::model::{NodeType, OptaEdge, OptaModel, OptaNode};
use optacore::session_log::{
    detect_anti_patterns_with_telemetry, pattern_payload, TelemetryLogger,
};
use optacore::telemetry::{
    sample_decision, CacheMissReason, HealthStatus, Level, TelemetryConfig, TelemetryEvent,
};

#[test]
fn test_telemetry_event_creation() {
    let event = TelemetryEvent::prompt_start("test-123".to_string(), 100, true, 0);
    assert_eq!(event.event_name(), "prompt_start");
    assert_eq!(event.prompt_id(), Some("test-123"));
    assert_eq!(event.level(), "debug");
}

#[test]
fn test_severity_levels() {
    let error = TelemetryEvent::bridge_error(
        "test_op".to_string(),
        "TestError".to_string(),
        "test message".to_string(),
        None,
        0,
    );
    assert_eq!(error.level(), "error");

    let healthy = TelemetryEvent::health_check(HealthStatus::Healthy, None, 0);
    assert_eq!(healthy.level(), "info");

    let degraded = TelemetryEvent::health_check(HealthStatus::Degraded, None, 0);
    assert_eq!(degraded.level(), "warn");
}

#[test]
fn test_correlation_ids() {
    let event = TelemetryEvent::prompt_start("trace-123".to_string(), 100, true, 0);
    assert_eq!(event.correlation_id(), Some("trace-123"));
    assert_eq!(event.trace_id(), Some("trace-123"));
}

#[test]
fn test_sampling() {
    let event = TelemetryEvent::prompt_start("test-sample".to_string(), 100, false, 0);

    assert!(event.should_sample(1_000_000));
    assert!(!event.should_sample(0));

    let error = TelemetryEvent::bridge_error(
        "test".to_string(),
        "error".to_string(),
        "message".to_string(),
        None,
        0,
    );
    assert!(error.should_sample(10_000));
}

#[test]
fn test_config_per_event_sampling() {
    let config = TelemetryConfig::default();
    let start_event = TelemetryEvent::prompt_start("test".to_string(), 100, false, 0);
    let error_event =
        TelemetryEvent::bridge_error("op".to_string(), "type".to_string(), "msg".to_string(), None, 0);

    assert_eq!(config.sample_rate_for_event(&start_event), 100_000);
    assert_eq!(config.sample_rate_for_event(&error_event), 1_000_000);
}

#[test]
fn test_telemetry_disabled_by_default() {
    let logger = TelemetryLogger::default();
    assert!(!logger.is_enabled());
}

#[test]
fn test_telemetry_enable_disable() {
    let mut logger = TelemetryLogger::default();
    logger.enable();
    assert!(logger.is_enabled());
    logger.disable();
    assert!(!logger.is_enabled());
}

#[test]
fn levels_names_and_times() {
    let events = vec![
        (TelemetryEvent::prompt_end("p".to_string(), 5, true, None, 11), "prompt_end", "info"),
        (TelemetryEvent::prompt_end("p".to_string(), 5, false, Some("x".to_string()), 11), "prompt_end", "error"),
        (TelemetryEvent::cache_hit("p".to_string(), 920_000, 50, 1000, 11), "cache_hit", "info"),
        (TelemetryEvent::cache_miss("p".to_string(), CacheMissReason::CacheEmpty, 11), "cache_miss", "debug"),
        (TelemetryEvent::cache_miss("p".to_string(), CacheMissReason::Error("e".to_string()), 11), "cache_miss", "error"),
        (TelemetryEvent::bridge_initialized("/w".to_string(), true, 7, 11), "bridge_initialized", "info"),
        (TelemetryEvent::health_check(HealthStatus::Unhealthy, None, 11), "health_check", "error"),
        (TelemetryEvent::custom("mine".to_string(), vec![("k".to_string(), "1".to_string())], 11), "custom", "info"),
        (
            TelemetryEvent::ModelInferenceStart { prompt_id: "p".to_string(), model_name: "m".to_string(), prompt_tokens: 1, timestamp: 11 },
            "model_inference_start",
            "debug",
        ),
        (
            TelemetryEvent::ModelInferenceEnd { prompt_id: "p".to_string(), duration_ms: 1, tokens_generated: 1, tokens_per_second: 1, timestamp: 11 },
            "model_inference_end",
            "info",
        ),
        (
            TelemetryEvent::BurnRouterDecision { prompt_id: "p".to_string(), strategy: "s".to_string(), cache_anchors_count: 0, estimated_tokens: 0, timestamp: 11 },
            "burn_router_decision",
            "debug",
        ),
        (
            TelemetryEvent::PromptRefinement { prompt_id: "p".to_string(), original_length: 1, refined_length: 2, quality_score: 3, changes_count: 4, timestamp: 11 },
            "prompt_refinement",
            "info",
        ),
        (
            TelemetryEvent::CacheStats { hit_rate: 1, total_hits: 1, total_misses: 1, total_requests: 2, avg_latency_ms: 1, cache_size_bytes: 1, timestamp: 11 },
            "cache_stats",
            "info",
        ),
    ];
    for (event, name, level) in &events {
        assert_eq!(event.event_name(), *name);
        assert_eq!(event.level(), *level);
        assert_eq!(event.timestamp(), 11);
    }
    assert_eq!(events[5].0.prompt_id(), None);
    assert_eq!(events[6].0.prompt_id(), None);
    assert_eq!(events[7].0.prompt_id(), None);
    assert_eq!(events[12].0.prompt_id(), None);
    assert_eq!(events[11].0.prompt_id(), Some("p"));
    let about = TelemetryEvent::bridge_error("o".to_string(), "t".to_string(), "m".to_string(), Some("about-this".to_string()), 1);
    assert_eq!(about.prompt_id(), Some("about-this"));
    assert_eq!(events[0].0.severity(), Level::Info);
}

#[test]
fn sampling_rules() {
    // The rate's share of the largest hash.
    assert!(sample_decision(Level::Info, 500_000, Some(u64::MAX / 2), 0));
    assert!(!sample_decision(Level::Info, 500_000, Some(u64::MAX / 2 + 1), 0));
    assert!(sample_decision(Level::Debug, 1, Some(18_446_744_073_709), 0));
    assert!(!sample_decision(Level::Debug, 1, Some(18_446_744_073_710), 0));
    // Without a prompt the time decides, in hundredths.
    assert!(sample_decision(Level::Info, 250_000, None, 1_024));
    assert!(!sample_decision(Level::Info, 250_000, None, 1_025));
    assert!(!sample_decision(Level::Info, 9_999, None, 100));
    // Errors and warnings are kept at every rate above zero.
    assert!(sample_decision(Level::Error, 1, Some(u64::MAX), 99));
    assert!(sample_decision(Level::Warn, 1, None, 99));
    assert!(!sample_decision(Level::Error, 0, Some(0), 0));
    assert!(!sample_decision(Level::Info, -5, Some(0), 0));
    assert!(sample_decision(Level::Debug, 1_000_000, Some(u64::MAX), 99));
    // Events about one prompt fare alike.
    let a = TelemetryEvent::prompt_start("same".to_string(), 1, true, 3);
    let b = TelemetryEvent::cache_hit("same".to_string(), 1, 2, 3, 77);
    for rate in [1i64, 10_000, 300_000, 500_000, 999_999] {
        assert_eq!(a.should_sample(rate), b.should_sample(rate));
    }
    let timed = TelemetryEvent::bridge_initialized("/w".to_string(), false, 1, 1_024);
    assert!(timed.should_sample(250_000));
    assert!(!timed.should_sample(240_000));
}

#[test]
fn collection() {
    let mut config = TelemetryConfig::default();
    assert!(config.enabled);
    assert_eq!(config.batch_size, 10);
    assert_eq!(config.max_queue_size, 1000);
    assert!(!config.debug_logging);
    assert_eq!(config.sample_rate, 1_000_000);
    let miss = TelemetryEvent::cache_miss("p".to_string(), CacheMissReason::NoSimilarPrompt, 0);
    let router = TelemetryEvent::BurnRouterDecision { prompt_id: "p".to_string(), strategy: "s".to_string(), cache_anchors_count: 0, estimated_tokens: 0, timestamp: 0 };
    let health = TelemetryEvent::health_check(HealthStatus::Healthy, None, 5);
    assert_eq!(config.sample_rate_for_event(&miss), 500_000);
    assert_eq!(config.sample_rate_for_event(&router), 200_000);
    assert!(config.should_collect(&health));
    // The last rate for a name counts.
    config.event_sampling.push(("cache_miss".to_string(), 0));
    assert_eq!(config.sample_rate_for_event(&miss), 0);
    assert!(!config.should_collect(&miss));
    config.enabled = false;
    assert!(!config.should_collect(&health));
}

#[test]
fn session_log_records_only_when_enabled() {
    let mut logger = TelemetryLogger::new("session-1".to_string());
    assert!(logger.log_event("layout.converged".to_string(), "{}".to_string(), 9).is_none());
    logger.enable();
    let record = logger.log_event("layout.converged".to_string(), "{\"a\":1}".to_string(), 9).unwrap();
    assert_eq!(record.timestamp, 9);
    assert_eq!(record.session_id, "session-1");
    assert_eq!(record.event_type, "layout.converged");
    assert_eq!(record.payload, "{\"a\":1}");
    let other = TelemetryLogger::default();
    assert_ne!(other.session_id, TelemetryLogger::default().session_id);
    assert_eq!(other.session_id.len(), 36);
}

#[test]
fn payloads_of_patterns() {
    let cycle = pattern_payload(&AntiPattern::Cycle { nodes: vec!["a".to_string(), "b".to_string()] });
    assert_eq!((cycle.pattern_type.as_str(), cycle.severity), ("cycle", 1_000_000));
    assert_eq!(cycle.node_ids, vec!["a", "b"]);
    let hub = pattern_payload(&AntiPattern::Bottleneck { node_id: "h".to_string(), in_degree: 5, severity: 1_250_000 });
    assert_eq!((hub.pattern_type.as_str(), hub.severity), ("bottleneck", 1_250_000));
    assert_eq!(hub.node_ids, vec!["h"]);
    let lone = pattern_payload(&AntiPattern::IsolatedComponent { node_id: "l".to_string() });
    assert_eq!((lone.pattern_type.as_str(), lone.severity), ("isolated", 500_000));
    let god = pattern_payload(&AntiPattern::OverCoupling { node_id: "g".to_string(), out_degree: 7, severity: 1_000_000 });
    assert_eq!((god.pattern_type.as_str(), god.severity), ("over_coupling", 1_000_000));
    assert_eq!(god.node_ids, vec!["g"]);
}

#[test]
fn detection_with_a_log() {
    let mut model = OptaModel::new();
    model.add_node(OptaNode::new("a".to_string(), "A".to_string(), NodeType::System));
    model.add_node(OptaNode::new("b".to_string(), "B".to_string(), NodeType::System));
    model.add_edge(OptaEdge::new("a".to_string(), "a".to_string()));
    let config = AntiPatternConfig::default();
    let (patterns, payloads) = detect_anti_patterns_with_telemetry(&model, &config, None).unwrap();
    assert_eq!(patterns.len(), 2);
    assert!(payloads.is_empty());
    let mut logger = TelemetryLogger::new("s".to_string());
    let (_, payloads) = detect_anti_patterns_with_telemetry(&model, &config, Some(&logger)).unwrap();
    assert!(payloads.is_empty());
    logger.enable();
    let (patterns, payloads) = detect_anti_patterns_with_telemetry(&model, &config, Some(&logger)).unwrap();
    assert_eq!(
        patterns,
        vec![
            AntiPattern::Cycle { nodes: vec!["a".to_string()] },
            AntiPattern::IsolatedComponent { node_id: "b".to_string() },
        ]
    );
    let got: Vec<(&str, i64, Vec<String>)> =
        payloads.iter().map(|p| (p.pattern_type.as_str(), p.severity, p.node_ids.clone())).collect();
    assert_eq!(
        got,
        vec![("cycle", 1_000_000, vec!["a".to_string()]), ("isolated", 500_000, vec!["b".to_string()])]
    );
}
