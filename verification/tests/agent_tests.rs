use optacore::agent::{AgentConfig, PromptManagementAgent};
use optacore::context::{ActiveFile, Selection, ZedContext};
use optacore::inference::{intent_for, MistralRsEngine, PromptAction, PromptIntent};
use optacore::proxy::{
    agentic_response, default_env, proxy_request, proxy_response, stats_url,
    token_for, unrefined, wait_step, AgenticResponse, CacheStatus, ProxyResponse, ReplyRecord,
    WaitStep, WidgetLogProcess,
};
use optacore::refinement::{
    add_structure_for_intent, calculate_base_quality, estimate_cache_hit_improvement, ChangeType,
    PromptChange, PromptRefinement,
};
use optacore::routing::{RoutingDecision, TokenOptimization};

fn agent() -> PromptManagementAgent {
    PromptManagementAgent {
        inference_engine: MistralRsEngine { model_path: "/models/phi".to_string() },
        config: AgentConfig::default(),
    }
}

fn context() -> ZedContext {
    ZedContext::from_zed_workspace(
        Some(ActiveFile { path: "crates/app/main.txt".to_string(), language: Some("rust".to_string()), cursor_line: None }),
        Some(Selection { content: "let x = 1;".to_string(), start_line: 1, end_line: 1 }),
        None,
    )
}

#[test]
fn test_base_quality_calculation() {
    let short = "fix bug";
    let detailed = "Fix the null pointer error in src/main.rs line 45 when processing user input";

    assert!(calculate_base_quality(detailed) > calculate_base_quality(short));
}

#[test]
fn base_quality_in_steps() {
    assert_eq!(calculate_base_quality(""), 300_000);
    assert_eq!(calculate_base_quality(&"x".repeat(50)), 300_000);
    assert_eq!(calculate_base_quality(&"x".repeat(51)), 400_000);
    assert_eq!(calculate_base_quality(&"x".repeat(101)), 500_000);
    assert_eq!(calculate_base_quality("```"), 500_000);
    assert_eq!(calculate_base_quality("see lib.rs under src/"), 450_000);
    assert_eq!(calculate_base_quality("the function on that line"), 450_000);
    assert_eq!(
        calculate_base_quality("Fix the null pointer error in src/main.rs line 45 when processing user input"),
        700_000
    );
    let everything = format!("```\nsrc/ error {}", "x".repeat(100));
    assert_eq!(calculate_base_quality(&everything), 1_000_000);
}

#[test]
fn cache_hit_improvement_is_capped() {
    let change = |change_type| PromptChange { change_type, description: String::new(), tokens_added: 0 };
    assert_eq!(estimate_cache_hit_improvement(&vec![]), 0);
    assert_eq!(estimate_cache_hit_improvement(&vec![change(ChangeType::ImprovedClarity)]), 50_000);
    assert_eq!(
        estimate_cache_hit_improvement(&vec![
            change(ChangeType::AddedCodeSnippet),
            change(ChangeType::AddedFileLocation),
            change(ChangeType::AddedContext),
        ]),
        450_000
    );
    assert_eq!(
        estimate_cache_hit_improvement(&vec![
            change(ChangeType::AddedCodeSnippet),
            change(ChangeType::AddedStructure),
            change(ChangeType::AddedExpectedBehavior),
            change(ChangeType::AddedContext),
        ]),
        500_000
    );
}

#[test]
fn structure_follows_the_action() {
    let intent = |primary_action| PromptIntent { primary_action, missing_context: vec![], confidence: 850_000 };
    assert_eq!(
        add_structure_for_intent("t", &intent(PromptAction::Debug)),
        "t\n\nPlease:\n1. Identify the root cause\n2. Suggest a fix\n3. Explain how to prevent this in the future"
    );
    assert_eq!(
        add_structure_for_intent("t", &intent(PromptAction::Implement)),
        "t\n\nPlease:\n1. Design the approach\n2. Implement the feature\n3. Add appropriate error handling"
    );
    assert_eq!(
        add_structure_for_intent("t", &intent(PromptAction::Refactor)),
        "t\n\nPlease:\n1. Analyze current structure\n2. Propose improvements\n3. Implement the refactoring"
    );
    assert_eq!(add_structure_for_intent("t", &intent(PromptAction::Explain)), "t");
    assert_eq!(add_structure_for_intent("t", &intent(PromptAction::Other("t".to_string()))), "t");
}

#[test]
fn intent_of_a_prompt() {
    let engine = MistralRsEngine { model_path: String::new() };
    let intent = engine.analyze_intent("Please FIX it");
    assert!(matches!(intent.primary_action, PromptAction::Debug));
    assert_eq!(intent.missing_context, vec!["file location", "specific error or behavior"]);
    assert_eq!(intent.confidence, 850_000);
    assert!(matches!(intent_for("x", "X").primary_action, PromptAction::Other(_)));
}

#[test]
fn refinement_in_three_steps() {
    let engine = MistralRsEngine { model_path: String::new() };
    let config = AgentConfig::default();
    let all = PromptRefinement::generate("fix this crash", &context(), &engine, &config);
    assert_eq!(
        all.refined_text,
        "In file `crates/app/main.txt`:\n\nfix this crash\n\nRelevant code:\n```rust\nlet x = 1;\n```\n\nPlease:\n1. Identify the root cause\n2. Suggest a fix\n3. Explain how to prevent this in the future"
    );
    let got: Vec<(ChangeType, &str, usize)> =
        all.changes.iter().map(|c| (c.change_type, c.description.as_str(), c.tokens_added)).collect();
    assert_eq!(
        got,
        vec![
            (ChangeType::AddedFileLocation, "Added file context: crates/app/main.txt", 8),
            (ChangeType::AddedCodeSnippet, "Added selected code snippet for context", 12),
            (ChangeType::AddedStructure, "Added structured format for clarity", 12),
        ]
    );
    assert_eq!(all.quality_score, 300_000 + 150_000 + 250_000 + 200_000);

    // A prompt that names a file and points at nothing gets the structure only.
    let some = PromptRefinement::generate("create a file", &context(), &engine, &config);
    assert_eq!(
        some.refined_text,
        "create a file\n\nPlease:\n1. Design the approach\n2. Implement the feature\n3. Add appropriate error handling"
    );
    assert_eq!(some.changes.len(), 1);
    assert_eq!(some.quality_score, 500_000);

    let none = PromptRefinement::generate("what about the file", &ZedContext::default(), &engine, &config);
    assert_eq!(none.refined_text, "what about the file");
    assert!(none.changes.is_empty());
    assert_eq!(none.quality_score, 300_000);

    // An intent of low confidence adds no structure.
    let unsure = PromptIntent { primary_action: PromptAction::Debug, missing_context: vec![], confidence: 700_000 };
    let plain = PromptRefinement::refine("fix it", "fix it", &ZedContext::default(), &unsure);
    assert_eq!(plain.refined_text, "fix it");

    // An empty selection is not added, nor a language that is not known.
    let mut bare = context();
    bare.active_file.as_mut().unwrap().language = None;
    let fenced = PromptRefinement::generate("explain this file", &bare, &engine, &config);
    assert_eq!(fenced.refined_text, "explain this file\n\nRelevant code:\n```\nlet x = 1;\n```");
    bare.selected_text.as_mut().unwrap().content = String::new();
    let empty = PromptRefinement::generate("explain this file", &bare, &engine, &config);
    assert_eq!(empty.refined_text, "explain this file");
}

#[test]
fn quality_is_one_at_most() {
    let engine = MistralRsEngine { model_path: String::new() };
    let config = AgentConfig::default();
    let prompt = format!("```\nfix this error on the line {}", "x".repeat(100));
    let refinement = PromptRefinement::generate(&prompt, &context(), &engine, &config);
    assert_eq!(refinement.changes.len(), 3);
    assert_eq!(refinement.quality_score, 1_000_000);
}

#[test]
fn refined_prompt_of_the_agent() {
    let agent = agent();
    let refined = agent.refine_prompt("fix this crash", &context());
    assert_eq!(refined.original, "fix this crash");
    assert!(refined.refined.starts_with("In file `crates/app/main.txt`:"));
    assert_eq!(refined.changes.len(), 3);
    assert_eq!(refined.quality_score, 900_000);
    assert_eq!(refined.estimated_cache_hit_improvement, 400_000);
    assert!(agent.should_suggest_refinement(700_000));
    assert!(!agent.should_suggest_refinement(699_999));
    let config = AgentConfig::default();
    assert_eq!(config.model_path, "microsoft/Phi-3-mini-4k-instruct-gguf");
    assert_eq!(config.max_context_tokens, 2048);
    assert!(!config.auto_approve_safe_refinements);
}

fn reply() -> ReplyRecord {
    ReplyRecord {
        error: None,
        cache_hit: None,
        response: None,
        latency_ms: None,
        similarity_score: None,
        response_text: None,
        tokens_used: None,
    }
}

#[test]
fn responses_of_the_proxy() {
    let miss = proxy_response(&reply()).unwrap();
    assert!(matches!(miss.cache_status, CacheStatus::Miss));
    assert_eq!((miss.response_text.clone(), miss.tokens_used, miss.latency_ms), (None, 0, 0));

    let hit = proxy_response(&ReplyRecord {
        cache_hit: Some(true),
        response: Some("cached".to_string()),
        latency_ms: Some(12),
        similarity_score: Some(920_000),
        response_text: Some("text".to_string()),
        tokens_used: Some(7),
        ..reply()
    })
    .unwrap();
    match &hit.cache_status {
        CacheStatus::Hit { response, latency_ms, similarity_score } => {
            assert_eq!((response.as_str(), *latency_ms, *similarity_score), ("cached", 12, 920_000));
        }
        CacheStatus::Miss => panic!("a hit was expected"),
    }
    assert_eq!((hit.response_text.clone(), hit.tokens_used, hit.latency_ms), (Some("text".to_string()), 7, 12));

    let bare_hit = proxy_response(&ReplyRecord { cache_hit: Some(true), ..reply() }).unwrap();
    assert!(matches!(&bare_hit.cache_status, CacheStatus::Hit { response, latency_ms: 0, similarity_score: 0 } if response.is_empty()));
    let said_no = proxy_response(&ReplyRecord { cache_hit: Some(false), response: Some("x".to_string()), ..reply() }).unwrap();
    assert!(matches!(said_no.cache_status, CacheStatus::Miss));

    assert_eq!(
        proxy_response(&ReplyRecord { error: Some(Some("boom".to_string())), cache_hit: Some(true), ..reply() }).err(),
        Some("Widget-Log error: boom".to_string())
    );
    assert_eq!(
        proxy_response(&ReplyRecord { error: Some(None), ..reply() }).err(),
        Some("Widget-Log error: Unknown".to_string())
    );
}

#[test]
fn what_the_user_sees() {
    let changed = || {
        let mut prompt = unrefined("ask");
        prompt.refined = "ask better".to_string();
        prompt.changes.push(PromptChange {
            change_type: ChangeType::ImprovedClarity,
            description: "d".to_string(),
            tokens_added: 1,
        });
        prompt
    };
    let plain = unrefined("ask");
    assert_eq!((plain.original.as_str(), plain.refined.as_str()), ("ask", "ask"));
    assert_eq!((plain.quality_score, plain.estimated_cache_hit_improvement), (500_000, 0));

    let hit = ProxyResponse {
        cache_status: CacheStatus::Hit { response: "r".to_string(), latency_ms: 3, similarity_score: 990_000 },
        response_text: Some("ignored".to_string()),
        tokens_used: 9,
        latency_ms: 3,
    };
    assert!(matches!(
        agentic_response(changed(), Some(hit.clone())),
        AgenticResponse::Cached { response, latency_ms: 3, similarity_score: 990_000, refinement_applied: true } if response == "r"
    ));
    assert!(matches!(
        agentic_response(plain.clone(), Some(hit)),
        AgenticResponse::Cached { refinement_applied: false, .. }
    ));
    let fresh = ProxyResponse { cache_status: CacheStatus::Miss, response_text: Some("new".to_string()), tokens_used: 9, latency_ms: 3 };
    assert!(matches!(
        agentic_response(changed(), Some(fresh)),
        AgenticResponse::Fresh { response, tokens_used: 9, refinement_applied: true } if response == "new"
    ));
    let silent = ProxyResponse { cache_status: CacheStatus::Miss, response_text: None, tokens_used: 9, latency_ms: 3 };
    assert!(matches!(
        agentic_response(changed(), Some(silent)),
        AgenticResponse::RefinementOnly { refined_prompt, changes_count: 1 } if refined_prompt == "ask better"
    ));
    assert!(matches!(
        agentic_response(plain, None),
        AgenticResponse::RefinementOnly { refined_prompt, changes_count: 0 } if refined_prompt == "ask"
    ));
}

#[test]
fn request_for_the_proxy() {
    let request = proxy_request("p", RoutingDecision::simple("p"), "key".to_string());
    assert_eq!((request.prompt.as_str(), request.api_key.as_str()), ("p", "key"));
    assert!(request.cache_anchors.is_empty());
    assert_eq!(request.optimization, TokenOptimization::default());
}

#[test]
fn addresses_of_the_proxy() {
    let process = WidgetLogProcess::new(8443, "127.0.0.1".to_string());
    assert_eq!(process.get_proxy_url(), "https://127.0.0.1:8443/v1");
    assert_eq!(WidgetLogProcess::new(0, "localhost".to_string()).health_url(), "https://localhost:0/health");
    assert_eq!(stats_url("h", 65535), "https:/h:65535/stats");
    assert_eq!(
        default_env("tok"),
        "ANTHROPIC_API_KEY=\nWIDGET_LOG_AUTH_TOKEN=tok\nWIDGET_LOG_CACHE_DIR=\n"
    );
}

#[test]
fn waiting_for_the_proxy() {
    assert_eq!(wait_step(0, true), WaitStep::Ready { seconds: 1 });
    assert_eq!(wait_step(29, true), WaitStep::Ready { seconds: 30 });
    assert_eq!(wait_step(0, false), WaitStep::Retry);
    assert_eq!(wait_step(28, false), WaitStep::Retry);
    assert_eq!(wait_step(29, false), WaitStep::GiveUp);
}

#[test]
fn tokens() {
    assert_eq!(token_for(&vec![]), "");
    assert_eq!(token_for(&b"f".to_vec()), "Zg==");
    assert_eq!(token_for(&b"foobar".to_vec()), "Zm9vYmFy");
    assert_eq!(token_for(&vec![0xfb, 0xff]), "+/8=");
    let process = WidgetLogProcess::new(8443, "127.0.0.1".to_string());
    let token = process.generate_auth_token();
    assert_eq!(token.len(), 44);
    assert!(token.ends_with('='));
    assert_ne!(token, process.generate_auth_token());
}
