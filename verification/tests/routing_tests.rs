use optacore::config::{get_auth_token, IntegratedConfig, WidgetLogConfig};
use optacore::routing::{
    BurnLmRouter, CacheAnchorAnalyzer, RoutingDecision, TokenOptimization, TokenOptimizer,
};

#[test]
fn test_anchor_extraction() {
    let analyzer = CacheAnchorAnalyzer::new();
    let prompt = "In file src/main.rs:\n\n```rust\nfn main() {}\n```\n\nFix the bug";

    let anchors = analyzer.extract_anchors(prompt);
    assert!(!anchors.is_empty());
}

#[test]
fn test_router_creation() {
    let router = BurnLmRouter::new();
    let decision = router.route_prompt("Test prompt for routing");
    assert!(!decision.use_cache);
    assert!(decision.cache_anchors.is_empty());
}

#[test]
fn test_optimization() {
    let optimizer = TokenOptimizer::new();
    let prompt = "This is a test prompt for optimization";

    let result = optimizer.optimize(prompt);
    assert!(!result.split_into_chunks); // Short prompt shouldn't need chunking
}

#[test]
fn anchors_of_a_prompt() {
    let analyzer = CacheAnchorAnalyzer::default();
    let prompt = "In file src/main.rs:\n\n```rust\nfn main() {}\n```\n\nFix the bug";
    let anchors = analyzer.extract_anchors(prompt);
    let got: Vec<(usize, &str, i64, usize)> = anchors
        .iter()
        .map(|a| (a.position, a.content.as_str(), a.priority, a.estimated_tokens))
        .collect();
    assert_eq!(
        got,
        vec![
            (0, "fn main() {}\n", 900_000, 3),
            (1, "In file src/main", 800_000, 4),
        ]
    );
    let with_system = analyzer.extract_anchors("system: be brief. user: hello");
    assert_eq!(with_system.len(), 1);
    assert_eq!(with_system[0].content, "system: be brief. ");
    assert_eq!(with_system[0].priority, 1_000_000);
    assert_eq!(with_system[0].position, 0);
    assert!(analyzer.extract_anchors("nothing to see").is_empty());
}

#[test]
fn sections() {
    assert_eq!(
        CacheAnchorAnalyzer::extract_section("a system b user c user", "system", "user"),
        Some("system b ".to_string())
    );
    // The end is looked for from the start on, so it may stand at the start.
    assert_eq!(CacheAnchorAnalyzer::extract_section("xabab", "ab", "ab"), Some(String::new()));
    assert_eq!(CacheAnchorAnalyzer::extract_section("user system", "system", "user"), None);
    assert_eq!(CacheAnchorAnalyzer::extract_section("no markers", "system", "user"), None);
    assert_eq!(CacheAnchorAnalyzer::extract_section("abc", "", "c"), Some("ab".to_string()));
    assert_eq!(CacheAnchorAnalyzer::extract_section("abc", "b", ""), Some(String::new()));
}

fn blocks_by_std(text: &str) -> Option<String> {
    let mut code_blocks = Vec::new();
    let mut in_code = false;
    let mut current_block = String::new();
    for line in text.lines() {
        if line.starts_with("```") {
            if in_code {
                code_blocks.push(current_block.clone());
                current_block.clear();
            }
            in_code = !in_code;
        } else if in_code {
            current_block.push_str(line);
            current_block.push('\n');
        }
    }
    if code_blocks.is_empty() {
        None
    } else {
        Some(code_blocks.join("\n"))
    }
}

fn context_by_std(text: &str) -> Option<String> {
    let kept: Vec<&str> = text
        .split('.')
        .filter(|s| s.contains("file") || s.contains("src/") || s.contains(".rs"))
        .collect();
    if kept.is_empty() {
        None
    } else {
        Some(kept.join(". "))
    }
}

fn redundancy_by_std(text: &str) -> bool {
    let words: Vec<&str> = text.split_whitespace().collect();
    let unique: std::collections::HashSet<_> = words.iter().collect();
    !words.is_empty() && unique.len() * 10 < words.len() * 6
}

fn token_by_std(content: &str) -> Option<String> {
    for line in content.lines() {
        if line.starts_with("WIDGET_LOG_AUTH_TOKEN=") {
            let token = line.trim_start_matches("WIDGET_LOG_AUTH_TOKEN=").trim();
            if !token.is_empty() {
                return Some(token.to_string());
            }
        }
    }
    None
}

#[test]
fn code_blocks() {
    assert_eq!(
        CacheAnchorAnalyzer::extract_code_blocks("a\n```rust\nx\r\ny\n```\nb\n```\nz\n```"),
        Some("x\ny\n\nz\n".to_string())
    );
    assert_eq!(CacheAnchorAnalyzer::extract_code_blocks("```\nnever closed"), None);
    assert_eq!(CacheAnchorAnalyzer::extract_code_blocks(""), None);
    assert_eq!(CacheAnchorAnalyzer::extract_code_blocks("```\n```"), Some(String::new()));
    // A carriage return is part of the last line if no line feed follows.
    assert_eq!(CacheAnchorAnalyzer::extract_code_blocks("```\nx\r"), None);
    assert_eq!(
        CacheAnchorAnalyzer::extract_code_blocks("```\nx\r\r\n```"),
        Some("x\r\n".to_string())
    );
}

#[test]
fn file_context() {
    assert_eq!(
        CacheAnchorAnalyzer::extract_file_context("Open the file. Then run. See src/lib"),
        Some("Open the file.  See src/lib".to_string())
    );
    assert_eq!(CacheAnchorAnalyzer::extract_file_context("nothing. here."), None);
    // A full stop never stands within a sentence, so `.rs` alone finds none.
    assert_eq!(CacheAnchorAnalyzer::extract_file_context("main.rs"), None);
}

#[test]
fn text_rules_agree_with_std() {
    let pieces = [
        "```", "``", "\n", "\r\n", "\r", ".", " ", "file", "src/", ".rs", "a", "b", "a b", "\t",
        "WIDGET_LOG_AUTH_TOKEN=", "tok", "\u{a0}", "\u{e9}", "x.y", "\n\n", "  ",
    ];
    let mut state: u64 = 0x2545_f491_4f6c_dd1d;
    for _ in 0..3000 {
        let mut text = String::new();
        state = state.wrapping_mul(6364136223846793005).wrapping_add(1442695040888963407);
        let len = (state >> 59) as usize % 12;
        for _ in 0..len {
            state = state.wrapping_mul(6364136223846793005).wrapping_add(1442695040888963407);
            text.push_str(pieces[(state >> 33) as usize % pieces.len()]);
        }
        assert_eq!(CacheAnchorAnalyzer::extract_code_blocks(&text), blocks_by_std(&text), "{:?}", text);
        assert_eq!(CacheAnchorAnalyzer::extract_file_context(&text), context_by_std(&text), "{:?}", text);
        assert_eq!(TokenOptimizer::detect_redundancy(&text), redundancy_by_std(&text), "{:?}", text);
        assert_eq!(get_auth_token(&text), token_by_std(&text), "{:?}", text);
        let start = text.find("a");
        let expected = start.and_then(|s| text[s..].find("b").map(|e| text[s..s + e].to_string()));
        assert_eq!(CacheAnchorAnalyzer::extract_section(&text, "a", "b"), expected, "{:?}", text);
    }
}

#[test]
fn redundancy() {
    assert!(!TokenOptimizer::detect_redundancy(""));
    assert!(!TokenOptimizer::detect_redundancy("   "));
    assert!(!TokenOptimizer::detect_redundancy("one two three"));
    // Three of five words are new: six in ten is not fewer than six in ten.
    assert!(!TokenOptimizer::detect_redundancy("a b c a b"));
    // Two of four are.
    assert!(TokenOptimizer::detect_redundancy("a b a b"));
    assert!(TokenOptimizer::detect_redundancy("go go go"));
}

#[test]
fn optimization_by_length() {
    let optimizer = TokenOptimizer::default();
    assert_eq!(
        optimizer.optimize(&"x".repeat(4000)),
        TokenOptimization { remove_redundancy: false, compress_context: false, split_into_chunks: false }
    );
    assert_eq!(
        optimizer.optimize(&"x ".repeat(2001)),
        TokenOptimization { remove_redundancy: true, compress_context: true, split_into_chunks: false }
    );
    assert_eq!(
        optimizer.optimize(&"x".repeat(8001)),
        TokenOptimization { remove_redundancy: false, compress_context: true, split_into_chunks: true }
    );
    assert_eq!(
        optimizer.plan(true, 8000),
        TokenOptimization { remove_redundancy: true, compress_context: true, split_into_chunks: false }
    );
    assert_eq!(
        TokenOptimization::default(),
        TokenOptimization { remove_redundancy: true, compress_context: false, split_into_chunks: false }
    );
}

#[test]
fn cache_is_asked_for_long_prompts_with_content() {
    let router = BurnLmRouter::default();
    assert!(!router.should_use_cache(&"a".repeat(50)));
    assert!(router.should_use_cache(&"a".repeat(51)));
    assert!(!router.should_use_cache(&"-".repeat(80)));
    assert!(router.should_use_cache(&format!("{}\u{e9}", "-".repeat(80))));
    // Fifty-one bytes in fewer than fifty-one characters.
    assert!(router.should_use_cache(&"\u{e9}".repeat(26)));
    assert!(router.worth_caching(&vec![false, true], 51));
    assert!(!router.worth_caching(&vec![false, true], 50));
    assert!(!router.worth_caching(&vec![false, false], 500));
    let decision = router.route_prompt(&format!("```\ncode\n```\n{}", "why ".repeat(20)));
    assert!(decision.use_cache);
    assert_eq!(decision.cache_anchors.len(), 1);
    assert_eq!(decision.cache_anchors[0].content, "code\n");
    assert!(decision.token_optimization.remove_redundancy);
}

#[test]
fn simple_routing() {
    let decision = RoutingDecision::simple("anything");
    assert!(decision.use_cache);
    assert!(decision.cache_anchors.is_empty());
    assert_eq!(decision.token_optimization, TokenOptimization::default());
}

#[test]
fn auth_token_of_an_environment_file() {
    assert_eq!(
        get_auth_token("ANTHROPIC_API_KEY=\nWIDGET_LOG_AUTH_TOKEN= abc \nWIDGET_LOG_CACHE_DIR=\n"),
        Some("abc".to_string())
    );
    assert_eq!(get_auth_token("WIDGET_LOG_AUTH_TOKEN=\nWIDGET_LOG_AUTH_TOKEN=second"), Some("second".to_string()));
    assert_eq!(
        get_auth_token("WIDGET_LOG_AUTH_TOKEN=WIDGET_LOG_AUTH_TOKEN=twice\r\n"),
        Some("twice".to_string())
    );
    assert_eq!(get_auth_token(" WIDGET_LOG_AUTH_TOKEN=indented"), None);
    assert_eq!(get_auth_token(""), None);
}

#[test]
fn default_settings() {
    let config = WidgetLogConfig::with_dir("/data/widget-log".to_string());
    assert_eq!(config.widget_log_dir, "/data/widget-log");
    assert_eq!(config.proxy_host, "127.0.0.1");
    assert_eq!(config.proxy_port, 8443);
    assert!(config.auto_start);
    let all = IntegratedConfig::with_dir("/data/widget-log".to_string());
    assert_eq!(all.widget_log.widget_log_dir, "/data/widget-log");
    assert_eq!(all.prompt_management.model, "phi-3-mini-q4");
    assert_eq!(all.prompt_management.refinement_threshold, 700_000);
    assert_eq!(all.burn_router.routing_strategy, "auto");
    assert_eq!(all.pyo3_bridge.connection_pool_size, 4);
}
