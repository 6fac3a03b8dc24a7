use optacore::context::{ActiveFile, ProjectInfo, Selection, ZedContext};
use optacore::inference::{action_for, classify_action, MistralRsEngine, PromptAction};
use optacore::refinement::{
    estimate_tokens, should_add_code_snippet, should_add_file_context, ChangeType, PromptChange,
    RefinedPrompt,
};
use optacore::user_interaction::ApprovalResult;

#[test]
fn test_action_classification() {
    assert!(matches!(classify_action("fix this bug"), PromptAction::Debug));
    assert!(matches!(classify_action("add dark mode"), PromptAction::Implement));
    assert!(matches!(classify_action("explain how this works"), PromptAction::Explain));
}

#[test]
fn test_token_estimation() {
    let text = "This is a test"; // 14 chars
    assert_eq!(estimate_tokens(text), 3); // ~3 tokens
}

#[test]
fn classification_goes_by_the_first_group_that_occurs() {
    assert!(matches!(classify_action("REFACTOR the parser"), PromptAction::Refactor));
    assert!(matches!(classify_action("make it faster"), PromptAction::Optimize));
    assert!(matches!(classify_action("Comment the module"), PromptAction::Document));
    // `improve` and `performance` both occur: the refactoring group comes first.
    assert!(matches!(classify_action("improve performance"), PromptAction::Refactor));
    match classify_action("Hello There") {
        PromptAction::Other(text) => assert_eq!(text, "Hello There"),
        other => panic!("unexpected {:?}", other),
    }
}

#[test]
fn classification_reads_the_lower_case_form() {
    // Upper case in `lower` is not folded again: only the caller's lowering counts.
    assert!(matches!(action_for("FIX", "FIX"), PromptAction::Other(_)));
    assert!(matches!(action_for("fix", "FIX"), PromptAction::Debug));
    assert!(matches!(classify_action("FIX"), PromptAction::Debug));
}

#[test]
fn token_estimate_counts_bytes() {
    assert_eq!(estimate_tokens(""), 0);
    assert_eq!(estimate_tokens("abc"), 0);
    assert_eq!(estimate_tokens("abcd"), 1);
    assert_eq!(estimate_tokens("\u{e9}\u{e9}"), 1);
}

#[test]
fn file_context_is_added_unless_a_file_is_named() {
    assert!(should_add_file_context("why does this crash"));
    assert!(!should_add_file_context("look at main.rs"));
    assert!(!should_add_file_context("this file is odd"));
    assert!(!should_add_file_context("under src/ somewhere"));
}

#[test]
fn code_snippet_is_added_for_pointed_questions() {
    assert!(should_add_code_snippet("What does THIS do"));
    assert!(should_add_code_snippet("a bug"));
    assert!(should_add_code_snippet("over here"));
    assert!(!should_add_code_snippet("write a poem"));
}

#[test]
fn context_token_estimate() {
    let empty = ZedContext::default();
    assert_eq!(empty.estimated_tokens(), 0);
    assert!(!empty.is_useful());

    let context = ZedContext::from_zed_workspace(
        Some(ActiveFile { path: "src/main.rs".to_string(), language: None, cursor_line: Some(3) }),
        Some(Selection { content: "fn main() {}".to_string(), start_line: 1, end_line: 1 }),
        Some(ProjectInfo { name: "demo".to_string(), root_path: "/tmp/demo".to_string(), language: None }),
    );
    // 11 / 4 + 5, 12 / 4, 4 / 4 + 5
    assert_eq!(context.estimated_tokens(), 7 + 3 + 6);
    assert!(context.is_useful());
    assert!(context.recent_edits.is_empty());

    let project_only = ZedContext::from_zed_workspace(
        None,
        None,
        Some(ProjectInfo { name: "demo".to_string(), root_path: "/".to_string(), language: None }),
    );
    assert!(!project_only.is_useful());
    assert_eq!(project_only.estimated_tokens(), 6);
}

#[test]
fn final_prompt_follows_the_decision() {
    assert_eq!(ApprovalResult::Accepted.final_prompt("o", "r"), "r");
    assert_eq!(ApprovalResult::Rejected.final_prompt("o", "r"), "o");
    assert_eq!(ApprovalResult::Modified("m".to_string()).final_prompt("o", "r"), "m");
}

#[test]
fn highlights_follow_the_changes() {
    let changes = vec![
        PromptChange { change_type: ChangeType::AddedCodeSnippet, description: "a".to_string(), tokens_added: 3 },
        PromptChange { change_type: ChangeType::ImprovedClarity, description: "b".to_string(), tokens_added: 0 },
        PromptChange { change_type: ChangeType::AddedStructure, description: "c".to_string(), tokens_added: 12 },
    ];
    let prompt = RefinedPrompt {
        original: String::new(),
        refined: String::new(),
        changes,
        quality_score: 0,
        estimated_cache_hit_improvement: 0,
    };
    let highlights = prompt.highlight_changes();
    let got: Vec<(&str, &str, usize)> =
        highlights.iter().map(|h| (h.description.as_str(), h.impact, h.tokens)).collect();
    assert_eq!(got, vec![("a", "High", 3), ("b", "Low", 0), ("c", "Medium", 12)]);
}

#[test]
fn engine_answers_with_the_standing_analysis() {
    let engine = MistralRsEngine { model_path: "/models/phi".to_string() };
    assert_eq!(
        engine.infer("hi", 16),
        "Analyzed prompt: 'hi'\nSuggested improvements:\n1. Add specific context about the code/file\n2. Include expected behavior or error details\n3. Structure request with clear objectives"
    );
}
