//! What a prompt asks for, judged by its words.
use vstd::prelude::*;
use crate::text::{chars_of, contains_str, contains_text, lowercase, lowercased};

verus! {

/// The local inference engine: where its model lies.
pub struct MistralRsEngine {
    /// The model's path as text.
    pub model_path: String,
}

impl MistralRsEngine {
    /// The analysis of a prompt: the prompt in quotes under a heading, and
    /// three standing suggestions.
    pub open spec fn analysis(prompt: Seq<char>) -> Seq<char> {
        "Analyzed prompt: '"@ + prompt
            + "'\nSuggested improvements:\n1. Add specific context about the code/file\n2. Include expected behavior or error details\n3. Structure request with clear objectives"@
    }

    /// Analyses `prompt`.  The answer does not depend on `max_tokens`.
    pub fn infer(&self, prompt: &str, max_tokens: usize) -> (response: String)
        ensures
            response@ == Self::analysis(prompt@),
    {
        let mut response = String::from_str("Analyzed prompt: '");
        response.append(prompt);
        response.append(
            "'\nSuggested improvements:\n1. Add specific context about the code/file\n2. Include expected behavior or error details\n3. Structure request with clear objectives",
        );
        response
    }
}

/// The kind of work that a prompt asks for.
#[derive(Debug, Clone)]
pub enum PromptAction {
    Debug,
    Implement,
    Refactor,
    Explain,
    Optimize,
    Document,
    Other(String),
}

/// Whether one of three words stands in `s`.
pub open spec fn any_of(s: Seq<char>, a: Seq<char>, b: Seq<char>, c: Seq<char>) -> bool {
    contains_text(s, a) || contains_text(s, b) || contains_text(s, c)
}

/// Whether `action` is what a prompt asks for, given the prompt and its
/// lower-case form.  The first group of words that occurs decides; a prompt
/// with none of them is `Other` and carried along as it was written.
pub open spec fn is_action_of(action: PromptAction, lower: Seq<char>, input: Seq<char>) -> bool {
    if any_of(lower, "fix"@, "bug"@, "error"@) {
        action is Debug
    } else if any_of(lower, "add"@, "create"@, "implement"@) {
        action is Implement
    } else if any_of(lower, "refactor"@, "clean"@, "improve"@) {
        action is Refactor
    } else if any_of(lower, "explain"@, "how"@, "what"@) {
        action is Explain
    } else if any_of(lower, "optim"@, "faster"@, "performance"@) {
        action is Optimize
    } else if contains_text(lower, "document"@) || contains_text(lower, "comment"@) {
        action is Document
    } else {
        action matches PromptAction::Other(text) && text@ == input
    }
}

fn has_any(s: &Vec<char>, a: &str, b: &str, c: &str) -> (r: bool)
    ensures
        r == any_of(s@, a@, b@, c@),
{
    contains_str(s, a) || contains_str(s, b) || contains_str(s, c)
}

/// The action for a prompt whose lower-case form is `lower`.
pub fn action_for(lower: &str, input: &str) -> (action: PromptAction)
    ensures
        is_action_of(action, lower@, input@),
{
    let s = chars_of(lower);
    if has_any(&s, "fix", "bug", "error") {
        PromptAction::Debug
    } else if has_any(&s, "add", "create", "implement") {
        PromptAction::Implement
    } else if has_any(&s, "refactor", "clean", "improve") {
        PromptAction::Refactor
    } else if has_any(&s, "explain", "how", "what") {
        PromptAction::Explain
    } else if has_any(&s, "optim", "faster", "performance") {
        PromptAction::Optimize
    } else if contains_str(&s, "document") || contains_str(&s, "comment") {
        PromptAction::Document
    } else {
        PromptAction::Other(input.to_owned())
    }
}

/// The action that a prompt asks for, judged by the words of its lower-case
/// form.
pub fn classify_action(input: &str) -> (action: PromptAction)
    ensures
        is_action_of(action, lowercased(input@), input@),
{
    let lower = lowercase(input);
    action_for(lower.as_str(), input)
}

/// What a prompt asks for and what it leaves out, with the confidence of the
/// judgement in millionths.
#[derive(Debug, Clone)]
pub struct PromptIntent {
    pub primary_action: PromptAction,
    pub missing_context: Vec<String>,
    pub confidence: i64,
}

/// The confidence of every judgement: eighty-five hundredths.
pub const CONFIDENCE: i64 = 850_000;

/// Whether `intent` is the judgement of a prompt, given the prompt and its
/// lower-case form: the action that its words ask for, the two standing
/// gaps, and the standing confidence.
pub open spec fn is_intent_of(intent: PromptIntent, lower: Seq<char>, input: Seq<char>) -> bool {
    &&& is_action_of(intent.primary_action, lower, input)
    &&& intent.missing_context@.len() == 2
    &&& intent.missing_context@[0]@ == "file location"@
    &&& intent.missing_context@[1]@ == "specific error or behavior"@
    &&& intent.confidence == CONFIDENCE
}

/// The judgement of a prompt whose lower-case form is `lower`.
pub fn intent_for(lower: &str, input: &str) -> (intent: PromptIntent)
    ensures
        is_intent_of(intent, lower@, input@),
{
    let mut missing_context: Vec<String> = Vec::new();
    missing_context.push(String::from_str("file location"));
    missing_context.push(String::from_str("specific error or behavior"));
    PromptIntent { primary_action: action_for(lower, input), missing_context, confidence: CONFIDENCE }
}

impl MistralRsEngine {
    /// The judgement of a prompt.
    pub fn analyze_intent(&self, user_input: &str) -> (intent: PromptIntent)
        ensures
            is_intent_of(intent, lowercased(user_input@), user_input@),
    {
        let lower = lowercase(user_input);
        intent_for(lower.as_str(), user_input)
    }
}

} // verus!
