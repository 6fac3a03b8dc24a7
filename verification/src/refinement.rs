//! The changes that a refinement makes to a prompt, and the rules that
//! decide which context to add.
use vstd::prelude::*;
use crate::context::{token_cost, ZedContext};
use crate::agent::AgentConfig;
use crate::inference::{is_intent_of, MistralRsEngine, PromptAction, PromptIntent};
use crate::text::{chars_of, contains_str, contains_text, lowercase, lowercased};

verus! {

/// The kind of a change.
#[derive(Debug, Clone, Copy, PartialEq, Eq, Structural)]
pub enum ChangeType {
    AddedContext,
    AddedStructure,
    AddedCodeSnippet,
    AddedFileLocation,
    AddedExpectedBehavior,
    ImprovedClarity,
}

/// One change made to a prompt.
#[derive(Debug, Clone)]
pub struct PromptChange {
    pub change_type: ChangeType,
    pub description: String,
    pub tokens_added: usize,
}

/// A change as it is shown to the user.
#[derive(Debug, Clone)]
pub struct ChangeHighlight {
    pub description: String,
    pub impact: &'static str,
    pub tokens: usize,
}

/// How much a change of the given kind matters.
pub open spec fn impact_of(change_type: ChangeType) -> Seq<char> {
    match change_type {
        ChangeType::AddedCodeSnippet => "High"@,
        ChangeType::AddedFileLocation => "Medium"@,
        ChangeType::AddedContext => "Medium"@,
        ChangeType::AddedStructure => "Medium"@,
        ChangeType::AddedExpectedBehavior => "High"@,
        ChangeType::ImprovedClarity => "Low"@,
    }
}

/// Whether a prompt leaves the file unnamed: it mentions neither `.rs`, nor
/// `file`, nor `src/`.
pub open spec fn lacks_file_context(input: Seq<char>) -> bool {
    !contains_text(input, ".rs"@) && !contains_text(input, "file"@) && !contains_text(
        input,
        "src/"@,
    )
}

/// Whether the file's location should be added to the prompt.
pub fn should_add_file_context(input: &str) -> (r: bool)
    ensures
        r == lacks_file_context(input@),
{
    let s = chars_of(input);
    !contains_str(&s, ".rs") && !contains_str(&s, "file") && !contains_str(&s, "src/")
}

/// Whether a text in lower case points at something specific: it holds
/// `this`, `here`, `fix` or `bug`.
pub open spec fn points_at_code(lower: Seq<char>) -> bool {
    contains_text(lower, "this"@) || contains_text(lower, "here"@) || contains_text(lower, "fix"@)
        || contains_text(lower, "bug"@)
}

/// Whether the selected code should be added to a prompt whose lower-case
/// form is `lower`.
pub fn snippet_wanted(lower: &str) -> (r: bool)
    ensures
        r == points_at_code(lower@),
{
    let s = chars_of(lower);
    contains_str(&s, "this") || contains_str(&s, "here") || contains_str(&s, "fix") || contains_str(
        &s,
        "bug",
    )
}

/// Whether the selected code should be added to the prompt.
pub fn should_add_code_snippet(input: &str) -> (r: bool)
    ensures
        r == points_at_code(lowercased(input@)),
{
    let lower = lowercase(input);
    snippet_wanted(lower.as_str())
}

/// An estimate of the tokens in a text: a quarter of its length in bytes.
pub fn estimate_tokens(text: &str) -> (tokens: usize)
    ensures
        tokens == token_cost(text@),
{
    text.as_bytes().len() / 4
}

/// A change as mathematical values.
pub struct ChangeView {
    pub change_type: ChangeType,
    pub description: Seq<char>,
    pub tokens_added: nat,
}

impl View for PromptChange {
    type V = ChangeView;

    open spec fn view(&self) -> ChangeView {
        ChangeView {
            change_type: self.change_type,
            description: self.description@,
            tokens_added: self.tokens_added as nat,
        }
    }
}

/// The views of a sequence of changes.
pub open spec fn change_views(changes: Seq<PromptChange>) -> Seq<ChangeView> {
    Seq::new(changes.len(), |i: int| changes[i]@)
}

/// A refinement in the making: the text, the changes made to it, and its
/// quality in millionths.
#[derive(Debug, Clone)]
pub struct PromptRefinement {
    pub refined_text: String,
    pub changes: Vec<PromptChange>,
    pub quality_score: i64,
}

/// A refinement as mathematical values.
pub struct RefinementView {
    pub text: Seq<char>,
    pub changes: Seq<ChangeView>,
    pub quality: int,
}

impl View for PromptRefinement {
    type V = RefinementView;

    open spec fn view(&self) -> RefinementView {
        RefinementView {
            text: self.refined_text@,
            changes: change_views(self.changes@),
            quality: self.quality_score as int,
        }
    }
}

/// A refined prompt beside the prompt as it was written.  Scores count
/// millionths.
#[derive(Debug, Clone)]
pub struct RefinedPrompt {
    pub original: String,
    pub refined: String,
    pub changes: Vec<PromptChange>,
    pub quality_score: i64,
    pub estimated_cache_hit_improvement: i64,
}

impl RefinedPrompt {
    /// The changes as they are shown to the user: one highlight per change, in
    /// order, with the change's description and tokens and its kind's impact.
    pub fn highlight_changes(&self) -> (highlights: Vec<ChangeHighlight>)
        ensures
            highlights.len() == self.changes.len(),
            forall|i: int|
                0 <= i < self.changes.len() ==> {
                    &&& (#[trigger] highlights[i]).description@ == self.changes[i].description@
                    &&& highlights[i].impact@ == impact_of(self.changes[i].change_type)
                    &&& highlights[i].tokens == self.changes[i].tokens_added
                },
    {
        let changes = &self.changes;
        let mut highlights: Vec<ChangeHighlight> = Vec::new();
        let mut i: usize = 0;
        while i < changes.len()
            invariant
                i <= changes.len(),
                highlights.len() == i,
                forall|j: int|
                    0 <= j < i ==> {
                        &&& (#[trigger] highlights[j]).description@ == changes[j].description@
                        &&& highlights[j].impact@ == impact_of(changes[j].change_type)
                        &&& highlights[j].tokens == changes[j].tokens_added
                    },
            decreases changes.len() - i,
        {
            let impact: &'static str = match changes[i].change_type {
                ChangeType::AddedCodeSnippet => "High",
                ChangeType::AddedFileLocation => "Medium",
                ChangeType::AddedContext => "Medium",
                ChangeType::AddedStructure => "Medium",
                ChangeType::AddedExpectedBehavior => "High",
                ChangeType::ImprovedClarity => "Low",
            };
            highlights.push(
                ChangeHighlight {
                    description: changes[i].description.clone(),
                    impact,
                    tokens: changes[i].tokens_added,
                },
            );
            i = i + 1;
        }
        highlights
    }
}

/// The quality of a prompt as it was written: three tenths; one tenth more
/// above fifty bytes and again above a hundred; two tenths more for a code
/// fence; fifteen hundredths more for a reference to a file, and again for
/// the words `line`, `function` or `error`.
pub open spec fn base_quality(input: Seq<char>) -> int {
    let bytes = vstd::utf8::encode_utf8(input).len();
    300_000 + (if bytes > 50 {
        100_000int
    } else {
        0
    }) + (if bytes > 100 {
        100_000int
    } else {
        0
    }) + (if contains_text(input, "```"@) {
        200_000int
    } else {
        0
    }) + (if contains_text(input, ".rs"@) || contains_text(input, "src/"@) {
        150_000int
    } else {
        0
    }) + (if contains_text(input, "line"@) || contains_text(input, "function"@) || contains_text(
        input,
        "error"@,
    ) {
        150_000int
    } else {
        0
    })
}

/// The quality of a prompt as it was written.
pub fn calculate_base_quality(input: &str) -> (score: i64)
    ensures
        score == base_quality(input@),
        300_000 <= score <= 1_000_000,
{
    let s = chars_of(input);
    let bytes: usize = input.as_bytes().len();
    let mut score: i64 = 300_000;
    if bytes > 50 {
        score = score + 100_000;
    }
    if bytes > 100 {
        score = score + 100_000;
    }
    if contains_str(&s, "```") {
        score = score + 200_000;
    }
    if contains_str(&s, ".rs") || contains_str(&s, "src/") {
        score = score + 150_000;
    }
    if contains_str(&s, "line") || contains_str(&s, "function") || contains_str(&s, "error") {
        score = score + 150_000;
    }
    score
}

/// What a change of the given kind adds to the share of cache hits.
pub open spec fn gain_of(change_type: ChangeType) -> int {
    match change_type {
        ChangeType::AddedCodeSnippet => 200_000,
        ChangeType::AddedFileLocation => 100_000,
        ChangeType::AddedContext => 150_000,
        ChangeType::AddedStructure => 100_000,
        ChangeType::AddedExpectedBehavior => 150_000,
        ChangeType::ImprovedClarity => 50_000,
    }
}

/// What the changes add together.
pub open spec fn total_gain(changes: Seq<ChangeView>) -> int
    decreases changes.len(),
{
    if changes.len() == 0 {
        0
    } else {
        total_gain(changes.drop_last()) + gain_of(changes.last().change_type)
    }
}

/// The improvement of the share of cache hits that the changes are taken to
/// bring: what they add together, one half at most.
pub open spec fn cache_hit_improvement(changes: Seq<ChangeView>) -> int {
    if total_gain(changes) > 500_000 {
        500_000
    } else {
        total_gain(changes)
    }
}

/// The improvement of the share of cache hits that the changes are taken to
/// bring.
pub fn estimate_cache_hit_improvement(changes: &Vec<PromptChange>) -> (improvement: i64)
    ensures
        improvement == cache_hit_improvement(change_views(changes@)),
{
    let ghost views = change_views(changes@);
    let mut improvement: i64 = 0;
    let mut i: usize = 0;
    assert(views.take(0) =~= Seq::<ChangeView>::empty());
    while i < changes.len()
        invariant
            i <= changes.len(),
            views == change_views(changes@),
            improvement == cache_hit_improvement(views.take(i as int)),
            0 <= total_gain(views.take(i as int)),
        decreases changes.len() - i,
    {
        assert(views.take(i + 1).drop_last() =~= views.take(i as int));
        let gain: i64 = match changes[i].change_type {
            ChangeType::AddedCodeSnippet => 200_000,
            ChangeType::AddedFileLocation => 100_000,
            ChangeType::AddedContext => 150_000,
            ChangeType::AddedStructure => 100_000,
            ChangeType::AddedExpectedBehavior => 150_000,
            ChangeType::ImprovedClarity => 50_000,
        };
        improvement = improvement + gain;
        if improvement > 500_000 {
            improvement = 500_000;
        }
        i = i + 1;
    }
    assert(views.take(i as int) =~= views);
    improvement
}

/// A text with the steps that suit the action appended: for debugging,
/// implementing and refactoring three steps each, for every other action
/// nothing.
pub open spec fn structured(text: Seq<char>, action: PromptAction) -> Seq<char> {
    match action {
        PromptAction::Debug => text
            + "\n\nPlease:\n1. Identify the root cause\n2. Suggest a fix\n3. Explain how to prevent this in the future"@,
        PromptAction::Implement => text
            + "\n\nPlease:\n1. Design the approach\n2. Implement the feature\n3. Add appropriate error handling"@,
        PromptAction::Refactor => text
            + "\n\nPlease:\n1. Analyze current structure\n2. Propose improvements\n3. Implement the refactoring"@,
        _ => text,
    }
}

/// A text with the steps that suit the intent appended.
pub fn add_structure_for_intent(text: &str, intent: &PromptIntent) -> (r: String)
    ensures
        r@ == structured(text@, intent.primary_action),
{
    let mut r = String::from_str(text);
    match intent.primary_action {
        PromptAction::Debug => {
            r.append(
                "\n\nPlease:\n1. Identify the root cause\n2. Suggest a fix\n3. Explain how to prevent this in the future",
            );
        },
        PromptAction::Implement => {
            r.append(
                "\n\nPlease:\n1. Design the approach\n2. Implement the feature\n3. Add appropriate error handling",
            );
        },
        PromptAction::Refactor => {
            r.append(
                "\n\nPlease:\n1. Analyze current structure\n2. Propose improvements\n3. Implement the refactoring",
            );
        },
        _ => {},
    }
    r
}

/// What a context holds, as far as a refinement reads it.
pub struct ContextView {
    /// The path of the active file.
    pub path: Option<Seq<char>>,
    /// The language of the active file.
    pub language: Option<Seq<char>>,
    /// The selected text.
    pub selection: Option<Seq<char>>,
}

/// What a refinement reads of a context.
pub open spec fn context_view(context: ZedContext) -> ContextView {
    ContextView {
        path: match context.active_file {
            Some(file) => Some(file.path@),
            None => None,
        },
        language: match context.active_file {
            Some(file) => match file.language {
                Some(language) => Some(language@),
                None => None,
            },
            None => None,
        },
        selection: match context.selected_text {
            Some(selection) => Some(selection.content@),
            None => None,
        },
    }
}

/// Whether the first step applies: a file is open and the prompt names none.
pub open spec fn adds_file(input: Seq<char>, context: ContextView) -> bool {
    context.path is Some && lacks_file_context(input)
}

/// The refinement after the first step: the file's location put in front.
pub open spec fn with_file(input: Seq<char>, context: ContextView) -> RefinementView {
    if adds_file(input, context) {
        RefinementView {
            text: "In file `"@ + context.path->0 + "`:\n\n"@ + input,
            changes: seq![
                ChangeView {
                    change_type: ChangeType::AddedFileLocation,
                    description: "Added file context: "@ + context.path->0,
                    tokens_added: 8,
                },
            ],
            quality: 150_000,
        }
    } else {
        RefinementView { text: input, changes: Seq::empty(), quality: 0 }
    }
}

/// Whether the second step applies: something is selected and the prompt
/// points at code.
pub open spec fn adds_snippet(lower: Seq<char>, context: ContextView) -> bool {
    context.selection is Some && context.selection->0.len() > 0 && points_at_code(lower)
}

/// The refinement after the second step: the selection appended in a code
/// fence that names the file's language.
pub open spec fn with_snippet(so_far: RefinementView, lower: Seq<char>, context: ContextView) -> RefinementView {
    if adds_snippet(lower, context) {
        RefinementView {
            text: so_far.text + "\n\nRelevant code:\n```"@ + (match context.language {
                Some(language) => language,
                None => Seq::empty(),
            }) + "\n"@ + context.selection->0 + "\n```"@,
            changes: so_far.changes.push(
                ChangeView {
                    change_type: ChangeType::AddedCodeSnippet,
                    description: "Added selected code snippet for context"@,
                    tokens_added: token_cost(context.selection->0) + 10,
                },
            ),
            quality: so_far.quality + 250_000,
        }
    } else {
        so_far
    }
}

/// The refinement after the third step: for a confidence above seven tenths
/// the steps that suit the action are appended, if there are any.
pub open spec fn with_structure(so_far: RefinementView, action: PromptAction, confidence: int) -> RefinementView {
    if confidence > 700_000 && structured(so_far.text, action) != so_far.text {
        RefinementView {
            text: structured(so_far.text, action),
            changes: so_far.changes.push(
                ChangeView {
                    change_type: ChangeType::AddedStructure,
                    description: "Added structured format for clarity"@,
                    tokens_added: 12,
                },
            ),
            quality: so_far.quality + 200_000,
        }
    } else {
        so_far
    }
}

/// The refinement of a prompt: the three steps in turn, and a quality that is
/// the base quality of the prompt plus what the steps add, one at most.
pub open spec fn refinement_of(
    input: Seq<char>,
    lower: Seq<char>,
    context: ContextView,
    action: PromptAction,
    confidence: int,
) -> RefinementView {
    let steps = with_structure(
        with_snippet(with_file(input, context), lower, context),
        action,
        confidence,
    );
    let quality = base_quality(input) + steps.quality;
    RefinementView {
        quality: if quality > 1_000_000 {
            1_000_000
        } else {
            quality
        },
        ..steps
    }
}

impl PromptRefinement {
    /// The refinement of a prompt whose lower-case form is `lower`, for the
    /// given judgement of the prompt.
    pub fn refine(user_input: &str, lower: &str, context: &ZedContext, intent: &PromptIntent) -> (r:
        Self)
        ensures
            r@ == refinement_of(
                user_input@,
                lower@,
                context_view(*context),
                intent.primary_action,
                intent.confidence as int,
            ),
    {
        let ghost view = context_view(*context);
        let mut refined_text: String = String::from_str(user_input);
        let mut changes: Vec<PromptChange> = Vec::new();
        let mut gain: i64 = 0;
        assert(change_views(changes@) =~= Seq::<ChangeView>::empty());
        match &context.active_file {
            Some(file) => {
                if should_add_file_context(user_input) {
                    let mut text = String::from_str("In file `");
                    text.append(file.path.as_str());
                    text.append("`:\n\n");
                    text.append(user_input);
                    refined_text = text;
                    let mut description = String::from_str("Added file context: ");
                    description.append(file.path.as_str());
                    changes.push(
                        PromptChange {
                            change_type: ChangeType::AddedFileLocation,
                            description,
                            tokens_added: 8,
                        },
                    );
                    gain = gain + 150_000;
                    assert(change_views(changes@) =~= with_file(user_input@, view).changes);
                }
            },
            None => {},
        }
        let ghost first = with_file(user_input@, view);
        assert(refined_text@ == first.text);
        assert(change_views(changes@) == first.changes);
        match &context.selected_text {
            Some(selection) => {
                if selection.content.as_str().as_bytes().len() > 0 && snippet_wanted(lower) {
                    proof {
                        lemma_bytes_of_empty(selection.content@);
                    }
                    refined_text.append("\n\nRelevant code:\n```");
                    match &context.active_file {
                        Some(file) => match &file.language {
                            Some(language) => {
                                refined_text.append(language.as_str());
                            },
                            None => {
                                let none = String::new();
                                refined_text.append(none.as_str());
                            },
                        },
                        None => {
                            let none = String::new();
                            refined_text.append(none.as_str());
                        },
                    }
                    refined_text.append("\n");
                    refined_text.append(selection.content.as_str());
                    refined_text.append("\n```");
                    let ghost before = change_views(changes@);
                    changes.push(
                        PromptChange {
                            change_type: ChangeType::AddedCodeSnippet,
                            description: String::from_str("Added selected code snippet for context"),
                            tokens_added: estimate_tokens(selection.content.as_str()) + 10,
                        },
                    );
                    gain = gain + 250_000;
                    assert(change_views(changes@) =~= before.push(
                        ChangeView {
                            change_type: ChangeType::AddedCodeSnippet,
                            description: "Added selected code snippet for context"@,
                            tokens_added: token_cost(selection.content@) + 10,
                        },
                    ));
                } else {
                    proof {
                        lemma_bytes_of_empty(selection.content@);
                    }
                }
            },
            None => {},
        }
        let ghost second = with_snippet(first, lower@, view);
        assert(refined_text@ == second.text);
        assert(change_views(changes@) == second.changes);
        assert(gain == second.quality);
        if intent.confidence > 700_000 {
            let with_steps = add_structure_for_intent(refined_text.as_str(), intent);
            if with_steps != refined_text {
                refined_text = with_steps;
                let ghost before = change_views(changes@);
                changes.push(
                    PromptChange {
                        change_type: ChangeType::AddedStructure,
                        description: String::from_str("Added structured format for clarity"),
                        tokens_added: 12,
                    },
                );
                gain = gain + 200_000;
                assert(change_views(changes@) =~= before.push(
                    ChangeView {
                        change_type: ChangeType::AddedStructure,
                        description: "Added structured format for clarity"@,
                        tokens_added: 12,
                    },
                ));
            }
        }
        let base: i64 = calculate_base_quality(user_input);
        let mut quality_score: i64 = base + gain;
        if quality_score > 1_000_000 {
            quality_score = 1_000_000;
        }
        Self { refined_text, changes, quality_score }
    }

    /// The refinement of a prompt in its context, for the judgement that the
    /// engine makes of the prompt.  The configuration has no part in it.
    pub fn generate(
        user_input: &str,
        context: &ZedContext,
        engine: &MistralRsEngine,
        config: &AgentConfig,
    ) -> (r: Self)
        ensures
            exists|intent: PromptIntent|
                is_intent_of(intent, lowercased(user_input@), user_input@) && #[trigger] refinement_of(
                    user_input@,
                    lowercased(user_input@),
                    context_view(*context),
                    intent.primary_action,
                    intent.confidence as int,
                ) == r@,
    {
        let intent = engine.analyze_intent(user_input);
        let lower = lowercase(user_input);
        Self::refine(user_input, lower.as_str(), context, &intent)
    }

    /// The refined prompt beside the prompt as it was written, with the improvement of the
    /// share of cache hits that its changes are taken to bring.
    pub fn into_refined_prompt(self, original: &str) -> (r: RefinedPrompt)
        ensures
            r.original@ == original@,
            r.refined == self.refined_text,
            r.changes == self.changes,
            r.quality_score == self.quality_score,
            r.estimated_cache_hit_improvement == cache_hit_improvement(change_views(self.changes@)),
    {
        let improvement = estimate_cache_hit_improvement(&self.changes);
        RefinedPrompt {
            original: original.to_owned(),
            refined: self.refined_text,
            changes: self.changes,
            quality_score: self.quality_score,
            estimated_cache_hit_improvement: improvement,
        }
    }
}

/// Only the empty text has no bytes.
pub proof fn lemma_bytes_of_empty(text: Seq<char>)
    ensures
        vstd::utf8::encode_utf8(text).len() == 0 <==> text.len() == 0,
    decreases text.len(),
{
    reveal_with_fuel(vstd::utf8::encode_utf8, 2);
}

} // verus!
