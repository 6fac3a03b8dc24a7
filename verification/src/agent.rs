//! The agent that refines prompts before they are sent.
use vstd::prelude::*;
use crate::context::ZedContext;
use crate::inference::{is_intent_of, MistralRsEngine, PromptIntent};
use crate::refinement::{cache_hit_improvement, context_view, refinement_of, PromptRefinement, RefinedPrompt};
use crate::text::lowercased;

verus! {

/// The settings of the agent.  The threshold counts millionths.
#[derive(Debug, Clone)]
pub struct AgentConfig {
    pub model_path: String,
    pub refinement_threshold: i64,
    pub auto_approve_safe_refinements: bool,
    pub max_context_tokens: usize,
}

impl Default for AgentConfig {
    /// The small instruction-tuned model, a threshold of seven tenths, no
    /// approval without the user, and a context of 2048 tokens.
    fn default() -> (config: Self)
        ensures
            config.model_path@ == "microsoft/Phi-3-mini-4k-instruct-gguf"@,
            config.refinement_threshold == 700_000,
            !config.auto_approve_safe_refinements,
            config.max_context_tokens == 2048,
    {
        Self {
            model_path: String::from_str("microsoft/Phi-3-mini-4k-instruct-gguf"),
            refinement_threshold: 700_000,
            auto_approve_safe_refinements: false,
            max_context_tokens: 2048,
        }
    }
}

/// The agent: an engine and the settings.
pub struct PromptManagementAgent {
    pub inference_engine: MistralRsEngine,
    pub config: AgentConfig,
}

impl PromptManagementAgent {
    /// The refinement of a prompt in its context, beside the prompt as it was
    /// written.
    pub fn refine_prompt(&self, user_input: &str, context: &ZedContext) -> (r: RefinedPrompt)
        ensures
            r.original@ == user_input@,
            exists|intent: PromptIntent|
                {
                    let refinement = #[trigger] refinement_of(
                        user_input@,
                        lowercased(user_input@),
                        context_view(*context),
                        intent.primary_action,
                        intent.confidence as int,
                    );
                    &&& is_intent_of(intent, lowercased(user_input@), user_input@)
                    &&& r.refined@ == refinement.text
                    &&& crate::refinement::change_views(r.changes@) == refinement.changes
                    &&& r.quality_score == refinement.quality
                    &&& r.estimated_cache_hit_improvement == cache_hit_improvement(
                        refinement.changes,
                    )
                },
    {
        let refinement = PromptRefinement::generate(
            user_input,
            context,
            &self.inference_engine,
            &self.config,
        );
        refinement.into_refined_prompt(user_input)
    }

    /// Whether a refinement of the given quality is worth suggesting: its
    /// quality reaches the threshold.
    pub fn should_suggest_refinement(&self, quality_score: i64) -> (r: bool)
        ensures
            r == (quality_score >= self.config.refinement_threshold),
    {
        quality_score >= self.config.refinement_threshold
    }
}

} // verus!
