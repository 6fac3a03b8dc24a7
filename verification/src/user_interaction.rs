//! The user's answer to a proposed refinement.
use vstd::prelude::*;

verus! {

/// What the user decided about a refined prompt.
#[derive(Debug, Clone)]
pub enum ApprovalResult {
    Accepted,
    Modified(String),
    Rejected,
}

impl ApprovalResult {
    /// The prompt to send: the refined one if it was accepted, the user's own
    /// text if they changed it, the unrefined one if they rejected the refinement.
    pub fn final_prompt(&self, original: &str, refined: &str) -> (prompt: String)
        ensures
            prompt@ == match *self {
                ApprovalResult::Accepted => refined@,
                ApprovalResult::Modified(custom) => custom@,
                ApprovalResult::Rejected => original@,
            },
    {
        match self {
            ApprovalResult::Accepted => refined.to_owned(),
            ApprovalResult::Modified(custom) => custom.clone(),
            ApprovalResult::Rejected => original.to_owned(),
        }
    }
}

} // verus!
