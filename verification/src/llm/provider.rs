//! What the synthesis layer hands to a language model and gets back.
use vstd::prelude::*;

use crate::utils::copy::{copy_string, copy_strings};

verus! {

/// The evidence packets and objective handed to a model.  For questions each
/// packet is a retrieved chunk labelled with its document and section; for
/// reports it is a whole section.
pub struct PromptContext {
    pub workspace_name: String,
    pub objective: String,
    pub evidence: Vec<String>,
}

pub struct PromptContextView {
    pub workspace_name: Seq<char>,
    pub objective: Seq<char>,
    pub evidence: Seq<Seq<char>>,
}

impl View for PromptContext {
    type V = PromptContextView;

    open spec fn view(&self) -> PromptContextView {
        PromptContextView {
            workspace_name: self.workspace_name@,
            objective: self.objective@,
            evidence: self.evidence.deep_view(),
        }
    }
}

impl Clone for PromptContext {
    fn clone(&self) -> (r: Self)
        ensures
            r@ == self@,
    {
        PromptContext {
            workspace_name: copy_string(&self.workspace_name),
            objective: copy_string(&self.objective),
            evidence: copy_strings(&self.evidence),
        }
    }
}

/// A model's answer, split into a summary and an inference.
pub struct LlmResponse {
    pub summary: String,
    pub inference: String,
}

pub struct LlmResponseView {
    pub summary: Seq<char>,
    pub inference: Seq<char>,
}

impl View for LlmResponse {
    type V = LlmResponseView;

    open spec fn view(&self) -> LlmResponseView {
        LlmResponseView { summary: self.summary@, inference: self.inference@ }
    }
}

impl Clone for LlmResponse {
    fn clone(&self) -> (r: Self)
        ensures
            r@ == self@,
    {
        LlmResponse { summary: copy_string(&self.summary), inference: copy_string(&self.inference) }
    }
}

} // verus!
