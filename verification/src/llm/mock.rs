//! A deterministic model that answers from the evidence itself, so that the
//! whole pipeline runs without credentials.
use vstd::prelude::*;

use crate::llm::provider::{LlmResponse, PromptContext};
use crate::utils::chars::{
    chars_of, join, join_chars, lemma_deep_view_push, lines, split_lines, string_of,
};

verus! {

/// A model that summarises by quoting the evidence.
pub struct MockLlmProvider {
    pub model: String,
}

/// An evidence packet without its label line: the packet's lines after the
/// first, joined with spaces.
pub open spec fn mock_snippet(entry: Seq<char>) -> Seq<char> {
    let ls = lines(entry);
    if ls.len() == 0 {
        seq![]
    } else {
        join(ls.drop_first(), seq![' '])
    }
}

/// The snippets of the first four evidence packets.
pub open spec fn mock_snippets(evidence: Seq<Seq<char>>) -> Seq<Seq<char>> {
    let first = if evidence.len() > 4 { evidence.take(4) } else { evidence };
    first.map_values(|e: Seq<char>| mock_snippet(e))
}

pub open spec fn mock_summary(model: Seq<char>, workspace: Seq<char>, evidence: Seq<Seq<char>>) -> Seq<char> {
    if evidence.len() == 0 {
        "Model "@ + model + " found no evidence in workspace "@ + workspace + "."@
    } else {
        "Workspace "@ + workspace + " is primarily about: "@ + join(mock_snippets(evidence), " | "@)
    }
}

pub open spec fn mock_inference(objective: Seq<char>) -> Seq<char> {
    "This conclusion is a mock synthesis derived from the retrieved evidence for objective: "@
        + objective
}

fn snippet(entry: &String) -> (r: Vec<char>)
    ensures
        r@ == mock_snippet(entry@),
{
    let mut ls = split_lines(&chars_of(entry.as_str()));
    if ls.len() == 0 {
        return Vec::new();
    }
    let ghost before = ls.deep_view();
    ls.remove(0);
    assert(ls.deep_view() =~= before.drop_first());
    let r = join_chars(&ls, &[' ']);
    assert([' ']@ =~= seq![' ']);
    r
}

impl MockLlmProvider {
    pub fn new(model: String) -> (r: Self)
        ensures
            r.model@ == model@,
    {
        MockLlmProvider { model }
    }

    /// The mock answer: the workspace's evidence quoted as its summary (or a
    /// note that there is none), and the objective restated as inference.
    pub fn respond(&self, prompt: &PromptContext) -> (r: LlmResponse)
        ensures
            r@.summary == mock_summary(self.model@, prompt@.workspace_name, prompt@.evidence),
            r@.inference == mock_inference(prompt@.objective),
    {
        let ghost ev = prompt@.evidence;
        let n: usize = if prompt.evidence.len() > 4 {
            4
        } else {
            prompt.evidence.len()
        };
        let mut snippets: Vec<Vec<char>> = Vec::new();
        let mut i: usize = 0;
        while i < n
            invariant
                ev == prompt@.evidence,
                n <= prompt.evidence.len(),
                n == (if ev.len() > 4 { 4 } else { ev.len() }),
                i <= n,
                snippets.deep_view() == ev.take(i as int).map_values(|e: Seq<char>| mock_snippet(e)),
            decreases n - i,
        {
            let s = snippet(&prompt.evidence[i]);
            let ghost old_snippets = snippets;
            snippets.push(s);
            proof {
                assert(ev[i as int] == prompt.evidence@[i as int]@);
                lemma_deep_view_push(old_snippets, snippets, s);
                assert(ev.take(i + 1).map_values(|e: Seq<char>| mock_snippet(e)) =~= ev.take(
                    i as int,
                ).map_values(|e: Seq<char>| mock_snippet(e)).push(mock_snippet(ev[i as int])));
            }
            i = i + 1;
        }
        proof {
            if ev.len() <= 4 {
                assert(ev.take(n as int) =~= ev);
            }
        }
        let mut summary = String::new();
        if prompt.evidence.len() == 0 {
            summary.append("Model ");
            summary.append(self.model.as_str());
            summary.append(" found no evidence in workspace ");
            summary.append(prompt.workspace_name.as_str());
            summary.append(".");
        } else {
            summary.append("Workspace ");
            summary.append(prompt.workspace_name.as_str());
            summary.append(" is primarily about: ");
            let joined = string_of(&join_chars(&snippets, &chars_of(" | ")));
            summary.append(joined.as_str());
        }
        let mut inference = String::new();
        inference.append(
            "This conclusion is a mock synthesis derived from the retrieved evidence for objective: ",
        );
        inference.append(prompt.objective.as_str());
        LlmResponse { summary, inference }
    }
}

} // verus!
