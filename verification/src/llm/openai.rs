//! The parts of the OpenAI chat exchange that are the library's own logic:
//! the endpoint, the user message, the status check and reading the reply.
//! Sending the request is the caller's part.
use vstd::prelude::*;

use crate::error::AppError;
use crate::llm::provider::{LlmResponse, LlmResponseView, PromptContext, PromptContextView};
use crate::utils::chars::{
    append_chars, chars_of, copy_range, join, join_chars, lemma_trail_len_unique, lines,
    split_lines, starts_with, starts_with_chars, string_of, trail_len, trim, trim_chars, CharClass,
};
use crate::utils::text::char_vecs_of;

verus! {

/// The chat-completions endpoint under `base_url`, with the base's trailing
/// slashes removed (`trim_end_matches('/')`).
pub open spec fn spec_chat_endpoint(base_url: Seq<char>) -> Seq<char> {
    base_url.take(base_url.len() - trail_len(base_url, CharClass::Slash)) + "/chat/completions"@
}

pub fn chat_endpoint(base_url: &str) -> (r: String)
    ensures
        r@ == spec_chat_endpoint(base_url@),
{
    let b = chars_of(base_url);
    let mut j: usize = b.len();
    while j > 0 && b[j - 1] == '/'
        invariant
            j <= b.len(),
            forall|m: int| j <= m < b.len() ==> b@[m] == '/',
        decreases j,
    {
        j = j - 1;
    }
    proof {
        lemma_trail_len_unique(b@, CharClass::Slash, b.len() - j);
    }
    let mut out = copy_range(&b, 0, j);
    append_chars(&mut out, &chars_of("/chat/completions"));
    assert(b@.subrange(0, j as int) =~= b@.take(j as int));
    string_of(&out)
}

/// The user message: workspace, objective, and the evidence packets separated
/// by blank lines.
pub open spec fn spec_user_message(p: PromptContextView) -> Seq<char> {
    "Workspace: "@ + p.workspace_name + "\nObjective: "@ + p.objective + "\nEvidence:\n"@ + join(
        p.evidence,
        "\n\n"@,
    )
}

pub fn user_message(prompt: &PromptContext) -> (r: String)
    ensures
        r@ == spec_user_message(prompt@),
{
    let mut out = String::new();
    out.append("Workspace: ");
    out.append(prompt.workspace_name.as_str());
    out.append("\nObjective: ");
    out.append(prompt.objective.as_str());
    out.append("\nEvidence:\n");
    let evidence = join_chars(&char_vecs_of(&prompt.evidence), &chars_of("\n\n"));
    out.append(string_of(&evidence).as_str());
    out
}

/// The error for a reply whose HTTP status is not a success (outside
/// 200..=299): the status line and the body.
pub open spec fn status_error_message(status: Seq<char>, body: Seq<char>) -> Seq<char> {
    "openai returned status "@ + status + ": "@ + body
}

/// Accepts a reply with a success status (200 to 299); otherwise an LLM error
/// quoting `status` (the status as displayed) and the body.
pub fn check_status(code: u16, status: &str, body: &str) -> (r: Result<(), AppError>)
    ensures
        200 <= code <= 299 ==> r is Ok,
        !(200 <= code <= 299) ==> (r matches Err(AppError::Llm(m)) && m@ == status_error_message(
            status@,
            body@,
        )),
{
    if 200 <= code && code <= 299 {
        Ok(())
    } else {
        let mut m = String::new();
        m.append("openai returned status ");
        m.append(status);
        m.append(": ");
        m.append(body);
        Err(AppError::Llm(m))
    }
}

/// The error for a missing API key: the variable's name, then
/// ` is not configured`.
pub open spec fn missing_key_message(variable: Seq<char>) -> Seq<char> {
    variable + " is not configured"@
}

pub fn missing_key_error(variable: &str) -> (r: AppError)
    ensures
        r matches AppError::Llm(m) && m@ == missing_key_message(variable@),
{
    let mut m = String::new();
    m.append(variable);
    m.append(" is not configured");
    AppError::Llm(m)
}

/// The text after `tag` on every line that starts with it, trimmed and run
/// together in line order.
pub open spec fn tagged_text(ls: Seq<Seq<char>>, tag: Seq<char>) -> Seq<char>
    decreases ls.len(),
{
    if ls.len() == 0 {
        seq![]
    } else {
        let l = ls.last();
        tagged_text(ls.drop_last(), tag) + if starts_with(l, tag) {
            trim(l.skip(tag.len() as int))
        } else {
            seq![]
        }
    }
}

pub open spec fn no_inference_message() -> Seq<char> {
    "Inference was not separated by the provider response."@
}

/// The reply read as `Summary:` and `Inference:` lines; with no summary line
/// the whole reply is the summary, and with no inference line a fixed note
/// stands in.
pub open spec fn spec_parse_reply(content: Seq<char>) -> LlmResponseView {
    let s = tagged_text(lines(content), "Summary:"@);
    let i = tagged_text(lines(content), "Inference:"@);
    LlmResponseView {
        summary: if s.len() == 0 {
            content
        } else {
            s
        },
        inference: if i.len() == 0 {
            no_inference_message()
        } else {
            i
        },
    }
}

fn tagged_lines(ls: &Vec<Vec<char>>, tag: &[char]) -> (r: Vec<char>)
    ensures
        r@ == tagged_text(ls.deep_view(), tag@),
{
    let ghost lv = ls.deep_view();
    let mut out: Vec<char> = Vec::new();
    let mut i: usize = 0;
    while i < ls.len()
        invariant
            lv == ls.deep_view(),
            i <= ls.len(),
            out@ == tagged_text(lv.take(i as int), tag@),
        decreases ls.len() - i,
    {
        proof {
            assert(lv.take(i + 1).drop_last() =~= lv.take(i as int));
            assert(lv.take(i + 1).last() == ls@[i as int]@);
        }
        let line = &ls[i];
        if starts_with_chars(line, tag) {
            let rest = copy_range(line, tag.len(), line.len());
            assert(rest@ =~= line@.skip(tag@.len() as int));
            append_chars(&mut out, &trim_chars(&rest));
        }
        i = i + 1;
    }
    assert(lv.take(ls.len() as int) =~= lv);
    out
}

/// Reads a reply (see `spec_parse_reply`).
pub fn parse_reply(content: &str) -> (r: LlmResponse)
    ensures
        r@ == spec_parse_reply(content@),
{
    let ls = split_lines(&chars_of(content));
    let s = tagged_lines(&ls, &chars_of("Summary:"));
    let i = tagged_lines(&ls, &chars_of("Inference:"));
    let summary = if s.len() == 0 {
        content.to_owned()
    } else {
        string_of(&s)
    };
    let inference = if i.len() == 0 {
        "Inference was not separated by the provider response.".to_owned()
    } else {
        string_of(&i)
    };
    LlmResponse { summary, inference }
}

/// Reads the first choice's content, or an LLM error when the reply has no
/// choice.
pub fn reply_from_choice(first: Option<String>) -> (r: Result<LlmResponse, AppError>)
    ensures
        match first {
            Some(c) => r matches Ok(x) && x@ == spec_parse_reply(c@),
            None => r matches Err(AppError::Llm(m)) && m@ == "openai returned no choices"@,
        },
{
    match first {
        Some(c) => Ok(parse_reply(c.as_str())),
        None => Err(AppError::Llm("openai returned no choices".to_owned())),
    }
}

} // verus!
