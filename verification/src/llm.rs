//! Language-model inference: requests, responses, what an adapter can do, and an
//! adapter with canned responses.
use vstd::prelude::*;

use crate::error::{fails_with, BrainError, BrainErrorView};
use crate::json::{as_truth, member, members_view, object, Json, JsonView};
use crate::rows::Row;
use crate::text::{cat3, contains_text, nat_text, occurs_in, show_u64};

verus! {

/// Advertises what an adapter can do. The extraction pipeline checks `grammar` to
/// decide between constrained decoding and schema-and-repair.
#[derive(Debug, Clone, Copy, PartialEq, Eq, Structural)]
pub struct LlmCapabilities {
    /// Supports grammar-constrained decoding.
    pub grammar: bool,
    /// Supports JSON Schema structured output natively.
    pub structured_output: bool,
    /// Supports forced tool calls.
    pub tool_call: bool,
    /// Supports provider-native JSON Schema structured output.
    pub json_schema: bool,
}

impl Default for LlmCapabilities {
    /// Nothing is supported.
    fn default() -> (r: Self)
        ensures
            r == no_capabilities(),
    {
        LlmCapabilities {
            grammar: false,
            structured_output: false,
            tool_call: false,
            json_schema: false,
        }
    }
}

/// The capabilities of an adapter that supports nothing.
pub open spec fn no_capabilities() -> LlmCapabilities {
    LlmCapabilities {
        grammar: false,
        structured_output: false,
        tool_call: false,
        json_schema: false,
    }
}

/// Capabilities as JSON.
pub open spec fn capabilities_json(c: LlmCapabilities) -> JsonView {
    JsonView::Obj(
        seq![
            ("grammar"@, JsonView::Bool(c.grammar)),
            ("json_schema"@, JsonView::Bool(c.json_schema)),
            ("structured_output"@, JsonView::Bool(c.structured_output)),
            ("tool_call"@, JsonView::Bool(c.tool_call)),
        ],
    )
}

/// A truth value among members, where it must be there.
pub open spec fn needed_flag(v: JsonView, key: Seq<char>) -> Option<bool> {
    match member(v, key) {
        Some(m) => as_truth(m),
        None => None,
    }
}

/// A truth value among members, or `false` where there is none.
pub open spec fn optional_flag(v: JsonView, key: Seq<char>) -> Option<bool> {
    match member(v, key) {
        Some(m) => as_truth(m),
        None => Some(false),
    }
}

/// The capabilities that a JSON object declares. The flags that were added later
/// may be missing.
pub open spec fn capabilities_in(v: JsonView) -> Option<LlmCapabilities> {
    match (
        needed_flag(v, "grammar"@),
        needed_flag(v, "structured_output"@),
        optional_flag(v, "tool_call"@),
        optional_flag(v, "json_schema"@),
    ) {
        (Some(grammar), Some(structured_output), Some(tool_call), Some(json_schema)) => Some(
            LlmCapabilities { grammar, structured_output, tool_call, json_schema },
        ),
        _ => None,
    }
}

fn read_flag(v: &Json, key: &str, missing: Option<bool>) -> (r: Option<bool>)
    ensures
        r == match member(v.deep_view(), key@) {
            Some(m) => as_truth(m),
            None => missing,
        },
{
    match v.get(key) {
        Some(m) => m.as_bool(),
        None => missing,
    }
}

impl LlmCapabilities {
    /// The capabilities as JSON.
    pub fn to_json(&self) -> (r: Json)
        ensures
            r.deep_view() == capabilities_json(*self),
    {
        let mut m: Vec<(String, Json)> = Vec::new();
        m.push(("grammar".to_owned(), Json::Bool(self.grammar)));
        m.push(("json_schema".to_owned(), Json::Bool(self.json_schema)));
        m.push(("structured_output".to_owned(), Json::Bool(self.structured_output)));
        m.push(("tool_call".to_owned(), Json::Bool(self.tool_call)));
        assert(members_view(m@) =~= capabilities_json(*self)->Obj_0);
        object(m)
    }

    /// The capabilities that a JSON object declares.
    pub fn from_json(v: &Json) -> (r: Option<LlmCapabilities>)
        ensures
            r == capabilities_in(v.deep_view()),
    {
        match (
            read_flag(v, "grammar", None),
            read_flag(v, "structured_output", None),
            read_flag(v, "tool_call", Some(false)),
            read_flag(v, "json_schema", Some(false)),
        ) {
            (Some(grammar), Some(structured_output), Some(tool_call), Some(json_schema)) => Some(
                LlmCapabilities { grammar, structured_output, tool_call, json_schema },
            ),
            _ => None,
        }
    }
}

/// Capabilities read back from their JSON.
pub proof fn law_capabilities_read_back(c: LlmCapabilities)
    ensures
        capabilities_in(capabilities_json(c)) == Some(c),
{
    let m = capabilities_json(c)->Obj_0;
    reveal_strlit("grammar");
    reveal_strlit("json_schema");
    reveal_strlit("structured_output");
    reveal_strlit("tool_call");
    assert("grammar"@.len() == 7 && "json_schema"@.len() == 11 && "structured_output"@.len() == 17
        && "tool_call"@.len() == 9);
    reveal_with_fuel(crate::json::member_in, 5);
    assert(m.drop_first()[0] == m[1]);
    assert(m.drop_first().drop_first()[0] == m[2]);
    assert(m.drop_first().drop_first().drop_first()[0] == m[3]);
}

/// What a model is asked.
#[derive(Debug)]
pub struct LlmRequest {
    pub model: String,
    pub system: Option<String>,
    pub prompt: String,
    pub json_schema: Option<Json>,
    pub max_tokens: u32,
}

/// What a model answered.
#[derive(Debug)]
pub struct LlmResponse {
    pub text: String,
    pub raw: Json,
}

/// [`LlmResponse`] as a mathematical value.
#[verifier::ext_equal]
pub struct LlmResponseView {
    pub text: Seq<char>,
    pub raw: JsonView,
}

impl DeepView for LlmResponse {
    type V = LlmResponseView;

    open spec fn deep_view(&self) -> LlmResponseView {
        LlmResponseView { text: self.text@, raw: self.raw.deep_view() }
    }
}

impl Row for LlmResponse {
    fn dup(&self) -> (r: Self) {
        LlmResponse { text: self.text.clone(), raw: self.raw.dup() }
    }
}

/// Whether an attempt failed with an error of the provider.
pub open spec fn provider_error(retryable: bool, message: Seq<char>) -> BrainErrorView {
    BrainErrorView::Provider { retryable, message }
}

/// What an adapter that cannot honour a grammar answers.
pub fn constrained_unsupported() -> (r: BrainError)
    ensures
        r.deep_view() == provider_error(
            false,
            "grammar-constrained generation not supported by this adapter"@,
        ),
{
    BrainError::Provider {
        retryable: false,
        message: "grammar-constrained generation not supported by this adapter".to_owned(),
    }
}

/// An adapter with canned responses, keyed by a part of the prompt; the first
/// matching key wins.
#[derive(Debug)]
pub struct FakeLlmPort {
    responses: Vec<(String, LlmResponse)>,
    grammar: bool,
    constrained_calls: usize,
}

/// The first response whose key occurs in a prompt.
pub open spec fn response_for(
    responses: Seq<(Seq<char>, LlmResponseView)>,
    prompt: Seq<char>,
) -> Option<LlmResponseView>
    decreases responses.len(),
{
    if responses.len() == 0 {
        None
    } else if occurs_in(prompt, responses[0].0) {
        Some(responses[0].1)
    } else {
        response_for(responses.drop_first(), prompt)
    }
}

impl FakeLlmPort {
    /// The canned responses, in the order in which they were registered.
    pub closed spec fn canned(&self) -> Seq<(Seq<char>, LlmResponseView)> {
        self.responses.deep_view()
    }

    /// Whether a grammar is honoured.
    pub closed spec fn honours_grammar(&self) -> bool {
        self.grammar
    }

    /// How often constrained generation was asked for.
    pub closed spec fn calls(&self) -> nat {
        self.constrained_calls as nat
    }

    /// What the adapter answers to a prompt.
    pub open spec fn answer(&self, prompt: Seq<char>) -> Result<LlmResponseView, BrainErrorView> {
        match response_for(self.canned(), prompt) {
            Some(r) => Ok(r),
            None => Err(
                BrainErrorView::Config(
                    "FakeLlmPort: no canned response matching the prompt ("@ + nat_text(
                        self.canned().len(),
                    ) + " keys registered)"@,
                ),
            ),
        }
    }

    /// An adapter with no responses and no grammar.
    pub fn new() -> (r: Self)
        ensures
            r.canned().len() == 0,
            !r.honours_grammar(),
            r.calls() == 0,
    {
        FakeLlmPort { responses: Vec::new(), grammar: false, constrained_calls: 0 }
    }

    /// Register a canned response. `key` is matched as a part of the prompt.
    /// Registrations are checked in insertion order; first match wins.
    pub fn respond_to(&mut self, key: &str, response: LlmResponse)
        ensures
            final(self).canned() == old(self).canned().push((key@, response.deep_view())),
            final(self).honours_grammar() == old(self).honours_grammar(),
            final(self).calls() == old(self).calls(),
    {
        let ghost before = self.responses.deep_view();
        let ghost added = response.deep_view();
        self.responses.push((key.to_owned(), response));
        assert(self.responses.deep_view() =~= before.push((key@, added)));
    }

    /// Advertise grammar support; constrained generation then serves the canned
    /// responses and is counted.
    pub fn enable_grammar(&mut self)
        ensures
            final(self).honours_grammar(),
            final(self).canned() == old(self).canned(),
            final(self).calls() == old(self).calls(),
    {
        self.grammar = true;
    }

    /// How many constrained generations were made.
    pub fn constrained_calls(&self) -> (r: usize)
        ensures
            r == self.calls(),
    {
        self.constrained_calls
    }

    /// The first canned response whose key occurs in the prompt. Where none does,
    /// an error.
    pub fn complete(&self, req: &LlmRequest) -> (r: Result<LlmResponse, BrainError>)
        ensures
            match self.answer(req.prompt@) {
                Ok(a) => r is Ok && r->Ok_0.deep_view() == a,
                Err(e) => fails_with(r, e),
            },
    {
        let ghost all = self.canned();
        let mut i: usize = 0;
        assert(all.skip(0) =~= all);
        while i < self.responses.len()
            invariant
                i <= self.responses.len(),
                all == self.responses.deep_view(),
                all == self.canned(),
                response_for(all, req.prompt@) == response_for(all.skip(i as int), req.prompt@),
            decreases self.responses.len() - i,
        {
            proof {
                assert(all.skip(i as int)[0] == all[i as int]);
                assert(all.skip(i as int).drop_first() =~= all.skip(i + 1));
                assert(all[i as int] == self.responses[i as int].deep_view());
            }
            if contains_text(req.prompt.as_str(), self.responses[i].0.as_str()) {
                return Ok(self.responses[i].1.dup());
            }
            i = i + 1;
        }
        assert(all.len() == self.responses.len());
        let n = show_u64(self.responses.len() as u64);
        Err(
            BrainError::Config(
                cat3(
                    "FakeLlmPort: no canned response matching the prompt (",
                    n.as_str(),
                    " keys registered)",
                ),
            ),
        )
    }

    /// Constrained generation: counted, and answered like any request, where a
    /// grammar is honoured; else an error that is not worth a retry. The count
    /// starts over at its limit.
    pub fn generate_constrained(&mut self, req: &LlmRequest, _grammar: &str) -> (r: Result<
        LlmResponse,
        BrainError,
    >)
        ensures
            final(self).canned() == old(self).canned(),
            final(self).honours_grammar() == old(self).honours_grammar(),
            if old(self).honours_grammar() {
                &&& final(self).calls() == if old(self).calls() == usize::MAX {
                    0
                } else {
                    old(self).calls() + 1
                }
                &&& match old(self).answer(req.prompt@) {
                    Ok(a) => r is Ok && r->Ok_0.deep_view() == a,
                    Err(e) => fails_with(r, e),
                }
            } else {
                &&& final(self).calls() == old(self).calls()
                &&& fails_with(
                    r,
                    provider_error(
                        false,
                        "FakeLlmPort: grammar not enabled (call enable_grammar)"@,
                    ),
                )
            },
    {
        if !self.grammar {
            return Err(
                BrainError::Provider {
                    retryable: false,
                    message: "FakeLlmPort: grammar not enabled (call enable_grammar)".to_owned(),
                },
            );
        }
        self.constrained_calls = if self.constrained_calls == usize::MAX {
            0
        } else {
            self.constrained_calls + 1
        };
        self.complete(req)
    }

    /// What the adapter can do: nothing but, where it was enabled, the grammar.
    pub fn capabilities(&self) -> (r: LlmCapabilities)
        ensures
            r == (LlmCapabilities { grammar: self.honours_grammar(), ..no_capabilities() }),
    {
        LlmCapabilities {
            grammar: self.grammar,
            structured_output: false,
            tool_call: false,
            json_schema: false,
        }
    }
}

impl Default for FakeLlmPort {
    fn default() -> (r: Self)
        ensures
            r.canned().len() == 0,
            !r.honours_grammar(),
            r.calls() == 0,
    {
        Self::new()
    }
}

} // verus!
