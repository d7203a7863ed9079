//! Asking the client's model: requests that the server sends to the client, and
//! what their responses mean.
use vstd::prelude::*;

use crate::error::{fails_with, BrainError, BrainErrorView};
use crate::json::{
    array, as_text, int_json, integer, member, object2, string, text_member, Json, JsonView,
};
use crate::llm::{provider_error, LlmRequest, LlmResponse, LlmResponseView};
use crate::text::{cat2, cat3};

verus! {

/// The text that is put to the client's model: the system prompt, where there is
/// one, above the prompt.
pub open spec fn user_text(system: Option<Seq<char>>, prompt: Seq<char>) -> Seq<char> {
    match system {
        Some(s) => s + "\n\n"@ + prompt,
        None => prompt,
    }
}

/// The parameters of a sampling request.
pub open spec fn params_json(text: Seq<char>, max_tokens: u32) -> JsonView {
    JsonView::Obj(
        seq![
            ("maxTokens"@, int_json(max_tokens as int)),
            (
                "messages"@,
                JsonView::Arr(
                    seq![
                        JsonView::Obj(
                            seq![
                                (
                                    "content"@,
                                    JsonView::Obj(
                                        seq![
                                            ("text"@, JsonView::Str(text)),
                                            ("type"@, JsonView::Str("text"@)),
                                        ],
                                    ),
                                ),
                                ("role"@, JsonView::Str("user"@)),
                            ],
                        ),
                    ],
                ),
            ),
        ],
    )
}

/// The parameters of `sampling/createMessage` for a request.
pub fn sampling_params(req: &LlmRequest) -> (r: Json)
    ensures
        r.deep_view() == params_json(
            user_text(req.system.deep_view(), req.prompt@),
            req.max_tokens,
        ),
{
    let text = match &req.system {
        Some(s) => cat3(s.as_str(), "\n\n", req.prompt.as_str()),
        None => req.prompt.clone(),
    };
    let content = object2("text", string(text.as_str()), "type", string("text"));
    let message = object2("content", content, "role", string("user"));
    let messages: Vec<Json> = vec![message];
    assert(messages.deep_view() =~= params_json(text@, req.max_tokens)->Obj_0[1].1->Arr_0);
    object2("maxTokens", integer(req.max_tokens as i64), "messages", array(messages))
}

/// A request from the server to the client.
pub open spec fn request_json(id: i64, method: Seq<char>, params: JsonView) -> JsonView {
    JsonView::Obj(
        seq![
            ("id"@, int_json(id as int)),
            ("jsonrpc"@, JsonView::Str("2.0"@)),
            ("method"@, JsonView::Str(method)),
            ("params"@, params),
        ],
    )
}

/// Which of the server's own requests wait for a response. Ids start at one.
#[derive(Debug)]
pub struct PendingRequests {
    next_id: i64,
    waiting: Vec<i64>,
}

impl PendingRequests {
    /// The id that the next request gets.
    pub closed spec fn next(&self) -> i64 {
        self.next_id
    }

    /// The ids of the requests that wait.
    pub closed spec fn open(&self) -> Set<i64> {
        self.waiting@.to_set()
    }

    /// No request was sent yet.
    pub fn new() -> (r: Self)
        ensures
            r.next() == 1,
            r.open() == Set::<i64>::empty(),
    {
        let r = PendingRequests { next_id: 1, waiting: Vec::new() };
        assert(r.waiting@.to_set() =~= Set::<i64>::empty());
        r
    }

    /// Makes a request, which then waits for its response. Behind the greatest id
    /// comes the least.
    pub fn begin(&mut self, method: &str, params: Json) -> (r: Json)
        ensures
            r.deep_view() == request_json(old(self).next(), method@, params.deep_view()),
            final(self).open() == old(self).open().insert(old(self).next()),
            final(self).next() == if old(self).next() == i64::MAX {
                i64::MIN
            } else {
                (old(self).next() + 1) as i64
            },
    {
        let id: i64 = self.next_id;
        let ghost before = self.waiting@;
        self.next_id = if id == i64::MAX {
            i64::MIN
        } else {
            id + 1
        };
        self.waiting.push(id);
        proof {
            assert(self.waiting@ =~= before.push(id));
            assert(self.waiting@.to_set() =~= before.to_set().insert(id)) by {
                assert(self.waiting@[before.len() as int] == id);
                assert forall|x: i64| before.contains(x) implies self.waiting@.contains(x) by {
                    let k = choose|k: int| 0 <= k < before.len() && before[k] == x;
                    assert(self.waiting@[k] == x);
                }
            }
        }
        let mut m: Vec<(String, Json)> = Vec::new();
        m.push(("id".to_owned(), integer(id)));
        m.push(("jsonrpc".to_owned(), string("2.0")));
        m.push(("method".to_owned(), string(method)));
        m.push(("params".to_owned(), params));
        assert(crate::json::members_view(m@) =~= request_json(
            id,
            method@,
            params.deep_view(),
        )->Obj_0);
        crate::json::object(m)
    }

    /// Takes a request off the list: its response came, or nobody waits any
    /// longer. Says whether it was waiting.
    pub fn finish(&mut self, id: i64) -> (r: bool)
        ensures
            r == old(self).open().contains(id),
            final(self).open() == old(self).open().remove(id),
            final(self).next() == old(self).next(),
    {
        let ghost before = self.waiting@;
        let mut kept: Vec<i64> = Vec::new();
        let mut found: bool = false;
        let mut i: usize = 0;
        while i < self.waiting.len()
            invariant
                i <= self.waiting.len(),
                before == self.waiting@,
                found == before.take(i as int).contains(id),
                forall|x: i64|
                    kept@.contains(x) <==> x != id && (#[trigger] before.take(
                        i as int,
                    ).contains(x)),
                self.next_id == old(self).next_id,
            decreases self.waiting.len() - i,
        {
            let x: i64 = self.waiting[i];
            let ghost was = kept@;
            proof {
                assert(before.take(i + 1) =~= before.take(i as int).push(x));
            }
            if x == id {
                found = true;
                assert(before.take(i + 1)[i as int] == id);
            } else {
                kept.push(x);
                assert(kept@[was.len() as int] == x);
            }
            proof {
                let a = before.take(i as int);
                let b = before.take(i + 1);
                assert forall|y: i64| #[trigger] b.contains(y) <==> a.contains(y) || y == x by {
                    if a.contains(y) {
                        let k = choose|k: int| 0 <= k < a.len() && a[k] == y;
                        assert(b[k] == y);
                    }
                    if y == x {
                        assert(b[i as int] == y);
                    }
                    if b.contains(y) {
                        let k = choose|k: int| 0 <= k < b.len() && b[k] == y;
                        if k < i {
                            assert(a[k] == y);
                        }
                    }
                }
                assert forall|y: i64| kept@.contains(y) <==> was.contains(y) || (y == x && x
                    != id) by {
                    if was.contains(y) {
                        let k = choose|k: int| 0 <= k < was.len() && was[k] == y;
                        assert(kept@[k] == y);
                    }
                    if kept@.contains(y) {
                        let k = choose|k: int| 0 <= k < kept@.len() && kept@[k] == y;
                        if k < was.len() {
                            assert(was[k] == y);
                        }
                    }
                }
            }
            i = i + 1;
        }
        assert(before.take(i as int) =~= before);
        self.waiting = kept;
        assert(self.waiting@.to_set() =~= before.to_set().remove(id));
        found
    }
}

/// What a client's response to a sampling request means.
pub open spec fn response_text(response: JsonView) -> Result<Seq<char>, BrainErrorView> {
    match member(response, "error"@) {
        Some(err) => Err(
            provider_error(
                true,
                "sampling refused: "@ + (match text_member(err, "message"@) {
                    Some(m) => m,
                    None => "client returned an error"@,
                }),
            ),
        ),
        None => match member(response, "result"@) {
            None => Err(provider_error(false, "sampling response missing 'result'"@)),
            Some(result) => match content_text(result) {
                Some(text) => Ok(text),
                None => Err(provider_error(false, "sampling response missing text content"@)),
            },
        },
    }
}

/// The text in a result: in its content block, or as its content.
pub open spec fn content_text(result: JsonView) -> Option<Seq<char>> {
    match member(result, "content"@) {
        None => None,
        Some(content) => match text_member(content, "text"@) {
            Some(t) => Some(t),
            None => as_text(content),
        },
    }
}

fn read_content(result: &Json) -> (r: Option<String>)
    ensures
        r.deep_view() == content_text(result.deep_view()),
{
    match result.get("content") {
        None => None,
        Some(content) => match content.str_of("text") {
            Some(t) => Some(t.to_owned()),
            None => match content.as_str() {
                Some(t) => Some(t.to_owned()),
                None => None,
            },
        },
    }
}

/// The completion in a client's response. A refusal is worth a retry; a response
/// without text is not.
pub fn sampling_response(response: Json) -> (r: Result<LlmResponse, BrainError>)
    ensures
        match response_text(response.deep_view()) {
            Ok(text) => r is Ok && r->Ok_0.deep_view() == (LlmResponseView {
                text,
                raw: response.deep_view(),
            }),
            Err(e) => fails_with(r, e),
        },
{
    if let Some(err) = response.get("error") {
        let message = match err.str_of("message") {
            Some(m) => cat2("sampling refused: ", m),
            None => cat2("sampling refused: ", "client returned an error"),
        };
        return Err(BrainError::Provider { retryable: true, message });
    }
    let text = match response.get("result") {
        None => {
            return Err(
                BrainError::Provider {
                    retryable: false,
                    message: "sampling response missing 'result'".to_owned(),
                },
            );
        },
        Some(result) => match read_content(result) {
            Some(t) => t,
            None => {
                return Err(
                    BrainError::Provider {
                        retryable: false,
                        message: "sampling response missing text content".to_owned(),
                    },
                );
            },
        },
    };
    Ok(LlmResponse { text, raw: response })
}

/// Why no response to a sampling request came.
#[derive(Debug, Clone, Copy, PartialEq, Eq, Structural)]
pub enum SamplingFailure {
    /// The client was gone before the request was sent.
    Disconnected,
    /// The session ended while the request waited.
    Dropped,
    /// The client took too long.
    TimedOut,
}

/// The message of a failure.
pub open spec fn failure_text(f: SamplingFailure) -> Seq<char> {
    match f {
        SamplingFailure::Disconnected => "client disconnected before sampling response"@,
        SamplingFailure::Dropped => "sampling response channel dropped"@,
        SamplingFailure::TimedOut =>
            "sampling timed out (client did not respond within 120s)"@,
    }
}

/// The error of a request that got no response: always worth a retry.
pub fn sampling_failure(f: SamplingFailure) -> (r: BrainError)
    ensures
        r.deep_view() == provider_error(true, failure_text(f)),
{
    let message = match f {
        SamplingFailure::Disconnected => "client disconnected before sampling response",
        SamplingFailure::Dropped => "sampling response channel dropped",
        SamplingFailure::TimedOut => "sampling timed out (client did not respond within 120s)",
    };
    BrainError::Provider { retryable: true, message: message.to_owned() }
}

} // verus!
