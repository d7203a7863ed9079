//! Minimal framing of the Model Context Protocol over JSON-RPC 2.0: one request
//! or notification per line.
use vstd::prelude::*;

use crate::json::{
    array, integer, int_json, json_parsed, member, object1, object2, object3, parse_json,
    parse_view, string, text_member, Json, JsonView,
};
use crate::text::cat2;

verus! {

pub const PARSE_ERROR: i64 = -32700;

pub const INVALID_REQUEST: i64 = -32600;

pub const METHOD_NOT_FOUND: i64 = -32601;

pub const INVALID_PARAMS: i64 = -32602;

/// The token lacks the required capability or scope.
pub const UNAUTHORIZED: i64 = -32001;

/// The handshake was rejected.
pub const INCOMPATIBLE_PROTOCOL: i64 = -32002;

pub const INTERNAL_ERROR: i64 = -32603;

/// A parsed JSON-RPC request or notification. `id == None` marks a notification
/// (no response expected).
#[derive(Debug)]
pub struct Message {
    pub id: Option<Json>,
    pub method: String,
    pub params: Option<Json>,
}

/// [`Message`] as a mathematical value.
#[verifier::ext_equal]
pub struct MessageView {
    pub id: Option<JsonView>,
    pub method: Seq<char>,
    pub params: Option<JsonView>,
}

impl DeepView for Message {
    type V = MessageView;

    open spec fn deep_view(&self) -> MessageView {
        MessageView {
            id: self.id.deep_view(),
            method: self.method@,
            params: self.params.deep_view(),
        }
    }
}

/// Why a line is no message: the id to answer under, the error code and the
/// text of the error.
#[derive(Debug)]
pub struct BadMessage {
    pub id: Option<Json>,
    pub code: i64,
    pub message: String,
}

/// [`BadMessage`] as a mathematical value.
#[verifier::ext_equal]
pub struct BadMessageView {
    pub id: Option<JsonView>,
    pub code: i64,
    pub message: Seq<char>,
}

impl DeepView for BadMessage {
    type V = BadMessageView;

    open spec fn deep_view(&self) -> BadMessageView {
        BadMessageView { id: self.id.deep_view(), code: self.code, message: self.message@ }
    }
}

/// The message that a line's JSON holds.
pub open spec fn message_in(parsed: Result<JsonView, Seq<char>>) -> Result<
    MessageView,
    BadMessageView,
> {
    match parsed {
        Err(e) => Err(
            BadMessageView { id: None, code: PARSE_ERROR, message: "parse error: "@ + e },
        ),
        Ok(v) => match text_member(v, "method"@) {
            None => Err(
                BadMessageView {
                    id: member(v, "id"@),
                    code: INVALID_REQUEST,
                    message: "missing 'method'"@,
                },
            ),
            Some(method) => Ok(
                MessageView { id: member(v, "id"@), method, params: member(v, "params"@) },
            ),
        },
    }
}

/// A copy of the member of a key.
pub(crate) fn dup_member(v: &Json, key: &str) -> (r: Option<Json>)
    ensures
        r.deep_view() == member(v.deep_view(), key@),
{
    match v.get(key) {
        Some(j) => Some(j.dup()),
        None => None,
    }
}

impl Message {
    /// The message that a line's JSON holds. On failure the id is taken from the
    /// payload where it has one.
    pub fn read(parsed: &Result<Json, String>) -> (r: Result<Message, BadMessage>)
        ensures
            match message_in(parse_view(*parsed)) {
                Ok(m) => r is Ok && r->Ok_0.deep_view() == m,
                Err(e) => r is Err && r->Err_0.deep_view() == e,
            },
    {
        match parsed {
            Err(e) => Err(
                BadMessage {
                    id: None,
                    code: PARSE_ERROR,
                    message: cat2("parse error: ", e.as_str()),
                },
            ),
            Ok(v) => {
                let id = dup_member(v, "id");
                match v.str_of("method") {
                    None => Err(
                        BadMessage {
                            id,
                            code: INVALID_REQUEST,
                            message: "missing 'method'".to_owned(),
                        },
                    ),
                    Some(method) => Ok(
                        Message { id, method: method.to_owned(), params: dup_member(v, "params") },
                    ),
                }
            },
        }
    }

    /// Parse one line of JSON-RPC.
    pub fn parse(line: &str) -> (r: Result<Message, BadMessage>)
        ensures
            match message_in(json_parsed(line@)) {
                Ok(m) => r is Ok && r->Ok_0.deep_view() == m,
                Err(e) => r is Err && r->Err_0.deep_view() == e,
            },
    {
        let parsed = parse_json(line);
        Message::read(&parsed)
    }

    /// Whether no response is expected.
    pub fn is_notification(&self) -> (r: bool)
        ensures
            r == (self.deep_view().id is None),
    {
        self.id.is_none()
    }
}

/// A success response.
pub open spec fn success_json(id: JsonView, result: JsonView) -> JsonView {
    JsonView::Obj(seq![("id"@, id), ("jsonrpc"@, JsonView::Str("2.0"@)), ("result"@, result)])
}

/// An error response around its payload.
pub open spec fn error_around(id: JsonView, payload: JsonView) -> JsonView {
    JsonView::Obj(seq![("error"@, payload), ("id"@, id), ("jsonrpc"@, JsonView::Str("2.0"@))])
}

/// An error response.
pub open spec fn error_json(id: JsonView, code: i64, message: Seq<char>) -> JsonView {
    error_around(
        id,
        JsonView::Obj(
            seq![("code"@, int_json(code as int)), ("message"@, JsonView::Str(message))],
        ),
    )
}

/// An error response with a structured payload.
pub open spec fn error_data_json(
    id: JsonView,
    code: i64,
    message: Seq<char>,
    data: JsonView,
) -> JsonView {
    error_around(
        id,
        JsonView::Obj(
            seq![
                ("code"@, int_json(code as int)),
                ("data"@, data),
                ("message"@, JsonView::Str(message)),
            ],
        ),
    )
}

/// One block of text.
pub open spec fn text_block(text: Seq<char>) -> JsonView {
    JsonView::Obj(seq![("text"@, JsonView::Str(text)), ("type"@, JsonView::Str("text"@))])
}

/// A tool's result: a single block of text.
pub open spec fn text_result_json(text: Seq<char>) -> JsonView {
    JsonView::Obj(seq![("content"@, JsonView::Arr(seq![text_block(text)]))])
}

/// A tool's failure: a single block of text, marked as an error.
pub open spec fn tool_error_json(text: Seq<char>) -> JsonView {
    JsonView::Obj(
        seq![
            ("content"@, JsonView::Arr(seq![text_block(text)])),
            ("isError"@, JsonView::Bool(true)),
        ],
    )
}

/// Build a JSON-RPC success response value: `{jsonrpc, id, result}`.
pub fn success(id: Json, result: Json) -> (r: Json)
    ensures
        r.deep_view() == success_json(id.deep_view(), result.deep_view()),
{
    object3("id", id, "jsonrpc", string("2.0"), "result", result)
}

/// Build a JSON-RPC error response value: `{jsonrpc, id, error:{code,message}}`.
pub fn error(id: Json, code: i64, message: &str) -> (r: Json)
    ensures
        r.deep_view() == error_json(id.deep_view(), code, message@),
{
    let payload = object2("code", integer(code), "message", string(message));
    object3("error", payload, "id", id, "jsonrpc", string("2.0"))
}

/// Build a JSON-RPC error response with a structured `data` payload, so that a
/// client can recover without parsing free-form strings.
pub fn error_with_data(id: Json, code: i64, message: &str, data: Json) -> (r: Json)
    ensures
        r.deep_view() == error_data_json(id.deep_view(), code, message@, data.deep_view()),
{
    let payload = object3("code", integer(code), "data", data, "message", string(message));
    object3("error", payload, "id", id, "jsonrpc", string("2.0"))
}

fn make_content(text: &str) -> (r: Json)
    ensures
        r.deep_view() == JsonView::Arr(seq![text_block(text@)]),
{
    let block = object2("text", string(text), "type", string("text"));
    let items: Vec<Json> = vec![block];
    assert(items.deep_view() =~= seq![text_block(text@)]);
    array(items)
}

/// A tool's success result: a single text content block.
pub fn text_result(text: &str) -> (r: Json)
    ensures
        r.deep_view() == text_result_json(text@),
{
    object1("content", make_content(text))
}

/// A tool's error result — the tool ran but failed. Still a successful response;
/// protocol-level errors use [`error`] instead.
pub fn tool_error(text: &str) -> (r: Json)
    ensures
        r.deep_view() == tool_error_json(text@),
{
    object2("content", make_content(text), "isError", Json::Bool(true))
}

/// A response is never taken for a request: it has no method.
pub proof fn law_responses_are_no_requests(
    id: JsonView,
    result: JsonView,
    code: i64,
    message: Seq<char>,
)
    ensures
        member(success_json(id, result), "method"@) is None,
        member(error_json(id, code, message), "method"@) is None,
        member(success_json(id, result), "id"@) == Some(id),
        member(error_json(id, code, message), "id"@) == Some(id),
{
    reveal_strlit("id");
    reveal_strlit("jsonrpc");
    reveal_strlit("result");
    reveal_strlit("error");
    reveal_strlit("method");
    assert("result"@[0] == 'r' && "method"@[0] == 'm' && "error"@.len() == 5 && "id"@.len() == 2
        && "jsonrpc"@.len() == 7);
    reveal_with_fuel(crate::json::member_in, 4);
    let s = success_json(id, result)->Obj_0;
    assert(s.drop_first()[0] == s[1]);
    assert(s.drop_first().drop_first()[0] == s[2]);
    let e = error_json(id, code, message)->Obj_0;
    assert(e.drop_first()[0] == e[1]);
    assert(e.drop_first().drop_first()[0] == e[2]);
}

} // verus!
