//! A session over a stream of lines: what each line is, and how a connection is
//! authenticated.
use vstd::prelude::*;

use crate::json::{
    as_int, json_parsed, member, object1, parse_json, parse_view, text_member, Json, JsonView,
};
use crate::protocol::{
    error, error_json, message_in, success, success_json, BadMessage, Message, MessageView,
    UNAUTHORIZED,
};
use crate::text::{blank, cat2, is_blank, str_eq};

verus! {

/// What a line of a session is.
#[derive(Debug)]
pub enum LineEvent {
    /// Nothing.
    Blank,
    /// The response to a request of the server, under its id. One whose id is no
    /// integer counts as under id minus one, which no request has.
    Response { id: i64, value: Json },
    /// A request or notification of the client.
    Request(Message),
    /// Something else, with what it is answered.
    Bad(Json),
}

/// [`LineEvent`] as a mathematical value.
#[verifier::ext_equal]
pub enum LineEventView {
    Blank,
    Response { id: i64, value: JsonView },
    Request(MessageView),
    Bad(JsonView),
}

impl DeepView for LineEvent {
    type V = LineEventView;

    open spec fn deep_view(&self) -> LineEventView {
        match self {
            LineEvent::Blank => LineEventView::Blank,
            LineEvent::Response { id, value } => LineEventView::Response {
                id: *id,
                value: value.deep_view(),
            },
            LineEvent::Request(m) => LineEventView::Request(m.deep_view()),
            LineEvent::Bad(v) => LineEventView::Bad(v.deep_view()),
        }
    }
}

/// Whether JSON is a response: it has an id and no method.
pub open spec fn is_response(v: JsonView) -> bool {
    member(v, "method"@) is None && member(v, "id"@) is Some
}

/// The id of a response.
pub open spec fn response_id(v: JsonView) -> i64 {
    match member(v, "id"@) {
        Some(id) => match as_int(id) {
            Some(n) => n,
            None => -1i64,
        },
        None => -1i64,
    }
}

/// What a line that is not blank is, by the JSON that it holds.
pub open spec fn event_in(parsed: Result<JsonView, Seq<char>>) -> LineEventView {
    match parsed {
        Ok(v) if is_response(v) => LineEventView::Response { id: response_id(v), value: v },
        _ => match message_in(parsed) {
            Ok(m) => LineEventView::Request(m),
            Err(e) => LineEventView::Bad(
                error_json(
                    match e.id {
                        Some(id) => id,
                        None => JsonView::Null,
                    },
                    e.code,
                    e.message,
                ),
            ),
        },
    }
}

/// The error response to a line that is no message.
pub fn answer_bad(e: BadMessage) -> (r: Json)
    ensures
        r.deep_view() == error_json(
            match e.deep_view().id {
                Some(id) => id,
                None => JsonView::Null,
            },
            e.code,
            e.message@,
        ),
{
    let BadMessage { id, code, message } = e;
    let id = match id {
        Some(id) => id,
        None => Json::Null,
    };
    error(id, code, message.as_str())
}

/// What a line is, by the JSON that it holds.
pub fn read_event(parsed: Result<Json, String>) -> (r: LineEvent)
    ensures
        r.deep_view() == event_in(parse_view(parsed)),
{
    if let Ok(v) = &parsed {
        if v.get("method").is_none() {
            if let Some(j) = v.get("id") {
                let id: i64 = match j.as_i64() {
                    Some(n) => n,
                    None => -1,
                };
                return LineEvent::Response { id, value: v.dup() };
            }
        }
    }
    match Message::read(&parsed) {
        Ok(m) => LineEvent::Request(m),
        Err(e) => LineEvent::Bad(answer_bad(e)),
    }
}

/// What a line of a session is.
pub fn classify_line(line: &str) -> (r: LineEvent)
    ensures
        r.deep_view() == if is_blank(line@) {
            LineEventView::Blank
        } else {
            event_in(json_parsed(line@))
        },
{
    if blank(line) {
        LineEvent::Blank
    } else {
        read_event(parse_json(line))
    }
}

/// The first line of a connection that must be authenticated: the id to answer
/// under, and the token that it presents.
#[derive(Debug)]
pub struct AuthAttempt {
    pub id: Json,
    pub token: Option<String>,
}

/// The id to answer the first line under.
pub open spec fn attempt_id(parsed: Result<JsonView, Seq<char>>) -> JsonView {
    match message_in(parsed) {
        Ok(m) => match m.id {
            Some(id) => id,
            None => JsonView::Null,
        },
        Err(_) => JsonView::Null,
    }
}

/// The token that a first line presents: it must be an `auth` request with one.
pub open spec fn attempt_token(parsed: Result<JsonView, Seq<char>>) -> Option<Seq<char>> {
    match parsed {
        Err(_) => None,
        Ok(v) => if text_member(v, "method"@) == Some("auth"@) {
            match member(v, "params"@) {
                Some(p) => text_member(p, "token"@),
                None => None,
            }
        } else {
            None
        },
    }
}

/// What the first line of a connection presents, by the JSON that it holds.
pub fn read_auth(parsed: &Result<Json, String>) -> (r: AuthAttempt)
    ensures
        r.id.deep_view() == attempt_id(parse_view(*parsed)),
        r.token.deep_view() == attempt_token(parse_view(*parsed)),
{
    let id = match Message::read(parsed) {
        Ok(m) => match m.id {
            Some(id) => id,
            None => Json::Null,
        },
        Err(_) => Json::Null,
    };
    let token = match parsed {
        Err(_) => None,
        Ok(v) => match v.str_of("method") {
            Some(m) => if str_eq(m, "auth") {
                match v.get("params") {
                    Some(p) => match p.str_of("token") {
                        Some(t) => Some(t.to_owned()),
                        None => None,
                    },
                    None => None,
                }
            } else {
                None
            },
            None => None,
        },
    };
    AuthAttempt { id, token }
}

/// What the first line of a connection presents.
pub fn auth_attempt(line: &str) -> (r: AuthAttempt)
    ensures
        r.id.deep_view() == attempt_id(json_parsed(line@)),
        r.token.deep_view() == attempt_token(json_parsed(line@)),
{
    let parsed = parse_json(line);
    read_auth(&parsed)
}

/// What became of an attempt.
#[derive(Debug)]
pub enum AuthVerdict {
    /// The token stands for a scope.
    Granted,
    /// The token is not valid.
    Refused,
    /// The token could not be checked.
    Failed(String),
    /// No token was presented.
    NoToken,
}

/// The answer to an attempt.
pub open spec fn verdict_json(id: JsonView, verdict: AuthVerdict) -> JsonView {
    match verdict {
        AuthVerdict::Granted => success_json(
            id,
            JsonView::Obj(seq![("authenticated"@, JsonView::Bool(true))]),
        ),
        AuthVerdict::Refused => error_json(id, UNAUTHORIZED, "invalid or revoked token"@),
        AuthVerdict::Failed(e) => error_json(id, UNAUTHORIZED, "verify: "@ + e@),
        AuthVerdict::NoToken => error_json(
            id,
            UNAUTHORIZED,
            "first message must be an auth request with a token"@,
        ),
    }
}

/// The answer to an attempt. Only where it was granted does the session go on;
/// every failure is answered as unauthorized.
pub fn answer_auth(id: Json, verdict: &AuthVerdict) -> (r: (Json, bool))
    ensures
        r.0.deep_view() == verdict_json(id.deep_view(), *verdict),
        r.1 == (*verdict is Granted),
{
    match verdict {
        AuthVerdict::Granted => (success(id, object1("authenticated", Json::Bool(true))), true),
        AuthVerdict::Refused => (error(id, UNAUTHORIZED, "invalid or revoked token"), false),
        AuthVerdict::Failed(e) => {
            let message = cat2("verify: ", e.as_str());
            (error(id, UNAUTHORIZED, message.as_str()), false)
        },
        AuthVerdict::NoToken => (
            error(id, UNAUTHORIZED, "first message must be an auth request with a token"),
            false,
        ),
    }
}

/// A response that the server writes is never taken for a request by the loop
/// that reads it: success and error responses are responses.
pub proof fn law_responses_are_read_as_responses(
    id: JsonView,
    result: JsonView,
    code: i64,
    message: Seq<char>,
)
    ensures
        event_in(Ok(success_json(id, result))) is Response,
        event_in(Ok(error_json(id, code, message))) is Response,
{
    crate::protocol::law_responses_are_no_requests(id, result, code, message);
}

} // verus!
