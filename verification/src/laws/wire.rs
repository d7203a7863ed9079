//! What is said on the wire: messages, gates, handshakes, files and models.
use vstd::prelude::*;

use crate::declarations::entity_ref_json;
use crate::error::BrainErrorView;
use crate::http::{
    extension, file_answer, file_name, file_type, header_value, last_dot, length_in, lower,
    request_line, BodyView,
};
use crate::json::{as_int, int_json, member, member_in, text_member, JsonView};
use crate::llm::{response_for, LlmResponseView};
use crate::migration::ledger_steps;
use crate::project::EntityRefView;
use crate::protocol::{
    error_data_json, error_json, message_in, success_json, text_result_json, tool_error_json,
    INVALID_REQUEST, MessageView, PARSE_ERROR, UNAUTHORIZED,
};
use crate::requests::{
    capability_for, direction_of, flag, int_argument, is_tool, mode_of, nat_or, needed_text,
    space_of, start_of, text_or, texts_in, ToolErrView,
};
use crate::sampling::{params_json, request_json, response_text, user_text};
use crate::security::{capability_text, Capability, ScopeView};
use crate::server::{
    action_for, agreed_version, call_gate, initialize_json, is_asked_for, server_info, text_json,
    ActionView, HANDSHAKE_PROTOCOL_MAX, HANDSHAKE_PROTOCOL_MIN, HANDSHAKE_STORE_FORMAT_VERSION,
};
use crate::session::{attempt_id, attempt_token, response_id, verdict_json, AuthVerdict};
use crate::tables::TablesView;
use crate::text::{occurs_in, words};
use crate::time::Timestamp;

verus! {

/// The member of an object at a place, where no member before it has its name.
pub proof fn lemma_member_at(members: Seq<(Seq<char>, JsonView)>, i: int)
    requires
        0 <= i < members.len(),
        forall|j: int| 0 <= j < i ==> (#[trigger] members[j]).0 != members[i].0,
    ensures
        member_in(members, members[i].0) == Some(members[i].1),
    decreases i,
{
    if i > 0 {
        let rest = members.drop_first();
        assert(members[0].0 != members[i].0);
        assert forall|j: int| 0 <= j < i - 1 implies (#[trigger] rest[j]).0 != rest[i - 1].0 by {
            assert(members[j + 1].0 != members[i].0);
        }
        lemma_member_at(rest, i - 1);
        assert(rest[i - 1] == members[i]);
    }
}

/// No member of a name.
pub proof fn lemma_no_member(members: Seq<(Seq<char>, JsonView)>, key: Seq<char>)
    requires
        forall|j: int| 0 <= j < members.len() ==> (#[trigger] members[j]).0 != key,
    ensures
        member_in(members, key) is None,
    decreases members.len(),
{
    if members.len() > 0 {
        assert(members[0].0 != key);
        let rest = members.drop_first();
        assert forall|j: int| 0 <= j < rest.len() implies (#[trigger] rest[j]).0 != key by {
            assert(members[j + 1].0 != key);
        }
        lemma_no_member(rest, key);
    }
}

/// What looks is allowed to those who may read, and what changes something only to
/// those who may do just that; what is no tool needs nothing.
pub proof fn law_tools_need_their_capability(name: Seq<char>)
    ensures
        capability_for(name) is None <==> !is_tool(name),
        capability_for(name) == Some(Capability::Ingest) <==> name == "ingest"@,
        capability_for(name) == Some(Capability::Redact) <==> name == "redact"@,
        capability_for(name) == Some(Capability::Write) <==> name == "declare"@ || name
            == "remember"@ || name == "retract"@ || name == "merge_entities"@,
        capability_for(name) == Some(Capability::Read) <==> name == "search"@ || name == "recall"@
            || name == "brief"@ || name == "navigate"@ || name == "why"@ || name
            == "contradictions"@ || name == "traverse"@ || name == "review_merges"@ || name
            == "stats"@,
        capability_for(name) != Some(Capability::Sample),
{
    reveal_strlit("ingest");
    reveal_strlit("redact");
    reveal_strlit("declare");
    reveal_strlit("remember");
    reveal_strlit("retract");
    reveal_strlit("merge_entities");
    reveal_strlit("search");
    reveal_strlit("recall");
    reveal_strlit("brief");
    reveal_strlit("navigate");
    reveal_strlit("why");
    reveal_strlit("contradictions");
    reveal_strlit("traverse");
    reveal_strlit("review_merges");
    reveal_strlit("stats");
    assert("ingest"@[0] == 'i');
    assert("redact"@[0] == 'r' && "redact"@[2] == 'd' && "redact"@.len() == 6);
    assert("declare"@[0] == 'd');
    assert("remember"@[0] == 'r' && "remember"@[2] == 'm' && "remember"@.len() == 8);
    assert("retract"@[0] == 'r' && "retract"@[2] == 't' && "retract"@.len() == 7);
    assert("merge_entities"@[0] == 'm');
    assert("search"@[0] == 's');
    assert("recall"@[0] == 'r' && "recall"@[2] == 'c');
    assert("brief"@[0] == 'b');
    assert("navigate"@[0] == 'n');
    assert("why"@[0] == 'w');
    assert("contradictions"@[0] == 'c');
    assert("traverse"@[0] == 't');
    assert("review_merges"@[0] == 'r' && "review_merges"@[2] == 'v');
    assert("stats"@[0] == 's');
}

/// Without a scope every call passes; and what is no tool is left to be refused as
/// such.
pub proof fn law_open_server_passes_calls(
    db: TablesView,
    scope: Option<ScopeView>,
    tool: Seq<char>,
    args: JsonView,
    now: Timestamp,
)
    ensures
        scope is None ==> call_gate(db, scope, tool, args, now) is Ok,
        !is_tool(tool) ==> call_gate(db, scope, tool, args, now) is Ok,
{
}

/// A call is about the space that it names, and else about the personal one.
pub proof fn law_call_names_its_space(args: JsonView)
    ensures
        member(args, "space"@) matches Some(JsonView::Str(s)) ==> space_of(args) == s,
        !(member(args, "space"@) is Some && member(args, "space"@)->Some_0 is Str)
            ==> space_of(args)
            == "personal"@,
{
}

/// The arguments of a call: a text, a number or a flag counts where it is of its
/// kind, and else the default does.
pub proof fn law_arguments_are_taken_by_kind(
    args: JsonView,
    key: Seq<char>,
    text: Seq<char>,
    number: u64,
)
    ensures
        match member(args, key) {
            Some(JsonView::Str(s)) => text_or(args, key, text) == s && needed_text(args, key)
                == Ok::<
                Seq<char>,
                ToolErrView,
            >(s),
            _ => text_or(args, key, text) == text && needed_text(args, key) is Err,
        },
        match member(args, key) {
            Some(JsonView::Pos(n)) => nat_or(args, key, number) == n,
            _ => nat_or(args, key, number) == number,
        },
        flag(args, key) <==> member(args, key) == Some(JsonView::Bool(true)),
        match member(args, key) {
            Some(JsonView::Pos(n)) => int_argument(args, key) is Some && (n <= i64::MAX
                ==> int_argument(args, key)->Some_0 == n),
            Some(JsonView::Neg(n)) => int_argument(args, key) == Some(n),
            _ => int_argument(args, key) is None,
        },
{
}

/// A mode and a direction are taken by name; any other name is the widest.
pub proof fn law_modes_are_taken_by_name(s: Seq<char>)
    ensures
        mode_of(s) is Lexical <==> s == "lexical"@,
        mode_of(s) is LexicalVector <==> s == "lexical-vector"@,
        mode_of(s) is Dense <==> s == "dense"@,
        mode_of(s) is Graph <==> s == "graph"@,
        mode_of(s) is Community <==> s == "community"@,
        direction_of(s) is Out <==> s == "out"@,
        direction_of(s) is In <==> s == "in"@,
{
    reveal_strlit("lexical");
    reveal_strlit("lexical-vector");
    reveal_strlit("dense");
    reveal_strlit("graph");
    reveal_strlit("community");
    reveal_strlit("out");
    reveal_strlit("in");
    assert("lexical"@.len() == 7 && "lexical-vector"@.len() == 14);
    assert("dense"@.len() == 5 && "graph"@.len() == 5 && "dense"@[0] == 'd' && "graph"@[0] == 'g');
    assert("community"@.len() == 9);
    assert("out"@.len() == 3 && "in"@.len() == 2);
}

/// The texts of a list are its items that are texts, in order.
pub proof fn law_texts_of_a_list(items: Seq<JsonView>)
    ensures
        forall|s: Seq<char>| #[trigger]
            texts_in(items).contains(s) <==> exists|i: int|
                0 <= i < items.len() && #[trigger] items[i] == JsonView::Str(s),
        (forall|i: int| 0 <= i < items.len() ==> (#[trigger] items[i]) is Str) ==> texts_in(
            items,
        ).len() == items.len(),
    decreases items.len(),
{
    if items.len() > 0 {
        let init = items.drop_last();
        let n = items.len() - 1;
        law_texts_of_a_list(init);
        assert(items[n] == items.last());
        let before = texts_in(init);
        let r = texts_in(items);
        assert forall|s: Seq<char>| #[trigger] r.contains(s) <==> exists|i: int|
            0 <= i < items.len() && #[trigger] items[i] == JsonView::Str(s) by {
            if before.contains(s) {
                let k = choose|k: int| 0 <= k < before.len() && before[k] == s;
                assert(r[k] == s);
                let i = choose|i: int|
                    0 <= i < init.len() && #[trigger] init[i] == JsonView::Str(s);
                assert(items[i] == init[i]);
            }
            if r.contains(s) && !before.contains(s) {
                let k = choose|k: int| 0 <= k < r.len() && r[k] == s;
                if k < before.len() {
                    assert(before[k] == s);
                }
                assert(items[n] == JsonView::Str(s));
            }
            if exists|i: int| 0 <= i < items.len() && #[trigger] items[i] == JsonView::Str(s) {
                let i = choose|i: int|
                    0 <= i < items.len() && #[trigger] items[i] == JsonView::Str(s);
                if i < n {
                    assert(init[i] == items[i]);
                } else {
                    assert(r[before.len() as int] == s);
                }
            }
        }
        if forall|i: int| 0 <= i < items.len() ==> (#[trigger] items[i]) is Str {
            assert forall|i: int| 0 <= i < init.len() implies (#[trigger] init[i]) is Str by {
                assert(init[i] == items[i]);
            }
        }
    }
}

/// A walk starts from at least one entity, or is refused.
pub proof fn law_walk_starts_somewhere(args: JsonView)
    ensures
        start_of(args) matches Ok(ids) ==> ids.len() > 0 && (member(args, "start"@) matches Some(
            JsonView::Arr(items),
        ) && ids == texts_in(items)),
        start_of(args) matches Err(e) ==> e is Params,
{
}

/// The newer version of the protocol is agreed on just where the client asks for it.
pub proof fn law_newer_version_is_asked_for(params: Option<JsonView>)
    ensures
        agreed_version(params) == "2026-07-28"@ <==> (params matches Some(p) && text_member(
            p,
            "protocolVersion"@,
        ) == Some("2026-07-28"@)),
        agreed_version(params) == "2026-07-28"@ || agreed_version(params) == "2025-11-25"@,
{
    reveal_strlit("2026-07-28");
    reveal_strlit("2025-11-25");
    assert("2026-07-28"@[3] == '6' && "2025-11-25"@[3] == '5');
}

/// The answer to a client that starts names the version agreed on and the server.
pub proof fn law_start_is_answered(params: Option<JsonView>, version: Seq<char>)
    ensures
        ({
            let v = initialize_json(params, version);
            &&& text_member(v, "protocolVersion"@) == Some(agreed_version(params))
            &&& member(v, "serverInfo"@) matches Some(s) && text_member(s, "name"@) == Some(
                "oxibrain"@,
            ) && text_member(s, "version"@) == Some(version)
            &&& member(v, "capabilities"@) is Some
        }),
{
    reveal_strlit("capabilities");
    reveal_strlit("protocolVersion");
    reveal_strlit("serverInfo");
    reveal_strlit("name");
    reveal_strlit("version");
    assert("capabilities"@.len() == 12 && "protocolVersion"@.len() == 15 && "serverInfo"@.len()
        == 10 && "name"@.len() == 4 && "version"@.len() == 7);
    let m = initialize_json(params, version)->Obj_0;
    lemma_member_at(m, 0);
    lemma_member_at(m, 1);
    lemma_member_at(m, 2);
    let s = m[2].1->Obj_0;
    lemma_member_at(s, 0);
    lemma_member_at(s, 1);
}

/// The server tells its name, its ranges and the operations asked for, or all of
/// them where none is asked for.
pub proof fn law_server_tells_its_operations(
    asked: Seq<Seq<char>>,
    operations: Seq<Seq<char>>,
    version: Seq<char>,
)
    ensures
        ({
            let v = server_info(asked, operations, version);
            &&& member(v, "supported_operations"@) matches Some(JsonView::Arr(items)) && forall|
                op: Seq<char>,
            | #[trigger]
                items.contains(JsonView::Str(op)) <==> operations.contains(op) && (asked.len() == 0
                    || asked.contains(op))
            &&& text_member(v, "server_version"@) == Some(version)
            &&& text_member(v, "server_name"@) == Some("oxibrain"@)
            &&& member(v, "min_compatible"@) == Some(JsonView::Pos(HANDSHAKE_PROTOCOL_MIN as u64))
            &&& member(v, "max_compatible"@) == Some(JsonView::Pos(HANDSHAKE_PROTOCOL_MAX as u64))
            &&& member(v, "store_format_version"@) == Some(
                JsonView::Pos(HANDSHAKE_STORE_FORMAT_VERSION as u64),
            )
        }),
{
    reveal_strlit("max_compatible");
    reveal_strlit("min_compatible");
    reveal_strlit("server_name");
    reveal_strlit("server_version");
    reveal_strlit("store_format_version");
    reveal_strlit("supported_operations");
    assert("max_compatible"@[1] == 'a' && "min_compatible"@[1] == 'i');
    assert("server_name"@.len() == 11 && "server_version"@.len() == 14 && "server_version"@[1]
        == 'e');
    assert("store_format_version"@.len() == 20 && "supported_operations"@.len() == 20
        && "store_format_version"@[1] == 't' && "supported_operations"@[1] == 'u');
    assert("max_compatible"@.len() == 14 && "min_compatible"@.len() == 14);
    let m = server_info(asked, operations, version)->Obj_0;
    lemma_member_at(m, 0);
    lemma_member_at(m, 1);
    lemma_member_at(m, 2);
    lemma_member_at(m, 3);
    lemma_member_at(m, 4);
    lemma_member_at(m, 5);
    let kept = operations.filter(is_asked_for(asked));
    crate::rows::lemma_selected(operations, is_asked_for(asked));
    let items = kept.map_values(text_json());
    assert forall|op: Seq<char>| #[trigger] items.contains(JsonView::Str(op))
        <==> operations.contains(op) && (asked.len() == 0 || asked.contains(op)) by {
        if items.contains(JsonView::Str(op)) {
            let k = choose|k: int| 0 <= k < items.len() && items[k] == JsonView::Str(op);
            assert(kept[k] == op);
            assert(kept.contains(op));
        }
        if operations.contains(op) && (asked.len() == 0 || asked.contains(op)) {
            assert(kept.contains(op));
            let k = choose|k: int| 0 <= k < kept.len() && kept[k] == op;
            assert(items[k] == JsonView::Str(op));
        }
    }
}

/// A message that is read has the id, the method and the parameters of the line; a
/// line that is no JSON, or that has no method, is no message.
pub proof fn law_messages_are_read_as_written(parsed: Result<JsonView, Seq<char>>)
    ensures
        match message_in(parsed) {
            Ok(m) => parsed matches Ok(v) && member(v, "method"@) == Some(JsonView::Str(m.method))
                && m.id == member(v, "id"@) && m.params == member(v, "params"@),
            Err(e) => (parsed is Err && e.code == PARSE_ERROR && e.id is None)
                || (parsed matches Ok(
                v,
            ) && e.code == INVALID_REQUEST && e.id == member(v, "id"@) && !(member(
                v,
                "method"@,
            ) is Some && member(v, "method"@)->Some_0 is Str)),
        },
{
}

/// A success holds its id and its result and no error; an error holds its id, its
/// code and its message and no result.
pub proof fn law_answers_hold_their_id(
    id: JsonView,
    result: JsonView,
    code: i64,
    message: Seq<char>,
    data: JsonView,
)
    ensures
        ({
            let v = success_json(id, result);
            &&& member(v, "id"@) == Some(id)
            &&& member(v, "result"@) == Some(result)
            &&& member(v, "error"@) is None
            &&& text_member(v, "jsonrpc"@) == Some("2.0"@)
        }),
        ({
            let v = error_json(id, code, message);
            &&& member(v, "id"@) == Some(id)
            &&& member(v, "result"@) is None
            &&& text_member(v, "jsonrpc"@) == Some("2.0"@)
            &&& member(v, "error"@) matches Some(e) && text_member(e, "message"@) == Some(message)
                && (member(e, "code"@) matches Some(c) && as_int(c) == Some(code))
        }),
        ({
            let v = error_data_json(id, code, message, data);
            &&& member(v, "id"@) == Some(id)
            &&& member(v, "result"@) is None
            &&& member(v, "error"@) matches Some(e) && text_member(e, "message"@) == Some(message)
                && member(e, "data"@) == Some(data) && (member(e, "code"@) matches Some(c)
                && as_int(c) == Some(code))
        }),
{
    reveal_strlit("id");
    reveal_strlit("result");
    reveal_strlit("error");
    reveal_strlit("jsonrpc");
    reveal_strlit("code");
    reveal_strlit("data");
    reveal_strlit("message");
    assert("id"@.len() == 2 && "result"@.len() == 6 && "error"@.len() == 5 && "jsonrpc"@.len()
        == 7);
    assert("code"@.len() == 4 && "data"@.len() == 4 && "message"@.len() == 7);
    assert("code"@[0] == 'c' && "data"@[0] == 'd');
    let a = success_json(id, result)->Obj_0;
    lemma_member_at(a, 0);
    lemma_member_at(a, 1);
    lemma_member_at(a, 2);
    lemma_no_member(a, "error"@);
    let b = error_json(id, code, message)->Obj_0;
    lemma_member_at(b, 0);
    lemma_member_at(b, 1);
    lemma_member_at(b, 2);
    lemma_no_member(b, "result"@);
    lemma_member_at(b[0].1->Obj_0, 0);
    lemma_member_at(b[0].1->Obj_0, 1);
    let c = error_data_json(id, code, message, data)->Obj_0;
    lemma_member_at(c, 0);
    lemma_member_at(c, 1);
    lemma_no_member(c, "result"@);
    lemma_member_at(c[0].1->Obj_0, 0);
    lemma_member_at(c[0].1->Obj_0, 1);
    lemma_member_at(c[0].1->Obj_0, 2);
}

/// The result of a tool holds its text; only that of a tool that failed is marked
/// as an error.
pub proof fn law_tool_results_hold_their_text(text: Seq<char>)
    ensures
        ({
            let v = text_result_json(text);
            &&& member(v, "isError"@) is None
            &&& holds_text(v, text)
        }),
        ({
            let v = tool_error_json(text);
            &&& member(v, "isError"@) == Some(JsonView::Bool(true))
            &&& holds_text(v, text)
        }),
{
    reveal_strlit("content");
    reveal_strlit("isError");
    reveal_strlit("text");
    reveal_strlit("type");
    assert("content"@[0] == 'c' && "isError"@[0] == 'i');
    assert("text"@[1] == 'e' && "type"@[1] == 'y');
    let a = text_result_json(text)->Obj_0;
    lemma_member_at(a, 0);
    lemma_no_member(a, "isError"@);
    let b = tool_error_json(text)->Obj_0;
    lemma_member_at(b, 0);
    lemma_member_at(b, 1);
    let block = a[0].1->Arr_0[0]->Obj_0;
    lemma_member_at(block, 0);
    lemma_member_at(block, 1);
}

/// Whether a result is one block of a text.
pub open spec fn holds_text(v: JsonView, text: Seq<char>) -> bool {
    member(v, "content"@) matches Some(JsonView::Arr(blocks)) && blocks.len() == 1 && text_member(
        blocks[0],
        "text"@,
    ) == Some(text) && text_member(blocks[0], "type"@) == Some("text"@)
}

/// What is done with a message that has an id: tools and resources are left to be
/// run and read with its parameters, and a method that is not known is refused.
pub proof fn law_methods_are_taken_by_name(m: MessageView, version: Seq<char>)
    requires
        m.id is Some,
    ensures
        ({
            let r = action_for(m, version);
            &&& r matches ActionView::CallTool { id, params } ==> m.method == "tools/call"@ && Some(
                id,
            ) == m.id && params == m.params
            &&& m.method == "tools/call"@ ==> r is CallTool
            &&& r matches ActionView::ReadResource { id, params } ==> m.method
                == "resources/read"@ && Some(id) == m.id && params == m.params
            &&& m.method == "resources/read"@ ==> r is ReadResource
            &&& r matches ActionView::Handshake { id, params } ==> m.method == "handshake"@ && Some(
                id,
            ) == m.id && params == m.params
            &&& m.method == "handshake"@ ==> r is Handshake
            &&& m.method == "ping"@ ==> r == ActionView::Reply(
                success_json(m.id->Some_0, JsonView::Obj(Seq::empty())),
            )
        }),
{
    reveal_strlit("tools/call");
    reveal_strlit("tools/list");
    reveal_strlit("resources/read");
    reveal_strlit("resources/list");
    reveal_strlit("handshake");
    reveal_strlit("ping");
    reveal_strlit("initialize");
    reveal_strlit("initialized");
    reveal_strlit("notifications/initialized");
    assert("tools/call"@.len() == 10 && "tools/list"@.len() == 10 && "initialize"@.len() == 10);
    assert("tools/call"@[6] == 'c' && "tools/list"@[6] == 'l' && "tools/call"@[0] == 't'
        && "initialize"@[0] == 'i');
    assert("resources/read"@.len() == 14 && "resources/list"@.len() == 14);
    assert("resources/read"@[10] == 'r' && "resources/list"@[10] == 'l');
    assert("handshake"@.len() == 9 && "ping"@.len() == 4 && "initialized"@.len() == 11
        && "notifications/initialized"@.len() == 25);
}

/// A token is taken from a message that asks for just that; else there is none.
pub proof fn law_token_is_taken_from_the_request(parsed: Result<JsonView, Seq<char>>)
    ensures
        attempt_token(parsed) matches Some(t) ==> parsed matches Ok(v) && member(v, "method"@)
            == Some(JsonView::Str("auth"@)) && (member(v, "params"@) matches Some(p) && member(
            p,
            "token"@,
        ) == Some(JsonView::Str(t))),
        attempt_token(parsed) is None ==> (parsed matches Ok(v) ==> member(v, "method"@) != Some(
            JsonView::Str("auth"@),
        ) || member(v, "params"@) is None
            || !(member(member(v, "params"@)->Some_0, "token"@) is Some
            && member(member(v, "params"@)->Some_0, "token"@)->Some_0 is Str)),
        message_in(parsed) matches Ok(m) ==> (m.id matches Some(id) ==> attempt_id(parsed) == id),
{
}

/// Only a token that stands for a scope is answered by a success; every other
/// verdict is answered as unauthorized, under the same id.
pub proof fn law_only_a_good_token_is_granted(id: JsonView, verdict: AuthVerdict)
    ensures
        member(verdict_json(id, verdict), "id"@) == Some(id),
        member(verdict_json(id, verdict), "result"@) is Some <==> verdict is Granted,
        !(verdict is Granted) ==> (member(verdict_json(id, verdict), "error"@) matches Some(e)
            && member(e, "code"@) == Some(int_json(UNAUTHORIZED as int))),
        verdict is Granted ==> (member(verdict_json(id, verdict), "result"@) matches Some(r)
            && member(r, "authenticated"@) == Some(JsonView::Bool(true))),
{
    let granted = JsonView::Obj(seq![("authenticated"@, JsonView::Bool(true))]);
    let text = match verdict {
        AuthVerdict::Refused => "invalid or revoked token"@,
        AuthVerdict::Failed(e) => "verify: "@ + e@,
        AuthVerdict::NoToken => "first message must be an auth request with a token"@,
        AuthVerdict::Granted => Seq::empty(),
    };
    law_answers_hold_their_id(id, granted, UNAUTHORIZED, text, granted);
    lemma_member_at(granted->Obj_0, 0);
}

/// The id of a response is its number, and minus one where it has none.
pub proof fn law_response_is_told_by_its_id(v: JsonView)
    ensures
        match member(v, "id"@) {
            Some(JsonView::Neg(n)) => response_id(v) == n,
            Some(JsonView::Pos(n)) => n <= i64::MAX ==> response_id(v) == n,
            _ => response_id(v) == -1,
        },
{
}

/// What a client is asked to sample: its system text and the prompt, under a limit.
pub proof fn law_sampling_asks_with_the_prompt(
    system: Option<Seq<char>>,
    prompt: Seq<char>,
    id: i64,
    method: Seq<char>,
    max_tokens: u32,
)
    ensures
        ({
            let t = user_text(system, prompt);
            &&& t.len() >= prompt.len()
            &&& t.skip(t.len() - prompt.len()) == prompt
            &&& system matches Some(s) ==> s.is_prefix_of(t) && t.len() == s.len() + 2
                + prompt.len()
            &&& system is None ==> t == prompt
            &&& member(params_json(t, max_tokens), "maxTokens"@) == Some(
                JsonView::Pos(max_tokens as u64),
            )
            &&& member(params_json(t, max_tokens), "messages"@) matches Some(JsonView::Arr(ms))
                && ms.len() == 1 && text_member(ms[0], "role"@) == Some("user"@) && (member(
                ms[0],
                "content"@,
            ) matches Some(c) && text_member(c, "text"@) == Some(t))
            &&& text_member(request_json(id, method, params_json(t, max_tokens)), "method"@)
                == Some(
                method,
            )
            &&& member(request_json(id, method, params_json(t, max_tokens)), "params"@) == Some(
                params_json(t, max_tokens),
            )
            &&& member(request_json(id, method, params_json(t, max_tokens)), "id"@) == Some(
                int_json(id as int),
            )
        }),
{
    let t = user_text(system, prompt);
    reveal_strlit("\n\n");
    assert("\n\n"@.len() == 2);
    assert(t.skip(t.len() - prompt.len()) =~= prompt);
    reveal_strlit("maxTokens");
    reveal_strlit("messages");
    reveal_strlit("content");
    reveal_strlit("role");
    reveal_strlit("text");
    reveal_strlit("type");
    reveal_strlit("id");
    reveal_strlit("jsonrpc");
    reveal_strlit("method");
    reveal_strlit("params");
    assert("maxTokens"@.len() == 9 && "messages"@.len() == 8);
    assert("content"@.len() == 7 && "role"@.len() == 4);
    assert("text"@[1] == 'e' && "type"@[1] == 'y');
    assert("id"@.len() == 2 && "jsonrpc"@.len() == 7 && "method"@.len() == 6 && "params"@.len()
        == 6);
    assert("method"@[0] == 'm' && "params"@[0] == 'p');
    let p = params_json(t, max_tokens)->Obj_0;
    lemma_member_at(p, 0);
    lemma_member_at(p, 1);
    let one = p[1].1->Arr_0[0]->Obj_0;
    lemma_member_at(one, 0);
    lemma_member_at(one, 1);
    lemma_member_at(one[0].1->Obj_0, 0);
    let r = request_json(id, method, params_json(t, max_tokens))->Obj_0;
    lemma_member_at(r, 0);
    lemma_member_at(r, 1);
    lemma_member_at(r, 2);
    lemma_member_at(r, 3);
}

/// A sampled text is that of the content of the result. A refusal may be tried
/// again; an answer without a text may not.
pub proof fn law_sampled_text_is_that_of_the_content(response: JsonView)
    ensures
        match response_text(response) {
            Ok(t) => {
                &&& member(response, "error"@) is None
                &&& member(response, "result"@) matches Some(r)
                    && member(r, "content"@) matches Some(
                    c,
                ) && (c == JsonView::Str(t) || text_member(c, "text"@) == Some(t))
            },
            Err(e) => e matches BrainErrorView::Provider { retryable, .. } && (retryable
                <==> member(
                response,
                "error"@,
            ) is Some),
        },
{
}

/// The request line gives the method and the path; what is missing of them is empty
/// or the root.
pub proof fn law_request_line_gives_method_and_path(line: Seq<char>)
    ensures
        words(line).len() >= 2 ==> request_line(line) == (words(line)[0], words(line)[1]),
        words(line).len() == 1 ==> request_line(line) == (words(line)[0], "/"@),
        words(line).len() == 0 ==> request_line(line).0.len() == 0 && request_line(line).1 == "/"@,
{
    reveal_strlit("");
    assert(""@.len() == 0);
}

/// A header of a name has what follows it as its value.
pub proof fn law_header_value_follows_the_name(header: Seq<char>, name: Seq<char>)
    ensures
        header_value(header, name) matches Some(v) ==> header == name + v,
        header_value(header, name) is None ==> !name.is_prefix_of(header),
{
    if let Some(v) = header_value(header, name) {
        assert(header =~= name + v);
    }
}

/// A length that is not a number counts as none; a header of another name has no
/// length.
pub proof fn law_length_is_that_of_the_header(header: Seq<char>)
    ensures
        length_in(header) is Some <==> "content-length:"@.is_prefix_of(header)
            || "Content-Length:"@.is_prefix_of(header),
{
}

/// Lowering a letter changes capitals alone, by the distance of the two alphabets.
pub proof fn law_capitals_are_lowered(c: char)
    ensures
        'A' <= c <= 'Z' ==> lower(c) as u32 == c as u32 + 32 && 'a' <= lower(c) <= 'z',
        !('A' <= c <= 'Z') ==> lower(c) == c,
        lower(lower(c)) == lower(c),
{
}

/// The extension of a file is what follows the last dot of its name, where some name
/// stands before the dot.
pub proof fn law_extension_follows_the_last_dot(path: Seq<char>)
    ensures
        extension(path) matches Some(e) ==> file_name(path) matches Some(name) && {
            let at = name.len() - e.len() - 1;
            &&& at > 0
            &&& name[at] == '.'
            &&& name.skip(at + 1) == e
            &&& !e.contains('.')
        },
        extension(path) is None ==> (file_name(path) matches Some(name) ==> forall|k: int|
            0 < k < name.len() ==> #[trigger] name[k] != '.'),
{
    if let Some(name) = file_name(path) {
        lemma_last_dot(name);
        if let Some(e) = extension(path) {
            let at = last_dot(name)->Some_0;
            if e.contains('.') {
                let k = choose|k: int| 0 <= k < e.len() && e[k] == '.';
                assert(name[at + 1 + k] == '.');
            }
        }
    }
}

/// The last dot of a name.
proof fn lemma_last_dot(name: Seq<char>)
    ensures
        match last_dot(name) {
            Some(i) => 0 <= i < name.len() && name[i] == '.' && forall|k: int|
                i < k < name.len() ==> #[trigger] name[k] != '.',
            None => forall|k: int| 0 <= k < name.len() ==> #[trigger] name[k] != '.',
        },
    decreases name.len(),
{
    if name.len() > 0 && name.last() != '.' {
        let init = name.drop_last();
        lemma_last_dot(init);
        let from: int = match last_dot(init) {
            Some(i) => i + 1,
            None => 0,
        };
        assert forall|k: int| from <= k < name.len() implies #[trigger] name[k] != '.' by {
            if k < init.len() {
                assert(init[k] == name[k]);
            }
        }
    }
}

/// A file that is there is answered with its bytes and its type; one that is not by
/// the index page, and without one by not found. Without a directory nothing is
/// found.
pub proof fn law_files_are_answered(
    configured: bool,
    pieces: Seq<Seq<char>>,
    file: Option<Seq<u8>>,
    index: Option<Seq<u8>>,
)
    ensures
        ({
            let r = file_answer(configured, pieces, file, index);
            &&& r.status == 200 || r.status == 404
            &&& r.status == 200 <==> configured && (file is Some || index is Some)
            &&& configured && file is Some ==> r.body == BodyView::Bytes(file->Some_0)
                && r.content_type == file_type(pieces)
            &&& configured && file is None && index is Some ==> r.body == BodyView::Bytes(
                index->Some_0,
            ) && r.content_type == "text/html; charset=utf-8"@
        }),
{
}

/// A model that is played answers with the response of the first key that occurs in
/// the prompt.
pub proof fn law_first_key_answers(
    responses: Seq<(Seq<char>, LlmResponseView)>,
    prompt: Seq<char>,
)
    ensures
        match response_for(responses, prompt) {
            Some(r) => exists|i: int|
                0 <= i < responses.len() && (#[trigger] responses[i]).1 == r && occurs_in(
                    prompt,
                    responses[i].0,
                ) && forall|j: int|
                    0 <= j < i ==> !occurs_in(prompt, (#[trigger] responses[j]).0),
            None => forall|i: int|
                0 <= i < responses.len() ==> !occurs_in(prompt, (#[trigger] responses[i]).0),
        },
    decreases responses.len(),
{
    if responses.len() > 0 {
        if occurs_in(prompt, responses[0].0) {
            assert(responses[0].1 == response_for(responses, prompt)->Some_0);
        } else {
            let rest = responses.drop_first();
            law_first_key_answers(rest, prompt);
            assert forall|j: int| 0 <= j < rest.len() implies #[trigger] rest[j] == responses[j
                + 1] by {}
            match response_for(rest, prompt) {
                Some(r) => {
                    let i = choose|i: int|
                        0 <= i < rest.len() && (#[trigger] rest[i]).1 == r && occurs_in(
                            prompt,
                            rest[i].0,
                        ) && forall|j: int|
                            0 <= j < i ==> !occurs_in(prompt, (#[trigger] rest[j]).0);
                    assert(responses[i + 1] == rest[i]);
                    assert forall|j: int| 0 <= j < i + 1 implies !occurs_in(
                        prompt,
                        (#[trigger] responses[j]).0,
                    ) by {
                        if j > 0 {
                            assert(rest[j - 1] == responses[j]);
                        }
                    }
                },
                None => {
                    assert forall|i: int| 0 <= i < responses.len() implies !occurs_in(
                        prompt,
                        (#[trigger] responses[i]).0,
                    ) by {
                        if i > 0 {
                            assert(rest[i - 1] == responses[i]);
                        }
                    }
                },
            }
        }
    }
}

/// Trying again may help where the store or the lock was busy, or where the provider
/// says so; nowhere else.
pub proof fn law_errors_that_may_pass(e: BrainErrorView)
    ensures
        e.retryable() <==> e is Storage || e is Locked || e is Busy || (
        e matches BrainErrorView::Provider { retryable, .. } && retryable),
{
}

/// The steps of a migration go up one version at a time, from the first that is
/// missing; each does the work of its version.
pub proof fn law_migration_goes_up_step_by_step(current: i64)
    requires
        0 <= current <= crate::schema::LEDGER_SCHEMA_VERSION,
    ensures
        ({
            let steps = ledger_steps(current);
            &&& steps.len() == crate::schema::LEDGER_SCHEMA_VERSION - current
            &&& forall|i: int|
                0 <= i < steps.len() ==> (#[trigger] steps[i]).version == current + 1 + i
            &&& forall|i: int|
                0 <= i < steps.len() ==> {
                    &&& (#[trigger] steps[i]).work is SeedPredicates <==> steps[i].version == 2
                    &&& steps[i].work is RegisterVectors <==> steps[i].version == 5
                    &&& steps[i].work is QuantizeVectors <==> steps[i].version == 12
                    &&& steps[i].work is RebuildIndexes <==> steps[i].version == 13
                }
        }),
{
}

/// Every capability has a name of its own.
pub proof fn law_capabilities_are_named(c: Capability)
    ensures
        capability_text(c) == "read"@ <==> c is Read,
        capability_text(c) == "ingest"@ <==> c is Ingest,
        capability_text(c) == "write"@ <==> c is Write,
        capability_text(c) == "redact"@ <==> c is Redact,
        capability_text(c) == "sample"@ <==> c is Sample,
{
    reveal_strlit("read");
    reveal_strlit("ingest");
    reveal_strlit("write");
    reveal_strlit("redact");
    reveal_strlit("sample");
    assert("read"@.len() == 4 && "ingest"@.len() == 6 && "write"@.len() == 5 && "redact"@.len() == 6
        && "sample"@.len() == 6);
    assert("ingest"@[0] == 'i' && "redact"@[0] == 'r' && "sample"@[0] == 's');
}

/// A reference to an entity is written with its surface and its type.
pub proof fn law_references_tell_surface_and_type(e: EntityRefView)
    ensures
        text_member(entity_ref_json(e), "surface"@) == Some(e.surface),
        text_member(entity_ref_json(e), "type"@) == Some(e.ty),
{
    reveal_strlit("surface");
    reveal_strlit("type");
    assert("surface"@.len() == 7 && "type"@.len() == 4);
    let m = entity_ref_json(e)->Obj_0;
    lemma_member_at(m, 0);
    lemma_member_at(m, 1);
}

} // verus!
