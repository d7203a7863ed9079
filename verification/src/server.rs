//! The server's decisions: which message gets which answer, who may call which
//! tool, and what is agreed with a client.
//!
//! What a tool or a resource returns is looked up outside; [`dispatch`] says what
//! is to be looked up, and the answer is put together here again.
use vstd::prelude::*;

use crate::json::{
    array, int_json, integer, members_view, object, object1, object2, object3, string, text_member,
    Json, JsonView,
};
use crate::ledger::{lookup_space_by_name, stored_space};
use crate::protocol::{
    error, error_data_json, error_json, error_with_data, success, success_json, Message,
    MessageView, INCOMPATIBLE_PROTOCOL, INVALID_PARAMS, METHOD_NOT_FOUND, UNAUTHORIZED,
};
use crate::requests::{
    capability_for, required_capability, rpc_error, space_arg, space_of, RpcError, RpcErrorView,
};
use crate::resources::{resources_json, resources_list};
use crate::rows::{holds, map_rows, select};
use crate::security::{capability_text, Scope, ScopeView};
use crate::tables::{Tables, TablesView};
use crate::text::{cat2, cat3, cat5, nat_text, show_u64, str_eq};
use crate::time::Timestamp;
use crate::tools::{tool_list, tool_list_json};

verus! {

/// Protocol version advertised to clients that do not request the newer one.
pub const DEFAULT_PROTOCOL_VERSION: &'static str = "2025-11-25";

/// The newer protocol version, which is echoed where it is requested.
pub const NEWER_PROTOCOL_VERSION: &'static str = "2026-07-28";

/// The least handshake version that is spoken.
pub const HANDSHAKE_PROTOCOL_MIN: u32 = 1;

/// The greatest handshake version that is spoken.
pub const HANDSHAKE_PROTOCOL_MAX: u32 = 1;

/// Store format revision. Clients that need a later one are rejected.
pub const HANDSHAKE_STORE_FORMAT_VERSION: u32 = 1;

/// The protocol version that is agreed on.
pub open spec fn agreed_version(params: Option<JsonView>) -> Seq<char> {
    match params {
        Some(p) => if text_member(p, "protocolVersion"@) == Some(NEWER_PROTOCOL_VERSION@) {
            NEWER_PROTOCOL_VERSION@
        } else {
            DEFAULT_PROTOCOL_VERSION@
        },
        None => DEFAULT_PROTOCOL_VERSION@,
    }
}

/// The answer to `initialize`.
pub open spec fn initialize_json(params: Option<JsonView>, version: Seq<char>) -> JsonView {
    JsonView::Obj(
        seq![
            (
                "capabilities"@,
                JsonView::Obj(
                    seq![
                        (
                            "resources"@,
                            JsonView::Obj(
                                seq![
                                    ("listChanged"@, JsonView::Bool(false)),
                                    ("read"@, JsonView::Bool(true)),
                                    ("subscribe"@, JsonView::Bool(false)),
                                ],
                            ),
                        ),
                        (
                            "tools"@,
                            JsonView::Obj(seq![("listChanged"@, JsonView::Bool(false))]),
                        ),
                    ],
                ),
            ),
            ("protocolVersion"@, JsonView::Str(agreed_version(params))),
            (
                "serverInfo"@,
                JsonView::Obj(
                    seq![
                        ("name"@, JsonView::Str("oxibrain"@)),
                        ("version"@, JsonView::Str(version)),
                    ],
                ),
            ),
        ],
    )
}

/// Negotiate the protocol version and advertise the server's capabilities.
/// `version` is the server's own.
pub fn initialize(params: &Option<Json>, version: &str) -> (r: Json)
    ensures
        r.deep_view() == initialize_json(params.deep_view(), version@),
{
    let newer = match params {
        Some(p) => match p.str_of("protocolVersion") {
            Some(v) => str_eq(v, NEWER_PROTOCOL_VERSION),
            None => false,
        },
        None => false,
    };
    let agreed = if newer {
        NEWER_PROTOCOL_VERSION
    } else {
        DEFAULT_PROTOCOL_VERSION
    };
    let resources = object3(
        "listChanged",
        Json::Bool(false),
        "read",
        Json::Bool(true),
        "subscribe",
        Json::Bool(false),
    );
    let tools = object1("listChanged", Json::Bool(false));
    let capabilities = object2("resources", resources, "tools", tools);
    let info = object2("name", string("oxibrain"), "version", string(version));
    object3("capabilities", capabilities, "protocolVersion", string(agreed), "serverInfo", info)
}

/// What a client says of itself in the handshake.
#[derive(Debug)]
pub struct ClientHello {
    pub protocol_version: u32,
    pub min_compatible: Option<u32>,
    pub max_compatible: Option<u32>,
    pub min_store_format_version: u32,
    pub supported_operations: Vec<String>,
}

/// Why a handshake was rejected, with a payload that a client can read.
#[derive(Debug)]
pub struct Rejection {
    pub code: i64,
    pub message: String,
    pub data: Json,
}

/// [`Rejection`] as a mathematical value.
#[verifier::ext_equal]
pub struct RejectionView {
    pub code: i64,
    pub message: Seq<char>,
    pub data: JsonView,
}

impl DeepView for Rejection {
    type V = RejectionView;

    open spec fn deep_view(&self) -> RejectionView {
        RejectionView { code: self.code, message: self.message@, data: self.data.deep_view() }
    }
}

/// The least version that both sides speak: the higher of the two lower bounds.
/// A client that gives no bound takes the server's.
pub open spec fn lower_bound(hello: ClientHello) -> u32 {
    match hello.min_compatible {
        Some(v) => if v > HANDSHAKE_PROTOCOL_MIN {
            v
        } else {
            HANDSHAKE_PROTOCOL_MIN
        },
        None => HANDSHAKE_PROTOCOL_MIN,
    }
}

/// The greatest version that both sides speak: the lower of the two upper
/// bounds.
pub open spec fn upper_bound(hello: ClientHello) -> u32 {
    match hello.max_compatible {
        Some(v) => if v < HANDSHAKE_PROTOCOL_MAX {
            v
        } else {
            HANDSHAKE_PROTOCOL_MAX
        },
        None => HANDSHAKE_PROTOCOL_MAX,
    }
}

/// The payload of a rejected version.
pub open spec fn incompatible_data(requested: u32, min: u32, max: u32) -> JsonView {
    JsonView::Obj(
        seq![
            ("kind"@, JsonView::Str("incompatible_protocol"@)),
            ("max_compatible"@, int_json(max as int)),
            ("min_compatible"@, int_json(min as int)),
            ("requested"@, int_json(requested as int)),
        ],
    )
}

/// The operations that a client asked for and the server supports: all of the
/// server's where the client named none.
pub open spec fn is_asked_for(asked: Seq<Seq<char>>) -> spec_fn(Seq<char>) -> bool {
    |op: Seq<char>| asked.len() == 0 || asked.contains(op)
}

/// A text as JSON.
pub open spec fn text_json() -> spec_fn(Seq<char>) -> JsonView {
    |s: Seq<char>| JsonView::Str(s)
}

/// What the server says of itself where the handshake succeeds.
pub open spec fn server_info(
    asked: Seq<Seq<char>>,
    operations: Seq<Seq<char>>,
    version: Seq<char>,
) -> JsonView {
    JsonView::Obj(
        seq![
            ("max_compatible"@, int_json(HANDSHAKE_PROTOCOL_MAX as int)),
            ("min_compatible"@, int_json(HANDSHAKE_PROTOCOL_MIN as int)),
            ("server_name"@, JsonView::Str("oxibrain"@)),
            ("server_version"@, JsonView::Str(version)),
            ("store_format_version"@, int_json(HANDSHAKE_STORE_FORMAT_VERSION as int)),
            (
                "supported_operations"@,
                JsonView::Arr(operations.filter(is_asked_for(asked)).map_values(text_json())),
            ),
        ],
    )
}

/// What a handshake is answered with: the version that is requested must lie
/// within what both sides speak, and the store format must not be older than the
/// client needs.
pub open spec fn handshake_answer(
    hello: Result<ClientHello, Seq<char>>,
    operations: Seq<Seq<char>>,
    version: Seq<char>,
) -> Result<JsonView, RejectionView> {
    match hello {
        Err(e) => Err(
            RejectionView {
                code: INVALID_PARAMS,
                message: "malformed ClientHello: "@ + e,
                data: JsonView::Obj(
                    seq![
                        ("kind"@, JsonView::Str("malformed_hello"@)),
                        ("reason"@, JsonView::Str(e)),
                    ],
                ),
            },
        ),
        Ok(h) => {
            let requested = h.protocol_version;
            let min = lower_bound(h);
            let max = upper_bound(h);
            if requested < min || requested > max {
                Err(
                    RejectionView {
                        code: INCOMPATIBLE_PROTOCOL,
                        message: "incompatible protocol: requested "@ + nat_text(requested as nat)
                            + ",                      supported range ["@ + nat_text(min as nat)
                            + ", "@ + nat_text(max as nat) + "]"@,
                        data: incompatible_data(requested, min, max),
                    },
                )
            } else if HANDSHAKE_STORE_FORMAT_VERSION < h.min_store_format_version {
                Err(
                    RejectionView {
                        code: INCOMPATIBLE_PROTOCOL,
                        message: "server store format "@ + nat_text(
                            HANDSHAKE_STORE_FORMAT_VERSION as nat,
                        ) + " is older                      than client requires "@ + nat_text(
                            h.min_store_format_version as nat,
                        ),
                        data: JsonView::Obj(
                            seq![
                                ("client_min"@, int_json(h.min_store_format_version as int)),
                                ("kind"@, JsonView::Str("store_too_old"@)),
                                ("server_format"@, int_json(HANDSHAKE_STORE_FORMAT_VERSION as int)),
                            ],
                        ),
                    },
                )
            } else {
                Ok(server_info(h.supported_operations.deep_view(), operations, version))
            }
        },
    }
}

/// A hello as a mathematical value.
pub open spec fn hello_view(h: Result<ClientHello, String>) -> Result<ClientHello, Seq<char>> {
    match h {
        Ok(h) => Ok(h),
        Err(e) => Err(e@),
    }
}

fn reject_version(requested: u32, min: u32, max: u32) -> (r: Rejection)
    ensures
        r.deep_view() == (RejectionView {
            code: INCOMPATIBLE_PROTOCOL,
            message: "incompatible protocol: requested "@ + nat_text(requested as nat)
                + ",                      supported range ["@ + nat_text(min as nat) + ", "@
                + nat_text(max as nat) + "]"@,
            data: incompatible_data(requested, min, max),
        }),
{
    let want = show_u64(requested as u64);
    let low = show_u64(min as u64);
    let high = show_u64(max as u64);
    let mut message = cat5(
        "incompatible protocol: requested ",
        want.as_str(),
        ",                      supported range [",
        low.as_str(),
        ", ",
    );
    message.push_str(high.as_str());
    message.push_str("]");
    let mut m: Vec<(String, Json)> = Vec::new();
    m.push(("kind".to_owned(), string("incompatible_protocol")));
    m.push(("max_compatible".to_owned(), integer(max as i64)));
    m.push(("min_compatible".to_owned(), integer(min as i64)));
    m.push(("requested".to_owned(), integer(requested as i64)));
    assert(members_view(m@) =~= incompatible_data(requested, min, max)->Obj_0);
    Rejection { code: INCOMPATIBLE_PROTOCOL, message, data: object(m) }
}

fn make_info(asked: &Vec<String>, operations: &Vec<String>, version: &str) -> (r: Json)
    ensures
        r.deep_view() == server_info(asked.deep_view(), operations.deep_view(), version@),
{
    let ghost p = is_asked_for(asked.deep_view());
    assert(asked.deep_view().len() == asked.len());
    let kept = select(
        operations,
        |op: &String| -> (b: bool)
            ensures
                b == p(op.deep_view())
            { asked.len() == 0 || holds(asked, op.as_str()) },
        Ghost(p),
    );
    let names = map_rows(
        &kept,
        |op: &String| -> (j: Json)
            ensures
                j.deep_view() == text_json()(op.deep_view())
            { string(op.as_str()) },
        Ghost(text_json()),
    );
    let mut m: Vec<(String, Json)> = Vec::new();
    m.push(("max_compatible".to_owned(), integer(HANDSHAKE_PROTOCOL_MAX as i64)));
    m.push(("min_compatible".to_owned(), integer(HANDSHAKE_PROTOCOL_MIN as i64)));
    m.push(("server_name".to_owned(), string("oxibrain")));
    m.push(("server_version".to_owned(), string(version)));
    m.push(("store_format_version".to_owned(), integer(HANDSHAKE_STORE_FORMAT_VERSION as i64)));
    m.push(("supported_operations".to_owned(), array(names)));
    assert(members_view(m@) =~= server_info(
        asked.deep_view(),
        operations.deep_view(),
        version@,
    )->Obj_0);
    object(m)
}

/// The handshake: version and store negotiation. It neither replaces a token nor
/// broadens a scope. `hello` is what the client sent, or why it cannot be read;
/// `operations` is what the server supports.
pub fn handle_handshake(
    hello: &Result<ClientHello, String>,
    operations: &Vec<String>,
    version: &str,
) -> (r: Result<Json, Rejection>)
    ensures
        match handshake_answer(hello_view(*hello), operations.deep_view(), version@) {
            Ok(v) => r is Ok && r->Ok_0.deep_view() == v,
            Err(e) => r is Err && r->Err_0.deep_view() == e,
        },
{
    let h = match hello {
        Ok(h) => h,
        Err(e) => {
            return Err(
                Rejection {
                    code: INVALID_PARAMS,
                    message: cat2("malformed ClientHello: ", e.as_str()),
                    data: object2(
                        "kind",
                        string("malformed_hello"),
                        "reason",
                        string(e.as_str()),
                    ),
                },
            );
        },
    };
    let requested: u32 = h.protocol_version;
    let min: u32 = match h.min_compatible {
        Some(v) => if v > HANDSHAKE_PROTOCOL_MIN {
            v
        } else {
            HANDSHAKE_PROTOCOL_MIN
        },
        None => HANDSHAKE_PROTOCOL_MIN,
    };
    let max: u32 = match h.max_compatible {
        Some(v) => if v < HANDSHAKE_PROTOCOL_MAX {
            v
        } else {
            HANDSHAKE_PROTOCOL_MAX
        },
        None => HANDSHAKE_PROTOCOL_MAX,
    };
    if requested < min || requested > max {
        return Err(reject_version(requested, min, max));
    }
    let needed: u32 = h.min_store_format_version;
    if HANDSHAKE_STORE_FORMAT_VERSION < needed {
        let have = show_u64(HANDSHAKE_STORE_FORMAT_VERSION as u64);
        let want = show_u64(needed as u64);
        let mut message = cat3(
            "server store format ",
            have.as_str(),
            " is older                      than client requires ",
        );
        message.push_str(want.as_str());
        return Err(
            Rejection {
                code: INCOMPATIBLE_PROTOCOL,
                message,
                data: object3(
                    "client_min",
                    integer(needed as i64),
                    "kind",
                    string("store_too_old"),
                    "server_format",
                    integer(HANDSHAKE_STORE_FORMAT_VERSION as i64),
                ),
            },
        );
    }
    Ok(make_info(&h.supported_operations, operations, version))
}

/// The answer to a handshake request.
pub fn answer_handshake(id: Json, outcome: Result<Json, Rejection>) -> (r: Json)
    ensures
        r.deep_view() == match outcome {
            Ok(info) => success_json(id.deep_view(), info.deep_view()),
            Err(e) => error_data_json(
                id.deep_view(),
                e.code,
                e.message@,
                e.data.deep_view(),
            ),
        },
{
    match outcome {
        Ok(info) => success(id, info),
        Err(e) => error_with_data(id, e.code, e.message.as_str(), e.data),
    }
}

/// The answer to a request whose outcome was looked up.
pub fn answer(id: Json, outcome: Result<Json, RpcError>) -> (r: Json)
    ensures
        r.deep_view() == match outcome {
            Ok(v) => success_json(id.deep_view(), v.deep_view()),
            Err(e) => error_json(id.deep_view(), e.code, e.message@),
        },
{
    match outcome {
        Ok(v) => success(id, v),
        Err(e) => error(id, e.code, e.message.as_str()),
    }
}

/// What is to be done with a message.
#[derive(Debug)]
pub enum Action {
    /// Nothing is answered.
    Silent,
    /// This is the answer.
    Reply(Json),
    /// A handshake is to be answered under the id.
    Handshake { id: Json, params: Option<Json> },
    /// A resource is to be read and answered under the id.
    ReadResource { id: Json, params: Option<Json> },
    /// A tool is to be called and answered under the id.
    CallTool { id: Json, params: Option<Json> },
}

/// [`Action`] as a mathematical value.
#[verifier::ext_equal]
pub enum ActionView {
    Silent,
    Reply(JsonView),
    Handshake { id: JsonView, params: Option<JsonView> },
    ReadResource { id: JsonView, params: Option<JsonView> },
    CallTool { id: JsonView, params: Option<JsonView> },
}

impl DeepView for Action {
    type V = ActionView;

    open spec fn deep_view(&self) -> ActionView {
        match self {
            Action::Silent => ActionView::Silent,
            Action::Reply(v) => ActionView::Reply(v.deep_view()),
            Action::Handshake { id, params } => ActionView::Handshake {
                id: id.deep_view(),
                params: params.deep_view(),
            },
            Action::ReadResource { id, params } => ActionView::ReadResource {
                id: id.deep_view(),
                params: params.deep_view(),
            },
            Action::CallTool { id, params } => ActionView::CallTool {
                id: id.deep_view(),
                params: params.deep_view(),
            },
        }
    }
}

/// What is to be done with a message. A notification is never answered.
pub open spec fn action_for(m: MessageView, version: Seq<char>) -> ActionView {
    match m.id {
        None => ActionView::Silent,
        Some(id) => if m.method == "handshake"@ {
            ActionView::Handshake { id, params: m.params }
        } else if m.method == "initialize"@ {
            ActionView::Reply(success_json(id, initialize_json(m.params, version)))
        } else if m.method == "notifications/initialized"@ || m.method == "initialized"@ {
            ActionView::Silent
        } else if m.method == "ping"@ {
            ActionView::Reply(success_json(id, JsonView::Obj(Seq::empty())))
        } else if m.method == "tools/list"@ {
            ActionView::Reply(success_json(id, tool_list_json()))
        } else if m.method == "resources/list"@ {
            ActionView::Reply(success_json(id, resources_json()))
        } else if m.method == "resources/read"@ {
            ActionView::ReadResource { id, params: m.params }
        } else if m.method == "tools/call"@ {
            ActionView::CallTool { id, params: m.params }
        } else {
            ActionView::Reply(error_json(id, METHOD_NOT_FOUND, "unknown method: "@ + m.method))
        },
    }
}

fn empty_object() -> (r: Json)
    ensures
        r.deep_view() == JsonView::Obj(Seq::empty()),
{
    let none: Vec<(String, Json)> = Vec::new();
    assert(members_view(none@) =~= Seq::<(Seq<char>, JsonView)>::empty());
    object(none)
}

/// Decides what is to be done with a message. `version` is the server's own.
pub fn dispatch(msg: Message, version: &str) -> (r: Action)
    ensures
        r.deep_view() == action_for(msg.deep_view(), version@),
{
    let ghost view = msg.deep_view();
    let Message { id, method, params } = msg;
    let id = match id {
        None => {
            return Action::Silent;
        },
        Some(id) => id,
    };
    assert(view.id == Some(id.deep_view()));
    assert(view.params == params.deep_view());
    let name = method.as_str();
    if str_eq(name, "handshake") {
        Action::Handshake { id, params }
    } else if str_eq(name, "initialize") {
        Action::Reply(success(id, initialize(&params, version)))
    } else if str_eq(name, "notifications/initialized") || str_eq(name, "initialized") {
        Action::Silent
    } else if str_eq(name, "ping") {
        Action::Reply(success(id, empty_object()))
    } else if str_eq(name, "tools/list") {
        Action::Reply(success(id, tool_list()))
    } else if str_eq(name, "resources/list") {
        Action::Reply(success(id, resources_list()))
    } else if str_eq(name, "resources/read") {
        Action::ReadResource { id, params }
    } else if str_eq(name, "tools/call") {
        Action::CallTool { id, params }
    } else {
        let message = cat2("unknown method: ", name);
        Action::Reply(error(id, METHOD_NOT_FOUND, message.as_str()))
    }
}

/// Whether a tool call may go on.
#[derive(Debug)]
pub enum Gate {
    /// It may.
    Open,
    /// It may where the scope covers the space with this name.
    NeedsSpace { space: String },
}

/// Whether a call passes the first gate, and which space it must then be allowed
/// in. Without a scope every call passes; so does that of an unknown tool, which
/// is answered as such. Else the scope must not have run out and must hold the
/// tool's capability.
pub open spec fn gate_for(
    scope: Option<ScopeView>,
    tool: Seq<char>,
    args: JsonView,
    now: Timestamp,
) -> Result<Option<Seq<char>>, RpcErrorView> {
    match scope {
        None => Ok(None),
        Some(s) => match capability_for(tool) {
            None => Ok(None),
            Some(cap) => if s.expired(now) || !s.caps.contains(cap) {
                Err(
                    RpcErrorView {
                        code: UNAUTHORIZED,
                        message: "token lacks '"@ + capability_text(cap) + "' (expired="@
                            + crate::error::bool_text(s.expired(now)) + ")"@,
                    },
                )
            } else {
                Ok(Some(space_of(args)))
            },
        },
    }
}

/// The first gate of a tool call: capability and expiry. Nothing is looked up or
/// made for it.
pub fn enforce_scope(scope: &Option<Scope>, tool: &str, args: &Json, now: Timestamp) -> (r: Result<
    Gate,
    RpcError,
>)
    ensures
        match gate_for(scope.deep_view(), tool@, args.deep_view(), now) {
            Err(e) => r is Err && r->Err_0.deep_view() == e,
            Ok(None) => r is Ok && r->Ok_0 is Open,
            Ok(Some(space)) => r is Ok && r->Ok_0 is NeedsSpace && r->Ok_0->NeedsSpace_space@
                == space,
        },
{
    let s = match scope {
        None => {
            return Ok(Gate::Open);
        },
        Some(s) => s,
    };
    let cap = match required_capability(tool) {
        None => {
            return Ok(Gate::Open);
        },
        Some(c) => c,
    };
    let expired: bool = s.is_expired(now);
    if expired || !s.caps.contains(cap) {
        let shown = if expired {
            "true"
        } else {
            "false"
        };
        return Err(
            rpc_error(
                UNAUTHORIZED,
                cat5("token lacks '", cap.as_str(), "' (expired=", shown, ")"),
            ),
        );
    }
    Ok(Gate::NeedsSpace { space: space_arg(args) })
}

/// Whether a call passes the second gate: the scope names the space. A space that
/// was not found is refused like one that the scope does not name, so that a
/// refusal does not tell which spaces there are.
pub open spec fn space_gate(
    scope: Option<ScopeView>,
    space: Seq<char>,
    found: Option<Seq<char>>,
) -> Result<(), RpcErrorView> {
    match scope {
        None => Ok(()),
        Some(s) => if found matches Some(id) && s.spaces.contains(id) {
            Ok(())
        } else {
            Err(
                RpcErrorView {
                    code: UNAUTHORIZED,
                    message: "token not scoped to space '"@ + space + "'"@,
                },
            )
        },
    }
}

/// The second gate of a tool call: the space, by the id that was found for its
/// name.
pub fn enforce_space(scope: &Option<Scope>, space: &str, found: &Option<String>) -> (r: Result<
    (),
    RpcError,
>)
    ensures
        match space_gate(scope.deep_view(), space@, found.deep_view()) {
            Ok(_) => r is Ok,
            Err(e) => r is Err && r->Err_0.deep_view() == e,
        },
{
    match scope {
        None => Ok(()),
        Some(s) => {
            let allowed: bool = match found {
                Some(id) => s.allows_space(id.as_str()),
                None => false,
            };
            if allowed {
                Ok(())
            } else {
                Err(rpc_error(UNAUTHORIZED, cat3("token not scoped to space '", space, "'")))
            }
        },
    }
}

/// Whether a call passes both gates over the stored spaces.
pub open spec fn call_gate(
    db: TablesView,
    scope: Option<ScopeView>,
    tool: Seq<char>,
    args: JsonView,
    now: Timestamp,
) -> Result<(), RpcErrorView> {
    match gate_for(scope, tool, args, now) {
        Err(e) => Err(e),
        Ok(None) => Ok(()),
        Ok(Some(space)) => space_gate(scope, space, stored_space(db, space)),
    }
}

/// Both gates of a tool call: capability and expiry, then the space, looked up by
/// its name among the stored spaces. Looking makes no space.
pub fn enforce_call(
    db: &Tables,
    scope: &Option<Scope>,
    tool: &str,
    args: &Json,
    now: Timestamp,
) -> (r: Result<(), RpcError>)
    ensures
        match call_gate(db.deep_view(), scope.deep_view(), tool@, args.deep_view(), now) {
            Ok(_) => r is Ok,
            Err(e) => r is Err && r->Err_0.deep_view() == e,
        },
{
    match enforce_scope(scope, tool, args, now) {
        Err(e) => Err(e),
        Ok(Gate::Open) => Ok(()),
        Ok(Gate::NeedsSpace { space }) => {
            let found = lookup_space_by_name(db, space.as_str());
            enforce_space(scope, space.as_str(), &found)
        },
    }
}

/// Under a scope, a known tool runs exactly with its capability, in time, and in a
/// stored space that the scope names; every other call is answered as
/// unauthorized.
pub proof fn law_scope_bounds_every_call(
    db: TablesView,
    scope: ScopeView,
    tool: Seq<char>,
    args: JsonView,
    now: Timestamp,
)
    requires
        capability_for(tool) is Some,
    ensures
        call_gate(db, Some(scope), tool, args, now) is Ok <==> {
            &&& !scope.expired(now)
            &&& scope.caps.contains(capability_for(tool)->Some_0)
            &&& stored_space(db, space_of(args)) matches Some(id) && scope.spaces.contains(id)
        },
        call_gate(db, Some(scope), tool, args, now) matches Err(e) ==> e.code == UNAUTHORIZED,
{
}

/// A handshake is agreed on exactly where the version that the client requests is
/// one that both sides speak and the store is recent enough; then the version is
/// within the server's own range.
pub proof fn law_handshake_agrees_within_both_ranges(
    hello: ClientHello,
    operations: Seq<Seq<char>>,
    version: Seq<char>,
)
    ensures
        handshake_answer(Ok(hello), operations, version) is Ok <==> {
            &&& HANDSHAKE_PROTOCOL_MIN <= hello.protocol_version <= HANDSHAKE_PROTOCOL_MAX
            &&& hello.min_compatible matches Some(v) ==> v <= hello.protocol_version
            &&& hello.max_compatible matches Some(v) ==> hello.protocol_version <= v
            &&& hello.min_store_format_version <= HANDSHAKE_STORE_FORMAT_VERSION
        },
{
}

/// A message without an id is never answered, and one with an id always is,
/// unless it is the notice that a client has started.
pub proof fn law_requests_are_answered(m: MessageView, version: Seq<char>)
    ensures
        m.id is None ==> action_for(m, version) is Silent,
        m.id is Some && m.method != "notifications/initialized"@ && m.method != "initialized"@
            ==> !(action_for(m, version) is Silent),
{
}

} // verus!
