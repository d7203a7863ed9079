//! Tool calls: what their arguments ask for, and what comes back.
use vstd::prelude::*;

use crate::json::{
    as_int, as_nat, as_truth, member, members_view, object, object3, string, text_member, Json,
    JsonView,
};
use crate::parse::{split_first, split_once};
use crate::protocol::{
    dup_member, text_result, text_result_json, tool_error, tool_error_json, INVALID_PARAMS,
    METHOD_NOT_FOUND,
};
use crate::project::{
    DeclObject, DeclObjectView, Declaration, DeclarationView, EntityRef, EntityRefView,
};
use crate::query::QueryMode;
use crate::redaction::{RedactTarget, RedactTargetView};
use crate::security::{Capability, Scope, ScopeView};
use crate::tables::{Object, ObjectView, Statement, StatementView};
use crate::text::{cat2, cat3, cat4, cat5, nat_text, show_u64, str_eq};

verus! {

/// A protocol-level error: its code and its message.
#[derive(Debug)]
pub struct RpcError {
    pub code: i64,
    pub message: String,
}

/// [`RpcError`] as a mathematical value.
#[verifier::ext_equal]
pub struct RpcErrorView {
    pub code: i64,
    pub message: Seq<char>,
}

impl DeepView for RpcError {
    type V = RpcErrorView;

    open spec fn deep_view(&self) -> RpcErrorView {
        RpcErrorView { code: self.code, message: self.message@ }
    }
}

/// An error with a code and a message.
pub(crate) fn rpc_error(code: i64, message: String) -> (r: RpcError)
    ensures
        r.deep_view() == (RpcErrorView { code, message: message@ }),
{
    RpcError { code, message }
}

/// Tool-level error: `Params` (the caller's error) or `Run` (the execution
/// failed, which the tool's result says).
#[derive(Debug)]
pub enum ToolErr {
    Params(String),
    Run(String),
}

/// [`ToolErr`] as a mathematical value.
#[verifier::ext_equal]
pub enum ToolErrView {
    Params(Seq<char>),
    Run(Seq<char>),
}

impl DeepView for ToolErr {
    type V = ToolErrView;

    open spec fn deep_view(&self) -> ToolErrView {
        match self {
            ToolErr::Params(s) => ToolErrView::Params(s@),
            ToolErr::Run(s) => ToolErrView::Run(s@),
        }
    }
}

impl ToolErr {
    /// The failure of an execution, by the text that is shown for it.
    pub fn run(shown: &str) -> (r: Self)
        ensures
            r.deep_view() == ToolErrView::Run(shown@),
    {
        ToolErr::Run(shown.to_owned())
    }
}

/// Whether an attempt failed with a tool's error.
pub open spec fn tool_fails<T>(r: Result<T, ToolErr>, e: ToolErrView) -> bool {
    r is Err && r->Err_0.deep_view() == e
}

/// A string argument that must be there.
pub open spec fn needed_text(args: JsonView, key: Seq<char>) -> Result<Seq<char>, ToolErrView> {
    match text_member(args, key) {
        Some(s) => Ok(s),
        None => Err(ToolErrView::Params("missing required argument '"@ + key + "'"@)),
    }
}

/// A string argument, or what it is where it is not given.
pub open spec fn text_or(args: JsonView, key: Seq<char>, default: Seq<char>) -> Seq<char> {
    match text_member(args, key) {
        Some(s) => s,
        None => default,
    }
}

/// A natural number among the arguments, or what it is where it is not given.
pub open spec fn nat_or(args: JsonView, key: Seq<char>, default: u64) -> u64 {
    match member(args, key) {
        Some(v) => match as_nat(v) {
            Some(n) => n,
            None => default,
        },
        None => default,
    }
}

/// An integer as `i64`: a natural number beyond its range wraps around.
pub open spec fn wrapped_int(v: JsonView) -> Option<i64> {
    match as_int(v) {
        Some(n) => Some(n),
        None => match as_nat(v) {
            Some(n) => Some((n - 0x1_0000_0000_0000_0000) as i64),
            None => None,
        },
    }
}

/// An integer among the arguments.
pub open spec fn int_argument(args: JsonView, key: Seq<char>) -> Option<i64> {
    match member(args, key) {
        Some(v) => wrapped_int(v),
        None => None,
    }
}

/// A truth value among the arguments, or `false` where it is not given.
pub open spec fn flag(args: JsonView, key: Seq<char>) -> bool {
    match member(args, key) {
        Some(v) => as_truth(v) == Some(true),
        None => false,
    }
}

fn str_arg(args: &Json, key: &str) -> (r: Result<String, ToolErr>)
    ensures
        match needed_text(args.deep_view(), key@) {
            Ok(s) => r is Ok && r->Ok_0@ == s,
            Err(e) => tool_fails(r, e),
        },
{
    match args.str_of(key) {
        Some(s) => Ok(s.to_owned()),
        None => Err(ToolErr::Params(cat3("missing required argument '", key, "'"))),
    }
}

fn str_arg_or(args: &Json, key: &str, default: &str) -> (r: String)
    ensures
        r@ == text_or(args.deep_view(), key@, default@),
{
    match args.str_of(key) {
        Some(s) => s.to_owned(),
        None => default.to_owned(),
    }
}

/// The space that a call is about, by name.
pub open spec fn space_of(args: JsonView) -> Seq<char> {
    text_or(args, "space"@, "personal"@)
}

/// The space that a call is about, by name.
pub fn space_arg(args: &Json) -> (r: String)
    ensures
        r@ == space_of(args.deep_view()),
{
    str_arg_or(args, "space", "personal")
}

fn u_arg_or(args: &Json, key: &str, default: u64) -> (r: u64)
    ensures
        r == nat_or(args.deep_view(), key@, default),
{
    match args.get(key) {
        Some(v) => match v.as_u64() {
            Some(n) => n,
            None => default,
        },
        None => default,
    }
}

/// Optional integer argument (milliseconds since epoch). `None` when absent.
fn i64_arg_opt(args: &Json, key: &str) -> (r: Option<i64>)
    ensures
        r == int_argument(args.deep_view(), key@),
{
    match args.get(key) {
        Some(v) => match v.as_i64() {
            Some(n) => Some(n),
            None => match v.as_u64() {
                Some(n) => {
                    assert(n > i64::MAX);
                    let below: i64 = (u64::MAX - n) as i64;
                    Some(-1 - below)
                },
                None => None,
            },
        },
        None => None,
    }
}

fn flag_arg(args: &Json, key: &str) -> (r: bool)
    ensures
        r == flag(args.deep_view(), key@),
{
    match args.get(key) {
        Some(v) => match v.as_bool() {
            Some(b) => b,
            None => false,
        },
        None => false,
    }
}

/// The retrieval mode of a name; any other name is hybrid.
pub open spec fn mode_of(s: Seq<char>) -> QueryMode {
    if s == "lexical"@ {
        QueryMode::Lexical
    } else if s == "lexical-vector"@ {
        QueryMode::LexicalVector
    } else if s == "dense"@ {
        QueryMode::Dense
    } else if s == "graph"@ {
        QueryMode::Graph
    } else if s == "community"@ {
        QueryMode::Community
    } else {
        QueryMode::Hybrid
    }
}

/// The retrieval mode of a name.
pub fn parse_mode(s: &str) -> (r: QueryMode)
    ensures
        r == mode_of(s@),
{
    if str_eq(s, "lexical") {
        QueryMode::Lexical
    } else if str_eq(s, "lexical-vector") {
        QueryMode::LexicalVector
    } else if str_eq(s, "dense") {
        QueryMode::Dense
    } else if str_eq(s, "graph") {
        QueryMode::Graph
    } else if str_eq(s, "community") {
        QueryMode::Community
    } else {
        QueryMode::Hybrid
    }
}

/// Which way edges are followed.
#[derive(Debug, Clone, Copy, PartialEq, Eq, Structural)]
pub enum Direction {
    Out,
    In,
    Both,
}

/// The direction of a name; any other name is both.
pub open spec fn direction_of(s: Seq<char>) -> Direction {
    if s == "out"@ {
        Direction::Out
    } else if s == "in"@ {
        Direction::In
    } else {
        Direction::Both
    }
}

/// The direction of a name.
pub fn parse_direction(s: &str) -> (r: Direction)
    ensures
        r == direction_of(s@),
{
    if str_eq(s, "out") {
        Direction::Out
    } else if str_eq(s, "in") {
        Direction::In
    } else {
        Direction::Both
    }
}

/// What a tool call asks for. Numbers that may have a fraction, and references
/// that are read elsewhere, are kept as JSON.
#[derive(Debug)]
pub enum ToolRequest {
    Search {
        query: String,
        mode: QueryMode,
        limit: u64,
        as_of: Option<i64>,
        min_confidence: Option<Json>,
    },
    Recall { query: String, budget: u64 },
    BriefEntity { entity_id: String },
    BriefSpace,
    BriefTopic { topic: String },
    Navigate { from: String, link: String },
    Ingest { content: String, path: String, extract: bool },
    Declare { declaration_json: String },
    Why { statement_id: String },
    Contradictions,
    Stats,
    Traverse {
        start: Vec<String>,
        max_depth: u8,
        max_nodes: u32,
        direction: Direction,
        valid_at: Option<i64>,
        min_confidence: Option<Json>,
    },
    ReviewMerges,
    Remember { content: String, path: String },
    RetractStatement { statement_id: String, episode: String },
    RetractParts {
        subject: Option<Json>,
        predicate: Option<String>,
        object: Option<Json>,
        episode: String,
    },
    MergeEntities { loser: Option<Json>, winner: Option<Json> },
    Redact { target: RedactTarget, reason: String, dry_run: bool },
}

/// [`ToolRequest`] as a mathematical value.
#[verifier::ext_equal]
pub enum ToolRequestView {
    Search {
        query: Seq<char>,
        mode: QueryMode,
        limit: u64,
        as_of: Option<i64>,
        min_confidence: Option<JsonView>,
    },
    Recall { query: Seq<char>, budget: u64 },
    BriefEntity { entity_id: Seq<char> },
    BriefSpace,
    BriefTopic { topic: Seq<char> },
    Navigate { from: Seq<char>, link: Seq<char> },
    Ingest { content: Seq<char>, path: Seq<char>, extract: bool },
    Declare { declaration_json: Seq<char> },
    Why { statement_id: Seq<char> },
    Contradictions,
    Stats,
    Traverse {
        start: Seq<Seq<char>>,
        max_depth: u8,
        max_nodes: u32,
        direction: Direction,
        valid_at: Option<i64>,
        min_confidence: Option<JsonView>,
    },
    ReviewMerges,
    Remember { content: Seq<char>, path: Seq<char> },
    RetractStatement { statement_id: Seq<char>, episode: Seq<char> },
    RetractParts {
        subject: Option<JsonView>,
        predicate: Option<Seq<char>>,
        object: Option<JsonView>,
        episode: Seq<char>,
    },
    MergeEntities { loser: Option<JsonView>, winner: Option<JsonView> },
    Redact { target: RedactTargetView, reason: Seq<char>, dry_run: bool },
}

impl DeepView for ToolRequest {
    type V = ToolRequestView;

    open spec fn deep_view(&self) -> ToolRequestView {
        match self {
            ToolRequest::Search { query, mode, limit, as_of, min_confidence } =>
                ToolRequestView::Search {
                    query: query@,
                    mode: *mode,
                    limit: *limit,
                    as_of: *as_of,
                    min_confidence: min_confidence.deep_view(),
                },
            ToolRequest::Recall { query, budget } => ToolRequestView::Recall {
                query: query@,
                budget: *budget,
            },
            ToolRequest::BriefEntity { entity_id } => ToolRequestView::BriefEntity {
                entity_id: entity_id@,
            },
            ToolRequest::BriefSpace => ToolRequestView::BriefSpace,
            ToolRequest::BriefTopic { topic } => ToolRequestView::BriefTopic { topic: topic@ },
            ToolRequest::Navigate { from, link } => ToolRequestView::Navigate {
                from: from@,
                link: link@,
            },
            ToolRequest::Ingest { content, path, extract } => ToolRequestView::Ingest {
                content: content@,
                path: path@,
                extract: *extract,
            },
            ToolRequest::Declare { declaration_json } => ToolRequestView::Declare {
                declaration_json: declaration_json@,
            },
            ToolRequest::Why { statement_id } => ToolRequestView::Why {
                statement_id: statement_id@,
            },
            ToolRequest::Contradictions => ToolRequestView::Contradictions,
            ToolRequest::Stats => ToolRequestView::Stats,
            ToolRequest::Traverse {
                start,
                max_depth,
                max_nodes,
                direction,
                valid_at,
                min_confidence,
            } => ToolRequestView::Traverse {
                start: start.deep_view(),
                max_depth: *max_depth,
                max_nodes: *max_nodes,
                direction: *direction,
                valid_at: *valid_at,
                min_confidence: min_confidence.deep_view(),
            },
            ToolRequest::ReviewMerges => ToolRequestView::ReviewMerges,
            ToolRequest::Remember { content, path } => ToolRequestView::Remember {
                content: content@,
                path: path@,
            },
            ToolRequest::RetractStatement { statement_id, episode } =>
                ToolRequestView::RetractStatement {
                    statement_id: statement_id@,
                    episode: episode@,
                },
            ToolRequest::RetractParts { subject, predicate, object, episode } =>
                ToolRequestView::RetractParts {
                    subject: subject.deep_view(),
                    predicate: predicate.deep_view(),
                    object: object.deep_view(),
                    episode: episode@,
                },
            ToolRequest::MergeEntities { loser, winner } => ToolRequestView::MergeEntities {
                loser: loser.deep_view(),
                winner: winner.deep_view(),
            },
            ToolRequest::Redact { target, reason, dry_run } => ToolRequestView::Redact {
                target: target.deep_view(),
                reason: reason@,
                dry_run: *dry_run,
            },
        }
    }
}

/// Whether a name is that of a tool.
pub open spec fn is_tool(name: Seq<char>) -> bool {
    capability_for(name) is Some
}

/// The capability that a tool needs; `None` for an unknown tool.
pub open spec fn capability_for(name: Seq<char>) -> Option<Capability> {
    if name == "search"@ || name == "recall"@ || name == "brief"@ || name == "navigate"@ || name
        == "why"@ || name == "contradictions"@ || name == "traverse"@ || name == "review_merges"@
        || name == "stats"@ {
        Some(Capability::Read)
    } else if name == "ingest"@ {
        Some(Capability::Ingest)
    } else if name == "declare"@ || name == "remember"@ || name == "retract"@ || name
        == "merge_entities"@ {
        Some(Capability::Write)
    } else if name == "redact"@ {
        Some(Capability::Redact)
    } else {
        None
    }
}

/// Capability required to invoke a tool. `None` for unknown tools — dispatch then
/// returns method-not-found.
pub fn required_capability(tool: &str) -> (r: Option<Capability>)
    ensures
        r == capability_for(tool@),
{
    if str_eq(tool, "search") || str_eq(tool, "recall") || str_eq(tool, "brief") || str_eq(
        tool,
        "navigate",
    ) || str_eq(tool, "why") || str_eq(tool, "contradictions") || str_eq(tool, "traverse")
        || str_eq(tool, "review_merges") || str_eq(tool, "stats") {
        Some(Capability::Read)
    } else if str_eq(tool, "ingest") {
        Some(Capability::Ingest)
    } else if str_eq(tool, "declare") || str_eq(tool, "remember") || str_eq(tool, "retract")
        || str_eq(tool, "merge_entities") {
        Some(Capability::Write)
    } else if str_eq(tool, "redact") {
        Some(Capability::Redact)
    } else {
        None
    }
}

/// What is wrong with a call before its space is looked up: a string argument
/// that is missing. The other tools look up their space first.
pub open spec fn early_error(name: Seq<char>, args: JsonView) -> Option<ToolErrView> {
    let missing = |key: Seq<char>|
        match needed_text(args, key) {
            Ok(_) => None::<ToolErrView>,
            Err(e) => Some(e),
        };
    if name == "search"@ || name == "recall"@ {
        missing("query"@)
    } else if name == "navigate"@ {
        match missing("from"@) {
            Some(e) => Some(e),
            None => missing("link"@),
        }
    } else if name == "ingest"@ || name == "remember"@ {
        missing("content"@)
    } else if name == "declare"@ {
        missing("declaration_json"@)
    } else if name == "why"@ {
        missing("statement_id"@)
    } else {
        None
    }
}

fn missing_arg(args: &Json, key: &str) -> (r: Option<ToolErr>)
    ensures
        r.deep_view() == match needed_text(args.deep_view(), key@) {
            Ok(_) => None::<ToolErrView>,
            Err(e) => Some(e),
        },
{
    match str_arg(args, key) {
        Ok(_) => None,
        Err(e) => Some(e),
    }
}

/// What is wrong with a call before its space is looked up.
pub fn check_early(name: &str, args: &Json) -> (r: Option<ToolErr>)
    ensures
        r.deep_view() == early_error(name@, args.deep_view()),
{
    if str_eq(name, "search") || str_eq(name, "recall") {
        missing_arg(args, "query")
    } else if str_eq(name, "navigate") {
        match missing_arg(args, "from") {
            Some(e) => Some(e),
            None => missing_arg(args, "link"),
        }
    } else if str_eq(name, "ingest") || str_eq(name, "remember") {
        missing_arg(args, "content")
    } else if str_eq(name, "declare") {
        missing_arg(args, "declaration_json")
    } else if str_eq(name, "why") {
        missing_arg(args, "statement_id")
    } else {
        None
    }
}

/// The strings among JSON items.
pub open spec fn texts_in(items: Seq<JsonView>) -> Seq<Seq<char>>
    decreases items.len(),
{
    if items.len() == 0 {
        Seq::empty()
    } else {
        match items.last() {
            JsonView::Str(s) => texts_in(items.drop_last()).push(s),
            _ => texts_in(items.drop_last()),
        }
    }
}

/// The entities that a traversal starts from.
pub open spec fn start_of(args: JsonView) -> Result<Seq<Seq<char>>, ToolErrView> {
    match member(args, "start"@) {
        Some(JsonView::Arr(items)) => if texts_in(items).len() == 0 {
            Err(ToolErrView::Params("'start' must contain at least one entity ID"@))
        } else {
            Ok(texts_in(items))
        },
        _ => Err(ToolErrView::Params("missing required argument 'start'"@)),
    }
}

fn read_start(args: &Json) -> (r: Result<Vec<String>, ToolErr>)
    ensures
        match start_of(args.deep_view()) {
            Ok(v) => r is Ok && r->Ok_0.deep_view() == v,
            Err(e) => tool_fails(r, e),
        },
{
    let items = match args.get("start") {
        Some(Json::Arr(items)) => items,
        _ => {
            return Err(ToolErr::Params("missing required argument 'start'".to_owned()));
        },
    };
    let ghost all = Json::Arr(*items).deep_view()->Arr_0;
    let mut out: Vec<String> = Vec::new();
    let mut i: usize = 0;
    assert(all.take(0) =~= Seq::empty());
    assert(out.deep_view() =~= Seq::<Seq<char>>::empty());
    while i < items.len()
        invariant
            i <= items.len(),
            all == Json::Arr(*items).deep_view()->Arr_0,
            all.len() == items.len(),
            out.deep_view() == texts_in(all.take(i as int)),
        decreases items.len() - i,
    {
        let ghost before = out.deep_view();
        proof {
            assert(all.take(i + 1).drop_last() =~= all.take(i as int));
            assert(all.take(i + 1).last() == all[i as int]);
            assert(all[i as int] == items[i as int].deep_view());
        }
        match &items[i] {
            Json::Str(s) => {
                out.push(s.clone());
                assert(out.deep_view() =~= before.push(s@));
            },
            _ => {},
        }
        i = i + 1;
    }
    assert(all.take(i as int) =~= all);
    assert(out.deep_view().len() == out.len());
    if out.len() == 0 {
        return Err(ToolErr::Params("'start' must contain at least one entity ID".to_owned()));
    }
    Ok(out)
}

/// What a redaction is to remove.
pub open spec fn target_of(
    kind: Seq<char>,
    id: Seq<char>,
    space_id: Seq<char>,
) -> Result<RedactTargetView, ToolErrView> {
    if kind == "episode"@ {
        Ok(RedactTargetView::Episode { id })
    } else if kind == "entity"@ {
        Ok(RedactTargetView::Entity { space: space_id, entity_id: id })
    } else if kind == "predicate"@ {
        match split_first(id, "/"@) {
            Some((entity_id, predicate)) => Ok(
                RedactTargetView::PredicateScoped { space: space_id, entity_id, predicate },
            ),
            None => Err(
                ToolErrView::Params("predicate target_id must be 'entity_id/predicate'"@),
            ),
        }
    } else {
        Err(
            ToolErrView::Params(
                "unknown target_kind '"@ + kind + "' (expected episode|entity|predicate)"@,
            ),
        )
    }
}

/// What a redaction is to remove.
pub fn read_target(kind: &str, target_id: &str, space_id: &str) -> (r: Result<
    RedactTarget,
    ToolErr,
>)
    ensures
        match target_of(kind@, target_id@, space_id@) {
            Ok(t) => r is Ok && r->Ok_0.deep_view() == t,
            Err(e) => tool_fails(r, e),
        },
{
    if str_eq(kind, "episode") {
        Ok(RedactTarget::Episode { id: target_id.to_owned() })
    } else if str_eq(kind, "entity") {
        Ok(
            RedactTarget::Entity {
                space: space_id.to_owned(),
                entity_id: target_id.to_owned(),
            },
        )
    } else if str_eq(kind, "predicate") {
        match split_once(target_id, "/") {
            Some((entity_id, predicate)) => Ok(
                RedactTarget::PredicateScoped { space: space_id.to_owned(), entity_id, predicate },
            ),
            None => Err(
                ToolErr::Params("predicate target_id must be 'entity_id/predicate'".to_owned()),
            ),
        }
    } else {
        Err(
            ToolErr::Params(
                cat3("unknown target_kind '", kind, "' (expected episode|entity|predicate)"),
            ),
        )
    }
}

/// What a call of `brief` asks for.
pub open spec fn brief_request(args: JsonView) -> Result<ToolRequestView, ToolErrView> {
    let kind = text_or(args, "target_kind"@, "entity"@);
    if kind == "entity"@ {
        match needed_text(args, "entity_id"@) {
            Ok(entity_id) => Ok(ToolRequestView::BriefEntity { entity_id }),
            Err(e) => Err(e),
        }
    } else if kind == "space"@ {
        Ok(ToolRequestView::BriefSpace)
    } else if kind == "topic"@ {
        match needed_text(args, "topic"@) {
            Ok(topic) => Ok(ToolRequestView::BriefTopic { topic }),
            Err(e) => Err(e),
        }
    } else {
        Err(
            ToolErrView::Run(
                "configuration error: brief.target_kind: '"@ + kind
                    + "' (expected entity|space|topic)"@,
            ),
        )
    }
}

fn read_brief(args: &Json) -> (r: Result<ToolRequest, ToolErr>)
    ensures
        match brief_request(args.deep_view()) {
            Ok(v) => r is Ok && r->Ok_0.deep_view() == v,
            Err(e) => tool_fails(r, e),
        },
{
    let kind = str_arg_or(args, "target_kind", "entity");
    if str_eq(kind.as_str(), "entity") {
        match str_arg(args, "entity_id") {
            Ok(entity_id) => Ok(ToolRequest::BriefEntity { entity_id }),
            Err(e) => Err(e),
        }
    } else if str_eq(kind.as_str(), "space") {
        Ok(ToolRequest::BriefSpace)
    } else if str_eq(kind.as_str(), "topic") {
        match str_arg(args, "topic") {
            Ok(topic) => Ok(ToolRequest::BriefTopic { topic }),
            Err(e) => Err(e),
        }
    } else {
        Err(
            ToolErr::Run(
                cat3(
                    "configuration error: brief.target_kind: '",
                    kind.as_str(),
                    "' (expected entity|space|topic)",
                ),
            ),
        )
    }
}

/// What a call of `traverse` asks for. A depth or a number of nodes beyond its
/// type's range keeps its lowest bits.
pub open spec fn traverse_request(args: JsonView) -> Result<ToolRequestView, ToolErrView> {
    match start_of(args) {
        Err(e) => Err(e),
        Ok(start) => Ok(
            ToolRequestView::Traverse {
                start,
                max_depth: (nat_or(args, "depth"@, 3) % 0x100) as u8,
                max_nodes: (nat_or(args, "max_nodes"@, 256) % 0x1_0000_0000) as u32,
                direction: direction_of(text_or(args, "direction"@, "both"@)),
                valid_at: int_argument(args, "valid_at"@),
                min_confidence: member(args, "min_confidence"@),
            },
        ),
    }
}

fn read_traverse(args: &Json) -> (r: Result<ToolRequest, ToolErr>)
    ensures
        match traverse_request(args.deep_view()) {
            Ok(v) => r is Ok && r->Ok_0.deep_view() == v,
            Err(e) => tool_fails(r, e),
        },
{
    match read_start(args) {
        Err(e) => Err(e),
        Ok(start) => {
            let depth: u64 = u_arg_or(args, "depth", 3) % 0x100;
            let nodes: u64 = u_arg_or(args, "max_nodes", 256) % 0x1_0000_0000;
            let direction = str_arg_or(args, "direction", "both");
            Ok(
                ToolRequest::Traverse {
                    start,
                    max_depth: depth as u8,
                    max_nodes: nodes as u32,
                    direction: parse_direction(direction.as_str()),
                    valid_at: i64_arg_opt(args, "valid_at"),
                    min_confidence: dup_member(args, "min_confidence"),
                },
            )
        },
    }
}

/// What a call of `retract` asks for: the statement with an id, or the statement
/// of a subject, a predicate and an object.
pub open spec fn retract_request(args: JsonView) -> ToolRequestView {
    let id = text_or(args, "statement_id"@, ""@);
    let episode = text_or(args, "episode"@, ""@);
    if id == ""@ {
        ToolRequestView::RetractParts {
            subject: member(args, "subject"@),
            predicate: text_member(args, "predicate"@),
            object: member(args, "object"@),
            episode,
        }
    } else {
        ToolRequestView::RetractStatement { statement_id: id, episode }
    }
}

fn read_retract(args: &Json) -> (r: ToolRequest)
    ensures
        r.deep_view() == retract_request(args.deep_view()),
{
    let id = str_arg_or(args, "statement_id", "");
    let episode = str_arg_or(args, "episode", "");
    if str_eq(id.as_str(), "") {
        let predicate = match args.str_of("predicate") {
            Some(p) => Some(p.to_owned()),
            None => None,
        };
        ToolRequest::RetractParts {
            subject: dup_member(args, "subject"),
            predicate,
            object: dup_member(args, "object"),
            episode,
        }
    } else {
        ToolRequest::RetractStatement { statement_id: id, episode }
    }
}

/// What a call of `redact` asks for.
pub open spec fn redact_request(args: JsonView, space_id: Seq<char>) -> Result<
    ToolRequestView,
    ToolErrView,
> {
    match needed_text(args, "target_kind"@) {
        Err(e) => Err(e),
        Ok(kind) => match needed_text(args, "target_id"@) {
            Err(e) => Err(e),
            Ok(id) => match target_of(kind, id, space_id) {
                Err(e) => Err(e),
                Ok(target) => Ok(
                    ToolRequestView::Redact {
                        target,
                        reason: text_or(args, "reason"@, "mcp redact"@),
                        dry_run: flag(args, "dry_run"@),
                    },
                ),
            },
        },
    }
}

fn read_redact(args: &Json, space_id: &str) -> (r: Result<ToolRequest, ToolErr>)
    ensures
        match redact_request(args.deep_view(), space_id@) {
            Ok(v) => r is Ok && r->Ok_0.deep_view() == v,
            Err(e) => tool_fails(r, e),
        },
{
    let kind = match str_arg(args, "target_kind") {
        Ok(s) => s,
        Err(e) => {
            return Err(e);
        },
    };
    let id = match str_arg(args, "target_id") {
        Ok(s) => s,
        Err(e) => {
            return Err(e);
        },
    };
    match read_target(kind.as_str(), id.as_str(), space_id) {
        Err(e) => Err(e),
        Ok(target) => Ok(
            ToolRequest::Redact {
                target,
                reason: str_arg_or(args, "reason", "mcp redact"),
                dry_run: flag_arg(args, "dry_run"),
            },
        ),
    }
}

/// What a tool call asks for, in a space; `None` for an unknown tool.
pub open spec fn request_of(name: Seq<char>, args: JsonView, space_id: Seq<char>) -> Option<
    Result<ToolRequestView, ToolErrView>,
> {
    if name == "brief"@ {
        Some(brief_request(args))
    } else if name == "traverse"@ {
        Some(traverse_request(args))
    } else if name == "retract"@ {
        Some(Ok(retract_request(args)))
    } else if name == "redact"@ {
        Some(redact_request(args, space_id))
    } else if !is_tool(name) {
        None
    } else {
        match early_error(name, args) {
            Some(e) => Some(Err(e)),
            None => Some(
                Ok(
                    if name == "search"@ {
                        ToolRequestView::Search {
                            query: text_or(args, "query"@, ""@),
                            mode: mode_of(text_or(args, "mode"@, "hybrid"@)),
                            limit: nat_or(args, "limit"@, 20),
                            as_of: int_argument(args, "as_of"@),
                            min_confidence: member(args, "min_confidence"@),
                        }
                    } else if name == "recall"@ {
                        ToolRequestView::Recall {
                            query: text_or(args, "query"@, ""@),
                            budget: nat_or(args, "token_budget"@, 3000),
                        }
                    } else if name == "navigate"@ {
                        ToolRequestView::Navigate {
                            from: text_or(args, "from"@, ""@),
                            link: text_or(args, "link"@, ""@),
                        }
                    } else if name == "ingest"@ {
                        ToolRequestView::Ingest {
                            content: text_or(args, "content"@, ""@),
                            path: text_or(args, "source_path"@, "mcp"@),
                            extract: flag(args, "extract"@),
                        }
                    } else if name == "declare"@ {
                        ToolRequestView::Declare {
                            declaration_json: text_or(args, "declaration_json"@, ""@),
                        }
                    } else if name == "why"@ {
                        ToolRequestView::Why {
                            statement_id: text_or(args, "statement_id"@, ""@),
                        }
                    } else if name == "contradictions"@ {
                        ToolRequestView::Contradictions
                    } else if name == "stats"@ {
                        ToolRequestView::Stats
                    } else if name == "review_merges"@ {
                        ToolRequestView::ReviewMerges
                    } else if name == "remember"@ {
                        ToolRequestView::Remember {
                            content: text_or(args, "content"@, ""@),
                            path: text_or(args, "source_path"@, "remember"@),
                        }
                    } else {
                        ToolRequestView::MergeEntities {
                            loser: member(args, "loser"@),
                            winner: member(args, "winner"@),
                        }
                    },
                ),
            ),
        }
    }
}

/// What a tool call asks for, in a space; `None` for an unknown tool.
pub fn read_request(name: &str, args: &Json, space_id: &str) -> (r: Option<
    Result<ToolRequest, ToolErr>,
>)
    ensures
        match request_of(name@, args.deep_view(), space_id@) {
            None => r is None,
            Some(Err(e)) => r is Some && tool_fails(r->Some_0, e),
            Some(Ok(v)) => r is Some && r->Some_0 is Ok && r->Some_0->Ok_0.deep_view() == v,
        },
{
    if str_eq(name, "brief") {
        return Some(read_brief(args));
    }
    if str_eq(name, "traverse") {
        return Some(read_traverse(args));
    }
    if str_eq(name, "retract") {
        return Some(Ok(read_retract(args)));
    }
    if str_eq(name, "redact") {
        return Some(read_redact(args, space_id));
    }
    if required_capability(name).is_none() {
        return None;
    }
    if let Some(e) = check_early(name, args) {
        return Some(Err(e));
    }
    let request = if str_eq(name, "search") {
        let mode = str_arg_or(args, "mode", "hybrid");
        ToolRequest::Search {
            query: str_arg_or(args, "query", ""),
            mode: parse_mode(mode.as_str()),
            limit: u_arg_or(args, "limit", 20),
            as_of: i64_arg_opt(args, "as_of"),
            min_confidence: dup_member(args, "min_confidence"),
        }
    } else if str_eq(name, "recall") {
        ToolRequest::Recall {
            query: str_arg_or(args, "query", ""),
            budget: u_arg_or(args, "token_budget", 3000),
        }
    } else if str_eq(name, "navigate") {
        ToolRequest::Navigate {
            from: str_arg_or(args, "from", ""),
            link: str_arg_or(args, "link", ""),
        }
    } else if str_eq(name, "ingest") {
        ToolRequest::Ingest {
            content: str_arg_or(args, "content", ""),
            path: str_arg_or(args, "source_path", "mcp"),
            extract: flag_arg(args, "extract"),
        }
    } else if str_eq(name, "declare") {
        ToolRequest::Declare { declaration_json: str_arg_or(args, "declaration_json", "") }
    } else if str_eq(name, "why") {
        ToolRequest::Why { statement_id: str_arg_or(args, "statement_id", "") }
    } else if str_eq(name, "contradictions") {
        ToolRequest::Contradictions
    } else if str_eq(name, "stats") {
        ToolRequest::Stats
    } else if str_eq(name, "review_merges") {
        ToolRequest::ReviewMerges
    } else if str_eq(name, "remember") {
        ToolRequest::Remember {
            content: str_arg_or(args, "content", ""),
            path: str_arg_or(args, "source_path", "remember"),
        }
    } else {
        ToolRequest::MergeEntities {
            loser: dup_member(args, "loser"),
            winner: dup_member(args, "winner"),
        }
    };
    Some(Ok(request))
}

/// A tool call: the tool and its arguments.
#[derive(Debug)]
pub struct ToolCall {
    pub name: String,
    pub args: Json,
}

/// The tool call in the parameters of a request.
pub open spec fn call_in(params: Option<JsonView>) -> Result<(Seq<char>, JsonView), RpcErrorView> {
    match params {
        None => Err(RpcErrorView { code: INVALID_PARAMS, message: "missing 'params'"@ }),
        Some(p) => match text_member(p, "name"@) {
            None => Err(RpcErrorView { code: INVALID_PARAMS, message: "missing tool 'name'"@ }),
            Some(name) => Ok(
                (
                    name,
                    match member(p, "arguments"@) {
                        Some(args) => args,
                        None => JsonView::Obj(Seq::empty()),
                    },
                ),
            ),
        },
    }
}

/// The tool call in the parameters of a request.
pub fn read_call(params: &Option<Json>) -> (r: Result<ToolCall, RpcError>)
    ensures
        match call_in(params.deep_view()) {
            Ok(c) => r is Ok && r->Ok_0.name@ == c.0 && r->Ok_0.args.deep_view() == c.1,
            Err(e) => r is Err && r->Err_0.deep_view() == e,
        },
{
    let p = match params {
        Some(p) => p,
        None => {
            return Err(rpc_error(INVALID_PARAMS, "missing 'params'".to_owned()));
        },
    };
    match p.str_of("name") {
        None => Err(rpc_error(INVALID_PARAMS, "missing tool 'name'".to_owned())),
        Some(name) => {
            let args = match dup_member(p, "arguments") {
                Some(a) => a,
                None => {
                    let none: Vec<(String, Json)> = Vec::new();
                    assert(crate::json::members_view(none@) =~= Seq::<
                        (Seq<char>, JsonView),
                    >::empty());
                    object(none)
                },
            };
            Ok(ToolCall { name: name.to_owned(), args })
        },
    }
}

/// What the outcome of a tool is answered with.
pub open spec fn outcome_json(outcome: Result<Seq<char>, ToolErrView>) -> Result<
    JsonView,
    RpcErrorView,
> {
    match outcome {
        Ok(text) => Ok(text_result_json(text)),
        Err(ToolErrView::Params(m)) => Err(RpcErrorView { code: INVALID_PARAMS, message: m }),
        Err(ToolErrView::Run(m)) => Ok(tool_error_json(m)),
    }
}

/// The outcome of a tool as a mathematical value.
pub open spec fn outcome_view(r: Result<String, ToolErr>) -> Result<Seq<char>, ToolErrView> {
    match r {
        Ok(s) => Ok(s@),
        Err(e) => Err(e.deep_view()),
    }
}

/// What the outcome of a tool is answered with: a wrong argument is an error of
/// the protocol, a failed execution is a result that says so.
pub fn finish_tool(outcome: Result<String, ToolErr>) -> (r: Result<Json, RpcError>)
    ensures
        match outcome_json(outcome_view(outcome)) {
            Ok(v) => r is Ok && r->Ok_0.deep_view() == v,
            Err(e) => r is Err && r->Err_0.deep_view() == e,
        },
{
    match outcome {
        Ok(text) => Ok(text_result(text.as_str())),
        Err(ToolErr::Params(m)) => Err(rpc_error(INVALID_PARAMS, m)),
        Err(ToolErr::Run(m)) => Ok(tool_error(m.as_str())),
    }
}

/// The answer to a call of a tool that is not known.
pub fn unknown_tool(name: &str) -> (r: RpcError)
    ensures
        r.deep_view() == (RpcErrorView {
            code: METHOD_NOT_FOUND,
            message: "unknown tool: "@ + name@,
        }),
{
    rpc_error(METHOD_NOT_FOUND, cat2("unknown tool: ", name))
}

/// Whether extraction follows an ingest at once, and what is said where it does
/// not.
#[derive(Debug)]
pub enum SampleStep {
    Extract,
    Skip(String),
}

/// What is said where extraction does not follow at once.
pub open spec fn skip_text(
    scope: Option<ScopeView>,
    has_session: bool,
    episode: Seq<char>,
) -> Option<Seq<char>> {
    if !has_session {
        Some(
            "Ingested as episode: "@ + episode + " (extraction skipped: no sampling session)"@,
        )
    } else {
        match scope {
            None => None,
            Some(s) => if s.caps.contains(Capability::Sample) {
                None
            } else {
                Some(
                    "Ingested as episode: "@ + episode
                        + " (extraction skipped: token lacks Sample capability)"@,
                )
            },
        }
    }
}

/// Decides whether extraction follows an ingest at once: a sampling session must
/// be there, and a scope must allow it. Without a scope it is allowed.
pub fn sample_step(scope: &Option<Scope>, has_session: bool, episode_id: &str) -> (r: SampleStep)
    ensures
        match skip_text(scope.deep_view(), has_session, episode_id@) {
            None => r is Extract,
            Some(t) => r is Skip && r->Skip_0@ == t,
        },
{
    if !has_session {
        return SampleStep::Skip(
            cat3(
                "Ingested as episode: ",
                episode_id,
                " (extraction skipped: no sampling session)",
            ),
        );
    }
    match scope {
        None => SampleStep::Extract,
        Some(s) => if s.caps.contains(Capability::Sample) {
            SampleStep::Extract
        } else {
            SampleStep::Skip(
                cat3(
                    "Ingested as episode: ",
                    episode_id,
                    " (extraction skipped: token lacks Sample capability)",
                ),
            )
        },
    }
}

/// What is said of an extraction that ran.
pub fn extracted_text(episode_id: &str, extracted: u64, quarantined: u64) -> (r: String)
    ensures
        r@ == "Ingested + extracted: "@ + episode_id@ + " ("@ + nat_text(extracted as nat)
            + " extracted, "@ + nat_text(quarantined as nat) + " quarantined)"@,
{
    let done = show_u64(extracted);
    let held = show_u64(quarantined);
    let mut r = cat5(
        "Ingested + extracted: ",
        episode_id,
        " (",
        done.as_str(),
        " extracted, ",
    );
    r.push_str(held.as_str());
    r.push_str(" quarantined)");
    r
}

/// What is said of an extraction that failed.
pub fn extraction_failed_text(episode_id: &str, error: &str) -> (r: String)
    ensures
        r@ == "Ingested as episode: "@ + episode_id@ + " (extraction failed: "@ + error@ + ")"@,
{
    cat5("Ingested as episode: ", episode_id, " (extraction failed: ", error, ")")
}

/// A statement's object as it is explained: an entity with its surface form, or
/// the JSON of a literal.
pub open spec fn why_object_json(o: ObjectView, surface: Seq<char>, literal: JsonView) -> JsonView {
    match o {
        ObjectView::Entity(id) => JsonView::Obj(
            seq![
                ("id"@, JsonView::Str(id)),
                ("kind"@, JsonView::Str("entity"@)),
                ("surface"@, JsonView::Str(surface)),
            ],
        ),
        ObjectView::Literal(_) => literal,
    }
}

/// The provenance of a statement as it is shown.
pub open spec fn why_json(
    s: StatementView,
    status: Seq<char>,
    surface: Seq<char>,
    literal: JsonView,
    assertions: JsonView,
    breakdown: JsonView,
) -> JsonView {
    JsonView::Obj(
        seq![
            ("assertions"@, assertions),
            ("confidence_breakdown"@, breakdown),
            (
                "statement"@,
                JsonView::Obj(
                    seq![
                        ("id"@, JsonView::Str(s.id)),
                        ("object"@, why_object_json(s.object, surface, literal)),
                        ("predicate"@, JsonView::Str(s.predicate)),
                        ("space"@, JsonView::Str(s.space)),
                        ("subject"@, JsonView::Str(s.subject)),
                    ],
                ),
            ),
            ("status"@, JsonView::Str(status)),
        ],
    )
}

/// The provenance of a statement as it is shown. `surface` is the surface form of
/// an entity object, `literal` the JSON of a literal one; `assertions` and
/// `breakdown` are the details, which hold fractions, as JSON.
pub fn why_payload(
    statement: &Statement,
    status: &str,
    surface: &str,
    literal: Json,
    assertions: Json,
    breakdown: Json,
) -> (r: Json)
    ensures
        r.deep_view() == why_json(
            statement.deep_view(),
            status@,
            surface@,
            literal.deep_view(),
            assertions.deep_view(),
            breakdown.deep_view(),
        ),
{
    let ghost details = (literal.deep_view(), assertions.deep_view(), breakdown.deep_view());
    let shown = match &statement.object {
        Object::Entity(id) => object3(
            "id",
            string(id.as_str()),
            "kind",
            string("entity"),
            "surface",
            string(surface),
        ),
        Object::Literal(_) => literal,
    };
    let mut s: Vec<(String, Json)> = Vec::new();
    s.push(("id".to_owned(), string(statement.id.as_str())));
    s.push(("object".to_owned(), shown));
    s.push(("predicate".to_owned(), string(statement.predicate.as_str())));
    s.push(("space".to_owned(), string(statement.space.as_str())));
    s.push(("subject".to_owned(), string(statement.subject.as_str())));
    let mut m: Vec<(String, Json)> = Vec::new();
    let ghost whole = why_json(
        statement.deep_view(),
        status@,
        surface@,
        details.0,
        details.1,
        details.2,
    );
    assert(members_view(s@) =~= whole->Obj_0[2].1->Obj_0);
    m.push(("assertions".to_owned(), assertions));
    m.push(("confidence_breakdown".to_owned(), breakdown));
    m.push(("statement".to_owned(), object(s)));
    m.push(("status".to_owned(), string(status)));
    assert(members_view(m@) =~= whole->Obj_0);
    object(m)
}

/// Whether a tool is known, and the answer to its call where it is not.
pub fn known_tool(name: &str) -> (r: Result<(), RpcError>)
    ensures
        match capability_for(name@) {
            Some(_) => r is Ok,
            None => r is Err && r->Err_0.deep_view() == (RpcErrorView {
                code: METHOD_NOT_FOUND,
                message: "unknown tool: "@ + name@,
            }),
        },
{
    if required_capability(name).is_none() {
        Err(unknown_tool(name))
    } else {
        Ok(())
    }
}

/// An argument that was read, or why it could not be.
pub open spec fn read_part<T>(part: Result<T, Seq<char>>, name: Seq<char>) -> Result<
    T,
    ToolErrView,
> {
    match part {
        Ok(v) => Ok(v),
        Err(e) => Err(ToolErrView::Params("parse "@ + name + ": "@ + e)),
    }
}

/// The view of an argument that was read.
pub open spec fn part_view<T: DeepView>(part: Result<T, String>) -> Result<T::V, Seq<char>> {
    match part {
        Ok(v) => Ok(v.deep_view()),
        Err(e) => Err(e@),
    }
}

fn unread(name: &str, e: &String) -> (r: ToolErr)
    ensures
        r.deep_view() == ToolErrView::Params("parse "@ + name@ + ": "@ + e@),
{
    let r = cat4("parse ", name, ": ", e.as_str());
    ToolErr::Params(r)
}

/// The declaration that a retraction by parts makes: the subject must have been
/// read, then the predicate given, then the object read.
pub open spec fn retraction_of(
    subject: Result<EntityRefView, Seq<char>>,
    predicate: Option<Seq<char>>,
    object: Result<DeclObjectView, Seq<char>>,
    episode: Seq<char>,
) -> Result<DeclarationView, ToolErrView> {
    match read_part(subject, "subject"@) {
        Err(e) => Err(e),
        Ok(subject) => match predicate {
            None => Err(
                ToolErrView::Params("missing required argument '"@ + "predicate"@ + "'"@),
            ),
            Some(predicate) => match read_part(object, "object"@) {
                Err(e) => Err(e),
                Ok(object) => Ok(DeclarationView::Retract { subject, predicate, object, episode }),
            },
        },
    }
}

/// The declaration that a retraction by parts makes, from what reading its
/// arguments gave.
pub fn retraction(
    subject: Result<EntityRef, String>,
    predicate: Option<String>,
    object: Result<DeclObject, String>,
    episode: String,
) -> (r: Result<Declaration, ToolErr>)
    ensures
        match retraction_of(
            part_view(subject),
            predicate.deep_view(),
            part_view(object),
            episode@,
        ) {
            Ok(d) => r is Ok && r->Ok_0.deep_view() == d,
            Err(e) => tool_fails(r, e),
        },
{
    let subject = match subject {
        Ok(s) => s,
        Err(e) => {
            return Err(unread("subject", &e));
        },
    };
    let predicate = match predicate {
        Some(p) => p,
        None => {
            return Err(ToolErr::Params(cat3("missing required argument '", "predicate", "'")));
        },
    };
    match object {
        Ok(object) => Ok(Declaration::Retract { subject, predicate, object, episode }),
        Err(e) => Err(unread("object", &e)),
    }
}

/// The declaration that a merge of two entities makes: the loser must have been
/// read, then the winner.
pub open spec fn merging_of(
    loser: Result<EntityRefView, Seq<char>>,
    winner: Result<EntityRefView, Seq<char>>,
) -> Result<DeclarationView, ToolErrView> {
    match read_part(loser, "loser"@) {
        Err(e) => Err(e),
        Ok(loser) => match read_part(winner, "winner"@) {
            Err(e) => Err(e),
            Ok(winner) => Ok(DeclarationView::Merge { loser, winner }),
        },
    }
}

/// The declaration that a merge of two entities makes, from what reading its
/// arguments gave.
pub fn merging(loser: Result<EntityRef, String>, winner: Result<EntityRef, String>) -> (r: Result<
    Declaration,
    ToolErr,
>)
    ensures
        match merging_of(part_view(loser), part_view(winner)) {
            Ok(d) => r is Ok && r->Ok_0.deep_view() == d,
            Err(e) => tool_fails(r, e),
        },
{
    match loser {
        Err(e) => Err(unread("loser", &e)),
        Ok(loser) => match winner {
            Err(e) => Err(unread("winner", &e)),
            Ok(winner) => Ok(Declaration::Merge { loser, winner }),
        },
    }
}

/// What a tool did that wrote an episode.
#[derive(Debug, Clone, Copy, PartialEq, Eq, Structural)]
pub enum Written {
    Ingested,
    Declared,
    Retracted,
    Merged,
}

/// The word for what a tool did.
pub open spec fn written_word(done: Written) -> Seq<char> {
    match done {
        Written::Ingested => "Ingested"@,
        Written::Declared => "Declared"@,
        Written::Retracted => "Retracted"@,
        Written::Merged => "Merged"@,
    }
}

/// What is said of the episode that a tool wrote.
pub fn written_text(done: Written, episode: &str) -> (r: String)
    ensures
        r@ == written_word(done) + " as episode: "@ + episode@,
{
    let word = match done {
        Written::Ingested => "Ingested",
        Written::Declared => "Declared",
        Written::Retracted => "Retracted",
        Written::Merged => "Merged",
    };
    cat3(word, " as episode: ", episode)
}

} // verus!
