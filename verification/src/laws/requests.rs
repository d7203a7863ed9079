//! What calls ask for, which resources are read and how outcomes are answered.
use vstd::prelude::*;

use crate::json::{member, text_member, JsonView};
use crate::knowledge::{by_newest, is_live_in};
use crate::laws::reading::law_text_is_split_at_the_first;
use crate::laws::wire::{holds_text, law_tool_results_hold_their_text, lemma_member_at};
use crate::parse::{integer_in, natural_in, split_first};
use crate::project::{DeclObjectView, DeclarationView, EntityRefView};
use crate::protocol::INVALID_PARAMS;
use crate::redaction::RedactTargetView;
use crate::requests::{
    call_in, direction_of, int_argument, is_tool, merging_of, mode_of, nat_or, outcome_json,
    redact_request, request_of, retraction_of, skip_text, start_of, target_of, text_or, why_json,
    why_object_json, RpcErrorView, ToolErrView, ToolRequestView,
};
use crate::resources::{
    contents_json, depth_parameter, overview_json, parameter, parameter_in, path_and_query,
    request_in, resource_answer, resource_in, space_cards, time_parameter, without_slashes,
    EntityCardView, ResourceKindView, ResourceRequestView,
};
use crate::rows::{lemma_ordered_members, lemma_selected, ordered};
use crate::security::{Capability, ScopeView};
use crate::tables::{EntityView, ObjectView, StatementView, TablesView};

verus! {

/// Whether an argument is a text.
pub open spec fn has_text(args: JsonView, key: Seq<char>, s: Seq<char>) -> bool {
    member(args, key) == Some(JsonView::Str(s))
}

/// What is asked is what the call says: each request is of the tool of its name and
/// has the arguments of the call, with the defaults of the tool where one is missing.
pub proof fn law_requests_are_taken_from_the_call(
    name: Seq<char>,
    args: JsonView,
    space_id: Seq<char>,
)
    ensures
        request_of(name, args, space_id) is None <==> !is_tool(name),
        request_of(name, args, space_id) matches Some(Ok(r)) ==> match r {
            ToolRequestView::Search { query, mode, limit, as_of, min_confidence } => {
                &&& name == "search"@
                &&& has_text(args, "query"@, query)
                &&& mode == mode_of(text_or(args, "mode"@, "hybrid"@))
                &&& limit == nat_or(args, "limit"@, 20)
                &&& as_of == int_argument(args, "as_of"@)
                &&& min_confidence == member(args, "min_confidence"@)
            },
            ToolRequestView::Recall { query, budget } => {
                &&& name == "recall"@
                &&& has_text(args, "query"@, query)
                &&& budget == nat_or(args, "token_budget"@, 3000)
            },
            ToolRequestView::BriefEntity { entity_id } => name == "brief"@ && has_text(
                args,
                "entity_id"@,
                entity_id,
            ) && text_or(args, "target_kind"@, "entity"@) == "entity"@,
            ToolRequestView::BriefSpace => name == "brief"@ && has_text(
                args,
                "target_kind"@,
                "space"@,
            ),
            ToolRequestView::BriefTopic { topic } => name == "brief"@ && has_text(
                args,
                "topic"@,
                topic,
            ) && has_text(args, "target_kind"@, "topic"@),
            ToolRequestView::Navigate { from, link } => name == "navigate"@ && has_text(
                args,
                "from"@,
                from,
            ) && has_text(args, "link"@, link),
            ToolRequestView::Ingest { content, path, extract } => {
                &&& name == "ingest"@
                &&& has_text(args, "content"@, content)
                &&& path == text_or(args, "source_path"@, "mcp"@)
                &&& extract <==> member(args, "extract"@) == Some(JsonView::Bool(true))
            },
            ToolRequestView::Declare { declaration_json } => name == "declare"@ && has_text(
                args,
                "declaration_json"@,
                declaration_json,
            ),
            ToolRequestView::Why { statement_id } => name == "why"@ && has_text(
                args,
                "statement_id"@,
                statement_id,
            ),
            ToolRequestView::Contradictions => name == "contradictions"@,
            ToolRequestView::Stats => name == "stats"@,
            ToolRequestView::Traverse {
                start,
                max_depth,
                max_nodes,
                direction,
                valid_at,
                min_confidence,
            } => {
                &&& name == "traverse"@
                &&& start_of(args) == Ok::<Seq<Seq<char>>, ToolErrView>(start)
                &&& nat_or(args, "depth"@, 3) < 0x100 ==> max_depth == nat_or(args, "depth"@, 3)
                &&& nat_or(args, "max_nodes"@, 256) < 0x1_0000_0000 ==> max_nodes == nat_or(
                    args,
                    "max_nodes"@,
                    256,
                )
                &&& direction == direction_of(text_or(args, "direction"@, "both"@))
                &&& valid_at == int_argument(args, "valid_at"@)
                &&& min_confidence == member(args, "min_confidence"@)
            },
            ToolRequestView::ReviewMerges => name == "review_merges"@,
            ToolRequestView::Remember { content, path } => name == "remember"@ && has_text(
                args,
                "content"@,
                content,
            ) && path == text_or(args, "source_path"@, "remember"@),
            ToolRequestView::RetractStatement { statement_id, episode } => {
                &&& name == "retract"@
                &&& has_text(args, "statement_id"@, statement_id)
                &&& statement_id.len() > 0
                &&& episode == text_or(args, "episode"@, ""@)
            },
            ToolRequestView::RetractParts { subject, predicate, object, episode } => {
                &&& name == "retract"@
                &&& text_or(args, "statement_id"@, ""@).len() == 0
                &&& subject == member(args, "subject"@)
                &&& predicate == text_member(args, "predicate"@)
                &&& object == member(args, "object"@)
                &&& episode == text_or(args, "episode"@, ""@)
            },
            ToolRequestView::MergeEntities { loser, winner } => name == "merge_entities"@ && loser
                == member(args, "loser"@) && winner == member(args, "winner"@),
            ToolRequestView::Redact { target, reason, dry_run } => {
                &&& name == "redact"@
                &&& reason == text_or(args, "reason"@, "mcp redact"@)
                &&& dry_run <==> member(args, "dry_run"@) == Some(JsonView::Bool(true))
                &&& exists|kind: Seq<char>, id: Seq<char>|
                    #![trigger target_of(kind, id, space_id)]
                    has_text(args, "target_kind"@, kind) && has_text(args, "target_id"@, id)
                        && target_of(kind, id, space_id) == Ok::<RedactTargetView, ToolErrView>(
                        target,
                    )
            },
        },
{
    reveal_strlit("");
    assert(""@.len() == 0);
    assert(""@ =~= Seq::<char>::empty());
    let id = text_or(args, "statement_id"@, ""@);
    if id.len() == 0 {
        assert(id =~= ""@);
    }
    reveal_strlit("entity");
    reveal_strlit("space");
    reveal_strlit("topic");
    assert("entity"@.len() == 6 && "space"@.len() == 5 && "topic"@.len() == 5);
    reveal_strlit("declare");
    reveal_strlit("remember");
    reveal_strlit("why");
    assert("declare"@[0] == 'd' && "remember"@[0] == 'r' && "why"@[0] == 'w');
    if name == "redact"@ && redact_request(args, space_id) is Ok {
        let kind = text_member(args, "target_kind"@)->Some_0;
        let id = text_member(args, "target_id"@)->Some_0;
        assert(has_text(args, "target_kind"@, kind) && has_text(args, "target_id"@, id));
        assert(target_of(kind, id, space_id) is Ok);
    }
}

/// What is redacted: an episode or an entity by its id, or what is said of an entity
/// by a predicate, where the id names both. Entities are of the space of the call.
pub proof fn law_redaction_targets_are_named(
    kind: Seq<char>,
    id: Seq<char>,
    space_id: Seq<char>,
)
    ensures
        match target_of(kind, id, space_id) {
            Ok(RedactTargetView::Episode { id: e }) => kind == "episode"@ && e == id,
            Ok(RedactTargetView::Entity { space, entity_id }) => kind == "entity"@ && space
                == space_id && entity_id == id,
            Ok(RedactTargetView::PredicateScoped { space, entity_id, predicate }) => kind
                == "predicate"@ && space == space_id && id == entity_id + "/"@ + predicate,
            Ok(RedactTargetView::Space { .. }) => false,
            Err(e) => e is Params,
        },
{
    law_text_is_split_at_the_first(id, "/"@);
}

/// A call names its tool; its arguments are those given, or none.
pub proof fn law_calls_name_their_tool(params: Option<JsonView>)
    ensures
        match call_in(params) {
            Ok((name, args)) => params matches Some(p) && has_text(p, "name"@, name) && (member(
                p,
                "arguments"@,
            ) is Some ==> member(p, "arguments"@) == Some(args)) && (member(
                p,
                "arguments"@,
            ) is None ==> args == JsonView::Obj(Seq::empty())),
            Err(e) => e.code == INVALID_PARAMS,
        },
        call_in(params) is Err <==> params is None || text_member(params->Some_0, "name"@) is None,
{
}

/// A tool that ran is answered by its text, one that failed by its text marked as an
/// error, and one that was called wrongly by an error of the call.
pub proof fn law_outcomes_are_answered(outcome: Result<Seq<char>, ToolErrView>)
    ensures
        match outcome {
            Ok(text) => outcome_json(outcome) matches Ok(v) && holds_text(v, text) && member(
                v,
                "isError"@,
            ) is None,
            Err(ToolErrView::Run(text)) => outcome_json(outcome) matches Ok(v) && holds_text(
                v,
                text,
            ) && member(v, "isError"@) == Some(JsonView::Bool(true)),
            Err(ToolErrView::Params(text)) => outcome_json(outcome) matches Err(e) && e.code
                == INVALID_PARAMS && e.message == text,
        },
{
    match outcome {
        Ok(text) => law_tool_results_hold_their_text(text),
        Err(ToolErrView::Run(text)) => law_tool_results_hold_their_text(text),
        Err(_) => {},
    }
}

/// What was ingested is extracted just where there is a session to sample from and
/// the scope, where there is one, allows it.
pub proof fn law_extraction_needs_session_and_scope(
    scope: Option<ScopeView>,
    has_session: bool,
    episode: Seq<char>,
)
    ensures
        skip_text(scope, has_session, episode) is None <==> has_session && (scope matches Some(s)
            ==> s.caps.contains(Capability::Sample)),
{
}

/// A retraction declares the subject, predicate and object that were read, and is
/// refused where one of them was not.
pub proof fn law_retraction_declares_its_parts(
    subject: Result<EntityRefView, Seq<char>>,
    predicate: Option<Seq<char>>,
    object: Result<DeclObjectView, Seq<char>>,
    episode: Seq<char>,
)
    ensures
        match retraction_of(subject, predicate, object, episode) {
            Ok(d) => d matches DeclarationView::Retract {
                subject: s,
                predicate: p,
                object: o,
                episode: e,
            } && subject == Ok::<EntityRefView, Seq<char>>(s) && predicate == Some(p) && object
                == Ok::<DeclObjectView, Seq<char>>(o) && e == episode,
            Err(e) => e is Params && (subject is Err || predicate is None || object is Err),
        },
{
}

/// A merge declares the loser and the winner that were read, each in its place.
pub proof fn law_merge_declares_loser_and_winner(
    loser: Result<EntityRefView, Seq<char>>,
    winner: Result<EntityRefView, Seq<char>>,
)
    ensures
        match merging_of(loser, winner) {
            Ok(d) => d matches DeclarationView::Merge { loser: l, winner: w } && loser == Ok::<
                EntityRefView,
                Seq<char>,
            >(l) && winner == Ok::<EntityRefView, Seq<char>>(w),
            Err(e) => e is Params && (loser is Err || winner is Err),
        },
{
}

/// A parameter of a query is the value behind the first equals sign of the last part
/// of its name.
pub proof fn law_parameters_are_found_by_name(parts: Seq<Seq<char>>, key: Seq<char>)
    ensures
        match parameter_in(parts, key) {
            Some(v) => exists|i: int|
                0 <= i < parts.len() && is_value(#[trigger] parts[i], key, v) && forall|j: int|
                    i < j < parts.len() ==> !is_named(#[trigger] parts[j], key),
            None => forall|i: int| 0 <= i < parts.len() ==> !is_named(#[trigger] parts[i], key),
        },
    decreases parts.len(),
{
    if parts.len() > 0 {
        let init = parts.drop_last();
        let n = parts.len() - 1;
        assert(parts[n] == parts.last());
        if is_named(parts.last(), key) {
            assert(is_value(parts[n], key, parameter_in(parts, key)->Some_0));
        } else {
            law_parameters_are_found_by_name(init, key);
            match parameter_in(init, key) {
                Some(v) => {
                    let i = choose|i: int|
                        0 <= i < init.len() && is_value(#[trigger] init[i], key, v)
                            && forall|j: int|
                            i < j < init.len() ==> !is_named(#[trigger] init[j], key);
                    assert(is_value(parts[i], key, v));
                    assert forall|j: int| i < j < parts.len() implies !is_named(
                        #[trigger] parts[j],
                        key,
                    ) by {
                        if j < n {
                            assert(init[j] == parts[j]);
                        }
                    }
                },
                None => {
                    assert forall|i: int| 0 <= i < parts.len() implies !is_named(
                        #[trigger] parts[i],
                        key,
                    ) by {
                        if i < n {
                            assert(init[i] == parts[i]);
                        }
                    }
                },
            }
        }
    }
}

/// Whether a part of a query is of a name.
pub open spec fn is_named(part: Seq<char>, key: Seq<char>) -> bool {
    split_first(part, "="@) matches Some(p) && p.0 == key
}

/// Whether a part of a query gives a name a value.
pub open spec fn is_value(part: Seq<char>, key: Seq<char>, value: Seq<char>) -> bool {
    split_first(part, "="@) matches Some(p) && p.0 == key && p.1 == value
}

/// A resource is asked for by its scheme: of the space that the query names, or else
/// the personal one, but for a space, which its own path names.
pub proof fn law_resources_are_named_by_scheme(uri: Seq<char>)
    ensures
        match request_in(uri) {
            Err(e) => e.code == INVALID_PARAMS && split_first(uri, "://"@) is None,
            Ok(r) => split_first(uri, "://"@) matches Some((scheme, rest)) && {
                let (path, query) = path_and_query(rest);
                let id = without_slashes(path);
                &&& r.uri == uri
                &&& uri == scheme + "://"@ + rest
                &&& scheme == "space"@ ==> r.kind is Space && r.space == path
                &&& scheme != "space"@ ==> r.space == match parameter(query, "space"@) {
                    Some(s) => s,
                    None => "personal"@,
                }
                &&& match r.kind {
                    ResourceKindView::Space => scheme == "space"@,
                    ResourceKindView::Entity { id: i } => scheme == "entity"@ && i == id,
                    ResourceKindView::Episode { id: i } => scheme == "episode"@ && i == id,
                    ResourceKindView::Graph { id: i, depth, direction } => {
                        &&& scheme == "graph"@
                        &&& i == id
                        &&& depth == depth_parameter(query)
                        &&& parameter(query, "direction"@) is None ==> direction is Both
                        &&& parameter(query, "direction"@) matches Some(s) ==> direction
                            == direction_of(s)
                    },
                    ResourceKindView::Timeline { id: i, from, to } => {
                        &&& scheme == "timeline"@
                        &&& i == id
                        &&& from == time_parameter(query, "from"@)
                        &&& to == time_parameter(query, "to"@)
                    },
                    ResourceKindView::Unknown { scheme: s } => s == scheme,
                }
            },
        },
{
    law_text_is_split_at_the_first(uri, "://"@);
}

/// The numbers of a query: a time that is a whole number, and a depth of one byte,
/// two where none is given.
pub proof fn law_numbers_of_a_query(query: Seq<char>, key: Seq<char>)
    ensures
        match parameter(query, key) {
            None => time_parameter(query, key) is None,
            Some(s) => time_parameter(query, key) is Some <==> integer_in(s) is Some,
        },
        parameter(query, "depth"@) is None ==> depth_parameter(query) == 2,
        parameter(query, "depth"@) matches Some(s) ==> match natural_in(s, 255) {
            Some(n) => depth_parameter(query) == n,
            None => depth_parameter(query) == 2,
        },
{
}

/// The path and the query of what follows the scheme are parted by the first
/// question mark.
pub proof fn law_query_follows_the_question_mark(rest: Seq<char>)
    ensures
        ({
            let (path, query) = path_and_query(rest);
            &&& split_first(rest, "?"@) is Some ==> rest == path + "?"@ + query
            &&& split_first(rest, "?"@) is None ==> path == rest && query.len() == 0
        }),
{
    law_text_is_split_at_the_first(rest, "?"@);
    reveal_strlit("");
    assert(""@.len() == 0);
}

/// Slashes in front are dropped, and nothing else.
pub proof fn law_front_slashes_are_dropped(s: Seq<char>)
    ensures
        ({
            let r = without_slashes(s);
            let n = s.len() - r.len();
            &&& r.len() <= s.len()
            &&& r == s.skip(n)
            &&& forall|k: int| 0 <= k < n ==> #[trigger] s[k] == '/'
            &&& r.len() > 0 ==> r[0] != '/'
        }),
    decreases s.len(),
{
    if s.len() > 0 && s[0] == '/' {
        let rest = s.drop_first();
        law_front_slashes_are_dropped(rest);
        let r = without_slashes(s);
        let n = s.len() - r.len();
        assert(rest.skip(n - 1) =~= s.skip(n));
        assert forall|k: int| 0 <= k < n implies #[trigger] s[k] == '/' by {
            if k > 0 {
                assert(rest[k - 1] == s[k]);
            }
        }
    } else {
        assert(s.skip(0) =~= s);
    }
}

/// Reading a resource needs its address; what is read is answered under it.
pub proof fn law_resources_are_read_by_address(
    params: Option<JsonView>,
    uri: Seq<char>,
    text: Seq<char>,
)
    ensures
        params matches Some(p) && has_text(p, "uri"@, uri) ==> resource_in(params)
            == request_in(uri),
        params is None ==> resource_in(params) is Err,
        member(contents_json(uri, text), "contents"@) matches Some(JsonView::Arr(items))
            && items.len() == 1 && text_member(items[0], "uri"@) == Some(uri) && text_member(
            items[0],
            "text"@,
        ) == Some(text),
{
    let m = contents_json(uri, text)->Obj_0;
    lemma_member_at(m, 0);
    let item = m[0].1->Arr_0[0]->Obj_0;
    reveal_strlit("mimeType");
    reveal_strlit("text");
    reveal_strlit("uri");
    assert("mimeType"@.len() == 8 && "text"@.len() == 4 && "uri"@.len() == 3);
    lemma_member_at(item, 0);
    lemma_member_at(item, 1);
    lemma_member_at(item, 2);
}

/// An episode that is not found, and a scheme that is not known, are refused.
pub proof fn law_missing_resources_are_refused(
    db: TablesView,
    request: ResourceRequestView,
    space_id: Seq<char>,
    found: Option<Seq<char>>,
)
    ensures
        resource_answer(db, request, space_id, found) is Err <==> request.kind is Unknown || (
        request.kind is Episode && found is None),
        request.kind is Episode || request.kind is Entity || request.kind is Graph
            || request.kind is Timeline ==> (found matches Some(text) ==> resource_answer(
            db,
            request,
            space_id,
            found,
        ) == Ok::<JsonView, RpcErrorView>(contents_json(request.uri, text))),
{
}

/// The cards of a space are of its entities that were not merged away, newest first,
/// each with its id and its type.
pub proof fn law_cards_are_of_the_space(db: TablesView, space: Seq<char>)
    ensures
        ({
            let rows = ordered(db.entities.filter(is_live_in(space)), by_newest());
            let r = space_cards(db, space);
            &&& r.len() == rows.len()
            &&& forall|i: int|
                0 <= i < r.len() ==> (#[trigger] r[i]).id == rows[i].id && r[i].ty == rows[i].ty
            &&& forall|e: EntityView| #[trigger]
                rows.contains(e) <==> db.entities.contains(e) && e.space == space
                    && e.merged_into is None
        }),
{
    let p = is_live_in(space);
    lemma_selected(db.entities, p);
    lemma_ordered_members(db.entities.filter(p), by_newest());
}

/// An overview counts the cards, and tells as many of the newest as fit.
pub proof fn law_overview_tells_counts(
    space: Seq<char>,
    space_id: Seq<char>,
    cards: Seq<EntityCardView>,
    episodes: u64,
    contradictions: u64,
)
    ensures
        ({
            let v = overview_json(space, space_id, cards, episodes, contradictions);
            &&& text_member(v, "space"@) == Some(space)
            &&& text_member(v, "space_id"@) == Some(space_id)
            &&& member(v, "episode_count"@) == Some(JsonView::Pos(episodes))
            &&& member(v, "contradiction_count"@) == Some(JsonView::Pos(contradictions))
            &&& cards.len() <= u64::MAX ==> member(v, "entity_count"@) == Some(
                JsonView::Pos(cards.len() as u64),
            )
            &&& member(v, "recent_entities"@) matches Some(JsonView::Arr(items)) && items.len()
                == if cards.len() < 20 {
                cards.len()
            } else {
                20
            } && forall|i: int|
                0 <= i < items.len() ==> text_member(#[trigger] items[i], "id"@) == Some(
                    cards[i].id,
                ) && text_member(items[i], "surface"@) == Some(cards[i].surface) && text_member(
                    items[i],
                    "type"@,
                ) == Some(cards[i].ty)
        }),
{
    reveal_strlit("contradiction_count");
    reveal_strlit("entity_count");
    reveal_strlit("episode_count");
    reveal_strlit("recent_entities");
    reveal_strlit("space");
    reveal_strlit("space_id");
    reveal_strlit("id");
    reveal_strlit("surface");
    reveal_strlit("type");
    assert("contradiction_count"@.len() == 19 && "entity_count"@.len() == 12
        && "episode_count"@.len()
        == 13 && "recent_entities"@.len() == 15 && "space"@.len() == 5 && "space_id"@.len() == 8);
    assert("id"@.len() == 2 && "surface"@.len() == 7 && "type"@.len() == 4);
    let m = overview_json(space, space_id, cards, episodes, contradictions)->Obj_0;
    lemma_member_at(m, 0);
    lemma_member_at(m, 1);
    lemma_member_at(m, 2);
    lemma_member_at(m, 3);
    lemma_member_at(m, 4);
    lemma_member_at(m, 5);
    let items = m[3].1->Arr_0;
    assert forall|i: int| 0 <= i < items.len() implies text_member(#[trigger] items[i], "id"@)
        == Some(cards[i].id) && text_member(items[i], "surface"@) == Some(cards[i].surface)
        && text_member(items[i], "type"@) == Some(cards[i].ty) by {
        let c = items[i]->Obj_0;
        assert(c[0].0 == "id"@);
        lemma_member_at(c, 0);
        lemma_member_at(c, 1);
        lemma_member_at(c, 2);
    }
}

/// The answer to why a statement is believed tells the statement, its status, its
/// assertions and the breakdown of its confidence.
pub proof fn law_why_tells_the_statement(
    s: StatementView,
    status: Seq<char>,
    surface: Seq<char>,
    literal: JsonView,
    assertions: JsonView,
    breakdown: JsonView,
)
    ensures
        ({
            let v = why_json(s, status, surface, literal, assertions, breakdown);
            &&& text_member(v, "status"@) == Some(status)
            &&& member(v, "assertions"@) == Some(assertions)
            &&& member(v, "confidence_breakdown"@) == Some(breakdown)
            &&& member(v, "statement"@) matches Some(w) && text_member(w, "id"@) == Some(s.id)
                && text_member(w, "predicate"@) == Some(s.predicate) && text_member(w, "space"@)
                == Some(s.space) && text_member(w, "subject"@) == Some(s.subject) && (
            s.object is Literal ==> member(w, "object"@) == Some(literal)) && (
            s.object matches ObjectView::Entity(id) ==> member(w, "object"@) == Some(
                why_object_json(s.object, surface, literal),
            ) && text_member(why_object_json(s.object, surface, literal), "id"@) == Some(id)
                && text_member(why_object_json(s.object, surface, literal), "surface"@) == Some(
                surface,
            ))
        }),
{
    reveal_strlit("assertions");
    reveal_strlit("confidence_breakdown");
    reveal_strlit("statement");
    reveal_strlit("status");
    reveal_strlit("id");
    reveal_strlit("object");
    reveal_strlit("predicate");
    reveal_strlit("space");
    reveal_strlit("subject");
    reveal_strlit("kind");
    reveal_strlit("surface");
    assert("assertions"@.len() == 10 && "confidence_breakdown"@.len() == 20 && "statement"@.len()
        == 9 && "status"@.len() == 6);
    assert("id"@.len() == 2 && "object"@.len() == 6 && "predicate"@.len() == 9 && "space"@.len()
        == 5 && "subject"@.len() == 7 && "kind"@.len() == 4 && "surface"@.len() == 7);
    let m = why_json(s, status, surface, literal, assertions, breakdown)->Obj_0;
    lemma_member_at(m, 0);
    lemma_member_at(m, 1);
    lemma_member_at(m, 2);
    lemma_member_at(m, 3);
    let w = m[2].1->Obj_0;
    lemma_member_at(w, 0);
    lemma_member_at(w, 1);
    lemma_member_at(w, 2);
    lemma_member_at(w, 3);
    lemma_member_at(w, 4);
    if s.object is Entity {
        let o = why_object_json(s.object, surface, literal)->Obj_0;
        lemma_member_at(o, 0);
        lemma_member_at(o, 1);
        lemma_member_at(o, 2);
    }
}

} // verus!
