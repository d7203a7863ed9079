//! JSON Schemas of the payloads that operations take.
use vstd::prelude::*;

use crate::json::{array, members_view, object, object1, object2, string, Json, JsonView};

verus! {

/// How a space is described where the caller configures the default.
pub const CONFIGURED_SPACE: &'static str = "Space name (default: the configured default space).";

/// How a space is described where the default is the personal space.
pub const PERSONAL_SPACE: &'static str = "Space name (default: personal).";

/// Texts as mathematical values.
pub open spec fn texts_view(texts: Seq<&'static str>) -> Seq<Seq<char>> {
    texts.map_values(|t: &'static str| t@)
}

/// An array of texts.
pub open spec fn texts_json(texts: Seq<Seq<char>>) -> JsonView {
    JsonView::Arr(texts.map_values(|t: Seq<char>| JsonView::Str(t)))
}

fn texts(list: Vec<&'static str>) -> (r: Json)
    ensures
        r.deep_view() == texts_json(texts_view(list@)),
{
    let mut items: Vec<Json> = Vec::new();
    let mut i: usize = 0;
    while i < list.len()
        invariant
            i <= list.len(),
            items.len() == i,
            forall|j: int|
                0 <= j < i ==> (#[trigger] items[j]).deep_view() == JsonView::Str(list[j]@),
        decreases list.len() - i,
    {
        items.push(string(list[i]));
        i = i + 1;
    }
    assert(items.deep_view() =~= texts_json(texts_view(list@))->Arr_0);
    array(items)
}

/// A value of a type.
pub open spec fn bare_json(kind: Seq<char>) -> JsonView {
    JsonView::Obj(seq![("type"@, JsonView::Str(kind))])
}

fn bare(kind: &str) -> (r: Json)
    ensures
        r.deep_view() == bare_json(kind@),
{
    object1("type", string(kind))
}

/// A described value of a type.
pub open spec fn plain_json(description: Seq<char>, kind: Seq<char>) -> JsonView {
    JsonView::Obj(
        seq![("description"@, JsonView::Str(description)), ("type"@, JsonView::Str(kind))],
    )
}

fn plain(description: &str, kind: &str) -> (r: Json)
    ensures
        r.deep_view() == plain_json(description@, kind@),
{
    object2("description", string(description), "type", string(kind))
}

/// A described integer from one up.
pub open spec fn counted_json(description: Seq<char>) -> JsonView {
    JsonView::Obj(
        seq![
            ("description"@, JsonView::Str(description)),
            ("minimum"@, JsonView::Pos(1)),
            ("type"@, JsonView::Str("integer"@)),
        ],
    )
}

fn counted(description: &str) -> (r: Json)
    ensures
        r.deep_view() == counted_json(description@),
{
    let mut m: Vec<(String, Json)> = Vec::new();
    m.push(("description".to_owned(), string(description)));
    m.push(("minimum".to_owned(), Json::Pos(1)));
    m.push(("type".to_owned(), string("integer")));
    let r = object(m);
    assert(r.deep_view()->Obj_0 =~= counted_json(description@)->Obj_0);
    r
}

/// A described number from zero to one.
pub open spec fn share_json(description: Seq<char>) -> JsonView {
    JsonView::Obj(
        seq![
            ("description"@, JsonView::Str(description)),
            ("maximum"@, JsonView::Pos(1)),
            ("minimum"@, JsonView::Pos(0)),
            ("type"@, JsonView::Str("number"@)),
        ],
    )
}

fn share(description: &str) -> (r: Json)
    ensures
        r.deep_view() == share_json(description@),
{
    let mut m: Vec<(String, Json)> = Vec::new();
    m.push(("description".to_owned(), string(description)));
    m.push(("maximum".to_owned(), Json::Pos(1)));
    m.push(("minimum".to_owned(), Json::Pos(0)));
    m.push(("type".to_owned(), string("number")));
    let r = object(m);
    assert(r.deep_view()->Obj_0 =~= share_json(description@)->Obj_0);
    r
}

/// One of some texts.
pub open spec fn bare_choice_json(texts: Seq<Seq<char>>) -> JsonView {
    JsonView::Obj(seq![("enum"@, texts_json(texts)), ("type"@, JsonView::Str("string"@))])
}

fn bare_choice(list: Vec<&'static str>) -> (r: Json)
    ensures
        r.deep_view() == bare_choice_json(texts_view(list@)),
{
    object2("enum", texts(list), "type", string("string"))
}

/// A described choice of one of some texts.
pub open spec fn choice_json(description: Seq<char>, texts: Seq<Seq<char>>) -> JsonView {
    JsonView::Obj(
        seq![
            ("description"@, JsonView::Str(description)),
            ("enum"@, texts_json(texts)),
            ("type"@, JsonView::Str("string"@)),
        ],
    )
}

fn choice(description: &str, list: Vec<&'static str>) -> (r: Json)
    ensures
        r.deep_view() == choice_json(description@, texts_view(list@)),
{
    let mut m: Vec<(String, Json)> = Vec::new();
    m.push(("description".to_owned(), string(description)));
    m.push(("enum".to_owned(), texts(list)));
    m.push(("type".to_owned(), string("string")));
    let r = object(m);
    assert(r.deep_view()->Obj_0 =~= choice_json(description@, texts_view(list@))->Obj_0);
    r
}

/// A described array of items.
pub open spec fn list_json(description: Seq<char>, items: JsonView) -> JsonView {
    JsonView::Obj(
        seq![
            ("description"@, JsonView::Str(description)),
            ("items"@, items),
            ("type"@, JsonView::Str("array"@)),
        ],
    )
}

fn list(description: &str, items: Json) -> (r: Json)
    ensures
        r.deep_view() == list_json(description@, items.deep_view()),
{
    let mut m: Vec<(String, Json)> = Vec::new();
    m.push(("description".to_owned(), string(description)));
    m.push(("items".to_owned(), items));
    m.push(("type".to_owned(), string("array")));
    let r = object(m);
    assert(r.deep_view()->Obj_0 =~= list_json(description@, items.deep_view())->Obj_0);
    r
}

/// The keys that an object must have, where that is said.
pub open spec fn required_json(required: Option<Seq<Seq<char>>>) -> Seq<(Seq<char>, JsonView)> {
    match required {
        Some(keys) => seq![("required"@, texts_json(keys))],
        None => Seq::empty(),
    }
}

/// The keys that an object must have, as mathematical values.
pub open spec fn required_view(required: Option<Vec<&'static str>>) -> Option<Seq<Seq<char>>> {
    match required {
        Some(keys) => Some(texts_view(keys@)),
        None => None,
    }
}

/// An object with properties.
pub open spec fn payload_json(
    properties: Seq<(Seq<char>, JsonView)>,
    required: Option<Seq<Seq<char>>>,
) -> JsonView {
    JsonView::Obj(
        seq![("properties"@, JsonView::Obj(properties))] + required_json(required) + seq![
            ("type"@, JsonView::Str("object"@)),
        ],
    )
}

fn payload(properties: Vec<(String, Json)>, required: Option<Vec<&'static str>>) -> (r: Json)
    ensures
        r.deep_view() == payload_json(members_view(properties@), required_view(required)),
{
    let mut m: Vec<(String, Json)> = Vec::new();
    m.push(("properties".to_owned(), object(properties)));
    if let Some(keys) = required {
        m.push(("required".to_owned(), texts(keys)));
    }
    m.push(("type".to_owned(), string("object")));
    let r = object(m);
    assert(r.deep_view()->Obj_0 =~= payload_json(
        members_view(properties@),
        required_view(required),
    )->Obj_0);
    r
}

/// A described object with properties.
pub open spec fn part_json(
    description: Seq<char>,
    properties: Seq<(Seq<char>, JsonView)>,
    required: Option<Seq<Seq<char>>>,
) -> JsonView {
    JsonView::Obj(
        seq![
            ("description"@, JsonView::Str(description)),
            ("properties"@, JsonView::Obj(properties)),
        ] + required_json(required) + seq![("type"@, JsonView::Str("object"@))],
    )
}

fn part(
    description: &str,
    properties: Vec<(String, Json)>,
    required: Option<Vec<&'static str>>,
) -> (r: Json)
    ensures
        r.deep_view() == part_json(
            description@,
            members_view(properties@),
            required_view(required),
        ),
{
    let mut m: Vec<(String, Json)> = Vec::new();
    m.push(("description".to_owned(), string(description)));
    m.push(("properties".to_owned(), object(properties)));
    if let Some(keys) = required {
        m.push(("required".to_owned(), texts(keys)));
    }
    m.push(("type".to_owned(), string("object")));
    let r = object(m);
    assert(r.deep_view()->Obj_0 =~= part_json(
        description@,
        members_view(properties@),
        required_view(required),
    )->Obj_0);
    r
}

/// The properties of a reference to an entity.
pub open spec fn entity_ref_properties() -> Seq<(Seq<char>, JsonView)> {
    seq![("surface"@, bare_json("string"@)), ("type"@, bare_json("string"@))]
}

/// The properties of the object of a statement.
pub open spec fn object_properties() -> Seq<(Seq<char>, JsonView)> {
    seq![("kind"@, bare_choice_json(seq!["entity"@, "literal"@]))]
}

/// The properties of the payload of `search`.
pub open spec fn search_properties(space: Seq<char>) -> Seq<(Seq<char>, JsonView)> {
    seq![
        (
            "as_of"@,
            plain_json("Valid-time instant (millis since epoch). Only beliefs true at this instant are returned (default: now)."@, "integer"@),
        ),
        (
            "known_at"@,
            plain_json("Transaction-time instant (millis since epoch). Only beliefs recorded by this instant are returned (default: now)."@, "integer"@),
        ),
        ("limit"@, counted_json("Maximum results per plane (default: 20)."@)),
        ("min_confidence"@, share_json("Confidence floor (default: 0)."@)),
        (
            "mode"@,
            choice_json("Retrieval mode (default: hybrid)."@, seq!["hybrid"@, "lexical"@, "lexical-vector"@, "graph"@, "community"@]),
        ),
        (
            "planes"@,
            list_json("Planes to search (default: both)."@, bare_choice_json(seq!["memory"@, "documents"@])),
        ),
        ("query"@, plain_json("The search query text."@, "string"@)),
        ("space"@, plain_json(space, "string"@)),
    ]
}

/// The JSON Schema of the payload of `search`.
pub open spec fn search_payload_json(space: Seq<char>) -> JsonView {
    payload_json(search_properties(space), Some(seq!["query"@]))
}

/// The JSON Schema of the payload of `search`.
pub fn search_payload(space: &str) -> (r: Json)
    ensures
        r.deep_view() == search_payload_json(space@),
{
    let mode_names: Vec<&'static str> = vec!["hybrid", "lexical", "lexical-vector", "graph", "community"];
    assert(texts_view(mode_names@) =~= seq!["hybrid"@, "lexical"@, "lexical-vector"@, "graph"@, "community"@]);
    let planes_names: Vec<&'static str> = vec!["memory", "documents"];
    assert(texts_view(planes_names@) =~= seq!["memory"@, "documents"@]);
    let required: Vec<&'static str> = vec!["query"];
    assert(texts_view(required@) =~= seq!["query"@]);
    let members: Vec<(String, Json)> = vec![
        (
            "as_of".to_owned(),
            plain("Valid-time instant (millis since epoch). Only beliefs true at this instant are returned (default: now).", "integer"),
        ),
        (
            "known_at".to_owned(),
            plain("Transaction-time instant (millis since epoch). Only beliefs recorded by this instant are returned (default: now).", "integer"),
        ),
        ("limit".to_owned(), counted("Maximum results per plane (default: 20).")),
        ("min_confidence".to_owned(), share("Confidence floor (default: 0).")),
        ("mode".to_owned(), choice("Retrieval mode (default: hybrid).", mode_names)),
        ("planes".to_owned(), list("Planes to search (default: both).", bare_choice(planes_names))),
        ("query".to_owned(), plain("The search query text.", "string")),
        ("space".to_owned(), plain(space, "string")),
    ];
    assert(members_view(members@) =~= search_properties(space@));
    payload(members, Some(required))
}

/// The properties of the arguments of the tool `search`.
pub open spec fn search_arguments_properties(space: Seq<char>) -> Seq<(Seq<char>, JsonView)> {
    seq![
        (
            "as_of"@,
            plain_json("Valid-time instant (millis since epoch). Only beliefs true at this instant are returned (default: now)."@, "integer"@),
        ),
        (
            "known_at"@,
            plain_json("Transaction-time instant (millis since epoch). Only beliefs recorded by this instant are returned (default: now)."@, "integer"@),
        ),
        ("limit"@, counted_json("Maximum results (default: 20)."@)),
        ("min_confidence"@, share_json("Confidence floor (default: 0)."@)),
        (
            "mode"@,
            choice_json("Retrieval mode (default: hybrid)."@, seq!["hybrid"@, "lexical"@, "lexical-vector"@, "graph"@, "community"@]),
        ),
        ("query"@, plain_json("The search query text."@, "string"@)),
        ("space"@, plain_json(space, "string"@)),
    ]
}

/// The JSON Schema of the arguments of the tool `search`.
pub open spec fn search_arguments_json(space: Seq<char>) -> JsonView {
    payload_json(search_arguments_properties(space), Some(seq!["query"@]))
}

/// The JSON Schema of the arguments of the tool `search`.
pub fn search_arguments(space: &str) -> (r: Json)
    ensures
        r.deep_view() == search_arguments_json(space@),
{
    let mode_names: Vec<&'static str> = vec!["hybrid", "lexical", "lexical-vector", "graph", "community"];
    assert(texts_view(mode_names@) =~= seq!["hybrid"@, "lexical"@, "lexical-vector"@, "graph"@, "community"@]);
    let required: Vec<&'static str> = vec!["query"];
    assert(texts_view(required@) =~= seq!["query"@]);
    let members: Vec<(String, Json)> = vec![
        (
            "as_of".to_owned(),
            plain("Valid-time instant (millis since epoch). Only beliefs true at this instant are returned (default: now).", "integer"),
        ),
        (
            "known_at".to_owned(),
            plain("Transaction-time instant (millis since epoch). Only beliefs recorded by this instant are returned (default: now).", "integer"),
        ),
        ("limit".to_owned(), counted("Maximum results (default: 20).")),
        ("min_confidence".to_owned(), share("Confidence floor (default: 0).")),
        ("mode".to_owned(), choice("Retrieval mode (default: hybrid).", mode_names)),
        ("query".to_owned(), plain("The search query text.", "string")),
        ("space".to_owned(), plain(space, "string")),
    ];
    assert(members_view(members@) =~= search_arguments_properties(space@));
    payload(members, Some(required))
}

/// The properties of the payload of `recall`.
pub open spec fn recall_properties(space: Seq<char>) -> Seq<(Seq<char>, JsonView)> {
    seq![
        ("query"@, plain_json("What information to assemble."@, "string"@)),
        ("space"@, plain_json(space, "string"@)),
        (
            "token_budget"@,
            counted_json("Maximum tokens for the assembled context (default: 3000)."@),
        ),
    ]
}

/// The JSON Schema of the payload of `recall`.
pub open spec fn recall_payload_json(space: Seq<char>) -> JsonView {
    payload_json(recall_properties(space), Some(seq!["query"@]))
}

/// The JSON Schema of the payload of `recall`.
pub fn recall_payload(space: &str) -> (r: Json)
    ensures
        r.deep_view() == recall_payload_json(space@),
{
    let required: Vec<&'static str> = vec!["query"];
    assert(texts_view(required@) =~= seq!["query"@]);
    let members: Vec<(String, Json)> = vec![
        ("query".to_owned(), plain("What information to assemble.", "string")),
        ("space".to_owned(), plain(space, "string")),
        (
            "token_budget".to_owned(),
            counted("Maximum tokens for the assembled context (default: 3000)."),
        ),
    ];
    assert(members_view(members@) =~= recall_properties(space@));
    payload(members, Some(required))
}

/// The properties of the payload of `brief`.
pub open spec fn brief_properties(space: Seq<char>) -> Seq<(Seq<char>, JsonView)> {
    seq![
        (
            "entity_id"@,
            plain_json("Required when target_kind=entity. The entity's content-derived ID."@, "string"@),
        ),
        ("space"@, plain_json(space, "string"@)),
        (
            "target_kind"@,
            choice_json("Which brief to render. Default: entity."@, seq!["entity"@, "space"@, "topic"@]),
        ),
        (
            "topic"@,
            plain_json("Required when target_kind=topic. A keyword to match against entity surface forms (case-insensitive substring)."@, "string"@),
        ),
    ]
}

/// The JSON Schema of the payload of `brief`.
pub open spec fn brief_payload_json(space: Seq<char>) -> JsonView {
    payload_json(brief_properties(space), Some(Seq::empty()))
}

/// The JSON Schema of the payload of `brief`.
pub fn brief_payload(space: &str) -> (r: Json)
    ensures
        r.deep_view() == brief_payload_json(space@),
{
    let target_kind_names: Vec<&'static str> = vec!["entity", "space", "topic"];
    assert(texts_view(target_kind_names@) =~= seq!["entity"@, "space"@, "topic"@]);
    let required: Vec<&'static str> = Vec::new();
    assert(texts_view(required@) =~= Seq::empty());
    let members: Vec<(String, Json)> = vec![
        (
            "entity_id".to_owned(),
            plain("Required when target_kind=entity. The entity's content-derived ID.", "string"),
        ),
        ("space".to_owned(), plain(space, "string")),
        (
            "target_kind".to_owned(),
            choice("Which brief to render. Default: entity.", target_kind_names),
        ),
        (
            "topic".to_owned(),
            plain("Required when target_kind=topic. A keyword to match against entity surface forms (case-insensitive substring).", "string"),
        ),
    ];
    assert(members_view(members@) =~= brief_properties(space@));
    payload(members, Some(required))
}

/// The properties of the payload of `navigate`.
pub open spec fn navigate_properties(space: Seq<char>) -> Seq<(Seq<char>, JsonView)> {
    seq![
        (
            "from"@,
            plain_json("The view/page the link came from (e.g. an entity:// id)."@, "string"@),
        ),
        ("link"@, plain_json("The link to follow (entity://<id> or a raw entity id)."@, "string"@)),
        ("space"@, plain_json(space, "string"@)),
    ]
}

/// The JSON Schema of the payload of `navigate`.
pub open spec fn navigate_payload_json(space: Seq<char>) -> JsonView {
    payload_json(navigate_properties(space), Some(seq!["from"@, "link"@]))
}

/// The JSON Schema of the payload of `navigate`.
pub fn navigate_payload(space: &str) -> (r: Json)
    ensures
        r.deep_view() == navigate_payload_json(space@),
{
    let required: Vec<&'static str> = vec!["from", "link"];
    assert(texts_view(required@) =~= seq!["from"@, "link"@]);
    let members: Vec<(String, Json)> = vec![
        (
            "from".to_owned(),
            plain("The view/page the link came from (e.g. an entity:// id).", "string"),
        ),
        (
            "link".to_owned(),
            plain("The link to follow (entity://<id> or a raw entity id).", "string"),
        ),
        ("space".to_owned(), plain(space, "string")),
    ];
    assert(members_view(members@) =~= navigate_properties(space@));
    payload(members, Some(required))
}

/// The properties of the payload of `ingest`.
pub open spec fn ingest_properties(space: Seq<char>) -> Seq<(Seq<char>, JsonView)> {
    seq![
        ("content"@, plain_json("The text to ingest."@, "string"@)),
        (
            "extract"@,
            plain_json("If true, extract claims via client sampling immediately (default: false)."@, "boolean"@),
        ),
        (
            "source_path"@,
            plain_json("Optional source label, e.g. a file path (default: mcp)."@, "string"@),
        ),
        ("space"@, plain_json(space, "string"@)),
        (
            "trust"@,
            choice_json("Requested trust tier. Requires trusted_ingest capability for 'trusted'. Default: trusted (parity with the note path until the policy engine lands)."@, seq!["trusted"@, "semi_trusted"@, "untrusted"@]),
        ),
    ]
}

/// The JSON Schema of the payload of `ingest`.
pub open spec fn ingest_payload_json(space: Seq<char>) -> JsonView {
    payload_json(ingest_properties(space), Some(seq!["content"@]))
}

/// The JSON Schema of the payload of `ingest`.
pub fn ingest_payload(space: &str) -> (r: Json)
    ensures
        r.deep_view() == ingest_payload_json(space@),
{
    let trust_names: Vec<&'static str> = vec!["trusted", "semi_trusted", "untrusted"];
    assert(texts_view(trust_names@) =~= seq!["trusted"@, "semi_trusted"@, "untrusted"@]);
    let required: Vec<&'static str> = vec!["content"];
    assert(texts_view(required@) =~= seq!["content"@]);
    let members: Vec<(String, Json)> = vec![
        ("content".to_owned(), plain("The text to ingest.", "string")),
        (
            "extract".to_owned(),
            plain("If true, extract claims via client sampling immediately (default: false).", "boolean"),
        ),
        (
            "source_path".to_owned(),
            plain("Optional source label, e.g. a file path (default: mcp).", "string"),
        ),
        ("space".to_owned(), plain(space, "string")),
        (
            "trust".to_owned(),
            choice("Requested trust tier. Requires trusted_ingest capability for 'trusted'. Default: trusted (parity with the note path until the policy engine lands).", trust_names),
        ),
    ];
    assert(members_view(members@) =~= ingest_properties(space@));
    payload(members, Some(required))
}

/// The properties of the arguments of the tool `ingest`.
pub open spec fn ingest_arguments_properties(space: Seq<char>) -> Seq<(Seq<char>, JsonView)> {
    seq![
        ("content"@, plain_json("The text to ingest."@, "string"@)),
        (
            "extract"@,
            plain_json("If true, extract claims via client sampling immediately (default: false)."@, "boolean"@),
        ),
        (
            "source_path"@,
            plain_json("Optional source label, e.g. a file path (default: mcp)."@, "string"@),
        ),
        ("space"@, plain_json(space, "string"@)),
    ]
}

/// The JSON Schema of the arguments of the tool `ingest`.
pub open spec fn ingest_arguments_json(space: Seq<char>) -> JsonView {
    payload_json(ingest_arguments_properties(space), Some(seq!["content"@]))
}

/// The JSON Schema of the arguments of the tool `ingest`.
pub fn ingest_arguments(space: &str) -> (r: Json)
    ensures
        r.deep_view() == ingest_arguments_json(space@),
{
    let required: Vec<&'static str> = vec!["content"];
    assert(texts_view(required@) =~= seq!["content"@]);
    let members: Vec<(String, Json)> = vec![
        ("content".to_owned(), plain("The text to ingest.", "string")),
        (
            "extract".to_owned(),
            plain("If true, extract claims via client sampling immediately (default: false).", "boolean"),
        ),
        (
            "source_path".to_owned(),
            plain("Optional source label, e.g. a file path (default: mcp).", "string"),
        ),
        ("space".to_owned(), plain(space, "string")),
    ];
    assert(members_view(members@) =~= ingest_arguments_properties(space@));
    payload(members, Some(required))
}

/// The properties of the payload of `declare`.
pub open spec fn declare_properties(space: Seq<char>) -> Seq<(Seq<char>, JsonView)> {
    seq![
        (
            "declaration_json"@,
            plain_json("Canonical declaration JSON (op = add_statement | merge | retract)."@, "string"@),
        ),
        ("space"@, plain_json(space, "string"@)),
    ]
}

/// The JSON Schema of the payload of `declare`.
pub open spec fn declare_payload_json(space: Seq<char>) -> JsonView {
    payload_json(declare_properties(space), Some(seq!["declaration_json"@]))
}

/// The JSON Schema of the payload of `declare`.
pub fn declare_payload(space: &str) -> (r: Json)
    ensures
        r.deep_view() == declare_payload_json(space@),
{
    let required: Vec<&'static str> = vec!["declaration_json"];
    assert(texts_view(required@) =~= seq!["declaration_json"@]);
    let members: Vec<(String, Json)> = vec![
        (
            "declaration_json".to_owned(),
            plain("Canonical declaration JSON (op = add_statement | merge | retract).", "string"),
        ),
        ("space".to_owned(), plain(space, "string")),
    ];
    assert(members_view(members@) =~= declare_properties(space@));
    payload(members, Some(required))
}

/// The properties of the payload of `why`.
pub open spec fn why_properties(space: Seq<char>) -> Seq<(Seq<char>, JsonView)> {
    seq![
        ("space"@, plain_json(space, "string"@)),
        ("statement_id"@, plain_json("The statement ID."@, "string"@)),
    ]
}

/// The JSON Schema of the payload of `why`.
pub open spec fn why_payload_json(space: Seq<char>) -> JsonView {
    payload_json(why_properties(space), Some(seq!["statement_id"@]))
}

/// The JSON Schema of the payload of `why`.
pub fn why_payload(space: &str) -> (r: Json)
    ensures
        r.deep_view() == why_payload_json(space@),
{
    let required: Vec<&'static str> = vec!["statement_id"];
    assert(texts_view(required@) =~= seq!["statement_id"@]);
    let members: Vec<(String, Json)> = vec![
        ("space".to_owned(), plain(space, "string")),
        ("statement_id".to_owned(), plain("The statement ID.", "string")),
    ];
    assert(members_view(members@) =~= why_properties(space@));
    payload(members, Some(required))
}

/// The properties of the payload of `contradictions`.
pub open spec fn contradictions_properties(space: Seq<char>) -> Seq<(Seq<char>, JsonView)> {
    seq![
        ("space"@, plain_json(space, "string"@)),
    ]
}

/// The JSON Schema of the payload of `contradictions`.
pub open spec fn contradictions_payload_json(space: Seq<char>) -> JsonView {
    payload_json(contradictions_properties(space), None)
}

/// The JSON Schema of the payload of `contradictions`.
pub fn contradictions_payload(space: &str) -> (r: Json)
    ensures
        r.deep_view() == contradictions_payload_json(space@),
{
    let members: Vec<(String, Json)> = vec![
        ("space".to_owned(), plain(space, "string")),
    ];
    assert(members_view(members@) =~= contradictions_properties(space@));
    payload(members, None)
}

/// The properties of the payload of `stats`.
pub open spec fn stats_properties(space: Seq<char>) -> Seq<(Seq<char>, JsonView)> {
    seq![
        ("space"@, plain_json(space, "string"@)),
    ]
}

/// The JSON Schema of the payload of `stats`.
pub open spec fn stats_payload_json(space: Seq<char>) -> JsonView {
    payload_json(stats_properties(space), None)
}

/// The JSON Schema of the payload of `stats`.
pub fn stats_payload(space: &str) -> (r: Json)
    ensures
        r.deep_view() == stats_payload_json(space@),
{
    let members: Vec<(String, Json)> = vec![
        ("space".to_owned(), plain(space, "string")),
    ];
    assert(members_view(members@) =~= stats_properties(space@));
    payload(members, None)
}

/// The properties of the payload of `traverse`.
pub open spec fn traverse_properties(space: Seq<char>) -> Seq<(Seq<char>, JsonView)> {
    seq![
        ("depth"@, counted_json("Max traversal depth (default: 3)."@)),
        (
            "direction"@,
            choice_json("Edge direction (default: both)."@, seq!["out"@, "in"@, "both"@]),
        ),
        ("max_nodes"@, counted_json("Max nodes to return (default: 256)."@)),
        ("min_confidence"@, share_json("Confidence floor for edges (default: 0)."@)),
        ("space"@, plain_json(space, "string"@)),
        (
            "start"@,
            list_json("Entity IDs to start from (at least one required)."@, bare_json("string"@)),
        ),
        (
            "valid_at"@,
            plain_json("Valid-time instant (millis since epoch). Walk the graph as believed at this instant (default: now)."@, "integer"@),
        ),
    ]
}

/// The JSON Schema of the payload of `traverse`.
pub open spec fn traverse_payload_json(space: Seq<char>) -> JsonView {
    payload_json(traverse_properties(space), Some(seq!["start"@]))
}

/// The JSON Schema of the payload of `traverse`.
pub fn traverse_payload(space: &str) -> (r: Json)
    ensures
        r.deep_view() == traverse_payload_json(space@),
{
    let direction_names: Vec<&'static str> = vec!["out", "in", "both"];
    assert(texts_view(direction_names@) =~= seq!["out"@, "in"@, "both"@]);
    let required: Vec<&'static str> = vec!["start"];
    assert(texts_view(required@) =~= seq!["start"@]);
    let members: Vec<(String, Json)> = vec![
        ("depth".to_owned(), counted("Max traversal depth (default: 3).")),
        ("direction".to_owned(), choice("Edge direction (default: both).", direction_names)),
        ("max_nodes".to_owned(), counted("Max nodes to return (default: 256).")),
        ("min_confidence".to_owned(), share("Confidence floor for edges (default: 0).")),
        ("space".to_owned(), plain(space, "string")),
        (
            "start".to_owned(),
            list("Entity IDs to start from (at least one required).", bare("string")),
        ),
        (
            "valid_at".to_owned(),
            plain("Valid-time instant (millis since epoch). Walk the graph as believed at this instant (default: now).", "integer"),
        ),
    ];
    assert(members_view(members@) =~= traverse_properties(space@));
    payload(members, Some(required))
}

/// The properties of the payload of `review_merges`.
pub open spec fn review_merges_properties(space: Seq<char>) -> Seq<(Seq<char>, JsonView)> {
    seq![
        (
            "section"@,
            choice_json("What to list (default: merges)."@, seq!["merges"@, "failures"@, "sources"@]),
        ),
        ("space"@, plain_json(space, "string"@)),
    ]
}

/// The JSON Schema of the payload of `review_merges`.
pub open spec fn review_merges_payload_json(space: Seq<char>) -> JsonView {
    payload_json(review_merges_properties(space), None)
}

/// The JSON Schema of the payload of `review_merges`.
pub fn review_merges_payload(space: &str) -> (r: Json)
    ensures
        r.deep_view() == review_merges_payload_json(space@),
{
    let section_names: Vec<&'static str> = vec!["merges", "failures", "sources"];
    assert(texts_view(section_names@) =~= seq!["merges"@, "failures"@, "sources"@]);
    let members: Vec<(String, Json)> = vec![
        ("section".to_owned(), choice("What to list (default: merges).", section_names)),
        ("space".to_owned(), plain(space, "string")),
    ];
    assert(members_view(members@) =~= review_merges_properties(space@));
    payload(members, None)
}

/// The properties of the arguments of the tool `review_merges`.
pub open spec fn review_merges_arguments_properties(space: Seq<char>) -> Seq<(Seq<char>, JsonView)> {
    seq![
        ("space"@, plain_json(space, "string"@)),
    ]
}

/// The JSON Schema of the arguments of the tool `review_merges`.
pub open spec fn review_merges_arguments_json(space: Seq<char>) -> JsonView {
    payload_json(review_merges_arguments_properties(space), None)
}

/// The JSON Schema of the arguments of the tool `review_merges`.
pub fn review_merges_arguments(space: &str) -> (r: Json)
    ensures
        r.deep_view() == review_merges_arguments_json(space@),
{
    let members: Vec<(String, Json)> = vec![
        ("space".to_owned(), plain(space, "string")),
    ];
    assert(members_view(members@) =~= review_merges_arguments_properties(space@));
    payload(members, None)
}

/// The properties of the payload of `remember`.
pub open spec fn remember_properties(space: Seq<char>) -> Seq<(Seq<char>, JsonView)> {
    seq![
        ("content"@, plain_json("The fact or note to remember."@, "string"@)),
        ("source_path"@, plain_json("Optional source label (default: remember)."@, "string"@)),
        ("space"@, plain_json(space, "string"@)),
        (
            "trust"@,
            choice_json("Requested trust tier. Requires trusted_ingest capability for 'trusted'. Default: trusted (parity with the note path until the policy engine lands)."@, seq!["trusted"@, "semi_trusted"@, "untrusted"@]),
        ),
    ]
}

/// The JSON Schema of the payload of `remember`.
pub open spec fn remember_payload_json(space: Seq<char>) -> JsonView {
    payload_json(remember_properties(space), Some(seq!["content"@]))
}

/// The JSON Schema of the payload of `remember`.
pub fn remember_payload(space: &str) -> (r: Json)
    ensures
        r.deep_view() == remember_payload_json(space@),
{
    let trust_names: Vec<&'static str> = vec!["trusted", "semi_trusted", "untrusted"];
    assert(texts_view(trust_names@) =~= seq!["trusted"@, "semi_trusted"@, "untrusted"@]);
    let required: Vec<&'static str> = vec!["content"];
    assert(texts_view(required@) =~= seq!["content"@]);
    let members: Vec<(String, Json)> = vec![
        ("content".to_owned(), plain("The fact or note to remember.", "string")),
        ("source_path".to_owned(), plain("Optional source label (default: remember).", "string")),
        ("space".to_owned(), plain(space, "string")),
        (
            "trust".to_owned(),
            choice("Requested trust tier. Requires trusted_ingest capability for 'trusted'. Default: trusted (parity with the note path until the policy engine lands).", trust_names),
        ),
    ];
    assert(members_view(members@) =~= remember_properties(space@));
    payload(members, Some(required))
}

/// The properties of the arguments of the tool `remember`.
pub open spec fn remember_arguments_properties(space: Seq<char>) -> Seq<(Seq<char>, JsonView)> {
    seq![
        ("content"@, plain_json("The fact or note to remember."@, "string"@)),
        ("source_path"@, plain_json("Optional source label (default: remember)."@, "string"@)),
        ("space"@, plain_json(space, "string"@)),
    ]
}

/// The JSON Schema of the arguments of the tool `remember`.
pub open spec fn remember_arguments_json(space: Seq<char>) -> JsonView {
    payload_json(remember_arguments_properties(space), Some(seq!["content"@]))
}

/// The JSON Schema of the arguments of the tool `remember`.
pub fn remember_arguments(space: &str) -> (r: Json)
    ensures
        r.deep_view() == remember_arguments_json(space@),
{
    let required: Vec<&'static str> = vec!["content"];
    assert(texts_view(required@) =~= seq!["content"@]);
    let members: Vec<(String, Json)> = vec![
        ("content".to_owned(), plain("The fact or note to remember.", "string")),
        ("source_path".to_owned(), plain("Optional source label (default: remember).", "string")),
        ("space".to_owned(), plain(space, "string")),
    ];
    assert(members_view(members@) =~= remember_arguments_properties(space@));
    payload(members, Some(required))
}

/// The properties of the payload of `retract`.
pub open spec fn retract_properties(space: Seq<char>) -> Seq<(Seq<char>, JsonView)> {
    seq![
        ("episode"@, plain_json("Originating episode id (audit context)."@, "string"@)),
        (
            "object"@,
            part_json("Entity or literal object (legacy path)."@, object_properties(), None),
        ),
        ("predicate"@, plain_json("Predicate name (legacy path)."@, "string"@)),
        ("space"@, plain_json(space, "string"@)),
        (
            "statement_id"@,
            plain_json("Statement to retract — takes precedence over subject/predicate/object."@, "string"@),
        ),
        (
            "subject"@,
            part_json("Entity ref: {\"surface\":\"...\",\"type\":\"...\"} (legacy path)."@, entity_ref_properties(), None),
        ),
    ]
}

/// The JSON Schema of the payload of `retract`.
pub open spec fn retract_payload_json(space: Seq<char>) -> JsonView {
    payload_json(retract_properties(space), Some(Seq::empty()))
}

/// The JSON Schema of the payload of `retract`.
pub fn retract_payload(space: &str) -> (r: Json)
    ensures
        r.deep_view() == retract_payload_json(space@),
{
    let object_kind_names: Vec<&'static str> = vec!["entity", "literal"];
    assert(texts_view(object_kind_names@) =~= seq!["entity"@, "literal"@]);
    let object_parts: Vec<(String, Json)> = vec![
        ("kind".to_owned(), bare_choice(object_kind_names)),
    ];
    assert(members_view(object_parts@) =~= object_properties());
    let subject_parts: Vec<(String, Json)> = vec![
        ("surface".to_owned(), bare("string")),
        ("type".to_owned(), bare("string")),
    ];
    assert(members_view(subject_parts@) =~= entity_ref_properties());
    let required: Vec<&'static str> = Vec::new();
    assert(texts_view(required@) =~= Seq::empty());
    let members: Vec<(String, Json)> = vec![
        ("episode".to_owned(), plain("Originating episode id (audit context).", "string")),
        ("object".to_owned(), part("Entity or literal object (legacy path).", object_parts, None)),
        ("predicate".to_owned(), plain("Predicate name (legacy path).", "string")),
        ("space".to_owned(), plain(space, "string")),
        (
            "statement_id".to_owned(),
            plain("Statement to retract — takes precedence over subject/predicate/object.", "string"),
        ),
        (
            "subject".to_owned(),
            part("Entity ref: {\"surface\":\"...\",\"type\":\"...\"} (legacy path).", subject_parts, None),
        ),
    ];
    assert(members_view(members@) =~= retract_properties(space@));
    payload(members, Some(required))
}

/// The properties of the payload of `merge_entities`.
pub open spec fn merge_entities_properties(space: Seq<char>) -> Seq<(Seq<char>, JsonView)> {
    seq![
        (
            "loser"@,
            part_json("Entity to merge away: {\"surface\":\"...\",\"type\":\"...\"}"@, entity_ref_properties(), Some(seq!["surface"@, "type"@])),
        ),
        ("space"@, plain_json(space, "string"@)),
        (
            "winner"@,
            part_json("Entity to keep: {\"surface\":\"...\",\"type\":\"...\"}"@, entity_ref_properties(), Some(seq!["surface"@, "type"@])),
        ),
    ]
}

/// The JSON Schema of the payload of `merge_entities`.
pub open spec fn merge_entities_payload_json(space: Seq<char>) -> JsonView {
    payload_json(merge_entities_properties(space), Some(seq!["loser"@, "winner"@]))
}

/// The JSON Schema of the payload of `merge_entities`.
pub fn merge_entities_payload(space: &str) -> (r: Json)
    ensures
        r.deep_view() == merge_entities_payload_json(space@),
{
    let loser_parts: Vec<(String, Json)> = vec![
        ("surface".to_owned(), bare("string")),
        ("type".to_owned(), bare("string")),
    ];
    assert(members_view(loser_parts@) =~= entity_ref_properties());
    let loser_required: Vec<&'static str> = vec!["surface", "type"];
    assert(texts_view(loser_required@) =~= seq!["surface"@, "type"@]);
    let winner_parts: Vec<(String, Json)> = vec![
        ("surface".to_owned(), bare("string")),
        ("type".to_owned(), bare("string")),
    ];
    assert(members_view(winner_parts@) =~= entity_ref_properties());
    let winner_required: Vec<&'static str> = vec!["surface", "type"];
    assert(texts_view(winner_required@) =~= seq!["surface"@, "type"@]);
    let required: Vec<&'static str> = vec!["loser", "winner"];
    assert(texts_view(required@) =~= seq!["loser"@, "winner"@]);
    let members: Vec<(String, Json)> = vec![
        (
            "loser".to_owned(),
            part("Entity to merge away: {\"surface\":\"...\",\"type\":\"...\"}", loser_parts, Some(loser_required)),
        ),
        ("space".to_owned(), plain(space, "string")),
        (
            "winner".to_owned(),
            part("Entity to keep: {\"surface\":\"...\",\"type\":\"...\"}", winner_parts, Some(winner_required)),
        ),
    ];
    assert(members_view(members@) =~= merge_entities_properties(space@));
    payload(members, Some(required))
}

/// The properties of the payload of `redact`.
pub open spec fn redact_properties(space: Seq<char>) -> Seq<(Seq<char>, JsonView)> {
    seq![
        (
            "dry_run"@,
            plain_json("Preview the closure without modifying anything (default: false)."@, "boolean"@),
        ),
        ("reason"@, plain_json("Audit reason (default: 'mcp redact')."@, "string"@)),
        ("space"@, plain_json(space, "string"@)),
        (
            "target_id"@,
            plain_json("Episode ID, entity ID, or 'entity_id/predicate' for predicate kind."@, "string"@),
        ),
        (
            "target_kind"@,
            choice_json("What to redact."@, seq!["episode"@, "entity"@, "predicate"@]),
        ),
    ]
}

/// The JSON Schema of the payload of `redact`.
pub open spec fn redact_payload_json(space: Seq<char>) -> JsonView {
    payload_json(redact_properties(space), Some(seq!["target_kind"@, "target_id"@]))
}

/// The JSON Schema of the payload of `redact`.
pub fn redact_payload(space: &str) -> (r: Json)
    ensures
        r.deep_view() == redact_payload_json(space@),
{
    let target_kind_names: Vec<&'static str> = vec!["episode", "entity", "predicate"];
    assert(texts_view(target_kind_names@) =~= seq!["episode"@, "entity"@, "predicate"@]);
    let required: Vec<&'static str> = vec!["target_kind", "target_id"];
    assert(texts_view(required@) =~= seq!["target_kind"@, "target_id"@]);
    let members: Vec<(String, Json)> = vec![
        (
            "dry_run".to_owned(),
            plain("Preview the closure without modifying anything (default: false).", "boolean"),
        ),
        ("reason".to_owned(), plain("Audit reason (default: 'mcp redact').", "string")),
        ("space".to_owned(), plain(space, "string")),
        (
            "target_id".to_owned(),
            plain("Episode ID, entity ID, or 'entity_id/predicate' for predicate kind.", "string"),
        ),
        ("target_kind".to_owned(), choice("What to redact.", target_kind_names)),
    ];
    assert(members_view(members@) =~= redact_properties(space@));
    payload(members, Some(required))
}

} // verus!
