//! The agent-facing operation registry: the one place that tool listings,
//! command dispatch and generated documentation derive from.
use vstd::prelude::*;

use crate::json::{array, object1, object3, string, Json, JsonView};
use crate::payloads::{
    brief_payload, brief_payload_json, contradictions_payload, contradictions_payload_json,
    declare_payload, declare_payload_json, ingest_payload, ingest_payload_json,
    merge_entities_payload, merge_entities_payload_json, navigate_payload, navigate_payload_json,
    recall_payload, recall_payload_json, redact_payload, redact_payload_json, remember_payload,
    remember_payload_json, retract_payload, retract_payload_json, review_merges_payload,
    review_merges_payload_json, search_payload, search_payload_json, stats_payload,
    stats_payload_json, traverse_payload, traverse_payload_json, why_payload, why_payload_json,
    CONFIGURED_SPACE,
};
use crate::rows::{first_where, map_rows, Row};
use crate::text::str_eq;

verus! {

/// Declared capability names.
pub const CAP_READ: &'static str = "Read";

pub const CAP_INGEST: &'static str = "Ingest";

pub const CAP_WRITE: &'static str = "Write";

pub const CAP_REDACT: &'static str = "Redact";

/// What an agent reads of `search`.
pub const SEARCH_SUMMARY: &'static str = "Search the brain across two planes and return the envelope {memory, documents, freshness}. Memory-plane hits are entity targets: entity_id, entity_surface, entity_type, score, snippet. Documents-plane hits carry verbatim text slices with their doc:// provenance (root, locator, revision, ordinal). as_of (valid time) and min_confidence filter beliefs; a belief that is retracted or contradicted at as_of is excluded.";

/// What an agent reads of `recall`.
pub const RECALL_SUMMARY: &'static str = "Assemble context for a query within a token budget — the per-turn call for agents. Returns layered context: profile, high-salience beliefs (with subjects, validity, support), query neighborhood, summaries with their sources, and recent episodes.";

/// What an agent reads of `brief`.
pub const BRIEF_SUMMARY: &'static str = "Render a page as Markdown with followable links. Three target kinds: `entity` (an entity page: identity, aliases, current beliefs, contradictions, neighbours, timeline, sources — the M9 §9.2 brief); `space` (counts + top entities); `topic` (keyword search over entity surfaces). The target_kind discriminator is purely additive; existing callers using only `entity_id` keep working.";

/// What an agent reads of `navigate`.
pub const NAVIGATE_SUMMARY: &'static str = "Follow a followable link from a rendered page to another entity page. Returns the target's brief.";

/// What an agent reads of `ingest`.
pub const INGEST_SUMMARY: &'static str = "Ingest text content as a new Primary episode. Set extract:true to trigger realtime extraction via client sampling (§12.3) — the server asks the client's model to extract claims. Requires the Sample capability on authenticated sessions.";

/// What an agent reads of `declare`.
pub const DECLARE_SUMMARY: &'static str = "Declare a statement deterministically (no LLM). Takes a declaration JSON: {op, subject, predicate, object, polarity, valid_from, valid_to}. Writes a Declaration episode.";

/// What an agent reads of `why`.
pub const WHY_SUMMARY: &'static str = "Get provenance for a statement — supporting/denying assertions with confidence breakdown, extractors, and source episodes.";

/// What an agent reads of `contradictions`.
pub const CONTRADICTIONS_SUMMARY: &'static str = "List all contradicted statements in a space — statements with both affirming and denying support.";

/// What an agent reads of `stats`.
pub const STATS_SUMMARY: &'static str = "Aggregate counts for a space: episodes, entities, statements, and contradicted statements.";

/// What an agent reads of `traverse`.
pub const TRAVERSE_SUMMARY: &'static str = "Bounded subgraph traversal from a set of start entities. Returns nodes and edges within the depth/node budget. The graph is belief-filtered: retracted and contradicted edges are excluded (valid_at filters valid time). Useful for multi-hop recall (ToG driver).";

/// What an agent reads of `review_merges`.
pub const REVIEW_MERGES_SUMMARY: &'static str = "Console data tool. `section` selects what to list: `merges` (default) — entity merge records, by whom (rule/user/import), and when; `failures` — extraction failures (episode, extractor, raw response, errors); `sources` — registered sources (name, kind, mode, claims). All sections return JSON arrays.";

/// What an agent reads of `remember`.
pub const REMEMBER_SUMMARY: &'static str = "One-shot ingest + sync extraction for short user facts. Ingests text as a Primary episode and immediately extracts claims via client sampling. Requires the Sample capability on authenticated sessions.";

/// What an agent reads of `retract`.
pub const RETRACT_SUMMARY: &'static str = "Retract a statement. Prefer the statement_id form — the declaration is rebuilt from the stored statement (no surfaces/types needed); this retracts ALL assertions of the statement. The subject/predicate/object form is the legacy resubmission path. Creates a Declaration episode.";

/// What an agent reads of `merge_entities`.
pub const MERGE_ENTITIES_SUMMARY: &'static str = "Merge two entities: the loser is redirected to the winner. Creates a Declaration episode. Both refs use surface form + type.";

/// What an agent reads of `redact`.
pub const REDACT_SUMMARY: &'static str = "Destructive: remove episodes, entities, or predicates from the brain. Writes audit first, then tombstones. Use dry_run to preview the closure first.";

/// One agent-facing operation.
#[derive(Debug)]
pub struct OpSpec {
    pub name: &'static str,
    /// The paragraph an agent reads in `tools/list`.
    pub summary: &'static str,
    /// JSON Schema for the payload.
    pub payload: Json,
    /// The capability that a caller needs.
    pub cap: &'static str,
    /// Whether the operation changes the store.
    pub mutating: bool,
}

/// [`OpSpec`] as a mathematical value.
#[verifier::ext_equal]
pub struct OpSpecView {
    pub name: Seq<char>,
    pub summary: Seq<char>,
    pub payload: JsonView,
    pub cap: Seq<char>,
    pub mutating: bool,
}

impl DeepView for OpSpec {
    type V = OpSpecView;

    open spec fn deep_view(&self) -> OpSpecView {
        OpSpecView {
            name: self.name@,
            summary: self.summary@,
            payload: self.payload.deep_view(),
            cap: self.cap@,
            mutating: self.mutating,
        }
    }
}

impl Row for OpSpec {
    fn dup(&self) -> (r: Self) {
        OpSpec {
            name: self.name,
            summary: self.summary,
            payload: Row::dup(&self.payload),
            cap: self.cap,
            mutating: self.mutating,
        }
    }
}

impl OpSpec {
    /// JSON Schema for the payload.
    pub fn schema(&self) -> (r: Json)
        ensures
            r.deep_view() == self.deep_view().payload,
    {
        Row::dup(&self.payload)
    }
}

/// The registry, in the order of listings.
pub open spec fn registry() -> Seq<OpSpecView> {
    seq![
        OpSpecView {
            name: "search"@,
            summary: SEARCH_SUMMARY@,
            payload: search_payload_json(CONFIGURED_SPACE@),
            cap: CAP_READ@,
            mutating: false,
        },
        OpSpecView {
            name: "recall"@,
            summary: RECALL_SUMMARY@,
            payload: recall_payload_json(CONFIGURED_SPACE@),
            cap: CAP_READ@,
            mutating: false,
        },
        OpSpecView {
            name: "brief"@,
            summary: BRIEF_SUMMARY@,
            payload: brief_payload_json(CONFIGURED_SPACE@),
            cap: CAP_READ@,
            mutating: false,
        },
        OpSpecView {
            name: "navigate"@,
            summary: NAVIGATE_SUMMARY@,
            payload: navigate_payload_json(CONFIGURED_SPACE@),
            cap: CAP_READ@,
            mutating: false,
        },
        OpSpecView {
            name: "ingest"@,
            summary: INGEST_SUMMARY@,
            payload: ingest_payload_json(CONFIGURED_SPACE@),
            cap: CAP_INGEST@,
            mutating: false,
        },
        OpSpecView {
            name: "declare"@,
            summary: DECLARE_SUMMARY@,
            payload: declare_payload_json(CONFIGURED_SPACE@),
            cap: CAP_WRITE@,
            mutating: true,
        },
        OpSpecView {
            name: "why"@,
            summary: WHY_SUMMARY@,
            payload: why_payload_json(CONFIGURED_SPACE@),
            cap: CAP_READ@,
            mutating: false,
        },
        OpSpecView {
            name: "contradictions"@,
            summary: CONTRADICTIONS_SUMMARY@,
            payload: contradictions_payload_json(CONFIGURED_SPACE@),
            cap: CAP_READ@,
            mutating: false,
        },
        OpSpecView {
            name: "stats"@,
            summary: STATS_SUMMARY@,
            payload: stats_payload_json(CONFIGURED_SPACE@),
            cap: CAP_READ@,
            mutating: false,
        },
        OpSpecView {
            name: "traverse"@,
            summary: TRAVERSE_SUMMARY@,
            payload: traverse_payload_json(CONFIGURED_SPACE@),
            cap: CAP_READ@,
            mutating: false,
        },
        OpSpecView {
            name: "review_merges"@,
            summary: REVIEW_MERGES_SUMMARY@,
            payload: review_merges_payload_json(CONFIGURED_SPACE@),
            cap: CAP_READ@,
            mutating: false,
        },
        OpSpecView {
            name: "remember"@,
            summary: REMEMBER_SUMMARY@,
            payload: remember_payload_json(CONFIGURED_SPACE@),
            cap: CAP_WRITE@,
            mutating: true,
        },
        OpSpecView {
            name: "retract"@,
            summary: RETRACT_SUMMARY@,
            payload: retract_payload_json(CONFIGURED_SPACE@),
            cap: CAP_WRITE@,
            mutating: true,
        },
        OpSpecView {
            name: "merge_entities"@,
            summary: MERGE_ENTITIES_SUMMARY@,
            payload: merge_entities_payload_json(CONFIGURED_SPACE@),
            cap: CAP_WRITE@,
            mutating: true,
        },
        OpSpecView {
            name: "redact"@,
            summary: REDACT_SUMMARY@,
            payload: redact_payload_json(CONFIGURED_SPACE@),
            cap: CAP_REDACT@,
            mutating: true,
        },
    ]
}

/// The registry, in `tools/list` order.
pub fn ops() -> (r: Vec<OpSpec>)
    ensures
        r.deep_view() == registry(),
{
    let r: Vec<OpSpec> = vec![
        OpSpec {
            name: "search",
            summary: SEARCH_SUMMARY,
            payload: search_payload(CONFIGURED_SPACE),
            cap: CAP_READ,
            mutating: false,
        },
        OpSpec {
            name: "recall",
            summary: RECALL_SUMMARY,
            payload: recall_payload(CONFIGURED_SPACE),
            cap: CAP_READ,
            mutating: false,
        },
        OpSpec {
            name: "brief",
            summary: BRIEF_SUMMARY,
            payload: brief_payload(CONFIGURED_SPACE),
            cap: CAP_READ,
            mutating: false,
        },
        OpSpec {
            name: "navigate",
            summary: NAVIGATE_SUMMARY,
            payload: navigate_payload(CONFIGURED_SPACE),
            cap: CAP_READ,
            mutating: false,
        },
        OpSpec {
            name: "ingest",
            summary: INGEST_SUMMARY,
            payload: ingest_payload(CONFIGURED_SPACE),
            cap: CAP_INGEST,
            mutating: false,
        },
        OpSpec {
            name: "declare",
            summary: DECLARE_SUMMARY,
            payload: declare_payload(CONFIGURED_SPACE),
            cap: CAP_WRITE,
            mutating: true,
        },
        OpSpec {
            name: "why",
            summary: WHY_SUMMARY,
            payload: why_payload(CONFIGURED_SPACE),
            cap: CAP_READ,
            mutating: false,
        },
        OpSpec {
            name: "contradictions",
            summary: CONTRADICTIONS_SUMMARY,
            payload: contradictions_payload(CONFIGURED_SPACE),
            cap: CAP_READ,
            mutating: false,
        },
        OpSpec {
            name: "stats",
            summary: STATS_SUMMARY,
            payload: stats_payload(CONFIGURED_SPACE),
            cap: CAP_READ,
            mutating: false,
        },
        OpSpec {
            name: "traverse",
            summary: TRAVERSE_SUMMARY,
            payload: traverse_payload(CONFIGURED_SPACE),
            cap: CAP_READ,
            mutating: false,
        },
        OpSpec {
            name: "review_merges",
            summary: REVIEW_MERGES_SUMMARY,
            payload: review_merges_payload(CONFIGURED_SPACE),
            cap: CAP_READ,
            mutating: false,
        },
        OpSpec {
            name: "remember",
            summary: REMEMBER_SUMMARY,
            payload: remember_payload(CONFIGURED_SPACE),
            cap: CAP_WRITE,
            mutating: true,
        },
        OpSpec {
            name: "retract",
            summary: RETRACT_SUMMARY,
            payload: retract_payload(CONFIGURED_SPACE),
            cap: CAP_WRITE,
            mutating: true,
        },
        OpSpec {
            name: "merge_entities",
            summary: MERGE_ENTITIES_SUMMARY,
            payload: merge_entities_payload(CONFIGURED_SPACE),
            cap: CAP_WRITE,
            mutating: true,
        },
        OpSpec {
            name: "redact",
            summary: REDACT_SUMMARY,
            payload: redact_payload(CONFIGURED_SPACE),
            cap: CAP_REDACT,
            mutating: true,
        },
    ];
    assert(r.deep_view() =~= registry());
    r
}

/// Selects the operation with a name.
pub open spec fn is_named(name: Seq<char>) -> spec_fn(OpSpecView) -> bool {
    |op: OpSpecView| op.name == name
}

/// Look up one operation by name.
pub fn find(name: &str) -> (r: Option<OpSpec>)
    ensures
        r.deep_view() == first_where(registry(), is_named(name@)),
{
    let all = ops();
    match crate::rows::find(
        &all,
        |op: &OpSpec| -> (b: bool)
            ensures
                b == is_named(name@)(op.deep_view())
            { str_eq(op.name, name) },
        Ghost(is_named(name@)),
    ) {
        Some(i) => {
            assert(all.deep_view()[i as int] == all[i as int].deep_view());
            Some(all[i].dup())
        },
        None => None,
    }
}

/// A tool as it is listed.
pub open spec fn tool_json(
    name: Seq<char>,
    description: Seq<char>,
    schema: JsonView,
) -> JsonView {
    JsonView::Obj(
        seq![
            ("description"@, JsonView::Str(description)),
            ("inputSchema"@, schema),
            ("name"@, JsonView::Str(name)),
        ],
    )
}

/// A tool as it is listed.
pub fn tool(name: &str, description: &str, input_schema: Json) -> (r: Json)
    ensures
        r.deep_view() == tool_json(name@, description@, input_schema.deep_view()),
{
    object3("description", string(description), "inputSchema", input_schema, "name", string(name))
}

/// An operation as it is listed.
pub open spec fn listed() -> spec_fn(OpSpecView) -> JsonView {
    |op: OpSpecView| tool_json(op.name, op.summary, op.payload)
}

/// The `tools/list` payload of the registry.
pub fn tools_list() -> (r: Json)
    ensures
        r.deep_view() == JsonView::Obj(
            seq![("tools"@, JsonView::Arr(registry().map_values(listed())))],
        ),
{
    let all = ops();
    let tools = map_rows(
        &all,
        |op: &OpSpec| -> (j: Json)
            ensures
                j.deep_view() == listed()(op.deep_view())
            { tool(op.name, op.summary, op.schema()) },
        Ghost(listed()),
    );
    object1("tools", array(tools))
}

/// No two operations have the same name.
pub proof fn law_operation_names_are_distinct()
    ensures
        registry().len() == 15,
        forall|i: int, j: int|
            0 <= i < j < registry().len() ==> (#[trigger] registry()[i]).name != (
            #[trigger] registry()[j]).name,
{
    reveal_strlit("search");
    reveal_strlit("recall");
    reveal_strlit("brief");
    reveal_strlit("navigate");
    reveal_strlit("ingest");
    reveal_strlit("declare");
    reveal_strlit("why");
    reveal_strlit("contradictions");
    reveal_strlit("stats");
    reveal_strlit("traverse");
    reveal_strlit("review_merges");
    reveal_strlit("remember");
    reveal_strlit("retract");
    reveal_strlit("merge_entities");
    reveal_strlit("redact");
    let marks = |s: Seq<char>| (s.len(), s[0], s[2]);
    assert(marks("search"@) == (6nat, 's', 'a'));
    assert(marks("recall"@) == (6nat, 'r', 'c'));
    assert(marks("brief"@) == (5nat, 'b', 'i'));
    assert(marks("navigate"@) == (8nat, 'n', 'v'));
    assert(marks("ingest"@) == (6nat, 'i', 'g'));
    assert(marks("declare"@) == (7nat, 'd', 'c'));
    assert(marks("why"@) == (3nat, 'w', 'y'));
    assert(marks("contradictions"@) == (14nat, 'c', 'n'));
    assert(marks("stats"@) == (5nat, 's', 'a'));
    assert(marks("traverse"@) == (8nat, 't', 'a'));
    assert(marks("review_merges"@) == (13nat, 'r', 'v'));
    assert(marks("remember"@) == (8nat, 'r', 'm'));
    assert(marks("retract"@) == (7nat, 'r', 't'));
    assert(marks("merge_entities"@) == (14nat, 'm', 'r'));
    assert(marks("redact"@) == (6nat, 'r', 'd'));
    assert forall|i: int, j: int| 0 <= i < j < registry().len() implies (
    #[trigger] registry()[i]).name != (#[trigger] registry()[j]).name by {
        assert(marks(registry()[i].name) != marks(registry()[j].name));
    }
}

} // verus!
