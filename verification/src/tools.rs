//! The tools that the server advertises.
use vstd::prelude::*;

use crate::json::{array, object1, Json, JsonView};
use crate::ops::{tool, tool_json};
use crate::payloads::{
    brief_payload, brief_payload_json, contradictions_payload, contradictions_payload_json,
    declare_payload, declare_payload_json, ingest_arguments, ingest_arguments_json,
    merge_entities_payload, merge_entities_payload_json, navigate_payload, navigate_payload_json,
    recall_payload, recall_payload_json, redact_payload, redact_payload_json, remember_arguments,
    remember_arguments_json, retract_payload, retract_payload_json, review_merges_arguments,
    review_merges_arguments_json, search_arguments, search_arguments_json, stats_payload,
    stats_payload_json, traverse_payload, traverse_payload_json, why_payload, why_payload_json,
    PERSONAL_SPACE,
};
use crate::rows::{map_rows, Row};
use crate::ops::{
    BRIEF_SUMMARY, CONTRADICTIONS_SUMMARY, DECLARE_SUMMARY, INGEST_SUMMARY, MERGE_ENTITIES_SUMMARY,
    NAVIGATE_SUMMARY, RECALL_SUMMARY, REDACT_SUMMARY, REMEMBER_SUMMARY, RETRACT_SUMMARY,
    STATS_SUMMARY, TRAVERSE_SUMMARY, WHY_SUMMARY,
};

verus! {

/// What an agent reads of `search`.
pub const SEARCH_DESCRIPTION: &'static str = "Search the brain and return entity hits: entity_id, entity_surface, entity_type, score, snippet. Statements/episodes/chunks/communities are not returned as targets. as_of (valid time) and min_confidence filter beliefs; a belief that is retracted or contradicted at as_of is excluded.";

/// What an agent reads of `review_merges`.
pub const REVIEW_MERGES_DESCRIPTION: &'static str = "List entity merge records in a space — which entities were merged, by whom (rule/user/import), and when.";

/// A tool of the catalogue.
#[derive(Debug)]
pub struct ToolEntry {
    pub name: &'static str,
    pub description: &'static str,
    /// JSON Schema for the arguments.
    pub arguments: Json,
}

/// [`ToolEntry`] as a mathematical value.
#[verifier::ext_equal]
pub struct ToolEntryView {
    pub name: Seq<char>,
    pub description: Seq<char>,
    pub arguments: JsonView,
}

impl DeepView for ToolEntry {
    type V = ToolEntryView;

    open spec fn deep_view(&self) -> ToolEntryView {
        ToolEntryView {
            name: self.name@,
            description: self.description@,
            arguments: self.arguments.deep_view(),
        }
    }
}

/// The tools, in the order of the listing.
pub open spec fn catalogue() -> Seq<ToolEntryView> {
    seq![
        ToolEntryView {
            name: "search"@,
            description: SEARCH_DESCRIPTION@,
            arguments: search_arguments_json(PERSONAL_SPACE@),
        },
        ToolEntryView {
            name: "recall"@,
            description: RECALL_SUMMARY@,
            arguments: recall_payload_json(PERSONAL_SPACE@),
        },
        ToolEntryView {
            name: "brief"@,
            description: BRIEF_SUMMARY@,
            arguments: brief_payload_json(PERSONAL_SPACE@),
        },
        ToolEntryView {
            name: "navigate"@,
            description: NAVIGATE_SUMMARY@,
            arguments: navigate_payload_json(PERSONAL_SPACE@),
        },
        ToolEntryView {
            name: "ingest"@,
            description: INGEST_SUMMARY@,
            arguments: ingest_arguments_json(PERSONAL_SPACE@),
        },
        ToolEntryView {
            name: "declare"@,
            description: DECLARE_SUMMARY@,
            arguments: declare_payload_json(PERSONAL_SPACE@),
        },
        ToolEntryView {
            name: "why"@,
            description: WHY_SUMMARY@,
            arguments: why_payload_json(PERSONAL_SPACE@),
        },
        ToolEntryView {
            name: "contradictions"@,
            description: CONTRADICTIONS_SUMMARY@,
            arguments: contradictions_payload_json(PERSONAL_SPACE@),
        },
        ToolEntryView {
            name: "stats"@,
            description: STATS_SUMMARY@,
            arguments: stats_payload_json(PERSONAL_SPACE@),
        },
        ToolEntryView {
            name: "traverse"@,
            description: TRAVERSE_SUMMARY@,
            arguments: traverse_payload_json(PERSONAL_SPACE@),
        },
        ToolEntryView {
            name: "review_merges"@,
            description: REVIEW_MERGES_DESCRIPTION@,
            arguments: review_merges_arguments_json(PERSONAL_SPACE@),
        },
        ToolEntryView {
            name: "remember"@,
            description: REMEMBER_SUMMARY@,
            arguments: remember_arguments_json(PERSONAL_SPACE@),
        },
        ToolEntryView {
            name: "retract"@,
            description: RETRACT_SUMMARY@,
            arguments: retract_payload_json(PERSONAL_SPACE@),
        },
        ToolEntryView {
            name: "merge_entities"@,
            description: MERGE_ENTITIES_SUMMARY@,
            arguments: merge_entities_payload_json(PERSONAL_SPACE@),
        },
        ToolEntryView {
            name: "redact"@,
            description: REDACT_SUMMARY@,
            arguments: redact_payload_json(PERSONAL_SPACE@),
        },
    ]
}

/// The tools, in the order of the listing.
pub fn tool_entries() -> (r: Vec<ToolEntry>)
    ensures
        r.deep_view() == catalogue(),
{
    let r: Vec<ToolEntry> = vec![
        ToolEntry {
            name: "search",
            description: SEARCH_DESCRIPTION,
            arguments: search_arguments(PERSONAL_SPACE),
        },
        ToolEntry {
            name: "recall",
            description: RECALL_SUMMARY,
            arguments: recall_payload(PERSONAL_SPACE),
        },
        ToolEntry {
            name: "brief",
            description: BRIEF_SUMMARY,
            arguments: brief_payload(PERSONAL_SPACE),
        },
        ToolEntry {
            name: "navigate",
            description: NAVIGATE_SUMMARY,
            arguments: navigate_payload(PERSONAL_SPACE),
        },
        ToolEntry {
            name: "ingest",
            description: INGEST_SUMMARY,
            arguments: ingest_arguments(PERSONAL_SPACE),
        },
        ToolEntry {
            name: "declare",
            description: DECLARE_SUMMARY,
            arguments: declare_payload(PERSONAL_SPACE),
        },
        ToolEntry {
            name: "why",
            description: WHY_SUMMARY,
            arguments: why_payload(PERSONAL_SPACE),
        },
        ToolEntry {
            name: "contradictions",
            description: CONTRADICTIONS_SUMMARY,
            arguments: contradictions_payload(PERSONAL_SPACE),
        },
        ToolEntry {
            name: "stats",
            description: STATS_SUMMARY,
            arguments: stats_payload(PERSONAL_SPACE),
        },
        ToolEntry {
            name: "traverse",
            description: TRAVERSE_SUMMARY,
            arguments: traverse_payload(PERSONAL_SPACE),
        },
        ToolEntry {
            name: "review_merges",
            description: REVIEW_MERGES_DESCRIPTION,
            arguments: review_merges_arguments(PERSONAL_SPACE),
        },
        ToolEntry {
            name: "remember",
            description: REMEMBER_SUMMARY,
            arguments: remember_arguments(PERSONAL_SPACE),
        },
        ToolEntry {
            name: "retract",
            description: RETRACT_SUMMARY,
            arguments: retract_payload(PERSONAL_SPACE),
        },
        ToolEntry {
            name: "merge_entities",
            description: MERGE_ENTITIES_SUMMARY,
            arguments: merge_entities_payload(PERSONAL_SPACE),
        },
        ToolEntry {
            name: "redact",
            description: REDACT_SUMMARY,
            arguments: redact_payload(PERSONAL_SPACE),
        },
    ];
    assert(r.deep_view() =~= catalogue());
    r
}

/// A tool as it is advertised.
pub open spec fn advertised() -> spec_fn(ToolEntryView) -> JsonView {
    |t: ToolEntryView| tool_json(t.name, t.description, t.arguments)
}

/// The listing of the tools.
pub open spec fn tool_list_json() -> JsonView {
    JsonView::Obj(seq![("tools"@, JsonView::Arr(catalogue().map_values(advertised())))])
}

/// The advertised tool list with hand-written JSON Schemas.
pub fn tool_list() -> (r: Json)
    ensures
        r.deep_view() == tool_list_json(),
{
    let all = tool_entries();
    let tools = map_rows(
        &all,
        |t: &ToolEntry| -> (j: Json)
            ensures
                j.deep_view() == advertised()(t.deep_view())
            { tool(t.name, t.description, Row::dup(&t.arguments)) },
        Ghost(advertised()),
    );
    object1("tools", array(tools))
}

/// The catalogue has the tools of the operation registry, in the same order.
pub proof fn law_catalogue_follows_registry()
    ensures
        catalogue().len() == crate::ops::registry().len(),
        forall|i: int|
            0 <= i < catalogue().len() ==> (#[trigger] catalogue()[i]).name
                == crate::ops::registry()[i].name,
{
}

} // verus!
