//! Resources: pages of the store that clients read by URI.
use vstd::prelude::*;

use crate::index_ops::{entity_surface, surface_form};
use crate::json::{
    array, json_pretty, member, member_in, members_view, object, object1, object2, object3,
    render_pretty, string, text_member, Json, JsonView,
};
use crate::knowledge::{by_newest, is_live_in, list_entities};
use crate::ledger::episode_in;
use crate::parse::{
    integer_in, natural_in, parse_integer, parse_natural, pieces, split_at, split_first, split_once,
};
use crate::protocol::{INVALID_PARAMS, METHOD_NOT_FOUND};
use crate::query::{is_contradiction, space_stats};
use crate::requests::{direction_of, parse_direction, rpc_error, Direction, RpcError, RpcErrorView};
use crate::rows::{first_n, lemma_ordered_same_rows, limited, map_rows, ordered};
use crate::tables::{Entity, EntityView, Tables, TablesView};
use crate::text::{cat2, chars_of, slice_of, str_eq};

verus! {

/// A resource or template as it is listed.
pub open spec fn listing(
    key: Seq<char>,
    uri: Seq<char>,
    name: Seq<char>,
    description: Seq<char>,
) -> JsonView {
    JsonView::Obj(
        seq![
            ("description"@, JsonView::Str(description)),
            ("mimeType"@, JsonView::Str("application/json"@)),
            ("name"@, JsonView::Str(name)),
            (key, JsonView::Str(uri)),
        ],
    )
}

fn make_listing(key: &str, uri: &str, name: &str, description: &str) -> (r: Json)
    ensures
        r.deep_view() == listing(key@, uri@, name@, description@),
{
    let mut m: Vec<(String, Json)> = Vec::new();
    m.push(("description".to_owned(), string(description)));
    m.push(("mimeType".to_owned(), string("application/json")));
    m.push(("name".to_owned(), string(name)));
    m.push((key.to_owned(), string(uri)));
    assert(members_view(m@) =~= listing(key@, uri@, name@, description@)->Obj_0);
    object(m)
}

/// The URI templates that can be read.
pub open spec fn templates() -> Seq<JsonView> {
    seq![
        listing(
            "uriTemplate"@,
            "space://{name}"@,
            "Space by name"@,
            "Overview of any space by name."@,
        ),
        listing(
            "uriTemplate"@,
            "entity://{id}"@,
            "Entity by ID"@,
            "An entity's current beliefs. Optional ?space=name."@,
        ),
        listing(
            "uriTemplate"@,
            "episode://{id}"@,
            "Episode by ID"@,
            "Full episode record. Optional ?space=name."@,
        ),
        listing(
            "uriTemplate"@,
            "graph://{entity}?depth=n"@,
            "Graph around entity"@,
            "Bounded subgraph. Optional &space=name &direction=out|in|both."@,
        ),
        listing(
            "uriTemplate"@,
            "timeline://{entity}?space=name&from=ms&to=ms"@,
            "Entity timeline"@,
            "Belief intervals for an entity. from/to are optional epoch-ms bounds."@,
        ),
    ]
}

/// The resource that is always there.
pub open spec fn default_resource() -> JsonView {
    listing(
        "uri"@,
        "space://personal"@,
        "Space: personal"@,
        "Space overview: entity count, episode count, contradictions, recent entities."@,
    )
}

/// The listing of the resources.
pub open spec fn resources_json() -> JsonView {
    JsonView::Obj(
        seq![
            ("resourceTemplates"@, JsonView::Arr(templates())),
            ("resources"@, JsonView::Arr(seq![default_resource()])),
        ],
    )
}

/// The listing of the resources and of the URI templates.
pub fn resources_list() -> (r: Json)
    ensures
        r.deep_view() == resources_json(),
{
    let all: Vec<Json> = vec![
        make_listing(
            "uriTemplate",
            "space://{name}",
            "Space by name",
            "Overview of any space by name.",
        ),
        make_listing(
            "uriTemplate",
            "entity://{id}",
            "Entity by ID",
            "An entity's current beliefs. Optional ?space=name.",
        ),
        make_listing(
            "uriTemplate",
            "episode://{id}",
            "Episode by ID",
            "Full episode record. Optional ?space=name.",
        ),
        make_listing(
            "uriTemplate",
            "graph://{entity}?depth=n",
            "Graph around entity",
            "Bounded subgraph. Optional &space=name &direction=out|in|both.",
        ),
        make_listing(
            "uriTemplate",
            "timeline://{entity}?space=name&from=ms&to=ms",
            "Entity timeline",
            "Belief intervals for an entity. from/to are optional epoch-ms bounds.",
        ),
    ];
    assert(all.deep_view() =~= templates());
    let first: Vec<Json> = vec![
        make_listing(
            "uri",
            "space://personal",
            "Space: personal",
            "Space overview: entity count, episode count, contradictions, recent entities.",
        ),
    ];
    assert(first.deep_view() =~= seq![default_resource()]);
    object2("resourceTemplates", array(all), "resources", array(first))
}

/// What a URI asks for.
#[derive(Debug)]
pub enum ResourceKind {
    Space,
    Entity { id: String },
    Episode { id: String },
    Graph { id: String, depth: u8, direction: Direction },
    Timeline { id: String, from: Option<i64>, to: Option<i64> },
    /// A scheme that is not known. The space is looked up all the same.
    Unknown { scheme: String },
}

/// [`ResourceKind`] as a mathematical value.
#[verifier::ext_equal]
pub enum ResourceKindView {
    Space,
    Entity { id: Seq<char> },
    Episode { id: Seq<char> },
    Graph { id: Seq<char>, depth: u8, direction: Direction },
    Timeline { id: Seq<char>, from: Option<i64>, to: Option<i64> },
    Unknown { scheme: Seq<char> },
}

impl DeepView for ResourceKind {
    type V = ResourceKindView;

    open spec fn deep_view(&self) -> ResourceKindView {
        match self {
            ResourceKind::Space => ResourceKindView::Space,
            ResourceKind::Entity { id } => ResourceKindView::Entity { id: id@ },
            ResourceKind::Episode { id } => ResourceKindView::Episode { id: id@ },
            ResourceKind::Graph { id, depth, direction } => ResourceKindView::Graph {
                id: id@,
                depth: *depth,
                direction: *direction,
            },
            ResourceKind::Timeline { id, from, to } => ResourceKindView::Timeline {
                id: id@,
                from: *from,
                to: *to,
            },
            ResourceKind::Unknown { scheme } => ResourceKindView::Unknown { scheme: scheme@ },
        }
    }
}

/// A request for a resource: its URI, the space by name, and what it asks for.
#[derive(Debug)]
pub struct ResourceRequest {
    pub uri: String,
    pub space: String,
    pub kind: ResourceKind,
}

/// [`ResourceRequest`] as a mathematical value.
#[verifier::ext_equal]
pub struct ResourceRequestView {
    pub uri: Seq<char>,
    pub space: Seq<char>,
    pub kind: ResourceKindView,
}

impl DeepView for ResourceRequest {
    type V = ResourceRequestView;

    open spec fn deep_view(&self) -> ResourceRequestView {
        ResourceRequestView { uri: self.uri@, space: self.space@, kind: self.kind.deep_view() }
    }
}

/// The value of a parameter among `name=value` pieces: the last one counts.
pub open spec fn parameter_in(parts: Seq<Seq<char>>, key: Seq<char>) -> Option<Seq<char>>
    decreases parts.len(),
{
    if parts.len() == 0 {
        None
    } else {
        match split_first(parts.last(), "="@) {
            Some((name, value)) => if name == key {
                Some(value)
            } else {
                parameter_in(parts.drop_last(), key)
            },
            None => parameter_in(parts.drop_last(), key),
        }
    }
}

/// The value of a parameter of a query.
pub open spec fn parameter(query: Seq<char>, key: Seq<char>) -> Option<Seq<char>> {
    parameter_in(pieces(query, '&'), key)
}

fn read_parameter(query: &str, key: &str) -> (r: Option<String>)
    ensures
        r.deep_view() == parameter(query@, key@),
{
    let parts = split_at(query, '&');
    let ghost all = parts.deep_view();
    let mut n: usize = parts.len();
    assert(all.take(n as int) =~= all);
    while n > 0
        invariant
            n <= parts.len(),
            all == parts.deep_view(),
            all == pieces(query@, '&'),
            parameter(query@, key@) == parameter_in(all.take(n as int), key@),
        decreases n,
    {
        proof {
            assert(all.take(n as int).last() == all[n - 1]);
            assert(all.take(n as int).drop_last() =~= all.take(n - 1));
        }
        if let Some((name, value)) = split_once(parts[n - 1].as_str(), "=") {
            if str_eq(name.as_str(), key) {
                return Some(value);
            }
        }
        n = n - 1;
    }
    None
}

/// A path without the slashes at its front.
pub open spec fn without_slashes(s: Seq<char>) -> Seq<char>
    decreases s.len(),
{
    if s.len() > 0 && s[0] == '/' {
        without_slashes(s.drop_first())
    } else {
        s
    }
}

fn strip_slashes(s: &str) -> (r: String)
    ensures
        r@ == without_slashes(s@),
{
    let chars = chars_of(s);
    let mut a: usize = 0;
    assert(s@.skip(0) =~= s@);
    while a < chars.len() && chars[a] == '/'
        invariant
            chars@ == s@,
            a <= chars.len(),
            without_slashes(s@) == without_slashes(s@.skip(a as int)),
        decreases chars.len() - a,
    {
        proof {
            assert(s@.skip(a as int)[0] == s@[a as int]);
            assert(s@.skip(a as int).drop_first() =~= s@.skip(a + 1));
        }
        a = a + 1;
    }
    assert(a < chars.len() ==> s@.skip(a as int)[0] == s@[a as int]);
    let r = slice_of(&chars, a, chars.len());
    assert(r@ =~= s@.skip(a as int));
    r
}

/// A time in a query.
pub open spec fn time_parameter(query: Seq<char>, key: Seq<char>) -> Option<i64> {
    match parameter(query, key) {
        Some(s) => match integer_in(s) {
            Some(n) => Some(n as i64),
            None => None,
        },
        None => None,
    }
}

fn read_time(query: &str, key: &str) -> (r: Option<i64>)
    ensures
        r == time_parameter(query@, key@),
{
    match read_parameter(query, key) {
        Some(s) => parse_integer(s.as_str()),
        None => None,
    }
}

/// The depth of a graph in a query: two where none that fits is given.
pub open spec fn depth_parameter(query: Seq<char>) -> u8 {
    match parameter(query, "depth"@) {
        Some(s) => match natural_in(s, 255) {
            Some(n) => n as u8,
            None => 2,
        },
        None => 2,
    }
}

fn read_depth(query: &str) -> (r: u8)
    ensures
        r == depth_parameter(query@),
{
    match read_parameter(query, "depth") {
        Some(s) => match parse_natural(s.as_str(), 255) {
            Some(n) => n as u8,
            None => 2,
        },
        None => 2,
    }
}

/// What a URI of a scheme asks for.
pub open spec fn kind_of(scheme: Seq<char>, path: Seq<char>, query: Seq<char>) -> ResourceKindView {
    let id = without_slashes(path);
    if scheme == "space"@ {
        ResourceKindView::Space
    } else if scheme == "entity"@ {
        ResourceKindView::Entity { id }
    } else if scheme == "episode"@ {
        ResourceKindView::Episode { id }
    } else if scheme == "graph"@ {
        ResourceKindView::Graph {
            id,
            depth: depth_parameter(query),
            direction: match parameter(query, "direction"@) {
                Some(s) => direction_of(s),
                None => Direction::Both,
            },
        }
    } else if scheme == "timeline"@ {
        ResourceKindView::Timeline {
            id,
            from: time_parameter(query, "from"@),
            to: time_parameter(query, "to"@),
        }
    } else {
        ResourceKindView::Unknown { scheme }
    }
}

fn read_kind(scheme: &str, path: &str, query: &str) -> (r: ResourceKind)
    ensures
        r.deep_view() == kind_of(scheme@, path@, query@),
{
    let id = strip_slashes(path);
    if str_eq(scheme, "space") {
        ResourceKind::Space
    } else if str_eq(scheme, "entity") {
        ResourceKind::Entity { id }
    } else if str_eq(scheme, "episode") {
        ResourceKind::Episode { id }
    } else if str_eq(scheme, "graph") {
        let direction = match read_parameter(query, "direction") {
            Some(s) => parse_direction(s.as_str()),
            None => Direction::Both,
        };
        ResourceKind::Graph { id, depth: read_depth(query), direction }
    } else if str_eq(scheme, "timeline") {
        ResourceKind::Timeline { id, from: read_time(query, "from"), to: read_time(query, "to") }
    } else {
        ResourceKind::Unknown { scheme: scheme.to_owned() }
    }
}

/// The path and the query of what follows the scheme of a URI.
pub open spec fn path_and_query(rest: Seq<char>) -> (Seq<char>, Seq<char>) {
    match split_first(rest, "?"@) {
        Some(p) => p,
        None => (rest, ""@),
    }
}

/// What a URI asks for. For `space://` the path is the space's name; for the
/// others the space stands in the query, and is `personal` by default.
pub open spec fn request_in(uri: Seq<char>) -> Result<ResourceRequestView, RpcErrorView> {
    match split_first(uri, "://"@) {
        None => Err(RpcErrorView { code: INVALID_PARAMS, message: "invalid URI: "@ + uri }),
        Some((scheme, rest)) => {
            let (path, query) = path_and_query(rest);
            Ok(
                ResourceRequestView {
                    uri,
                    space: if scheme == "space"@ {
                        path
                    } else {
                        match parameter(query, "space"@) {
                            Some(s) => s,
                            None => "personal"@,
                        }
                    },
                    kind: kind_of(scheme, path, query),
                },
            )
        },
    }
}

/// The request for a resource in the parameters of a request.
pub open spec fn resource_in(params: Option<JsonView>) -> Result<
    ResourceRequestView,
    RpcErrorView,
> {
    match params {
        None => Err(RpcErrorView { code: INVALID_PARAMS, message: "missing 'params'"@ }),
        Some(p) => match text_member(p, "uri"@) {
            None => Err(RpcErrorView { code: INVALID_PARAMS, message: "missing 'uri'"@ }),
            Some(uri) => request_in(uri),
        },
    }
}

/// What a URI asks for.
pub fn read_uri(uri: &str) -> (r: Result<ResourceRequest, RpcError>)
    ensures
        match request_in(uri@) {
            Ok(v) => r is Ok && r->Ok_0.deep_view() == v,
            Err(e) => r is Err && r->Err_0.deep_view() == e,
        },
{
    let (scheme, rest) = match split_once(uri, "://") {
        Some(p) => p,
        None => {
            return Err(rpc_error(INVALID_PARAMS, cat2("invalid URI: ", uri)));
        },
    };
    let (path, query) = match split_once(rest.as_str(), "?") {
        Some(p) => p,
        None => (rest, "".to_owned()),
    };
    let kind = read_kind(scheme.as_str(), path.as_str(), query.as_str());
    let space = if str_eq(scheme.as_str(), "space") {
        path
    } else {
        match read_parameter(query.as_str(), "space") {
            Some(s) => s,
            None => "personal".to_owned(),
        }
    };
    Ok(ResourceRequest { uri: uri.to_owned(), space, kind })
}

/// The request for a resource in the parameters of a request.
pub fn resources_read(params: &Option<Json>) -> (r: Result<ResourceRequest, RpcError>)
    ensures
        match resource_in(params.deep_view()) {
            Ok(v) => r is Ok && r->Ok_0.deep_view() == v,
            Err(e) => r is Err && r->Err_0.deep_view() == e,
        },
{
    match params {
        None => Err(rpc_error(INVALID_PARAMS, "missing 'params'".to_owned())),
        Some(p) => match p.str_of("uri") {
            None => Err(rpc_error(INVALID_PARAMS, "missing 'uri'".to_owned())),
            Some(uri) => read_uri(uri),
        },
    }
}

/// The answer where a scheme is not known.
pub fn unknown_scheme(scheme: &str) -> (r: RpcError)
    ensures
        r.deep_view() == (RpcErrorView {
            code: METHOD_NOT_FOUND,
            message: "unknown resource scheme: "@ + scheme@,
        }),
{
    rpc_error(METHOD_NOT_FOUND, cat2("unknown resource scheme: ", scheme))
}

/// The answer where an episode is not there.
pub fn episode_missing(id: &str) -> (r: RpcError)
    ensures
        r.deep_view() == (RpcErrorView {
            code: INVALID_PARAMS,
            message: "episode not found: "@ + id@,
        }),
{
    rpc_error(INVALID_PARAMS, cat2("episode not found: ", id))
}

/// The contents of a resource.
pub open spec fn contents_json(uri: Seq<char>, text: Seq<char>) -> JsonView {
    JsonView::Obj(
        seq![
            (
                "contents"@,
                JsonView::Arr(
                    seq![
                        JsonView::Obj(
                            seq![
                                ("mimeType"@, JsonView::Str("application/json"@)),
                                ("text"@, JsonView::Str(text)),
                                ("uri"@, JsonView::Str(uri)),
                            ],
                        ),
                    ],
                ),
            ),
        ],
    )
}

/// The contents of a resource, under its URI.
pub fn resource_contents(uri: &str, text: &str) -> (r: Json)
    ensures
        r.deep_view() == contents_json(uri@, text@),
{
    let item = object3(
        "mimeType",
        string("application/json"),
        "text",
        string(text),
        "uri",
        string(uri),
    );
    let items: Vec<Json> = vec![item];
    assert(items.deep_view() =~= contents_json(uri@, text@)->Obj_0[0].1->Arr_0);
    object1("contents", array(items))
}

/// An entity as it is listed on a space's overview.
#[derive(Debug)]
pub struct EntityCard {
    pub id: String,
    pub surface: String,
    pub ty: String,
}

/// [`EntityCard`] as a mathematical value.
#[verifier::ext_equal]
pub struct EntityCardView {
    pub id: Seq<char>,
    pub surface: Seq<char>,
    pub ty: Seq<char>,
}

impl DeepView for EntityCard {
    type V = EntityCardView;

    open spec fn deep_view(&self) -> EntityCardView {
        EntityCardView { id: self.id@, surface: self.surface@, ty: self.ty@ }
    }
}

/// A card as JSON.
pub open spec fn card_json() -> spec_fn(EntityCardView) -> JsonView {
    |c: EntityCardView|
        JsonView::Obj(
            seq![
                ("id"@, JsonView::Str(c.id)),
                ("surface"@, JsonView::Str(c.surface)),
                ("type"@, JsonView::Str(c.ty)),
            ],
        )
}

/// The overview of a space: counts, and its first twenty cards.
pub open spec fn overview_json(
    space: Seq<char>,
    space_id: Seq<char>,
    cards: Seq<EntityCardView>,
    episodes: u64,
    contradictions: u64,
) -> JsonView {
    JsonView::Obj(
        seq![
            ("contradiction_count"@, JsonView::Pos(contradictions)),
            ("entity_count"@, JsonView::Pos(cards.len() as u64)),
            ("episode_count"@, JsonView::Pos(episodes)),
            ("recent_entities"@, JsonView::Arr(first_n(cards.map_values(card_json()), 20))),
            ("space"@, JsonView::Str(space)),
            ("space_id"@, JsonView::Str(space_id)),
        ],
    )
}

/// The overview of a space.
pub fn space_overview(
    space: &str,
    space_id: &str,
    cards: &Vec<EntityCard>,
    episodes: u64,
    contradictions: u64,
) -> (r: Json)
    ensures
        r.deep_view() == overview_json(
            space@,
            space_id@,
            cards.deep_view(),
            episodes,
            contradictions,
        ),
{
    let shown = limited(
        map_rows(
            cards,
            |c: &EntityCard| -> (j: Json)
                ensures
                    j.deep_view() == card_json()(c.deep_view())
                {
                    object3(
                        "id",
                        string(c.id.as_str()),
                        "surface",
                        string(c.surface.as_str()),
                        "type",
                        string(c.ty.as_str()),
                    )
                },
            Ghost(card_json()),
        ),
        20,
    );
    assert(cards.deep_view().len() == cards.len());
    let mut m: Vec<(String, Json)> = Vec::new();
    m.push(("contradiction_count".to_owned(), Json::Pos(contradictions)));
    m.push(("entity_count".to_owned(), Json::Pos(cards.len() as u64)));
    m.push(("episode_count".to_owned(), Json::Pos(episodes)));
    m.push(("recent_entities".to_owned(), array(shown)));
    m.push(("space".to_owned(), string(space)));
    m.push(("space_id".to_owned(), string(space_id)));
    assert(members_view(m@) =~= overview_json(
        space@,
        space_id@,
        cards.deep_view(),
        episodes,
        contradictions,
    )->Obj_0);
    object(m)
}

/// The answer to a request for the overview of a space.
pub fn space_resource(
    uri: &str,
    space: &str,
    space_id: &str,
    cards: &Vec<EntityCard>,
    episodes: u64,
    contradictions: u64,
) -> (r: Json)
    ensures
        r.deep_view() == contents_json(
            uri@,
            json_pretty(
                overview_json(space@, space_id@, cards.deep_view(), episodes, contradictions),
            ),
        ),
{
    let overview = space_overview(space, space_id, cards, episodes, contradictions);
    let text = render_pretty(&overview);
    resource_contents(uri, text.as_str())
}

/// An entity as it is listed.
pub open spec fn card_of(db: TablesView) -> spec_fn(EntityView) -> EntityCardView {
    |e: EntityView|
        EntityCardView {
            id: e.id,
            surface: match surface_form(db, e.id) {
                Ok(s) => s,
                Err(_) => e.id,
            },
            ty: e.ty,
        }
}

/// The live entities of a space, the newest first.
pub open spec fn space_cards(db: TablesView, space: Seq<char>) -> Seq<EntityCardView> {
    ordered(db.entities.filter(is_live_in(space)), by_newest()).map_values(card_of(db))
}

/// The overview of a space by what the tables hold of it: its live entities, its
/// episodes and its contradictions.
pub open spec fn space_page(db: TablesView, space: Seq<char>, space_id: Seq<char>) -> JsonView {
    overview_json(
        space,
        space_id,
        space_cards(db, space_id),
        db.episodes.filter(episode_in(space_id)).len() as u64,
        db.statements.filter(is_contradiction(db, space_id)).len() as u64,
    )
}

fn list_cards(db: &Tables, space_id: &str) -> (r: Vec<EntityCard>)
    ensures
        r.deep_view() == space_cards(db.deep_view(), space_id@),
{
    let live = list_entities(db, space_id, db.entities.len());
    proof {
        let found = db.deep_view().entities.filter(is_live_in(space_id@));
        db.deep_view().entities.lemma_filter_len(is_live_in(space_id@));
        lemma_ordered_same_rows(found, by_newest());
        assert(db.deep_view().entities.len() == db.entities.len());
        assert(first_n(ordered(found, by_newest()), db.entities.len() as nat) =~= ordered(
            found,
            by_newest(),
        ));
    }
    map_rows(
        &live,
        |e: &Entity| -> (c: EntityCard)
            ensures
                c.deep_view() == card_of(db.deep_view())(e.deep_view())
            {
                let surface = match entity_surface(db, e.id.as_str()) {
                    Ok(s) => s,
                    Err(_) => e.id.clone(),
                };
                EntityCard { id: e.id.clone(), surface, ty: e.ty.clone() }
            },
        Ghost(card_of(db.deep_view())),
    )
}

/// Answers a request for a space from the tables: the overview counts what the
/// space holds, whatever other spaces hold.
pub fn read_space(db: &Tables, uri: &str, space: &str, space_id: &str) -> (r: Json)
    ensures
        r.deep_view() == contents_json(
            uri@,
            json_pretty(space_page(db.deep_view(), space@, space_id@)),
        ),
{
    let cards = list_cards(db, space_id);
    let stats = space_stats(db, space_id);
    space_resource(
        uri,
        space,
        space_id,
        &cards,
        stats.episodes as u64,
        stats.contradictions as u64,
    )
}

/// An overview counts the episodes, the live entities and the contradictions of
/// its space alone, and lists twenty entities at most.
pub proof fn law_overview_counts_the_space(
    db: TablesView,
    space: Seq<char>,
    space_id: Seq<char>,
)
    ensures
        ({
            let page = space_page(db, space, space_id);
            let live = db.entities.filter(is_live_in(space_id)).len();
            &&& member(page, "episode_count"@) == Some(
                JsonView::Pos(db.episodes.filter(episode_in(space_id)).len() as u64),
            )
            &&& member(page, "entity_count"@) == Some(JsonView::Pos(live as u64))
            &&& member(page, "recent_entities"@) matches Some(JsonView::Arr(items))
                && items.len() == if live < 20 {
                live
            } else {
                20
            }
        }),
{
    lemma_ordered_same_rows(db.entities.filter(is_live_in(space_id)), by_newest());
    let members = space_page(db, space, space_id)->Obj_0;
    reveal_strlit("contradiction_count");
    reveal_strlit("entity_count");
    reveal_strlit("episode_count");
    reveal_strlit("recent_entities");
    assert("contradiction_count"@.len() != "episode_count"@.len());
    assert("contradiction_count"@.len() != "entity_count"@.len());
    assert("contradiction_count"@.len() != "recent_entities"@.len());
    assert("entity_count"@.len() != "episode_count"@.len());
    assert("entity_count"@.len() != "recent_entities"@.len());
    assert("episode_count"@.len() != "recent_entities"@.len());
    reveal_with_fuel(member_in, 5);
    let one = members.drop_first();
    let two = one.drop_first();
    let three = two.drop_first();
    assert(members[0].0 == "contradiction_count"@);
    assert(one[0] == members[1]);
    assert(two[0] == members[2]);
    assert(three[0] == members[3]);
}

/// What is looked up for a kind of resource, by the name that a failure is
/// reported under; nothing for an overview, which is read from the tables, nor
/// for a scheme that is not known.
pub fn looked_up(kind: &ResourceKind) -> (r: Option<&'static str>)
    ensures
        match kind.deep_view() {
            ResourceKindView::Space => r is None,
            ResourceKindView::Unknown { scheme: _ } => r is None,
            ResourceKindView::Entity { id: _ } => r is Some && r->Some_0@ == "beliefs"@,
            ResourceKindView::Episode { id: _ } => r is Some && r->Some_0@ == "get_episode"@,
            ResourceKindView::Graph { .. } => r is Some && r->Some_0@ == "traverse"@,
            ResourceKindView::Timeline { .. } => r is Some && r->Some_0@ == "timeline"@,
        },
{
    match kind {
        ResourceKind::Space => None,
        ResourceKind::Unknown { scheme: _ } => None,
        ResourceKind::Entity { id: _ } => Some("beliefs"),
        ResourceKind::Episode { id: _ } => Some("get_episode"),
        ResourceKind::Graph { id: _, depth: _, direction: _ } => Some("traverse"),
        ResourceKind::Timeline { id: _, from: _, to: _ } => Some("timeline"),
    }
}

/// The answer to a request for a resource, from the tables and from the text that
/// was looked up: the overview of a space; an error where the scheme is not
/// known, or the episode not there; else the text, empty where there is none.
pub open spec fn resource_answer(
    db: TablesView,
    request: ResourceRequestView,
    space_id: Seq<char>,
    found: Option<Seq<char>>,
) -> Result<JsonView, RpcErrorView> {
    match request.kind {
        ResourceKindView::Space => Ok(
            contents_json(request.uri, json_pretty(space_page(db, request.space, space_id))),
        ),
        ResourceKindView::Unknown { scheme } => Err(
            RpcErrorView {
                code: METHOD_NOT_FOUND,
                message: "unknown resource scheme: "@ + scheme,
            },
        ),
        ResourceKindView::Episode { id } => match found {
            Some(text) => Ok(contents_json(request.uri, text)),
            None => Err(
                RpcErrorView { code: INVALID_PARAMS, message: "episode not found: "@ + id },
            ),
        },
        _ => Ok(
            contents_json(
                request.uri,
                match found {
                    Some(text) => text,
                    None => ""@,
                },
            ),
        ),
    }
}

/// The answer to a request for a resource.
pub fn answer_resource(
    db: &Tables,
    request: &ResourceRequest,
    space_id: &str,
    found: &Option<String>,
) -> (r: Result<Json, RpcError>)
    ensures
        match resource_answer(
            db.deep_view(),
            request.deep_view(),
            space_id@,
            found.deep_view(),
        ) {
            Ok(v) => r is Ok && r->Ok_0.deep_view() == v,
            Err(e) => r is Err && r->Err_0.deep_view() == e,
        },
{
    let uri = request.uri.as_str();
    match &request.kind {
        ResourceKind::Space => Ok(read_space(db, uri, request.space.as_str(), space_id)),
        ResourceKind::Unknown { scheme } => Err(unknown_scheme(scheme.as_str())),
        ResourceKind::Episode { id } => match found {
            Some(text) => Ok(resource_contents(uri, text.as_str())),
            None => Err(episode_missing(id.as_str())),
        },
        _ => match found {
            Some(text) => Ok(resource_contents(uri, text.as_str())),
            None => Ok(resource_contents(uri, "")),
        },
    }
}

} // verus!
