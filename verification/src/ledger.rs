//! The ledger: spaces, episodes, sources and trust policies.
use vstd::prelude::*;
use vstd::utf8::{decode_utf8, encode_utf8, valid_utf8};

use crate::digest::{blake3_stream, blake3_xof, hex_encode, hex_text};
use crate::error::{fails_with, BrainError, BrainErrorView};
use crate::rows::{
    count, dedupe, distinct, find, first_where, in_order, order, ordered, pick, same_bytes, select,
    some_where, update, updated, Row,
};
use crate::tables::{
    dup_bytes, dup_text, Entity, EntityView, EpisodeRow, EpisodeRowView, PolicyRow, PolicyRowView,
    SourceRow, SourceRowView, SpaceEntry, SpaceEntryView, Tables, TablesView, TrustTier,
};
use crate::text::{cat2, cat3, str_eq, str_le, text_le};
use crate::time::Timestamp;

verus! {

/// Where an episode came from.
#[derive(Debug)]
pub enum SourceRef {
    Note { path: String },
    Document { uri: String },
    Conversation,
    Message,
    AgentTrace,
    DocumentRevision { uri: String },
    ArtifactEvent { uri: String },
    WebClip { uri: String },
    CalendarEvent { uri: String },
    Declaration,
    Derived { of: String },
}

/// [`SourceRef`] as a mathematical value.
#[verifier::ext_equal]
pub enum SourceRefView {
    Note { path: Seq<char> },
    Document { uri: Seq<char> },
    Conversation,
    Message,
    AgentTrace,
    DocumentRevision { uri: Seq<char> },
    ArtifactEvent { uri: Seq<char> },
    WebClip { uri: Seq<char> },
    CalendarEvent { uri: Seq<char> },
    Declaration,
    Derived { of: Seq<char> },
}

impl DeepView for SourceRef {
    type V = SourceRefView;

    open spec fn deep_view(&self) -> SourceRefView {
        match self {
            SourceRef::Note { path } => SourceRefView::Note { path: path@ },
            SourceRef::Document { uri } => SourceRefView::Document { uri: uri@ },
            SourceRef::Conversation => SourceRefView::Conversation,
            SourceRef::Message => SourceRefView::Message,
            SourceRef::AgentTrace => SourceRefView::AgentTrace,
            SourceRef::DocumentRevision { uri } => SourceRefView::DocumentRevision { uri: uri@ },
            SourceRef::ArtifactEvent { uri } => SourceRefView::ArtifactEvent { uri: uri@ },
            SourceRef::WebClip { uri } => SourceRefView::WebClip { uri: uri@ },
            SourceRef::CalendarEvent { uri } => SourceRefView::CalendarEvent { uri: uri@ },
            SourceRef::Declaration => SourceRefView::Declaration,
            SourceRef::Derived { of } => SourceRefView::Derived { of: of@ },
        }
    }
}

impl Row for SourceRef {
    fn dup(&self) -> (r: Self) {
        match self {
            SourceRef::Note { path } => SourceRef::Note { path: path.clone() },
            SourceRef::Document { uri } => SourceRef::Document { uri: uri.clone() },
            SourceRef::Conversation => SourceRef::Conversation,
            SourceRef::Message => SourceRef::Message,
            SourceRef::AgentTrace => SourceRef::AgentTrace,
            SourceRef::DocumentRevision { uri } => SourceRef::DocumentRevision { uri: uri.clone() },
            SourceRef::ArtifactEvent { uri } => SourceRef::ArtifactEvent { uri: uri.clone() },
            SourceRef::WebClip { uri } => SourceRef::WebClip { uri: uri.clone() },
            SourceRef::CalendarEvent { uri } => SourceRef::CalendarEvent { uri: uri.clone() },
            SourceRef::Declaration => SourceRef::Declaration,
            SourceRef::Derived { of } => SourceRef::Derived { of: of.clone() },
        }
    }
}

impl Clone for SourceRef {
    fn clone(&self) -> (r: Self)
        ensures
            r.deep_view() == self.deep_view(),
    {
        self.dup()
    }
}

impl SourceRefView {
    /// The stored name of the kind of source.
    pub open spec fn kind(self) -> Seq<char> {
        match self {
            SourceRefView::Note { path: _ } => "note"@,
            SourceRefView::Document { uri: _ } => "document"@,
            SourceRefView::Conversation => "conversation"@,
            SourceRefView::Message => "message"@,
            SourceRefView::AgentTrace => "agent_trace"@,
            SourceRefView::DocumentRevision { uri: _ } => "document_revision"@,
            SourceRefView::ArtifactEvent { uri: _ } => "artifact_event"@,
            SourceRefView::WebClip { uri: _ } => "web_clip"@,
            SourceRefView::CalendarEvent { uri: _ } => "calendar_event"@,
            SourceRefView::Declaration => "declaration"@,
            SourceRefView::Derived { of: _ } => "derived"@,
        }
    }

    /// The stored reference, for kinds that have one.
    pub open spec fn reference(self) -> Option<Seq<char>> {
        match self {
            SourceRefView::Note { path } => Some(path),
            SourceRefView::Document { uri } => Some(uri),
            SourceRefView::Conversation => None,
            SourceRefView::Message => None,
            SourceRefView::AgentTrace => None,
            SourceRefView::DocumentRevision { uri } => Some(uri),
            SourceRefView::ArtifactEvent { uri } => Some(uri),
            SourceRefView::WebClip { uri } => Some(uri),
            SourceRefView::CalendarEvent { uri } => Some(uri),
            SourceRefView::Declaration => None,
            SourceRefView::Derived { of } => Some(of),
        }
    }
}

impl SourceRef {
    /// The stored name of the kind of source, and its reference.
    pub fn db_columns(&self) -> (r: (String, Option<String>))
        ensures
            r.0@ == self.deep_view().kind(),
            r.1.deep_view() == self.deep_view().reference(),
    {
        match self {
            SourceRef::Note { path } => ("note".to_owned(), Some(path.clone())),
            SourceRef::Document { uri } => ("document".to_owned(), Some(uri.clone())),
            SourceRef::Conversation => ("conversation".to_owned(), None),
            SourceRef::Message => ("message".to_owned(), None),
            SourceRef::AgentTrace => ("agent_trace".to_owned(), None),
            SourceRef::DocumentRevision { uri } => ("document_revision".to_owned(), Some(uri.clone())),
            SourceRef::ArtifactEvent { uri } => ("artifact_event".to_owned(), Some(uri.clone())),
            SourceRef::WebClip { uri } => ("web_clip".to_owned(), Some(uri.clone())),
            SourceRef::CalendarEvent { uri } => ("calendar_event".to_owned(), Some(uri.clone())),
            SourceRef::Declaration => ("declaration".to_owned(), None),
            SourceRef::Derived { of } => ("derived".to_owned(), Some(of.clone())),
        }
    }
}

/// The source that stored columns stand for; a missing reference reads as empty.
pub open spec fn source_of(kind: Seq<char>, reference: Option<Seq<char>>) -> Option<SourceRefView> {
    let text = match reference {
        Some(s) => s,
        None => Seq::empty(),
    };
    if kind == "note"@ {
        Some(SourceRefView::Note { path: text })
    } else if kind == "document"@ {
        Some(SourceRefView::Document { uri: text })
    } else if kind == "conversation"@ {
        Some(SourceRefView::Conversation)
    } else if kind == "message"@ {
        Some(SourceRefView::Message)
    } else if kind == "agent_trace"@ {
        Some(SourceRefView::AgentTrace)
    } else if kind == "document_revision"@ {
        Some(SourceRefView::DocumentRevision { uri: text })
    } else if kind == "artifact_event"@ {
        Some(SourceRefView::ArtifactEvent { uri: text })
    } else if kind == "web_clip"@ {
        Some(SourceRefView::WebClip { uri: text })
    } else if kind == "calendar_event"@ {
        Some(SourceRefView::CalendarEvent { uri: text })
    } else if kind == "declaration"@ {
        Some(SourceRefView::Declaration)
    } else if kind == "derived"@ {
        Some(SourceRefView::Derived { of: text })
    } else {
        None
    }
}

/// Reads a source from its stored columns.
pub fn decode_source(kind: &str, reference: Option<String>) -> (r: Result<SourceRef, BrainError>)
    ensures
        match source_of(kind@, reference.deep_view()) {
            Some(s) => r is Ok && r->Ok_0.deep_view() == s,
            None => fails_with(r, BrainErrorView::Corruption("unknown source kind: "@ + kind@)),
        },
{
    let text = match reference {
        Some(s) => s,
        None => String::new(),
    };
    if str_eq(kind, "note") {
        Ok(SourceRef::Note { path: text })
    } else if str_eq(kind, "document") {
        Ok(SourceRef::Document { uri: text })
    } else if str_eq(kind, "conversation") {
        Ok(SourceRef::Conversation)
    } else if str_eq(kind, "message") {
        Ok(SourceRef::Message)
    } else if str_eq(kind, "agent_trace") {
        Ok(SourceRef::AgentTrace)
    } else if str_eq(kind, "document_revision") {
        Ok(SourceRef::DocumentRevision { uri: text })
    } else if str_eq(kind, "artifact_event") {
        Ok(SourceRef::ArtifactEvent { uri: text })
    } else if str_eq(kind, "web_clip") {
        Ok(SourceRef::WebClip { uri: text })
    } else if str_eq(kind, "calendar_event") {
        Ok(SourceRef::CalendarEvent { uri: text })
    } else if str_eq(kind, "declaration") {
        Ok(SourceRef::Declaration)
    } else if str_eq(kind, "derived") {
        Ok(SourceRef::Derived { of: text })
    } else {
        Err(BrainError::Corruption(cat2("unknown source kind: ", kind)))
    }
}

/// An episode: one immutable piece of evidence.
#[derive(Debug)]
pub struct Episode {
    pub id: String,
    pub space: String,
    pub seq: u64,
    pub content_hash: [u8; 32],
    pub content: String,
    pub source: SourceRef,
    pub trust: TrustTier,
    pub kind: EpisodeKind,
    pub occurred_at: Timestamp,
    pub ingested_at: Timestamp,
    pub redacted_at: Option<Timestamp>,
}

/// [`Episode`] as a mathematical value.
#[verifier::ext_equal]
pub struct EpisodeView {
    pub id: Seq<char>,
    pub space: Seq<char>,
    pub seq: u64,
    pub content_hash: Seq<u8>,
    pub content: Seq<char>,
    pub source: SourceRefView,
    pub trust: TrustTier,
    pub kind: EpisodeKind,
    pub occurred_at: Timestamp,
    pub ingested_at: Timestamp,
    pub redacted_at: Option<Timestamp>,
}

impl DeepView for Episode {
    type V = EpisodeView;

    open spec fn deep_view(&self) -> EpisodeView {
        EpisodeView {
            id: self.id@,
            space: self.space@,
            seq: self.seq,
            content_hash: self.content_hash@,
            content: self.content@,
            source: self.source.deep_view(),
            trust: self.trust,
            kind: self.kind,
            occurred_at: self.occurred_at,
            ingested_at: self.ingested_at,
            redacted_at: self.redacted_at,
        }
    }
}

impl Row for Episode {
    fn dup(&self) -> (r: Self) {
        Episode {
            id: self.id.clone(),
            space: self.space.clone(),
            seq: self.seq,
            content_hash: self.content_hash,
            content: self.content.clone(),
            source: self.source.dup(),
            trust: self.trust,
            kind: self.kind,
            occurred_at: self.occurred_at,
            ingested_at: self.ingested_at,
            redacted_at: self.redacted_at,
        }
    }
}

impl Clone for Episode {
    fn clone(&self) -> (r: Self)
        ensures
            r.deep_view() == self.deep_view(),
    {
        self.dup()
    }
}

/// What the server attaches to an episode that arrives as an event. None of it
/// comes from the client.
#[derive(Debug)]
pub struct IngestAttachment {
    pub source_id: String,
    pub occurrence_id: String,
    pub accepted_at: Timestamp,
    pub principal: String,
    pub claims_json: String,
}

/// [`IngestAttachment`] as a mathematical value.
#[verifier::ext_equal]
pub struct IngestAttachmentView {
    pub source_id: Seq<char>,
    pub occurrence_id: Seq<char>,
    pub accepted_at: Timestamp,
    pub principal: Seq<char>,
    pub claims_json: Seq<char>,
}

impl DeepView for IngestAttachment {
    type V = IngestAttachmentView;

    open spec fn deep_view(&self) -> IngestAttachmentView {
        IngestAttachmentView {
            source_id: self.source_id@,
            occurrence_id: self.occurrence_id@,
            accepted_at: self.accepted_at,
            principal: self.principal@,
            claims_json: self.claims_json@,
        }
    }
}

impl Row for IngestAttachment {
    fn dup(&self) -> (r: Self) {
        IngestAttachment {
            source_id: self.source_id.clone(),
            occurrence_id: self.occurrence_id.clone(),
            accepted_at: self.accepted_at,
            principal: self.principal.clone(),
            claims_json: self.claims_json.clone(),
        }
    }
}

impl Clone for IngestAttachment {
    fn clone(&self) -> (r: Self)
        ensures
            r.deep_view() == self.deep_view(),
    {
        self.dup()
    }
}

/// A space row with live counts.
#[derive(Debug)]
pub struct SpaceRow {
    pub id: String,
    pub name: String,
    pub created_at: i64,
    pub episode_count: i64,
    pub entity_count: i64,
}

/// [`SpaceRow`] as a mathematical value.
#[verifier::ext_equal]
pub struct SpaceRowView {
    pub id: Seq<char>,
    pub name: Seq<char>,
    pub created_at: i64,
    pub episode_count: i64,
    pub entity_count: i64,
}

impl DeepView for SpaceRow {
    type V = SpaceRowView;

    open spec fn deep_view(&self) -> SpaceRowView {
        SpaceRowView {
            id: self.id@,
            name: self.name@,
            created_at: self.created_at,
            episode_count: self.episode_count,
            entity_count: self.entity_count,
        }
    }
}

impl Row for SpaceRow {
    fn dup(&self) -> (r: Self) {
        SpaceRow {
            id: self.id.clone(),
            name: self.name.clone(),
            created_at: self.created_at,
            episode_count: self.episode_count,
            entity_count: self.entity_count,
        }
    }
}

impl Clone for SpaceRow {
    fn clone(&self) -> (r: Self)
        ensures
            r.deep_view() == self.deep_view(),
    {
        self.dup()
    }
}

/// Whether an episode was taken in, declared by a user, or derived from others.
#[derive(Debug, Clone, Copy, PartialEq, Eq, Structural)]
pub enum EpisodeKind {
    Primary,
    Declaration,
    Derived,
}

/// The stored name of an episode kind.
pub open spec fn kind_text(kind: EpisodeKind) -> Seq<char> {
    match kind {
        EpisodeKind::Primary => "primary"@,
        EpisodeKind::Declaration => "declaration"@,
        EpisodeKind::Derived => "derived"@,
    }
}

/// The episode kind of a stored name.
pub open spec fn kind_of(text: Seq<char>) -> Option<EpisodeKind> {
    if text == "primary"@ {
        Some(EpisodeKind::Primary)
    } else if text == "declaration"@ {
        Some(EpisodeKind::Declaration)
    } else if text == "derived"@ {
        Some(EpisodeKind::Derived)
    } else {
        None
    }
}

impl EpisodeKind {
    /// The stored name.
    pub fn as_db(self) -> (r: &'static str)
        ensures
            r@ == kind_text(self),
    {
        match self {
            EpisodeKind::Primary => "primary",
            EpisodeKind::Declaration => "declaration",
            EpisodeKind::Derived => "derived",
        }
    }

    /// The kind of a stored name.
    pub fn parse_db(text: &str) -> (r: Option<Self>)
        ensures
            r == kind_of(text@),
    {
        if str_eq(text, "primary") {
            Some(EpisodeKind::Primary)
        } else if str_eq(text, "declaration") {
            Some(EpisodeKind::Declaration)
        } else if str_eq(text, "derived") {
            Some(EpisodeKind::Derived)
        } else {
            None
        }
    }
}

/// The stored name of a trust tier.
pub open spec fn trust_text(trust: TrustTier) -> Seq<char> {
    match trust {
        TrustTier::Trusted => "trusted"@,
        TrustTier::SemiTrusted => "semi_trusted"@,
        TrustTier::Untrusted => "untrusted"@,
    }
}

/// The trust tier of a stored name.
pub open spec fn trust_of(text: Seq<char>) -> Option<TrustTier> {
    if text == "trusted"@ {
        Some(TrustTier::Trusted)
    } else if text == "semi_trusted"@ {
        Some(TrustTier::SemiTrusted)
    } else if text == "untrusted"@ {
        Some(TrustTier::Untrusted)
    } else {
        None
    }
}

impl TrustTier {
    /// The stored name.
    pub fn as_db(self) -> (r: &'static str)
        ensures
            r@ == trust_text(self),
    {
        match self {
            TrustTier::Trusted => "trusted",
            TrustTier::SemiTrusted => "semi_trusted",
            TrustTier::Untrusted => "untrusted",
        }
    }

    /// The tier of a stored name.
    pub fn parse_db(text: &str) -> (r: Option<Self>)
        ensures
            r == trust_of(text@),
    {
        if str_eq(text, "trusted") {
            Some(TrustTier::Trusted)
        } else if str_eq(text, "semi_trusted") {
            Some(TrustTier::SemiTrusted)
        } else if str_eq(text, "untrusted") {
            Some(TrustTier::Untrusted)
        } else {
            None
        }
    }
}

/// What is stored for a source, a kind or a trust tier reads back as it was.
pub proof fn law_stored_names_read_back(source: SourceRefView, kind: EpisodeKind, trust: TrustTier)
    ensures
        source_of(source.kind(), source.reference()) == Some(source),
        kind_of(kind_text(kind)) == Some(kind),
        trust_of(trust_text(trust)) == Some(trust),
{
    reveal_strlit("note");
    reveal_strlit("document");
    reveal_strlit("conversation");
    reveal_strlit("message");
    reveal_strlit("agent_trace");
    reveal_strlit("document_revision");
    reveal_strlit("artifact_event");
    reveal_strlit("web_clip");
    reveal_strlit("calendar_event");
    reveal_strlit("declaration");
    reveal_strlit("derived");
    reveal_strlit("primary");
    reveal_strlit("trusted");
    reveal_strlit("semi_trusted");
    reveal_strlit("untrusted");
    assert("note"@[0] == 'n' && "document"@[0] == 'd' && "conversation"@[0] == 'c');
    assert("message"@[0] == 'm' && "agent_trace"@[1] == 'g' && "document_revision"@.len() == 17);
    assert("artifact_event"@[1] == 'r' && "web_clip"@[0] == 'w' && "calendar_event"@[1] == 'a');
    assert("conversation"@[1] == 'o' && "declaration"@[2] == 'c' && "derived"@[2] == 'r');
    assert("document"@[1] == 'o' && "declaration"@[1] == 'e' && "derived"@[1] == 'e');
    assert("primary"@[0] == 'p' && "trusted"@[0] == 't' && "semi_trusted"@[0] == 's');
    assert("untrusted"@[0] == 'u' && "document_revision"@[1] == 'o');
}

/// Selects the space with the given id.
pub open spec fn space_has_id(id: Seq<char>) -> spec_fn(SpaceEntryView) -> bool {
    |s: SpaceEntryView| s.id == id
}

/// Selects the space with the given name.
pub open spec fn space_has_name(name: Seq<char>) -> spec_fn(SpaceEntryView) -> bool {
    |s: SpaceEntryView| s.name == name
}

/// The id of the space with the given name: the hexadecimal form of the first
/// sixteen bytes of the BLAKE3 stream of the name.
pub open spec fn space_id_of(name: Seq<char>) -> Seq<char> {
    hex_text(blake3_stream(encode_utf8(name), 16))
}

/// Deterministic space id.
pub fn space_id(name: &str) -> (r: String)
    ensures
        r@ == space_id_of(name@),
{
    hex_encode(blake3_xof(name.as_bytes(), 16).as_slice())
}

/// The tables once a space of the given id and name is there.
pub open spec fn with_space(
    db: TablesView,
    id: Seq<char>,
    name: Seq<char>,
    now: Timestamp,
) -> TablesView {
    if some_where(db.spaces, space_has_id(id)) {
        db
    } else {
        TablesView {
            spaces: db.spaces.push(SpaceEntryView { id, name, created_at: now.0 }),
            ..db
        }
    }
}

/// Idempotently create a space, returning its id.
pub fn create_space(db: &mut Tables, name: &str, now: Timestamp) -> (r: String)
    ensures
        r@ == space_id_of(name@),
        final(db).deep_view() == with_space(
            old(db).deep_view(),
            space_id_of(name@),
            name@,
            now,
        ),
{
    let id = space_id(name);
    let found = find(
        &db.spaces,
        |s: &SpaceEntry| -> (b: bool)
            ensures
                b == (s.deep_view().id == id@)
            { str_eq(s.id.as_str(), id.as_str()) },
        Ghost(space_has_id(id@)),
    );
    if found.is_none() {
        let ghost before = db.spaces.deep_view();
        let row = SpaceEntry { id: id.clone(), name: name.to_owned(), created_at: now.0 };
        let ghost added = row.deep_view();
        db.spaces.push(row);
        assert(db.spaces.deep_view() =~= before.push(added));
    }
    id
}

/// The name of the space with the given id.
pub fn get_space(db: &Tables, id: &str) -> (r: Option<String>)
    ensures
        r.deep_view() == match first_where(db.deep_view().spaces, space_has_id(id@)) {
            Some(s) => Some(s.name),
            None => None,
        },
{
    match find(
        &db.spaces,
        |s: &SpaceEntry| -> (b: bool)
            ensures
                b == (s.deep_view().id == id@)
            { str_eq(s.id.as_str(), id) },
        Ghost(space_has_id(id@)),
    ) {
        Some(i) => Some(db.spaces[i].name.clone()),
        None => None,
    }
}

/// The id of the stored space with a name.
pub open spec fn stored_space(db: TablesView, name: Seq<char>) -> Option<Seq<char>> {
    match first_where(db.spaces, space_has_name(name)) {
        Some(s) => Some(s.id),
        None => None,
    }
}

/// Look up a space id by name. Looking never makes a space.
pub fn lookup_space_by_name(db: &Tables, name: &str) -> (r: Option<String>)
    ensures
        r.deep_view() == stored_space(db.deep_view(), name@),
{
    match find(
        &db.spaces,
        |s: &SpaceEntry| -> (b: bool)
            ensures
                b == (s.deep_view().name == name@)
            { str_eq(s.name.as_str(), name) },
        Ghost(space_has_name(name@)),
    ) {
        Some(i) => Some(db.spaces[i].id.clone()),
        None => None,
    }
}

/// Selects the episodes of a space.
pub open spec fn episode_in(space: Seq<char>) -> spec_fn(EpisodeRowView) -> bool {
    |e: EpisodeRowView| e.space == space
}

/// Selects the entities of a space.
pub open spec fn entity_in(space: Seq<char>) -> spec_fn(EntityView) -> bool {
    |e: EntityView| e.space == space
}

/// A space with the number of its episodes and entities.
pub open spec fn space_row(db: TablesView, s: SpaceEntryView) -> SpaceRowView {
    SpaceRowView {
        id: s.id,
        name: s.name,
        created_at: s.created_at,
        episode_count: db.episodes.filter(episode_in(s.id)).len() as i64,
        entity_count: db.entities.filter(entity_in(s.id)).len() as i64,
    }
}

/// The order of spaces: by creation time, then by id.
pub open spec fn by_creation() -> spec_fn(SpaceRowView, SpaceRowView) -> bool {
    |a: SpaceRowView, b: SpaceRowView|
        a.created_at < b.created_at || (a.created_at == b.created_at && text_le(a.id, b.id))
}

/// How many episodes and entities there can be at most: their numbers are
/// shown as `i64`.
pub open spec fn countable(db: TablesView) -> bool {
    &&& db.episodes.len() <= i64::MAX
    &&& db.entities.len() <= i64::MAX
}

/// List all spaces with episode and entity counts, ordered by creation time and
/// id: same store, same rows, same order.
pub fn list_spaces(db: &Tables) -> (r: Vec<SpaceRow>)
    requires
        countable(db.deep_view()),
    ensures
        r.deep_view() == ordered(
            db.deep_view().spaces.map_values(|s: SpaceEntryView| space_row(db.deep_view(), s)),
            by_creation(),
        ),
{
    let ghost view = db.deep_view();
    let ghost row_for = |s: SpaceEntryView| space_row(view, s);
    let mut out: Vec<SpaceRow> = Vec::new();
    let mut i: usize = 0;
    assert(out.deep_view() =~= view.spaces.take(0).map_values(row_for));
    while i < db.spaces.len()
        invariant
            i <= db.spaces.len(),
            view == db.deep_view(),
            countable(view),
            row_for == (|s: SpaceEntryView| space_row(view, s)),
            out.deep_view() == view.spaces.take(i as int).map_values(row_for),
        decreases db.spaces.len() - i,
    {
        let ghost before = out.deep_view();
        let space = &db.spaces[i];
        let episodes: usize = count(
            &db.episodes,
            |e: &EpisodeRow| -> (b: bool)
                ensures
                    b == (e.deep_view().space == space.id@)
                { str_eq(e.space.as_str(), space.id.as_str()) },
            Ghost(episode_in(space.id@)),
        );
        let entities: usize = count(
            &db.entities,
            |e: &Entity| -> (b: bool)
                ensures
                    b == (e.deep_view().space == space.id@)
                { str_eq(e.space.as_str(), space.id.as_str()) },
            Ghost(entity_in(space.id@)),
        );
        out.push(
            SpaceRow {
                id: space.id.clone(),
                name: space.name.clone(),
                created_at: space.created_at,
                episode_count: episodes as i64,
                entity_count: entities as i64,
            },
        );
        proof {
            let s = view.spaces[i as int];
            assert(out.deep_view() =~= before.push(space_row(view, s)));
            assert(view.spaces.take(i + 1) =~= view.spaces.take(i as int).push(s));
            assert(view.spaces.take(i + 1).map_values(row_for) =~= view.spaces.take(
                i as int,
            ).map_values(row_for).push(space_row(view, s)));
        }
        i = i + 1;
    }
    assert(view.spaces.take(i as int) =~= view.spaces);
    order(
        out,
        |a: &SpaceRow, b: &SpaceRow| -> (le: bool)
            ensures
                le == by_creation()(a.deep_view(), b.deep_view())
            {
                a.created_at < b.created_at || (a.created_at == b.created_at && str_le(
                    a.id.as_str(),
                    b.id.as_str(),
                ))
            },
        Ghost(by_creation()),
    )
}

/// Spaces are listed in order of creation time and id, each space once per row
/// of the table.
pub proof fn law_spaces_are_listed_in_order(rows: Seq<SpaceRowView>)
    ensures
        in_order(ordered(rows, by_creation()), by_creation()),
        ordered(rows, by_creation()).to_multiset() == rows.to_multiset(),
{
    let leq = by_creation();
    assert forall|a: SpaceRowView, b: SpaceRowView| #[trigger] leq(a, b) || leq(b, a) by {
        crate::text::lemma_text_total(a.id, b.id);
    }
    assert forall|a: SpaceRowView, b: SpaceRowView, c: SpaceRowView| #[trigger]
        leq(a, b) && #[trigger] leq(b, c) implies leq(a, c) by {
        if a.created_at == b.created_at && b.created_at == c.created_at {
            crate::text::lemma_text_transitive(a.id, b.id, c.id);
        }
    }
    crate::rows::lemma_ordered_in_order(rows, leq);
    crate::rows::lemma_ordered_same_rows(rows, leq);
}

/// The greatest sequence number in a space, or minus one where there is none.
pub open spec fn top_seq(rows: Seq<EpisodeRowView>, space: Seq<char>) -> int
    decreases rows.len(),
{
    if rows.len() == 0 {
        -1
    } else {
        let top = top_seq(rows.drop_last(), space);
        if rows.last().space == space && rows.last().seq > top {
            rows.last().seq as int
        } else {
            top
        }
    }
}

/// Sequence numbers are never negative and leave room for one more.
pub open spec fn seqs_fit(rows: Seq<EpisodeRowView>) -> bool {
    forall|i: int| 0 <= i < rows.len() ==> 0 <= (#[trigger] rows[i]).seq < i64::MAX
}

proof fn lemma_top_seq(rows: Seq<EpisodeRowView>, space: Seq<char>)
    requires
        seqs_fit(rows),
    ensures
        -1 <= top_seq(rows, space) < i64::MAX,
        forall|i: int|
            0 <= i < rows.len() && (#[trigger] rows[i]).space == space ==> rows[i].seq <= top_seq(
                rows,
                space,
            ),
    decreases rows.len(),
{
    if rows.len() > 0 {
        let init = rows.drop_last();
        assert(seqs_fit(init)) by {
            assert forall|i: int| 0 <= i < init.len() implies 0 <= (#[trigger] init[i]).seq
                < i64::MAX by {
                assert(init[i] == rows[i]);
            }
        }
        lemma_top_seq(init, space);
        assert(rows.last() == rows[rows.len() - 1]);
        assert forall|i: int| 0 <= i < rows.len() && (#[trigger] rows[i]).space
            == space implies rows[i].seq <= top_seq(rows, space) by {
            if i < rows.len() - 1 {
                assert(init[i] == rows[i]);
            }
        }
    }
}

/// The next sequence number of a space is above every number in use there.
pub proof fn law_next_seq_is_new(rows: Seq<EpisodeRowView>, space: Seq<char>)
    requires
        seqs_fit(rows),
    ensures
        forall|i: int|
            0 <= i < rows.len() && (#[trigger] rows[i]).space == space ==> rows[i].seq < top_seq(
                rows,
                space,
            ) + 1,
{
    lemma_top_seq(rows, space);
}

/// Next monotonic sequence number for a space.
pub fn next_seq(db: &Tables, space: &str) -> (r: u64)
    requires
        seqs_fit(db.deep_view().episodes),
    ensures
        r == top_seq(db.deep_view().episodes, space@) + 1,
        r <= i64::MAX,
{
    let ghost rows = db.deep_view().episodes;
    let mut next: u64 = 0;
    let mut i: usize = 0;
    while i < db.episodes.len()
        invariant
            i <= db.episodes.len(),
            rows == db.deep_view().episodes,
            seqs_fit(rows),
            next == top_seq(rows.take(i as int), space@) + 1,
            next <= i64::MAX,
        decreases db.episodes.len() - i,
    {
        proof {
            assert(rows.take(i + 1).drop_last() =~= rows.take(i as int));
            assert(rows.take(i + 1).last() == rows[i as int]);
            assert(0 <= rows[i as int].seq < i64::MAX);
        }
        if str_eq(db.episodes[i].space.as_str(), space) {
            let seq: u64 = db.episodes[i].seq as u64;
            if seq + 1 > next {
                next = seq + 1;
            }
        }
        i = i + 1;
    }
    assert(rows.take(i as int) =~= rows);
    next
}

/// The row that is stored for an episode, with what came along with an event.
pub open spec fn episode_row(e: EpisodeView, att: Option<IngestAttachmentView>) -> EpisodeRowView {
    EpisodeRowView {
        id: e.id,
        space: e.space,
        seq: e.seq as i64,
        content_hash: e.content_hash,
        content: e.content,
        source_kind: e.source.kind(),
        source_ref: e.source.reference(),
        trust: trust_text(e.trust),
        kind: kind_text(e.kind),
        occurred_at: e.occurred_at,
        ingested_at: e.ingested_at,
        redacted_at: e.redacted_at,
        source_id: match att {
            Some(a) => Some(a.source_id),
            None => None,
        },
        occurrence_id: match att {
            Some(a) => Some(a.occurrence_id),
            None => None,
        },
        accepted_at: match att {
            Some(a) => Some(a.accepted_at),
            None => None,
        },
        principal: match att {
            Some(a) => Some(a.principal),
            None => None,
        },
        claims_json: match att {
            Some(a) => Some(a.claims_json),
            None => None,
        },
        content_compacted: None,
        compacted_at: None,
        uncertainty_json: None,
    }
}

fn make_episode_row(e: &Episode, att: Option<&IngestAttachment>) -> (r: EpisodeRow)
    requires
        e.seq <= i64::MAX,
    ensures
        r.deep_view() == episode_row(
            e.deep_view(),
            match att {
                Some(a) => Some(a.deep_view()),
                None => None,
            },
        ),
{
    let (source_kind, source_ref) = e.source.db_columns();
    let hash: Vec<u8> = bytes_of(&e.content_hash);
    let (source_id, occurrence_id, accepted_at, principal, claims_json) = match att {
        Some(a) => (
            Some(a.source_id.clone()),
            Some(a.occurrence_id.clone()),
            Some(a.accepted_at),
            Some(a.principal.clone()),
            Some(a.claims_json.clone()),
        ),
        None => (None, None, None, None, None),
    };
    EpisodeRow {
        id: e.id.clone(),
        space: e.space.clone(),
        seq: e.seq as i64,
        content_hash: hash,
        content: e.content.clone(),
        source_kind,
        source_ref,
        trust: e.trust.as_db().to_owned(),
        kind: e.kind.as_db().to_owned(),
        occurred_at: e.occurred_at,
        ingested_at: e.ingested_at,
        redacted_at: e.redacted_at,
        source_id,
        occurrence_id,
        accepted_at,
        principal,
        claims_json,
        content_compacted: None,
        compacted_at: None,
        uncertainty_json: None,
    }
}

/// The bytes of a hash as a byte string.
pub(crate) fn bytes_of(h: &[u8; 32]) -> (r: Vec<u8>)
    ensures
        r@ == h@,
{
    let mut out: Vec<u8> = Vec::new();
    let mut i: usize = 0;
    while i < 32
        invariant
            i <= 32,
            out@ == h@.take(i as int),
        decreases 32 - i,
    {
        out.push(h[i]);
        i = i + 1;
        assert(h@.take(i as int) =~= h@.take(i - 1).push(h@[i - 1]));
    }
    assert(h@.take(32) =~= h@);
    out
}

/// A stored hash: its bytes where it is 32 bytes long, else zeros.
pub open spec fn hash_of(blob: Seq<u8>) -> Seq<u8> {
    if blob.len() == 32 {
        blob
    } else {
        Seq::new(32, |i: int| 0u8)
    }
}

fn read_hash(blob: &Vec<u8>) -> (r: [u8; 32])
    ensures
        r@ == hash_of(blob@),
{
    let mut out: [u8; 32] = [0u8; 32];
    if blob.len() == 32 {
        let mut i: usize = 0;
        while i < 32
            invariant
                i <= 32,
                blob@.len() == 32,
                forall|j: int| 0 <= j < i ==> out@[j] == blob@[j],
            decreases 32 - i,
        {
            out[i] = blob[i];
            i = i + 1;
        }
        assert(out@ =~= blob@);
    } else {
        assert(out@ =~= Seq::new(32, |i: int| 0u8));
    }
    out
}

/// Selects the episodes of a space that hold the given content.
pub open spec fn has_content(space: Seq<char>, hash: Seq<u8>) -> spec_fn(EpisodeRowView) -> bool {
    |e: EpisodeRowView| e.space == space && e.content_hash == hash
}

/// An episode once it has its identity.
pub open spec fn identified(e: EpisodeView, id: Seq<char>, hash: Seq<u8>, seq: u64) -> EpisodeView {
    EpisodeView { id, content_hash: hash, seq, ..e }
}

/// The episode after [`insert_episode`]: where the space already holds the content,
/// it has the identity of the row that holds it.
pub open spec fn episode_after(
    db: TablesView,
    e: EpisodeView,
    id: Seq<char>,
    hash: Seq<u8>,
) -> EpisodeView {
    if some_where(db.episodes, has_content(e.space, hash)) {
        let row = first_where(db.episodes, has_content(e.space, hash))->Some_0;
        identified(e, row.id, row.content_hash, row.seq as u64)
    } else {
        identified(e, id, hash, (top_seq(db.episodes, e.space) + 1) as u64)
    }
}

/// The tables after [`insert_episode`].
pub open spec fn with_episode(
    db: TablesView,
    e: EpisodeView,
    id: Seq<char>,
    hash: Seq<u8>,
) -> TablesView {
    if some_where(db.episodes, has_content(e.space, hash)) {
        db
    } else {
        TablesView {
            episodes: db.episodes.push(episode_row(episode_after(db, e, id, hash), None)),
            ..db
        }
    }
}

/// Insert an episode under the identity `id` and the content hash `hash`.
/// Idempotent: where the space already holds the content, the tables stay as
/// they are, and the episode gets the identity of the row that holds it.
pub fn insert_episode(db: &mut Tables, ep: &mut Episode, id: String, hash: [u8; 32])
    requires
        seqs_fit(old(db).deep_view().episodes),
    ensures
        final(ep).deep_view() == episode_after(
            old(db).deep_view(),
            old(ep).deep_view(),
            id@,
            hash@,
        ),
        final(db).deep_view() == with_episode(old(db).deep_view(), old(ep).deep_view(), id@, hash@),
{
    let found = find(
        &db.episodes,
        |e: &EpisodeRow| -> (b: bool)
            ensures
                b == (e.deep_view().space == ep.space@ && e.deep_view().content_hash == hash@)
            {
                str_eq(e.space.as_str(), ep.space.as_str()) && same_bytes(
                    e.content_hash.as_slice(),
                    hash.as_slice(),
                )
            },
        Ghost(has_content(ep.space@, hash@)),
    );
    if let Some(i) = found {
        assert(db.deep_view().episodes[i as int] == db.episodes[i as int].deep_view());
        ep.id = db.episodes[i].id.clone();
        ep.seq = db.episodes[i].seq as u64;
        ep.content_hash = hash;
        return;
    }
    let seq: u64 = next_seq(db, ep.space.as_str());
    ep.id = id;
    ep.seq = seq;
    ep.content_hash = hash;
    let row = make_episode_row(ep, None);
    let ghost added = row.deep_view();
    let ghost before = db.episodes.deep_view();
    db.episodes.push(row);
    assert(db.episodes.deep_view() =~= before.push(added));
}

/// Taking in the same content again changes nothing, and gives the identity that
/// the first time gave.
pub proof fn law_insert_episode_is_idempotent(
    db: TablesView,
    e: EpisodeView,
    id: Seq<char>,
    hash: Seq<u8>,
    again: EpisodeView,
    other_id: Seq<char>,
)
    requires
        again.space == e.space,
    ensures
        with_episode(with_episode(db, e, id, hash), again, other_id, hash) == with_episode(
            db,
            e,
            id,
            hash,
        ),
        ({
            let first = episode_after(db, e, id, hash);
            let second = episode_after(with_episode(db, e, id, hash), again, other_id, hash);
            seqs_fit(db.episodes) ==> second.id == first.id && second.seq == first.seq
                && second.content_hash == first.content_hash
        }),
{
    let after = with_episode(db, e, id, hash);
    let p = has_content(e.space, hash);
    if !some_where(db.episodes, p) {
        let row = episode_row(episode_after(db, e, id, hash), None);
        assert(after.episodes[db.episodes.len() as int] == row);
        assert(p(after.episodes[db.episodes.len() as int]));
        crate::rows::lemma_first_where(after.episodes, p, db.episodes.len() as int);
        if seqs_fit(db.episodes) {
            lemma_top_seq(db.episodes, e.space);
        }
    }
}

/// Selects the episode of an event.
pub open spec fn is_event(
    space: Seq<char>,
    source_id: Seq<char>,
    occurrence_id: Seq<char>,
) -> spec_fn(EpisodeRowView) -> bool {
    |e: EpisodeRowView|
        e.space == space && e.source_id == Some(source_id) && e.occurrence_id == Some(
            occurrence_id,
        )
}

/// Whether an optional text is there and equals `t`.
pub(crate) fn is_text(o: &Option<String>, t: &str) -> (r: bool)
    ensures
        r == (o.deep_view() == Some(t@)),
{
    match o {
        Some(s) => str_eq(s.as_str(), t),
        None => false,
    }
}

/// Insert an episode via event identity.
///
/// With `attachment`, the identity is space, source and occurrence, and `id` is
/// the id that this identity has; without, the call is [`insert_episode`].
/// Idempotent: re-inserting the same occurrence with identical bytes is a
/// no-op. Same occurrence with different bytes is a conflict, and changes
/// nothing.
pub fn insert_event(
    db: &mut Tables,
    ep: &mut Episode,
    attachment: Option<&IngestAttachment>,
    id: String,
    hash: [u8; 32],
) -> (r: Result<(), BrainError>)
    requires
        seqs_fit(old(db).deep_view().episodes),
    ensures
        match attachment {
            None => r is Ok && final(ep).deep_view() == episode_after(
                old(db).deep_view(),
                old(ep).deep_view(),
                id@,
                hash@,
            ) && final(db).deep_view() == with_episode(
                old(db).deep_view(),
                old(ep).deep_view(),
                id@,
                hash@,
            ),
            Some(att) => event_inserted(
                old(db).deep_view(),
                final(db).deep_view(),
                old(ep).deep_view(),
                final(ep).deep_view(),
                att.deep_view(),
                id@,
                hash@,
                r,
            ),
        },
{
    let att = match attachment {
        None => {
            insert_episode(db, ep, id, hash);
            return Ok(());
        },
        Some(a) => a,
    };
    let found = find(
        &db.episodes,
        |e: &EpisodeRow| -> (b: bool)
            ensures
                b == is_event(ep.space@, att.source_id@, att.occurrence_id@)(e.deep_view())
            {
                str_eq(e.space.as_str(), ep.space.as_str()) && is_text(
                    &e.source_id,
                    att.source_id.as_str(),
                ) && is_text(&e.occurrence_id, att.occurrence_id.as_str())
            },
        Ghost(is_event(ep.space@, att.source_id@, att.occurrence_id@)),
    );
    match found {
        Some(i) => {
            assert(db.deep_view().episodes[i as int] == db.episodes[i as int].deep_view());
            if same_bytes(db.episodes[i].content_hash.as_slice(), hash.as_slice()) {
                ep.id = db.episodes[i].id.clone();
                ep.seq = db.episodes[i].seq as u64;
                ep.content_hash = hash;
                return Ok(());
            }
            Err(
                BrainError::Conflict(
                    cat3(
                        "occurrence '",
                        att.occurrence_id.as_str(),
                        "' already exists with different content",
                    ),
                ),
            )
        },
        None => {
            let seq: u64 = next_seq(db, ep.space.as_str());
            ep.id = id;
            ep.seq = seq;
            ep.content_hash = hash;
            let row = make_episode_row(ep, Some(att));
            let ghost added = row.deep_view();
            let ghost before = db.episodes.deep_view();
            db.episodes.push(row);
            assert(db.episodes.deep_view() =~= before.push(added));
            Ok(())
        },
    }
}

/// What [`insert_event`] does with an attachment: the tables and the episode
/// before and after it, and its result.
pub open spec fn event_inserted(
    db: TablesView,
    db2: TablesView,
    e: EpisodeView,
    e2: EpisodeView,
    att: IngestAttachmentView,
    id: Seq<char>,
    hash: Seq<u8>,
    r: Result<(), BrainError>,
) -> bool {
    match first_where(db.episodes, is_event(e.space, att.source_id, att.occurrence_id)) {
        Some(row) => {
            &&& db2 == db
            &&& if row.content_hash == hash {
                r is Ok && e2 == identified(e, row.id, hash, row.seq as u64)
            } else {
                e2 == e && fails_with(
                    r,
                    BrainErrorView::Conflict(
                        "occurrence '"@ + att.occurrence_id
                            + "' already exists with different content"@,
                    ),
                )
            }
        },
        None => {
            &&& r is Ok
            &&& e2 == identified(e, id, hash, (top_seq(db.episodes, e.space) + 1) as u64)
            &&& db2 == (TablesView {
                episodes: db.episodes.push(episode_row(e2, Some(att))),
                ..db
            })
        },
    }
}

/// Selects the episode with the given id.
pub open spec fn episode_has_id(id: Seq<char>) -> spec_fn(EpisodeRowView) -> bool {
    |e: EpisodeRowView| e.id == id
}

/// The text of an episode: what stands in line, or, where that is empty, what
/// was moved into the compacted column, as far as it is text.
pub open spec fn content_of(row: EpisodeRowView) -> Seq<char> {
    if row.content.len() == 0 {
        match row.content_compacted {
            Some(bytes) => if valid_utf8(bytes) {
                decode_utf8(bytes)
            } else {
                Seq::empty()
            },
            None => row.content,
        }
    } else {
        row.content
    }
}

/// The episode that a row stands for, or what is wrong with the row.
pub open spec fn episode_of(row: EpisodeRowView) -> Result<EpisodeView, BrainErrorView> {
    match source_of(row.source_kind, row.source_ref) {
        None => Err(BrainErrorView::Corruption("unknown source kind: "@ + row.source_kind)),
        Some(source) => match trust_of(row.trust) {
            None => Err(BrainErrorView::Corruption("bad trust tier: "@ + row.trust)),
            Some(trust) => match kind_of(row.kind) {
                None => Err(BrainErrorView::Corruption("bad episode kind: "@ + row.kind)),
                Some(kind) => Ok(
                    EpisodeView {
                        id: row.id,
                        space: row.space,
                        seq: row.seq as u64,
                        content_hash: hash_of(row.content_hash),
                        content: content_of(row),
                        source,
                        trust,
                        kind,
                        occurred_at: row.occurred_at,
                        ingested_at: row.ingested_at,
                        redacted_at: row.redacted_at,
                    },
                ),
            },
        },
    }
}

/// `String::from_utf8`: the text whose UTF-8 form the bytes are, or nothing
/// where they are the UTF-8 form of no text.
#[verifier::external_body]
fn utf8_text(bytes: Vec<u8>) -> (r: Option<String>)
    ensures
        r is Some <==> valid_utf8(bytes@),
        r matches Some(s) ==> s@ == decode_utf8(bytes@),
{
    String::from_utf8(bytes).ok()
}

pub(crate) fn read_content(row: &EpisodeRow) -> (r: String)
    ensures
        r@ == content_of(row.deep_view()),
{
    if row.content.as_str().is_empty() {
        match &row.content_compacted {
            Some(bytes) => match utf8_text(dup_bytes(bytes)) {
                Some(s) => s,
                None => String::new(),
            },
            None => row.content.clone(),
        }
    } else {
        row.content.clone()
    }
}

/// What is read of the episode with the given id, where there is one.
pub open spec fn episode_read(db: TablesView, id: Seq<char>) -> Option<
    Result<EpisodeView, BrainErrorView>,
> {
    match first_where(db.episodes, episode_has_id(id)) {
        None => None,
        Some(row) => Some(episode_of(row)),
    }
}

/// The episode with the given id, its compacted content restored.
pub fn get_episode(db: &Tables, id: &str) -> (r: Result<Option<Episode>, BrainError>)
    ensures
        match episode_read(db.deep_view(), id@) {
            None => r matches Ok(None),
            Some(Ok(e)) => r matches Ok(Some(got)) && got.deep_view() == e,
            Some(Err(e)) => fails_with(r, e),
        },
{
    let found = find(
        &db.episodes,
        |e: &EpisodeRow| -> (b: bool)
            ensures
                b == (e.deep_view().id == id@)
            { str_eq(e.id.as_str(), id) },
        Ghost(episode_has_id(id@)),
    );
    let i: usize = match found {
        None => return Ok(None),
        Some(i) => i,
    };
    let row = &db.episodes[i];
    assert(db.deep_view().episodes[i as int] == row.deep_view());
    let source = match decode_source(row.source_kind.as_str(), dup_text(&row.source_ref)) {
        Ok(s) => s,
        Err(e) => return Err(e),
    };
    let trust = match TrustTier::parse_db(row.trust.as_str()) {
        Some(t) => t,
        None => {
            return Err(BrainError::Corruption(cat2("bad trust tier: ", row.trust.as_str())));
        },
    };
    let kind = match EpisodeKind::parse_db(row.kind.as_str()) {
        Some(k) => k,
        None => {
            return Err(BrainError::Corruption(cat2("bad episode kind: ", row.kind.as_str())));
        },
    };
    Ok(
        Some(
            Episode {
                id: row.id.clone(),
                space: row.space.clone(),
                seq: row.seq as u64,
                content_hash: read_hash(&row.content_hash),
                content: read_content(row),
                source,
                trust,
                kind,
                occurred_at: row.occurred_at,
                ingested_at: row.ingested_at,
                redacted_at: row.redacted_at,
            },
        ),
    )
}

/// An episode that was taken in reads back as it was taken in, with the
/// identity and the sequence number that it got.
pub proof fn law_episode_reads_back(e: EpisodeView, att: Option<IngestAttachmentView>)
    requires
        e.seq <= i64::MAX,
        e.content_hash.len() == 32,
    ensures
        episode_of(episode_row(e, att)) == Ok::<EpisodeView, BrainErrorView>(e),
{
    law_stored_names_read_back(e.source, e.kind, e.trust);
}

/// Count episodes in the store.
pub fn episode_count(db: &Tables) -> (r: usize)
    ensures
        r == db.deep_view().episodes.len(),
{
    db.episodes.len()
}

/// Selects the live note episodes of a space that name a path.
pub open spec fn is_live_note(space: Seq<char>) -> spec_fn(EpisodeRowView) -> bool {
    |e: EpisodeRowView|
        e.space == space && e.source_kind == "note"@ && e.source_ref is Some
            && e.redacted_at is None
}

/// The path that a row names, or the empty text.
pub open spec fn path_of() -> spec_fn(EpisodeRowView) -> Seq<char> {
    |e: EpisodeRowView|
        match e.source_ref {
            Some(s) => s,
            None => Seq::empty(),
        }
}

/// The content hash of a row.
pub open spec fn row_hash() -> spec_fn(EpisodeRowView) -> Seq<u8> {
    |e: EpisodeRowView| hash_of(e.content_hash)
}

/// Selects, among the live notes of a space, those that name one path.
pub open spec fn is_note_at(space: Seq<char>, path: Seq<char>) -> spec_fn(EpisodeRowView) -> bool {
    |e: EpisodeRowView|
        e.space == space && e.source_kind == "note"@ && e.source_ref == Some(path)
            && e.redacted_at is None
}

/// The content hashes of the live notes at one path.
pub open spec fn hashes_at(db: TablesView, space: Seq<char>, path: Seq<char>) -> PathHashesView {
    PathHashesView {
        path,
        hashes: distinct(db.episodes.filter(is_note_at(space, path)).map_values(row_hash())),
    }
}

/// Note episodes' content hashes grouped by source path, each path once in the
/// order of first appearance, each of its hashes once. Redacted episodes are
/// left out, so a redacted path has no live episode.
pub fn note_hashes_by_path(db: &Tables, space: &str) -> (r: Vec<PathHashes>)
    ensures
        r.deep_view() == distinct(
            db.deep_view().episodes.filter(is_live_note(space@)).map_values(path_of()),
        ).map_values(|path: Seq<char>| hashes_at(db.deep_view(), space@, path)),
{
    let ghost view = db.deep_view();
    let ghost entry = |path: Seq<char>| hashes_at(view, space@, path);
    let all = pick(
        &db.episodes,
        |e: &EpisodeRow| -> (b: bool)
            ensures
                b == is_live_note(space@)(e.deep_view())
            {
                str_eq(e.space.as_str(), space) && str_eq(e.source_kind.as_str(), "note")
                    && e.source_ref.is_some() && e.redacted_at.is_none()
            },
        |e: &EpisodeRow| -> (s: String)
            ensures
                s.deep_view() == path_of()(e.deep_view())
            {
                match &e.source_ref {
                    Some(s) => s.clone(),
                    None => String::new(),
                }
            },
        Ghost(is_live_note(space@)),
        Ghost(path_of()),
    );
    let paths = dedupe(
        all,
        |x: &String, y: &String| -> (b: bool)
            ensures
                b == (x.deep_view() == y.deep_view())
            { str_eq(x.as_str(), y.as_str()) },
    );
    let mut out: Vec<PathHashes> = Vec::new();
    let mut i: usize = 0;
    assert(out.deep_view() =~= paths.deep_view().take(0).map_values(entry));
    while i < paths.len()
        invariant
            i <= paths.len(),
            view == db.deep_view(),
            entry == (|path: Seq<char>| hashes_at(view, space@, path)),
            out.deep_view() == paths.deep_view().take(i as int).map_values(entry),
        decreases paths.len() - i,
    {
        let ghost before = out.deep_view();
        let path = &paths[i];
        let hashes = pick(
            &db.episodes,
            |e: &EpisodeRow| -> (b: bool)
                ensures
                    b == is_note_at(space@, path@)(e.deep_view())
                {
                    str_eq(e.space.as_str(), space) && str_eq(e.source_kind.as_str(), "note")
                        && is_text(&e.source_ref, path.as_str()) && e.redacted_at.is_none()
                },
            |e: &EpisodeRow| -> (h: Hash32)
                ensures
                    h.deep_view() == row_hash()(e.deep_view())
                { Hash32(read_hash(&e.content_hash)) },
            Ghost(is_note_at(space@, path@)),
            Ghost(row_hash()),
        );
        let hashes = dedupe(
            hashes,
            |x: &Hash32, y: &Hash32| -> (b: bool)
                ensures
                    b == (x.deep_view() == y.deep_view())
                { same_bytes(x.0.as_slice(), y.0.as_slice()) },
        );
        out.push(PathHashes { path: path.clone(), hashes });
        proof {
            let p = paths.deep_view()[i as int];
            assert(out.deep_view() =~= before.push(entry(p)));
            assert(paths.deep_view().take(i + 1) =~= paths.deep_view().take(i as int).push(p));
            assert(paths.deep_view().take(i + 1).map_values(entry) =~= paths.deep_view().take(
                i as int,
            ).map_values(entry).push(entry(p)));
        }
        i = i + 1;
    }
    assert(paths.deep_view().take(i as int) =~= paths.deep_view());
    out
}

/// A 32-byte content hash.
#[derive(Debug, Clone, Copy)]
pub struct Hash32(pub [u8; 32]);

impl DeepView for Hash32 {
    type V = Seq<u8>;

    open spec fn deep_view(&self) -> Seq<u8> {
        self.0@
    }
}

/// A path and the content hashes of its live notes.
#[derive(Debug)]
pub struct PathHashes {
    pub path: String,
    pub hashes: Vec<Hash32>,
}

/// [`PathHashes`] as a mathematical value.
#[verifier::ext_equal]
pub struct PathHashesView {
    pub path: Seq<char>,
    pub hashes: Seq<Seq<u8>>,
}

impl DeepView for PathHashes {
    type V = PathHashesView;

    open spec fn deep_view(&self) -> PathHashesView {
        PathHashesView { path: self.path@, hashes: self.hashes.deep_view() }
    }
}

/// Selects the live episodes that a source put into a space.
pub open spec fn is_from_source(
    space: Seq<char>,
    source_id: Seq<char>,
) -> spec_fn(EpisodeRowView) -> bool {
    |e: EpisodeRowView|
        e.space == space && e.source_id == Some(source_id) && e.redacted_at is None
}

/// The order of episodes: by sequence number.
pub open spec fn by_seq() -> spec_fn(EpisodeRowView, EpisodeRowView) -> bool {
    |a: EpisodeRowView, b: EpisodeRowView| a.seq <= b.seq
}

/// The live episodes of a source in a space, oldest first.
pub open spec fn source_history(
    db: TablesView,
    space: Seq<char>,
    source_id: Seq<char>,
) -> Seq<EpisodeRowView> {
    ordered(db.episodes.filter(is_from_source(space, source_id)), by_seq())
}

/// The state that a row leaves its locator in.
pub open spec fn locator_state(e: EpisodeRowView) -> LocatorStateView {
    LocatorStateView {
        locator: path_of()(e),
        latest_occurrence_id: match e.occurrence_id {
            Some(s) => s,
            None => Seq::empty(),
        },
        latest_content_hash: hash_of(e.content_hash),
    }
}

/// The states of the locators once the rows were walked in order: a later row
/// takes the place of an earlier one of the same locator.
pub open spec fn locator_table(rows: Seq<EpisodeRowView>) -> Seq<LocatorStateView>
    decreases rows.len(),
{
    if rows.len() == 0 {
        Seq::empty()
    } else {
        put_locator(locator_table(rows.drop_last()), locator_state(rows.last()))
    }
}

/// A table of locator states with one state put in.
pub open spec fn put_locator(
    table: Seq<LocatorStateView>,
    s: LocatorStateView,
) -> Seq<LocatorStateView> {
    if some_where(table, at_locator(s.locator)) {
        updated(table, at_locator(s.locator), |old: LocatorStateView| s)
    } else {
        table.push(s)
    }
}

/// Selects the state of a locator.
pub open spec fn at_locator(locator: Seq<char>) -> spec_fn(LocatorStateView) -> bool {
    |s: LocatorStateView| s.locator == locator
}

/// Whether every row of a source names its locator and its occurrence.
pub open spec fn fully_named(rows: Seq<EpisodeRowView>) -> bool {
    forall|i: int|
        0 <= i < rows.len() ==> (#[trigger] rows[i]).source_ref is Some
            && rows[i].occurrence_id is Some
}

/// Latest event-path episode state per locator for a source: the state that the
/// episode with the highest sequence number left. Redacted episodes are left
/// out. A row that names no locator or no occurrence cannot be read.
pub fn locator_states(db: &Tables, space: &str, source_id: &str) -> (r: Result<
    Vec<LocatorState>,
    BrainError,
>)
    ensures
        ({
            let rows = source_history(db.deep_view(), space@, source_id@);
            if fully_named(rows) {
                r is Ok && r->Ok_0.deep_view() == locator_table(rows)
            } else {
                fails_with(r, BrainErrorView::Storage(unnamed(rows)))
            }
        }),
{
    let rows = order(
        select(
            &db.episodes,
            |e: &EpisodeRow| -> (b: bool)
                ensures
                    b == is_from_source(space@, source_id@)(e.deep_view())
                {
                    str_eq(e.space.as_str(), space) && is_text(&e.source_id, source_id)
                        && e.redacted_at.is_none()
                },
            Ghost(is_from_source(space@, source_id@)),
        ),
        |a: &EpisodeRow, b: &EpisodeRow| -> (le: bool)
            ensures
                le == by_seq()(a.deep_view(), b.deep_view())
            { a.seq <= b.seq },
        Ghost(by_seq()),
    );
    let ghost all = rows.deep_view();
    let mut out: Vec<LocatorState> = Vec::new();
    let mut i: usize = 0;
    assert(out.deep_view() =~= locator_table(all.take(0)));
    while i < rows.len()
        invariant
            i <= rows.len(),
            all == rows.deep_view(),
            all == source_history(db.deep_view(), space@, source_id@),
            fully_named(all.take(i as int)),
            out.deep_view() == locator_table(all.take(i as int)),
        decreases rows.len() - i,
    {
        let row = &rows[i];
        proof {
            assert(all[i as int] == row.deep_view());
            assert(all.take(i + 1).drop_last() =~= all.take(i as int));
            assert(all.take(i + 1).last() == all[i as int]);
        }
        if row.source_ref.is_none() || row.occurrence_id.is_none() {
            let missing = if row.source_ref.is_none() {
                "Invalid column type Null at index: 0, name: source_ref"
            } else {
                "Invalid column type Null at index: 1, name: occurrence_id"
            };
            proof {
                lemma_unnamed(all, i as int);
            }
            return Err(BrainError::Storage(missing.to_owned()));
        }
        let state = LocatorState {
            locator: match &row.source_ref {
                Some(s) => s.clone(),
                None => String::new(),
            },
            latest_occurrence_id: match &row.occurrence_id {
                Some(s) => s.clone(),
                None => String::new(),
            },
            latest_content_hash: Hash32(read_hash(&row.content_hash)),
        };
        proof {
            assert(state.deep_view() == locator_state(all[i as int]));
            assert forall|k: int| 0 <= k < i + 1 implies (#[trigger] all.take(
                i + 1,
            )[k]).source_ref is Some && all.take(i + 1)[k].occurrence_id is Some by {
                if k < i {
                    assert(all.take(i as int)[k] == all[k]);
                }
            }
        }
        put_state(&mut out, state);
        i = i + 1;
    }
    assert(all.take(i as int) =~= all);
    Ok(out)
}

/// What is said of the first row that names no locator or no occurrence.
pub open spec fn unnamed(rows: Seq<EpisodeRowView>) -> Seq<char> {
    match first_where(rows, |e: EpisodeRowView| e.source_ref is None || e.occurrence_id is None) {
        Some(e) => if e.source_ref is None {
            "Invalid column type Null at index: 0, name: source_ref"@
        } else {
            "Invalid column type Null at index: 1, name: occurrence_id"@
        },
        None => Seq::empty(),
    }
}

proof fn lemma_unnamed(rows: Seq<EpisodeRowView>, i: int)
    requires
        0 <= i < rows.len(),
        fully_named(rows.take(i)),
        rows[i].source_ref is None || rows[i].occurrence_id is None,
    ensures
        !fully_named(rows),
        unnamed(rows) == if rows[i].source_ref is None {
            "Invalid column type Null at index: 0, name: source_ref"@
        } else {
            "Invalid column type Null at index: 1, name: occurrence_id"@
        },
{
    let p = |e: EpisodeRowView| e.source_ref is None || e.occurrence_id is None;
    assert forall|j: int| 0 <= j < i implies !p(#[trigger] rows[j]) by {
        assert(rows.take(i)[j] == rows[j]);
    }
    crate::rows::lemma_first_where(rows, p, i);
}

fn put_state(table: &mut Vec<LocatorState>, state: LocatorState)
    ensures
        final(table).deep_view() == put_locator(old(table).deep_view(), state.deep_view()),
{
    let ghost s = state.deep_view();
    let found = find(
        table,
        |x: &LocatorState| -> (b: bool)
            ensures
                b == at_locator(s.locator)(x.deep_view())
            { str_eq(x.locator.as_str(), state.locator.as_str()) },
        Ghost(at_locator(s.locator)),
    );
    if found.is_some() {
        let _n: usize = update(
            table,
            |x: &LocatorState| -> (b: bool)
                ensures
                    b == at_locator(s.locator)(x.deep_view())
                { str_eq(x.locator.as_str(), state.locator.as_str()) },
            |x: &LocatorState| -> (y: LocatorState)
                ensures
                    y.deep_view() == s
                {
                    LocatorState {
                        locator: state.locator.clone(),
                        latest_occurrence_id: state.latest_occurrence_id.clone(),
                        latest_content_hash: state.latest_content_hash,
                    }
                },
            Ghost(at_locator(s.locator)),
            Ghost(|old: LocatorStateView| s),
        );
    } else {
        let ghost before = table.deep_view();
        table.push(state);
        assert(table.deep_view() =~= before.push(s));
    }
}

/// The latest state of one locator of a source.
#[derive(Debug)]
pub struct LocatorState {
    pub locator: String,
    pub latest_occurrence_id: String,
    pub latest_content_hash: Hash32,
}

/// [`LocatorState`] as a mathematical value.
#[verifier::ext_equal]
pub struct LocatorStateView {
    pub locator: Seq<char>,
    pub latest_occurrence_id: Seq<char>,
    pub latest_content_hash: Seq<u8>,
}

impl DeepView for LocatorState {
    type V = LocatorStateView;

    open spec fn deep_view(&self) -> LocatorStateView {
        LocatorStateView {
            locator: self.locator@,
            latest_occurrence_id: self.latest_occurrence_id@,
            latest_content_hash: self.latest_content_hash.deep_view(),
        }
    }
}

/// Selects the source with the given id.
pub open spec fn source_has_id(id: Seq<char>) -> spec_fn(SourceRowView) -> bool {
    |s: SourceRowView| s.id == id
}

/// Insert a source (idempotent: same id, no change).
pub fn insert_source(db: &mut Tables, row: &SourceRow)
    ensures
        final(db).deep_view() == if some_where(
            old(db).deep_view().sources,
            source_has_id(row.id@),
        ) {
            old(db).deep_view()
        } else {
            TablesView {
                sources: old(db).deep_view().sources.push(row.deep_view()),
                ..old(db).deep_view()
            }
        },
{
    let found = find(
        &db.sources,
        |s: &SourceRow| -> (b: bool)
            ensures
                b == source_has_id(row.id@)(s.deep_view())
            { str_eq(s.id.as_str(), row.id.as_str()) },
        Ghost(source_has_id(row.id@)),
    );
    if found.is_none() {
        let ghost before = db.sources.deep_view();
        db.sources.push(row.dup());
        assert(db.sources.deep_view() =~= before.push(row.deep_view()));
    }
}

/// Selects the source of the given name in a space.
pub open spec fn is_source_named(
    space: Seq<char>,
    name: Seq<char>,
) -> spec_fn(SourceRowView) -> bool {
    |s: SourceRowView| s.space == space && s.name == name
}

/// Look up a source by space and name.
pub fn get_source_by_name(db: &Tables, space: &str, name: &str) -> (r: Option<SourceRow>)
    ensures
        r.deep_view() == first_where(db.deep_view().sources, is_source_named(space@, name@)),
{
    match find(
        &db.sources,
        |s: &SourceRow| -> (b: bool)
            ensures
                b == is_source_named(space@, name@)(s.deep_view())
            { str_eq(s.space.as_str(), space) && str_eq(s.name.as_str(), name) },
        Ghost(is_source_named(space@, name@)),
    ) {
        Some(i) => {
            assert(db.deep_view().sources[i as int] == db.sources[i as int].deep_view());
            Some(db.sources[i].dup())
        },
        None => None,
    }
}

/// Selects the sources of a space.
pub open spec fn source_in(space: Seq<char>) -> spec_fn(SourceRowView) -> bool {
    |s: SourceRowView| s.space == space
}

/// The order of sources: by name.
pub open spec fn by_source_name() -> spec_fn(SourceRowView, SourceRowView) -> bool {
    |a: SourceRowView, b: SourceRowView| text_le(a.name, b.name)
}

/// List all sources in a space, by name.
pub fn list_sources(db: &Tables, space: &str) -> (r: Vec<SourceRow>)
    ensures
        r.deep_view() == ordered(
            db.deep_view().sources.filter(source_in(space@)),
            by_source_name(),
        ),
{
    order(
        select(
            &db.sources,
            |s: &SourceRow| -> (b: bool)
                ensures
                    b == source_in(space@)(s.deep_view())
                { str_eq(s.space.as_str(), space) },
            Ghost(source_in(space@)),
        ),
        |a: &SourceRow, b: &SourceRow| -> (le: bool)
            ensures
                le == by_source_name()(a.deep_view(), b.deep_view())
            { str_le(a.name.as_str(), b.name.as_str()) },
        Ghost(by_source_name()),
    )
}

/// Selects the policy with the given id.
pub open spec fn policy_has_id(id: Seq<char>) -> spec_fn(PolicyRowView) -> bool {
    |p: PolicyRowView| p.id == id
}

/// Insert a policy (idempotent: same id, no change).
pub fn insert_policy(db: &mut Tables, row: &PolicyRow)
    ensures
        final(db).deep_view() == if some_where(
            old(db).deep_view().policies,
            policy_has_id(row.id@),
        ) {
            old(db).deep_view()
        } else {
            TablesView {
                policies: old(db).deep_view().policies.push(row.deep_view()),
                ..old(db).deep_view()
            }
        },
{
    let found = find(
        &db.policies,
        |p: &PolicyRow| -> (b: bool)
            ensures
                b == policy_has_id(row.id@)(p.deep_view())
            { str_eq(p.id.as_str(), row.id.as_str()) },
        Ghost(policy_has_id(row.id@)),
    );
    if found.is_none() {
        let ghost before = db.policies.deep_view();
        db.policies.push(row.dup());
        assert(db.policies.deep_view() =~= before.push(row.deep_view()));
    }
}

/// Selects the policies of a source that cover an instant.
pub open spec fn covers(source_id: Seq<char>, at: Timestamp) -> spec_fn(PolicyRowView) -> bool {
    |p: PolicyRowView|
        p.source_id == source_id && p.effective_from.0 <= at.0 && match p.effective_to {
            Some(end) => end.0 > at.0,
            None => true,
        }
}

/// The order of policies: the latest start first.
pub open spec fn by_latest_start() -> spec_fn(PolicyRowView, PolicyRowView) -> bool {
    |a: PolicyRowView, b: PolicyRowView| a.effective_from.0 >= b.effective_from.0
}

/// Effective trust for a source at a given time: that of the latest policy
/// whose interval contains `at`. None if no policy covers the instant.
pub fn effective_policy_trust(db: &Tables, source_id: &str, at: Timestamp) -> (r: Option<TrustTier>)
    ensures
        ({
            let covering = ordered(
                db.deep_view().policies.filter(covers(source_id@, at)),
                by_latest_start(),
            );
            r == if covering.len() > 0 {
                Some(covering[0].trust)
            } else {
                None
            }
        }),
{
    let covering = order(
        select(
            &db.policies,
            |p: &PolicyRow| -> (b: bool)
                ensures
                    b == covers(source_id@, at)(p.deep_view())
                {
                    str_eq(p.source_id.as_str(), source_id) && p.effective_from.0 <= at.0
                        && match p.effective_to {
                        Some(end) => end.0 > at.0,
                        None => true,
                    }
                },
            Ghost(covers(source_id@, at)),
        ),
        |a: &PolicyRow, b: &PolicyRow| -> (le: bool)
            ensures
                le == by_latest_start()(a.deep_view(), b.deep_view())
            { a.effective_from.0 >= b.effective_from.0 },
        Ghost(by_latest_start()),
    );
    assert(covering.deep_view().len() == covering.len());
    if covering.len() > 0 {
        assert(covering.deep_view()[0] == covering[0].deep_view());
        Some(covering[0].trust)
    } else {
        None
    }
}

/// The policy that decides is a covering one, and none that covers the instant
/// starts later.
pub proof fn law_latest_policy_decides(
    policies: Seq<PolicyRowView>,
    source_id: Seq<char>,
    at: Timestamp,
    i: int,
)
    requires
        0 <= i < policies.len(),
        covers(source_id, at)(policies[i]),
    ensures
        ({
            let covering = ordered(policies.filter(covers(source_id, at)), by_latest_start());
            &&& covering.len() > 0
            &&& covers(source_id, at)(covering[0])
            &&& policies.contains(covering[0])
            &&& policies[i].effective_from.0 <= covering[0].effective_from.0
        }),
{
    let p = covers(source_id, at);
    let kept = policies.filter(p);
    let leq = by_latest_start();
    let covering = ordered(kept, leq);
    crate::rows::lemma_ordered_in_order(kept, leq);
    crate::rows::lemma_ordered_same_rows(kept, leq);
    policies.lemma_filter_contains(p, i);
    vstd::seq_lib::to_multiset_contains(kept, policies[i]);
    vstd::seq_lib::to_multiset_contains(covering, policies[i]);
    assert(covering.contains(policies[i]));
    let k = choose|k: int| 0 <= k < covering.len() && covering[k] == policies[i];
    assert(covering.contains(covering[0]));
    vstd::seq_lib::to_multiset_contains(covering, covering[0]);
    vstd::seq_lib::to_multiset_contains(kept, covering[0]);
    assert(kept.contains(covering[0]));
    policies.lemma_filter_contains_rev(p, covering[0]);
    let m = choose|m: int| 0 <= m < kept.len() && kept[m] == covering[0];
    policies.lemma_filter_pred(p, m);
    if k > 0 {
        assert(leq(covering[0], covering[k]));
    }
}

/// Creating a space again changes nothing, and every space that is there stays.
pub proof fn law_space_creation_is_idempotent(
    db: TablesView,
    id: Seq<char>,
    name: Seq<char>,
    now: Timestamp,
    later: Timestamp,
)
    ensures
        with_space(with_space(db, id, name, now), id, name, later) == with_space(
            db,
            id,
            name,
            now,
        ),
        db.spaces.is_prefix_of(with_space(db, id, name, now).spaces),
{
    if !some_where(db.spaces, space_has_id(id)) {
        let added = SpaceEntryView { id, name, created_at: now.0 };
        assert(db.spaces.push(added)[db.spaces.len() as int] == added);
    }
}

/// Inserting an episode only ever adds to the ledger: every episode that is there
/// stays as it is, in its place.
pub proof fn law_ledger_only_grows(db: TablesView, e: EpisodeView, id: Seq<char>, hash: Seq<u8>)
    ensures
        db.episodes.is_prefix_of(with_episode(db, e, id, hash).episodes),
        with_episode(db, e, id, hash).episodes.len() <= db.episodes.len() + 1,
{
}

} // verus!
