//! Consolidation: clusters of related episodes and communities of entities,
//! their summaries, and the checkpoints of the work.
use vstd::prelude::*;
use vstd::utf8::encode_utf8;

use crate::communities::sorted_texts;
use crate::digest::{blake3_digest, blake3_hash, blake3_stream, blake3_xof, hex_encode, hex_text};
use crate::documents::push_bytes;
use crate::ledger::{
    episode_after, episode_has_id, insert_episode, seqs_fit, with_episode, Episode, EpisodeKind,
    EpisodeView, SourceRef, SourceRefView,
};
use crate::redaction::unique_texts;
use crate::rows::{
    count, distinct, find, first_where, holds, in_order, insert_or_ignore, insert_or_replace,
    is_order, or_ignore, or_replace, order, ordered, pick, same_bytes, select, some_where, update,
    updated, Row,
};
use crate::security::dup_texts;
use crate::tables::{
    Assertion, AssertionView, CheckpointRow, CheckpointRowView, CommunityRow, CommunityRowView,
    EpisodeLink, EpisodeLinkView, EpisodeRow, EpisodeRowView, Object, ObjectView, Statement,
    StatementView, SummaryRow, SummaryRowView, Tables, TablesView, TrustTier,
};
use crate::text::{by_text, str_eq, str_le, text_le};
use crate::time::Timestamp;

verus! {

/// A cluster of related episodes.
#[derive(Debug)]
pub struct EpisodeCluster {
    pub episode_ids: Vec<String>,
    pub shared_entities: Vec<String>,
}

/// [`EpisodeCluster`] as a mathematical value.
#[verifier::ext_equal]
pub struct EpisodeClusterView {
    pub episode_ids: Seq<Seq<char>>,
    pub shared_entities: Seq<Seq<char>>,
}

impl DeepView for EpisodeCluster {
    type V = EpisodeClusterView;

    open spec fn deep_view(&self) -> EpisodeClusterView {
        EpisodeClusterView {
            episode_ids: self.episode_ids.deep_view(),
            shared_entities: self.shared_entities.deep_view(),
        }
    }
}

impl Row for EpisodeCluster {
    fn dup(&self) -> (r: Self) {
        EpisodeCluster {
            episode_ids: dup_texts(&self.episode_ids),
            shared_entities: dup_texts(&self.shared_entities),
        }
    }
}

impl Clone for EpisodeCluster {
    fn clone(&self) -> (r: Self)
        ensures
            r.deep_view() == self.deep_view(),
    {
        self.dup()
    }
}

/// A community group for summarization.
#[derive(Debug)]
pub struct CommunityGroup {
    pub label: u64,
    pub entity_ids: Vec<String>,
}

/// [`CommunityGroup`] as a mathematical value.
#[verifier::ext_equal]
pub struct CommunityGroupView {
    pub label: u64,
    pub entity_ids: Seq<Seq<char>>,
}

impl DeepView for CommunityGroup {
    type V = CommunityGroupView;

    open spec fn deep_view(&self) -> CommunityGroupView {
        CommunityGroupView {
            label: self.label,
            entity_ids: self.entity_ids.deep_view(),
        }
    }
}

impl Row for CommunityGroup {
    fn dup(&self) -> (r: Self) {
        CommunityGroup {
            label: self.label,
            entity_ids: dup_texts(&self.entity_ids),
        }
    }
}

impl Clone for CommunityGroup {
    fn clone(&self) -> (r: Self)
        ensures
            r.deep_view() == self.deep_view(),
    {
        self.dup()
    }
}

/// Selects a cached summary.
pub open spec fn is_summary(
    scope: Seq<char>,
    hash: Seq<u8>,
    extractor: Seq<char>,
) -> spec_fn(SummaryRowView) -> bool {
    |s: SummaryRowView|
        s.scope_kind == scope && s.member_set_hash == hash && s.extractor_id == extractor
}

/// The cached summary for a scope, a member set and an extractor.
pub open spec fn summary_of(
    summaries: Seq<SummaryRowView>,
    scope: Seq<char>,
    hash: Seq<u8>,
    extractor: Seq<char>,
) -> Option<Seq<char>> {
    match first_where(summaries, is_summary(scope, hash, extractor)) {
        Some(s) => Some(s.text),
        None => None,
    }
}

/// Check the summaries cache for a given scope + member set + extractor.
pub fn get_cached_summary(
    db: &Tables,
    scope_kind: &str,
    member_hash: &[u8],
    extractor_id: &str,
) -> (r: Option<String>)
    ensures
        r.deep_view() == summary_of(
            db.deep_view().summaries,
            scope_kind@,
            member_hash@,
            extractor_id@,
        ),
{
    match find(
        &db.summaries,
        |s: &SummaryRow| -> (b: bool)
            ensures
                b == is_summary(scope_kind@, member_hash@, extractor_id@)(s.deep_view())
            {
                str_eq(s.scope_kind.as_str(), scope_kind) && same_bytes(
                    s.member_set_hash.as_slice(),
                    member_hash,
                ) && str_eq(s.extractor_id.as_str(), extractor_id)
            },
        Ghost(is_summary(scope_kind@, member_hash@, extractor_id@)),
    ) {
        Some(i) => {
            assert(db.deep_view().summaries[i as int] == db.summaries[i as int].deep_view());
            Some(db.summaries[i].text.clone())
        },
        None => None,
    }
}

/// The summaries with one cached in the place of the old one.
pub open spec fn with_summary(summaries: Seq<SummaryRowView>, row: SummaryRowView) -> Seq<
    SummaryRowView,
> {
    or_replace(
        summaries,
        is_summary(row.scope_kind, row.member_set_hash, row.extractor_id),
        row,
    )
}

/// Cache a summary text.
pub fn cache_summary(
    db: &mut Tables,
    scope_kind: &str,
    member_hash: &[u8],
    extractor_id: &str,
    text: &str,
    now: Timestamp,
)
    ensures
        final(db).deep_view() == (TablesView {
            summaries: with_summary(
                old(db).deep_view().summaries,
                SummaryRowView {
                    scope_kind: scope_kind@,
                    member_set_hash: member_hash@,
                    extractor_id: extractor_id@,
                    text: text@,
                    created_at: now,
                },
            ),
            ..old(db).deep_view()
        }),
{
    let mut hash: Vec<u8> = Vec::new();
    push_bytes(&mut hash, member_hash);
    assert(hash@ =~= member_hash@);
    let row = SummaryRow {
        scope_kind: scope_kind.to_owned(),
        member_set_hash: hash,
        extractor_id: extractor_id.to_owned(),
        text: text.to_owned(),
        created_at: now,
    };
    insert_or_replace(
        &mut db.summaries,
        row,
        |s: &SummaryRow| -> (b: bool)
            ensures
                b == is_summary(scope_kind@, member_hash@, extractor_id@)(s.deep_view())
            {
                str_eq(s.scope_kind.as_str(), scope_kind) && same_bytes(
                    s.member_set_hash.as_slice(),
                    member_hash,
                ) && str_eq(s.extractor_id.as_str(), extractor_id)
            },
        Ghost(is_summary(scope_kind@, member_hash@, extractor_id@)),
    );
}

/// A summary that was cached is what the cache gives back.
pub proof fn law_summary_reads_back(summaries: Seq<SummaryRowView>, row: SummaryRowView)
    ensures
        summary_of(
            with_summary(summaries, row),
            row.scope_kind,
            row.member_set_hash,
            row.extractor_id,
        ) == Some(row.text),
{
    let p = is_summary(row.scope_kind, row.member_set_hash, row.extractor_id);
    let q = |s: SummaryRowView| !p(s);
    let kept = summaries.filter(q);
    let after = with_summary(summaries, row);
    assert forall|j: int| 0 <= j < kept.len() implies !p(#[trigger] after[j]) by {
        summaries.lemma_filter_pred(q, j);
    }
    crate::rows::lemma_first_where(after, p, kept.len() as int);
}

/// A derived episode, before it has its identity. `of` is the JSON text of the
/// list of its sources.
pub open spec fn derived_episode(
    space: Seq<char>,
    text: Seq<char>,
    of: Seq<char>,
    now: Timestamp,
) -> EpisodeView {
    EpisodeView {
        id: Seq::empty(),
        space,
        seq: 0,
        content_hash: Seq::new(32, |i: int| 0u8),
        content: text,
        source: SourceRefView::Derived { of },
        trust: TrustTier::Trusted,
        kind: EpisodeKind::Derived,
        occurred_at: now,
        ingested_at: now,
        redacted_at: None,
    }
}

/// An episode with its uncertainty on record.
pub open spec fn with_uncertainty(json: Seq<char>) -> spec_fn(EpisodeRowView) -> EpisodeRowView {
    |e: EpisodeRowView| EpisodeRowView { uncertainty_json: Some(json), ..e }
}

/// Selects a link between episodes.
pub open spec fn is_link(l: EpisodeLinkView) -> spec_fn(EpisodeLinkView) -> bool {
    |x: EpisodeLinkView| x == l
}

/// The links with those from an episode to its sources.
pub open spec fn linked(
    links: Seq<EpisodeLinkView>,
    from: Seq<char>,
    sources: Seq<Seq<char>>,
) -> Seq<EpisodeLinkView>
    decreases sources.len(),
{
    if sources.len() == 0 {
        links
    } else {
        let l = EpisodeLinkView {
            from_episode: from,
            to_episode: sources.last(),
            rel: "summarizes"@,
        };
        or_ignore(linked(links, from, sources.drop_last()), is_link(l), l)
    }
}

/// Write a derived episode under its id and content hash, with its uncertainty
/// where one is given, and link it to its sources. Returns the id.
pub fn write_derived_episode(
    db: &mut Tables,
    space: &str,
    text: &str,
    sources: &Vec<String>,
    of: String,
    uncertainty_json: Option<String>,
    now: Timestamp,
    id: String,
    hash: [u8; 32],
) -> (r: String)
    requires
        seqs_fit(old(db).deep_view().episodes),
    ensures
        r@ == episode_after(
            old(db).deep_view(),
            derived_episode(space@, text@, of@, now),
            id@,
            hash@,
        ).id,
        ({
            let written = with_episode(
                old(db).deep_view(),
                derived_episode(space@, text@, of@, now),
                id@,
                hash@,
            );
            final(db).deep_view() == (TablesView {
                episodes: match uncertainty_json {
                    Some(json) => updated(
                        written.episodes,
                        episode_has_id(r@),
                        with_uncertainty(json@),
                    ),
                    None => written.episodes,
                },
                links: linked(written.links, r@, sources.deep_view()),
                ..written
            })
        }),
{
    let zero: [u8; 32] = [0u8; 32];
    assert(zero@ =~= Seq::new(32, |i: int| 0u8));
    let mut episode = Episode {
        id: String::new(),
        space: space.to_owned(),
        seq: 0,
        content_hash: zero,
        content: text.to_owned(),
        source: SourceRef::Derived { of },
        trust: TrustTier::Trusted,
        kind: EpisodeKind::Derived,
        occurred_at: now,
        ingested_at: now,
        redacted_at: None,
    };
    insert_episode(db, &mut episode, id, hash);
    let id = episode.id;
    let ghost written = db.deep_view();
    match &uncertainty_json {
        Some(json) => {
            let _n: usize = update(
                &mut db.episodes,
                |e: &EpisodeRow| -> (b: bool)
                    ensures
                        b == episode_has_id(id@)(e.deep_view())
                    { str_eq(e.id.as_str(), id.as_str()) },
                |e: &EpisodeRow| -> (y: EpisodeRow)
                    ensures
                        y.deep_view() == with_uncertainty(json@)(e.deep_view())
                    {
                        let mut y = e.dup();
                        y.uncertainty_json = Some(json.clone());
                        y
                    },
                Ghost(episode_has_id(id@)),
                Ghost(with_uncertainty(json@)),
            );
        },
        None => {},
    }
    let ghost noted = db.deep_view();
    let ghost all = sources.deep_view();
    let mut i: usize = 0;
    assert(all.take(0) =~= Seq::empty());
    while i < sources.len()
        invariant
            i <= sources.len(),
            all == sources.deep_view(),
            db.deep_view() == (TablesView {
                links: linked(noted.links, id@, all.take(i as int)),
                ..noted
            }),
        decreases sources.len() - i,
    {
        let ghost l = EpisodeLinkView {
            from_episode: id@,
            to_episode: all[i as int],
            rel: "summarizes"@,
        };
        proof {
            assert(all.take(i + 1).drop_last() =~= all.take(i as int));
            assert(all.take(i + 1).last() == all[i as int]);
        }
        let _new: bool = insert_or_ignore(
            &mut db.links,
            EpisodeLink {
                from_episode: id.clone(),
                to_episode: sources[i].clone(),
                rel: "summarizes".to_owned(),
            },
            |x: &EpisodeLink| -> (b: bool)
                ensures
                    b == is_link(l)(x.deep_view())
                {
                    str_eq(x.from_episode.as_str(), id.as_str()) && str_eq(
                        x.to_episode.as_str(),
                        sources[i].as_str(),
                    ) && str_eq(x.rel.as_str(), "summarizes")
                },
            Ghost(is_link(l)),
        );
        i = i + 1;
    }
    assert(all.take(i as int) =~= all);
    id
}

/// The bytes of texts, one after the other.
pub open spec fn joined_bytes(texts: Seq<Seq<char>>) -> Seq<u8>
    decreases texts.len(),
{
    if texts.len() == 0 {
        Seq::empty()
    } else {
        joined_bytes(texts.drop_last()) + encode_utf8(texts.last())
    }
}

/// The bytes of texts, a zero byte behind each.
pub open spec fn ended_bytes(texts: Seq<Seq<char>>) -> Seq<u8>
    decreases texts.len(),
{
    if texts.len() == 0 {
        Seq::empty()
    } else {
        ended_bytes(texts.drop_last()) + encode_utf8(texts.last()).push(0u8)
    }
}

/// The bytes that a community's member set is hashed from: a tag that sets it
/// apart from any cluster of episodes, then the ids in order.
pub open spec fn community_bytes(ids: Seq<Seq<char>>) -> Seq<u8> {
    encode_utf8("community"@).push(0u8) + joined_bytes(ordered(ids, by_text()))
}

/// The bytes that a member set is hashed from: the ids in order.
pub open spec fn member_bytes(ids: Seq<Seq<char>>) -> Seq<u8> {
    ended_bytes(ordered(ids, by_text()))
}

/// Compute a deterministic hash for a community member set.
pub fn hash_community_member_set(entity_ids: &Vec<String>) -> (r: [u8; 32])
    ensures
        r@ == blake3_digest(community_bytes(entity_ids.deep_view())),
{
    let sorted = sorted_texts(dup_texts(entity_ids));
    let ghost all = sorted.deep_view();
    let mut bytes: Vec<u8> = Vec::new();
    push_bytes(&mut bytes, "community".as_bytes());
    bytes.push(0u8);
    let ghost tag = encode_utf8("community"@).push(0u8);
    let mut i: usize = 0;
    assert(all.take(0) =~= Seq::empty());
    assert(bytes@ =~= tag + joined_bytes(all.take(0)));
    while i < sorted.len()
        invariant
            i <= sorted.len(),
            all == sorted.deep_view(),
            bytes@ == tag + joined_bytes(all.take(i as int)),
        decreases sorted.len() - i,
    {
        push_bytes(&mut bytes, sorted[i].as_str().as_bytes());
        proof {
            assert(all.take(i + 1).drop_last() =~= all.take(i as int));
            assert(all.take(i + 1).last() == all[i as int]);
            assert(bytes@ =~= tag + joined_bytes(all.take(i + 1)));
        }
        i = i + 1;
    }
    assert(all.take(i as int) =~= all);
    blake3_hash(bytes.as_slice())
}

/// Compute a deterministic hash for a member set.
pub fn hash_member_set(ids: &Vec<String>) -> (r: Vec<u8>)
    ensures
        r@ == blake3_stream(member_bytes(ids.deep_view()), 32),
        r@.len() == 32,
{
    let sorted = sorted_texts(dup_texts(ids));
    let ghost all = sorted.deep_view();
    let mut bytes: Vec<u8> = Vec::new();
    let mut i: usize = 0;
    assert(all.take(0) =~= Seq::empty());
    while i < sorted.len()
        invariant
            i <= sorted.len(),
            all == sorted.deep_view(),
            bytes@ == ended_bytes(all.take(i as int)),
        decreases sorted.len() - i,
    {
        push_bytes(&mut bytes, sorted[i].as_str().as_bytes());
        bytes.push(0u8);
        proof {
            assert(all.take(i + 1).drop_last() =~= all.take(i as int));
            assert(all.take(i + 1).last() == all[i as int]);
            assert(bytes@ =~= ended_bytes(all.take(i + 1)));
        }
        i = i + 1;
    }
    assert(all.take(i as int) =~= all);
    blake3_xof(bytes.as_slice(), 32)
}

/// The order of texts is an order.
pub proof fn lemma_by_text()
    ensures
        is_order(by_text()),
{
    let leq = by_text();
    assert forall|a: Seq<char>, b: Seq<char>| #[trigger] leq(a, b) || leq(b, a) by {
        crate::text::lemma_text_total(a, b);
    }
    assert forall|a: Seq<char>, b: Seq<char>, c: Seq<char>| #[trigger]
        leq(a, b) && #[trigger] leq(b, c) implies leq(a, c) by {
        crate::text::lemma_text_transitive(a, b, c);
    }
}

/// Two lists in order that hold the same texts are the same list.
proof fn lemma_sorted_unique(a: Seq<Seq<char>>, b: Seq<Seq<char>>)
    requires
        in_order(a, by_text()),
        in_order(b, by_text()),
        a.to_multiset() == b.to_multiset(),
    ensures
        a == b,
    decreases a.len(),
{
    broadcast use {vstd::seq_lib::to_multiset_build, vstd::seq_lib::to_multiset_len};

    vstd::seq_lib::to_multiset_len(a);
    vstd::seq_lib::to_multiset_len(b);
    if a.len() > 0 {
        let x = a.last();
        let y = b.last();
        assert(a =~= a.drop_last().push(x));
        assert(b =~= b.drop_last().push(y));
        vstd::seq_lib::to_multiset_contains(a, x);
        vstd::seq_lib::to_multiset_contains(b, x);
        vstd::seq_lib::to_multiset_contains(b, y);
        vstd::seq_lib::to_multiset_contains(a, y);
        assert(a.contains(x)) by {
            assert(a[a.len() - 1] == x);
        }
        assert(b.contains(y)) by {
            assert(b[b.len() - 1] == y);
        }
        let i = choose|i: int| 0 <= i < b.len() && b[i] == x;
        let k = choose|k: int| 0 <= k < a.len() && a[k] == y;
        if i < b.len() - 1 {
            assert(by_text()(b[i], b[b.len() - 1]));
        }
        if k < a.len() - 1 {
            assert(by_text()(a[k], a[a.len() - 1]));
        }
        if x != y {
            crate::text::lemma_text_antisymmetric(x, y);
        }
        let a0 = a.drop_last();
        let b0 = b.drop_last();
        assert(a0.to_multiset() =~= a.to_multiset().remove(x));
        assert(b0.to_multiset() =~= b.to_multiset().remove(x));
        assert forall|i: int, j: int| 0 <= i < j < a0.len() implies by_text()(
            #[trigger] a0[i],
            #[trigger] a0[j],
        ) by {
            assert(by_text()(a[i], a[j]));
        }
        assert forall|i: int, j: int| 0 <= i < j < b0.len() implies by_text()(
            #[trigger] b0[i],
            #[trigger] b0[j],
        ) by {
            assert(by_text()(b[i], b[j]));
        }
        lemma_sorted_unique(a0, b0);
    } else {
        assert(a =~= b);
    }
}

/// Member sets that hold the same ids, in whatever order, have the same hash.
pub proof fn law_member_hash_ignores_order(a: Seq<Seq<char>>, b: Seq<Seq<char>>)
    requires
        a.to_multiset() == b.to_multiset(),
    ensures
        member_bytes(a) == member_bytes(b),
        community_bytes(a) == community_bytes(b),
{
    lemma_by_text();
    crate::rows::lemma_ordered_in_order(a, by_text());
    crate::rows::lemma_ordered_in_order(b, by_text());
    crate::rows::lemma_ordered_same_rows(a, by_text());
    crate::rows::lemma_ordered_same_rows(b, by_text());
    lemma_sorted_unique(ordered(a, by_text()), ordered(b, by_text()));
}

/// Selects the checkpoint of a cluster for an extractor.
pub open spec fn is_checkpoint(
    hash: Seq<char>,
    extractor: Seq<char>,
) -> spec_fn(CheckpointRowView) -> bool {
    |c: CheckpointRowView| c.cluster_hash == hash && c.extractor_id == extractor
}

/// The checkpoints with a cluster begun.
pub open spec fn begun(
    rows: Seq<CheckpointRowView>,
    hash: Seq<char>,
    extractor: Seq<char>,
    now: Timestamp,
) -> Seq<CheckpointRowView> {
    or_replace(
        rows,
        is_checkpoint(hash, extractor),
        CheckpointRowView {
            cluster_hash: hash,
            extractor_id: extractor,
            status: "in_progress"@,
            started_at: now,
            completed_at: None,
        },
    )
}

/// Mark a cluster as in-progress. Idempotent: an existing row is overwritten.
pub fn checkpoint_begin(db: &mut Tables, cluster_hash: &[u8], extractor_id: &str, now: Timestamp)
    ensures
        final(db).deep_view() == (TablesView {
            checkpoints: begun(
                old(db).deep_view().checkpoints,
                hex_text(cluster_hash@),
                extractor_id@,
                now,
            ),
            ..old(db).deep_view()
        }),
{
    let hash = hex_encode(cluster_hash);
    let row = CheckpointRow {
        cluster_hash: hash.clone(),
        extractor_id: extractor_id.to_owned(),
        status: "in_progress".to_owned(),
        started_at: now,
        completed_at: None,
    };
    insert_or_replace(
        &mut db.checkpoints,
        row,
        |c: &CheckpointRow| -> (b: bool)
            ensures
                b == is_checkpoint(hash@, extractor_id@)(c.deep_view())
            {
                str_eq(c.cluster_hash.as_str(), hash.as_str()) && str_eq(
                    c.extractor_id.as_str(),
                    extractor_id,
                )
            },
        Ghost(is_checkpoint(hash@, extractor_id@)),
    );
}

/// Selects the checkpoints of a cluster.
pub open spec fn marks(hash: Seq<char>) -> spec_fn(CheckpointRowView) -> bool {
    |c: CheckpointRowView| c.cluster_hash == hash
}

/// A checkpoint completed at a time.
pub open spec fn completed(now: Timestamp) -> spec_fn(CheckpointRowView) -> CheckpointRowView {
    |c: CheckpointRowView|
        CheckpointRowView { status: "completed"@, completed_at: Some(now), ..c }
}

/// Mark a cluster as completed.
pub fn checkpoint_complete(db: &mut Tables, cluster_hash: &[u8], now: Timestamp)
    ensures
        final(db).deep_view() == (TablesView {
            checkpoints: updated(
                old(db).deep_view().checkpoints,
                marks(hex_text(cluster_hash@)),
                completed(now),
            ),
            ..old(db).deep_view()
        }),
{
    let hash = hex_encode(cluster_hash);
    let _n: usize = update(
        &mut db.checkpoints,
        |c: &CheckpointRow| -> (b: bool)
            ensures
                b == marks(hash@)(c.deep_view())
            { str_eq(c.cluster_hash.as_str(), hash.as_str()) },
        |c: &CheckpointRow| -> (y: CheckpointRow)
            ensures
                y.deep_view() == completed(now)(c.deep_view())
            {
                let mut y = c.dup();
                y.status = "completed".to_owned();
                y.completed_at = Some(now);
                y
            },
        Ghost(marks(hash@)),
        Ghost(completed(now)),
    );
}

/// Selects the completed checkpoints of an extractor.
pub open spec fn is_completed(extractor: Seq<char>) -> spec_fn(CheckpointRowView) -> bool {
    |c: CheckpointRowView| c.extractor_id == extractor && c.status == "completed"@
}

/// The cluster of a checkpoint.
pub open spec fn checkpoint_hash() -> spec_fn(CheckpointRowView) -> Seq<char> {
    |c: CheckpointRowView| c.cluster_hash
}

/// The clusters that an extractor completed.
pub open spec fn done_hashes(rows: Seq<CheckpointRowView>, extractor: Seq<char>) -> Seq<Seq<char>> {
    distinct(rows.filter(is_completed(extractor)).map_values(checkpoint_hash()))
}

/// The hashes of the clusters that an extractor completed, as hexadecimal
/// texts, each once.
pub fn completed_clusters(db: &Tables, extractor_id: &str) -> (r: Vec<String>)
    ensures
        r.deep_view() == done_hashes(db.deep_view().checkpoints, extractor_id@),
{
    unique_texts(
        pick(
            &db.checkpoints,
            |c: &CheckpointRow| -> (b: bool)
                ensures
                    b == is_completed(extractor_id@)(c.deep_view())
                {
                    str_eq(c.extractor_id.as_str(), extractor_id) && str_eq(
                        c.status.as_str(),
                        "completed",
                    )
                },
            |c: &CheckpointRow| -> (s: String)
                ensures
                    s.deep_view() == checkpoint_hash()(c.deep_view())
                { c.cluster_hash.clone() },
            Ghost(is_completed(extractor_id@)),
            Ghost(checkpoint_hash()),
        ),
    )
}

/// The hash of a cluster as a hexadecimal text.
pub open spec fn cluster_key(ids: Seq<Seq<char>>) -> Seq<char> {
    hex_text(blake3_stream(member_bytes(ids), 32))
}

/// Selects the clusters that are not done.
pub open spec fn is_pending(done: Seq<Seq<char>>) -> spec_fn(EpisodeClusterView) -> bool {
    |c: EpisodeClusterView| !done.contains(cluster_key(c.episode_ids))
}

/// Filter clusters to only those not yet completed for the given extractor, in
/// the given order. A cluster in progress stays: a crashed run must resume.
pub fn filter_pending_clusters(
    db: &Tables,
    extractor_id: &str,
    clusters: &Vec<EpisodeCluster>,
) -> (r: Vec<EpisodeCluster>)
    ensures
        r.deep_view() == clusters.deep_view().filter(
            is_pending(done_hashes(db.deep_view().checkpoints, extractor_id@)),
        ),
{
    let done = completed_clusters(db, extractor_id);
    let ghost hashes = done.deep_view();
    select(
        clusters,
        |c: &EpisodeCluster| -> (b: bool)
            ensures
                b == is_pending(hashes)(c.deep_view())
            {
                let hash = hash_member_set(&c.episode_ids);
                let key = hex_encode(hash.as_slice());
                !holds(&done, key.as_str())
            },
        Ghost(is_pending(hashes)),
    )
}

/// A cluster that was begun but not completed is pending; once it is completed
/// it is not.
pub proof fn law_only_completed_clusters_are_dropped(
    rows: Seq<CheckpointRowView>,
    extractor: Seq<char>,
    cluster: EpisodeClusterView,
    started: Timestamp,
    ended: Timestamp,
)
    ensures
        ({
            let key = cluster_key(cluster.episode_ids);
            let running = begun(rows, key, extractor, started);
            let finished = updated(running, marks(key), completed(ended));
            &&& is_pending(done_hashes(running, extractor))(cluster)
            &&& !is_pending(done_hashes(finished, extractor))(cluster)
        }),
{
    let key = cluster_key(cluster.episode_ids);
    let p = is_checkpoint(key, extractor);
    let q = |c: CheckpointRowView| !p(c);
    let running = begun(rows, key, extractor, started);
    let kept = rows.filter(q);
    let done = is_completed(extractor);
    reveal_strlit("in_progress");
    reveal_strlit("completed");
    assert("in_progress"@.len() != "completed"@.len());
    let listed = running.filter(done).map_values(checkpoint_hash());
    crate::rows::lemma_distinct(listed);
    if listed.contains(key) {
        let i = choose|i: int| 0 <= i < listed.len() && listed[i] == key;
        let row = running.filter(done)[i];
        running.lemma_filter_pred(done, i);
        assert(running.filter(done).contains(row));
        running.lemma_filter_contains_rev(done, row);
        let k = choose|k: int| 0 <= k < running.len() && running[k] == row;
        if k < kept.len() {
            rows.lemma_filter_pred(q, k);
        }
    }
    let finished = updated(running, marks(key), completed(ended));
    let last = kept.len() as int;
    assert(done(finished[last]));
    let ended_list = finished.filter(done).map_values(checkpoint_hash());
    finished.lemma_filter_contains(done, last);
    let m = choose|m: int|
        0 <= m < finished.filter(done).len() && finished.filter(done)[m] == finished[last];
    assert(ended_list[m] == key);
    crate::rows::lemma_distinct(ended_list);
}

/// Selects the primary episodes of a space by id.
pub open spec fn is_primary(space: Seq<char>, id: Seq<char>) -> spec_fn(EpisodeRowView) -> bool {
    |e: EpisodeRowView| e.id == id && e.space == space && e.kind == "primary"@
}

/// Whether an id is that of a primary episode of a space.
pub open spec fn primary_in(db: TablesView, space: Seq<char>, id: Seq<char>) -> bool {
    some_where(db.episodes, is_primary(space, id))
}

fn is_primary_in(db: &Tables, space: &str, id: &str) -> (r: bool)
    ensures
        r == primary_in(db.deep_view(), space@, id@),
{
    let found = find(
        &db.episodes,
        |e: &EpisodeRow| -> (b: bool)
            ensures
                b == is_primary(space@, id@)(e.deep_view())
            {
                str_eq(e.id.as_str(), id) && str_eq(e.space.as_str(), space) && str_eq(
                    e.kind.as_str(),
                    "primary",
                )
            },
        Ghost(is_primary(space@, id@)),
    );
    found.is_some()
}

/// Selects the statement of an assertion where it involves one of some
/// entities.
pub open spec fn involves_any(
    statement: Seq<char>,
    entities: Seq<Seq<char>>,
) -> spec_fn(StatementView) -> bool {
    |s: StatementView|
        s.id == statement && (entities.contains(s.subject) || match s.object {
            ObjectView::Entity(e) => entities.contains(e),
            ObjectView::Literal(_) => false,
        })
}

/// Selects the assertions of primary episodes of a space whose statement
/// involves one of some entities.
pub open spec fn cites_any(
    db: TablesView,
    space: Seq<char>,
    entities: Seq<Seq<char>>,
) -> spec_fn(AssertionView) -> bool {
    |a: AssertionView|
        primary_in(db, space, a.episode) && some_where(
            db.statements,
            involves_any(a.statement, entities),
        )
}

/// The episode of an assertion.
pub open spec fn asserting_episode() -> spec_fn(AssertionView) -> Seq<char> {
    |a: AssertionView| a.episode
}

/// The primary episodes of a space that cite one of some entities, by id, each
/// once.
pub fn episodes_for_entities(db: &Tables, space: &str, entity_ids: &Vec<String>) -> (r: Vec<String>)
    ensures
        r.deep_view() == ordered(
            distinct(
                db.deep_view().assertions.filter(
                    cites_any(db.deep_view(), space@, entity_ids.deep_view()),
                ).map_values(asserting_episode()),
            ),
            by_text(),
        ),
{
    let ghost view = db.deep_view();
    let ghost ids = entity_ids.deep_view();
    let found = pick(
        &db.assertions,
        |a: &Assertion| -> (b: bool)
            ensures
                b == cites_any(view, space@, ids)(a.deep_view())
            {
                let statement = find(
                    &db.statements,
                    |s: &Statement| -> (b: bool)
                        ensures
                            b == involves_any(a.statement@, ids)(s.deep_view())
                        {
                            let object: bool = match &s.object {
                                Object::Entity(e) => holds(entity_ids, e.as_str()),
                                Object::Literal(_) => false,
                            };
                            str_eq(s.id.as_str(), a.statement.as_str()) && (holds(
                                entity_ids,
                                s.subject.as_str(),
                            ) || object)
                        },
                    Ghost(involves_any(a.statement@, ids)),
                );
                is_primary_in(db, space, a.episode.as_str()) && statement.is_some()
            },
        |a: &Assertion| -> (s: String)
            ensures
                s.deep_view() == asserting_episode()(a.deep_view())
            { a.episode.clone() },
        Ghost(cites_any(view, space@, ids)),
        Ghost(asserting_episode()),
    );
    sorted_texts(unique_texts(found))
}

/// The order of community rows: by label, then by entity.
pub open spec fn by_label() -> spec_fn(CommunityRowView, CommunityRowView) -> bool {
    |a: CommunityRowView, b: CommunityRowView|
        a.label < b.label || (a.label == b.label && text_le(a.id, b.id))
}

/// Selects the community rows of a space.
pub open spec fn community_in(space: Seq<char>) -> spec_fn(CommunityRowView) -> bool {
    |c: CommunityRowView| c.space == space
}

/// Rows grouped by label: a row joins the last group where it has its label,
/// and else begins a group.
pub open spec fn grouped(rows: Seq<CommunityRowView>) -> Seq<CommunityGroupView>
    decreases rows.len(),
{
    if rows.len() == 0 {
        Seq::empty()
    } else {
        let groups = grouped(rows.drop_last());
        let row = rows.last();
        if groups.len() > 0 && groups.last().label == row.label as u64 {
            groups.drop_last().push(
                CommunityGroupView {
                    label: groups.last().label,
                    entity_ids: groups.last().entity_ids.push(row.id),
                },
            )
        } else {
            groups.push(
                CommunityGroupView { label: row.label as u64, entity_ids: seq![row.id] },
            )
        }
    }
}

/// Load community entities grouped by label.
pub fn load_community_entities(db: &Tables, space: &str) -> (r: Vec<CommunityGroup>)
    ensures
        r.deep_view() == grouped(
            ordered(db.deep_view().communities.filter(community_in(space@)), by_label()),
        ),
{
    let rows = order(
        select(
            &db.communities,
            |c: &CommunityRow| -> (b: bool)
                ensures
                    b == community_in(space@)(c.deep_view())
                { str_eq(c.space.as_str(), space) },
            Ghost(community_in(space@)),
        ),
        |a: &CommunityRow, b: &CommunityRow| -> (le: bool)
            ensures
                le == by_label()(a.deep_view(), b.deep_view())
            {
                a.label < b.label || (a.label == b.label && str_le(a.id.as_str(), b.id.as_str()))
            },
        Ghost(by_label()),
    );
    let ghost all = rows.deep_view();
    let mut groups: Vec<CommunityGroup> = Vec::new();
    let mut i: usize = 0;
    assert(all.take(0) =~= Seq::empty());
    assert(groups.deep_view() =~= Seq::<CommunityGroupView>::empty());
    while i < rows.len()
        invariant
            i <= rows.len(),
            all == rows.deep_view(),
            groups.deep_view() == grouped(all.take(i as int)),
        decreases rows.len() - i,
    {
        let ghost before = groups.deep_view();
        let ghost row = all[i as int];
        proof {
            assert(all.take(i + 1).drop_last() =~= all.take(i as int));
            assert(all.take(i + 1).last() == row);
            assert(row == rows[i as int].deep_view());
        }
        let label: u64 = #[verifier::truncate] (rows[i].label as u64);
        let n: usize = groups.len();
        if n > 0 && groups[n - 1].label == label {
            let mut last = groups[n - 1].dup();
            let ghost ids = last.entity_ids.deep_view();
            last.entity_ids.push(rows[i].id.clone());
            assert(last.entity_ids.deep_view() =~= ids.push(row.id));
            let ghost grown = last.deep_view();
            groups[n - 1] = last;
            assert(groups.deep_view() =~= before.drop_last().push(grown));
        } else {
            let mut ids: Vec<String> = Vec::new();
            ids.push(rows[i].id.clone());
            assert(ids.deep_view() =~= seq![row.id]);
            let group = CommunityGroup { label, entity_ids: ids };
            let ghost added = group.deep_view();
            groups.push(group);
            assert(groups.deep_view() =~= before.push(added));
        }
        i = i + 1;
    }
    assert(all.take(i as int) =~= all);
    groups
}

/// Selects the assertions that an episode makes of a statement that involves an
/// entity.
pub open spec fn touches(
    db: TablesView,
    episode: Seq<char>,
    entity: Seq<char>,
) -> spec_fn(AssertionView) -> bool {
    |a: AssertionView|
        a.episode == episode && some_where(
            db.statements,
            involves_any(a.statement, seq![entity]),
        )
}

/// Whether an episode asserts something that involves an entity.
pub open spec fn episode_touches(db: TablesView, episode: Seq<char>, entity: Seq<char>) -> bool {
    some_where(db.assertions, touches(db, episode, entity))
}

fn does_touch(db: &Tables, episode: &str, entity: &str) -> (r: bool)
    ensures
        r == episode_touches(db.deep_view(), episode@, entity@),
{
    let ghost view = db.deep_view();
    let mut one: Vec<String> = Vec::new();
    one.push(entity.to_owned());
    assert(one.deep_view() =~= seq![entity@]);
    let found = find(
        &db.assertions,
        |a: &Assertion| -> (b: bool)
            ensures
                b == touches(view, episode@, entity@)(a.deep_view())
            {
                let statement = find(
                    &db.statements,
                    |s: &Statement| -> (b: bool)
                        ensures
                            b == involves_any(a.statement@, seq![entity@])(s.deep_view())
                        {
                            let object: bool = match &s.object {
                                Object::Entity(e) => holds(&one, e.as_str()),
                                Object::Literal(_) => false,
                            };
                            str_eq(s.id.as_str(), a.statement.as_str()) && (holds(
                                &one,
                                s.subject.as_str(),
                            ) || object)
                        },
                    Ghost(involves_any(a.statement@, seq![entity@])),
                );
                str_eq(a.episode.as_str(), episode) && statement.is_some()
            },
        Ghost(touches(view, episode@, entity@)),
    );
    found.is_some()
}

/// The entities that the statements of a store involve, each once, by id.
pub open spec fn known_entities(db: TablesView) -> Seq<Seq<char>> {
    ordered(distinct(statement_entities(db.statements)), by_text())
}

/// The subjects and entity objects of statements.
pub open spec fn statement_entities(statements: Seq<StatementView>) -> Seq<Seq<char>>
    decreases statements.len(),
{
    if statements.len() == 0 {
        Seq::empty()
    } else {
        let before = statement_entities(statements.drop_last()).push(statements.last().subject);
        match statements.last().object {
            ObjectView::Entity(e) => before.push(e),
            ObjectView::Literal(_) => before,
        }
    }
}

fn list_entities_of(db: &Tables) -> (r: Vec<String>)
    ensures
        r.deep_view() == known_entities(db.deep_view()),
{
    let ghost all = db.deep_view().statements;
    let mut out: Vec<String> = Vec::new();
    let mut i: usize = 0;
    assert(all.take(0) =~= Seq::empty());
    assert(out.deep_view() =~= Seq::<Seq<char>>::empty());
    while i < db.statements.len()
        invariant
            i <= db.statements.len(),
            all == db.deep_view().statements,
            out.deep_view() == statement_entities(all.take(i as int)),
        decreases db.statements.len() - i,
    {
        let ghost before = out.deep_view();
        let s = &db.statements[i];
        proof {
            assert(all.take(i + 1).drop_last() =~= all.take(i as int));
            assert(all.take(i + 1).last() == all[i as int]);
            assert(all[i as int] == s.deep_view());
        }
        out.push(s.subject.clone());
        assert(out.deep_view() =~= before.push(s.subject@));
        match &s.object {
            Object::Entity(e) => {
                let ghost mid = out.deep_view();
                out.push(e.clone());
                assert(out.deep_view() =~= mid.push(e@));
            },
            Object::Literal(_) => {},
        }
        i = i + 1;
    }
    assert(all.take(i as int) =~= all);
    sorted_texts(unique_texts(out))
}

/// How many of some episodes are primary in a space and touch an entity.
pub open spec fn touching(
    db: TablesView,
    space: Seq<char>,
    episodes: Seq<Seq<char>>,
    entity: Seq<char>,
) -> Seq<Seq<char>> {
    distinct(episodes).filter(is_touching(db, space, entity))
}

/// Selects the primary episodes of a space that touch an entity.
pub open spec fn is_touching(
    db: TablesView,
    space: Seq<char>,
    entity: Seq<char>,
) -> spec_fn(Seq<char>) -> bool {
    |id: Seq<char>| primary_in(db, space, id) && episode_touches(db, id, entity)
}

/// Selects the entities that at least two of some episodes touch.
pub open spec fn is_shared(
    db: TablesView,
    space: Seq<char>,
    episodes: Seq<Seq<char>>,
) -> spec_fn(Seq<char>) -> bool {
    |entity: Seq<char>| touching(db, space, episodes, entity).len() >= 2
}

/// The entities that at least two of the given primary episodes of a space
/// involve, as subject or object, by id.
pub open spec fn shared_entities(
    db: TablesView,
    space: Seq<char>,
    episodes: Seq<Seq<char>>,
) -> Seq<Seq<char>> {
    known_entities(db).filter(is_shared(db, space, episodes))
}

/// Return the entity ids that appear in at least two of the given primary
/// episodes inside `space`, sorted by id.
pub fn entities_for_episodes(db: &Tables, space: &str, episode_ids: &Vec<String>) -> (r: Vec<
    String,
>)
    ensures
        r.deep_view() == shared_entities(db.deep_view(), space@, episode_ids.deep_view()),
{
    let ghost view = db.deep_view();
    let ghost eps = episode_ids.deep_view();
    let episodes = unique_texts(dup_texts(episode_ids));
    let entities = list_entities_of(db);
    select(
        &entities,
        |entity: &String| -> (b: bool)
            ensures
                b == is_shared(view, space@, eps)(entity.deep_view())
            {
                let n: usize = count(
                    &episodes,
                    |id: &String| -> (b: bool)
                        ensures
                            b == is_touching(view, space@, entity@)(id.deep_view())
                        {
                            is_primary_in(db, space, id.as_str()) && does_touch(
                                db,
                                id.as_str(),
                                entity.as_str(),
                            )
                        },
                    Ghost(is_touching(view, space@, entity@)),
                );
                n >= 2
            },
        Ghost(is_shared(view, space@, eps)),
    )
}

/// Whether two different episodes are related: both primary in the space, and
/// sharing at least two entities.
pub open spec fn related(db: TablesView, space: Seq<char>, a: Seq<char>, b: Seq<char>) -> bool {
    &&& a != b
    &&& primary_in(db, space, a)
    &&& primary_in(db, space, b)
    &&& known_entities(db).filter(touched_by_both(db, a, b)).len() >= 2
}

/// Selects the entities that two episodes touch.
pub open spec fn touched_by_both(
    db: TablesView,
    a: Seq<char>,
    b: Seq<char>,
) -> spec_fn(Seq<char>) -> bool {
    |e: Seq<char>| episode_touches(db, a, e) && episode_touches(db, b, e)
}

fn are_related(db: &Tables, space: &str, a: &str, b: &str, entities: &Vec<String>) -> (r: bool)
    requires
        entities.deep_view() == known_entities(db.deep_view()),
    ensures
        r == related(db.deep_view(), space@, a@, b@),
{
    let ghost view = db.deep_view();
    if str_eq(a, b) || !is_primary_in(db, space, a) || !is_primary_in(db, space, b) {
        return false;
    }
    let n: usize = count(
        entities,
        |e: &String| -> (hit: bool)
            ensures
                hit == touched_by_both(view, a@, b@)(e.deep_view())
            { does_touch(db, a, e.as_str()) && does_touch(db, b, e.as_str()) },
        Ghost(touched_by_both(view, a@, b@)),
    );
    n >= 2
}

/// Whether a list of episodes is a walk along relations.
pub open spec fn is_walk(db: TablesView, space: Seq<char>, walk: Seq<Seq<char>>) -> bool {
    &&& walk.len() > 0
    &&& forall|i: int|
        0 <= i < walk.len() - 1 ==> related(db, space, #[trigger] walk[i], walk[i + 1])
}

/// Whether relations lead from one episode to another.
pub open spec fn connected(db: TablesView, space: Seq<char>, a: Seq<char>, b: Seq<char>) -> bool {
    exists|walk: Seq<Seq<char>>|
        #[trigger] is_walk(db, space, walk) && walk[0] == a && walk.last() == b
}

proof fn lemma_related_symmetric(db: TablesView, space: Seq<char>, a: Seq<char>, b: Seq<char>)
    requires
        related(db, space, a, b),
    ensures
        related(db, space, b, a),
{
    let all = known_entities(db);
    let p = touched_by_both(db, a, b);
    let q = touched_by_both(db, b, a);
    lemma_same_choice(all, p, q);
}

/// Equal conditions select equal elements.
proof fn lemma_same_choice<V>(s: Seq<V>, p: spec_fn(V) -> bool, q: spec_fn(V) -> bool)
    requires
        forall|v: V| #[trigger] p(v) == q(v),
    ensures
        s.filter(p) == s.filter(q),
    decreases s.len(),
{
    reveal(Seq::filter);
    if s.len() > 0 {
        lemma_same_choice(s.drop_last(), p, q);
        assert(p(s.last()) == q(s.last()));
    }
}

proof fn lemma_extend_walk(
    db: TablesView,
    space: Seq<char>,
    a: Seq<char>,
    b: Seq<char>,
    c: Seq<char>,
)
    requires
        connected(db, space, a, b),
        related(db, space, b, c),
    ensures
        connected(db, space, a, c),
{
    let walk = choose|walk: Seq<Seq<char>>|
        #[trigger] is_walk(db, space, walk) && walk[0] == a && walk.last() == b;
    let longer = walk.push(c);
    assert forall|i: int| 0 <= i < longer.len() - 1 implies related(
        db,
        space,
        #[trigger] longer[i],
        longer[i + 1],
    ) by {
        if i < walk.len() - 1 {
            assert(related(db, space, walk[i], walk[i + 1]));
        }
    }
    assert(is_walk(db, space, longer));
    assert(longer[0] == a && longer.last() == c);
}

/// A set that holds an episode, and with each of its members all that are
/// related to it, holds everything that relations lead to from the episode.
proof fn lemma_closed(
    db: TablesView,
    space: Seq<char>,
    set: Seq<Seq<char>>,
    a: Seq<char>,
    b: Seq<char>,
)
    requires
        set.contains(a),
        forall|x: Seq<char>, y: Seq<char>|
            set.contains(x) && related(db, space, x, y) ==> set.contains(y),
        connected(db, space, a, b),
    ensures
        set.contains(b),
{
    let walk = choose|walk: Seq<Seq<char>>|
        #[trigger] is_walk(db, space, walk) && walk[0] == a && walk.last() == b;
    lemma_closed_walk(db, space, set, walk, walk.len() - 1);
}

proof fn lemma_closed_walk(
    db: TablesView,
    space: Seq<char>,
    set: Seq<Seq<char>>,
    walk: Seq<Seq<char>>,
    k: int,
)
    requires
        is_walk(db, space, walk),
        0 <= k < walk.len(),
        set.contains(walk[0]),
        forall|x: Seq<char>, y: Seq<char>|
            set.contains(x) && related(db, space, x, y) ==> set.contains(y),
    ensures
        set.contains(walk[k]),
    decreases k,
{
    if k > 0 {
        lemma_closed_walk(db, space, set, walk, k - 1);
        assert(related(db, space, walk[k - 1], walk[k]));
    }
}

/// The primary episodes of a space, by id, each once.
pub open spec fn primary_ids(db: TablesView, space: Seq<char>) -> Seq<Seq<char>> {
    ordered(
        distinct(
            db.episodes.filter(is_primary_row(space)).map_values(crate::redaction::episode_id_of()),
        ),
        by_text(),
    )
}

/// Selects the primary episodes of a space.
pub open spec fn is_primary_row(space: Seq<char>) -> spec_fn(EpisodeRowView) -> bool {
    |e: EpisodeRowView| e.space == space && e.kind == "primary"@
}

fn list_primary(db: &Tables, space: &str) -> (r: Vec<String>)
    ensures
        r.deep_view() == primary_ids(db.deep_view(), space@),
{
    sorted_texts(
        unique_texts(
            pick(
                &db.episodes,
                |e: &EpisodeRow| -> (b: bool)
                    ensures
                        b == is_primary_row(space@)(e.deep_view())
                    { str_eq(e.space.as_str(), space) && str_eq(e.kind.as_str(), "primary") },
                |e: &EpisodeRow| -> (s: String)
                    ensures
                        s.deep_view() == crate::redaction::episode_id_of()(e.deep_view())
                    { e.id.clone() },
                Ghost(is_primary_row(space@)),
                Ghost(crate::redaction::episode_id_of()),
            ),
        ),
    )
}

/// What sorting and dropping repeats keep.
proof fn lemma_sorted_distinct(s: Seq<Seq<char>>)
    ensures
        ({
            let r = ordered(distinct(s), by_text());
            &&& r.no_duplicates()
            &&& in_order(r, by_text())
            &&& forall|v: Seq<char>| #[trigger] r.contains(v) <==> s.contains(v)
        }),
{
    let d = distinct(s);
    let r = ordered(d, by_text());
    lemma_by_text();
    crate::rows::lemma_distinct(s);
    crate::rows::lemma_ordered_in_order(d, by_text());
    crate::rows::lemma_ordered_same_rows(d, by_text());
    d.lemma_multiset_has_no_duplicates();
    assert forall|v: Seq<char>| #[trigger] r.contains(v) <==> s.contains(v) by {
        vstd::seq_lib::to_multiset_contains(d, v);
        vstd::seq_lib::to_multiset_contains(r, v);
    }
    assert(r.no_duplicates()) by {
        r.lemma_multiset_has_no_duplicates_conv();
    }
}

proof fn lemma_primary_ids(db: TablesView, space: Seq<char>)
    ensures
        primary_ids(db, space).no_duplicates(),
        in_order(primary_ids(db, space), by_text()),
        forall|id: Seq<char>| #[trigger]
            primary_ids(db, space).contains(id) <==> primary_in(db, space, id),
{
    let p = is_primary_row(space);
    let g = crate::redaction::episode_id_of();
    let picked = db.episodes.filter(p).map_values(g);
    lemma_sorted_distinct(picked);
    assert forall|id: Seq<char>| #[trigger]
        primary_ids(db, space).contains(id) <==> primary_in(db, space, id) by {
        if picked.contains(id) {
            let i = choose|i: int| 0 <= i < picked.len() && picked[i] == id;
            let e = db.episodes.filter(p)[i];
            db.episodes.lemma_filter_pred(p, i);
            assert(db.episodes.filter(p).contains(e));
            db.episodes.lemma_filter_contains_rev(p, e);
            let k = choose|k: int| 0 <= k < db.episodes.len() && db.episodes[k] == e;
            assert(is_primary(space, id)(db.episodes[k]));
        }
        if primary_in(db, space, id) {
            let k = choose|k: int|
                0 <= k < db.episodes.len() && is_primary(space, id)(db.episodes[k]);
            db.episodes.lemma_filter_contains(p, k);
            let i = choose|i: int|
                0 <= i < db.episodes.filter(p).len() && db.episodes.filter(p)[i]
                    == db.episodes[k];
            assert(picked[i] == id);
        }
    }
}

/// Whether a list of clusters is what clustering should give: every cluster is
/// in order, holds at least two episodes, and with each of them exactly the
/// episodes that relations lead to from it; every related episode is in one;
/// and the clusters are in the order of their first episodes.
pub open spec fn is_clustering(
    db: TablesView,
    space: Seq<char>,
    clusters: Seq<EpisodeClusterView>,
) -> bool {
    &&& forall|i: int| 0 <= i < clusters.len() ==> is_cluster(db, space, #[trigger] clusters[i])
    &&& forall|a: Seq<char>, b: Seq<char>|
        #[trigger] related(db, space, a, b) ==> in_some_cluster(clusters, a)
    &&& forall|i: int, j: int|
        0 <= i < j < clusters.len() ==> text_le(
            (#[trigger] clusters[i]).episode_ids[0],
            (#[trigger] clusters[j]).episode_ids[0],
        ) && clusters[i].episode_ids[0] != clusters[j].episode_ids[0]
}

/// Whether an episode is in one of some clusters.
pub open spec fn in_some_cluster(clusters: Seq<EpisodeClusterView>, id: Seq<char>) -> bool {
    exists|i: int| 0 <= i < clusters.len() && (#[trigger] clusters[i]).episode_ids.contains(id)
}

/// Whether a cluster is a whole one.
pub open spec fn is_cluster(db: TablesView, space: Seq<char>, c: EpisodeClusterView) -> bool {
    &&& c.episode_ids.len() >= 2
    &&& c.episode_ids.no_duplicates()
    &&& in_order(c.episode_ids, by_text())
    &&& c.shared_entities.len() == 0
    &&& forall|b: Seq<char>| #[trigger]
        c.episode_ids.contains(b) <==> connected(db, space, c.episode_ids[0], b)
}

/// Everything that relations lead to from an episode, itself included.
fn component(
    db: &Tables,
    space: &str,
    start: &str,
    nodes: &Vec<String>,
    entities: &Vec<String>,
) -> (r: Vec<String>)
    requires
        nodes.deep_view() == primary_ids(db.deep_view(), space@),
        entities.deep_view() == known_entities(db.deep_view()),
        primary_in(db.deep_view(), space@, start@),
    ensures
        forall|b: Seq<char>| #[trigger]
            r.deep_view().contains(b) <==> connected(db.deep_view(), space@, start@, b),
        r.deep_view().no_duplicates(),
{
    let ghost view = db.deep_view();
    let ghost all = nodes.deep_view();
    let mut set: Vec<String> = Vec::new();
    set.push(start.to_owned());
    proof {
        assert(set.deep_view() =~= seq![start@]);
        let walk = seq![start@];
        assert(is_walk(view, space@, walk));
        assert(walk[0] == start@ && walk.last() == start@);
        lemma_primary_ids(view, space@);
    }
    loop
        invariant
            view == db.deep_view(),
            all == nodes.deep_view(),
            all == primary_ids(view, space@),
            entities.deep_view() == known_entities(view),
            set.deep_view().contains(start@),
            set.deep_view().no_duplicates(),
            forall|i: int| 0 <= i < set.deep_view().len() ==> all.contains(#[trigger] set.deep_view()[i]),
            forall|i: int|
                0 <= i < set.deep_view().len() ==> connected(
                    view,
                    space@,
                    start@,
                    #[trigger] set.deep_view()[i],
                ),
        decreases all.len() - set.len(),
    {
        let ghost before = set.deep_view();
        match next_member(db, space, &set, nodes, entities) {
            None => {
                proof {
                    assert forall|b: Seq<char>| #[trigger]
                        set.deep_view().contains(b) <==> connected(view, space@, start@, b) by {
                        if connected(view, space@, start@, b) {
                            lemma_closed(view, space@, set.deep_view(), start@, b);
                        }
                    }
                }
                return set;
            },
            Some(k) => {
                let ghost x = all[k as int];
                set.push(nodes[k].clone());
                proof {
                    assert(set.deep_view() =~= before.push(x));
                    let m = choose|m: int|
                        0 <= m < before.len() && related(view, space@, before[m], x);
                    lemma_extend_walk(view, space@, start@, before[m], x);
                    assert(all.contains(x));
                    assert(before.push(x)[before.len() as int] == x);
                    assert(set.deep_view().contains(start@)) by {
                        let s = choose|s: int| 0 <= s < before.len() && before[s] == start@;
                        assert(before.push(x)[s] == start@);
                    }
                    crate::rows::lemma_distinct_within(set.deep_view(), all);
                }
            },
        }
    }
}

/// The position of an episode that is related to a member of a set and is not
/// in it.
fn next_member(
    db: &Tables,
    space: &str,
    set: &Vec<String>,
    nodes: &Vec<String>,
    entities: &Vec<String>,
) -> (r: Option<usize>)
    requires
        nodes.deep_view() == primary_ids(db.deep_view(), space@),
        entities.deep_view() == known_entities(db.deep_view()),
    ensures
        match r {
            Some(k) => k < nodes.len() && !set.deep_view().contains(nodes.deep_view()[k as int])
                && exists|m: int|
                0 <= m < set.deep_view().len() && related(
                    db.deep_view(),
                    space@,
                    #[trigger] set.deep_view()[m],
                    nodes.deep_view()[k as int],
                ),
            None => forall|x: Seq<char>, y: Seq<char>|
                set.deep_view().contains(x) && related(db.deep_view(), space@, x, y)
                    ==> set.deep_view().contains(y),
        },
{
    let ghost view = db.deep_view();
    let ghost all = nodes.deep_view();
    let ghost members = set.deep_view();
    let mut k: usize = 0;
    while k < nodes.len()
        invariant
            k <= nodes.len(),
            view == db.deep_view(),
            all == nodes.deep_view(),
            members == set.deep_view(),
            entities.deep_view() == known_entities(view),
            forall|j: int, m: int|
                0 <= j < k && 0 <= m < members.len() && !members.contains(all[j]) ==> !related(
                    view,
                    space@,
                    #[trigger] members[m],
                    #[trigger] all[j],
                ),
        decreases nodes.len() - k,
    {
        if !holds(set, nodes[k].as_str()) {
            let mut m: usize = 0;
            while m < set.len()
                invariant
                    k < nodes.len(),
                    m <= set.len(),
                    view == db.deep_view(),
                    all == nodes.deep_view(),
                    members == set.deep_view(),
                    entities.deep_view() == known_entities(view),
                    !members.contains(all[k as int]),
                    forall|j: int|
                        0 <= j < m ==> !related(
                            view,
                            space@,
                            #[trigger] members[j],
                            all[k as int],
                        ),
                decreases set.len() - m,
            {
                if are_related(db, space, set[m].as_str(), nodes[k].as_str(), entities) {
                    assert(related(view, space@, members[m as int], all[k as int]));
                    return Some(k);
                }
                m = m + 1;
            }
        }
        k = k + 1;
    }
    proof {
        lemma_primary_ids(view, space@);
        assert forall|x: Seq<char>, y: Seq<char>|
            members.contains(x) && related(view, space@, x, y) implies members.contains(y) by {
            assert(all.contains(y));
            let j = choose|j: int| 0 <= j < all.len() && all[j] == y;
            let m = choose|m: int| 0 <= m < members.len() && members[m] == x;
            if !members.contains(all[j]) {
                assert(!related(view, space@, members[m], all[j]));
            }
        }
    }
    None
}

/// Find clusters of primary episodes that share at least two entities, directly
/// or through others.
pub fn find_episode_clusters(db: &Tables, space: &str) -> (r: Vec<EpisodeCluster>)
    ensures
        is_clustering(db.deep_view(), space@, r.deep_view()),
{
    let ghost view = db.deep_view();
    let nodes = list_primary(db, space);
    let entities = list_entities_of(db);
    let ghost all = nodes.deep_view();
    let mut clusters: Vec<EpisodeCluster> = Vec::new();
    let mut visited: Vec<String> = Vec::new();
    let mut i: usize = 0;
    proof {
        lemma_primary_ids(view, space@);
        assert(clusters.deep_view() =~= Seq::<EpisodeClusterView>::empty());
        assert(visited.deep_view() =~= Seq::<Seq<char>>::empty());
    }
    while i < nodes.len()
        invariant
            i <= nodes.len(),
            view == db.deep_view(),
            all == nodes.deep_view(),
            all == primary_ids(view, space@),
            all.no_duplicates(),
            in_order(all, by_text()),
            forall|id: Seq<char>| #[trigger] all.contains(id) <==> primary_in(view, space@, id),
            entities.deep_view() == known_entities(view),
            forall|j: int|
                0 <= j < clusters.deep_view().len() ==> is_cluster(
                    view,
                    space@,
                    #[trigger] clusters.deep_view()[j],
                ),
            // Clusters begin with visited nodes, in order.
            forall|j: int|
                0 <= j < clusters.deep_view().len() ==> exists|k: int|
                    0 <= k < i && (#[trigger] clusters.deep_view()[j]).episode_ids[0] == all[k],
            forall|j: int, k: int|
                0 <= j < k < clusters.deep_view().len() ==> text_le(
                    (#[trigger] clusters.deep_view()[j]).episode_ids[0],
                    (#[trigger] clusters.deep_view()[k]).episode_ids[0],
                ) && clusters.deep_view()[j].episode_ids[0]
                    != clusters.deep_view()[k].episode_ids[0],
            // What was visited is in a cluster, or is related to nothing.
            forall|id: Seq<char>| #[trigger]
                visited.deep_view().contains(id) ==> in_some_cluster(clusters.deep_view(), id)
                    || forall|b: Seq<char>| !related(view, space@, id, b),
            forall|j: int| 0 <= j < i ==> visited.deep_view().contains(#[trigger] all[j]),
            closed_under(view, space@, visited.deep_view()),
            // A cluster's members are all visited.
            forall|j: int, b: Seq<char>|
                0 <= j < clusters.deep_view().len()
                    && (#[trigger] clusters.deep_view()[j]).episode_ids.contains(b)
                    ==> #[trigger] visited.deep_view().contains(b),
        decreases nodes.len() - i,
    {
        let ghost x = all[i as int];
        assert(all.contains(x));
        if !holds(&visited, nodes[i].as_str()) {
            let members = component(db, space, nodes[i].as_str(), &nodes, &entities);
            let ghost found = members.deep_view();
            let ghost seen = visited.deep_view();
            let ghost old_clusters = clusters.deep_view();
            proof {
                let walk = seq![x];
                assert(is_walk(view, space@, walk));
                assert(walk[0] == x && walk.last() == x);
                assert(connected(view, space@, x, x));
                assert(found.contains(x));
            }
            let n: usize = members.len();
            assert(found.len() == n);
            let sorted = sorted_texts(members);
            let ghost ids = sorted.deep_view();
            proof {
                lemma_by_text();
                crate::rows::lemma_ordered_in_order(found, by_text());
                crate::rows::lemma_ordered_same_rows(found, by_text());
                found.lemma_multiset_has_no_duplicates();
                ids.lemma_multiset_has_no_duplicates_conv();
                assert forall|b: Seq<char>| #[trigger] ids.contains(b) <==> found.contains(b) by {
                    vstd::seq_lib::to_multiset_contains(found, b);
                    vstd::seq_lib::to_multiset_contains(ids, b);
                }
                lemma_first_is_start(view, space@, all, seen, ids, x, i as int);
            }
            push_all(&mut visited, &sorted);
            proof {
                let after = seen + ids;
                assert forall|p: Seq<char>, q: Seq<char>|
                    after.contains(p) && related(view, space@, p, q) implies after.contains(q) by {
                    lemma_concat_contains(seen, ids, p);
                    lemma_concat_contains(seen, ids, q);
                    if ids.contains(p) {
                        lemma_extend_walk(view, space@, x, p, q);
                        assert(found.contains(q));
                    }
                }
            }
            if n >= 2 {
                let none: Vec<String> = Vec::new();
                assert(none.deep_view() =~= Seq::<Seq<char>>::empty());
                let cluster = EpisodeCluster { episode_ids: sorted, shared_entities: none };
                let ghost c = cluster.deep_view();
                clusters.push(cluster);
                proof {
                    let now = clusters.deep_view();
                    assert(now =~= old_clusters.push(c));
                    assert(c.episode_ids == ids);
                    assert(ids[0] == x);
                    assert(is_cluster(view, space@, c));
                    assert forall|j: int| 0 <= j < now.len() implies exists|k: int|
                        0 <= k < i + 1 && (#[trigger] now[j]).episode_ids[0] == all[k] by {
                        if j < old_clusters.len() {
                            let k = choose|k: int|
                                0 <= k < i && old_clusters[j].episode_ids[0] == all[k];
                            assert(now[j].episode_ids[0] == all[k]);
                        } else {
                            assert(now[j].episode_ids[0] == all[i as int]);
                        }
                    }
                    assert forall|j: int, k: int| 0 <= j < k < now.len() implies text_le(
                        (#[trigger] now[j]).episode_ids[0],
                        (#[trigger] now[k]).episode_ids[0],
                    ) && now[j].episode_ids[0] != now[k].episode_ids[0] by {
                        if k == old_clusters.len() {
                            let m = choose|m: int|
                                0 <= m < i && old_clusters[j].episode_ids[0] == all[m];
                            assert(by_text()(all[m], all[i as int]));
                            assert(all[m] != all[i as int]);
                        } else {
                            assert(old_clusters[j] == now[j] && old_clusters[k] == now[k]);
                        }
                    }
                    assert forall|id: Seq<char>| #[trigger]
                        visited.deep_view().contains(id) implies in_some_cluster(now, id)
                        || forall|b: Seq<char>| !related(view, space@, id, b) by {
                        lemma_concat_contains(seen, ids, id);
                        if ids.contains(id) {
                            assert(now[old_clusters.len() as int].episode_ids.contains(id));
                        } else if in_some_cluster(old_clusters, id) {
                            let j = choose|j: int|
                                0 <= j < old_clusters.len()
                                    && (#[trigger] old_clusters[j]).episode_ids.contains(id);
                            assert(now[j].episode_ids.contains(id));
                        }
                    }
                    assert forall|j: int, b: Seq<char>|
                        0 <= j < now.len() && (#[trigger] now[j]).episode_ids.contains(
                            b,
                        ) implies #[trigger] visited.deep_view().contains(b) by {
                        lemma_concat_contains(seen, ids, b);
                        if j < old_clusters.len() {
                            assert(old_clusters[j].episode_ids.contains(b));
                        }
                    }
                }
            } else {
                proof {
                    assert(ids.len() == 1) by {
                        crate::rows::lemma_ordered_same_rows(found, by_text());
                        assert(found.len() >= 1);
                    }
                    assert forall|b: Seq<char>| !related(view, space@, x, b) by {
                        if related(view, space@, x, b) {
                            lemma_extend_walk(view, space@, x, x, b);
                            assert(ids.contains(b));
                            assert(ids.contains(x));
                            assert(ids[0] == b && ids[0] == x);
                        }
                    }
                    assert forall|id: Seq<char>| #[trigger]
                        visited.deep_view().contains(id) implies in_some_cluster(
                        clusters.deep_view(),
                        id,
                    ) || forall|b: Seq<char>| !related(view, space@, id, b) by {
                        lemma_concat_contains(seen, ids, id);
                        if ids.contains(id) {
                            assert(ids[0] == id);
                            assert(ids.contains(x));
                        }
                    }
                    assert forall|j: int, b: Seq<char>|
                        0 <= j < clusters.deep_view().len()
                            && (#[trigger] clusters.deep_view()[j]).episode_ids.contains(
                            b,
                        ) implies #[trigger] visited.deep_view().contains(b) by {
                        lemma_concat_contains(seen, ids, b);
                    }
                }
            }
            proof {
                assert forall|j: int| 0 <= j < i + 1 implies visited.deep_view().contains(
                    #[trigger] all[j],
                ) by {
                    lemma_concat_contains(seen, ids, all[j]);
                    if j == i {
                        assert(found.contains(x));
                        assert(ids.contains(x));
                    }
                }
            }
        }
        i = i + 1;
    }
    proof {
        let now = clusters.deep_view();
        assert forall|a: Seq<char>, b: Seq<char>| #[trigger]
            related(view, space@, a, b) implies in_some_cluster(now, a) by {
            assert(all.contains(a));
            let j = choose|j: int| 0 <= j < all.len() && all[j] == a;
            assert(visited.deep_view().contains(all[j]));
        }
    }
    clusters
}

proof fn lemma_concat_contains<V>(a: Seq<V>, b: Seq<V>, v: V)
    ensures
        (a + b).contains(v) <==> a.contains(v) || b.contains(v),
{
    if a.contains(v) {
        let i = choose|i: int| 0 <= i < a.len() && a[i] == v;
        assert((a + b)[i] == v);
    }
    if b.contains(v) {
        let i = choose|i: int| 0 <= i < b.len() && b[i] == v;
        assert((a + b)[a.len() + i] == v);
    }
    if (a + b).contains(v) {
        let i = choose|i: int| 0 <= i < (a + b).len() && (a + b)[i] == v;
        if i < a.len() {
            assert(a[i] == v);
        } else {
            assert(b[i - a.len()] == v);
        }
    }
}

fn push_all(out: &mut Vec<String>, items: &Vec<String>)
    ensures
        final(out).deep_view() == old(out).deep_view() + items.deep_view(),
{
    let ghost before = out.deep_view();
    let ghost all = items.deep_view();
    let mut i: usize = 0;
    assert(out.deep_view() =~= before + all.take(0));
    while i < items.len()
        invariant
            i <= items.len(),
            all == items.deep_view(),
            out.deep_view() == before + all.take(i as int),
        decreases items.len() - i,
    {
        let ghost done = out.deep_view();
        out.push(items[i].clone());
        i = i + 1;
        assert(out.deep_view() =~= done.push(all[i - 1]));
        assert(out.deep_view() =~= before + all.take(i as int));
    }
    assert(all.take(i as int) =~= all);
}

/// The first member of the component of the first unvisited node is that node:
/// a smaller one would have been visited before, and with it the node.
proof fn lemma_first_is_start(
    db: TablesView,
    space: Seq<char>,
    all: Seq<Seq<char>>,
    seen: Seq<Seq<char>>,
    ids: Seq<Seq<char>>,
    x: Seq<char>,
    i: int,
)
    requires
        0 <= i < all.len(),
        all[i] == x,
        ids.len() > 0,
        all == primary_ids(db, space),
        all.no_duplicates(),
        in_order(all, by_text()),
        in_order(ids, by_text()),
        forall|id: Seq<char>| #[trigger] all.contains(id) <==> primary_in(db, space, id),
        forall|b: Seq<char>| #[trigger] ids.contains(b) <==> connected(db, space, x, b),
        primary_in(db, space, x),
        !seen.contains(x),
        forall|j: int| 0 <= j < i ==> seen.contains(#[trigger] all[j]),
        closed_under(db, space, seen),
    ensures
        ids[0] == x,
{
    let y = ids[0];
    assert(ids.contains(y));
    let walk = seq![x];
    assert(is_walk(db, space, walk));
    assert(walk[0] == x && walk.last() == x);
    assert(connected(db, space, x, x));
    assert(ids.contains(x));
    let p = choose|p: int| 0 <= p < ids.len() && ids[p] == x;
    if y != x {
        assert(by_text()(ids[0], ids[p]));
        lemma_connected_primary(db, space, x, y);
        assert(all.contains(y));
        let k = choose|k: int| 0 <= k < all.len() && all[k] == y;
        if k >= i {
            assert(k > i);
            assert(by_text()(all[i], all[k]));
            crate::text::lemma_text_antisymmetric(x, y);
        }
        assert(seen.contains(all[k]));
        lemma_connected_symmetric(db, space, x, y);
        lemma_closed(db, space, seen, y, x);
    }
}

/// Whether a set holds, with each of its members, all that are related to it.
pub open spec fn closed_under(db: TablesView, space: Seq<char>, set: Seq<Seq<char>>) -> bool {
    forall|x: Seq<char>, y: Seq<char>|
        set.contains(x) && related(db, space, x, y) ==> set.contains(y)
}

proof fn lemma_connected_primary(db: TablesView, space: Seq<char>, a: Seq<char>, b: Seq<char>)
    requires
        connected(db, space, a, b),
        primary_in(db, space, a),
    ensures
        primary_in(db, space, b),
{
    let walk = choose|walk: Seq<Seq<char>>|
        #[trigger] is_walk(db, space, walk) && walk[0] == a && walk.last() == b;
    if walk.len() > 1 {
        let k = walk.len() - 2;
        assert(related(db, space, walk[k], walk[k + 1]));
    }
}

proof fn lemma_connected_symmetric(db: TablesView, space: Seq<char>, a: Seq<char>, b: Seq<char>)
    requires
        connected(db, space, a, b),
    ensures
        connected(db, space, b, a),
{
    let walk = choose|walk: Seq<Seq<char>>|
        #[trigger] is_walk(db, space, walk) && walk[0] == a && walk.last() == b;
    let back = walk.reverse();
    assert forall|i: int| 0 <= i < back.len() - 1 implies related(
        db,
        space,
        #[trigger] back[i],
        back[i + 1],
    ) by {
        let k = walk.len() - 2 - i;
        assert(related(db, space, walk[k], walk[k + 1]));
        lemma_related_symmetric(db, space, walk[k], walk[k + 1]);
    }
    assert(is_walk(db, space, back));
    assert(back[0] == b && back.last() == a);
}

} // verus!
