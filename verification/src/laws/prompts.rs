//! What the prompts hold and the figures that go with them.
use vstd::prelude::*;

use crate::error::BrainErrorView;
use crate::prompts::{
    concatenated, episode_part, is_about_any, is_counted, is_disputed, is_episode, is_single,
    is_supporting, is_untrusted, joined, latest_ingest, reads, shown_belief, shows_belief,
    supports_any, SupportFacts,
};
use crate::rows::{first_where, lemma_first_is, lemma_selected, lemma_tried, some_where, tried};
use crate::tables::{BeliefView, EpisodeRowView, TablesView};

verus! {

/// Texts put one after the other hold each of them, where the ones before it end.
pub proof fn law_texts_follow_one_another(texts: Seq<Seq<char>>, i: int)
    requires
        0 <= i < texts.len(),
    ensures
        ({
            let all = concatenated(texts);
            let at = concatenated(texts.take(i)).len() as int;
            &&& at + texts[i].len() <= all.len()
            &&& all.subrange(at, at + texts[i].len()) == texts[i]
        }),
    decreases texts.len(),
{
    let init = texts.drop_last();
    let before = concatenated(init);
    let all = concatenated(texts);
    let at = concatenated(texts.take(i)).len() as int;
    if i == texts.len() - 1 {
        assert(texts.take(i) =~= init);
        assert(all.subrange(at, at + texts[i].len()) =~= texts[i]);
    } else {
        law_texts_follow_one_another(init, i);
        assert(init.take(i) =~= texts.take(i));
        assert(init[i] == texts[i]);
        assert(all.subrange(at, at + texts[i].len()) =~= before.subrange(at, at + texts[i].len()));
    }
}

/// Joined texts are as long as the texts and a separator between each two, and
/// joining on from a text puts one separator and the next text behind it.
pub proof fn law_texts_are_joined(texts: Seq<Seq<char>>, separator: Seq<char>, next: Seq<char>)
    ensures
        texts.len() == 0 ==> joined(texts.push(next), separator) == next,
        texts.len() > 0 ==> joined(texts.push(next), separator) == joined(texts, separator)
            + separator + next,
        texts.len() > 0 ==> joined(texts, separator).len() == concatenated(texts).len() + (
        texts.len() - 1) * separator.len(),
    decreases texts.len(),
{
    assert(texts.push(next).drop_last() =~= texts);
    if texts.len() > 0 {
        law_texts_are_joined(texts.drop_last(), separator, next);
        if texts.len() == 1 {
            assert(texts.drop_last() =~= Seq::empty());
            assert(concatenated(texts.drop_last()).len() == 0);
            assert(0 * separator.len() == 0);
        } else {
            assert((texts.len() - 2) * separator.len() + separator.len() == (texts.len() - 1)
                * separator.len()) by (nonlinear_arith);
        }
    }
}

/// A prompt over episodes quotes each of them by id with its content, in the order
/// given; an episode that is not in the space fails it.
pub proof fn law_prompt_quotes_every_episode(
    db: TablesView,
    space: Seq<char>,
    ids: Seq<Seq<char>>,
)
    ensures
        match tried(ids, episode_part(db, space)) {
            Ok(parts) => forall|i: int|
                0 <= i < ids.len() ==> exists|k: int|
                    0 <= k < db.episodes.len() && (#[trigger] db.episodes[k]).id
                        == #[trigger] ids[i]
                        && db.episodes[k].space == space && parts.contains(
                        "--- Episode "@ + ids[i] + " ---\n"@ + db.episodes[k].content + "\n\n"@,
                    ),
            Err(e) => e is Storage && exists|i: int|
                0 <= i < ids.len() && forall|k: int|
                    0 <= k < db.episodes.len() && (#[trigger] db.episodes[k]).id
                        == #[trigger] ids[i]
                        ==> db.episodes[k].space != space,
        },
{
    let g = episode_part(db, space);
    lemma_tried(ids, g);
    match tried(ids, g) {
        Ok(parts) => {
            assert forall|i: int| 0 <= i < ids.len() implies exists|k: int|
                0 <= k < db.episodes.len() && (#[trigger] db.episodes[k]).id == #[trigger] ids[i]
                    && db.episodes[k].space == space && parts.contains(
                    "--- Episode "@ + ids[i] + " ---\n"@ + db.episodes[k].content + "\n\n"@,
                ) by {
                assert(g(ids[i]) is Ok);
                let p = is_episode(space, ids[i]);
                lemma_first_is(db.episodes, p);
                let e = first_where(db.episodes, p)->Some_0;
                let k = choose|k: int| 0 <= k < db.episodes.len() && db.episodes[k] == e;
                let w = "--- Episode "@ + ids[i] + " ---\n"@ + db.episodes[k].content + "\n\n"@;
                assert(g(ids[i]) == Ok::<Option<Seq<char>>, BrainErrorView>(Some(w)));
                assert(parts.contains(w));
                assert(db.episodes[k].id == ids[i]);
            }
        },
        Err(e) => {
            let i = choose|i: int|
                0 <= i < ids.len() && g(#[trigger] ids[i]) == Err::<
                    Option<Seq<char>>,
                    BrainErrorView,
                >(e) && forall|j: int| 0 <= j < i ==> g(#[trigger] ids[j]) is Ok;
            let p = is_episode(space, ids[i]);
            lemma_first_is(db.episodes, p);
            assert forall|k: int|
                0 <= k < db.episodes.len() && (#[trigger] db.episodes[k]).id
                    == ids[i] implies db.episodes[k].space != space by {
                assert(!p(db.episodes[k]));
            }
        },
    }
}

/// A belief is shown by the text given for its status and confidence, and else by
/// its status.
pub proof fn law_belief_is_shown_by_its_text(
    texts: Seq<(Seq<char>, u32, Seq<char>)>,
    b: BeliefView,
)
    ensures
        (exists|i: int|
            0 <= i < texts.len() && (#[trigger] texts[i]).0 == b.status && texts[i].1
                == b.confidence) ==> exists|i: int|
            0 <= i < texts.len() && (#[trigger] texts[i]).0 == b.status && texts[i].1
                == b.confidence && shown_belief(texts)(b) == texts[i].2,
        (forall|i: int|
            0 <= i < texts.len() && (#[trigger] texts[i]).0 == b.status ==> texts[i].1
                != b.confidence) ==> shown_belief(texts)(b) == b.status,
{
    let p = shows_belief(b.status, b.confidence);
    lemma_first_is(texts, p);
    if exists|i: int|
        0 <= i < texts.len() && (#[trigger] texts[i]).0 == b.status && texts[i].1
            == b.confidence {
        let i = choose|i: int|
            0 <= i < texts.len() && (#[trigger] texts[i]).0 == b.status && texts[i].1
                == b.confidence;
        assert(p(texts[i]));
        let t = first_where(texts, p)->Some_0;
        let k = choose|k: int| 0 <= k < texts.len() && texts[k] == t;
        assert(texts[k].0 == b.status);
    }
}

/// Whether a statement is about one of some entities of a space.
pub open spec fn is_about_one(
    db: TablesView,
    space: Seq<char>,
    entities: Seq<Seq<char>>,
    id: Seq<char>,
) -> bool {
    exists|k: int|
        0 <= k < db.statements.len() && (#[trigger] db.statements[k]).id == id
            && db.statements[k].space == space && entities.contains(db.statements[k].subject)
}

/// Some statement with an id is about one of the entities.
proof fn lemma_about_one(
    db: TablesView,
    space: Seq<char>,
    entities: Seq<Seq<char>>,
    id: Seq<char>,
)
    ensures
        some_where(db.statements, is_about_any(space, entities, id)) <==> is_about_one(
            db,
            space,
            entities,
            id,
        ),
{
    let p = is_about_any(space, entities, id);
    if is_about_one(db, space, entities, id) {
        let k = choose|k: int|
            0 <= k < db.statements.len() && (#[trigger] db.statements[k]).id == id
                && db.statements[k].space == space && entities.contains(db.statements[k].subject);
        assert(p(db.statements[k]));
    }
    if some_where(db.statements, p) {
        let k = choose|k: int| 0 <= k < db.statements.len() && p(#[trigger] db.statements[k]);
        assert(db.statements[k].id == id);
    }
}

/// The beliefs that are counted are those about the entities that are active,
/// superseded or contradicted.
pub proof fn law_counted_beliefs_are_about_the_entities(
    db: TablesView,
    space: Seq<char>,
    entities: Seq<Seq<char>>,
)
    ensures
        forall|b: BeliefView| #[trigger]
            db.beliefs.filter(is_counted(db, space, entities)).contains(b) <==> db.beliefs.contains(
                b,
            ) && is_about_one(db, space, entities, b.statement) && (b.status == "active"@
                || b.status == "superseded"@ || b.status == "contradicted"@),
        forall|b: BeliefView| #[trigger]
            db.beliefs.filter(is_counted(db, space, entities)).filter(is_disputed()).contains(b)
                <==> db.beliefs.contains(b) && is_about_one(db, space, entities, b.statement)
                && b.status == "contradicted"@,
{
    let p = is_counted(db, space, entities);
    let counted = db.beliefs.filter(p);
    lemma_selected(db.beliefs, p);
    lemma_selected(counted, is_disputed());
    assert forall|b: BeliefView| #[trigger] counted.contains(b) <==> db.beliefs.contains(b)
        && is_about_one(db, space, entities, b.statement) && (b.status == "active"@ || b.status
        == "superseded"@ || b.status == "contradicted"@) by {
        lemma_about_one(db, space, entities, b.statement);
    }
}

/// A belief counts as of one source, or as resting on what is not trusted, by the
/// record of its support; without a readable record it counts as neither.
pub proof fn law_support_is_counted_by_its_record(
    supports: Seq<(Seq<char>, SupportFacts)>,
    b: BeliefView,
    i: int,
)
    requires
        0 <= i < supports.len(),
        supports[i].0 == b.support_json,
        forall|j: int| 0 <= j < i ==> (#[trigger] supports[j]).0 != b.support_json,
    ensures
        is_single(supports)(b) <==> supports[i].1.distinct_episodes <= 1,
        is_untrusted(supports)(b) <==> supports[i].1.untrusted,
{
    crate::rows::lemma_first_where(supports, reads(b.support_json), i);
}

/// Without a readable record of its support a belief counts neither as of one source
/// nor as resting on what is not trusted.
pub proof fn law_unread_support_is_not_counted(
    supports: Seq<(Seq<char>, SupportFacts)>,
    b: BeliefView,
)
    requires
        forall|j: int| 0 <= j < supports.len() ==> (#[trigger] supports[j]).0 != b.support_json,
    ensures
        !is_single(supports)(b),
        !is_untrusted(supports)(b),
{
    lemma_first_is(supports, reads(b.support_json));
}

/// The supporting episodes are those with an assertion of a statement about one of
/// the entities.
pub proof fn law_supporting_episodes_assert(
    db: TablesView,
    space: Seq<char>,
    entities: Seq<Seq<char>>,
)
    ensures
        forall|e: EpisodeRowView| #[trigger]
            db.episodes.filter(is_supporting(db, space, entities)).contains(e)
                <==> db.episodes.contains(e) && exists|k: int|
                0 <= k < db.assertions.len() && (#[trigger] db.assertions[k]).episode == e.id
                    && is_about_one(db, space, entities, db.assertions[k].statement),
{
    let p = is_supporting(db, space, entities);
    lemma_selected(db.episodes, p);
    assert forall|e: EpisodeRowView| #[trigger]
        db.episodes.filter(p).contains(e) <==> db.episodes.contains(e) && exists|k: int|
            0 <= k < db.assertions.len() && (#[trigger] db.assertions[k]).episode == e.id
                && is_about_one(db, space, entities, db.assertions[k].statement) by {
        assert(db.episodes.filter(p).contains(e) <==> db.episodes.contains(e) && p(e));
        let q = supports_any(db, space, entities, e.id);
        if p(e) {
            let k = choose|k: int| 0 <= k < db.assertions.len() && q(#[trigger] db.assertions[k]);
            lemma_about_one(db, space, entities, db.assertions[k].statement);
            assert(db.assertions[k].episode == e.id);
        }
        if exists|k: int|
            0 <= k < db.assertions.len() && (#[trigger] db.assertions[k]).episode == e.id
                && is_about_one(db, space, entities, db.assertions[k].statement) {
            let k = choose|k: int|
                0 <= k < db.assertions.len() && (#[trigger] db.assertions[k]).episode == e.id
                    && is_about_one(db, space, entities, db.assertions[k].statement);
            lemma_about_one(db, space, entities, db.assertions[k].statement);
            assert(q(db.assertions[k]));
        }
    }
}

/// The newest of some episodes is the one ingested last.
pub proof fn law_newest_episode_is_the_latest(episodes: Seq<EpisodeRowView>)
    ensures
        match latest_ingest(episodes) {
            None => episodes.len() == 0,
            Some(t) => {
                &&& exists|i: int|
                    0 <= i < episodes.len() && (#[trigger] episodes[i]).ingested_at == t
                &&& forall|i: int|
                    0 <= i < episodes.len() ==> (#[trigger] episodes[i]).ingested_at.0 <= t.0
            },
        },
    decreases episodes.len(),
{
    if episodes.len() > 0 {
        let init = episodes.drop_last();
        let n = episodes.len() - 1;
        law_newest_episode_is_the_latest(init);
        assert(episodes[n] == episodes.last());
        let t = latest_ingest(episodes)->Some_0;
        assert forall|i: int| 0 <= i < episodes.len() implies (#[trigger] episodes[i]).ingested_at.0
            <= t.0 by {
            if i < n {
                assert(init[i] == episodes[i]);
            }
        }
        if let Some(u) = latest_ingest(init) {
            let i = choose|i: int| 0 <= i < init.len() && (#[trigger] init[i]).ingested_at == u;
            assert(episodes[i].ingested_at == u);
        }
    }
}

} // verus!
