//! What a recall puts into its layers, and what a statement is explained by.
use vstd::prelude::*;

use crate::context::{
    assembled, belief_cost, by_latest_ingest, is_recallable, kept_lines, line_ids, lines_text,
    packed, ranked_line, recent_episodes, recent_limit, rendered_belief, shown_confidence, shows,
    LayerKind, RecallHints,
};
use crate::error::BrainErrorView;
use crate::explain::{
    all_details, by_latest_validity, by_record, current_status, details_of, explained, has_polarity,
    is_statement, names_subject, AssertionDetailView,
};
use crate::knowledge::{asserts, believes};
use crate::query::TargetIdView;
use crate::rows::{
    first_where, is_order, lemma_both_contain, lemma_first_is, lemma_ordered_in_order,
    lemma_ordered_members, lemma_selected, lemma_top, ordered, tried,
};
use crate::tables::{
    AssertionView, BeliefView, EpisodeRowView, MentionRole, MentionView, ObjectView, Polarity,
    TablesView,
};
use crate::text::nat_text;
use crate::tokenizer::TokenizerPort;

verus! {

/// The recent episodes are the latest: live episodes of the space that say
/// something, the last ingested first, and none that is left out was ingested
/// after one that is there. There are up to five, or up to twenty where a session
/// starts or the topic changed.
pub proof fn law_recent_episodes_are_the_latest(
    db: TablesView,
    space: Seq<char>,
    hints: Option<RecallHints>,
)
    ensures
        ({
            let r = recent_episodes(db, space, hints);
            let limit: nat = if hints is Some && (hints->Some_0.is_session_start
                || hints->Some_0.topic_changed) {
                20
            } else {
                5
            };
            &&& r.len() <= limit
            &&& forall|i: int|
                0 <= i < r.len() ==> (#[trigger] r[i]).space == space && r[i].redacted_at is None
                    && r[i].content.len() > 0 && db.episodes.contains(r[i])
            &&& forall|i: int, j: int|
                0 <= i < j < r.len() ==> (#[trigger] r[i]).ingested_at.0 >= (
                #[trigger] r[j]).ingested_at.0
            &&& forall|e: EpisodeRowView|
                #![trigger db.episodes.contains(e)]
                db.episodes.contains(e) && e.space == space && e.redacted_at is None
                    && e.content.len() > 0 && !r.contains(e) ==> r.len() == limit && forall|i: int|
                    0 <= i < r.len() ==> (#[trigger] r[i]).ingested_at.0 >= e.ingested_at.0
        }),
{
    let p = is_recallable(space);
    let leq = by_latest_ingest();
    let r = recent_episodes(db, space, hints);
    assert(is_order(leq));
    lemma_top(db.episodes, p, leq, recent_limit(hints));
    assert forall|i: int| 0 <= i < r.len() implies (#[trigger] r[i]).space == space
        && r[i].redacted_at is None && r[i].content.len() > 0 && db.episodes.contains(r[i]) by {
        assert(p(r[i]));
    }
    assert forall|i: int, j: int| 0 <= i < j < r.len() implies (#[trigger] r[i]).ingested_at.0 >= (
    #[trigger] r[j]).ingested_at.0 by {
        assert(leq(r[i], r[j]));
    }
    assert forall|e: EpisodeRowView|
        #![trigger db.episodes.contains(e)]
        db.episodes.contains(e) && e.space == space && e.redacted_at is None && e.content.len() > 0
            && !r.contains(e) implies r.len() == recent_limit(hints) && forall|i: int|
        0 <= i < r.len() ==> (#[trigger] r[i]).ingested_at.0 >= e.ingested_at.0 by {
        assert(p(e));
        assert forall|i: int| 0 <= i < r.len() implies (#[trigger] r[i]).ingested_at.0
            >= e.ingested_at.0 by {
            assert(leq(r[i], e));
        }
    }
}

/// Episodes are packed whole and in order, until one does not fit into what is
/// left of the budget: from there on nothing is packed. The ids are those of the
/// packed episodes, and what they cost is added to what was spent.
pub proof fn law_episodes_are_packed_in_order<T: TokenizerPort>(
    t: T,
    episodes: Seq<EpisodeRowView>,
    budget: nat,
    spent: nat,
)
    ensures
        ({
            let p = packed(t, episodes, budget, spent);
            &&& p.ids.len() <= episodes.len()
            &&& p.truncated <==> p.ids.len() < episodes.len()
            &&& forall|i: int| 0 <= i < p.ids.len() ==> #[trigger] p.ids[i] == episodes[i].id
            &&& p.truncated ==> p.total + t.tokens(episodes[p.ids.len() as int].content) > budget
            &&& p.total == packed(t, episodes.take(p.ids.len() as int), budget, spent).total
            &&& p.text == packed(t, episodes.take(p.ids.len() as int), budget, spent).text
            &&& !p.truncated && episodes.len() > 0 ==> {
                let before = packed(t, episodes.drop_last(), budget, spent);
                &&& p.text == before.text + episodes.last().content + "\n"@
                &&& p.total == before.total + t.tokens(episodes.last().content)
                &&& p.total <= budget || t.tokens(episodes.last().content) == 0
            }
            &&& episodes.len() == 0 ==> p.total == spent && p.text.len() == 0
        }),
    decreases episodes.len(),
{
    let p = packed(t, episodes, budget, spent);
    if episodes.len() > 0 {
        let init = episodes.drop_last();
        law_episodes_are_packed_in_order(t, init, budget, spent);
        let before = packed(t, init, budget, spent);
        if before.truncated {
            assert(init.take(before.ids.len() as int) =~= episodes.take(p.ids.len() as int));
            assert(init[before.ids.len() as int] == episodes[before.ids.len() as int]);
        } else if p.truncated {
            assert(episodes.take(p.ids.len() as int) =~= init);
        } else {
            assert(episodes.take(p.ids.len() as int) =~= episodes);
        }
    } else {
        assert(episodes.take(0) =~= episodes);
    }
}

/// Lines of beliefs are kept from the front, as many as fit into the budget: with
/// one more they would not fit.
pub proof fn law_lines_are_kept_from_the_front<T: TokenizerPort>(
    t: T,
    lines: Seq<(Seq<char>, Seq<char>)>,
    budget: nat,
)
    ensures
        ({
            let k = kept_lines(t, lines, budget);
            &&& k.len() <= lines.len()
            &&& k == lines.take(k.len() as int)
            &&& k.len() > 0 ==> t.tokens(lines_text(k)) <= budget
            &&& k.len() < lines.len()
                ==> t.tokens(lines_text(lines.take(k.len() as int + 1))) > budget
        }),
    decreases lines.len(),
{
    let k = kept_lines(t, lines, budget);
    if lines.len() > 0 {
        let init = lines.drop_last();
        law_lines_are_kept_from_the_front(t, init, budget);
        let before = kept_lines(t, init, budget);
        if before.len() + 1 == lines.len() && t.tokens(lines_text(lines)) <= budget {
            assert(lines.take(k.len() as int) =~= lines);
        } else {
            assert(init.take(before.len() as int) =~= lines.take(before.len() as int));
            if before.len() < init.len() {
                assert(init.take(before.len() as int + 1) =~= lines.take(before.len() as int + 1));
            } else {
                assert(lines.take(before.len() as int + 1) =~= lines);
            }
        }
    } else {
        assert(lines.take(0) =~= lines);
    }
}

/// The text of lines is the lines, each ended.
pub proof fn law_lines_are_told_one_by_one(
    lines: Seq<(Seq<char>, Seq<char>)>,
    line: (Seq<char>, Seq<char>),
)
    ensures
        lines_text(Seq::<(Seq<char>, Seq<char>)>::empty()).len() == 0,
        lines_text(lines.push(line)) == lines_text(lines) + line.1 + "\n"@,
        line_ids(lines.push(line)) == line_ids(lines).push(line.0),
        line_ids(lines).len() == lines.len(),
{
    assert(lines.push(line).drop_last() =~= lines);
    assert(line_ids(lines.push(line)) =~= line_ids(lines).push(line.0));
}

/// What is assembled keeps to the budget, and says so where something was left out.
/// The beliefs come first, then the episodes; each layer has a text, the tokens
/// of that text, and the ids of what is in it.
pub proof fn law_context_keeps_to_its_budget<T: TokenizerPort>(
    db: TablesView,
    space: Seq<char>,
    ranking: Seq<TargetIdView>,
    texts: Seq<(u32, Seq<char>)>,
    budget: nat,
    hints: Option<RecallHints>,
    t: T,
)
    ensures
        assembled(db, space, ranking, texts, budget, hints, t) matches Ok(c) ==> {
            let lines = tried(ranking, ranked_line(db, space, texts))->Ok_0;
            let recent = recent_episodes(db, space, hints);
            let kept = kept_lines(t, lines, budget);
            let p = packed(t, recent, budget, belief_cost(t, kept));
            &&& c.total_tokens <= budget
            &&& c.max_tokens == budget
            &&& c.truncated <==> kept.len() < lines.len() || p.ids.len() < recent.len()
            &&& c.layers.len() <= 2
            &&& forall|i: int|
                0 <= i < c.layers.len() ==> (#[trigger] c.layers[i]).estimated_tokens == t.tokens(
                    c.layers[i].text,
                ) && c.layers[i].text.len() > 0
            &&& lines_text(kept).len() > 0 ==> {
                &&& c.layers.len() > 0
                &&& c.layers[0].kind == LayerKind::HighSalienceBeliefs
                &&& c.layers[0].text == lines_text(kept)
                &&& c.layers[0].provenance == line_ids(kept)
            }
            &&& p.text.len() > 0 ==> {
                &&& c.layers.len() > 0
                &&& c.layers.last().kind == LayerKind::RecentEpisodes
                &&& c.layers.last().text == p.text
                &&& c.layers.last().provenance == p.ids
            }
            &&& c.layers.len() == (if lines_text(kept).len() > 0 {
                1int
            } else {
                0
            }) + (if p.text.len() > 0 {
                1int
            } else {
                0
            })
        },
{
    if let Ok(c) = assembled(db, space, ranking, texts, budget, hints, t) {
        let lines = tried(ranking, ranked_line(db, space, texts))->Ok_0;
        let recent = recent_episodes(db, space, hints);
        let kept = kept_lines(t, lines, budget);
        law_lines_are_kept_from_the_front(t, lines, budget);
        law_episodes_are_packed_in_order(t, recent, budget, belief_cost(t, kept));
        crate::context::law_packing_keeps_to_budget(t, recent, budget, belief_cost(t, kept));
    }
}

/// The belief that counts for a statement is the one that begins last.
pub proof fn law_latest_belief_comes_first(beliefs: Seq<BeliefView>, id: Seq<char>)
    ensures
        ({
            let found = ordered(beliefs.filter(believes(id)), by_latest_validity());
            &&& found.len() > 0 <==> exists|i: int|
                0 <= i < beliefs.len() && (#[trigger] beliefs[i]).statement == id
            &&& found.len() > 0 ==> {
                &&& beliefs.contains(found[0])
                &&& found[0].statement == id
                &&& forall|i: int|
                    0 <= i < beliefs.len() && (#[trigger] beliefs[i]).statement == id
                        ==> beliefs[i].valid_from.0 <= found[0].valid_from.0
            }
        }),
{
    let p = believes(id);
    let leq = by_latest_validity();
    let found = ordered(beliefs.filter(p), leq);
    assert(is_order(leq));
    lemma_selected(beliefs, p);
    lemma_ordered_members(beliefs.filter(p), leq);
    lemma_ordered_in_order(beliefs.filter(p), leq);
    if found.len() > 0 {
        assert(found.contains(found[0]));
        assert(beliefs.filter(p).contains(found[0]));
        let k = choose|k: int| 0 <= k < beliefs.len() && beliefs[k] == found[0];
        assert(beliefs[k].statement == id);
    }
    assert forall|i: int| 0 <= i < beliefs.len() && (#[trigger] beliefs[i]).statement == id implies
        found.len() > 0 && beliefs[i].valid_from.0 <= found[0].valid_from.0 by {
        assert(beliefs.contains(beliefs[i]) && p(beliefs[i]));
        assert(beliefs.filter(p).contains(beliefs[i]));
        assert(found.contains(beliefs[i]));
        let n = choose|n: int| 0 <= n < found.len() && found[n] == beliefs[i];
        if n > 0 {
            assert(leq(found[0], found[n]));
        }
    }
}

/// The status of a statement is that of its belief that begins last, or unknown
/// where there is none.
pub proof fn law_status_is_that_of_the_latest_belief(beliefs: Seq<BeliefView>, id: Seq<char>)
    ensures
        (forall|i: int| 0 <= i < beliefs.len() ==> (#[trigger] beliefs[i]).statement != id)
            ==> current_status(beliefs, id) == "unknown"@,
        (exists|i: int| 0 <= i < beliefs.len() && (#[trigger] beliefs[i]).statement == id)
            ==> exists|k: int|
            0 <= k < beliefs.len() && (#[trigger] beliefs[k]).statement == id && beliefs[k].status
                == current_status(beliefs, id) && forall|i: int|
                0 <= i < beliefs.len() && (#[trigger] beliefs[i]).statement == id
                    ==> beliefs[i].valid_from.0 <= beliefs[k].valid_from.0,
{
    law_latest_belief_comes_first(beliefs, id);
    let found = ordered(beliefs.filter(believes(id)), by_latest_validity());
    if found.len() > 0 {
        let k = choose|k: int| 0 <= k < beliefs.len() && beliefs[k] == found[0];
        assert(beliefs[k].statement == id && beliefs[k].status == current_status(beliefs, id));
    }
}

/// The line of a belief tells the predicate and the object of its statement, and
/// the status and the confidence of the belief that begins last. A statement that
/// is not in the space, or has no belief, has no line.
pub proof fn law_belief_line_tells_the_latest_belief(
    db: TablesView,
    space: Seq<char>,
    id: Seq<char>,
    texts: Seq<(u32, Seq<char>)>,
)
    ensures
        match rendered_belief(db, space, id, texts) {
            Ok(line) => exists|j: int, k: int|
                #![trigger db.statements[j], db.beliefs[k]]
                0 <= j < db.statements.len() && 0 <= k < db.beliefs.len() && db.statements[j].id
                    == id && db.statements[j].space == space && db.beliefs[k].statement == id
                    && line == "... "@ + db.statements[j].predicate + " "@ + (
                match db.statements[j].object {
                    ObjectView::Entity(o) => o,
                    ObjectView::Literal(o) => o,
                }) + " (status="@ + db.beliefs[k].status + ", confidence="@ + shown_confidence(
                    texts,
                    db.beliefs[k].confidence,
                ) + ")"@ && forall|i: int|
                    0 <= i < db.beliefs.len() && (#[trigger] db.beliefs[i]).statement == id
                        ==> db.beliefs[i].valid_from.0 <= db.beliefs[k].valid_from.0,
            Err(e) => e is Storage && ((forall|j: int|
                0 <= j < db.statements.len() && (#[trigger] db.statements[j]).id == id
                    ==> db.statements[j].space != space) || (forall|k: int|
                0 <= k < db.beliefs.len() ==> (#[trigger] db.beliefs[k]).statement != id)),
        },
{
    let p = is_statement(space, id);
    lemma_first_is(db.statements, p);
    law_latest_belief_comes_first(db.beliefs, id);
    let found = ordered(db.beliefs.filter(believes(id)), by_latest_validity());
    match first_where(db.statements, p) {
        None => {
            assert forall|j: int|
                0 <= j < db.statements.len() && (#[trigger] db.statements[j]).id == id implies
                db.statements[j].space != space by {
                assert(!p(db.statements[j]));
            }
        },
        Some(s) => {
            if found.len() > 0 {
                let j = choose|j: int| 0 <= j < db.statements.len() && db.statements[j] == s;
                let k = choose|k: int| 0 <= k < db.beliefs.len() && db.beliefs[k] == found[0];
                assert(db.statements[j].id == id && db.beliefs[k].statement == id);
            }
        },
    }
}

/// Of what was ranked, the statements and no others become lines, each under its
/// own id.
pub proof fn law_statements_become_lines(
    db: TablesView,
    space: Seq<char>,
    texts: Seq<(u32, Seq<char>)>,
    target: TargetIdView,
)
    ensures
        match (target, ranked_line(db, space, texts)(target)) {
            (TargetIdView::Statement { id }, Ok(Some(l))) => l.0 == id && rendered_belief(
                db,
                space,
                id,
                texts,
            ) == Ok::<Seq<char>, BrainErrorView>(l.1),
            (TargetIdView::Statement { id }, Ok(None)) => false,
            (TargetIdView::Statement { id }, Err(_)) => rendered_belief(
                db,
                space,
                id,
                texts,
            ) is Err,
            (_, r) => r == Ok::<Option<(Seq<char>, Seq<char>)>, BrainErrorView>(None),
        },
{
}

/// A confidence is shown by the text that was given for it.
pub proof fn law_confidence_is_shown_by_its_text(texts: Seq<(u32, Seq<char>)>, bits: u32)
    ensures
        (exists|i: int| 0 <= i < texts.len() && (#[trigger] texts[i]).0 == bits) ==> exists|i: int|
            0 <= i < texts.len() && (#[trigger] texts[i]).0 == bits && shown_confidence(texts, bits)
                == texts[i].1,
        (forall|i: int| 0 <= i < texts.len() ==> (#[trigger] texts[i]).0 != bits)
            ==> shown_confidence(texts, bits) == nat_text(bits as nat),
{
    lemma_first_is(texts, shows(bits));
    match first_where(texts, shows(bits)) {
        Some(p) => {
            let i = choose|i: int| 0 <= i < texts.len() && texts[i] == p;
            assert(texts[i].0 == bits);
        },
        None => {
            assert forall|i: int| 0 <= i < texts.len() implies (#[trigger] texts[i]).0 != bits by {
                assert(!shows(bits)(texts[i]));
            }
        },
    }
}

/// The details of an assertion: who made it, how, with what confidence and when;
/// and a surface form of its subject for each mention of the subject.
pub proof fn law_details_tell_the_assertion(mentions: Seq<MentionView>, a: AssertionView)
    ensures
        ({
            let d = details_of(mentions, a);
            &&& d.len() > 0
            &&& forall|i: int|
                0 <= i < d.len() ==> {
                    let x = #[trigger] d[i];
                    &&& x.assertion_id == a.id
                    &&& x.episode_id == a.episode
                    &&& x.extractor == a.extractor
                    &&& x.polarity == if a.polarity == Polarity::Affirm {
                        "affirm"@
                    } else {
                        "deny"@
                    }
                    &&& x.confidence == a.confidence
                    &&& x.recorded_at == a.recorded_at
                    &&& match x.mention {
                        Some(s) => exists|k: int|
                            0 <= k < mentions.len() && (#[trigger] mentions[k]).assertion == a.id
                                && mentions[k].role == MentionRole::Subject && mentions[k].surface
                                == s,
                        None => d.len() == 1 && forall|k: int|
                            0 <= k < mentions.len() && (#[trigger] mentions[k]).assertion == a.id
                                ==> mentions[k].role != MentionRole::Subject,
                    }
                }
            &&& forall|k: int|
                0 <= k < mentions.len() && (#[trigger] mentions[k]).assertion == a.id
                    && mentions[k].role == MentionRole::Subject ==> exists|i: int|
                    0 <= i < d.len() && (#[trigger] d[i]).mention == Some(mentions[k].surface)
        }),
{
    let p = names_subject(a.id);
    let named = mentions.filter(p);
    let d = details_of(mentions, a);
    lemma_selected(mentions, p);
    assert forall|i: int| 0 <= i < d.len() implies ({
        let x = #[trigger] d[i];
        match x.mention {
            Some(s) => exists|k: int|
                0 <= k < mentions.len() && (#[trigger] mentions[k]).assertion == a.id
                    && mentions[k].role == MentionRole::Subject && mentions[k].surface == s,
            None => d.len() == 1 && forall|k: int|
                0 <= k < mentions.len() && (#[trigger] mentions[k]).assertion == a.id
                    ==> mentions[k].role != MentionRole::Subject,
        }
    }) by {
        if named.len() > 0 {
            let m = named[i];
            assert(p(named[i]) && mentions.contains(m));
            let k = choose|k: int| 0 <= k < mentions.len() && mentions[k] == m;
            assert(mentions[k].assertion == a.id);
        } else {
            assert forall|k: int|
                0 <= k < mentions.len() && (#[trigger] mentions[k]).assertion == a.id implies
                mentions[k].role != MentionRole::Subject by {
                if mentions[k].role == MentionRole::Subject {
                    assert(mentions.contains(mentions[k]) && p(mentions[k]));
                    assert(named.contains(mentions[k]));
                }
            }
        }
    }
    assert forall|k: int|
        0 <= k < mentions.len() && (#[trigger] mentions[k]).assertion == a.id && mentions[k].role
            == MentionRole::Subject implies exists|i: int|
        0 <= i < d.len() && (#[trigger] d[i]).mention == Some(mentions[k].surface) by {
        assert(mentions.contains(mentions[k]) && p(mentions[k]));
        assert(named.contains(mentions[k]));
        let i = choose|i: int| 0 <= i < named.len() && named[i] == mentions[k];
        assert(d[i].mention == Some(mentions[k].surface));
    }
}

/// Whether a detail is one of those of some assertion.
pub open spec fn is_detail_of_any(
    mentions: Seq<MentionView>,
    assertions: Seq<AssertionView>,
    x: AssertionDetailView,
) -> bool {
    exists|k: int|
        0 <= k < assertions.len() && details_of(mentions, #[trigger] assertions[k]).contains(x)
}

/// The details of assertions are those of each of them.
proof fn lemma_details_members(mentions: Seq<MentionView>, assertions: Seq<AssertionView>)
    ensures
        forall|x: AssertionDetailView| #[trigger]
            all_details(mentions, assertions).contains(x) <==> is_detail_of_any(
                mentions,
                assertions,
                x,
            ),
    decreases assertions.len(),
{
    if assertions.len() > 0 {
        let init = assertions.drop_last();
        let last = assertions.last();
        let n = assertions.len() - 1;
        lemma_details_members(mentions, init);
        let before = all_details(mentions, init);
        let more = details_of(mentions, last);
        let d = all_details(mentions, assertions);
        assert(d == before + more);
        assert(assertions[n] == last);
        assert forall|x: AssertionDetailView| #[trigger] d.contains(x) <==> is_detail_of_any(
            mentions,
            assertions,
            x,
        ) by {
            lemma_both_contain(before, more, x);
            if is_detail_of_any(mentions, init, x) {
                let k = choose|k: int|
                    0 <= k < init.len() && details_of(mentions, #[trigger] init[k]).contains(x);
                assert(assertions[k] == init[k]);
            }
            if more.contains(x) {
                assert(details_of(mentions, assertions[n]).contains(x));
            }
            if is_detail_of_any(mentions, assertions, x) {
                let k = choose|k: int|
                    0 <= k < assertions.len() && details_of(
                        mentions,
                        #[trigger] assertions[k],
                    ).contains(x);
                if k < n {
                    assert(init[k] == assertions[k]);
                }
            }
        }
    }
}

/// Whether assertions stand in the order of their records.
spec fn is_recorded_in_order(assertions: Seq<AssertionView>) -> bool {
    forall|k: int, l: int|
        0 <= k < l < assertions.len() ==> (#[trigger] assertions[k]).recorded_at.0 <= (
        #[trigger] assertions[l]).recorded_at.0
}

/// The details of assertions in the order of their records are in that order.
proof fn lemma_details_order(mentions: Seq<MentionView>, assertions: Seq<AssertionView>)
    requires
        is_recorded_in_order(assertions),
    ensures
        forall|i: int, j: int|
            0 <= i < j < all_details(mentions, assertions).len() ==> (#[trigger] all_details(
                mentions,
                assertions,
            )[i]).recorded_at.0 <= (#[trigger] all_details(
                mentions,
                assertions,
            )[j]).recorded_at.0,
    decreases assertions.len(),
{
    if assertions.len() > 0 {
        let init = assertions.drop_last();
        let last = assertions.last();
        let n = assertions.len() - 1;
        let before = all_details(mentions, init);
        let more = details_of(mentions, last);
        let d = all_details(mentions, assertions);
        assert(d == before + more);
        assert(assertions[n] == last);
        assert(is_recorded_in_order(init)) by {
            assert forall|k: int, l: int| 0 <= k < l < init.len() implies (
            #[trigger] init[k]).recorded_at.0 <= (#[trigger] init[l]).recorded_at.0 by {
                assert(init[k] == assertions[k] && init[l] == assertions[l]);
            }
        }
        lemma_details_order(mentions, init);
        assert forall|j: int| 0 <= j < more.len() implies (#[trigger] more[j]).recorded_at
            == last.recorded_at by {
            law_details_tell_the_assertion(mentions, last);
        }
        assert forall|i: int| 0 <= i < before.len() implies (#[trigger] before[i]).recorded_at.0
            <= last.recorded_at.0 by {
            lemma_details_members(mentions, init);
            assert(before.contains(before[i]));
            let k = choose|k: int|
                0 <= k < init.len() && details_of(mentions, #[trigger] init[k]).contains(
                    before[i],
                );
            law_details_tell_the_assertion(mentions, init[k]);
            assert(init[k] == assertions[k]);
            let own = details_of(mentions, init[k]);
            let m = choose|m: int| 0 <= m < own.len() && own[m] == before[i];
            assert(own[m].recorded_at == init[k].recorded_at);
        }
        assert forall|i: int, j: int| 0 <= i < j < d.len() implies (#[trigger] d[i]).recorded_at.0
            <= (#[trigger] d[j]).recorded_at.0 by {
            if j < before.len() {
                assert(d[i] == before[i] && d[j] == before[j]);
            } else {
                assert(d[j] == more[j - before.len()]);
                if i < before.len() {
                    assert(d[i] == before[i]);
                } else {
                    assert(d[i] == more[i - before.len()]);
                }
            }
        }
    }
}

/// All details of assertions, in the order of the assertions: each is of one of
/// them, and each of them has some.
proof fn lemma_all_details(mentions: Seq<MentionView>, assertions: Seq<AssertionView>)
    ensures
        ({
            let d = all_details(mentions, assertions);
            &&& forall|i: int|
                0 <= i < d.len() ==> exists|k: int|
                    0 <= k < assertions.len() && details_of(
                        mentions,
                        #[trigger] assertions[k],
                    ).contains(#[trigger] d[i])
            &&& forall|k: int, x: AssertionDetailView|
                #![trigger assertions[k], d.contains(x)]
                0 <= k < assertions.len() && details_of(mentions, assertions[k]).contains(x)
                    ==> d.contains(x)
            &&& (forall|k: int, l: int|
                0 <= k < l < assertions.len() ==> (#[trigger] assertions[k]).recorded_at.0 <= (
                #[trigger] assertions[l]).recorded_at.0) ==> forall|i: int, j: int|
                0 <= i < j < d.len() ==> (#[trigger] d[i]).recorded_at.0 <= (
                #[trigger] d[j]).recorded_at.0
        }),
{
    let d = all_details(mentions, assertions);
    lemma_details_members(mentions, assertions);
    assert forall|i: int| 0 <= i < d.len() implies exists|k: int|
        0 <= k < assertions.len() && details_of(mentions, #[trigger] assertions[k]).contains(
            #[trigger] d[i],
        ) by {
        assert(d.contains(d[i]));
        assert(is_detail_of_any(mentions, assertions, d[i]));
    }
    if is_recorded_in_order(assertions) {
        lemma_details_order(mentions, assertions);
    }
}

/// A statement is explained by the details of its assertions, of every one and of
/// no other, in the order in which they were recorded.
pub proof fn law_explanation_holds_every_assertion(db: TablesView, id: Seq<char>)
    ensures
        ({
            let d = explained(db, id);
            &&& forall|i: int|
                0 <= i < d.len() ==> exists|k: int|
                    0 <= k < db.assertions.len() && (#[trigger] db.assertions[k]).statement == id
                        && details_of(db.mentions, db.assertions[k]).contains(#[trigger] d[i])
            &&& forall|k: int, x: AssertionDetailView|
                #![trigger db.assertions[k], d.contains(x)]
                0 <= k < db.assertions.len() && db.assertions[k].statement == id && details_of(
                    db.mentions,
                    db.assertions[k],
                ).contains(x) ==> d.contains(x)
            &&& forall|i: int, j: int|
                0 <= i < j < d.len() ==> (#[trigger] d[i]).recorded_at.0 <= (
                #[trigger] d[j]).recorded_at.0
        }),
{
    let p = asserts(id);
    let leq = by_record();
    let own = ordered(db.assertions.filter(p), leq);
    let d = explained(db, id);
    assert(is_order(leq));
    lemma_selected(db.assertions, p);
    lemma_ordered_members(db.assertions.filter(p), leq);
    lemma_ordered_in_order(db.assertions.filter(p), leq);
    lemma_all_details(db.mentions, own);
    assert forall|k: int, l: int| 0 <= k < l < own.len() implies (#[trigger] own[k]).recorded_at.0
        <= (#[trigger] own[l]).recorded_at.0 by {
        assert(leq(own[k], own[l]));
    }
    assert forall|i: int| 0 <= i < d.len() implies exists|k: int|
        0 <= k < db.assertions.len() && (#[trigger] db.assertions[k]).statement == id && details_of(
            db.mentions,
            db.assertions[k],
        ).contains(#[trigger] d[i]) by {
        let n = choose|n: int|
            0 <= n < own.len() && details_of(db.mentions, #[trigger] own[n]).contains(d[i]);
        assert(own.contains(own[n]));
        assert(db.assertions.filter(p).contains(own[n]));
        let k = choose|k: int| 0 <= k < db.assertions.len() && db.assertions[k] == own[n];
        assert(db.assertions[k].statement == id);
    }
    assert forall|k: int, x: AssertionDetailView|
        #![trigger db.assertions[k], d.contains(x)]
        0 <= k < db.assertions.len() && db.assertions[k].statement == id && details_of(
            db.mentions,
            db.assertions[k],
        ).contains(x) implies d.contains(x) by {
        let a = db.assertions[k];
        assert(db.assertions.contains(a) && p(a));
        assert(db.assertions.filter(p).contains(a));
        assert(own.contains(a));
        let n = choose|n: int| 0 <= n < own.len() && own[n] == a;
        assert(details_of(db.mentions, own[n]).contains(x));
    }
}

/// The assertions for a statement are counted apart from those against it, and none
/// counts as both.
pub proof fn law_support_is_counted_by_polarity(details: Seq<AssertionDetailView>)
    ensures
        forall|d: AssertionDetailView| #[trigger]
            details.filter(has_polarity("affirm"@)).contains(d) <==> details.contains(d)
                && d.polarity == "affirm"@,
        forall|d: AssertionDetailView| #[trigger]
            details.filter(has_polarity("deny"@)).contains(d) <==> details.contains(d)
                && d.polarity == "deny"@,
        "affirm"@ != "deny"@,
{
    reveal_strlit("affirm");
    reveal_strlit("deny");
    assert("affirm"@.len() == 6 && "deny"@.len() == 4);
    crate::rows::lemma_selected(details, has_polarity("affirm"@));
    crate::rows::lemma_selected(details, has_polarity("deny"@));
}

} // verus!
