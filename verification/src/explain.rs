//! Explainability: why a statement is believed.
use vstd::prelude::*;

use crate::error::{fails_with, BrainError, BrainErrorView};
use crate::knowledge::{asserts, believes};
use crate::rows::{count, find, first_where, order, ordered, select, Row};
use crate::tables::{
    dup_text, Assertion, AssertionView, Belief, BeliefView, Mention, MentionRole, MentionView,
    Polarity, Statement, StatementView, Tables, TablesView,
};
use crate::text::str_eq;
use crate::time::Timestamp;

verus! {

/// One assertion as it is explained.
/// 
/// `confidence` holds the bit pattern of a single-precision number; `mention` is
/// the verbatim surface of the subject, where a mention is on record.
#[derive(Debug)]
pub struct AssertionDetail {
    pub assertion_id: String,
    pub episode_id: String,
    pub extractor: Option<String>,
    pub polarity: String,
    pub confidence: u32,
    pub recorded_at: Timestamp,
    pub mention: Option<String>,
}

/// [`AssertionDetail`] as a mathematical value.
#[verifier::ext_equal]
pub struct AssertionDetailView {
    pub assertion_id: Seq<char>,
    pub episode_id: Seq<char>,
    pub extractor: Option<Seq<char>>,
    pub polarity: Seq<char>,
    pub confidence: u32,
    pub recorded_at: Timestamp,
    pub mention: Option<Seq<char>>,
}

impl DeepView for AssertionDetail {
    type V = AssertionDetailView;

    open spec fn deep_view(&self) -> AssertionDetailView {
        AssertionDetailView {
            assertion_id: self.assertion_id@,
            episode_id: self.episode_id@,
            extractor: self.extractor.deep_view(),
            polarity: self.polarity@,
            confidence: self.confidence,
            recorded_at: self.recorded_at,
            mention: self.mention.deep_view(),
        }
    }
}

impl Row for AssertionDetail {
    fn dup(&self) -> (r: Self) {
        AssertionDetail {
            assertion_id: self.assertion_id.clone(),
            episode_id: self.episode_id.clone(),
            extractor: dup_text(&self.extractor),
            polarity: self.polarity.clone(),
            confidence: self.confidence,
            recorded_at: self.recorded_at,
            mention: dup_text(&self.mention),
        }
    }
}

impl Clone for AssertionDetail {
    fn clone(&self) -> (r: Self)
        ensures
            r.deep_view() == self.deep_view(),
    {
        self.dup()
    }
}

/// What the confidence rests on.
#[derive(Debug, Clone, Copy, PartialEq, Eq, Structural)]
pub struct ConfidenceBreakdown {
    pub raw_confidence: u32,
    pub support_count: usize,
    pub contradiction_count: usize,
}

/// Provenance and confidence of a statement.
#[derive(Debug)]
pub struct ExplainBlock {
    pub statement: Statement,
    pub status: String,
    pub assertions: Vec<AssertionDetail>,
    pub confidence_breakdown: ConfidenceBreakdown,
}

/// Selects a statement of a space by id.
pub open spec fn is_statement(space: Seq<char>, id: Seq<char>) -> spec_fn(StatementView) -> bool {
    |s: StatementView| s.space == space && s.id == id
}

/// The order of beliefs: the latest start first.
pub open spec fn by_latest_validity() -> spec_fn(BeliefView, BeliefView) -> bool {
    |a: BeliefView, b: BeliefView| a.valid_from.0 >= b.valid_from.0
}

/// The status of a statement: that of its belief with the latest start.
pub open spec fn current_status(beliefs: Seq<BeliefView>, statement: Seq<char>) -> Seq<char> {
    let found = ordered(beliefs.filter(believes(statement)), by_latest_validity());
    if found.len() > 0 {
        found[0].status
    } else {
        "unknown"@
    }
}

/// The name of a polarity.
pub open spec fn polarity_text(p: Polarity) -> Seq<char> {
    match p {
        Polarity::Affirm => "affirm"@,
        Polarity::Deny => "deny"@,
    }
}

fn show_polarity(p: Polarity) -> (r: &'static str)
    ensures
        r@ == polarity_text(p),
{
    match p {
        Polarity::Affirm => "affirm",
        Polarity::Deny => "deny",
    }
}

/// Selects the mentions of the subject in an assertion.
pub open spec fn names_subject(assertion: Seq<char>) -> spec_fn(MentionView) -> bool {
    |m: MentionView| m.assertion == assertion && m.role == MentionRole::Subject
}

/// An assertion explained, with a surface of its subject.
pub open spec fn detail(a: AssertionView, mention: Option<Seq<char>>) -> AssertionDetailView {
    AssertionDetailView {
        assertion_id: a.id,
        episode_id: a.episode,
        extractor: a.extractor,
        polarity: polarity_text(a.polarity),
        confidence: a.confidence,
        recorded_at: a.recorded_at,
        mention,
    }
}

/// An assertion explained: once for each mention of its subject, or once
/// without.
pub open spec fn details_of(mentions: Seq<MentionView>, a: AssertionView) -> Seq<
    AssertionDetailView,
> {
    let named = mentions.filter(names_subject(a.id));
    if named.len() == 0 {
        seq![detail(a, None)]
    } else {
        named.map_values(|m: MentionView| detail(a, Some(m.surface)))
    }
}

/// Assertions explained, one after the other.
pub open spec fn all_details(
    mentions: Seq<MentionView>,
    assertions: Seq<AssertionView>,
) -> Seq<AssertionDetailView>
    decreases assertions.len(),
{
    if assertions.len() == 0 {
        Seq::empty()
    } else {
        all_details(mentions, assertions.drop_last()) + details_of(mentions, assertions.last())
    }
}

/// The order of assertions: by the time they were recorded.
pub open spec fn by_record() -> spec_fn(AssertionView, AssertionView) -> bool {
    |a: AssertionView, b: AssertionView| a.recorded_at.0 <= b.recorded_at.0
}

/// The explained assertions of a statement, in the order they were recorded.
pub open spec fn explained(db: TablesView, statement: Seq<char>) -> Seq<AssertionDetailView> {
    all_details(
        db.mentions,
        ordered(db.assertions.filter(asserts(statement)), by_record()),
    )
}

/// Selects the explained assertions of one polarity.
pub open spec fn has_polarity(name: Seq<char>) -> spec_fn(AssertionDetailView) -> bool {
    |d: AssertionDetailView| d.polarity == name
}

fn make_detail(a: &Assertion, mention: Option<String>) -> (r: AssertionDetail)
    ensures
        r.deep_view() == detail(a.deep_view(), mention.deep_view()),
{
    AssertionDetail {
        assertion_id: a.id.clone(),
        episode_id: a.episode.clone(),
        extractor: dup_text(&a.extractor),
        polarity: show_polarity(a.polarity).to_owned(),
        confidence: a.confidence,
        recorded_at: a.recorded_at,
        mention,
    }
}

fn push_details(out: &mut Vec<AssertionDetail>, mentions: &Vec<Mention>, a: &Assertion)
    ensures
        final(out).deep_view() == old(out).deep_view() + details_of(
            mentions.deep_view(),
            a.deep_view(),
        ),
{
    let ghost before = out.deep_view();
    let ghost av = a.deep_view();
    let named = select(
        mentions,
        |m: &Mention| -> (b: bool)
            ensures
                b == names_subject(av.id)(m.deep_view())
            {
                let subject: bool = match m.role {
                    MentionRole::Subject => true,
                    MentionRole::Object => false,
                };
                str_eq(m.assertion.as_str(), a.id.as_str()) && subject
            },
        Ghost(names_subject(av.id)),
    );
    assert(named.deep_view().len() == named.len());
    if named.len() == 0 {
        out.push(make_detail(a, None));
        assert(out.deep_view() =~= before + seq![detail(av, None)]);
        return;
    }
    let ghost all = named.deep_view();
    let ghost g = |m: MentionView| detail(av, Some(m.surface));
    let mut i: usize = 0;
    assert(out.deep_view() =~= before + all.take(0).map_values(g));
    while i < named.len()
        invariant
            i <= named.len(),
            av == a.deep_view(),
            all == named.deep_view(),
            g == (|m: MentionView| detail(av, Some(m.surface))),
            out.deep_view() == before + all.take(i as int).map_values(g),
        decreases named.len() - i,
    {
        let ghost done = out.deep_view();
        let ghost m = all[i as int];
        assert(m == named[i as int].deep_view());
        out.push(make_detail(a, Some(named[i].surface.clone())));
        proof {
            assert(out.deep_view() =~= done.push(g(m)));
            assert(all.take(i + 1).map_values(g) =~= all.take(i as int).map_values(g).push(g(m)));
            assert(out.deep_view() =~= before + all.take(i + 1).map_values(g));
        }
        i = i + 1;
    }
    assert(all.take(i as int) =~= all);
}

fn status_of(db: &Tables, statement_id: &str) -> (r: String)
    ensures
        r@ == current_status(db.deep_view().beliefs, statement_id@),
{
    let found = order(
        select(
            &db.beliefs,
            |b: &Belief| -> (hit: bool)
                ensures
                    hit == believes(statement_id@)(b.deep_view())
                { str_eq(b.statement.as_str(), statement_id) },
            Ghost(believes(statement_id@)),
        ),
        |a: &Belief, b: &Belief| -> (le: bool)
            ensures
                le == by_latest_validity()(a.deep_view(), b.deep_view())
            { a.valid_from.0 >= b.valid_from.0 },
        Ghost(by_latest_validity()),
    );
    assert(found.deep_view().len() == found.len());
    if found.len() > 0 {
        assert(found.deep_view()[0] == found[0].deep_view());
        found[0].status.clone()
    } else {
        "unknown".to_owned()
    }
}

/// Provenance and confidence breakdown for a statement. A statement that is not
/// in the space is an error.
pub fn why(db: &Tables, space: &str, statement_id: &str) -> (r: Result<ExplainBlock, BrainError>)
    ensures
        match first_where(db.deep_view().statements, is_statement(space@, statement_id@)) {
            None => fails_with(r, BrainErrorView::Storage("Query returned no rows"@)),
            Some(s) => {
                let details = explained(db.deep_view(), statement_id@);
                &&& r matches Ok(block)
                &&& block.statement.deep_view() == s
                &&& block.status@ == current_status(db.deep_view().beliefs, statement_id@)
                &&& block.assertions.deep_view() == details
                &&& block.confidence_breakdown.support_count == details.filter(
                    has_polarity("affirm"@),
                ).len()
                &&& block.confidence_breakdown.contradiction_count == details.filter(
                    has_polarity("deny"@),
                ).len()
                &&& block.confidence_breakdown.raw_confidence == if details.len() > 0 {
                    details[0].confidence
                } else {
                    0
                }
            },
        },
{
    let i: usize = match find(
        &db.statements,
        |s: &Statement| -> (b: bool)
            ensures
                b == is_statement(space@, statement_id@)(s.deep_view())
            { str_eq(s.space.as_str(), space) && str_eq(s.id.as_str(), statement_id) },
        Ghost(is_statement(space@, statement_id@)),
    ) {
        Some(i) => i,
        None => {
            return Err(BrainError::Storage("Query returned no rows".to_owned()));
        },
    };
    assert(db.deep_view().statements[i as int] == db.statements[i as int].deep_view());
    let statement = db.statements[i].dup();
    let status = status_of(db, statement_id);
    let sorted = order(
        select(
            &db.assertions,
            |a: &Assertion| -> (b: bool)
                ensures
                    b == asserts(statement_id@)(a.deep_view())
                { str_eq(a.statement.as_str(), statement_id) },
            Ghost(asserts(statement_id@)),
        ),
        |a: &Assertion, b: &Assertion| -> (le: bool)
            ensures
                le == by_record()(a.deep_view(), b.deep_view())
            { a.recorded_at.0 <= b.recorded_at.0 },
        Ghost(by_record()),
    );
    let ghost all = sorted.deep_view();
    let ghost mentions = db.deep_view().mentions;
    let mut details: Vec<AssertionDetail> = Vec::new();
    let mut k: usize = 0;
    assert(all.take(0) =~= Seq::empty());
    assert(details.deep_view() =~= Seq::<AssertionDetailView>::empty());
    while k < sorted.len()
        invariant
            k <= sorted.len(),
            all == sorted.deep_view(),
            mentions == db.deep_view().mentions,
            details.deep_view() == all_details(mentions, all.take(k as int)),
        decreases sorted.len() - k,
    {
        proof {
            assert(all.take(k + 1).drop_last() =~= all.take(k as int));
            assert(all.take(k + 1).last() == all[k as int]);
            assert(all[k as int] == sorted[k as int].deep_view());
        }
        push_details(&mut details, &db.mentions, &sorted[k]);
        k = k + 1;
    }
    assert(all.take(k as int) =~= all);
    let support: usize = count(
        &details,
        |d: &AssertionDetail| -> (b: bool)
            ensures
                b == has_polarity("affirm"@)(d.deep_view())
            { str_eq(d.polarity.as_str(), "affirm") },
        Ghost(has_polarity("affirm"@)),
    );
    let against: usize = count(
        &details,
        |d: &AssertionDetail| -> (b: bool)
            ensures
                b == has_polarity("deny"@)(d.deep_view())
            { str_eq(d.polarity.as_str(), "deny") },
        Ghost(has_polarity("deny"@)),
    );
    assert(details.deep_view().len() == details.len());
    let raw: u32 = if details.len() > 0 {
        assert(details.deep_view()[0] == details[0].deep_view());
        details[0].confidence
    } else {
        0
    };
    Ok(
        ExplainBlock {
            statement,
            status,
            assertions: details,
            confidence_breakdown: ConfidenceBreakdown {
                raw_confidence: raw,
                support_count: support,
                contradiction_count: against,
            },
        },
    )
}

} // verus!
