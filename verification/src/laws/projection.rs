//! What a declaration and a claim write, and what resolving a name does.
use vstd::prelude::*;

use crate::error::BrainErrorView;
use crate::extraction::{
    claimed_plan, mention_ref, ClaimBothView, ClaimMentionView, ClaimObjectView,
};
use crate::ledger::{EpisodeKind, SourceRefView};
use crate::project::{
    after_naming, byte_len, declaration_episode, declaration_error, literal_of, refold_of,
    resolve_question, with_assertion, with_resolution, BothResolvedView, CERTAIN, DecisionView,
    DeclObjectView, DeclarationView, EntityRefView, NamesView, OtherSideView, ResolutionView,
    SALIENCE_DEFAULT, TypedValueView,
};
use crate::registry::{predicate_named, seeded};
use crate::rows::{first_where, lemma_first_is, lemma_selected};
use crate::tables::{
    AssertionView, EntityKeyView, KeyOrigin, MentionRole, MergeDecisionView, ObjectView, Polarity,
    PredicateRowView, ResolutionMethodView, TablesView, TrustTier,
};
use crate::time::{TIME_MAX, TIME_MIN, Timestamp};

verus! {

/// A claim is written as it was made. Where the ids are new, there is one more
/// statement, with the subject and the object that the mentions were resolved to;
/// one more assertion of it, by the episode and the extractor, with the polarity,
/// the confidence and the times of the claim, open at an end that it does not
/// give; and a mention for each side that names an entity, with its place in the
/// text. Nothing else is written.
pub proof fn law_claim_is_written_as_made(db: TablesView, both: ClaimBothView, names: NamesView)
    requires
        forall|i: int|
            0 <= i < db.statements.len() ==> (#[trigger] db.statements[i]).id != names.statement,
        forall|i: int|
            0 <= i < db.assertions.len() ==> (#[trigger] db.assertions[i]).id != names.assertion,
        forall|i: int|
            0 <= i < db.mentions.len() ==> (#[trigger] db.mentions[i]).id != names.subject_mention
                && db.mentions[i].id != names.object_mention,
        names.subject_mention != names.object_mention,
        both.object is Entity <==> both.subject.run.claim.object is Entity,
    ensures
        ({
            let run = both.subject.run;
            let claim = run.claim;
            let after = with_assertion(db, claimed_plan(both, names));
            let s = after.statements.last();
            let a = after.assertions.last();
            let m = after.mentions[db.mentions.len() as int];
            &&& after.statements == db.statements.push(s)
            &&& s.id == names.statement
            &&& s.space == run.space
            &&& s.subject == both.subject.entity
            &&& s.predicate == claim.predicate
            &&& both.object matches OtherSideView::Entity { id, .. } ==> s.object
                == ObjectView::Entity(id)
            &&& both.object is Literal ==> s.object == ObjectView::Literal(names.literal_json)
            &&& after.assertions == db.assertions.push(a)
            &&& a.id == names.assertion
            &&& a.statement == names.statement
            &&& a.episode == run.episode
            &&& a.extractor == Some(run.extractor)
            &&& a.polarity == claim.polarity
            &&& claim.valid_from matches Some(f) ==> a.claimed_from.0 == f
            &&& claim.valid_from is None ==> a.claimed_from.0 == TIME_MIN
            &&& claim.valid_to matches Some(t) ==> a.claimed_to.0 == t
            &&& claim.valid_to is None ==> a.claimed_to.0 == TIME_MAX
            &&& a.confidence == claim.confidence
            &&& a.recorded_at == run.now
            &&& a.retracted_at is None
            &&& a.trust == run.trust
            &&& m.id == names.subject_mention
            &&& m.assertion == names.assertion
            &&& m.role == MentionRole::Subject
            &&& m.surface == claim.subject.surface
            &&& m.span_start == claim.subject.span_start
            &&& m.span_end == claim.subject.span_end
            &&& m.resolved_to == Some(both.subject.entity)
            &&& m.method == both.subject.method
            &&& match (both.object, claim.object) {
                (
                    OtherSideView::Entity { id, method, surface, .. },
                    ClaimObjectView::Entity { mention },
                ) => {
                    let n = after.mentions.last();
                    &&& after.mentions == db.mentions.push(m).push(n)
                    &&& n.id == names.object_mention
                    &&& n.assertion == names.assertion
                    &&& n.role == MentionRole::Object
                    &&& n.surface == surface
                    &&& n.span_start == mention.span_start
                    &&& n.span_end == mention.span_end
                    &&& n.resolved_to == Some(id)
                    &&& n.method == method
                },
                _ => after.mentions == db.mentions.push(m),
            }
            &&& after.entities == db.entities
            &&& after.keys == db.keys
            &&& after.episodes == db.episodes
            &&& after.beliefs == db.beliefs
        }),
{
    let plan = claimed_plan(both, names);
    let after = with_assertion(db, plan);
    assert(after.statements =~= db.statements.push(plan.statement));
    assert(after.assertions =~= db.assertions.push(plan.assertion));
    assert(!crate::rows::some_where(
        db.mentions.push(plan.subject_mention),
        crate::knowledge::mention_has_id(names.object_mention),
    )) by {
        let t = db.mentions.push(plan.subject_mention);
        assert forall|i: int| 0 <= i < t.len() implies (#[trigger] t[i]).id
            != names.object_mention by {
            if i < db.mentions.len() {
                assert(t[i] == db.mentions[i]);
            }
        }
    }
}

/// A declared statement is written as it was declared. Where the ids are new,
/// there is one more statement between the two sides, and one more assertion of
/// it by the declaration's episode, trusted and certain, with the declared
/// polarity, from the declared start to the declared end.
pub proof fn law_declared_statement_is_written_as_declared(
    db: TablesView,
    both: BothResolvedView,
    names: NamesView,
)
    requires
        both.first.run.decl is AddStatement,
        forall|i: int|
            0 <= i < db.statements.len() ==> (#[trigger] db.statements[i]).id != names.statement,
        forall|i: int|
            0 <= i < db.assertions.len() ==> (#[trigger] db.assertions[i]).id != names.assertion,
        forall|i: int|
            0 <= i < db.mentions.len() ==> (#[trigger] db.mentions[i]).id != names.subject_mention
                && db.mentions[i].id != names.object_mention,
        names.subject_mention != names.object_mention,
    ensures
        ({
            let run = both.first.run;
            let after = after_naming(db, both, names);
            let s = after.statements.last();
            let a = after.assertions.last();
            let m = after.mentions[db.mentions.len() as int];
            &&& run.decl matches DeclarationView::AddStatement {
                subject,
                predicate,
                polarity,
                valid_from,
                valid_to,
                ..
            }
            &&& after.statements == db.statements.push(s)
            &&& s.id == names.statement
            &&& s.space == run.space
            &&& s.subject == both.first.entity
            &&& s.predicate == predicate
            &&& both.other matches OtherSideView::Entity { id, .. } ==> s.object
                == ObjectView::Entity(id)
            &&& both.other is Literal ==> s.object == ObjectView::Literal(names.literal_json)
            &&& after.assertions == db.assertions.push(a)
            &&& a.id == names.assertion
            &&& a.statement == names.statement
            &&& a.episode == run.episode
            &&& a.extractor is None
            &&& polarity == "affirm"@ ==> a.polarity == Polarity::Affirm
            &&& polarity == "deny"@ ==> a.polarity == Polarity::Deny
            &&& a.claimed_from.0 == valid_from
            &&& a.claimed_to.0 == valid_to
            &&& a.confidence == CERTAIN
            &&& a.recorded_at == run.now
            &&& a.retracted_at is None
            &&& a.trust == TrustTier::Trusted
            &&& m.id == names.subject_mention
            &&& m.assertion == names.assertion
            &&& m.role == MentionRole::Subject
            &&& m.surface == subject.surface
            &&& m.span_start == 0
            &&& byte_len(subject.surface) <= u32::MAX ==> m.span_end == byte_len(subject.surface)
            &&& m.resolved_to == Some(both.first.entity)
            &&& m.method == both.first.method
            &&& match both.other {
                OtherSideView::Entity { id, method, surface, ty } => {
                    let n = after.mentions.last();
                    &&& after.mentions == db.mentions.push(m).push(n)
                    &&& n.id == names.object_mention
                    &&& n.assertion == names.assertion
                    &&& n.role == MentionRole::Object
                    &&& n.surface == surface
                    &&& n.resolved_to == Some(id)
                    &&& n.method == method
                    &&& n.span_start == 100
                },
                OtherSideView::Literal(_) => after.mentions == db.mentions.push(m),
            }
            &&& after.entities == db.entities
            &&& after.keys == db.keys
            &&& after.merges == db.merges
            &&& after.episodes == db.episodes
            &&& after.beliefs == db.beliefs
        }),
{
    reveal_strlit("affirm");
    reveal_strlit("deny");
    let after = after_naming(db, both, names);
    let s = after.statements.last();
    assert(after.statements =~= db.statements.push(s));
    let a = after.assertions.last();
    assert(after.assertions =~= db.assertions.push(a));
    assert("affirm"@.len() != "deny"@.len());
    let m = after.mentions[db.mentions.len() as int];
    assert(!crate::rows::some_where(
        db.mentions.push(m),
        crate::knowledge::mention_has_id(names.object_mention),
    )) by {
        let t = db.mentions.push(m);
        assert forall|i: int| 0 <= i < t.len() implies (#[trigger] t[i]).id
            != names.object_mention by {
            if i < db.mentions.len() {
                assert(t[i] == db.mentions[i]);
            }
        }
    }
}

/// A declared merge is on record as the user's decision, with its episode and time;
/// the loser, and no other entity, points at the winner from then on; and nothing
/// else is written.
pub proof fn law_declared_merge_is_on_record(
    db: TablesView,
    both: BothResolvedView,
    names: NamesView,
    winner: Seq<char>,
)
    requires
        both.first.run.decl is Merge,
        both.other matches OtherSideView::Entity { id, .. } && id == winner,
        forall|i: int| 0 <= i < db.merges.len() ==> (#[trigger] db.merges[i]).id != names.merge,
    ensures
        ({
            let run = both.first.run;
            let after = after_naming(db, both, names);
            let m = after.merges.last();
            &&& after.merges == db.merges.push(m)
            &&& m.id == names.merge
            &&& m.loser == both.first.entity
            &&& m.winner == winner
            &&& m.decided_by == MergeDecisionView::User
            &&& m.provenance == run.episode
            &&& m.decided_at == run.now
            &&& m.undone_at is None
            &&& after.entities.len() == db.entities.len()
            &&& forall|i: int|
                0 <= i < db.entities.len() ==> (#[trigger] after.entities[i]).merged_into
                    == if db.entities[i].id == both.first.entity {
                    Some(winner)
                } else {
                    db.entities[i].merged_into
                } && after.entities[i].id == db.entities[i].id && after.entities[i].space
                    == db.entities[i].space && after.entities[i].ty == db.entities[i].ty
                    && after.entities[i].salience == db.entities[i].salience
            &&& after.statements == db.statements
            &&& after.assertions == db.assertions
            &&& after.mentions == db.mentions
            &&& after.keys == db.keys
            &&& after.beliefs == db.beliefs
        }),
{
    let after = after_naming(db, both, names);
    let m = after.merges.last();
    assert(after.merges =~= db.merges.push(m));
}

/// A retraction closes every assertion of the statement that stood, as of its
/// time: what was retracted before keeps its time, and nothing else of any
/// assertion changes, nor any other table.
pub proof fn law_retraction_closes_what_stood(
    db: TablesView,
    both: BothResolvedView,
    names: NamesView,
)
    requires
        both.first.run.decl is Retract,
    ensures
        ({
            let after = after_naming(db, both, names);
            &&& after.assertions.len() == db.assertions.len()
            &&& forall|i: int|
                #![trigger after.assertions[i]]
                0 <= i < db.assertions.len() ==> {
                    let a = db.assertions[i];
                    let b = after.assertions[i];
                    &&& b.retracted_at == if a.statement == names.statement
                        && a.retracted_at is None {
                        Some(both.first.run.now)
                    } else {
                        a.retracted_at
                    }
                    &&& b == (AssertionView { retracted_at: b.retracted_at, ..a })
                }
            &&& after.statements == db.statements
            &&& after.mentions == db.mentions
            &&& after.entities == db.entities
            &&& after.keys == db.keys
            &&& after.merges == db.merges
            &&& after.beliefs == db.beliefs
        }),
{
}

/// The group that is folded again after a declaration or a claim is that of the
/// subject and predicate, as of the time of the run, under the definition of the
/// predicate; there is none where the predicate is not registered.
pub proof fn law_folded_group_is_of_the_subject(
    db: TablesView,
    space: Seq<char>,
    subject: Seq<char>,
    predicate: Seq<char>,
    at: Timestamp,
)
    ensures
        match refold_of(db, space, subject, predicate, at) {
            None => forall|n: int|
                0 <= n < db.predicates.len() ==> (#[trigger] db.predicates[n]).name != predicate,
            Some(r) => {
                &&& r.space == space
                &&& r.subject == subject
                &&& r.predicate == predicate
                &&& r.at == at
                &&& exists|n: int|
                    0 <= n < db.predicates.len() && (#[trigger] db.predicates[n]).name == predicate
                        && db.predicates[n].def_json == r.def_json
                &&& forall|i: int|
                    0 <= i < r.group.len() ==> (#[trigger] r.group[i]).statement.subject == subject
                        && r.group[i].statement.predicate == predicate
                        && r.group[i].statement.space == space
            },
        },
{
    lemma_first_is(db.predicates, predicate_named(predicate));
    crate::laws::knowledge::law_group_holds_what_is_asserted(db, space, subject, predicate);
    assert forall|n: int|
        refold_of(db, space, subject, predicate, at) is None && 0 <= n
            < db.predicates.len() implies (#[trigger] db.predicates[n]).name != predicate by {
        assert(!predicate_named(predicate)(db.predicates[n]));
    }
    if let Some(r) = refold_of(db, space, subject, predicate, at) {
        let p = first_where(db.predicates, predicate_named(predicate))->Some_0;
        let n = choose|n: int| 0 <= n < db.predicates.len() && db.predicates[n] == p;
        assert(db.predicates[n].name == predicate);
    }
}

/// What resolving a name is asked with: the keys of its type in the space, and no
/// others.
pub proof fn law_candidates_are_keys_of_the_type(
    db: TablesView,
    space: Seq<char>,
    eref: EntityRefView,
    episode: Seq<char>,
    span: u32,
)
    ensures
        ({
            let q = resolve_question(db, space, eref, episode, span);
            &&& q.space == space
            &&& q.eref == eref
            &&& q.episode == episode
            &&& q.span_start == span
            &&& forall|k: EntityKeyView| #[trigger]
                q.candidates.contains(k) <==> db.keys.contains(k) && k.space == space && k.ty
                    == eref.ty
        }),
{
    lemma_selected(db.keys, crate::knowledge::is_key_of_type(space, eref.ty));
}

/// What a resolution writes. A link leads to the entity that it names and makes
/// none; a new name and a mere candidate make a live entity of the type in the
/// space, unless the id is taken. Either way the surface form is kept as a key of
/// the entity, unless the key is.
pub proof fn law_resolution_links_or_creates(
    db: TablesView,
    space: Seq<char>,
    eref: EntityRefView,
    res: ResolutionView,
    now: Timestamp,
)
    requires
        forall|i: int| 0 <= i < db.keys.len() ==> (#[trigger] db.keys[i]).id != res.key_id,
    ensures
        ({
            let after = with_resolution(db, space, eref, res, now);
            let k = after.keys.last();
            &&& match res.decision {
                DecisionView::Link { entity, method } => {
                    &&& res.entity() == entity
                    &&& res.method() == method
                    &&& after.entities == db.entities
                    &&& k.entity == entity
                },
                DecisionView::New { method } => {
                    &&& res.entity() == res.new_entity
                    &&& res.method() == method
                    &&& k.entity == res.new_entity
                },
                DecisionView::Candidate { .. } => {
                    &&& res.entity() == res.new_entity
                    &&& res.method() == ResolutionMethodView::New
                    &&& k.entity == res.new_entity
                },
            }
            &&& !(res.decision is Link) && (forall|i: int|
                0 <= i < db.entities.len() ==> (#[trigger] db.entities[i]).id != res.new_entity)
                ==> {
                let e = after.entities.last();
                &&& after.entities == db.entities.push(e)
                &&& e.id == res.new_entity
                &&& e.space == space
                &&& e.ty == eref.ty
                &&& e.merged_into is None
                &&& e.created_at == now
                &&& e.salience == SALIENCE_DEFAULT
                &&& e.last_activity is None
                &&& e.canonical_key is None
            }
            &&& !(res.decision is Link) && (exists|i: int|
                0 <= i < db.entities.len() && (#[trigger] db.entities[i]).id == res.new_entity)
                ==> after.entities == db.entities
            &&& after.keys == db.keys.push(k)
            &&& k.id == res.key_id
            &&& k.space == space
            &&& k.ty == eref.ty
            &&& k.surface == eref.surface
            &&& k.normalized == res.normalized
            &&& k.origin == KeyOrigin::UserDeclared
            &&& after.statements == db.statements
            &&& after.assertions == db.assertions
            &&& after.mentions == db.mentions
            &&& after.merges == db.merges
        }),
{
    let after = with_resolution(db, space, eref, res, now);
    let k = after.keys.last();
    assert(after.keys =~= db.keys.push(k));
    if !(res.decision is Link) {
        let e = after.entities.last();
        if exists|i: int|
            0 <= i < db.entities.len() && (#[trigger] db.entities[i]).id == res.new_entity {
            let i = choose|i: int|
                0 <= i < db.entities.len() && (#[trigger] db.entities[i]).id == res.new_entity;
            assert(crate::knowledge::entity_has_id(res.new_entity)(db.entities[i]));
        } else {
            assert(after.entities =~= db.entities.push(e));
        }
    }
}

/// What the sides of a declaration and of a claim are: a statement is about its
/// subject and its object, a merge about its loser and its winner; and a mention
/// names its surface form under its type.
pub proof fn law_sides_are_those_declared(decl: DeclarationView, mention: ClaimMentionView)
    ensures
        decl matches DeclarationView::AddStatement { subject, object, .. } ==> decl.first_entity()
            == subject && decl.other_side() == object && decl.other_span() == 100,
        decl matches DeclarationView::Retract { subject, object, .. } ==> decl.first_entity()
            == subject && decl.other_side() == object && decl.other_span() == 100,
        decl matches DeclarationView::Merge { loser, winner } ==> decl.first_entity() == loser
            && decl.other_side() == (DeclObjectView::Entity {
            surface: winner.surface,
            ty: winner.ty,
        }) && decl.other_span() == 200,
        mention_ref(mention).surface == mention.surface,
        mention_ref(mention).ty == mention.entity_type,
{
}

/// When a declaration is refused: a polarity that is neither of the two words, an
/// object that cannot be read, or an added statement under a predicate that is not
/// registered; and no other declaration is.
pub proof fn law_declaration_is_refused_for_cause(
    db: TablesView,
    decl: DeclarationView,
    number: Result<u64, Seq<char>>,
)
    ensures
        declaration_error(db, decl, number) is Some <==> {
            ||| decl matches DeclarationView::AddStatement { polarity, .. } && polarity
                != "affirm"@ && polarity != "deny"@
            ||| decl matches DeclarationView::AddStatement { predicate, .. } && forall|n: int|
                0 <= n < db.predicates.len() ==> (#[trigger] db.predicates[n]).name != predicate
            ||| decl.other_side() matches DeclObjectView::Literal { literal_type, value } && {
                ||| literal_type == "number"@ && number is Err
                ||| literal_type == "bool"@ && value != "true"@ && value != "false"@
                ||| literal_type != "text"@ && literal_type != "date"@ && literal_type
                    != "datetime"@ && literal_type != "number"@ && literal_type != "bool"@
            }
        },
        declaration_error(db, decl, number) matches Some(e) ==> e is Invalid,
{
    reveal_strlit("text");
    reveal_strlit("date");
    reveal_strlit("datetime");
    reveal_strlit("number");
    reveal_strlit("bool");
    assert("text"@.len() == 4 && "date"@.len() == 4 && "bool"@.len() == 4);
    assert("datetime"@.len() == 8 && "number"@.len() == 6);
    assert("text"@[0] != "date"@[0]);
    assert("text"@[0] != "bool"@[0]);
    assert("date"@[0] != "bool"@[0]);
    if let DeclObjectView::Literal { literal_type, value } = decl.other_side() {
        law_literals_are_read_by_type(literal_type, value, number, ": "@, false);
    }
    if let DeclarationView::AddStatement { predicate, .. } = decl {
        lemma_first_is(db.predicates, predicate_named(predicate));
        if first_where(db.predicates, predicate_named(predicate)) is None {
            assert forall|n: int| 0 <= n < db.predicates.len() implies (
            #[trigger] db.predicates[n]).name != predicate by {
                assert(!predicate_named(predicate)(db.predicates[n]));
            }
        } else {
            let p = first_where(db.predicates, predicate_named(predicate))->Some_0;
            let n = choose|n: int| 0 <= n < db.predicates.len() && db.predicates[n] == p;
            assert(db.predicates[n].name == predicate);
        }
    }
}

/// What a literal is read as, by its type; a claim's literal of an unknown type is
/// a text, a declaration's is refused.
pub proof fn law_literals_are_read_by_type(
    lt: Seq<char>,
    value: Seq<char>,
    number: Result<u64, Seq<char>>,
    label: Seq<char>,
    lenient: bool,
)
    ensures
        lt == "text"@ ==> literal_of(lt, value, number, label, lenient) == Ok::<
            TypedValueView,
            BrainErrorView,
        >(TypedValueView::Text(value)),
        lt == "date"@ ==> literal_of(lt, value, number, label, lenient) == Ok::<
            TypedValueView,
            BrainErrorView,
        >(TypedValueView::Date(value)),
        lt == "datetime"@ ==> literal_of(lt, value, number, label, lenient) == Ok::<
            TypedValueView,
            BrainErrorView,
        >(TypedValueView::DateTime(value)),
        lt == "number"@ && number is Ok ==> literal_of(lt, value, number, label, lenient) == Ok::<
            TypedValueView,
            BrainErrorView,
        >(TypedValueView::Number(number->Ok_0)),
        lt == "number"@ && number is Err ==> literal_of(
            lt,
            value,
            number,
            label,
            lenient,
        ) matches Err(BrainErrorView::Invalid(_)),
        lt == "bool"@ && value == "true"@ ==> literal_of(lt, value, number, label, lenient) == Ok::<
            TypedValueView,
            BrainErrorView,
        >(TypedValueView::Bool(true)),
        lt == "bool"@ && value == "false"@ ==> literal_of(lt, value, number, label, lenient)
            == Ok::<TypedValueView, BrainErrorView>(TypedValueView::Bool(false)),
        lt == "bool"@ && value != "true"@ && value != "false"@ ==> literal_of(
            lt,
            value,
            number,
            label,
            lenient,
        ) matches Err(BrainErrorView::Invalid(_)),
        lt != "text"@ && lt != "date"@ && lt != "datetime"@ && lt != "number"@ && lt != "bool"@
            ==> literal_of(lt, value, number, label, lenient) == if lenient {
            Ok::<TypedValueView, BrainErrorView>(TypedValueView::Text(value))
        } else {
            Err(BrainErrorView::Invalid("unknown literal type: "@ + lt))
        },
{
    reveal_strlit("text");
    reveal_strlit("date");
    reveal_strlit("datetime");
    reveal_strlit("number");
    reveal_strlit("bool");
    reveal_strlit("true");
    reveal_strlit("false");
    assert("text"@.len() == 4 && "date"@.len() == 4 && "bool"@.len() == 4);
    assert("datetime"@.len() == 8 && "number"@.len() == 6);
    assert("text"@[0] != "date"@[0]);
    assert("text"@[0] != "bool"@[0]);
    assert("date"@[0] != "bool"@[0]);
    assert("true"@.len() != "false"@.len());
}

/// The episode of a declaration holds its text, in its space, trusted, made and
/// ingested at the time of the declaration.
pub proof fn law_declaration_has_its_episode(
    space: Seq<char>,
    content: Seq<char>,
    now: Timestamp,
)
    ensures
        ({
            let e = declaration_episode(space, content, now);
            &&& e.space == space
            &&& e.content == content
            &&& e.source == SourceRefView::Declaration
            &&& e.trust == TrustTier::Trusted
            &&& e.kind == EpisodeKind::Declaration
            &&& e.occurred_at == now
            &&& e.ingested_at == now
            &&& e.redacted_at is None
        }),
{
}

/// Seeding predicates keeps every predicate that is there as it is, and adds those
/// whose names are not.
pub proof fn law_seeding_adds_what_is_missing(
    predicates: Seq<PredicateRowView>,
    defs: Seq<PredicateRowView>,
)
    ensures
        ({
            let after = seeded(predicates, defs);
            &&& after.len() >= predicates.len()
            &&& forall|i: int|
                0 <= i < predicates.len() ==> #[trigger] after[i] == predicates[i]
            &&& forall|i: int|
                predicates.len() <= i < after.len() ==> defs.contains(#[trigger] after[i])
            &&& forall|j: int|
                0 <= j < defs.len() ==> exists|i: int|
                    0 <= i < after.len() && (#[trigger] after[i]).name == (
                    #[trigger] defs[j]).name
            &&& forall|i: int, j: int|
                #![trigger after[i], after[j]]
                0 <= i < j < after.len() && predicates.len() <= j ==> after[i].name
                    != after[j].name
        }),
    decreases defs.len(),
{
    if defs.len() > 0 {
        let init = defs.drop_last();
        law_seeding_adds_what_is_missing(predicates, init);
        let before = seeded(predicates, init);
        let after = seeded(predicates, defs);
        let last = defs.last();
        let p = predicate_named(last.name);
        if crate::rows::some_where(before, p) {
            let i = choose|i: int| 0 <= i < before.len() && p(#[trigger] before[i]);
            assert(before[i].name == last.name);
        } else {
            assert forall|i: int| 0 <= i < before.len() implies (#[trigger] before[i]).name
                != last.name by {
                assert(!p(before[i]));
            }
            assert(after[before.len() as int].name == last.name);
        }
        assert forall|i: int| predicates.len() <= i < after.len() implies defs.contains(
            #[trigger] after[i],
        ) by {
            if i < before.len() {
                assert(init.contains(before[i]));
                let k = choose|k: int| 0 <= k < init.len() && init[k] == before[i];
                assert(defs[k] == after[i]);
            } else {
                assert(defs[defs.len() - 1] == after[i]);
            }
        }
        assert forall|j: int| 0 <= j < defs.len() implies exists|i: int|
            0 <= i < after.len() && (#[trigger] after[i]).name == (#[trigger] defs[j]).name by {
            if j < init.len() {
                assert(init[j] == defs[j]);
                let i = choose|i: int|
                    0 <= i < before.len() && (#[trigger] before[i]).name == init[j].name;
                assert(after[i] == before[i]);
            }
        }
        assert forall|i: int, j: int|
            #![trigger after[i], after[j]]
            0 <= i < j < after.len() && predicates.len() <= j implies after[i].name
            != after[j].name by {
            if j < before.len() {
                assert(before[i].name != before[j].name);
            } else {
                assert(after[i] == before[i]);
            }
        }
    }
}

} // verus!
