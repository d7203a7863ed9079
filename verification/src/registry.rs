//! The predicate registry.
use vstd::prelude::*;

use crate::rows::{
    dup_rows, find, first_where, insert_or_ignore, lemma_or_ignore_keeps, or_ignore, some_where,
    Row,
};
use crate::tables::{PredicateRow, PredicateRowView, Tables, TablesView};
use crate::text::str_eq;

verus! {

/// Selects the predicate of the given name.
pub open spec fn predicate_named(name: Seq<char>) -> spec_fn(PredicateRowView) -> bool {
    |p: PredicateRowView| p.name == name
}

/// The registered predicates once those of `defs` are there whose names were
/// not taken.
pub open spec fn seeded(
    predicates: Seq<PredicateRowView>,
    defs: Seq<PredicateRowView>,
) -> Seq<PredicateRowView>
    decreases defs.len(),
{
    if defs.len() == 0 {
        predicates
    } else {
        or_ignore(
            seeded(predicates, defs.drop_last()),
            predicate_named(defs.last().name),
            defs.last(),
        )
    }
}

/// Seed the core ontology into the registry. Idempotent: a name that is taken
/// keeps its definition.
pub fn seed_core_v1(db: &mut Tables, defs: &Vec<PredicateRow>)
    ensures
        final(db).deep_view() == (TablesView {
            predicates: seeded(old(db).deep_view().predicates, defs.deep_view()),
            ..old(db).deep_view()
        }),
{
    let ghost first = old(db).deep_view();
    let ghost all = defs.deep_view();
    let mut i: usize = 0;
    while i < defs.len()
        invariant
            i <= defs.len(),
            all == defs.deep_view(),
            db.deep_view() == (TablesView {
                predicates: seeded(first.predicates, all.take(i as int)),
                ..first
            }),
        decreases defs.len() - i,
    {
        let ghost name = all[i as int].name;
        proof {
            assert(all.take(i + 1).drop_last() =~= all.take(i as int));
            assert(all.take(i + 1).last() == all[i as int]);
        }
        let _new: bool = insert_or_ignore(
            &mut db.predicates,
            defs[i].dup(),
            |p: &PredicateRow| -> (b: bool)
                ensures
                    b == predicate_named(name)(p.deep_view())
                { str_eq(p.name.as_str(), defs[i].name.as_str()) },
            Ghost(predicate_named(name)),
        );
        i = i + 1;
    }
    assert(all.take(i as int) =~= all);
}

/// Load a single predicate by name.
pub fn load_predicate(db: &Tables, name: &str) -> (r: Option<PredicateRow>)
    ensures
        r.deep_view() == first_where(db.deep_view().predicates, predicate_named(name@)),
{
    match find(
        &db.predicates,
        |p: &PredicateRow| -> (b: bool)
            ensures
                b == predicate_named(name@)(p.deep_view())
            { str_eq(p.name.as_str(), name) },
        Ghost(predicate_named(name@)),
    ) {
        Some(i) => {
            assert(db.deep_view().predicates[i as int] == db.predicates[i as int].deep_view());
            Some(db.predicates[i].dup())
        },
        None => None,
    }
}

/// Load all predicates.
pub fn load_all_predicates(db: &Tables) -> (r: Vec<PredicateRow>)
    ensures
        r.deep_view() == db.deep_view().predicates,
{
    dup_rows(&db.predicates)
}

/// Every name that was seeded is taken.
proof fn lemma_seeded(predicates: Seq<PredicateRowView>, defs: Seq<PredicateRowView>, i: int)
    requires
        0 <= i < defs.len(),
    ensures
        some_where(seeded(predicates, defs), predicate_named(defs[i].name)),
    decreases defs.len(),
{
    let before = seeded(predicates, defs.drop_last());
    let p = predicate_named(defs.last().name);
    if i == defs.len() - 1 {
        if !some_where(before, p) {
            assert(before.push(defs.last())[before.len() as int] == defs.last());
        }
    } else {
        lemma_seeded(predicates, defs.drop_last(), i);
        assert(defs.drop_last()[i] == defs[i]);
        lemma_or_ignore_keeps(before, predicate_named(defs[i].name), p, defs.last());
    }
}

/// Where every name is taken, seeding changes nothing.
proof fn lemma_nothing_to_seed(predicates: Seq<PredicateRowView>, defs: Seq<PredicateRowView>)
    requires
        forall|i: int|
            0 <= i < defs.len() ==> some_where(
                predicates,
                predicate_named((#[trigger] defs[i]).name),
            ),
    ensures
        seeded(predicates, defs) == predicates,
    decreases defs.len(),
{
    if defs.len() > 0 {
        let init = defs.drop_last();
        assert forall|i: int| 0 <= i < init.len() implies some_where(
            predicates,
            predicate_named((#[trigger] init[i]).name),
        ) by {
            assert(init[i] == defs[i]);
        }
        lemma_nothing_to_seed(predicates, init);
        assert(some_where(predicates, predicate_named(defs[defs.len() - 1].name)));
    }
}

/// Seeding the registry twice is seeding it once.
pub proof fn law_seeding_is_idempotent(
    predicates: Seq<PredicateRowView>,
    defs: Seq<PredicateRowView>,
)
    ensures
        seeded(seeded(predicates, defs), defs) == seeded(predicates, defs),
{
    let once = seeded(predicates, defs);
    assert forall|i: int| 0 <= i < defs.len() implies some_where(
        once,
        predicate_named((#[trigger] defs[i]).name),
    ) by {
        lemma_seeded(predicates, defs, i);
    }
    lemma_nothing_to_seed(once, defs);
}

} // verus!
