//! Communities: entities under one label.
use vstd::prelude::*;

use crate::rows::{delete, find, first_where, insert_or_replace, or_replace, order, ordered, pick};
use crate::tables::{CommunityRow, CommunityRowView, Tables, TablesView};
use crate::text::{str_eq, str_le};

verus! {

/// Selects the community row of an entity.
pub open spec fn labels(id: Seq<char>) -> spec_fn(CommunityRowView) -> bool {
    |c: CommunityRowView| c.id == id
}

/// The communities once each given entity has its label in a space.
pub open spec fn labelled(
    rows: Seq<CommunityRowView>,
    space: Seq<char>,
    assigned: Seq<(Seq<char>, i64)>,
) -> Seq<CommunityRowView>
    decreases assigned.len(),
{
    if assigned.len() == 0 {
        rows
    } else {
        or_replace(
            labelled(rows, space, assigned.drop_last()),
            labels(assigned.last().0),
            CommunityRowView { id: assigned.last().0, space, label: assigned.last().1 },
        )
    }
}

/// Replaces the community assignments of a space by the given labels.
pub fn rebuild_communities(db: &mut Tables, space: &str, assigned: &Vec<(String, i64)>)
    ensures
        final(db).deep_view() == (TablesView {
            communities: labelled(
                old(db).deep_view().communities.filter(
                    |c: CommunityRowView| c.space != space@,
                ),
                space@,
                assigned.deep_view(),
            ),
            ..old(db).deep_view()
        }),
{
    let ghost first = db.deep_view();
    let ghost all = assigned.deep_view();
    delete(
        &mut db.communities,
        |c: &CommunityRow| -> (gone: bool)
            ensures
                gone == (c.deep_view().space == space@)
            { str_eq(c.space.as_str(), space) },
        Ghost(|c: CommunityRowView| c.space != space@),
    );
    let ghost kept = db.communities.deep_view();
    let mut i: usize = 0;
    assert(all.take(0) =~= Seq::empty());
    while i < assigned.len()
        invariant
            i <= assigned.len(),
            all == assigned.deep_view(),
            db.deep_view() == (TablesView {
                communities: labelled(kept, space@, all.take(i as int)),
                ..first
            }),
        decreases assigned.len() - i,
    {
        let ghost id = all[i as int].0;
        proof {
            assert(all.take(i + 1).drop_last() =~= all.take(i as int));
            assert(all.take(i + 1).last() == all[i as int]);
            assert(all[i as int] == assigned[i as int].deep_view());
        }
        insert_or_replace(
            &mut db.communities,
            CommunityRow {
                id: assigned[i].0.clone(),
                space: space.to_owned(),
                label: assigned[i].1,
            },
            |c: &CommunityRow| -> (same: bool)
                ensures
                    same == labels(id)(c.deep_view())
                { str_eq(c.id.as_str(), assigned[i].0.as_str()) },
            Ghost(labels(id)),
        );
        i = i + 1;
    }
    assert(all.take(i as int) =~= all);
}

/// Selects the row of an entity in a space.
pub open spec fn labels_in(id: Seq<char>, space: Seq<char>) -> spec_fn(CommunityRowView) -> bool {
    |c: CommunityRowView| c.id == id && c.space == space
}

/// Selects the entities of a space under one label.
pub open spec fn has_label(space: Seq<char>, label: i64) -> spec_fn(CommunityRowView) -> bool {
    |c: CommunityRowView| c.space == space && c.label == label
}

/// The entity of a community row.
pub open spec fn member_id() -> spec_fn(CommunityRowView) -> Seq<char> {
    |c: CommunityRowView| c.id
}

/// The entities in the community of an entity, by id; none where it has none.
pub open spec fn members_of(
    rows: Seq<CommunityRowView>,
    space: Seq<char>,
    entity: Seq<char>,
) -> Seq<Seq<char>> {
    match first_where(rows, labels_in(entity, space)) {
        None => Seq::empty(),
        Some(c) => ordered(
            rows.filter(has_label(space, c.label)).map_values(member_id()),
            crate::text::by_text(),
        ),
    }
}

/// Get all entities in the same community as `entity_id`.
pub fn community_members(db: &Tables, space: &str, entity_id: &str) -> (r: Vec<String>)
    ensures
        r.deep_view() == members_of(db.deep_view().communities, space@, entity_id@),
{
    let label: i64 = match find(
        &db.communities,
        |c: &CommunityRow| -> (b: bool)
            ensures
                b == labels_in(entity_id@, space@)(c.deep_view())
            { str_eq(c.id.as_str(), entity_id) && str_eq(c.space.as_str(), space) },
        Ghost(labels_in(entity_id@, space@)),
    ) {
        None => {
            let none: Vec<String> = Vec::new();
            assert(none.deep_view() =~= Seq::<Seq<char>>::empty());
            return none;
        },
        Some(i) => {
            assert(db.deep_view().communities[i as int] == db.communities[i as int].deep_view());
            db.communities[i].label
        },
    };
    let members = pick(
        &db.communities,
        |c: &CommunityRow| -> (b: bool)
            ensures
                b == has_label(space@, label)(c.deep_view())
            { str_eq(c.space.as_str(), space) && c.label == label },
        |c: &CommunityRow| -> (s: String)
            ensures
                s.deep_view() == member_id()(c.deep_view())
            { c.id.clone() },
        Ghost(has_label(space@, label)),
        Ghost(member_id()),
    );
    sorted_texts(members)
}

/// Texts in order.
pub(crate) fn sorted_texts(v: Vec<String>) -> (r: Vec<String>)
    ensures
        r.deep_view() == ordered(v.deep_view(), crate::text::by_text()),
{
    order(
        v,
        |a: &String, b: &String| -> (le: bool)
            ensures
                le == crate::text::by_text()(a.deep_view(), b.deep_view())
            { str_le(a.as_str(), b.as_str()) },
        Ghost(crate::text::by_text()),
    )
}

} // verus!
