//! Timeline and diff: what was believed of an entity over time.
use vstd::prelude::*;

use crate::index_ops::{entity_surface, show_literal, shown_literal, surface_form};
use crate::knowledge::{asserts, statement_has_id};
use crate::redaction::unique_texts;
use crate::rows::{
    distinct, find, first_where, is_order, map_rows, order, ordered, select, Row,
};
use crate::tables::{
    dup_text, Assertion, AssertionView, Belief, BeliefView, Object, ObjectView, Statement,
    StatementView, Tables, TablesView,
};
use crate::text::{str_eq, str_le, text_le};
use crate::time::Timestamp;

verus! {

/// A belief over its interval of validity.
#[derive(Debug)]
pub struct TimelineEntry {
    pub statement_id: String,
    pub predicate: String,
    pub object_entity: Option<String>,
    pub object_repr: String,
    pub valid_from: Timestamp,
    pub valid_to: Timestamp,
    pub status: String,
    pub recorded_at: Timestamp,
}

/// [`TimelineEntry`] as a mathematical value.
#[verifier::ext_equal]
pub struct TimelineEntryView {
    pub statement_id: Seq<char>,
    pub predicate: Seq<char>,
    pub object_entity: Option<Seq<char>>,
    pub object_repr: Seq<char>,
    pub valid_from: Timestamp,
    pub valid_to: Timestamp,
    pub status: Seq<char>,
    pub recorded_at: Timestamp,
}

impl DeepView for TimelineEntry {
    type V = TimelineEntryView;

    open spec fn deep_view(&self) -> TimelineEntryView {
        TimelineEntryView {
            statement_id: self.statement_id@,
            predicate: self.predicate@,
            object_entity: self.object_entity.deep_view(),
            object_repr: self.object_repr@,
            valid_from: self.valid_from,
            valid_to: self.valid_to,
            status: self.status@,
            recorded_at: self.recorded_at,
        }
    }
}

impl Row for TimelineEntry {
    fn dup(&self) -> (r: Self) {
        TimelineEntry {
            statement_id: self.statement_id.clone(),
            predicate: self.predicate.clone(),
            object_entity: dup_text(&self.object_entity),
            object_repr: self.object_repr.clone(),
            valid_from: self.valid_from,
            valid_to: self.valid_to,
            status: self.status.clone(),
            recorded_at: self.recorded_at,
        }
    }
}

impl Clone for TimelineEntry {
    fn clone(&self) -> (r: Self)
        ensures
            r.deep_view() == self.deep_view(),
    {
        self.dup()
    }
}

/// What changed between two points in time.
#[derive(Debug)]
pub struct DiffResult {
    pub added: Vec<TimelineEntry>,
    pub removed: Vec<TimelineEntry>,
    pub changed: Vec<TimelineEntry>,
}

/// Selects the statements about a subject in a space.
pub open spec fn is_about(space: Seq<char>, entity: Seq<char>) -> spec_fn(StatementView) -> bool {
    |s: StatementView| s.space == space && s.subject == entity
}

/// Whether a statement with an id is about a subject in a space.
pub open spec fn statement_about(
    statements: Seq<StatementView>,
    id: Seq<char>,
    space: Seq<char>,
    entity: Seq<char>,
) -> bool {
    match first_where(statements, statement_has_id(id)) {
        Some(s) => s.space == space && s.subject == entity,
        None => false,
    }
}

/// Selects the beliefs about a subject whose validity meets the time from
/// `from` to `to`.
pub open spec fn believed_within(
    db: TablesView,
    space: Seq<char>,
    entity: Seq<char>,
    from: int,
    to: int,
) -> spec_fn(BeliefView) -> bool {
    |b: BeliefView|
        statement_about(db.statements, b.statement, space, entity) && b.valid_from.0 <= to
            && b.valid_to.0 >= from
}

/// The latest time at which one of some assertions was recorded, or the
/// beginning of the epoch where there is none.
pub open spec fn latest_record(assertions: Seq<AssertionView>) -> Timestamp
    decreases assertions.len(),
{
    if assertions.len() == 0 {
        Timestamp(0)
    } else if assertions.len() == 1 {
        assertions[0].recorded_at
    } else {
        let before = latest_record(assertions.drop_last());
        if assertions.last().recorded_at.0 > before.0 {
            assertions.last().recorded_at
        } else {
            before
        }
    }
}

/// How the object of a statement is stored.
pub open spec fn object_repr(o: ObjectView) -> Seq<char> {
    match o {
        ObjectView::Entity(s) => s,
        ObjectView::Literal(s) => s,
    }
}

/// The entity that is the object of a statement.
pub open spec fn object_entity(o: ObjectView) -> Option<Seq<char>> {
    match o {
        ObjectView::Entity(s) => Some(s),
        ObjectView::Literal(_) => None,
    }
}

/// An entry with its object as it is shown: the surface form of an entity, the
/// plain value of a literal. What has neither stays as it is stored.
pub open spec fn displayed(
    db: TablesView,
    literals: Seq<(Seq<char>, Seq<char>)>,
) -> spec_fn(TimelineEntryView) -> TimelineEntryView {
    |e: TimelineEntryView|
        TimelineEntryView {
            object_repr: match e.object_entity {
                Some(id) => match surface_form(db, id) {
                    Ok(surface) => surface,
                    Err(_) => e.object_repr,
                },
                None => shown_literal(literals, e.object_repr),
            },
            ..e
        }
}

/// The entry of a belief.
pub open spec fn timeline_entry(db: TablesView) -> spec_fn(BeliefView) -> TimelineEntryView {
    |b: BeliefView|
        {
            let s = first_where(db.statements, statement_has_id(b.statement))->Some_0;
            TimelineEntryView {
                statement_id: s.id,
                predicate: s.predicate,
                object_entity: object_entity(s.object),
                object_repr: object_repr(s.object),
                valid_from: b.valid_from,
                valid_to: b.valid_to,
                status: b.status,
                recorded_at: latest_record(db.assertions.filter(asserts(s.id))),
            }
        }
}

/// The order of entries: by the start of their validity.
pub open spec fn by_valid_from() -> spec_fn(TimelineEntryView, TimelineEntryView) -> bool {
    |a: TimelineEntryView, b: TimelineEntryView| a.valid_from.0 <= b.valid_from.0
}

/// The order of entries: by statement.
pub open spec fn by_statement() -> spec_fn(TimelineEntryView, TimelineEntryView) -> bool {
    |a: TimelineEntryView, b: TimelineEntryView| text_le(a.statement_id, b.statement_id)
}

fn find_statement(db: &Tables, id: &str) -> (r: Option<usize>)
    ensures
        match r {
            Some(i) => i < db.statements.len() && first_where(
                db.deep_view().statements,
                statement_has_id(id@),
            ) == Some(db.statements[i as int].deep_view()),
            None => first_where(db.deep_view().statements, statement_has_id(id@)) is None,
        },
{
    find(
        &db.statements,
        |s: &Statement| -> (b: bool)
            ensures
                b == statement_has_id(id@)(s.deep_view())
            { str_eq(s.id.as_str(), id) },
        Ghost(statement_has_id(id@)),
    )
}

pub(crate) fn latest_of(assertions: &Vec<Assertion>) -> (r: Timestamp)
    ensures
        r == latest_record(assertions.deep_view()),
{
    let ghost all = assertions.deep_view();
    if assertions.len() == 0 {
        return Timestamp(0);
    }
    let mut best: Timestamp = assertions[0].recorded_at;
    let mut i: usize = 1;
    assert(all.take(1)[0] == all[0]);
    while i < assertions.len()
        invariant
            1 <= i <= assertions.len(),
            all == assertions.deep_view(),
            best == latest_record(all.take(i as int)),
        decreases assertions.len() - i,
    {
        proof {
            assert(all.take(i + 1).drop_last() =~= all.take(i as int));
            assert(all.take(i + 1).last() == all[i as int]);
            assert(all[i as int] == assertions[i as int].deep_view());
        }
        if assertions[i].recorded_at.0 > best.0 {
            best = assertions[i].recorded_at;
        }
        i = i + 1;
    }
    assert(all.take(i as int) =~= all);
    best
}

fn entry_of(db: &Tables, b: &Belief) -> (r: TimelineEntry)
    requires
        first_where(db.deep_view().statements, statement_has_id(b.statement@)) is Some,
    ensures
        r.deep_view() == timeline_entry(db.deep_view())(b.deep_view()),
{
    let i: usize = match find_statement(db, b.statement.as_str()) {
        Some(i) => i,
        None => {
            assert(false);
            0
        },
    };
    let s = &db.statements[i];
    let assertions = crate::knowledge::get_assertions_for_statement(db, s.id.as_str());
    let (entity, repr) = match &s.object {
        Object::Entity(e) => (Some(e.clone()), e.clone()),
        Object::Literal(l) => (None, l.clone()),
    };
    TimelineEntry {
        statement_id: s.id.clone(),
        predicate: s.predicate.clone(),
        object_entity: entity,
        object_repr: repr,
        valid_from: b.valid_from,
        valid_to: b.valid_to,
        status: b.status.clone(),
        recorded_at: latest_of(&assertions),
    }
}

fn entries_within(db: &Tables, space: &str, entity_id: &str, from: i64, to: i64) -> (r: Vec<
    TimelineEntry,
>)
    ensures
        r.deep_view() == db.deep_view().beliefs.filter(
            believed_within(db.deep_view(), space@, entity_id@, from as int, to as int),
        ).map_values(timeline_entry(db.deep_view())),
{
    let ghost view = db.deep_view();
    let ghost p = believed_within(view, space@, entity_id@, from as int, to as int);
    let found = select(
        &db.beliefs,
        |b: &Belief| -> (hit: bool)
            ensures
                hit == p(b.deep_view())
            {
                let about = match find_statement(db, b.statement.as_str()) {
                    Some(i) => str_eq(db.statements[i].space.as_str(), space) && str_eq(
                        db.statements[i].subject.as_str(),
                        entity_id,
                    ),
                    None => false,
                };
                about && b.valid_from.0 <= to && b.valid_to.0 >= from
            },
        Ghost(p),
    );
    let ghost all = found.deep_view();
    let mut out: Vec<TimelineEntry> = Vec::new();
    let mut i: usize = 0;
    assert(out.deep_view() =~= all.take(0).map_values(timeline_entry(view)));
    while i < found.len()
        invariant
            i <= found.len(),
            view == db.deep_view(),
            p == believed_within(view, space@, entity_id@, from as int, to as int),
            all == found.deep_view(),
            all == view.beliefs.filter(p),
            out.deep_view() == all.take(i as int).map_values(timeline_entry(view)),
        decreases found.len() - i,
    {
        let ghost before = out.deep_view();
        let ghost b = all[i as int];
        proof {
            view.beliefs.lemma_filter_pred(p, i as int);
            assert(b == found[i as int].deep_view());
        }
        out.push(entry_of(db, &found[i]));
        proof {
            assert(out.deep_view() =~= before.push(timeline_entry(view)(b)));
            assert(all.take(i + 1).map_values(timeline_entry(view)) =~= all.take(
                i as int,
            ).map_values(timeline_entry(view)).push(timeline_entry(view)(b)));
        }
        i = i + 1;
    }
    assert(all.take(i as int) =~= all);
    out
}

fn display(db: &Tables, literals: &Vec<(String, String)>, e: &TimelineEntry) -> (r: TimelineEntry)
    ensures
        r.deep_view() == displayed(db.deep_view(), literals.deep_view())(e.deep_view()),
{
    let mut shown = e.dup();
    match &e.object_entity {
        Some(id) => {
            if let Ok(surface) = entity_surface(db, id.as_str()) {
                shown.object_repr = surface;
            }
        },
        None => {
            shown.object_repr = show_literal(literals, e.object_repr.as_str());
        },
    }
    shown
}

/// Belief intervals for an entity that meet the time from `from` to `to`, by
/// their start, with their objects as they are shown. An end that is not given
/// is open.
pub fn timeline(
    db: &Tables,
    space: &str,
    entity_id: &str,
    from: Option<Timestamp>,
    to: Option<Timestamp>,
    literals: &Vec<(String, String)>,
) -> (r: Vec<TimelineEntry>)
    ensures
        r.deep_view() == ordered(
            db.deep_view().beliefs.filter(
                believed_within(
                    db.deep_view(),
                    space@,
                    entity_id@,
                    match from {
                        Some(t) => t.0 as int,
                        None => i64::MIN as int,
                    },
                    match to {
                        Some(t) => t.0 as int,
                        None => i64::MAX as int,
                    },
                ),
            ).map_values(timeline_entry(db.deep_view())),
            by_valid_from(),
        ).map_values(displayed(db.deep_view(), literals.deep_view())),
{
    let lo: i64 = match from {
        Some(t) => t.0,
        None => i64::MIN,
    };
    let hi: i64 = match to {
        Some(t) => t.0,
        None => i64::MAX,
    };
    let entries = order(
        entries_within(db, space, entity_id, lo, hi),
        |a: &TimelineEntry, b: &TimelineEntry| -> (le: bool)
            ensures
                le == by_valid_from()(a.deep_view(), b.deep_view())
            { a.valid_from.0 <= b.valid_from.0 },
        Ghost(by_valid_from()),
    );
    let ghost shown = displayed(db.deep_view(), literals.deep_view());
    map_rows(
        &entries,
        |e: &TimelineEntry| -> (d: TimelineEntry)
            ensures
                d.deep_view() == shown(e.deep_view())
            { display(db, literals, e) },
        Ghost(shown),
    )
}

/// What was believed of an entity at a point in time, by statement.
pub open spec fn believed_at(
    db: TablesView,
    space: Seq<char>,
    entity: Seq<char>,
    at: Timestamp,
) -> Seq<TimelineEntryView> {
    ordered(
        db.beliefs.filter(
            believed_within(db, space, entity, at.0 as int, at.0 as int),
        ).map_values(timeline_entry(db)),
        by_statement(),
    )
}

fn beliefs_at(db: &Tables, space: &str, entity_id: &str, at: Timestamp) -> (r: Vec<TimelineEntry>)
    ensures
        r.deep_view() == believed_at(db.deep_view(), space@, entity_id@, at),
{
    by_statement_order(entries_within(db, space, entity_id, at.0, at.0))
}

fn by_statement_order(entries: Vec<TimelineEntry>) -> (r: Vec<TimelineEntry>)
    ensures
        r.deep_view() == ordered(entries.deep_view(), by_statement()),
{
    order(
        entries,
        |a: &TimelineEntry, b: &TimelineEntry| -> (le: bool)
            ensures
                le == by_statement()(a.deep_view(), b.deep_view())
            { str_le(a.statement_id.as_str(), b.statement_id.as_str()) },
        Ghost(by_statement()),
    )
}

/// The last entry of a statement.
pub open spec fn last_entry(entries: Seq<TimelineEntryView>, id: Seq<char>) -> Option<
    TimelineEntryView,
>
    decreases entries.len(),
{
    if entries.len() == 0 {
        None
    } else if entries.last().statement_id == id {
        Some(entries.last())
    } else {
        last_entry(entries.drop_last(), id)
    }
}

fn find_last(entries: &Vec<TimelineEntry>, id: &str) -> (r: Option<usize>)
    ensures
        match r {
            Some(i) => i < entries.len() && last_entry(entries.deep_view(), id@) == Some(
                entries[i as int].deep_view(),
            ),
            None => last_entry(entries.deep_view(), id@) is None,
        },
{
    let ghost all = entries.deep_view();
    let mut i: usize = entries.len();
    assert(all.take(i as int) =~= all);
    while i > 0
        invariant
            i <= entries.len(),
            all == entries.deep_view(),
            last_entry(all, id@) == last_entry(all.take(i as int), id@),
        decreases i,
    {
        proof {
            assert(all.take(i as int).drop_last() =~= all.take(i - 1));
            assert(all.take(i as int).last() == all[i - 1]);
            assert(all[i - 1] == entries[i - 1].deep_view());
        }
        if str_eq(entries[i - 1].statement_id.as_str(), id) {
            return Some(i - 1);
        }
        i = i - 1;
    }
    None
}

/// Whether two entries of a statement differ in status or start.
pub open spec fn differs(a: TimelineEntryView, b: TimelineEntryView) -> bool {
    a.status != b.status || a.valid_from != b.valid_from
}

/// How a statement changed from one set of entries to another.
#[derive(Debug, Clone, Copy, PartialEq, Eq, Structural)]
pub enum Change {
    /// It is only in the second.
    Added,
    /// It is only in the first.
    Removed,
    /// It is in both, and differs.
    Changed,
    /// It is in both, and is the same.
    Same,
    /// It is in neither.
    Absent,
}

/// How a statement changed.
pub open spec fn change_of(
    before: Seq<TimelineEntryView>,
    after: Seq<TimelineEntryView>,
    id: Seq<char>,
) -> Change {
    match (last_entry(before, id), last_entry(after, id)) {
        (None, None) => Change::Absent,
        (None, Some(_)) => Change::Added,
        (Some(_), None) => Change::Removed,
        (Some(a), Some(b)) => if differs(a, b) {
            Change::Changed
        } else {
            Change::Same
        },
    }
}

fn change_at(before: &Vec<TimelineEntry>, after: &Vec<TimelineEntry>, id: &str) -> (r: Change)
    ensures
        r == change_of(before.deep_view(), after.deep_view(), id@),
{
    match (find_last(before, id), find_last(after, id)) {
        (None, None) => Change::Absent,
        (None, Some(_)) => Change::Added,
        (Some(_), None) => Change::Removed,
        (Some(i), Some(k)) => {
            let same = str_eq(before[i].status.as_str(), after[k].status.as_str())
                && before[i].valid_from.0 == after[k].valid_from.0;
            if same {
                Change::Same
            } else {
                Change::Changed
            }
        },
    }
}

/// The statement of an entry.
pub open spec fn entry_statement() -> spec_fn(TimelineEntryView) -> Seq<char> {
    |e: TimelineEntryView| e.statement_id
}

/// Selects the statements that changed in one way.
pub open spec fn changed_so(
    before: Seq<TimelineEntryView>,
    after: Seq<TimelineEntryView>,
    change: Change,
) -> spec_fn(Seq<char>) -> bool {
    |id: Seq<char>| change_of(before, after, id) == change
}

/// The last entry of each statement of `from` that changed in one way, by
/// statement.
pub open spec fn changes(
    before: Seq<TimelineEntryView>,
    after: Seq<TimelineEntryView>,
    from: Seq<TimelineEntryView>,
    change: Change,
) -> Seq<TimelineEntryView> {
    ordered(
        distinct(from.map_values(entry_statement())).filter(
            changed_so(before, after, change),
        ).map_values(|id: Seq<char>| last_entry(from, id)->Some_0),
        by_statement(),
    )
}

proof fn lemma_has_last(entries: Seq<TimelineEntryView>, id: Seq<char>)
    requires
        entries.map_values(entry_statement()).contains(id),
    ensures
        last_entry(entries, id) is Some,
    decreases entries.len(),
{
    let ids = entries.map_values(entry_statement());
    let i = choose|i: int| 0 <= i < ids.len() && ids[i] == id;
    if entries.last().statement_id != id {
        let init = entries.drop_last();
        assert(init.map_values(entry_statement())[i] == id);
        lemma_has_last(init, id);
    }
}

fn collect_changes(
    before: &Vec<TimelineEntry>,
    after: &Vec<TimelineEntry>,
    from: &Vec<TimelineEntry>,
    change: Change,
) -> (r: Vec<TimelineEntry>)
    ensures
        r.deep_view() == changes(
            before.deep_view(),
            after.deep_view(),
            from.deep_view(),
            change,
        ),
{
    let ghost a = before.deep_view();
    let ghost b = after.deep_view();
    let ghost f = from.deep_view();
    let ghost p = changed_so(a, b, change);
    let ghost g = |id: Seq<char>| last_entry(f, id)->Some_0;
    let ids = unique_texts(
        map_rows(
            from,
            |e: &TimelineEntry| -> (s: String)
                ensures
                    s.deep_view() == entry_statement()(e.deep_view())
                { e.statement_id.clone() },
            Ghost(entry_statement()),
        ),
    );
    let ghost all = ids.deep_view();
    let mut out: Vec<TimelineEntry> = Vec::new();
    let mut i: usize = 0;
    proof {
        reveal(Seq::filter);
        assert(out.deep_view() =~= all.take(0).filter(p).map_values(g));
    }
    while i < ids.len()
        invariant
            i <= ids.len(),
            a == before.deep_view(),
            b == after.deep_view(),
            f == from.deep_view(),
            p == changed_so(a, b, change),
            g == (|id: Seq<char>| last_entry(f, id)->Some_0),
            all == ids.deep_view(),
            all == distinct(f.map_values(entry_statement())),
            out.deep_view() == all.take(i as int).filter(p).map_values(g),
        decreases ids.len() - i,
    {
        let ghost done = out.deep_view();
        let ghost id = all[i as int];
        let ghost kept = all.take(i as int).filter(p);
        proof {
            assert(all.take(i + 1) =~= all.take(i as int).push(id));
            all.take(i as int).lemma_filter_push(id, p);
            crate::rows::lemma_distinct(f.map_values(entry_statement()));
            assert(all.contains(id));
            lemma_has_last(f, id);
        }
        if change_at(before, after, ids[i].as_str()) == change {
            match find_last(from, ids[i].as_str()) {
                Some(k) => {
                    let entry = from[k].dup();
                    out.push(entry);
                    assert(out.deep_view() =~= done.push(g(id)));
                    assert(kept.push(id).map_values(g) =~= kept.map_values(g).push(g(id)));
                },
                None => {},
            }
        }
        i = i + 1;
    }
    assert(all.take(i as int) =~= all);
    by_statement_order(out)
}

/// What changed for an entity between two time points: the statements that
/// were believed only at the second, only at the first, or at both with another
/// status or start.
pub fn diff(
    db: &Tables,
    space: &str,
    entity_id: &str,
    at_a: Timestamp,
    at_b: Timestamp,
) -> (r: DiffResult)
    ensures
        ({
            let a = believed_at(db.deep_view(), space@, entity_id@, at_a);
            let b = believed_at(db.deep_view(), space@, entity_id@, at_b);
            &&& r.added.deep_view() == changes(a, b, b, Change::Added)
            &&& r.changed.deep_view() == changes(a, b, b, Change::Changed)
            &&& r.removed.deep_view() == changes(a, b, a, Change::Removed)
        }),
{
    let a = beliefs_at(db, space, entity_id, at_a);
    let b = beliefs_at(db, space, entity_id, at_b);
    DiffResult {
        added: collect_changes(&a, &b, &b, Change::Added),
        removed: collect_changes(&a, &b, &a, Change::Removed),
        changed: collect_changes(&a, &b, &b, Change::Changed),
    }
}

/// Between a point in time and itself nothing changes.
pub proof fn law_no_change_without_time(entries: Seq<TimelineEntryView>)
    ensures
        changes(entries, entries, entries, Change::Added).len() == 0,
        changes(entries, entries, entries, Change::Removed).len() == 0,
        changes(entries, entries, entries, Change::Changed).len() == 0,
{
    lemma_no_changes(entries, Change::Added);
    lemma_no_changes(entries, Change::Removed);
    lemma_no_changes(entries, Change::Changed);
}

proof fn lemma_no_changes(entries: Seq<TimelineEntryView>, change: Change)
    requires
        change != Change::Same,
        change != Change::Absent,
    ensures
        changes(entries, entries, entries, change).len() == 0,
{
    let ids = distinct(entries.map_values(entry_statement()));
    let p = changed_so(entries, entries, change);
    assert(ids.all(|id: Seq<char>| !p(id)));
    ids.lemma_all_neg_filter_empty(p);
    let mapped = ids.filter(p).map_values(|id: Seq<char>| last_entry(entries, id)->Some_0);
    crate::rows::lemma_ordered_same_rows(mapped, by_statement());
}

/// What one direction adds, the other removes.
pub proof fn law_diff_is_symmetric(
    before: Seq<TimelineEntryView>,
    after: Seq<TimelineEntryView>,
)
    ensures
        changes(before, after, after, Change::Added) == changes(
            after,
            before,
            after,
            Change::Removed,
        ),
{
    let ids = distinct(after.map_values(entry_statement()));
    let p = changed_so(before, after, Change::Added);
    let q = changed_so(after, before, Change::Removed);
    lemma_same_selection(ids, p, q);
}

/// Equal conditions select equal elements.
proof fn lemma_same_selection<V>(s: Seq<V>, p: spec_fn(V) -> bool, q: spec_fn(V) -> bool)
    requires
        forall|v: V| #[trigger] p(v) == q(v),
    ensures
        s.filter(p) == s.filter(q),
    decreases s.len(),
{
    reveal(Seq::filter);
    if s.len() > 0 {
        lemma_same_selection(s.drop_last(), p, q);
        assert(p(s.last()) == q(s.last()));
    }
}

/// The last entry of a statement is one of its entries.
proof fn lemma_last_entry(entries: Seq<TimelineEntryView>, id: Seq<char>)
    ensures
        last_entry(entries, id) matches Some(e) ==> e.statement_id == id && entries.contains(e),
    decreases entries.len(),
{
    if entries.len() > 0 {
        lemma_last_entry(entries.drop_last(), id);
        if entries.last().statement_id == id {
            assert(entries[entries.len() - 1] == entries.last());
        } else if last_entry(entries.drop_last(), id) is Some {
            let e = last_entry(entries.drop_last(), id)->Some_0;
            let k = choose|k: int| 0 <= k < entries.len() - 1 && entries.drop_last()[k] == e;
            assert(entries[k] == e);
        }
    }
}

proof fn lemma_statement_order()
    ensures
        is_order(by_statement()),
{
    assert forall|a: TimelineEntryView, b: TimelineEntryView| #[trigger]
        by_statement()(a, b) || by_statement()(b, a) by {
        crate::text::lemma_text_total(a.statement_id, b.statement_id);
    }
    assert forall|a: TimelineEntryView, b: TimelineEntryView, c: TimelineEntryView| #[trigger]
        by_statement()(a, b) && #[trigger] by_statement()(b, c) implies by_statement()(a, c) by {
        crate::text::lemma_text_transitive(a.statement_id, b.statement_id, c.statement_id);
    }
}

/// Whether a list of entries has one of a statement.
pub open spec fn lists(entries: Seq<TimelineEntryView>, id: Seq<char>) -> bool {
    exists|i: int| 0 <= i < entries.len() && (#[trigger] entries[i]).statement_id == id
}

/// A list of changes has the statements that changed so, each once, in strict
/// order of their ids, with the last entry of each.
pub proof fn law_changes_are_listed_in_order(
    before: Seq<TimelineEntryView>,
    after: Seq<TimelineEntryView>,
    from: Seq<TimelineEntryView>,
    change: Change,
)
    ensures
        ({
            let c = changes(before, after, from, change);
            &&& forall|i: int| 0 <= i < c.len() ==> last_entry(
                from,
                (#[trigger] c[i]).statement_id,
            ) == Some(c[i])
            &&& forall|i: int, j: int|
                0 <= i < j < c.len() ==> text_le(
                    (#[trigger] c[i]).statement_id,
                    (#[trigger] c[j]).statement_id,
                ) && c[i].statement_id != c[j].statement_id
            &&& forall|id: Seq<char>| #[trigger]
                lists(c, id) <==> last_entry(from, id) is Some && change_of(before, after, id)
                    == change
        }),
{
    let c = changes(before, after, from, change);
    let named = from.map_values(entry_statement());
    let ids = distinct(named);
    let p = changed_so(before, after, change);
    let g = |id: Seq<char>| last_entry(from, id)->Some_0;
    let kept = ids.filter(p);
    let mapped = kept.map_values(g);
    crate::rows::lemma_distinct(named);
    crate::rows::lemma_ordered_same_rows(mapped, by_statement());
    lemma_statement_order();
    crate::rows::lemma_ordered_in_order(mapped, by_statement());
    assert forall|k: int| 0 <= k < kept.len() implies p(#[trigger] kept[k]) && last_entry(
        from,
        kept[k],
    ) == Some(mapped[k]) && mapped[k].statement_id == kept[k] by {
        ids.lemma_filter_pred(p, k);
        ids.lemma_filter_contains_rev(p, kept[k]);
        assert(named.contains(kept[k]));
        lemma_has_last(from, kept[k]);
        lemma_last_entry(from, kept[k]);
    }
    assert forall|i: int| 0 <= i < c.len() implies mapped.contains(#[trigger] c[i]) by {
        vstd::seq_lib::to_multiset_contains(c, c[i]);
        vstd::seq_lib::to_multiset_contains(mapped, c[i]);
        assert(c.contains(c[i]));
    }
    assert forall|i: int| 0 <= i < c.len() implies last_entry(
        from,
        (#[trigger] c[i]).statement_id,
    ) == Some(c[i]) && p(c[i].statement_id) by {
        let k = choose|k: int| 0 <= k < mapped.len() && mapped[k] == c[i];
        assert(p(kept[k]));
    }
    lemma_filter_distinct(ids, p);
    assert(mapped.no_duplicates()) by {
        assert forall|i: int, j: int| 0 <= i < mapped.len() && 0 <= j < mapped.len() && i
            != j implies mapped[i] != mapped[j] by {
            assert(p(kept[i]) && p(kept[j]));
            assert(kept[i] != kept[j]);
        }
    }
    mapped.lemma_multiset_has_no_duplicates();
    c.lemma_multiset_has_no_duplicates_conv();
    assert forall|i: int, j: int| 0 <= i < j < c.len() implies text_le(
        (#[trigger] c[i]).statement_id,
        (#[trigger] c[j]).statement_id,
    ) && c[i].statement_id != c[j].statement_id by {
        assert(by_statement()(c[i], c[j]));
        assert(c[i] != c[j]);
    }
    assert forall|id: Seq<char>| #[trigger]
        lists(c, id) <==> last_entry(from, id) is Some && change_of(before, after, id)
            == change by {
        if last_entry(from, id) is Some && p(id) {
            lemma_last_entry(from, id);
            let e = last_entry(from, id)->Some_0;
            let k = choose|k: int| 0 <= k < from.len() && from[k] == e;
            assert(named[k] == id);
            assert(named.contains(id));
            assert(ids.contains(id));
            let n = choose|n: int| 0 <= n < ids.len() && ids[n] == id;
            ids.lemma_filter_contains(p, n);
            let m = choose|m: int| 0 <= m < kept.len() && kept[m] == id;
            assert(mapped[m].statement_id == id);
            assert(mapped.contains(mapped[m]));
            vstd::seq_lib::to_multiset_contains(mapped, mapped[m]);
            vstd::seq_lib::to_multiset_contains(c, mapped[m]);
            let w = choose|w: int| 0 <= w < c.len() && c[w] == mapped[m];
            assert(c[w].statement_id == id);
        }
        if lists(c, id) {
            let w = choose|w: int| 0 <= w < c.len() && c[w].statement_id == id;
            assert(last_entry(from, c[w].statement_id) == Some(c[w]));
        }
    }
}

/// Selecting from distinct elements leaves them distinct.
proof fn lemma_filter_distinct<V>(s: Seq<V>, p: spec_fn(V) -> bool)
    requires
        s.no_duplicates(),
    ensures
        s.filter(p).no_duplicates(),
    decreases s.len(),
{
    reveal(Seq::filter);
    if s.len() > 0 {
        let init = s.drop_last();
        assert forall|i: int, j: int| 0 <= i < init.len() && 0 <= j < init.len() && i
            != j implies init[i] != init[j] by {
            assert(s[i] != s[j]);
        }
        lemma_filter_distinct(init, p);
        let kept = init.filter(p);
        if p(s.last()) {
            assert forall|i: int| 0 <= i < kept.len() implies kept[i] != s.last() by {
                init.lemma_filter_contains_rev(p, kept[i]);
                let k = choose|k: int| 0 <= k < init.len() && init[k] == kept[i];
                assert(s[k] != s[s.len() - 1]);
            }
        }
    }
}

/// A diff sorts every statement into one list at most: what was added, removed or
/// changed has no statement in common. And it changes the same statements
/// whichever way it is taken.
pub proof fn law_diff_lists_are_disjoint(
    before: Seq<TimelineEntryView>,
    after: Seq<TimelineEntryView>,
)
    ensures
        ({
            let added = changes(before, after, after, Change::Added);
            let removed = changes(before, after, before, Change::Removed);
            let changed = changes(before, after, after, Change::Changed);
            &&& forall|id: Seq<char>| #[trigger]
                lists(added, id) ==> !lists(removed, id) && !lists(changed, id)
            &&& forall|id: Seq<char>| #[trigger]
                lists(removed, id) ==> !lists(added, id) && !lists(changed, id)
            &&& forall|id: Seq<char>| #[trigger]
                lists(changed, id) == lists(changes(after, before, before, Change::Changed), id)
        }),
{
    law_changes_are_listed_in_order(before, after, after, Change::Added);
    law_changes_are_listed_in_order(before, after, before, Change::Removed);
    law_changes_are_listed_in_order(before, after, after, Change::Changed);
    law_changes_are_listed_in_order(after, before, before, Change::Changed);
}

} // verus!
