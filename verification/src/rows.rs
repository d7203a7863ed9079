//! Rows of tables, and the selections, deletions, counts and orders that the
//! store asks of them.
use vstd::prelude::*;

use crate::text::str_eq;

use crate::error::{fails_with, BrainError, BrainErrorView};

verus! {

/// A row that can be copied out of its table.
pub trait Row: DeepView + Sized {
    fn dup(&self) -> (r: Self)
        ensures
            r.deep_view() == self.deep_view(),
    ;
}

impl Row for String {
    fn dup(&self) -> (r: Self) {
        self.clone()
    }
}

/// The rows that `keep` accepts, in table order.
pub(crate) fn select<T: Row, F: Fn(&T) -> bool>(
    rows: &Vec<T>,
    keep: F,
    Ghost(p): Ghost<spec_fn(T::V) -> bool>,
) -> (r: Vec<T>)
    requires
        forall|x: &T| keep.requires((x,)),
        forall|x: &T, b: bool| keep.ensures((x,), b) ==> b == p(x.deep_view()),
    ensures
        r.deep_view() == rows.deep_view().filter(p),
{
    let mut out: Vec<T> = Vec::new();
    let mut i: usize = 0;
    proof {
        reveal(Seq::filter);
        assert(out.deep_view() =~= rows.deep_view().take(0).filter(p));
    }
    while i < rows.len()
        invariant
            i <= rows.len(),
            forall|x: &T| keep.requires((x,)),
            forall|x: &T, b: bool| keep.ensures((x,), b) ==> b == p(x.deep_view()),
            out.deep_view() == rows.deep_view().take(i as int).filter(p),
        decreases rows.len() - i,
    {
        let ghost before = out.deep_view();
        proof {
            assert(rows.deep_view().take(i + 1) =~= rows.deep_view().take(i as int).push(
                rows.deep_view()[i as int],
            ));
            rows.deep_view().take(i as int).lemma_filter_push(rows.deep_view()[i as int], p);
        }
        if keep(&rows[i]) {
            let row = rows[i].dup();
            out.push(row);
            assert(out.deep_view() =~= before.push(rows.deep_view()[i as int]));
        }
        i = i + 1;
    }
    assert(rows.deep_view().take(i as int) =~= rows.deep_view());
    out
}

/// Deletes the rows that `gone` accepts; the others, which `q` accepts, keep
/// their order.
pub(crate) fn delete<T: DeepView, F: Fn(&T) -> bool>(
    rows: &mut Vec<T>,
    gone: F,
    Ghost(q): Ghost<spec_fn(T::V) -> bool>,
)
    requires
        forall|x: &T| gone.requires((x,)),
        forall|x: &T, b: bool| gone.ensures((x,), b) ==> b == !q(x.deep_view()),
    ensures
        final(rows).deep_view() == old(rows).deep_view().filter(q),
{
    let ghost all = rows.deep_view();
    let mut i: usize = 0;
    let ghost mut seen: int = 0;
    proof {
        reveal(Seq::filter);
        assert(rows.deep_view().take(0) =~= all.take(0).filter(q));
        assert(rows.deep_view().skip(0) =~= all.skip(0));
    }
    while i < rows.len()
        invariant
            i <= rows.len(),
            0 <= seen <= all.len(),
            rows.len() - i == all.len() - seen,
            forall|x: &T| gone.requires((x,)),
            forall|x: &T, b: bool| gone.ensures((x,), b) ==> b == !q(x.deep_view()),
            rows.deep_view().take(i as int) == all.take(seen).filter(q),
            rows.deep_view().skip(i as int) == all.skip(seen),
        decreases all.len() - seen,
    {
        let ghost before = rows.deep_view();
        proof {
            assert(before[i as int] == before.skip(i as int)[0]);
            assert(before[i as int] == all[seen]);
            assert(all.take(seen + 1) =~= all.take(seen).push(all[seen]));
            all.take(seen).lemma_filter_push(all[seen], q);
            assert(all.skip(seen + 1) =~= all.skip(seen).drop_first());
            assert(before.skip(i + 1) =~= before.skip(i as int).drop_first());
        }
        if gone(&rows[i]) {
            let _row = rows.remove(i);
            proof {
                assert(rows.deep_view() =~= before.remove(i as int));
                assert(rows.deep_view().take(i as int) =~= before.take(i as int));
                assert(rows.deep_view().skip(i as int) =~= before.skip(i + 1));
            }
        } else {
            i = i + 1;
            proof {
                assert(before.take(i as int) =~= before.take(i - 1).push(before[i - 1]));
            }
        }
        proof {
            seen = seen + 1;
        }
    }
    proof {
        assert(rows.deep_view().take(i as int) =~= rows.deep_view());
        assert(all.take(seen) =~= all);
    }
}

/// What `get` reads from the rows that `keep` accepts, in table order.
pub(crate) fn pick<T: DeepView, U: DeepView, F: Fn(&T) -> bool, G: Fn(&T) -> U>(
    rows: &Vec<T>,
    keep: F,
    get: G,
    Ghost(p): Ghost<spec_fn(T::V) -> bool>,
    Ghost(g): Ghost<spec_fn(T::V) -> U::V>,
) -> (r: Vec<U>)
    requires
        forall|x: &T| keep.requires((x,)),
        forall|x: &T, b: bool| keep.ensures((x,), b) ==> b == p(x.deep_view()),
        forall|x: &T| get.requires((x,)),
        forall|x: &T, u: U| get.ensures((x,), u) ==> u.deep_view() == g(x.deep_view()),
    ensures
        r.deep_view() == rows.deep_view().filter(p).map_values(g),
{
    let mut out: Vec<U> = Vec::new();
    let mut i: usize = 0;
    proof {
        reveal(Seq::filter);
        assert(out.deep_view() =~= rows.deep_view().take(0).filter(p).map_values(g));
    }
    while i < rows.len()
        invariant
            i <= rows.len(),
            forall|x: &T| keep.requires((x,)),
            forall|x: &T, b: bool| keep.ensures((x,), b) ==> b == p(x.deep_view()),
            forall|x: &T| get.requires((x,)),
            forall|x: &T, u: U| get.ensures((x,), u) ==> u.deep_view() == g(x.deep_view()),
            out.deep_view() == rows.deep_view().take(i as int).filter(p).map_values(g),
        decreases rows.len() - i,
    {
        let ghost before = out.deep_view();
        let ghost row = rows.deep_view()[i as int];
        let ghost kept = rows.deep_view().take(i as int).filter(p);
        proof {
            assert(rows.deep_view().take(i + 1) =~= rows.deep_view().take(i as int).push(row));
            rows.deep_view().take(i as int).lemma_filter_push(row, p);
        }
        if keep(&rows[i]) {
            let u = get(&rows[i]);
            out.push(u);
            assert(out.deep_view() =~= before.push(g(row)));
            assert(kept.push(row).map_values(g) =~= kept.map_values(g).push(g(row)));
        }
        i = i + 1;
    }
    assert(rows.deep_view().take(i as int) =~= rows.deep_view());
    out
}

/// How many rows `keep` accepts.
pub(crate) fn count<T: DeepView, F: Fn(&T) -> bool>(
    rows: &Vec<T>,
    keep: F,
    Ghost(p): Ghost<spec_fn(T::V) -> bool>,
) -> (r: usize)
    requires
        forall|x: &T| keep.requires((x,)),
        forall|x: &T, b: bool| keep.ensures((x,), b) ==> b == p(x.deep_view()),
    ensures
        r == rows.deep_view().filter(p).len(),
        r <= rows.len(),
{
    let mut n: usize = 0;
    let mut i: usize = 0;
    proof {
        reveal(Seq::filter);
        assert(rows.deep_view().take(0).filter(p).len() == 0);
    }
    while i < rows.len()
        invariant
            n <= i <= rows.len(),
            forall|x: &T| keep.requires((x,)),
            forall|x: &T, b: bool| keep.ensures((x,), b) ==> b == p(x.deep_view()),
            n == rows.deep_view().take(i as int).filter(p).len(),
        decreases rows.len() - i,
    {
        proof {
            assert(rows.deep_view().take(i + 1) =~= rows.deep_view().take(i as int).push(
                rows.deep_view()[i as int],
            ));
            rows.deep_view().take(i as int).lemma_filter_push(rows.deep_view()[i as int], p);
        }
        if keep(&rows[i]) {
            n = n + 1;
        }
        i = i + 1;
    }
    assert(rows.deep_view().take(i as int) =~= rows.deep_view());
    n
}

/// The first element that `p` accepts.
pub open spec fn first_where<V>(s: Seq<V>, p: spec_fn(V) -> bool) -> Option<V> {
    if s.filter(p).len() > 0 {
        Some(s.filter(p)[0])
    } else {
        None
    }
}

/// Whether `p` accepts some element.
pub open spec fn some_where<V>(s: Seq<V>, p: spec_fn(V) -> bool) -> bool {
    exists|i: int| 0 <= i < s.len() && p(#[trigger] s[i])
}

/// An element that is accepted while none before it is, is the first of its kind.
pub proof fn lemma_first_where<V>(s: Seq<V>, p: spec_fn(V) -> bool, i: int)
    requires
        0 <= i <= s.len(),
        forall|j: int| 0 <= j < i ==> !p(#[trigger] s[j]),
        i < s.len() ==> p(s[i]),
    ensures
        i < s.len() ==> first_where(s, p) == Some(s[i]),
        i == s.len() ==> first_where(s, p) is None,
        some_where(s, p) == (i < s.len()),
        some_where(s, p) == (first_where(s, p) is Some),
{
    let head = s.take(i);
    assert(head.all(|x: V| !p(x)));
    head.lemma_all_neg_filter_empty(p);
    assert(s =~= head + s.skip(i));
    Seq::filter_distributes_over_add(head, s.skip(i), p);
    assert(head.filter(p) + s.skip(i).filter(p) =~= s.skip(i).filter(p));
    if i < s.len() {
        let rest = s.skip(i + 1);
        assert(s.skip(i) =~= seq![s[i]] + rest);
        Seq::filter_distributes_over_add(seq![s[i]], rest, p);
        reveal(Seq::filter);
        assert(seq![s[i]].drop_last() =~= Seq::<V>::empty());
        assert(seq![s[i]].filter(p) =~= seq![s[i]]);
    } else {
        assert(s.skip(i) =~= Seq::<V>::empty());
        reveal(Seq::filter);
    }
}

/// The position of the first row that `keep` accepts.
pub(crate) fn find<T: DeepView, F: Fn(&T) -> bool>(
    rows: &Vec<T>,
    keep: F,
    Ghost(p): Ghost<spec_fn(T::V) -> bool>,
) -> (r: Option<usize>)
    requires
        forall|x: &T| keep.requires((x,)),
        forall|x: &T, b: bool| keep.ensures((x,), b) ==> b == p(x.deep_view()),
    ensures
        match r {
            Some(i) => i < rows.len() && p(rows.deep_view()[i as int]) && first_where(
                rows.deep_view(),
                p,
            ) == Some(rows.deep_view()[i as int]) && forall|j: int|
                0 <= j < i ==> !p(#[trigger] rows.deep_view()[j]),
            None => first_where(rows.deep_view(), p) is None && forall|j: int|
                0 <= j < rows.len() ==> !p(#[trigger] rows.deep_view()[j]),
        },
        r is Some == some_where(rows.deep_view(), p),
{
    let mut i: usize = 0;
    while i < rows.len()
        invariant
            i <= rows.len(),
            forall|x: &T| keep.requires((x,)),
            forall|x: &T, b: bool| keep.ensures((x,), b) ==> b == p(x.deep_view()),
            forall|j: int| 0 <= j < i ==> !p(#[trigger] rows.deep_view()[j]),
        decreases rows.len() - i,
    {
        if keep(&rows[i]) {
            proof {
                lemma_first_where(rows.deep_view(), p, i as int);
            }
            return Some(i);
        }
        i = i + 1;
    }
    proof {
        lemma_first_where(rows.deep_view(), p, i as int);
    }
    None
}

/// Replaces each row that `hit` accepts by what `new` makes of it.
pub(crate) fn update<T: DeepView, F: Fn(&T) -> bool, G: Fn(&T) -> T>(
    rows: &mut Vec<T>,
    hit: F,
    new: G,
    Ghost(p): Ghost<spec_fn(T::V) -> bool>,
    Ghost(g): Ghost<spec_fn(T::V) -> T::V>,
) -> (n: usize)
    requires
        forall|x: &T| hit.requires((x,)),
        forall|x: &T, b: bool| hit.ensures((x,), b) ==> b == p(x.deep_view()),
        forall|x: &T| new.requires((x,)),
        forall|x: &T, u: T| new.ensures((x,), u) ==> u.deep_view() == g(x.deep_view()),
    ensures
        final(rows).deep_view() == updated(old(rows).deep_view(), p, g),
        n == old(rows).deep_view().filter(p).len(),
{
    let ghost all = rows.deep_view();
    let mut n: usize = 0;
    let mut i: usize = 0;
    proof {
        reveal(Seq::filter);
        assert(all.take(0).filter(p).len() == 0);
    }
    while i < rows.len()
        invariant
            n <= i <= rows.len(),
            rows.len() == all.len(),
            forall|x: &T| hit.requires((x,)),
            forall|x: &T, b: bool| hit.ensures((x,), b) ==> b == p(x.deep_view()),
            forall|x: &T| new.requires((x,)),
            forall|x: &T, u: T| new.ensures((x,), u) ==> u.deep_view() == g(x.deep_view()),
            forall|j: int| 0 <= j < i ==> #[trigger] rows.deep_view()[j] == updated(all, p, g)[j],
            forall|j: int| i <= j < rows.len() ==> #[trigger] rows.deep_view()[j] == all[j],
            n == all.take(i as int).filter(p).len(),
        decreases rows.len() - i,
    {
        let ghost before = rows.deep_view();
        proof {
            assert(before[i as int] == all[i as int]);
            assert(all.take(i + 1) =~= all.take(i as int).push(all[i as int]));
            all.take(i as int).lemma_filter_push(all[i as int], p);
        }
        if hit(&rows[i]) {
            let row = new(&rows[i]);
            rows[i] = row;
            n = n + 1;
            assert(rows.deep_view() =~= before.update(i as int, g(all[i as int])));
        }
        i = i + 1;
    }
    proof {
        assert(all.take(i as int) =~= all);
        assert(rows.deep_view() =~= updated(all, p, g));
    }
    n
}

/// A table with each row that `p` accepts replaced by its image under `g`.
pub open spec fn updated<V>(s: Seq<V>, p: spec_fn(V) -> bool, g: spec_fn(V) -> V) -> Seq<V> {
    s.map_values(|v: V| if p(v) { g(v) } else { v })
}

/// Selecting from updated rows is updating the selected ones, where the update
/// changes nothing that the selection looks at.
pub proof fn lemma_updated_filter<V>(
    s: Seq<V>,
    p: spec_fn(V) -> bool,
    g: spec_fn(V) -> V,
    q: spec_fn(V) -> bool,
)
    requires
        forall|v: V| q(#[trigger] g(v)) == q(v),
    ensures
        updated(s, p, g).filter(q) == updated(s.filter(q), p, g),
    decreases s.len(),
{
    reveal(Seq::filter);
    let t = updated(s, p, g);
    if s.len() == 0 {
        assert(t.filter(q) =~= updated(s.filter(q), p, g));
    } else {
        lemma_updated_filter(s.drop_last(), p, g, q);
        assert(t.drop_last() =~= updated(s.drop_last(), p, g));
        assert(q(g(s.last())) == q(s.last()));
        assert(t.filter(q) =~= updated(s.filter(q), p, g));
    }
}

/// Puts `x` behind every element that does not come after it.
pub open spec fn insort<V>(s: Seq<V>, x: V, leq: spec_fn(V, V) -> bool) -> Seq<V>
    decreases s.len(),
{
    if s.len() == 0 || leq(s.last(), x) {
        s.push(x)
    } else {
        insort(s.drop_last(), x, leq).push(s.last())
    }
}

/// The elements in the order of `leq`; elements that the order does not tell
/// apart keep the order they had.
pub open spec fn ordered<V>(s: Seq<V>, leq: spec_fn(V, V) -> bool) -> Seq<V>
    decreases s.len(),
{
    if s.len() == 0 {
        s
    } else {
        insort(ordered(s.drop_last(), leq), s.last(), leq)
    }
}

/// Whether no element comes after a later one.
pub open spec fn in_order<V>(s: Seq<V>, leq: spec_fn(V, V) -> bool) -> bool {
    forall|i: int, j: int| 0 <= i < j < s.len() ==> leq(#[trigger] s[i], #[trigger] s[j])
}

proof fn lemma_insort<V>(s: Seq<V>, x: V, leq: spec_fn(V, V) -> bool)
    ensures
        insort(s, x, leq).to_multiset() == s.to_multiset().insert(x),
        insort(s, x, leq).len() == s.len() + 1,
    decreases s.len(),
{
    broadcast use {vstd::seq_lib::to_multiset_build, vstd::seq_lib::to_multiset_len};

    if s.len() == 0 || leq(s.last(), x) {
    } else {
        lemma_insort(s.drop_last(), x, leq);
        assert(s =~= s.drop_last().push(s.last()));
        assert(s.drop_last().to_multiset().insert(x).insert(s.last())
            =~= s.drop_last().to_multiset().insert(s.last()).insert(x));
    }
}

/// Ordering a table neither adds, drops nor changes a row.
pub proof fn lemma_ordered_same_rows<V>(s: Seq<V>, leq: spec_fn(V, V) -> bool)
    ensures
        ordered(s, leq).to_multiset() == s.to_multiset(),
        ordered(s, leq).len() == s.len(),
    decreases s.len(),
{
    broadcast use {vstd::seq_lib::to_multiset_build, vstd::seq_lib::to_multiset_len};

    if s.len() > 0 {
        lemma_ordered_same_rows(s.drop_last(), leq);
        lemma_insort(ordered(s.drop_last(), leq), s.last(), leq);
        assert(s =~= s.drop_last().push(s.last()));
    }
}

/// A total, transitive relation.
pub open spec fn is_order<V>(leq: spec_fn(V, V) -> bool) -> bool {
    &&& forall|a: V, b: V| #[trigger] leq(a, b) || leq(b, a)
    &&& forall|a: V, b: V, c: V| #[trigger] leq(a, b) && #[trigger] leq(b, c) ==> leq(a, c)
}

proof fn lemma_insort_order<V>(s: Seq<V>, x: V, leq: spec_fn(V, V) -> bool)
    requires
        is_order(leq),
        in_order(s, leq),
    ensures
        in_order(insort(s, x, leq), leq),
    decreases s.len(),
{
    if s.len() == 0 {
    } else if leq(s.last(), x) {
        let t = s.push(x);
        assert forall|i: int, j: int| 0 <= i < j < t.len() implies leq(
            #[trigger] t[i],
            #[trigger] t[j],
        ) by {
            if j == s.len() && i < s.len() - 1 {
                assert(leq(s[i], s.last()));
            }
        }
    } else {
        lemma_insort_order(s.drop_last(), x, leq);
        lemma_insort(s.drop_last(), x, leq);
        let u = insort(s.drop_last(), x, leq);
        let t = u.push(s.last());
        assert forall|i: int, j: int| 0 <= i < j < t.len() implies leq(
            #[trigger] t[i],
            #[trigger] t[j],
        ) by {
            if j == u.len() {
                vstd::seq_lib::to_multiset_contains(u, u[i]);
                vstd::seq_lib::to_multiset_contains(s.drop_last(), u[i]);
                assert(u.contains(u[i]));
                if u[i] != x {
                    assert(s.drop_last().contains(u[i]));
                    let k = choose|k: int| 0 <= k < s.len() - 1 && s[k] == u[i];
                    assert(leq(s[k], s.last()));
                } else {
                    assert(leq(s.last(), x) || leq(x, s.last()));
                }
            }
        }
    }
}

/// Ordering by a total, transitive relation puts the rows in its order.
pub proof fn lemma_ordered_in_order<V>(s: Seq<V>, leq: spec_fn(V, V) -> bool)
    requires
        is_order(leq),
    ensures
        in_order(ordered(s, leq), leq),
    decreases s.len(),
{
    if s.len() > 0 {
        lemma_ordered_in_order(s.drop_last(), leq);
        lemma_insort_order(ordered(s.drop_last(), leq), s.last(), leq);
    }
}

/// The rows in the order of `le`, equal ones in table order.
pub(crate) fn order<T: DeepView, F: Fn(&T, &T) -> bool>(
    rows: Vec<T>,
    le: F,
    Ghost(leq): Ghost<spec_fn(T::V, T::V) -> bool>,
) -> (r: Vec<T>)
    requires
        forall|x: &T, y: &T| le.requires((x, y)),
        forall|x: &T, y: &T, b: bool|
            le.ensures((x, y), b) ==> b == leq(x.deep_view(), y.deep_view()),
    ensures
        r.deep_view() == ordered(rows.deep_view(), leq),
{
    let mut rows = rows;
    let ghost all = rows.deep_view();
    let mut out: Vec<T> = Vec::new();
    assert(all.skip(0) =~= all);
    assert(out.deep_view() =~= ordered(all.take(0), leq));
    while rows.len() > 0
        invariant
            rows.len() <= all.len(),
            rows.deep_view() == all.skip(all.len() - rows.len()),
            forall|x: &T, y: &T| le.requires((x, y)),
            forall|x: &T, y: &T, b: bool|
                le.ensures((x, y), b) ==> b == leq(x.deep_view(), y.deep_view()),
            out.deep_view() == ordered(all.take(all.len() - rows.len()), leq),
        decreases rows.len(),
    {
        let ghost k = all.len() - rows.len();
        let ghost before = rows.deep_view();
        let row = rows.remove(0);
        proof {
            assert(rows.deep_view() =~= before.drop_first());
            assert(rows.deep_view() =~= all.skip(k + 1));
            assert(row.deep_view() == before[0]);
            assert(all.take(k + 1).drop_last() =~= all.take(k));
            assert(all.take(k + 1).last() == row.deep_view());
        }
        insert_ordered(&mut out, row, &le, Ghost(leq));
    }
    assert(all.take(all.len() as int) =~= all);
    out
}

fn insert_ordered<T: DeepView, F: Fn(&T, &T) -> bool>(
    out: &mut Vec<T>,
    row: T,
    le: &F,
    Ghost(leq): Ghost<spec_fn(T::V, T::V) -> bool>,
)
    requires
        forall|x: &T, y: &T| le.requires((x, y)),
        forall|x: &T, y: &T, b: bool|
            le.ensures((x, y), b) ==> b == leq(x.deep_view(), y.deep_view()),
    ensures
        final(out).deep_view() == insort(old(out).deep_view(), row.deep_view(), leq),
{
    let ghost s = out.deep_view();
    let ghost x = row.deep_view();
    let mut i: usize = out.len();
    let ghost mut tail: Seq<T::V> = Seq::empty();
    assert(s.take(i as int) =~= s);
    assert(insort(s, x, leq) =~= insort(s.take(i as int), x, leq) + tail);
    assert(s =~= s.take(i as int) + tail);
    while i > 0
        invariant
            i <= out.len(),
            out.deep_view() == s,
            row.deep_view() == x,
            forall|x: &T, y: &T| le.requires((x, y)),
            forall|x: &T, y: &T, b: bool|
                le.ensures((x, y), b) ==> b == leq(x.deep_view(), y.deep_view()),
            insort(s, x, leq) == insort(s.take(i as int), x, leq) + tail,
            s == s.take(i as int) + tail,
        ensures
            i <= out.len(),
            out.deep_view() == s,
            row.deep_view() == x,
            insort(s, x, leq) == s.take(i as int).push(x) + tail,
            s == s.take(i as int) + tail,
        decreases i,
    {
        assert(s.take(i as int).last() == s[i - 1]);
        assert(out[i - 1].deep_view() == s[i - 1]);
        if le(&out[i - 1], &row) {
            break;
        }
        proof {
            assert(s.take(i as int).drop_last() =~= s.take(i - 1));
            let shorter = insort(s.take(i - 1), x, leq);
            assert(insort(s.take(i as int), x, leq) == shorter.push(s[i - 1]));
            assert(shorter.push(s[i - 1]) + tail =~= shorter + (seq![s[i - 1]] + tail));
            assert(s.take(i as int) + tail =~= s.take(i - 1) + (seq![s[i - 1]] + tail));
            tail = seq![s[i - 1]] + tail;
        }
        i = i - 1;
    }
    out.insert(i, row);
    proof {
        assert(tail =~= s.skip(i as int));
        assert(out.deep_view() =~= s.insert(i as int, x));
        assert(out.deep_view() =~= s.take(i as int).push(x) + tail);
    }
}

/// The elements without those that occur earlier.
pub open spec fn distinct<V>(s: Seq<V>) -> Seq<V>
    decreases s.len(),
{
    if s.len() == 0 {
        s
    } else {
        let head = distinct(s.drop_last());
        if head.contains(s.last()) {
            head
        } else {
            head.push(s.last())
        }
    }
}

/// Dropping repeats keeps every value, once.
pub proof fn lemma_distinct<V>(s: Seq<V>)
    ensures
        distinct(s).no_duplicates(),
        forall|v: V| #[trigger] distinct(s).contains(v) <==> s.contains(v),
        distinct(s).len() <= s.len(),
    decreases s.len(),
{
    if s.len() > 0 {
        let head = s.drop_last();
        lemma_distinct(head);
        let d = distinct(head);
        assert(s =~= head.push(s.last()));
        assert forall|v: V| #[trigger] distinct(s).contains(v) <==> s.contains(v) by {
            assert(d.contains(v) <==> head.contains(v));
            lemma_push_contains(head, s.last(), v);
            lemma_push_contains(d, s.last(), v);
        }
    }
}

proof fn lemma_push_contains<V>(s: Seq<V>, x: V, v: V)
    ensures
        s.push(x).contains(v) <==> s.contains(v) || v == x,
{
    assert(s.push(x)[s.len() as int] == x);
    if s.contains(v) {
        let i = choose|i: int| 0 <= i < s.len() && s[i] == v;
        assert(s.push(x)[i] == v);
    }
}

/// Whether a list of texts holds `id`.
pub(crate) fn holds(ids: &Vec<String>, id: &str) -> (r: bool)
    ensures
        r == ids.deep_view().contains(id@),
{
    let mut i: usize = 0;
    while i < ids.len()
        invariant
            i <= ids.len(),
            forall|j: int| 0 <= j < i ==> #[trigger] ids.deep_view()[j] != id@,
        decreases ids.len() - i,
    {
        if str_eq(ids[i].as_str(), id) {
            assert(ids.deep_view()[i as int] == id@);
            return true;
        }
        i = i + 1;
    }
    false
}

/// The items without those that equal an earlier one.
pub(crate) fn dedupe<T: DeepView, F: Fn(&T, &T) -> bool>(items: Vec<T>, same: F) -> (r: Vec<T>)
    requires
        forall|x: &T, y: &T| same.requires((x, y)),
        forall|x: &T, y: &T, b: bool|
            same.ensures((x, y), b) ==> b == (x.deep_view() == y.deep_view()),
    ensures
        r.deep_view() == distinct(items.deep_view()),
{
    let mut items = items;
    let ghost all = items.deep_view();
    let mut out: Vec<T> = Vec::new();
    assert(all.skip(0) =~= all);
    assert(out.deep_view() =~= distinct(all.take(0)));
    while items.len() > 0
        invariant
            items.len() <= all.len(),
            items.deep_view() == all.skip(all.len() - items.len()),
            forall|x: &T, y: &T| same.requires((x, y)),
            forall|x: &T, y: &T, b: bool|
                same.ensures((x, y), b) ==> b == (x.deep_view() == y.deep_view()),
            out.deep_view() == distinct(all.take(all.len() - items.len())),
        decreases items.len(),
    {
        let ghost k = all.len() - items.len();
        let ghost before = items.deep_view();
        let ghost kept = out.deep_view();
        let item = items.remove(0);
        let ghost v = item.deep_view();
        proof {
            assert(items.deep_view() =~= before.drop_first());
            assert(items.deep_view() =~= all.skip(k + 1));
            assert(v == before[0]);
            assert(all.take(k + 1).drop_last() =~= all.take(k));
            assert(all.take(k + 1).last() == v);
        }
        let mut seen = false;
        let mut i: usize = 0;
        while i < out.len() && !seen
            invariant
                i <= out.len(),
                out.deep_view() == kept,
                item.deep_view() == v,
                forall|x: &T, y: &T| same.requires((x, y)),
                forall|x: &T, y: &T, b: bool|
                    same.ensures((x, y), b) ==> b == (x.deep_view() == y.deep_view()),
                seen ==> kept.contains(v),
                !seen ==> forall|j: int| 0 <= j < i ==> #[trigger] kept[j] != v,
            decreases out.len() - i + if seen { 0int } else { 1int },
        {
            if same(&out[i], &item) {
                assert(kept[i as int] == v);
                seen = true;
            } else {
                i = i + 1;
            }
        }
        if !seen {
            out.push(item);
            assert(out.deep_view() =~= kept.push(v));
        }
    }
    assert(all.take(all.len() as int) =~= all);
    out
}

/// Whether two byte strings are equal.
pub(crate) fn same_bytes(a: &[u8], b: &[u8]) -> (r: bool)
    ensures
        r == (a@ == b@),
{
    if a.len() != b.len() {
        return false;
    }
    let mut i: usize = 0;
    while i < a.len()
        invariant
            i <= a.len(),
            a.len() == b.len(),
            forall|j: int| 0 <= j < i ==> a@[j] == b@[j],
        decreases a.len() - i,
    {
        if a[i] != b[i] {
            return false;
        }
        i = i + 1;
    }
    assert(a@ =~= b@);
    true
}

/// A table with a row put in unless `p` accepts a row that is there.
pub open spec fn or_ignore<V>(s: Seq<V>, p: spec_fn(V) -> bool, x: V) -> Seq<V> {
    if some_where(s, p) {
        s
    } else {
        s.push(x)
    }
}

/// Puts a row in unless `same` accepts a row that is there. Says whether it did.
pub(crate) fn insert_or_ignore<T: DeepView, F: Fn(&T) -> bool>(
    rows: &mut Vec<T>,
    row: T,
    same: F,
    Ghost(p): Ghost<spec_fn(T::V) -> bool>,
) -> (r: bool)
    requires
        forall|x: &T| same.requires((x,)),
        forall|x: &T, b: bool| same.ensures((x,), b) ==> b == p(x.deep_view()),
    ensures
        final(rows).deep_view() == or_ignore(old(rows).deep_view(), p, row.deep_view()),
        r == !some_where(old(rows).deep_view(), p),
{
    let ghost before = rows.deep_view();
    let ghost v = row.deep_view();
    match find(rows, same, Ghost(p)) {
        Some(_) => false,
        None => {
            rows.push(row);
            assert(rows.deep_view() =~= before.push(v));
            true
        },
    }
}

/// A table with a row put in the place of those that `p` accepts.
pub open spec fn or_replace<V>(s: Seq<V>, p: spec_fn(V) -> bool, x: V) -> Seq<V> {
    s.filter(|v: V| !p(v)).push(x)
}

/// Puts a row in the place of those that `same` accepts.
pub(crate) fn insert_or_replace<T: DeepView, F: Fn(&T) -> bool>(
    rows: &mut Vec<T>,
    row: T,
    same: F,
    Ghost(p): Ghost<spec_fn(T::V) -> bool>,
)
    requires
        forall|x: &T| same.requires((x,)),
        forall|x: &T, b: bool| same.ensures((x,), b) ==> b == p(x.deep_view()),
    ensures
        final(rows).deep_view() == or_replace(old(rows).deep_view(), p, row.deep_view()),
{
    delete(rows, same, Ghost(|v: T::V| !p(v)));
    let ghost before = rows.deep_view();
    let ghost v = row.deep_view();
    rows.push(row);
    assert(rows.deep_view() =~= before.push(v));
}

/// The first `n` elements, or all where there are fewer.
pub open spec fn first_n<V>(s: Seq<V>, n: nat) -> Seq<V> {
    if n < s.len() {
        s.take(n as int)
    } else {
        s
    }
}

/// Keeps the first `n` rows.
pub(crate) fn limited<T: DeepView>(rows: Vec<T>, n: usize) -> (r: Vec<T>)
    ensures
        r.deep_view() == first_n(rows.deep_view(), n as nat),
{
    let mut rows = rows;
    let ghost all = rows.deep_view();
    if n < rows.len() {
        rows.truncate(n);
        assert(rows.deep_view() =~= all.take(n as int));
    }
    rows
}

/// Distinct elements that all occur in a list are no more than the list has.
pub proof fn lemma_distinct_within<V>(a: Seq<V>, b: Seq<V>)
    requires
        a.no_duplicates(),
        forall|i: int| 0 <= i < a.len() ==> b.contains(#[trigger] a[i]),
    ensures
        a.len() <= b.len(),
{
    a.unique_seq_to_set();
    b.lemma_cardinality_of_set();
    assert(a.to_set().subset_of(b.to_set())) by {
        assert forall|v: V| a.to_set().contains(v) implies b.to_set().contains(v) by {
            let i = choose|i: int| 0 <= i < a.len() && a[i] == v;
            assert(b.contains(a[i]));
        }
    }
    vstd::seq_lib::seq_to_set_is_finite(b);
    vstd::set_lib::lemma_len_subset(a.to_set(), b.to_set());
}

/// A copy of a table.
pub(crate) fn dup_rows<T: Row>(rows: &Vec<T>) -> (r: Vec<T>)
    ensures
        r.deep_view() == rows.deep_view(),
{
    let mut out: Vec<T> = Vec::new();
    let mut i: usize = 0;
    assert(out.deep_view() =~= rows.deep_view().take(0));
    while i < rows.len()
        invariant
            i <= rows.len(),
            out.deep_view() == rows.deep_view().take(i as int),
        decreases rows.len() - i,
    {
        let ghost before = out.deep_view();
        let row = rows[i].dup();
        out.push(row);
        i = i + 1;
        assert(out.deep_view() =~= before.push(rows.deep_view()[i - 1]));
        assert(rows.deep_view().take(i as int) =~= rows.deep_view().take(i - 1).push(
            rows.deep_view()[i - 1],
        ));
    }
    assert(rows.deep_view().take(i as int) =~= rows.deep_view());
    out
}

/// What `get` makes of each row, in table order.
pub(crate) fn map_rows<T: DeepView, U: DeepView, G: Fn(&T) -> U>(
    rows: &Vec<T>,
    get: G,
    Ghost(g): Ghost<spec_fn(T::V) -> U::V>,
) -> (r: Vec<U>)
    requires
        forall|x: &T| get.requires((x,)),
        forall|x: &T, u: U| get.ensures((x,), u) ==> u.deep_view() == g(x.deep_view()),
    ensures
        r.deep_view() == rows.deep_view().map_values(g),
{
    let mut out: Vec<U> = Vec::new();
    let mut i: usize = 0;
    assert(out.deep_view() =~= rows.deep_view().take(0).map_values(g));
    while i < rows.len()
        invariant
            i <= rows.len(),
            forall|x: &T| get.requires((x,)),
            forall|x: &T, u: U| get.ensures((x,), u) ==> u.deep_view() == g(x.deep_view()),
            out.deep_view() == rows.deep_view().take(i as int).map_values(g),
        decreases rows.len() - i,
    {
        let ghost before = out.deep_view();
        let ghost row = rows.deep_view()[i as int];
        let u = get(&rows[i]);
        out.push(u);
        proof {
            assert(out.deep_view() =~= before.push(g(row)));
            assert(rows.deep_view().take(i + 1).map_values(g) =~= rows.deep_view().take(
                i as int,
            ).map_values(g).push(g(row)));
        }
        i = i + 1;
    }
    assert(rows.deep_view().take(i as int) =~= rows.deep_view());
    out
}

/// What rows give, one after the other, leaving out those that give nothing, or
/// the error of the first row that fails.
pub open spec fn tried<V, W, E>(
    rows: Seq<V>,
    g: spec_fn(V) -> Result<Option<W>, E>,
) -> Result<Seq<W>, E>
    decreases rows.len(),
{
    if rows.len() == 0 {
        Ok(Seq::empty())
    } else {
        match tried(rows.drop_last(), g) {
            Err(e) => Err(e),
            Ok(before) => match g(rows.last()) {
                Err(e) => Err(e),
                Ok(Some(w)) => Ok(before.push(w)),
                Ok(None) => Ok(before),
            },
        }
    }
}

/// An error among the first rows is the error of all.
proof fn lemma_tried_error<V, W, E>(
    rows: Seq<V>,
    g: spec_fn(V) -> Result<Option<W>, E>,
    k: int,
)
    requires
        0 <= k <= rows.len(),
        tried(rows.take(k), g) is Err,
    ensures
        tried(rows, g) == tried(rows.take(k), g),
    decreases rows.len() - k,
{
    if k == rows.len() {
        assert(rows.take(k) =~= rows);
    } else {
        assert(rows.take(k + 1).drop_last() =~= rows.take(k));
        lemma_tried_error(rows, g, k + 1);
    }
}

/// What an attempt on one row gives, as a mathematical value.
pub open spec fn attempt_view<U: DeepView>(r: Result<Option<U>, BrainError>) -> Result<
    Option<U::V>,
    BrainErrorView,
> {
    match r {
        Err(e) => Err(e.deep_view()),
        Ok(Some(u)) => Ok(Some(u.deep_view())),
        Ok(None) => Ok(None),
    }
}

/// Maps rows, leaving out those that give nothing, up to the first error.
pub(crate) fn try_map<T: DeepView, U: DeepView, G: Fn(&T) -> Result<Option<U>, BrainError>>(
    rows: &Vec<T>,
    get: G,
    Ghost(g): Ghost<spec_fn(T::V) -> Result<Option<U::V>, BrainErrorView>>,
) -> (r: Result<Vec<U>, BrainError>)
    requires
        forall|x: &T| get.requires((x,)),
        forall|x: &T, u: Result<Option<U>, BrainError>|
            get.ensures((x,), u) ==> attempt_view(u) == g(x.deep_view()),
    ensures
        match tried(rows.deep_view(), g) {
            Ok(v) => r is Ok && r->Ok_0.deep_view() == v,
            Err(e) => fails_with(r, e),
        },
{
    let ghost all = rows.deep_view();
    let mut out: Vec<U> = Vec::new();
    let mut i: usize = 0;
    assert(all.take(0) =~= Seq::empty());
    assert(out.deep_view() =~= Seq::<U::V>::empty());
    while i < rows.len()
        invariant
            i <= rows.len(),
            all == rows.deep_view(),
            forall|x: &T| get.requires((x,)),
            forall|x: &T, u: Result<Option<U>, BrainError>|
                get.ensures((x,), u) ==> attempt_view(u) == g(x.deep_view()),
            tried(all.take(i as int), g) == Ok::<Seq<U::V>, BrainErrorView>(out.deep_view()),
        decreases rows.len() - i,
    {
        let ghost before = out.deep_view();
        proof {
            assert(all.take(i + 1).drop_last() =~= all.take(i as int));
            assert(all.take(i + 1).last() == all[i as int]);
            assert(all[i as int] == rows[i as int].deep_view());
        }
        match get(&rows[i]) {
            Err(e) => {
                proof {
                    lemma_tried_error(all, g, i + 1);
                }
                return Err(e);
            },
            Ok(Some(u)) => {
                let ghost added = u.deep_view();
                out.push(u);
                assert(out.deep_view() =~= before.push(added));
            },
            Ok(None) => {},
        }
        i = i + 1;
    }
    assert(all.take(i as int) =~= all);
    Ok(out)
}

/// Putting a row in a second time, under whatever content, changes nothing.
pub proof fn law_insert_or_ignore_keeps_the_first<V>(
    s: Seq<V>,
    p: spec_fn(V) -> bool,
    x: V,
    y: V,
)
    requires
        p(x),
    ensures
        or_ignore(or_ignore(s, p, x), p, y) == or_ignore(s, p, x),
{
    if !some_where(s, p) {
        assert(s.push(x)[s.len() as int] == x);
    }
}

/// Rows that are there stay there when another is put in.
pub proof fn lemma_or_ignore_keeps<V>(
    s: Seq<V>,
    p: spec_fn(V) -> bool,
    q: spec_fn(V) -> bool,
    x: V,
)
    requires
        some_where(s, p),
    ensures
        some_where(or_ignore(s, q, x), p),
{
    let i = choose|i: int| 0 <= i < s.len() && p(s[i]);
    assert(or_ignore(s, q, x)[i] == s[i]);
}

/// A selection holds the rows that satisfy its condition, and no others.
pub proof fn lemma_selected<V>(s: Seq<V>, p: spec_fn(V) -> bool)
    ensures
        forall|x: V| #[trigger] s.filter(p).contains(x) <==> s.contains(x) && p(x),
        forall|i: int|
            0 <= i < s.filter(p).len() ==> p(#[trigger] s.filter(p)[i]) && s.contains(
                s.filter(p)[i],
            ),
        s.filter(p).len() <= s.len(),
    decreases s.len(),
{
    reveal(Seq::filter);
    if s.len() > 0 {
        let init = s.drop_last();
        lemma_selected(init, p);
        assert(s =~= init.push(s.last()));
        assert forall|x: V| #[trigger] s.filter(p).contains(x) <==> s.contains(x) && p(x) by {
            lemma_push_contains(init, s.last(), x);
            lemma_push_contains(init.filter(p), s.last(), x);
            assert(init.filter(p).contains(x) <==> init.contains(x) && p(x));
        }
        assert forall|i: int| 0 <= i < s.filter(p).len() implies p(#[trigger] s.filter(p)[i])
            && s.contains(s.filter(p)[i]) by {
            assert(s.filter(p).contains(s.filter(p)[i]));
        }
    } else {
        assert(s.filter(p) =~= s);
    }
}

/// What is picked of some rows is got of those that satisfy the condition.
pub proof fn lemma_got<V, W>(s: Seq<V>, p: spec_fn(V) -> bool, g: spec_fn(V) -> W)
    ensures
        forall|y: W| #[trigger]
            s.filter(p).map_values(g).contains(y) <==> exists|i: int|
                0 <= i < s.len() && p(#[trigger] s[i]) && g(s[i]) == y,
{
    lemma_selected(s, p);
    let got = s.filter(p).map_values(g);
    assert forall|y: W| #[trigger] got.contains(y) <==> exists|i: int|
        0 <= i < s.len() && p(#[trigger] s[i]) && g(s[i]) == y by {
        if got.contains(y) {
            let k = choose|k: int| 0 <= k < got.len() && got[k] == y;
            let x = s.filter(p)[k];
            assert(p(s.filter(p)[k]) && s.contains(x));
            let i = choose|i: int| 0 <= i < s.len() && s[i] == x;
            assert(p(s[i]) && g(s[i]) == y);
        }
        if exists|i: int| 0 <= i < s.len() && p(#[trigger] s[i]) && g(s[i]) == y {
            let i = choose|i: int| 0 <= i < s.len() && p(#[trigger] s[i]) && g(s[i]) == y;
            assert(s.contains(s[i]));
            assert(s.filter(p).contains(s[i]));
            let k = choose|k: int| 0 <= k < s.filter(p).len() && s.filter(p)[k] == s[i];
            assert(got[k] == y);
        }
    }
}

/// Ordering rows keeps them.
pub proof fn lemma_ordered_members<V>(s: Seq<V>, leq: spec_fn(V, V) -> bool)
    ensures
        forall|x: V| #[trigger] ordered(s, leq).contains(x) <==> s.contains(x),
        ordered(s, leq).len() == s.len(),
{
    lemma_ordered_same_rows(s, leq);
    assert forall|x: V| #[trigger] ordered(s, leq).contains(x) <==> s.contains(x) by {
        ordered(s, leq).to_multiset_ensures();
        s.to_multiset_ensures();
        assert(ordered(s, leq).contains(x) <==> ordered(s, leq).to_multiset().count(x) > 0);
        assert(s.contains(x) <==> s.to_multiset().count(x) > 0);
    }
}

/// The first row that satisfies a condition: none before it does.
pub proof fn lemma_first_is<V>(s: Seq<V>, p: spec_fn(V) -> bool)
    ensures
        first_where(s, p) is Some <==> exists|i: int| 0 <= i < s.len() && p(#[trigger] s[i]),
        first_where(s, p) matches Some(x) ==> p(x) && s.contains(x) && exists|i: int|
            0 <= i < s.len() && #[trigger] s[i] == x && forall|j: int|
                0 <= j < i ==> !p(#[trigger] s[j]),
{
    if exists|i: int| 0 <= i < s.len() && p(#[trigger] s[i]) {
        let i = lemma_least(s, p);
        lemma_first_where(s, p, i);
        assert(s[i] == first_where(s, p)->Some_0);
    } else {
        lemma_first_where(s, p, s.len() as int);
    }
}

/// There is a first row among those that satisfy a condition.
proof fn lemma_least<V>(s: Seq<V>, p: spec_fn(V) -> bool) -> (i: int)
    requires
        exists|i: int| 0 <= i < s.len() && p(#[trigger] s[i]),
    ensures
        0 <= i < s.len(),
        p(s[i]),
        forall|j: int| 0 <= j < i ==> !p(#[trigger] s[j]),
    decreases s.len(),
{
    let init = s.drop_last();
    if exists|i: int| 0 <= i < init.len() && p(#[trigger] init[i]) {
        let i = lemma_least(init, p);
        assert forall|j: int| 0 <= j < i implies !p(#[trigger] s[j]) by {
            assert(init[j] == s[j]);
        }
        i
    } else {
        let i = choose|i: int| 0 <= i < s.len() && p(#[trigger] s[i]);
        assert(i == s.len() - 1) by {
            if i < init.len() {
                assert(p(init[i]));
            }
        }
        assert forall|j: int| 0 <= j < i implies !p(#[trigger] s[j]) by {
            assert(!p(init[j]));
        }
        i
    }
}

/// The first rows of an ordered selection: they are selected and in order, as many
/// as asked for where there are so many, and what is left out comes after them.
pub proof fn lemma_top<V>(s: Seq<V>, p: spec_fn(V) -> bool, leq: spec_fn(V, V) -> bool, n: nat)
    requires
        is_order(leq),
    ensures
        ({
            let r = first_n(ordered(s.filter(p), leq), n);
            &&& r.len() == if n < s.filter(p).len() {
                n
            } else {
                s.filter(p).len()
            }
            &&& in_order(r, leq)
            &&& forall|i: int| 0 <= i < r.len() ==> p(#[trigger] r[i]) && s.contains(r[i])
            &&& forall|x: V, i: int|
                #![trigger s.contains(x), r[i]]
                s.contains(x) && p(x) && !r.contains(x) && 0 <= i < r.len() ==> leq(r[i], x)
            &&& forall|x: V|
                #![trigger s.contains(x)]
                s.contains(x) && p(x) && !r.contains(x) ==> r.len() == n
        }),
{
    let all = ordered(s.filter(p), leq);
    let r = first_n(all, n);
    lemma_selected(s, p);
    lemma_ordered_members(s.filter(p), leq);
    lemma_ordered_in_order(s.filter(p), leq);
    assert forall|i: int| 0 <= i < r.len() implies p(#[trigger] r[i]) && s.contains(r[i]) by {
        assert(all[i] == r[i]);
        assert(all.contains(all[i]));
        assert(s.filter(p).contains(r[i]));
    }
    assert forall|x: V|
        #![trigger s.contains(x)]
        s.contains(x) && p(x) && !r.contains(x) implies r.len() == n && forall|i: int|
        0 <= i < r.len() ==> leq(#[trigger] r[i], x) by {
        assert(s.filter(p).contains(x));
        assert(all.contains(x));
        let k = choose|k: int| 0 <= k < all.len() && all[k] == x;
        if k < r.len() {
            assert(r[k] == x);
        }
        assert forall|i: int| 0 <= i < r.len() implies leq(#[trigger] r[i], x) by {
            assert(leq(all[i], all[k]));
        }
    }
}

/// What trying each row gives: where none fails, what was got of those that gave
/// something, and nothing else; else the first failure.
pub proof fn lemma_tried<V, W, E>(rows: Seq<V>, g: spec_fn(V) -> Result<Option<W>, E>)
    ensures
        match tried(rows, g) {
            Ok(got) => {
                &&& forall|i: int| 0 <= i < rows.len() ==> g(#[trigger] rows[i]) is Ok
                &&& forall|w: W| #[trigger]
                    got.contains(w) <==> exists|i: int|
                        0 <= i < rows.len() && g(#[trigger] rows[i]) == Ok::<Option<W>, E>(Some(w))
                &&& got.len() <= rows.len()
            },
            Err(e) => exists|i: int|
                0 <= i < rows.len() && g(#[trigger] rows[i]) == Err::<Option<W>, E>(e) && forall|
                    j: int,
                |
                    0 <= j < i ==> g(#[trigger] rows[j]) is Ok,
        },
    decreases rows.len(),
{
    if rows.len() > 0 {
        let init = rows.drop_last();
        let n = rows.len() - 1;
        let last = rows.last();
        assert(last == rows[n]);
        lemma_tried(init, g);
        match tried(init, g) {
            Err(e) => {
                let i = choose|i: int|
                    0 <= i < init.len() && g(#[trigger] init[i]) == Err::<Option<W>, E>(e)
                        && forall|j: int| 0 <= j < i ==> g(#[trigger] init[j]) is Ok;
                assert(rows[i] == init[i]);
                assert forall|j: int| 0 <= j < i implies g(#[trigger] rows[j]) is Ok by {
                    assert(init[j] == rows[j]);
                }
            },
            Ok(before) => {
                assert forall|j: int| 0 <= j < n implies g(#[trigger] rows[j]) is Ok by {
                    assert(init[j] == rows[j]);
                }
                if let Ok(got) = tried(rows, g) {
                    assert forall|w: W| #[trigger] got.contains(w) <==> exists|i: int|
                        0 <= i < rows.len() && g(#[trigger] rows[i]) == Ok::<Option<W>, E>(
                            Some(w),
                        ) by {
                        if exists|i: int|
                            0 <= i < rows.len() && g(#[trigger] rows[i]) == Ok::<Option<W>, E>(
                                Some(w),
                            ) {
                            let i = choose|i: int|
                                0 <= i < rows.len() && g(#[trigger] rows[i]) == Ok::<
                                    Option<W>,
                                    E,
                                >(Some(w));
                            if i < n {
                                assert(init[i] == rows[i]);
                                assert(before.contains(w));
                            }
                        }
                        if before.contains(w) {
                            let i = choose|i: int|
                                0 <= i < init.len() && g(#[trigger] init[i]) == Ok::<
                                    Option<W>,
                                    E,
                                >(Some(w));
                            assert(rows[i] == init[i]);
                        }
                        if let Ok(Some(x)) = g(last) {
                            lemma_push_contains(before, x, w);
                        }
                    }
                }
            },
        }
    }
}

/// What two lists hold together.
pub proof fn lemma_both_contain<V>(a: Seq<V>, b: Seq<V>, x: V)
    ensures
        (a + b).contains(x) <==> a.contains(x) || b.contains(x),
{
    if a.contains(x) {
        let i = choose|i: int| 0 <= i < a.len() && a[i] == x;
        assert((a + b)[i] == x);
    }
    if b.contains(x) {
        let i = choose|i: int| 0 <= i < b.len() && b[i] == x;
        assert((a + b)[a.len() + i] == x);
    }
    if (a + b).contains(x) {
        let i = choose|i: int| 0 <= i < (a + b).len() && (a + b)[i] == x;
        if i < a.len() {
            assert(a[i] == x);
        } else {
            assert(b[i - a.len()] == x);
        }
    }
}

/// What replacing a row leaves: the new row, and those that it does not replace.
pub proof fn lemma_replaced<V>(s: Seq<V>, p: spec_fn(V) -> bool, x: V)
    ensures
        forall|v: V| #[trigger]
            or_replace(s, p, x).contains(v) <==> v == x || (s.contains(v) && !p(v)),
{
    let q = |v: V| !p(v);
    let kept = s.filter(q);
    lemma_selected(s, q);
    let after = or_replace(s, p, x);
    assert(after == kept.push(x));
    assert forall|v: V| #[trigger] after.contains(v) <==> v == x || (s.contains(v) && !p(v)) by {
        assert(kept.contains(v) <==> s.contains(v) && q(v));
        assert(after[kept.len() as int] == x);
        if kept.contains(v) {
            let i = choose|i: int| 0 <= i < kept.len() && kept[i] == v;
            assert(after[i] == v);
        }
        if after.contains(v) {
            let i = choose|i: int| 0 <= i < after.len() && after[i] == v;
            if i < kept.len() {
                assert(kept[i] == v);
            }
        }
    }
}

} // verus!
