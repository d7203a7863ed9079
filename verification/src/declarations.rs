//! Declarations as canonical JSON.
use vstd::prelude::*;

use crate::json::{
    depth, int_json, integer, is_plain, is_shallow, json_rendered, keys_in_order, members_depth,
    members_plain, members_view, object, object2, object3, parses_to, render_json, string, Json,
    JsonView,
};
use crate::project::{
    DeclObject, DeclObjectView, Declaration, DeclarationView, EntityRef, EntityRefView,
};
use crate::text::text_le;

verus! {

/// A reference to an entity as JSON.
pub open spec fn entity_ref_json(e: EntityRefView) -> JsonView {
    JsonView::Obj(seq![("surface"@, JsonView::Str(e.surface)), ("type"@, JsonView::Str(e.ty))])
}

/// The object of a declaration as JSON.
pub open spec fn object_json(o: DeclObjectView) -> JsonView {
    match o {
        DeclObjectView::Entity { surface, ty } => JsonView::Obj(
            seq![
                ("kind"@, JsonView::Str("entity"@)),
                ("surface"@, JsonView::Str(surface)),
                ("type"@, JsonView::Str(ty)),
            ],
        ),
        DeclObjectView::Literal { literal_type, value } => JsonView::Obj(
            seq![
                ("kind"@, JsonView::Str("literal"@)),
                ("literal_type"@, JsonView::Str(literal_type)),
                ("value"@, JsonView::Str(value)),
            ],
        ),
    }
}

/// A declaration as JSON, its keys in order.
pub open spec fn declaration_json(d: DeclarationView) -> JsonView {
    match d {
        DeclarationView::AddStatement {
            subject,
            predicate,
            object,
            polarity,
            valid_from,
            valid_to,
        } => JsonView::Obj(
            seq![
                ("object"@, object_json(object)),
                ("op"@, JsonView::Str("add_statement"@)),
                ("polarity"@, JsonView::Str(polarity)),
                ("predicate"@, JsonView::Str(predicate)),
                ("subject"@, entity_ref_json(subject)),
                ("valid_from"@, int_json(valid_from as int)),
                ("valid_to"@, int_json(valid_to as int)),
            ],
        ),
        DeclarationView::Merge { loser, winner } => JsonView::Obj(
            seq![
                ("loser"@, entity_ref_json(loser)),
                ("op"@, JsonView::Str("merge"@)),
                ("winner"@, entity_ref_json(winner)),
            ],
        ),
        DeclarationView::Retract { subject, predicate, object, episode } => JsonView::Obj(
            seq![
                ("episode"@, JsonView::Str(episode)),
                ("object"@, object_json(object)),
                ("op"@, JsonView::Str("retract"@)),
                ("predicate"@, JsonView::Str(predicate)),
                ("subject"@, entity_ref_json(subject)),
            ],
        ),
    }
}

fn make_ref(e: &EntityRef) -> (r: Json)
    ensures
        r.deep_view() == entity_ref_json(e.deep_view()),
{
    object2("surface", string(e.surface.as_str()), "type", string(e.ty.as_str()))
}

fn make_object(o: &DeclObject) -> (r: Json)
    ensures
        r.deep_view() == object_json(o.deep_view()),
{
    match o {
        DeclObject::Entity { surface, ty } => object3(
            "kind",
            string("entity"),
            "surface",
            string(surface.as_str()),
            "type",
            string(ty.as_str()),
        ),
        DeclObject::Literal { literal_type, value } => object3(
            "kind",
            string("literal"),
            "literal_type",
            string(literal_type.as_str()),
            "value",
            string(value.as_str()),
        ),
    }
}

/// A declaration as JSON.
pub fn declaration_value(decl: &Declaration) -> (r: Json)
    ensures
        r.deep_view() == declaration_json(decl.deep_view()),
{
    match decl {
        Declaration::AddStatement {
            subject,
            predicate,
            object: what,
            polarity,
            valid_from,
            valid_to,
        } => {
            let mut m: Vec<(String, Json)> = Vec::new();
            m.push(("object".to_owned(), make_object(what)));
            m.push(("op".to_owned(), string("add_statement")));
            m.push(("polarity".to_owned(), string(polarity.as_str())));
            m.push(("predicate".to_owned(), string(predicate.as_str())));
            m.push(("subject".to_owned(), make_ref(subject)));
            m.push(("valid_from".to_owned(), integer(*valid_from)));
            m.push(("valid_to".to_owned(), integer(*valid_to)));
            assert(members_view(m@) =~= declaration_json(decl.deep_view())->Obj_0);
            object(m)
        },
        Declaration::Merge { loser, winner } => object3(
            "loser",
            make_ref(loser),
            "op",
            string("merge"),
            "winner",
            make_ref(winner),
        ),
        Declaration::Retract { subject, predicate, object: what, episode } => {
            let mut m: Vec<(String, Json)> = Vec::new();
            m.push(("episode".to_owned(), string(episode.as_str())));
            m.push(("object".to_owned(), make_object(what)));
            m.push(("op".to_owned(), string("retract")));
            m.push(("predicate".to_owned(), string(predicate.as_str())));
            m.push(("subject".to_owned(), make_ref(subject)));
            assert(members_view(m@) =~= declaration_json(decl.deep_view())->Obj_0);
            object(m)
        },
    }
}

/// Whether each key comes strictly before the next one.
spec fn climbs(m: Seq<(Seq<char>, JsonView)>) -> bool {
    forall|i: int|
        0 <= i < m.len() - 1 ==> text_le((#[trigger] m[i]).0, m[i + 1].0) && m[i].0 != m[i + 1].0
}

proof fn lemma_climbs(m: Seq<(Seq<char>, JsonView)>, i: int, j: int)
    requires
        climbs(m),
        0 <= i < j < m.len(),
    ensures
        text_le(m[i].0, m[j].0),
        m[i].0 != m[j].0,
    decreases j - i,
{
    assert(text_le(m[i].0, m[i + 1].0) && m[i].0 != m[i + 1].0);
    if i + 1 < j {
        lemma_climbs(m, i + 1, j);
        crate::text::lemma_text_transitive(m[i].0, m[i + 1].0, m[j].0);
        if m[i].0 == m[j].0 {
            crate::text::lemma_text_antisymmetric(m[i].0, m[i + 1].0);
        }
    }
}

proof fn lemma_keys_in_order(m: Seq<(Seq<char>, JsonView)>)
    requires
        climbs(m),
    ensures
        keys_in_order(m),
{
    assert forall|i: int, j: int| 0 <= i < j < m.len() implies text_le((#[trigger] m[i]).0, (
    #[trigger] m[j]).0) && m[i].0 != m[j].0 by {
        lemma_climbs(m, i, j);
    }
}

/// Members that are plain and at most so deep make an object that is plain and
/// one deeper.
proof fn lemma_members(m: Seq<(Seq<char>, JsonView)>, limit: nat)
    requires
        forall|i: int|
            0 <= i < m.len() ==> is_plain((#[trigger] m[i]).1) && depth(m[i].1) <= limit,
    ensures
        members_plain(m),
        members_depth(m) <= limit,
    decreases m.len(),
{
    if m.len() > 0 {
        assert(is_plain(m.last().1) && depth(m.last().1) <= limit);
        assert forall|i: int| 0 <= i < m.len() - 1 implies is_plain((#[trigger] m.drop_last()[i]).1)
            && depth(m.drop_last()[i].1) <= limit by {
            assert(m.drop_last()[i] == m[i]);
        }
        lemma_members(m.drop_last(), limit);
    }
}

proof fn lemma_plain_object(m: Seq<(Seq<char>, JsonView)>, limit: nat)
    requires
        climbs(m),
        forall|i: int|
            0 <= i < m.len() ==> is_plain((#[trigger] m[i]).1) && depth(m[i].1) <= limit,
    ensures
        is_plain(JsonView::Obj(m)),
        depth(JsonView::Obj(m)) <= limit + 1,
{
    lemma_keys_in_order(m);
    lemma_members(m, limit);
}

proof fn lemma_ref_plain(e: EntityRefView)
    ensures
        is_plain(entity_ref_json(e)),
        depth(entity_ref_json(e)) <= 1,
{
    let m = entity_ref_json(e)->Obj_0;
    reveal_strlit("surface");
    reveal_strlit("type");
    assert("surface"@[0] == 's' && "type"@[0] == 't');
    assert(climbs(m));
    lemma_plain_object(m, 0);
}

proof fn lemma_object_plain(o: DeclObjectView)
    ensures
        is_plain(object_json(o)),
        depth(object_json(o)) <= 1,
{
    let m = object_json(o)->Obj_0;
    reveal_strlit("kind");
    reveal_strlit("surface");
    reveal_strlit("type");
    reveal_strlit("literal_type");
    reveal_strlit("value");
    assert("kind"@[0] == 'k' && "surface"@[0] == 's' && "type"@[0] == 't' && "literal_type"@[0]
        == 'l' && "value"@[0] == 'v');
    assert(climbs(m));
    lemma_plain_object(m, 0);
}

/// Texts that first differ behind a common front are in the order of the
/// characters there.
proof fn lemma_differ_behind(front: Seq<char>, a: Seq<char>, b: Seq<char>)
    requires
        a.len() > 0,
        b.len() > 0,
        (a[0] as int) < (b[0] as int),
    ensures
        text_le(front + a, front + b),
        front + a != front + b,
    decreases front.len(),
{
    if front.len() == 0 {
        assert(front + a =~= a);
        assert(front + b =~= b);
    } else {
        lemma_differ_behind(front.drop_first(), a, b);
        assert((front + a).drop_first() =~= front.drop_first() + a);
        assert((front + b).drop_first() =~= front.drop_first() + b);
        assert((front + a)[0] == (front + b)[0]);
    }
}

proof fn lemma_declaration_plain(d: DeclarationView)
    ensures
        is_shallow(declaration_json(d)),
{
    let m = declaration_json(d)->Obj_0;
    reveal_strlit("object");
    reveal_strlit("op");
    reveal_strlit("polarity");
    reveal_strlit("predicate");
    reveal_strlit("subject");
    reveal_strlit("valid_from");
    reveal_strlit("valid_to");
    reveal_strlit("loser");
    reveal_strlit("winner");
    reveal_strlit("episode");
    assert("episode"@[0] == 'e' && "loser"@[0] == 'l' && "object"@[0] == 'o' && "op"@[0] == 'o'
        && "polarity"@[0] == 'p' && "predicate"@[0] == 'p' && "subject"@[0] == 's'
        && "valid_from"@[0] == 'v' && "winner"@[0] == 'w');
    lemma_differ_behind("object"@.take(1), "object"@.skip(1), "op"@.skip(1));
    assert("object"@.take(1) + "object"@.skip(1) =~= "object"@);
    assert("object"@.take(1) + "op"@.skip(1) =~= "op"@);
    lemma_differ_behind("polarity"@.take(1), "polarity"@.skip(1), "predicate"@.skip(1));
    assert("polarity"@.take(1) + "polarity"@.skip(1) =~= "polarity"@);
    assert("polarity"@.take(1) + "predicate"@.skip(1) =~= "predicate"@);
    lemma_differ_behind("valid_from"@.take(6), "valid_from"@.skip(6), "valid_to"@.skip(6));
    assert("valid_from"@.take(6) + "valid_from"@.skip(6) =~= "valid_from"@);
    assert("valid_from"@.take(6) + "valid_to"@.skip(6) =~= "valid_to"@);
    match d {
        DeclarationView::AddStatement { subject, object, .. } => {
            lemma_ref_plain(subject);
            lemma_object_plain(object);
        },
        DeclarationView::Merge { loser, winner } => {
            lemma_ref_plain(loser);
            lemma_ref_plain(winner);
        },
        DeclarationView::Retract { subject, object, .. } => {
            lemma_ref_plain(subject);
            lemma_object_plain(object);
        },
    }
    assert(climbs(m));
    lemma_plain_object(m, 1);
}

/// Canonical JSON for a declaration (sorted keys, compact), from which the JSON
/// value can be read again.
pub fn canonical_declaration_content(decl: &Declaration) -> (r: String)
    ensures
        r@ == json_rendered(declaration_json(decl.deep_view())),
        parses_to(r@, declaration_json(decl.deep_view())),
{
    proof {
        lemma_declaration_plain(decl.deep_view());
    }
    render_json(&declaration_value(decl))
}

/// Declarations that differ have different JSON values.
pub proof fn law_content_identifies_declaration(a: DeclarationView, b: DeclarationView)
    requires
        declaration_json(a) == declaration_json(b),
    ensures
        a == b,
{
    let m = declaration_json(a)->Obj_0;
    let n = declaration_json(b)->Obj_0;
    assert(m == n);
    assert(m.len() == n.len());
    match a {
        DeclarationView::AddStatement { subject, object, valid_from, valid_to, .. } => match b {
            DeclarationView::AddStatement {
                subject: s,
                object: o,
                valid_from: vf,
                valid_to: vt,
                ..
            } => {
                assert(m[0].1 == n[0].1 && m[2].1 == n[2].1 && m[3].1 == n[3].1 && m[4].1
                    == n[4].1 && m[5].1 == n[5].1 && m[6].1 == n[6].1);
                lemma_objects(object, o);
                lemma_refs(subject, s);
            },
            _ => {},
        },
        DeclarationView::Merge { loser, winner } => match b {
            DeclarationView::Merge { loser: l, winner: w } => {
                assert(m[0].1 == n[0].1 && m[2].1 == n[2].1);
                lemma_refs(loser, l);
                lemma_refs(winner, w);
            },
            _ => {},
        },
        DeclarationView::Retract { subject, object, .. } => match b {
            DeclarationView::Retract { subject: s, object: o, .. } => {
                assert(m[0].1 == n[0].1 && m[1].1 == n[1].1 && m[3].1 == n[3].1 && m[4].1
                    == n[4].1);
                lemma_objects(object, o);
                lemma_refs(subject, s);
            },
            _ => {},
        },
    }
}

proof fn lemma_refs(a: EntityRefView, b: EntityRefView)
    requires
        entity_ref_json(a) == entity_ref_json(b),
    ensures
        a == b,
{
    let m = entity_ref_json(a)->Obj_0;
    let n = entity_ref_json(b)->Obj_0;
    assert(m[0] == n[0] && m[1] == n[1]);
}

proof fn lemma_objects(a: DeclObjectView, b: DeclObjectView)
    requires
        object_json(a) == object_json(b),
    ensures
        a == b,
{
    let m = object_json(a)->Obj_0;
    let n = object_json(b)->Obj_0;
    assert(m[0] == n[0] && m[1] == n[1] && m[2] == n[2]);
    reveal_strlit("entity");
    reveal_strlit("literal");
    assert("entity"@.len() != "literal"@.len());
}

} // verus!
