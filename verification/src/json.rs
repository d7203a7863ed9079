//! JSON values.
use vstd::prelude::*;

use crate::rows::Row;
use crate::text::{is_one_line, str_eq, text_le};

verus! {

/// A JSON value. Natural numbers and negative integers are numbers of their
/// own; any other number is the text it is written as. An object is the list of
/// its members.
#[derive(Debug)]
pub enum Json {
    Null,
    Bool(bool),
    Pos(u64),
    Neg(i64),
    Float(String),
    Str(String),
    Arr(Vec<Json>),
    Obj(Vec<(String, Json)>),
}

/// [`Json`] as a mathematical value.
#[verifier::ext_equal]
pub enum JsonView {
    Null,
    Bool(bool),
    Pos(u64),
    Neg(i64),
    Float(Seq<char>),
    Str(Seq<char>),
    Arr(Seq<JsonView>),
    Obj(Seq<(Seq<char>, JsonView)>),
}

/// The value of a JSON value.
pub open spec fn tree(j: Json) -> JsonView
    decreases j,
{
    match j {
        Json::Null => JsonView::Null,
        Json::Bool(b) => JsonView::Bool(b),
        Json::Pos(n) => JsonView::Pos(n),
        Json::Neg(n) => JsonView::Neg(n),
        Json::Float(s) => JsonView::Float(s@),
        Json::Str(s) => JsonView::Str(s@),
        Json::Arr(v) => JsonView::Arr(
            Seq::new(
                v@.len(),
                |i: int|
                    if 0 <= i < v@.len() {
                        tree(v@[i])
                    } else {
                        JsonView::Null
                    },
            ),
        ),
        Json::Obj(m) => JsonView::Obj(
            Seq::new(
                m@.len(),
                |i: int|
                    if 0 <= i < m@.len() {
                        (m@[i].0@, tree(m@[i].1))
                    } else {
                        (Seq::empty(), JsonView::Null)
                    },
            ),
        ),
    }
}

impl DeepView for Json {
    type V = JsonView;

    open spec fn deep_view(&self) -> JsonView {
        tree(*self)
    }
}

/// The outside form of a JSON value.
#[verifier::external_type_specification]
#[verifier::external_body]
pub struct ExValue(serde_json::Value);

/// What `serde_json::from_str` reads from a text: a value, with the members of
/// each object in the order of their keys, or the message of the error.
pub uninterp spec fn json_parsed(text: Seq<char>) -> Result<JsonView, Seq<char>>;

/// What `serde_json::to_string` writes for a value.
pub uninterp spec fn json_rendered(value: JsonView) -> Seq<char>;

/// What `serde_json::to_string_pretty` writes for a value.
pub uninterp spec fn json_pretty(value: JsonView) -> Seq<char>;

/// Converts a `serde_json::Value`, variant for variant.
#[verifier::external_body]
fn from_value(v: serde_json::Value) -> (r: Json) {
    match v {
        serde_json::Value::Null => Json::Null,
        serde_json::Value::Bool(b) => Json::Bool(b),
        serde_json::Value::Number(n) => match (n.as_u64(), n.as_i64()) {
            (Some(u), _) => Json::Pos(u),
            (None, Some(i)) => Json::Neg(i),
            (None, None) => Json::Float(n.to_string()),
        },
        serde_json::Value::String(s) => Json::Str(s),
        serde_json::Value::Array(a) => Json::Arr(a.into_iter().map(from_value).collect()),
        serde_json::Value::Object(m) => Json::Obj(m.into_iter().map(|(k, v)| (k, from_value(v))).collect()),
    }
}

/// Converts into a `serde_json::Value`, variant for variant. A text that is no
/// number becomes null.
#[verifier::external_body]
fn to_value(j: &Json) -> (r: serde_json::Value) {
    match j {
        Json::Null => serde_json::Value::Null,
        Json::Bool(b) => serde_json::Value::Bool(*b),
        Json::Pos(u) => serde_json::Value::from(*u),
        Json::Neg(i) => serde_json::Value::from(*i),
        Json::Float(s) => s.parse().map(serde_json::Value::Number).unwrap_or_default(),
        Json::Str(s) => serde_json::Value::String(s.clone()),
        Json::Arr(v) => serde_json::Value::Array(v.iter().map(to_value).collect()),
        Json::Obj(m) => serde_json::Value::Object(m.iter().map(|(k, v)| (k.clone(), to_value(v))).collect()),
    }
}

/// A parse result as a mathematical value.
pub open spec fn parse_view(r: Result<Json, String>) -> Result<JsonView, Seq<char>> {
    match r {
        Ok(j) => Ok(j.deep_view()),
        Err(e) => Err(e@),
    }
}

/// `serde_json::from_str` into a `serde_json::Value`, converted: what is read,
/// or the message of the error, is a function of the text.
#[verifier::external_body]
pub(crate) fn parse_json(text: &str) -> (r: Result<Json, String>)
    ensures
        parse_view(r) == json_parsed(text@),
{
    serde_json::from_str(text).map(from_value).map_err(|e| e.to_string())
}

/// `serde_json::to_string` of a value, converted: a text that is a function of
/// the value and fits one line. A value whose fractions are texts that are read
/// as themselves, whose objects have their keys in order and which is not nested
/// deeper than the parser goes, is read back as it was.
#[verifier::external_body]
pub(crate) fn render_json(value: &Json) -> (r: String)
    ensures
        r@ == json_rendered(value.deep_view()),
        is_one_line(r@),
        is_shallow(value.deep_view()) ==> parses_to(r@, value.deep_view()),
{
    serde_json::to_string(&to_value(value)).unwrap_or_default()
}

/// `serde_json::to_string_pretty` of a value, converted: a text that is a
/// function of the value. A value whose fractions are texts that are read as
/// themselves, whose objects have their keys in order and which is not nested
/// deeper than the parser goes, is read back as it was.
#[verifier::external_body]
pub(crate) fn render_pretty(value: &Json) -> (r: String)
    ensures
        r@ == json_pretty(value.deep_view()),
        is_shallow(value.deep_view()) ==> parses_to(r@, value.deep_view()),
{
    serde_json::to_string_pretty(&to_value(value)).unwrap_or_default()
}

/// Whether a text is read as a value.
pub open spec fn parses_to(text: Seq<char>, value: JsonView) -> bool {
    json_parsed(text) == Ok::<JsonView, Seq<char>>(value)
}

/// Whether a value is plain and not nested too deep.
pub open spec fn is_shallow(v: JsonView) -> bool {
    is_plain(v) && depth(v) < 100
}

/// Whether a value is one that its text stands for exactly: negative integers are
/// below zero, fractions are texts that are read as themselves, and the keys of
/// each object are in order.
pub open spec fn is_plain(v: JsonView) -> bool
    decreases v,
{
    match v {
        JsonView::Neg(n) => n < 0,
        JsonView::Float(s) => parses_to(s, v),
        JsonView::Arr(items) => items_plain(items),
        JsonView::Obj(members) => members_plain(members) && keys_in_order(members),
        _ => true,
    }
}

/// Whether every item is plain.
pub open spec fn items_plain(items: Seq<JsonView>) -> bool
    decreases items,
{
    items.len() == 0 || (is_plain(items.last()) && items_plain(items.drop_last()))
}

/// Whether every member is plain.
pub open spec fn members_plain(members: Seq<(Seq<char>, JsonView)>) -> bool
    decreases members,
{
    members.len() == 0 || (is_plain(members.last().1) && members_plain(members.drop_last()))
}

/// Whether the keys of members are in strict order.
pub open spec fn keys_in_order(members: Seq<(Seq<char>, JsonView)>) -> bool {
    forall|i: int, j: int|
        0 <= i < j < members.len() ==> text_le((#[trigger] members[i]).0, (
        #[trigger] members[j]).0) && members[i].0 != members[j].0
}

/// How deep arrays and objects are nested in a value.
pub open spec fn depth(v: JsonView) -> nat
    decreases v,
{
    match v {
        JsonView::Arr(items) => 1 + items_depth(items),
        JsonView::Obj(members) => 1 + members_depth(members),
        _ => 0,
    }
}

/// The greatest depth among items.
pub open spec fn items_depth(items: Seq<JsonView>) -> nat
    decreases items,
{
    if items.len() == 0 {
        0
    } else {
        let before = items_depth(items.drop_last());
        let last = depth(items.last());
        if last > before {
            last
        } else {
            before
        }
    }
}

/// The greatest depth among members.
pub open spec fn members_depth(members: Seq<(Seq<char>, JsonView)>) -> nat
    decreases members,
{
    if members.len() == 0 {
        0
    } else {
        let before = members_depth(members.drop_last());
        let last = depth(members.last().1);
        if last > before {
            last
        } else {
            before
        }
    }
}

/// The first member of a key among members.
pub open spec fn member_in(members: Seq<(Seq<char>, JsonView)>, key: Seq<char>) -> Option<JsonView>
    decreases members.len(),
{
    if members.len() == 0 {
        None
    } else if members[0].0 == key {
        Some(members[0].1)
    } else {
        member_in(members.drop_first(), key)
    }
}

/// The member of a key, where the value is an object that has it.
pub open spec fn member(v: JsonView, key: Seq<char>) -> Option<JsonView> {
    match v {
        JsonView::Obj(members) => member_in(members, key),
        _ => None,
    }
}

/// The text of a string value.
pub open spec fn as_text(v: JsonView) -> Option<Seq<char>> {
    match v {
        JsonView::Str(s) => Some(s),
        _ => None,
    }
}

/// The text of a string member.
pub open spec fn text_member(v: JsonView, key: Seq<char>) -> Option<Seq<char>> {
    match member(v, key) {
        Some(m) => as_text(m),
        None => None,
    }
}

/// An integer value that fits `i64`.
pub open spec fn as_int(v: JsonView) -> Option<i64> {
    match v {
        JsonView::Pos(n) => if n <= i64::MAX {
            Some(n as i64)
        } else {
            None
        },
        JsonView::Neg(n) => Some(n),
        _ => None,
    }
}

/// A natural number.
pub open spec fn as_nat(v: JsonView) -> Option<u64> {
    match v {
        JsonView::Pos(n) => Some(n),
        _ => None,
    }
}

/// A truth value.
pub open spec fn as_truth(v: JsonView) -> Option<bool> {
    match v {
        JsonView::Bool(b) => Some(b),
        _ => None,
    }
}

impl Json {
    /// The value that a text stands for, or what is wrong with the text.
    pub fn parse(text: &str) -> (r: Result<Json, String>)
        ensures
            parse_view(r) == json_parsed(text@),
    {
        parse_json(text)
    }

    /// The value as text, on one line.
    pub fn render(&self) -> (r: String)
        ensures
            r@ == json_rendered(self.deep_view()),
            is_one_line(r@),
            is_shallow(self.deep_view()) ==> parses_to(r@, self.deep_view()),
    {
        render_json(self)
    }

    /// The value as text, laid out over lines.
    pub fn render_pretty(&self) -> (r: String)
        ensures
            r@ == json_pretty(self.deep_view()),
            is_shallow(self.deep_view()) ==> parses_to(r@, self.deep_view()),
    {
        render_pretty(self)
    }

    /// The member of a key.
    pub fn get(&self, key: &str) -> (r: Option<&Json>)
        ensures
            match r {
                Some(j) => member(self.deep_view(), key@) == Some(j.deep_view()),
                None => member(self.deep_view(), key@) is None,
            },
    {
        match self {
            Json::Obj(m) => {
                let ghost all = self.deep_view()->Obj_0;
                let mut i: usize = 0;
                assert(all.skip(0) =~= all);
                while i < m.len()
                    invariant
                        i <= m.len(),
                        *self == Json::Obj(*m),
                        all == self.deep_view()->Obj_0,
                        all.len() == m.len(),
                        member(self.deep_view(), key@) == member_in(all.skip(i as int), key@),
                    decreases m.len() - i,
                {
                    proof {
                        assert(all.skip(i as int)[0] == all[i as int]);
                        assert(all.skip(i as int).drop_first() =~= all.skip(i + 1));
                        assert(all[i as int] == (m@[i as int].0@, tree(m@[i as int].1)));
                    }
                    if str_eq(m[i].0.as_str(), key) {
                        return Some(&m[i].1);
                    }
                    i = i + 1;
                }
                None
            },
            _ => None,
        }
    }

    /// The text, where the value is a string.
    pub fn as_str(&self) -> (r: Option<&str>)
        ensures
            match r {
                Some(s) => as_text(self.deep_view()) == Some(s@),
                None => as_text(self.deep_view()) is None,
            },
    {
        match self {
            Json::Str(s) => Some(s.as_str()),
            _ => None,
        }
    }

    /// The text of a string member.
    pub fn str_of(&self, key: &str) -> (r: Option<&str>)
        ensures
            match r {
                Some(s) => text_member(self.deep_view(), key@) == Some(s@),
                None => text_member(self.deep_view(), key@) is None,
            },
    {
        match self.get(key) {
            Some(j) => j.as_str(),
            None => None,
        }
    }

    /// The number, where it is an integer that fits `i64`.
    pub fn as_i64(&self) -> (r: Option<i64>)
        ensures
            r == as_int(self.deep_view()),
    {
        match self {
            Json::Pos(n) => if *n <= i64::MAX as u64 {
                Some(*n as i64)
            } else {
                None
            },
            Json::Neg(n) => Some(*n),
            _ => None,
        }
    }

    /// The number, where it is a natural one.
    pub fn as_u64(&self) -> (r: Option<u64>)
        ensures
            r == as_nat(self.deep_view()),
    {
        match self {
            Json::Pos(n) => Some(*n),
            _ => None,
        }
    }

    /// The truth value.
    pub fn as_bool(&self) -> (r: Option<bool>)
        ensures
            r == as_truth(self.deep_view()),
    {
        match self {
            Json::Bool(b) => Some(*b),
            _ => None,
        }
    }

    /// A copy of the value.
    pub fn dup(&self) -> (r: Json)
        ensures
            r.deep_view() == self.deep_view(),
        decreases self,
    {
        match self {
            Json::Null => Json::Null,
            Json::Bool(b) => Json::Bool(*b),
            Json::Pos(n) => Json::Pos(*n),
            Json::Neg(n) => Json::Neg(*n),
            Json::Float(s) => Json::Float(s.clone()),
            Json::Str(s) => Json::Str(s.clone()),
            Json::Arr(v) => {
                let mut out: Vec<Json> = Vec::new();
                let mut i: usize = 0;
                while i < v.len()
                    invariant
                        i <= v.len(),
                        *self == Json::Arr(*v),
                        out@.len() == i,
                        forall|k: int| 0 <= k < i ==> tree(#[trigger] out@[k]) == tree(v@[k]),
                    decreases v.len() - i,
                {
                    proof {
                        assert(decreases_to!(*self => self->Arr_0));
                        assert(decreases_to!(v@ => v@[i as int]));
                        assert(decreases_to!(*v => v@));
                    }
                    let item = v[i].dup();
                    out.push(item);
                    i = i + 1;
                }
                let r = Json::Arr(out);
                assert(r.deep_view()->Arr_0 =~= self.deep_view()->Arr_0);
                r
            },
            Json::Obj(m) => {
                let mut out: Vec<(String, Json)> = Vec::new();
                let mut i: usize = 0;
                while i < m.len()
                    invariant
                        i <= m.len(),
                        *self == Json::Obj(*m),
                        out@.len() == i,
                        forall|k: int|
                            0 <= k < i ==> (#[trigger] out@[k]).0@ == m@[k].0@ && tree(out@[k].1)
                                == tree(m@[k].1),
                    decreases m.len() - i,
                {
                    proof {
                        assert(decreases_to!(*self => self->Obj_0));
                        assert(decreases_to!(m@ => m@[i as int]));
                        assert(decreases_to!(*m => m@));
                        assert(decreases_to!(m@[i as int] => m@[i as int].1));
                    }
                    let value = m[i].1.dup();
                    out.push((m[i].0.clone(), value));
                    i = i + 1;
                }
                let r = Json::Obj(out);
                assert(r.deep_view()->Obj_0 =~= self.deep_view()->Obj_0);
                r
            },
        }
    }
}

impl Row for Json {
    fn dup(&self) -> (r: Self) {
        Json::dup(self)
    }
}

impl Clone for Json {
    fn clone(&self) -> (r: Self)
        ensures
            r.deep_view() == self.deep_view(),
    {
        Json::dup(self)
    }
}

/// Members as mathematical values.
pub open spec fn members_view(m: Seq<(String, Json)>) -> Seq<(Seq<char>, JsonView)> {
    m.map_values(|p: (String, Json)| (p.0@, p.1.deep_view()))
}

/// An object of members.
pub fn object(members: Vec<(String, Json)>) -> (r: Json)
    ensures
        r.deep_view() == JsonView::Obj(members_view(members@)),
{
    let r = Json::Obj(members);
    assert(r.deep_view()->Obj_0 =~= members_view(members@));
    r
}

/// A string value.
pub fn string(s: &str) -> (r: Json)
    ensures
        r.deep_view() == JsonView::Str(s@),
{
    Json::Str(s.to_owned())
}

/// An integer value.
pub fn integer(n: i64) -> (r: Json)
    ensures
        r.deep_view() == int_json(n as int),
{
    if n < 0 {
        Json::Neg(n)
    } else {
        Json::Pos(n as u64)
    }
}

/// An integer as a JSON value.
pub open spec fn int_json(n: int) -> JsonView {
    if n < 0 {
        JsonView::Neg(n as i64)
    } else {
        JsonView::Pos(n as u64)
    }
}

/// An array of items.
pub fn array(items: Vec<Json>) -> (r: Json)
    ensures
        r.deep_view() == JsonView::Arr(items.deep_view()),
{
    let r = Json::Arr(items);
    assert(r.deep_view()->Arr_0 =~= items.deep_view());
    r
}

/// An object of one member.
pub fn object1(key: &str, value: Json) -> (r: Json)
    ensures
        r.deep_view() == JsonView::Obj(seq![(key@, value.deep_view())]),
{
    let mut m: Vec<(String, Json)> = Vec::new();
    m.push((key.to_owned(), value));
    let r = object(m);
    assert(r.deep_view()->Obj_0 =~= seq![(key@, value.deep_view())]);
    r
}

/// An object of two members.
pub fn object2(k1: &str, v1: Json, k2: &str, v2: Json) -> (r: Json)
    ensures
        r.deep_view() == JsonView::Obj(seq![(k1@, v1.deep_view()), (k2@, v2.deep_view())]),
{
    let mut m: Vec<(String, Json)> = Vec::new();
    m.push((k1.to_owned(), v1));
    m.push((k2.to_owned(), v2));
    let r = object(m);
    assert(r.deep_view()->Obj_0 =~= seq![(k1@, v1.deep_view()), (k2@, v2.deep_view())]);
    r
}

/// An object of three members.
pub fn object3(k1: &str, v1: Json, k2: &str, v2: Json, k3: &str, v3: Json) -> (r: Json)
    ensures
        r.deep_view() == JsonView::Obj(
            seq![(k1@, v1.deep_view()), (k2@, v2.deep_view()), (k3@, v3.deep_view())],
        ),
{
    let mut m: Vec<(String, Json)> = Vec::new();
    m.push((k1.to_owned(), v1));
    m.push((k2.to_owned(), v2));
    m.push((k3.to_owned(), v3));
    let r = object(m);
    assert(r.deep_view()->Obj_0 =~= seq![
        (k1@, v1.deep_view()),
        (k2@, v2.deep_view()),
        (k3@, v3.deep_view()),
    ]);
    r
}

} // verus!
