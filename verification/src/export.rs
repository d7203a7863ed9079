//! Line-by-line export and import of the durable tables.
//!
//! Format: one JSON object per line, `{"table":"<name>","row":{...}}`. Tables
//! stand in dependency order. Indexes, beliefs and other derived state are not
//! exported; they are rebuilt by a replay.
use vstd::prelude::*;

use crate::cells::{Cell, CellView};
use crate::digest::{hex_bytes, hex_decode, hex_encode, hex_text, is_hex};
use crate::error::{fails_with, BrainError, BrainErrorView};
use crate::json::{
    int_json, integer, is_plain, is_shallow, json_parsed, json_rendered, keys_in_order, member,
    members_depth, members_plain, object, parse_json, parses_to, render_json, Json, JsonView,
};
use crate::rows::{
    find, first_where, in_order, is_order, lemma_ordered_in_order, lemma_ordered_same_rows,
    map_rows, order, ordered, Row,
};
use crate::text::{
    blank, cat2, chars_of, is_blank, lines, nat_text, show_u64, slice_of, split_lines,
    starts_with_text, str_eq, str_le, text_le,
};

verus! {

/// A row of a table: the values by column.
#[derive(Debug)]
pub struct TableRow {
    pub table: String,
    pub cells: Vec<(String, Cell)>,
}

/// [`TableRow`] as a mathematical value.
#[verifier::ext_equal]
pub struct TableRowView {
    pub table: Seq<char>,
    pub cells: Seq<(Seq<char>, CellView)>,
}

impl DeepView for TableRow {
    type V = TableRowView;

    open spec fn deep_view(&self) -> TableRowView {
        TableRowView { table: self.table@, cells: self.cells.deep_view() }
    }
}

/// A table as it is read for an export.
#[derive(Debug)]
pub struct TableDump {
    pub table: String,
    pub rows: Vec<Vec<(String, Cell)>>,
}

/// [`TableDump`] as a mathematical value.
#[verifier::ext_equal]
pub struct TableDumpView {
    pub table: Seq<char>,
    pub rows: Seq<Seq<(Seq<char>, CellView)>>,
}

impl DeepView for TableDump {
    type V = TableDumpView;

    open spec fn deep_view(&self) -> TableDumpView {
        TableDumpView { table: self.table@, rows: self.rows.deep_view() }
    }
}

/// The names of the exported tables, parents before children.
pub open spec fn exported() -> Seq<Seq<char>> {
    seq![
        "spaces"@,
        "episodes"@,
        "extractions"@,
        "summaries"@,
        "episode_links"@,
        "entities"@,
        "entity_keys"@,
        "entity_merges"@,
        "statements"@,
        "assertions"@,
        "mentions"@,
        "ingest_jobs"@,
        "extraction_failures"@,
        "audit_log"@,
        "redactions"@,
        "tokens"@,
        "predicates"@,
        "meta"@,
    ]
}

/// Tables to export, in dependency order (parents before children).
pub fn export_tables() -> (r: Vec<String>)
    ensures
        r.deep_view() == exported(),
{
    let r: Vec<String> = vec![
        "spaces".to_owned(),
        "episodes".to_owned(),
        "extractions".to_owned(),
        "summaries".to_owned(),
        "episode_links".to_owned(),
        "entities".to_owned(),
        "entity_keys".to_owned(),
        "entity_merges".to_owned(),
        "statements".to_owned(),
        "assertions".to_owned(),
        "mentions".to_owned(),
        "ingest_jobs".to_owned(),
        "extraction_failures".to_owned(),
        "audit_log".to_owned(),
        "redactions".to_owned(),
        "tokens".to_owned(),
        "predicates".to_owned(),
        "meta".to_owned(),
    ];
    assert(r.deep_view() =~= exported());
    r
}

/// Whether a text could be taken for a blob: it begins with `hex:`, behind any
/// number of `text:`.
pub open spec fn is_marked(s: Seq<char>) -> bool
    decreases s.len(),
{
    "hex:"@.is_prefix_of(s) || (s.len() >= 5 && "text:"@.is_prefix_of(s) && is_marked(s.skip(5)))
}

fn marked(s: &str) -> (r: bool)
    ensures
        r == is_marked(s@),
{
    proof {
        reveal_strlit("text:");
    }
    let chars = chars_of(s);
    let mut rest = s.to_owned();
    let mut i: usize = 0;
    assert(s@.skip(0) =~= s@);
    while starts_with_text(rest.as_str(), "text:")
        invariant
            chars@ == s@,
            i <= chars.len(),
            rest@ == s@.skip(i as int),
            is_marked(rest@) == is_marked(s@),
        decreases chars.len() - i,
    {
        proof {
            reveal_strlit("text:");
            reveal_strlit("hex:");
            assert("text:"@.is_prefix_of(rest@));
            assert(rest@.subrange(0, 5)[0] == 't');
            assert(!"hex:"@.is_prefix_of(rest@)) by {
                if "hex:"@.is_prefix_of(rest@) {
                    assert(rest@.subrange(0, 4)[0] == "hex:"@[0]);
                }
            }
            assert(rest@.skip(5) =~= s@.skip(i + 5));
            assert(s@.subrange(i + 5, s@.len() as int) =~= s@.skip(i + 5));
        }
        i = i + 5;
        rest = slice_of(&chars, i, chars.len());
    }
    starts_with_text(rest.as_str(), "hex:")
}

/// A value as JSON: a blob is written as hexadecimal digits behind `hex:`, and a
/// text that could be taken for one behind `text:`.
pub open spec fn cell_json(c: CellView) -> JsonView {
    match c {
        CellView::Null => JsonView::Null,
        CellView::Integer(n) => int_json(n as int),
        CellView::Real(s) => JsonView::Float(s),
        CellView::Text(s) => JsonView::Str(
            if is_marked(s) {
                "text:"@ + s
            } else {
                s
            },
        ),
        CellView::Blob(b) => JsonView::Str("hex:"@ + hex_text(b)),
    }
}

/// A value as JSON.
pub fn value_to_json(c: &Cell) -> (r: Json)
    ensures
        r.deep_view() == cell_json(c.deep_view()),
{
    match c {
        Cell::Null => Json::Null,
        Cell::Integer(n) => integer(*n),
        Cell::Real(s) => Json::Float(s.clone()),
        Cell::Text(s) => Json::Str(
            if marked(s.as_str()) {
                cat2("text:", s.as_str())
            } else {
                s.clone()
            },
        ),
        Cell::Blob(b) => Json::Str(cat2("hex:", hex_encode(b.as_slice()).as_str())),
    }
}

/// What follows `hex:` in a text, where it is hexadecimal digits.
pub open spec fn blob_in(s: Seq<char>) -> Option<Seq<char>> {
    if "hex:"@.is_prefix_of(s) && is_hex(s.skip(4)) {
        Some(s.skip(4))
    } else {
        None
    }
}

/// What follows `text:` in a text, where that could be taken for a blob.
pub open spec fn text_in(s: Seq<char>) -> Option<Seq<char>> {
    if "text:"@.is_prefix_of(s) && is_marked(s.skip(5)) {
        Some(s.skip(5))
    } else {
        None
    }
}

/// The value that JSON stands for. A number that fits `i64` is an integer, any
/// other a fraction; hexadecimal digits behind `hex:` are a blob; what could be
/// taken for a blob is a text behind `text:`; arrays and objects are kept as
/// their text.
pub open spec fn json_cell(v: JsonView) -> CellView {
    match v {
        JsonView::Null => CellView::Null,
        JsonView::Bool(b) => CellView::Integer(
            if b {
                1
            } else {
                0
            },
        ),
        JsonView::Pos(n) => if n <= i64::MAX {
            CellView::Integer(n as i64)
        } else {
            CellView::Real(nat_text(n as nat))
        },
        JsonView::Neg(n) => CellView::Integer(n),
        JsonView::Float(s) => CellView::Real(s),
        JsonView::Str(s) => match blob_in(s) {
            Some(digits) => CellView::Blob(hex_bytes(digits)),
            None => match text_in(s) {
                Some(t) => CellView::Text(t),
                None => CellView::Text(s),
            },
        },
        _ => CellView::Text(json_rendered(v)),
    }
}

fn read_blob(s: &str) -> (r: Option<Vec<u8>>)
    ensures
        match blob_in(s@) {
            Some(digits) => r is Some && r->Some_0@ == hex_bytes(digits),
            None => r is None,
        },
{
    proof {
        reveal_strlit("hex:");
    }
    if !starts_with_text(s, "hex:") {
        return None;
    }
    let chars = chars_of(s);
    let digits = slice_of(&chars, 4, chars.len());
    assert(s@.subrange(4, s@.len() as int) =~= s@.skip(4));
    hex_decode(digits.as_str())
}

fn read_text(s: &str) -> (r: String)
    ensures
        r@ == match text_in(s@) {
            Some(t) => t,
            None => s@,
        },
{
    proof {
        reveal_strlit("text:");
    }
    if !starts_with_text(s, "text:") {
        return s.to_owned();
    }
    let chars = chars_of(s);
    let rest = slice_of(&chars, 5, chars.len());
    assert(s@.subrange(5, s@.len() as int) =~= s@.skip(5));
    if marked(rest.as_str()) {
        rest
    } else {
        s.to_owned()
    }
}

/// The value that JSON stands for.
pub fn json_to_value(v: &Json) -> (r: Cell)
    ensures
        r.deep_view() == json_cell(v.deep_view()),
{
    match v {
        Json::Null => Cell::Null,
        Json::Bool(b) => Cell::Integer(
            if *b {
                1
            } else {
                0
            },
        ),
        Json::Pos(n) => if *n <= i64::MAX as u64 {
            Cell::Integer(*n as i64)
        } else {
            Cell::Real(show_u64(*n))
        },
        Json::Neg(n) => Cell::Integer(*n),
        Json::Float(s) => Cell::Real(s.clone()),
        Json::Str(s) => match read_blob(s.as_str()) {
            Some(bytes) => Cell::Blob(bytes),
            None => Cell::Text(read_text(s.as_str())),
        },
        Json::Arr(_) => Cell::Text(render_json(v)),
        Json::Obj(_) => Cell::Text(render_json(v)),
    }
}

/// Whether a value is read back as it was written: every one but a fraction whose
/// text is read as something else.
pub open spec fn is_faithful(c: CellView) -> bool {
    match c {
        CellView::Real(s) => parses_to(s, JsonView::Float(s)),
        _ => true,
    }
}

/// Every value is read back as it was written, by way of its JSON; and the text
/// of the JSON stands for it exactly, but for a fraction whose text is read as
/// something else.
pub proof fn law_value_reads_back(c: CellView)
    ensures
        json_cell(cell_json(c)) == c,
        is_faithful(c) ==> is_plain(cell_json(c)),
{
    reveal_strlit("hex:");
    reveal_strlit("text:");
    match c {
        CellView::Blob(b) => {
            let s = "hex:"@ + hex_text(b);
            crate::digest::law_hex_round_trip(b);
            assert(s.skip(4) =~= hex_text(b));
            assert("hex:"@.is_prefix_of(s));
        },
        CellView::Text(s) => {
            if is_marked(s) {
                let w = "text:"@ + s;
                assert(w.skip(5) =~= s);
                assert("text:"@.is_prefix_of(w));
                assert(w[0] == 't');
                assert(!"hex:"@.is_prefix_of(w)) by {
                    if "hex:"@.is_prefix_of(w) {
                        assert(w[0] == "hex:"@[0]);
                    }
                }
            } else {
                assert(blob_in(s) is None);
                if text_in(s) is Some {
                    assert("text:"@.is_prefix_of(s));
                    assert(s.len() >= 5);
                    assert(is_marked(s));
                }
            }
        },
        _ => {},
    }
}

/// The order of values: by column.
pub open spec fn by_column() -> spec_fn((Seq<char>, CellView), (Seq<char>, CellView)) -> bool {
    |a: (Seq<char>, CellView), b: (Seq<char>, CellView)| text_le(a.0, b.0)
}

/// The member of an object that a value becomes.
pub open spec fn cell_member() -> spec_fn((Seq<char>, CellView)) -> (Seq<char>, JsonView) {
    |p: (Seq<char>, CellView)| (p.0, cell_json(p.1))
}

/// The value that a member of an object stands for.
pub open spec fn member_cell() -> spec_fn((Seq<char>, JsonView)) -> (Seq<char>, CellView) {
    |p: (Seq<char>, JsonView)| (p.0, json_cell(p.1))
}

/// A row with its values by column.
pub open spec fn sorted_row(table: Seq<char>) -> spec_fn(Seq<(Seq<char>, CellView)>) -> TableRowView {
    |cells: Seq<(Seq<char>, CellView)>|
        TableRowView { table, cells: ordered(cells, by_column()) }
}

/// The line of a row as JSON.
pub open spec fn entry_json(row: TableRowView) -> JsonView {
    JsonView::Obj(
        seq![
            ("row"@, JsonView::Obj(row.cells.map_values(cell_member()))),
            ("table"@, JsonView::Str(row.table)),
        ],
    )
}

/// Selects the dump of a table.
pub open spec fn is_dump(table: Seq<char>) -> spec_fn(TableDumpView) -> bool {
    |d: TableDumpView| d.table == table
}

/// The rows of the named tables, one table after the other. A table that is not
/// there is an error.
pub open spec fn rows_of(dumps: Seq<TableDumpView>, names: Seq<Seq<char>>) -> Result<
    Seq<TableRowView>,
    BrainErrorView,
>
    decreases names.len(),
{
    if names.len() == 0 {
        Ok(Seq::empty())
    } else {
        match rows_of(dumps, names.drop_last()) {
            Err(e) => Err(e),
            Ok(before) => match first_where(dumps, is_dump(names.last())) {
                None => Err(BrainErrorView::Storage("no such table: "@ + names.last())),
                Some(d) => Ok(before + d.rows.map_values(sorted_row(names.last()))),
            },
        }
    }
}

/// Rows as lines of JSON.
pub open spec fn rows_text(rows: Seq<TableRowView>) -> Seq<char>
    decreases rows.len(),
{
    if rows.len() == 0 {
        Seq::empty()
    } else {
        rows_text(rows.drop_last()) + json_rendered(entry_json(rows.last())) + "\n"@
    }
}

proof fn lemma_rows_error(dumps: Seq<TableDumpView>, names: Seq<Seq<char>>, k: int)
    requires
        0 <= k <= names.len(),
        rows_of(dumps, names.take(k)) is Err,
    ensures
        rows_of(dumps, names) == rows_of(dumps, names.take(k)),
    decreases names.len() - k,
{
    if k == names.len() {
        assert(names.take(k) =~= names);
    } else {
        assert(names.take(k + 1).drop_last() =~= names.take(k));
        lemma_rows_error(dumps, names, k + 1);
    }
}

fn dup_cells(cells: &Vec<(String, Cell)>) -> (r: Vec<(String, Cell)>)
    ensures
        r.deep_view() == cells.deep_view(),
{
    let ghost same = |p: (Seq<char>, CellView)| p;
    let r = map_rows(
        cells,
        |p: &(String, Cell)| -> (q: (String, Cell))
            ensures
                q.deep_view() == same(p.deep_view())
            { (p.0.clone(), p.1.dup()) },
        Ghost(same),
    );
    assert(r.deep_view() =~= cells.deep_view());
    r
}

fn sort_row(table: &str, cells: &Vec<(String, Cell)>) -> (r: TableRow)
    ensures
        r.deep_view() == sorted_row(table@)(cells.deep_view()),
{
    let sorted = order(
        dup_cells(cells),
        |a: &(String, Cell), b: &(String, Cell)| -> (le: bool)
            ensures
                le == by_column()(a.deep_view(), b.deep_view())
            { str_le(a.0.as_str(), b.0.as_str()) },
        Ghost(by_column()),
    );
    TableRow { table: table.to_owned(), cells: sorted }
}

fn list_rows(dumps: &Vec<TableDump>) -> (r: Result<Vec<TableRow>, BrainError>)
    ensures
        match rows_of(dumps.deep_view(), exported()) {
            Ok(v) => r is Ok && r->Ok_0.deep_view() == v,
            Err(e) => fails_with(r, e),
        },
{
    let names = export_tables();
    let ghost all = names.deep_view();
    let ghost view = dumps.deep_view();
    let mut out: Vec<TableRow> = Vec::new();
    let mut i: usize = 0;
    assert(all.take(0) =~= Seq::empty());
    assert(out.deep_view() =~= Seq::<TableRowView>::empty());
    while i < names.len()
        invariant
            i <= names.len(),
            all == names.deep_view(),
            all == exported(),
            view == dumps.deep_view(),
            rows_of(view, all.take(i as int)) == Ok::<Seq<TableRowView>, BrainErrorView>(
                out.deep_view(),
            ),
        decreases names.len() - i,
    {
        let ghost name = all[i as int];
        let ghost before = out.deep_view();
        proof {
            assert(all.take(i + 1).drop_last() =~= all.take(i as int));
            assert(all.take(i + 1).last() == name);
            assert(name == names[i as int]@);
        }
        match find(
            dumps,
            |d: &TableDump| -> (b: bool)
                ensures
                    b == is_dump(name)(d.deep_view())
                { str_eq(d.table.as_str(), names[i].as_str()) },
            Ghost(is_dump(name)),
        ) {
            None => {
                proof {
                    lemma_rows_error(view, all, i + 1);
                }
                return Err(BrainError::Storage(cat2("no such table: ", names[i].as_str())));
            },
            Some(k) => {
                assert(view[k as int] == dumps[k as int].deep_view());
                let mut rows = map_rows(
                    &dumps[k].rows,
                    |cells: &Vec<(String, Cell)>| -> (t: TableRow)
                        ensures
                            t.deep_view() == sorted_row(name)(cells.deep_view())
                        { sort_row(names[i].as_str(), cells) },
                    Ghost(sorted_row(name)),
                );
                let ghost added = rows.deep_view();
                out.append(&mut rows);
                assert(out.deep_view() =~= before + added);
            },
        }
        i = i + 1;
    }
    assert(all.take(i as int) =~= all);
    Ok(out)
}

fn make_entry(row: &TableRow) -> (r: Json)
    ensures
        r.deep_view() == entry_json(row.deep_view()),
{
    let ghost all = row.cells.deep_view();
    let mut members: Vec<(String, Json)> = Vec::new();
    let mut i: usize = 0;
    while i < row.cells.len()
        invariant
            i <= row.cells.len(),
            all == row.cells.deep_view(),
            members@.len() == i,
            forall|k: int|
                0 <= k < i ==> (#[trigger] members@[k]).0@ == all[k].0 && members@[k].1.deep_view()
                    == cell_json(all[k].1),
        decreases row.cells.len() - i,
    {
        assert(all[i as int] == row.cells[i as int].deep_view());
        members.push((row.cells[i].0.clone(), value_to_json(&row.cells[i].1)));
        i = i + 1;
    }
    assert(crate::json::members_view(members@) =~= all.map_values(cell_member()));
    crate::json::object2("row", object(members), "table", Json::Str(row.table.clone()))
}

/// Whether every value of a row is read back as it was written, and no column
/// stands twice.
pub open spec fn is_faithful_row(cells: Seq<(Seq<char>, CellView)>) -> bool {
    &&& forall|i: int| 0 <= i < cells.len() ==> is_faithful((#[trigger] cells[i]).1)
    &&& forall|i: int, j: int|
        0 <= i < j < cells.len() ==> (#[trigger] cells[i]).0 != (#[trigger] cells[j]).0
}

proof fn lemma_column_order()
    ensures
        is_order(by_column()),
{
    assert forall|a: (Seq<char>, CellView), b: (Seq<char>, CellView)| #[trigger]
        by_column()(a, b) || by_column()(b, a) by {
        crate::text::lemma_text_total(a.0, b.0);
    }
    assert forall|
        a: (Seq<char>, CellView),
        b: (Seq<char>, CellView),
        c: (Seq<char>, CellView),
    | #[trigger] by_column()(a, b) && #[trigger] by_column()(b, c) implies by_column()(a, c) by {
        crate::text::lemma_text_transitive(a.0, b.0, c.0);
    }
}

/// Sorting a faithful row keeps it faithful, with its columns in strict order.
proof fn lemma_sorted_faithful(cells: Seq<(Seq<char>, CellView)>)
    requires
        is_faithful_row(cells),
    ensures
        is_faithful_row(ordered(cells, by_column())),
        in_order(ordered(cells, by_column()), by_column()),
{
    let s = ordered(cells, by_column());
    lemma_column_order();
    lemma_ordered_in_order(cells, by_column());
    lemma_ordered_same_rows(cells, by_column());
    assert(cells.no_duplicates());
    cells.lemma_multiset_has_no_duplicates();
    s.lemma_multiset_has_no_duplicates_conv();
    assert forall|i: int| 0 <= i < s.len() implies cells.contains(#[trigger] s[i]) by {
        vstd::seq_lib::to_multiset_contains(s, s[i]);
        vstd::seq_lib::to_multiset_contains(cells, s[i]);
        assert(s.contains(s[i]));
    }
    assert forall|i: int, j: int| 0 <= i < j < s.len() implies (#[trigger] s[i]).0 != (
    #[trigger] s[j]).0 by {
        assert(cells.contains(s[i]) && cells.contains(s[j]));
        let a = choose|a: int| 0 <= a < cells.len() && cells[a] == s[i];
        let b = choose|b: int| 0 <= b < cells.len() && cells[b] == s[j];
        assert(a != b);
        if a < b {
            assert(cells[a].0 != cells[b].0);
        } else {
            assert(cells[b].0 != cells[a].0);
        }
    }
    assert forall|i: int| 0 <= i < s.len() implies is_faithful((#[trigger] s[i]).1) by {
        assert(cells.contains(s[i]));
        let a = choose|a: int| 0 <= a < cells.len() && cells[a] == s[i];
        assert(is_faithful(cells[a].1));
    }
}

proof fn lemma_flat_members(members: Seq<(Seq<char>, JsonView)>)
    requires
        forall|i: int|
            0 <= i < members.len() ==> is_plain((#[trigger] members[i]).1) && crate::json::depth(
                members[i].1,
            ) == 0,
    ensures
        members_plain(members),
        members_depth(members) == 0,
    decreases members.len(),
{
    if members.len() > 0 {
        assert(is_plain(members.last().1) && crate::json::depth(members.last().1) == 0);
        assert forall|i: int| 0 <= i < members.len() - 1 implies is_plain(
            (#[trigger] members.drop_last()[i]).1,
        ) && crate::json::depth(members.drop_last()[i].1) == 0 by {
            assert(members.drop_last()[i] == members[i]);
        }
        lemma_flat_members(members.drop_last());
    }
}

/// The line of a faithful row is one that its text stands for exactly.
proof fn lemma_entry_plain(row: TableRowView)
    requires
        is_faithful_row(row.cells),
        in_order(row.cells, by_column()),
    ensures
        is_shallow(entry_json(row)),
{
    let m = row.cells.map_values(cell_member());
    assert forall|i: int| 0 <= i < m.len() implies is_plain((#[trigger] m[i]).1)
        && crate::json::depth(m[i].1) == 0 by {
        assert(is_faithful(row.cells[i].1));
        law_value_reads_back(row.cells[i].1);
    }
    lemma_flat_members(m);
    assert forall|i: int, j: int| 0 <= i < j < m.len() implies text_le(
        (#[trigger] m[i]).0,
        (#[trigger] m[j]).0,
    ) && m[i].0 != m[j].0 by {
        assert(by_column()(row.cells[i], row.cells[j]));
        assert(row.cells[i].0 != row.cells[j].0);
    }
    assert(keys_in_order(m));
    let inner = JsonView::Obj(m);
    assert(is_plain(inner));
    assert(crate::json::depth(inner) == 1);
    let outer = seq![("row"@, inner), ("table"@, JsonView::Str(row.table))];
    reveal_strlit("row");
    reveal_strlit("table");
    assert(text_le("row"@, "table"@)) by {
        assert("row"@[0] == 'r' && "table"@[0] == 't');
    }
    assert("row"@ != "table"@) by {
        assert("row"@.len() != "table"@.len());
    }
    assert(keys_in_order(outer));
    let one = seq![("row"@, inner)];
    assert(outer.drop_last() =~= one);
    assert(one.drop_last() =~= Seq::<(Seq<char>, JsonView)>::empty());
    assert(members_plain(one.drop_last()) && members_depth(one.drop_last()) == 0);
    assert(members_plain(one) && members_depth(one) == 1);
    assert(outer.last().1 == JsonView::Str(row.table));
    assert(is_plain(outer.last().1) && crate::json::depth(outer.last().1) == 0);
    assert(members_plain(outer) && members_depth(outer) == 1);
}

/// What an import reads from a line's JSON: a row of a table, or what is wrong
/// with it.
pub open spec fn entry_row(v: JsonView) -> Result<TableRowView, BrainErrorView> {
    match crate::json::text_member(v, "table"@) {
        None => Err(BrainErrorView::Storage("missing 'table' field"@)),
        Some(table) => match member(v, "row"@) {
            None => Err(BrainErrorView::Storage("missing 'row' field"@)),
            Some(JsonView::Obj(members)) => Ok(
                TableRowView { table, cells: members.map_values(member_cell()) },
            ),
            Some(_) => Err(
                BrainErrorView::Storage("expected JSON object for table "@ + table),
            ),
        },
    }
}

/// The row that a line's JSON holds.
pub fn read_entry(entry: &Json) -> (r: Result<TableRow, BrainError>)
    ensures
        match entry_row(entry.deep_view()) {
            Ok(v) => r is Ok && r->Ok_0.deep_view() == v,
            Err(e) => fails_with(r, e),
        },
{
    let table = match entry.str_of("table") {
        Some(t) => t.to_owned(),
        None => {
            return Err(BrainError::Storage("missing 'table' field".to_owned()));
        },
    };
    match entry.get("row") {
        None => Err(BrainError::Storage("missing 'row' field".to_owned())),
        Some(Json::Obj(members)) => {
            let ghost all = Json::Obj(*members).deep_view()->Obj_0;
            let mut cells: Vec<(String, Cell)> = Vec::new();
            let mut i: usize = 0;
            assert(cells.deep_view() =~= all.take(0).map_values(member_cell()));
            while i < members.len()
                invariant
                    i <= members.len(),
                    all == Json::Obj(*members).deep_view()->Obj_0,
                    cells.deep_view() == all.take(i as int).map_values(member_cell()),
                decreases members.len() - i,
            {
                let ghost before = cells.deep_view();
                assert(all[i as int] == (members[i as int].0@, members[i as int].1.deep_view()));
                cells.push((members[i].0.clone(), json_to_value(&members[i].1)));
                proof {
                    assert(cells.deep_view() =~= before.push(member_cell()(all[i as int])));
                    assert(all.take(i + 1).map_values(member_cell()) =~= all.take(
                        i as int,
                    ).map_values(member_cell()).push(member_cell()(all[i as int])));
                }
                i = i + 1;
            }
            assert(all.take(i as int) =~= all);
            Ok(TableRow { table, cells })
        },
        Some(_) => Err(
            BrainError::Storage(cat2("expected JSON object for table ", table.as_str())),
        ),
    }
}

/// What an import reads from a line: nothing from a blank one.
pub open spec fn line_row(line: Seq<char>) -> Result<Option<TableRowView>, BrainErrorView> {
    if is_blank(line) {
        Ok(None)
    } else {
        match json_parsed(line) {
            Err(e) => Err(BrainErrorView::Storage("jsonl parse: "@ + e)),
            Ok(v) => match entry_row(v) {
                Err(e) => Err(e),
                Ok(row) => Ok(Some(row)),
            },
        }
    }
}

/// The rows that were read, and what stopped the reading.
pub struct ImportView {
    pub rows: Seq<TableRowView>,
    pub error: Option<BrainErrorView>,
}

/// What an import reads from lines: the rows up to the first line that is wrong,
/// and what is wrong with it.
pub open spec fn lines_read(lines: Seq<Seq<char>>) -> ImportView
    decreases lines.len(),
{
    if lines.len() == 0 {
        ImportView { rows: Seq::empty(), error: None }
    } else {
        let before = lines_read(lines.drop_last());
        if before.error is Some {
            before
        } else {
            match line_row(lines.last()) {
                Err(e) => ImportView { error: Some(e), ..before },
                Ok(None) => before,
                Ok(Some(row)) => ImportView { rows: before.rows.push(row), ..before },
            }
        }
    }
}

proof fn lemma_reading_stops(lines: Seq<Seq<char>>, k: int)
    requires
        0 <= k <= lines.len(),
        lines_read(lines.take(k)).error is Some,
    ensures
        lines_read(lines) == lines_read(lines.take(k)),
    decreases lines.len() - k,
{
    if k == lines.len() {
        assert(lines.take(k) =~= lines);
    } else {
        assert(lines.take(k + 1).drop_last() =~= lines.take(k));
        lemma_reading_stops(lines, k + 1);
    }
}

/// What is to be put into the store, in order, each row only where its key is
/// not taken; and what stopped the reading, where something did.
#[derive(Debug)]
pub struct Import {
    pub rows: Vec<TableRow>,
    pub error: Option<BrainError>,
}

/// Whether an import is what lines give.
pub open spec fn import_is(i: Import, v: ImportView) -> bool {
    &&& i.rows.deep_view() == v.rows
    &&& match v.error {
        None => i.error is None,
        Some(e) => i.error is Some && i.error->Some_0.deep_view() == e,
    }
}

/// Reads the rows of an export. Reading stops at the first line that is no row
/// of a table; the rows before it were read all the same.
pub fn import_jsonl(jsonl: &str) -> (r: Import)
    ensures
        import_is(r, lines_read(lines(jsonl@))),
{
    let all = split_lines(jsonl);
    let ghost text = all.deep_view();
    let mut rows: Vec<TableRow> = Vec::new();
    let mut i: usize = 0;
    assert(text.take(0) =~= Seq::empty());
    assert(rows.deep_view() =~= Seq::<TableRowView>::empty());
    while i < all.len()
        invariant
            i <= all.len(),
            text == all.deep_view(),
            text == lines(jsonl@),
            lines_read(text.take(i as int)).rows == rows.deep_view(),
            lines_read(text.take(i as int)).error is None,
        decreases all.len() - i,
    {
        let ghost before = rows.deep_view();
        proof {
            assert(text.take(i + 1).drop_last() =~= text.take(i as int));
            assert(text.take(i + 1).last() == text[i as int]);
            assert(text[i as int] == all[i as int]@);
        }
        if !blank(all[i].as_str()) {
            let parsed = match parse_json(all[i].as_str()) {
                Err(e) => Err(BrainError::Storage(cat2("jsonl parse: ", e.as_str()))),
                Ok(v) => read_entry(&v),
            };
            match parsed {
                Err(e) => {
                    proof {
                        lemma_reading_stops(text, i + 1);
                    }
                    return Import { rows, error: Some(e) };
                },
                Ok(row) => {
                    let ghost added = row.deep_view();
                    rows.push(row);
                    assert(rows.deep_view() =~= before.push(added));
                },
            }
        }
        i = i + 1;
    }
    assert(text.take(i as int) =~= text);
    Import { rows, error: None }
}

/// Whether every row is read back as it was written.
pub open spec fn all_faithful(rows: Seq<TableRowView>) -> bool {
    forall|i: int|
        0 <= i < rows.len() ==> is_faithful_row((#[trigger] rows[i]).cells) && in_order(
            rows[i].cells,
            by_column(),
        )
}

/// The JSON of a row is read as the row.
proof fn lemma_entry_reads_back(row: TableRowView)
    ensures
        entry_row(entry_json(row)) == Ok::<TableRowView, BrainErrorView>(row),
{
    let m = row.cells.map_values(cell_member());
    let outer = seq![("row"@, JsonView::Obj(m)), ("table"@, JsonView::Str(row.table))];
    reveal_strlit("row");
    reveal_strlit("table");
    assert("row"@ != "table"@) by {
        assert("row"@.len() != "table"@.len());
    }
    assert(outer[0].0 == "row"@);
    assert(outer.drop_first()[0] == outer[1]);
    reveal_with_fuel(crate::json::member_in, 3);
    assert(member(entry_json(row), "row"@) == Some(JsonView::Obj(m)));
    assert(member(entry_json(row), "table"@) == Some(JsonView::Str(row.table)));
    assert forall|i: int| 0 <= i < m.len() implies #[trigger] m.map_values(member_cell())[i]
        == row.cells[i] by {
        law_value_reads_back(row.cells[i].1);
    }
    assert(m.map_values(member_cell()) =~= row.cells);
}

/// Export all durable tables as lines of JSON. A table that was not given is an
/// error. An import of the text reads the rows back, each with its values by
/// column, wherever every fraction is a text that is read as itself.
pub fn export_jsonl(dumps: &Vec<TableDump>) -> (r: Result<String, BrainError>)
    ensures
        match rows_of(dumps.deep_view(), exported()) {
            Err(e) => fails_with(r, e),
            Ok(rows) => {
                &&& r is Ok && r->Ok_0@ == rows_text(rows)
                &&& all_faithful(rows) ==> lines_read(lines(r->Ok_0@)) == (ImportView {
                    rows,
                    error: None,
                })
            },
        },
{
    let rows = match list_rows(dumps) {
        Ok(v) => v,
        Err(e) => {
            return Err(e);
        },
    };
    let ghost all = rows.deep_view();
    let mut out = String::new();
    let mut i: usize = 0;
    assert(all.take(0) =~= Seq::empty());
    assert(out@ =~= Seq::<char>::empty());
    assert(lines(out@) =~= Seq::<Seq<char>>::empty());
    while i < rows.len()
        invariant
            i <= rows.len(),
            all == rows.deep_view(),
            out@ == rows_text(all.take(i as int)),
            out@.len() > 0 ==> out@.last() == '\n',
            all_faithful(all) ==> lines_read(lines(out@)) == (ImportView {
                rows: all.take(i as int),
                error: None,
            }),
        decreases rows.len() - i,
    {
        let ghost before = out@;
        let ghost row = all[i as int];
        proof {
            assert(all.take(i + 1).drop_last() =~= all.take(i as int));
            assert(all.take(i + 1).last() == row);
            assert(row == rows[i as int].deep_view());
            reveal_strlit("\n");
            assert("\n"@ =~= seq!['\n']);
        }
        let line = render_json(&make_entry(&rows[i]));
        out.push_str(line.as_str());
        out.push_str("\n");
        proof {
            assert(out@.last() == '\n');
            crate::text::law_line_reads_back(before, line@);
            assert(lines(out@) == lines(before).push(line@));
            assert(lines(out@).drop_last() =~= lines(before));
            assert(!is_blank(line@)) by {
                assert(!crate::text::is_white(line@[0]));
            }
            if all_faithful(all) {
                assert(is_faithful_row(row.cells));
                lemma_entry_plain(row);
                lemma_entry_reads_back(row);
                assert(parses_to(line@, entry_json(row)));
                assert(line_row(line@) == Ok::<Option<TableRowView>, BrainErrorView>(Some(row)));
                assert(all.take(i + 1) =~= all.take(i as int).push(row));
            }
        }
        i = i + 1;
    }
    assert(all.take(i as int) =~= all);
    Ok(out)
}

/// Whether every row of every dump is read back as it was written.
pub open spec fn dumps_faithful(dumps: Seq<TableDumpView>) -> bool {
    forall|d: int, i: int|
        0 <= d < dumps.len() && 0 <= i < dumps[d].rows.len() ==> is_faithful_row(
            #[trigger] dumps[d].rows[i],
        )
}

/// The rows of tables are all read back from an export, but where a fraction is a
/// text that is read as something else.
pub proof fn law_faithful_tables_round_trip(dumps: Seq<TableDumpView>, names: Seq<Seq<char>>)
    ensures
        dumps_faithful(dumps) ==> (rows_of(dumps, names) matches Ok(rows) ==> all_faithful(rows)),
    decreases names.len(),
{
    if dumps_faithful(dumps) && names.len() > 0 {
        law_faithful_tables_round_trip(dumps, names.drop_last());
        if rows_of(dumps, names) is Ok {
            let before = rows_of(dumps, names.drop_last())->Ok_0;
            let p = is_dump(names.last());
            let d = first_where(dumps, p)->Some_0;
            dumps.lemma_filter_pred(p, 0);
            dumps.lemma_filter_contains_rev(p, dumps.filter(p)[0]);
            let k = choose|k: int| 0 <= k < dumps.len() && dumps[k] == d;
            let added = d.rows.map_values(sorted_row(names.last()));
            let rows = before + added;
            assert forall|i: int| 0 <= i < rows.len() implies is_faithful_row(
                (#[trigger] rows[i]).cells,
            ) && in_order(rows[i].cells, by_column()) by {
                if i < before.len() {
                    assert(rows[i] == before[i]);
                } else {
                    let j = i - before.len();
                    assert(rows[i] == added[j]);
                    assert(is_faithful_row(dumps[k].rows[j]));
                    lemma_sorted_faithful(d.rows[j]);
                }
            }
        }
    }
}

} // verus!
