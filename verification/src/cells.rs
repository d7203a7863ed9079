//! Values as a table of the database holds them, and snapshots of tables as
//! text.
use vstd::prelude::*;

use crate::prompts::{join_texts, joined};
use crate::rows::{map_rows, Row};
use crate::tables::dup_bytes;
use crate::text::{cat3, int_text, nat_text, show_i64, show_u64};

verus! {

/// A value in a column.
#[derive(Debug)]
pub enum Cell {
    Null,
    Integer(i64),
    /// A number with a fraction, as it is written in JSON.
    Real(String),
    Text(String),
    Blob(Vec<u8>),
}

/// [`Cell`] as a mathematical value.
#[verifier::ext_equal]
pub enum CellView {
    Null,
    Integer(i64),
    Real(Seq<char>),
    Text(Seq<char>),
    Blob(Seq<u8>),
}

impl DeepView for Cell {
    type V = CellView;

    open spec fn deep_view(&self) -> CellView {
        match self {
            Cell::Null => CellView::Null,
            Cell::Integer(n) => CellView::Integer(*n),
            Cell::Real(s) => CellView::Real(s@),
            Cell::Text(s) => CellView::Text(s@),
            Cell::Blob(b) => CellView::Blob(b@),
        }
    }
}

impl Row for Cell {
    fn dup(&self) -> (r: Self) {
        match self {
            Cell::Null => Cell::Null,
            Cell::Integer(n) => Cell::Integer(*n),
            Cell::Real(s) => Cell::Real(s.clone()),
            Cell::Text(s) => Cell::Text(s.clone()),
            Cell::Blob(b) => Cell::Blob(dup_bytes(b)),
        }
    }
}

impl Clone for Cell {
    fn clone(&self) -> (r: Self)
        ensures
            r.deep_view() == self.deep_view(),
    {
        self.dup()
    }
}

/// How a value is written in a snapshot.
pub open spec fn cell_text() -> spec_fn(CellView) -> Seq<char> {
    |c: CellView|
        match c {
            CellView::Null => Seq::empty(),
            CellView::Integer(n) => int_text(n as int),
            CellView::Real(s) => s,
            CellView::Text(s) => s,
            CellView::Blob(b) => "blob("@ + nat_text(b.len()) + ")"@,
        }
}

fn show_cell(c: &Cell) -> (r: String)
    ensures
        r@ == cell_text()(c.deep_view()),
{
    match c {
        Cell::Null => {
            let r = String::new();
            assert(r@ =~= Seq::<char>::empty());
            r
        },
        Cell::Integer(n) => show_i64(*n),
        Cell::Real(s) => s.clone(),
        Cell::Text(s) => s.clone(),
        Cell::Blob(b) => cat3("blob(", show_u64(b.len() as u64).as_str(), ")"),
    }
}

/// A row as a line, with bars between the values.
pub open spec fn row_line(row: Seq<CellView>) -> Seq<char> {
    joined(row.map_values(cell_text()), "|"@) + "\n"@
}

/// Rows as lines.
pub open spec fn row_lines(rows: Seq<Seq<CellView>>) -> Seq<char>
    decreases rows.len(),
{
    if rows.len() == 0 {
        Seq::empty()
    } else {
        row_lines(rows.drop_last()) + row_line(rows.last())
    }
}

/// A part of a snapshot: a label, then the rows.
pub open spec fn section(label: Seq<char>, rows: Seq<Seq<CellView>>) -> Seq<char> {
    "---"@ + label + "---\n"@ + row_lines(rows)
}

/// Writes the rows of a query as lines under a label.
pub fn snapshot_section(label: &str, rows: &Vec<Vec<Cell>>) -> (r: String)
    ensures
        r@ == section(label@, rows.deep_view()),
{
    let ghost all = rows.deep_view();
    let mut out = cat3("---", label, "---\n");
    let ghost head = out@;
    let mut i: usize = 0;
    assert(all.take(0) =~= Seq::empty());
    assert(out@ =~= head + row_lines(all.take(0)));
    while i < rows.len()
        invariant
            i <= rows.len(),
            all == rows.deep_view(),
            out@ == head + row_lines(all.take(i as int)),
        decreases rows.len() - i,
    {
        proof {
            assert(all.take(i + 1).drop_last() =~= all.take(i as int));
            assert(all.take(i + 1).last() == all[i as int]);
            assert(all[i as int] == rows[i as int].deep_view());
        }
        let shown = map_rows(
            &rows[i],
            |c: &Cell| -> (s: String)
                ensures
                    s.deep_view() == cell_text()(c.deep_view())
                { show_cell(c) },
            Ghost(cell_text()),
        );
        let line = join_texts(&shown, "|");
        out.push_str(line.as_str());
        out.push_str("\n");
        assert(out@ =~= head + row_lines(all.take(i + 1)));
        i = i + 1;
    }
    assert(all.take(i as int) =~= all);
    out
}

/// The rows of the truth half of the projection: what is known, without
/// anything that only serves ranking.
#[derive(Debug)]
pub struct TruthRows {
    pub entities: Vec<Vec<Cell>>,
    pub keys: Vec<Vec<Cell>>,
    pub merges: Vec<Vec<Cell>>,
    pub statements: Vec<Vec<Cell>>,
    pub assertions: Vec<Vec<Cell>>,
    pub mentions: Vec<Vec<Cell>>,
    pub beliefs: Vec<Vec<Cell>>,
    pub predicates: Vec<Vec<Cell>>,
}

/// Byte-identical snapshot of the truth half of the projection.
pub fn snapshot_truth(rows: &TruthRows) -> (r: String)
    ensures
        r@ == section("entities"@, rows.entities.deep_view()) + section(
            "keys"@,
            rows.keys.deep_view(),
        ) + section("merges"@, rows.merges.deep_view()) + section(
            "statements"@,
            rows.statements.deep_view(),
        ) + section("assertions"@, rows.assertions.deep_view()) + section(
            "mentions"@,
            rows.mentions.deep_view(),
        ) + section("beliefs"@, rows.beliefs.deep_view()) + section(
            "predicates"@,
            rows.predicates.deep_view(),
        ),
{
    let mut out = snapshot_section("entities", &rows.entities);
    out.push_str(snapshot_section("keys", &rows.keys).as_str());
    out.push_str(snapshot_section("merges", &rows.merges).as_str());
    out.push_str(snapshot_section("statements", &rows.statements).as_str());
    out.push_str(snapshot_section("assertions", &rows.assertions).as_str());
    out.push_str(snapshot_section("mentions", &rows.mentions).as_str());
    out.push_str(snapshot_section("beliefs", &rows.beliefs).as_str());
    out.push_str(snapshot_section("predicates", &rows.predicates).as_str());
    out
}

/// The rows of the ranking half of the projection: the derived indexes.
#[derive(Debug)]
pub struct RankingRows {
    pub fts_word: Vec<Vec<Cell>>,
    pub fts_ngram: Vec<Vec<Cell>>,
    pub vectors: Vec<Vec<Cell>>,
    pub communities: Vec<Vec<Cell>>,
    pub salience: Vec<Vec<Cell>>,
    pub chunks: Vec<Vec<Cell>>,
}

/// Ranking-half snapshot: membership of derived indexes.
pub fn snapshot_ranking(rows: &RankingRows) -> (r: String)
    ensures
        r@ == section("fts_word"@, rows.fts_word.deep_view()) + section(
            "fts_ngram"@,
            rows.fts_ngram.deep_view(),
        ) + section("vectors"@, rows.vectors.deep_view()) + section(
            "communities"@,
            rows.communities.deep_view(),
        ) + section("salience"@, rows.salience.deep_view()) + section(
            "chunks"@,
            rows.chunks.deep_view(),
        ),
{
    let mut out = snapshot_section("fts_word", &rows.fts_word);
    out.push_str(snapshot_section("fts_ngram", &rows.fts_ngram).as_str());
    out.push_str(snapshot_section("vectors", &rows.vectors).as_str());
    out.push_str(snapshot_section("communities", &rows.communities).as_str());
    out.push_str(snapshot_section("salience", &rows.salience).as_str());
    out.push_str(snapshot_section("chunks", &rows.chunks).as_str());
    out
}

} // verus!
