//! The document: one grid with its file identity, its dirty flag and the
//! record that the one level of undo works from.

use crate::delimited::{plain, records, theorem_read_write, written};
use crate::editor::Position;
use crate::grid::{
    capped, cell_at, content_at, index_at, lemma_concat_wf, lemma_max_col, lemma_max_col_is,
    lemma_max_row, lemma_max_row_is, lemma_occupied_has_first, lemma_records_keep_text,
    lemma_same_places, max_col, max_row, occupied, same_text, selected, shown_row, table_records,
    writes_at,
};
use crate::table::{blank_cell, blank_column, blank_row, table_of, Cell, CellView, Table, TableView};
use crate::text::{ends_with, is_suffix, string_from, to_chars};
use vstd::prelude::*;
use vstd::string::StringExecFns;

verus! {

/// The command that a record of undo stems from.
#[derive(Clone, Copy, Debug, PartialEq, Eq, Structural)]
pub enum Trigger {
    Insert,
    Delete,
    Paste,
}

/// What the last mutating command overwrote: the cells it touched, as they
/// were before it, in the order in which it touched them.
#[derive(Debug)]
pub struct Action {
    pub key: Trigger,
    pub cells_affected: Vec<Cell>,
}

/// What a record of undo holds, as mathematical values.
pub struct ActionView {
    pub key: Trigger,
    pub cells_affected: Seq<CellView>,
}

impl View for Action {
    type V = ActionView;

    open spec fn view(&self) -> ActionView {
        ActionView { key: self.key, cells_affected: self.cells_affected@.map_values(|c: Cell| c@) }
    }
}

/// The editing engine around one grid.
#[derive(Debug)]
pub struct Document {
    pub file_name: Option<String>,
    pub table: Table,
    /// False from the first change on, until the document is saved.
    pub saved: bool,
    /// What `undo` would take back, where there is anything.
    pub last_action: Option<Action>,
}

/// What a document holds, as mathematical values.
pub struct DocumentView {
    pub file_name: Option<Seq<char>>,
    pub table: TableView,
    pub saved: bool,
    pub last_action: Option<ActionView>,
}

impl View for Document {
    type V = DocumentView;

    open spec fn view(&self) -> DocumentView {
        DocumentView {
            file_name: match self.file_name {
                Some(name) => Some(name@),
                None => None,
            },
            table: self.table@,
            saved: self.saved,
            last_action: match self.last_action {
                Some(action) => Some(action@),
                None => None,
            },
        }
    }
}

impl DocumentView {
    /// The document after a new row was asked for at row `y`: the row is
    /// added where `y` is one past the last row, and nothing changes
    /// otherwise.
    pub open spec fn insert_newrow(self, y: nat) -> DocumentView {
        if y == self.table.num_rows() + 1 {
            DocumentView {
                table: self.table.grown(blank_row(self.table.num_cols(), y)),
                saved: false,
                ..self
            }
        } else {
            self
        }
    }

    /// The document after a new column was asked for at column `x`: the
    /// column is added where `x` is one past the last column, and nothing
    /// changes otherwise.
    pub open spec fn insert_newcol(self, x: nat) -> DocumentView {
        if x == self.table.num_cols() + 1 {
            DocumentView {
                table: self.table.grown(blank_column(self.table.num_rows(), x)),
                saved: false,
                ..self
            }
        } else {
            self
        }
    }
}

/// Where the next clipboard entry goes: one column on where its source
/// column is beyond that of the entry before it; else one row on where its
/// source row is beyond that of the entry before it; else where the entry
/// before it went. Columns and rows stop at the last that can be counted
/// to.
pub open spec fn paste_step(x: nat, y: nat, px: nat, py: nat, source: CellView) -> (nat, nat) {
    if source.x_loc > px {
        (capped(x + 1), y)
    } else if source.y_loc > py {
        (x, capped(y + 1))
    } else {
        (x, y)
    }
}

/// The grid and the record of undo after the entries of `clipboard` were
/// pasted one by one. `(x, y)` is where the entry before them went, and
/// `(px, py)` is where that entry came from. Before each entry is written,
/// what is shown at its destination joins the record.
pub open spec fn paste_from(
    table: TableView,
    log: Seq<CellView>,
    x: nat,
    y: nat,
    px: nat,
    py: nat,
    clipboard: Seq<CellView>,
) -> (TableView, Seq<CellView>)
    decreases clipboard.len(),
{
    if clipboard.len() == 0 {
        (table, log)
    } else {
        let source = clipboard[0];
        let (nx, ny) = paste_step(x, y, px, py, source);
        paste_from(
            table.put(nx, ny, source.contents),
            log.push(cell_at(table.cells, nx, ny)),
            nx,
            ny,
            source.x_loc,
            source.y_loc,
            clipboard.drop_first(),
        )
    }
}

/// The grid after the texts of `log` were written back at their
/// coordinates, the last entry first and the first entry last.
pub open spec fn replay(table: TableView, log: Seq<CellView>) -> TableView
    decreases log.len(),
{
    if log.len() == 0 {
        table
    } else {
        replay(table, log.drop_first()).put(log[0].x_loc, log[0].y_loc, log[0].contents)
    }
}

/// A mutating command with its arguments.
pub enum Mutation {
    Insert { x: nat, y: nat, text: Seq<char> },
    Delete,
    Paste { x: nat, y: nat, clipboard: Seq<CellView> },
}

impl DocumentView {
    /// The document after `text` was written at column `x` of row `y`. The
    /// record of undo holds what was shown there before.
    pub open spec fn insert(self, x: nat, y: nat, text: Seq<char>) -> DocumentView {
        DocumentView {
            table: self.table.put(x, y, text),
            saved: false,
            last_action: Some(
                ActionView {
                    key: Trigger::Insert,
                    cells_affected: if writes_at(self.table.cells, x, y) {
                        seq![cell_at(self.table.cells, x, y)]
                    } else {
                        Seq::empty()
                    },
                },
            ),
            ..self
        }
    }

    /// The document after the selected cells were cleared. The record of
    /// undo holds them as they were.
    pub open spec fn delete(self) -> DocumentView {
        DocumentView {
            table: TableView {
                cells: self.table.cells.map_values(
                    |c: CellView|
                        if c.highlighted {
                            c.cleared()
                        } else {
                            c
                        },
                ),
                ..self.table
            },
            saved: false,
            last_action: Some(
                ActionView { key: Trigger::Delete, cells_affected: selected(self.table.cells) },
            ),
            ..self
        }
    }

    /// The document after `clipboard` was pasted with its first entry at
    /// column `x` of row `y`; a column or row of 0 counts as 1.
    pub open spec fn paste(self, x: nat, y: nat, clipboard: Seq<CellView>) -> DocumentView {
        let ax = if x == 0 {
            1
        } else {
            x
        };
        let ay = if y == 0 {
            1
        } else {
            y
        };
        let px = if clipboard.len() > 0 {
            clipboard[0].x_loc
        } else {
            0
        };
        let py = if clipboard.len() > 0 {
            clipboard[0].y_loc
        } else {
            0
        };
        let (table, log) = paste_from(self.table, Seq::empty(), ax, ay, px, py, clipboard);
        DocumentView {
            table,
            saved: false,
            last_action: Some(ActionView { key: Trigger::Paste, cells_affected: log }),
            ..self
        }
    }

    /// The document after undo: what the record holds is written back and
    /// the record is gone. Without a record nothing changes.
    pub open spec fn undo(self) -> DocumentView {
        match self.last_action {
            Some(action) => DocumentView {
                table: replay(self.table, action.cells_affected),
                saved: false,
                last_action: None,
                ..self
            },
            None => self,
        }
    }

    /// The document after the command `m`.
    pub open spec fn apply(self, m: Mutation) -> DocumentView {
        match m {
            Mutation::Insert { x, y, text } => self.insert(x, y, text),
            Mutation::Delete => self.delete(),
            Mutation::Paste { x, y, clipboard } => self.paste(x, y, clipboard),
        }
    }
}

/// The kinds of file that can be opened, told apart by the end of the name.
#[derive(Clone, Copy, Debug, PartialEq, Eq, Structural)]
pub enum SourceFormat {
    /// Delimited text, the format that is also written.
    Delimited,
    /// A spreadsheet workbook: names that end in `.xlsx` or `.xls`.
    Workbook,
    /// A zipped XML spreadsheet document: names that end in `.ods`.
    ZippedXml,
}

/// The format that a file of the given name is read as.
pub open spec fn format_of(name: Seq<char>) -> SourceFormat {
    if is_suffix(".ods"@, name) {
        SourceFormat::ZippedXml
    } else if is_suffix(".xlsx"@, name) || is_suffix(".xls"@, name) {
        SourceFormat::Workbook
    } else {
        SourceFormat::Delimited
    }
}

/// `name` with `.csv` in place of its last `suffix_len` characters.
pub open spec fn renamed(name: Seq<char>, suffix_len: nat) -> Seq<char> {
    name.take(name.len() - suffix_len) + ".csv"@
}

/// The name under which a document of the given name is saved: a name of a
/// foreign format gets `.csv` in place of its ending, any other name stays.
pub open spec fn save_name(name: Seq<char>) -> Seq<char> {
    if is_suffix(".xlsx"@, name) {
        renamed(name, ".xlsx"@.len())
    } else if is_suffix(".xls"@, name) {
        renamed(name, ".xls"@.len())
    } else if is_suffix(".ods"@, name) {
        renamed(name, ".ods"@.len())
    } else {
        name
    }
}

/// What is to be written to which file for a document to be saved.
#[derive(Debug)]
pub struct FileImage {
    pub path: String,
    pub contents: String,
}

/// A new row one past the last row makes the grid one row longer and no
/// wider, where the grid has a column; its cells are blank and follow the
/// cells that were there. A new row asked for anywhere else changes
/// nothing.
pub proof fn theorem_new_row(doc: DocumentView, y: nat)
    ensures
        y != doc.table.num_rows() + 1 ==> doc.insert_newrow(y) == doc,
        y == doc.table.num_rows() + 1 ==> doc.insert_newrow(y).table.cells == doc.table.cells
            + blank_row(doc.table.num_cols(), y),
        y == doc.table.num_rows() + 1 && doc.table.num_cols() >= 1 ==> (
            doc.insert_newrow(y).table.num_rows() == doc.table.num_rows() + 1
            && doc.insert_newrow(y).table.num_cols() == doc.table.num_cols()),
        doc.table.wf() ==> doc.insert_newrow(y).table.wf(),
{
    let before = doc.table.cells;
    let rows = max_row(before);
    let cols = max_col(before);
    if y == rows + 1 {
        let row = blank_row(cols, y);
        let after = before + row;
        lemma_max_row(before);
        lemma_max_col(before);
        if cols >= 1 {
            assert forall|k: int| 0 <= k < after.len() implies (#[trigger] after[k]).y_loc <= y
                && after[k].x_loc <= cols by {
                if k < before.len() {
                    assert(after[k] == before[k]);
                } else {
                    assert(after[k] == row[k - before.len()]);
                }
            }
            assert(after[before.len() as int] == row[0]);
            assert(after[before.len() as int].y_loc == y);
            lemma_max_row_is(after, y);
            let w = choose|k: int| 0 <= k < before.len() && (#[trigger] before[k]).x_loc == cols;
            assert(after[w] == before[w]);
            lemma_max_col_is(after, cols);
        }
        if doc.table.wf() {
            assert forall|i: int, j: int| 0 <= i < before.len() && 0 <= j < row.len()
                implies !((#[trigger] before[i]).x_loc == (#[trigger] row[j]).x_loc
                && before[i].y_loc == row[j].y_loc) by {}
            lemma_concat_wf(before, row);
        }
    }
}

/// A new column one past the last column makes the grid one column wider
/// and no longer, where the grid has a row; its cells are blank and follow
/// the cells that were there. A new column asked for anywhere else changes
/// nothing.
pub proof fn theorem_new_col(doc: DocumentView, x: nat)
    ensures
        x != doc.table.num_cols() + 1 ==> doc.insert_newcol(x) == doc,
        x == doc.table.num_cols() + 1 ==> doc.insert_newcol(x).table.cells == doc.table.cells
            + blank_column(doc.table.num_rows(), x),
        x == doc.table.num_cols() + 1 && doc.table.num_rows() >= 1 ==> (
            doc.insert_newcol(x).table.num_cols() == doc.table.num_cols() + 1
            && doc.insert_newcol(x).table.num_rows() == doc.table.num_rows()),
        doc.table.wf() ==> doc.insert_newcol(x).table.wf(),
{
    let before = doc.table.cells;
    let rows = max_row(before);
    let cols = max_col(before);
    if x == cols + 1 {
        let column = blank_column(rows, x);
        let after = before + column;
        lemma_max_row(before);
        lemma_max_col(before);
        if rows >= 1 {
            assert forall|k: int| 0 <= k < after.len() implies (#[trigger] after[k]).x_loc <= x
                && after[k].y_loc <= rows by {
                if k < before.len() {
                    assert(after[k] == before[k]);
                } else {
                    assert(after[k] == column[k - before.len()]);
                }
            }
            assert(after[before.len() as int] == column[0]);
            assert(after[before.len() as int].x_loc == x);
            lemma_max_col_is(after, x);
            let w = choose|k: int| 0 <= k < before.len() && (#[trigger] before[k]).y_loc == rows;
            assert(after[w] == before[w]);
            lemma_max_row_is(after, rows);
        }
        if doc.table.wf() {
            assert forall|i: int, j: int| 0 <= i < before.len() && 0 <= j < column.len()
                implies !((#[trigger] before[i]).x_loc == (#[trigger] column[j]).x_loc
                && before[i].y_loc == column[j].y_loc) by {}
            lemma_concat_wf(before, column);
        }
    }
}

/// Opening what was saved shows the same text in every cell: where no cell
/// of a well-formed grid holds a comma, a line feed or a carriage return,
/// the grid that is built of the written text has the extent of the grid
/// that was written, and the same text at every coordinate.
pub proof fn theorem_open_saved(table: TableView)
    requires
        table.wf(),
        forall|i: int| 0 <= i < table.cells.len() ==> plain(#[trigger] table.cells[i].contents),
    ensures
        records(written(table_records(table.cells))) == table_records(table.cells),
        same_text(table_of(records(written(table_records(table.cells)))).cells, table.cells),
        table_of(records(written(table_records(table.cells)))).num_rows() == table.num_rows(),
        table_of(records(written(table_records(table.cells)))).num_cols() == table.num_cols(),
{
    let cells = table.cells;
    let recs = table_records(cells);
    lemma_max_row(cells);
    lemma_max_col(cells);
    assert forall|r: int| 0 <= r < recs.len()
        implies (#[trigger] recs[r]).len() >= 1 && forall|f: int|
        0 <= f < recs[r].len() ==> plain(#[trigger] recs[r][f]) by {
        let k = choose|k: int| 0 <= k < cells.len()
            && (#[trigger] cells[k]).y_loc == max_row(cells);
        assert(cells[k].x_loc >= 1);
        assert forall|f: int| 0 <= f < recs[r].len() implies plain(#[trigger] recs[r][f]) by {
            let x = (f + 1) as nat;
            let y = (r + 1) as nat;
            assert(recs[r][f] == content_at(cells, x, y));
            if occupied(cells, x, y) {
                lemma_occupied_has_first(cells, x, y);
                assert(plain(cells[index_at(cells, x, y)].contents));
            }
        }
    }
    theorem_read_write(recs);
    lemma_records_keep_text(cells);
}

impl Default for Document {
    /// A document without a file: one blank cell, which does not count as
    /// content.
    fn default() -> (doc: Document)
        ensures
            doc@ == (DocumentView {
                file_name: None,
                table: TableView {
                    cells: seq![blank_cell(1, 1)],
                    widest_cell_length: 0,
                    width_sum: 0,
                    cell_count: 0,
                },
                saved: false,
                last_action: None,
            }),
            doc.wf(),
    {
        let mut table = Table::new();
        table.add(Cell::blank(1, 1));
        table.cell_count = 0;
        let doc = Document { file_name: None, table, saved: false, last_action: None };
        assert(doc@.table.cells =~= seq![blank_cell(1, 1)]);
        doc
    }
}

impl Document {
    /// The grid holds what a grid may hold.
    pub open spec fn wf(&self) -> bool {
        self.table.wf()
    }

    /// The document of a file that was read: `records` are what the file's
    /// format gave, record by record and field by field.
    pub fn open(filename: &str, records: &Vec<Vec<String>>) -> (doc: Document)
        ensures
            doc@ == (DocumentView {
                file_name: Some(filename@),
                table: table_of(records.deep_view()),
                saved: true,
                last_action: None,
            }),
            doc.wf(),
    {
        Document {
            file_name: Some(filename.to_owned()),
            table: Table::from(records),
            saved: true,
            last_action: None,
        }
    }

    /// Whether no cell counts as content.
    pub fn is_empty(&self) -> (b: bool)
        ensures
            b == (self@.table.cell_count == 0),
    {
        self.table.cell_count == 0
    }

    /// Whether nothing has changed since the document was opened or saved.
    pub fn is_saved(&self) -> (b: bool)
        ensures
            b == self@.saved,
    {
        self.saved
    }

    /// How many cells count as content.
    pub fn len(&self) -> (n: usize)
        ensures
            n == self@.table.cell_count,
    {
        self.table.cell_count
    }

    /// Row `index` as it is shown: one cell per column of the grid in
    /// ascending column order, blank where no cell is stored.
    pub fn get_row(&self, index: usize) -> (row: Vec<Cell>)
        ensures
            row@.len() == self@.table.num_cols(),
            row@.map_values(|c: Cell| c@) == shown_row(self@.table.cells, index as nat),
            forall|i: int| 0 <= i < row@.len()
                ==> (#[trigger] row@[i]).x_loc == i + 1 && row@[i].y_loc == index,
    {
        self.table.get_row(index)
    }

    /// Adds a row of blank cells at `at.y`, where that is one past the
    /// last row. Any other row leaves the document as it is.
    pub fn insert_newrow(&mut self, at: &Position)
        ensures
            final(self)@ == old(self)@.insert_newrow(at.y as nat),
            old(self).wf() ==> final(self).wf(),
            at.y == old(self)@.table.num_rows() + 1 && old(self)@.table.num_cols() >= 1 ==> (
                final(self)@.table.num_rows() == old(self)@.table.num_rows() + 1
                && final(self)@.table.num_cols() == old(self)@.table.num_cols()),
    {
        let rows = self.table.num_rows();
        let cols = self.table.num_cols();
        if at.y >= 1 && at.y - 1 == rows {
            let ghost before = self.table@;
            for i in 0..cols
                invariant
                    self.table@ == before.grown(blank_row(i as nat, at.y as nat)),
                    self.file_name == old(self).file_name,
                    self.last_action == old(self).last_action,
            {
                self.table.add(Cell::blank(i + 1, at.y));
                proof {
                    assert(blank_row((i + 1) as nat, at.y as nat)
                        =~= blank_row(i as nat, at.y as nat).push(
                        blank_cell((i + 1) as nat, at.y as nat),
                    ));
                    assert(self.table@.cells
                        =~= before.cells + blank_row((i + 1) as nat, at.y as nat));
                }
            }
            self.saved = false;
        }
        proof {
            theorem_new_row(old(self)@, at.y as nat);
        }
    }

    /// Adds a column of blank cells at `at.x`, where that is one past the
    /// last column. Any other column leaves the document as it is.
    pub fn insert_newcol(&mut self, at: &Position)
        ensures
            final(self)@ == old(self)@.insert_newcol(at.x as nat),
            old(self).wf() ==> final(self).wf(),
            at.x == old(self)@.table.num_cols() + 1 && old(self)@.table.num_rows() >= 1 ==> (
                final(self)@.table.num_cols() == old(self)@.table.num_cols() + 1
                && final(self)@.table.num_rows() == old(self)@.table.num_rows()),
    {
        let rows = self.table.num_rows();
        let cols = self.table.num_cols();
        if at.x >= 1 && at.x - 1 == cols {
            let ghost before = self.table@;
            for j in 0..rows
                invariant
                    self.table@ == before.grown(blank_column(j as nat, at.x as nat)),
                    self.file_name == old(self).file_name,
                    self.last_action == old(self).last_action,
            {
                self.table.add(Cell::blank(at.x, j + 1));
                proof {
                    assert(blank_column((j + 1) as nat, at.x as nat) =~= blank_column(
                        j as nat,
                        at.x as nat,
                    ).push(blank_cell(at.x as nat, (j + 1) as nat)));
                    assert(self.table@.cells
                        =~= before.cells + blank_column((j + 1) as nat, at.x as nat));
                }
            }
            self.saved = false;
        }
        proof {
            theorem_new_col(old(self)@, at.x as nat);
        }
    }

    /// Selects the cell at `at` and no other.
    pub fn highlight(&mut self, at: &Position)
        ensures
            final(self)@ == (DocumentView {
                table: old(self)@.table.highlight(at.x as nat, at.y as nat),
                ..old(self)@
            }),
            old(self).wf() ==> final(self).wf(),
    {
        let n = self.table.cells.len();
        let ghost before = self.table@;
        for i in 0..n
            invariant
                n == before.cells.len(),
                before == old(self).table@,
                self.table@.cells.len() == n,
                forall|k: int| 0 <= k < i
                    ==> (#[trigger] self.table@.cells[k]) == before.cells[k].with_highlight(
                    before.cells[k].at(at.x as nat, at.y as nat),
                ),
                forall|k: int| i <= k < n ==> (#[trigger] self.table@.cells[k]) == before.cells[k],
                self.table.widest_cell_length == before.widest_cell_length,
                self.table.width_sum == before.width_sum,
                self.table.cell_count == before.cell_count,
                self.file_name == old(self).file_name,
                self.last_action == old(self).last_action,
                self.saved == old(self).saved,
        {
            let ghost current = self.table@.cells;
            if self.table.cells[i].x_loc == at.x && self.table.cells[i].y_loc == at.y {
                self.table.cells[i].highlight();
            } else {
                self.table.cells[i].unhighlight();
            }
            assert(self.table@.cells =~= current.update(
                i as int,
                current[i as int].with_highlight(current[i as int].at(at.x as nat, at.y as nat)),
            ));
        }
        proof {
            let after = self.table@.cells;
            assert(after =~= before.highlight(at.x as nat, at.y as nat).cells);
            if before.wf() {
                lemma_same_places(before.cells, after);
            }
        }
    }

    /// Selects the cell at `at` beside those that are selected.
    pub fn multi_highlight(&mut self, at: &Position)
        ensures
            final(self)@ == (DocumentView {
                table: old(self)@.table.multi_highlight(at.x as nat, at.y as nat),
                ..old(self)@
            }),
            old(self).wf() ==> final(self).wf(),
    {
        let n = self.table.cells.len();
        let ghost before = self.table@;
        for i in 0..n
            invariant
                n == before.cells.len(),
                before == old(self).table@,
                self.table@.cells.len() == n,
                forall|k: int| 0 <= k < i
                    ==> (#[trigger] self.table@.cells[k]) == (if before.cells[k].at(
                    at.x as nat,
                    at.y as nat,
                ) {
                    before.cells[k].with_highlight(true)
                } else {
                    before.cells[k]
                }),
                forall|k: int| i <= k < n ==> (#[trigger] self.table@.cells[k]) == before.cells[k],
                self.table.widest_cell_length == before.widest_cell_length,
                self.table.width_sum == before.width_sum,
                self.table.cell_count == before.cell_count,
                self.file_name == old(self).file_name,
                self.last_action == old(self).last_action,
                self.saved == old(self).saved,
        {
            let ghost current = self.table@.cells;
            if self.table.cells[i].x_loc == at.x && self.table.cells[i].y_loc == at.y {
                self.table.cells[i].highlight();
                assert(self.table@.cells
                    =~= current.update(i as int, current[i as int].with_highlight(true)));
            }
        }
        proof {
            let after = self.table@.cells;
            assert(after =~= before.multi_highlight(at.x as nat, at.y as nat).cells);
            if before.wf() {
                lemma_same_places(before.cells, after);
            }
        }
    }

    /// A snapshot of the selected cells, in the order of the grid. The
    /// document is left as it is.
    pub fn copy(&self) -> (clipboard: Vec<Cell>)
        ensures
            clipboard@.map_values(|c: Cell| c@) == selected(self@.table.cells),
    {
        self.get_highlight_cells()
    }

    /// The selected cells, in the order of the grid.
    pub fn get_highlight_cells(&self) -> (cells: Vec<Cell>)
        ensures
            cells@.map_values(|c: Cell| c@) == selected(self@.table.cells),
    {
        let mut cells: Vec<Cell> = Vec::new();
        let n = self.table.cells.len();
        let ghost all = self@.table.cells;
        for i in 0..n
            invariant
                n == all.len(),
                all == self@.table.cells,
                cells@.map_values(|c: Cell| c@) == selected(all.take(i as int)),
        {
            let ghost before = cells@.map_values(|c: Cell| c@);
            assert(all.take(i + 1).drop_last() =~= all.take(i as int));
            if self.table.cells[i].highlighted {
                cells.push(self.table.cells[i].clone());
                assert(cells@.map_values(|c: Cell| c@) =~= before.push(all[i as int]));
            }
        }
        assert(all.take(n as int) =~= all);
        cells
    }

    /// Writes `line` at `at`, into a new cell where none is stored there,
    /// and records what was shown there before.
    pub fn insert(&mut self, at: &Position, line: &str)
        ensures
            final(self)@ == old(self)@.insert(at.x as nat, at.y as nat, line@),
            old(self).wf() ==> final(self).wf(),
    {
        let mut affected: Vec<Cell> = Vec::new();
        if self.table.find(at.x, at.y).is_some() || (at.x >= 1 && at.y >= 1) {
            affected.push(self.table.cell_at(*at));
        }
        proof {
            let cells = self.table@.cells;
            if occupied(cells, at.x as nat, at.y as nat) {
                lemma_occupied_has_first(cells, at.x as nat, at.y as nat);
            }
            if writes_at(cells, at.x as nat, at.y as nat) {
                assert(affected@.map_values(|c: Cell| c@)
                    =~= seq![cell_at(cells, at.x as nat, at.y as nat)]);
            } else {
                assert(affected@.map_values(|c: Cell| c@) =~= Seq::<CellView>::empty());
            }
        }
        self.table.put(*at, line);
        self.saved = false;
        self.last_action = Some(Action { key: Trigger::Insert, cells_affected: affected });
    }

    /// Clears every selected cell and records them as they were.
    pub fn delete(&mut self)
        ensures
            final(self)@ == old(self)@.delete(),
            old(self).wf() ==> final(self).wf(),
    {
        let affected = self.get_highlight_cells();
        let n = self.table.cells.len();
        let ghost before = self.table@;
        for i in 0..n
            invariant
                n == before.cells.len(),
                before == old(self).table@,
                self.table@.cells.len() == n,
                forall|k: int| 0 <= k < i
                    ==> (#[trigger] self.table@.cells[k]) == (if before.cells[k].highlighted {
                    before.cells[k].cleared()
                } else {
                    before.cells[k]
                }),
                forall|k: int| i <= k < n ==> (#[trigger] self.table@.cells[k]) == before.cells[k],
                self.table.widest_cell_length == before.widest_cell_length,
                self.table.width_sum == before.width_sum,
                self.table.cell_count == before.cell_count,
                self.file_name == old(self).file_name,
        {
            let ghost current = self.table@.cells;
            if self.table.cells[i].highlighted {
                self.table.cells[i].edit_content(String::new());
                assert(self.table@.cells =~= current.update(i as int, current[i as int].cleared()));
            }
        }
        proof {
            let after = self.table@.cells;
            assert(after =~= old(self)@.delete().table.cells);
            if before.wf() {
                lemma_same_places(before.cells, after);
            }
        }
        self.saved = false;
        self.last_action = Some(Action { key: Trigger::Delete, cells_affected: affected });
    }

    /// Pastes `cells` with the first of them at `at`, entry by entry, and
    /// records what was shown at each destination before it was written.
    pub fn paste(&mut self, at: &Position, cells: &Vec<Cell>)
        ensures
            final(self)@
                == old(self)@.paste(at.x as nat, at.y as nat, cells@.map_values(|c: Cell| c@)),
            old(self).wf() ==> final(self).wf(),
    {
        let ghost clipboard = cells@.map_values(|c: Cell| c@);
        let ghost before = self.table@;
        let n = cells.len();
        let mut x = if at.x == 0 { 1 } else { at.x };
        let mut y = if at.y == 0 { 1 } else { at.y };
        let ghost ax = x as nat;
        let ghost ay = y as nat;
        let mut prev_x: usize = if n > 0 { cells[0].x_loc } else { 0 };
        let mut prev_y: usize = if n > 0 { cells[0].y_loc } else { 0 };
        let ghost px = prev_x as nat;
        let ghost py = prev_y as nat;
        let mut affected: Vec<Cell> = Vec::new();
        assert(clipboard.skip(0) =~= clipboard);
        assert(affected@.map_values(|c: Cell| c@) =~= Seq::<CellView>::empty());
        for i in 0..n
            invariant
                n == cells@.len(),
                clipboard == cells@.map_values(|c: Cell| c@),
                old(self).wf() ==> self.table.wf(),
                paste_from(
                    self.table@,
                    affected@.map_values(|c: Cell| c@),
                    x as nat,
                    y as nat,
                    prev_x as nat,
                    prev_y as nat,
                    clipboard.skip(i as int),
                ) == paste_from(before, Seq::empty(), ax, ay, px, py, clipboard),
                self.file_name == old(self).file_name,
        {
            let ghost log = affected@.map_values(|c: Cell| c@);
            let ghost rest = clipboard.skip(i as int);
            let cell = &cells[i];
            if cell.x_loc > prev_x {
                x = x.saturating_add(1);
            } else if cell.y_loc > prev_y {
                y = y.saturating_add(1);
            }
            let prior = self.table.cell_at(Position { x, y });
            affected.push(prior);
            self.table.put(Position { x, y }, cell.contents.as_str());
            prev_x = cell.x_loc;
            prev_y = cell.y_loc;
            proof {
                assert(rest[0] == clipboard[i as int]);
                assert(rest.drop_first() =~= clipboard.skip(i + 1));
                assert(affected@.map_values(|c: Cell| c@) =~= log.push(prior@));
            }
        }
        proof {
            assert(clipboard.skip(n as int).len() == 0);
        }
        self.saved = false;
        self.last_action = Some(Action { key: Trigger::Paste, cells_affected: affected });
    }

    /// Takes back the last mutating command: writes back what its record
    /// holds, the last entry first, and drops the record. Without a record
    /// nothing happens.
    pub fn undo(&mut self)
        ensures
            final(self)@ == old(self)@.undo(),
            old(self).wf() ==> final(self).wf(),
    {
        match self.last_action.take() {
            Some(action) => {
                let ghost before = self.table@;
                let ghost log = action@.cells_affected;
                let n = action.cells_affected.len();
                let mut i = n;
                assert(log.skip(n as int) =~= Seq::<CellView>::empty());
                while i > 0
                    invariant
                        i <= n,
                        n == action.cells_affected@.len(),
                        log == action@.cells_affected,
                        old(self).wf() ==> self.table.wf(),
                        self.table@ == replay(before, log.skip(i as int)),
                        self.file_name == old(self).file_name,
                        self.last_action is None,
                    decreases i,
                {
                    i -= 1;
                    let cell = &action.cells_affected[i];
                    self.table.put(Position { x: cell.x_loc, y: cell.y_loc },
                        cell.contents.as_str());
                    proof {
                        assert(log.skip(i as int)[0] == log[i as int]);
                        assert(log.skip(i as int).drop_first() =~= log.skip(i + 1));
                    }
                }
                assert(log.skip(0) =~= log);
                self.saved = false;
            },
            None => {},
        }
    }

    /// Prepares the document to be saved: gives the name of the file and
    /// the text to write to it, and none where the document has no name. A
    /// name of a foreign format is replaced, for this and every later
    /// save, by the name that ends in `.csv`.
    pub fn save(&mut self) -> (image: Option<FileImage>)
        ensures
            final(self)@ == (DocumentView {
                file_name: match old(self)@.file_name {
                    Some(name) => Some(save_name(name)),
                    None => None,
                },
                ..old(self)@
            }),
            (match old(self)@.file_name {
                Some(name) => image matches Some(file) && file.path@ == save_name(name)
                    && file.contents@ == written(table_records(old(self)@.table.cells)),
                None => image is None,
            }),
            old(self).wf() ==> final(self).wf(),
    {
        match &self.file_name {
            Some(name) => {
                let path = save_path(name.as_str());
                let contents = crate::delimited::write(&self.table.records());
                self.file_name = Some(path.clone());
                Some(FileImage { path, contents })
            },
            None => None,
        }
    }

    /// Notes that what `save` prepared has been written.
    pub fn mark_saved(&mut self)
        ensures
            final(self)@ == (DocumentView { saved: true, ..old(self)@ }),
            old(self).wf() ==> final(self).wf(),
    {
        self.saved = true;
    }
}

/// The format that the file `name` is read as.
pub fn source_format(name: &str) -> (format: SourceFormat)
    ensures
        format == format_of(name@),
{
    let chars = to_chars(name);
    if ends_with(&chars, &to_chars(".ods")) {
        SourceFormat::ZippedXml
    } else if ends_with(&chars, &to_chars(".xlsx")) || ends_with(&chars, &to_chars(".xls")) {
        SourceFormat::Workbook
    } else {
        SourceFormat::Delimited
    }
}

/// The name under which a document of the name `name` is saved.
pub fn save_path(name: &str) -> (path: String)
    ensures
        path@ == save_name(name@),
{
    let chars = to_chars(name);
    let n = chars.len();
    let xlsx = to_chars(".xlsx");
    let xls = to_chars(".xls");
    let ods = to_chars(".ods");
    let cut = if ends_with(&chars, &xlsx) {
        Some(xlsx.len())
    } else if ends_with(&chars, &xls) {
        Some(xls.len())
    } else if ends_with(&chars, &ods) {
        Some(ods.len())
    } else {
        None
    };
    match cut {
        Some(m) => {
            let mut path = string_from(&chars, 0, n - m);
            path.append(".csv");
            assert(chars@.subrange(0, n - m) =~= name@.take(n - m));
            path
        },
        None => name.to_owned(),
    }
}

} // verus!
