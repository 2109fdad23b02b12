//! Cells and the grid that holds them.

use crate::delimited::records;
use crate::editor::Position;
use crate::grid::{
    all_distinct, all_placed, capped, cell_at, column_width, content_at, decimal_digits,
    grid_cells, is_first_at, larger, lemma_cell_at_stands, lemma_first_at, lemma_grid_cells_wf,
    lemma_push_wf, lemma_put_wf, max_col, max_row, occupied, row_cells, row_fields, shown_row,
    summary_operands, table_records, total_width, widest, with_text,
};
use crate::text::strip_white_space;
use crate::width::{measure, width_of};
use vstd::prelude::*;
use vstd::string::StrSliceExecFns;

verus! {

/// Terminal columns.
pub type Width = usize;

/// One addressable unit of text in the grid.
#[derive(Debug)]
pub struct Cell {
    pub contents: String,
    pub width: Width,
    pub x_loc: usize,
    pub y_loc: usize,
    pub highlighted: bool,
}

/// What a cell holds, as mathematical values.
pub struct CellView {
    pub contents: Seq<char>,
    pub width: nat,
    pub x_loc: nat,
    pub y_loc: nat,
    pub highlighted: bool,
}

impl CellView {
    /// The cell stands at column `x` of row `y`.
    pub open spec fn at(self, x: nat, y: nat) -> bool {
        self.x_loc == x && self.y_loc == y
    }

    /// The same cell with other text, measured anew.
    pub open spec fn with_contents(self, text: Seq<char>) -> CellView {
        CellView { contents: text, width: width_of(text), ..self }
    }

    /// The same cell without text.
    pub open spec fn cleared(self) -> CellView {
        self.with_contents(Seq::empty())
    }

    /// The same cell with its selection flag set to `flag`.
    pub open spec fn with_highlight(self, flag: bool) -> CellView {
        CellView { highlighted: flag, ..self }
    }
}

/// A cell without text and without selection at column `x` of row `y`.
pub open spec fn blank_cell(x: nat, y: nat) -> CellView {
    text_cell(Seq::empty(), x, y)
}

/// The cell that holds `text` at column `x` of row `y`, not selected.
pub open spec fn text_cell(text: Seq<char>, x: nat, y: nat) -> CellView {
    CellView { contents: text, width: width_of(text), x_loc: x, y_loc: y, highlighted: false }
}

impl View for Cell {
    type V = CellView;

    open spec fn view(&self) -> CellView {
        CellView {
            contents: self.contents@,
            width: self.width as nat,
            x_loc: self.x_loc as nat,
            y_loc: self.y_loc as nat,
            highlighted: self.highlighted,
        }
    }
}

impl Clone for Cell {
    fn clone(&self) -> (c: Cell)
        ensures
            c == *self,
    {
        Cell {
            contents: self.contents.clone(),
            width: self.width,
            x_loc: self.x_loc,
            y_loc: self.y_loc,
            highlighted: self.highlighted,
        }
    }
}

impl PartialEq for Cell {
    fn eq(&self, other: &Cell) -> (equal: bool) {
        self.contents == other.contents && self.width == other.width && self.x_loc == other.x_loc
            && self.y_loc == other.y_loc && self.highlighted == other.highlighted
    }
}

impl vstd::std_specs::cmp::PartialEqSpecImpl for Cell {
    open spec fn obeys_eq_spec() -> bool {
        true
    }

    /// Two cells are equal where they hold the same.
    open spec fn eq_spec(&self, other: &Cell) -> bool {
        self@ == other@
    }
}

impl Cell {
    /// A cell that holds `text` and is not yet placed in a grid.
    pub fn from(text: &str) -> (cell: Cell)
        ensures
            cell@ == text_cell(text@, 0, 0),
    {
        let width = measure(text);
        Cell { contents: text.to_owned(), width, x_loc: 0, y_loc: 0, highlighted: false }
    }

    /// A cell without text at column `x` of row `y`.
    pub fn blank(x: usize, y: usize) -> (cell: Cell)
        ensures
            cell@ == blank_cell(x as nat, y as nat),
    {
        let contents = String::new();
        let width = measure(contents.as_str());
        Cell { contents, width, x_loc: x, y_loc: y, highlighted: false }
    }

    /// By how many columns this cell is wider than `maximum_width`, plus one.
    pub fn filling_width(self, maximum_width: Width) -> (w: Width)
        requires
            maximum_width <= self.width,
            self.width - maximum_width < usize::MAX,
        ensures
            w == self.width - maximum_width + 1,
    {
        self.width - maximum_width + 1
    }

    /// Replaces the text and measures it anew.
    pub fn edit_content(&mut self, new_content: String)
        ensures
            final(self)@ == old(self)@.with_contents(new_content@),
    {
        self.width = measure(new_content.as_str());
        self.contents = new_content;
    }

    /// Marks the cell as selected.
    pub fn highlight(&mut self)
        ensures
            final(self)@ == old(self)@.with_highlight(true),
    {
        self.highlighted = true;
    }

    /// Marks the cell as not selected.
    pub fn unhighlight(&mut self)
        ensures
            final(self)@ == old(self)@.with_highlight(false),
    {
        self.highlighted = false;
    }

    /// Gives up the cell for its text.
    pub fn get_content(self) -> (text: String)
        ensures
            text@ == self@.contents,
    {
        self.contents
    }
}

/// The grid: the cells of one document, in the order in which they were
/// stored, with the aggregates that layout uses.
#[derive(Debug)]
pub struct Table {
    pub cells: Vec<Cell>,
    /// The largest width among the cells as they were when they were stored.
    pub widest_cell_length: Width,
    /// The widths of the cells as they were when they were stored, added up.
    pub width_sum: Width,
    /// How many cells ingestion and growth have stored.
    pub cell_count: usize,
}

/// What a grid holds, as mathematical values.
pub struct TableView {
    pub cells: Seq<CellView>,
    pub widest_cell_length: nat,
    pub width_sum: nat,
    pub cell_count: nat,
}

impl TableView {
    /// Every cell is placed, no two share a coordinate, the count of cells
    /// does not exceed what is stored, and the total of the widths is one
    /// that a width can hold.
    pub open spec fn wf(self) -> bool {
        &&& all_placed(self.cells)
        &&& all_distinct(self.cells)
        &&& self.cell_count <= self.cells.len()
        &&& self.width_sum <= usize::MAX
    }

    /// The grid with `cell` stored behind the others. The total of the
    /// widths and the count of cells stop at the largest number that they
    /// can hold.
    pub open spec fn add(self, cell: CellView) -> TableView {
        TableView {
            cells: self.cells.push(cell),
            widest_cell_length: larger(self.widest_cell_length, cell.width),
            width_sum: capped(self.width_sum + cell.width),
            cell_count: capped(self.cell_count + 1),
        }
    }

    /// The grid after `text` was written at column `x` of row `y`: into the
    /// cell stored there, or into a new cell where none is stored. Nothing
    /// is written at a coordinate with a column or row of 0.
    pub open spec fn put(self, x: nat, y: nat, text: Seq<char>) -> TableView {
        if occupied(self.cells, x, y) {
            TableView { cells: with_text(self.cells, x, y, text), ..self }
        } else if x >= 1 && y >= 1 {
            self.add(text_cell(text, x, y))
        } else {
            self
        }
    }

    /// The number of rows: the largest row index present.
    pub open spec fn num_rows(self) -> nat {
        max_row(self.cells)
    }

    /// The number of columns: the largest column index present.
    pub open spec fn num_cols(self) -> nat {
        max_col(self.cells)
    }

    /// The grid with `cells` stored behind the others, where all of them
    /// are blank. The count of cells stops at the largest number that it can
    /// hold.
    pub open spec fn grown(self, cells: Seq<CellView>) -> TableView {
        TableView {
            cells: self.cells + cells,
            cell_count: capped(self.cell_count + cells.len()),
            ..self
        }
    }

    /// The grid in which exactly the cell at column `x` of row `y` is
    /// selected.
    pub open spec fn highlight(self, x: nat, y: nat) -> TableView {
        TableView { cells: self.cells.map_values(|c: CellView| c.with_highlight(c.at(x, y))),
            ..self }
    }

    /// The grid in which the cell at column `x` of row `y` is selected
    /// beside those that were.
    pub open spec fn multi_highlight(self, x: nat, y: nat) -> TableView {
        TableView {
            cells: self.cells.map_values(
                |c: CellView|
                    if c.at(x, y) {
                        c.with_highlight(true)
                    } else {
                        c
                    },
            ),
            ..self
        }
    }

    /// The grid in which the cells of column `x` in the rows `first..=last`
    /// are selected beside those that were.
    pub open spec fn highlight_rows(self, x: nat, first: nat, last: nat) -> TableView {
        TableView {
            cells: self.cells.map_values(
                |c: CellView|
                    if c.x_loc == x && first <= c.y_loc <= last {
                        c.with_highlight(true)
                    } else {
                        c
                    },
            ),
            ..self
        }
    }

    /// The grid in which the cells of row `y` in the columns `first..=last`
    /// are selected beside those that were.
    pub open spec fn highlight_cols(self, y: nat, first: nat, last: nat) -> TableView {
        TableView {
            cells: self.cells.map_values(
                |c: CellView|
                    if c.y_loc == y && first <= c.x_loc <= last {
                        c.with_highlight(true)
                    } else {
                        c
                    },
            ),
            ..self
        }
    }

    /// The grid in which exactly the cell at column `x` of row `y` and the
    /// cells of `block` are selected.
    pub open spec fn select(self, x: nat, y: nat, block: Block) -> TableView {
        TableView {
            cells: self.cells.map_values(|c: CellView| c.with_highlight(c.at(x, y)
                || block.holds(c))),
            ..self
        }
    }
}

/// A rectangle of coordinates: the columns `x0..=x1` in the rows `y0..=y1`.
pub struct Block {
    pub x0: nat,
    pub y0: nat,
    pub x1: nat,
    pub y1: nat,
}

impl Block {
    /// The cell stands within the rectangle.
    pub open spec fn holds(self, c: CellView) -> bool {
        self.x0 <= c.x_loc <= self.x1 && self.y0 <= c.y_loc <= self.y1
    }
}

/// A new row `y`: one blank cell per column, in ascending column order.
pub open spec fn blank_row(columns: nat, y: nat) -> Seq<CellView> {
    Seq::new(columns, |i: int| blank_cell((i + 1) as nat, y))
}

/// A new column `x`: one blank cell per row, in ascending row order.
pub open spec fn blank_column(rows: nat, x: nat) -> Seq<CellView> {
    Seq::new(rows, |j: int| blank_cell(x, (j + 1) as nat))
}

/// The grid that ingestion builds of `records`.
pub open spec fn table_of(records: Seq<Seq<Seq<char>>>) -> TableView {
    let cells = grid_cells(records);
    TableView {
        cells,
        widest_cell_length: widest(cells),
        width_sum: capped(total_width(cells)),
        cell_count: cells.len(),
    }
}

impl View for Table {
    type V = TableView;

    open spec fn view(&self) -> TableView {
        TableView {
            cells: self.cells@.map_values(|c: Cell| c@),
            widest_cell_length: self.widest_cell_length as nat,
            width_sum: self.width_sum as nat,
            cell_count: self.cell_count as nat,
        }
    }
}

impl Default for Table {
    /// A grid without cells.
    fn default() -> (table: Table)
        ensures
            table@ == table_of(Seq::empty()),
            table.wf(),
    {
        Table::new()
    }
}

impl PartialEq for Table {
    fn eq(&self, other: &Table) -> (equal: bool) {
        if self.widest_cell_length != other.widest_cell_length || self.width_sum != other.width_sum
            || self.cell_count != other.cell_count || self.cells.len() != other.cells.len() {
            assert(self@.cells.len() == self.cells@.len()
                && other@.cells.len() == other.cells@.len());
            return false;
        }
        let n = self.cells.len();
        for i in 0..n
            invariant
                n == self.cells@.len(),
                n == other.cells@.len(),
                forall|j: int| 0 <= j < i ==> self@.cells[j] == other@.cells[j],
        {
            if !(self.cells[i] == other.cells[i]) {
                assert(self@.cells[i as int] != other@.cells[i as int]);
                return false;
            }
        }
        assert(self@.cells =~= other@.cells);
        true
    }
}

impl vstd::std_specs::cmp::PartialEqSpecImpl for Table {
    open spec fn obeys_eq_spec() -> bool {
        true
    }

    /// Two grids are equal where they hold the same.
    open spec fn eq_spec(&self, other: &Table) -> bool {
        self@ == other@
    }
}

impl Table {
    /// The grid holds what a grid may hold: see `TableView::wf`.
    pub open spec fn wf(&self) -> bool {
        self@.wf()
    }

    /// A grid without cells.
    pub fn new() -> (table: Table)
        ensures
            table@ == table_of(Seq::empty()),
            table.wf(),
    {
        let cells = Vec::new();
        let table = Table { cells, widest_cell_length: 0, width_sum: 0, cell_count: 0 };
        assert(table@.cells =~= Seq::<CellView>::empty());
        assert(grid_cells(Seq::empty()) =~= Seq::<CellView>::empty());
        table
    }

    /// The terminal width that column `x_loc` takes.
    pub fn column_width(&self, x_loc: usize) -> (w: Width)
        ensures
            w == column_width(self@.cells, x_loc as nat),
    {
        let mut width: usize = 0;
        let n = self.cells.len();
        for i in 0..n
            invariant
                n == self.cells@.len(),
                width == column_width(self@.cells.take(i as int), x_loc as nat),
        {
            assert(self@.cells.take(i + 1).drop_last() =~= self@.cells.take(i as int));
            let cell = &self.cells[i];
            if cell.x_loc == x_loc {
                if cell.width > width {
                    width = cell.width;
                }
            }
        }
        assert(self@.cells.take(n as int) =~= self@.cells);
        width
    }

    /// The number of rows: the largest row index present.
    pub fn num_rows(&self) -> (n: usize)
        ensures
            n == max_row(self@.cells),
    {
        let mut num_line: usize = 0;
        let n = self.cells.len();
        for i in 0..n
            invariant
                n == self.cells@.len(),
                num_line == max_row(self@.cells.take(i as int)),
        {
            assert(self@.cells.take(i + 1).drop_last() =~= self@.cells.take(i as int));
            if self.cells[i].y_loc > num_line {
                num_line = self.cells[i].y_loc;
            }
        }
        assert(self@.cells.take(n as int) =~= self@.cells);
        num_line
    }

    /// The number of columns: the largest column index present.
    pub fn num_cols(&self) -> (n: usize)
        ensures
            n == max_col(self@.cells),
    {
        let mut num_col: usize = 0;
        let n = self.cells.len();
        for i in 0..n
            invariant
                n == self.cells@.len(),
                num_col == max_col(self@.cells.take(i as int)),
        {
            assert(self@.cells.take(i + 1).drop_last() =~= self@.cells.take(i as int));
            if self.cells[i].x_loc > num_col {
                num_col = self.cells[i].x_loc;
            }
        }
        assert(self@.cells.take(n as int) =~= self@.cells);
        num_col
    }

    /// The text at `at`, and no text where no cell is stored there.
    pub fn get_content_from(&self, at: Position) -> (text: String)
        ensures
            text@ == content_at(self@.cells, at.x as nat, at.y as nat),
    {
        match self.find(at.x, at.y) {
            Some(i) => {
                proof {
                    lemma_first_at(self@.cells, at.x as nat, at.y as nat, i as int);
                }
                self.cells[i].contents.clone()
            },
            None => String::new(),
        }
    }

    /// By how many columns `cell_width` exceeds `maximum_width`.
    pub fn filling_width(&self, maximum_width: Width, cell_width: Width) -> (w: Width)
        requires
            maximum_width <= cell_width,
        ensures
            w == cell_width - maximum_width,
    {
        cell_width - maximum_width
    }

    /// Stores `cell` behind the cells that are there and updates the
    /// aggregates. The grid stays well formed where the cell is placed at a
    /// coordinate at which no cell is stored.
    pub fn add(&mut self, cell: Cell)
        ensures
            final(self)@ == old(self)@.add(cell@),
            old(self).wf() && cell.x_loc >= 1 && cell.y_loc >= 1 && !occupied(
                old(self)@.cells,
                cell.x_loc as nat,
                cell.y_loc as nat,
            ) ==> final(self).wf(),
    {
        if cell.width > self.widest_cell_length {
            self.widest_cell_length = cell.width;
        }
        self.width_sum = self.width_sum.saturating_add(cell.width);
        self.cell_count = self.cell_count.saturating_add(1);
        let ghost before = self@.cells;
        let ghost added = cell@;
        self.cells.push(cell);
        proof {
            assert(self@.cells =~= before.push(added));
            if old(self).wf() && added.x_loc >= 1 && added.y_loc >= 1 && !occupied(
                before,
                added.x_loc,
                added.y_loc,
            ) {
                lemma_push_wf(before, added);
            }
        }
    }

    /// The grid of the given records: record `r` gives row `r`, and its
    /// field `f` gives column `f`, both counted from 1.
    pub fn from(records: &Vec<Vec<String>>) -> (table: Table)
        ensures
            table@ == table_of(records.deep_view()),
            table.wf(),
    {
        let ghost recs = records.deep_view();
        let mut table = Table::new();
        let rows = records.len();
        for y in 0..rows
            invariant
                rows == records@.len(),
                recs == records.deep_view(),
                table@.cells == grid_cells(recs.take(y as int)),
                table.widest_cell_length == widest(table@.cells),
                table.width_sum == capped(total_width(table@.cells)),
                table.cell_count == table@.cells.len(),
        {
            let record = &records[y];
            let fields = record.len();
            let ghost done = table@.cells;
            for x in 0..fields
                invariant
                    y < rows,
                    rows == records@.len(),
                    recs == records.deep_view(),
                    record == records@[y as int],
                    fields == record@.len(),
                    done == grid_cells(recs.take(y as int)),
                    table@.cells == done + row_cells(recs[y as int], (y + 1) as nat).take(x as int),
                    table.widest_cell_length == widest(table@.cells),
                    table.width_sum == capped(total_width(table@.cells)),
                    table.cell_count == table@.cells.len(),
            {
                let ghost before = table@;
                let mut cell = Cell::from(record[x].as_str());
                cell.x_loc = x + 1;
                cell.y_loc = y + 1;
                let ghost added = cell@;
                table.add(cell);
                proof {
                    let row = row_cells(recs[y as int], (y + 1) as nat);
                    assert(recs[y as int][x as int] == record@[x as int]@);
                    assert(added == row[x as int]);
                    assert(row.take(x + 1) =~= row.take(x as int).push(row[x as int]));
                    assert(table@.cells =~= done + row.take(x + 1));
                    assert(table@.cells.drop_last() =~= before.cells);
                    assert(table.cells@.len() == table.cells.len());
                }
            }
            proof {
                let row = row_cells(recs[y as int], (y + 1) as nat);
                assert(row.take(fields as int) =~= row);
                assert(recs.take(y + 1).drop_last() =~= recs.take(y as int));
                assert(recs.take(y + 1).last() == recs[y as int]);
            }
        }
        proof {
            assert(recs.take(rows as int) =~= recs);
            lemma_grid_cells_wf(recs);
        }
        table
    }

    /// The index of the first cell stored for column `x` of row `y`.
    pub fn find(&self, x: usize, y: usize) -> (found: Option<usize>)
        ensures
            (match found {
                Some(i) => is_first_at(self@.cells, x as nat, y as nat, i as int),
                None => !occupied(self@.cells, x as nat, y as nat),
            }),
    {
        let n = self.cells.len();
        for i in 0..n
            invariant
                n == self.cells@.len(),
                forall|j: int| 0 <= j < i ==> !(#[trigger] self@.cells[j].at(x as nat, y as nat)),
        {
            if self.cells[i].x_loc == x && self.cells[i].y_loc == y {
                assert(self@.cells[i as int].at(x as nat, y as nat));
                return Some(i);
            }
        }
        None
    }

    /// What is shown at `at`: a copy of the cell stored there, and a blank
    /// cell where none is stored.
    pub fn cell_at(&self, at: Position) -> (cell: Cell)
        ensures
            cell@ == cell_at(self@.cells, at.x as nat, at.y as nat),
    {
        match self.find(at.x, at.y) {
            Some(k) => {
                proof {
                    lemma_first_at(self@.cells, at.x as nat, at.y as nat, k as int);
                }
                self.cells[k].clone()
            },
            None => Cell::blank(at.x, at.y),
        }
    }

    /// Row `y` as it is shown: one cell per column of the grid in ascending
    /// column order, blank where no cell is stored.
    pub fn get_row(&self, y: usize) -> (row: Vec<Cell>)
        ensures
            row@.len() == max_col(self@.cells),
            row@.map_values(|c: Cell| c@) == shown_row(self@.cells, y as nat),
            forall|i: int| 0 <= i < row@.len()
                ==> (#[trigger] row@[i]).x_loc == i + 1 && row@[i].y_loc == y,
    {
        let ncols = self.num_cols();
        let mut row: Vec<Cell> = Vec::new();
        for i in 0..ncols
            invariant
                ncols == max_col(self@.cells),
                row@.len() == i,
                forall|k: int| 0 <= k < i
                    ==> (#[trigger] row@[k])@ == cell_at(self@.cells, (k + 1) as nat, y as nat),
                forall|k: int| 0 <= k < i
                    ==> (#[trigger] row@[k]).x_loc == k + 1 && row@[k].y_loc == y,
        {
            proof {
                lemma_cell_at_stands(self@.cells, (i + 1) as nat, y as nat);
            }
            row.push(self.cell_at(Position { x: i + 1, y }));
        }
        assert(row@.map_values(|c: Cell| c@) =~= shown_row(self@.cells, y as nat));
        row
    }

    /// The records of the grid: one per row, each with one field per column.
    pub fn records(&self) -> (records: Vec<Vec<String>>)
        ensures
            records.deep_view() == table_records(self@.cells),
    {
        let nrows = self.num_rows();
        let ncols = self.num_cols();
        let mut records: Vec<Vec<String>> = Vec::new();
        for j in 0..nrows
            invariant
                nrows == max_row(self@.cells),
                ncols == max_col(self@.cells),
                records@.len() == j,
                forall|r: int| 0 <= r < j
                    ==> (#[trigger] records@[r]).deep_view()
                        == row_fields(self@.cells, (r + 1) as nat),
        {
            let mut fields: Vec<String> = Vec::new();
            for i in 0..ncols
                invariant
                    j < nrows,
                    ncols == max_col(self@.cells),
                    fields@.len() == i,
                    forall|f: int| 0 <= f < i
                        ==> (#[trigger] fields@[f])@
                            == content_at(self@.cells, (f + 1) as nat, (j + 1) as nat),
            {
                let text = self.get_content_from(Position { x: i + 1, y: j + 1 });
                fields.push(text);
            }
            assert(fields.deep_view() =~= row_fields(self@.cells, (j + 1) as nat));
            records.push(fields);
        }
        assert(records.deep_view() =~= table_records(self@.cells));
        records
    }

    /// The width of a shown row: the total of the widths, two columns of
    /// separator per column of the grid, the digits of the largest row
    /// number, and one more.
    pub fn row_width(&self) -> (w: Width)
        requires
            self.width_sum + 2 * max_col(self@.cells) + decimal_digits(max_row(self@.cells)) + 1
                <= usize::MAX,
        ensures
            w == self.width_sum + 2 * max_col(self@.cells) + decimal_digits(max_row(self@.cells))
                + 1,
    {
        let digits = count_digits(self.num_rows());
        self.width_sum + 2 * self.num_cols() + digits + 1
    }

    /// Writes `text` at `at`: into the cell stored there, or into a new cell
    /// where none is stored. A coordinate with a column or row of 0 is
    /// outside every grid, and nothing is written there.
    pub fn put(&mut self, at: Position, text: &str)
        ensures
            final(self)@ == old(self)@.put(at.x as nat, at.y as nat, text@),
            old(self).wf() ==> final(self).wf(),
    {
        proof {
            if old(self).wf() {
                lemma_put_wf(old(self)@, at.x as nat, at.y as nat, text@);
            }
        }
        match self.find(at.x, at.y) {
            Some(i) => {
                let ghost before = self@.cells;
                proof {
                    lemma_first_at(before, at.x as nat, at.y as nat, i as int);
                }
                self.cells[i].edit_content(text.to_owned());
                assert(self@.cells
                    =~= before.update(i as int, before[i as int].with_contents(text@)));
            },
            None => {
                if at.x >= 1 && at.y >= 1 {
                    let mut cell = Cell::from(text);
                    cell.x_loc = at.x;
                    cell.y_loc = at.y;
                    self.add(cell);
                }
            },
        }
    }

    /// The texts that a summary of the selection is computed of: the text
    /// of each selected cell without its white space, in the order of the
    /// grid. A cell that holds nothing but white space is left out.
    pub fn summary_operands(&self) -> (operands: Vec<String>)
        ensures
            operands.deep_view() == summary_operands(self@.cells),
    {
        let mut operands: Vec<String> = Vec::new();
        let n = self.cells.len();
        let ghost all = self@.cells;
        for i in 0..n
            invariant
                n == all.len(),
                all == self@.cells,
                operands.deep_view() == summary_operands(all.take(i as int)),
        {
            let ghost before = operands.deep_view();
            assert(all.take(i + 1).drop_last() =~= all.take(i as int));
            if self.cells[i].highlighted {
                let text = strip_white_space(self.cells[i].contents.as_str());
                if text.as_str().unicode_len() > 0 {
                    operands.push(text);
                    assert(operands.deep_view() =~= before.push(text@));
                }
            }
        }
        assert(all.take(n as int) =~= all);
        operands
    }
}

/// How many decimal digits write `n`.
pub fn count_digits(n: usize) -> (digits: usize)
    ensures
        digits == decimal_digits(n as nat),
{
    let mut rest = n;
    let mut digits: usize = 1;
    while rest >= 10
        invariant
            digits + decimal_digits(rest as nat) == decimal_digits(n as nat) + 1,
            digits + rest <= n + 1,
        decreases rest,
    {
        rest = rest / 10;
        digits += 1;
    }
    digits
}

} // verus!
