//! What is drawn of the grid: the cells of a row and the headings of the
//! columns, from the scroll offset on, as far as the terminal is wide.

use crate::editor::{column_letter, num_to_let, Editor};
use crate::grid::{cell_at, column_width, decimal_digits, lemma_first_at, max_col, widest};
use crate::table::{count_digits, CellView};
use vstd::prelude::*;

verus! {

/// The columns that the separator behind a drawn cell takes.
pub const CELL_SEPARATOR_WIDTH: usize = 3;

/// One cell as it is drawn: its text, then blanks up to the width of its
/// column.
#[derive(Debug)]
pub struct Shown {
    pub contents: String,
    pub filling: usize,
    pub highlighted: bool,
}

/// One cell as it is drawn, as mathematical values.
pub struct ShownView {
    pub contents: Seq<char>,
    pub filling: nat,
    pub highlighted: bool,
}

impl View for Shown {
    type V = ShownView;

    open spec fn view(&self) -> ShownView {
        ShownView {
            contents: self.contents@,
            filling: self.filling as nat,
            highlighted: self.highlighted,
        }
    }
}

/// The heading of one column as it is drawn: its letter, then blanks up to
/// the width of the column.
#[derive(Clone, Copy, Debug, PartialEq, Eq, Structural)]
pub struct Heading {
    pub letter: char,
    pub filling: usize,
}

/// The width of a cell does not exceed the width of its column.
pub proof fn lemma_column_holds(cells: Seq<CellView>, i: int)
    requires
        0 <= i < cells.len(),
    ensures
        cells[i].width <= column_width(cells, cells[i].x_loc),
    decreases cells.len(),
{
    if i < cells.len() - 1 {
        lemma_column_holds(cells.drop_last(), i);
    }
}

/// How column `x` of row `y` is drawn: what is shown there, filled up to
/// the width of the column.
pub open spec fn shown_at(cells: Seq<CellView>, x: nat, y: nat) -> ShownView {
    let cell = cell_at(cells, x, y);
    ShownView {
        contents: cell.contents,
        filling: (column_width(cells, x) - cell.width) as nat,
        highlighted: cell.highlighted,
    }
}

/// The cells of row `y` that are drawn, from the column behind `from` up to
/// column `cols`, where `room` columns of the terminal are free: each cell
/// takes the width of its column and a separator, and the cells follow each
/// other until one has passed the room.
pub open spec fn drawn_cells(cells: Seq<CellView>, y: nat, from: nat, cols: nat,
    room: int) -> Seq<ShownView>
    decreases cols - from,
{
    if from >= cols || room < 0 {
        Seq::empty()
    } else {
        seq![shown_at(cells, from + 1, y)] + drawn_cells(
            cells,
            y,
            from + 1,
            cols,
            room - column_width(cells, from + 1) - CELL_SEPARATOR_WIDTH,
        )
    }
}

/// How column `x` is headed: its letter, filled up to the width of the
/// column.
pub open spec fn heading_at(cells: Seq<CellView>, x: nat) -> Heading {
    Heading {
        letter: column_letter(x),
        filling: if column_width(cells, x) >= 1 {
            (column_width(cells, x) - 1) as usize
        } else {
            0
        },
    }
}

/// The headings that are drawn, from the column behind `from` up to column
/// `cols`, where `room` columns of the terminal are free.
pub open spec fn drawn_headings(cells: Seq<CellView>, from: nat, cols: nat,
    room: int) -> Seq<Heading>
    decreases cols - from,
{
    if from >= cols || room < 0 {
        Seq::empty()
    } else {
        seq![heading_at(cells, from + 1)] + drawn_headings(
            cells,
            from + 1,
            cols,
            room - column_width(cells, from + 1) - CELL_SEPARATOR_WIDTH,
        )
    }
}

impl Editor {
    /// The cells of row `y` that a terminal of `width` columns shows, from
    /// the column behind the horizontal offset on.
    pub fn draw_row(&self, y: usize, width: usize) -> (drawn: Vec<Shown>)
        ensures
            drawn@.map_values(|s: Shown| s@) == drawn_cells(
                self@.document.table.cells,
                y as nat,
                self@.offset.x as nat,
                self@.document.table.num_cols(),
                width as int,
            ),
    {
        let ghost cells = self@.document.table.cells;
        let ncols = self.document.table.num_cols();
        let mut drawn: Vec<Shown> = Vec::new();
        let mut room = width;
        let ghost mut left = width as int;
        let mut i = self.offset.x;
        let mut full = false;
        assert(drawn@.map_values(|s: Shown| s@) =~= Seq::<ShownView>::empty());
        while i < ncols && !full
            invariant
                cells == self@.document.table.cells,
                ncols == max_col(cells),
                !full ==> room == left,
                full ==> left < 0,
                drawn@.map_values(|s: Shown| s@)
                    + drawn_cells(cells, y as nat, i as nat, ncols as nat, left)
                    == drawn_cells(cells, y as nat, self@.offset.x as nat, ncols as nat,
                        width as int),
            decreases ncols - i,
        {
            let ghost before = drawn@.map_values(|s: Shown| s@);
            let column = self.document.table.column_width(i + 1);
            let shown = match self.document.table.find(i + 1, y) {
                Some(k) => {
                    proof {
                        lemma_first_at(cells, (i + 1) as nat, y as nat, k as int);
                        lemma_column_holds(cells, k as int);
                    }
                    let cell = &self.document.table.cells[k];
                    Shown {
                        contents: cell.contents.clone(),
                        filling: column - cell.width,
                        highlighted: cell.highlighted,
                    }
                },
                None => Shown { contents: String::new(), filling: column, highlighted: false },
            };
            assert(shown@ == shown_at(cells, (i + 1) as nat, y as nat));
            drawn.push(shown);
            if column > room || room - column < CELL_SEPARATOR_WIDTH {
                full = true;
            } else {
                room = room - column - CELL_SEPARATOR_WIDTH;
            }
            proof {
                let rest = drawn_cells(
                    cells,
                    y as nat,
                    (i + 1) as nat,
                    ncols as nat,
                    left - column - CELL_SEPARATOR_WIDTH,
                );
                assert(drawn@.map_values(|s: Shown| s@)
                    =~= before.push(shown_at(cells, (i + 1) as nat, y as nat)));
                assert(before + (seq![shown_at(cells, (i + 1) as nat, y as nat)] + rest)
                    =~= before.push(
                    shown_at(cells, (i + 1) as nat, y as nat),
                ) + rest);
                left = left - column - CELL_SEPARATOR_WIDTH;
            }
            i += 1;
        }
        drawn
    }

    /// The headings of the columns that a terminal of `width` columns
    /// shows, from the column behind the horizontal offset on.
    pub fn draw_header(&self, width: usize) -> (drawn: Vec<Heading>)
        ensures
            drawn@ == drawn_headings(
                self@.document.table.cells,
                self@.offset.x as nat,
                self@.document.table.num_cols(),
                width as int,
            ),
    {
        let ghost cells = self@.document.table.cells;
        let ncols = self.document.table.num_cols();
        let mut drawn: Vec<Heading> = Vec::new();
        let mut room = width;
        let ghost mut left = width as int;
        let mut i = self.offset.x;
        let mut full = false;
        while i < ncols && !full
            invariant
                cells == self@.document.table.cells,
                ncols == max_col(cells),
                !full ==> room == left,
                full ==> left < 0,
                drawn@ + drawn_headings(cells, i as nat, ncols as nat, left) == drawn_headings(
                    cells,
                    self@.offset.x as nat,
                    ncols as nat,
                    width as int,
                ),
            decreases ncols - i,
        {
            let ghost before = drawn@;
            let column = self.document.table.column_width(i + 1);
            let heading = Heading { letter: num_to_let(i + 1), filling: column.saturating_sub(1) };
            drawn.push(heading);
            if column > room || room - column < CELL_SEPARATOR_WIDTH {
                full = true;
            } else {
                room = room - column - CELL_SEPARATOR_WIDTH;
            }
            proof {
                let rest = drawn_headings(
                    cells,
                    (i + 1) as nat,
                    ncols as nat,
                    left - column - CELL_SEPARATOR_WIDTH,
                );
                assert(before + (seq![heading_at(cells, (i + 1) as nat)] + rest) =~= before.push(
                    heading_at(cells, (i + 1) as nat),
                ) + rest);
                left = left - column - CELL_SEPARATOR_WIDTH;
            }
            i += 1;
        }
        drawn
    }

    /// How many blanks follow the number `label` of a row for it to take
    /// the room of the largest row number.
    pub fn label_filling(&self, label: usize) -> (filling: usize)
        ensures
            filling == (if decimal_digits(self@.document.table.num_rows()) >= decimal_digits(
                label as nat,
            ) {
                decimal_digits(self@.document.table.num_rows()) - decimal_digits(label as nat)
            } else {
                0
            }),
    {
        let widest = count_digits(self.document.table.num_rows());
        let own = count_digits(label);
        if widest >= own {
            widest - own
        } else {
            0
        }
    }
}

} // verus!
