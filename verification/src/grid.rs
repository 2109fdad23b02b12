//! The mathematics of a grid: what a run of cells shows at a coordinate, how
//! far it reaches, and how wide its columns are.

use crate::delimited::records;
use crate::table::{blank_cell, text_cell, CellView, TableView};
use crate::text::without_white_space;
use vstd::prelude::*;

verus! {

/// The larger of two numbers.
pub open spec fn larger(a: nat, b: nat) -> nat {
    if a >= b {
        a
    } else {
        b
    }
}

/// `n`, or the largest width that can be represented where `n` is beyond it.
pub open spec fn capped(n: nat) -> nat {
    if n > usize::MAX {
        usize::MAX as nat
    } else {
        n
    }
}

/// The largest row index among `cells`, 0 where there is none.
pub open spec fn max_row(cells: Seq<CellView>) -> nat
    decreases cells.len(),
{
    if cells.len() == 0 {
        0
    } else {
        larger(max_row(cells.drop_last()), cells.last().y_loc)
    }
}

/// The largest column index among `cells`, 0 where there is none.
pub open spec fn max_col(cells: Seq<CellView>) -> nat
    decreases cells.len(),
{
    if cells.len() == 0 {
        0
    } else {
        larger(max_col(cells.drop_last()), cells.last().x_loc)
    }
}

/// The largest width among `cells`, 0 where there is none.
pub open spec fn widest(cells: Seq<CellView>) -> nat
    decreases cells.len(),
{
    if cells.len() == 0 {
        0
    } else {
        larger(widest(cells.drop_last()), cells.last().width)
    }
}

/// The widths of `cells` added up.
pub open spec fn total_width(cells: Seq<CellView>) -> nat
    decreases cells.len(),
{
    if cells.len() == 0 {
        0
    } else {
        total_width(cells.drop_last()) + cells.last().width
    }
}

/// The largest width among the cells of column `x`, 0 where there is none.
pub open spec fn column_width(cells: Seq<CellView>, x: nat) -> nat
    decreases cells.len(),
{
    if cells.len() == 0 {
        0
    } else if cells.last().x_loc == x {
        larger(column_width(cells.drop_last(), x), cells.last().width)
    } else {
        column_width(cells.drop_last(), x)
    }
}

/// How many decimal digits write `n`.
pub open spec fn decimal_digits(n: nat) -> nat
    decreases n,
{
    if n < 10 {
        1
    } else {
        1 + decimal_digits(n / 10)
    }
}

/// Every cell has a column and a row of at least 1.
pub open spec fn all_placed(cells: Seq<CellView>) -> bool {
    forall|i: int| 0 <= i < cells.len() ==> (#[trigger] cells[i]).x_loc >= 1 && cells[i].y_loc >= 1
}

/// No two cells share a coordinate.
pub open spec fn all_distinct(cells: Seq<CellView>) -> bool {
    forall|i: int, j: int|
        0 <= i < j < cells.len() ==> !((#[trigger] cells[i]).x_loc == (#[trigger] cells[j]).x_loc
            && cells[i].y_loc == cells[j].y_loc)
}

/// Some cell of `cells` stands at column `x` of row `y`.
pub open spec fn occupied(cells: Seq<CellView>, x: nat, y: nat) -> bool {
    exists|i: int| 0 <= i < cells.len() && #[trigger] cells[i].at(x, y)
}

/// `i` is the index of the first cell of `cells` at column `x` of row `y`.
pub open spec fn is_first_at(cells: Seq<CellView>, x: nat, y: nat, i: int) -> bool {
    &&& 0 <= i < cells.len()
    &&& cells[i].at(x, y)
    &&& forall|j: int| 0 <= j < i ==> !(#[trigger] cells[j].at(x, y))
}

/// The index of the first cell at column `x` of row `y`, where there is one.
pub open spec fn index_at(cells: Seq<CellView>, x: nat, y: nat) -> int {
    choose|i: int| is_first_at(cells, x, y, i)
}

/// The text at column `x` of row `y`: that of the first cell stored for the
/// coordinate, and no text where none is stored.
pub open spec fn content_at(cells: Seq<CellView>, x: nat, y: nat) -> Seq<char> {
    if occupied(cells, x, y) {
        cells[index_at(cells, x, y)].contents
    } else {
        Seq::empty()
    }
}

/// What `get_row` shows at column `x` of row `y`: the first cell stored for
/// the coordinate, and a blank cell where none is stored.
pub open spec fn cell_at(cells: Seq<CellView>, x: nat, y: nat) -> CellView {
    if occupied(cells, x, y) {
        cells[index_at(cells, x, y)]
    } else {
        blank_cell(x, y)
    }
}

/// The cells of row `y` as they are shown, one per column of the grid: the
/// cell stored for the coordinate, and a blank one where none is stored.
pub open spec fn shown_row(cells: Seq<CellView>, y: nat) -> Seq<CellView> {
    Seq::new(max_col(cells), |i: int| cell_at(cells, (i + 1) as nat, y))
}

/// Text can be written at column `x` of row `y`: a cell is stored there, or
/// the coordinate is one at which a cell can be stored.
pub open spec fn writes_at(cells: Seq<CellView>, x: nat, y: nat) -> bool {
    occupied(cells, x, y) || (x >= 1 && y >= 1)
}

/// The cells with `text` in the first cell stored at column `x` of row `y`,
/// where a cell is stored there.
pub open spec fn with_text(cells: Seq<CellView>, x: nat, y: nat, text: Seq<char>) -> Seq<CellView>
    recommends
        occupied(cells, x, y),
{
    let i = index_at(cells, x, y);
    cells.update(i, cells[i].with_contents(text))
}

/// The cells that one record gives to row `y`: its fields from column 1 on.
pub open spec fn row_cells(fields: Seq<Seq<char>>, y: nat) -> Seq<CellView> {
    Seq::new(fields.len(), |i: int| text_cell(fields[i], (i + 1) as nat, y))
}

/// The cells that records give: record by record from row 1 on, and within a
/// record field by field.
pub open spec fn grid_cells(records: Seq<Seq<Seq<char>>>) -> Seq<CellView>
    decreases records.len(),
{
    if records.len() == 0 {
        Seq::empty()
    } else {
        grid_cells(records.drop_last()) + row_cells(records.last(), records.len())
    }
}

/// The fields of row `y`, one per column of the grid: the text stored for
/// the coordinate, and no text where none is stored.
pub open spec fn row_fields(cells: Seq<CellView>, y: nat) -> Seq<Seq<char>> {
    Seq::new(max_col(cells), |i: int| content_at(cells, (i + 1) as nat, y))
}

/// The records of a grid: one per row, from row 1 on.
pub open spec fn table_records(cells: Seq<CellView>) -> Seq<Seq<Seq<char>>> {
    Seq::new(max_row(cells), |j: int| row_fields(cells, (j + 1) as nat))
}

/// The texts that a summary of the selection is computed of: the text of
/// each selected cell without its white space, in the order of the grid,
/// but for the cells that hold nothing else.
pub open spec fn summary_operands(cells: Seq<CellView>) -> Seq<Seq<char>>
    decreases cells.len(),
{
    if cells.len() == 0 {
        Seq::empty()
    } else {
        let text = without_white_space(cells.last().contents);
        if cells.last().highlighted && text.len() > 0 {
            summary_operands(cells.drop_last()).push(text)
        } else {
            summary_operands(cells.drop_last())
        }
    }
}

/// The cells of `cells` that are selected, in their order.
pub open spec fn selected(cells: Seq<CellView>) -> Seq<CellView>
    decreases cells.len(),
{
    if cells.len() == 0 {
        Seq::empty()
    } else if cells.last().highlighted {
        selected(cells.drop_last()).push(cells.last())
    } else {
        selected(cells.drop_last())
    }
}

/// Two grids show the same text at every coordinate.
pub open spec fn same_text(a: Seq<CellView>, b: Seq<CellView>) -> bool {
    forall|x: nat, y: nat| content_at(a, x, y) == content_at(b, x, y)
}

/// The cells of `a` and `b` stand at the same coordinates, one by one.
pub open spec fn same_places(a: Seq<CellView>, b: Seq<CellView>) -> bool {
    &&& a.len() == b.len()
    &&& forall|i: int| 0 <= i < a.len()
        ==> (#[trigger] a[i]).x_loc == b[i].x_loc && a[i].y_loc == b[i].y_loc
}

/// No cell of `a` shares a coordinate with a cell of `b`.
pub open spec fn apart(a: Seq<CellView>, b: Seq<CellView>) -> bool {
    forall|i: int, j: int| 0 <= i < a.len() && 0 <= j < b.len()
        ==> !((#[trigger] a[i]).x_loc == (#[trigger] b[j]).x_loc && a[i].y_loc == b[j].y_loc)
}

/// Where a scan has met no cell at the coordinate before index `i` and finds
/// one there, `i` is the index that `index_at` names.
pub proof fn lemma_first_at(cells: Seq<CellView>, x: nat, y: nat, i: int)
    requires
        is_first_at(cells, x, y, i),
    ensures
        occupied(cells, x, y),
        index_at(cells, x, y) == i,
{
    let k = index_at(cells, x, y);
    assert(is_first_at(cells, x, y, k));
    if k < i {
        assert(!cells[k].at(x, y));
    }
    if i < k {
        assert(!cells[i].at(x, y));
    }
}

/// Below or at any cell at the coordinate there is a first one.
proof fn lemma_first_before(cells: Seq<CellView>, x: nat, y: nat, w: int)
    requires
        0 <= w < cells.len(),
        cells[w].at(x, y),
    ensures
        exists|i: int| is_first_at(cells, x, y, i),
    decreases w,
{
    if exists|j: int| 0 <= j < w && #[trigger] cells[j].at(x, y) {
        let j = choose|j: int| 0 <= j < w && #[trigger] cells[j].at(x, y);
        lemma_first_before(cells, x, y, j);
    } else {
        assert(is_first_at(cells, x, y, w));
    }
}

/// Where some cell stands at the coordinate, `index_at` names the first.
pub proof fn lemma_occupied_has_first(cells: Seq<CellView>, x: nat, y: nat)
    requires
        occupied(cells, x, y),
    ensures
        is_first_at(cells, x, y, index_at(cells, x, y)),
{
    let w = choose|i: int| 0 <= i < cells.len() && #[trigger] cells[i].at(x, y);
    lemma_first_before(cells, x, y, w);
}

/// In a grid without shared coordinates, a cell found at a coordinate is the
/// one that reads of that coordinate return.
pub proof fn lemma_cell_at_unique(cells: Seq<CellView>, i: int)
    requires
        all_distinct(cells),
        0 <= i < cells.len(),
    ensures
        occupied(cells, cells[i].x_loc, cells[i].y_loc),
        index_at(cells, cells[i].x_loc, cells[i].y_loc) == i,
        cell_at(cells, cells[i].x_loc, cells[i].y_loc) == cells[i],
        content_at(cells, cells[i].x_loc, cells[i].y_loc) == cells[i].contents,
{
    let x = cells[i].x_loc;
    let y = cells[i].y_loc;
    assert(cells[i].at(x, y));
    assert forall|j: int| 0 <= j < i implies !(#[trigger] cells[j].at(x, y)) by {
        if cells[j].at(x, y) {
            assert(cells[j].x_loc == cells[i].x_loc && cells[j].y_loc == cells[i].y_loc);
        }
    }
    lemma_first_at(cells, x, y, i);
}

/// What is shown at a coordinate stands at that coordinate.
pub proof fn lemma_cell_at_stands(cells: Seq<CellView>, x: nat, y: nat)
    ensures
        cell_at(cells, x, y).at(x, y),
        cell_at(cells, x, y).contents == content_at(cells, x, y),
{
    if occupied(cells, x, y) {
        lemma_occupied_has_first(cells, x, y);
    }
}

/// Every row index is at most `max_row`, and `max_row` is one of them unless
/// it is 0.
pub proof fn lemma_max_row(cells: Seq<CellView>)
    ensures
        forall|i: int| 0 <= i < cells.len() ==> (#[trigger] cells[i]).y_loc <= max_row(cells),
        max_row(cells) == 0 || exists|i: int| 0 <= i < cells.len()
            && (#[trigger] cells[i]).y_loc == max_row(cells),
    decreases cells.len(),
{
    if cells.len() > 0 {
        let front = cells.drop_last();
        lemma_max_row(front);
        assert forall|i: int| 0 <= i < cells.len()
            implies (#[trigger] cells[i]).y_loc <= max_row(cells) by {
            if i < front.len() {
                assert(front[i] == cells[i]);
            }
        }
        if max_row(cells) != 0 {
            if max_row(cells) == cells.last().y_loc {
                assert(cells[cells.len() - 1].y_loc == max_row(cells));
            } else {
                let k = choose|i: int| 0 <= i < front.len()
                    && (#[trigger] front[i]).y_loc == max_row(front);
                assert(cells[k] == front[k]);
            }
        }
    }
}

/// Every column index is at most `max_col`, and `max_col` is one of them
/// unless it is 0.
pub proof fn lemma_max_col(cells: Seq<CellView>)
    ensures
        forall|i: int| 0 <= i < cells.len() ==> (#[trigger] cells[i]).x_loc <= max_col(cells),
        max_col(cells) == 0 || exists|i: int| 0 <= i < cells.len()
            && (#[trigger] cells[i]).x_loc == max_col(cells),
    decreases cells.len(),
{
    if cells.len() > 0 {
        let front = cells.drop_last();
        lemma_max_col(front);
        assert forall|i: int| 0 <= i < cells.len()
            implies (#[trigger] cells[i]).x_loc <= max_col(cells) by {
            if i < front.len() {
                assert(front[i] == cells[i]);
            }
        }
        if max_col(cells) != 0 {
            if max_col(cells) == cells.last().x_loc {
                assert(cells[cells.len() - 1].x_loc == max_col(cells));
            } else {
                let k = choose|i: int| 0 <= i < front.len()
                    && (#[trigger] front[i]).x_loc == max_col(front);
                assert(cells[k] == front[k]);
            }
        }
    }
}

/// A number that bounds every row index and is one of them, unless it is 0,
/// is `max_row`.
pub proof fn lemma_max_row_is(cells: Seq<CellView>, m: nat)
    requires
        forall|i: int| 0 <= i < cells.len() ==> (#[trigger] cells[i]).y_loc <= m,
        m == 0 || exists|i: int| 0 <= i < cells.len() && (#[trigger] cells[i]).y_loc == m,
    ensures
        max_row(cells) == m,
{
    lemma_max_row(cells);
    if max_row(cells) != 0 {
        let k = choose|i: int| 0 <= i < cells.len()
            && (#[trigger] cells[i]).y_loc == max_row(cells);
        assert(cells[k].y_loc <= m);
    }
    if m != 0 {
        let k = choose|i: int| 0 <= i < cells.len() && (#[trigger] cells[i]).y_loc == m;
        assert(cells[k].y_loc <= max_row(cells));
    }
}

/// A number that bounds every column index and is one of them, unless it is
/// 0, is `max_col`.
pub proof fn lemma_max_col_is(cells: Seq<CellView>, m: nat)
    requires
        forall|i: int| 0 <= i < cells.len() ==> (#[trigger] cells[i]).x_loc <= m,
        m == 0 || exists|i: int| 0 <= i < cells.len() && (#[trigger] cells[i]).x_loc == m,
    ensures
        max_col(cells) == m,
{
    lemma_max_col(cells);
    if max_col(cells) != 0 {
        let k = choose|i: int| 0 <= i < cells.len()
            && (#[trigger] cells[i]).x_loc == max_col(cells);
        assert(cells[k].x_loc <= m);
    }
    if m != 0 {
        let k = choose|i: int| 0 <= i < cells.len() && (#[trigger] cells[i]).x_loc == m;
        assert(cells[k].x_loc <= max_col(cells));
    }
}

/// A column beyond the last column of the grid takes no width.
pub proof fn lemma_column_beyond(cells: Seq<CellView>, x: nat)
    requires
        x > max_col(cells),
    ensures
        column_width(cells, x) == 0,
    decreases cells.len(),
{
    if cells.len() > 0 {
        lemma_column_beyond(cells.drop_last(), x);
    }
}

/// Cells that stand where placed cells without shared coordinates stand
/// are placed and share no coordinate.
pub proof fn lemma_same_places(before: Seq<CellView>, after: Seq<CellView>)
    requires
        same_places(before, after),
        all_placed(before),
        all_distinct(before),
    ensures
        all_placed(after),
        all_distinct(after),
{
    assert forall|i: int| 0 <= i < after.len()
        implies (#[trigger] after[i]).x_loc >= 1 && after[i].y_loc >= 1 by {
        assert(before[i].x_loc == after[i].x_loc);
    }
    assert forall|i: int, j: int| 0 <= i < j < after.len()
        implies !((#[trigger] after[i]).x_loc == (#[trigger] after[j]).x_loc
        && after[i].y_loc == after[j].y_loc) by {
        assert(before[i].x_loc == after[i].x_loc);
        assert(before[j].x_loc == after[j].x_loc);
    }
}

/// Two runs of placed cells without shared coordinates, one behind the
/// other, are placed and share no coordinate, where no cell of the one
/// shares a coordinate with a cell of the other.
pub proof fn lemma_concat_wf(a: Seq<CellView>, b: Seq<CellView>)
    requires
        all_placed(a),
        all_distinct(a),
        all_placed(b),
        all_distinct(b),
        apart(a, b),
    ensures
        all_placed(a + b),
        all_distinct(a + b),
{
    let all = a + b;
    assert forall|i: int| 0 <= i < all.len()
        implies (#[trigger] all[i]).x_loc >= 1 && all[i].y_loc >= 1 by {
        if i < a.len() {
            assert(all[i] == a[i]);
        } else {
            assert(all[i] == b[i - a.len()]);
        }
    }
    assert forall|i: int, j: int| 0 <= i < j < all.len()
        implies !((#[trigger] all[i]).x_loc == (#[trigger] all[j]).x_loc
        && all[i].y_loc == all[j].y_loc) by {
        if j < a.len() {
            assert(all[i] == a[i] && all[j] == a[j]);
        } else if i < a.len() {
            assert(all[i] == a[i] && all[j] == b[j - a.len()]);
        } else {
            assert(all[i] == b[i - a.len()] && all[j] == b[j - a.len()]);
        }
    }
}

/// One more placed cell behind placed cells without shared coordinates
/// keeps them so, where no cell is stored at its coordinate.
pub proof fn lemma_push_wf(cells: Seq<CellView>, cell: CellView)
    requires
        all_placed(cells),
        all_distinct(cells),
        cell.x_loc >= 1,
        cell.y_loc >= 1,
        !occupied(cells, cell.x_loc, cell.y_loc),
    ensures
        all_placed(cells.push(cell)),
        all_distinct(cells.push(cell)),
{
    let one = seq![cell];
    assert forall|i: int, j: int| 0 <= i < cells.len() && 0 <= j < one.len()
        implies !((#[trigger] cells[i]).x_loc == (#[trigger] one[j]).x_loc
        && cells[i].y_loc == one[j].y_loc) by {
        assert(!cells[i].at(cell.x_loc, cell.y_loc));
    }
    lemma_concat_wf(cells, one);
    assert(cells + one =~= cells.push(cell));
}

/// Of two runs of cells one behind the other, the first is read where it has
/// a cell, and the second elsewhere.
pub proof fn lemma_concat_reads(a: Seq<CellView>, b: Seq<CellView>, qx: nat, qy: nat)
    ensures
        occupied(a + b, qx, qy) == (occupied(a, qx, qy) || occupied(b, qx, qy)),
        content_at(a + b, qx, qy) == (if occupied(a, qx, qy) {
            content_at(a, qx, qy)
        } else {
            content_at(b, qx, qy)
        }),
{
    let all = a + b;
    if occupied(a, qx, qy) {
        lemma_occupied_has_first(a, qx, qy);
        let k = index_at(a, qx, qy);
        assert(all[k] == a[k]);
        assert forall|j: int| 0 <= j < k implies !(#[trigger] all[j].at(qx, qy)) by {
            assert(all[j] == a[j]);
            assert(!a[j].at(qx, qy));
        }
        lemma_first_at(all, qx, qy, k);
    } else if occupied(b, qx, qy) {
        lemma_occupied_has_first(b, qx, qy);
        let k = index_at(b, qx, qy);
        assert(all[a.len() + k] == b[k]);
        assert forall|j: int| 0 <= j < a.len() + k implies !(#[trigger] all[j].at(qx, qy)) by {
            if j < a.len() {
                assert(all[j] == a[j]);
                assert(!a[j].at(qx, qy));
            } else {
                assert(all[j] == b[j - a.len()]);
                assert(!b[j - a.len()].at(qx, qy));
            }
        }
        lemma_first_at(all, qx, qy, a.len() + k);
    } else {
        if occupied(all, qx, qy) {
            let k = choose|k: int| 0 <= k < all.len() && #[trigger] all[k].at(qx, qy);
            if k < a.len() {
                assert(all[k] == a[k]);
                assert(a[k].at(qx, qy));
            } else {
                assert(all[k] == b[k - a.len()]);
                assert(b[k - a.len()].at(qx, qy));
            }
        }
    }
}

/// Writing text at one coordinate changes what is read there and nowhere
/// else.
pub proof fn lemma_put_reads(table: TableView, x: nat, y: nat, text: Seq<char>, qx: nat, qy: nat)
    ensures
        occupied(table.put(x, y, text).cells, qx, qy) == (occupied(table.cells, qx, qy) || (qx == x
            && qy == y && writes_at(table.cells, x, y))),
        content_at(table.put(x, y, text).cells, qx, qy) == (if qx == x && qy == y && writes_at(
            table.cells,
            x,
            y,
        ) {
            text
        } else {
            content_at(table.cells, qx, qy)
        }),
{
    let cells = table.cells;
    let after = table.put(x, y, text).cells;
    if occupied(cells, x, y) {
        lemma_occupied_has_first(cells, x, y);
        let i = index_at(cells, x, y);
        assert(after == cells.update(i, cells[i].with_contents(text)));
        assert forall|k: int| 0 <= k < cells.len()
            implies (#[trigger] after[k].at(qx, qy)) == cells[k].at(qx, qy) by {}
        if occupied(cells, qx, qy) {
            lemma_occupied_has_first(cells, qx, qy);
            let k = index_at(cells, qx, qy);
            assert(after[k].at(qx, qy));
            assert forall|j: int| 0 <= j < k implies !(#[trigger] after[j].at(qx, qy)) by {
                assert(!cells[j].at(qx, qy));
            }
            lemma_first_at(after, qx, qy, k);
            if qx == x && qy == y {
                assert(k == i);
            } else {
                assert(k != i);
            }
        } else {
            if occupied(after, qx, qy) {
                let k = choose|k: int| 0 <= k < after.len() && #[trigger] after[k].at(qx, qy);
                assert(cells[k].at(qx, qy));
            }
        }
    } else if x >= 1 && y >= 1 {
        let added = text_cell(text, x, y);
        assert(after == cells.push(added));
        if qx == x && qy == y {
            assert(after[cells.len() as int].at(x, y));
            assert forall|j: int| 0 <= j < cells.len() implies !(#[trigger] after[j].at(x, y)) by {
                assert(after[j] == cells[j]);
                assert(!cells[j].at(x, y));
            }
            lemma_first_at(after, x, y, cells.len() as int);
        } else if occupied(cells, qx, qy) {
            lemma_occupied_has_first(cells, qx, qy);
            let k = index_at(cells, qx, qy);
            assert(after[k] == cells[k]);
            assert forall|j: int| 0 <= j < k implies !(#[trigger] after[j].at(qx, qy)) by {
                assert(after[j] == cells[j]);
                assert(!cells[j].at(qx, qy));
            }
            lemma_first_at(after, qx, qy, k);
        } else {
            if occupied(after, qx, qy) {
                let k = choose|k: int| 0 <= k < after.len() && #[trigger] after[k].at(qx, qy);
                if k < cells.len() {
                    assert(after[k] == cells[k]);
                    assert(cells[k].at(qx, qy));
                }
            }
        }
    }
}

/// Writing text keeps a grid well formed.
pub proof fn lemma_put_wf(table: TableView, x: nat, y: nat, text: Seq<char>)
    requires
        table.wf(),
    ensures
        table.put(x, y, text).wf(),
{
    if occupied(table.cells, x, y) {
        lemma_occupied_has_first(table.cells, x, y);
        lemma_same_places(table.cells, table.put(x, y, text).cells);
    } else if x >= 1 && y >= 1 {
        lemma_push_wf(table.cells, text_cell(text, x, y));
    }
}

/// The cells of records are placed within the records' extent and share no
/// coordinate.
pub proof fn lemma_grid_cells_wf(records: Seq<Seq<Seq<char>>>)
    ensures
        all_placed(grid_cells(records)),
        all_distinct(grid_cells(records)),
        forall|i: int| 0 <= i < grid_cells(records).len()
            ==> (#[trigger] grid_cells(records)[i]).y_loc <= records.len(),
    decreases records.len(),
{
    if records.len() > 0 {
        let front = grid_cells(records.drop_last());
        let row = row_cells(records.last(), records.len());
        let all = grid_cells(records);
        lemma_grid_cells_wf(records.drop_last());
        lemma_concat_wf(front, row);
        assert forall|i: int| 0 <= i < all.len() implies (#[trigger] all[i]).y_loc <= records.len() by {
            if i < front.len() {
                assert(all[i] == front[i]);
            } else {
                assert(all[i] == row[i - front.len()]);
            }
        }
    }
}

/// The cells of one record are read at the columns of its fields, in its
/// row.
pub proof fn lemma_row_cells_reads(fields: Seq<Seq<char>>, y: nat, qx: nat, qy: nat)
    ensures
        occupied(row_cells(fields, y), qx, qy) == (qy == y && 1 <= qx <= fields.len()),
        qy == y && 1 <= qx <= fields.len()
            ==> content_at(row_cells(fields, y), qx, qy) == fields[qx - 1],
{
    let row = row_cells(fields, y);
    if qy == y && 1 <= qx <= fields.len() {
        assert(row[qx - 1].at(qx, qy));
        assert forall|j: int| 0 <= j < qx - 1 implies !(#[trigger] row[j].at(qx, qy)) by {}
        lemma_first_at(row, qx, qy, qx - 1);
    } else {
        if occupied(row, qx, qy) {
            let k = choose|k: int| 0 <= k < row.len() && #[trigger] row[k].at(qx, qy);
            assert(false);
        }
    }
}

/// The grid of records shows each field at the column and row that it has
/// in the records, and no text elsewhere.
pub proof fn lemma_grid_cells_reads(records: Seq<Seq<Seq<char>>>, qx: nat, qy: nat)
    ensures
        occupied(grid_cells(records), qx, qy) == (1 <= qy <= records.len() && 1 <= qx <= records[qy
            - 1].len()),
        content_at(grid_cells(records), qx, qy) == (if 1 <= qy <= records.len() && 1 <= qx
            <= records[qy - 1].len() {
            records[qy - 1][qx - 1]
        } else {
            Seq::empty()
        }),
    decreases records.len(),
{
    if records.len() == 0 {
        let none = grid_cells(records);
        if occupied(none, qx, qy) {
            let k = choose|k: int| 0 <= k < none.len() && #[trigger] none[k].at(qx, qy);
            assert(false);
        }
    } else {
        let above = records.drop_last();
        let front = grid_cells(above);
        let row = row_cells(records.last(), records.len());
        lemma_grid_cells_reads(above, qx, qy);
        lemma_row_cells_reads(records.last(), records.len(), qx, qy);
        lemma_concat_reads(front, row, qx, qy);
        if 1 <= qy <= above.len() {
            assert(above[qy - 1] == records[qy - 1]);
        }
    }
}

/// Building a grid of the records of a grid keeps the text at every
/// coordinate, and the extent.
pub proof fn lemma_records_keep_text(cells: Seq<CellView>)
    requires
        all_placed(cells),
    ensures
        forall|x: nat, y: nat| content_at(grid_cells(table_records(cells)), x, y)
            == content_at(cells, x, y),
        max_row(grid_cells(table_records(cells))) == max_row(cells),
        max_col(grid_cells(table_records(cells))) == max_col(cells),
{
    let recs = table_records(cells);
    let grid = grid_cells(recs);
    let rows = max_row(cells);
    let cols = max_col(cells);
    lemma_max_row(cells);
    lemma_max_col(cells);
    assert forall|x: nat, y: nat| content_at(grid, x, y) == content_at(cells, x, y) by {
        lemma_grid_cells_reads(recs, x, y);
        if 1 <= y <= rows && 1 <= x <= cols {
            assert(recs[y - 1][x - 1] == content_at(cells, x, y));
        } else if occupied(cells, x, y) {
            let k = choose|k: int| 0 <= k < cells.len() && #[trigger] cells[k].at(x, y);
            assert(cells[k].x_loc >= 1 && cells[k].y_loc >= 1);
            assert(cells[k].y_loc <= rows && cells[k].x_loc <= cols);
            assert(false);
        }
    }
    lemma_grid_cells_wf(recs);
    assert forall|k: int| 0 <= k < grid.len() implies (#[trigger] grid[k]).x_loc <= cols by {
        let c = grid[k];
        assert(c.at(c.x_loc, c.y_loc));
        lemma_grid_cells_reads(recs, c.x_loc, c.y_loc);
    }
    if rows >= 1 {
        let k = choose|k: int| 0 <= k < cells.len() && (#[trigger] cells[k]).y_loc == rows;
        assert(cells[k].x_loc >= 1);
        assert(cols >= 1);
        lemma_grid_cells_reads(recs, 1, rows);
        let w = choose|w: int| 0 <= w < grid.len() && #[trigger] grid[w].at(1, rows);
        assert(grid[w].y_loc == rows);
        lemma_grid_cells_reads(recs, cols, 1);
        let v = choose|v: int| 0 <= v < grid.len() && #[trigger] grid[v].at(cols, 1);
        assert(grid[v].x_loc == cols);
        lemma_max_row_is(grid, rows);
        lemma_max_col_is(grid, cols);
    } else {
        assert(grid =~= Seq::<CellView>::empty());
        if cols >= 1 {
            let k = choose|k: int| 0 <= k < cells.len() && (#[trigger] cells[k]).x_loc == cols;
            assert(cells[k].y_loc >= 1);
            assert(false);
        }
    }
}

/// One more cell behind the others is read only where no other cell stands.
pub proof fn lemma_push_reads(cells: Seq<CellView>, cell: CellView, qx: nat, qy: nat)
    ensures
        occupied(cells.push(cell), qx, qy) == (occupied(cells, qx, qy) || cell.at(qx, qy)),
        content_at(cells.push(cell), qx, qy) == (if occupied(cells, qx, qy) {
            content_at(cells, qx, qy)
        } else if cell.at(qx, qy) {
            cell.contents
        } else {
            Seq::empty()
        }),
{
    let after = cells.push(cell);
    if occupied(cells, qx, qy) {
        lemma_occupied_has_first(cells, qx, qy);
        let k = index_at(cells, qx, qy);
        assert(after[k] == cells[k]);
        assert forall|j: int| 0 <= j < k implies !(#[trigger] after[j].at(qx, qy)) by {
            assert(after[j] == cells[j]);
            assert(!cells[j].at(qx, qy));
        }
        lemma_first_at(after, qx, qy, k);
    } else if cell.at(qx, qy) {
        assert(after[cells.len() as int] == cell);
        assert forall|j: int| 0 <= j < cells.len() implies !(#[trigger] after[j].at(qx, qy)) by {
            assert(after[j] == cells[j]);
            assert(!cells[j].at(qx, qy));
        }
        lemma_first_at(after, qx, qy, cells.len() as int);
    } else {
        if occupied(after, qx, qy) {
            let k = choose|k: int| 0 <= k < after.len() && #[trigger] after[k].at(qx, qy);
            if k < cells.len() {
                assert(after[k] == cells[k]);
                assert(cells[k].at(qx, qy));
            }
        }
    }
}

/// A first cell that stands elsewhere does not matter to what is read.
pub proof fn lemma_skip_head(cells: Seq<CellView>, qx: nat, qy: nat)
    requires
        cells.len() > 0,
        !cells[0].at(qx, qy),
    ensures
        occupied(cells, qx, qy) == occupied(cells.drop_first(), qx, qy),
        content_at(cells, qx, qy) == content_at(cells.drop_first(), qx, qy),
{
    let rest = cells.drop_first();
    if occupied(rest, qx, qy) {
        lemma_occupied_has_first(rest, qx, qy);
        let k = index_at(rest, qx, qy);
        assert(cells[k + 1] == rest[k]);
        assert(cells[k + 1].at(qx, qy));
        assert forall|j: int| 0 <= j < k + 1 implies !(#[trigger] cells[j].at(qx, qy)) by {
            if j > 0 {
                assert(cells[j] == rest[j - 1]);
                assert(!rest[j - 1].at(qx, qy));
            }
        }
        lemma_first_at(cells, qx, qy, k + 1);
    } else {
        if occupied(cells, qx, qy) {
            let k = choose|k: int| 0 <= k < cells.len() && #[trigger] cells[k].at(qx, qy);
            assert(rest[k - 1] == cells[k]);
            assert(rest[k - 1].at(qx, qy));
        }
    }
}

/// The selected cells are cells of the grid that are selected, and each
/// cell of the grid that is selected is among them.
pub proof fn lemma_selected(cells: Seq<CellView>)
    ensures
        forall|k: int| 0 <= k < selected(cells).len()
            ==> cells.contains(#[trigger] selected(cells)[k])
            && selected(cells)[k].highlighted,
        forall|i: int| 0 <= i < cells.len() && (#[trigger] cells[i]).highlighted
            ==> selected(cells).contains(cells[i]),
    decreases cells.len(),
{
    if cells.len() > 0 {
        let front = cells.drop_last();
        lemma_selected(front);
        let sel = selected(cells);
        assert forall|k: int| 0 <= k < sel.len()
            implies cells.contains(#[trigger] sel[k]) && sel[k].highlighted by {
            if k < selected(front).len() {
                assert(sel[k] == selected(front)[k]);
                assert(front.contains(selected(front)[k]));
                let i = choose|i: int| 0 <= i < front.len() && front[i] == selected(front)[k];
                assert(cells[i] == front[i]);
            } else {
                assert(cells[cells.len() - 1] == sel[k]);
            }
        }
        assert forall|i: int| 0 <= i < cells.len() && (#[trigger] cells[i]).highlighted
            implies sel.contains(cells[i]) by {
            if i < front.len() {
                assert(front[i] == cells[i]);
                assert(selected(front).contains(front[i]));
                let k = choose|k: int| 0 <= k < selected(front).len()
                    && selected(front)[k] == front[i];
                assert(sel[k] == selected(front)[k]);
            } else {
                assert(sel[sel.len() - 1] == cells[i]);
            }
        }
    }
}

/// A shown row has one cell per column of the grid, in ascending column
/// order, each at its column of the row.
pub proof fn theorem_shown_row_is_full(cells: Seq<CellView>, y: nat)
    ensures
        shown_row(cells, y).len() == max_col(cells),
        forall|i: int| 0 <= i < max_col(cells)
            ==> (#[trigger] shown_row(cells, y)[i]).at((i + 1) as nat, y),
{
    assert forall|i: int| 0 <= i < max_col(cells) implies (#[trigger] shown_row(cells, y)[i]).at(
        (i + 1) as nat,
        y,
    ) by {
        lemma_cell_at_stands(cells, (i + 1) as nat, y);
    }
}

} // verus!
