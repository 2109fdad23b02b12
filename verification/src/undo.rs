//! One level of undo: why the record that a mutating command leaves gives
//! every cell its text back.

use crate::document::{paste_from, paste_step, replay, DocumentView, Mutation};
use crate::grid::{
    all_placed, cell_at, content_at, index_at, lemma_cell_at_stands, lemma_cell_at_unique,
    lemma_first_at, lemma_occupied_has_first, lemma_push_reads, lemma_put_reads, lemma_put_wf,
    lemma_same_places, lemma_selected, lemma_skip_head, occupied, same_text, selected, writes_at,
};
use crate::table::{CellView, TableView};
use vstd::prelude::*;

verus! {

/// At column `x` of row `y`, the record `log` allows the text of `before`
/// to be had back from `after`: the first entry of the record for that
/// coordinate holds the text of `before`, or there is no entry and `after`
/// still shows it.
pub open spec fn restores(
    before: Seq<CellView>,
    after: Seq<CellView>,
    log: Seq<CellView>,
    x: nat,
    y: nat,
) -> bool {
    if occupied(log, x, y) {
        content_at(log, x, y) == content_at(before, x, y)
    } else {
        content_at(after, x, y) == content_at(before, x, y)
    }
}

/// The record `log` allows the text of `before` to be had back from `after`
/// at every coordinate.
pub open spec fn faithful(before: Seq<CellView>, after: Seq<CellView>, log: Seq<CellView>) -> bool {
    forall|x: nat, y: nat| #[trigger] restores(before, after, log, x, y)
}

/// After the texts of a record were written back, a coordinate shows the
/// text of the record's first entry for it, and what it showed before where
/// the record has no entry for it.
pub proof fn lemma_replay_reads(table: TableView, log: Seq<CellView>, qx: nat, qy: nat)
    requires
        all_placed(log),
    ensures
        content_at(replay(table, log).cells, qx, qy) == (if occupied(log, qx, qy) {
            content_at(log, qx, qy)
        } else {
            content_at(table.cells, qx, qy)
        }),
    decreases log.len(),
{
    if log.len() > 0 {
        let head = log[0];
        let rest = log.drop_first();
        assert(head.x_loc >= 1 && head.y_loc >= 1);
        assert forall|i: int| 0 <= i < rest.len()
            implies (#[trigger] rest[i]).x_loc >= 1 && rest[i].y_loc >= 1 by {
            assert(rest[i] == log[i + 1]);
        }
        lemma_replay_reads(table, rest, qx, qy);
        lemma_put_reads(replay(table, rest), head.x_loc, head.y_loc, head.contents, qx, qy);
        if head.at(qx, qy) {
            lemma_first_at(log, qx, qy, 0);
        } else {
            lemma_skip_head(log, qx, qy);
        }
    }
}

/// Writing the texts of a record back keeps a grid well formed.
pub proof fn lemma_replay_wf(table: TableView, log: Seq<CellView>)
    requires
        table.wf(),
    ensures
        replay(table, log).wf(),
    decreases log.len(),
{
    if log.len() > 0 {
        lemma_replay_wf(table, log.drop_first());
        lemma_put_wf(replay(table, log.drop_first()), log[0].x_loc, log[0].y_loc, log[0].contents);
    }
}

/// The record that `insert` leaves allows the text to be had back.
pub proof fn lemma_insert_faithful(doc: DocumentView, x: nat, y: nat, text: Seq<char>)
    requires
        doc.table.wf(),
    ensures
        faithful(
            doc.table.cells,
            doc.insert(x, y, text).table.cells,
            doc.insert(x, y, text).last_action->0.cells_affected,
        ),
        all_placed(doc.insert(x, y, text).last_action->0.cells_affected),
{
    let cells = doc.table.cells;
    let after = doc.insert(x, y, text).table.cells;
    let log = doc.insert(x, y, text).last_action->0.cells_affected;
    lemma_cell_at_stands(cells, x, y);
    if occupied(cells, x, y) {
        lemma_occupied_has_first(cells, x, y);
    }
    assert forall|qx: nat, qy: nat| #[trigger] restores(cells, after, log, qx, qy) by {
        lemma_put_reads(doc.table, x, y, text, qx, qy);
        if writes_at(cells, x, y) {
            assert(log[0].at(x, y));
            if qx == x && qy == y {
                lemma_first_at(log, x, y, 0);
            } else {
                if occupied(log, qx, qy) {
                    let k = choose|k: int| 0 <= k < log.len() && #[trigger] log[k].at(qx, qy);
                    assert(false);
                }
            }
        } else {
            if occupied(log, qx, qy) {
                let k = choose|k: int| 0 <= k < log.len() && #[trigger] log[k].at(qx, qy);
                assert(false);
            }
        }
    }
}

/// The record that `delete` leaves allows the text to be had back.
pub proof fn lemma_delete_faithful(doc: DocumentView)
    requires
        doc.table.wf(),
    ensures
        faithful(
            doc.table.cells,
            doc.delete().table.cells,
            doc.delete().last_action->0.cells_affected,
        ),
        all_placed(doc.delete().last_action->0.cells_affected),
        doc.delete().table.wf(),
{
    let cells = doc.table.cells;
    let after = doc.delete().table.cells;
    let log = selected(cells);
    lemma_selected(cells);
    assert forall|k: int| 0 <= k < log.len()
        implies (#[trigger] log[k]).x_loc >= 1 && log[k].y_loc >= 1 by {
        assert(cells.contains(log[k]));
        let i = choose|i: int| 0 <= i < cells.len() && cells[i] == log[k];
        assert(cells[i].x_loc >= 1);
    }
    lemma_same_places(cells, after);
    assert forall|qx: nat, qy: nat| #[trigger] restores(cells, after, log, qx, qy) by {
        if occupied(log, qx, qy) {
            lemma_occupied_has_first(log, qx, qy);
            let k = index_at(log, qx, qy);
            assert(cells.contains(log[k]));
            let i = choose|i: int| 0 <= i < cells.len() && cells[i] == log[k];
            lemma_cell_at_unique(cells, i);
        } else if occupied(cells, qx, qy) {
            lemma_occupied_has_first(cells, qx, qy);
            let i = index_at(cells, qx, qy);
            if cells[i].highlighted {
                assert(log.contains(cells[i]));
                let k = choose|k: int| 0 <= k < log.len() && log[k] == cells[i];
                assert(log[k].at(qx, qy));
                assert(false);
            }
            assert(after[i] == cells[i]);
            assert forall|j: int| 0 <= j < i implies !(#[trigger] after[j].at(qx, qy)) by {
                assert(after[j].x_loc == cells[j].x_loc);
                assert(!cells[j].at(qx, qy));
            }
            lemma_first_at(after, qx, qy, i);
        } else {
            if occupied(after, qx, qy) {
                let k = choose|k: int| 0 <= k < after.len() && #[trigger] after[k].at(qx, qy);
                assert(after[k].x_loc == cells[k].x_loc);
                assert(cells[k].at(qx, qy));
            }
        }
    }
}

/// Pasting keeps a record that allows the text to be had back.
pub proof fn lemma_paste_faithful(
    origin: Seq<CellView>,
    table: TableView,
    log: Seq<CellView>,
    x: nat,
    y: nat,
    px: nat,
    py: nat,
    clipboard: Seq<CellView>,
)
    requires
        table.wf(),
        faithful(origin, table.cells, log),
        all_placed(log),
        x >= 1,
        y >= 1,
    ensures
        faithful(
            origin,
            paste_from(table, log, x, y, px, py, clipboard).0.cells,
            paste_from(table, log, x, y, px, py, clipboard).1,
        ),
        all_placed(paste_from(table, log, x, y, px, py, clipboard).1),
        paste_from(table, log, x, y, px, py, clipboard).0.wf(),
    decreases clipboard.len(),
{
    if clipboard.len() > 0 {
        let source = clipboard[0];
        let (nx, ny) = paste_step(x, y, px, py, source);
        let prior = cell_at(table.cells, nx, ny);
        let next_table = table.put(nx, ny, source.contents);
        let next_log = log.push(prior);
        lemma_cell_at_stands(table.cells, nx, ny);
        lemma_put_wf(table, nx, ny, source.contents);
        assert forall|k: int| 0 <= k < next_log.len()
            implies (#[trigger] next_log[k]).x_loc >= 1 && next_log[k].y_loc >= 1 by {
            if k < log.len() {
                assert(next_log[k] == log[k]);
            }
        }
        assert forall|qx: nat, qy: nat| #[trigger]
            restores(origin, next_table.cells, next_log, qx, qy) by {
            assert(restores(origin, table.cells, log, qx, qy));
            lemma_push_reads(log, prior, qx, qy);
            lemma_put_reads(table, nx, ny, source.contents, qx, qy);
        }
        lemma_paste_faithful(
            origin,
            next_table,
            next_log,
            nx,
            ny,
            source.x_loc,
            source.y_loc,
            clipboard.drop_first(),
        );
    }
}

/// A mutating command keeps a grid well formed and leaves a record that
/// allows the text to be had back.
pub proof fn lemma_apply_faithful(doc: DocumentView, m: Mutation)
    requires
        doc.table.wf(),
    ensures
        doc.apply(m).table.wf(),
        doc.apply(m).last_action is Some,
        all_placed(doc.apply(m).last_action->0.cells_affected),
        faithful(
            doc.table.cells,
            doc.apply(m).table.cells,
            doc.apply(m).last_action->0.cells_affected,
        ),
{
    match m {
        Mutation::Insert { x, y, text } => {
            lemma_insert_faithful(doc, x, y, text);
            lemma_put_wf(doc.table, x, y, text);
        },
        Mutation::Delete => {
            lemma_delete_faithful(doc);
        },
        Mutation::Paste { x, y, clipboard } => {
            let ax: nat = if x == 0 { 1 } else { x };
            let ay: nat = if y == 0 { 1 } else { y };
            let px: nat = if clipboard.len() > 0 { clipboard[0].x_loc } else { 0 };
            let py: nat = if clipboard.len() > 0 { clipboard[0].y_loc } else { 0 };
            let cells = doc.table.cells;
            let empty = Seq::<CellView>::empty();
            assert forall|qx: nat, qy: nat| #[trigger] restores(cells, cells, empty, qx, qy) by {
                if occupied(empty, qx, qy) {
                    let k = choose|k: int| 0 <= k < empty.len() && #[trigger] empty[k].at(qx, qy);
                    assert(false);
                }
            }
            lemma_paste_faithful(cells, doc.table, empty, ax, ay, px, py, clipboard);
        },
    }
}

/// Undo directly after one insert, delete or paste gives every cell the
/// text that it had before that command.
pub proof fn theorem_undo_restores(doc: DocumentView, m: Mutation)
    requires
        doc.table.wf(),
    ensures
        same_text(doc.apply(m).undo().table.cells, doc.table.cells),
        doc.apply(m).undo().last_action is None,
        doc.apply(m).undo().table.wf(),
{
    lemma_apply_faithful(doc, m);
    let after = doc.apply(m);
    let log = after.last_action->0.cells_affected;
    lemma_replay_wf(after.table, log);
    assert forall|x: nat, y: nat| content_at(after.undo().table.cells, x, y)
        == content_at(doc.table.cells, x, y) by {
        lemma_replay_reads(after.table, log, x, y);
        assert(restores(doc.table.cells, after.table.cells, log, x, y));
    }
}

/// After two mutating commands in a row, undo takes back the second only:
/// every cell has the text that it had after the first.
pub proof fn theorem_undo_restores_last_only(doc: DocumentView, first: Mutation, second: Mutation)
    requires
        doc.table.wf(),
    ensures
        same_text(doc.apply(first).apply(second).undo().table.cells, doc.apply(first).table.cells),
{
    lemma_apply_faithful(doc, first);
    theorem_undo_restores(doc.apply(first), second);
}

/// Undo without a record, as after another undo, changes nothing.
pub proof fn theorem_undo_once(doc: DocumentView, m: Mutation)
    requires
        doc.table.wf(),
    ensures
        doc.apply(m).undo().undo() == doc.apply(m).undo(),
{
    lemma_apply_faithful(doc, m);
}

} // verus!
