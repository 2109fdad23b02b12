//! The viewport: focus, selection and scrolling over a document.

use crate::document::{Document, DocumentView};
use crate::grid::{column_width, lemma_column_beyond, max_col, selected};
use crate::table::{blank_cell, Block, Cell, CellView, TableView};
use crate::text::control_code;
use vstd::prelude::*;
use vstd::string::StrSliceExecFns;

verus! {

/// A coordinate: `x` counts columns and `y` counts rows. Cells of a grid
/// start at `(1, 1)`.
#[derive(Clone, Copy, Debug, PartialEq, Eq, Structural)]
pub struct Position {
    pub x: usize,
    pub y: usize,
}

impl Default for Position {
    fn default() -> (p: Position)
        ensures
            p.x == 0,
            p.y == 0,
    {
        Position { x: 0, y: 0 }
    }
}

/// The size of the terminal, in character cells.
#[derive(Clone, Copy, Debug, PartialEq, Eq, Structural)]
pub struct Size {
    pub width: u16,
    pub height: u16,
}

/// One input event, as far as the editor tells events apart.
#[derive(Clone, Copy, Debug, PartialEq, Eq, Structural)]
pub enum Key {
    Char(char),
    Ctrl(char),
    Up,
    Down,
    Left,
    Right,
    PageUp,
    PageDown,
    Home,
    End,
    Delete,
    Backspace,
    Esc,
    ShiftUp,
    ShiftDown,
    ShiftLeft,
    ShiftRight,
    CtrlUp,
    CtrlDown,
    CtrlLeft,
    CtrlRight,
    /// Any other event.
    Other,
}

/// The columns that the separator between two shown columns takes.
pub const COLUMN_SEPARATOR_WIDTH: usize = 4;

/// Where a movement key takes the focus, before the focus is held to the
/// least column and row. `rows` and `cols` are the extent of the grid.
///
/// The arrows move by one, down and right no further than one past the
/// extent. A page moves by the height of the terminal: up to row 1 where
/// less than a page lies above, down to the row two above the last where
/// less than a page lies below. Home and end go to the first and the last
/// column.
pub open spec fn moved(at: Position, key: Key, rows: nat, cols: nat,
    terminal_height: usize) -> Position {
    match key {
        Key::Up => Position { x: at.x, y: at.y.saturating_sub(1) },
        Key::Down => if at.y <= rows {
            Position { x: at.x, y: at.y.saturating_add(1) }
        } else {
            at
        },
        Key::Left => Position { x: at.x.saturating_sub(1), y: at.y },
        Key::Right => if at.x <= cols {
            Position { x: at.x.saturating_add(1), y: at.y }
        } else {
            at
        },
        Key::PageUp => if at.y > terminal_height + 1 {
            Position { x: at.x, y: (at.y - terminal_height) as usize }
        } else {
            Position { x: at.x, y: 1 }
        },
        Key::PageDown => if at.y + terminal_height < rows {
            Position { x: at.x, y: (at.y + terminal_height) as usize }
        } else {
            Position { x: at.x, y: if rows >= 2 {
                (rows - 2) as usize
            } else {
                0
            } }
        },
        Key::Home => Position { x: 1, y: at.y },
        Key::End => Position { x: cols as usize, y: at.y },
        _ => at,
    }
}

/// The position with a column and a row of at least 1.
pub open spec fn held(at: Position) -> Position {
    Position { x: if at.x == 0 {
        1
    } else {
        at.x
    }, y: if at.y == 0 {
        1
    } else {
        at.y
    } }
}

/// The vertical offset that keeps row `y` within a window of `height` rows
/// that starts at the offset: the old one where the row is within, else the
/// nearest one that has the row within.
pub open spec fn vertical_offset(offset: usize, y: usize, height: usize) -> usize {
    if y < offset {
        y
    } else if y >= offset.saturating_add(height) {
        y.saturating_sub(height).saturating_add(1)
    } else {
        offset
    }
}

/// The width that the columns from `from` up to, but without, `end` take
/// when they are shown, each with its separator.
pub open spec fn span_width(cells: Seq<CellView>, from: nat, end: nat) -> nat
    decreases end,
{
    if from >= end {
        0
    } else {
        span_width(cells, from, (end - 1) as nat) + column_width(cells, (end - 1) as nat)
            + COLUMN_SEPARATOR_WIDTH as nat
    }
}

/// The horizontal offset after one recompute for the focus column `x` in a
/// terminal of `width` columns. It moves one column to the left where the
/// columns from the offset to the focus are no wider than the offset column
/// alone; else one column to the right where they reach the offset plus the
/// width of the terminal; else it stays.
pub open spec fn horizontal_offset(cells: Seq<CellView>, offset: usize, x: usize,
    width: usize) -> usize {
    let span = span_width(cells, offset as nat, (x + 1) as nat);
    if offset >= 1 && span - COLUMN_SEPARATOR_WIDTH <= column_width(cells, offset as nat) {
        (offset - 1) as usize
    } else if span >= offset + width {
        offset.saturating_add(1)
    } else {
        offset
    }
}

/// Columns beyond the last column of the grid add their separators to the
/// width of a span, and nothing else.
pub proof fn lemma_span_beyond(cells: Seq<CellView>, from: nat, mid: nat, end: nat)
    requires
        from <= mid <= end,
        mid > max_col(cells),
    ensures
        span_width(cells, from, end) == span_width(cells, from, mid) + COLUMN_SEPARATOR_WIDTH * (end
            - mid),
    decreases end,
{
    if end > mid {
        lemma_span_beyond(cells, from, mid, (end - 1) as nat);
        lemma_column_beyond(cells, (end - 1) as nat);
    }
}

/// A bound beyond every width that a recompute of the horizontal offset
/// compares with.
pub const SPAN_LIMIT: u128 = 0x4_0000_0000_0000_0000;

/// `n`, or the bound where `n` is beyond it.
pub open spec fn limited(n: nat) -> nat {
    if n > SPAN_LIMIT {
        SPAN_LIMIT as nat
    } else {
        n
    }
}

/// The cells that a shift-arrow key selects beside the focus: those between
/// the focus and the edge of the grid in the direction of the arrow. `rows`
/// and `cols` are the extent of the grid.
pub open spec fn edge_block(focus: Position, key: Key, rows: nat, cols: nat) -> Block {
    let x = focus.x as nat;
    let y = focus.y as nat;
    match key {
        Key::ShiftUp => Block { x0: x, y0: 1, x1: x, y1: y },
        Key::ShiftDown => Block { x0: x, y0: y, x1: x, y1: rows },
        Key::ShiftLeft => Block { x0: 1, y0: y, x1: x, y1: y },
        Key::ShiftRight => Block { x0: x, y0: y, x1: cols, y1: y },
        _ => Block { x0: x, y0: y, x1: x, y1: y },
    }
}

/// The cells that the `count`-th repetition of a control-arrow key selects:
/// those between the focus and `count` cells from it in the direction of the
/// arrow.
pub open spec fn ray_block(focus: Position, key: Key, count: usize) -> Block {
    let x = focus.x as nat;
    let y = focus.y as nat;
    match key {
        Key::CtrlLeft => Block { x0: focus.x.saturating_sub(count) as nat, y0: y, x1: x, y1: y },
        Key::CtrlRight => Block { x0: x, y0: y, x1: focus.x.saturating_add(count) as nat, y1: y },
        Key::CtrlUp => Block { x0: x, y0: focus.y.saturating_sub(count) as nat, x1: x, y1: y },
        Key::CtrlDown => Block { x0: x, y0: y, x1: x, y1: focus.y.saturating_add(count) as nat },
        _ => Block { x0: x, y0: y, x1: x, y1: y },
    }
}

/// What the editor is in the middle of.
#[derive(Debug)]
pub enum Mode {
    /// Nothing: the next key is a command.
    Normal,
    /// The document has unsaved changes and quitting was asked for: the
    /// same key once more quits.
    ConfirmQuit,
    /// A line of text is being typed.
    Prompt { purpose: Purpose, input: String },
    /// A selection grows from the focus with each repetition of `key`.
    Selecting { key: Key, count: usize },
}

/// What a typed line of text is for.
#[derive(Clone, Copy, Debug, PartialEq, Eq, Structural)]
pub enum Purpose {
    /// The text goes into the cell at the focus.
    Insert,
    /// The text names the file to save to.
    SaveAs,
}

/// What the editor is in the middle of, as mathematical values.
pub enum ModeView {
    Normal,
    ConfirmQuit,
    Prompt { purpose: Purpose, input: Seq<char> },
    Selecting { key: Key, count: nat },
}

impl View for Mode {
    type V = ModeView;

    open spec fn view(&self) -> ModeView {
        match self {
            Mode::Normal => ModeView::Normal,
            Mode::ConfirmQuit => ModeView::ConfirmQuit,
            Mode::Prompt { purpose, input } => ModeView::Prompt { purpose: *purpose,
                input: input@ },
            Mode::Selecting { key, count } => ModeView::Selecting { key: *key,
                count: *count as nat },
        }
    }
}

/// One session: a document, the focus and the scroll offset over it, the
/// clipboard, and what the editor is in the middle of.
#[derive(Debug)]
pub struct Editor {
    pub should_quit: bool,
    pub cell_index: Position,
    pub offset: Position,
    pub document: Document,
    pub copy: Vec<Cell>,
    pub mode: Mode,
}

/// What a session holds, as mathematical values.
pub struct EditorView {
    pub should_quit: bool,
    pub cell_index: Position,
    pub offset: Position,
    pub document: DocumentView,
    pub copy: Seq<CellView>,
    pub mode: ModeView,
}

impl View for Editor {
    type V = EditorView;

    open spec fn view(&self) -> EditorView {
        EditorView {
            should_quit: self.should_quit,
            cell_index: self.cell_index,
            offset: self.offset,
            document: self.document@,
            copy: self.copy@.map_values(|c: Cell| c@),
            mode: self.mode@,
        }
    }
}

impl EditorView {
    /// The session after the grid grew to hold the focus: by a row where
    /// the focus is below the last row, then by a column where it is right
    /// of the last column. Either happens only one past the extent.
    pub open spec fn update_document_dimensions(self) -> EditorView {
        let with_row = if self.cell_index.y > self.document.table.num_rows() {
            self.document.insert_newrow(self.cell_index.y as nat)
        } else {
            self.document
        };
        let with_column = if self.cell_index.x > self.document.table.num_cols() {
            with_row.insert_newcol(self.cell_index.x as nat)
        } else {
            with_row
        };
        EditorView { document: with_column, ..self }
    }
}

/// What a key press lets the user know.
#[derive(Clone, Copy, Debug, PartialEq, Eq, Structural)]
pub enum Notice {
    /// Nothing new.
    Nothing,
    /// Quitting would lose changes; the same key once more quits.
    UnsavedChanges,
    /// The name to save to was not given: nothing is saved.
    NotSaving,
    /// The text to insert was not given: nothing is inserted.
    NotInserted,
    Copied,
    NothingToPaste,
    Pasted,
    Cut,
    Deleted,
    Undone,
    /// There is no record to undo from: one level of undo is all there is.
    NothingToUndo,
    /// A selection grows with each repetition of the key.
    Selecting,
    /// The selection stands as it was grown.
    StoppedSelecting,
}

/// What a key press asks of the surroundings of the library.
#[derive(Clone, Copy, Debug, PartialEq, Eq, Structural)]
pub enum Request {
    Nothing,
    /// Write what `Document::save` prepares, and call `Document::mark_saved`
    /// where that went well.
    Save,
    /// Compute the statistics of the selected cells and show them.
    Summarize,
}

/// What a key press leaves for the surroundings of the library to do.
#[derive(Clone, Copy, Debug, PartialEq, Eq, Structural)]
pub struct Outcome {
    pub notice: Notice,
    pub request: Request,
}

/// Whether the key moves the focus.
pub open spec fn moves_focus(key: Key) -> bool {
    key == Key::Up || key == Key::Down || key == Key::Left || key == Key::Right
        || key == Key::PageUp
        || key == Key::PageDown || key == Key::Home || key == Key::End
}

/// Whether the key is an arrow with shift.
pub open spec fn is_shift_arrow(key: Key) -> bool {
    key == Key::ShiftUp || key == Key::ShiftDown || key == Key::ShiftLeft || key == Key::ShiftRight
}

/// Whether the key is an arrow with control.
pub open spec fn is_ctrl_arrow(key: Key) -> bool {
    key == Key::CtrlUp || key == Key::CtrlDown || key == Key::CtrlLeft || key == Key::CtrlRight
}

impl EditorView {
    /// The session with another document.
    pub open spec fn with_document(self, document: DocumentView) -> EditorView {
        EditorView { document, ..self }
    }

    /// The session after a command has run its course: the grid grows to
    /// hold the focus, the focus is held to the least column and row, the
    /// focus alone is selected, and the scroll offset follows the focus.
    pub open spec fn settle(self, size: Size) -> EditorView {
        let grown = self.update_document_dimensions();
        let focus = held(grown.cell_index);
        let table = grown.document.table.highlight(focus.x as nat, focus.y as nat);
        EditorView {
            cell_index: focus,
            document: DocumentView { table, ..grown.document },
            offset: Position {
                x: horizontal_offset(table.cells, grown.offset.x, focus.x, size.width as usize),
                y: vertical_offset(grown.offset.y, focus.y,
                    (size.height as usize).saturating_sub(1)),
            },
            ..grown
        }
    }

    /// The session after a key in the mode that asks whether to quit: the
    /// key that asked quits, any other key does not.
    pub open spec fn confirm_quit(self, key: Key, size: Size) -> (EditorView, Outcome) {
        (
            EditorView { should_quit: key
                == Key::Ctrl('q'), mode: ModeView::Normal, ..self }.settle(size),
            Outcome { notice: Notice::Nothing, request: Request::Nothing },
        )
    }

    /// The session after a typed line was given up or completed.
    pub open spec fn finish_prompt(self, purpose: Purpose, input: Seq<char>, size: Size) -> (
        EditorView,
        Outcome,
    ) {
        let normal = EditorView { mode: ModeView::Normal, ..self };
        match purpose {
            Purpose::Insert => if input.len() == 0 {
                (normal, Outcome { notice: Notice::NotInserted, request: Request::Nothing })
            } else {
                (
                    normal.with_document(
                        self.document.insert(self.cell_index.x as nat, self.cell_index.y as nat,
                            input),
                    ),
                    Outcome { notice: Notice::Nothing, request: Request::Nothing },
                )
            },
            Purpose::SaveAs => if input.len() == 0 {
                (normal.settle(size),
                    Outcome { notice: Notice::NotSaving, request: Request::Nothing })
            } else {
                (
                    normal.with_document(DocumentView { file_name: Some(input),
                        ..self.document }).settle(
                        size,
                    ),
                    Outcome { notice: Notice::Nothing, request: Request::Save },
                )
            },
        }
    }

    /// The session after a key while a line is typed: backspace takes the
    /// last character back, the return key completes the line, escape gives
    /// it up, a character that is no control code joins it, and any other
    /// key does nothing.
    pub open spec fn prompt(self, purpose: Purpose, input: Seq<char>, key: Key, size: Size) -> (
        EditorView,
        Outcome,
    ) {
        let quiet = Outcome { notice: Notice::Nothing, request: Request::Nothing };
        match key {
            Key::Backspace => (
                EditorView {
                    mode: ModeView::Prompt { purpose, input: if input.len() > 0 {
                        input.drop_last()
                    } else {
                        input
                    } },
                    ..self
                },
                quiet,
            ),
            Key::Char(c) => if c == '\n' {
                self.finish_prompt(purpose, input, size)
            } else if !control_code(c) {
                (EditorView { mode: ModeView::Prompt { purpose, input: input.push(c) }, ..self },
                    quiet)
            } else {
                (EditorView { mode: ModeView::Prompt { purpose, input }, ..self }, quiet)
            },
            Key::Esc => self.finish_prompt(purpose, Seq::empty(), size),
            _ => (EditorView { mode: ModeView::Prompt { purpose, input }, ..self }, quiet),
        }
    }

    /// The session after a key while a selection grows: the key that began
    /// it grows it by one cell, any other key ends the mode and leaves the
    /// selection as it is.
    pub open spec fn handle_highlight_selection(self, trigger: Key, count: nat, key: Key) -> (
        EditorView,
        Outcome,
    ) {
        if key == trigger {
            let next = (count as usize).saturating_add(1);
            (
                EditorView {
                    mode: ModeView::Selecting { key: trigger, count: next as nat },
                    document: DocumentView {
                        table: self.document.table.select(
                            self.cell_index.x as nat,
                            self.cell_index.y as nat,
                            ray_block(self.cell_index, trigger, next),
                        ),
                        ..self.document
                    },
                    ..self
                },
                Outcome { notice: Notice::Selecting, request: Request::Nothing },
            )
        } else {
            (
                EditorView { mode: ModeView::Normal, ..self },
                Outcome { notice: Notice::StoppedSelecting, request: Request::Nothing },
            )
        }
    }

    /// The session after a key that is a command.
    pub open spec fn command(self, key: Key, size: Size) -> (EditorView, Outcome) {
        let quiet = Outcome { notice: Notice::Nothing, request: Request::Nothing };
        let focus_x = self.cell_index.x as nat;
        let focus_y = self.cell_index.y as nat;
        if key == Key::Ctrl('q') {
            if self.document.saved {
                (EditorView { should_quit: true, ..self }.settle(size), quiet)
            } else {
                (
                    EditorView { mode: ModeView::ConfirmQuit, ..self },
                    Outcome { notice: Notice::UnsavedChanges, request: Request::Nothing },
                )
            }
        } else if key == Key::Ctrl('s') {
            if self.document.file_name is Some {
                (self.settle(size), Outcome { notice: Notice::Nothing, request: Request::Save })
            } else {
                (
                    EditorView {
                        mode: ModeView::Prompt { purpose: Purpose::SaveAs, input: Seq::empty() },
                        ..self
                    },
                    quiet,
                )
            }
        } else if key == Key::Char('\n') {
            (
                EditorView {
                    mode: ModeView::Prompt { purpose: Purpose::Insert, input: Seq::empty() },
                    ..self
                },
                quiet,
            )
        } else if key == Key::Char('=') {
            (self, Outcome { notice: Notice::Nothing, request: Request::Summarize })
        } else if key is Char {
            (self, quiet)
        } else if key == Key::Ctrl('c') {
            (
                EditorView { copy: selected(self.document.table.cells), ..self }.settle(size),
                Outcome { notice: Notice::Copied, request: Request::Nothing },
            )
        } else if key == Key::Ctrl('v') {
            if self.copy.len() == 0 {
                (self.settle(size),
                    Outcome { notice: Notice::NothingToPaste, request: Request::Nothing })
            } else {
                (
                    self.with_document(self.document.paste(focus_x, focus_y,
                        self.copy)).settle(size),
                    Outcome { notice: Notice::Pasted, request: Request::Nothing },
                )
            }
        } else if key == Key::Ctrl('x') {
            (
                EditorView {
                    copy: selected(self.document.table.cells),
                    document: self.document.delete(),
                    ..self
                }.settle(size),
                Outcome { notice: Notice::Cut, request: Request::Nothing },
            )
        } else if key == Key::Delete {
            (
                self.with_document(self.document.delete()).settle(size),
                Outcome { notice: Notice::Deleted, request: Request::Nothing },
            )
        } else if key == Key::Ctrl('z') {
            (
                self.with_document(self.document.undo()).settle(size),
                Outcome {
                    notice: if self.document.last_action is Some {
                        Notice::Undone
                    } else {
                        Notice::NothingToUndo
                    },
                    request: Request::Nothing,
                },
            )
        } else if is_ctrl_arrow(key) {
            EditorView { mode: ModeView::Selecting { key, count: 0 },
                ..self }.handle_highlight_selection(
                key,
                0,
                key,
            )
        } else if is_shift_arrow(key) {
            (
                self.with_document(
                    DocumentView {
                        table: self.document.table.select(
                            focus_x,
                            focus_y,
                            edge_block(
                                self.cell_index,
                                key,
                                self.document.table.num_rows(),
                                self.document.table.num_cols(),
                            ),
                        ),
                        ..self.document
                    },
                ),
                quiet,
            )
        } else if moves_focus(key) {
            (
                EditorView {
                    cell_index: moved(
                        self.cell_index,
                        key,
                        self.document.table.num_rows(),
                        self.document.table.num_cols(),
                        size.height as usize,
                    ),
                    ..self
                }.settle(size),
                quiet,
            )
        } else {
            (self.settle(size), quiet)
        }
    }

    /// The session after one key press in a terminal of the given size, and
    /// what the key press leaves to do.
    pub open spec fn process_keypress(self, key: Key, size: Size) -> (EditorView, Outcome) {
        match self.mode {
            ModeView::Normal => self.command(key, size),
            ModeView::ConfirmQuit => self.confirm_quit(key, size),
            ModeView::Prompt { purpose, input } => self.prompt(purpose, input, key, size),
            ModeView::Selecting { key: trigger, count } => {
                self.handle_highlight_selection(trigger, count, key)
            },
        }
    }
}

/// The vertical offset keeps the focus row within the window and moves by
/// the least amount: it stays where the row is within the window, goes up
/// to the row where the row is above, and goes down until the row is the
/// last of the window where the row is below.
pub proof fn theorem_vertical_offset(offset: usize, y: usize, height: usize)
    requires
        height >= 1,
        y < usize::MAX,
    ensures
        vertical_offset(offset, y, height) <= y < vertical_offset(offset, y, height) + height,
        offset <= y < offset + height ==> vertical_offset(offset, y, height) == offset,
        y < offset ==> vertical_offset(offset, y, height) == y,
        y >= offset + height ==> vertical_offset(offset, y, height) + height - 1 == y,
{
}

/// The horizontal offset moves by one column at most.
pub proof fn theorem_horizontal_offset(cells: Seq<CellView>, offset: usize, x: usize, width: usize)
    ensures
        horizontal_offset(cells, offset, x, width) - offset <= 1,
        offset - horizontal_offset(cells, offset, x, width) <= 1,
{
}

/// After a command has run its course the focus has a column and a row of
/// at least 1, and the focus alone is selected.
pub proof fn theorem_settled(editor: EditorView, size: Size)
    ensures
        ({
            let settled = editor.settle(size);
            let focus = settled.cell_index;
            let cells = settled.document.table.cells;
            &&& focus.x >= 1
            &&& focus.y >= 1
            &&& forall|i: int| 0 <= i < cells.len()
                ==> (#[trigger] cells[i]).highlighted == cells[i].at(focus.x as nat, focus.y as nat)
        }),
{
}

/// A control-arrow key selects exactly the cells between the focus and
/// `count` cells from it: the focus is one of them.
pub proof fn theorem_ray_is_a_block(table: TableView, focus: Position, key: Key, count: usize)
    ensures
        ({
            let block = ray_block(focus, key, count);
            let cells = table.select(focus.x as nat, focus.y as nat, block).cells;
            forall|i: int| 0 <= i < table.cells.len()
                ==> (#[trigger] cells[i]).highlighted == block.holds(table.cells[i])
        }),
{
}

/// The clipboard is a snapshot: no key changes it but the keys that take
/// one. Whatever a key does to the grid, the clipboard that the session
/// holds stays what it was.
pub proof fn theorem_clipboard_is_kept(editor: EditorView, key: Key, size: Size)
    requires
        !(editor.mode is Normal && (key == Key::Ctrl('c') || key == Key::Ctrl('x'))),
    ensures
        editor.process_keypress(key, size).0.copy == editor.copy,
{
}

/// Any key but the one that grows a selection ends the growing and leaves
/// the selection, the focus and the grid as they are.
pub proof fn theorem_selection_stays(editor: EditorView, trigger: Key, count: nat, key: Key,
    size: Size)
    requires
        editor.mode == (ModeView::Selecting { key: trigger, count }),
        key != trigger,
    ensures
        editor.process_keypress(key, size).0 == (EditorView { mode: ModeView::Normal, ..editor }),
{
}

impl Default for Editor {
    /// A session over a document without a file.
    fn default() -> (editor: Editor)
        ensures
            editor@ == (EditorView {
                should_quit: false,
                cell_index: Position { x: 1, y: 2 },
                offset: Position { x: 0, y: 1 },
                document: DocumentView {
                    file_name: None,
                    table: TableView {
                        cells: seq![blank_cell(1, 1)],
                        widest_cell_length: 0,
                        width_sum: 0,
                        cell_count: 0,
                    },
                    saved: false,
                    last_action: None,
                },
                copy: Seq::empty(),
                mode: ModeView::Normal,
            }),
            editor.wf(),
    {
        Editor::new(Document::default())
    }
}

impl Editor {
    /// The document holds what a document may hold.
    pub open spec fn wf(&self) -> bool {
        self.document.wf()
    }

    /// A session over `document`, with the focus on the second row of the
    /// first column.
    pub fn new(document: Document) -> (editor: Editor)
        ensures
            editor@ == (EditorView {
                should_quit: false,
                cell_index: Position { x: 1, y: 2 },
                offset: Position { x: 0, y: 1 },
                document: document@,
                copy: Seq::empty(),
                mode: ModeView::Normal,
            }),
            document.wf() ==> editor.wf(),
    {
        let editor = Editor {
            should_quit: false,
            cell_index: Position { x: 1, y: 2 },
            offset: Position { x: 0, y: 1 },
            document,
            copy: Vec::new(),
            mode: Mode::Normal,
        };
        assert(editor@.copy =~= Seq::<CellView>::empty());
        editor
    }

    /// Moves the focus as `key` asks, in a terminal of the given height.
    /// The focus is not yet held to the least column and row.
    pub fn move_position(&mut self, key: Key, terminal_height: usize)
        ensures
            final(self)@ == (EditorView {
                cell_index: moved(
                    old(self)@.cell_index,
                    key,
                    old(self)@.document.table.num_rows(),
                    old(self)@.document.table.num_cols(),
                    terminal_height,
                ),
                ..old(self)@
            }),
    {
        let height = self.document.table.num_rows();
        let width = self.document.table.num_cols();
        let Position { mut x, mut y } = self.cell_index;
        match key {
            Key::Up => {
                y = y.saturating_sub(1);
            },
            Key::Down => {
                if y <= height {
                    y = y.saturating_add(1);
                }
            },
            Key::Left => {
                x = x.saturating_sub(1);
            },
            Key::Right => {
                if x <= width {
                    x = x.saturating_add(1);
                }
            },
            Key::PageUp => {
                y = if terminal_height < usize::MAX && y > terminal_height + 1 {
                    y - terminal_height
                } else {
                    1
                };
            },
            Key::PageDown => {
                y = if terminal_height < height && y < height - terminal_height {
                    y + terminal_height
                } else {
                    height.saturating_sub(2)
                };
            },
            Key::Home => {
                x = 1;
            },
            Key::End => {
                x = width;
            },
            _ => {},
        }
        self.cell_index = Position { x, y };
    }

    /// Grows the grid to hold the focus, where the focus is one past the
    /// extent.
    pub fn update_document_dimensions(&mut self)
        ensures
            final(self)@ == old(self)@.update_document_dimensions(),
            old(self).wf() ==> final(self).wf(),
    {
        let num_rows = self.document.table.num_rows();
        let num_cols = self.document.table.num_cols();
        if self.cell_index.y > num_rows {
            self.document.insert_newrow(&self.cell_index);
        }
        if self.cell_index.x > num_cols {
            self.document.insert_newcol(&self.cell_index);
        }
    }

    /// Holds the focus to the least column and row.
    pub fn handle_boundary_conditions(&mut self)
        ensures
            final(self)@ == (EditorView { cell_index: held(old(self)@.cell_index), ..old(self)@ }),
    {
        if self.cell_index.y == 0 {
            self.cell_index.y = 1;
        }
        if self.cell_index.x == 0 {
            self.cell_index.x = 1;
        }
    }

    /// Brings the focus row back into the window of `height` rows.
    pub fn scroll_vertical(&mut self, y: usize, height: usize)
        ensures
            final(self)@ == (EditorView {
                offset: Position {
                    x: old(self)@.offset.x,
                    y: vertical_offset(old(self)@.offset.y, y, height),
                },
                ..old(self)@
            }),
            height >= 1 && y < usize::MAX
                ==> final(self).offset.y <= y < final(self).offset.y + height,
    {
        if y < self.offset.y {
            self.offset.y = y;
        } else if y >= self.offset.y.saturating_add(height) {
            self.offset.y = y.saturating_sub(height).saturating_add(1);
        }
    }

    /// Moves the horizontal offset by at most one column towards showing
    /// the focus column `x` in a terminal of `width` columns.
    pub fn scroll_horizontal(&mut self, x: usize, width: usize)
        ensures
            final(self)@ == (EditorView {
                offset: Position {
                    x: horizontal_offset(old(self)@.document.table.cells, old(self)@.offset.x, x,
                        width),
                    y: old(self)@.offset.y,
                },
                ..old(self)@
            }),
            final(self).offset.x - old(self).offset.x <= 1,
            old(self).offset.x - final(self).offset.x <= 1,
    {
        let start = self.offset.x;
        let ghost cells = self.document@.table.cells;
        let cols = self.document.table.num_cols();
        let mut span: u128 = 0;
        if start <= x {
            let last = if x <= cols { x } else { cols };
            if start <= last {
                let count = last - start;
                for k in 0..count
                    invariant
                        count == last - start,
                        start <= last,
                        cells == self.document@.table.cells,
                        span == limited(span_width(cells, start as nat, (start + k) as nat)),
                {
                    let w = self.document.table.column_width(start + k);
                    let next = span + w as u128 + COLUMN_SEPARATOR_WIDTH as u128;
                    span = if next > SPAN_LIMIT { SPAN_LIMIT } else { next };
                }
                let w = self.document.table.column_width(last);
                let next = span + w as u128 + COLUMN_SEPARATOR_WIDTH as u128;
                span = if next > SPAN_LIMIT { SPAN_LIMIT } else { next };
                if x > last {
                    let next = span + (x - last) as u128 * COLUMN_SEPARATOR_WIDTH as u128;
                    span = if next > SPAN_LIMIT { SPAN_LIMIT } else { next };
                    proof {
                        lemma_span_beyond(cells, start as nat, (last + 1) as nat, (x + 1) as nat);
                    }
                }
            } else {
                let next = (x - start) as u128 * COLUMN_SEPARATOR_WIDTH as u128
                    + COLUMN_SEPARATOR_WIDTH as u128;
                span = if next > SPAN_LIMIT { SPAN_LIMIT } else { next };
                proof {
                    lemma_span_beyond(cells, start as nat, start as nat, (x + 1) as nat);
                }
            }
        }
        assert(span == limited(span_width(cells, start as nat, (x + 1) as nat)));
        let first = self.document.table.column_width(start);
        if start >= 1 && span <= first as u128 + COLUMN_SEPARATOR_WIDTH as u128 {
            self.offset.x = start - 1;
        } else if span >= start as u128 + width as u128 {
            self.offset.x = start.saturating_add(1);
        }
    }

    /// Recomputes the scroll offset for the focus in a terminal of the
    /// given size: first the vertical offset, for a window one row lower
    /// than the terminal, then the horizontal offset.
    pub fn scroll(&mut self, size: Size)
        ensures
            final(self)@ == (EditorView {
                offset: Position {
                    x: horizontal_offset(
                        old(self)@.document.table.cells,
                        old(self)@.offset.x,
                        old(self)@.cell_index.x,
                        size.width as usize,
                    ),
                    y: vertical_offset(
                        old(self)@.offset.y,
                        old(self)@.cell_index.y,
                        (size.height as usize).saturating_sub(1),
                    ),
                },
                ..old(self)@
            }),
    {
        let Position { x, y } = self.cell_index;
        let width = size.width as usize;
        let height = (size.height as usize).saturating_sub(1);
        self.scroll_vertical(y, height);
        self.scroll_horizontal(x, width);
    }

    /// Selects, beside what is selected, the cells of the focus column in
    /// the rows `first..=last`.
    pub fn highlight_row(&mut self, first: usize, last: usize)
        ensures
            final(self)@ == (EditorView {
                document: DocumentView {
                    table: old(self)@.document.table.highlight_rows(
                        old(self)@.cell_index.x as nat,
                        first as nat,
                        last as nat,
                    ),
                    ..old(self)@.document
                },
                ..old(self)@
            }),
            old(self).wf() ==> final(self).wf(),
    {
        let ghost before = self@;
        let x = self.cell_index.x;
        if first <= last {
            let count = last - first;
            for k in 0..count
                invariant
                    first <= last,
                    count == last - first,
                    x == before.cell_index.x,
                    old(self).wf() ==> self.wf(),
                    self@.document.table.cells.len() == before.document.table.cells.len(),
                    self@ == (EditorView {
                        document: DocumentView {
                            table: TableView {
                                cells: self@.document.table.cells,
                                ..before.document.table
                            },
                            ..before.document
                        },
                        ..before
                    }),
                    forall|i: int| 0 <= i < before.document.table.cells.len()
                        ==> #[trigger] self@.document.table.cells[i] == (
                    if before.document.table.cells[i].x_loc == x
                        && first <= before.document.table.cells[i].y_loc < first + k {
                        before.document.table.cells[i].with_highlight(true)
                    } else {
                        before.document.table.cells[i]
                    }),
            {
                self.document.multi_highlight(&Position { x, y: first + k });
            }
            self.document.multi_highlight(&Position { x, y: last });
            assert(self@.document.table.cells =~= before.document.table.highlight_rows(
                x as nat,
                first as nat,
                last as nat,
            ).cells);
        } else {
            assert(self@.document.table.cells =~= before.document.table.highlight_rows(
                x as nat,
                first as nat,
                last as nat,
            ).cells);
        }
    }

    /// Selects, beside what is selected, the cells of the focus row in the
    /// columns `first..=last`.
    pub fn highlight_col(&mut self, first: usize, last: usize)
        ensures
            final(self)@ == (EditorView {
                document: DocumentView {
                    table: old(self)@.document.table.highlight_cols(
                        old(self)@.cell_index.y as nat,
                        first as nat,
                        last as nat,
                    ),
                    ..old(self)@.document
                },
                ..old(self)@
            }),
            old(self).wf() ==> final(self).wf(),
    {
        let ghost before = self@;
        let y = self.cell_index.y;
        if first <= last {
            let count = last - first;
            for k in 0..count
                invariant
                    first <= last,
                    count == last - first,
                    y == before.cell_index.y,
                    old(self).wf() ==> self.wf(),
                    self@.document.table.cells.len() == before.document.table.cells.len(),
                    self@ == (EditorView {
                        document: DocumentView {
                            table: TableView {
                                cells: self@.document.table.cells,
                                ..before.document.table
                            },
                            ..before.document
                        },
                        ..before
                    }),
                    forall|i: int| 0 <= i < before.document.table.cells.len()
                        ==> #[trigger] self@.document.table.cells[i] == (
                    if before.document.table.cells[i].y_loc == y
                        && first <= before.document.table.cells[i].x_loc < first + k {
                        before.document.table.cells[i].with_highlight(true)
                    } else {
                        before.document.table.cells[i]
                    }),
            {
                self.document.multi_highlight(&Position { x: first + k, y });
            }
            self.document.multi_highlight(&Position { x: last, y });
            assert(self@.document.table.cells =~= before.document.table.highlight_cols(
                y as nat,
                first as nat,
                last as nat,
            ).cells);
        } else {
            assert(self@.document.table.cells =~= before.document.table.highlight_cols(
                y as nat,
                first as nat,
                last as nat,
            ).cells);
        }
    }

    /// Selects the focus and every cell between it and the edge of the
    /// grid in the direction of the shift-arrow key `key`, and nothing
    /// else. Any other key selects the focus alone.
    pub fn select_to_edge(&mut self, key: Key)
        ensures
            final(self)@ == (EditorView {
                document: DocumentView {
                    table: old(self)@.document.table.select(
                        old(self)@.cell_index.x as nat,
                        old(self)@.cell_index.y as nat,
                        edge_block(
                            old(self)@.cell_index,
                            key,
                            old(self)@.document.table.num_rows(),
                            old(self)@.document.table.num_cols(),
                        ),
                    ),
                    ..old(self)@.document
                },
                ..old(self)@
            }),
            old(self).wf() ==> final(self).wf(),
    {
        let ghost before = self@;
        let Position { x, y } = self.cell_index;
        let rows = self.document.table.num_rows();
        let cols = self.document.table.num_cols();
        self.document.highlight(&self.cell_index);
        match key {
            Key::ShiftUp => self.highlight_row(1, y),
            Key::ShiftDown => self.highlight_row(y, rows),
            Key::ShiftLeft => self.highlight_col(1, x),
            Key::ShiftRight => self.highlight_col(x, cols),
            _ => {},
        }
        assert(self@.document.table.cells =~= before.document.table.select(
            x as nat,
            y as nat,
            edge_block(before.cell_index, key, rows as nat, cols as nat),
        ).cells);
    }

    /// Selects the cells between the focus and `count` cells from it in the
    /// direction of the control-arrow key `key`, and nothing else. Any
    /// other key selects the focus alone.
    pub fn select_ray(&mut self, key: Key, count: usize)
        ensures
            final(self)@ == (EditorView {
                document: DocumentView {
                    table: old(self)@.document.table.select(
                        old(self)@.cell_index.x as nat,
                        old(self)@.cell_index.y as nat,
                        ray_block(old(self)@.cell_index, key, count),
                    ),
                    ..old(self)@.document
                },
                ..old(self)@
            }),
            old(self).wf() ==> final(self).wf(),
    {
        let ghost before = self@;
        let Position { x, y } = self.cell_index;
        self.document.highlight(&self.cell_index);
        match key {
            Key::CtrlLeft => self.highlight_col(x.saturating_sub(count), x),
            Key::CtrlRight => self.highlight_col(x, x.saturating_add(count)),
            Key::CtrlUp => self.highlight_row(y.saturating_sub(count), y),
            Key::CtrlDown => self.highlight_row(y, y.saturating_add(count)),
            _ => {},
        }
        assert(self@.document.table.cells =~= before.document.table.select(
            x as nat,
            y as nat,
            ray_block(before.cell_index, key, count),
        ).cells);
    }

    /// Lets a command run its course: grows the grid to hold the focus,
    /// holds the focus to the least column and row, selects the focus
    /// alone, and lets the scroll offset follow.
    pub fn settle(&mut self, size: Size)
        ensures
            final(self)@ == old(self)@.settle(size),
            old(self).wf() ==> final(self).wf(),
    {
        self.update_document_dimensions();
        self.handle_boundary_conditions();
        self.document.highlight(&self.cell_index);
        self.scroll(size);
    }

    /// Completes or gives up a typed line.
    fn finish_prompt(&mut self, purpose: Purpose, input: String, size: Size) -> (outcome: Outcome)
        ensures
            (final(self)@, outcome) == old(self)@.finish_prompt(purpose, input@, size),
            old(self).wf() ==> final(self).wf(),
    {
        self.mode = Mode::Normal;
        let empty = input.as_str().unicode_len() == 0;
        match purpose {
            Purpose::Insert => {
                if empty {
                    Outcome { notice: Notice::NotInserted, request: Request::Nothing }
                } else {
                    self.document.insert(&self.cell_index, input.as_str());
                    Outcome { notice: Notice::Nothing, request: Request::Nothing }
                }
            },
            Purpose::SaveAs => {
                if empty {
                    self.settle(size);
                    Outcome { notice: Notice::NotSaving, request: Request::Nothing }
                } else {
                    self.document.file_name = Some(input);
                    self.settle(size);
                    Outcome { notice: Notice::Nothing, request: Request::Save }
                }
            },
        }
    }

    /// Takes one key while a line is typed.
    fn prompt(&mut self, purpose: Purpose, input: String, key: Key,
        size: Size) -> (outcome: Outcome)
        ensures
            (final(self)@, outcome) == old(self)@.prompt(purpose, input@, key, size),
            old(self).wf() ==> final(self).wf(),
    {
        let quiet = Outcome { notice: Notice::Nothing, request: Request::Nothing };
        let mut input = input;
        match key {
            Key::Backspace => {
                let _ = input.pop();
                self.mode = Mode::Prompt { purpose, input };
                quiet
            },
            Key::Char(c) => {
                if c == '\n' {
                    self.finish_prompt(purpose, input, size)
                } else if !c.is_control() {
                    input.push(c);
                    self.mode = Mode::Prompt { purpose, input };
                    quiet
                } else {
                    self.mode = Mode::Prompt { purpose, input };
                    quiet
                }
            },
            Key::Esc => self.finish_prompt(purpose, String::new(), size),
            _ => {
                self.mode = Mode::Prompt { purpose, input };
                quiet
            },
        }
    }

    /// Takes one key while a selection grows from the focus.
    fn handle_highlight_selection(&mut self, trigger: Key, count: usize,
        key: Key) -> (outcome: Outcome)
        ensures
            (final(self)@, outcome)
                == old(self)@.handle_highlight_selection(trigger, count as nat, key),
            old(self).wf() ==> final(self).wf(),
    {
        if key == trigger {
            let next = count.saturating_add(1);
            self.select_ray(trigger, next);
            self.mode = Mode::Selecting { key: trigger, count: next };
            Outcome { notice: Notice::Selecting, request: Request::Nothing }
        } else {
            self.mode = Mode::Normal;
            Outcome { notice: Notice::StoppedSelecting, request: Request::Nothing }
        }
    }

    /// Asks to quit: quits where nothing would be lost, and asks back
    /// where changes are unsaved.
    fn handle_quit(&mut self, size: Size) -> (outcome: Outcome)
        requires
            old(self)@.mode is Normal,
        ensures
            (final(self)@, outcome) == old(self)@.command(Key::Ctrl('q'), size),
            old(self).wf() ==> final(self).wf(),
    {
        if self.document.is_saved() {
            self.should_quit = true;
            self.settle(size);
            Outcome { notice: Notice::Nothing, request: Request::Nothing }
        } else {
            self.mode = Mode::ConfirmQuit;
            Outcome { notice: Notice::UnsavedChanges, request: Request::Nothing }
        }
    }

    /// Asks to save: to the document's file, or to a file whose name is
    /// asked for first.
    fn save(&mut self, size: Size) -> (outcome: Outcome)
        requires
            old(self)@.mode is Normal,
        ensures
            (final(self)@, outcome) == old(self)@.command(Key::Ctrl('s'), size),
            old(self).wf() ==> final(self).wf(),
    {
        if self.document.file_name.is_some() {
            self.settle(size);
            Outcome { notice: Notice::Nothing, request: Request::Save }
        } else {
            self.mode = Mode::Prompt { purpose: Purpose::SaveAs, input: String::new() };
            Outcome { notice: Notice::Nothing, request: Request::Nothing }
        }
    }

    /// Takes a snapshot of the selected cells as the clipboard.
    fn handle_copy(&mut self, size: Size) -> (outcome: Outcome)
        requires
            old(self)@.mode is Normal,
        ensures
            (final(self)@, outcome) == old(self)@.command(Key::Ctrl('c'), size),
            old(self).wf() ==> final(self).wf(),
    {
        self.copy = self.document.copy();
        self.settle(size);
        Outcome { notice: Notice::Copied, request: Request::Nothing }
    }

    /// Pastes the clipboard at the focus.
    fn handle_paste(&mut self, size: Size) -> (outcome: Outcome)
        requires
            old(self)@.mode is Normal,
        ensures
            (final(self)@, outcome) == old(self)@.command(Key::Ctrl('v'), size),
            old(self).wf() ==> final(self).wf(),
    {
        let notice = if self.copy.len() == 0 {
            Notice::NothingToPaste
        } else {
            self.document.paste(&self.cell_index, &self.copy);
            Notice::Pasted
        };
        self.settle(size);
        Outcome { notice, request: Request::Nothing }
    }

    /// Takes the selected cells to the clipboard and clears them.
    fn handle_cut(&mut self, size: Size) -> (outcome: Outcome)
        requires
            old(self)@.mode is Normal,
        ensures
            (final(self)@, outcome) == old(self)@.command(Key::Ctrl('x'), size),
            old(self).wf() ==> final(self).wf(),
    {
        self.copy = self.document.copy();
        self.document.delete();
        self.settle(size);
        Outcome { notice: Notice::Cut, request: Request::Nothing }
    }

    /// Clears the selected cells.
    fn handle_delete(&mut self, size: Size) -> (outcome: Outcome)
        requires
            old(self)@.mode is Normal,
        ensures
            (final(self)@, outcome) == old(self)@.command(Key::Delete, size),
            old(self).wf() ==> final(self).wf(),
    {
        self.document.delete();
        self.settle(size);
        Outcome { notice: Notice::Deleted, request: Request::Nothing }
    }

    /// Takes back the last mutating command, where there is a record of it.
    fn handle_undo(&mut self, size: Size) -> (outcome: Outcome)
        requires
            old(self)@.mode is Normal,
        ensures
            (final(self)@, outcome) == old(self)@.command(Key::Ctrl('z'), size),
            old(self).wf() ==> final(self).wf(),
    {
        let notice = if self.document.last_action.is_some() {
            Notice::Undone
        } else {
            Notice::NothingToUndo
        };
        self.document.undo();
        self.settle(size);
        Outcome { notice, request: Request::Nothing }
    }

    /// Takes one key as a command.
    fn command(&mut self, key: Key, size: Size) -> (outcome: Outcome)
        requires
            old(self)@.mode is Normal,
        ensures
            (final(self)@, outcome) == old(self)@.command(key, size),
            old(self).wf() ==> final(self).wf(),
    {
        let quiet = Outcome { notice: Notice::Nothing, request: Request::Nothing };
        match key {
            Key::Ctrl('q') => self.handle_quit(size),
            Key::Ctrl('s') => self.save(size),
            Key::Char('\n') => {
                self.mode = Mode::Prompt { purpose: Purpose::Insert, input: String::new() };
                quiet
            },
            Key::Char('=') => Outcome { notice: Notice::Nothing, request: Request::Summarize },
            Key::Char(_) => quiet,
            Key::Ctrl('c') => self.handle_copy(size),
            Key::Ctrl('v') => self.handle_paste(size),
            Key::Ctrl('x') => self.handle_cut(size),
            Key::Delete => self.handle_delete(size),
            Key::Ctrl('z') => self.handle_undo(size),
            Key::CtrlLeft | Key::CtrlRight | Key::CtrlUp | Key::CtrlDown => {
                self.mode = Mode::Selecting { key, count: 0 };
                self.handle_highlight_selection(key, 0, key)
            },
            Key::ShiftUp | Key::ShiftDown | Key::ShiftLeft | Key::ShiftRight => {
                self.select_to_edge(key);
                quiet
            },
            Key::Up
            | Key::Down
            | Key::Left
            | Key::Right
            | Key::PageUp
            | Key::PageDown
            | Key::End
            | Key::Home => {
                self.move_position(key, size.height as usize);
                self.settle(size);
                quiet
            },
            _ => {
                self.settle(size);
                quiet
            },
        }
    }

    /// Takes one key press in a terminal of the given size, and tells what
    /// it leaves to do: what to let the user know, and what to write or
    /// compute outside the library.
    pub fn process_keypress(&mut self, key: Key, size: Size) -> (outcome: Outcome)
        ensures
            (final(self)@, outcome) == old(self)@.process_keypress(key, size),
            old(self).wf() ==> final(self).wf(),
    {
        let mut mode = Mode::Normal;
        std::mem::swap(&mut self.mode, &mut mode);
        match mode {
            Mode::Normal => self.command(key, size),
            Mode::ConfirmQuit => {
                self.should_quit = key == Key::Ctrl('q');
                self.settle(size);
                Outcome { notice: Notice::Nothing, request: Request::Nothing }
            },
            Mode::Prompt { purpose, input } => self.prompt(purpose, input, key, size),
            Mode::Selecting { key: trigger, count } => self.handle_highlight_selection(trigger,
                count, key),
        }
    }
}

/// The letters that head the columns.
pub open spec fn alphabet() -> Seq<char> {
    "ABCDEFGHIJKLMNOPQRSTUVWXYZ"@
}

/// The letter that heads column `num`: the letters go round by the column
/// number, and a column whose number is a multiple of their count is
/// headed by the first letter.
pub open spec fn column_letter(num: nat) -> char {
    if num % 26 == 0 {
        alphabet()[0]
    } else {
        alphabet()[num % 26 - 1]
    }
}

/// The letter that heads column `num`.
pub fn num_to_let(num: usize) -> (letter: char)
    ensures
        letter == column_letter(num as nat),
{
    let letters = "ABCDEFGHIJKLMNOPQRSTUVWXYZ";
    proof {
        reveal_strlit("ABCDEFGHIJKLMNOPQRSTUVWXYZ");
    }
    if num % 26 == 0 {
        return letters.get_char(0);
    }
    let idx = if num > 26 {
        let div = (num / 26) * 26;
        num - div
    } else {
        num
    };
    letters.get_char(idx - 1)
}

/// How long a message stays in the message bar, in milliseconds.
pub const STATUS_MESSAGE_DURATION: u64 = 5000;

/// A message for the message bar, with the time at which it was set. Times
/// are milliseconds on a clock that the caller reads.
#[derive(Debug)]
pub struct StatusMessage {
    pub text: String,
    pub time: u64,
}

impl StatusMessage {
    /// The message `message`, set at the time `now`.
    pub fn from(message: String, now: u64) -> (status: StatusMessage)
        ensures
            status.text == message,
            status.time == now,
    {
        StatusMessage { time: now, text: message }
    }

    /// Whether the message has been shown for its full duration at the time
    /// `now`.
    pub fn is_expired(&self, now: u64) -> (expired: bool)
        ensures
            expired == (now - self.time >= STATUS_MESSAGE_DURATION),
    {
        now >= self.time && now - self.time >= STATUS_MESSAGE_DURATION
    }
}

} // verus!
