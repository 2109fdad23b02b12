use clicsv::document::Document;
use clicsv::editor::{
    num_to_let, Editor, Key, Mode, Notice, Outcome, Purpose, Request, Size, StatusMessage,
};
use clicsv::Position;

const SIZE: Size = Size { width: 80, height: 24 };

fn records(rows: &[&[&str]]) -> Vec<Vec<String>> {
    rows.iter().map(|row| row.iter().map(|field| field.to_string()).collect()).collect()
}

fn editor(rows: &[&[&str]]) -> Editor {
    Editor::new(Document::open("sheet.csv", &records(rows)))
}

fn at(x: usize, y: usize) -> Position {
    Position { x, y }
}

fn quiet() -> Outcome {
    Outcome { notice: Notice::Nothing, request: Request::Nothing }
}

fn notice(notice: Notice) -> Outcome {
    Outcome { notice, request: Request::Nothing }
}

fn selection(editor: &Editor) -> Vec<(usize, usize)> {
    editor.document.table.cells.iter().filter(|c| c.highlighted).map(|c| (c.x_loc,
        c.y_loc)).collect()
}

fn type_text(editor: &mut Editor, text: &str) {
    for c in text.chars() {
        assert_eq!(editor.process_keypress(Key::Char(c), SIZE), quiet());
    }
}

#[test]
fn new_editor_starts_on_the_second_row() {
    let editor = editor(&[&["a"]]);
    assert!(!editor.should_quit);
    assert_eq!(editor.cell_index, at(1, 2));
    assert_eq!(editor.offset, at(0, 1));
    assert!(editor.copy.is_empty());
    assert!(matches!(editor.mode, Mode::Normal));
}

#[test]
fn arrows_move_the_focus_by_one() {
    let mut editor = editor(&[&["a", "b", "c"], &["d", "e", "f"], &["g", "h", "i"]]);
    editor.cell_index = at(2, 2);
    editor.move_position(Key::Up, 24);
    assert_eq!(editor.cell_index, at(2, 1));
    editor.move_position(Key::Up, 24);
    assert_eq!(editor.cell_index, at(2, 0));
    editor.move_position(Key::Up, 24);
    assert_eq!(editor.cell_index, at(2, 0));
    editor.move_position(Key::Down, 24);
    editor.move_position(Key::Right, 24);
    assert_eq!(editor.cell_index, at(3, 1));
    editor.move_position(Key::Left, 24);
    editor.move_position(Key::Left, 24);
    editor.move_position(Key::Left, 24);
    assert_eq!(editor.cell_index, at(0, 1));
}

#[test]
fn arrows_stop_one_past_the_extent() {
    let mut editor = editor(&[&["a", "b"], &["c", "d"]]);
    editor.cell_index = at(2, 2);
    editor.move_position(Key::Down, 24);
    assert_eq!(editor.cell_index, at(2, 3));
    editor.move_position(Key::Down, 24);
    assert_eq!(editor.cell_index, at(2, 3));
    editor.move_position(Key::Right, 24);
    assert_eq!(editor.cell_index, at(3, 3));
    editor.move_position(Key::Right, 24);
    assert_eq!(editor.cell_index, at(3, 3));
}

#[test]
fn pages_move_by_the_height_of_the_terminal() {
    let rows: Vec<Vec<String>> = (0..100).map(|i| vec![i.to_string()]).collect();
    let mut editor = Editor::new(Document::open("long.csv", &rows));
    editor.cell_index = at(1, 10);
    editor.move_position(Key::PageDown, 24);
    assert_eq!(editor.cell_index, at(1, 34));
    editor.move_position(Key::PageDown, 24);
    editor.move_position(Key::PageDown, 24);
    assert_eq!(editor.cell_index, at(1, 82));
    editor.move_position(Key::PageDown, 24);
    assert_eq!(editor.cell_index, at(1, 98));
    editor.move_position(Key::PageUp, 24);
    assert_eq!(editor.cell_index, at(1, 74));
    editor.cell_index = at(1, 25);
    editor.move_position(Key::PageUp, 24);
    assert_eq!(editor.cell_index, at(1, 1));
    editor.cell_index = at(1, 26);
    editor.move_position(Key::PageUp, 24);
    assert_eq!(editor.cell_index, at(1, 2));
}

#[test]
fn page_down_in_a_short_grid_does_not_pass_zero() {
    let mut editor = editor(&[&["a"]]);
    editor.move_position(Key::PageDown, 24);
    assert_eq!(editor.cell_index, at(1, 0));
    assert_eq!(editor.process_keypress(Key::PageDown, SIZE), quiet());
    assert_eq!(editor.cell_index, at(1, 1));
}

#[test]
fn home_and_end_go_to_the_first_and_last_column() {
    let mut editor = editor(&[&["a", "b", "c"]]);
    editor.cell_index = at(2, 1);
    editor.move_position(Key::End, 24);
    assert_eq!(editor.cell_index, at(3, 1));
    editor.move_position(Key::Home, 24);
    assert_eq!(editor.cell_index, at(1, 1));
    editor.move_position(Key::Delete, 24);
    assert_eq!(editor.cell_index, at(1, 1));
}

#[test]
fn moving_one_past_the_extent_grows_the_grid() {
    let mut editor = editor(&[&["a", "b"], &["c", "d"]]);
    assert_eq!(editor.process_keypress(Key::Down, SIZE), quiet());
    assert_eq!(editor.cell_index, at(1, 3));
    assert_eq!(editor.document.table.num_rows(), 3);
    assert_eq!(editor.document.table.num_cols(), 2);
    assert_eq!(selection(&editor), vec![(1, 3)]);
    editor.process_keypress(Key::Right, SIZE);
    editor.process_keypress(Key::Right, SIZE);
    assert_eq!(editor.cell_index, at(3, 3));
    assert_eq!(editor.document.table.num_cols(), 3);
    assert_eq!(editor.document.table.cells.len(), 9);
    assert!(editor.document.table.cells[4..].iter().all(|c| c.contents.is_empty()));
    assert!(!editor.document.is_saved());
}

#[test]
fn the_focus_is_held_to_the_first_row_and_column() {
    let mut editor = editor(&[&["a", "b"], &["c", "d"]]);
    editor.cell_index = at(1, 1);
    editor.process_keypress(Key::Up, SIZE);
    assert_eq!(editor.cell_index, at(1, 1));
    editor.process_keypress(Key::Left, SIZE);
    assert_eq!(editor.cell_index, at(1, 1));
    assert_eq!(selection(&editor), vec![(1, 1)]);
    assert!(editor.document.is_saved());
}

#[test]
fn vertical_offset_follows_the_focus_by_the_least_amount() {
    let mut editor = editor(&[&["a"]]);
    editor.offset = at(0, 10);
    editor.scroll_vertical(12, 5);
    assert_eq!(editor.offset.y, 10);
    editor.scroll_vertical(14, 5);
    assert_eq!(editor.offset.y, 10);
    editor.scroll_vertical(15, 5);
    assert_eq!(editor.offset.y, 11);
    editor.scroll_vertical(40, 5);
    assert_eq!(editor.offset.y, 36);
    editor.scroll_vertical(7, 5);
    assert_eq!(editor.offset.y, 7);
    assert_eq!(editor.offset.x, 0);
}

#[test]
fn horizontal_offset_moves_by_one_column() {
    let mut editor = editor(&[&["aaaaaa", "bbbbbb", "cccccc", "dddddd"]]);
    editor.offset = at(1, 1);
    editor.scroll_horizontal(3, 80);
    assert_eq!(editor.offset.x, 1);
    editor.scroll_horizontal(3, 29);
    assert_eq!(editor.offset.x, 2);
    editor.scroll_horizontal(3, 29);
    assert_eq!(editor.offset.x, 2);
    editor.scroll_horizontal(3, 18);
    assert_eq!(editor.offset.x, 3);
    editor.scroll_horizontal(3, 18);
    assert_eq!(editor.offset.x, 2);
    editor.scroll_horizontal(1, 80);
    assert_eq!(editor.offset.x, 1);
    editor.scroll_horizontal(1, 80);
    assert_eq!(editor.offset.x, 0);
    editor.scroll_horizontal(1, 80);
    assert_eq!(editor.offset.x, 0);
    assert_eq!(editor.offset.y, 1);
}

#[test]
fn scroll_uses_a_window_one_row_lower_than_the_terminal() {
    let mut editor = editor(&[&["a"]]);
    editor.cell_index = at(1, 24);
    editor.scroll(SIZE);
    assert_eq!(editor.offset, at(0, 2));
    editor.cell_index = at(1, 23);
    editor.offset = at(0, 1);
    editor.scroll(SIZE);
    assert_eq!(editor.offset, at(0, 1));
}

#[test]
fn shift_arrows_select_to_the_edge_of_the_grid() {
    let mut editor = editor(&[&["a", "b", "c"], &["d", "e", "f"], &["g", "h", "i"]]);
    editor.cell_index = at(2, 2);
    assert_eq!(editor.process_keypress(Key::ShiftUp, SIZE), quiet());
    assert_eq!(selection(&editor), vec![(2, 1), (2, 2)]);
    editor.process_keypress(Key::ShiftDown, SIZE);
    assert_eq!(selection(&editor), vec![(2, 2), (2, 3)]);
    editor.process_keypress(Key::ShiftLeft, SIZE);
    assert_eq!(selection(&editor), vec![(1, 2), (2, 2)]);
    editor.process_keypress(Key::ShiftRight, SIZE);
    assert_eq!(selection(&editor), vec![(2, 2), (3, 2)]);
    assert_eq!(editor.cell_index, at(2, 2));
    assert!(matches!(editor.mode, Mode::Normal));
}

#[test]
fn control_arrows_grow_a_selection_with_each_repetition() {
    let mut editor = editor(&[&["a", "b", "c", "d", "e"]]);
    editor.cell_index = at(2, 1);
    assert_eq!(editor.process_keypress(Key::CtrlRight, SIZE), notice(Notice::Selecting));
    assert_eq!(selection(&editor), vec![(2, 1), (3, 1)]);
    assert!(matches!(editor.mode, Mode::Selecting { key: Key::CtrlRight, count: 1 }));
    assert_eq!(editor.process_keypress(Key::CtrlRight, SIZE), notice(Notice::Selecting));
    assert_eq!(selection(&editor), vec![(2, 1), (3, 1), (4, 1)]);
    for _ in 0..5 {
        editor.process_keypress(Key::CtrlRight, SIZE);
    }
    assert_eq!(selection(&editor), vec![(2, 1), (3, 1), (4, 1), (5, 1)]);
    assert!(matches!(editor.mode, Mode::Selecting { key: Key::CtrlRight, count: 7 }));
}

#[test]
fn another_key_ends_the_growing_and_leaves_the_selection() {
    let mut editor = editor(&[&["a", "b", "c"], &["d", "e", "f"], &["g", "h", "i"]]);
    editor.cell_index = at(3, 3);
    editor.process_keypress(Key::CtrlUp, SIZE);
    editor.process_keypress(Key::CtrlUp, SIZE);
    assert_eq!(selection(&editor), vec![(3, 1), (3, 2), (3, 3)]);
    assert_eq!(editor.process_keypress(Key::CtrlLeft, SIZE), notice(Notice::StoppedSelecting));
    assert!(matches!(editor.mode, Mode::Normal));
    assert_eq!(selection(&editor), vec![(3, 1), (3, 2), (3, 3)]);
    assert_eq!(editor.cell_index, at(3, 3));
    editor.process_keypress(Key::CtrlLeft, SIZE);
    assert_eq!(selection(&editor), vec![(2, 3), (3, 3)]);
}

#[test]
fn select_ray_counts_from_the_focus() {
    let mut editor = editor(&[&["a", "b", "c", "d", "e"]]);
    editor.cell_index = at(4, 1);
    editor.select_ray(Key::CtrlLeft, 2);
    assert_eq!(selection(&editor), vec![(2, 1), (3, 1), (4, 1)]);
    editor.select_ray(Key::CtrlLeft, 9);
    assert_eq!(selection(&editor), vec![(1, 1), (2, 1), (3, 1), (4, 1)]);
    editor.select_ray(Key::CtrlDown, 3);
    assert_eq!(selection(&editor), vec![(4, 1)]);
}

#[test]
fn highlight_row_and_col_add_spans_to_the_selection() {
    let mut editor = editor(&[&["a", "b", "c"], &["d", "e", "f"], &["g", "h", "i"]]);
    editor.cell_index = at(2, 2);
    editor.highlight_row(2, 3);
    assert_eq!(selection(&editor), vec![(2, 2), (2, 3)]);
    editor.highlight_col(1, 1);
    assert_eq!(selection(&editor), vec![(1, 2), (2, 2), (2, 3)]);
    editor.highlight_col(3, 2);
    assert_eq!(selection(&editor), vec![(1, 2), (2, 2), (2, 3)]);
}

#[test]
fn return_key_prompts_for_text_and_inserts_it() {
    let mut editor = editor(&[&["a", "b"], &["c", "d"]]);
    assert_eq!(editor.process_keypress(Key::Char('\n'), SIZE), quiet());
    assert!(matches!(&editor.mode,
        Mode::Prompt { purpose: Purpose::Insert, input } if input.is_empty()));
    type_text(&mut editor, "héx");
    editor.process_keypress(Key::Backspace, SIZE);
    editor.process_keypress(Key::Backspace, SIZE);
    editor.process_keypress(Key::Char('\t'), SIZE);
    editor.process_keypress(Key::Up, SIZE);
    type_text(&mut editor, "i");
    assert!(matches!(&editor.mode, Mode::Prompt { input, .. } if input == "hi"));
    assert_eq!(editor.cell_index, at(1, 2));
    assert_eq!(editor.process_keypress(Key::Char('\n'), SIZE), quiet());
    assert!(matches!(editor.mode, Mode::Normal));
    assert_eq!(editor.document.table.records(), records(&[&["a", "b"], &["hi", "d"]]));
    assert!(!editor.document.is_saved());
}

#[test]
fn backspace_in_an_empty_prompt_does_nothing() {
    let mut editor = editor(&[&["a"]]);
    editor.process_keypress(Key::Char('\n'), SIZE);
    assert_eq!(editor.process_keypress(Key::Backspace, SIZE), quiet());
    assert!(matches!(&editor.mode, Mode::Prompt { input, .. } if input.is_empty()));
}

#[test]
fn escape_gives_the_prompt_up() {
    let mut editor = editor(&[&["a"], &["b"]]);
    editor.process_keypress(Key::Char('\n'), SIZE);
    type_text(&mut editor, "new");
    assert_eq!(editor.process_keypress(Key::Esc, SIZE), notice(Notice::NotInserted));
    assert!(matches!(editor.mode, Mode::Normal));
    assert_eq!(editor.document.table.records(), records(&[&["a"], &["b"]]));
    assert!(editor.document.is_saved());
}

#[test]
fn an_empty_line_inserts_nothing() {
    let mut editor = editor(&[&["a"], &["b"]]);
    editor.process_keypress(Key::Char('\n'), SIZE);
    assert_eq!(editor.process_keypress(Key::Char('\n'), SIZE), notice(Notice::NotInserted));
    assert!(editor.document.last_action.is_none());
}

#[test]
fn save_of_a_named_document_asks_for_the_write() {
    let mut editor = editor(&[&["a"]]);
    let outcome = editor.process_keypress(Key::Ctrl('s'), SIZE);
    assert_eq!(outcome, Outcome { notice: Notice::Nothing, request: Request::Save });
    assert!(matches!(editor.mode, Mode::Normal));
}

#[test]
fn save_of_an_unnamed_document_asks_for_the_name_first() {
    let mut editor = Editor::new(Document::default());
    assert_eq!(editor.process_keypress(Key::Ctrl('s'), SIZE), quiet());
    assert!(matches!(&editor.mode, Mode::Prompt { purpose: Purpose::SaveAs, .. }));
    type_text(&mut editor, "new.csv");
    let outcome = editor.process_keypress(Key::Char('\n'), SIZE);
    assert_eq!(outcome, Outcome { notice: Notice::Nothing, request: Request::Save });
    assert_eq!(editor.document.file_name.as_deref(), Some("new.csv"));
    let image = editor.document.save().expect("a named document");
    assert_eq!(image.path, "new.csv");
}

#[test]
fn save_without_a_name_given_saves_nothing() {
    let mut editor = Editor::new(Document::default());
    editor.process_keypress(Key::Ctrl('s'), SIZE);
    assert_eq!(editor.process_keypress(Key::Esc, SIZE), notice(Notice::NotSaving));
    assert!(editor.document.file_name.is_none());
    assert!(matches!(editor.mode, Mode::Normal));
}

#[test]
fn quit_of_a_saved_document_quits() {
    let mut editor = editor(&[&["a"]]);
    assert_eq!(editor.process_keypress(Key::Ctrl('q'), SIZE), quiet());
    assert!(editor.should_quit);
}

#[test]
fn quit_with_unsaved_changes_asks_back() {
    let mut editor = editor(&[&["a"], &["b"]]);
    editor.document.insert(&at(1, 1), "x");
    assert_eq!(editor.process_keypress(Key::Ctrl('q'), SIZE), notice(Notice::UnsavedChanges));
    assert!(!editor.should_quit);
    assert!(matches!(editor.mode, Mode::ConfirmQuit));
    assert_eq!(editor.process_keypress(Key::Down, SIZE), quiet());
    assert!(!editor.should_quit);
    assert!(matches!(editor.mode, Mode::Normal));
    assert_eq!(editor.cell_index, at(1, 2));
    editor.process_keypress(Key::Ctrl('q'), SIZE);
    assert_eq!(editor.process_keypress(Key::Ctrl('q'), SIZE), quiet());
    assert!(editor.should_quit);
}

#[test]
fn equals_key_asks_for_the_summary() {
    let mut editor = editor(&[&["1"], &["2"]]);
    let outcome = editor.process_keypress(Key::Char('='), SIZE);
    assert_eq!(outcome, Outcome { notice: Notice::Nothing, request: Request::Summarize });
    assert_eq!(editor.process_keypress(Key::Char('x'), SIZE), quiet());
    assert!(matches!(editor.mode, Mode::Normal));
}

#[test]
fn copy_and_paste_go_through_the_clipboard() {
    let mut editor = editor(&[&["a", "b", "c"], &["d", "e", "f"]]);
    editor.cell_index = at(1, 1);
    assert_eq!(editor.process_keypress(Key::Ctrl('v'), SIZE), notice(Notice::NothingToPaste));
    editor.process_keypress(Key::ShiftRight, SIZE);
    assert_eq!(editor.process_keypress(Key::Ctrl('c'), SIZE), notice(Notice::Copied));
    assert_eq!(editor.copy.len(), 3);
    assert_eq!(selection(&editor), vec![(1, 1)]);
    editor.process_keypress(Key::Down, SIZE);
    assert_eq!(editor.process_keypress(Key::Ctrl('v'), SIZE), notice(Notice::Pasted));
    assert_eq!(editor.document.table.records(), records(&[&["a", "b", "c"], &["a", "b", "c"]]));
    assert_eq!(editor.process_keypress(Key::Ctrl('z'), SIZE), notice(Notice::Undone));
    assert_eq!(editor.document.table.records(), records(&[&["a", "b", "c"], &["d", "e", "f"]]));
    assert_eq!(editor.process_keypress(Key::Ctrl('z'), SIZE), notice(Notice::NothingToUndo));
}

#[test]
fn cut_copies_and_clears() {
    let mut editor = editor(&[&["a", "b"], &["c", "d"]]);
    editor.cell_index = at(2, 2);
    editor.process_keypress(Key::ShiftUp, SIZE);
    assert_eq!(editor.process_keypress(Key::Ctrl('x'), SIZE), notice(Notice::Cut));
    let copied: Vec<&str> = editor.copy.iter().map(|c| c.contents.as_str()).collect();
    assert_eq!(copied, vec!["b", "d"]);
    assert_eq!(editor.document.table.records(), records(&[&["a", ""], &["c", ""]]));
    assert_eq!(selection(&editor), vec![(2, 2)]);
}

#[test]
fn delete_key_clears_the_selection() {
    let mut editor = editor(&[&["a", "b"], &["c", "d"]]);
    editor.cell_index = at(1, 1);
    editor.process_keypress(Key::ShiftRight, SIZE);
    assert_eq!(editor.process_keypress(Key::Delete, SIZE), notice(Notice::Deleted));
    assert_eq!(editor.document.table.records(), records(&[&["", ""], &["c", "d"]]));
    assert!(editor.copy.is_empty());
}

#[test]
fn other_keys_only_settle() {
    let mut editor = editor(&[&["a", "b"], &["c", "d"]]);
    editor.cell_index = at(2, 1);
    editor.document.highlight(&at(1, 1));
    assert_eq!(editor.process_keypress(Key::Other, SIZE), quiet());
    assert_eq!(selection(&editor), vec![(2, 1)]);
    assert_eq!(editor.cell_index, at(2, 1));
    assert!(editor.document.is_saved());
}

#[test]
fn column_letters_go_round() {
    assert_eq!(num_to_let(1), 'A');
    assert_eq!(num_to_let(2), 'B');
    assert_eq!(num_to_let(25), 'Y');
    assert_eq!(num_to_let(26), 'A');
    assert_eq!(num_to_let(27), 'A');
    assert_eq!(num_to_let(28), 'B');
    assert_eq!(num_to_let(52), 'A');
    assert_eq!(num_to_let(0), 'A');
}

#[test]
fn status_message_expires_after_five_seconds() {
    let status = StatusMessage::from(String::from("Saved!"), 1_000);
    assert_eq!(status.text, "Saved!");
    assert_eq!(status.time, 1_000);
    assert!(!status.is_expired(1_000));
    assert!(!status.is_expired(5_999));
    assert!(status.is_expired(6_000));
    assert!(status.is_expired(60_000));
    assert!(!status.is_expired(0));
}
