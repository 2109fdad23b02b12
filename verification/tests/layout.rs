use clicsv::document::Document;
use clicsv::editor::{Editor, Key, Size};
use clicsv::layout::Heading;

const SIZE: Size = Size { width: 80, height: 24 };

fn records(rows: &[&[&str]]) -> Vec<Vec<String>> {
    rows.iter().map(|row| row.iter().map(|field| field.to_string()).collect()).collect()
}

fn editor(rows: &[&[&str]]) -> Editor {
    Editor::new(Document::open("sheet.csv", &records(rows)))
}

fn drawn(editor: &Editor, y: usize, width: usize) -> Vec<(String, usize, bool)> {
    editor.draw_row(y, width).into_iter().map(|s| (s.contents, s.filling, s.highlighted)).collect()
}

fn cell(text: &str, filling: usize, highlighted: bool) -> (String, usize, bool) {
    (text.to_string(), filling, highlighted)
}

#[test]
fn draw_row_fills_cells_up_to_their_column() {
    let editor = editor(&[&["a", "bbbb", "日本"], &["ccc", "d"]]);
    assert_eq!(drawn(&editor, 1, 80),
        vec![cell("a", 2, false), cell("bbbb", 0, false), cell("日本", 0, false)]);
    assert_eq!(drawn(&editor, 2, 80),
        vec![cell("ccc", 0, false), cell("d", 3, false), cell("", 4, false)]);
    assert_eq!(drawn(&editor, 9, 80),
        vec![cell("", 3, false), cell("", 4, false), cell("", 4, false)]);
}

#[test]
fn draw_row_shows_the_selection() {
    let mut editor = editor(&[&["a", "b"], &["c", "d"]]);
    editor.process_keypress(Key::Other, SIZE);
    assert_eq!(drawn(&editor, 2, 80), vec![cell("c", 0, true), cell("d", 0, false)]);
}

#[test]
fn draw_row_starts_behind_the_offset() {
    let mut editor = editor(&[&["a", "bbbb", "cc"]]);
    editor.offset.x = 1;
    assert_eq!(drawn(&editor, 1, 80), vec![cell("bbbb", 0, false), cell("cc", 0, false)]);
    editor.offset.x = 3;
    assert!(drawn(&editor, 1, 80).is_empty());
    editor.offset.x = 9;
    assert!(drawn(&editor, 1, 80).is_empty());
}

#[test]
fn draw_row_stops_behind_the_cell_that_passes_the_width() {
    let editor = editor(&[&["aaaa", "bbbb", "cccc", "dddd"]]);
    assert_eq!(drawn(&editor, 1, 14).len(), 3);
    assert_eq!(drawn(&editor, 1, 13).len(), 2);
    assert_eq!(drawn(&editor, 1, 7).len(), 2);
    assert_eq!(drawn(&editor, 1, 6).len(), 1);
    assert_eq!(drawn(&editor, 1, 0).len(), 1);
    assert_eq!(drawn(&editor, 1, 28).len(), 4);
}

#[test]
fn draw_header_letters_the_columns() {
    let mut editor = editor(&[&["a", "bbbb", ""]]);
    assert_eq!(
        editor.draw_header(80),
        vec![
            Heading { letter: 'A', filling: 0 },
            Heading { letter: 'B', filling: 3 },
            Heading { letter: 'C', filling: 0 },
        ]
    );
    editor.offset.x = 2;
    assert_eq!(editor.draw_header(80), vec![Heading { letter: 'C', filling: 0 }]);
    editor.offset.x = 0;
    assert_eq!(editor.draw_header(3).len(), 1);
    assert_eq!(editor.draw_header(4).len(), 2);
}

#[test]
fn label_filling_pads_to_the_largest_row_number() {
    let rows: Vec<Vec<String>> = (0..120).map(|i| vec![i.to_string()]).collect();
    let editor = Editor::new(Document::open("long.csv", &rows));
    assert_eq!(editor.label_filling(0), 2);
    assert_eq!(editor.label_filling(99), 1);
    assert_eq!(editor.label_filling(100), 0);
    assert_eq!(editor.label_filling(12345), 0);
}

#[test]
fn default_editor_is_over_a_default_document() {
    let editor = Editor::default();
    assert!(editor.document.is_empty());
    assert!(editor.document.file_name.is_none());
    assert_eq!((editor.cell_index.x, editor.cell_index.y), (1, 2));
    assert_eq!(drawn(&editor, 1, 80), vec![cell("", 0, false)]);
}
