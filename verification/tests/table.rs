use clicsv::table::{count_digits, Cell, Table};
use clicsv::Position;

fn records(rows: &[&[&str]]) -> Vec<Vec<String>> {
    rows.iter().map(|row| row.iter().map(|field| field.to_string()).collect()).collect()
}

fn placed(text: &str, x: usize, y: usize) -> Cell {
    let mut cell = Cell::from(text);
    cell.x_loc = x;
    cell.y_loc = y;
    cell
}

#[test]
fn cell_from_measures_its_text() {
    let cell = Cell::from("abc");
    assert_eq!(cell.contents, "abc");
    assert_eq!(cell.width, 3);
    assert_eq!(cell.x_loc, 0);
    assert_eq!(cell.y_loc, 0);
    assert!(!cell.highlighted);
}

#[test]
fn wide_glyphs_take_two_columns() {
    let cell = Cell::from("日本");
    assert_eq!(cell.contents.chars().count(), 2);
    assert_eq!(cell.width, 4);
}

#[test]
fn blank_cell_takes_no_column() {
    let cell = Cell::blank(3, 4);
    assert_eq!(cell.contents, "");
    assert_eq!(cell.width, 0);
    assert_eq!((cell.x_loc, cell.y_loc), (3, 4));
    assert!(!cell.highlighted);
}

#[test]
fn edit_content_measures_anew() {
    let mut cell = placed("a", 2, 3);
    cell.highlight();
    cell.edit_content(String::from("ｗｉｄｅ"));
    assert_eq!(cell.contents, "ｗｉｄｅ");
    assert_eq!(cell.width, 8);
    assert_eq!((cell.x_loc, cell.y_loc), (2, 3));
    assert!(cell.highlighted);
}

#[test]
fn highlight_and_unhighlight_set_the_flag() {
    let mut cell = placed("a", 1, 1);
    cell.highlight();
    assert!(cell.highlighted);
    cell.unhighlight();
    assert!(!cell.highlighted);
    assert_eq!(cell.contents, "a");
}

#[test]
fn get_content_gives_the_text() {
    assert_eq!(placed("text", 1, 1).get_content(), "text");
}

#[test]
fn cell_filling_width_is_the_excess_plus_one() {
    assert_eq!(Cell::from("abcde").filling_width(2), 4);
    assert_eq!(Cell::from("ab").filling_width(2), 1);
}

#[test]
fn clone_keeps_every_field() {
    let mut cell = placed("x", 4, 5);
    cell.highlight();
    let copy = cell.clone();
    assert_eq!(copy.contents, "x");
    assert_eq!(copy.width, 1);
    assert_eq!((copy.x_loc, copy.y_loc), (4, 5));
    assert!(copy.highlighted);
}

#[test]
fn new_table_is_empty() {
    let table = Table::new();
    assert!(table.cells.is_empty());
    assert_eq!(table.num_rows(), 0);
    assert_eq!(table.num_cols(), 0);
    assert_eq!(table.widest_cell_length, 0);
    assert_eq!(table.width_sum, 0);
    assert_eq!(table.cell_count, 0);
}

#[test]
fn table_from_records_places_cells() {
    let table = Table::from(&records(&[&["a", "bb"], &["ccc"]]));
    assert_eq!(table.cells.len(), 3);
    assert_eq!(table.num_rows(), 2);
    assert_eq!(table.num_cols(), 2);
    assert_eq!(table.get_content_from(Position { x: 1, y: 1 }), "a");
    assert_eq!(table.get_content_from(Position { x: 2, y: 1 }), "bb");
    assert_eq!(table.get_content_from(Position { x: 1, y: 2 }), "ccc");
    assert_eq!(table.get_content_from(Position { x: 2, y: 2 }), "");
    assert_eq!(table.widest_cell_length, 3);
    assert_eq!(table.width_sum, 6);
    assert_eq!(table.cell_count, 3);
    let order: Vec<(usize, usize)> = table.cells.iter().map(|c| (c.x_loc, c.y_loc)).collect();
    assert_eq!(order, vec![(1, 1), (2, 1), (1, 2)]);
}

#[test]
fn table_from_no_records_is_empty() {
    let table = Table::from(&Vec::new());
    assert!(table.cells.is_empty());
    assert_eq!(table.num_rows(), 0);
    assert_eq!(table.num_cols(), 0);
}

#[test]
fn add_appends_and_updates_the_aggregates() {
    let mut table = Table::new();
    table.add(placed("abc", 1, 1));
    table.add(placed("z", 2, 1));
    assert_eq!(table.cells.len(), 2);
    assert_eq!(table.cells[1].contents, "z");
    assert_eq!(table.widest_cell_length, 3);
    assert_eq!(table.width_sum, 4);
    assert_eq!(table.cell_count, 2);
}

#[test]
fn add_stops_the_total_at_the_largest_width() {
    let mut table = Table::new();
    table.width_sum = usize::MAX - 1;
    table.add(placed("abc", 1, 1));
    assert_eq!(table.width_sum, usize::MAX);
    assert_eq!(table.widest_cell_length, 3);
}

#[test]
fn column_width_is_the_widest_cell_of_the_column() {
    let table = Table::from(&records(&[&["a", "bbbb"], &["ccc", "d"]]));
    assert_eq!(table.column_width(1), 3);
    assert_eq!(table.column_width(2), 4);
    assert_eq!(table.column_width(3), 0);
    assert_eq!(table.column_width(0), 0);
}

#[test]
fn row_width_adds_separators_and_row_digits() {
    let table = Table::from(&records(&[&["a", "bb"], &["ccc", "d"]]));
    assert_eq!(table.row_width(), 7 + 2 * 2 + 1 + 1);
}

#[test]
fn count_digits_counts_decimal_digits() {
    assert_eq!(count_digits(0), 1);
    assert_eq!(count_digits(9), 1);
    assert_eq!(count_digits(10), 2);
    assert_eq!(count_digits(12345), 5);
    assert_eq!(count_digits(usize::MAX), usize::MAX.to_string().len());
}

#[test]
fn table_filling_width_is_the_difference() {
    let table = Table::new();
    assert_eq!(table.filling_width(3, 10), 7);
    assert_eq!(table.filling_width(4, 4), 0);
}

#[test]
fn find_gives_the_first_cell_at_a_coordinate() {
    let table = Table::from(&records(&[&["a", "b"], &["c", "d"]]));
    assert_eq!(table.find(2, 1), Some(1));
    assert_eq!(table.find(1, 2), Some(2));
    assert_eq!(table.find(3, 1), None);
    assert_eq!(table.find(0, 0), None);
}

#[test]
fn get_row_has_one_cell_per_column_in_ascending_order() {
    let table = Table::from(&records(&[&["a", "b", "c"], &["d"]]));
    for y in 1..=table.num_rows() {
        let row = table.get_row(y);
        assert_eq!(row.len(), table.num_cols());
        for (i, cell) in row.iter().enumerate() {
            assert_eq!(cell.x_loc, i + 1);
            assert_eq!(cell.y_loc, y);
        }
    }
    let second: Vec<String> = table.get_row(2).into_iter().map(|c| c.contents).collect();
    assert_eq!(second, vec!["d", "", ""]);
}

#[test]
fn get_row_outside_the_grid_is_blank() {
    let table = Table::from(&records(&[&["a", "b"]]));
    let row = table.get_row(7);
    assert_eq!(row.len(), 2);
    assert!(row.iter().all(|c| c.contents.is_empty() && c.width == 0 && c.y_loc == 7));
}

#[test]
fn put_replaces_the_text_of_a_stored_cell() {
    let mut table = Table::from(&records(&[&["a", "b"]]));
    table.cells[1].highlight();
    table.put(Position { x: 2, y: 1 }, "new");
    assert_eq!(table.cells.len(), 2);
    assert_eq!(table.get_content_from(Position { x: 2, y: 1 }), "new");
    assert_eq!(table.cells[1].width, 3);
    assert!(table.cells[1].highlighted);
    assert_eq!(table.get_content_from(Position { x: 1, y: 1 }), "a");
    assert_eq!(table.cell_count, 2);
}

#[test]
fn put_creates_a_cell_where_none_is_stored() {
    let mut table = Table::from(&records(&[&["a"]]));
    table.put(Position { x: 3, y: 2 }, "far");
    assert_eq!(table.cells.len(), 2);
    assert_eq!(table.get_content_from(Position { x: 3, y: 2 }), "far");
    assert_eq!(table.num_rows(), 2);
    assert_eq!(table.num_cols(), 3);
    assert_eq!(table.cell_count, 2);
    assert_eq!(table.width_sum, 4);
}

#[test]
fn put_outside_every_grid_writes_nothing() {
    let mut table = Table::from(&records(&[&["a"]]));
    table.put(Position { x: 0, y: 1 }, "x");
    table.put(Position { x: 1, y: 0 }, "x");
    assert_eq!(table.cells.len(), 1);
    assert_eq!(table.get_content_from(Position { x: 1, y: 1 }), "a");
}

#[test]
fn records_are_dense() {
    let table = Table::from(&records(&[&["a", "b", "c"], &["d"]]));
    assert_eq!(table.records(), records(&[&["a", "b", "c"], &["d", "", ""]]));
}

#[test]
fn summary_operands_are_the_selected_texts_without_white_space() {
    let mut table = Table::from(&records(&[&[" 1 ", "2", "  ", "4 0", "x"]]));
    for i in [0, 2, 3, 4] {
        table.cells[i].highlight();
    }
    assert_eq!(table.summary_operands(), vec!["1", "40", "x"]);
}

#[test]
fn summary_operands_drop_unicode_white_space() {
    let mut table = Table::from(&records(&[&["\u{a0}7\u{2003}5\t"]]));
    table.cells[0].highlight();
    assert_eq!(table.summary_operands(), vec!["75"]);
}

#[test]
fn cells_are_equal_where_every_field_is() {
    let cell = placed("a", 1, 2);
    assert!(cell == cell.clone());
    assert!(cell == placed("a", 1, 2));
    assert!(cell != placed("b", 1, 2));
    assert!(cell != placed("a", 2, 2));
    assert!(cell != placed("a", 1, 3));
    let mut selected = cell.clone();
    selected.highlight();
    assert!(cell != selected);
    let mut wider = cell.clone();
    wider.width = 5;
    assert!(cell != wider);
}

#[test]
fn tables_are_equal_where_cells_and_aggregates_are() {
    let table = Table::from(&records(&[&["a", "b"], &["c"]]));
    assert!(table == Table::from(&records(&[&["a", "b"], &["c"]])));
    assert!(table != Table::from(&records(&[&["a", "b"], &["d"]])));
    assert!(table != Table::from(&records(&[&["a", "b"]])));
    let mut counted = Table::from(&records(&[&["a", "b"], &["c"]]));
    counted.cell_count = 0;
    assert!(table != counted);
    assert!(Table::new() == Table::default());
}
