use clicsv::ods::{read_sheet, walk, IngestionError, SheetWalker, XmlEvent};

fn start(name: &str) -> XmlEvent {
    XmlEvent::Start(name.to_string())
}

fn end(name: &str) -> XmlEvent {
    XmlEvent::End(name.to_string())
}

fn text(text: &str) -> XmlEvent {
    XmlEvent::Text(text.to_string())
}

fn records(rows: &[&[&str]]) -> Vec<Vec<String>> {
    rows.iter().map(|row| row.iter().map(|field| field.to_string()).collect()).collect()
}

#[test]
fn walk_gathers_rows_and_cells() {
    let events = vec![
        start("table:table"),
        start("table:table-row"),
        start("table:table-cell"),
        start("text:p"),
        text("a"),
        end("text:p"),
        end("table:table-cell"),
        start("table:table-cell"),
        end("table:table-cell"),
        end("table:table-row"),
        start("table:table-row"),
        start("table:table-cell"),
        start("text:p"),
        text("b"),
        end("text:p"),
        start("text:p"),
        text("c"),
        end("text:p"),
        end("table:table-cell"),
        end("table:table-row"),
        end("table:table"),
        XmlEvent::Eof,
    ];
    assert_eq!(walk(&events), Ok(records(&[&["a", ""], &["bc"]])));
}

#[test]
fn walk_leaves_text_outside_paragraphs() {
    let events = vec![
        start("table:table-row"),
        start("table:table-cell"),
        text("outside"),
        start("text:p"),
        text("in"),
        XmlEvent::Other,
        text("side"),
        end("text:p"),
        text("after"),
        end("table:table-cell"),
        end("table:table-row"),
    ];
    assert_eq!(walk(&events), Ok(records(&[&["inside"]])));
}

#[test]
fn walk_stops_at_the_end_of_the_document() {
    let events =
        vec![start("table-row"), end("table-row"), XmlEvent::Eof, start("table-row"),
            end("table-row")];
    assert_eq!(walk(&events), Ok(vec![Vec::new()]));
}

#[test]
fn walk_of_a_malformed_document_fails() {
    let events = vec![start("table-row"), XmlEvent::Failed, end("table-row")];
    assert_eq!(walk(&events), Err(IngestionError::Unreadable));
}

#[test]
fn walk_of_no_events_has_no_rows() {
    assert_eq!(walk(&Vec::new()), Ok(Vec::new()));
}

#[test]
fn step_ends_a_paragraph_before_a_cell() {
    let mut walker = SheetWalker::new();
    walker.step(&start("p"));
    assert!(walker.in_paragraph);
    walker.step(&text("x"));
    walker.step(&end("group"));
    assert!(!walker.in_paragraph);
    assert_eq!(walker.current_cell, "x");
    walker.step(&end("table-cell"));
    assert_eq!(walker.current_row, vec!["x"]);
    walker.step(&start("table-cell"));
    assert_eq!(walker.current_cell, "");
    walker.step(&end("table-row"));
    assert_eq!(walker.rows, records(&[&["x"]]));
    walker.step(&start("table-row"));
    assert!(walker.current_row.is_empty());
}

#[test]
fn read_sheet_reads_the_tables_of_a_document() {
    let content = r#"<?xml version="1.0" encoding="UTF-8"?>
<office:document-content>
  <office:body>
    <office:spreadsheet>
      <table:table table:name="Sheet1">
        <table:table-column/>
        <table:table-row>
          <table:table-cell office:value-type="string"><text:p>name</text:p></table:table-cell>
          <table:table-cell office:value-type="string"><text:p>a &amp; b</text:p></table:table-cell>
        </table:table-row>
        <table:table-row>
          <table:table-cell office:value-type="float" office:value="1.5"><text:p>1.5</text:p></table:table-cell>
          <table:table-cell><text:p>two</text:p><text:p>runs</text:p></table:table-cell>
          <table:table-cell></table:table-cell>
        </table:table-row>
      </table:table>
    </office:spreadsheet>
  </office:body>
</office:document-content>"#;
    assert_eq!(read_sheet(content), Ok(records(&[&["name", "a & b"], &["1.5", "tworuns", ""]])));
}

#[test]
fn read_sheet_of_no_text_has_no_rows() {
    assert_eq!(read_sheet(""), Ok(Vec::new()));
}

#[test]
fn read_sheet_of_a_malformed_document_fails() {
    assert_eq!(read_sheet("<table-row><table-cell></wrong></table-row>"),
        Err(IngestionError::Unreadable));
}

#[test]
fn read_sheet_leaves_out_cells_without_content() {
    let content = "<table:table-row><table:table-cell/><table:table-cell><text:p>a</text:p>\
                   </table:table-cell><table:table-cell table:number-columns-repeated=\"3\"/>\
                   </table:table-row>";
    assert_eq!(read_sheet(content), Ok(records(&[&["a"]])));
}

#[test]
fn read_sheet_trims_the_white_space_around_text() {
    let content = "<table-row>\n  <table-cell>\n    <p>  two words \n</p>\n  </table-cell>\n</table-row>\n";
    assert_eq!(read_sheet(content), Ok(records(&[&["two words"]])));
}

#[test]
fn read_sheet_passes_over_text_that_cannot_be_resolved() {
    let content = "<table-row><table-cell><p>a</p><p>&nothing;</p><p>b</p></table-cell></table-row>";
    assert_eq!(read_sheet(content), Ok(records(&[&["ab"]])));
}

#[test]
fn read_sheet_passes_over_comments_and_declarations() {
    let content = "<?xml version=\"1.0\"?><!-- a comment --><table-row><table-cell><p>a<!-- in \
                   between -->b</p></table-cell></table-row>";
    assert_eq!(read_sheet(content), Ok(records(&[&["ab"]])));
}

#[test]
fn read_sheet_of_a_document_that_ends_early_keeps_the_complete_rows() {
    let content = "<table-row><table-cell><p>a</p></table-cell></table-row><table-row><table-cell>";
    assert_eq!(read_sheet(content), Ok(records(&[&["a"]])));
}
