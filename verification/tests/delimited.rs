use clicsv::delimited;

fn records(rows: &[&[&str]]) -> Vec<Vec<String>> {
    rows.iter().map(|row| row.iter().map(|field| field.to_string()).collect()).collect()
}

#[test]
fn parse_splits_lines_and_fields() {
    assert_eq!(delimited::parse("a,b\nc,d\n"), records(&[&["a", "b"], &["c", "d"]]));
}

#[test]
fn parse_of_no_text_has_no_record() {
    assert!(delimited::parse("").is_empty());
}

#[test]
fn parse_keeps_a_last_line_without_line_feed() {
    assert_eq!(delimited::parse("a,b\nc"), records(&[&["a", "b"], &["c"]]));
}

#[test]
fn parse_keeps_empty_lines_and_fields() {
    assert_eq!(delimited::parse("a,,b\n\n,\n"), records(&[&["a", "", "b"], &[""], &["", ""]]));
    assert_eq!(delimited::parse("\n"), records(&[&[""]]));
}

#[test]
fn parse_takes_a_return_before_a_line_feed_as_line_ending() {
    assert_eq!(delimited::parse("a,b\r\nc\r\n"), records(&[&["a", "b"], &["c"]]));
}

#[test]
fn parse_keeps_a_bare_return() {
    assert_eq!(delimited::parse("a\rb\nc\r"), records(&[&["a\rb"], &["c\r"]]));
    assert_eq!(delimited::parse("a\r\r\n"), records(&[&["a\r"]]));
}

#[test]
fn parse_agrees_with_the_lines_of_std() {
    for text in ["", "\n", "a", "a\n", "a\n\nb", "x,y\r\n,\r\n\r\n", "\r", "\r\n\r", "é,日本\n,\n"] {
        let expected: Vec<Vec<String>> =
            text.lines().map(|line| line.split(',').map(String::from).collect()).collect();
        assert_eq!(delimited::parse(text), expected, "for {:?}", text);
    }
}

#[test]
fn split_fields_splits_a_range_of_characters() {
    let chars: Vec<char> = "xx,a,,b,yy".chars().collect();
    assert_eq!(delimited::split_fields(&chars, 3, 7), vec!["a", "", "b"]);
    assert_eq!(delimited::split_fields(&chars, 3, 3), vec![""]);
}

#[test]
fn write_joins_fields_and_ends_every_record() {
    assert_eq!(delimited::write(&records(&[&["a", "b"], &["c"]])), "a,b\nc\n");
    assert_eq!(delimited::write(&records(&[&["", ""], &[""]])), ",\n\n");
    assert_eq!(delimited::write(&Vec::new()), "");
}

#[test]
fn write_of_a_record_without_fields_is_an_empty_line() {
    assert_eq!(delimited::write(&vec![Vec::new()]), "\n");
}

#[test]
fn parse_gives_back_what_write_wrote() {
    let written = records(&[&["a", "", "日本"], &["", "x y", ""], &["", "", ""]]);
    assert_eq!(delimited::parse(&delimited::write(&written)), written);
}
