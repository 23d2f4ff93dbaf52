use hdct::fw2delim::{header_text, parse_line, try_parse_line, ColumnSpec};
use hdct::text::join;

fn spec(name: &str, data_type: &str, width: usize) -> ColumnSpec {
    ColumnSpec { name: name.to_string(), data_type: data_type.to_string(), width }
}

#[test]
fn parses_spec_lists() {
    let specs = ColumnSpec::parse_all("COLUMN1_NAME:str:10,COLUMN2_NAME:d:8,COLUMN3_NAME:f:12");
    assert_eq!(specs.len(), 3);
    assert_eq!(specs[2].name, "COLUMN3_NAME");
    assert_eq!(specs[2].width, 12);
    assert!(ColumnSpec::try_parse_all("a:s").is_none());
    assert_eq!(ColumnSpec::parse("n:s:4").width, 4);
}

#[test]
fn formats_s_cells_quoted() {
    assert_eq!(spec("a", "s", 1).format("x y"), "\"x y\"");
    assert_eq!(spec("a", "str", 1).format("x y"), "x y");
}

#[test]
fn cells_are_consecutive_fixed_width_fields() {
    let specs = vec![spec("a", "x", 3), spec("b", "x", 2), spec("c", "s", 4)];
    let line = "abcdefghij".to_string();
    assert_eq!(parse_line(&line, &specs), vec!["abc", "de", "\"fghi\""]);
}

#[test]
fn third_cell_starts_after_the_first_two() {
    let specs = vec![spec("a", "d", 2), spec("b", "d", 3), spec("c", "d", 1)];
    assert_eq!(parse_line(&"abcdef".to_string(), &specs), vec!["ab", "cde", "f"]);
}

#[test]
fn cells_past_the_end_of_a_short_line_are_empty() {
    let specs = vec![spec("a", "x", 2), spec("b", "x", 3), spec("c", "x", 4)];
    assert_eq!(parse_line(&"abcd".to_string(), &specs), vec!["ab", "cd", ""]);
}

#[test]
fn two_columns_behave_as_consecutive() {
    let specs = vec![spec("a", "x", 2), spec("b", "x", 3)];
    let line = "12345678".to_string();
    let cells = parse_line(&line, &specs);
    assert_eq!(cells, vec!["12", "345"]);
    assert_eq!(join(&cells, "\t"), "12\t345");
}

#[test]
fn refuses_cuts_inside_characters() {
    let specs = vec![spec("a", "x", 1)];
    assert_eq!(try_parse_line(&"ü".to_string(), &specs), None);
    assert_eq!(try_parse_line(&"ab".to_string(), &specs), Some(vec!["a".to_string()]));
}

#[test]
fn header_uses_commas_whatever_the_delimiter() {
    let specs = vec![spec("first", "s", 1), spec("second", "x", 1)];
    assert_eq!(header_text(&specs), "first,second");
    assert_eq!(header_text(&Vec::new()), "");
}
