use hdct::column_spec::{
    delimited_row, header_line, split_line_into_columns, try_split_line_into_columns, ColumnSpec,
};

fn spec(name: &str, data_type: &str, width: usize) -> ColumnSpec {
    ColumnSpec { name: name.to_string(), data_type: data_type.to_string(), width }
}

#[test]
fn reads_the_documented_spec_list() {
    let specs = ColumnSpec::from_specs_str("COLUMN1_NAME:str:10,COLUMN2_NAME:d:8,COLUMN3_NAME:f:12");
    assert_eq!(specs.len(), 3);
    assert_eq!(specs[0].name, "COLUMN1_NAME");
    assert_eq!(specs[0].data_type, "str");
    assert_eq!(specs[0].width, 10);
    assert_eq!(specs[1].name, "COLUMN2_NAME");
    assert_eq!(specs[1].data_type, "d");
    assert_eq!(specs[1].width, 8);
    assert_eq!(specs[2].name, "COLUMN3_NAME");
    assert_eq!(specs[2].data_type, "f");
    assert_eq!(specs[2].width, 12);
}

#[test]
fn refuses_spec_texts_that_describe_no_column() {
    assert!(ColumnSpec::try_from_specs_str("a:b").is_none());
    assert!(ColumnSpec::try_from_specs_str("a:b:x").is_none());
    assert!(ColumnSpec::try_from_specs_str("a:b:-1").is_none());
    assert!(ColumnSpec::try_from_specs_str("a:b: 3").is_none());
    assert!(ColumnSpec::try_from_specs_str("a:b:3,").is_none());
    assert!(ColumnSpec::try_from_specs_str("").is_none());
    assert!(ColumnSpec::try_from_spec_str("x:int8").is_none());
}

#[test]
fn ignores_pieces_after_the_width() {
    let specs = ColumnSpec::try_from_specs_str("a:b:+3:extra,c::0").unwrap();
    assert_eq!(specs[0].width, 3);
    assert_eq!(specs[1].name, "c");
    assert_eq!(specs[1].data_type, "");
    assert_eq!(specs[1].width, 0);
}

#[test]
fn spec_list_round_trip_on_values() {
    let text = "id:int32:5,name:str:12,flag:b:1";
    let specs = ColumnSpec::from_specs_str(text);
    let rendered: Vec<String> = specs.iter().map(|c| format!("{}:{}:{}", c.name, c.data_type, c.width)).collect();
    assert_eq!(rendered.join(","), text);
}

#[test]
fn quotes_str_cells_only() {
    assert_eq!(spec("a", "str", 3).parse("abc"), "\"abc\"");
    assert_eq!(spec("a", "s", 3).parse("abc"), "abc");
    assert_eq!(spec("a", "int8", 3).parse(" 12"), " 12");
}

#[test]
fn cuts_consecutive_columns() {
    let specs = vec![spec("a", "str", 3), spec("b", "int8", 2), spec("c", "x", 4)];
    let line = "abc12wxyzREST".to_string();
    assert_eq!(split_line_into_columns(&line, &specs), vec!["\"abc\"", "12", "wxyz"]);
}

#[test]
fn short_lines_give_short_and_empty_cells() {
    let specs = vec![spec("a", "x", 3), spec("b", "x", 5), spec("c", "str", 4)];
    let line = "abcde".to_string();
    assert_eq!(split_line_into_columns(&line, &specs), vec!["abc", "de", "\"\""]);
    assert_eq!(split_line_into_columns(&String::new(), &specs), vec!["", "", "\"\""]);
}

#[test]
fn fixed_width_round_trip_on_values() {
    let fields = ["ab  ", "x", "12345"];
    let specs = vec![spec("a", "x", 4), spec("b", "x", 1), spec("c", "x", 5)];
    let line = fields.concat();
    assert_eq!(split_line_into_columns(&line, &specs), fields.to_vec());
}

#[test]
fn cuts_count_characters_but_slice_bytes() {
    let specs = vec![spec("a", "x", 2), spec("b", "x", 2)];
    // "é" takes two bytes: the character count 3 puts the cuts at bytes 2 and 3
    let line = "éab".to_string();
    assert_eq!(try_split_line_into_columns(&line, &specs), Some(vec!["é".to_string(), "a".to_string()]));
    // a cut inside a character is refused: slicing there would panic
    let specs = vec![spec("a", "x", 1), spec("b", "x", 2)];
    assert_eq!(try_split_line_into_columns(&line, &specs), None);
}

#[test]
fn refuses_overflowing_widths() {
    let specs = vec![spec("a", "x", 1), spec("b", "x", usize::MAX)];
    assert_eq!(try_split_line_into_columns(&"abc".to_string(), &specs), None);
    let specs = vec![spec("a", "x", usize::MAX)];
    assert_eq!(try_split_line_into_columns(&"abc".to_string(), &specs), Some(vec!["abc".to_string()]));
}

#[test]
fn header_and_rows_of_the_delimited_output() {
    let specs = vec![spec("id", "int8", 2), spec("name", "str", 5)];
    assert_eq!(header_line(&specs, "|"), "id|name");
    let row = vec![" 1".to_string(), "\"bob  \"".to_string(), "  x ".to_string()];
    assert_eq!(delimited_row(&row, ";"), "1;\"bob  \";x");
    assert_eq!(delimited_row(&Vec::new(), ";"), "");
}

#[test]
fn joined_spec_lists_read_as_both_lists_in_order() {
    let a = "x:s:1,y:d:2";
    let b = "z:f:3";
    let joined = ColumnSpec::from_specs_str(&format!("{},{}", a, b));
    let mut parts = ColumnSpec::from_specs_str(a);
    parts.extend(ColumnSpec::from_specs_str(b));
    assert_eq!(joined.len(), parts.len());
    for (j, p) in joined.iter().zip(parts.iter()) {
        assert_eq!(j.name, p.name);
        assert_eq!(j.data_type, p.data_type);
        assert_eq!(j.width, p.width);
    }
    assert!(ColumnSpec::try_from_specs_str(&format!("{},{}", a, "bad")).is_none());
}
