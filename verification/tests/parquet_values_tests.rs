use hdct::parquet_values::{
    column_type_of, parse_cell, parse_row, BatchCounter, CellError, CellValue, ColumnType,
};

#[test]
fn data_types_name_column_types() {
    let cases = [
        ("str", ColumnType::Utf8),
        ("int8", ColumnType::Int8),
        ("int16", ColumnType::Int16),
        ("int32", ColumnType::Int32),
        ("int64", ColumnType::Int64),
        ("uint8", ColumnType::UInt8),
        ("uint16", ColumnType::UInt16),
        ("uint32", ColumnType::UInt32),
        ("uint64", ColumnType::UInt64),
        ("f32", ColumnType::Float32),
        ("f64", ColumnType::Float64),
        ("int32[]", ColumnType::UInt32List),
    ];
    for (name, t) in cases {
        assert_eq!(column_type_of(name), Some(t));
    }
    assert_eq!(column_type_of("bool"), None);
    assert_eq!(column_type_of("Str"), None);
    assert_eq!(column_type_of(""), None);
}

#[test]
fn integer_cells() {
    assert_eq!(parse_cell(ColumnType::Int8, "-128"), Ok(CellValue::Int8(-128)));
    assert_eq!(parse_cell(ColumnType::Int8, "128"), Err(CellError::NotInteger));
    assert_eq!(parse_cell(ColumnType::UInt8, "+255"), Ok(CellValue::UInt8(255)));
    assert_eq!(parse_cell(ColumnType::UInt16, "-1"), Err(CellError::NotInteger));
    assert_eq!(parse_cell(ColumnType::Int32, "12x"), Err(CellError::NotInteger));
    assert_eq!(parse_cell(ColumnType::Int64, "-9223372036854775808"), Ok(CellValue::Int64(i64::MIN)));
    assert_eq!(parse_cell(ColumnType::UInt64, "18446744073709551615"), Ok(CellValue::UInt64(u64::MAX)));
    assert_eq!(parse_cell(ColumnType::UInt32, "4294967296"), Err(CellError::NotInteger));
    assert_eq!(parse_cell(ColumnType::Int16, ""), Ok(CellValue::Null));
}

#[test]
fn text_float_and_list_cells() {
    assert_eq!(parse_cell(ColumnType::Utf8, ""), Ok(CellValue::Text(String::new())));
    assert_eq!(parse_cell(ColumnType::Utf8, "a b"), Ok(CellValue::Text("a b".to_string())));
    assert_eq!(parse_cell(ColumnType::Float64, "1.5"), Ok(CellValue::Float("1.5".to_string())));
    assert_eq!(parse_cell(ColumnType::Float32, ""), Ok(CellValue::Null));
    assert_eq!(parse_cell(ColumnType::UInt32List, "1203"), Ok(CellValue::Digits(vec![1, 2, 0, 3])));
    assert_eq!(parse_cell(ColumnType::UInt32List, "1a3"), Err(CellError::NotDigit(1)));
    assert_eq!(parse_cell(ColumnType::UInt32List, ""), Ok(CellValue::Null));
}

#[test]
fn boolean_cells() {
    for w in ["true", "T", "1", "Yes", "y", "TRUE"] {
        assert_eq!(parse_cell(ColumnType::Boolean, w), Ok(CellValue::Bool(true)), "{}", w);
    }
    for w in ["false", "F", "0", "NO", "n"] {
        assert_eq!(parse_cell(ColumnType::Boolean, w), Ok(CellValue::Bool(false)), "{}", w);
    }
    assert_eq!(parse_cell(ColumnType::Boolean, ""), Ok(CellValue::Null));
    assert_eq!(parse_cell(ColumnType::Boolean, "maybe"), Err(CellError::NotBoolean));
    assert_eq!(parse_cell(ColumnType::Boolean, " true"), Err(CellError::NotBoolean));
}

#[test]
fn rows_are_trimmed_cell_by_cell() {
    let types = vec![ColumnType::Int8, ColumnType::Utf8, ColumnType::UInt32List];
    let row = vec!["  -3 ".to_string(), " ab ".to_string(), " 42".to_string()];
    assert_eq!(
        parse_row(&types, &row),
        Ok(vec![CellValue::Int8(-3), CellValue::Text("ab".to_string()), CellValue::Digits(vec![4, 2])])
    );
    let bad = vec!["1".to_string(), "x".to_string(), "4 2".to_string()];
    assert_eq!(parse_row(&types, &bad), Err((2, CellError::NotDigit(1))));
}

#[test]
fn a_batch_is_due_every_thousand_rows() {
    let mut c = BatchCounter::new();
    let mut due = Vec::new();
    for i in 1..=2500u32 {
        if c.record_row() {
            due.push(i);
        }
    }
    assert_eq!(due, vec![1000, 2000]);
    assert_eq!(c.record_count, 2500);
}
