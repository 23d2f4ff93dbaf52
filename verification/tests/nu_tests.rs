use hdct::nu::{get_longest_line_size, header_lines, numbered_line, show_line};

/// The ruler as the numberer prints it, written out with `format!`.
fn ruler_by_format(width: u32, margin_width: usize) -> Vec<String> {
    let loop_count = width.ilog10() + 1;
    let mut rows = Vec::new();
    for i in (1..loop_count + 1).rev() {
        let mut row = format!("{: ^margin_width$}", "");
        let p10 = 10u32.pow(i - 1);
        for j in 0..width + 1 {
            if j % p10 == 0 {
                row.push_str(&format!("{}", (j / p10) % 10));
            } else {
                row.push(' ');
            }
        }
        rows.push(row);
    }
    rows
}

#[test]
fn ruler_matches_the_printed_header() {
    for width in [1u32, 9, 10, 12, 99, 100, 345] {
        for margin in [0usize, 1, 5] {
            assert_eq!(header_lines(width, margin), ruler_by_format(width, margin), "{} {}", width, margin);
        }
    }
}

#[test]
fn ruler_for_twelve_columns() {
    assert_eq!(header_lines(12, 2), vec!["  0         1  ", "  0123456789012"]);
}

#[test]
fn last_ruler_row_numbers_every_column() {
    let rows = header_lines(25, 3);
    let last = rows.last().unwrap();
    for (j, c) in last.chars().skip(3).enumerate() {
        assert_eq!(c, char::from(b'0' + (j % 10) as u8));
    }
}

#[test]
fn numbered_lines_match_format() {
    assert_eq!(numbered_line(4, 7, "hello"), format!("{:>4}: {}", 7, "hello"));
    assert_eq!(numbered_line(0, 123, ""), "123: ");
    assert_eq!(show_line(5, 12, "text"), format!("{:>4}: {}", 12, "text"));
    assert_eq!(show_line(0, 12, "text"), "text");
}

#[test]
fn longest_line_counts_characters() {
    let lines = vec!["abc".to_string(), "héllo".to_string(), "".to_string()];
    assert_eq!(get_longest_line_size(&lines), 5);
    assert_eq!(get_longest_line_size(&Vec::new()), 0);
    assert_eq!(get_longest_line_size(&vec!["".to_string()]), 0);
}
