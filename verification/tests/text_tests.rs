use hdct::text::{
    byte_slice, decimal_len, join, magnitude, parse_integer, push_decimal, push_right_aligned_decimal,
    push_signed_decimal, push_signed_zero_padded, push_zero_padded, same_text, split_at_char,
    to_ascii_lowercase, to_ascii_uppercase, trim, white_space,
};

fn rendered(f: impl Fn(&mut String)) -> String {
    let mut s = String::from("<");
    f(&mut s);
    s
}

#[test]
fn decimal_rendering_matches_display() {
    for n in [0u64, 7, 10, 99, 100, 12345, u64::MAX] {
        assert_eq!(rendered(|s| push_decimal(s, n)), format!("<{}", n));
        assert_eq!(decimal_len(n), n.to_string().len());
    }
    for n in [0i64, -1, 42, -9876, i64::MIN, i64::MAX] {
        assert_eq!(rendered(|s| push_signed_decimal(s, n)), format!("<{}", n));
        assert_eq!(magnitude(n) as i128, (n as i128).abs());
    }
}

#[test]
fn zero_padding_matches_format() {
    for n in [0u64, 5, 42, 123, 98765] {
        for w in [0usize, 1, 2, 4, 6] {
            assert_eq!(rendered(|s| push_zero_padded(s, n, w)), format!("<{:0w$}", n, w = w));
        }
    }
}

#[test]
fn signed_zero_padding_counts_the_sign() {
    assert_eq!(rendered(|s| push_signed_zero_padded(s, -5, 2)), "<-5");
    assert_eq!(rendered(|s| push_signed_zero_padded(s, -5, 4)), "<-005");
    assert_eq!(rendered(|s| push_signed_zero_padded(s, -123, 2)), "<-123");
    for n in [0i64, 3, -3, 59, -59, 1234, -1234, i64::MIN] {
        for w in [0usize, 1, 2, 4, 7] {
            assert_eq!(rendered(|s| push_signed_zero_padded(s, n, w)), format!("<{:0w$}", n, w = w));
        }
    }
}

#[test]
fn right_alignment_matches_format() {
    for n in [1u64, 42, 100000] {
        for w in [0usize, 3, 6] {
            assert_eq!(rendered(|s| push_right_aligned_decimal(s, n, w)), format!("<{:>w$}", n, w = w));
        }
    }
}

#[test]
fn join_matches_std() {
    let items: Vec<String> = vec!["a".into(), "".into(), "ccc".into()];
    assert_eq!(join(&items, ", "), items.join(", "));
    assert_eq!(join(&Vec::new(), ","), "");
    assert_eq!(join(&vec!["only".to_string()], ","), "only");
}

#[test]
fn split_matches_std() {
    for text in ["a:b:c", "", ":", "a::b", "::", "no separator", "é:ü:", "trailing:"] {
        let expected: Vec<String> = text.split(':').map(|s| s.to_string()).collect();
        assert_eq!(split_at_char(text, ':'), expected);
    }
}

#[test]
fn trim_matches_std() {
    for text in ["  a b  ", "", "   ", "\t\nx\r\n", "\u{3000}wide\u{2028}", "\u{85}x\u{a0}", "plain", "x\u{200b}"] {
        assert_eq!(trim(text), text.trim());
    }
    for c in ['\u{9}', '\u{d}', ' ', '\u{85}', '\u{a0}', '\u{1680}', '\u{2000}', '\u{200a}', '\u{2028}', '\u{2029}', '\u{202f}', '\u{205f}', '\u{3000}', 'a', '\u{200b}', '\u{180e}'] {
        assert_eq!(white_space(c), c.is_whitespace(), "{:?}", c);
    }
}

#[test]
fn case_conversion_of_ascii_letters() {
    assert_eq!(to_ascii_uppercase("abc-xyz-09"), "ABC-XYZ-09");
    assert_eq!(to_ascii_lowercase("TrUe-YES"), "true-yes");
    assert_eq!(to_ascii_uppercase("é"), "é");
}

#[test]
fn integer_parsing_matches_std() {
    let texts = ["0", "7", "+7", "-7", "-0", "+", "-", "", " 1", "1 ", "007", "255", "256", "-128", "-129", "127", "128", "4294967295", "4294967296", "18446744073709551615", "18446744073709551616", "99999999999999999999999999", "1_0", "١"];
    for t in texts {
        assert_eq!(parse_integer(t, 0, 255).map(|v| v as u8), t.parse::<u8>().ok(), "u8 {:?}", t);
        assert_eq!(parse_integer(t, -128, 127).map(|v| v as i8), t.parse::<i8>().ok(), "i8 {:?}", t);
        assert_eq!(parse_integer(t, 0, u64::MAX as i128).map(|v| v as u64), t.parse::<u64>().ok(), "u64 {:?}", t);
        assert_eq!(parse_integer(t, i64::MIN as i128, i64::MAX as i128).map(|v| v as i64), t.parse::<i64>().ok(), "i64 {:?}", t);
        assert_eq!(parse_integer(t, 0, usize::MAX as i128).map(|v| v as usize), t.parse::<usize>().ok(), "usize {:?}", t);
    }
}

#[test]
fn byte_slice_matches_std_slicing() {
    let s = "héllo wörld";
    assert_eq!(byte_slice(s, 0, 1), &s[0..1]);
    assert_eq!(byte_slice(s, 1, 3), &s[1..3]);
    assert_eq!(byte_slice(s, 3, 13), &s[3..13]);
    assert_eq!(byte_slice(s, 5, 5), "");
}

#[test]
fn same_text_compares_characters() {
    assert!(same_text("str", "str"));
    assert!(!same_text("str", "st"));
    assert!(!same_text("abc", "abd"));
    assert!(same_text("", ""));
}

#[test]
fn decimal_text_reads_back() {
    for n in [0u64, 9, 10, 255, 65535, 1 << 40, u64::MAX] {
        let mut s = String::new();
        push_decimal(&mut s, n);
        assert_eq!(parse_integer(&s, 0, u64::MAX as i128), Some(n as i128));
    }
}

#[test]
fn split_then_join_gives_the_text_back() {
    for text in ["a,b,c", "", ",,", "x"] {
        let parts = split_at_char(text, ',');
        assert_eq!(join(&parts, ","), text);
    }
}
