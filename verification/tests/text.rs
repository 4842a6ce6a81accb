use architect::text::{
    decimal_of, first_bytes, is_white_space, join, less, lines, pad_left, pad_right,
    parse_number, signed_decimal_of, split, split_whitespace, trim,
};

#[test]
fn white_space_is_what_the_standard_library_says_it_is() {
    for c in (0..=0x10ffffu32).filter_map(char::from_u32) {
        assert_eq!(is_white_space(c), c.is_whitespace(), "{c:?}");
    }
}

#[test]
fn trimming_splitting_and_lines_agree_with_the_standard_library() {
    for s in ["", " a ", "\u{3000}x\u{a0}", "a,b,,c", ",", "one\r\ntwo\n\nthree", "a\n", "\r\n", "x\ry"] {
        assert_eq!(trim(s), s.trim());
        assert_eq!(split(s, ','), s.split(',').map(str::to_owned).collect::<Vec<_>>());
        assert_eq!(lines(s), s.lines().map(str::to_owned).collect::<Vec<_>>(), "{s:?}");
        assert_eq!(
            split_whitespace(s),
            s.split_whitespace().map(str::to_owned).collect::<Vec<_>>(),
            "{s:?}"
        );
        assert_eq!(join(&split(s, ','), ","), s);
    }
}

#[test]
fn numbers_are_read_and_written_as_the_standard_library_does() {
    for n in [0u64, 7, 10, 99, 12345, u64::MAX] {
        assert_eq!(decimal_of(n), n.to_string());
        assert_eq!(parse_number(&n.to_string()), Some(n));
    }
    for n in [0i64, -1, i64::MIN, i64::MAX] {
        assert_eq!(signed_decimal_of(n), n.to_string());
    }
    for s in ["", "+", "+7", "-7", "007", " 7", "18446744073709551616", "1x", "٣"] {
        assert_eq!(parse_number(s), s.parse::<u64>().ok(), "{s:?}");
    }
}

#[test]
fn order_and_padding_agree_with_the_standard_library() {
    let words = ["", "a", "ab", "b", "Z", "é", "日", "2024-01-02", "2024-01-10"];
    for a in words {
        for b in words {
            assert_eq!(less(a, b), a < b, "{a:?} {b:?}");
        }
        assert_eq!(pad_left(a, 5), format!("{a:>5}"));
        assert_eq!(pad_right(a, 5), format!("{a:<5}"));
    }
    assert_eq!(first_bytes("héllo", 3), "hé");
}
