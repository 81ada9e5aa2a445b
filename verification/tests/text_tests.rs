use simple_db::text::{
    char_is_whitespace, compare_text, decimal_string, join_from, lowercase_eq, parse_usize,
    split_whitespace, text_eq, trim, TextOrder,
};

#[test]
fn whitespace_agrees_with_std_for_every_char() {
    for code in 0u32..0x110000 {
        if let Some(c) = char::from_u32(code) {
            assert_eq!(char_is_whitespace(c), c.is_whitespace(), "code {code:#x}");
        }
    }
}

#[test]
fn trim_agrees_with_std() {
    let samples = [
        "",
        "   ",
        "help",
        "  help  ",
        "\thelp\n",
        "use users\r\n",
        "\u{3000}x\u{2028}",
        " a  b ",
        "\u{a0}\u{85}",
    ];
    for s in samples {
        assert_eq!(trim(s), s.trim(), "sample {s:?}");
    }
}

#[test]
fn trimming_twice_is_trimming_once() {
    for s in ["  x y  ", "\n\t", "z", " \u{2003}q\u{2003} "] {
        assert_eq!(trim(trim(s)), trim(s));
    }
}

#[test]
fn split_whitespace_agrees_with_std() {
    let samples = ["", "   ", "a", " a b  c ", "fields   my\ttable", "x\u{3000}y", "use\n"];
    for s in samples {
        let expected: Vec<&str> = s.split_whitespace().collect();
        assert_eq!(split_whitespace(s), expected, "sample {s:?}");
    }
}

#[test]
fn join_from_skips_and_joins() {
    let words = vec!["use", "my", "table"];
    assert_eq!(join_from(&words, 1, " "), "my table");
    assert_eq!(join_from(&words, 0, ", "), "use, my, table");
    assert_eq!(join_from(&words, 3, " "), "");
    assert_eq!(join_from(&vec!["only"], 0, ", "), "only");
}

#[test]
fn lowercase_eq_ignores_ascii_case_only() {
    assert!(lowercase_eq("HeLp", "help"));
    assert!(lowercase_eq("EXIT", "exit"));
    assert!(lowercase_eq(".Exit", ".exit"));
    assert!(!lowercase_eq("help", "HELP"));
    assert!(!lowercase_eq("helps", "help"));
    assert!(!lowercase_eq("ÄB", "äb"));
}

#[test]
fn compare_text_agrees_with_str_order() {
    let samples = ["", "a", "b", "ab", "abc", "users", "orders", "Z", "é", "zz", "\u{10000}"];
    for a in samples {
        for b in samples {
            let expected = if a < b {
                TextOrder::Before
            } else if a == b {
                TextOrder::Same
            } else {
                TextOrder::After
            };
            assert_eq!(compare_text(a, b), expected, "{a:?} {b:?}");
            assert_eq!(text_eq(a, b), a == b);
        }
    }
}

#[test]
fn decimal_string_agrees_with_display() {
    for n in [0usize, 1, 9, 10, 11, 99, 100, 1250, 65535, usize::MAX] {
        assert_eq!(decimal_string(n), n.to_string());
    }
}

#[test]
fn parse_usize_agrees_with_std() {
    let samples = [
        "", "0", "7", "007", "+5", "+", "++5", "-1", "-0", "12a", " 1", "1 ", "18446744073709551615",
        "18446744073709551616", "99999999999999999999999", "٣",
    ];
    for s in samples {
        assert_eq!(parse_usize(s), s.parse::<usize>().ok(), "sample {s:?}");
    }
}

#[test]
fn parse_reads_back_decimal() {
    for n in [0usize, 3, 42, 1000, usize::MAX] {
        assert_eq!(parse_usize(&decimal_string(n)), Some(n));
    }
}
