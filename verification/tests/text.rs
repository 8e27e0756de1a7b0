use companion::text::{
    decimal_text, fit_text, join_texts, parse_trimmed_u32, same_text, text_precedes, to_chars,
};

#[test]
fn numbers_read_as_the_standard_library_reads_them() {
    for s in [
        "", "+", "-", "0", "007", "+5", "++5", "-5", "4294967295", "4294967296", "+4294967295",
        "99999999999999999999999999", " 1", "1 ", "\t1\r\n", "1 2", "1x", "x1", "\u{0661}",
        "\u{a0}3\u{3000}", "\u{feff}3", "\u{200b}3", "00000000000000000000000001",
    ] {
        assert_eq!(parse_trimmed_u32(s), s.trim().parse::<u32>().ok(), "{s:?}");
    }
    for u in 0..0x11_0000u32 {
        if let Some(c) = char::from_u32(u) {
            let around = c.is_whitespace();
            if around || u % 997 == 0 || u < 0x400 || (0x1f00..0x3100).contains(&u) {
                let s = format!("{c}7{c}");
                assert_eq!(parse_trimmed_u32(&s), s.trim().parse::<u32>().ok(), "{u:x}");
            }
        }
    }
}

#[test]
fn written_numbers_read_back() {
    for n in [0u32, 7, 10, 99, 100, 4242, 65536, u32::MAX] {
        assert_eq!(decimal_text(n as u64), n.to_string());
        assert_eq!(parse_trimmed_u32(&decimal_text(n as u64)), Some(n));
    }
    assert_eq!(decimal_text(u64::MAX), u64::MAX.to_string());
}

#[test]
fn texts_compare_as_the_standard_library_compares_them() {
    let all = ["", "a", "b", "ab", "aB", "\u{e9}", "e", "\u{ffff}", "\u{10000}", "a\u{e9}"];
    for x in all {
        for y in all {
            assert_eq!(text_precedes(x, y), x < y);
            assert_eq!(same_text(x, y), x == y);
        }
        assert_eq!(to_chars(x), x.chars().collect::<Vec<char>>());
    }
}

#[test]
fn parts_are_joined() {
    let parts = vec!["a".to_string(), String::new(), "c".to_string()];
    assert_eq!(join_texts(&parts, "+"), "a++c");
    assert_eq!(join_texts(&Vec::new(), "+"), "");
}

#[test]
fn text_is_cut_to_the_longest_prefix_that_fits() {
    let at_most = |n: usize| move |s: &str| s.chars().count() <= n;
    assert_eq!(fit_text("h\u{e9}llo", true, at_most(0)), "h\u{e9}llo");
    assert_eq!(fit_text("h\u{e9}llo", false, at_most(2)), "h\u{e9}\u{2026}");
    assert_eq!(fit_text("h\u{e9}llo", false, at_most(0)), "\u{2026}");
    assert_eq!(fit_text("h\u{e9}llo", false, at_most(9)), "h\u{e9}llo\u{2026}");
    assert_eq!(fit_text("", false, at_most(9)), "\u{2026}");
    for n in 0..12 {
        let cut = fit_text("0123456789", false, at_most(n));
        assert_eq!(cut.chars().count(), n.min(10) + 1);
    }
}
