use wl_pick::words::{
    Literal, chars_of, find_char, find_text, i64_text, join, lower, read_i32, read_u32, same,
    same_ignoring_case, split, split_words, string_of, trim_text, u64_text,
};

fn texts(words: &[&str]) -> Vec<String> {
    words.iter().map(|w| w.to_string()).collect()
}

#[test]
fn whitespace_is_unicode_whitespace() {
    assert_eq!(trim_text("\u{a0}\t a b \u{3000}\n"), "a b");
    assert_eq!(trim_text(" \r\n"), "");
    // Every character that the standard library takes for whitespace is trimmed,
    // and no other.
    for n in 0..0x11_0000u32 {
        if let Some(c) = char::from_u32(n) {
            assert_eq!(wl_pick::words::white(c), c.is_whitespace(), "{n:x}");
        }
    }
}

#[test]
fn numbers_read_as_the_standard_library_reads_them() {
    let cases = [
        "", "+", "-", "0", "+7", "-0", "-7", "4294967295", "4294967296", "2147483647",
        "2147483648", "-2147483648", "-2147483649", "1_0", " 1", "1 ", "00000000000000000012",
        "99999999999999999999999", "ff", "\u{663}",
    ];
    for s in cases {
        assert_eq!(read_u32(&chars_of(s), 10), s.parse().ok(), "{s:?}");
        assert_eq!(read_i32(&chars_of(s)), s.parse().ok(), "{s:?}");
        assert_eq!(read_u32(&chars_of(s), 16), u32::from_str_radix(s, 16).ok(), "{s:?}");
    }
}

#[test]
fn fractions_read_as_the_standard_library_reads_them() {
    let cases = [
        "", ".", "1.", ".5", "13.3", "+1.5e3", "-1E-3", "1e", "e5", "1e+", "inf", "-Infinity",
        "NaN", "+nan", "infinit", "1.2.3", "0x10", " 1", "1f", "--1", "\u{661}",
    ];
    for s in cases {
        let read = Literal::read(&chars_of(s));
        assert_eq!(read.is_some(), s.parse::<f64>().is_ok(), "{s:?}");
        assert_eq!(read.is_some(), s.parse::<f32>().is_ok(), "{s:?}");
        if let Some(n) = read {
            assert_eq!(n.text, s);
            assert_eq!(n.copy(), n);
        }
    }
}

#[test]
fn numbers_are_written_in_decimal() {
    assert_eq!(u64_text(0), "0");
    assert_eq!(u64_text(u64::MAX), u64::MAX.to_string());
    assert_eq!(i64_text(i64::MIN), i64::MIN.to_string());
    assert_eq!(i64_text(-10), "-10");
    assert_eq!(i64_text(907), "907");
}

#[test]
fn texts_compare_and_convert() {
    assert!(same("a·b", "a·b") && !same("a", "ab") && !same("a", "b"));
    assert!(same_ignoring_case("Noto Sans", "nOTO sANS") && !same_ignoring_case("\u{c9}", "\u{e9}"));
    assert_eq!((lower('Z'), lower('['), lower('\u{c9}')), ('z', '[', '\u{c9}'));
    assert_eq!(string_of(&chars_of("x·y")), "x·y");
}

#[test]
fn texts_split_and_join() {
    assert_eq!(find_char(&chars_of("a=b=c"), '='), 1);
    assert_eq!(find_char(&chars_of("abc"), '='), 3);
    let parts: Vec<String> = split(&chars_of(",a,,b"), ',').iter().map(|p| string_of(p)).collect();
    assert_eq!(parts, vec!["", "a", "", "b"]);
    assert_eq!(split_words("  a bc\t\u{2003}d "), vec!["a", "bc", "d"]);
    assert_eq!(split_words(" "), Vec::<String>::new());
    assert_eq!(join(&texts(&["a", "b", "c"]), ", "), "a, b, c");
    assert_eq!(join(&[], ", "), "");
    assert_eq!(find_text(&texts(&["a", "b", "b"]), "b"), 1);
    assert_eq!(find_text(&texts(&["a"]), "b"), 1);
}
