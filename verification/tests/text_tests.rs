use qmk_tui::text::{
    count_to_decimal, int_to_decimal, is_white_space_char, join, lines, same_text, text_less,
    trim,
};

#[test]
fn trim_removes_ascii_white_space_at_both_ends() {
    assert_eq!(trim("  a b \t\n"), "a b");
    assert_eq!(trim("keyboard"), "keyboard");
    assert_eq!(trim("   "), "");
    assert_eq!(trim(""), "");
}

#[test]
fn trim_removes_unicode_white_space() {
    assert_eq!(trim("\u{3000}planck\u{a0}\u{2028}"), "planck");
    assert_eq!(trim("\u{200b}x"), "\u{200b}x");
}

#[test]
fn trim_twice_is_trim_once() {
    let once = trim(" \t é x \n");
    assert_eq!(trim(&once), once);
}

#[test]
fn white_space_follows_char_is_whitespace() {
    for c in ['\t', '\n', ' ', '\u{85}', '\u{a0}', '\u{1680}', '\u{2000}', '\u{200a}', '\u{3000}'] {
        assert!(is_white_space_char(c));
        assert!(c.is_whitespace());
    }
    for c in ['a', '\u{200b}', '\u{180e}', '-'] {
        assert!(!is_white_space_char(c));
        assert_eq!(c.is_whitespace(), false);
    }
}

#[test]
fn lines_split_like_str_lines() {
    let text = "a\r\nb\n\nc\n";
    let ours = lines(text);
    let std_lines: Vec<&str> = text.lines().collect();
    assert_eq!(ours, vec!["a", "b", "", "c"]);
    assert_eq!(ours, std_lines);
    assert_eq!(lines("x\r"), vec!["x\r"]);
    assert!(lines("").is_empty());
    assert_eq!(lines("\n"), vec![""]);
}

#[test]
fn join_puts_separator_between_parts() {
    let parts = vec![String::from("one"), String::from("two"), String::from("three")];
    assert_eq!(join(&parts, "\n"), "one\ntwo\nthree");
    assert_eq!(join(&Vec::new(), "\n"), "");
    assert_eq!(join(&vec![String::from("solo")], ", "), "solo");
}

#[test]
fn decimal_rendering_matches_display() {
    assert_eq!(int_to_decimal(0), "0");
    assert_eq!(int_to_decimal(-42), "-42");
    assert_eq!(int_to_decimal(130), "130");
    assert_eq!(int_to_decimal(i32::MIN), i32::MIN.to_string());
    assert_eq!(int_to_decimal(i32::MAX), i32::MAX.to_string());
    assert_eq!(count_to_decimal(0), "0");
    assert_eq!(count_to_decimal(1209), "1209");
}

#[test]
fn string_order_is_code_point_order() {
    assert!(text_less("acme", "planck"));
    assert!(!text_less("planck", "acme"));
    assert!(text_less("a", "ab"));
    assert!(!text_less("ab", "ab"));
    assert!(text_less("Z", "a"));
    assert!(text_less("z", "é"));
    assert!(same_text("é", "é"));
    assert!(!same_text("e", "é"));
}
