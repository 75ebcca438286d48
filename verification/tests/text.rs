use logcat::text::{
    chars_of, decimal_width, find_separator, push_decimal, push_padded_decimal, push_repeated,
    read_number, same_text, scan_run, scan_template, trim_bounds, CharClass, Fill,
};
use logcat::timestamp::Timestamp;

fn chars(s: &str) -> Vec<char> {
    s.chars().collect()
}

#[test]
fn the_classes_hold_what_they_say() {
    for c in [' ', '\t', '\n', '\u{b}', '\u{c}', '\r', '\u{85}', '\u{a0}', '\u{2003}', '\u{3000}'] {
        assert!(CharClass::Space.has(c));
        assert!(c.is_whitespace());
    }
    for c in ['a', '0', '_', ':', '\u{200b}', '\u{feff}'] {
        assert!(!CharClass::Space.has(c));
        assert!(!c.is_whitespace());
    }
    for c in '\0'..='\u{3100}' {
        assert_eq!(CharClass::Space.has(c), c.is_whitespace());
        assert_eq!(CharClass::Digit.has(c), c.is_ascii_digit());
        assert_eq!(CharClass::Word.has(c), c.is_ascii_alphanumeric() || c == '_');
    }
    for c in ['\n', '\r', '\u{b}', '\u{c}', '\u{85}', '\u{2028}', '\u{2029}'] {
        assert!(!CharClass::Inline.has(c));
    }
    for c in [' ', '\t', 'a', '\u{a0}'] {
        assert!(CharClass::Inline.has(c));
    }
}

#[test]
fn a_string_is_taken_apart_into_its_characters() {
    assert_eq!(chars_of("a\u{e9}\u{4e2d}\u{1f600}"), vec!['a', '\u{e9}', '\u{4e2d}', '\u{1f600}']);
    assert_eq!(chars_of(""), Vec::<char>::new());
}

#[test]
fn a_run_ends_at_the_first_character_of_another_class() {
    let text = chars("  123abc_9 x");

    assert_eq!(scan_run(&text, 0, CharClass::Space), 2);
    assert_eq!(scan_run(&text, 2, CharClass::Space), 2);
    assert_eq!(scan_run(&text, 2, CharClass::Digit), 5);
    assert_eq!(scan_run(&text, 2, CharClass::Word), 10);
    assert_eq!(scan_run(&text, 10, CharClass::Inline), 12);
    assert_eq!(scan_run(&text, 12, CharClass::Inline), 12);
    assert_eq!(scan_run(&text, 20, CharClass::Inline), 20);
}

#[test]
fn a_template_is_followed_up_to_the_first_character_that_departs() {
    let template = chars("00-00 ");

    assert_eq!(scan_template(&chars("12-34 rest"), &template), 6);
    assert_eq!(scan_template(&chars("12-3"), &template), 4);
    assert_eq!(scan_template(&chars("1x-34 "), &template), 1);
    assert_eq!(scan_template(&chars("12:34 "), &template), 2);
    assert_eq!(scan_template(&chars(""), &template), 0);
}

#[test]
fn trimming_leaves_out_the_white_space_at_both_ends() {
    let text = chars("ab  \t c d \u{a0}\n");

    assert_eq!(trim_bounds(&text, 2, text.len()), (6, 9));
    assert_eq!(trim_bounds(&text, 0, 2), (0, 2));
    assert_eq!(trim_bounds(&text, 2, 5), (5, 5));
    assert_eq!(trim_bounds(&text, 3, 3), (3, 3));
}

#[test]
fn the_first_separator_is_found() {
    let text = chars("a:b: c: d");

    assert_eq!(find_separator(&text, 0, text.len()), Some(3));
    assert_eq!(find_separator(&text, 4, text.len()), Some(6));
    assert_eq!(find_separator(&text, 7, text.len()), None);
    assert_eq!(find_separator(&text, 0, 4), None);
    assert_eq!(find_separator(&text, 0, 5), Some(3));
    assert_eq!(find_separator(&chars(":"), 0, 1), None);
    assert_eq!(find_separator(&chars(""), 0, 0), None);
}

#[test]
fn digits_denote_a_number_if_it_fits() {
    let text = chars("x007 4294967295 4294967296 99999999999999999999999");

    assert_eq!(read_number(&text, 1, 4), Some(7));
    assert_eq!(read_number(&text, 1, 1), Some(0));
    assert_eq!(read_number(&text, 5, 15), Some(4294967295));
    assert_eq!(read_number(&text, 16, 26), None);
    assert_eq!(read_number(&text, 27, text.len()), None);
    // what is no digit counts as a zero
    assert_eq!(read_number(&text, 0, 4), Some(7));
    assert_eq!(read_number(&chars("1x2"), 0, 3), Some(102));
}

#[test]
fn numbers_are_written_in_base_ten() {
    let written = |n: u64| {
        let mut out = String::from(">");
        push_decimal(&mut out, n);
        out
    };

    assert_eq!(written(0), ">0");
    assert_eq!(written(7), ">7");
    assert_eq!(written(10), ">10");
    assert_eq!(written(4294967295), ">4294967295");
    assert_eq!(written(u64::MAX), ">18446744073709551615");
}

#[test]
fn numbers_are_padded_to_their_width() {
    let padded = |n: u64, width: usize, fill: Fill| {
        let mut out = String::new();
        push_padded_decimal(&mut out, n, width, fill);
        out
    };

    assert_eq!(padded(7, 5, Fill::Space), "    7");
    assert_eq!(padded(7, 2, Fill::Zero), "07");
    assert_eq!(padded(0, 3, Fill::Zero), "000");
    assert_eq!(padded(123456, 5, Fill::Space), "123456");
    assert_eq!(padded(12345, 5, Fill::Space), "12345");
    assert_eq!(padded(12, 0, Fill::Space), "12");

    let mut out = String::from("a");
    push_repeated(&mut out, Fill::Zero, 3);
    push_repeated(&mut out, Fill::Space, 0);
    push_repeated(&mut out, Fill::Space, 2);
    assert_eq!(out, "a000  ");
    assert_eq!(Fill::Space.as_str(), " ");
    assert_eq!(Fill::Zero.as_str(), "0");

    assert_eq!(decimal_width(0), 1);
    assert_eq!(decimal_width(9), 1);
    assert_eq!(decimal_width(10), 2);
    assert_eq!(decimal_width(u64::MAX), 20);
}

#[test]
fn strings_are_compared_by_their_characters() {
    assert!(same_text("", ""));
    assert!(same_text("MISSING_TAG", "MISSING_TAG"));
    assert!(!same_text("MISSING_TAG", "MISSING_TAg"));
    assert!(!same_text("Tag", "TagExtra"));
    assert!(!same_text("TagExtra", "Tag"));
}

#[test]
fn only_moments_that_exist_are_made() {
    let ok = |y, mo, d, h, mi, s, ms| Timestamp::new(y, mo, d, h, mi, s, ms).is_some();

    assert_eq!(
        Timestamp::new(2025, 10, 1, 12, 10, 45, 848),
        Some(Timestamp {
            year: 2025,
            month: 10,
            day: 1,
            hour: 12,
            minute: 10,
            second: 45,
            millisecond: 848
        })
    );
    assert!(ok(2025, 1, 31, 0, 0, 0, 0));
    assert!(ok(2025, 12, 31, 23, 59, 59, 999));
    assert!(ok(-9999, 1, 1, 0, 0, 0, 0));
    assert!(ok(9999, 12, 31, 0, 0, 0, 0));
    assert!(!ok(10000, 1, 1, 0, 0, 0, 0));
    assert!(!ok(-10000, 1, 1, 0, 0, 0, 0));
    assert!(!ok(2025, 0, 1, 0, 0, 0, 0));
    assert!(!ok(2025, 13, 1, 0, 0, 0, 0));
    assert!(!ok(2025, 1, 0, 0, 0, 0, 0));
    assert!(!ok(2025, 1, 32, 0, 0, 0, 0));
    assert!(!ok(2025, 4, 31, 0, 0, 0, 0));
    assert!(!ok(2025, 2, 29, 0, 0, 0, 0));
    assert!(ok(2024, 2, 29, 0, 0, 0, 0));
    assert!(!ok(1900, 2, 29, 0, 0, 0, 0));
    assert!(ok(2000, 2, 29, 0, 0, 0, 0));
    assert!(ok(-4, 2, 29, 0, 0, 0, 0));
    assert!(ok(0, 2, 29, 0, 0, 0, 0));
    assert!(!ok(2025, 1, 1, 24, 0, 0, 0));
    assert!(!ok(2025, 1, 1, 0, 60, 0, 0));
    assert!(!ok(2025, 1, 1, 0, 0, 60, 0));
    assert!(!ok(2025, 1, 1, 0, 0, 0, 1000));
    assert!(!ok(2025, 1, 1, 0, 0, 0, 65535));
}

#[test]
fn a_moment_is_written_as_a_log_line_carries_it() {
    let moment = Timestamp::new(2025, 1, 2, 3, 4, 5, 6).unwrap();
    let mut out = String::new();

    moment.push_stamp(&mut out);

    assert_eq!(out, "01-02 03:04:05.006");
}
