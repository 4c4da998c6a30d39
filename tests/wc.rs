use lineutils::wc::{count, format_field, format_row, format_total, total, Config, ConfigError, Fields, FileInfo};

#[test]
fn test_count() {
    let text = "I don't want the world. I just want your half.\r\n";
    let info = count(text);
    let expected = FileInfo {
        num_lines: 1,
        num_words: 10,
        num_chars: 48,
        num_bytes: 48,
    };
    assert_eq!(info, expected);
}

#[test]
fn test_format_field() {
    assert_eq!(format_field(1, false), "");
    assert_eq!(format_field(3, true), "       3");
    assert_eq!(format_field(10, true), "      10");
}

#[test]
fn format_field_hidden_for_any_value() {
    assert_eq!(format_field(0, false), "");
    assert_eq!(format_field(usize::MAX, false), "");
}

#[test]
fn format_field_wider_than_column() {
    assert_eq!(format_field(123456789, true), "123456789");
    assert_eq!(format_field(0, true), "       0");
}

#[test]
fn count_empty_text() {
    assert_eq!(
        count(""),
        FileInfo { num_lines: 0, num_words: 0, num_bytes: 0, num_chars: 0 }
    );
}

#[test]
fn count_last_line_without_terminator() {
    assert_eq!(
        count("foo\nbar baz"),
        FileInfo { num_lines: 2, num_words: 3, num_bytes: 11, num_chars: 11 }
    );
}

#[test]
fn count_multibyte_characters() {
    // "héllo wörld\n": two characters of two bytes each.
    assert_eq!(
        count("h\u{e9}llo w\u{f6}rld\n"),
        FileInfo { num_lines: 1, num_words: 2, num_bytes: 14, num_chars: 12 }
    );
}

#[test]
fn count_unicode_whitespace_separates_words() {
    // U+3000 ideographic space and U+00A0 no-break space separate words.
    assert_eq!(
        count("a\u{3000}b\u{a0}c"),
        FileInfo { num_lines: 1, num_words: 3, num_bytes: 8, num_chars: 5 }
    );
}

#[test]
fn count_blank_lines() {
    assert_eq!(
        count("\n\n  \t\n"),
        FileInfo { num_lines: 3, num_words: 0, num_bytes: 6, num_chars: 6 }
    );
}

#[test]
fn config_defaults_to_lines_words_bytes() {
    let c = Config::new(vec!["-".to_string()], false, false, false, false).unwrap();
    assert_eq!(c.fields(), Fields { lines: true, words: true, bytes: true, chars: false });
    assert!(!c.shows_total());
}

#[test]
fn config_keeps_explicit_selection() {
    let c = Config::new(vec!["a".to_string(), "b".to_string()], false, true, false, true).unwrap();
    assert_eq!(c.fields(), Fields { lines: false, words: true, bytes: false, chars: true });
    assert!(c.shows_total());
    assert_eq!(c.files(), &vec!["a".to_string(), "b".to_string()]);
}

#[test]
fn config_rejects_bytes_with_chars() {
    let r = Config::new(vec!["-".to_string()], false, false, true, true);
    assert_eq!(r.unwrap_err(), ConfigError::BytesAndChars);
}

#[test]
fn row_names_file_but_not_stdin() {
    let f = Fields { lines: true, words: true, bytes: true, chars: false };
    let info = FileInfo { num_lines: 2, num_words: 2, num_bytes: 8, num_chars: 8 };
    assert_eq!(format_row(f, &info, "a.txt"), "       2       2       8 a.txt");
    assert_eq!(format_row(f, &info, "-"), "       2       2       8");
}

#[test]
fn row_shows_only_selected_fields() {
    let f = Fields { lines: false, words: false, bytes: false, chars: true };
    let info = FileInfo { num_lines: 2, num_words: 3, num_bytes: 9, num_chars: 7 };
    assert_eq!(format_row(f, &info, "x"), "       7 x");
}

#[test]
fn total_sums_each_field() {
    let infos = vec![
        FileInfo { num_lines: 1, num_words: 2, num_bytes: 3, num_chars: 4 },
        FileInfo { num_lines: 10, num_words: 20, num_bytes: 30, num_chars: 40 },
        FileInfo { num_lines: 100, num_words: 200, num_bytes: 300, num_chars: 400 },
    ];
    assert_eq!(
        total(&infos),
        Some(FileInfo { num_lines: 111, num_words: 222, num_bytes: 333, num_chars: 444 })
    );
}

#[test]
fn total_of_nothing_is_zero() {
    assert_eq!(
        total(&vec![]),
        Some(FileInfo { num_lines: 0, num_words: 0, num_bytes: 0, num_chars: 0 })
    );
}

#[test]
fn total_that_does_not_fit_is_none() {
    let infos = vec![
        FileInfo { num_lines: 1, num_words: 1, num_bytes: usize::MAX, num_chars: 1 },
        FileInfo { num_lines: 1, num_words: 1, num_bytes: 1, num_chars: 1 },
    ];
    assert_eq!(total(&infos), None);
}

#[test]
fn two_files_with_total() {
    // A = "foo\nbar\n", B = "foo\n"; a source that failed to open adds nothing.
    let c = Config::new(vec!["A".to_string(), "missing".to_string(), "B".to_string()], false, false, false, false)
        .unwrap();
    let a = count("foo\nbar\n");
    let b = count("foo\n");
    assert_eq!(format_row(c.fields(), &a, "A"), "       2       2       8 A");
    assert_eq!(format_row(c.fields(), &b, "B"), "       1       1       4 B");
    let t = total(&vec![a, b]).unwrap();
    assert!(c.shows_total());
    assert_eq!(format_total(c.fields(), &t), "       3       3      12 total");
}
