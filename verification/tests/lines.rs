use ast_core::text::{chars_of, content_lines_of, string_of, trim_bounds};

#[test]
fn chars_of_lists_characters_not_bytes() {
    assert_eq!(chars_of("aé∑"), vec!['a', 'é', '∑']);
    assert_eq!(chars_of(""), Vec::<char>::new());
}

#[test]
fn string_of_takes_a_range_of_characters() {
    let chars = vec!['h', 'é', 'l', 'l', 'o'];
    assert_eq!(string_of(&chars, 1, 4), "éll");
    assert_eq!(string_of(&chars, 0, 5), "héllo");
    assert_eq!(string_of(&chars, 2, 2), "");
    assert_eq!(string_of(&chars, 5, 5), "");
}

#[test]
fn trim_bounds_strips_both_ends() {
    let chars = chars_of("  \ta b \r ");
    assert_eq!(trim_bounds(&chars, 0, chars.len()), (3, 6));
}

#[test]
fn trim_bounds_of_whitespace_is_empty() {
    let chars = chars_of(" \t \u{a0} ");
    let (from, to) = trim_bounds(&chars, 0, chars.len());
    assert_eq!(from, to);
}

#[test]
fn trim_bounds_stays_inside_the_range() {
    let chars = chars_of("ab  cd  ef");
    assert_eq!(trim_bounds(&chars, 2, 8), (4, 6));
    assert_eq!(trim_bounds(&chars, 4, 6), (4, 6));
    assert_eq!(trim_bounds(&chars, 3, 3), (3, 3));
}

#[test]
fn content_lines_split_at_line_breaks() {
    assert_eq!(content_lines_of("one\ntwo\nthree"), vec!["one", "two", "three"]);
}

#[test]
fn content_lines_leave_out_blank_lines() {
    assert_eq!(content_lines_of("one\n\n   \n\t\ntwo\n"), vec!["one", "two"]);
    assert_eq!(content_lines_of(""), Vec::<String>::new());
    assert_eq!(content_lines_of("\n\n\n"), Vec::<String>::new());
    assert_eq!(content_lines_of("   "), Vec::<String>::new());
}

#[test]
fn content_lines_are_trimmed() {
    assert_eq!(content_lines_of("  padded  \n\tTabbed\t"), vec!["padded", "Tabbed"]);
    assert_eq!(content_lines_of("inner  space"), vec!["inner  space"]);
}

#[test]
fn content_lines_drop_carriage_returns() {
    assert_eq!(content_lines_of("one\r\ntwo\r\n\r\n"), vec!["one", "two"]);
}

#[test]
fn content_lines_trim_unicode_whitespace() {
    assert_eq!(content_lines_of("\u{2003}wide\u{a0}\n\u{3000}\n"), vec!["wide"]);
}

#[test]
fn content_lines_without_final_line_break() {
    assert_eq!(content_lines_of("last"), vec!["last"]);
    assert_eq!(content_lines_of("a\nb"), vec!["a", "b"]);
}

#[test]
fn content_lines_count_non_blank_lines() {
    let document = "# t\n\nbody one\n  \nbody two\n\n";
    assert_eq!(content_lines_of(document).len(), 3);
}
