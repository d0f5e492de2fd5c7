use head_rs::choose_input;
use head_rs::emit_lines;
use head_rs::format_line;
use head_rs::is_quit;
use head_rs::no_source_message;
use head_rs::Config;
use head_rs::InputChoice;

fn bytes(s: &str) -> Vec<u8> {
    s.as_bytes().to_vec()
}

fn byte_lines(strs: &[&str]) -> Vec<Vec<u8>> {
    strs.iter().map(|s| bytes(s)).collect()
}

fn strings(out: &[Vec<u8>]) -> Vec<String> {
    out.iter()
        .map(|l| String::from_utf8(l.clone()).unwrap())
        .collect()
}

#[test]
fn test_no_file_or_stdin() {
    let choice = choose_input(false, None);
    assert!(matches!(choice, InputChoice::NoSource));
    assert_eq!(no_source_message(), "No file or stdin specified.");
}

#[test]
fn test_with_file() {
    let lines = byte_lines(&["1", "2", "3", "4", "5", "6", "7", "8", "9", "10"]);
    let mut c = Config::default();
    c.num_lines = 3;
    let out = emit_lines(&lines, &c);
    assert_eq!(strings(&out), vec!["1", "2", "3"]);
}

#[test]
fn test_with_stdin() {
    let lines = byte_lines(&["hello", "world", "foo", "bar"]);
    let mut c = Config::default();
    c.num_lines = 2;
    c.use_stdin = true;
    let out = emit_lines(&lines, &c);
    assert_eq!(strings(&out), vec!["hello", "world"]);
}

#[test]
fn test_with_line_numbers() {
    let lines = byte_lines(&["1", "2", "3"]);
    let mut c = Config::default();
    c.num_lines = 3;
    c.line_numbers = true;
    let out = emit_lines(&lines, &c);
    assert_eq!(strings(&out), vec!["     1 1", "     2 2", "     3 3"]);
}

#[test]
fn test_default_config() {
    let c = Config::default();
    assert_eq!(c.num_lines, 10);
    assert!(c.file_path.is_none());
    assert!(!c.use_stdin);
    assert!(!c.line_numbers);
    assert!(c.num_bytes.is_none());
    assert!(c.byte_offset.is_none());
    assert!(!c.paginate);
    assert!(!c.truncate);
    assert!(!c.reverse);
}

#[test]
fn test_choose_input_precedence() {
    let choice = choose_input(true, Some("data.txt".to_string()));
    assert!(matches!(choice, InputChoice::FromStdin));
    let choice = choose_input(false, Some("data.txt".to_string()));
    match choice {
        InputChoice::FromFile(path) => assert_eq!(path, "data.txt"),
        _ => panic!("expected a file source"),
    }
}

#[test]
fn test_line_limit_never_exceeded() {
    let lines = byte_lines(&["a", "b", "c", "d", "e"]);
    for limit in 0..8 {
        let mut c = Config::default();
        c.num_lines = limit;
        let out = emit_lines(&lines, &c);
        assert!(out.len() <= limit);
        assert_eq!(out.len(), limit.min(5));
    }
}

#[test]
fn test_empty_input() {
    let lines: Vec<Vec<u8>> = Vec::new();
    let c = Config::default();
    let out = emit_lines(&lines, &c);
    assert!(out.is_empty());
}

#[test]
fn test_byte_limit_stops_emission() {
    // "hello" costs 6 bytes (5 plus the separator); with a budget of 6 the
    // second line is never emitted.
    let lines = byte_lines(&["hello", "world", "foo"]);
    let mut c = Config::default();
    c.num_bytes = Some(6);
    let out = emit_lines(&lines, &c);
    assert_eq!(strings(&out), vec!["hello"]);
}

#[test]
fn test_byte_limit_crossing_line_is_emitted() {
    // Emission is cut off once the cumulative count has reached the budget;
    // the line that crosses it still goes out whole.
    let lines = byte_lines(&["hello", "world"]);
    let mut c = Config::default();
    c.num_bytes = Some(3);
    let out = emit_lines(&lines, &c);
    assert_eq!(strings(&out), vec!["hello"]);
}

#[test]
fn test_byte_limit_zero() {
    let lines = byte_lines(&["hello"]);
    let mut c = Config::default();
    c.num_bytes = Some(0);
    let out = emit_lines(&lines, &c);
    assert!(out.is_empty());
}

#[test]
fn test_byte_offset_skips_prefix() {
    // The first line's 6 bytes reach the offset, so emission starts with
    // the second line.
    let lines = byte_lines(&["hello", "world", "foo"]);
    let mut c = Config::default();
    c.byte_offset = Some(6);
    let out = emit_lines(&lines, &c);
    assert_eq!(strings(&out), vec!["world", "foo"]);
}

#[test]
fn test_byte_offset_mid_line() {
    // An offset inside the first line skips that whole line.
    let lines = byte_lines(&["hello", "world"]);
    let mut c = Config::default();
    c.byte_offset = Some(2);
    let out = emit_lines(&lines, &c);
    assert_eq!(strings(&out), vec!["world"]);
}

#[test]
fn test_byte_offset_keeps_line_numbers() {
    // Skipped lines still count toward the displayed line number.
    let lines = byte_lines(&["hello", "world"]);
    let mut c = Config::default();
    c.byte_offset = Some(6);
    c.line_numbers = true;
    let out = emit_lines(&lines, &c);
    assert_eq!(strings(&out), vec!["     2 world"]);
}

#[test]
fn test_truncation_exact_form() {
    let long: String = "x".repeat(100);
    let lines = byte_lines(&[long.as_str()]);
    let mut c = Config::default();
    c.truncate = true;
    let out = emit_lines(&lines, &c);
    assert_eq!(out.len(), 1);
    assert_eq!(out[0].len(), 80);
    let expected = format!("{}...", "x".repeat(77));
    assert_eq!(strings(&out), vec![expected]);
}

#[test]
fn test_truncation_boundary() {
    // Exactly 80 bytes is left alone; 81 bytes is truncated.
    let at_limit: String = "y".repeat(80);
    let over_limit: String = "z".repeat(81);
    let lines = byte_lines(&[at_limit.as_str(), over_limit.as_str()]);
    let mut c = Config::default();
    c.truncate = true;
    let out = emit_lines(&lines, &c);
    assert_eq!(out[0].len(), 80);
    assert_eq!(strings(&out)[0], at_limit);
    assert_eq!(out[1].len(), 80);
    assert_eq!(strings(&out)[1], format!("{}...", "z".repeat(77)));
}

#[test]
fn test_truncation_respects_codepoint_boundary() {
    // 41 two-byte characters are 82 bytes; byte 77 falls inside the 39th
    // character, so the cut backs up to byte 76 and the output stays
    // valid UTF-8: 38 whole characters plus the ellipsis, 79 bytes.
    let long: String = "\u{00E9}".repeat(41);
    let lines = byte_lines(&[long.as_str()]);
    let mut c = Config::default();
    c.truncate = true;
    let out = emit_lines(&lines, &c);
    assert_eq!(out.len(), 1);
    assert_eq!(out[0].len(), 79);
    let expected = format!("{}...", "\u{00E9}".repeat(38));
    assert_eq!(String::from_utf8(out[0].clone()).unwrap(), expected);
}

#[test]
fn test_truncation_off_leaves_long_lines() {
    let long: String = "x".repeat(100);
    let lines = byte_lines(&[long.as_str()]);
    let c = Config::default();
    let out = emit_lines(&lines, &c);
    assert_eq!(strings(&out), vec![long]);
}

#[test]
fn test_truncation_with_line_numbers() {
    let long: String = "w".repeat(90);
    let lines = byte_lines(&[long.as_str()]);
    let mut c = Config::default();
    c.truncate = true;
    c.line_numbers = true;
    let out = emit_lines(&lines, &c);
    let expected = format!("     1 {}...", "w".repeat(77));
    assert_eq!(strings(&out), vec![expected]);
}

#[test]
fn test_format_line_wide_number() {
    // A number wider than 6 columns gets no padding, just the space.
    let line = bytes("body");
    let out = format_line(&line, 1234567, true, false);
    assert_eq!(String::from_utf8(out).unwrap(), "1234567 body");
}

#[test]
fn test_format_line_six_digit_number() {
    let line = bytes("body");
    let out = format_line(&line, 123456, true, false);
    assert_eq!(String::from_utf8(out).unwrap(), "123456 body");
}

#[test]
fn test_reverse_order() {
    let lines = byte_lines(&["a", "b", "c"]);
    let mut c = Config::default();
    c.reverse = true;
    c.num_lines = 2;
    let out = emit_lines(&lines, &c);
    assert_eq!(strings(&out), vec!["c", "b"]);
}

#[test]
fn test_reverse_line_numbers_follow_reversed_order() {
    let lines = byte_lines(&["a", "b", "c"]);
    let mut c = Config::default();
    c.reverse = true;
    c.line_numbers = true;
    let out = emit_lines(&lines, &c);
    assert_eq!(strings(&out), vec!["     1 c", "     2 b", "     3 a"]);
}

#[test]
fn test_reverse_twice_reproduces_original() {
    let lines = byte_lines(&["a", "b", "c", "d"]);
    let mut twice: Vec<Vec<u8>> = lines.clone();
    twice.reverse();
    twice.reverse();
    let c = Config::default();
    assert_eq!(emit_lines(&lines, &c), emit_lines(&twice, &c));
    assert_eq!(strings(&emit_lines(&twice, &c)), vec!["a", "b", "c", "d"]);
}

#[test]
fn test_paginate_flag_does_not_change_selection() {
    // Pagination only lets the reader stop early; the computed output is
    // the same.
    let lines = byte_lines(&["a", "b"]);
    let mut c = Config::default();
    c.paginate = true;
    let out = emit_lines(&lines, &c);
    assert_eq!(strings(&out), vec!["a", "b"]);
}

fn chars(s: &str) -> Vec<char> {
    s.chars().collect()
}

#[test]
fn test_is_quit_accepts_trimmed_q() {
    assert!(is_quit(&chars("q")));
    assert!(is_quit(&chars("Q")));
    assert!(is_quit(&chars(" q \n")));
    assert!(is_quit(&chars("\tQ\r\n")));
}

#[test]
fn test_is_quit_trims_unicode_whitespace() {
    // String::trim removes Unicode white space, not just ASCII: a reply
    // of "q" padded with a no-break space or an em space still quits.
    assert!(is_quit(&chars("q\u{00A0}\n")));
    assert!(is_quit(&chars("\u{2003}Q\u{2003}")));
    assert!(is_quit(&chars("\u{3000}q\u{3000}")));
    assert!(!is_quit(&chars("\u{00A0}")));
    assert!(!is_quit(&chars("q\u{00A0}q")));
}

#[test]
fn test_is_quit_rejects_other_replies() {
    assert!(!is_quit(&chars("")));
    assert!(!is_quit(&chars("  \n")));
    assert!(!is_quit(&chars("qq")));
    assert!(!is_quit(&chars("x")));
    assert!(!is_quit(&chars(" q q ")));
    assert!(!is_quit(&chars("quit")));
}

#[test]
fn test_all_filters_together() {
    // Reverse first, then skip until byte 4, stop after 4 considered
    // lines, truncate and number what comes out.
    let long: String = "m".repeat(85);
    let lines = byte_lines(&["one", "two", long.as_str(), "four", "five"]);
    let mut c = Config::default();
    c.reverse = true;
    c.byte_offset = Some(4);
    c.num_lines = 4;
    c.truncate = true;
    c.line_numbers = true;
    // Reversed: five four <long> two one; "five" (4 bytes plus the
    // separator) reaches the offset, so positions 2 to 4 are emitted and
    // "one" is past the line limit.
    let out = emit_lines(&lines, &c);
    let expected_long = format!("     3 {}...", "m".repeat(77));
    assert_eq!(
        strings(&out),
        vec!["     2 four".to_string(), expected_long, "     4 two".to_string()]
    );
}
