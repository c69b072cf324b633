use uad_ng::text::{chars_of, has_text, parse_number, same_text, split_lines, split_text, text_of};

fn owned(words: &[&str]) -> Vec<String> {
    words.iter().map(|w| w.to_string()).collect()
}

#[test]
fn chars_of_gives_each_character() {
    assert_eq!(chars_of("a\u{e9}b"), vec!['a', '\u{e9}', 'b']);
    assert_eq!(chars_of(""), Vec::<char>::new());
}

#[test]
fn text_of_cuts_a_range() {
    let v = vec!['a', 'b', 'c', 'd'];
    assert_eq!(text_of(&v, 1, 3), "bc");
    assert_eq!(text_of(&v, 0, 4), "abcd");
    assert_eq!(text_of(&v, 2, 2), "");
}

#[test]
fn split_text_keeps_empty_pieces() {
    assert_eq!(split_text(&chars_of("a\tb\t\tc"), '\t'), owned(&["a", "b", "", "c"]));
    assert_eq!(split_text(&chars_of("a,"), ','), owned(&["a", ""]));
    assert_eq!(split_text(&chars_of(",a"), ','), owned(&["", "a"]));
}

#[test]
fn split_text_without_separator_is_one_piece() {
    assert_eq!(split_text(&chars_of("abc"), ','), owned(&["abc"]));
    assert_eq!(split_text(&chars_of(""), ','), owned(&[""]));
}

#[test]
fn split_pieces_join_to_the_text() {
    let text = "one\ttwo\t\tfour\t";
    let pieces = split_text(&chars_of(text), '\t');
    assert_eq!(pieces.join("\t"), text);
    assert!(pieces.iter().all(|p| !p.contains('\t')));
}

#[test]
fn split_lines_ends_lines_at_newline() {
    assert_eq!(split_lines("a\nb\n"), owned(&["a", "b"]));
    assert_eq!(split_lines("a\nb"), owned(&["a", "b"]));
    assert_eq!(split_lines("a\n\nb"), owned(&["a", "", "b"]));
}

#[test]
fn split_lines_of_nothing_is_nothing() {
    assert_eq!(split_lines(""), Vec::<String>::new());
    assert_eq!(split_lines("\n"), owned(&[""]));
}

#[test]
fn split_lines_takes_carriage_return_with_the_ending() {
    assert_eq!(split_lines("a\r\nb\r\n"), owned(&["a", "b"]));
    assert_eq!(split_lines("a\r"), owned(&["a\r"]));
    assert_eq!(split_lines("a\rb\n"), owned(&["a\rb"]));
}

#[test]
fn split_lines_agrees_with_std() {
    for text in ["", "x", "x\n", "\n\n", "a\r\n\r\nb", "one\ntwo\r\nthree", "\r\n"] {
        let expected: Vec<String> = text.lines().map(|l| l.to_string()).collect();
        assert_eq!(split_lines(text), expected);
    }
}

#[test]
fn has_text_finds_a_part() {
    assert!(has_text("error: device offline", "device offline"));
    assert!(has_text("device offline", "device offline"));
    assert!(has_text("abc", "c"));
    assert!(!has_text("error: device offlin", "device offline"));
    assert!(!has_text("ab", "abc"));
}

#[test]
fn has_text_finds_the_empty_text_everywhere() {
    assert!(has_text("abc", ""));
    assert!(has_text("", ""));
    assert!(!has_text("", "a"));
}

#[test]
fn same_text_compares_character_by_character() {
    assert!(same_text("device", "device"));
    assert!(!same_text("device", "devicE"));
    assert!(!same_text("device", "devices"));
    assert!(same_text("", ""));
}

#[test]
fn parse_number_reads_digits() {
    assert_eq!(parse_number("30"), Some(30));
    assert_eq!(parse_number("0"), Some(0));
    assert_eq!(parse_number("007"), Some(7));
    assert_eq!(parse_number("4294967295"), Some(4294967295));
}

#[test]
fn parse_number_refuses_what_is_no_number() {
    assert_eq!(parse_number(""), None);
    assert_eq!(parse_number("12a"), None);
    assert_eq!(parse_number("-1"), None);
    assert_eq!(parse_number(" 1"), None);
    assert_eq!(parse_number("\u{661}"), None);
}

#[test]
fn parse_number_refuses_what_does_not_fit() {
    assert_eq!(parse_number("4294967296"), None);
    assert_eq!(parse_number("99999999999999999999"), None);
}
