use unity_adapter::error::AdapterError;
use unity_adapter::goto::{parse_line_and_column_aware, parse_number};

fn parsed(raw: &str) -> (String, Option<usize>, Option<usize>) {
    let p = parse_line_and_column_aware(raw).expect("should parse");
    (p.path, p.line, p.column)
}

#[test]
fn plain_path_has_no_line_or_column() {
    assert_eq!(parsed("file.txt"), ("file.txt".to_string(), None, None));
    assert_eq!(parsed("src/main.rs"), ("src/main.rs".to_string(), None, None));
}

#[test]
fn line_only_defaults_column_to_one() {
    assert_eq!(parsed("file.txt:10"), ("file.txt".to_string(), Some(10), Some(1)));
}

#[test]
fn line_and_column() {
    assert_eq!(parsed("file.txt:10:4"), ("file.txt".to_string(), Some(10), Some(4)));
}

#[test]
fn drive_letter_colon_is_kept() {
    assert_eq!(
        parsed("C:\\dir\\file.txt:10:4"),
        ("C:\\dir\\file.txt".to_string(), Some(10), Some(4))
    );
}

#[test]
fn third_number_is_ignored() {
    assert_eq!(parsed("file.txt:10:4:99"), ("file.txt".to_string(), Some(10), Some(4)));
}

#[test]
fn lone_colon_is_malformed() {
    assert_eq!(parse_line_and_column_aware(":").unwrap_err(), AdapterError::MalformedSpec);
}

#[test]
fn empty_text_is_malformed() {
    assert_eq!(parse_line_and_column_aware("").unwrap_err(), AdapterError::MalformedSpec);
}

#[test]
fn numbers_only_is_malformed() {
    assert_eq!(parse_line_and_column_aware("10:4").unwrap_err(), AdapterError::MalformedSpec);
}

#[test]
fn ambiguous_numeric_path_takes_line_and_column() {
    assert_eq!(parsed("archive:2024:01"), ("archive".to_string(), Some(2024), Some(1)));
}

#[test]
fn colon_path_segments_are_rejoined() {
    assert_eq!(
        parsed("scp://host:dir/a.cs:7"),
        ("scp://host:dir/a.cs".to_string(), Some(7), Some(1))
    );
}

#[test]
fn leading_empty_segments_do_not_start_the_path() {
    assert_eq!(parsed("::a.cs:3:2"), ("a.cs".to_string(), Some(3), Some(2)));
}

#[test]
fn number_before_path_is_the_line() {
    assert_eq!(parsed("5:a.cs"), ("a.cs".to_string(), Some(5), Some(1)));
}

#[test]
fn numbers_read_like_std_parse() {
    assert_eq!(parse_number("42"), Some(42));
    assert_eq!(parse_number("+7"), Some(7));
    assert_eq!(parse_number("007"), Some(7));
    assert_eq!(parse_number(""), None);
    assert_eq!(parse_number("+"), None);
    assert_eq!(parse_number("-1"), None);
    assert_eq!(parse_number("1a"), None);
    assert_eq!(parse_number("99999999999999999999999"), None);
    let max = usize::MAX.to_string();
    assert_eq!(parse_number(&max), Some(usize::MAX));
}
