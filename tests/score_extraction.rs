use iskandar::config::{default_benchmark_command, default_benchmark_score_regex};
use iskandar::score::{extract_score, score_of_group, Score, ScoreError};

const PATTERN: &str = r"score: ([\d.]+) point";

fn lines(texts: &[&str]) -> Vec<String> {
    texts.iter().map(|t| t.to_string()).collect()
}

fn parsed(text: &str) -> Option<String> {
    Score::parse(text).map(|s| s.as_text())
}

#[test]
fn last_matching_line_gives_the_score() {
    let out = lines(&["score: 10 point", "noise", "score: 42 point"]);
    let score = extract_score(PATTERN, &out).unwrap().unwrap();
    assert_eq!(score.as_text(), "42");
}

#[test]
fn earlier_match_is_used_when_later_lines_do_not_match() {
    let out = lines(&["score: 10 point", "score: 12.5 point", "done", "bye"]);
    let score = extract_score(PATTERN, &out).unwrap().unwrap();
    assert_eq!(score.as_text(), "12.5");
}

#[test]
fn no_matching_line_gives_no_score() {
    let out = lines(&["benchmark start", "benchmark end"]);
    assert!(matches!(extract_score(PATTERN, &out), Ok(None)));
}

#[test]
fn empty_output_gives_no_score() {
    assert!(matches!(extract_score(PATTERN, &Vec::new()), Ok(None)));
}

#[test]
fn invalid_pattern_is_reported() {
    let out = lines(&["score: 1 point"]);
    assert!(matches!(extract_score("score: ([", &out), Err(ScoreError::InvalidPattern)));
    assert!(matches!(extract_score("score: ([", &Vec::new()), Err(ScoreError::InvalidPattern)));
}

#[test]
fn pattern_without_group_is_reported() {
    let out = lines(&["score: 1 point"]);
    assert!(matches!(extract_score("score", &out), Err(ScoreError::MissingGroup)));
}

#[test]
fn capture_that_is_no_number_is_reported() {
    let out = lines(&["score: 1 point", "score: abc point"]);
    assert!(matches!(extract_score(r"score: (\S+) point", &out), Err(ScoreError::NotANumber)));
}

#[test]
fn capture_is_trimmed_before_parsing() {
    let out = lines(&["score:   7.50   point"]);
    let score = extract_score("score:(.*)point", &out).unwrap().unwrap();
    assert_eq!(score.as_text(), "7.5");
    assert_eq!(score_of_group("  42 ").unwrap().unwrap().as_text(), "42");
}

#[test]
fn default_settings_read_the_default_command_output() {
    let out = lines(&["benchmark start", "benchmark score: 88.4 point", "benchmark end"]);
    let pattern = default_benchmark_score_regex();
    assert!(default_benchmark_command().contains("88.4"));
    let score = extract_score(&pattern, &out).unwrap().unwrap();
    assert_eq!(score.as_text(), "88.4");
}

#[test]
fn numbers_are_kept_in_normal_form() {
    assert_eq!(parsed("42"), Some("42".to_string()));
    assert_eq!(parsed("088.40"), Some("88.4".to_string()));
    assert_eq!(parsed("42.0"), Some("42".to_string()));
    assert_eq!(parsed(".5"), Some("0.5".to_string()));
    assert_eq!(parsed("5."), Some("5".to_string()));
    assert_eq!(parsed("+7"), Some("7".to_string()));
    assert_eq!(parsed("-3.25"), Some("-3.25".to_string()));
    assert_eq!(parsed("-0.00"), Some("0".to_string()));
    assert_eq!(parsed("000"), Some("0".to_string()));
    assert_eq!(parsed("123456789"), Some("123456789".to_string()));
}

#[test]
fn text_that_is_no_number_is_refused() {
    assert_eq!(parsed(""), None);
    assert_eq!(parsed("."), None);
    assert_eq!(parsed("-"), None);
    assert_eq!(parsed("1.2.3"), None);
    assert_eq!(parsed("1e5"), None);
    assert_eq!(parsed("abc"), None);
    assert_eq!(parsed(" 1"), None);
    assert_eq!(parsed("--1"), None);
}
