use iskandar::score::Score;
use iskandar::store::{lines_to_append, ScoreRecord};

fn record(datetime: &str, score: &str) -> ScoreRecord {
    ScoreRecord { datetime: datetime.to_string(), score: Score::parse(score).unwrap() }
}

#[test]
fn empty_store_gets_header_first() {
    let lines = lines_to_append(true, &record("20240102030405", "88.4"));
    assert_eq!(lines, vec!["datetime, score".to_string(), "20240102030405, 88.4".to_string()]);
}

#[test]
fn store_with_lines_gets_record_only() {
    let lines = lines_to_append(false, &record("20240102030405", "42"));
    assert_eq!(lines, vec!["20240102030405, 42".to_string()]);
}

#[test]
fn header_is_written_once_over_several_runs() {
    let mut store: Vec<String> = Vec::new();
    let scores = ["1", "2.5", "30"];
    for (i, s) in scores.iter().enumerate() {
        let datetime = format!("2024010203040{}", i);
        let added = lines_to_append(store.is_empty(), &record(&datetime, s));
        store.extend(added);
    }
    assert_eq!(store.len(), scores.len() + 1);
    assert_eq!(store[0], "datetime, score");
    assert_eq!(store.iter().filter(|l| l.as_str() == "datetime, score").count(), 1);
    assert_eq!(store[1], "20240102030400, 1");
    assert_eq!(store[2], "20240102030401, 2.5");
    assert_eq!(store[3], "20240102030402, 30");
}
