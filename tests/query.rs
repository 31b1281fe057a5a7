use taskcast::query::{history_options, parse_filter, parse_u64, split_commas, HistoryQuery, SseQuery};
use taskcast::types::Level;

#[test]
fn split_drops_empty_parts() {
    assert_eq!(split_commas("a,,b,"), vec!["a".to_string(), "b".to_string()]);
    assert!(split_commas("").is_empty());
    assert_eq!(split_commas("llm.*"), vec!["llm.*".to_string()]);
}

#[test]
fn parse_filter_reads_lists_flags_and_cursor() {
    let q = SseQuery {
        types: Some("progress,llm.*".to_string()),
        levels: Some("info,bogus,error".to_string()),
        include_status: Some("false".to_string()),
        wrap: Some("yes".to_string()),
        since_id: None,
        since_index: Some("4".to_string()),
        since_timestamp: Some("x".to_string()),
    };
    let f = parse_filter(&q);
    assert_eq!(f.types, Some(vec!["progress".to_string(), "llm.*".to_string()]));
    assert_eq!(f.levels, Some(vec![Level::Info, Level::Error]));
    assert_eq!(f.include_status, Some(false));
    assert_eq!(f.wrap, Some(true));
    let c = f.since.unwrap();
    assert_eq!(c.id, None);
    assert_eq!(c.index, Some(4));
    assert_eq!(c.timestamp, None);
}

#[test]
fn parse_filter_without_cursor() {
    let f = parse_filter(&SseQuery::default());
    assert!(f.since.is_none());
    assert!(f.types.is_none());
    assert!(f.levels.is_none());
    assert!(f.include_status.is_none());
}

#[test]
fn history_options_only_with_a_cursor() {
    assert!(history_options(HistoryQuery::default()).is_none());
    let opts = history_options(HistoryQuery { since_index: Some(1), since_timestamp: None, since_id: None }).unwrap();
    let c = opts.since.unwrap();
    assert_eq!(c.index, Some(1));
    assert!(c.id.is_none());
    assert!(opts.limit.is_none());
}

#[test]
fn parse_u64_matches_std_parse() {
    for text in ["0", "5", "+5", "007", "18446744073709551615", "18446744073709551616", "", "+", "1a", " 1", "-1", "++1"] {
        assert_eq!(parse_u64(text), text.parse::<u64>().ok(), "{text}");
    }
    assert_eq!(parse_u64("+42"), Some(42));
    assert_eq!(parse_u64("18446744073709551615"), Some(u64::MAX));
}
