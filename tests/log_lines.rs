use blooming_light::log_record::LogEntry;

fn line(msg: &str, is_delete: bool, ts: i64) -> String {
    LogEntry { msg: msg.to_string(), is_delete, ts }.to_line()
}

#[test]
fn epoch_record() {
    assert_eq!(
        line("hello", false, 0),
        "{\"msg\":\"hello\",\"is_delete\":false,\"ts\":\"1970-01-01T00:00:00Z\"}\n"
    );
}

#[test]
fn deletion_with_fraction_of_a_second() {
    assert_eq!(
        line("bye", true, 1_700_000_000_500_000_000),
        "{\"msg\":\"bye\",\"is_delete\":true,\"ts\":\"2023-11-14T22:13:20.500Z\"}\n"
    );
}

#[test]
fn nanosecond_precision() {
    assert_eq!(
        line("x", false, 1_700_000_000_000_000_001),
        "{\"msg\":\"x\",\"is_delete\":false,\"ts\":\"2023-11-14T22:13:20.000000001Z\"}\n"
    );
}

#[test]
fn message_is_escaped() {
    assert_eq!(
        line("say \"hi\"\\\n", false, 0),
        "{\"msg\":\"say \\\"hi\\\"\\\\\\n\",\"is_delete\":false,\"ts\":\"1970-01-01T00:00:00Z\"}\n"
    );
}

#[test]
fn non_ascii_message_kept() {
    assert_eq!(
        line("兰茶荼", false, 0),
        "{\"msg\":\"兰茶荼\",\"is_delete\":false,\"ts\":\"1970-01-01T00:00:00Z\"}\n"
    );
}

#[test]
fn one_line_per_record() {
    let l = line("a\nb", false, 0);
    assert_eq!(l.matches('\n').count(), 1);
    assert!(l.ends_with('\n'));
}

#[test]
fn control_characters_escaped() {
    assert_eq!(
        line("\u{1}\t\u{8}\u{c}\r\u{1f}/\u{7f}", false, 0),
        "{\"msg\":\"\\u0001\\t\\b\\f\\r\\u001f/\u{7f}\",\"is_delete\":false,\"ts\":\"1970-01-01T00:00:00Z\"}\n"
    );
}

#[test]
fn line_parses_back_to_record() {
    let msg = "a \"quoted\"\nline\twith \u{2} and 兰";
    let l = line(msg, true, 1_700_000_000_123_000_000);
    let v: serde_json::Value = serde_json::from_str(l.trim_end_matches('\n')).unwrap();
    assert_eq!(v["msg"].as_str(), Some(msg));
    assert_eq!(v["is_delete"].as_bool(), Some(true));
    assert_eq!(v["ts"].as_str(), Some("2023-11-14T22:13:20.123Z"));
    assert_eq!(l.matches('\n').count(), 1);
}
