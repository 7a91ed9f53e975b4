use tracelogs::journald::{JournalDLog, JournalLogLine};
use tracelogs::logs::{LogLine, Logs};
use tracelogs::tracer::{DateParts, Tracer};

fn line(ts: i64, host: &str, service: &str, message: &str) -> LogLine {
    LogLine::new(ts, host.to_string(), service.to_string(), message.to_string())
}

fn messages(logs: &mut Logs) -> Vec<String> {
    let mut out = Vec::new();
    while let Some(l) = logs.next() {
        out.push(l.message());
    }
    out
}

#[test]
fn merge_orders_by_timestamp_then_fields() {
    let mut a = Logs::new(vec![line(3, "h", "s", "c"), line(1, "h", "s", "a")]);
    let b = Logs::new(vec![line(2, "h", "s", "b"), line(1, "h", "s", "0"), line(1, "g", "z", "z")]);
    let mut merged = a.merge(b);
    assert_eq!(messages(&mut merged), vec!["z", "0", "a", "b", "c"]);
    assert_eq!(messages(&mut a), vec!["c", "a"]);
}

#[test]
fn merge_orders_strings_by_bytes() {
    let mut a = Logs::new(vec![line(1, "h", "s", "é"), line(1, "h", "s", "z")]);
    let b = Logs::new(vec![line(1, "h", "s", "Z"), line(1, "h", "s", "")]);
    let mut merged = a.merge(b);
    assert_eq!(messages(&mut merged), vec!["", "Z", "z", "é"]);
}

#[test]
fn merge_is_the_same_either_way() {
    let x = vec![line(5, "a", "b", "c"), line(-1, "q", "r", "s")];
    let y = vec![line(5, "a", "b", "b"), line(7, "a", "a", "a")];
    let mut a1 = Logs::new(x.clone());
    let mut m1 = a1.merge(Logs::new(y.clone()));
    let mut a2 = Logs::new(y);
    let mut m2 = a2.merge(Logs::new(x));
    assert_eq!(messages(&mut m1), messages(&mut m2));
}

#[test]
fn merge_with_empty_sorts() {
    let mut a = Logs::new(vec![line(9, "h", "s", "late"), line(0, "h", "s", "early")]);
    let mut m = a.merge(Logs::new(Vec::new()));
    assert_eq!(m.len(), 2);
    assert_eq!(messages(&mut m), vec!["early", "late"]);
}

#[test]
fn filter_logs_keeps_wanted_and_drops_unwanted() {
    let logs = Logs::new(vec![
        line(1, "h", "s", "error: disk full"),
        line(2, "h", "s", "warning: disk slow"),
        line(3, "h", "s", "error: net down"),
        line(4, "h", "s", "info"),
    ]);
    let mut kept = logs.filter_logs(&["net"], &["error"]);
    assert_eq!(messages(&mut kept), vec!["error: disk full"]);
    let mut all = logs.filter_logs(&[], &[]);
    assert_eq!(all.len(), 4);
    assert_eq!(messages(&mut all).len(), 4);
    let mut disk = logs.filter_logs(&[], &["disk", ": "]);
    assert_eq!(messages(&mut disk), vec!["error: disk full", "warning: disk slow"]);
    let mut twice = logs.filter_logs(&["net"], &["error"]).filter_logs(&["net"], &["error"]);
    assert_eq!(messages(&mut twice), vec!["error: disk full"]);
}

#[test]
fn next_walks_through_the_lines_once() {
    let mut logs = Logs::new(vec![line(1, "h", "s", "a"), line(2, "h", "s", "b")]);
    assert_eq!(logs.next().unwrap().timestamp(), 1);
    assert_eq!(logs.next().unwrap().timestamp(), 2);
    assert!(logs.next().is_none());
    assert!(logs.next().is_none());
}

#[test]
fn new_from_takes_the_source_lines() {
    let source = JournalDLog::from_lines(vec![
        JournalLogLine::new(10, "host".to_string(), Some("unit".to_string()), "m1".to_string()),
        JournalLogLine::new(20, "host".to_string(), None, "m2".to_string()),
    ]);
    let mut logs = Logs::new_from(source);
    let first = logs.next().unwrap();
    assert_eq!(first.timestamp(), 10);
    assert_eq!(first.service(), "unit");
    let second = logs.next().unwrap();
    assert_eq!(second.service(), "");
    assert_eq!(second.message(), "m2");
    assert_eq!(second.hostname(), "host");
}

#[test]
fn line_date_splits_the_microseconds() {
    let l = line(1_600_000_000_123_456, "h", "s", "m");
    assert_eq!(l.date(), DateParts { secs: 1_600_000_000, nsecs: 123_456 });
    let negative = line(-1, "h", "s", "m");
    assert_eq!(negative.date(), DateParts { secs: 0, nsecs: u32::MAX });
    let big = line(2_500_000_000, "h", "s", "m");
    assert_eq!(big.date(), DateParts { secs: 2_500, nsecs: 500_000_000 });
}

#[test]
fn includes_and_excludes_test_the_message() {
    let l = line(1, "h", "s", "the quick fox");
    assert!(l.includes(&[]));
    assert!(l.includes(&["quick", "fox"]));
    assert!(!l.includes(&["quick", "dog"]));
    assert!(!l.excludes(&[]));
    assert!(l.excludes(&["dog", "fox"]));
    assert!(!l.excludes(&["dog"]));
    assert!(l.includes(&[""]));
}

#[test]
fn header_shows_service_host_and_date() {
    let l = line(1_600_000_000_000_000, "host", "svc", "m");
    let h = l.header();
    let body = "svc@host -- [2020-09-13 12:26:40]\u{1b}[m";
    assert!(h == format!("\u{1b}[38;5;3m{}", body) || h == body);
    assert_eq!(l.try_header(), Some(h));
}

#[test]
fn try_header_refuses_dates_chrono_cannot_show() {
    let l = line(i64::MAX, "host", "svc", "m");
    assert_eq!(l.try_header(), None);
}

#[test]
fn more_words_keep_fewer_lines() {
    let logs = Logs::new(vec![
        line(1, "h", "s", "error disk"),
        line(2, "h", "s", "error net"),
        line(3, "h", "s", "warn disk"),
    ]);
    let mut loose = logs.filter_logs(&[], &["error"]);
    let mut strict = logs.filter_logs(&["net"], &["error", "disk"]);
    assert_eq!(messages(&mut loose), vec!["error disk", "error net"]);
    assert_eq!(messages(&mut strict), vec!["error disk"]);
}

#[test]
fn header_with_uses_the_given_color() {
    let l = line(1_600_000_000_000_000, "host", "svc", "m");
    assert_eq!(l.header_with("<c>"), "<c>svc@host -- [2020-09-13 12:26:40]\u{1b}[m");
    assert_eq!(l.header_with(""), "svc@host -- [2020-09-13 12:26:40]\u{1b}[m");
}
