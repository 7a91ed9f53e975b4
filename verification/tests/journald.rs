use tracelogs::config::{ConfigFile, JournaldConfig, Targets};
use tracelogs::journald::{build_logs, journalctl_args, parse_journal_timestamp, JournalDLog, JournalLogLine};
use tracelogs::logs::LogSource;
use tracelogs::tracer::Tracer;

#[test]
fn journal_timestamp_drops_quotes() {
    assert_eq!(parse_journal_timestamp("\"1600000000000000\""), Some(1_600_000_000_000_000));
    assert_eq!(parse_journal_timestamp("42"), Some(42));
    assert_eq!(parse_journal_timestamp("\"4\"2\""), Some(42));
    assert_eq!(parse_journal_timestamp("\"x\""), None);
    assert_eq!(parse_journal_timestamp("\"\""), None);
}

#[test]
fn journalctl_args_name_the_unit() {
    assert_eq!(journalctl_args("nginx"), vec!["--unit=nginx", "--output=json", "--no-pager"]);
}

#[test]
fn build_logs_reads_localhost_locally() {
    let config = ConfigFile {
        targets: Targets {
            journald: vec![
                JournaldConfig { name: "a".to_string(), host: "localhost".to_string() },
                JournaldConfig { name: "b".to_string(), host: "example.org".to_string() },
            ],
            kubectl: vec![],
        },
    };
    let targets = build_logs(&config);
    assert_eq!(targets.len(), 2);
    assert_eq!(targets[0].unit, "a");
    assert_eq!(targets[0].remote, None);
    assert_eq!(targets[1].unit, "b");
    assert_eq!(targets[1].remote.as_deref(), Some("example.org"));
}

#[test]
fn journal_lines_become_log_lines() {
    let log = JournalDLog::from_lines(vec![JournalLogLine::new(
        7,
        "box".to_string(),
        None,
        "hello".to_string(),
    )]);
    let lines = log.lines();
    assert_eq!(lines.len(), 1);
    assert_eq!(lines[0].timestamp(), 7);
    assert_eq!(lines[0].service(), "");
    assert_eq!(lines[0].hostname(), "box");
    assert_eq!(lines[0].message(), "hello");
}
