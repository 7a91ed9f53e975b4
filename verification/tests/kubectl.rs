use tracelogs::config::{ConfigFile, KubectlConfig, RegexScheme, Targets};
use tracelogs::extractor::RegExtractor;
use tracelogs::kubectl::{build_logs, kubectl_args, pair_pieces, split_keep, KubectlLog};
use tracelogs::logs::LogSource;
use tracelogs::pattern::Pattern;
use tracelogs::tracer::Tracer;

fn extractor() -> RegExtractor {
    RegExtractor::try_new(
        r"[0-9-]+ [0-9:]+",
        r"\S+",
        r"\w+",
        r".*",
        r"^(?P<datetime>{d}) (?P<host>{h}) (?P<service>{s}): (?P<message>{m})",
        "%Y-%m-%d %H:%M:%S",
    )
    .unwrap()
}

#[test]
fn split_keep_keeps_the_delimiters() {
    let sep = Pattern::new("\n").unwrap();
    assert_eq!(split_keep(&sep, "a\nb\n"), vec!["a", "\n", "b", "\n"]);
    assert_eq!(split_keep(&sep, "a\n\nb"), vec!["a", "\n", "\n", "b"]);
    assert_eq!(split_keep(&sep, ""), Vec::<&str>::new());
}

#[test]
fn pair_pieces_joins_two_by_two() {
    assert_eq!(pair_pieces(&vec!["a", "\n", "b", "\n"]), Some(vec!["a\n".to_string(), "b\n".to_string()]));
    assert_eq!(pair_pieces(&vec!["a", "\n", "b"]), None);
}

#[test]
fn extractor_reads_fields_and_dates() {
    let e = extractor();
    let f = e.get_fields("2020-09-13 12:26:40 pod1 api: started").unwrap();
    assert_eq!(f.datetime.as_deref(), Some("2020-09-13 12:26:40"));
    assert_eq!(f.service.as_deref(), Some("api"));
    assert_eq!(f.message.as_deref(), Some("started"));
    assert_eq!(f.host.as_deref(), Some("pod1"));
    assert_eq!(f.matched.as_deref(), Some("2020-09-13 12:26:40 pod1 api: started"));
    assert!(e.get_fields("garbage").is_none());
    assert_eq!(e.timestamp_micros("2020-09-13 12:26:40"), 1_600_000_000_000_000);
    assert_eq!(e.try_timestamp_micros("not a date"), None);
}

#[test]
fn extractor_refuses_bad_templates() {
    assert!(RegExtractor::try_new("a", "b", "c", "d", "{x}", "%Y").is_none());
    assert!(RegExtractor::try_new("(", "b", "c", "d", "{d}", "%Y").is_none());
    assert!(RegExtractor::try_new("a", "b", "c", "d", "{d}{h}", "%Y").is_some());
}

#[test]
fn kubectl_output_becomes_lines() {
    let sep = Pattern::new("\n").unwrap();
    let out = "2020-09-13 12:26:40 pod1 api: started\nnoise\n2020-09-13 12:26:41 pod1 db: ready\n";
    let log = KubectlLog::from_output("pod1", &extractor(), &sep, out).unwrap();
    let lines = log.lines();
    assert_eq!(lines.len(), 2);
    assert_eq!(lines[0].timestamp(), 1_600_000_000_000_000);
    assert_eq!(lines[0].hostname(), "pod1");
    assert_eq!(lines[0].service(), "api");
    assert_eq!(lines[0].message(), "started");
    assert_eq!(lines[1].timestamp(), 1_600_000_001_000_000);
    assert_eq!(lines[1].service(), "db");
}

#[test]
fn kubectl_output_fails_where_reading_fails() {
    let sep = Pattern::new("\n").unwrap();
    assert!(KubectlLog::from_output("p", &extractor(), &sep, "odd").is_none());
    let bad_date = "2020-99-13 12:26:40 pod1 api: started\n";
    assert!(KubectlLog::from_output("p", &extractor(), &sep, bad_date).is_none());
    assert_eq!(KubectlLog::from_output("p", &extractor(), &sep, "").unwrap().lines().len(), 0);
}

#[test]
fn kubectl_args_name_the_pod() {
    assert_eq!(kubectl_args("web-1"), vec!["logs", "web-1"]);
}

#[test]
fn kubectl_build_logs_compiles_each_target() {
    let scheme = RegexScheme {
        datetime: r"[0-9-]+ [0-9:]+".to_string(),
        host: r"\S+".to_string(),
        service: r"\w+".to_string(),
        message: r".*".to_string(),
        log_pattern: r"(?P<datetime>{d}) (?P<host>{h}) (?P<service>{s}): (?P<message>{m})".to_string(),
        line_delimiter: "\n".to_string(),
    };
    let mut config = ConfigFile {
        targets: Targets {
            journald: vec![],
            kubectl: vec![KubectlConfig { name: "web".to_string(), regex: scheme.clone(), date_string: "%Y".to_string() }],
        },
    };
    let targets = build_logs(&config).unwrap();
    assert_eq!(targets.len(), 1);
    assert_eq!(targets[0].pod, "web");
    assert_eq!(targets[0].separator.as_str(), "\n");
    let mut broken = scheme;
    broken.line_delimiter = "(".to_string();
    config.targets.kubectl.push(KubectlConfig { name: "x".to_string(), regex: broken, date_string: "%Y".to_string() });
    assert!(build_logs(&config).is_none());
}

#[test]
fn split_keep_pieces_join_back() {
    let sep = Pattern::new(r"\s+").unwrap();
    let text = "  alpha  beta\tgamma é ";
    let pieces = split_keep(&sep, text);
    assert_eq!(pieces, vec!["  ", "alpha", "  ", "beta", "\t", "gamma", " ", "é", " "]);
    assert_eq!(pieces.concat(), text);
}
