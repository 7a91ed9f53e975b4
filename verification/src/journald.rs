//! Log lines read from journald.

use vstd::prelude::*;
use vstd::string::StringSliceAdditionalSpecFns;
use vstd::utf8::*;

use crate::config::ConfigFile;
use crate::logs::{views, LogLine, LogLineView, LogSource};
use crate::numbers::{parse_i64, parse_i64_spec};
use crate::text::{compare_str, Order};
use crate::tracer::{date_from_timestamp, date_of, DateParts, Tracer};

verus! {

/// One entry of `journalctl --output=json`.
#[derive(Debug, Clone)]
pub struct JournalLogLine {
    timestamp: i64,
    hostname: String,
    service: Option<String>,
    message: String,
}

/// The service of a journal entry as plain text: its unit, or nothing.
pub open spec fn service_text(service: Option<Seq<char>>) -> Seq<char> {
    match service {
        Some(s) => s,
        None => Seq::empty(),
    }
}

impl JournalLogLine {
    /// The entry's timestamp, in microseconds since the Unix epoch.
    pub closed spec fn spec_timestamp(&self) -> i64 {
        self.timestamp
    }

    /// The unit that wrote the entry, if any.
    pub closed spec fn spec_service_opt(&self) -> Option<Seq<char>> {
        match &self.service {
            Some(s) => Some(s@),
            None => None,
        }
    }

    /// An entry with the given fields.
    pub fn new(timestamp: i64, hostname: String, service: Option<String>, message: String) -> (r: JournalLogLine)
        ensures
            r.spec_timestamp() == timestamp,
            r.spec_hostname() == hostname@,
            r.spec_service_opt() == match service {
                Some(s) => Some(s@),
                None => None::<Seq<char>>,
            },
            r.spec_message() == message@,
    {
        JournalLogLine { timestamp, hostname, service, message }
    }

    /// The entry as a general log line; an entry without a unit gets an empty service.
    pub fn to_log_line(&self) -> (r: LogLine)
        ensures
            r@ == (self.spec_timestamp(), self.spec_hostname(), service_text(self.spec_service_opt()),
                self.spec_message()),
    {
        LogLine::new(self.timestamp, self.hostname(), self.service(), self.message())
    }
}

impl Tracer for JournalLogLine {
    open spec fn spec_date(&self) -> DateParts {
        date_of(self.spec_timestamp())
    }

    open spec fn spec_service(&self) -> Seq<char> {
        service_text(self.spec_service_opt())
    }

    closed spec fn spec_hostname(&self) -> Seq<char> {
        self.hostname@
    }

    closed spec fn spec_message(&self) -> Seq<char> {
        self.message@
    }

    fn date(&self) -> (r: DateParts) {
        date_from_timestamp(self.timestamp)
    }

    fn service(&self) -> (r: String) {
        match &self.service {
            Some(s) => s.clone(),
            None => String::new(),
        }
    }

    fn hostname(&self) -> (r: String) {
        self.hostname.clone()
    }

    fn message(&self) -> (r: String) {
        self.message.clone()
    }
}

/// The bytes of `s` without its double quotes.
pub open spec fn without_quotes(s: Seq<u8>) -> Seq<u8>
    decreases s.len(),
{
    if s.len() == 0 {
        Seq::empty()
    } else if s.last() == 0x22 {
        without_quotes(s.drop_last())
    } else {
        without_quotes(s.drop_last()).push(s.last())
    }
}

/// Reads a journal timestamp field: the text with its double quotes removed,
/// read as an `i64`.
pub fn parse_journal_timestamp(text: &str) -> (r: Option<i64>)
    ensures
        r == parse_i64_spec(without_quotes(text.spec_bytes())),
{
    let bytes = text.as_bytes();
    let mut kept: Vec<u8> = Vec::new();
    let n = bytes.len();
    for i in 0..n
        invariant
            n == bytes@.len(),
            kept@ == without_quotes(bytes@.take(i as int)),
    {
        proof {
            assert(bytes@.take(i + 1).drop_last() =~= bytes@.take(i as int));
        }
        if bytes[i] != 0x22 {
            kept.push(bytes[i]);
        }
    }
    proof {
        assert(bytes@.take(n as int) =~= bytes@);
    }
    parse_i64(kept.as_slice())
}

/// The lines of one journald unit.
pub struct JournalDLog {
    lines: Vec<JournalLogLine>,
}

impl JournalDLog {
    /// The journal entries.
    pub closed spec fn spec_entries(&self) -> Seq<JournalLogLine> {
        self.lines@
    }

    /// A log of the given entries.
    pub fn from_lines(lines: Vec<JournalLogLine>) -> (r: JournalDLog)
        ensures
            r.spec_entries() == lines@,
    {
        JournalDLog { lines }
    }
}

/// An entry as a general log line.
pub open spec fn journal_line_view(l: JournalLogLine) -> LogLineView {
    (l.spec_timestamp(), l.spec_hostname(), service_text(l.spec_service_opt()), l.spec_message())
}

impl LogSource for JournalDLog {
    open spec fn spec_source_lines(&self) -> Seq<LogLineView> {
        self.spec_entries().map_values(|l: JournalLogLine| journal_line_view(l))
    }

    fn lines(&self) -> (r: Vec<LogLine>) {
        let mut out: Vec<LogLine> = Vec::new();
        let n = self.lines.len();
        for i in 0..n
            invariant
                n == self.lines@.len(),
                views(out@) =~= self.lines@.take(i as int).map_values(|l: JournalLogLine| journal_line_view(l)),
        {
            let line = self.lines[i].to_log_line();
            let ghost before = out@;
            out.push(line);
            proof {
                assert(views(out@) =~= views(before).push(line@));
                assert(self.lines@.take(i + 1) =~= self.lines@.take(i as int).push(self.lines@[i as int]));
            }
        }
        proof {
            assert(self.lines@.take(n as int) =~= self.lines@);
        }
        out
    }
}

/// The arguments of `journalctl` that read the entries of `unit` as JSON.
pub fn journalctl_args(unit: &str) -> (r: Vec<String>)
    ensures
        r@.len() == 3,
        r@[0]@ == "--unit="@ + unit@,
        r@[1]@ == "--output=json"@,
        r@[2]@ == "--no-pager"@,
{
    let mut first = "--unit=".to_owned();
    first.append(unit);
    let mut args: Vec<String> = Vec::new();
    args.push(first);
    args.push("--output=json".to_owned());
    args.push("--no-pager".to_owned());
    args
}

/// One journald unit to read: the unit, and the host to read it on over ssh
/// (`None` for this machine).
#[derive(Debug, Clone)]
pub struct JournalTarget {
    pub unit: String,
    pub remote: Option<String>,
}

/// The host of a journald target as the place to read it: `None` for
/// `localhost`, the host otherwise.
pub open spec fn remote_of(host: Seq<char>) -> Option<Seq<char>> {
    if host == "localhost"@ {
        None
    } else {
        Some(host)
    }
}

/// The journald units of the configuration, each with where to read it.
pub fn build_logs(config: &ConfigFile) -> (r: Vec<JournalTarget>)
    ensures
        r@.len() == config.targets.journald@.len(),
        forall|i: int| 0 <= i < r@.len() ==> {
            &&& (#[trigger] r@[i]).unit@ == config.targets.journald@[i].name@
            &&& match r@[i].remote {
                Some(h) => remote_of(config.targets.journald@[i].host@) == Some(h@),
                None => remote_of(config.targets.journald@[i].host@) is None,
            }
        },
{
    let targets = &config.targets.journald;
    let mut out: Vec<JournalTarget> = Vec::new();
    let n = targets.len();
    for i in 0..n
        invariant
            n == targets@.len(),
            targets == &config.targets.journald,
            out@.len() == i,
            forall|k: int| 0 <= k < i ==> {
                &&& (#[trigger] out@[k]).unit@ == targets@[k].name@
                &&& match out@[k].remote {
                    Some(h) => remote_of(targets@[k].host@) == Some(h@),
                    None => remote_of(targets@[k].host@) is None,
                }
            },
    {
        let t = &targets[i];
        let remote = match compare_str(t.host.as_str(), "localhost") {
            Order::Equal => None,
            _ => Some(t.host.clone()),
        };
        out.push(JournalTarget { unit: t.name.clone(), remote });
    }
    out
}

} // verus!
