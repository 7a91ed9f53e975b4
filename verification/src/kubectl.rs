//! Log lines read from a Kubernetes pod with `kubectl logs`.

use vstd::prelude::*;
use vstd::string::StringSliceAdditionalSpecFns;
use vstd::utf8::*;

use crate::config::ConfigFile;
use crate::extractor::{chrono_parse, group_text, micros_fit, micros_of, opt_view, RegExtractor, extractor_ok, line_pattern_of};
use crate::journald::service_text;
use crate::logs::{views, LogLine, LogLineView, LogSource};
use crate::pattern::{match_spans, regex_accepts, regex_capture_group, regex_match_spans, spans_well_formed, Pattern};
use crate::text::{byte_len, byte_slice, concat_chars, lemma_decode_extend};
use crate::tracer::{date_from_timestamp, date_of, DateParts, Tracer};

verus! {

broadcast use vstd::utf8::encode_utf8_valid_utf8;

/// A kubectl log line as plain values: timestamp, pod, service and message.
pub type KubectlLineView = (i64, Seq<char>, Option<Seq<char>>, Seq<char>);

/// One line of a pod's log.
#[derive(Debug, Clone)]
pub struct KubectlLogLine {
    timestamp: i64,
    hostname: String,
    service: Option<String>,
    message: String,
}

impl View for KubectlLogLine {
    type V = KubectlLineView;

    closed spec fn view(&self) -> KubectlLineView {
        (self.timestamp, self.hostname@, opt_view(self.service), self.message@)
    }
}

impl KubectlLogLine {
    /// A line with the given fields.
    pub fn new(timestamp: i64, hostname: String, service: Option<String>, message: String) -> (r: KubectlLogLine)
        ensures
            r@ == (timestamp, hostname@, opt_view(service), message@),
    {
        KubectlLogLine { timestamp, hostname, service, message }
    }

    /// The line as a general log line; a line without a service gets an empty one.
    pub fn to_log_line(&self) -> (r: LogLine)
        ensures
            r@ == (self@.0, self@.1, service_text(self@.2), self@.3),
    {
        LogLine::new(self.timestamp, self.hostname(), self.service(), self.message())
    }
}

impl Tracer for KubectlLogLine {
    open spec fn spec_date(&self) -> DateParts {
        date_of(self@.0)
    }

    open spec fn spec_service(&self) -> Seq<char> {
        service_text(self@.2)
    }

    open spec fn spec_hostname(&self) -> Seq<char> {
        self@.1
    }

    open spec fn spec_message(&self) -> Seq<char> {
        self@.3
    }

    fn date(&self) -> (r: DateParts) {
        date_from_timestamp(self.timestamp)
    }

    fn service(&self) -> (r: String) {
        match &self.service {
            Some(s) => s.clone(),
            None => String::new(),
        }
    }

    fn hostname(&self) -> (r: String) {
        self.hostname.clone()
    }

    fn message(&self) -> (r: String) {
        self.message.clone()
    }
}

/// The lines of one pod.
pub struct KubectlLog {
    lines: Vec<KubectlLogLine>,
}

/// A kubectl line as a general log line.
pub open spec fn kubectl_line_view(v: KubectlLineView) -> LogLineView {
    (v.0, v.1, service_text(v.2), v.3)
}

impl KubectlLog {
    /// The pod's lines, as plain values.
    pub closed spec fn spec_entries(&self) -> Seq<KubectlLineView> {
        self.lines@.map_values(|l: KubectlLogLine| l@)
    }

    /// A log of the given lines.
    pub fn from_lines(lines: Vec<KubectlLogLine>) -> (r: KubectlLog)
        ensures
            r.spec_entries() == lines@.map_values(|l: KubectlLogLine| l@),
    {
        KubectlLog { lines }
    }
}

impl LogSource for KubectlLog {
    open spec fn spec_source_lines(&self) -> Seq<LogLineView> {
        self.spec_entries().map_values(|v: KubectlLineView| kubectl_line_view(v))
    }

    fn lines(&self) -> (r: Vec<LogLine>) {
        let mut out: Vec<LogLine> = Vec::new();
        let n = self.lines.len();
        for i in 0..n
            invariant
                n == self.lines@.len(),
                views(out@) =~= self.spec_entries().take(i as int).map_values(|v: KubectlLineView| kubectl_line_view(v)),
        {
            let line = self.lines[i].to_log_line();
            let ghost before = out@;
            out.push(line);
            proof {
                assert(views(out@) =~= views(before).push(line@));
                assert(self.spec_entries().take(i + 1) =~= self.spec_entries().take(i as int).push(self.lines@[i as int]@));
            }
        }
        proof {
            assert(self.spec_entries().take(n as int) =~= self.spec_entries());
        }
        out
    }
}

/// Walks the matches from left to right: the text between the previous
/// match and a match (when not empty) and then the match itself become pieces.
/// Returns the byte ranges of the pieces and where the last match ended.
pub open spec fn keep_walk(spans: Seq<(usize, usize)>) -> (Seq<(int, int)>, int)
    decreases spans.len(),
{
    if spans.len() == 0 {
        (Seq::empty(), 0)
    } else {
        let (ranges, last) = keep_walk(spans.drop_last());
        let s = spans.last().0 as int;
        let e = spans.last().1 as int;
        let with_gap = if last != s { ranges.push((last, s)) } else { ranges };
        (with_gap.push((s, e)), e)
    }
}

/// The byte ranges of the pieces `split_keep` cuts a text of `len` bytes into.
pub open spec fn keep_ranges(spans: Seq<(usize, usize)>, len: int) -> Seq<(int, int)> {
    let (ranges, last) = keep_walk(spans);
    if last < len { ranges.push((last, len)) } else { ranges }
}

/// The pieces `split_keep` cuts `text` into, as text.
pub open spec fn keep_pieces(pattern: Seq<char>, text: Seq<char>) -> Seq<Seq<char>> {
    keep_ranges(regex_match_spans(pattern, text), encode_utf8(text).len() as int).map_values(
        |r: (int, int)| decode_utf8(encode_utf8(text).subrange(r.0, r.1)),
    )
}

proof fn lemma_keep_walk(spans: Seq<(usize, usize)>, bytes: Seq<u8>)
    requires
        valid_utf8(bytes),
        spans_well_formed(spans, bytes),
    ensures
        ({
            let (ranges, last) = keep_walk(spans);
            &&& 0 <= last <= bytes.len()
            &&& is_char_boundary(bytes, last)
            &&& spans.len() > 0 ==> last == spans.last().1
            &&& concat_chars(ranges.map_values(|r: (int, int)| decode_utf8(bytes.subrange(r.0, r.1))))
                =~= decode_utf8(bytes.subrange(0, last))
            &&& forall|k: int| 0 <= k < ranges.len() ==> {
                &&& 0 <= (#[trigger] ranges[k]).0 <= ranges[k].1 <= bytes.len()
                &&& is_char_boundary(bytes, ranges[k].0)
                &&& is_char_boundary(bytes, ranges[k].1)
            }
        }),
    decreases spans.len(),
{
    if spans.len() == 0 {
        is_char_boundary_start_end_of_seq(bytes);
        assert(bytes.subrange(0, 0) =~= Seq::<u8>::empty());
    } else {
        let prev = spans.drop_last();
        assert(spans_well_formed(prev, bytes)) by {
            assert forall|i: int| 0 <= i < prev.len() implies #[trigger] prev[i] == spans[i] by {}
        }
        lemma_keep_walk(prev, bytes);
        let i = spans.len() - 1;
        assert(spans[i].0 <= spans[i].1 <= bytes.len());
        if prev.len() > 0 {
            assert(spans[i - 1].1 <= spans[i].0);
            assert(prev.last() == spans[i - 1]);
        }
        let (ranges, last) = keep_walk(prev);
        let st = spans.last().0 as int;
        let en = spans.last().1 as int;
        let g = |r: (int, int)| decode_utf8(bytes.subrange(r.0, r.1));
        let with_gap = if last != st { ranges.push((last, st)) } else { ranges };
        assert(concat_chars(with_gap.map_values(g)) == decode_utf8(bytes.subrange(0, st))) by {
            if last != st {
                assert(with_gap.map_values(g).drop_last() =~= ranges.map_values(g));
                assert(with_gap.map_values(g).last() == g((last, st)));
                lemma_decode_extend(bytes, last, st);
            }
        }
        let full = with_gap.push((st, en)).map_values(g);
        assert(full.drop_last() =~= with_gap.map_values(g));
        assert(full.last() == g((st, en)));
        assert(concat_chars(full) == concat_chars(with_gap.map_values(g)) + g((st, en)));
        lemma_decode_extend(bytes, st, en);
    }
}

/// The pieces of `split_keep`, joined, give back the text.
proof fn lemma_keep_pieces_join(spans: Seq<(usize, usize)>, text: Seq<char>)
    requires
        spans_well_formed(spans, encode_utf8(text)),
    ensures
        concat_chars(keep_ranges(spans, encode_utf8(text).len() as int).map_values(
            |r: (int, int)| decode_utf8(encode_utf8(text).subrange(r.0, r.1)),
        )) == text,
{
    let bytes = encode_utf8(text);
    lemma_keep_walk(spans, bytes);
    let ranges = keep_ranges(spans, bytes.len() as int);
    let (wr, wl) = keep_walk(spans);
    let g = |r: (int, int)| decode_utf8(bytes.subrange(r.0, r.1));
    if wl < bytes.len() {
        is_char_boundary_start_end_of_seq(bytes);
        assert(ranges.map_values(g).drop_last() =~= wr.map_values(g));
        lemma_decode_extend(bytes, wl, bytes.len() as int);
    }
    assert(bytes.subrange(0, bytes.len() as int) =~= bytes);
    encode_utf8_decode_utf8(text);
}

/// Cuts `text` into the separator's matches and the text between them, in
/// order; empty text between two matches is left out.
pub fn split_keep<'a>(separator: &Pattern, text: &'a str) -> (r: Vec<&'a str>)
    ensures
        r@.map_values(|s: &str| s@) == keep_pieces(separator@, text@),
        concat_chars(r@.map_values(|s: &str| s@)) == text@,
{
    let spans = match_spans(separator, text);
    let ghost bytes = text.spec_bytes();
    let len = byte_len(text);
    let mut out: Vec<&'a str> = Vec::new();
    let mut last: usize = 0;
    let n = spans.len();
    proof {
        lemma_keep_walk(spans@.take(0), bytes);
    }
    for i in 0..n
        invariant
            n == spans@.len(),
            bytes == text.spec_bytes(),
            len == bytes.len(),
            spans@ == regex_match_spans(separator@, text@),
            spans_well_formed(spans@, bytes),
            keep_walk(spans@.take(i as int)).1 == last as int,
            last <= len,
            is_char_boundary(bytes, last as int),
            i > 0 ==> last == spans@[i - 1].1,
            out@.len() == keep_walk(spans@.take(i as int)).0.len(),
            forall|k: int| 0 <= k < out@.len() ==> (#[trigger] out@[k]).spec_bytes()
                == bytes.subrange(keep_walk(spans@.take(i as int)).0[k].0, keep_walk(spans@.take(i as int)).0[k].1),
    {
        let (s, e) = spans[i];
        proof {
            assert(spans@.take(i + 1).drop_last() =~= spans@.take(i as int));
            assert(spans_well_formed(spans@, bytes));
            assert(spans@[i as int].0 <= spans@[i as int].1 <= bytes.len());
            if i > 0 {
                assert(spans@[i - 1].1 <= spans@[i as int].0);
            }
        }
        if last != s {
            let gap = byte_slice(text, last, s);
            out.push(gap);
        }
        let matched = byte_slice(text, s, e);
        out.push(matched);
        last = e;
    }
    proof {
        assert(spans@.take(n as int) =~= spans@);
        lemma_keep_walk(spans@, bytes);
        is_char_boundary_start_end_of_seq(bytes);
    }
    if last < len {
        let rest = byte_slice(text, last, len);
        out.push(rest);
    }
    proof {
        let ranges = keep_ranges(spans@, bytes.len() as int);
        assert(out@.len() == ranges.len());
        assert forall|k: int| 0 <= k < out@.len() implies (#[trigger] out@[k])@
            == decode_utf8(bytes.subrange(ranges[k].0, ranges[k].1)) by {
            encode_utf8_decode_utf8(out@[k]@);
        }
        assert(out@.map_values(|s: &str| s@) =~= keep_pieces(separator@, text@));
        lemma_keep_pieces_join(spans@, text@);
    }
    out
}

/// The pieces joined two by two, or `None` for an odd number of pieces.
pub open spec fn pair_up(pieces: Seq<Seq<char>>) -> Option<Seq<Seq<char>>> {
    if pieces.len() % 2 == 0 {
        Some(Seq::new(pieces.len() / 2, |k: int| pieces[2 * k] + pieces[2 * k + 1]))
    } else {
        None
    }
}

/// Joins the pieces two by two; `None` for an odd number of pieces.
pub fn pair_pieces(pieces: &Vec<&str>) -> (r: Option<Vec<String>>)
    ensures
        match r {
            Some(v) => pair_up(pieces@.map_values(|s: &str| s@)) == Some(v@.map_values(|s: String| s@)),
            None => pair_up(pieces@.map_values(|s: &str| s@)) is None,
        },
{
    let n = pieces.len();
    if n % 2 != 0 {
        return None;
    }
    let ghost ps = pieces@.map_values(|s: &str| s@);
    let mut out: Vec<String> = Vec::new();
    let half = n / 2;
    for k in 0..half
        invariant
            n == pieces@.len(),
            half == n / 2,
            n % 2 == 0,
            ps == pieces@.map_values(|s: &str| s@),
            out@.len() == k,
            forall|j: int| 0 <= j < k ==> (#[trigger] out@[j])@ == ps[2 * j] + ps[2 * j + 1],
    {
        let mut joined = pieces[2 * k].to_owned();
        joined.append(pieces[2 * k + 1]);
        out.push(joined);
    }
    proof {
        assert(out@.map_values(|s: String| s@) =~= Seq::new(ps.len() / 2, |k: int| ps[2 * k] + ps[2 * k + 1]));
    }
    Some(out)
}

/// What one joined line becomes: `None` where reading it fails, `Some(None)`
/// when the extractor's regex does not match it, and otherwise the line read
/// from its `datetime`, `service` and `message` groups.
pub open spec fn line_entry(pod: Seq<char>, regex: Seq<char>, format: Seq<char>, line: Seq<char>) -> Option<Option<KubectlLineView>> {
    if regex_capture_group(regex, line, "datetime"@) is None {
        Some(None)
    } else {
        match (group_text(regex, line, "datetime"@), group_text(regex, line, "service"@), group_text(regex, line, "message"@)) {
            (Some(d), Some(s), Some(m)) => match chrono_parse(d, format) {
                Some(v) => if micros_fit(v) {
                    Some(Some((micros_of(v) as i64, pod, Some(s), m)))
                } else {
                    None
                },
                None => None,
            },
            _ => None,
        }
    }
}

/// What the joined lines become: `None` where any of them cannot be read.
pub open spec fn extract_lines(pod: Seq<char>, regex: Seq<char>, format: Seq<char>, lines: Seq<Seq<char>>) -> Option<Seq<KubectlLineView>>
    decreases lines.len(),
{
    if lines.len() == 0 {
        Some(Seq::empty())
    } else {
        match extract_lines(pod, regex, format, lines.drop_last()) {
            None => None,
            Some(prev) => match line_entry(pod, regex, format, lines.last()) {
                None => None,
                Some(None) => Some(prev),
                Some(Some(v)) => Some(prev.push(v)),
            },
        }
    }
}

/// Once some of the lines cannot be read, neither can all of them.
proof fn lemma_extract_prefix_fails(pod: Seq<char>, regex: Seq<char>, format: Seq<char>, lines: Seq<Seq<char>>, k: int)
    requires
        0 <= k <= lines.len(),
        extract_lines(pod, regex, format, lines.take(k)) is None,
    ensures
        extract_lines(pod, regex, format, lines) is None,
    decreases lines.len() - k,
{
    if k < lines.len() {
        assert(lines.take(k + 1).drop_last() =~= lines.take(k));
        lemma_extract_prefix_fails(pod, regex, format, lines, k + 1);
    } else {
        assert(lines.take(k) =~= lines);
    }
}

/// What the output of `kubectl logs` becomes: cut at the line delimiter with
/// the delimiters kept, joined two by two into lines, and read by the extractor.
pub open spec fn kubectl_output_lines(pod: Seq<char>, regex: Seq<char>, format: Seq<char>, delimiter: Seq<char>, output: Seq<char>) -> Option<Seq<KubectlLineView>> {
    match pair_up(keep_pieces(delimiter, output)) {
        None => None,
        Some(lines) => extract_lines(pod, regex, format, lines),
    }
}

impl KubectlLog {
    /// The log of pod `pod` read from the output of `kubectl logs`: the output
    /// is cut at `separator` keeping the delimiters, the pieces are joined two
    /// by two into lines, the lines the extractor's regex matches are read,
    /// and the others are left out. `None` for an odd number of pieces, or a
    /// matching line without its `datetime`, `service` or `message` group or
    /// with a date the extractor cannot read.
    pub fn from_output(pod: &str, extractor: &RegExtractor, separator: &Pattern, output: &str) -> (r: Option<KubectlLog>)
        ensures
            match r {
                Some(log) => kubectl_output_lines(pod@, extractor.spec_regex(), extractor.spec_strftime(),
                    separator@, output@) == Some(log.spec_entries()),
                None => kubectl_output_lines(pod@, extractor.spec_regex(), extractor.spec_strftime(),
                    separator@, output@) is None,
            },
    {
        let pieces = split_keep(separator, output);
        let joined = match pair_pieces(&pieces) {
            Some(j) => j,
            None => { return None; },
        };
        let ghost lines = joined@.map_values(|s: String| s@);
        let ghost regex = extractor.spec_regex();
        let ghost format = extractor.spec_strftime();
        let mut out: Vec<KubectlLogLine> = Vec::new();
        let n = joined.len();
        for i in 0..n
            invariant
                n == joined@.len(),
                lines == joined@.map_values(|s: String| s@),
                pair_up(keep_pieces(separator@, output@)) == Some(lines),
                regex == extractor.spec_regex(),
                format == extractor.spec_strftime(),
                extract_lines(pod@, regex, format, lines.take(i as int))
                    == Some(out@.map_values(|l: KubectlLogLine| l@)),
        {
            proof {
                assert(lines.take(i + 1).drop_last() =~= lines.take(i as int));
                assert(lines.take(i + 1).last() == joined@[i as int]@);
            }
            let line = joined[i].as_str();
            match extractor.get_fields(line) {
                None => {},
                Some(fields) => {
                    let (d, s, m) = match (fields.datetime, fields.service, fields.message) {
                        (Some(d), Some(s), Some(m)) => (d, s, m),
                        _ => {
                            proof {
                                assert(extract_lines(pod@, regex, format, lines.take(i + 1)) is None);
                                lemma_extract_prefix_fails(pod@, regex, format, lines, i + 1);
                            }
                            return None;
                        },
                    };
                    let ts = match extractor.try_timestamp_micros(d.as_str()) {
                        Some(ts) => ts,
                        None => {
                            proof {
                                assert(extract_lines(pod@, regex, format, lines.take(i + 1)) is None);
                                lemma_extract_prefix_fails(pod@, regex, format, lines, i + 1);
                            }
                            return None;
                        },
                    };
                    let entry = KubectlLogLine::new(ts, pod.to_owned(), Some(s), m);
                    let ghost before = out@;
                    out.push(entry);
                    proof {
                        assert(out@.map_values(|l: KubectlLogLine| l@)
                            =~= before.map_values(|l: KubectlLogLine| l@).push(entry@));
                    }
                },
            }
        }
        proof {
            assert(lines.take(n as int) =~= lines);
        }
        Some(KubectlLog::from_lines(out))
    }
}

/// The arguments of `kubectl` that print the log of `pod`.
pub fn kubectl_args(pod: &str) -> (r: Vec<String>)
    ensures
        r@.len() == 2,
        r@[0]@ == "logs"@,
        r@[1]@ == pod@,
{
    let mut args: Vec<String> = Vec::new();
    args.push("logs".to_owned());
    args.push(pod.to_owned());
    args
}

/// One pod to read: its name, the extractor for its lines, and the line delimiter.
#[derive(Debug)]
pub struct KubectlTarget {
    pub pod: String,
    pub extractor: RegExtractor,
    pub separator: Pattern,
}

/// Whether a kubectl entry of the configuration makes a usable target.
pub open spec fn kubectl_config_ok(c: crate::config::KubectlConfig) -> bool {
    &&& extractor_ok(c.regex.datetime@, c.regex.host@, c.regex.service@, c.regex.message@, c.regex.log_pattern@)
    &&& regex_accepts(c.regex.line_delimiter@)
}

/// The pods of the configuration, each with its extractor and line delimiter;
/// `None` where some entry's patterns cannot be compiled.
pub fn build_logs(config: &ConfigFile) -> (r: Option<Vec<KubectlTarget>>)
    ensures
        r is Some <==> forall|i: int| 0 <= i < config.targets.kubectl@.len()
            ==> kubectl_config_ok(#[trigger] config.targets.kubectl@[i]),
        r matches Some(v) ==> {
            &&& v@.len() == config.targets.kubectl@.len()
            &&& forall|i: int| 0 <= i < v@.len() ==> {
                let c = config.targets.kubectl@[i];
                &&& (#[trigger] v@[i]).pod@ == c.name@
                &&& Some(v@[i].extractor.spec_regex()) == line_pattern_of(c.regex.datetime@, c.regex.host@,
                    c.regex.service@, c.regex.message@, c.regex.log_pattern@)
                &&& v@[i].extractor.spec_strftime() == c.date_string@
                &&& v@[i].separator@ == c.regex.line_delimiter@
            }
        },
{
    let targets = &config.targets.kubectl;
    let mut out: Vec<KubectlTarget> = Vec::new();
    let n = targets.len();
    for i in 0..n
        invariant
            n == targets@.len(),
            targets == &config.targets.kubectl,
            out@.len() == i,
            forall|j: int| 0 <= j < i ==> kubectl_config_ok(#[trigger] targets@[j]),
            forall|j: int| 0 <= j < i ==> {
                let c = targets@[j];
                &&& (#[trigger] out@[j]).pod@ == c.name@
                &&& Some(out@[j].extractor.spec_regex()) == line_pattern_of(c.regex.datetime@, c.regex.host@,
                    c.regex.service@, c.regex.message@, c.regex.log_pattern@)
                &&& out@[j].extractor.spec_strftime() == c.date_string@
                &&& out@[j].separator@ == c.regex.line_delimiter@
            },
    {
        let t = &targets[i];
        let extractor = match RegExtractor::try_new(
            t.regex.datetime.as_str(),
            t.regex.host.as_str(),
            t.regex.service.as_str(),
            t.regex.message.as_str(),
            t.regex.log_pattern.as_str(),
            t.date_string.as_str(),
        ) {
            Some(e) => e,
            None => { return None; },
        };
        let separator = match Pattern::new(t.regex.line_delimiter.as_str()) {
            Ok(p) => p,
            Err(_) => { return None; },
        };
        out.push(KubectlTarget { pod: t.name.clone(), extractor, separator });
    }
    Some(out)
}

} // verus!
