//! Extracting the fields of a log line with a regular expression, and reading
//! its date with a strftime-style format.

use vstd::prelude::*;

use vstd::string::StringSliceAdditionalSpecFns;
use vstd::utf8::*;

use crate::pattern::{capture_group, match_spans, regex_accepts, regex_capture_group, regex_match_spans, spans_well_formed, Pattern};
use crate::text::byte_slice;

verus! {

/// Declares `strfmt::FmtError` to Verus.
#[verifier::external_type_specification]
#[verifier::external_body]
pub struct ExFmtError(strfmt::FmtError);

/// The text `strfmt::strfmt` makes of `template` with a map from each key of
/// `vars` to its text, or `None` where it reports an error.
pub uninterp spec fn strfmt_text(template: Seq<char>, vars: Seq<(Seq<char>, Seq<char>)>) -> Option<Seq<char>>;

/// Key and text pairs as plain values.
pub open spec fn pairs_view(vars: Seq<(&str, &str)>) -> Seq<(Seq<char>, Seq<char>)> {
    vars.map_values(|p: (&str, &str)| (p.0@, p.1@))
}

/// Calls `strfmt::strfmt` on `template` with a map built from the pairs of
/// `vars`. Claimed: the outcome is the named result `strfmt_text` of the
/// template and the pairs.
#[verifier::external_body]
fn format_template(template: &str, vars: &[(&str, &str)]) -> (r: Result<String, strfmt::FmtError>)
    ensures
        match r {
            Ok(text) => strfmt_text(template@, pairs_view(vars@)) == Some(text@),
            Err(_) => strfmt_text(template@, pairs_view(vars@)) is None,
        },
{
    let map: std::collections::HashMap<String, &str> = vars.iter().map(|(k, v)| (k.to_string(), *v)).collect();
    strfmt::strfmt(template, &map)
}

/// The fragment keys of a line template and the texts they stand for.
pub open spec fn schema_vars(d: Seq<char>, h: Seq<char>, s: Seq<char>, m: Seq<char>) -> Seq<(Seq<char>, Seq<char>)> {
    seq![("d"@, d), ("h"@, h), ("s"@, s), ("m"@, m)]
}

/// The text that a map built from `pairs`, later pairs replacing earlier ones
/// of the same key, holds for `key`.
pub open spec fn lookup(pairs: Seq<(Seq<char>, Seq<char>)>, key: Seq<char>) -> Option<Seq<char>>
    decreases pairs.len(),
{
    if pairs.len() == 0 {
        None
    } else if pairs.last().0 == key {
        Some(pairs.last().1)
    } else {
        lookup(pairs.drop_last(), key)
    }
}

/// The map a line template is filled from sends `d` to the date fragment,
/// `h` to the host fragment, `s` to the service fragment and `m` to the
/// message fragment, and holds no other key.
pub proof fn law_template_keys(d: Seq<char>, h: Seq<char>, s: Seq<char>, m: Seq<char>, other: Seq<char>)
    requires
        other != "d"@,
        other != "h"@,
        other != "s"@,
        other != "m"@,
    ensures
        lookup(schema_vars(d, h, s, m), "d"@) == Some(d),
        lookup(schema_vars(d, h, s, m), "h"@) == Some(h),
        lookup(schema_vars(d, h, s, m), "s"@) == Some(s),
        lookup(schema_vars(d, h, s, m), "m"@) == Some(m),
        lookup(schema_vars(d, h, s, m), other) is None,
{
    reveal_strlit("d");
    reveal_strlit("h");
    reveal_strlit("s");
    reveal_strlit("m");
    reveal_with_fuel(lookup, 5);
    let v = schema_vars(d, h, s, m);
    assert(v.drop_last() =~= seq![("d"@, d), ("h"@, h), ("s"@, s)]);
    assert(v.drop_last().drop_last() =~= seq![("d"@, d), ("h"@, h)]);
    assert(v.drop_last().drop_last().drop_last() =~= seq![("d"@, d)]);
    assert(v.drop_last().drop_last().drop_last().drop_last() =~= Seq::<(Seq<char>, Seq<char>)>::empty());
    assert("d"@ != "h"@ && "d"@ != "s"@ && "d"@ != "m"@ && "h"@ != "s"@ && "h"@ != "m"@ && "s"@ != "m"@) by {
        assert("d"@[0] != "h"@[0]);
        assert("d"@[0] != "s"@[0]);
        assert("d"@[0] != "m"@[0]);
        assert("h"@[0] != "s"@[0]);
        assert("h"@[0] != "m"@[0]);
        assert("s"@[0] != "m"@[0]);
    }
}

/// A timestamp in microseconds keeps the parsed date apart: for a date that
/// is not a leap second, its whole seconds are the timestamp's quotient by a
/// million and its sub-second microseconds the remainder; a leap second lies
/// within two seconds of its whole seconds.
pub proof fn law_micros_keep_seconds_and_fraction(v: (i64, u32))
    ensures
        v.1 < 1_000_000 ==> micros_of(v) / 1_000_000 == v.0 && micros_of(v) % 1_000_000 == v.1,
        v.1 < 2_000_000 ==> v.0 * 1_000_000 <= micros_of(v) < v.0 * 1_000_000 + 2_000_000,
{
    if v.1 < 1_000_000 {
        let a = v.0 as int;
        let b = v.1 as int;
        assert((a * 1_000_000 + b) / 1_000_000 == a && (a * 1_000_000 + b) % 1_000_000 == b) by (nonlinear_arith)
            requires 0 <= b < 1_000_000;
    }
}

/// The keys `d`, `h`, `s`, `m` with the four field fragments.
fn schema_pairs<'a>(d: &'a str, h: &'a str, s: &'a str, m: &'a str) -> (r: Vec<(&'a str, &'a str)>)
    ensures
        pairs_view(r@) == schema_vars(d@, h@, s@, m@),
{
    let mut vars: Vec<(&'a str, &'a str)> = Vec::new();
    vars.push(("d", d));
    vars.push(("h", h));
    vars.push(("s", s));
    vars.push(("m", m));
    proof {
        assert(pairs_view(vars@) =~= schema_vars(d@, h@, s@, m@));
    }
    vars
}

/// What `chrono::NaiveDateTime::parse_from_str` makes of `text` read with
/// `format`: the whole seconds since the Unix epoch and the microseconds
/// since the last whole second, or `None` where it reports an error.
pub uninterp spec fn chrono_parse(text: Seq<char>, format: Seq<char>) -> Option<(i64, u32)>;

/// Calls `chrono::NaiveDateTime::parse_from_str` and reads the date's
/// `timestamp` and `timestamp_subsec_micros`. Claimed: the outcome is the
/// named result `chrono_parse`, and (as chrono documents) the microseconds
/// are below 2,000,000.
#[verifier::external_body]
#[allow(deprecated)]
fn parse_datetime(text: &str, format: &str) -> (r: Option<(i64, u32)>)
    ensures
        match r {
            Some(v) => chrono_parse(text@, format@) == Some(v),
            None => chrono_parse(text@, format@) is None,
        },
        r matches Some(v) ==> v.1 < 2_000_000,
{
    match chrono::NaiveDateTime::parse_from_str(text, format) {
        Ok(dt) => Some((dt.timestamp(), dt.timestamp_subsec_micros())),
        Err(_) => None,
    }
}

/// The fields of a log line that a regex extractor reads: the whole match,
/// and the capture groups `datetime`, `host`, `service` and `message`, each if
/// it took part in the match.
#[derive(Debug, Clone)]
pub struct LogFields {
    pub matched: Option<String>,
    pub datetime: Option<String>,
    pub host: Option<String>,
    pub service: Option<String>,
    pub message: Option<String>,
}

/// The text of the first (leftmost-first) match of a regex compiled from
/// `pattern` on `text`, if there is one.
pub open spec fn first_match_text(pattern: Seq<char>, text: Seq<char>) -> Option<Seq<char>> {
    let spans = regex_match_spans(pattern, text);
    if spans.len() > 0 {
        Some(decode_utf8(encode_utf8(text).subrange(spans[0].0 as int, spans[0].1 as int)))
    } else {
        None
    }
}

/// An optional string as optional text.
pub open spec fn opt_view(s: Option<String>) -> Option<Seq<char>> {
    match s {
        Some(t) => Some(t@),
        None => None,
    }
}

/// The text of capture group `group`, given that the regex matched.
pub open spec fn group_text(pattern: Seq<char>, text: Seq<char>, group: Seq<char>) -> Option<Seq<char>> {
    match regex_capture_group(pattern, text, group) {
        Some(g) => g,
        None => None,
    }
}

/// The line pattern of an extractor: the whole-line template with `{d}`,
/// `{h}`, `{s}` and `{m}` filled in by the field fragments.
pub open spec fn line_pattern_of(d: Seq<char>, h: Seq<char>, s: Seq<char>, m: Seq<char>, template: Seq<char>) -> Option<Seq<char>> {
    strfmt_text(template, schema_vars(d, h, s, m))
}

/// Whether the fragments and template make a line pattern the regex engine accepts.
pub open spec fn extractor_ok(d: Seq<char>, h: Seq<char>, s: Seq<char>, m: Seq<char>, template: Seq<char>) -> bool {
    &&& line_pattern_of(d, h, s, m, template) is Some
    &&& regex_accepts(line_pattern_of(d, h, s, m, template).unwrap())
}

/// A microsecond timestamp from seconds and microseconds: `secs * 10^6 + micros`.
pub open spec fn micros_of(v: (i64, u32)) -> int {
    v.0 * 1_000_000 + v.1
}

/// Whether `micros_of(v)` fits in an `i64`.
pub open spec fn micros_fit(v: (i64, u32)) -> bool {
    i64::MIN <= v.0 * 1_000_000 <= i64::MAX && i64::MIN <= micros_of(v) <= i64::MAX
}

/// Reads the fields of log lines with one regex and their dates with one
/// strftime-style format.
#[derive(Debug)]
pub struct RegExtractor {
    datetime: String,
    host: String,
    service: String,
    message: String,
    line_pattern: String,
    regex: Pattern,
    strftime_pattern: String,
}

impl RegExtractor {
    /// The regex the extractor matches lines with.
    pub closed spec fn spec_regex(&self) -> Seq<char> {
        self.regex@
    }

    /// The regex fragment of the date field.
    pub closed spec fn spec_datetime(&self) -> Seq<char> {
        self.datetime@
    }

    /// The regex fragment of the host field.
    pub closed spec fn spec_host(&self) -> Seq<char> {
        self.host@
    }

    /// The regex fragment of the service field.
    pub closed spec fn spec_service(&self) -> Seq<char> {
        self.service@
    }

    /// The regex fragment of the message field.
    pub closed spec fn spec_message(&self) -> Seq<char> {
        self.message@
    }

    /// The whole-line pattern, with the fragments filled in.
    pub closed spec fn spec_line_pattern(&self) -> Seq<char> {
        self.line_pattern@
    }

    /// The strftime-style format of dates.
    pub closed spec fn spec_strftime(&self) -> Seq<char> {
        self.strftime_pattern@
    }

    /// An extractor whose line regex is `line_schema` with `{d}`, `{h}`,
    /// `{s}`, `{m}` filled in by the four field fragments.
    pub fn new(
        datetime_schema: &str,
        host_schema: &str,
        service_schema: &str,
        message_schema: &str,
        line_schema: &str,
        strftime_pattern: &str,
    ) -> (r: RegExtractor)
        requires
            extractor_ok(datetime_schema@, host_schema@, service_schema@, message_schema@, line_schema@),
        ensures
            Some(r.spec_regex()) == line_pattern_of(datetime_schema@, host_schema@, service_schema@,
                message_schema@, line_schema@),
            r.spec_line_pattern() == r.spec_regex(),
            r.spec_datetime() == datetime_schema@,
            r.spec_host() == host_schema@,
            r.spec_service() == service_schema@,
            r.spec_message() == message_schema@,
            r.spec_strftime() == strftime_pattern@,
    {
        let vars = schema_pairs(datetime_schema, host_schema, service_schema, message_schema);
        let formatted = match format_template(line_schema, vars.as_slice()) {
            Ok(text) => text,
            Err(_) => vstd::pervasive::unreached(),
        };
        let regex = match Pattern::new(formatted.as_str()) {
            Ok(p) => p,
            Err(_) => vstd::pervasive::unreached(),
        };
        RegExtractor {
            datetime: datetime_schema.to_owned(),
            host: host_schema.to_owned(),
            service: service_schema.to_owned(),
            message: message_schema.to_owned(),
            line_pattern: formatted,
            regex,
            strftime_pattern: strftime_pattern.to_owned(),
        }
    }

    /// The extractor, or `None` where the template cannot be filled in or the
    /// regex engine refuses the line pattern.
    pub fn try_new(
        datetime_schema: &str,
        host_schema: &str,
        service_schema: &str,
        message_schema: &str,
        line_schema: &str,
        strftime_pattern: &str,
    ) -> (r: Option<RegExtractor>)
        ensures
            r is Some <==> extractor_ok(datetime_schema@, host_schema@, service_schema@, message_schema@, line_schema@),
            r matches Some(e) ==> {
                &&& Some(e.spec_regex()) == line_pattern_of(datetime_schema@, host_schema@, service_schema@,
                    message_schema@, line_schema@)
                &&& e.spec_line_pattern() == e.spec_regex()
                &&& e.spec_datetime() == datetime_schema@
                &&& e.spec_host() == host_schema@
                &&& e.spec_service() == service_schema@
                &&& e.spec_message() == message_schema@
                &&& e.spec_strftime() == strftime_pattern@
            },
    {
        let vars = schema_pairs(datetime_schema, host_schema, service_schema, message_schema);
        match format_template(line_schema, vars.as_slice()) {
            Err(_) => None,
            Ok(formatted) => {
                match Pattern::new(formatted.as_str()) {
                    Err(_) => None,
                    Ok(_) => Some(Self::new(datetime_schema, host_schema, service_schema, message_schema,
                        line_schema, strftime_pattern)),
                }
            },
        }
    }

    /// The fields of `logline`, or `None` when the extractor's regex does not match it.
    pub fn get_fields(&self, logline: &str) -> (r: Option<LogFields>)
        ensures
            r is None <==> regex_capture_group(self.spec_regex(), logline@, "datetime"@) is None,
            r matches Some(f) ==> {
                &&& opt_view(f.matched) == first_match_text(self.spec_regex(), logline@)
                &&& opt_view(f.datetime) == group_text(self.spec_regex(), logline@, "datetime"@)
                &&& opt_view(f.host) == group_text(self.spec_regex(), logline@, "host"@)
                &&& opt_view(f.service) == group_text(self.spec_regex(), logline@, "service"@)
                &&& opt_view(f.message) == group_text(self.spec_regex(), logline@, "message"@)
            },
    {
        let datetime = match capture_group(&self.regex, logline, "datetime") {
            None => { return None; },
            Some(g) => g,
        };
        let host = match capture_group(&self.regex, logline, "host") {
            None => None,
            Some(g) => g,
        };
        let service = match capture_group(&self.regex, logline, "service") {
            None => None,
            Some(g) => g,
        };
        let message = match capture_group(&self.regex, logline, "message") {
            None => None,
            Some(g) => g,
        };
        let spans = match_spans(&self.regex, logline);
        let matched = if spans.len() > 0 {
            let (start, end) = spans[0];
            proof {
                assert(spans_well_formed(spans@, logline.spec_bytes()));
                assert(spans@[0].0 <= spans@[0].1 <= logline.spec_bytes().len());
            }
            let piece = byte_slice(logline, start, end);
            proof {
                encode_utf8_decode_utf8(piece@);
            }
            Some(piece.to_owned())
        } else {
            None
        };
        Some(LogFields { matched, datetime, host, service, message })
    }

    /// The date `strftime` (in the extractor's format) in microseconds since the Unix epoch.
    pub fn timestamp_micros(&self, strftime: &str) -> (r: i64)
        requires
            chrono_parse(strftime@, self.spec_strftime()) is Some,
            micros_fit(chrono_parse(strftime@, self.spec_strftime()).unwrap()),
        ensures
            r == micros_of(chrono_parse(strftime@, self.spec_strftime()).unwrap()),
    {
        match parse_datetime(strftime, self.strftime_pattern.as_str()) {
            Some((secs, micros)) => secs * 1_000_000 + micros as i64,
            None => vstd::pervasive::unreached(),
        }
    }

    /// The date in microseconds, or `None` where it cannot be read in the
    /// extractor's format or does not fit in an `i64`.
    pub fn try_timestamp_micros(&self, strftime: &str) -> (r: Option<i64>)
        ensures
            r is Some <==> (chrono_parse(strftime@, self.spec_strftime()) is Some
                && micros_fit(chrono_parse(strftime@, self.spec_strftime()).unwrap())),
            r matches Some(v) ==> v == micros_of(chrono_parse(strftime@, self.spec_strftime()).unwrap()),
    {
        match parse_datetime(strftime, self.strftime_pattern.as_str()) {
            Some((secs, micros)) => {
                if secs >= i64::MIN / 1_000_000 && secs <= i64::MAX / 1_000_000 {
                    let whole = secs * 1_000_000;
                    if whole <= i64::MAX - micros as i64 {
                        Some(self.timestamp_micros(strftime))
                    } else {
                        None
                    }
                } else {
                    None
                }
            },
            None => None,
        }
    }
}

} // verus!
