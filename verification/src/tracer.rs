//! What every kind of log line offers: its date, service, host and message,
//! and the word tests used to filter lines.

use vstd::prelude::*;

use crate::text::{contains_text, str_contains};

verus! {

/// Whether every word occurs in `message`.
pub open spec fn includes_all(message: Seq<char>, words: Seq<&str>) -> bool {
    forall|i: int| 0 <= i < words.len() ==> contains_text(message, (#[trigger] words[i])@)
}

/// Whether some word occurs in `message`.
pub open spec fn includes_any(message: Seq<char>, words: Seq<&str>) -> bool {
    exists|i: int| 0 <= i < words.len() && contains_text(message, (#[trigger] words[i])@)
}

/// A point in time as whole seconds since the Unix epoch and nanoseconds.
#[derive(Debug, Clone, Copy, PartialEq, Eq)]
pub struct DateParts {
    pub secs: i64,
    pub nsecs: u32,
}

/// Rust's integer division, which rounds toward zero.
pub open spec fn trunc_div(x: int, d: int) -> int {
    if x >= 0 {
        x / d
    } else {
        -((-x) / d)
    }
}

/// Rust's integer remainder, which takes the sign of the dividend.
pub open spec fn trunc_rem(x: int, d: int) -> int {
    x - d * trunc_div(x, d)
}

/// The date of a line stamped `timestamp`: the seconds are the timestamp's
/// whole millions, the nanoseconds its remainder modulo a thousand million,
/// cast to `u32`.
pub open spec fn date_of(timestamp: i64) -> DateParts {
    DateParts {
        secs: trunc_div(timestamp as int, 1_000_000) as i64,
        nsecs: trunc_rem(timestamp as int, 1_000_000_000) as u32,
    }
}

/// Computes `date_of`.
pub fn date_from_timestamp(timestamp: i64) -> (r: DateParts)
    ensures
        r == date_of(timestamp),
{
    let secs = timestamp / 1_000_000;
    let rem = timestamp % 1_000_000_000;
    DateParts { secs, nsecs: rem as u32 }
}

/// The text `chrono` displays for the date `secs` seconds and `nsecs`
/// nanoseconds after the Unix epoch, or `None` where `chrono` has no such date.
pub uninterp spec fn chrono_datetime_text(secs: i64, nsecs: u32) -> Option<Seq<char>>;

/// Calls `chrono::NaiveDateTime::from_timestamp_opt` and displays the date it
/// gives. Claimed: the outcome is the named result `chrono_datetime_text` of
/// the two arguments, and (as chrono's code shows) there is no date for 2
/// seconds of nanoseconds or more.
#[verifier::external_body]
#[allow(deprecated)]
fn render_datetime(secs: i64, nsecs: u32) -> (r: Option<String>)
    ensures
        match r {
            Some(text) => chrono_datetime_text(secs, nsecs) == Some(text@),
            None => chrono_datetime_text(secs, nsecs) is None,
        },
        nsecs >= 2_000_000_000 ==> r is None,
{
    chrono::NaiveDateTime::from_timestamp_opt(secs, nsecs).map(|d| d.to_string())
}

/// The escape sequence that sets the foreground to yellow (ESC `[38;5;3m`).
pub open spec fn yellow_foreground() -> Seq<char> {
    seq!['\x1b', '[', '3', '8', ';', '5', ';', '3', 'm']
}

/// The escape sequence that resets all text attributes (ESC `[m`).
pub open spec fn style_reset() -> Seq<char> {
    seq!['\x1b', '[', 'm']
}

/// Displays `termion::color::Fg(termion::color::Yellow)`. Claimed, from
/// termion's source: the text is the yellow escape sequence, or empty when
/// colors are switched off in the environment (`NO_COLOR`).
#[verifier::external_body]
fn yellow_foreground_text() -> (r: String)
    ensures
        r@ == yellow_foreground() || r@ == Seq::<char>::empty(),
{
    format!("{}", termion::color::Fg(termion::color::Yellow))
}

/// Displays `termion::style::Reset`. Claimed, from termion's source: the text
/// is the reset escape sequence.
#[verifier::external_body]
fn style_reset_text() -> (r: String)
    ensures
        r@ == style_reset(),
{
    format!("{}", termion::style::Reset)
}

/// The header printed above a line's message: in color, the service, `@`, the
/// host, ` -- [`, the date, `]`, then the reset sequence.
pub open spec fn header_text(color: Seq<char>, service: Seq<char>, host: Seq<char>, date: Seq<char>) -> Seq<char> {
    color + service + seq!['@'] + host + seq![' ', '-', '-', ' ', '['] + date + seq![']'] + style_reset()
}

/// A log line of any source.
pub trait Tracer {
    /// The line's date.
    spec fn spec_date(&self) -> DateParts;

    /// The service that wrote the line.
    spec fn spec_service(&self) -> Seq<char>;

    /// The host the line comes from.
    spec fn spec_hostname(&self) -> Seq<char>;

    /// The line's message.
    spec fn spec_message(&self) -> Seq<char>;

    fn date(&self) -> (r: DateParts)
        ensures
            r == self.spec_date(),
    ;

    fn service(&self) -> (r: String)
        ensures
            r@ == self.spec_service(),
    ;

    fn hostname(&self) -> (r: String)
        ensures
            r@ == self.spec_hostname(),
    ;

    fn message(&self) -> (r: String)
        ensures
            r@ == self.spec_message(),
    ;

    /// The header printed above the line's message; the color is left out
    /// when colors are switched off in the environment.
    fn header(&self) -> (r: String)
        requires
            chrono_datetime_text(self.spec_date().secs, self.spec_date().nsecs) is Some,
        ensures
            r@ == header_text(yellow_foreground(), self.spec_service(), self.spec_hostname(),
                chrono_datetime_text(self.spec_date().secs, self.spec_date().nsecs).unwrap())
            || r@ == header_text(Seq::empty(), self.spec_service(), self.spec_hostname(),
                chrono_datetime_text(self.spec_date().secs, self.spec_date().nsecs).unwrap()),
    {
        let color = yellow_foreground_text();
        self.header_with(color.as_str())
    }

    /// The header printed above the line's message, with `color` as its
    /// leading escape sequence.
    fn header_with(&self, color: &str) -> (r: String)
        requires
            chrono_datetime_text(self.spec_date().secs, self.spec_date().nsecs) is Some,
        ensures
            r@ == header_text(color@, self.spec_service(), self.spec_hostname(),
                chrono_datetime_text(self.spec_date().secs, self.spec_date().nsecs).unwrap()),
    {
        let date = self.date();
        let date_text = match render_datetime(date.secs, date.nsecs) {
            Some(text) => text,
            None => vstd::pervasive::unreached(),
        };
        let mut out = color.to_owned();
        let service = self.service();
        out.append(service.as_str());
        out.append("@");
        let host = self.hostname();
        out.append(host.as_str());
        out.append(" -- [");
        out.append(date_text.as_str());
        out.append("]");
        let reset = style_reset_text();
        out.append(reset.as_str());
        proof {
            reveal_strlit("@");
            reveal_strlit(" -- [");
            reveal_strlit("]");
            assert(out@ =~= header_text(color@, self.spec_service(), self.spec_hostname(), date_text@));
        }
        out
    }

    /// The header, or `None` where chrono has no date for the line's timestamp.
    fn try_header(&self) -> (r: Option<String>)
        ensures
            r is Some <==> chrono_datetime_text(self.spec_date().secs, self.spec_date().nsecs) is Some,
            r matches Some(text) ==> {
                ||| text@ == header_text(yellow_foreground(), self.spec_service(), self.spec_hostname(),
                    chrono_datetime_text(self.spec_date().secs, self.spec_date().nsecs).unwrap())
                ||| text@ == header_text(Seq::empty(), self.spec_service(), self.spec_hostname(),
                    chrono_datetime_text(self.spec_date().secs, self.spec_date().nsecs).unwrap())
            },
    {
        let date = self.date();
        match render_datetime(date.secs, date.nsecs) {
            Some(_) => Some(self.header()),
            None => None,
        }
    }

    /// Whether the message contains every one of `words`.
    fn includes(&self, words: &[&str]) -> (r: bool)
        ensures
            r == includes_all(self.spec_message(), words@),
    {
        let message = self.message();
        let n = words.len();
        for i in 0..n
            invariant
                n == words@.len(),
                message@ == self.spec_message(),
                forall|j: int| 0 <= j < i ==> contains_text(message@, (#[trigger] words@[j])@),
        {
            if !str_contains(message.as_str(), words[i]) {
                return false;
            }
        }
        true
    }

    /// Whether the message contains at least one of `words`.
    fn excludes(&self, words: &[&str]) -> (r: bool)
        ensures
            r == includes_any(self.spec_message(), words@),
    {
        let message = self.message();
        let n = words.len();
        for i in 0..n
            invariant
                n == words@.len(),
                message@ == self.spec_message(),
                forall|j: int| 0 <= j < i ==> !contains_text(message@, (#[trigger] words@[j])@),
        {
            if str_contains(message.as_str(), words[i]) {
                return true;
            }
        }
        false
    }
}

} // verus!
