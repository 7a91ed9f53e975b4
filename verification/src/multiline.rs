//! Gathering log records that span several lines: a line that begins with the
//! record marker starts a new record, other lines are added to the current
//! one, and a record left alone for too long is handed out by the watchdog.
//!
//! Times are instants of a monotonic clock, in microseconds from an arbitrary
//! origin, handed in by the caller.

use vstd::prelude::*;

use crate::text::{starts_with_text, str_starts_with};

verus! {

/// A finished record: when it was started, the entity it belongs to, and its text.
#[derive(Debug, Clone)]
pub struct LogEvent {
    pub created: u64,
    pub entity: String,
    pub data: String,
}

/// How long a record may stay unfinished before the watchdog hands it out: three seconds.
pub const WATCHDOG_TIMEOUT_MICROS: u64 = 3_000_000;

/// Collects lines into multi-line records.
pub struct MultiLineTokenizer {
    multiline_data: String,
    newline: String,
    timeout: u64,
    created: Option<u64>,
}

/// `a`, a line break, then `b`.
pub open spec fn joined(a: Seq<char>, b: Seq<char>) -> Seq<char> {
    a + seq!['\n'] + b
}

impl MultiLineTokenizer {
    /// The text of the current record.
    pub closed spec fn spec_data(&self) -> Seq<char> {
        self.multiline_data@
    }

    /// The marker that begins a record.
    pub closed spec fn spec_newline(&self) -> Seq<char> {
        self.newline@
    }

    /// How long a record may stay unfinished.
    pub closed spec fn spec_timeout(&self) -> u64 {
        self.timeout
    }

    /// When the current record was started, if it was started by a marker line.
    pub closed spec fn spec_created(&self) -> Option<u64> {
        self.created
    }

    /// A tokenizer with an empty record, for records that begin with `newline`.
    pub fn new(newline: &str) -> (r: MultiLineTokenizer)
        ensures
            r.spec_data() == Seq::<char>::empty(),
            r.spec_newline() == newline@,
            r.spec_timeout() == WATCHDOG_TIMEOUT_MICROS,
            r.spec_created() is None,
    {
        MultiLineTokenizer {
            multiline_data: String::new(),
            newline: newline.to_owned(),
            timeout: WATCHDOG_TIMEOUT_MICROS,
            created: None,
        }
    }

    /// Hands out the current record, dated when it was started (or `now` if it
    /// was never started by a marker line), and begins an empty one.
    pub fn dump_data(&mut self, now: u64) -> (event: LogEvent)
        ensures
            event.created == match old(self).spec_created() {
                Some(c) => c,
                None => now,
            },
            event.entity@ == Seq::<char>::empty(),
            event.data@ == old(self).spec_data(),
            final(self).spec_data() == Seq::<char>::empty(),
            final(self).spec_created() is None,
            final(self).spec_newline() == old(self).spec_newline(),
            final(self).spec_timeout() == old(self).spec_timeout(),
    {
        let created = match self.created {
            Some(c) => c,
            None => now,
        };
        let event = LogEvent { created, entity: String::new(), data: self.multiline_data.clone() };
        self.created = None;
        self.multiline_data = String::new();
        event
    }

    /// Adds `line` at `now`. A line that begins with the marker first hands out
    /// the current record and starts a new one with the line as its text; in
    /// every case a line break and the line are then added to the record.
    pub fn append(&mut self, line: &str, now: u64) -> (event: Option<LogEvent>)
        ensures
            final(self).spec_newline() == old(self).spec_newline(),
            final(self).spec_timeout() == old(self).spec_timeout(),
            starts_with_text(line@, old(self).spec_newline()) ==> {
                &&& event matches Some(e) && e.data@ == old(self).spec_data()
                    && e.entity@ == Seq::<char>::empty()
                    && e.created == match old(self).spec_created() {
                        Some(c) => c,
                        None => now,
                    }
                &&& final(self).spec_created() == Some(now)
                &&& final(self).spec_data() == joined(line@, line@)
            },
            !starts_with_text(line@, old(self).spec_newline()) ==> {
                &&& event is None
                &&& final(self).spec_created() == old(self).spec_created()
                &&& final(self).spec_data() == joined(old(self).spec_data(), line@)
            },
    {
        let mut event = None;
        if str_starts_with(line, self.newline.as_str()) {
            event = Some(self.dump_data(now));
            self.created = Some(now);
            self.multiline_data = line.to_owned();
        }
        let mut data = self.multiline_data.clone();
        data.append("\n");
        data.append(line);
        proof {
            reveal_strlit("\n");
        }
        self.multiline_data = data;
        event
    }

    /// Whether, at `now`, the current record was started by a marker line more
    /// than the timeout ago.
    pub open spec fn watchdog_due(&self, now: u64) -> bool {
        match self.spec_created() {
            Some(c) => now > c && now - c > self.spec_timeout(),
            None => false,
        }
    }

    /// One round of the watchdog at `now`: a record started by a marker line
    /// more than the timeout ago is handed out.
    pub fn watchdog_tick(&mut self, now: u64) -> (event: Option<LogEvent>)
        ensures
            final(self).spec_newline() == old(self).spec_newline(),
            final(self).spec_timeout() == old(self).spec_timeout(),
            old(self).watchdog_due(now) ==> {
                &&& event matches Some(e) && e.data@ == old(self).spec_data()
                    && e.created == old(self).spec_created().unwrap()
                    && e.entity@ == Seq::<char>::empty()
                &&& final(self).spec_data() == Seq::<char>::empty()
                &&& final(self).spec_created() is None
            },
            !old(self).watchdog_due(now) ==> {
                &&& event is None
                &&& final(self).spec_data() == old(self).spec_data()
                &&& final(self).spec_created() == old(self).spec_created()
            },
    {
        match self.created {
            Some(c) => {
                if now > c && now - c > self.timeout {
                    Some(self.dump_data(now))
                } else {
                    None
                }
            },
            None => None,
        }
    }
}

} // verus!
