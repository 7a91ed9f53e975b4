//! A log line cut out of a stream, stamped with the time it was gathered.

use vstd::prelude::*;

verus! {

/// Declares `std::time::SystemTime` to Verus; its contents stay opaque.
#[verifier::external_type_specification]
#[verifier::external_body]
pub struct ExSystemTime(std::time::SystemTime);

/// Declares `std::time::SystemTimeError` to Verus.
#[verifier::external_type_specification]
#[verifier::external_body]
pub struct ExSystemTimeError(std::time::SystemTimeError);

/// Calls `std::time::SystemTime::now`. Nothing is claimed of the reading: it
/// depends on the clock.
#[verifier::external_body]
fn system_time_now() -> std::time::SystemTime {
    std::time::SystemTime::now()
}

/// Calls `SystemTime::duration_since` with the Unix epoch and keeps the whole
/// microseconds of the duration. Nothing is claimed of the value: it depends
/// on the reading given.
#[verifier::external_body]
fn micros_since_epoch(t: &std::time::SystemTime) -> Result<u128, std::time::SystemTimeError> {
    t.duration_since(std::time::UNIX_EPOCH).map(|d| d.as_micros())
}

/// Microseconds since the Unix epoch by the system clock; 0 when the clock
/// reads a time before the epoch.
pub fn unixtime_now() -> u128 {
    let now = system_time_now();
    match micros_since_epoch(&now) {
        Ok(micros) => micros,
        Err(_) => 0,
    }
}

/// One log line, the source it came from, the host it was read on, and the
/// time it was gathered.
#[derive(Debug, Clone)]
pub struct LogLineToken<'a> {
    gathered_timestamp: u128,
    log_source: &'a str,
    host_name: &'a str,
    pub raw_data: String,
}

impl<'a> LogLineToken<'a> {
    /// The text of the line.
    pub closed spec fn spec_raw_data(&self) -> Seq<char> {
        self.raw_data@
    }

    /// The time the token was gathered, in microseconds since the Unix epoch.
    pub closed spec fn spec_gathered_timestamp(&self) -> u128 {
        self.gathered_timestamp
    }

    /// The name of the log source.
    pub closed spec fn spec_log_source(&self) -> &'a str {
        self.log_source
    }

    /// The host the line was read on.
    pub closed spec fn spec_host_name(&self) -> &'a str {
        self.host_name
    }

    /// A token for `data`, stamped with the current time.
    pub fn new(data: &str, log_source: &'a str, host_name: &'a str) -> (r: LogLineToken<'a>)
        ensures
            r.spec_raw_data() == data@,
            r.spec_log_source() == log_source,
            r.spec_host_name() == host_name,
    {
        let gathered_timestamp = unixtime_now();
        Self::with_timestamp(data, log_source, host_name, gathered_timestamp)
    }

    /// A token for `data`, stamped with the given time.
    pub fn with_timestamp(
        data: &str,
        log_source: &'a str,
        host_name: &'a str,
        gathered_timestamp: u128,
    ) -> (r: LogLineToken<'a>)
        ensures
            r.spec_raw_data() == data@,
            r.spec_log_source() == log_source,
            r.spec_host_name() == host_name,
            r.spec_gathered_timestamp() == gathered_timestamp,
    {
        let raw_data = data.to_owned();
        LogLineToken { raw_data, gathered_timestamp, log_source, host_name }
    }

    /// The time the token was gathered, in microseconds since the Unix epoch.
    pub fn gathered_timestamp(&self) -> (r: u128)
        ensures
            r == self.spec_gathered_timestamp(),
    {
        self.gathered_timestamp
    }

    /// The name of the log source.
    pub fn log_source(&self) -> (r: &'a str)
        ensures
            r == self.spec_log_source(),
    {
        self.log_source
    }

    /// The host the line was read on.
    pub fn host_name(&self) -> (r: &'a str)
        ensures
            r == self.spec_host_name(),
    {
        self.host_name
    }
}

} // verus!
