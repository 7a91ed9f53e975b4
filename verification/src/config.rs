//! The configuration file: which journald units and which kubectl pods to follow.

use vstd::prelude::*;

verus! {

/// How the lines of a kubectl log are laid out: the regex fragments of each
/// field, the whole-line template they are put into, and the delimiter
/// between lines.
#[derive(Debug, Clone)]
pub struct RegexScheme {
    pub datetime: String,
    pub host: String,
    pub service: String,
    pub message: String,
    pub log_pattern: String,
    pub line_delimiter: String,
}

/// A pod to follow with kubectl.
#[derive(Debug, Clone)]
pub struct KubectlConfig {
    pub name: String,
    pub regex: RegexScheme,
    pub date_string: String,
}

/// A journald unit to follow, on `host` (`localhost` for this machine).
#[derive(Debug, Clone)]
pub struct JournaldConfig {
    pub name: String,
    pub host: String,
}

/// All sources to follow.
#[derive(Debug, Clone)]
pub struct Targets {
    pub journald: Vec<JournaldConfig>,
    pub kubectl: Vec<KubectlConfig>,
}

/// The configuration file.
#[derive(Debug, Clone)]
pub struct ConfigFile {
    pub targets: Targets,
}

} // verus!
