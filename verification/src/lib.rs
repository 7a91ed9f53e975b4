//! Log collection and tokenizing: regex-driven splitting of streamed text into
//! log lines, merging and filtering of log lines gathered from several sources,
//! and the decisions of the process and multi-line watchers.

pub mod config;
pub mod extractor;
pub mod journald;
pub mod kubectl;
pub mod logs;
pub mod multiline;
pub mod numbers;
pub mod pattern;
pub mod processes;
pub mod text;
pub mod token;
pub mod tokenizer;
pub mod tracer;
