//! What is logged, and where it goes.
use vstd::prelude::*;

use crate::config::ConfigData;

verus! {

/// How log lines are written.
#[derive(Clone, Copy, Debug, Eq, PartialEq, Hash, Structural)]
pub enum LogFormat {
    /// JSON structured logging for k8s
    Json,
    /// Text formatted logging for local dev
    Text,
}

/// The settings that logging and error reporting are set up from.
#[derive(Debug)]
pub struct LoggingConfig {
    /// The sentry DSN to use for error reporting.
    pub sentry_dsn: Option<String>,
    /// The environment to report sentry errors to.
    pub sentry_env: Option<String>,
    /// The tracing sample rate, as the bits of a single precision number.
    pub traces_sample_rate_bits: u32,
    /// The log level to filter logging to.
    pub log_filter: String,
    /// The log format to use.
    pub log_format: LogFormat,
}

impl LoggingConfig {
    /// Picks the logging settings out of the configuration. Without a sample rate nothing
    /// is sampled: the rate is zero, whose bits are all zero.
    pub fn from_config(config: &ConfigData) -> (logging: Self)
        ensures
            logging.sentry_dsn == config.sentry_dsn,
            logging.sentry_env == config.sentry_env,
            logging.traces_sample_rate_bits == (match config.traces_sample_rate_bits {
                Some(bits) => bits,
                None => 0,
            }),
            logging.log_filter@ == config.log_filter@,
            logging.log_format == config.log_format,
    {
        LoggingConfig {
            sentry_dsn: copy_text(&config.sentry_dsn),
            sentry_env: copy_text(&config.sentry_env),
            traces_sample_rate_bits: match config.traces_sample_rate_bits {
                Some(bits) => bits,
                None => 0,
            },
            log_filter: config.log_filter.clone(),
            log_format: config.log_format,
        }
    }
}

fn copy_text(text: &Option<String>) -> (copy: Option<String>)
    ensures
        copy == *text,
{
    match text {
        Some(t) => Some(t.clone()),
        None => None,
    }
}

/// The severity of a log record.
#[derive(Clone, Copy, Debug, PartialEq, Eq, Structural)]
pub enum Severity {
    Error,
    Warn,
    Info,
    Debug,
    Trace,
}

/// Where error reporting takes a log record to.
#[derive(Clone, Copy, Debug, PartialEq, Eq, Structural)]
pub struct Reporting {
    /// The record becomes an event.
    pub event: bool,
    /// The record becomes a log entry.
    pub log: bool,
}

/// Decides what error reporting makes of a log record: everything at or above the level
/// of information is sent as a log entry, errors are events too, and the rest is ignored.
pub fn reporting(severity: Severity) -> (taken: Reporting)
    ensures
        taken.event == (severity == Severity::Error),
        taken.log == (severity == Severity::Error || severity == Severity::Warn || severity
            == Severity::Info),
{
    match severity {
        Severity::Error => Reporting { event: true, log: true },
        Severity::Warn | Severity::Info => Reporting { event: false, log: true },
        Severity::Debug | Severity::Trace => Reporting { event: false, log: false },
    }
}

} // verus!
