//! The configuration of the mirror.
use std::collections::BTreeMap;
use vstd::prelude::*;
use vstd::string::*;

use crate::logging::LogFormat;
use crate::text::{blank, decimal, decimal_text, is_blank, is_white_space};

verus! {

/// The kinds of data that a request can carry.
#[derive(Debug, Clone, Copy, PartialEq, Eq, Structural)]
pub enum DataCategory {
    /// Error events
    Errors,
    /// Transactions / tracing
    Transactions,
    /// Release health sessions
    Sessions,
    /// Client reports (outcomes)
    ClientReports,
    /// Session replays
    Replays,
    /// Metrics buckets
    Metrics,
    /// Profiling data
    Profiling,
    /// Native crash reports
    Minidumps,
    /// Cron monitor check-ins (envelope item type `check_in`)
    CheckIn,
}

/// An outbound destination, which may be restricted to some data categories.
#[derive(Debug, Clone, PartialEq)]
pub enum OutboundEntry {
    /// Shorthand: just a DSN (or nothing)
    Dsn(Option<String>),
    /// Detailed form with optional category filters
    Detailed { dsn: Option<String>, categories: Option<Vec<DataCategory>> },
}

/// A set of inbound and outbound keys.
/// Requests sent to an inbound DSN are mirrored to all outbound DSNs.
#[derive(Debug, Clone, PartialEq)]
pub struct KeyRing {
    /// Inbound keys are virtual DSNs that the mirror accepts traffic on.
    pub inbound: Option<String>,
    /// The upstream DSNs that the mirror forwards traffic to.
    pub outbound: Vec<OutboundEntry>,
}

/// The settings of a running mirror.
#[derive(Debug, PartialEq)]
pub struct ConfigData {
    /// The sentry DSN to use for error reporting, and tracing.
    pub sentry_dsn: Option<String>,
    /// The environment to report sentry errors to.
    pub sentry_env: Option<String>,
    /// The sampling rate for tracing data, as the bits of a single precision number.
    pub traces_sample_rate_bits: Option<u32>,
    /// The log filter to apply to application logging.
    pub log_filter: String,
    /// The log format to use.
    pub log_format: LogFormat,
    /// The statsd address to report metrics to.
    pub statsd_addr: Option<String>,
    /// Default tags to add to all metrics.
    pub default_metrics_tags: Option<BTreeMap<String, String>>,
    /// The inbound IP to use.
    pub ip: String,
    /// The port the http server listens on.
    pub port: u16,
    /// Whether or not verbose mode was enabled.
    /// When enabled, debug logging is output.
    pub verbose: bool,
    /// The keys that the server handles.
    pub keys: Vec<KeyRing>,
    /// Set to false to skip rewriting envelope headers.
    /// Leaving envelope headers alone makes mirroring more efficient, but requires the
    /// downstream relay to not validate the project ids and DSNs in them.
    pub modify_envelope_header: bool,
}

impl ConfigData {
    /// The tcp address to bind an http server to.
    pub fn bind_addr(&self) -> (addr: String)
        ensures
            addr@ == self.ip@ + ":"@ + decimal(self.port as nat),
    {
        let mut addr = self.ip.clone();
        addr.append(":");
        addr.append(decimal_text(self.port as usize).as_str());
        addr
    }
}

impl Default for ConfigData {
    fn default() -> (config: Self)
        ensures
            config.sentry_dsn is None,
            config.sentry_env is None,
            config.traces_sample_rate_bits is None,
            config.log_filter@ == "info"@,
            config.log_format == LogFormat::Text,
            config.statsd_addr is None,
            config.default_metrics_tags is None,
            config.ip@ == "127.0.0.1"@,
            config.port == 3000,
            !config.verbose,
            config.keys@.len() == 0,
            config.modify_envelope_header,
    {
        ConfigData {
            sentry_dsn: None,
            sentry_env: None,
            traces_sample_rate_bits: None,
            log_filter: "info".to_owned(),
            log_format: LogFormat::Text,
            statsd_addr: None,
            default_metrics_tags: None,
            ip: "127.0.0.1".to_owned(),
            port: 3000,
            verbose: false,
            keys: Vec::new(),
            modify_envelope_header: true,
        }
    }
}

/// The log filter in force: debug logs in verbose mode, and else the one that was set, or
/// the default where that one is blank.
pub open spec fn effective_filter(verbose: bool, log_filter: Seq<char>) -> Seq<char> {
    if verbose {
        "debug"@
    } else if is_blank(log_filter) {
        "info"@
    } else {
        log_filter
    }
}

/// Completes the settings that were read from file and environment by the command line's
/// verbose flag. Verbose mode shows debug logs wherever it was set, and a blank log filter
/// gives way to the default.
pub fn from_args(verbose: bool, extracted: ConfigData) -> (config: ConfigData)
    ensures
        config.verbose == (verbose || extracted.verbose),
        config.log_filter@ == effective_filter(config.verbose, extracted.log_filter@),
        config == (ConfigData {
            verbose: config.verbose,
            log_filter: config.log_filter,
            ..extracted
        }),
{
    let mut config = extracted;
    if verbose {
        config.verbose = true;
    }
    if config.verbose {
        config.log_filter = "debug".to_owned();
    } else if blank(config.log_filter.as_str()) {
        config.log_filter = "info".to_owned();
    }
    config
}

proof fn lemma_white_space(c: char)
    ensures
        is_white_space(c) <==> ('\t' <= c <= '\r' || c == ' ' || c == '\u{85}' || c == '\u{a0}' || c
            == '\u{1680}' || '\u{2000}' <= c <= '\u{200a}' || c == '\u{2028}' || c == '\u{2029}'
            || c == '\u{202f}' || c == '\u{205f}' || c == '\u{3000}'),
{
}

/// Verbose mode shows debug logs whatever filter was set. Without it a filter with anything
/// but white space in it is kept, and one of white space alone gives way to the default.
pub proof fn law_log_filter(log_filter: Seq<char>, spaces: Set<char>)
    requires
        forall|c: char| #[trigger]
            spaces.contains(c) <==> ('\t' <= c <= '\r' || c == ' ' || c == '\u{85}' || c
                == '\u{a0}' || c == '\u{1680}' || '\u{2000}' <= c <= '\u{200a}' || c == '\u{2028}'
                || c == '\u{2029}' || c == '\u{202f}' || c == '\u{205f}' || c == '\u{3000}'),
    ensures
        effective_filter(true, log_filter) == "debug"@,
        (exists|i: int| 0 <= i < log_filter.len() && !spaces.contains(#[trigger] log_filter[i]))
            ==> effective_filter(false, log_filter) == log_filter,
        (forall|i: int|
            0 <= i < log_filter.len() ==> spaces.contains(#[trigger] log_filter[i]))
            ==> effective_filter(false, log_filter) == "info"@,
{
    assert forall|i: int| 0 <= i < log_filter.len() implies is_white_space(
        #[trigger] log_filter[i],
    ) == spaces.contains(log_filter[i]) by {
        lemma_white_space(log_filter[i]);
    }
}

} // verus!
