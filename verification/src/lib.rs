//! A mirror for Sentry ingest traffic: what reaches a configured inbound DSN is forwarded to
//! one or more outbound DSNs.
pub mod auth;
pub mod codec;
pub mod config;
pub mod dsn;
pub mod headers;
pub mod json;
pub mod logging;
pub mod request;
pub mod service;
pub mod state;
pub mod text;
pub mod uri;
