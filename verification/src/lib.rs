//! Utilities behind a small collection of unit-testing exercises: a
//! hook-wrapping test decorator (parse a `key = path` argument list,
//! validate it, and wrap a test function's body with ordered hook calls),
//! plus the pure decision logic of a few test-support helpers (an HTTP
//! request matcher, config-file reading, workspace manifest handling,
//! and a logging seam used to demonstrate mocking).

mod byteutil;
mod text;
pub mod matchers;
pub mod hook_args;
pub mod rewrite;
pub mod config;
pub mod http_match;
pub mod workspace;
pub mod logging;
pub mod mocking;
