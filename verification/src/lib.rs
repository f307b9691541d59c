//! Audits the licenses of installed Python dependencies against an
//! organizational policy and tracks approved deviations.
//!
//! The crate holds the policy evaluation and exception-lifecycle engine:
//! license-string normalization, rule matching with forbidden-first
//! precedence, violation detection over a package list, the time-bounded
//! exception store, and the decision logic of the interactive resolution
//! workflow. Reading package metadata, configuration and exception files,
//! and rendering reports happen outside the crate, which only exchanges
//! plain values with those collaborators.

pub mod checker;
pub mod config;
pub mod dates;
pub mod exceptions;
pub mod extractor;
pub mod init;
pub mod interactive;
pub mod license;
pub mod policy;
pub mod report;
pub mod strutil;
pub mod uv_lock;
