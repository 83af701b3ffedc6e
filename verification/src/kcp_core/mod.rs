//! A `Result`-based wrapper over the KCP control block.
//!
//! - [`Kcp`] — owns a control block and reports failures as [`KcpError`].
//! - [`KcpConfig`] — protocol parameters with presets (`default()`,
//!   `fast()`, `normal()`).
//! - [`KcpError`] — every failure of a KCP operation.

pub mod config;
pub mod error;
pub mod kcp;
pub mod text;

pub use config::KcpConfig;
pub use error::{KcpError, KcpResult};
pub use kcp::Kcp;
