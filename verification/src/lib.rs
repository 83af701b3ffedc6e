//! KCP: a fast and reliable ARQ protocol over datagrams.
//!
//! The crate is layered like the protocol itself:
//!
//! - [`sys`] — the KCP control block and its operations (segment codec,
//!   send queue, reassembly, acknowledgement handling, flush and timing).
//! - [`kcp_core`] — a `Result`-based wrapper over the control block with
//!   configuration presets.
//! - [`tokio_rt`] — the decisions of an asynchronous UDP session (closing,
//!   timeouts, packet routing, read buffering) as plain state machines.

pub mod sys;

pub mod kcp_core;

pub use crate::kcp_core::{Kcp, KcpConfig, KcpError, KcpResult};

pub mod tokio_rt;

pub use crate::tokio_rt::{KcpSessionConfig, KcpTokioError, KcpTokioResult};
