//! Runtime configuration of a session.

use vstd::prelude::*;
use crate::kcp_core::KcpConfig;

verus! {

/// Configuration of a KCP session: the protocol parameters and the
/// session's runtime settings. Durations are in nanoseconds.
///
/// - `flush_interval`: how often the protocol is driven while waiting;
/// - `timeout`: a session with nothing received for longer than this is
///   dead (`None`: never);
/// - `flush_write`: flush right after every send;
/// - `recv_buf_size`: size of the datagram receive buffer in bytes.
#[derive(Debug, Clone, Copy)]
pub struct KcpSessionConfig {
    pub kcp_config: KcpConfig,
    pub flush_interval: u128,
    pub timeout: Option<u128>,
    pub flush_write: bool,
    pub recv_buf_size: usize,
}

impl Default for KcpSessionConfig {
    /// [`KcpConfig::default()`], flushing every 100 ms, no timeout, flush
    /// after writes, 64 KiB receive buffer.
    fn default() -> (r: Self)
        ensures
            r.kcp_config == KcpConfig::spec_default(),
            r.flush_interval == 100_000_000,
            r.timeout.is_none(),
            r.flush_write,
            r.recv_buf_size == 65536,
    {
        let kcp_config = KcpConfig::default();
        KcpSessionConfig {
            flush_interval: kcp_config.interval as u128 * 1_000_000,
            kcp_config,
            timeout: None,
            flush_write: true,
            recv_buf_size: 65536,
        }
    }
}

impl KcpSessionConfig {
    /// [`KcpConfig::fast()`], flushing every 10 ms, 30 s timeout.
    pub fn fast() -> (r: Self)
        ensures
            r.kcp_config == KcpConfig::spec_fast(),
            r.flush_interval == 10_000_000,
            r.timeout == Some(30_000_000_000u128),
            r.flush_write,
            r.recv_buf_size == 65536,
    {
        let kcp_config = KcpConfig::fast();
        KcpSessionConfig {
            flush_interval: kcp_config.interval as u128 * 1_000_000,
            kcp_config,
            timeout: Some(30_000_000_000),
            flush_write: true,
            recv_buf_size: 65536,
        }
    }

    /// [`KcpConfig::normal()`], flushing every 40 ms, 60 s timeout.
    pub fn normal() -> (r: Self)
        ensures
            r.kcp_config == KcpConfig::spec_normal(),
            r.flush_interval == 40_000_000,
            r.timeout == Some(60_000_000_000u128),
            r.flush_write,
            r.recv_buf_size == 65536,
    {
        let kcp_config = KcpConfig::normal();
        KcpSessionConfig {
            flush_interval: kcp_config.interval as u128 * 1_000_000,
            kcp_config,
            timeout: Some(60_000_000_000),
            flush_write: true,
            recv_buf_size: 65536,
        }
    }
}

} // verus!
