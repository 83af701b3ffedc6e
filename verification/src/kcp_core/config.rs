//! KCP configuration presets.

use vstd::prelude::*;

verus! {

/// KCP protocol parameters.
///
/// - `nodelay`: more aggressive retransmission timing;
/// - `interval`: internal update interval in ms;
/// - `resend`: number of skipping acknowledgements that trigger a fast
///   retransmission (0 disables it);
/// - `nc`: no congestion control;
/// - `mtu`: largest datagram in bytes;
/// - `snd_wnd`, `rcv_wnd`: send and receive windows in segments;
/// - `stream_mode`: byte-stream mode instead of message mode.
#[derive(Debug, Clone, Copy)]
pub struct KcpConfig {
    pub nodelay: bool,
    pub interval: u32,
    pub resend: i32,
    pub nc: bool,
    pub mtu: u32,
    pub snd_wnd: u32,
    pub rcv_wnd: u32,
    pub stream_mode: bool,
}

impl Default for KcpConfig {
    /// The conservative configuration: normal mode, 100 ms interval, no fast
    /// resend, congestion control on, MTU 1400, windows 32/128, message mode.
    fn default() -> (r: Self)
        ensures
            r == KcpConfig::spec_default(),
    {
        KcpConfig {
            nodelay: false,
            interval: 100,
            resend: 0,
            nc: false,
            mtu: 1400,
            snd_wnd: 32,
            rcv_wnd: 128,
            stream_mode: false,
        }
    }
}

impl KcpConfig {
    /// The value of [`KcpConfig::default()`].
    pub open spec fn spec_default() -> KcpConfig {
        KcpConfig {
            nodelay: false,
            interval: 100,
            resend: 0,
            nc: false,
            mtu: 1400,
            snd_wnd: 32,
            rcv_wnd: 128,
            stream_mode: false,
        }
    }

    /// The value of [`KcpConfig::fast()`].
    pub open spec fn spec_fast() -> KcpConfig {
        KcpConfig {
            nodelay: true,
            interval: 10,
            resend: 2,
            nc: true,
            mtu: 1400,
            snd_wnd: 128,
            rcv_wnd: 128,
            stream_mode: false,
        }
    }

    /// The value of [`KcpConfig::normal()`].
    pub open spec fn spec_normal() -> KcpConfig {
        KcpConfig {
            nodelay: true,
            interval: 40,
            resend: 2,
            nc: false,
            mtu: 1400,
            snd_wnd: 64,
            rcv_wnd: 128,
            stream_mode: false,
        }
    }

    /// The low-latency configuration: nodelay, 10 ms interval, fast resend
    /// after 2 skips, no congestion control, MTU 1400, windows 128/128.
    pub fn fast() -> (r: Self)
        ensures
            r == KcpConfig::spec_fast(),
    {
        KcpConfig {
            nodelay: true,
            interval: 10,
            resend: 2,
            nc: true,
            mtu: 1400,
            snd_wnd: 128,
            rcv_wnd: 128,
            stream_mode: false,
        }
    }

    /// The balanced configuration: nodelay, 40 ms interval, fast resend
    /// after 2 skips, congestion control on, MTU 1400, windows 64/128.
    pub fn normal() -> (r: Self)
        ensures
            r == KcpConfig::spec_normal(),
    {
        KcpConfig {
            nodelay: true,
            interval: 40,
            resend: 2,
            nc: false,
            mtu: 1400,
            snd_wnd: 64,
            rcv_wnd: 128,
            stream_mode: false,
        }
    }
}

} // verus!
