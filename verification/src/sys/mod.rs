//! The KCP control block: segment codec, queues and protocol operations.
//!
//! The control block keeps four queues of segments, as the protocol
//! defines them:
//!
//! - `snd_queue`: data handed to [`send::ikcp_send`], not yet in flight;
//! - `snd_buf`: segments in flight, waiting for acknowledgement;
//! - `rcv_buf`: segments received out of order;
//! - `rcv_queue`: segments received in order, ready for [`recv::ikcp_recv`].
//!
//! Datagrams that the protocol emits are appended to `output`; the owner of
//! the control block takes them out and hands them to the transport.
//!
//! What a received datagram does is stated over plain values:
//! [`deliver`] for the receiving side, [`acks`] for the segments in flight.

pub mod acks;
pub mod codec;
pub mod deliver;
pub mod recv;
pub mod send;
pub mod transfer;
pub mod input;
pub mod flush;


pub use codec::{ikcp_getconv, IKCP_OVERHEAD};
pub use flush::{ikcp_check, ikcp_flush, ikcp_update};
pub use input::ikcp_input;
pub use recv::{ikcp_peeksize, ikcp_recv};
pub use send::ikcp_send;

use vstd::prelude::*;

verus! {

/// Retransmission timeout floor in nodelay mode (ms).
pub const IKCP_RTO_NDL: i32 = 30;

/// Retransmission timeout floor in normal mode (ms).
pub const IKCP_RTO_MIN: i32 = 100;

/// Initial retransmission timeout (ms).
pub const IKCP_RTO_DEF: i32 = 200;

/// Retransmission timeout ceiling (ms).
pub const IKCP_RTO_MAX: i32 = 60000;

/// Probe flag: ask the peer for its window size.
pub const IKCP_ASK_SEND: u32 = 1;

/// Probe flag: tell the peer our window size.
pub const IKCP_ASK_TELL: u32 = 2;

/// Default send window (segments).
pub const IKCP_WND_SND: u32 = 32;

/// Default and minimal receive window (segments); also the bound on the
/// number of fragments of one message.
pub const IKCP_WND_RCV: u32 = 128;

/// Default MTU (bytes).
pub const IKCP_MTU_DEF: u32 = 1400;

/// Default update interval (ms).
pub const IKCP_INTERVAL: u32 = 100;

/// Transmissions after which a link counts as dead.
pub const IKCP_DEADLINK: u32 = 20;

/// Initial slow-start threshold.
pub const IKCP_THRESH_INIT: u32 = 2;

/// Minimal slow-start threshold.
pub const IKCP_THRESH_MIN: u32 = 2;

/// First window-probe delay (ms).
pub const IKCP_PROBE_INIT: u32 = 7000;

/// Largest window-probe delay (ms).
pub const IKCP_PROBE_LIMIT: u32 = 120000;

/// Default limit of fast retransmissions of one segment.
pub const IKCP_FASTACK_LIMIT: i32 = 5;

/// One segment. Its payload length is `data.len()`.
#[derive(Debug)]
pub struct IKCPSEG {
    pub conv: u32,
    pub cmd: u32,
    pub frg: u32,
    pub wnd: u32,
    pub ts: u32,
    pub sn: u32,
    pub una: u32,
    pub resendts: u32,
    pub rto: u32,
    pub fastack: u32,
    pub xmit: u32,
    pub data: Vec<u8>,
}

/// The KCP control block.
#[derive(Debug)]
pub struct IKCPCB {
    pub conv: u32,
    pub mtu: u32,
    pub mss: u32,
    pub state: u32,
    pub snd_una: u32,
    pub snd_nxt: u32,
    pub rcv_nxt: u32,
    pub ssthresh: u32,
    pub rx_rttval: i32,
    pub rx_srtt: i32,
    pub rx_rto: i32,
    pub rx_minrto: i32,
    pub snd_wnd: u32,
    pub rcv_wnd: u32,
    pub rmt_wnd: u32,
    pub cwnd: u32,
    pub probe: u32,
    pub current: u32,
    pub interval: u32,
    pub ts_flush: u32,
    pub xmit: u32,
    pub nodelay: u32,
    pub updated: u32,
    pub ts_probe: u32,
    pub probe_wait: u32,
    pub dead_link: u32,
    pub incr: u32,
    pub snd_queue: Vec<IKCPSEG>,
    pub rcv_queue: Vec<IKCPSEG>,
    pub snd_buf: Vec<IKCPSEG>,
    pub rcv_buf: Vec<IKCPSEG>,
    /// Pending acknowledgements: `(sn, ts)` pairs.
    pub acklist: Vec<(u32, u32)>,
    pub fastresend: i32,
    pub fastlimit: i32,
    pub nocwnd: i32,
    pub stream: i32,
    /// Datagrams emitted and not yet taken; `None` until an output is set.
    pub output: Option<Vec<Vec<u8>>>,
}

/// `a + b` modulo 2^32.
pub open spec fn wrap_add(a: u32, b: int) -> u32 {
    ((a + b) % 0x1_0000_0000) as u32
}

/// The signed distance from `earlier` to `later` on the 32-bit clock
/// (sequence numbers and timestamps wrap around).
pub open spec fn itimediff(later: u32, earlier: u32) -> int {
    let d = if later >= earlier {
        later - earlier
    } else {
        later - earlier + 0x1_0000_0000
    };
    if d >= 0x8000_0000 {
        d - 0x1_0000_0000
    } else {
        d
    }
}

/// Exec form of [`itimediff`].
pub fn timediff(later: u32, earlier: u32) -> (r: i32)
    ensures
        r == itimediff(later, earlier),
{
    let d = later.wrapping_sub(earlier);
    if d >= 0x8000_0000 {
        let e = (d - 0x8000_0000) as i32;
        e - 0x7fff_ffff - 1
    } else {
        d as i32
    }
}

/// A 32-bit unsigned value read as a signed 32-bit integer: itself when it fits, a
/// negative value otherwise.
pub proof fn lemma_c_int(x: u32)
    ensures
        x <= 0x7fff_ffff ==> (x as i32) == x,
        x > 0x7fff_ffff ==> (x as i32) < 0,
{
    assert(x <= 0x7fff_ffff ==> (x as i32) == x) by (bit_vector);
    assert(x > 0x7fff_ffff ==> (x as i32) < 0) by (bit_vector);
}

/// `a + b` modulo 2^32, executable.
pub fn add_wrap(a: u32, b: u32) -> (r: u32)
    ensures
        r == wrap_add(a, b as int),
{
    a.wrapping_add(b)
}

/// The payloads of `q`, concatenated.
pub open spec fn flat(q: Seq<IKCPSEG>) -> Seq<u8>
    decreases q.len(),
{
    if q.len() == 0 {
        Seq::empty()
    } else {
        flat(q.drop_last()) + q.last().data@
    }
}

/// The number of segments of the message at the front of `q`: up to and
/// including the first segment whose fragment index is 0 (all of `q`
/// when there is none).
pub open spec fn chain_count(q: Seq<IKCPSEG>) -> nat
    decreases q.len(),
{
    if q.len() == 0 {
        0
    } else if q[0].frg == 0 {
        1
    } else {
        1 + chain_count(q.drop_first())
    }
}

/// The bytes of the message at the front of `q`.
pub open spec fn chain_bytes(q: Seq<IKCPSEG>) -> Seq<u8> {
    flat(q.take(chain_count(q) as int))
}

/// What `ikcp_peeksize` reports for a receive queue `q`: -1 when `q` is
/// empty or does not yet hold every fragment announced by its first
/// segment, else the size of the message at its front.
pub open spec fn peek_size(q: Seq<IKCPSEG>) -> int {
    if q.len() == 0 {
        -1
    } else if q[0].frg == 0 {
        q[0].data@.len() as int
    } else if q.len() < q[0].frg + 1 {
        -1
    } else {
        chain_bytes(q).len() as int
    }
}

impl IKCPCB {
    /// The invariant of a control block.
    pub open spec fn wf(&self) -> bool {
        &&& 50 <= self.mtu <= 0x7fff_ffff
        &&& self.mss == self.mtu - 24
        &&& 10 <= self.interval <= 5000
        &&& 0 <= self.rx_srtt
        &&& 0 <= self.rx_rttval
        &&& 0 < self.rx_rto <= IKCP_RTO_MAX
        &&& (self.rx_minrto == IKCP_RTO_NDL || self.rx_minrto == IKCP_RTO_MIN)
        &&& self.rcv_queue@.len() <= u32::MAX
        &&& self.probe_wait <= IKCP_PROBE_LIMIT
        &&& self.updated <= 1
        &&& forall|i: int|
            0 <= i < self.snd_queue@.len() ==> #[trigger] self.snd_queue@[i].data@.len()
                <= 0x7fff_ffff
        &&& forall|i: int|
            0 <= i < self.snd_buf@.len() ==> #[trigger] self.snd_buf@[i].data@.len() <= 0x7fff_ffff
        &&& forall|i: int|
            0 <= i < self.rcv_queue@.len() ==> #[trigger] self.rcv_queue@[i].data@.len()
                < 0x8000_0000
        &&& forall|i: int|
            0 <= i < self.rcv_buf@.len() ==> #[trigger] self.rcv_buf@[i].data@.len() < 0x8000_0000
    }

    /// The fields set by configuration, unchanged from `other`.
    pub open spec fn same_config(&self, other: &IKCPCB) -> bool {
        &&& self.conv == other.conv
        &&& self.mtu == other.mtu
        &&& self.mss == other.mss
        &&& self.snd_wnd == other.snd_wnd
        &&& self.rcv_wnd == other.rcv_wnd
        &&& self.interval == other.interval
        &&& self.nodelay == other.nodelay
        &&& self.rx_minrto == other.rx_minrto
        &&& self.fastresend == other.fastresend
        &&& self.fastlimit == other.fastlimit
        &&& self.nocwnd == other.nocwnd
        &&& self.stream == other.stream
        &&& self.dead_link == other.dead_link
    }

    /// The sending side, unchanged from `other`.
    pub open spec fn same_send_side(&self, other: &IKCPCB) -> bool {
        &&& self.snd_queue@ == other.snd_queue@
        &&& self.snd_buf@ == other.snd_buf@
        &&& self.snd_una == other.snd_una
        &&& self.snd_nxt == other.snd_nxt
        &&& self.ssthresh == other.ssthresh
        &&& self.cwnd == other.cwnd
        &&& self.incr == other.incr
        &&& self.rmt_wnd == other.rmt_wnd
        &&& self.xmit == other.xmit
        &&& self.state == other.state
    }

    /// The receiving side, unchanged from `other`.
    pub open spec fn same_recv_side(&self, other: &IKCPCB) -> bool {
        &&& self.rcv_queue@ == other.rcv_queue@
        &&& self.rcv_buf@ == other.rcv_buf@
        &&& self.rcv_nxt == other.rcv_nxt
        &&& self.acklist@ == other.acklist@
        &&& self.probe == other.probe
    }

    /// Clock, round-trip estimate and probing state, unchanged from `other`.
    pub open spec fn same_timing(&self, other: &IKCPCB) -> bool {
        &&& self.current == other.current
        &&& self.ts_flush == other.ts_flush
        &&& self.updated == other.updated
        &&& self.ts_probe == other.ts_probe
        &&& self.probe_wait == other.probe_wait
        &&& self.rx_srtt == other.rx_srtt
        &&& self.rx_rttval == other.rx_rttval
        &&& self.rx_rto == other.rx_rto
    }

    /// The number of segments waiting to be sent or acknowledged.
    pub open spec fn spec_waitsnd(&self) -> u32 {
        ((self.snd_buf@.len() + self.snd_queue@.len()) % 0x1_0000_0000) as u32
    }
}

/// A fresh segment with payload `data`; its header fields are filled in
/// when it is sent or received.
pub fn segment_new(data: Vec<u8>) -> (seg: IKCPSEG)
    ensures
        seg.data@ == data@,
        seg.frg == 0,
        seg.xmit == 0,
        seg.fastack == 0,
{
    IKCPSEG {
        conv: 0,
        cmd: 0,
        frg: 0,
        wnd: 0,
        ts: 0,
        sn: 0,
        una: 0,
        resendts: 0,
        rto: 0,
        fastack: 0,
        xmit: 0,
        data,
    }
}

/// Creates a control block for conversation `conv` with the protocol's
/// defaults: MTU 1400, send window 32, receive window 128, interval
/// 100 ms, initial RTO 200 ms, no output set yet.
pub fn ikcp_create(conv: u32) -> (kcp: IKCPCB)
    ensures
        kcp.wf(),
        kcp.conv == conv,
        kcp.mtu == IKCP_MTU_DEF,
        kcp.mss == IKCP_MTU_DEF - 24,
        kcp.state == 0,
        kcp.snd_una == 0,
        kcp.snd_nxt == 0,
        kcp.rcv_nxt == 0,
        kcp.ssthresh == IKCP_THRESH_INIT,
        kcp.rx_rttval == 0,
        kcp.rx_srtt == 0,
        kcp.rx_rto == IKCP_RTO_DEF,
        kcp.rx_minrto == IKCP_RTO_MIN,
        kcp.snd_wnd == IKCP_WND_SND,
        kcp.rcv_wnd == IKCP_WND_RCV,
        kcp.rmt_wnd == IKCP_WND_RCV,
        kcp.cwnd == 0,
        kcp.probe == 0,
        kcp.current == 0,
        kcp.interval == IKCP_INTERVAL,
        kcp.ts_flush == IKCP_INTERVAL,
        kcp.xmit == 0,
        kcp.nodelay == 0,
        kcp.updated == 0,
        kcp.ts_probe == 0,
        kcp.probe_wait == 0,
        kcp.dead_link == IKCP_DEADLINK,
        kcp.incr == 0,
        kcp.snd_queue@.len() == 0,
        kcp.rcv_queue@.len() == 0,
        kcp.snd_buf@.len() == 0,
        kcp.rcv_buf@.len() == 0,
        kcp.acklist@.len() == 0,
        kcp.fastresend == 0,
        kcp.fastlimit == IKCP_FASTACK_LIMIT,
        kcp.nocwnd == 0,
        kcp.stream == 0,
        kcp.output.is_none(),
{
    IKCPCB {
        conv,
        mtu: IKCP_MTU_DEF,
        mss: IKCP_MTU_DEF - 24,
        state: 0,
        snd_una: 0,
        snd_nxt: 0,
        rcv_nxt: 0,
        ssthresh: IKCP_THRESH_INIT,
        rx_rttval: 0,
        rx_srtt: 0,
        rx_rto: IKCP_RTO_DEF,
        rx_minrto: IKCP_RTO_MIN,
        snd_wnd: IKCP_WND_SND,
        rcv_wnd: IKCP_WND_RCV,
        rmt_wnd: IKCP_WND_RCV,
        cwnd: 0,
        probe: 0,
        current: 0,
        interval: IKCP_INTERVAL,
        ts_flush: IKCP_INTERVAL,
        xmit: 0,
        nodelay: 0,
        updated: 0,
        ts_probe: 0,
        probe_wait: 0,
        dead_link: IKCP_DEADLINK,
        incr: 0,
        snd_queue: Vec::new(),
        rcv_queue: Vec::new(),
        snd_buf: Vec::new(),
        rcv_buf: Vec::new(),
        acklist: Vec::new(),
        fastresend: 0,
        fastlimit: IKCP_FASTACK_LIMIT,
        nocwnd: 0,
        stream: 0,
        output: None,
    }
}

/// Releases a control block and everything it holds.
pub fn ikcp_release(kcp: IKCPCB) {
}

/// Makes the control block emit datagrams: from now on flushing appends
/// them to `output`. Datagrams already waiting there stay.
pub fn ikcp_setoutput(kcp: &mut IKCPCB)
    requires
        old(kcp).wf(),
    ensures
        final(kcp).wf(),
        final(kcp).output.is_some(),
        old(kcp).output.is_some() ==> final(kcp).output == old(kcp).output,
        old(kcp).output.is_none() ==> (final(kcp).output matches Some(o) && o@.len() == 0),
        final(kcp).same_config(old(kcp)),
        final(kcp).same_send_side(old(kcp)),
        final(kcp).same_recv_side(old(kcp)),
        final(kcp).same_timing(old(kcp)),
{
    if kcp.output.is_none() {
        kcp.output = Some(Vec::new());
    }
}

/// Sets the MTU: the largest datagram the control block emits. Values
/// below 50 are refused with -1 and change nothing; otherwise `mtu` is
/// set, `mss` becomes `mtu - 24`, and 0 is returned.
pub fn ikcp_setmtu(kcp: &mut IKCPCB, mtu: i32) -> (r: i32)
    requires
        old(kcp).wf(),
    ensures
        final(kcp).wf(),
        r == if mtu < 50 {
            -1int
        } else {
            0
        },
        r == 0 ==> final(kcp).mtu == mtu && final(kcp).mss == mtu - 24,
        r != 0 ==> final(kcp).mtu == old(kcp).mtu && final(kcp).mss == old(kcp).mss,
        r != 0 ==> *final(kcp) == *old(kcp),
        final(kcp).conv == old(kcp).conv,
        final(kcp).snd_wnd == old(kcp).snd_wnd,
        final(kcp).rcv_wnd == old(kcp).rcv_wnd,
        final(kcp).interval == old(kcp).interval,
        final(kcp).nodelay == old(kcp).nodelay,
        final(kcp).rx_minrto == old(kcp).rx_minrto,
        final(kcp).fastresend == old(kcp).fastresend,
        final(kcp).fastlimit == old(kcp).fastlimit,
        final(kcp).nocwnd == old(kcp).nocwnd,
        final(kcp).stream == old(kcp).stream,
        final(kcp).dead_link == old(kcp).dead_link,
        final(kcp).same_send_side(old(kcp)),
        final(kcp).same_recv_side(old(kcp)),
        final(kcp).same_timing(old(kcp)),
        final(kcp).output == old(kcp).output,
{
    if mtu < 50 {
        return -1;
    }
    kcp.mtu = mtu as u32;
    kcp.mss = (mtu - 24) as u32;
    0
}

/// The update interval `interval` clamped to 10..=5000 ms.
pub open spec fn clamp_interval(interval: i32) -> u32 {
    if interval > 5000 {
        5000
    } else if interval < 10 {
        10
    } else {
        interval as u32
    }
}

/// Sets the update interval, clamped to 10..=5000 ms.
pub fn ikcp_interval(kcp: &mut IKCPCB, interval: i32) -> (r: i32)
    requires
        old(kcp).wf(),
    ensures
        final(kcp).wf(),
        r == 0,
        final(kcp).interval == clamp_interval(interval),
        final(kcp).conv == old(kcp).conv,
        final(kcp).mtu == old(kcp).mtu,
        final(kcp).mss == old(kcp).mss,
        final(kcp).snd_wnd == old(kcp).snd_wnd,
        final(kcp).rcv_wnd == old(kcp).rcv_wnd,
        final(kcp).nodelay == old(kcp).nodelay,
        final(kcp).rx_minrto == old(kcp).rx_minrto,
        final(kcp).fastresend == old(kcp).fastresend,
        final(kcp).fastlimit == old(kcp).fastlimit,
        final(kcp).nocwnd == old(kcp).nocwnd,
        final(kcp).stream == old(kcp).stream,
        final(kcp).dead_link == old(kcp).dead_link,
        final(kcp).same_send_side(old(kcp)),
        final(kcp).same_recv_side(old(kcp)),
        final(kcp).same_timing(old(kcp)),
        final(kcp).output == old(kcp).output,
{
    kcp.interval = if interval > 5000 {
        5000
    } else if interval < 10 {
        10
    } else {
        interval as u32
    };
    0
}

/// Configures nodelay mode, update interval, fast resend and congestion
/// control; a negative argument leaves its setting unchanged. Nodelay
/// also sets the RTO floor: 30 ms when on, 100 ms when off.
pub fn ikcp_nodelay(kcp: &mut IKCPCB, nodelay: i32, interval: i32, resend: i32, nc: i32) -> (r:
    i32)
    requires
        old(kcp).wf(),
    ensures
        final(kcp).wf(),
        r == 0,
        final(kcp).nodelay == if nodelay >= 0 {
            nodelay as u32
        } else {
            old(kcp).nodelay
        },
        final(kcp).rx_minrto == if nodelay > 0 {
            IKCP_RTO_NDL
        } else if nodelay == 0 {
            IKCP_RTO_MIN
        } else {
            old(kcp).rx_minrto
        },
        final(kcp).interval == if interval >= 0 {
            clamp_interval(interval)
        } else {
            old(kcp).interval
        },
        final(kcp).fastresend == if resend >= 0 {
            resend
        } else {
            old(kcp).fastresend
        },
        final(kcp).nocwnd == if nc >= 0 {
            nc
        } else {
            old(kcp).nocwnd
        },
        final(kcp).conv == old(kcp).conv,
        final(kcp).mtu == old(kcp).mtu,
        final(kcp).mss == old(kcp).mss,
        final(kcp).snd_wnd == old(kcp).snd_wnd,
        final(kcp).rcv_wnd == old(kcp).rcv_wnd,
        final(kcp).fastlimit == old(kcp).fastlimit,
        final(kcp).stream == old(kcp).stream,
        final(kcp).dead_link == old(kcp).dead_link,
        final(kcp).same_send_side(old(kcp)),
        final(kcp).same_recv_side(old(kcp)),
        final(kcp).same_timing(old(kcp)),
        final(kcp).output == old(kcp).output,
{
    if nodelay >= 0 {
        kcp.nodelay = nodelay as u32;
        if nodelay != 0 {
            kcp.rx_minrto = IKCP_RTO_NDL;
        } else {
            kcp.rx_minrto = IKCP_RTO_MIN;
        }
    }
    if interval >= 0 {
        ikcp_interval(kcp, interval);
    }
    if resend >= 0 {
        kcp.fastresend = resend;
    }
    if nc >= 0 {
        kcp.nocwnd = nc;
    }
    0
}

/// Sets the send and receive windows (in segments). A value that is not
/// positive leaves its window unchanged; the receive window is never set
/// below 128.
pub fn ikcp_wndsize(kcp: &mut IKCPCB, sndwnd: i32, rcvwnd: i32) -> (r: i32)
    requires
        old(kcp).wf(),
    ensures
        final(kcp).wf(),
        r == 0,
        final(kcp).snd_wnd == if sndwnd > 0 {
            sndwnd as u32
        } else {
            old(kcp).snd_wnd
        },
        final(kcp).rcv_wnd == if rcvwnd > 0 {
            if rcvwnd >= IKCP_WND_RCV {
                rcvwnd as u32
            } else {
                IKCP_WND_RCV
            }
        } else {
            old(kcp).rcv_wnd
        },
        final(kcp).conv == old(kcp).conv,
        final(kcp).mtu == old(kcp).mtu,
        final(kcp).mss == old(kcp).mss,
        final(kcp).interval == old(kcp).interval,
        final(kcp).nodelay == old(kcp).nodelay,
        final(kcp).rx_minrto == old(kcp).rx_minrto,
        final(kcp).fastresend == old(kcp).fastresend,
        final(kcp).fastlimit == old(kcp).fastlimit,
        final(kcp).nocwnd == old(kcp).nocwnd,
        final(kcp).stream == old(kcp).stream,
        final(kcp).dead_link == old(kcp).dead_link,
        final(kcp).same_send_side(old(kcp)),
        final(kcp).same_recv_side(old(kcp)),
        final(kcp).same_timing(old(kcp)),
        final(kcp).output == old(kcp).output,
{
    if sndwnd > 0 {
        kcp.snd_wnd = sndwnd as u32;
    }
    if rcvwnd > 0 {
        kcp.rcv_wnd = if rcvwnd as u32 >= IKCP_WND_RCV {
            rcvwnd as u32
        } else {
            IKCP_WND_RCV
        };
    }
    0
}

/// The number of segments waiting to be sent or acknowledged, modulo 2^32.
pub fn ikcp_waitsnd(kcp: &IKCPCB) -> (r: u32)
    ensures
        r == kcp.spec_waitsnd(),
{
    let a = (kcp.snd_buf.len() as u64 % 0x1_0000_0000) as u32;
    let b = (kcp.snd_queue.len() as u64 % 0x1_0000_0000) as u32;
    proof {
        vstd::arithmetic::div_mod::lemma_add_mod_noop(
            kcp.snd_buf@.len() as int,
            kcp.snd_queue@.len() as int,
            0x1_0000_0000,
        );
    }
    a.wrapping_add(b)
}

} // verus!
