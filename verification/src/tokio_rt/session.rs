//! One KCP connection over a datagram transport: what it decides when
//! data is sent, when a datagram arrives, when a reader asks for a
//! message and when time passes.
//!
//! The transport keeps the socket and the clock: it hands each received
//! datagram to [`KcpSession::input`], sends what
//! [`KcpSession::take_output`] gives, and passes the nanoseconds elapsed
//! since the session was created wherever a time is asked for.

use vstd::prelude::*;
use super::addr::PeerAddr;
use super::config::KcpSessionConfig;
use super::error::{KcpTokioError, KcpTokioResult};
use crate::kcp_core::kcp::{
    config_applied, consumed, flush_effect, fresh, input_status, peek_status, recv_status,
    send_answer, queued, update_effect,
};
use crate::kcp_core::{Kcp, KcpError, KcpResult};
use crate::sys::acks::{flight_after, send_side};
use crate::sys::deliver::{recv_after, recv_side};
use crate::sys::input::input_effect;
use crate::sys::flush::flushed;
use crate::sys::{chain_bytes, IKCPCB};

verus! {

/// What the contracts of a [`KcpSession`] speak of.
pub struct SessionState {
    /// The protocol state.
    pub kcp: IKCPCB,
    /// The peer.
    pub remote: PeerAddr,
    /// The settings it was made with.
    pub config: KcpSessionConfig,
    /// When a datagram last arrived (ns since creation).
    pub last_recv_ns: u128,
    /// Whether the session was closed.
    pub closed: bool,
}

/// An engine result as a session result.
pub open spec fn lift<T>(r: KcpResult<T>) -> KcpTokioResult<T> {
    match r {
        Ok(v) => Ok(v),
        Err(e) => Err(KcpTokioError::Kcp(e)),
    }
}

/// The protocol's clock at time `now_ns` (nanoseconds since the session was
/// created): whole milliseconds, modulo 2^32.
pub open spec fn clock_ms(now_ns: u128) -> u32 {
    ((now_ns / 1_000_000) % 0x1_0000_0000) as u32
}

/// Whether a session in state `s` has heard nothing for longer than its
/// timeout at time `now_ns`.
pub open spec fn timed_out(s: SessionState, now_ns: u128) -> bool {
    match s.config.timeout {
        Some(t) => now_ns - s.last_recv_ns > t,
        None => false,
    }
}

/// `post` is `pre` after a timer tick at `now_ns` (see
/// [`KcpSession::update`]): the protocol is driven at [`clock_ms`] of
/// `now_ns`, and nothing else of the session changes.
pub open spec fn ticked(pre: SessionState, now_ns: u128, post: SessionState) -> bool {
    &&& post.remote == pre.remote
    &&& post.config == pre.config
    &&& post.last_recv_ns == pre.last_recv_ns
    &&& post.closed == pre.closed
    &&& post.kcp.same_config(&pre.kcp)
    &&& post.kcp.current == clock_ms(now_ns)
    &&& post.kcp.updated == 1
    &&& update_effect(&pre.kcp, clock_ms(now_ns), &post.kcp)
}

/// `post` is `pre` after a datagram `data` from `from` arrived at `now_ns`
/// (see [`KcpSession::on_datagram`]): from the peer, it is fed into the
/// protocol, counts as hearing from the peer, and the protocol is then
/// driven; from anyone else, it is a timer tick.
pub open spec fn datagram_effect(
    pre: SessionState,
    from: PeerAddr,
    data: Seq<u8>,
    now_ns: u128,
    post: SessionState,
) -> bool {
    if from == pre.remote {
        &&& post.remote == pre.remote
        &&& post.config == pre.config
        &&& post.last_recv_ns == now_ns
        &&& post.closed == pre.closed
        &&& post.kcp.same_config(&pre.kcp)
        &&& post.kcp.current == clock_ms(now_ns)
        &&& post.kcp.updated == 1
        &&& exists|mid: IKCPCB|
            #[trigger] input_effect(&pre.kcp, data, &mid) && update_effect(
                &mid,
                clock_ms(now_ns),
                &post.kcp,
            )
    } else {
        ticked(pre, now_ns, post)
    }
}

/// A datagram from anyone but the peer acts as a timer tick: none of its
/// bytes reach the protocol, and it does not count as hearing from the
/// peer, so whether the session has timed out is, at every time, what it
/// was before the datagram came.
pub proof fn law_stranger_datagram_is_tick(
    pre: SessionState,
    from: PeerAddr,
    data: Seq<u8>,
    now_ns: u128,
    post: SessionState,
)
    requires
        from != pre.remote,
        datagram_effect(pre, from, data, now_ns, post),
    ensures
        ticked(pre, now_ns, post),
        forall|t: u128| timed_out(post, t) == timed_out(pre, t),
{
}

/// A KCP connection with one peer.
pub struct KcpSession {
    kcp: Kcp,
    remote: PeerAddr,
    config: KcpSessionConfig,
    last_recv_ns: u128,
    closed: bool,
}

impl View for KcpSession {
    type V = SessionState;

    closed spec fn view(&self) -> SessionState {
        SessionState {
            kcp: self.kcp@,
            remote: self.remote,
            config: self.config,
            last_recv_ns: self.last_recv_ns,
            closed: self.closed,
        }
    }
}

impl KcpSession {
    /// Creates a session with `remote` on conversation `conv`, configured
    /// by `config`; its clock starts at 0. Fails when the protocol refuses
    /// the configured MTU.
    pub fn new(conv: u32, remote: PeerAddr, config: KcpSessionConfig) -> (r: KcpTokioResult<
        KcpSession,
    >)
        ensures
            r is Ok <==> 50 <= config.kcp_config.mtu <= 0x7fff_ffff,
            r matches Ok(s) ==> {
                &&& s@.kcp.conv == conv
                &&& s@.kcp.wf()
                &&& s@.kcp.output.is_some()
                &&& s@.kcp.mtu == config.kcp_config.mtu
                &&& s@.remote == remote
                &&& s@.config == config
                &&& s@.last_recv_ns == 0
                &&& !s@.closed
                &&& exists|pre: IKCPCB|
                    fresh(&pre, conv) && config_applied(&pre, &config.kcp_config, &s@.kcp)
            },
            r matches Err(e) ==> (e matches KcpTokioError::Kcp(
                KcpError::SetMtuFailed { mtu, code },
            ) && mtu == config.kcp_config.mtu && code == -1),
    {
        match Kcp::with_config(conv, &config.kcp_config) {
            Ok(kcp) => Ok(KcpSession { kcp, remote, config, last_recv_ns: 0, closed: false }),
            Err(e) => Err(KcpTokioError::Kcp(e)),
        }
    }

    /// Queues `data` for sending (see [`Kcp::send`]) and, when the
    /// configuration asks for it, flushes at once. A closed session refuses
    /// with `Closed`; a message the protocol refuses fails with its code,
    /// unflushed.
    pub fn send(&mut self, data: &[u8]) -> (r: KcpTokioResult<usize>)
        ensures
            final(self)@.remote == old(self)@.remote,
            final(self)@.config == old(self)@.config,
            final(self)@.last_recv_ns == old(self)@.last_recv_ns,
            final(self)@.closed == old(self)@.closed,
            old(self)@.closed ==> (r matches Err(KcpTokioError::Closed) && final(self)@.kcp == old(
                self,
            )@.kcp),
            !old(self)@.closed ==> {
                let ans = send_answer(&old(self)@.kcp, data@);
                &&& r == lift(ans)
                &&& (ans is Ok && old(self)@.config.flush_write) ==> exists|mid: IKCPCB|
                    queued(&old(self)@.kcp, data@, &mid) && flush_effect(&mid, &final(self)@.kcp)
                &&& !(ans is Ok && old(self)@.config.flush_write) ==> queued(
                    &old(self)@.kcp,
                    data@,
                    &final(self)@.kcp,
                )
            },
    {
        if self.closed {
            return Err(KcpTokioError::Closed);
        }
        let ghost k0 = self.kcp@;
        match self.kcp.send(data) {
            Ok(n) => {
                let ghost mid = self.kcp@;
                if self.config.flush_write {
                    self.kcp.flush();
                    assert(queued(&k0, data@, &mid) && flush_effect(&mid, &self.kcp@));
                }
                Ok(n)
            },
            Err(e) => Err(KcpTokioError::Kcp(e)),
        }
    }

    /// Reads the next message into `buf` without waiting (see
    /// [`Kcp::recv`]); a closed session refuses with `Closed`.
    pub fn try_recv(&mut self, buf: &mut [u8]) -> (r: KcpTokioResult<usize>)
        ensures
            final(self)@.remote == old(self)@.remote,
            final(self)@.config == old(self)@.config,
            final(self)@.last_recv_ns == old(self)@.last_recv_ns,
            final(self)@.closed == old(self)@.closed,
            final(buf)@.len() == old(buf)@.len(),
            old(self)@.closed ==> r matches Err(KcpTokioError::Closed),
            !old(self)@.closed ==> r == lift(
                recv_status(old(self)@.kcp.rcv_queue@, old(buf)@.len() as usize),
            ),
            r is Err ==> final(self)@.kcp == old(self)@.kcp && final(buf)@ == old(buf)@,
            r matches Ok(n) ==> {
                &&& final(buf)@.take(n as int) == chain_bytes(old(self)@.kcp.rcv_queue@)
                &&& final(buf)@.skip(n as int) == old(buf)@.skip(n as int)
                &&& consumed(&old(self)@.kcp, &final(self)@.kcp)
            },
    {
        if self.closed {
            return Err(KcpTokioError::Closed);
        }
        let ghost b0 = buf@;
        match self.kcp.recv(buf) {
            Ok(n) => {
                assert(buf@.take(n as int) =~= buf@.subrange(0, n as int));
                assert(buf@.skip(n as int) =~= buf@.subrange(n as int, b0.len() as int));
                assert(b0.skip(n as int) =~= b0.subrange(n as int, b0.len() as int));
                Ok(n)
            },
            Err(e) => Err(KcpTokioError::Kcp(e)),
        }
    }

    /// Reads the next message into a vector sized to it, without waiting;
    /// a closed session refuses with `Closed`, and when no whole message
    /// is queued it fails with `RecvWouldBlock`.
    pub fn try_recv_auto(&mut self) -> (r: KcpTokioResult<Vec<u8>>)
        ensures
            final(self)@.remote == old(self)@.remote,
            final(self)@.config == old(self)@.config,
            final(self)@.last_recv_ns == old(self)@.last_recv_ns,
            final(self)@.closed == old(self)@.closed,
            old(self)@.closed ==> r matches Err(KcpTokioError::Closed),
            !old(self)@.closed ==> match peek_status(old(self)@.kcp.rcv_queue@) {
                Ok(_) => r matches Ok(v) && v@ == chain_bytes(old(self)@.kcp.rcv_queue@),
                Err(e) => r == Err::<Vec<u8>, KcpTokioError>(KcpTokioError::Kcp(e)),
            },
            r is Err ==> final(self)@.kcp == old(self)@.kcp,
            r is Ok ==> consumed(&old(self)@.kcp, &final(self)@.kcp),
    {
        if self.closed {
            return Err(KcpTokioError::Closed);
        }
        let n = match self.kcp.peeksize() {
            Ok(n) => n,
            Err(e) => {
                return Err(KcpTokioError::Kcp(e));
            },
        };
        let mut v: Vec<u8> = Vec::new();
        while v.len() < n
            invariant
                v@.len() <= n,
            decreases n - v@.len(),
        {
            v.push(0u8);
        }
        match self.kcp.recv(v.as_mut_slice()) {
            Ok(m) => {
                assert(v@.subrange(0, m as int) =~= v@);
                Ok(v)
            },
            Err(e) => Err(KcpTokioError::Kcp(e)),
        }
    }

    /// Feeds a datagram from the peer into the protocol at time `now_ns`,
    /// which becomes the time of the last arrival whatever the protocol
    /// makes of the datagram.
    pub fn input(&mut self, data: &[u8], now_ns: u128) -> (r: KcpTokioResult<()>)
        ensures
            final(self)@.remote == old(self)@.remote,
            final(self)@.config == old(self)@.config,
            final(self)@.last_recv_ns == now_ns,
            final(self)@.closed == old(self)@.closed,
            r == lift(input_status(data@, old(self)@.kcp.conv)),
            final(self)@.kcp.same_config(&old(self)@.kcp),
            final(self)@.kcp.output == old(self)@.kcp.output,
            data@.len() < 24 ==> final(self)@.kcp == old(self)@.kcp,
            recv_side(&final(self)@.kcp) == recv_after(
                recv_side(&old(self)@.kcp),
                data@,
                old(self)@.kcp.conv,
                old(self)@.kcp.rcv_wnd,
            ),
            send_side(&final(self)@.kcp) == flight_after(
                send_side(&old(self)@.kcp),
                data@,
                old(self)@.kcp.conv,
                old(self)@.kcp.snd_nxt,
            ),
            input_effect(&old(self)@.kcp, data@, &final(self)@.kcp),
    {
        self.last_recv_ns = now_ns;
        match self.kcp.input(data) {
            Ok(()) => Ok(()),
            Err(e) => Err(KcpTokioError::Kcp(e)),
        }
    }

    /// Drives the protocol at time `now_ns` (retransmissions, window
    /// probes, flushing); the protocol's clock is [`clock_ms`].
    pub fn update(&mut self, now_ns: u128)
        ensures
            ticked(old(self)@, now_ns, final(self)@),
            final(self)@.kcp.output.unwrap()@.len() >= old(self)@.kcp.output.unwrap()@.len(),
            final(self)@.kcp.output.unwrap()@.take(old(self)@.kcp.output.unwrap()@.len() as int)
                == old(self)@.kcp.output.unwrap()@,
    {
        let ms: u128 = now_ns / 1_000_000;
        let t: u32 = #[verifier::truncate] (ms as u32);
        assert(t as u128 == ms % 0x1_0000_0000) by (bit_vector)
            requires
                t == #[verifier::truncate] (ms as u32),
        ;
        self.kcp.update(t);
    }

    /// Sends at once what is due: drives the protocol at time `now_ns`
    /// (see [`update`](Self::update)), then flushes whether or not the
    /// flush deadline has come, so that every queued segment the windows
    /// allow goes out now.
    pub fn flush(&mut self, now_ns: u128)
        ensures
            final(self)@.remote == old(self)@.remote,
            final(self)@.config == old(self)@.config,
            final(self)@.last_recv_ns == old(self)@.last_recv_ns,
            final(self)@.closed == old(self)@.closed,
            final(self)@.kcp.same_config(&old(self)@.kcp),
            exists|mid: IKCPCB|
                #[trigger] update_effect(&old(self)@.kcp, clock_ms(now_ns), &mid)
                    && flushed(&mid, &final(self)@.kcp),
    {
        self.update(now_ns);
        let ghost mid = self@.kcp;
        self.kcp.flush();
        proof {
            assert(update_effect(&old(self)@.kcp, clock_ms(now_ns), &mid));
        }
    }

    /// Whether nothing has arrived for longer than the configured timeout
    /// at time `now_ns`; never, without a timeout.
    pub fn is_timed_out(&self, now_ns: u128) -> (r: bool)
        ensures
            r == timed_out(self@, now_ns),
    {
        match self.config.timeout {
            Some(t) => now_ns > self.last_recv_ns && now_ns - self.last_recv_ns > t,
            None => false,
        }
    }

    /// Whether the session was closed.
    pub fn is_closed(&self) -> (r: bool)
        ensures
            r == self@.closed,
    {
        self.closed
    }

    /// Closes the session: every later send and read fails with `Closed`.
    pub fn close(&mut self)
        ensures
            final(self)@ == (SessionState { closed: true, ..old(self)@ }),
    {
        self.closed = true;
    }

    /// The conversation id.
    pub fn conv(&self) -> (c: u32)
        ensures
            c == self@.kcp.conv,
    {
        self.kcp.conv()
    }

    /// The peer's address.
    pub fn remote_addr(&self) -> (a: PeerAddr)
        ensures
            a == self@.remote,
    {
        self.remote
    }

    /// The number of segments waiting to be sent or acknowledged.
    pub fn waitsnd(&self) -> (r: u32)
        ensures
            r == self@.kcp.spec_waitsnd(),
    {
        self.kcp.waitsnd()
    }

    /// The session's settings.
    pub fn config(&self) -> (c: &KcpSessionConfig)
        ensures
            *c == self@.config,
    {
        &self.config
    }

    /// The datagrams to send to the peer, in order; none are left.
    pub fn take_output(&mut self) -> (out: Vec<Vec<u8>>)
        ensures
            out@ == old(self)@.kcp.output.unwrap()@,
            final(self)@.kcp.output.unwrap()@.len() == 0,
            final(self)@.kcp.same_config(&old(self)@.kcp),
            final(self)@.kcp.same_send_side(&old(self)@.kcp),
            final(self)@.kcp.same_recv_side(&old(self)@.kcp),
            final(self)@.kcp.same_timing(&old(self)@.kcp),
            final(self)@.remote == old(self)@.remote,
            final(self)@.config == old(self)@.config,
            final(self)@.last_recv_ns == old(self)@.last_recv_ns,
            final(self)@.closed == old(self)@.closed,
    {
        self.kcp.take_output()
    }

    /// A datagram from `from` arrived at `now_ns`: it is fed into the
    /// protocol only when it comes from the peer (others do not count as
    /// arrivals), and the protocol is then driven at `now_ns`. Returns
    /// whether the datagram was taken.
    pub fn on_datagram(&mut self, from: PeerAddr, data: &[u8], now_ns: u128) -> (taken: bool)
        ensures
            taken == (from == old(self)@.remote),
            datagram_effect(old(self)@, from, data@, now_ns, final(self)@),
    {
        let taken = from == self.remote;
        if taken {
            let _ = self.input(data, now_ns);
        }
        let ghost mid = self@.kcp;
        self.update(now_ns);
        proof {
            if taken {
                assert(input_effect(&old(self)@.kcp, data@, &mid));
            }
        }
        taken
    }

    /// One turn of a waiting read into `buf` at time `now_ns`: the read's
    /// result when there is one (a message, or a failure), or `None` when
    /// the reader should wait for the next datagram or tick. A session
    /// that has heard nothing for longer than its timeout closes and
    /// answers `Timeout`.
    pub fn recv_step(&mut self, buf: &mut [u8], now_ns: u128) -> (r: Option<KcpTokioResult<usize>>)
        ensures
            final(self)@.remote == old(self)@.remote,
            final(self)@.config == old(self)@.config,
            final(self)@.last_recv_ns == old(self)@.last_recv_ns,
            final(buf)@.len() == old(buf)@.len(),
            old(self)@.closed ==> (r matches Some(Err(KcpTokioError::Closed)) && final(self)@
                == old(self)@),
            !old(self)@.closed ==> {
                let st = recv_status(old(self)@.kcp.rcv_queue@, old(buf)@.len() as usize);
                if st matches Err(KcpError::RecvWouldBlock) {
                    if timed_out(old(self)@, now_ns) {
                        &&& r matches Some(Err(KcpTokioError::Timeout))
                        &&& final(self)@ == (SessionState { closed: true, ..old(self)@ })
                    } else {
                        &&& r is None
                        &&& final(self)@ == old(self)@
                    }
                } else {
                    &&& r == Some(lift(st))
                    &&& !final(self)@.closed
                }
            },
            !(r matches Some(Ok(_))) ==> final(buf)@ == old(buf)@ && final(self)@.kcp == old(
                self,
            )@.kcp,
            r matches Some(Ok(n)) ==> {
                &&& final(buf)@.take(n as int) == chain_bytes(old(self)@.kcp.rcv_queue@)
                &&& final(buf)@.skip(n as int) == old(buf)@.skip(n as int)
                &&& consumed(&old(self)@.kcp, &final(self)@.kcp)
            },
    {
        match self.try_recv(buf) {
            Err(KcpTokioError::Kcp(KcpError::RecvWouldBlock)) => {},
            other => {
                return Some(other);
            },
        }
        if self.is_timed_out(now_ns) {
            self.closed = true;
            return Some(Err(KcpTokioError::Timeout));
        }
        None
    }

    /// [`recv_step`](Self::recv_step) with a vector sized to the message:
    /// the message, a failure, or `None` to wait.
    pub fn recv_auto_step(&mut self, now_ns: u128) -> (r: Option<KcpTokioResult<Vec<u8>>>)
        ensures
            final(self)@.remote == old(self)@.remote,
            final(self)@.config == old(self)@.config,
            final(self)@.last_recv_ns == old(self)@.last_recv_ns,
            old(self)@.closed ==> (r matches Some(Err(KcpTokioError::Closed)) && final(self)@
                == old(self)@),
            !old(self)@.closed ==> match peek_status(old(self)@.kcp.rcv_queue@) {
                Ok(_) => {
                    &&& r matches Some(Ok(v)) && v@ == chain_bytes(old(self)@.kcp.rcv_queue@)
                    &&& consumed(&old(self)@.kcp, &final(self)@.kcp)
                    &&& !final(self)@.closed
                },
                Err(_) => if timed_out(old(self)@, now_ns) {
                    &&& r matches Some(Err(KcpTokioError::Timeout))
                    &&& final(self)@ == (SessionState { closed: true, ..old(self)@ })
                } else {
                    &&& r is None
                    &&& final(self)@ == old(self)@
                },
            },
    {
        match self.try_recv_auto() {
            Err(KcpTokioError::Kcp(KcpError::RecvWouldBlock)) => {},
            other => {
                return Some(other);
            },
        }
        if self.is_timed_out(now_ns) {
            self.closed = true;
            return Some(Err(KcpTokioError::Timeout));
        }
        None
    }
}

} // verus!
