//! A KCP connection read and written as a stream of messages or bytes.

use vstd::prelude::*;
use super::addr::PeerAddr;
use super::error::{KcpTokioError, KcpTokioResult};
use super::read::{min_of, ReadBuffer, ReadStep};
use super::session::{clock_ms, datagram_effect, lift, ticked, timed_out, KcpSession, SessionState};
use crate::kcp_core::kcp::{
    consumed, flush_effect, peek_status, recv_status, send_answer, queued, update_effect,
};
use crate::sys::flush::flushed;
use crate::kcp_core::KcpError;
use crate::sys::{chain_bytes, IKCPCB};

verus! {

/// A session together with the rest of a partly read message.
pub struct KcpStream {
    session: KcpSession,
    reader: ReadBuffer,
}

impl KcpStream {
    /// The session's state.
    pub closed spec fn state(&self) -> SessionState {
        self.session@
    }

    /// The bytes of the last message not read yet.
    pub closed spec fn pending(&self) -> Seq<u8> {
        self.reader@
    }

    /// The largest message a byte-stream read takes.
    pub closed spec fn read_capacity(&self) -> nat {
        self.reader.capacity()
    }

    /// Wraps `session`, with room for messages of the configured receive
    /// buffer size.
    pub fn from_session(session: KcpSession) -> (r: KcpStream)
        ensures
            r.state() == session@,
            r.pending().len() == 0,
            r.read_capacity() == session@.config.recv_buf_size,
    {
        let size = session.config().recv_buf_size;
        KcpStream { session, reader: ReadBuffer::new(size) }
    }

    /// The conversation id.
    pub fn conv(&self) -> (c: u32)
        ensures
            c == self.state().kcp.conv,
    {
        self.session.conv()
    }

    /// The peer's address.
    pub fn remote_addr(&self) -> (a: PeerAddr)
        ensures
            a == self.state().remote,
    {
        self.session.remote_addr()
    }

    /// Sends `data` (see [`KcpSession::send`]).
    pub fn send_kcp(&mut self, data: &[u8]) -> (r: KcpTokioResult<usize>)
        ensures
            final(self).state().remote == old(self).state().remote,
            final(self).state().config == old(self).state().config,
            final(self).state().last_recv_ns == old(self).state().last_recv_ns,
            final(self).state().closed == old(self).state().closed,
            old(self).state().closed ==> (r matches Err(KcpTokioError::Closed) && final(self).state().kcp == old(self).state().kcp),
            !old(self).state().closed ==> {
                let ans = send_answer(&old(self).state().kcp, data@);
                &&& r == lift(ans)
                &&& (ans is Ok && old(self).state().config.flush_write) ==> exists|mid: IKCPCB|
                    queued(&old(self).state().kcp, data@, &mid) && flush_effect(&mid, &final(self).state().kcp)
                &&& !(ans is Ok && old(self).state().config.flush_write) ==> queued(
                    &old(self).state().kcp,
                    data@,
                    &final(self).state().kcp,
                )
            },
            final(self).pending() == old(self).pending(),
    {
        self.session.send(data)
    }

    /// Reads the next whole message, or `None` to wait (see
    /// [`KcpSession::recv_auto_step`]).
    pub fn recv_kcp_step(&mut self, now_ns: u128) -> (r: Option<KcpTokioResult<Vec<u8>>>)
        ensures
            final(self).state().remote == old(self).state().remote,
            final(self).state().config == old(self).state().config,
            final(self).state().last_recv_ns == old(self).state().last_recv_ns,
            old(self).state().closed ==> (r matches Some(Err(KcpTokioError::Closed)) && final(self).state()
                == old(self).state()),
            !old(self).state().closed ==> match peek_status(old(self).state().kcp.rcv_queue@) {
                Ok(_) => {
                    &&& r matches Some(Ok(v)) && v@ == chain_bytes(old(self).state().kcp.rcv_queue@)
                    &&& consumed(&old(self).state().kcp, &final(self).state().kcp)
                    &&& !final(self).state().closed
                },
                Err(_) => if timed_out(old(self).state(), now_ns) {
                    &&& r matches Some(Err(KcpTokioError::Timeout))
                    &&& final(self).state() == (SessionState { closed: true, ..old(self).state() })
                } else {
                    &&& r is None
                    &&& final(self).state() == old(self).state()
                },
            },
            final(self).pending() == old(self).pending(),
    {
        self.session.recv_auto_step(now_ns)
    }

    /// Reads the next whole message into `buf`, or `None` to wait (see
    /// [`KcpSession::recv_step`]).
    pub fn recv_kcp_buf_step(&mut self, buf: &mut [u8], now_ns: u128) -> (r: Option<
        KcpTokioResult<usize>,
    >)
        ensures
            final(self).state().remote == old(self).state().remote,
            final(self).state().config == old(self).state().config,
            final(self).state().last_recv_ns == old(self).state().last_recv_ns,
            final(buf)@.len() == old(buf)@.len(),
            old(self).state().closed ==> (r matches Some(Err(KcpTokioError::Closed)) && final(self).state()
                == old(self).state()),
            !old(self).state().closed ==> {
                let st = recv_status(old(self).state().kcp.rcv_queue@, old(buf)@.len() as usize);
                if st matches Err(KcpError::RecvWouldBlock) {
                    if timed_out(old(self).state(), now_ns) {
                        &&& r matches Some(Err(KcpTokioError::Timeout))
                        &&& final(self).state() == (SessionState { closed: true, ..old(self).state() })
                    } else {
                        &&& r is None
                        &&& final(self).state() == old(self).state()
                    }
                } else {
                    &&& r == Some(lift(st))
                    &&& !final(self).state().closed
                }
            },
            !(r matches Some(Ok(_))) ==> final(buf)@ == old(buf)@ && final(self).state().kcp == old(self).state().kcp,
            r matches Some(Ok(n)) ==> {
                &&& final(buf)@.take(n as int) == chain_bytes(old(self).state().kcp.rcv_queue@)
                &&& final(buf)@.skip(n as int) == old(buf)@.skip(n as int)
                &&& consumed(&old(self).state().kcp, &final(self).state().kcp)
            },
            final(self).pending() == old(self).pending(),
    {
        self.session.recv_step(buf, now_ns)
    }

    /// One byte-stream read of at most `room` bytes at time `now_ns` (see
    /// [`ReadBuffer::read_step`]).
    pub fn read_step(&mut self, room: usize, now_ns: u128) -> (r: ReadStep)
        ensures
            final(self).read_capacity() == old(self).read_capacity(),
            old(self).pending().len() > 0 ==> {
                &&& r matches ReadStep::Data(out) && out@ + final(self).pending() == old(self).pending()
                    && out@.len() == min_of(old(self).pending().len() as int, room as int)
                &&& final(self).state() == old(self).state()
            },
            old(self).pending().len() == 0 && old(self).state().closed ==> r is End
                && final(self).state() == old(self).state(),
            old(self).pending().len() == 0 && !old(self).state().closed ==> match recv_status(
                old(self).state().kcp.rcv_queue@,
                old(self).read_capacity() as usize,
            ) {
                Ok(n) => {
                    &&& r matches ReadStep::Data(out) && out@.len() == min_of(n as int, room as int)
                        && out@ + final(self).pending() == chain_bytes(old(self).state().kcp.rcv_queue@)
                    &&& consumed(&old(self).state().kcp, &final(self).state().kcp)
                    &&& !final(self).state().closed
                },
                Err(KcpError::RecvWouldBlock) => if timed_out(old(self).state(), now_ns) {
                    &&& r == ReadStep::Failed(KcpTokioError::Timeout)
                    &&& final(self).state() == (SessionState { closed: true, ..old(self).state() })
                } else {
                    r is Pending && final(self).state() == old(self).state()
                },
                Err(e) => r == ReadStep::Failed(KcpTokioError::Kcp(e)) && final(self).state() == old(
                    self,
                ).state(),
            },
            final(self).state().remote == old(self).state().remote,
            final(self).state().config == old(self).state().config,
            final(self).state().last_recv_ns == old(self).state().last_recv_ns,
    {
        self.reader.read_step(&mut self.session, room, now_ns)
    }

    /// A datagram from `from` arrived at `now_ns` (see
    /// [`KcpSession::on_datagram`]).
    pub fn on_datagram(&mut self, from: PeerAddr, data: &[u8], now_ns: u128) -> (taken: bool)
        ensures
            taken == (from == old(self).state().remote),
            datagram_effect(old(self).state(), from, data@, now_ns, final(self).state()),
            final(self).pending() == old(self).pending(),
    {
        self.session.on_datagram(from, data, now_ns)
    }

    /// Sends at once what is due (see [`KcpSession::flush`]).
    pub fn flush(&mut self, now_ns: u128)
        ensures
            final(self).state().remote == old(self).state().remote,
            final(self).state().config == old(self).state().config,
            final(self).state().last_recv_ns == old(self).state().last_recv_ns,
            final(self).state().closed == old(self).state().closed,
            final(self).state().kcp.same_config(&old(self).state().kcp),
            exists|mid: IKCPCB|
                #[trigger] update_effect(
                    &old(self).state().kcp,
                    clock_ms(now_ns),
                    &mid,
                ) && flushed(&mid, &final(self).state().kcp),
            final(self).pending() == old(self).pending(),
    {
        self.session.flush(now_ns)
    }

    /// Drives the protocol at `now_ns`, emitting what is due by the flush
    /// deadline (see [`KcpSession::update`]).
    pub fn update(&mut self, now_ns: u128)
        ensures
            ticked(old(self).state(), now_ns, final(self).state()),
            final(self).pending() == old(self).pending(),
    {
        self.session.update(now_ns)
    }

    /// Closes the stream: later sends and reads fail with `Closed`.
    pub fn close(&mut self)
        ensures
            final(self).state() == (SessionState { closed: true, ..old(self).state() }),
            final(self).pending() == old(self).pending(),
    {
        self.session.close()
    }

    /// Whether the stream was closed.
    pub fn is_closed(&self) -> (r: bool)
        ensures
            r == self.state().closed,
    {
        self.session.is_closed()
    }

    /// The datagrams to send to the peer, in order.
    pub fn take_output(&mut self) -> (out: Vec<Vec<u8>>)
        ensures
            out@ == old(self).state().kcp.output.unwrap()@,
            final(self).pending() == old(self).pending(),
    {
        self.session.take_output()
    }

    /// The session.
    pub fn session(&self) -> (s: &KcpSession)
        ensures
            s@ == self.state(),
    {
        &self.session
    }

    /// The session and the rest of a partly read message, apart.
    pub fn into_parts(self) -> (r: (KcpSession, ReadBuffer))
        ensures
            r.0@ == self.state(),
            r.1@ == self.pending(),
    {
        (self.session, self.reader)
    }
}

} // verus!
