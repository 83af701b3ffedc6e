//! Byte-stream reads over whole messages: a reader that asks for fewer
//! bytes than a message holds gets the rest on its next reads.

use vstd::prelude::*;
use super::error::KcpTokioError;
use super::session::{lift, timed_out, KcpSession, SessionState};
use crate::kcp_core::kcp::{consumed, recv_status};
use crate::kcp_core::KcpError;
use crate::sys::chain_bytes;

verus! {

/// The smaller of `a` and `b`.
pub open spec fn min_of(a: int, b: int) -> int {
    if a < b {
        a
    } else {
        b
    }
}

/// What one read of a byte stream gets.
pub enum ReadStep {
    /// Bytes for the reader (none when it had no room).
    Data(Vec<u8>),
    /// Nothing yet: wait for the next datagram.
    Pending,
    /// The session is closed: end of stream.
    End,
    /// The read failed.
    Failed(KcpTokioError),
}

/// The part of the last message that a reader has not taken yet, in a
/// buffer of fixed capacity (the largest message it can take).
pub struct ReadBuffer {
    buf: Vec<u8>,
    pos: usize,
    len: usize,
}

impl View for ReadBuffer {
    type V = Seq<u8>;

    /// The bytes not taken yet.
    closed spec fn view(&self) -> Seq<u8> {
        self.buf@.subrange(self.pos as int, self.len as int)
    }
}

impl ReadBuffer {
    #[verifier::type_invariant]
    spec fn inv(self) -> bool {
        self.pos <= self.len <= self.buf@.len()
    }

    /// The size of the largest message a fill can take.
    pub closed spec fn capacity(&self) -> nat {
        self.buf@.len()
    }

    /// An empty buffer that takes messages of up to `size` bytes.
    pub fn new(size: usize) -> (r: ReadBuffer)
        ensures
            r@.len() == 0,
            r.capacity() == size,
    {
        let mut buf: Vec<u8> = Vec::new();
        while buf.len() < size
            invariant
                buf@.len() <= size,
            decreases size - buf@.len(),
        {
            buf.push(0u8);
        }
        ReadBuffer { buf, pos: 0, len: 0 }
    }

    /// Whether bytes of the last message are left.
    pub fn has_pending(&self) -> (r: bool)
        ensures
            r == (self@.len() > 0),
    {
        proof {
            use_type_invariant(self);
        }
        self.pos < self.len
    }

    /// Hands out as many of the bytes left as fit in `room`, in order.
    pub fn take_pending(&mut self, room: usize) -> (out: Vec<u8>)
        ensures
            out@.len() == min_of(old(self)@.len() as int, room as int),
            out@ + final(self)@ == old(self)@,
            final(self).capacity() == old(self).capacity(),
    {
        proof {
            use_type_invariant(&*self);
        }
        let avail = self.len - self.pos;
        let n = if avail < room {
            avail
        } else {
            room
        };
        let mut out: Vec<u8> = Vec::new();
        let mut i: usize = 0;
        while i < n
            invariant
                self.pos + n <= self.len <= self.buf@.len(),
                i <= n,
                out@ == self.buf@.subrange(self.pos as int, self.pos + i),
            decreases n - i,
        {
            out.push(self.buf[self.pos + i]);
            i = i + 1;
            assert(out@ =~= self.buf@.subrange(self.pos as int, self.pos + i));
        }
        let ghost b = self.buf@;
        let ghost p0 = self.pos;
        self.pos = self.pos + n;
        assert(out@ + self@ =~= b.subrange(p0 as int, self.len as int));
        out
    }

    /// Reads the session's next message into the buffer, hands out as
    /// much of it as fits in `room` and keeps the rest; what was left of
    /// the last message is dropped. Fails as [`KcpSession::try_recv`]
    /// does, leaving the buffer empty.
    pub fn fill(&mut self, session: &mut KcpSession, room: usize) -> (r: Result<
        Vec<u8>,
        KcpTokioError,
    >)
        ensures
            final(self).capacity() == old(self).capacity(),
            old(session)@.closed ==> r matches Err(KcpTokioError::Closed),
            !old(session)@.closed ==> match lift(
                recv_status(old(session)@.kcp.rcv_queue@, old(self).capacity() as usize),
            ) {
                Ok(n) => r matches Ok(out) && out@.len() == min_of(n as int, room as int) && out@
                    + final(self)@ == chain_bytes(old(session)@.kcp.rcv_queue@),
                Err(e) => r == Err::<Vec<u8>, KcpTokioError>(e),
            },
            r is Err ==> final(session)@ == old(session)@ && final(self)@.len() == 0,
            r is Ok ==> consumed(&old(session)@.kcp, &final(session)@.kcp),
            final(session)@.remote == old(session)@.remote,
            final(session)@.config == old(session)@.config,
            final(session)@.last_recv_ns == old(session)@.last_recv_ns,
            final(session)@.closed == old(session)@.closed,
    {
        proof {
            use_type_invariant(&*self);
        }
        self.pos = 0;
        self.len = 0;
        let mut buf: Vec<u8> = Vec::new();
        std::mem::swap(&mut buf, &mut self.buf);
        let ghost s0 = session@;
        let r = session.try_recv(buf.as_mut_slice());
        std::mem::swap(&mut buf, &mut self.buf);
        match r {
            Ok(n) => {
                proof {
                    assert(self.buf@.take(n as int) =~= self.buf@.subrange(0, n as int));
                }
                self.len = n;
                let out = self.take_pending(room);
                Ok(out)
            },
            Err(e) => {
                assert(session@ == s0);
                Err(e)
            },
        }
    }

    /// One read of at most `room` bytes at time `now_ns`: what is left of
    /// the last message first; else the session's next message; else why
    /// nothing came (`End` when the session is closed; when no whole
    /// message is queued, `Failed(Timeout)`, closing the session, once
    /// nothing has arrived for longer than the timeout, `Pending`
    /// otherwise).
    pub fn read_step(&mut self, session: &mut KcpSession, room: usize, now_ns: u128) -> (r: ReadStep)
        ensures
            final(self).capacity() == old(self).capacity(),
            old(self)@.len() > 0 ==> {
                &&& r matches ReadStep::Data(out) && out@ + final(self)@ == old(self)@ && out@.len()
                    == min_of(old(self)@.len() as int, room as int)
                &&& final(session)@ == old(session)@
            },
            old(self)@.len() == 0 && old(session)@.closed ==> r is End && final(session)@ == old(
                session,
            )@,
            old(self)@.len() == 0 && !old(session)@.closed ==> match recv_status(
                old(session)@.kcp.rcv_queue@,
                old(self).capacity() as usize,
            ) {
                Ok(n) => {
                    &&& r matches ReadStep::Data(out) && out@.len() == min_of(n as int, room as int)
                        && out@ + final(self)@ == chain_bytes(old(session)@.kcp.rcv_queue@)
                    &&& consumed(&old(session)@.kcp, &final(session)@.kcp)
                    &&& !final(session)@.closed
                },
                Err(KcpError::RecvWouldBlock) => if timed_out(old(session)@, now_ns) {
                    &&& r == ReadStep::Failed(KcpTokioError::Timeout)
                    &&& final(session)@ == (SessionState { closed: true, ..old(session)@ })
                } else {
                    r is Pending && final(session)@ == old(session)@
                },
                Err(e) => r == ReadStep::Failed(KcpTokioError::Kcp(e)) && final(session)@ == old(
                    session,
                )@,
            },
            final(session)@.remote == old(session)@.remote,
            final(session)@.config == old(session)@.config,
            final(session)@.last_recv_ns == old(session)@.last_recv_ns,
    {
        if self.has_pending() {
            return ReadStep::Data(self.take_pending(room));
        }
        match self.fill(session, room) {
            Ok(out) => ReadStep::Data(out),
            Err(KcpTokioError::Kcp(KcpError::RecvWouldBlock)) => {
                if session.is_timed_out(now_ns) {
                    session.close();
                    ReadStep::Failed(KcpTokioError::Timeout)
                } else {
                    ReadStep::Pending
                }
            },
            Err(KcpTokioError::Closed) => ReadStep::End,
            Err(e) => ReadStep::Failed(e),
        }
    }
}

} // verus!
