//! The KCP control object.

use vstd::prelude::*;
use super::config::KcpConfig;
use super::error::{KcpError, KcpResult};
use crate::sys::codec::{ikcp_getconv, read_u32_le, input_code, well_formed_datagram};
use crate::sys::flush::{
    all_fit, all_well_formed, check_time, data_params, emitted, flushed, new_stream, send_window, ikcp_check, ikcp_flush, ikcp_update, next_flush, update_slap,
};
use crate::sys::acks::{flight_after, send_side};
use crate::sys::deliver::{recv_after, recv_side, RecvSide};
use crate::sys::transfer::{fed, law_message_delivered};
use crate::sys::input::{ikcp_input, input_effect};
use crate::sys::recv::{ikcp_peeksize, ikcp_recv, ready_count};
use crate::sys::send::{
    bytes_of, concat, datas, frag_count, frgs, ikcp_send, law_send_appends_bytes, merge_len,
    piece_frgs, pieces, send_outcome,
};
use crate::sys::{
    ikcp_create, ikcp_nodelay, ikcp_setmtu, ikcp_setoutput, ikcp_waitsnd, ikcp_wndsize,
    chain_bytes, chain_count, itimediff, peek_size, wrap_add, IKCPCB, IKCPSEG, IKCP_ASK_TELL, IKCP_MTU_DEF,
};

verus! {

/// What [`Kcp::recv`] reports for a receive queue `q` and a buffer of
/// `got` bytes: the size of the front message when it is whole and fits,
/// else why not.
pub open spec fn recv_status(q: Seq<IKCPSEG>, got: usize) -> KcpResult<usize> {
    let p = peek_size(q);
    if q.len() == 0 {
        Err(KcpError::RecvWouldBlock)
    } else if p < 0 {
        Err(KcpError::RecvBufferTooSmall { need: 0, got })
    } else if p > got {
        Err(
            KcpError::RecvBufferTooSmall {
                need: if p <= usize::MAX {
                    p as usize
                } else {
                    0
                },
                got,
            },
        )
    } else {
        Ok(p as usize)
    }
}

/// What [`Kcp::peeksize`] reports for a receive queue `q`.
pub open spec fn peek_status(q: Seq<IKCPSEG>) -> KcpResult<usize> {
    let p = peek_size(q);
    if 0 <= p <= usize::MAX {
        Ok(p as usize)
    } else {
        Err(KcpError::RecvWouldBlock)
    }
}

/// A control block as the protocol creates it for conversation `conv`,
/// with an empty outbox: MTU 1400, windows 32/128 and a peer window of
/// 128, 100 ms interval, normal mode, no fast resend (limit 5),
/// congestion control on with an empty window and a threshold of 2, a
/// 200 ms retransmission timeout and no round-trip sample, a dead link
/// after 20 transmissions, message mode, no probing, nothing queued,
/// never updated.
pub open spec fn fresh(k: &IKCPCB, conv: u32) -> bool {
    &&& k.conv == conv
    &&& k.mtu == IKCP_MTU_DEF
    &&& k.mss == IKCP_MTU_DEF - 24
    &&& k.snd_wnd == 32
    &&& k.rcv_wnd == 128
    &&& k.interval == 100
    &&& k.nodelay == 0
    &&& k.rx_minrto == 100
    &&& k.fastresend == 0
    &&& k.nocwnd == 0
    &&& k.stream == 0
    &&& k.snd_queue@.len() == 0
    &&& k.snd_buf@.len() == 0
    &&& k.rcv_queue@.len() == 0
    &&& k.rcv_buf@.len() == 0
    &&& k.acklist@.len() == 0
    &&& k.snd_una == 0
    &&& k.snd_nxt == 0
    &&& k.rcv_nxt == 0
    &&& k.current == 0
    &&& k.updated == 0
    &&& k.rmt_wnd == 128
    &&& k.cwnd == 0
    &&& k.incr == 0
    &&& k.ssthresh == 2
    &&& k.rx_rto == 200
    &&& k.rx_srtt == 0
    &&& k.rx_rttval == 0
    &&& k.ts_flush == 100
    &&& k.dead_link == 20
    &&& k.fastlimit == 5
    &&& k.probe == 0
    &&& k.ts_probe == 0
    &&& k.probe_wait == 0
    &&& k.xmit == 0
    &&& k.state == 0
    &&& k.output matches Some(o) && o@.len() == 0
}

/// Only the configuration of `post` may differ from `pre`: the
/// conversation, the queues, the clock and the outbox are as they were.
pub open spec fn same_state(post: &IKCPCB, pre: &IKCPCB) -> bool {
    &&& post.conv == pre.conv
    &&& post.same_send_side(pre)
    &&& post.same_recv_side(pre)
    &&& post.same_timing(pre)
    &&& post.output == pre.output
    &&& post.fastlimit == pre.fastlimit
    &&& post.dead_link == pre.dead_link
}

/// The nodelay settings of `cfg` applied to `pre` (see
/// [`Kcp::set_nodelay`]).
pub open spec fn nodelay_applied(pre: &IKCPCB, cfg: &KcpConfig, post: &IKCPCB) -> bool {
    &&& post.nodelay == (if cfg.nodelay {
        1u32
    } else {
        0u32
    })
    &&& post.rx_minrto == (if cfg.nodelay {
        30i32
    } else {
        100i32
    })
    &&& post.interval == (if cfg.interval <= 0x7fff_ffff {
        crate::sys::clamp_interval(cfg.interval as i32)
    } else {
        pre.interval
    })
    &&& post.fastresend == (if cfg.resend >= 0 {
        cfg.resend
    } else {
        pre.fastresend
    })
    &&& post.nocwnd == (if cfg.nc {
        1i32
    } else {
        0i32
    })
}

/// Every parameter of `cfg` applied to `pre` (see [`Kcp::apply_config`]):
/// a window of 0 or above `i32::MAX` is left as it was, and the receive
/// window is at least 128.
pub open spec fn config_applied(pre: &IKCPCB, cfg: &KcpConfig, post: &IKCPCB) -> bool {
    &&& nodelay_applied(pre, cfg, post)
    &&& post.mtu == cfg.mtu
    &&& post.mss == cfg.mtu - 24
    &&& post.snd_wnd == (if 0 < cfg.snd_wnd <= 0x7fff_ffff {
        cfg.snd_wnd
    } else {
        pre.snd_wnd
    })
    &&& post.rcv_wnd == (if 0 < cfg.rcv_wnd <= 0x7fff_ffff {
        if cfg.rcv_wnd >= 128 {
            cfg.rcv_wnd
        } else {
            128
        }
    } else {
        pre.rcv_wnd
    })
    &&& post.stream == (if cfg.stream_mode {
        1i32
    } else {
        0i32
    })
    &&& same_state(post, pre)
}

/// A stream-mode send of at most `mss` bytes is accepted whole.
proof fn lemma_stream_chunk_fits(q: Seq<IKCPSEG>, chunk: Seq<u8>, mss: int)
    requires
        0 < mss <= 0x7fff_ffff,
        chunk.len() <= mss,
    ensures
        send_outcome(q, chunk, mss, true).0 == chunk.len(),
        (send_outcome(q, chunk, mss, true).1, send_outcome(q, chunk, mss, true).2) == stream_step(
            datas(q),
            frgs(q),
            chunk,
            mss,
        ),
{
    if q.len() > 0 {
        assert(datas(q).last() == q.last().data@);
        assert(frgs(q).len() == q.len());
    }
    let len = chunk.len() as int;
    let ext = merge_len(q, len, mss, true);
    assert(0 <= ext <= len);
    let rest = chunk.skip(ext);
    assert(rest.len() == len - ext);
    assert(frag_count(rest.len() as int, mss) == 1);
}

/// What [`Kcp::send`] answers for `data` on `pre`: in stream mode always
/// `Ok` with its length; in message mode the same, unless the protocol
/// refuses the message (see [`send_code`]).
pub open spec fn send_answer(pre: &IKCPCB, data: Seq<u8>) -> KcpResult<usize> {
    if pre.stream != 0 || send_code(pre, data) >= 0 {
        Ok(data.len() as usize)
    } else {
        Err(KcpError::SendFailed(send_code(pre, data) as i32))
    }
}

/// `post` is `pre` after [`Kcp::send`] of `data`: in message mode as
/// [`sent`] says; in stream mode the bytes waiting in the send queue gain
/// exactly `data`, at their end, and nothing else changes.
pub open spec fn queued(pre: &IKCPCB, data: Seq<u8>, post: &IKCPCB) -> bool {
    if pre.stream == 0 {
        sent(pre, data, post)
    } else {
        let (ds, fs) = stream_sent(datas(pre.snd_queue@), frgs(pre.snd_queue@), data, pre.mss as int);
        &&& datas(post.snd_queue@) == ds
        &&& frgs(post.snd_queue@) == fs
        &&& concat(datas(post.snd_queue@)) == concat(datas(pre.snd_queue@)) + data
        &&& post.same_config(pre)
        &&& post.same_recv_side(pre)
        &&& post.same_timing(pre)
        &&& keeps_sending_state(post, pre)
        &&& post.output == pre.output
    }
}

/// Everything of the sending side but the send queue is as it was: the
/// segments in flight, the sequence numbers, the windows and the
/// congestion state.
pub open spec fn keeps_sending_state(post: &IKCPCB, pre: &IKCPCB) -> bool {
    &&& post.snd_buf@ == pre.snd_buf@
    &&& post.snd_una == pre.snd_una
    &&& post.snd_nxt == pre.snd_nxt
    &&& post.ssthresh == pre.ssthresh
    &&& post.cwnd == pre.cwnd
    &&& post.incr == pre.incr
    &&& post.rmt_wnd == pre.rmt_wnd
    &&& post.xmit == pre.xmit
    &&& post.state == pre.state
}

/// The payloads and fragment indexes of a stream-mode send queue (given as
/// `ds` and `fs`) after `chunk`, at most `mss` bytes, is queued: it first
/// tops up the last segment when that one is shorter than `mss`, and what
/// is left becomes new segments with fragment index 0.
pub open spec fn stream_step(ds: Seq<Seq<u8>>, fs: Seq<u32>, chunk: Seq<u8>, mss: int) -> (
    Seq<Seq<u8>>,
    Seq<u32>,
) {
    let merge = ds.len() > 0 && ds.last().len() < mss;
    let ext = if merge {
        if chunk.len() < mss - ds.last().len() {
            chunk.len() as int
        } else {
            mss - ds.last().len()
        }
    } else {
        0
    };
    let ds1 = if merge {
        ds.drop_last().push(ds.last() + chunk.take(ext))
    } else {
        ds
    };
    let fs1 = if merge {
        fs.drop_last().push(0u32)
    } else {
        fs
    };
    let rest = chunk.skip(ext);
    if rest.len() == 0 {
        (ds1, fs1)
    } else {
        (ds1 + pieces(rest, mss), fs1 + piece_frgs(frag_count(rest.len() as int, mss), true))
    }
}

/// The payloads and fragment indexes of a stream-mode send queue after
/// `data` is queued in chunks of `mss` bytes (see [`stream_step`]).
pub open spec fn stream_sent(ds: Seq<Seq<u8>>, fs: Seq<u32>, data: Seq<u8>, mss: int) -> (
    Seq<Seq<u8>>,
    Seq<u32>,
)
    decreases data.len(),
{
    if data.len() == 0 || mss <= 0 {
        (ds, fs)
    } else {
        let n = if data.len() < mss {
            data.len() as int
        } else {
            mss
        };
        let (ds1, fs1) = stream_step(ds, fs, data.take(n), mss);
        stream_sent(ds1, fs1, data.skip(n), mss)
    }
}

/// Queued in stream mode behind segments that are full, `d` takes as many
/// new segments as a message of its size would: none when it is empty.
proof fn lemma_stream_sent_count(ds: Seq<Seq<u8>>, fs: Seq<u32>, d: Seq<u8>, mss: int)
    requires
        0 < mss,
        ds.len() == 0 || ds.last().len() == mss,
    ensures
        d.len() == 0 ==> stream_sent(ds, fs, d, mss).0.len() == ds.len(),
        d.len() > 0 ==> stream_sent(ds, fs, d, mss).0.len() == ds.len() + frag_count(
            d.len() as int,
            mss,
        ),
    decreases d.len(),
{
    if d.len() > 0 {
        let n = if d.len() < mss {
            d.len() as int
        } else {
            mss
        };
        let chunk = d.take(n);
        assert(chunk.skip(0) =~= chunk);
        assert(pieces(chunk, mss) =~= seq![chunk]);
        let (ds1, fs1) = stream_step(ds, fs, chunk, mss);
        assert(ds1 =~= ds + seq![chunk]);
        assert(stream_sent(ds, fs, d, mss) == stream_sent(ds1, fs1, d.skip(n), mss));
        if d.len() > mss {
            lemma_stream_sent_count(ds1, fs1, d.skip(n), mss);
            crate::sys::send::lemma_pieces_len(d, mss);
            crate::sys::send::lemma_pieces_len(d.skip(mss), mss);
            assert(pieces(d, mss) == seq![d.take(mss)] + pieces(d.skip(mss), mss));
        } else {
            assert(d.skip(n).len() == 0);
            assert(stream_sent(ds1, fs1, d.skip(n), mss) == (ds1, fs1));
        }
    }
}

/// The code with which `ikcp_send` answers `data` on the control block
/// `pre` (negative: refused).
pub open spec fn send_code(pre: &IKCPCB, data: Seq<u8>) -> int {
    send_outcome(pre.snd_queue@, data, pre.mss as int, pre.stream != 0).0
}

/// `post` is `pre` after [`Kcp::send`] of `data`: the send queue holds the
/// payloads and fragment numbers that [`send_outcome`] gives, and nothing
/// else changed.
pub open spec fn sent(pre: &IKCPCB, data: Seq<u8>, post: &IKCPCB) -> bool {
    let (code, ds, fs) = send_outcome(pre.snd_queue@, data, pre.mss as int, pre.stream != 0);
    &&& datas(post.snd_queue@) == ds
    &&& frgs(post.snd_queue@) == fs
    &&& post.same_config(pre)
    &&& post.same_recv_side(pre)
    &&& post.same_timing(pre)
    &&& keeps_sending_state(post, pre)
    &&& post.output == pre.output
}

/// `post` is `pre` after [`Kcp::flush`]: unchanged before the first
/// update, else [`flushed`].
pub open spec fn flush_effect(pre: &IKCPCB, post: &IKCPCB) -> bool {
    &&& post.same_config(pre)
    &&& (pre.updated == 0 ==> post == pre)
    &&& (pre.updated != 0 ==> flushed(pre, post))
}

/// `post` is `pre` after a successful [`Kcp::recv`]: the front message
/// left the receive queue, the segments that became ready moved up from
/// the receive buffer, and a window announcement is asked for when the
/// queue was full and no longer is.
pub open spec fn consumed(pre: &IKCPCB, post: &IKCPCB) -> bool {
    let q = pre.rcv_queue@;
    let rest = q.skip(chain_count(q) as int);
    let k = ready_count(pre.rcv_buf@, pre.rcv_nxt, rest.len() as int, pre.rcv_wnd) as int;
    &&& post.rcv_queue@ == rest + pre.rcv_buf@.take(k)
    &&& post.rcv_buf@ == pre.rcv_buf@.skip(k)
    &&& post.rcv_nxt == wrap_add(pre.rcv_nxt, k)
    &&& post.probe == if q.len() >= pre.rcv_wnd && post.rcv_queue@.len() < pre.rcv_wnd {
        pre.probe | IKCP_ASK_TELL
    } else {
        pre.probe
    }
    &&& post.acklist@ == pre.acklist@
    &&& post.same_config(pre)
    &&& post.same_send_side(pre)
    &&& post.same_timing(pre)
    &&& post.output == pre.output
}

/// What [`Kcp::input`] reports for a datagram `data` on conversation
/// `conv`.
pub open spec fn input_status(data: Seq<u8>, conv: u32) -> KcpResult<()> {
    if data.len() < 24 {
        Err(KcpError::InputFailed(-1i32))
    } else if input_code(data, conv) == 0 {
        Ok(())
    } else {
        Err(KcpError::InputFailed(input_code(data, conv) as i32))
    }
}

/// `post` is `pre` after [`Kcp::update`] at `current`: the clock moves
/// to `current`, and when a flush is due (see [`update_slap`]) everything
/// due is emitted (see [`flushed`]) and the next flush is scheduled.
pub open spec fn update_effect(pre: &IKCPCB, current: u32, post: &IKCPCB) -> bool {
    let (ts, slap) = update_slap(pre, current);
    let mid = IKCPCB {
        current,
        updated: 1,
        ts_flush: next_flush(ts, current, pre.interval),
        ..*pre
    };
    &&& slap < 0 ==> *post == IKCPCB { current, updated: 1, ts_flush: ts, ..*pre }
    &&& slap >= 0 ==> flushed(&mid, post)
    &&& slap >= 0 ==> post.ts_flush == next_flush(ts, current, pre.interval)
}

/// The first update of a control block without congestion control,
/// with nothing in flight, something queued and room in both windows,
/// sends at least one datagram.
pub proof fn law_first_update_sends(pre: &IKCPCB, current: u32, post: &IKCPCB)
    requires
        pre.wf(),
        pre.output.is_some(),
        update_effect(pre, current, post),
        pre.updated == 0,
        pre.nocwnd != 0,
        pre.snd_queue@.len() > 0,
        pre.snd_buf@.len() == 0,
        pre.snd_una == pre.snd_nxt,
        0 < pre.snd_wnd < 0x8000_0000,
        0 < pre.rmt_wnd < 0x8000_0000,
    ensures
        post.output.unwrap()@.len() > pre.output.unwrap()@.len(),
{
    let (ts, slap) = update_slap(pre, current);
    let mid = IKCPCB {
        current,
        updated: 1,
        ts_flush: next_flush(ts, current, pre.interval),
        ..*pre
    };
    assert(slap == 0);
    assert(flushed(&mid, post));
    let q = mid.snd_queue@;
    let m = q.len() - post.snd_queue@.len();
    let sw = send_window(&mid);
    assert(0 < sw < 0x8000_0000);
    if m == 0 {
        let lim = wrap_add(mid.snd_una, sw as int);
        assert(wrap_add(mid.snd_nxt, 0) == mid.snd_nxt);
        assert(itimediff(mid.snd_nxt, lim) == 0 - sw);
        assert(false);
    }
    let out0 = pre.output.unwrap()@;
    let out = post.output.unwrap()@;
    let dp = data_params(&mid);
    let ns = new_stream(q.take(m), mid.snd_nxt, dp);
    assert(q.take(m).len() > 0);
    assert(ns.len() > 0);
    if out.len() == out0.len() {
        assert(emitted(out, out0.len() as int) =~= Seq::<u8>::empty()) by {
            assert(Seq::new(0, |i: int| out[out0.len() + i]@) =~= Seq::<Seq<u8>>::empty());
        }
    }
}

/// A message sent on a control block made by [`Kcp::with_config`] with
/// congestion control off goes out on its first update: the update emits
/// at least one datagram.
pub proof fn law_configured_send_goes_out(
    pre: IKCPCB,
    conv: u32,
    cfg: KcpConfig,
    k1: IKCPCB,
    data: Seq<u8>,
    k2: IKCPCB,
    current: u32,
    k3: IKCPCB,
)
    requires
        fresh(&pre, conv),
        config_applied(&pre, &cfg, &k1),
        k1.wf(),
        k1.output.is_some(),
        cfg.nc,
        !cfg.stream_mode,
        send_code(&k1, data) >= 0,
        queued(&k1, data, &k2),
        k2.wf(),
        update_effect(&k2, current, &k3),
    ensures
        k3.output.unwrap()@.len() > k2.output.unwrap()@.len(),
{
    let mss = k1.mss as int;
    crate::sys::send::lemma_pieces_len(data, mss);
    assert(datas(k2.snd_queue@).len() == k2.snd_queue@.len());
    assert(k2.snd_queue@.len() > 0);
    law_first_update_sends(&k2, current, &k3);
}

/// A message sent through the API arrives whole. A control block made by
/// [`Kcp::with_config`] (congestion control off, message mode) sends `d`
/// with [`Kcp::send`] and is updated once, with room in its send window
/// for all of `d`'s fragments. A peer on the same conversation that has
/// received nothing yet, fed every datagram of that update in order (as
/// [`Kcp::input`] does with each), holds the pieces of `d` in order with
/// fragment indexes counting down to 0: its next read gives back exactly
/// `d` (see `law_delivered_message_reads_back`).
pub proof fn law_sent_message_arrives(
    pre: IKCPCB,
    conv: u32,
    cfg: KcpConfig,
    k1: IKCPCB,
    d: Seq<u8>,
    k2: IKCPCB,
    current: u32,
    k3: IKCPCB,
    b0: RecvSide,
    wnd: u32,
)
    requires
        fresh(&pre, conv),
        config_applied(&pre, &cfg, &k1),
        k1.wf(),
        k1.output.is_some(),
        cfg.nc,
        !cfg.stream_mode,
        send_code(&k1, d) >= 0,
        queued(&k1, d, &k2),
        k2.wf(),
        update_effect(&k2, current, &k3),
        frag_count(d.len() as int, k1.mss as int) <= send_window(&k2),
        b0.nxt == 0,
        b0.buf.len() == 0,
        b0.queue.len() == 0,
        frag_count(d.len() as int, k1.mss as int) <= wnd < 0x8000_0000,
    ensures
        ({
            let n = frag_count(d.len() as int, k1.mss as int);
            let b1 = fed(b0, k3.output.unwrap()@, k2.output.unwrap()@.len() as int, conv, wnd);
            &&& b1.queue.len() == n
            &&& forall|j: int|
                0 <= j < n ==> (#[trigger] b1.queue[j]).data == pieces(d, k1.mss as int)[j]
                    && b1.queue[j].frg == n - 1 - j
            &&& b1.buf.len() == 0
        }),
{
    lemma_after_first_send(pre, conv, cfg, k1, d, k2);
    let mid = lemma_first_update_flushes(k2, current, k3);
    law_message_delivered(mid, k3, d, b0, wnd);
}

/// A byte stream sent through the API arrives whole and in order. A control
/// block made by [`Kcp::with_config`] in stream mode, congestion control
/// off, sends `d` with [`Kcp::send`] and is updated once, with room in its
/// send window for as many segments as a message of `d`'s size takes. A peer on the same
/// conversation that has received nothing yet, fed every datagram of that
/// update in order, holds segments whose payloads, read one after the
/// other, are exactly `d`: segment boundaries may differ from the sends',
/// no byte is lost, repeated or moved.
pub proof fn law_sent_stream_arrives(
    pre: IKCPCB,
    conv: u32,
    cfg: KcpConfig,
    k1: IKCPCB,
    d: Seq<u8>,
    k2: IKCPCB,
    current: u32,
    k3: IKCPCB,
    b0: RecvSide,
    wnd: u32,
)
    requires
        fresh(&pre, conv),
        config_applied(&pre, &cfg, &k1),
        k1.wf(),
        k1.output.is_some(),
        cfg.nc,
        cfg.stream_mode,
        queued(&k1, d, &k2),
        k2.wf(),
        update_effect(&k2, current, &k3),
        frag_count(d.len() as int, k1.mss as int) <= send_window(&k2),
        b0.nxt == 0,
        b0.buf.len() == 0,
        b0.queue.len() == 0,
        frag_count(d.len() as int, k1.mss as int) <= wnd < 0x8000_0000,
    ensures
        ({
            let b1 = fed(b0, k3.output.unwrap()@, k2.output.unwrap()@.len() as int, conv, wnd);
            &&& concat(Seq::new(b1.queue.len(), |j: int| b1.queue[j].data)) == d
            &&& b1.buf.len() == 0
        }),
{
    lemma_after_stream_send(pre, conv, cfg, k1, d, k2);
    let mid = lemma_first_update_flushes(k2, current, k3);
    crate::sys::transfer::law_queue_delivered(mid, k3, b0, wnd);
}

/// The state a configured stream-mode control block is in after its first
/// send: nothing in flight, acknowledged or probed, never updated, and the
/// bytes of its send queue are exactly what was sent.
proof fn lemma_after_stream_send(pre: IKCPCB, conv: u32, cfg: KcpConfig, k1: IKCPCB, d: Seq<u8>, k2: IKCPCB)
    requires
        k1.wf(),
        fresh(&pre, conv),
        config_applied(&pre, &cfg, &k1),
        cfg.stream_mode,
        queued(&k1, d, &k2),
    ensures
        k2.acklist@.len() == 0,
        k2.probe == 0,
        k2.rmt_wnd == 128,
        k2.snd_buf@.len() == 0,
        k2.snd_una == k2.snd_nxt,
        k2.snd_nxt == 0,
        k2.updated == 0,
        k2.conv == conv,
        concat(datas(k2.snd_queue@)) == d,
        datas(k2.snd_queue@).len() == k2.snd_queue@.len(),
        k2.snd_queue@.len() <= frag_count(d.len() as int, k1.mss as int),
{
    lemma_stream_sent_count(Seq::empty(), Seq::empty(), d, k1.mss as int);
    assert(datas(k1.snd_queue@) =~= Seq::<Seq<u8>>::empty());
    assert(frgs(k1.snd_queue@) =~= Seq::<u32>::empty());
    assert(concat(Seq::<Seq<u8>>::empty()) == Seq::<u8>::empty());
    assert(Seq::<u8>::empty() + d =~= d);
}

/// The state a configured control block is in after its first message is
/// sent: nothing in flight, acknowledged or probed, the message's pieces
/// queued, never updated.
proof fn lemma_after_first_send(pre: IKCPCB, conv: u32, cfg: KcpConfig, k1: IKCPCB, d: Seq<u8>, k2: IKCPCB)
    requires
        fresh(&pre, conv),
        config_applied(&pre, &cfg, &k1),
        !cfg.stream_mode,
        send_code(&k1, d) >= 0,
        queued(&k1, d, &k2),
    ensures
        k2.acklist@.len() == 0,
        k2.probe == 0,
        k2.rmt_wnd == 128,
        k2.snd_buf@.len() == 0,
        k2.snd_una == k2.snd_nxt,
        k2.snd_nxt == 0,
        k2.updated == 0,
        k2.conv == conv,
        k2.mss == k1.mss,
        datas(k2.snd_queue@) == pieces(d, k1.mss as int),
        frgs(k2.snd_queue@) == piece_frgs(frag_count(d.len() as int, k1.mss as int), false),
        frag_count(d.len() as int, k1.mss as int) < 128,
{
    assert(datas(k1.snd_queue@) =~= Seq::<Seq<u8>>::empty());
    assert(frgs(k1.snd_queue@) =~= Seq::<u32>::empty());
    assert(k1.stream == 0);
    assert(k1.snd_queue@.len() == 0);
    let mss = k1.mss as int;
    assert(merge_len(k1.snd_queue@, d.len() as int, mss, false) == 0);
    assert(d.skip(0) =~= d);
    let n = frag_count(d.len() as int, k1.mss as int);
    assert(Seq::<Seq<u8>>::empty() + pieces(d, k1.mss as int) =~= pieces(d, k1.mss as int));
    assert(Seq::<u32>::empty() + piece_frgs(n, false) =~= piece_frgs(n, false));
}

/// The first update of a control block flushes it: the result is a flush
/// of the block with its clock set.
proof fn lemma_first_update_flushes(k2: IKCPCB, current: u32, k3: IKCPCB) -> (mid: IKCPCB)
    requires
        k2.wf(),
        k2.updated == 0,
        update_effect(&k2, current, &k3),
    ensures
        mid.wf(),
        flushed(&mid, &k3),
        mid.snd_queue@ == k2.snd_queue@,
        mid.snd_buf@ == k2.snd_buf@,
        mid.acklist@ == k2.acklist@,
        mid.probe == k2.probe,
        mid.rmt_wnd == k2.rmt_wnd,
        mid.snd_una == k2.snd_una,
        mid.snd_nxt == k2.snd_nxt,
        mid.conv == k2.conv,
        mid.mss == k2.mss,
        mid.output == k2.output,
        send_window(&mid) == send_window(&k2),
{
    let (ts, slap) = update_slap(&k2, current);
    IKCPCB { current, updated: 1, ts_flush: next_flush(ts, current, k2.interval), ..k2 }
}

/// Every datagram a control block emits is taken whole by the input of a
/// peer on the same conversation, and carries the conversation id by
/// which a listener routes it.
pub proof fn law_emitted_datagrams_accepted(out: Seq<Vec<u8>>, from: int, conv: u32, i: int)
    requires
        all_well_formed(out, from, conv),
        0 <= from <= i < out.len(),
    ensures
        input_status(out[i]@, conv) == Ok::<(), KcpError>(()),
        read_u32_le(out[i]@, 0) == conv,
{
    assert(well_formed_datagram(out[i]@, conv));
}

/// A KCP control block that emits datagrams into an outbox.
///
/// Datagrams the protocol wants to send collect in the outbox until
/// [`Kcp::take_output`] hands them to the transport.
#[derive(Debug)]
pub struct Kcp {
    kcp: IKCPCB,
}

impl View for Kcp {
    type V = IKCPCB;

    closed spec fn view(&self) -> IKCPCB {
        self.kcp
    }
}

impl Kcp {
    #[verifier::type_invariant]
    spec fn inv(self) -> bool {
        self.kcp.wf() && self.kcp.output.is_some()
    }

    /// Creates a KCP instance for conversation `conv` with the protocol's
    /// defaults and an empty outbox.
    pub fn new(conv: u32) -> (r: KcpResult<Kcp>)
        ensures
            r matches Ok(k) ==> k@.wf() && k@.output.is_some(),
            r matches Ok(k) && fresh(&k@, conv),
    {
        let mut kcp = ikcp_create(conv);
        ikcp_setoutput(&mut kcp);
        Ok(Kcp { kcp })
    }

    /// Takes the control block out, leaving a fresh one in its place.
    fn detach(&mut self) -> (k: IKCPCB)
        ensures
            k == old(self)@,
            k.wf(),
            k.output.is_some(),
    {
        proof {
            use_type_invariant(&*self);
        }
        let mut k = ikcp_create(0);
        ikcp_setoutput(&mut k);
        std::mem::swap(&mut k, &mut self.kcp);
        k
    }

    /// Puts a control block back.
    fn attach(&mut self, k: IKCPCB)
        requires
            k.wf(),
            k.output.is_some(),
        ensures
            final(self)@ == k,
    {
        self.kcp = k;
    }

    /// The datagrams emitted since the last call, in order; the outbox is
    /// left empty.
    pub fn take_output(&mut self) -> (out: Vec<Vec<u8>>)
        ensures
            final(self)@.wf(),
            final(self)@.output.is_some(),
            out@ == old(self)@.output.unwrap()@,
            final(self)@.output.unwrap()@.len() == 0,
            final(self)@.same_config(&old(self)@),
            final(self)@.same_send_side(&old(self)@),
            final(self)@.same_recv_side(&old(self)@),
            final(self)@.same_timing(&old(self)@),
    {
        proof {
            use_type_invariant(&*self);
        }
        let mut fresh: Option<Vec<Vec<u8>>> = Some(Vec::new());
        std::mem::swap(&mut fresh, &mut self.kcp.output);
        match fresh {
            Some(out) => out,
            None => Vec::new(),
        }
    }

    /// Queues `buf` for sending. In message mode it is one message (see
    /// `ikcp_send`): `Ok(buf.len())`, or `SendFailed` with the protocol's
    /// code, nothing queued, when the message is refused. In stream mode
    /// every byte is queued, whatever the size, and the answer is
    /// `Ok(buf.len())` (see [`queued`]).
    pub fn send(&mut self, buf: &[u8]) -> (r: KcpResult<usize>)
        ensures
            final(self)@.wf(),
            final(self)@.output.is_some(),
            r == send_answer(&old(self)@, buf@),
            queued(&old(self)@, buf@, &final(self)@),
    {
        proof {
            use_type_invariant(&*self);
        }
        let mut k = self.detach();
        if k.stream != 0 {
            let ghost k0 = k;
            let mss = k.mss as usize;
            let n = buf.len();
            let mut off: usize = 0;
            proof {
                assert(buf@.take(0) =~= Seq::<u8>::empty());
                assert(buf@.skip(0) =~= buf@);
                assert(concat(datas(k.snd_queue@)) + Seq::<u8>::empty() =~= concat(datas(k.snd_queue@)));
            }
            while off < n
                invariant
                    n == buf@.len(),
                    off <= n,
                    k.wf(),
                    k.output.is_some(),
                    k.stream != 0,
                    mss == k.mss,
                    mss >= 26,
                    concat(datas(k.snd_queue@)) == concat(datas(k0.snd_queue@)) + buf@.take(off as int),
                    k.same_config(&k0),
                    k.same_recv_side(&k0),
                    k.same_timing(&k0),
                    keeps_sending_state(&k, &k0),
                    k.output == k0.output,
                    stream_sent(datas(k0.snd_queue@), frgs(k0.snd_queue@), buf@, mss as int)
                        == stream_sent(
                        datas(k.snd_queue@),
                        frgs(k.snd_queue@),
                        buf@.skip(off as int),
                        mss as int,
                    ),
                decreases n - off,
            {
                let end = if n - off > mss {
                    off + mss
                } else {
                    n
                };
                let chunk = bytes_of(buf, off, end);
                let ghost q = k.snd_queue@;
                proof {
                    lemma_stream_chunk_fits(q, chunk@, mss as int);
                    law_send_appends_bytes(q, chunk@, mss as int, true);
                }
                let _ = ikcp_send(&mut k, chunk.as_slice());
                proof {
                    assert(chunk@.take(chunk@.len() as int) =~= chunk@);
                    assert(buf@.take(off as int) + chunk@ =~= buf@.take(end as int));
                    let r = buf@.skip(off as int);
                    assert(r.take((end - off) as int) =~= chunk@);
                    assert(r.skip((end - off) as int) =~= buf@.skip(end as int));
                }
                off = end;
            }
            proof {
                assert(buf@.take(n as int) =~= buf@);
                assert(buf@.skip(n as int) =~= Seq::<u8>::empty());
            }
            self.attach(k);
            return Ok(buf.len());
        }
        let ret = ikcp_send(&mut k, buf);
        self.attach(k);
        if ret < 0 {
            Err(KcpError::SendFailed(ret))
        } else {
            Ok(buf.len())
        }
    }

    /// Reads the next message into `buf` (see `ikcp_recv`).
    ///
    /// - `Ok(n)`: the message's `n` bytes are at the front of `buf`;
    /// - `RecvWouldBlock`: no message is queued;
    /// - `RecvBufferTooSmall { need, got }`: the front message is not
    ///   complete yet (`need` is then 0) or is larger than `buf` (`need` is
    ///   its size); `got` is `buf.len()`.
    pub fn recv(&mut self, buf: &mut [u8]) -> (r: KcpResult<usize>)
        ensures
            final(self)@.wf(),
            final(self)@.output.is_some(),
            final(buf)@.len() == old(buf)@.len(),
            final(self)@.same_config(&old(self)@),
            old(self)@.rcv_queue@.len() == 0 ==> r matches Err(KcpError::RecvWouldBlock),
            old(self)@.rcv_queue@.len() > 0 && peek_size(old(self)@.rcv_queue@) < 0 ==> (r matches Err(
                KcpError::RecvBufferTooSmall { need, got },
            ) && need == 0 && got == old(buf)@.len()),
            old(self)@.rcv_queue@.len() > 0 && old(buf)@.len() < peek_size(old(self)@.rcv_queue@)
                <= usize::MAX ==> (r matches Err(KcpError::RecvBufferTooSmall { need, got }) && need == peek_size(
                old(self)@.rcv_queue@,
            ) && got == old(buf)@.len()),
            old(self)@.rcv_queue@.len() > 0 && 0 <= peek_size(old(self)@.rcv_queue@) <= old(buf)@.len() ==> (r matches Ok(n) && n == peek_size(old(self)@.rcv_queue@) && final(buf)@.subrange(0, n as int) == chain_bytes(old(self)@.rcv_queue@) && final(buf)@.subrange(n as int, old(buf)@.len() as int) == old(buf)@.subrange(
                n as int,
                old(buf)@.len() as int,
            )),
            r is Err ==> final(buf)@ == old(buf)@ && final(self)@.same_recv_side(&old(self)@),
            r is Err ==> final(self)@ == old(self)@,
            r == recv_status(old(self)@.rcv_queue@, old(buf)@.len() as usize),
            r is Ok ==> consumed(&old(self)@, &final(self)@),
            r is Ok ==> {
                let q = old(self)@.rcv_queue@;
                let rest = q.skip(chain_count(q) as int);
                let k = ready_count(
                    old(self)@.rcv_buf@,
                    old(self)@.rcv_nxt,
                    rest.len() as int,
                    old(self)@.rcv_wnd,
                ) as int;
                &&& final(self)@.rcv_queue@ == rest + old(self)@.rcv_buf@.take(k)
                &&& final(self)@.rcv_buf@ == old(self)@.rcv_buf@.skip(k)
                &&& final(self)@.rcv_nxt == wrap_add(old(self)@.rcv_nxt, k)
            },
            final(self)@.output == old(self)@.output,
    {
        proof {
            use_type_invariant(&*self);
        }
        let mut k = self.detach();
        let ret = ikcp_recv(&mut k, buf);
        self.attach(k);
        if ret >= 0 {
            let _blen = buf.len();
            Ok(ret as usize)
        } else if ret == -1 {
            Err(KcpError::RecvWouldBlock)
        } else if ret == -2 || ret == -3 {
            let need = match self.peeksize() {
                Ok(n) => n,
                Err(_) => 0,
            };
            Err(KcpError::RecvBufferTooSmall { need, got: buf.len() })
        } else {
            Err(KcpError::RecvFailed(ret as i32))
        }
    }

    /// Feeds a received datagram into the protocol (see `ikcp_input`).
    /// Fails with `InputFailed(code)` when it is shorter than a header
    /// (code -1, nothing changes) or when a segment is refused (the code of
    /// [`input_code`]). What it does to the control block is
    /// [`input_effect`]: data segments are acknowledged and reassembled,
    /// acknowledged segments leave flight, the round-trip estimate, the
    /// peer's window and the congestion window follow.
    pub fn input(&mut self, data: &[u8]) -> (r: KcpResult<()>)
        ensures
            final(self)@.wf(),
            final(self)@.output.is_some(),
            final(self)@.same_config(&old(self)@),
            final(self)@.output == old(self)@.output,
            data@.len() < 24 ==> (r matches Err(KcpError::InputFailed(c)) && c == -1),
            data@.len() >= 24 && input_code(data@, old(self)@.conv) == 0 ==> r is Ok,
            data@.len() >= 24 && input_code(data@, old(self)@.conv) != 0 ==> (r matches Err(
                KcpError::InputFailed(c),
            ) && c == input_code(data@, old(self)@.conv)),
            r == input_status(data@, old(self)@.conv),
            data@.len() < 24 ==> final(self)@ == old(self)@,
            recv_side(&final(self)@) == recv_after(
                recv_side(&old(self)@),
                data@,
                old(self)@.conv,
                old(self)@.rcv_wnd,
            ),
            send_side(&final(self)@) == flight_after(
                send_side(&old(self)@),
                data@,
                old(self)@.conv,
                old(self)@.snd_nxt,
            ),
            final(self)@.snd_nxt == old(self)@.snd_nxt,
            input_effect(&old(self)@, data@, &final(self)@),
    {
        proof {
            use_type_invariant(&*self);
        }
        let mut k = self.detach();
        let ret = ikcp_input(&mut k, data);
        self.attach(k);
        proof {
            crate::sys::codec::lemma_input_code_range(data@, old(self)@.conv);
        }
        if ret < 0 {
            Err(KcpError::InputFailed(ret))
        } else {
            Ok(())
        }
    }

    /// Drives the protocol clock (see `ikcp_update`); `current` is a
    /// monotonic time in ms.
    pub fn update(&mut self, current: u32)
        ensures
            final(self)@.wf(),
            final(self)@.output.is_some(),
            final(self)@.same_config(&old(self)@),
            final(self)@.current == current,
            final(self)@.updated == 1,
            final(self)@.output.unwrap()@.len() >= old(self)@.output.unwrap()@.len(),
            final(self)@.output.unwrap()@.take(old(self)@.output.unwrap()@.len() as int) == old(self)@.output.unwrap()@,
            update_effect(&old(self)@, current, &final(self)@),
            all_well_formed(
                final(self)@.output.unwrap()@,
                old(self)@.output.unwrap()@.len() as int,
                old(self)@.conv,
            ),
            all_fit(
                final(self)@.output.unwrap()@,
                old(self)@.output.unwrap()@.len() as int,
                old(self)@.mtu,
            ),
    {
        proof {
            use_type_invariant(&*self);
        }
        let mut k = self.detach();
        ikcp_update(&mut k, current);
        self.attach(k);
    }

    /// When [`update`](Self::update) should next be called (see
    /// [`check_time`]).
    pub fn check(&self, current: u32) -> (r: u32)
        ensures
            self@.wf(),
            self@.output.is_some(),
            r == check_time(&self@, current),
    {
        proof {
            use_type_invariant(self);
        }
        ikcp_check(&self.kcp, current)
    }

    /// Emits everything that is due now (see [`flushed`]); does nothing
    /// before the first [`update`](Self::update).
    pub fn flush(&mut self)
        ensures
            final(self)@.wf(),
            final(self)@.output.is_some(),
            final(self)@.same_config(&old(self)@),
            old(self)@.updated == 0 ==> final(self)@ == old(self)@,
            old(self)@.updated != 0 ==> flushed(&old(self)@, &final(self)@),
            flush_effect(&old(self)@, &final(self)@),
            all_well_formed(
                final(self)@.output.unwrap()@,
                old(self)@.output.unwrap()@.len() as int,
                old(self)@.conv,
            ),
            all_fit(
                final(self)@.output.unwrap()@,
                old(self)@.output.unwrap()@.len() as int,
                old(self)@.mtu,
            ),
    {
        proof {
            use_type_invariant(&*self);
        }
        let mut k = self.detach();
        ikcp_flush(&mut k);
        self.attach(k);
    }

    /// The size of the next message, or `RecvWouldBlock` when no whole
    /// message is queued (or, on a target whose `usize` is narrower than
    /// the message size, when it does not fit a `usize`).
    pub fn peeksize(&self) -> (r: KcpResult<usize>)
        ensures
            self@.wf(),
            self@.output.is_some(),
            peek_size(self@.rcv_queue@) < 0 ==> r matches Err(KcpError::RecvWouldBlock),
            0 <= peek_size(self@.rcv_queue@) <= usize::MAX ==> (r matches Ok(n) && n == peek_size(
                self@.rcv_queue@,
            )),
            peek_size(self@.rcv_queue@) > usize::MAX ==> r matches Err(KcpError::RecvWouldBlock),
            r == peek_status(self@.rcv_queue@),
    {
        proof {
            use_type_invariant(self);
        }
        let ret = ikcp_peeksize(&self.kcp);
        if ret < 0 || ret as u64 > usize::MAX as u64 {
            Err(KcpError::RecvWouldBlock)
        } else {
            Ok(ret as usize)
        }
    }

    /// The number of segments waiting to be sent or acknowledged.
    pub fn waitsnd(&self) -> (r: u32)
        ensures
            self@.wf(),
            self@.output.is_some(),
            r == self@.spec_waitsnd(),
    {
        proof {
            use_type_invariant(self);
        }
        ikcp_waitsnd(&self.kcp)
    }

    /// The conversation id.
    pub fn conv(&self) -> (c: u32)
        ensures
            self@.wf(),
            self@.output.is_some(),
            c == self@.conv,
    {
        proof {
            use_type_invariant(self);
        }
        self.kcp.conv
    }

    /// Sets the MTU; values below 50 (and above `i32::MAX`) fail with
    /// `SetMtuFailed` and change nothing.
    pub fn set_mtu(&mut self, mtu: u32) -> (r: KcpResult<()>)
        ensures
            final(self)@.wf(),
            final(self)@.output.is_some(),
            50 <= mtu <= 0x7fff_ffff ==> r is Ok && final(self)@.mtu == mtu && final(self)@.mss
                == mtu - 24,
            !(50 <= mtu <= 0x7fff_ffff) ==> (r matches Err(KcpError::SetMtuFailed { mtu: m, code })
                && m == mtu && code == -1 && final(self)@.mtu == old(self)@.mtu),
            final(self)@.conv == old(self)@.conv,
            final(self)@.nocwnd == old(self)@.nocwnd,
            final(self)@.stream == old(self)@.stream,
            final(self)@.snd_wnd == old(self)@.snd_wnd,
            final(self)@.rcv_wnd == old(self)@.rcv_wnd,
            final(self)@.interval == old(self)@.interval,
            final(self)@.nodelay == old(self)@.nodelay,
            final(self)@.rx_minrto == old(self)@.rx_minrto,
            final(self)@.fastresend == old(self)@.fastresend,
            same_state(&final(self)@, &old(self)@),
            !(50 <= mtu <= 0x7fff_ffff) ==> final(self)@ == old(self)@,
    {
        proof {
            use_type_invariant(&*self);
        }
        let m: i32 = #[verifier::truncate] (mtu as i32);
        proof {
            crate::sys::lemma_c_int(mtu);
        }
        let mut k = self.detach();
        let ret = ikcp_setmtu(&mut k, m);
        self.attach(k);
        if ret < 0 {
            Err(KcpError::SetMtuFailed { mtu, code: ret })
        } else {
            Ok(())
        }
    }

    /// Sets the send and receive windows (see `ikcp_wndsize`); a value of 0
    /// or above `i32::MAX` leaves its window unchanged, and the receive
    /// window is at least 128.
    pub fn set_wndsize(&mut self, snd_wnd: u32, rcv_wnd: u32)
        ensures
            final(self)@.wf(),
            final(self)@.output.is_some(),
            final(self)@.snd_wnd == if 0 < snd_wnd <= 0x7fff_ffff {
                snd_wnd
            } else {
                old(self)@.snd_wnd
            },
            final(self)@.rcv_wnd == if 0 < rcv_wnd <= 0x7fff_ffff {
                if rcv_wnd >= 128 {
                    rcv_wnd
                } else {
                    128
                }
            } else {
                old(self)@.rcv_wnd
            },
            final(self)@.conv == old(self)@.conv,
            final(self)@.mtu == old(self)@.mtu,
            final(self)@.nocwnd == old(self)@.nocwnd,
            final(self)@.stream == old(self)@.stream,
            final(self)@.interval == old(self)@.interval,
            final(self)@.nodelay == old(self)@.nodelay,
            final(self)@.mss == old(self)@.mss,
            final(self)@.rx_minrto == old(self)@.rx_minrto,
            final(self)@.fastresend == old(self)@.fastresend,
            same_state(&final(self)@, &old(self)@),
    {
        proof {
            use_type_invariant(&*self);
        }
        let s: i32 = #[verifier::truncate] (snd_wnd as i32);
        let r: i32 = #[verifier::truncate] (rcv_wnd as i32);
        proof {
            crate::sys::lemma_c_int(snd_wnd);
            crate::sys::lemma_c_int(rcv_wnd);
        }
        let mut k = self.detach();
        ikcp_wndsize(&mut k, s, r);
        self.attach(k);
    }

    /// Configures nodelay mode, update interval (clamped to 10..=5000 ms;
    /// left unchanged above `i32::MAX`), fast resend (unchanged when
    /// negative) and congestion control.
    pub fn set_nodelay(&mut self, nodelay: bool, interval: u32, resend: i32, nc: bool)
        ensures
            final(self)@.wf(),
            final(self)@.output.is_some(),
            final(self)@.nodelay == (if nodelay {
                1u32
            } else {
                0u32
            }),
            final(self)@.rx_minrto == if nodelay {
                30i32
            } else {
                100i32
            },
            final(self)@.interval == if interval <= 0x7fff_ffff {
                crate::sys::clamp_interval(interval as i32)
            } else {
                old(self)@.interval
            },
            final(self)@.fastresend == if resend >= 0 {
                resend
            } else {
                old(self)@.fastresend
            },
            final(self)@.nocwnd == (if nc {
                1i32
            } else {
                0i32
            }),
            final(self)@.conv == old(self)@.conv,
            final(self)@.mtu == old(self)@.mtu,
            final(self)@.stream == old(self)@.stream,
            final(self)@.snd_wnd == old(self)@.snd_wnd,
            final(self)@.rcv_wnd == old(self)@.rcv_wnd,
            final(self)@.mss == old(self)@.mss,
            same_state(&final(self)@, &old(self)@),
    {
        proof {
            use_type_invariant(&*self);
        }
        let i: i32 = #[verifier::truncate] (interval as i32);
        proof {
            crate::sys::lemma_c_int(interval);
        }
        let mut k = self.detach();
        ikcp_nodelay(
            &mut k,
            if nodelay {
                1
            } else {
                0
            },
            i,
            resend,
            if nc {
                1
            } else {
                0
            },
        );
        self.attach(k);
    }

    /// Switches stream mode on or off.
    pub fn set_stream_mode(&mut self, enabled: bool)
        ensures
            final(self)@.wf(),
            final(self)@.output.is_some(),
            final(self)@.stream == (if enabled {
                1i32
            } else {
                0i32
            }),
            final(self)@.conv == old(self)@.conv,
            final(self)@.mtu == old(self)@.mtu,
            final(self)@.nocwnd == old(self)@.nocwnd,
            final(self)@.snd_wnd == old(self)@.snd_wnd,
            final(self)@.rcv_wnd == old(self)@.rcv_wnd,
            final(self)@.interval == old(self)@.interval,
            final(self)@.nodelay == old(self)@.nodelay,
            final(self)@.mss == old(self)@.mss,
            final(self)@.rx_minrto == old(self)@.rx_minrto,
            final(self)@.fastresend == old(self)@.fastresend,
            same_state(&final(self)@, &old(self)@),
    {
        proof {
            use_type_invariant(&*self);
        }
        self.kcp.stream = if enabled {
            1
        } else {
            0
        };
    }

    /// Whether stream mode is on.
    pub fn is_stream_mode(&self) -> (r: bool)
        ensures
            self@.wf(),
            self@.output.is_some(),
            r == (self@.stream != 0),
    {
        proof {
            use_type_invariant(self);
        }
        self.kcp.stream != 0
    }

    /// Applies every parameter of `config`: nodelay settings, MTU, windows
    /// and stream mode. Fails, after the nodelay settings, when the MTU is
    /// refused.
    pub fn apply_config(&mut self, config: &KcpConfig) -> (r: KcpResult<()>)
        ensures
            final(self)@.wf(),
            final(self)@.output.is_some(),
            r is Ok <==> 50 <= config.mtu <= 0x7fff_ffff,
            r matches Err(e) ==> (e matches KcpError::SetMtuFailed { mtu, code } && mtu
                == config.mtu && code == -1),
            r is Ok ==> config_applied(&old(self)@, config, &final(self)@),
            r is Err ==> {
                &&& nodelay_applied(&old(self)@, config, &final(self)@)
                &&& final(self)@.mtu == old(self)@.mtu
                &&& final(self)@.mss == old(self)@.mss
                &&& final(self)@.snd_wnd == old(self)@.snd_wnd
                &&& final(self)@.rcv_wnd == old(self)@.rcv_wnd
                &&& final(self)@.stream == old(self)@.stream
                &&& same_state(&final(self)@, &old(self)@)
            },
    {
        self.set_nodelay(config.nodelay, config.interval, config.resend, config.nc);
        match self.set_mtu(config.mtu) {
            Ok(()) => {},
            Err(e) => {
                return Err(e);
            },
        }
        self.set_wndsize(config.snd_wnd, config.rcv_wnd);
        self.set_stream_mode(config.stream_mode);
        Ok(())
    }

    /// Creates a KCP instance and applies `config` to it.
    pub fn with_config(conv: u32, config: &KcpConfig) -> (r: KcpResult<Kcp>)
        ensures
            r matches Ok(k) ==> k@.wf() && k@.output.is_some(),
            r is Ok <==> 50 <= config.mtu <= 0x7fff_ffff,
            r matches Ok(k) ==> k@.conv == conv && k@.mtu == config.mtu,
            r matches Ok(k) ==> exists|pre: IKCPCB| fresh(&pre, conv) && config_applied(&pre, config, &k@),
            r matches Err(e) ==> (e matches KcpError::SetMtuFailed { mtu, code } && mtu
                == config.mtu && code == -1),
    {
        let mut kcp = match Kcp::new(conv) {
            Ok(k) => k,
            Err(e) => {
                return Err(e);
            },
        };
        let ghost pre = kcp@;
        match kcp.apply_config(config) {
            Ok(()) => {
                assert(fresh(&pre, conv) && config_applied(&pre, config, &kcp@));
                Ok(kcp)
            },
            Err(e) => Err(e),
        }
    }

    /// Reads the conversation id from the header of a raw datagram.
    pub fn get_conv(data: &[u8]) -> (conv: u32)
        requires
            data@.len() >= 4,
        ensures
            conv == read_u32_le(data@, 0),
    {
        ikcp_getconv(data)
    }
}

} // verus!
