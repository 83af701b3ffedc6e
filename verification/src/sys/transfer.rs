//! A message's way from one control block to another: queued by a send,
//! emitted by a flush, fed to the peer datagram by datagram, read back.

use vstd::prelude::*;
use super::codec::{
    header_bytes, is_known_cmd, SegHeader, lemma_parse_header_prefix, lemma_segs_exact_append, parse_header,
    segs_exact, IKCP_CMD_PUSH,
};
use super::deliver::{
    data_seg, law_in_order_segment_delivered, recv_after, seg_views, segment_effect, RecvSide,
    SegView,
};
use super::flush::{
    ack_header, all_well_formed, ack_stream, is_due, command_stream, data_stream, emitted, flushed, last_ack,
    lemma_emitted_push, new_header, new_stream, probe_step, send_window, wnd_unused, data_params,
    DataParams,
};
use super::recv::law_sent_message_reassembles;
use super::send::{concat, datas, frag_count, frgs, piece_frgs, pieces};
use super::{chain_bytes, itimediff, peek_size, wrap_add, IKCPCB, IKCPSEG, IKCP_WND_RCV};

verus! {

/// The receiving side `st` after being fed the datagrams `out[from..]`,
/// one after the other.
pub open spec fn fed(st: RecvSide, out: Seq<Vec<u8>>, from: int, conv: u32, wnd: u32) -> RecvSide
    decreases out.len(),
{
    if from < 0 || out.len() <= from {
        st
    } else {
        recv_after(fed(st, out.drop_last(), from, conv, wnd), out.last()@, conv, wnd)
    }
}

/// Receiving whole segments and then more bytes is receiving them all.
pub proof fn lemma_recv_after_concat(st: RecvSide, a: Seq<u8>, b: Seq<u8>, conv: u32, wnd: u32)
    requires
        segs_exact(a, conv),
    ensures
        recv_after(st, a + b, conv, wnd) == recv_after(recv_after(st, a, conv, wnd), b, conv, wnd),
    decreases a.len(),
{
    if a.len() == 0 {
        assert(a + b =~= b);
    } else {
        let h = parse_header(a);
        lemma_parse_header_prefix(a, b);
        let l = 24 + h.len;
        assert((a + b).subrange(24, l) =~= a.subrange(24, l));
        assert((a + b).skip(l) =~= a.skip(l) + b);
        lemma_recv_after_concat(
            segment_effect(st, h, a.subrange(24, l), wnd),
            a.skip(l),
            b,
            conv,
            wnd,
        );
    }
}

/// Whole segments followed by whole segments are whole segments.
proof fn lemma_segs_exact_concat(a: Seq<u8>, b: Seq<u8>, conv: u32)
    requires
        segs_exact(a, conv),
        segs_exact(b, conv),
    ensures
        segs_exact(a + b, conv),
    decreases a.len(),
{
    if a.len() == 0 {
        assert(a + b =~= b);
    } else {
        let h = parse_header(a);
        lemma_parse_header_prefix(a, b);
        let l = 24 + h.len;
        assert((a + b).skip(l) =~= a.skip(l) + b);
        lemma_segs_exact_concat(a.skip(l), b, conv);
    }
}

/// Feeding the datagrams of a flush one by one is receiving their bytes
/// in order, and those bytes are whole segments.
pub proof fn lemma_fed_is_stream(st: RecvSide, out: Seq<Vec<u8>>, from: int, conv: u32, wnd: u32)
    requires
        0 <= from <= out.len(),
        all_well_formed(out, from, conv),
    ensures
        fed(st, out, from, conv, wnd) == recv_after(st, emitted(out, from), conv, wnd),
        segs_exact(emitted(out, from), conv),
    decreases out.len(),
{
    if out.len() == from {
        assert(emitted(out, from) =~= Seq::<u8>::empty()) by {
            assert(Seq::new(0, |i: int| out[from + i]@) =~= Seq::<Seq<u8>>::empty());
        }
    } else {
        let p = out.drop_last();
        assert(all_well_formed(p, from, conv)) by {
            assert forall|i: int| from <= i < p.len() implies super::codec::well_formed_datagram(
                #[trigger] p[i]@,
                conv,
            ) && segs_exact(p[i]@, conv) by {
                assert(p[i] == out[i]);
            }
        }
        lemma_fed_is_stream(st, p, from, conv, wnd);
        assert(out =~= p.push(out.last()));
        lemma_emitted_push(p, from, out.last());
        assert(out.last() == out[out.len() - 1]);
        lemma_recv_after_concat(st, emitted(p, from), out.last()@, conv, wnd);
        lemma_segs_exact_concat(emitted(p, from), out.last()@, conv);
    }
}

/// Steps of `n` and `m` from one number are `n - m` apart, for steps
/// below 2^31.
proof fn lemma_itimediff_steps(x: u32, n: int, m: int)
    requires
        0 <= n < 0x8000_0000,
        0 <= m < 0x8000_0000,
    ensures
        itimediff(wrap_add(x, n), wrap_add(x, m)) == n - m,
{
}

/// One step more is one further on the 32-bit sequence.
proof fn lemma_wrap_step(x: u32, n: int)
    requires
        0 <= n,
    ensures
        wrap_add(wrap_add(x, n), 1) == wrap_add(x, n + 1),
{
    vstd::arithmetic::div_mod::lemma_add_mod_noop(x + n, 1, 0x1_0000_0000);
}

/// The segments a flush moves into flight are whole segments.
proof fn lemma_new_stream_exact(qs: Seq<IKCPSEG>, nxt: u32, p: DataParams)
    requires
        forall|j: int| 0 <= j < qs.len() ==> (#[trigger] qs[j]).data@.len() < 0x8000_0000,
    ensures
        segs_exact(new_stream(qs, nxt, p), p.conv),
    decreases qs.len(),
{
    if qs.len() == 0 {
    } else {
        let q1 = qs.drop_last();
        assert forall|j: int| 0 <= j < q1.len() implies (#[trigger] q1[j]).data@.len()
            < 0x8000_0000 by {
            assert(q1[j] == qs[j]);
        }
        lemma_new_stream_exact(q1, nxt, p);
        let last = qs.last();
        assert(last == qs[qs.len() - 1]);
        let h = new_header(last, wrap_add(nxt, qs.len() - 1), p);
        assert(is_known_cmd(h.cmd));
        lemma_segs_exact_append(new_stream(q1, nxt, p), h, last.data@, p.conv);
        assert(new_stream(q1, nxt, p) + header_bytes(h) + last.data@ =~= new_stream(q1, nxt, p)
            + (header_bytes(h) + last.data@));
    }
}

/// The segments a flush moves into flight, received in order by a peer
/// that expects the first of them, has nothing out of order and room for
/// all, all land in its receive queue.
proof fn lemma_new_stream_delivered(st: RecvSide, qs: Seq<IKCPSEG>, nxt: u32, p: DataParams, wnd: u32)
    requires
        forall|j: int| 0 <= j < qs.len() ==> (#[trigger] qs[j]).data@.len() < 0x8000_0000,
        st.nxt == nxt,
        st.buf.len() == 0,
        st.queue.len() + qs.len() <= wnd < 0x8000_0000,
    ensures
        ({
            let r = recv_after(st, new_stream(qs, nxt, p), p.conv, wnd);
            &&& r.queue == st.queue + Seq::new(
                qs.len(),
                |j: int| data_seg(new_header(qs[j], wrap_add(nxt, j), p), qs[j].data@),
            )
            &&& r.buf.len() == 0
            &&& r.nxt == wrap_add(nxt, qs.len() as int)
        }),
    decreases qs.len(),
{
    let n = qs.len() as int;
    if n == 0 {
        assert(new_stream(qs, nxt, p) =~= Seq::<u8>::empty());
        assert(st.queue + Seq::new(0, |j: int| data_seg(new_header(qs[j], wrap_add(nxt, j), p), qs[j].data@))
            =~= st.queue);
        assert(wrap_add(nxt, 0) == nxt);
    } else {
        let q1 = qs.drop_last();
        assert forall|j: int| 0 <= j < q1.len() implies (#[trigger] q1[j]).data@.len()
            < 0x8000_0000 by {
            assert(q1[j] == qs[j]);
        }
        lemma_new_stream_delivered(st, q1, nxt, p, wnd);
        lemma_new_stream_exact(q1, nxt, p);
        let last = qs.last();
        assert(last == qs[n - 1]);
        let h = new_header(last, wrap_add(nxt, n - 1), p);
        let seg = header_bytes(h) + last.data@;
        assert(new_stream(qs, nxt, p) == new_stream(q1, nxt, p) + seg);
        lemma_recv_after_concat(st, new_stream(q1, nxt, p), seg, p.conv, wnd);
        let mid = recv_after(st, new_stream(q1, nxt, p), p.conv, wnd);
        law_in_order_segment_delivered(mid, h, last.data@, p.conv, wnd);
        lemma_wrap_step(nxt, n - 1);
        let expect = Seq::new(
            qs.len(),
            |j: int| data_seg(new_header(qs[j], wrap_add(nxt, j), p), qs[j].data@),
        );
        let expect1 = Seq::new(
            q1.len(),
            |j: int| data_seg(new_header(q1[j], wrap_add(nxt, j), p), q1[j].data@),
        );
        assert(expect1 =~= expect.drop_last());
        assert(st.queue + expect =~= (st.queue + expect1).push(data_seg(h, last.data@)));
    }
}

/// A delivered message reads back whole: a receive queue holding, in
/// order, the pieces of `d` with fragment indexes counting down to 0 makes
/// a message of exactly the bytes of `d`.
pub proof fn law_delivered_message_reads_back(q: Seq<IKCPSEG>, d: Seq<u8>, mss: int)
    requires
        mss > 0,
        frag_count(d.len() as int, mss) < IKCP_WND_RCV,
        q.len() == frag_count(d.len() as int, mss),
        forall|j: int|
            0 <= j < q.len() ==> (#[trigger] seg_views(q)[j]).data == pieces(d, mss)[j]
                && seg_views(q)[j].frg == q.len() - 1 - j,
    ensures
        chain_bytes(q) == d,
        peek_size(q) == d.len(),
{
    let n = q.len() as int;
    super::send::lemma_pieces_len(d, mss);
    assert forall|j: int| 0 <= j < n implies datas(q)[j] == pieces(d, mss)[j] by {
        assert(seg_views(q)[j].data == q[j].data@);
    }
    assert(datas(q) =~= pieces(d, mss));
    assert forall|j: int| 0 <= j < n implies frgs(q)[j] == piece_frgs(n, false)[j] by {
        assert(seg_views(q)[j].frg == q[j].frg);
    }
    assert(frgs(q) =~= piece_frgs(n, false));
    law_sent_message_reassembles(q, Seq::empty(), d, mss);
    assert(q + Seq::<IKCPSEG>::empty() =~= q);
}

/// A flush of a control block with nothing in flight, nothing to
/// acknowledge, no probe pending and room in its send window for its
/// whole queue emits exactly the queued segments, numbered on.
proof fn lemma_flush_sends_queue(a0: IKCPCB, a1: IKCPCB)
    requires
        a0.wf(),
        flushed(&a0, &a1),
        a0.acklist@.len() == 0,
        a0.probe == 0,
        a0.rmt_wnd > 0,
        a0.snd_buf@.len() == 0,
        a0.snd_una == a0.snd_nxt,
        a0.snd_queue@.len() <= send_window(&a0) < 0x8000_0000,
    ensures
        emitted(a1.output.unwrap()@, a0.output.unwrap()@.len() as int) == new_stream(
            a0.snd_queue@,
            a0.snd_nxt,
            data_params(&a0),
        ),
        all_well_formed(a1.output.unwrap()@, a0.output.unwrap()@.len() as int, a0.conv),
        a1.output.unwrap()@.len() >= a0.output.unwrap()@.len(),
{
    let q = a0.snd_queue@;
    let n = q.len() as int;
    let m = q.len() - a1.snd_queue@.len();
    let dp = data_params(&a0);
    if m < n {
        let lim = wrap_add(a0.snd_una, send_window(&a0) as int);
        lemma_itimediff_steps(a0.snd_nxt, m, send_window(&a0) as int);
        assert(itimediff(a1.snd_nxt, lim) >= 0);
    }
    assert(m == n);
    assert(q.take(m) =~= q);
    assert(ack_stream(a0.acklist@, a0.conv, wnd_unused(&a0) as u16, a0.rcv_nxt) =~= Seq::<u8>::empty());
    assert(probe_step(&a0).0 == 0);
    assert(0u32 & super::IKCP_ASK_SEND == 0 && 0u32 & super::IKCP_ASK_TELL == 0) by (bit_vector);
    assert(command_stream(
        a0.conv,
        0,
        wnd_unused(&a0) as u16,
        a0.rcv_nxt,
        last_ack(a0.acklist@),
    ) =~= Seq::<u8>::empty());
    assert(data_stream(a0.snd_buf@, dp) =~= Seq::<u8>::empty());
}

/// The datagrams of a flush that emitted exactly the pieces of `d`, fed to
/// a peer that expects them, put those pieces in its receive queue.
proof fn lemma_deliver_pieces(
    b0: RecvSide,
    out: Seq<Vec<u8>>,
    from: int,
    q: Seq<IKCPSEG>,
    nxt: u32,
    dp: DataParams,
    d: Seq<u8>,
    mss: int,
    wnd: u32,
)
    requires
        0 <= from <= out.len(),
        emitted(out, from) == new_stream(q, nxt, dp),
        all_well_formed(out, from, dp.conv),
        mss > 0,
        datas(q) == pieces(d, mss),
        frgs(q) == piece_frgs(q.len() as int, false),
        q.len() < IKCP_WND_RCV,
        forall|j: int| 0 <= j < q.len() ==> (#[trigger] q[j]).data@.len() < 0x8000_0000,
        b0.nxt == nxt,
        b0.buf.len() == 0,
        b0.queue.len() == 0,
        q.len() <= wnd < 0x8000_0000,
    ensures
        ({
            let n = q.len() as int;
            let b1 = fed(b0, out, from, dp.conv, wnd);
            &&& b1.queue.len() == n
            &&& forall|j: int|
                0 <= j < n ==> (#[trigger] b1.queue[j]).data == pieces(d, mss)[j] && b1.queue[j].frg
                    == n - 1 - j && b1.queue[j].sn == wrap_add(nxt, j)
            &&& b1.buf.len() == 0
            &&& b1.nxt == wrap_add(nxt, n)
        }),
{
    let n = q.len() as int;
    lemma_fed_is_stream(b0, out, from, dp.conv, wnd);
    lemma_new_stream_delivered(b0, q, nxt, dp, wnd);
    let b1 = recv_after(b0, new_stream(q, nxt, dp), dp.conv, wnd);
    assert(fed(b0, out, from, dp.conv, wnd) == b1);
    lemma_pieces_landed(b0.queue, b1.queue, q, nxt, dp, d, mss);
}

/// The segments received for the pieces of `d` carry them in order.
proof fn lemma_pieces_landed(
    q0: Seq<SegView>,
    q1: Seq<SegView>,
    q: Seq<IKCPSEG>,
    nxt: u32,
    dp: DataParams,
    d: Seq<u8>,
    mss: int,
)
    requires
        q0.len() == 0,
        q1 == q0 + Seq::new(
            q.len(),
            |j: int| data_seg(new_header(q[j], wrap_add(nxt, j), dp), q[j].data@),
        ),
        datas(q) == pieces(d, mss),
        frgs(q) == piece_frgs(q.len() as int, false),
        q.len() < IKCP_WND_RCV,
    ensures
        q1.len() == q.len(),
        forall|j: int|
            0 <= j < q.len() ==> (#[trigger] q1[j]).data == pieces(d, mss)[j] && q1[j].frg == q.len()
                - 1 - j && q1[j].sn == wrap_add(nxt, j),
{
    let n = q.len() as int;
    assert forall|j: int| 0 <= j < n implies (#[trigger] q1[j]).data == pieces(d, mss)[j]
        && q1[j].frg == n - 1 - j && q1[j].sn == wrap_add(nxt, j) by {
        assert(q1[j] == data_seg(new_header(q[j], wrap_add(nxt, j), dp), q[j].data@));
        assert(datas(q)[j] == q[j].data@);
        assert(frgs(q)[j] == q[j].frg);
        assert(piece_frgs(n, false)[j] == (n - 1 - j) as u32);
        assert(((q[j].frg % 256) as u8) as u32 == q[j].frg);
    }
}

/// What a send writes, the peer's read gives back. A control block `a0`
/// with nothing in flight, nothing to acknowledge and no probe pending,
/// whose send queue holds exactly the pieces of a message `d` (as a
/// message-mode send queues it) and whose send window has room for all of
/// them, flushes into `a1`. A peer on the same conversation that expects
/// the first of those numbers, with an empty receive queue and buffer and
/// a window with room for all, fed every datagram of that flush in order,
/// then holds the pieces of `d` in its receive queue, numbered on, with
/// fragment indexes counting down to 0 — a message that reads back as
/// exactly `d` (see [`law_delivered_message_reads_back`]).
pub proof fn law_message_delivered(a0: IKCPCB, a1: IKCPCB, d: Seq<u8>, b0: RecvSide, wnd: u32)
    requires
        a0.wf(),
        flushed(&a0, &a1),
        a0.acklist@.len() == 0,
        a0.probe == 0,
        a0.rmt_wnd > 0,
        a0.snd_buf@.len() == 0,
        a0.snd_una == a0.snd_nxt,
        datas(a0.snd_queue@) == pieces(d, a0.mss as int),
        frgs(a0.snd_queue@) == piece_frgs(frag_count(d.len() as int, a0.mss as int), false),
        frag_count(d.len() as int, a0.mss as int) < IKCP_WND_RCV,
        frag_count(d.len() as int, a0.mss as int) <= send_window(&a0) < 0x8000_0000,
        b0.nxt == a0.snd_nxt,
        b0.buf.len() == 0,
        b0.queue.len() == 0,
        frag_count(d.len() as int, a0.mss as int) <= wnd < 0x8000_0000,
    ensures
        ({
            let n = frag_count(d.len() as int, a0.mss as int);
            let b1 = fed(b0, a1.output.unwrap()@, a0.output.unwrap()@.len() as int, a0.conv, wnd);
            &&& b1.queue.len() == n
            &&& forall|j: int|
                0 <= j < n ==> (#[trigger] b1.queue[j]).data == pieces(d, a0.mss as int)[j]
                    && b1.queue[j].frg == n - 1 - j && b1.queue[j].sn == wrap_add(a0.snd_nxt, j)
            &&& b1.buf.len() == 0
            &&& b1.nxt == wrap_add(a0.snd_nxt, n)
        }),
{
    let q = a0.snd_queue@;
    super::send::lemma_pieces_len(d, a0.mss as int);
    assert(q.len() == datas(q).len());
    lemma_flush_sends_queue(a0, a1);
    assert forall|j: int| 0 <= j < q.len() implies (#[trigger] q[j]).data@.len() < 0x8000_0000 by {
        assert(q[j].data@.len() <= 0x7fff_ffff);
    }
    lemma_deliver_pieces(
        b0,
        a1.output.unwrap()@,
        a0.output.unwrap()@.len() as int,
        q,
        a0.snd_nxt,
        data_params(&a0),
        d,
        a0.mss as int,
        wnd,
    );
}

/// What a stream-mode sender queued reaches the peer byte for byte. A
/// control block `a0` with nothing in flight, nothing to acknowledge and
/// no probe pending, whose send window has room for its whole queue,
/// flushes into `a1`. A peer on the same conversation that expects the
/// first of those numbers, with an empty receive queue and buffer and
/// room for all, fed every datagram of that flush in order, holds the
/// queued segments' payloads in order: the bytes it can read are exactly
/// the bytes that were waiting in the sender's queue.
pub proof fn law_queue_delivered(a0: IKCPCB, a1: IKCPCB, b0: RecvSide, wnd: u32)
    requires
        a0.wf(),
        flushed(&a0, &a1),
        a0.acklist@.len() == 0,
        a0.probe == 0,
        a0.rmt_wnd > 0,
        a0.snd_buf@.len() == 0,
        a0.snd_una == a0.snd_nxt,
        a0.snd_queue@.len() <= send_window(&a0) < 0x8000_0000,
        b0.nxt == a0.snd_nxt,
        b0.buf.len() == 0,
        b0.queue.len() == 0,
        a0.snd_queue@.len() <= wnd < 0x8000_0000,
    ensures
        ({
            let q = a0.snd_queue@;
            let b1 = fed(b0, a1.output.unwrap()@, a0.output.unwrap()@.len() as int, a0.conv, wnd);
            &&& b1.queue.len() == q.len()
            &&& forall|j: int|
                0 <= j < q.len() ==> (#[trigger] b1.queue[j]).data == q[j].data@ && b1.queue[j].frg
                    == q[j].frg % 256 && b1.queue[j].sn == wrap_add(a0.snd_nxt, j)
            &&& concat(Seq::new(q.len(), |j: int| b1.queue[j].data)) == concat(datas(q))
            &&& b1.buf.len() == 0
        }),
{
    let q = a0.snd_queue@;
    let dp = data_params(&a0);
    lemma_flush_sends_queue(a0, a1);
    assert forall|j: int| 0 <= j < q.len() implies (#[trigger] q[j]).data@.len() < 0x8000_0000 by {
        assert(q[j].data@.len() <= 0x7fff_ffff);
    }
    lemma_fed_is_stream(b0, a1.output.unwrap()@, a0.output.unwrap()@.len() as int, a0.conv, wnd);
    lemma_new_stream_delivered(b0, q, a0.snd_nxt, dp, wnd);
    let b1 = recv_after(b0, new_stream(q, a0.snd_nxt, dp), a0.conv, wnd);
    assert forall|j: int| 0 <= j < q.len() implies (#[trigger] b1.queue[j]).data == q[j].data@
        && b1.queue[j].frg == q[j].frg % 256 && b1.queue[j].sn == wrap_add(a0.snd_nxt, j) by {
        assert(b1.queue[j] == data_seg(new_header(q[j], wrap_add(a0.snd_nxt, j), dp), q[j].data@));
    }
    assert(Seq::new(q.len(), |j: int| b1.queue[j].data) =~= datas(q));
}

/// No segment of `b` is due: a flush sends none of them.
proof fn lemma_none_due(b: Seq<IKCPSEG>, p: DataParams)
    requires
        forall|k: int| 0 <= k < b.len() ==> !is_due(#[trigger] b[k], p),
    ensures
        data_stream(b, p) == Seq::<u8>::empty(),
    decreases b.len(),
{
    if b.len() > 0 {
        let c = b.drop_last();
        assert forall|k: int| 0 <= k < c.len() implies !is_due(#[trigger] c[k], p) by {
            assert(c[k] == b[k]);
        }
        lemma_none_due(c, p);
        assert(b.last() == b[b.len() - 1]);
        assert(data_stream(b, p) =~= Seq::<u8>::empty());
    }
}

/// One acknowledgement segment leaves a receiving side alone.
proof fn lemma_ack_neutral(st: RecvSide, h: SegHeader, conv: u32, wnd: u32)
    requires
        h.conv == conv,
        h.cmd == super::codec::IKCP_CMD_ACK,
        h.len == 0,
    ensures
        recv_after(st, header_bytes(h), conv, wnd) == st,
{
    let d = header_bytes(h);
    super::codec::lemma_header_roundtrip(h, Seq::empty());
    assert(d + Seq::<u8>::empty() =~= d);
    assert(parse_header(d) == h);
    assert(is_known_cmd(h.cmd));
    assert(d.subrange(24, 24) =~= Seq::<u8>::empty());
    assert(d.skip(24) =~= Seq::<u8>::empty());
    assert(segment_effect(st, h, Seq::empty(), wnd) == st);
    assert(recv_after(st, Seq::<u8>::empty(), conv, wnd) == st);
}

/// Acknowledgements are whole segments that leave a receiving side alone.
proof fn lemma_acks_neutral(st: RecvSide, acks: Seq<(u32, u32)>, conv: u32, w: u16, una: u32, wnd: u32)
    ensures
        segs_exact(ack_stream(acks, conv, w, una), conv),
        recv_after(st, ack_stream(acks, conv, w, una), conv, wnd) == st,
    decreases acks.len(),
{
    if acks.len() == 0 {
        assert(ack_stream(acks, conv, w, una) =~= Seq::<u8>::empty());
    } else {
        let p = acks.drop_last();
        lemma_acks_neutral(st, p, conv, w, una, wnd);
        let h = ack_header(conv, acks.last(), w, una);
        let a = ack_stream(p, conv, w, una);
        assert(ack_stream(acks, conv, w, una) == a + header_bytes(h));
        assert(is_known_cmd(h.cmd));
        lemma_segs_exact_append(a, h, Seq::empty(), conv);
        assert(a + header_bytes(h) + Seq::<u8>::empty() =~= a + header_bytes(h));
        lemma_recv_after_concat(st, a, header_bytes(h), conv, wnd);
        lemma_ack_neutral(st, h, conv, wnd);
    }
}

/// Lossless delivery while data is in flight: one round of an exchange.
/// A control block `a0` whose segments in flight were all received and
/// none of which is due yet, with no probe pending, flushes into `a1`
/// (any pending acknowledgements go out too). A peer on the same
/// conversation that has received everything sent so far (it expects
/// `a0`'s next number), with nothing out of order and room for the whole
/// send queue, fed every datagram of that flush in order, appends to its
/// receive queue exactly the segments the flush moved into flight, in
/// order and numbered on; nothing else changes in its queue.
pub proof fn law_round_delivered(a0: IKCPCB, a1: IKCPCB, b0: RecvSide, wnd: u32)
    requires
        a0.wf(),
        flushed(&a0, &a1),
        a0.probe == 0,
        a0.rmt_wnd > 0,
        forall|k: int| 0 <= k < a0.snd_buf@.len() ==> !is_due(#[trigger] a0.snd_buf@[k], data_params(&a0)),
        b0.nxt == a0.snd_nxt,
        b0.buf.len() == 0,
        b0.queue.len() + a0.snd_queue@.len() <= wnd < 0x8000_0000,
    ensures
        ({
            let q = a0.snd_queue@;
            let m = q.len() - a1.snd_queue@.len();
            let dp = data_params(&a0);
            let b1 = fed(b0, a1.output.unwrap()@, a0.output.unwrap()@.len() as int, a0.conv, wnd);
            &&& 0 <= m <= q.len()
            &&& b1.queue == b0.queue + Seq::new(
                m as nat,
                |j: int| data_seg(new_header(q[j], wrap_add(a0.snd_nxt, j), dp), q[j].data@),
            )
            &&& b1.buf.len() == 0
            &&& b1.nxt == wrap_add(a0.snd_nxt, m)
        }),
{
    lemma_flush_round(a0, a1);
    let q = a0.snd_queue@;
    let m = q.len() - a1.snd_queue@.len();
    lemma_round_fed(
        b0,
        a1.output.unwrap()@,
        a0.output.unwrap()@.len() as int,
        a0.acklist@,
        wnd_unused(&a0) as u16,
        a0.rcv_nxt,
        q.take(m),
        a0.snd_nxt,
        data_params(&a0),
        wnd,
    );
    assert(Seq::new(
        q.take(m).len(),
        |j: int| data_seg(new_header(q.take(m)[j], wrap_add(a0.snd_nxt, j), data_params(&a0)), q.take(m)[j].data@),
    ) =~= Seq::new(
        m as nat,
        |j: int| data_seg(new_header(q[j], wrap_add(a0.snd_nxt, j), data_params(&a0)), q[j].data@),
    ));
}

/// What a flush emits in a round with nothing due in flight and no
/// probe: the acknowledgements, then the segments it moves into flight.
proof fn lemma_flush_round(a0: IKCPCB, a1: IKCPCB)
    requires
        a0.wf(),
        flushed(&a0, &a1),
        a0.probe == 0,
        a0.rmt_wnd > 0,
        forall|k: int| 0 <= k < a0.snd_buf@.len() ==> !is_due(#[trigger] a0.snd_buf@[k], data_params(&a0)),
    ensures
        ({
            let q = a0.snd_queue@;
            let m = q.len() - a1.snd_queue@.len();
            &&& 0 <= m <= q.len()
            &&& a1.output.unwrap()@.len() >= a0.output.unwrap()@.len()
            &&& all_well_formed(a1.output.unwrap()@, a0.output.unwrap()@.len() as int, a0.conv)
            &&& emitted(a1.output.unwrap()@, a0.output.unwrap()@.len() as int) == ack_stream(
                a0.acklist@,
                a0.conv,
                wnd_unused(&a0) as u16,
                a0.rcv_nxt,
            ) + new_stream(q.take(m), a0.snd_nxt, data_params(&a0))
            &&& forall|j: int| 0 <= j < m ==> (#[trigger] q[j]).data@.len() < 0x8000_0000
        }),
{
    let q = a0.snd_queue@;
    assert(probe_step(&a0).0 == 0);
    assert(0u32 & super::IKCP_ASK_SEND == 0 && 0u32 & super::IKCP_ASK_TELL == 0) by (bit_vector);
    assert(command_stream(
        a0.conv,
        0,
        wnd_unused(&a0) as u16,
        a0.rcv_nxt,
        last_ack(a0.acklist@),
    ) =~= Seq::<u8>::empty());
    lemma_none_due(a0.snd_buf@, data_params(&a0));
    assert forall|j: int| 0 <= j < q.len() implies (#[trigger] q[j]).data@.len() < 0x8000_0000 by {
        assert(q[j].data@.len() <= 0x7fff_ffff);
    }
}

/// The datagrams of such a round, fed to a peer that expects them, append
/// the moved segments to its queue.
proof fn lemma_round_fed(
    b0: RecvSide,
    out: Seq<Vec<u8>>,
    from: int,
    acklist: Seq<(u32, u32)>,
    w: u16,
    una: u32,
    qm: Seq<IKCPSEG>,
    nxt: u32,
    dp: DataParams,
    wnd: u32,
)
    requires
        0 <= from <= out.len(),
        all_well_formed(out, from, dp.conv),
        emitted(out, from) == ack_stream(acklist, dp.conv, w, una) + new_stream(qm, nxt, dp),
        forall|j: int| 0 <= j < qm.len() ==> (#[trigger] qm[j]).data@.len() < 0x8000_0000,
        b0.nxt == nxt,
        b0.buf.len() == 0,
        b0.queue.len() + qm.len() <= wnd < 0x8000_0000,
    ensures
        ({
            let b1 = fed(b0, out, from, dp.conv, wnd);
            &&& b1.queue == b0.queue + Seq::new(
                qm.len(),
                |j: int| data_seg(new_header(qm[j], wrap_add(nxt, j), dp), qm[j].data@),
            )
            &&& b1.buf.len() == 0
            &&& b1.nxt == wrap_add(nxt, qm.len() as int)
        }),
{
    let acks = ack_stream(acklist, dp.conv, w, una);
    let ns = new_stream(qm, nxt, dp);
    lemma_fed_is_stream(b0, out, from, dp.conv, wnd);
    lemma_acks_neutral(b0, acklist, dp.conv, w, una, wnd);
    lemma_recv_after_concat(b0, acks, ns, dp.conv, wnd);
    lemma_new_stream_delivered(b0, qm, nxt, dp, wnd);
}

} // verus!
