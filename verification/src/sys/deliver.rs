//! What the receiving side of a control block makes of a datagram, as
//! plain values: which segments are filed for reassembly, which move on to
//! the receive queue, which are scheduled for acknowledgement.

use vstd::prelude::*;
use super::codec::{
    header_bytes, is_known_cmd, lemma_header_roundtrip, parse_header, SegHeader, IKCP_CMD_PUSH,
    IKCP_CMD_WASK,
};
use super::recv::ready_count;
use super::{itimediff, wrap_add, IKCPCB, IKCPSEG, IKCP_ASK_TELL};

verus! {

/// A segment as plain values: its header fields and its payload.
pub struct SegView {
    pub conv: u32,
    pub cmd: u32,
    pub frg: u32,
    pub wnd: u32,
    pub ts: u32,
    pub sn: u32,
    pub una: u32,
    pub resendts: u32,
    pub rto: u32,
    pub fastack: u32,
    pub xmit: u32,
    pub data: Seq<u8>,
}

/// The plain values of a segment.
pub open spec fn seg_view(s: IKCPSEG) -> SegView {
    SegView {
        conv: s.conv,
        cmd: s.cmd,
        frg: s.frg,
        wnd: s.wnd,
        ts: s.ts,
        sn: s.sn,
        una: s.una,
        resendts: s.resendts,
        rto: s.rto,
        fastack: s.fastack,
        xmit: s.xmit,
        data: s.data@,
    }
}

/// The plain values of the segments of `q`.
pub open spec fn seg_views(q: Seq<IKCPSEG>) -> Seq<SegView> {
    Seq::new(q.len(), |i: int| seg_view(q[i]))
}

/// The receiving side of a control block: the receive queue, the
/// out-of-order buffer, the next expected sequence number, the pending
/// acknowledgements and the probe flags.
pub struct RecvSide {
    pub queue: Seq<SegView>,
    pub buf: Seq<SegView>,
    pub nxt: u32,
    pub acks: Seq<(u32, u32)>,
    pub probe: u32,
}

/// The receiving side of `k`.
pub open spec fn recv_side(k: &IKCPCB) -> RecvSide {
    RecvSide {
        queue: seg_views(k.rcv_queue@),
        buf: seg_views(k.rcv_buf@),
        nxt: k.rcv_nxt,
        acks: k.acklist@,
        probe: k.probe,
    }
}

/// [`ready_count`] over plain segments.
pub open spec fn ready_count_v(buf: Seq<SegView>, nxt: u32, nque: int, wnd: u32) -> nat
    decreases buf.len(),
{
    if buf.len() > 0 && buf[0].sn == nxt && nque < wnd {
        1 + ready_count_v(buf.drop_first(), wrap_add(nxt, 1), nque + 1, wnd)
    } else {
        0
    }
}

/// `s` filed into the out-of-order buffer `buf`: after the last segment
/// with an earlier sequence number; `buf` itself when a segment with its
/// sequence number is there already.
pub open spec fn file_seg(buf: Seq<SegView>, s: SegView) -> Seq<SegView>
    decreases buf.len(),
{
    if buf.len() == 0 {
        seq![s]
    } else if buf.last().sn == s.sn {
        buf
    } else if itimediff(s.sn, buf.last().sn) > 0 {
        buf.push(s)
    } else {
        file_seg(buf.drop_last(), s).push(buf.last())
    }
}

/// The segments at the front of the buffer that continue the sequence
/// moved on to the receive queue, while the window has room.
pub open spec fn after_move(st: RecvSide, wnd: u32) -> RecvSide {
    let k = ready_count_v(st.buf, st.nxt, st.queue.len() as int, wnd) as int;
    RecvSide {
        queue: st.queue + st.buf.take(k),
        buf: st.buf.skip(k),
        nxt: wrap_add(st.nxt, k),
        ..st
    }
}

/// Whether sequence number `sn` lies in the receive window at `nxt`.
pub open spec fn in_window(sn: u32, nxt: u32, wnd: u32) -> bool {
    itimediff(sn, wrap_add(nxt, wnd as int)) < 0 && itimediff(sn, nxt) >= 0
}

/// A received data segment filed and the ready ones moved on; a segment
/// outside the window changes nothing.
pub open spec fn accept_data(st: RecvSide, s: SegView, wnd: u32) -> RecvSide {
    if in_window(s.sn, st.nxt, wnd) {
        after_move(RecvSide { buf: file_seg(st.buf, s), ..st }, wnd)
    } else {
        st
    }
}

/// The segment a data header `h` with payload `payload` is received as.
pub open spec fn data_seg(h: SegHeader, payload: Seq<u8>) -> SegView {
    SegView {
        conv: h.conv,
        cmd: h.cmd as u32,
        frg: h.frg as u32,
        wnd: h.wnd as u32,
        ts: h.ts,
        sn: h.sn,
        una: h.una,
        resendts: 0,
        rto: 0,
        fastack: 0,
        xmit: 0,
        data: payload,
    }
}

/// One received segment's effect on the receiving side: a data segment
/// before the end of the window is acknowledged and, when not already
/// delivered, accepted; a window probe asks for a window announcement.
pub open spec fn segment_effect(st: RecvSide, h: SegHeader, payload: Seq<u8>, wnd: u32) -> RecvSide {
    if h.cmd == IKCP_CMD_PUSH {
        if itimediff(h.sn, wrap_add(st.nxt, wnd as int)) < 0 {
            let acked = RecvSide { acks: st.acks.push((h.sn, h.ts)), ..st };
            accept_data(acked, data_seg(h, payload), wnd)
        } else {
            st
        }
    } else if h.cmd == IKCP_CMD_WASK {
        RecvSide { probe: st.probe | IKCP_ASK_TELL, ..st }
    } else {
        st
    }
}

/// The receiving side after the segments of datagram `d` (up to the first
/// refused one) were received by a control block of conversation `conv`
/// and receive window `wnd`.
pub open spec fn recv_after(st: RecvSide, d: Seq<u8>, conv: u32, wnd: u32) -> RecvSide
    decreases d.len(),
{
    if d.len() < 24 {
        st
    } else {
        let h = parse_header(d);
        if h.conv != conv || d.len() - 24 < h.len || h.len >= 0x8000_0000 || !is_known_cmd(h.cmd) {
            st
        } else {
            recv_after(
                segment_effect(st, h, d.subrange(24, 24 + h.len), wnd),
                d.skip(24 + h.len),
                conv,
                wnd,
            )
        }
    }
}

/// A datagram holding one data segment with the next expected sequence
/// number, reaching a receiver with nothing out of order and room in its
/// queue, puts the segment at the end of the receive queue and schedules
/// its acknowledgement.
pub proof fn law_in_order_segment_delivered(
    st: RecvSide,
    h: SegHeader,
    payload: Seq<u8>,
    conv: u32,
    wnd: u32,
)
    requires
        h.conv == conv,
        h.cmd == IKCP_CMD_PUSH,
        h.len == payload.len(),
        payload.len() < 0x8000_0000,
        h.sn == st.nxt,
        st.buf.len() == 0,
        st.queue.len() < wnd < 0x8000_0000,
    ensures
        recv_after(st, header_bytes(h) + payload, conv, wnd) == (RecvSide {
            queue: st.queue.push(data_seg(h, payload)),
            buf: Seq::empty(),
            nxt: wrap_add(st.nxt, 1),
            acks: st.acks.push((h.sn, h.ts)),
            probe: st.probe,
        }),
{
    let d = header_bytes(h) + payload;
    lemma_header_roundtrip(h, payload);
    assert(d.subrange(24, 24 + h.len) =~= payload);
    assert(d.skip(24 + h.len) =~= Seq::<u8>::empty());
    let s = data_seg(h, payload);
    let acked = RecvSide { acks: st.acks.push((h.sn, h.ts)), ..st };
    assert(itimediff(h.sn, wrap_add(st.nxt, wnd as int)) < 0);
    assert(in_window(s.sn, acked.nxt, wnd));
    assert(file_seg(acked.buf, s) == seq![s]);
    let filed = RecvSide { buf: seq![s], ..acked };
    assert(seq![s].drop_first() =~= Seq::<SegView>::empty());
    assert(seq![s][0] == s);
    assert(s.sn == st.nxt);
    assert(ready_count_v(
        Seq::<SegView>::empty(),
        wrap_add(st.nxt, 1),
        st.queue.len() + 1 as int,
        wnd,
    ) == 0);
    assert(ready_count_v(seq![s], st.nxt, st.queue.len() as int, wnd) == 1);
    assert(seq![s].take(1) =~= seq![s]);
    assert(seq![s].skip(1) =~= Seq::<SegView>::empty());
    assert(st.queue + seq![s] =~= st.queue.push(s));
    assert(segment_effect(st, h, payload, wnd) == after_move(filed, wnd));
    let r = after_move(filed, wnd);
    let target = RecvSide {
        queue: st.queue.push(s),
        buf: Seq::empty(),
        nxt: wrap_add(st.nxt, 1),
        acks: st.acks.push((h.sn, h.ts)),
        probe: st.probe,
    };
    assert(r.queue =~= target.queue);
    assert(r.buf =~= target.buf);
    assert(r == target);
    assert(parse_header(d) == h);
    assert(is_known_cmd(h.cmd));
    assert(d.len() - 24 == h.len);
    assert(recv_after(r, d.skip(24 + h.len), conv, wnd) == r);
}

/// [`ready_count`] depends on the sequence numbers alone.
pub proof fn lemma_ready_count_views(buf: Seq<IKCPSEG>, nxt: u32, nque: int, wnd: u32)
    ensures
        ready_count(buf, nxt, nque, wnd) == ready_count_v(seg_views(buf), nxt, nque, wnd),
    decreases buf.len(),
{
    if buf.len() > 0 {
        assert(seg_views(buf.drop_first()) =~= seg_views(buf).drop_first());
        lemma_ready_count_views(buf.drop_first(), wrap_add(nxt, 1), nque + 1, wnd);
    }
}

/// Plain segments of a concatenation, a prefix, a suffix.
pub proof fn lemma_seg_views_ops(a: Seq<IKCPSEG>, b: Seq<IKCPSEG>, k: int)
    ensures
        seg_views(a + b) == seg_views(a) + seg_views(b),
        0 <= k <= a.len() ==> seg_views(a.take(k)) == seg_views(a).take(k),
        0 <= k <= a.len() ==> seg_views(a.skip(k)) == seg_views(a).skip(k),
{
    assert(seg_views(a + b) =~= seg_views(a) + seg_views(b));
    if 0 <= k <= a.len() {
        assert(seg_views(a.take(k)) =~= seg_views(a).take(k));
        assert(seg_views(a.skip(k)) =~= seg_views(a).skip(k));
    }
}

/// The out-of-order buffer `buf` is in sequence order from `nxt` on: no
/// segment before `nxt`, and each segment strictly before the next.
pub open spec fn buf_in_order(buf: Seq<SegView>, nxt: u32) -> bool {
    &&& forall|i: int| 0 <= i < buf.len() ==> itimediff(#[trigger] buf[i].sn, nxt) >= 0
    &&& forall|i: int, j: int|
        #![trigger buf[i], buf[j]]
        0 <= i < j < buf.len() ==> itimediff(buf[i].sn, nxt) < itimediff(buf[j].sn, nxt)
}

/// Two numbers at or after `n` are as far apart as their distances from
/// `n`.
proof fn lemma_offsets(a: u32, b: u32, n: u32)
    requires
        itimediff(a, n) >= 0,
        itimediff(b, n) >= 0,
    ensures
        itimediff(a, b) == itimediff(a, n) - itimediff(b, n),
        itimediff(a, n) == itimediff(b, n) ==> a == b,
{
}

/// Moving `k` on from `n` is a distance of `k`, for `k` below 2^31.
proof fn lemma_step_distance(n: u32, k: int)
    requires
        0 <= k < 0x8000_0000,
    ensures
        itimediff(wrap_add(n, k), n) == k,
{
}

/// Moving the origin `k` on, up to a number's distance from it, brings
/// the number `k` closer.
proof fn lemma_offset_shift(x: u32, n: u32, k: int)
    requires
        0 <= k <= itimediff(x, n),
    ensures
        itimediff(x, wrap_add(n, k)) == itimediff(x, n) - k,
{
}

/// Two steps are one step of their sum.
proof fn lemma_wrap_twice(x: u32, a: int, b: int)
    requires
        0 <= a,
        0 <= b,
    ensures
        wrap_add(wrap_add(x, a), b) == wrap_add(x, a + b),
{
    vstd::arithmetic::div_mod::lemma_add_mod_noop(x + a, b, 0x1_0000_0000);
    vstd::arithmetic::div_mod::lemma_mod_twice(x + a, 0x1_0000_0000);
}

/// In a buffer in order from `nxt`, the `i`-th segment is at least `i` on.
proof fn lemma_offset_at_least(buf: Seq<SegView>, nxt: u32, i: int)
    requires
        buf_in_order(buf, nxt),
        0 <= i < buf.len(),
    ensures
        itimediff(buf[i].sn, nxt) >= i,
    decreases i,
{
    if i > 0 {
        lemma_offset_at_least(buf, nxt, i - 1);
        assert(itimediff(buf[i - 1].sn, nxt) < itimediff(buf[i].sn, nxt));
    }
}

/// The segments that [`ready_count_v`] counts continue the sequence from
/// `nxt`.
proof fn lemma_ready_numbers(buf: Seq<SegView>, nxt: u32, nque: int, wnd: u32)
    ensures
        ready_count_v(buf, nxt, nque, wnd) <= buf.len(),
        forall|i: int|
            0 <= i < ready_count_v(buf, nxt, nque, wnd) ==> (#[trigger] buf[i]).sn == wrap_add(
                nxt,
                i,
            ),
    decreases buf.len(),
{
    if buf.len() > 0 && buf[0].sn == nxt && nque < wnd {
        let t = buf.drop_first();
        lemma_ready_numbers(t, wrap_add(nxt, 1), nque + 1, wnd);
        assert forall|i: int| 0 <= i < ready_count_v(buf, nxt, nque, wnd) implies (
        #[trigger] buf[i]).sn == wrap_add(nxt, i) by {
            if i == 0 {
                assert(wrap_add(nxt, 0) == nxt);
            } else {
                assert(buf[i] == t[i - 1]);
                lemma_wrap_twice(nxt, 1, i - 1);
            }
        }
    }
}

/// Filing a segment at or after `nxt` keeps a buffer in order, and every
/// segment of the result is at most as far on as the new one or the old
/// last one.
proof fn lemma_file_seg_order(buf: Seq<SegView>, s: SegView, nxt: u32)
    requires
        buf_in_order(buf, nxt),
        itimediff(s.sn, nxt) >= 0,
    ensures
        buf_in_order(file_seg(buf, s), nxt),
        forall|i: int|
            0 <= i < file_seg(buf, s).len() ==> itimediff(#[trigger] file_seg(buf, s)[i].sn, nxt)
                <= if buf.len() > 0 && itimediff(buf.last().sn, nxt) > itimediff(s.sn, nxt) {
                itimediff(buf.last().sn, nxt)
            } else {
                itimediff(s.sn, nxt)
            },
    decreases buf.len(),
{
    let r = file_seg(buf, s);
    if buf.len() == 0 {
        assert(r == seq![s]);
    } else {
        let last = buf.last();
        let n = buf.len() - 1;
        assert(last == buf[n]);
        assert forall|i: int| 0 <= i < buf.len() implies itimediff(#[trigger] buf[i].sn, nxt)
            <= itimediff(last.sn, nxt) by {
            if i < n {
                assert(itimediff(buf[i].sn, nxt) < itimediff(buf[n].sn, nxt));
            }
        }
        lemma_offsets(s.sn, last.sn, nxt);
        if last.sn == s.sn {
        } else if itimediff(s.sn, last.sn) > 0 {
            assert(r == buf.push(s));
            assert forall|i: int| 0 <= i < r.len() implies itimediff(#[trigger] r[i].sn, nxt) >= 0 by {
                if i < buf.len() {
                    assert(r[i] == buf[i]);
                }
            }
            assert forall|i: int, j: int| 0 <= i < j < r.len() implies #[trigger] itimediff(r[i].sn, nxt)
                < #[trigger] itimediff(r[j].sn, nxt) by {
                assert(r[i] == buf[i]);
                if j < buf.len() {
                    assert(r[j] == buf[j]);
                }
            }
            assert forall|i: int| 0 <= i < r.len() implies itimediff(#[trigger] r[i].sn, nxt)
                <= itimediff(s.sn, nxt) by {
                if i < buf.len() {
                    assert(r[i] == buf[i]);
                }
            }
        } else {
            let p = buf.drop_last();
            assert(buf_in_order(p, nxt)) by {
                assert forall|i: int| 0 <= i < p.len() implies itimediff(#[trigger] p[i].sn, nxt) >= 0 by {
                    assert(p[i] == buf[i]);
                }
                assert forall|i: int, j: int| 0 <= i < j < p.len() implies #[trigger] itimediff(
                    p[i].sn,
                    nxt,
                ) < #[trigger] itimediff(p[j].sn, nxt) by {
                    assert(p[i] == buf[i]);
                    assert(p[j] == buf[j]);
                }
            }
            lemma_file_seg_order(p, s, nxt);
            let f = file_seg(p, s);
            assert(r == f.push(last));
            assert(itimediff(s.sn, nxt) < itimediff(last.sn, nxt));
            if p.len() > 0 {
                assert(p.last() == buf[n - 1]);
                assert(itimediff(buf[n - 1].sn, nxt) < itimediff(buf[n].sn, nxt));
            }
            assert forall|i: int| 0 <= i < f.len() implies itimediff(#[trigger] f[i].sn, nxt)
                < itimediff(last.sn, nxt) by {}
            assert forall|i: int| 0 <= i < r.len() implies itimediff(#[trigger] r[i].sn, nxt) >= 0 by {
                if i < f.len() {
                    assert(r[i] == f[i]);
                }
            }
            assert forall|i: int, j: int| 0 <= i < j < r.len() implies #[trigger] itimediff(r[i].sn, nxt)
                < #[trigger] itimediff(r[j].sn, nxt) by {
                assert(r[i] == f[i]);
                if j < f.len() {
                    assert(r[j] == f[j]);
                }
            }
            assert forall|i: int| 0 <= i < r.len() implies itimediff(#[trigger] r[i].sn, nxt)
                <= itimediff(last.sn, nxt) by {
                if i < f.len() {
                    assert(r[i] == f[i]);
                }
            }
        }
    }
}

/// Moving the ready segments on keeps the rest of the buffer in order from
/// the new next expected number.
proof fn lemma_after_move_order(st: RecvSide, wnd: u32)
    requires
        buf_in_order(st.buf, st.nxt),
    ensures
        buf_in_order(after_move(st, wnd).buf, after_move(st, wnd).nxt),
{
    let k = ready_count_v(st.buf, st.nxt, st.queue.len() as int, wnd) as int;
    lemma_ready_numbers(st.buf, st.nxt, st.queue.len() as int, wnd);
    let b = st.buf;
    let r = after_move(st, wnd);
    if k == 0 {
        assert(wrap_add(st.nxt, 0) == st.nxt);
        assert(b.skip(0) =~= b);
    } else {
        lemma_offset_at_least(b, st.nxt, k - 1);
        assert(b[k - 1].sn == wrap_add(st.nxt, k - 1));
        lemma_step_distance(st.nxt, k - 1);
        assert forall|i: int| k <= i < b.len() implies itimediff(#[trigger] b[i].sn, st.nxt) >= k by {
            assert(itimediff(b[k - 1].sn, st.nxt) < itimediff(b[i].sn, st.nxt));
        }
        assert forall|i: int| 0 <= i < r.buf.len() implies itimediff(#[trigger] r.buf[i].sn, r.nxt)
            == itimediff(b[i + k].sn, st.nxt) - k by {
            assert(r.buf[i] == b[i + k]);
            lemma_offset_shift(b[i + k].sn, st.nxt, k);
        }
        assert forall|i: int, j: int| 0 <= i < j < r.buf.len() implies #[trigger] itimediff(
            r.buf[i].sn,
            r.nxt,
        ) < #[trigger] itimediff(r.buf[j].sn, r.nxt) by {
            assert(itimediff(b[i + k].sn, st.nxt) < itimediff(b[j + k].sn, st.nxt));
        }
    }
}

/// Accepting a data segment keeps the out-of-order buffer in sequence
/// order: a segment that arrives before one already waiting is filed in
/// front of it, so the buffer never blocks on a segment that has arrived.
pub proof fn law_accept_keeps_order(st: RecvSide, s: SegView, wnd: u32)
    requires
        buf_in_order(st.buf, st.nxt),
    ensures
        buf_in_order(accept_data(st, s, wnd).buf, accept_data(st, s, wnd).nxt),
{
    if in_window(s.sn, st.nxt, wnd) {
        lemma_file_seg_order(st.buf, s, st.nxt);
        lemma_after_move_order(RecvSide { buf: file_seg(st.buf, s), ..st }, wnd);
    }
}

/// Whatever datagrams a receiver is fed, its out-of-order buffer stays in
/// sequence order from the next expected number on (see [`buf_in_order`]).
pub proof fn law_receive_keeps_order(st: RecvSide, d: Seq<u8>, conv: u32, wnd: u32)
    requires
        buf_in_order(st.buf, st.nxt),
    ensures
        buf_in_order(recv_after(st, d, conv, wnd).buf, recv_after(st, d, conv, wnd).nxt),
    decreases d.len(),
{
    if d.len() >= 24 {
        let h = parse_header(d);
        if !(h.conv != conv || d.len() - 24 < h.len || h.len >= 0x8000_0000 || !is_known_cmd(h.cmd)) {
            let payload = d.subrange(24, 24 + h.len);
            let st1 = segment_effect(st, h, payload, wnd);
            if h.cmd == IKCP_CMD_PUSH && itimediff(h.sn, wrap_add(st.nxt, wnd as int)) < 0 {
                let acked = RecvSide { acks: st.acks.push((h.sn, h.ts)), ..st };
                law_accept_keeps_order(acked, data_seg(h, payload), wnd);
            }
            law_receive_keeps_order(st1, d.skip(24 + h.len), conv, wnd);
        }
    }
}

/// A segment that arrives after the one it follows, while that one was
/// lost and is sent again, is delivered with it, in sequence order: the
/// next expected segment and the one after it, accepted in either order
/// by a receiver with nothing out of order and room for both, end up
/// together at the end of the receive queue, first one first.
pub proof fn law_gap_filled_in_order(st: RecvSide, s0: SegView, s1: SegView, wnd: u32)
    requires
        st.buf.len() == 0,
        s0.sn == st.nxt,
        s1.sn == wrap_add(st.nxt, 1),
        st.queue.len() + 2 <= wnd < 0x8000_0000,
    ensures
        accept_data(accept_data(st, s1, wnd), s0, wnd) == accept_data(accept_data(st, s0, wnd), s1, wnd),
        accept_data(accept_data(st, s1, wnd), s0, wnd).queue == st.queue + seq![s0, s1],
        accept_data(accept_data(st, s1, wnd), s0, wnd).buf.len() == 0,
        accept_data(accept_data(st, s1, wnd), s0, wnd).nxt == wrap_add(st.nxt, 2),
{
    let n = st.nxt;
    let w = wnd as int;
    lemma_step_distance(n, 1);
    lemma_step_distance(n, w);
    lemma_step_distance(n, 0);
    assert(wrap_add(n, 0) == n);
    assert(s1.sn != s0.sn);
    lemma_offsets(s1.sn, wrap_add(n, w), n);
    lemma_offsets(s0.sn, wrap_add(n, w), n);
    assert(in_window(s0.sn, n, wnd));
    assert(in_window(s1.sn, n, wnd));
    let n1 = wrap_add(n, 1);
    let n2 = wrap_add(n, 2);
    lemma_wrap_twice(n, 1, 1);
    lemma_wrap_twice(n, 1, w);
    lemma_step_distance(n1, w);
    lemma_step_distance(n1, 0);
    assert(wrap_add(n1, 0) == n1);
    lemma_offsets(s1.sn, wrap_add(n1, w), n1);
    assert(in_window(s1.sn, n1, wnd));
    // s1 first: it waits in the buffer.
    let a1 = accept_data(st, s1, wnd);
    assert(file_seg(st.buf, s1) == seq![s1]);
    assert(ready_count_v(seq![s1], n, st.queue.len() as int, wnd) == 0);
    assert(seq![s1].take(0) =~= Seq::<SegView>::empty());
    assert(seq![s1].skip(0) =~= seq![s1]);
    assert(st.queue + Seq::<SegView>::empty() =~= st.queue);
    assert(a1 == RecvSide { buf: seq![s1], ..st });
    // then s0: filed in front of it, and both move on.
    let b = file_seg(seq![s1], s0);
    assert(itimediff(s0.sn, s1.sn) == -1);
    assert(seq![s1].drop_last() =~= Seq::<SegView>::empty());
    assert(seq![s1].last() == s1);
    assert(b == file_seg(seq![s1].drop_last(), s0).push(s1));
    assert(file_seg(Seq::<SegView>::empty(), s0) == seq![s0]);
    assert(b == seq![s0].push(s1));
    assert(b =~= seq![s0, s1]);
    let ql = st.queue.len() as int;
    assert(seq![s0, s1].drop_first() =~= seq![s1]);
    assert(seq![s1].drop_first() =~= Seq::<SegView>::empty());
    assert(ready_count_v(Seq::<SegView>::empty(), n2, ql + 2, wnd) == 0);
    assert(ready_count_v(seq![s1], n1, ql + 1, wnd) == 1);
    assert(ready_count_v(seq![s0, s1], n, ql, wnd) == 2);
    let r1 = accept_data(a1, s0, wnd);
    assert(seq![s0, s1].take(2) =~= seq![s0, s1]);
    assert(seq![s0, s1].skip(2) =~= Seq::<SegView>::empty());
    // s0 first: it moves on at once, then s1 follows it.
    let a0 = accept_data(st, s0, wnd);
    assert(file_seg(st.buf, s0) == seq![s0]);
    assert(seq![s0].drop_first() =~= Seq::<SegView>::empty());
    assert(ready_count_v(Seq::<SegView>::empty(), n1, ql + 1, wnd) == 0);
    assert(ready_count_v(seq![s0], n, ql, wnd) == 1);
    assert(seq![s0].take(1) =~= seq![s0]);
    assert(seq![s0].skip(1) =~= Seq::<SegView>::empty());
    assert(a0 == RecvSide { queue: st.queue + seq![s0], buf: Seq::empty(), nxt: n1, ..st });
    let r0 = accept_data(a0, s1, wnd);
    assert(file_seg(Seq::<SegView>::empty(), s1) == seq![s1]);
    assert(seq![s1].take(1) =~= seq![s1]);
    assert(seq![s1].skip(1) =~= Seq::<SegView>::empty());
    assert(st.queue + seq![s0] + seq![s1] =~= st.queue + seq![s0, s1]);
    assert(r0.queue =~= r1.queue);
    assert(r0.buf =~= r1.buf);
}

} // verus!
