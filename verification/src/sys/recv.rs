//! The receiving side: peeking at and reading whole messages, and moving
//! segments that arrived in order from `rcv_buf` to `rcv_queue`.

use vstd::prelude::*;
use super::deliver::{after_move, lemma_ready_count_views, lemma_seg_views_ops, recv_side};
use super::send::{concat, datas, frag_count, frgs, lemma_concat_push, lemma_pieces_concat, lemma_pieces_len, piece_frgs, pieces};
use super::{
    chain_bytes, chain_count, flat, peek_size, wrap_add, add_wrap, IKCPCB, IKCPSEG,
    IKCP_ASK_TELL, IKCP_WND_RCV,
};

verus! {

/// Appending a segment appends its payload.
pub proof fn lemma_flat_push(q: Seq<IKCPSEG>, s: IKCPSEG)
    ensures
        flat(q.push(s)) == flat(q) + s.data@,
{
    assert(q.push(s).drop_last() =~= q);
}

/// The payload of a one-segment queue.
pub proof fn lemma_flat_single(s: IKCPSEG)
    ensures
        flat(seq![s]) == s.data@,
{
    let e = Seq::<IKCPSEG>::empty();
    assert(flat(e) =~= Seq::<u8>::empty());
    assert(seq![s].drop_last() =~= e);
    assert(flat(e) + s.data@ =~= s.data@);
}

/// The message at the front of a queue does not run past its end.
pub proof fn lemma_chain_count_bound(q: Seq<IKCPSEG>)
    ensures
        chain_count(q) <= q.len(),
        q.len() > 0 ==> chain_count(q) >= 1,
    decreases q.len(),
{
    if q.len() > 0 && q[0].frg != 0 {
        lemma_chain_count_bound(q.drop_first());
    }
}

/// The payloads of a concatenation are the concatenation of payloads.
pub proof fn lemma_flat_concat(a: Seq<IKCPSEG>, b: Seq<IKCPSEG>)
    ensures
        flat(a + b) == flat(a) + flat(b),
    decreases b.len(),
{
    if b.len() == 0 {
        assert(a + b =~= a);
        assert(flat(b) =~= Seq::<u8>::empty());
        assert(flat(a) + flat(b) =~= flat(a));
    } else {
        lemma_flat_concat(a, b.drop_last());
        assert((a + b).drop_last() =~= a + b.drop_last());
        assert((a + b).last() == b.last());
        assert(flat(a) + flat(b) =~= flat(a) + flat(b.drop_last()) + b.last().data@);
    }
}

/// Walking the front of a queue past `i` segments none of which ends a
/// message: the message at the front spans those `i` segments and the
/// message at the front of what follows.
pub proof fn lemma_chain_prefix(q: Seq<IKCPSEG>, i: int)
    requires
        0 <= i <= q.len(),
        forall|j: int| 0 <= j < i ==> (#[trigger] q[j]).frg != 0,
    ensures
        chain_count(q) == i + chain_count(q.skip(i)),
        chain_bytes(q) == flat(q.take(i)) + chain_bytes(q.skip(i)),
    decreases i,
{
    if i == 0 {
        assert(q.skip(0) =~= q);
        assert(q.take(0) =~= Seq::<IKCPSEG>::empty());
        assert(flat(q.take(0)) + chain_bytes(q) =~= chain_bytes(q));
    } else {
        let t = q.drop_first();
        assert forall|j: int| 0 <= j < i - 1 implies (#[trigger] t[j]).frg != 0 by {
            assert(t[j] == q[j + 1]);
        }
        lemma_chain_prefix(t, i - 1);
        assert(t.skip(i - 1) =~= q.skip(i));
        assert(q[0].frg != 0);
        assert(chain_count(q) == 1 + chain_count(t));
        let c = chain_count(t) as int;
        lemma_chain_count_bound(t);
        assert(q.take(chain_count(q) as int) =~= seq![q[0]] + t.take(c));
        lemma_flat_concat(seq![q[0]], t.take(c));
        assert(q.take(i) =~= seq![q[0]] + t.take(i - 1));
        lemma_flat_concat(seq![q[0]], t.take(i - 1));
        lemma_flat_single(q[0]);
        assert(chain_bytes(q) =~= flat(q.take(i)) + chain_bytes(q.skip(i)));
    }
}

/// A segment ending a message ends the message at the front.
pub proof fn lemma_chain_end(q: Seq<IKCPSEG>, i: int)
    requires
        0 <= i < q.len(),
        forall|j: int| 0 <= j < i ==> (#[trigger] q[j]).frg != 0,
        q[i].frg == 0,
    ensures
        chain_count(q) == i + 1,
        chain_bytes(q) == flat(q.take(i + 1)),
{
    lemma_chain_prefix(q, i);
    let r = q.skip(i);
    assert(r[0] == q[i]);
    assert(chain_count(r) == 1);
    assert(r.take(1) =~= seq![q[i]]);
    lemma_flat_single(q[i]);
    assert(q.take(i + 1) =~= q.take(i).push(q[i]));
    lemma_flat_push(q.take(i), q[i]);
}

/// The message runs to the end of a queue in which no segment ends one.
pub proof fn lemma_chain_all(q: Seq<IKCPSEG>)
    requires
        forall|j: int| 0 <= j < q.len() ==> (#[trigger] q[j]).frg != 0,
    ensures
        chain_count(q) == q.len(),
        chain_bytes(q) == flat(q),
{
    lemma_chain_prefix(q, q.len() as int);
    assert(q.skip(q.len() as int) =~= Seq::<IKCPSEG>::empty());
    assert(q.take(q.len() as int) =~= q);
    assert(flat(q.take(q.len() as int)) + chain_bytes(q.skip(q.len() as int)) =~= flat(q)) by {
        assert(chain_bytes(Seq::<IKCPSEG>::empty()) =~= Seq::<u8>::empty());
    }
}

/// The payloads of segments, concatenated, are their bytes.
pub proof fn lemma_flat_is_concat(m: Seq<IKCPSEG>)
    ensures
        flat(m) == concat(datas(m)),
    decreases m.len(),
{
    if m.len() == 0 {
        assert(datas(m) =~= Seq::<Seq<u8>>::empty());
    } else {
        let p = m.drop_last();
        lemma_flat_is_concat(p);
        assert(datas(m) =~= datas(p).push(m.last().data@));
        lemma_concat_push(datas(p), m.last().data@);
    }
}

/// What a message-mode send queues reads back whole: segments carrying
/// the pieces of `d` with fragment indexes counting down to 0, at the
/// front of a receive queue (whatever follows them), make a message of
/// exactly the bytes of `d`.
pub proof fn law_sent_message_reassembles(
    m: Seq<IKCPSEG>,
    rest: Seq<IKCPSEG>,
    d: Seq<u8>,
    mss: int,
)
    requires
        mss > 0,
        frag_count(d.len() as int, mss) < IKCP_WND_RCV,
        datas(m) == pieces(d, mss),
        frgs(m) == piece_frgs(frag_count(d.len() as int, mss), false),
    ensures
        chain_bytes(m + rest) == d,
        peek_size(m + rest) == d.len(),
{
    lemma_pieces_len(d, mss);
    let n = m.len() as int;
    let q = m + rest;
    assert(n == frag_count(d.len() as int, mss));
    assert forall|j: int| 0 <= j < n - 1 implies (#[trigger] q[j]).frg != 0 by {
        assert(frgs(m)[j] == q[j].frg);
        assert(frgs(m)[j] == (n - 1 - j) as u32);
    }
    assert(frgs(m)[n - 1] == q[n - 1].frg);
    lemma_chain_end(q, n - 1);
    assert(q.take(n) =~= m);
    lemma_flat_is_concat(m);
    lemma_pieces_concat(d, mss);
    if q[0].frg == 0 {
        assert(n == 1);
        assert(datas(m)[0] == q[0].data@);
        assert(flat(m) == flat(m.drop_last()) + m[0].data@);
        assert(m.drop_last() =~= Seq::<IKCPSEG>::empty());
        assert(flat(m.drop_last()) =~= Seq::<u8>::empty());
        assert(flat(m) =~= q[0].data@);
    } else {
        assert(frgs(m)[0] == q[0].frg);
    }
}

/// The number of segments at the front of `buf` that continue the
/// sequence at `nxt` and fit into a receive queue of `nque` segments
/// under window `wnd`.
pub open spec fn ready_count(buf: Seq<IKCPSEG>, nxt: u32, nque: int, wnd: u32) -> nat
    decreases buf.len(),
{
    if buf.len() > 0 && buf[0].sn == nxt && nque < wnd {
        1 + ready_count(buf.drop_first(), wrap_add(nxt, 1), nque + 1, wnd)
    } else {
        0
    }
}

proof fn lemma_ready_count_bound(buf: Seq<IKCPSEG>, nxt: u32, nque: int, wnd: u32)
    ensures
        ready_count(buf, nxt, nque, wnd) <= buf.len(),
        nque <= wnd ==> nque + ready_count(buf, nxt, nque, wnd) <= wnd,
    decreases buf.len(),
{
    if buf.len() > 0 && buf[0].sn == nxt && nque < wnd {
        lemma_ready_count_bound(buf.drop_first(), wrap_add(nxt, 1), nque + 1, wnd);
    }
}

/// Moves the segments at the front of `rcv_buf` that arrived in order to
/// the end of `rcv_queue`, as long as the receive window allows, advancing
/// `rcv_nxt` past them.
pub fn move_ready(kcp: &mut IKCPCB)
    requires
        old(kcp).wf(),
    ensures
        final(kcp).wf(),
        ({
            let k = ready_count(
                old(kcp).rcv_buf@,
                old(kcp).rcv_nxt,
                old(kcp).rcv_queue@.len() as int,
                old(kcp).rcv_wnd,
            ) as int;
            &&& final(kcp).rcv_queue@ == old(kcp).rcv_queue@ + old(kcp).rcv_buf@.take(k)
            &&& final(kcp).rcv_buf@ == old(kcp).rcv_buf@.skip(k)
            &&& final(kcp).rcv_nxt == wrap_add(old(kcp).rcv_nxt, k)
        }),
        final(kcp).acklist@ == old(kcp).acklist@,
        final(kcp).probe == old(kcp).probe,
        final(kcp).output == old(kcp).output,
        final(kcp).same_config(old(kcp)),
        final(kcp).same_send_side(old(kcp)),
        final(kcp).same_timing(old(kcp)),
        recv_side(final(kcp)) == after_move(recv_side(old(kcp)), old(kcp).rcv_wnd),
{
    let ghost q0 = kcp.rcv_queue@;
    let ghost b0 = kcp.rcv_buf@;
    let ghost n0 = kcp.rcv_nxt;
    let ghost w = kcp.rcv_wnd;
    let ghost total = ready_count(b0, n0, q0.len() as int, w) as int;
    let ghost k: int = 0;
    proof {
        lemma_ready_count_bound(b0, n0, q0.len() as int, w);
    }
    while kcp.rcv_buf.len() > 0 && kcp.rcv_buf[0].sn == kcp.rcv_nxt
        && (kcp.rcv_queue.len() as u64) < (kcp.rcv_wnd as u64)
        invariant_except_break
            0 <= k <= b0.len(),
            kcp.rcv_queue@ == q0 + b0.take(k),
            kcp.rcv_buf@ == b0.skip(k),
            kcp.rcv_nxt == wrap_add(n0, k),
            kcp.rcv_wnd == w,
            k + ready_count(kcp.rcv_buf@, kcp.rcv_nxt, kcp.rcv_queue@.len() as int, w) == total,
            kcp.rcv_queue@.len() <= u32::MAX,
            forall|x: int| 0 <= x < b0.len() ==> #[trigger] b0[x].data@.len() < 0x8000_0000,
            forall|x: int| 0 <= x < q0.len() ==> #[trigger] q0[x].data@.len() < 0x8000_0000,
            kcp.wf(),
            kcp.acklist@ == old(kcp).acklist@,
            kcp.probe == old(kcp).probe,
            kcp.output == old(kcp).output,
            kcp.same_config(old(kcp)),
            kcp.same_send_side(old(kcp)),
            kcp.same_timing(old(kcp)),
        ensures
            k == total,
            kcp.rcv_queue@ == q0 + b0.take(k),
            kcp.rcv_buf@ == b0.skip(k),
            kcp.rcv_nxt == wrap_add(n0, k),
            kcp.wf(),
            kcp.acklist@ == old(kcp).acklist@,
            kcp.probe == old(kcp).probe,
            kcp.output == old(kcp).output,
            kcp.same_config(old(kcp)),
            kcp.same_send_side(old(kcp)),
            kcp.same_timing(old(kcp)),
        decreases kcp.rcv_buf@.len(),
    {
        let ghost before = kcp.rcv_buf@;
        let seg = kcp.rcv_buf.remove(0);
        kcp.rcv_queue.push(seg);
        kcp.rcv_nxt = add_wrap(kcp.rcv_nxt, 1);
        proof {
            assert(before.drop_first() =~= kcp.rcv_buf@);
            assert(b0.take(k + 1) =~= b0.take(k).push(b0[k]));
            assert(b0[k] == before[0]);
            assert(b0.skip(k + 1) =~= before.drop_first());
            k = k + 1;
            assert(kcp.rcv_queue@ =~= q0 + b0.take(k));
            assert(forall|i: int|
                0 <= i < kcp.rcv_queue@.len() ==> #[trigger] kcp.rcv_queue@[i].data@.len()
                    < 0x8000_0000) by {
                assert forall|i: int| 0 <= i < kcp.rcv_queue@.len() implies #[trigger] kcp.rcv_queue@[i].data@.len()
                    < 0x8000_0000 by {
                    if i < q0.len() {
                        assert(kcp.rcv_queue@[i] == q0[i]);
                    } else {
                        assert(kcp.rcv_queue@[i] == b0[i - q0.len()]);
                    }
                }
            }
            assert(forall|i: int|
                0 <= i < kcp.rcv_buf@.len() ==> #[trigger] kcp.rcv_buf@[i].data@.len()
                    < 0x8000_0000) by {
                assert forall|i: int| 0 <= i < kcp.rcv_buf@.len() implies #[trigger] kcp.rcv_buf@[i].data@.len()
                    < 0x8000_0000 by {
                    assert(kcp.rcv_buf@[i] == before[i + 1]);
                }
            }
        }
    }
    proof {
        assert(b0.skip(k) == kcp.rcv_buf@);
        lemma_ready_count_views(b0, n0, q0.len() as int, w);
        lemma_seg_views_ops(q0, b0.take(k), 0);
        lemma_seg_views_ops(b0, b0, k);
        assert(recv_side(kcp) =~= after_move(recv_side(old(kcp)), w));
    }
}

/// The size of the message at the front of the receive queue, or -1 when
/// no whole message is there yet.
pub fn ikcp_peeksize(kcp: &IKCPCB) -> (r: i64)
    requires
        kcp.wf(),
    ensures
        r == peek_size(kcp.rcv_queue@),
{
    let n = kcp.rcv_queue.len();
    if n == 0 {
        return -1;
    }
    let frg = kcp.rcv_queue[0].frg;
    if frg == 0 {
        return kcp.rcv_queue[0].data.len() as i64;
    }
    if (n as u64) < (frg as u64) + 1 {
        return -1;
    }
    let ghost q = kcp.rcv_queue@;
    let mut length: u64 = 0;
    let mut i: usize = 0;
    loop
        invariant
            n == q.len(),
            q == kcp.rcv_queue@,
            kcp.wf(),
            0 <= i <= n,
            forall|j: int| 0 <= j < i ==> (#[trigger] q[j]).frg != 0,
            length == flat(q.take(i as int)).len(),
            length <= i * 0x7fff_ffff,
            n <= u32::MAX,
            n > 0,
            q[0].frg != 0,
            q.len() >= q[0].frg + 1,
        decreases n - i,
    {
        if i == n {
            proof {
                lemma_chain_all(q);
                assert(q.take(i as int) =~= q);
                assert(length == chain_bytes(q).len());
                assert(length <= i * 0x7fff_ffff);
                assert(i * 0x7fff_ffff <= 0xffff_ffff * 0x7fff_ffff) by (nonlinear_arith)
                    requires
                        i <= 0xffff_ffff,
                ;
            }
            return length as i64;
        }
        let seg = &kcp.rcv_queue[i];
        let len = seg.data.len();
        proof {
            assert(q[i as int].data@.len() < 0x8000_0000);
            lemma_flat_push(q.take(i as int), q[i as int]);
            assert(q.take(i + 1) =~= q.take(i as int).push(q[i as int]));
            assert(length + len <= (i + 1) * 0x8000_0000) by (nonlinear_arith)
                requires
                    length <= i * 0x7fff_ffff,
                    len < 0x8000_0000,
            ;
            assert((i + 1) * 0x8000_0000 <= 0x1_0000_0000 * 0x8000_0000) by (nonlinear_arith)
                requires
                    i + 1 <= 0x1_0000_0000,
            ;
        }
        length = length + len as u64;
        if seg.frg == 0 {
            proof {
                lemma_chain_end(q, i as int);
                assert(length == chain_bytes(q).len());
                assert(length <= 0x7fff_ffff_ffff_ffff);
            }
            return length as i64;
        }
        i = i + 1;
    }
}

/// What `ikcp_peeksize` reports, when it is a size, is the size of the
/// message at the front.
pub proof fn lemma_peek_is_chain(q: Seq<IKCPSEG>)
    requires
        q.len() > 0,
        peek_size(q) >= 0,
    ensures
        peek_size(q) == chain_bytes(q).len(),
{
    if q[0].frg == 0 {
        lemma_chain_end(q, 0);
        assert(q.take(1) =~= seq![q[0]]);
        lemma_flat_single(q[0]);
    }
}

/// Copies `src` into `dst` at offset `at`.
fn copy_into(dst: &mut [u8], at: usize, src: &Vec<u8>)
    requires
        at + src@.len() <= old(dst)@.len(),
    ensures
        final(dst)@.len() == old(dst)@.len(),
        final(dst)@.subrange(0, at as int) == old(dst)@.subrange(0, at as int),
        final(dst)@.subrange(at as int, at + src@.len()) == src@,
        final(dst)@.subrange(at + src@.len(), old(dst)@.len() as int) == old(dst)@.subrange(
            at + src@.len(),
            old(dst)@.len() as int,
        ),
{
    let n = src.len();
    let _m = dst.len();
    let mut j: usize = 0;
    while j < n
        invariant
            n == src@.len(),
            at + n <= old(dst)@.len(),
            _m == old(dst)@.len(),
            dst@.len() == old(dst)@.len(),
            0 <= j <= n,
            forall|x: int| 0 <= x < at ==> dst@[x] == old(dst)@[x],
            forall|x: int| at <= x < at + j ==> dst@[x] == src@[x - at],
            forall|x: int| at + n <= x < dst@.len() ==> dst@[x] == old(dst)@[x],
        decreases n - j,
    {
        dst[at + j] = src[j];
        j = j + 1;
    }
    assert(dst@.subrange(0, at as int) =~= old(dst)@.subrange(0, at as int));
    assert(dst@.subrange(at as int, at + n) =~= src@);
    assert(dst@.subrange(at + n, old(dst)@.len() as int) =~= old(dst)@.subrange(
        at + n,
        old(dst)@.len() as int,
    ));
}

/// Reads the message at the front of the receive queue into `buffer`.
///
/// Returns -1 when the receive queue is empty, -2 when it does not hold a
/// whole message yet, -3 when `buffer` is smaller than the message; in
/// these cases nothing changes. Otherwise the message's bytes are written
/// to the front of `buffer`, its segments leave the queue, segments that
/// arrived in order move up from `rcv_buf`, a window update is scheduled
/// when the queue had filled the window and no longer does, and the
/// message's size is returned.
pub fn ikcp_recv(kcp: &mut IKCPCB, buffer: &mut [u8]) -> (r: i64)
    requires
        old(kcp).wf(),
    ensures
        final(kcp).wf(),
        final(kcp).same_config(old(kcp)),
        final(kcp).same_send_side(old(kcp)),
        final(kcp).same_timing(old(kcp)),
        final(kcp).output == old(kcp).output,
        final(kcp).acklist@ == old(kcp).acklist@,
        final(buffer)@.len() == old(buffer)@.len(),
        old(kcp).rcv_queue@.len() == 0 ==> r == -1,
        old(kcp).rcv_queue@.len() > 0 && peek_size(old(kcp).rcv_queue@) < 0 ==> r == -2,
        old(kcp).rcv_queue@.len() > 0 && peek_size(old(kcp).rcv_queue@) >= 0 && peek_size(
            old(kcp).rcv_queue@,
        ) > old(buffer)@.len() ==> r == -3,
        old(kcp).rcv_queue@.len() > 0 && 0 <= peek_size(old(kcp).rcv_queue@) <= old(buffer)@.len()
            ==> r >= 0,
        r < 0 ==> final(kcp).same_recv_side(old(kcp)) && final(buffer)@ == old(buffer)@,
        r < 0 ==> *final(kcp) == *old(kcp),
        r >= 0 ==> {
            let q = old(kcp).rcv_queue@;
            let c = chain_count(q) as int;
            let rest = q.skip(c);
            let k = ready_count(
                old(kcp).rcv_buf@,
                old(kcp).rcv_nxt,
                rest.len() as int,
                old(kcp).rcv_wnd,
            ) as int;
            &&& q.len() > 0
            &&& r == peek_size(q)
            &&& r <= old(buffer)@.len()
            &&& final(buffer)@.subrange(0, r as int) == chain_bytes(q)
            &&& final(buffer)@.subrange(r as int, old(buffer)@.len() as int) == old(
                buffer,
            )@.subrange(r as int, old(buffer)@.len() as int)
            &&& final(kcp).rcv_queue@ == rest + old(kcp).rcv_buf@.take(k)
            &&& final(kcp).rcv_buf@ == old(kcp).rcv_buf@.skip(k)
            &&& final(kcp).rcv_nxt == wrap_add(old(kcp).rcv_nxt, k)
            &&& final(kcp).probe == if q.len() >= old(kcp).rcv_wnd && final(kcp).rcv_queue@.len()
                < old(kcp).rcv_wnd {
                old(kcp).probe | IKCP_ASK_TELL
            } else {
                old(kcp).probe
            }
        },
{
    if kcp.rcv_queue.len() == 0 {
        return -1;
    }
    let peek = ikcp_peeksize(kcp);
    if peek < 0 {
        return -2;
    }
    if (peek as u64) > (buffer.len() as u64) {
        return -3;
    }
    let recover = (kcp.rcv_queue.len() as u64) >= (kcp.rcv_wnd as u64);
    let ghost q = kcp.rcv_queue@;
    let ghost b0 = buffer@;
    let n = kcp.rcv_queue.len();
    let mut pos: usize = 0;
    let mut i: usize = 0;
    proof {
        lemma_peek_is_chain(q);
        lemma_chain_prefix(q, 0);
        assert(q.take(0) =~= Seq::<IKCPSEG>::empty());
        assert(flat(Seq::<IKCPSEG>::empty()) =~= Seq::<u8>::empty());
        assert(buffer@.subrange(0, 0) =~= Seq::<u8>::empty());
    }
    loop
        invariant_except_break
            n == q.len(),
            n > 0,
            q == kcp.rcv_queue@,
            kcp.wf(),
            0 <= i < n,
            forall|j: int| 0 <= j < i ==> (#[trigger] q[j]).frg != 0,
            pos == flat(q.take(i as int)).len(),
            chain_bytes(q).len() == peek,
            peek <= b0.len(),
            b0.len() <= usize::MAX,
            chain_bytes(q) == flat(q.take(i as int)) + chain_bytes(q.skip(i as int)),
            buffer@.len() == b0.len(),
            buffer@.subrange(0, pos as int) == flat(q.take(i as int)),
            buffer@.subrange(peek as int, b0.len() as int) == b0.subrange(
                peek as int,
                b0.len() as int,
            ),
        ensures
            q == kcp.rcv_queue@,
            kcp.wf(),
            chain_count(q) == i,
            chain_bytes(q) == flat(q.take(i as int)),
            pos == peek,
            buffer@.len() == b0.len(),
            buffer@.subrange(0, pos as int) == flat(q.take(i as int)),
            buffer@.subrange(peek as int, b0.len() as int) == b0.subrange(
                peek as int,
                b0.len() as int,
            ),
        decreases n - i,
    {
        let ghost before = buffer@;
        let frg = kcp.rcv_queue[i].frg;
        let len = kcp.rcv_queue[i].data.len();
        proof {
            lemma_flat_push(q.take(i as int), q[i as int]);
            assert(q.take(i + 1) =~= q.take(i as int).push(q[i as int]));
            if frg == 0 {
                lemma_chain_end(q, i as int);
            } else {
                lemma_chain_prefix(q, i + 1);
            }
            assert(flat(q.take(i + 1)).len() <= peek);
        }
        copy_into(buffer, pos, &kcp.rcv_queue[i].data);
        proof {
            assert(buffer@.subrange(0, pos + len) =~= buffer@.subrange(0, pos as int)
                + buffer@.subrange(pos as int, pos + len));
            assert(buffer@.subrange(peek as int, b0.len() as int) =~= before.subrange(
                peek as int,
                b0.len() as int,
            )) by {
                assert forall|x: int| peek <= x < b0.len() implies buffer@[x] == before[x] by {
                    assert(buffer@.subrange(pos + len, b0.len() as int)[x - pos - len]
                        == before.subrange(pos + len, b0.len() as int)[x - pos - len]);
                }
            }
        }
        pos = pos + len;
        if frg == 0 || i + 1 == n {
            proof {
                if frg != 0 {
                    lemma_chain_all(q);
                    assert(q.take(n as int) =~= q);
                }
            }
            i = i + 1;
            break;
        }
        i = i + 1;
    }
    proof {
        lemma_chain_count_bound(q);
    }
    let rest = kcp.rcv_queue.split_off(i);
    kcp.rcv_queue = rest;
    proof {
        assert(kcp.rcv_queue@ == q.skip(i as int));
        assert forall|x: int| 0 <= x < kcp.rcv_queue@.len() implies #[trigger] kcp.rcv_queue@[x].data@.len()
            < 0x8000_0000 by {
            assert(kcp.rcv_queue@[x] == q[x + i]);
        }
    }
    move_ready(kcp);
    if (kcp.rcv_queue.len() as u64) < (kcp.rcv_wnd as u64) && recover {
        kcp.probe = kcp.probe | IKCP_ASK_TELL;
    }
    pos as i64
}

} // verus!
