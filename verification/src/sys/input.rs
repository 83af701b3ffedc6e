//! Feeding received datagrams into the control block: acknowledgements,
//! round-trip estimation, reassembly of data segments and congestion window
//! growth.

use vstd::prelude::*;
use super::codec::{
    decode_header, input_code, is_known_cmd, parse_header, IKCP_CMD_ACK, IKCP_CMD_PUSH,
    IKCP_CMD_WASK, IKCP_CMD_WINS,
};
use super::acks::{
    acked_after, ack_effect, count_skips, drop_acked, drop_covered, first_unacked, flight_after,
    max_acked, send_side, skipped,
};
use super::deliver::{
    accept_data, buf_in_order, data_seg, file_seg, law_receive_keeps_order, recv_after, recv_side, seg_view, seg_views, segment_effect, SegView,
};
use super::recv::move_ready;
use super::send::bytes_of;
use super::{add_wrap, itimediff, timediff, IKCPCB, IKCPSEG, IKCP_ASK_TELL, IKCP_RTO_MAX};

verus! {

/// What every step of `ikcp_input` keeps: the invariant, the configuration,
/// the emitted datagrams, the send queue and the clocks.
pub open spec fn input_frame(kcp: &IKCPCB, old: &IKCPCB) -> bool {
    &&& kcp.wf()
    &&& kcp.same_config(old)
    &&& kcp.output == old.output
    &&& kcp.snd_queue@ == old.snd_queue@
    &&& kcp.snd_nxt == old.snd_nxt
    &&& kcp.xmit == old.xmit
    &&& kcp.state == old.state
    &&& kcp.current == old.current
    &&& kcp.ts_flush == old.ts_flush
    &&& kcp.updated == old.updated
    &&& kcp.ts_probe == old.ts_probe
    &&& kcp.probe_wait == old.probe_wait
}

/// The round-trip estimate, the peer's window and the congestion state,
/// unchanged from `old`.
pub open spec fn keeps_flow(kcp: &IKCPCB, old: &IKCPCB) -> bool {
    &&& kcp.rx_srtt == old.rx_srtt
    &&& kcp.rx_rttval == old.rx_rttval
    &&& kcp.rx_rto == old.rx_rto
    &&& kcp.rmt_wnd == old.rmt_wnd
    &&& kcp.cwnd == old.cwnd
    &&& kcp.incr == old.incr
    &&& kcp.ssthresh == old.ssthresh
}

/// The smoothed round-trip time, its variation and the retransmission
/// timeout after a sample of `rtt` ms: the first sample is taken as is;
/// later ones move the mean by an eighth and the variation by a quarter
/// of the difference; the timeout is the mean plus the larger of the
/// interval and four variations, at least `minrto`, at most 60 s.
pub open spec fn rtt_estimate(srtt: i32, rttval: i32, rtt: i32, interval: u32, minrto: i32) -> (
    i32,
    i32,
    i32,
) {
    let (s, v) = if srtt == 0 {
        (rtt as int, rtt as int / 2)
    } else {
        let delta = if rtt >= srtt {
            rtt - srtt
        } else {
            srtt - rtt
        };
        let s0 = (7 * srtt + rtt) / 8;
        (if s0 < 1 {
            1
        } else {
            s0
        }, (3 * rttval + delta) / 4)
    };
    let wait = if interval >= 4 * v {
        interval as int
    } else {
        4 * v
    };
    let lower = if minrto >= s + wait {
        minrto as int
    } else {
        s + wait
    };
    (s as i32, v as i32, if lower <= IKCP_RTO_MAX {
        lower as i32
    } else {
        IKCP_RTO_MAX
    })
}

/// The round-trip estimate `r` after the acknowledgements of datagram `d`
/// (up to the first refused segment): each acknowledgement whose
/// timestamp is not in the future is a sample.
pub open spec fn rtt_after(
    r: (i32, i32, i32),
    d: Seq<u8>,
    conv: u32,
    current: u32,
    interval: u32,
    minrto: i32,
) -> (i32, i32, i32)
    decreases d.len(),
{
    if d.len() < 24 {
        r
    } else {
        let h = parse_header(d);
        if h.conv != conv || d.len() - 24 < h.len || h.len >= 0x8000_0000 || !is_known_cmd(h.cmd) {
            r
        } else {
            let r2 = if h.cmd == IKCP_CMD_ACK && itimediff(current, h.ts) >= 0 {
                rtt_estimate(r.0, r.1, itimediff(current, h.ts) as i32, interval, minrto)
            } else {
                r
            };
            rtt_after(r2, d.skip(24 + h.len), conv, current, interval, minrto)
        }
    }
}

/// The peer's window after datagram `d` (up to the first refused
/// segment): the one its last segment advertises.
pub open spec fn peer_wnd_after(w: u32, d: Seq<u8>, conv: u32) -> u32
    decreases d.len(),
{
    if d.len() < 24 {
        w
    } else {
        let h = parse_header(d);
        if h.conv != conv || d.len() - 24 < h.len || h.len >= 0x8000_0000 || !is_known_cmd(h.cmd) {
            w
        } else {
            peer_wnd_after(h.wnd as u32, d.skip(24 + h.len), conv)
        }
    }
}

/// The congestion window and its byte count after new data was
/// acknowledged: one segment more per acknowledgement in slow start,
/// about one segment per window in congestion avoidance, never beyond the
/// peer's window.
pub open spec fn grown(cwnd: u32, incr: u32, rmt_wnd: u32, ssthresh: u32, mss: u32) -> (u32, u32) {
    if cwnd < rmt_wnd {
        let (c1, i1) = if cwnd < ssthresh {
            ((cwnd + 1) as u32, vstd::wrapping::u32_specs::wrapping_add(incr, mss))
        } else {
            let i0 = if incr < mss {
                mss
            } else {
                incr
            };
            let step = vstd::wrapping::u32_specs::wrapping_mul(mss, mss) / i0;
            let i2 = vstd::wrapping::u32_specs::wrapping_add(
                vstd::wrapping::u32_specs::wrapping_add(i0, step),
                mss / 16,
            );
            let c = if vstd::wrapping::u32_specs::wrapping_mul(
                vstd::wrapping::u32_specs::wrapping_add(cwnd, 1),
                mss,
            ) <= i2 {
                vstd::wrapping::u32_specs::wrapping_add(i2, (mss - 1) as u32) / mss
            } else {
                cwnd
            };
            (c, i2)
        };
        if c1 > rmt_wnd {
            (rmt_wnd, vstd::wrapping::u32_specs::wrapping_mul(rmt_wnd, mss))
        } else {
            (c1, i1)
        }
    } else {
        (cwnd, incr)
    }
}

/// `post` is `pre` after `ikcp_input` of datagram `data`: the receiving
/// side as [`recv_after`] says, the segments in flight as
/// [`flight_after`] says, the round-trip estimate as [`rtt_after`] says,
/// the peer's window as [`peer_wnd_after`] says, the congestion window
/// grown (see [`grown`]) when the whole datagram was accepted and moved
/// the oldest unacknowledged number on; nothing else changes.
pub open spec fn input_effect(pre: &IKCPCB, data: Seq<u8>, post: &IKCPCB) -> bool {
    &&& input_frame(post, pre)
    &&& recv_side(post) == recv_after(recv_side(pre), data, pre.conv, pre.rcv_wnd)
    &&& send_side(post) == flight_after(send_side(pre), data, pre.conv, pre.snd_nxt)
    &&& (post.rx_srtt, post.rx_rttval, post.rx_rto) == rtt_after(
        (pre.rx_srtt, pre.rx_rttval, pre.rx_rto),
        data,
        pre.conv,
        pre.current,
        pre.interval,
        pre.rx_minrto,
    )
    &&& post.rmt_wnd == peer_wnd_after(pre.rmt_wnd, data, pre.conv)
    &&& post.ssthresh == pre.ssthresh
    &&& (post.cwnd, post.incr) == if data.len() >= 24 && input_code(data, pre.conv) == 0
        && itimediff(post.snd_una, pre.snd_una) > 0 {
        grown(pre.cwnd, pre.incr, post.rmt_wnd, pre.ssthresh, pre.mss)
    } else {
        (pre.cwnd, pre.incr)
    }
}

/// Folds a new round-trip sample into the smoothed estimate and sets the
/// retransmission timeout, kept within `rx_minrto..=60000` ms.
fn update_ack(kcp: &mut IKCPCB, rtt: i32)
    requires
        old(kcp).wf(),
        rtt >= 0,
    ensures
        input_frame(final(kcp), old(kcp)),
        final(kcp).same_recv_side(old(kcp)),
        final(kcp).acklist@ == old(kcp).acklist@,
        final(kcp).rx_rto >= final(kcp).rx_minrto,
        final(kcp).snd_buf@ == old(kcp).snd_buf@,
        final(kcp).snd_una == old(kcp).snd_una,
        final(kcp).snd_nxt == old(kcp).snd_nxt,
        (final(kcp).rx_srtt, final(kcp).rx_rttval, final(kcp).rx_rto) == rtt_estimate(
            old(kcp).rx_srtt,
            old(kcp).rx_rttval,
            rtt,
            old(kcp).interval,
            old(kcp).rx_minrto,
        ),
        final(kcp).rmt_wnd == old(kcp).rmt_wnd,
        final(kcp).cwnd == old(kcp).cwnd,
        final(kcp).incr == old(kcp).incr,
        final(kcp).ssthresh == old(kcp).ssthresh,
{
    if kcp.rx_srtt == 0 {
        kcp.rx_srtt = rtt;
        kcp.rx_rttval = rtt / 2;
    } else {
        let srtt = kcp.rx_srtt as i64;
        let delta: i64 = if (rtt as i64) >= srtt {
            rtt as i64 - srtt
        } else {
            srtt - rtt as i64
        };
        kcp.rx_rttval = ((3 * (kcp.rx_rttval as i64) + delta) / 4) as i32;
        let s = (7 * srtt + rtt as i64) / 8;
        kcp.rx_srtt = if s < 1 {
            1
        } else {
            s as i32
        };
    }
    let var4: i64 = 4 * (kcp.rx_rttval as i64);
    let wait: i64 = if (kcp.interval as i64) >= var4 {
        kcp.interval as i64
    } else {
        var4
    };
    let rto: i64 = kcp.rx_srtt as i64 + wait;
    let lower: i64 = if (kcp.rx_minrto as i64) >= rto {
        kcp.rx_minrto as i64
    } else {
        rto
    };
    kcp.rx_rto = if lower <= IKCP_RTO_MAX as i64 {
        lower as i32
    } else {
        IKCP_RTO_MAX
    };
}

/// `snd_una` becomes the sequence number of the oldest segment in flight,
/// or `snd_nxt` when none is.
fn shrink_buf(kcp: &mut IKCPCB)
    requires
        old(kcp).wf(),
    ensures
        input_frame(final(kcp), old(kcp)),
        keeps_flow(final(kcp), old(kcp)),
        final(kcp).same_recv_side(old(kcp)),
        final(kcp).acklist@ == old(kcp).acklist@,
        final(kcp).snd_una == if old(kcp).snd_buf@.len() > 0 {
            old(kcp).snd_buf@[0].sn
        } else {
            old(kcp).snd_nxt
        },
        final(kcp).snd_buf@ == old(kcp).snd_buf@,
        final(kcp).snd_nxt == old(kcp).snd_nxt,
        send_side(final(kcp)).una == first_unacked(old(kcp).snd_buf@, old(kcp).snd_nxt),
{
    if kcp.snd_buf.len() > 0 {
        kcp.snd_una = kcp.snd_buf[0].sn;
    } else {
        kcp.snd_una = kcp.snd_nxt;
    }
}

/// `drop_acked` passes over segments numbered before `sn`.
proof fn lemma_drop_acked_prefix(fl: Seq<IKCPSEG>, sn: u32, i: int)
    requires
        0 <= i <= fl.len(),
        forall|j: int| 0 <= j < i ==> (#[trigger] fl[j]).sn != sn && itimediff(sn, fl[j].sn) >= 0,
    ensures
        drop_acked(fl, sn) == fl.take(i) + drop_acked(fl.skip(i), sn),
    decreases i,
{
    if i == 0 {
        assert(fl.take(0) + drop_acked(fl.skip(0), sn) =~= drop_acked(fl, sn)) by {
            assert(fl.skip(0) =~= fl);
        }
    } else {
        let t = fl.drop_first();
        assert forall|j: int| 0 <= j < i - 1 implies (#[trigger] t[j]).sn != sn && itimediff(
            sn,
            t[j].sn,
        ) >= 0 by {
            assert(t[j] == fl[j + 1]);
        }
        lemma_drop_acked_prefix(t, sn, i - 1);
        assert(fl[0].sn != sn && itimediff(sn, fl[0].sn) >= 0);
        assert(t.skip(i - 1) =~= fl.skip(i));
        assert(seq![fl[0]] + (t.take(i - 1) + drop_acked(fl.skip(i), sn)) =~= fl.take(i)
            + drop_acked(fl.skip(i), sn));
    }
}

/// Drops the segment in flight acknowledged by `sn`.
fn parse_ack(kcp: &mut IKCPCB, sn: u32)
    requires
        old(kcp).wf(),
    ensures
        input_frame(final(kcp), old(kcp)),
        keeps_flow(final(kcp), old(kcp)),
        final(kcp).same_recv_side(old(kcp)),
        final(kcp).acklist@ == old(kcp).acklist@,
        final(kcp).snd_una == old(kcp).snd_una,
        final(kcp).snd_nxt == old(kcp).snd_nxt,
        final(kcp).snd_buf@ == if itimediff(sn, old(kcp).snd_una) < 0 || itimediff(
            sn,
            old(kcp).snd_nxt,
        ) >= 0 {
            old(kcp).snd_buf@
        } else {
            drop_acked(old(kcp).snd_buf@, sn)
        },
{
    if timediff(sn, kcp.snd_una) < 0 || timediff(sn, kcp.snd_nxt) >= 0 {
        return ;
    }
    let ghost fl = kcp.snd_buf@;
    let mut i: usize = 0;
    while i < kcp.snd_buf.len()
        invariant
            *kcp == *old(kcp),
            kcp.wf(),
            fl == kcp.snd_buf@,
            !(itimediff(sn, old(kcp).snd_una) < 0 || itimediff(sn, old(kcp).snd_nxt) >= 0),
            i <= kcp.snd_buf@.len(),
            forall|j: int| 0 <= j < i ==> (#[trigger] fl[j]).sn != sn && itimediff(sn, fl[j].sn) >= 0,
        decreases kcp.snd_buf@.len() - i,
    {
        let seg_sn = kcp.snd_buf[i].sn;
        if sn == seg_sn {
            proof {
                lemma_drop_acked_prefix(fl, sn, i as int);
                assert(fl[i as int].sn == sn);
                assert(fl.skip(i as int)[0] == fl[i as int]);
                assert(drop_acked(fl.skip(i as int), sn) == fl.skip(i as int).drop_first());
                assert(fl.skip(i as int).drop_first() =~= fl.skip(i + 1));
            }
            let ghost b = kcp.snd_buf@;
            kcp.snd_buf.remove(i);
            proof {
                b.remove_ensures(i as int);
                let nv = kcp.snd_buf@;
                let expect = fl.take(i as int) + fl.skip(i + 1);
                assert(nv.len() == expect.len());
                assert forall|k: int| 0 <= k < nv.len() implies nv[k] == expect[k] by {
                    if k < i {
                        assert(kcp.snd_buf@[k] == b[k]);
                    } else {
                        assert(kcp.snd_buf@[k] == b[k + 1]);
                    }
                }
                assert(nv =~= expect);
                assert forall|k: int| 0 <= k < kcp.snd_buf@.len() implies #[trigger] kcp.snd_buf@[k].data@.len()
                    <= 0x7fff_ffff by {
                    if k < i {
                        assert(kcp.snd_buf@[k] == b[k]);
                    } else {
                        assert(kcp.snd_buf@[k] == b[k + 1]);
                    }
                }
            }
            return ;
        }
        if timediff(sn, seg_sn) < 0 {
            proof {
                lemma_drop_acked_prefix(fl, sn, i as int);
                assert(fl[i as int].sn == seg_sn);
                assert(fl.skip(i as int)[0] == fl[i as int]);
                assert(drop_acked(fl.skip(i as int), sn) == fl.skip(i as int));
                assert(fl.take(i as int) + fl.skip(i as int) =~= fl);
            }
            return ;
        }
        i = i + 1;
    }
    proof {
        lemma_drop_acked_prefix(fl, sn, i as int);
        assert(fl.skip(i as int) =~= Seq::<IKCPSEG>::empty());
        assert(fl.take(i as int) + Seq::<IKCPSEG>::empty() =~= fl);
    }
}

/// Drops every segment in flight that `una` acknowledges cumulatively.
fn parse_una(kcp: &mut IKCPCB, una: u32)
    requires
        old(kcp).wf(),
    ensures
        input_frame(final(kcp), old(kcp)),
        keeps_flow(final(kcp), old(kcp)),
        final(kcp).same_recv_side(old(kcp)),
        final(kcp).acklist@ == old(kcp).acklist@,
        final(kcp).snd_una == old(kcp).snd_una,
        final(kcp).snd_nxt == old(kcp).snd_nxt,
        final(kcp).snd_buf@ == drop_covered(old(kcp).snd_buf@, una),
{
    while kcp.snd_buf.len() > 0 && timediff(una, kcp.snd_buf[0].sn) > 0
        invariant
            input_frame(kcp, old(kcp)),
            keeps_flow(kcp, old(kcp)),
            kcp.acklist@ == old(kcp).acklist@,
            kcp.same_recv_side(old(kcp)),
            kcp.snd_una == old(kcp).snd_una,
            kcp.snd_nxt == old(kcp).snd_nxt,
            drop_covered(kcp.snd_buf@, una) == drop_covered(
                old(kcp).snd_buf@,
                una,
            ),
        decreases kcp.snd_buf@.len(),
    {
        let ghost b = kcp.snd_buf@;
        kcp.snd_buf.remove(0);
        proof {
            assert(kcp.snd_buf@ =~= b.drop_first());
            assert(b[0].sn == b[0].sn);
        }
    }
}

/// Counts, on every segment in flight sent before `sn`, one more
/// acknowledgement that skipped it.
fn parse_fastack(kcp: &mut IKCPCB, sn: u32)
    requires
        old(kcp).wf(),
    ensures
        input_frame(final(kcp), old(kcp)),
        keeps_flow(final(kcp), old(kcp)),
        final(kcp).same_recv_side(old(kcp)),
        final(kcp).acklist@ == old(kcp).acklist@,
        final(kcp).snd_una == old(kcp).snd_una,
        final(kcp).snd_nxt == old(kcp).snd_nxt,
        final(kcp).snd_buf@ == count_skips(
            old(kcp).snd_buf@,
            sn,
            old(kcp).snd_una,
            old(kcp).snd_nxt,
        ),
{
    if timediff(sn, kcp.snd_una) < 0 || timediff(sn, kcp.snd_nxt) >= 0 {
        return ;
    }
    let ghost b = kcp.snd_buf@;
    let ghost target = count_skips(b, sn, kcp.snd_una, kcp.snd_nxt);
    let mut i: usize = 0;
    while i < kcp.snd_buf.len()
        invariant
            input_frame(kcp, old(kcp)),
            keeps_flow(kcp, old(kcp)),
            kcp.acklist@ == old(kcp).acklist@,
            kcp.same_recv_side(old(kcp)),
            kcp.snd_una == old(kcp).snd_una,
            kcp.snd_nxt == old(kcp).snd_nxt,
            b == old(kcp).snd_buf@,
            target == count_skips(b, sn, old(kcp).snd_una, old(kcp).snd_nxt),
            !(itimediff(sn, old(kcp).snd_una) < 0 || itimediff(sn, old(kcp).snd_nxt) >= 0),
            i <= kcp.snd_buf@.len(),
            kcp.snd_buf@.len() == b.len(),
            forall|j: int| 0 <= j < i ==> itimediff(sn, (#[trigger] b[j]).sn) >= 0,
            forall|k: int| 0 <= k < i ==> #[trigger] kcp.snd_buf@[k] == target[k],
            forall|k: int| i <= k < b.len() ==> #[trigger] kcp.snd_buf@[k] == b[k],
        decreases kcp.snd_buf@.len() - i,
    {
        let seg_sn = kcp.snd_buf[i].sn;
        if timediff(sn, seg_sn) < 0 {
            proof {
                assert forall|k: int| i <= k < b.len() implies !skipped(b, sn, k) by {
                    assert(itimediff(sn, b[i as int].sn) < 0);
                }
                assert(kcp.snd_buf@ =~= target);
            }
            return ;
        } else if sn != seg_sn {
            let ghost cur = kcp.snd_buf@;
            let f = kcp.snd_buf[i].fastack;
            kcp.snd_buf[i].fastack = f.wrapping_add(1);
            proof {
                assert(skipped(b, sn, i as int));
                assert(kcp.snd_buf@[i as int] == target[i as int]);
                assert forall|k: int| 0 <= k < kcp.snd_buf@.len() && k != i implies #[trigger] kcp.snd_buf@[k]
                    == cur[k] by {}
                assert forall|j: int| 0 <= j < kcp.snd_buf@.len() implies #[trigger] kcp.snd_buf@[j].data@.len()
                    <= 0x7fff_ffff by {
                    assert(kcp.snd_buf@[j].data@ == cur[j].data@);
                }
            }
        } else {
            proof {
                assert(!skipped(b, sn, i as int));
            }
        }
        i = i + 1;
    }
    proof {
        assert(kcp.snd_buf@ =~= target);
    }
}

/// Files a received data segment into `rcv_buf` (ordered by sequence
/// number, without duplicates), unless it lies outside the receive window,
/// then moves what arrived in order on to `rcv_queue`.
fn parse_data(kcp: &mut IKCPCB, newseg: IKCPSEG)
    requires
        old(kcp).wf(),
        newseg.data@.len() < 0x8000_0000,
    ensures
        input_frame(final(kcp), old(kcp)),
        final(kcp).same_send_side(old(kcp)),
        final(kcp).same_timing(old(kcp)),
        recv_side(final(kcp)) == accept_data(recv_side(old(kcp)), seg_view(newseg), old(kcp).rcv_wnd),
{
    let sn = newseg.sn;
    if timediff(sn, add_wrap(kcp.rcv_nxt, kcp.rcv_wnd)) >= 0 || timediff(sn, kcp.rcv_nxt) < 0 {
        return ;
    }
    let ghost b = kcp.rcv_buf@;
    let ghost v = seg_views(b);
    let ghost sv = seg_view(newseg);
    let mut p: usize = kcp.rcv_buf.len();
    let mut repeat = false;
    let mut done = false;
    proof {
        assert(v.take(p as int) =~= v);
        assert(v.skip(p as int) =~= Seq::<SegView>::empty());
        assert(file_seg(v, sv) =~= file_seg(v.take(p as int), sv) + v.skip(p as int));
    }
    while p > 0 && !done
        invariant
            p <= b.len(),
            kcp.rcv_buf@ == b,
            v == seg_views(b),
            sv == seg_view(newseg),
            sn == newseg.sn,
            *kcp == *old(kcp),
            file_seg(v, sv) == file_seg(v.take(p as int), sv) + v.skip(p as int),
            repeat ==> done && p > 0 && b[p - 1].sn == sn,
            done && !repeat ==> p > 0 && b[p - 1].sn != sn && itimediff(sn, b[p - 1].sn) > 0,
        decreases 2 * p + if done {
            0int
        } else {
            1int
        },
    {
        let seg_sn = kcp.rcv_buf[p - 1].sn;
        if seg_sn == sn {
            repeat = true;
            done = true;
        } else if timediff(sn, seg_sn) > 0 {
            done = true;
        } else {
            proof {
                let t = v.take(p as int);
                assert(t.drop_last() =~= v.take(p - 1));
                assert(t.last() == v[p - 1]);
                assert(v[p - 1].sn == seg_sn);
                assert(sv.sn == sn);
                assert(t.len() > 0);
                assert(t.last().sn != sv.sn);
                assert(!(itimediff(sv.sn, t.last().sn) > 0));
                assert(v.skip(p - 1) =~= seq![v[p - 1]] + v.skip(p as int));
                assert(file_seg(t, sv) == file_seg(v.take(p - 1), sv).push(v[p - 1]));
                assert(file_seg(v.take(p - 1), sv).push(v[p - 1]) + v.skip(p as int) =~= file_seg(
                    v.take(p - 1),
                    sv,
                ) + v.skip(p - 1));
            }
            p = p - 1;
        }
    }
    if !repeat {
        kcp.rcv_buf.insert(p, newseg);
        proof {
            let t = v.take(p as int);
            if p > 0 {
                assert(t.last() == v[p - 1]);
                assert(file_seg(t, sv) == t.push(sv));
            } else {
                assert(t =~= Seq::<SegView>::empty());
                assert(file_seg(t, sv) == seq![sv]);
                assert(t.push(sv) =~= seq![sv]);
            }
            assert(seg_views(kcp.rcv_buf@) =~= t.push(sv) + v.skip(p as int));
            assert forall|i: int| 0 <= i < kcp.rcv_buf@.len() implies #[trigger] kcp.rcv_buf@[i].data@.len()
                < 0x8000_0000 by {
                if i < p {
                    assert(kcp.rcv_buf@[i] == b[i]);
                } else if i > p {
                    assert(kcp.rcv_buf@[i] == b[i - 1]);
                }
            }
        }
    } else {
        proof {
            let t = v.take(p as int);
            assert(t.last() == v[p - 1]);
            assert(file_seg(t, sv) == t);
            assert(t + v.skip(p as int) =~= v);
        }
    }
    move_ready(kcp);
}

/// Grows the congestion window after new data was acknowledged: by one
/// segment per acknowledgement in slow start, by about one segment per
/// window in congestion avoidance, never beyond the peer's window.
fn grow_cwnd(kcp: &mut IKCPCB)
    requires
        old(kcp).wf(),
    ensures
        input_frame(final(kcp), old(kcp)),
        final(kcp).same_recv_side(old(kcp)),
        final(kcp).acklist@ == old(kcp).acklist@,
        final(kcp).snd_buf@ == old(kcp).snd_buf@,
        final(kcp).snd_una == old(kcp).snd_una,
        final(kcp).snd_nxt == old(kcp).snd_nxt,
        (final(kcp).cwnd, final(kcp).incr) == grown(
            old(kcp).cwnd,
            old(kcp).incr,
            old(kcp).rmt_wnd,
            old(kcp).ssthresh,
            old(kcp).mss,
        ),
        final(kcp).rx_srtt == old(kcp).rx_srtt,
        final(kcp).rx_rttval == old(kcp).rx_rttval,
        final(kcp).rx_rto == old(kcp).rx_rto,
        final(kcp).rmt_wnd == old(kcp).rmt_wnd,
        final(kcp).ssthresh == old(kcp).ssthresh,
        final(kcp).cwnd <= if old(kcp).cwnd < old(kcp).rmt_wnd {
            old(kcp).rmt_wnd
        } else {
            old(kcp).cwnd
        },
{
    if kcp.cwnd < kcp.rmt_wnd {
        let mss = kcp.mss;
        if kcp.cwnd < kcp.ssthresh {
            kcp.cwnd = kcp.cwnd + 1;
            kcp.incr = kcp.incr.wrapping_add(mss);
        } else {
            if kcp.incr < mss {
                kcp.incr = mss;
            }
            let step = mss.wrapping_mul(mss) / kcp.incr;
            kcp.incr = kcp.incr.wrapping_add(step).wrapping_add(mss / 16);
            if kcp.cwnd.wrapping_add(1).wrapping_mul(mss) <= kcp.incr {
                kcp.cwnd = kcp.incr.wrapping_add(mss - 1) / mss;
            }
        }
        if kcp.cwnd > kcp.rmt_wnd {
            kcp.cwnd = kcp.rmt_wnd;
            kcp.incr = kcp.rmt_wnd.wrapping_mul(mss);
        }
    }
}

/// Feeds a received datagram into the control block.
///
/// Every segment of the datagram is applied in turn: the peer's window and
/// cumulative acknowledgement are taken over; an acknowledgement drops its
/// segment from flight and updates the round-trip estimate; a data segment
/// within the receive window is scheduled for acknowledgement and filed
/// for reassembly; a window probe schedules a window announcement.
///
/// Returns -1 for a datagram shorter than a header (nothing changes then);
/// otherwise the code of [`input_code`]: 0 when every segment is accepted,
/// or the code of the first refused segment, the segments before it having
/// been applied. The receiving side ends as [`recv_after`] says and the
/// segments in flight as [`flight_after`] says.
pub fn ikcp_input(kcp: &mut IKCPCB, data: &[u8]) -> (r: i32)
    requires
        old(kcp).wf(),
    ensures
        input_frame(final(kcp), old(kcp)),
        r == if data@.len() < 24 {
            -1
        } else {
            input_code(data@, old(kcp).conv)
        },
        data@.len() < 24 ==> *final(kcp) == *old(kcp),
        final(kcp).acklist@.len() >= old(kcp).acklist@.len(),
        final(kcp).acklist@.take(old(kcp).acklist@.len() as int) == old(kcp).acklist@,
        recv_side(final(kcp)) == recv_after(recv_side(old(kcp)), data@, old(kcp).conv, old(kcp).rcv_wnd),
        send_side(final(kcp)) == flight_after(send_side(old(kcp)), data@, old(kcp).conv, old(kcp).snd_nxt),
        final(kcp).snd_nxt == old(kcp).snd_nxt,
        (final(kcp).rx_srtt, final(kcp).rx_rttval, final(kcp).rx_rto) == rtt_after(
            (old(kcp).rx_srtt, old(kcp).rx_rttval, old(kcp).rx_rto),
            data@,
            old(kcp).conv,
            old(kcp).current,
            old(kcp).interval,
            old(kcp).rx_minrto,
        ),
        final(kcp).rmt_wnd == peer_wnd_after(old(kcp).rmt_wnd, data@, old(kcp).conv),
        final(kcp).ssthresh == old(kcp).ssthresh,
        (final(kcp).cwnd, final(kcp).incr) == if data@.len() >= 24 && input_code(data@, old(kcp).conv)
            == 0 && itimediff(final(kcp).snd_una, old(kcp).snd_una) > 0 {
            grown(old(kcp).cwnd, old(kcp).incr, final(kcp).rmt_wnd, old(kcp).ssthresh, old(kcp).mss)
        } else {
            (old(kcp).cwnd, old(kcp).incr)
        },
        input_effect(old(kcp), data@, final(kcp)),
{
    let size = data.len();
    if size < 24 {
        return -1;
    }
    let ghost wnd = kcp.rcv_wnd;
    let ghost nxt = kcp.snd_nxt;
    let prev_una = kcp.snd_una;
    let mut maxack: u32 = 0;
    let mut flag = false;
    let mut off: usize = 0;
    let ghost conv = kcp.conv;
    proof {
        assert(data@.skip(0) =~= data@);
    }
    loop
        invariant_except_break
            size == data@.len(),
            off <= size,
            input_frame(kcp, old(kcp)),
            conv == kcp.conv,
            input_code(data@, conv) == input_code(data@.skip(off as int), conv),
            kcp.acklist@.len() >= old(kcp).acklist@.len(),
            kcp.acklist@.take(old(kcp).acklist@.len() as int) == old(kcp).acklist@,
            wnd == old(kcp).rcv_wnd,
            recv_after(recv_side(old(kcp)), data@, conv, wnd) == recv_after(
                recv_side(kcp),
                data@.skip(off as int),
                conv,
                wnd,
            ),
            nxt == old(kcp).snd_nxt,
            kcp.snd_nxt == nxt,
            acked_after(send_side(old(kcp)), data@, conv, nxt) == acked_after(
                send_side(kcp),
                data@.skip(off as int),
                conv,
                nxt,
            ),
            max_acked(None, data@, conv) == max_acked(
                if flag {
                    Some(maxack)
                } else {
                    None
                },
                data@.skip(off as int),
                conv,
            ),
            prev_una == old(kcp).snd_una,
            kcp.cwnd == old(kcp).cwnd,
            kcp.incr == old(kcp).incr,
            kcp.ssthresh == old(kcp).ssthresh,
            rtt_after(
                (old(kcp).rx_srtt, old(kcp).rx_rttval, old(kcp).rx_rto),
                data@,
                conv,
                old(kcp).current,
                old(kcp).interval,
                old(kcp).rx_minrto,
            ) == rtt_after(
                (kcp.rx_srtt, kcp.rx_rttval, kcp.rx_rto),
                data@.skip(off as int),
                conv,
                old(kcp).current,
                old(kcp).interval,
                old(kcp).rx_minrto,
            ),
            peer_wnd_after(old(kcp).rmt_wnd, data@, conv) == peer_wnd_after(
                kcp.rmt_wnd,
                data@.skip(off as int),
                conv,
            ),
        ensures
            input_frame(kcp, old(kcp)),
            input_code(data@, conv) == 0,
            kcp.acklist@.len() >= old(kcp).acklist@.len(),
            kcp.acklist@.take(old(kcp).acklist@.len() as int) == old(kcp).acklist@,
            recv_side(kcp) == recv_after(recv_side(old(kcp)), data@, conv, wnd),
            send_side(kcp) == acked_after(send_side(old(kcp)), data@, conv, nxt),
            kcp.snd_nxt == nxt,
            max_acked(None, data@, conv) == if flag {
                Some(maxack)
            } else {
                None
            },
            prev_una == old(kcp).snd_una,
            kcp.cwnd == old(kcp).cwnd,
            kcp.incr == old(kcp).incr,
            kcp.ssthresh == old(kcp).ssthresh,
            (kcp.rx_srtt, kcp.rx_rttval, kcp.rx_rto) == rtt_after(
                (old(kcp).rx_srtt, old(kcp).rx_rttval, old(kcp).rx_rto),
                data@,
                conv,
                old(kcp).current,
                old(kcp).interval,
                old(kcp).rx_minrto,
            ),
            kcp.rmt_wnd == peer_wnd_after(old(kcp).rmt_wnd, data@, conv),
        decreases size - off,
    {
        if size - off < 24 {
            proof {
                assert(recv_after(recv_side(kcp), data@.skip(off as int), conv, wnd) == recv_side(
                    kcp,
                ));
                assert(acked_after(send_side(kcp), data@.skip(off as int), conv, nxt) == send_side(
                    kcp,
                ));
                let mm: Option<u32> = if flag {
                    Some(maxack)
                } else {
                    None
                };
                assert(max_acked(mm, data@.skip(off as int), conv) == mm);
                let rr = (kcp.rx_srtt, kcp.rx_rttval, kcp.rx_rto);
                assert(rtt_after(
                    rr,
                    data@.skip(off as int),
                    conv,
                    old(kcp).current,
                    old(kcp).interval,
                    old(kcp).rx_minrto,
                ) == rr);
                assert(peer_wnd_after(kcp.rmt_wnd, data@.skip(off as int), conv) == kcp.rmt_wnd);
            }
            break;
        }
        let h = decode_header(data, off);
        let ghost d = data@.skip(off as int);
        proof {
            assert(d.len() >= 24);
            assert(h == parse_header(d));
        }
        if h.conv != kcp.conv {
            proof {
                assert(input_code(d, conv) == -1);
                assert(recv_after(recv_side(kcp), d, conv, wnd) == recv_side(kcp));
                assert(acked_after(send_side(kcp), d, conv, nxt) == send_side(kcp));
                assert(rtt_after(
                    (kcp.rx_srtt, kcp.rx_rttval, kcp.rx_rto),
                    d,
                    conv,
                    old(kcp).current,
                    old(kcp).interval,
                    old(kcp).rx_minrto,
                ) == (kcp.rx_srtt, kcp.rx_rttval, kcp.rx_rto));
                assert(peer_wnd_after(kcp.rmt_wnd, d, conv) == kcp.rmt_wnd);
            }
            return -1;
        }
        let avail = size - off - 24;
        if (avail as u64) < (h.len as u64) || h.len >= 0x8000_0000 {
            proof {
                assert(input_code(d, conv) == -2);
                assert(recv_after(recv_side(kcp), d, conv, wnd) == recv_side(kcp));
                assert(acked_after(send_side(kcp), d, conv, nxt) == send_side(kcp));
                assert(rtt_after(
                    (kcp.rx_srtt, kcp.rx_rttval, kcp.rx_rto),
                    d,
                    conv,
                    old(kcp).current,
                    old(kcp).interval,
                    old(kcp).rx_minrto,
                ) == (kcp.rx_srtt, kcp.rx_rttval, kcp.rx_rto));
                assert(peer_wnd_after(kcp.rmt_wnd, d, conv) == kcp.rmt_wnd);
            }
            return -2;
        }
        if h.cmd != IKCP_CMD_PUSH && h.cmd != IKCP_CMD_ACK && h.cmd != IKCP_CMD_WASK && h.cmd
            != IKCP_CMD_WINS {
            proof {
                assert(!is_known_cmd(h.cmd));
                assert(input_code(d, conv) == -3);
                assert(recv_after(recv_side(kcp), d, conv, wnd) == recv_side(kcp));
                assert(acked_after(send_side(kcp), d, conv, nxt) == send_side(kcp));
                assert(rtt_after(
                    (kcp.rx_srtt, kcp.rx_rttval, kcp.rx_rto),
                    d,
                    conv,
                    old(kcp).current,
                    old(kcp).interval,
                    old(kcp).rx_minrto,
                ) == (kcp.rx_srtt, kcp.rx_rttval, kcp.rx_rto));
                assert(peer_wnd_after(kcp.rmt_wnd, d, conv) == kcp.rmt_wnd);
            }
            return -3;
        }
        proof {
            assert(is_known_cmd(h.cmd));
            assert(input_code(d, conv) == input_code(d.skip(24 + h.len), conv));
        }
        let len = h.len as usize;
        let ghost acks = kcp.acklist@;
        let ghost st0 = recv_side(kcp);
        let ghost ss0 = send_side(kcp);
        let ghost pl = d.subrange(24, 24 + h.len);
        let ghost m0: Option<u32> = if flag {
            Some(maxack)
        } else {
            None
        };
        let ghost r0 = (kcp.rx_srtt, kcp.rx_rttval, kcp.rx_rto);
        let ghost w0 = kcp.rmt_wnd;
        proof {
            assert(acked_after(ss0, d, conv, nxt) == acked_after(
                ack_effect(ss0, h.cmd, h.una, h.sn, nxt),
                d.skip(24 + h.len),
                conv,
                nxt,
            ));
            assert(recv_after(st0, d, conv, wnd) == recv_after(
                segment_effect(st0, h, pl, wnd),
                d.skip(24 + h.len),
                conv,
                wnd,
            ));
        }
        kcp.rmt_wnd = h.wnd as u32;
        parse_una(kcp, h.una);
        shrink_buf(kcp);
        if h.cmd == IKCP_CMD_ACK {
            let rtt = timediff(kcp.current, h.ts);
            if rtt >= 0 {
                update_ack(kcp, rtt);
            }
            parse_ack(kcp, h.sn);
            shrink_buf(kcp);
            if !flag {
                flag = true;
                maxack = h.sn;
            } else if timediff(h.sn, maxack) > 0 {
                maxack = h.sn;
            }
        } else if h.cmd == IKCP_CMD_PUSH {
            if timediff(h.sn, add_wrap(kcp.rcv_nxt, kcp.rcv_wnd)) < 0 {
                kcp.acklist.push((h.sn, h.ts));
                if timediff(h.sn, kcp.rcv_nxt) >= 0 {
                    let payload = bytes_of(data, off + 24, off + 24 + len);
                    let seg = IKCPSEG {
                        conv: h.conv,
                        cmd: h.cmd as u32,
                        frg: h.frg as u32,
                        wnd: h.wnd as u32,
                        ts: h.ts,
                        sn: h.sn,
                        una: h.una,
                        resendts: 0,
                        rto: 0,
                        fastack: 0,
                        xmit: 0,
                        data: payload,
                    };
                    proof {
                        assert(seg.data@ =~= d.subrange(24, 24 + h.len));
                        assert(seg_view(seg) == data_seg(h, d.subrange(24, 24 + h.len)));
                    }
                    parse_data(kcp, seg);
                }
            }
        } else if h.cmd == IKCP_CMD_WASK {
            kcp.probe = kcp.probe | IKCP_ASK_TELL;
        }
        proof {
            assert(recv_side(kcp) == segment_effect(st0, h, pl, wnd));
            assert(send_side(kcp) == ack_effect(ss0, h.cmd, h.una, h.sn, nxt));
            let m2 = if h.cmd == IKCP_CMD_ACK {
                match m0 {
                    None => Some(h.sn),
                    Some(x) => if itimediff(h.sn, x) > 0 {
                        Some(h.sn)
                    } else {
                        Some(x)
                    },
                }
            } else {
                m0
            };
            assert(max_acked(m0, d, conv) == max_acked(m2, d.skip(24 + h.len), conv));
            let r2 = if h.cmd == IKCP_CMD_ACK && itimediff(old(kcp).current, h.ts) >= 0 {
                rtt_estimate(r0.0, r0.1, itimediff(old(kcp).current, h.ts) as i32, old(kcp).interval, old(kcp).rx_minrto)
            } else {
                r0
            };
            assert(rtt_after(r0, d, conv, old(kcp).current, old(kcp).interval, old(kcp).rx_minrto)
                == rtt_after(r2, d.skip(24 + h.len), conv, old(kcp).current, old(kcp).interval, old(kcp).rx_minrto));
            assert((kcp.rx_srtt, kcp.rx_rttval, kcp.rx_rto) == r2);
            assert(peer_wnd_after(w0, d, conv) == peer_wnd_after(h.wnd as u32, d.skip(24 + h.len), conv));
            assert(kcp.rmt_wnd == h.wnd as u32);
            assert(m2 == if flag {
                Some(maxack)
            } else {
                None::<u32>
            });
            assert(acks.len() >= old(kcp).acklist@.len());
            assert(kcp.acklist@.take(acks.len() as int) =~= acks);
            assert(kcp.acklist@.take(old(kcp).acklist@.len() as int) =~= acks.take(
                old(kcp).acklist@.len() as int,
            ));
            assert(d.skip(24 + len) =~= data@.skip(off + 24 + len));
        }
        off = off + 24 + len;
    }
    if flag {
        parse_fastack(kcp, maxack);
    }
    if timediff(kcp.snd_una, prev_una) > 0 {
        grow_cwnd(kcp);
    }
    0
}

/// Whatever datagram a control block is fed, its out-of-order buffer stays
/// in sequence order from the next expected number on (see
/// [`buf_in_order`]); a new control block starts with an empty one, so it
/// is always in order.
pub proof fn law_input_keeps_receive_order(pre: &IKCPCB, data: Seq<u8>, post: &IKCPCB)
    requires
        input_effect(pre, data, post),
        buf_in_order(seg_views(pre.rcv_buf@), pre.rcv_nxt),
    ensures
        buf_in_order(seg_views(post.rcv_buf@), post.rcv_nxt),
{
    law_receive_keeps_order(recv_side(pre), data, pre.conv, pre.rcv_wnd);
}

} // verus!
