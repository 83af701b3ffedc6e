//! What acknowledgements do to the sending side: which segments leave
//! flight when a datagram arrives.

use vstd::prelude::*;
use super::codec::{
    header_bytes, input_code, is_known_cmd, lemma_header_roundtrip, parse_header, SegHeader, IKCP_CMD_ACK,
};
use super::{itimediff, IKCPCB, IKCPSEG};

verus! {

/// The sending side: the segments in flight and the oldest unacknowledged
/// sequence number.
pub struct SendSide {
    pub flight: Seq<IKCPSEG>,
    pub una: u32,
}

/// The sending side of `k`.
pub open spec fn send_side(k: &IKCPCB) -> SendSide {
    SendSide { flight: k.snd_buf@, una: k.snd_una }
}

/// `fl` without the segments at its front that the cumulative
/// acknowledgement `una` covers.
pub open spec fn drop_covered(fl: Seq<IKCPSEG>, una: u32) -> Seq<IKCPSEG>
    decreases fl.len(),
{
    if fl.len() > 0 && itimediff(una, fl[0].sn) > 0 {
        drop_covered(fl.drop_first(), una)
    } else {
        fl
    }
}

/// `fl` without the segment numbered `sn`, looked for up to the first
/// segment numbered after it.
pub open spec fn drop_acked(fl: Seq<IKCPSEG>, sn: u32) -> Seq<IKCPSEG>
    decreases fl.len(),
{
    if fl.len() == 0 {
        fl
    } else if fl[0].sn == sn {
        fl.drop_first()
    } else if itimediff(sn, fl[0].sn) < 0 {
        fl
    } else {
        seq![fl[0]] + drop_acked(fl.drop_first(), sn)
    }
}

/// The oldest unacknowledged number: the first in flight, or `nxt`.
pub open spec fn first_unacked(fl: Seq<IKCPSEG>, nxt: u32) -> u32 {
    if fl.len() > 0 {
        fl[0].sn
    } else {
        nxt
    }
}

/// One received segment with cumulative acknowledgement `una` (and, for
/// an acknowledgement, number `sn`) applied to the sending side; `nxt` is
/// the next number to send.
pub open spec fn ack_effect(st: SendSide, cmd: u8, una: u32, sn: u32, nxt: u32) -> SendSide {
    let fl1 = drop_covered(st.flight, una);
    let una1 = first_unacked(fl1, nxt);
    if cmd == IKCP_CMD_ACK {
        let fl2 = if itimediff(sn, una1) < 0 || itimediff(sn, nxt) >= 0 {
            fl1
        } else {
            drop_acked(fl1, sn)
        };
        SendSide { flight: fl2, una: first_unacked(fl2, nxt) }
    } else {
        SendSide { flight: fl1, una: una1 }
    }
}

/// The sending side after the segments of datagram `d` (up to the first
/// refused one) were received by a control block of conversation `conv`
/// whose next number to send is `nxt`.
pub open spec fn acked_after(st: SendSide, d: Seq<u8>, conv: u32, nxt: u32) -> SendSide
    decreases d.len(),
{
    if d.len() < 24 {
        st
    } else {
        let h = parse_header(d);
        if h.conv != conv || d.len() - 24 < h.len || h.len >= 0x8000_0000 || !is_known_cmd(h.cmd) {
            st
        } else {
            acked_after(ack_effect(st, h.cmd, h.una, h.sn, nxt), d.skip(24 + h.len), conv, nxt)
        }
    }
}

/// A cumulative acknowledgement beyond every segment covers them all.
proof fn lemma_drop_covered_all(fl: Seq<IKCPSEG>, una: u32)
    requires
        forall|k: int| 0 <= k < fl.len() ==> itimediff(una, (#[trigger] fl[k]).sn) > 0,
    ensures
        drop_covered(fl, una).len() == 0,
    decreases fl.len(),
{
    if fl.len() > 0 {
        let t = fl.drop_first();
        assert(itimediff(una, fl[0].sn) > 0);
        assert forall|k: int| 0 <= k < t.len() implies itimediff(una, (#[trigger] t[k]).sn) > 0 by {
            assert(t[k] == fl[k + 1]);
        }
        lemma_drop_covered_all(t, una);
    }
}

/// Whether an acknowledgement of `sn` skipped segment `k` of `fl`: `sn`
/// is not `k`'s own number, and no segment up to `k` is numbered after
/// `sn`.
pub open spec fn skipped(fl: Seq<IKCPSEG>, sn: u32, k: int) -> bool {
    &&& fl[k].sn != sn
    &&& forall|j: int| 0 <= j <= k ==> itimediff(sn, (#[trigger] fl[j]).sn) >= 0
}

/// `fl` with one more skipping acknowledgement counted on every segment
/// that the acknowledgement of `sn` skipped; unchanged when `sn` lies
/// outside `[una, nxt)`.
pub open spec fn count_skips(fl: Seq<IKCPSEG>, sn: u32, una: u32, nxt: u32) -> Seq<IKCPSEG> {
    if itimediff(sn, una) < 0 || itimediff(sn, nxt) >= 0 {
        fl
    } else {
        Seq::new(
            fl.len(),
            |k: int|
                if skipped(fl, sn, k) {
                    IKCPSEG {
                        fastack: vstd::wrapping::u32_specs::wrapping_add(fl[k].fastack, 1),
                        ..fl[k]
                    }
                } else {
                    fl[k]
                },
        )
    }
}

/// The highest number acknowledged by the acknowledgement segments of
/// datagram `d` (up to the first refused segment), starting from `m`.
pub open spec fn max_acked(m: Option<u32>, d: Seq<u8>, conv: u32) -> Option<u32>
    decreases d.len(),
{
    if d.len() < 24 {
        m
    } else {
        let h = parse_header(d);
        if h.conv != conv || d.len() - 24 < h.len || h.len >= 0x8000_0000 || !is_known_cmd(h.cmd) {
            m
        } else {
            let m2 = if h.cmd == IKCP_CMD_ACK {
                match m {
                    None => Some(h.sn),
                    Some(x) => if itimediff(h.sn, x) > 0 {
                        Some(h.sn)
                    } else {
                        Some(x)
                    },
                }
            } else {
                m
            };
            max_acked(m2, d.skip(24 + h.len), conv)
        }
    }
}

/// The sending side after datagram `d`: the segments that
/// [`acked_after`] leaves in flight, with the skips of its highest
/// acknowledgement counted (see [`count_skips`]) when every segment of
/// `d` was accepted.
pub open spec fn flight_after(st: SendSide, d: Seq<u8>, conv: u32, nxt: u32) -> SendSide {
    let a = acked_after(st, d, conv, nxt);
    if d.len() >= 24 && input_code(d, conv) == 0 {
        match max_acked(None, d, conv) {
            Some(mx) => SendSide { flight: count_skips(a.flight, mx, a.una, nxt), una: a.una },
            None => a,
        }
    } else {
        a
    }
}

/// A datagram whose cumulative acknowledgement lies beyond every segment
/// in flight empties the flight; the oldest unacknowledged number becomes
/// the next one to send.
pub proof fn law_cumulative_ack_clears_flight(st: SendSide, h: SegHeader, conv: u32, nxt: u32)
    requires
        h.conv == conv,
        is_known_cmd(h.cmd),
        h.len == 0,
        forall|k: int| 0 <= k < st.flight.len() ==> itimediff(h.una, (#[trigger] st.flight[k]).sn) > 0,
    ensures
        acked_after(st, header_bytes(h), conv, nxt) == (SendSide { flight: Seq::empty(), una: nxt }),
        flight_after(st, header_bytes(h), conv, nxt) == (SendSide { flight: Seq::empty(), una: nxt }),
{
    let d = header_bytes(h);
    lemma_header_roundtrip(h, Seq::empty());
    assert(d + Seq::<u8>::empty() =~= d);
    lemma_drop_covered_all(st.flight, h.una);
    let fl1 = drop_covered(st.flight, h.una);
    assert(fl1 =~= Seq::<IKCPSEG>::empty());
    assert(drop_acked(fl1, h.sn) == fl1);
    let r = ack_effect(st, h.cmd, h.una, h.sn, nxt);
    assert(r.flight =~= Seq::<IKCPSEG>::empty());
    assert(r == (SendSide { flight: Seq::empty(), una: nxt }));
    assert(d.skip(24) =~= Seq::<u8>::empty());
    assert(acked_after(r, d.skip(24 + h.len), conv, nxt) == r);
    assert(count_skips(Seq::<IKCPSEG>::empty(), h.sn, nxt, nxt) =~= Seq::<IKCPSEG>::empty());
}

} // verus!
