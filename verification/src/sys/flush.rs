//! Emitting datagrams: pending acknowledgements, window probes and data
//! segments (first transmissions, timeouts and fast retransmissions), and
//! the clock that drives it.

use vstd::prelude::*;
use super::codec::{
    encode_header, header_bytes, lemma_header_roundtrip, lemma_segs_exact_append, parse_header, lemma_segs_exact_input, segs_exact,
    well_formed_datagram, SegHeader, IKCP_CMD_ACK, IKCP_CMD_PUSH, IKCP_CMD_WASK, IKCP_CMD_WINS,
};
use super::send::{concat, datas, lemma_concat_push};
use super::{
    add_wrap, itimediff, timediff, wrap_add, IKCPCB, IKCPSEG, IKCP_ASK_SEND, IKCP_ASK_TELL,
    IKCP_PROBE_INIT, IKCP_PROBE_LIMIT, IKCP_THRESH_MIN,
};

verus! {

/// The bytes of the datagrams `out[from..]`, concatenated.
pub open spec fn emitted(out: Seq<Vec<u8>>, from: int) -> Seq<u8> {
    concat(Seq::new((out.len() - from) as nat, |i: int| out[from + i]@))
}

/// Every datagram in `out[from..]` is well formed for `conv`, and made of
/// whole segments with nothing after the last.
pub open spec fn all_well_formed(out: Seq<Vec<u8>>, from: int, conv: u32) -> bool {
    forall|i: int|
        from <= i < out.len() ==> well_formed_datagram(#[trigger] out[i]@, conv) && segs_exact(
            out[i]@,
            conv,
        )
}

/// `a` is a prefix of `b`.
pub open spec fn is_prefix(a: Seq<u8>, b: Seq<u8>) -> bool {
    a.len() <= b.len() && b.take(a.len() as int) == a
}

/// The sequence numbers of the segments of `q`.
pub open spec fn sns(q: Seq<IKCPSEG>) -> Seq<u32> {
    Seq::new(q.len(), |i: int| q[i].sn)
}

/// The window a control block advertises: the free room in its receive
/// queue.
pub open spec fn wnd_unused(kcp: &IKCPCB) -> u32 {
    if kcp.rcv_queue@.len() < kcp.rcv_wnd {
        (kcp.rcv_wnd - kcp.rcv_queue@.len()) as u32
    } else {
        0
    }
}

/// The header acknowledging `ack = (sn, ts)`.
pub open spec fn ack_header(conv: u32, ack: (u32, u32), wnd: u16, una: u32) -> SegHeader {
    SegHeader { conv, cmd: IKCP_CMD_ACK, frg: 0, wnd, ts: ack.1, sn: ack.0, una, len: 0 }
}

/// The acknowledgement segments for `acks`, in order.
pub open spec fn ack_stream(acks: Seq<(u32, u32)>, conv: u32, wnd: u16, una: u32) -> Seq<u8>
    decreases acks.len(),
{
    if acks.len() == 0 {
        Seq::empty()
    } else {
        ack_stream(acks.drop_last(), conv, wnd, una) + header_bytes(
            ack_header(conv, acks.last(), wnd, una),
        )
    }
}

/// The acknowledgement stream holds 24 bytes per acknowledgement, the
/// `k`-th of them acknowledging `acks[k]`.
proof fn lemma_ack_stream_at(acks: Seq<(u32, u32)>, conv: u32, wnd: u16, una: u32, k: int)
    requires
        0 <= k < acks.len(),
    ensures
        ack_stream(acks, conv, wnd, una).len() == 24 * acks.len(),
        ack_stream(acks, conv, wnd, una).subrange(24 * k, 24 * k + 24) == header_bytes(
            ack_header(conv, acks[k], wnd, una),
        ),
    decreases acks.len(),
{
    let p = acks.drop_last();
    lemma_header_roundtrip(ack_header(conv, acks.last(), wnd, una), Seq::empty());
    assert(header_bytes(ack_header(conv, acks.last(), wnd, una)) + Seq::<u8>::empty() =~= header_bytes(
        ack_header(conv, acks.last(), wnd, una),
    ));
    if p.len() == 0 {
        assert(ack_stream(p, conv, wnd, una) =~= Seq::<u8>::empty());
    } else {
        lemma_ack_stream_at(p, conv, wnd, una, if k < p.len() {
            k
        } else {
            0
        });
    }
    let s = ack_stream(acks, conv, wnd, una);
    let a = ack_stream(p, conv, wnd, una);
    if k < p.len() {
        assert(p[k] == acks[k]);
        assert(s.subrange(24 * k, 24 * k + 24) =~= a.subrange(24 * k, 24 * k + 24));
    } else {
        assert(s.subrange(24 * k, 24 * k + 24) =~= header_bytes(ack_header(conv, acks.last(), wnd, una)));
    }
}

/// Every acknowledgement pending before a flush goes out in it, in order:
/// the `k`-th pending `(sn, ts)` is the `k`-th segment emitted.
pub proof fn law_pending_acks_sent(pre: &IKCPCB, post: &IKCPCB, k: int)
    requires
        flushed(pre, post),
        0 <= k < pre.acklist@.len(),
    ensures
        ({
            let out = emitted(post.output.unwrap()@, pre.output.unwrap()@.len() as int);
            &&& 24 * k + 24 <= out.len()
            &&& out.subrange(24 * k, 24 * k + 24) == header_bytes(
                ack_header(pre.conv, pre.acklist@[k], wnd_unused(pre) as u16, pre.rcv_nxt),
            )
        }),
{
    let acks = pre.acklist@;
    let w = wnd_unused(pre) as u16;
    lemma_ack_stream_at(acks, pre.conv, w, pre.rcv_nxt, k);
    let a = ack_stream(acks, pre.conv, w, pre.rcv_nxt);
    let out = emitted(post.output.unwrap()@, pre.output.unwrap()@.len() as int);
    assert(out.take(a.len() as int) == a);
    assert(out.subrange(24 * k, 24 * k + 24) =~= a.subrange(24 * k, 24 * k + 24));
}

/// Every acknowledgement a flush emits advertises the free room in the
/// receive queue: the receive window less the messages waiting there to be
/// read, or 0 when the queue is full (for windows that fit the 16-bit
/// header field).
pub proof fn law_flush_acks_advertise_free_room(pre: &IKCPCB, post: &IKCPCB, k: int)
    requires
        flushed(pre, post),
        0 <= k < pre.acklist@.len(),
        pre.rcv_wnd <= 0xffff,
    ensures
        ({
            let out = emitted(post.output.unwrap()@, pre.output.unwrap()@.len() as int);
            let h = parse_header(out.subrange(24 * k, 24 * k + 24));
            &&& h.cmd == IKCP_CMD_ACK
            &&& h.sn == pre.acklist@[k].0
            &&& pre.rcv_queue@.len() < pre.rcv_wnd ==> h.wnd + pre.rcv_queue@.len() == pre.rcv_wnd
            &&& pre.rcv_queue@.len() >= pre.rcv_wnd ==> h.wnd == 0
        }),
{
    law_pending_acks_sent(pre, post, k);
    let h = ack_header(pre.conv, pre.acklist@[k], wnd_unused(pre) as u16, pre.rcv_nxt);
    lemma_header_roundtrip(h, Seq::empty());
    assert(header_bytes(h) + Seq::<u8>::empty() =~= header_bytes(h));
}

/// Every data segment a flush sends, new or sent again, advertises the
/// free room in the receive queue: the receive window less the messages
/// waiting there to be read, or 0 when the queue is full (for windows that
/// fit the 16-bit header field). With more messages left unread the
/// advertised window is smaller.
pub proof fn law_flush_data_advertises_free_room(pre: &IKCPCB, s: IKCPSEG, sn: u32)
    requires
        pre.rcv_wnd <= 0xffff,
    ensures
        pre.rcv_queue@.len() < pre.rcv_wnd ==> data_header(s, data_params(pre)).wnd
            + pre.rcv_queue@.len() == pre.rcv_wnd,
        pre.rcv_queue@.len() < pre.rcv_wnd ==> new_header(s, sn, data_params(pre)).wnd
            + pre.rcv_queue@.len() == pre.rcv_wnd,
        pre.rcv_queue@.len() >= pre.rcv_wnd ==> data_header(s, data_params(pre)).wnd == 0,
        pre.rcv_queue@.len() >= pre.rcv_wnd ==> new_header(s, sn, data_params(pre)).wnd == 0,
{
}

/// Window probing after a flush's pacing step: the probe flags, the next
/// probe time and the probe interval. While the peer advertises a zero
/// window, a probe is asked for once the probe time has come, with the
/// interval growing by half up to 120 s; otherwise probing is reset.
pub open spec fn probe_step(k: &IKCPCB) -> (u32, u32, u32) {
    if k.rmt_wnd == 0 {
        if k.probe_wait == 0 {
            (k.probe, wrap_add(k.current, IKCP_PROBE_INIT as int), IKCP_PROBE_INIT)
        } else if itimediff(k.current, k.ts_probe) >= 0 {
            let w0 = if k.probe_wait < IKCP_PROBE_INIT {
                IKCP_PROBE_INIT
            } else {
                k.probe_wait
            };
            let w1 = w0 + w0 / 2;
            let w = if w1 > IKCP_PROBE_LIMIT {
                IKCP_PROBE_LIMIT
            } else {
                w1 as u32
            };
            (k.probe | IKCP_ASK_SEND, wrap_add(k.current, w as int), w)
        } else {
            (k.probe, k.ts_probe, k.probe_wait)
        }
    } else {
        (k.probe, 0, 0)
    }
}

/// The header of a window probe or window announcement (`cmd`); it
/// carries the number and time of the last acknowledgement sent before
/// it, `last`.
pub open spec fn command_header(conv: u32, cmd: u8, wnd: u16, una: u32, last: (u32, u32)) -> SegHeader {
    SegHeader { conv, cmd, frg: 0, wnd, ts: last.1, sn: last.0, una, len: 0 }
}

/// The commands a flush sends after its acknowledgements: a window probe
/// when `probe` asks for one, then a window announcement when it asks for
/// one.
pub open spec fn command_stream(conv: u32, probe: u32, wnd: u16, una: u32, last: (u32, u32)) -> Seq<u8> {
    (if probe & IKCP_ASK_SEND != 0 {
        header_bytes(command_header(conv, IKCP_CMD_WASK, wnd, una, last))
    } else {
        Seq::empty()
    }) + (if probe & IKCP_ASK_TELL != 0 {
        header_bytes(command_header(conv, IKCP_CMD_WINS, wnd, una, last))
    } else {
        Seq::empty()
    })
}

/// The last of the acknowledgements `acks`, or `(0, 0)` when there are
/// none.
pub open spec fn last_ack(acks: Seq<(u32, u32)>) -> (u32, u32) {
    if acks.len() > 0 {
        acks.last()
    } else {
        (0, 0)
    }
}

/// The window that limits how many segments may be in flight.
pub open spec fn send_window(kcp: &IKCPCB) -> u32 {
    let w = if kcp.snd_wnd < kcp.rmt_wnd {
        kcp.snd_wnd
    } else {
        kcp.rmt_wnd
    };
    if kcp.nocwnd == 0 && kcp.cwnd < w {
        kcp.cwnd
    } else {
        w
    }
}

/// The state of the datagrams being built: earlier datagrams kept, new
/// ones well formed, the one being filled made of whole segments.
pub open spec fn emit_ok(
    out: Seq<Vec<u8>>,
    buf: Seq<u8>,
    out0: Seq<Vec<u8>>,
    conv: u32,
    mtu: u32,
) -> bool {
    &&& out.len() >= out0.len()
    &&& out.take(out0.len() as int) == out0
    &&& all_well_formed(out, out0.len() as int, conv)
    &&& all_fit(out, out0.len() as int, mtu)
    &&& segs_exact(buf, conv)
    &&& fits(buf, mtu)
    &&& buf.len() <= 0x8000_0018
}

/// `d` holds exactly one segment.
pub open spec fn one_segment(d: Seq<u8>) -> bool {
    d.len() >= 24 && d.len() == 24 + parse_header(d).len
}

/// A datagram fits the MTU, or holds a single segment too large for it.
pub open spec fn fits(d: Seq<u8>, mtu: u32) -> bool {
    d.len() <= mtu || one_segment(d)
}

/// Every datagram in `out[from..]` fits the MTU, or holds a single
/// segment too large for it.
pub open spec fn all_fit(out: Seq<Vec<u8>>, from: int, mtu: u32) -> bool {
    forall|i: int| from <= i < out.len() ==> fits(#[trigger] out[i]@, mtu)
}

/// Appending a segment of `need` bytes to a datagram that had room for it,
/// or was empty, leaves a datagram that fits.
proof fn lemma_put_fits(b: Seq<u8>, h: SegHeader, payload: Seq<u8>, mtu: u32)
    requires
        h.len == payload.len(),
        b.len() + 24 + payload.len() <= mtu || b.len() == 0,
    ensures
        fits(b + header_bytes(h) + payload, mtu),
{
    lemma_header_roundtrip(h, payload);
    if b.len() == 0 {
        assert(b + header_bytes(h) + payload =~= header_bytes(h) + payload);
    }
}

/// Everything emitted so far: the new datagrams and the one being filled.
pub open spec fn stream_of(out: Seq<Vec<u8>>, buf: Seq<u8>, out0: Seq<Vec<u8>>) -> Seq<u8> {
    emitted(out, out0.len() as int) + buf
}

/// The bytes `s` carry, somewhere, a data segment of conversation `conv`
/// with sequence number `sn`, fragment index `frg` (its low byte) and
/// payload `data`.
pub open spec fn carries(s: Seq<u8>, conv: u32, sn: u32, frg: u32, data: Seq<u8>) -> bool {
    exists|pos: int, h: SegHeader|
        {
            &&& h.conv == conv
            &&& h.cmd == IKCP_CMD_PUSH
            &&& h.sn == sn
            &&& h.frg as int == frg as int % 256
            &&& h.len == data.len()
            &&& 0 <= pos
            &&& pos + 24 + data.len() <= s.len()
            &&& #[trigger] s.subrange(pos, pos + 24 + data.len()) == #[trigger] header_bytes(h) + data
        }
}

/// What a stream carries, its extensions carry too.
proof fn lemma_carries_prefix(a: Seq<u8>, b: Seq<u8>, conv: u32, sn: u32, frg: u32, data: Seq<u8>)
    requires
        carries(a, conv, sn, frg, data),
        is_prefix(a, b),
    ensures
        carries(b, conv, sn, frg, data),
{
    let (pos, h) = choose|pos: int, h: SegHeader|
        {
            &&& h.conv == conv
            &&& h.cmd == IKCP_CMD_PUSH
            &&& h.sn == sn
            &&& h.frg as int == frg as int % 256
            &&& h.len == data.len()
            &&& 0 <= pos
            &&& pos + 24 + data.len() <= a.len()
            &&& #[trigger] a.subrange(pos, pos + 24 + data.len()) == #[trigger] header_bytes(h) + data
        };
    assert(b.subrange(pos, pos + 24 + data.len()) =~= a.subrange(pos, pos + 24 + data.len()));
}

/// The low byte of a 32-bit value.
proof fn lemma_low_byte(x: u32, b: u8)
    requires
        b == #[verifier::truncate] (x as u8),
    ensures
        b as int == x as int % 256,
{
    assert(b as u32 == x % 256) by (bit_vector)
        requires
            b == #[verifier::truncate] (x as u8),
    ;
}

pub proof fn lemma_emitted_push(out: Seq<Vec<u8>>, from: int, v: Vec<u8>)
    requires
        0 <= from <= out.len(),
    ensures
        emitted(out.push(v), from) == emitted(out, from) + v@,
{
    let a = Seq::new((out.len() - from) as nat, |i: int| out[from + i]@);
    let b = Seq::new((out.push(v).len() - from) as nat, |i: int| out.push(v)[from + i]@);
    assert(b =~= a.push(v@));
    lemma_concat_push(a, v@);
}

proof fn lemma_prefix_trans(a: Seq<u8>, b: Seq<u8>, c: Seq<u8>)
    requires
        is_prefix(a, b),
        is_prefix(b, c),
    ensures
        is_prefix(a, c),
{
    assert(c.take(a.len() as int) =~= c.take(b.len() as int).take(a.len() as int));
}

proof fn lemma_prefix_append(a: Seq<u8>, b: Seq<u8>, x: Seq<u8>)
    requires
        is_prefix(a, b),
    ensures
        is_prefix(a, b + x),
{
    assert((b + x).take(a.len() as int) =~= b.take(a.len() as int));
}

/// Sends the datagram being filled when `need` more bytes would not fit
/// into the MTU.
fn make_room(
    out: &mut Vec<Vec<u8>>,
    buf: &mut Vec<u8>,
    need: usize,
    mtu: u32,
    Ghost(out0): Ghost<Seq<Vec<u8>>>,
    Ghost(conv): Ghost<u32>,
)
    requires
        emit_ok(old(out)@, old(buf)@, out0, conv, mtu),
        need <= 0x8000_0018,
        mtu <= 0x7fff_ffff,
    ensures
        emit_ok(final(out)@, final(buf)@, out0, conv, mtu),
        stream_of(final(out)@, final(buf)@, out0) == stream_of(old(out)@, old(buf)@, out0),
        final(buf)@.len() + need <= mtu || final(buf)@.len() == 0,
{
    if (buf.len() as u64) + (need as u64) > mtu as u64 {
        if buf.len() > 0 {
            let full = buf.split_off(0);
            proof {
                assert(full@ == old(buf)@);
                assert(buf@.len() == 0);
                lemma_segs_exact_input(full@, conv);
                lemma_emitted_push(out@, out0.len() as int, full);
                assert(segs_exact(Seq::<u8>::empty(), conv));
            }
            let ghost before = out@;
            out.push(full);
            proof {
                assert(out@.take(out0.len() as int) =~= before.take(out0.len() as int));
                assert(stream_of(out@, buf@, out0) =~= stream_of(old(out)@, old(buf)@, out0));
            }
        }
    }
}

/// Appends one segment to the datagram being filled.
fn put_segment(buf: &mut Vec<u8>, h: &SegHeader, payload: &Vec<u8>, Ghost(conv): Ghost<u32>)
    requires
        segs_exact(old(buf)@, conv),
        h.conv == conv,
        h.cmd == IKCP_CMD_ACK || h.cmd == IKCP_CMD_PUSH || h.cmd == IKCP_CMD_WASK || h.cmd
            == IKCP_CMD_WINS,
        h.len == payload@.len(),
        payload@.len() < 0x8000_0000,
    ensures
        final(buf)@ == old(buf)@ + header_bytes(*h) + payload@,
        segs_exact(final(buf)@, conv),
{
    encode_header(buf, h);
    let ghost b1 = buf@;
    let n = payload.len();
    let mut j: usize = 0;
    while j < n
        invariant
            n == payload@.len(),
            j <= n,
            buf@ == b1 + payload@.take(j as int),
        decreases n - j,
    {
        buf.push(payload[j]);
        j = j + 1;
        assert(buf@ =~= b1 + payload@.take(j as int));
    }
    proof {
        assert(payload@.take(n as int) =~= payload@);
        lemma_segs_exact_append(old(buf)@, *h, payload@, conv);
    }
}

/// Emits one acknowledgement for every pending `(sn, ts)`, in order.
fn flush_acks(
    kcp: &IKCPCB,
    out: &mut Vec<Vec<u8>>,
    buf: &mut Vec<u8>,
    wnd: u16,
    Ghost(out0): Ghost<Seq<Vec<u8>>>,
)
    requires
        kcp.wf(),
        emit_ok(old(out)@, old(buf)@, out0, kcp.conv, kcp.mtu),
        stream_of(old(out)@, old(buf)@, out0).len() == 0,
    ensures
        emit_ok(final(out)@, final(buf)@, out0, kcp.conv, kcp.mtu),
        stream_of(final(out)@, final(buf)@, out0) == ack_stream(
            kcp.acklist@,
            kcp.conv,
            wnd,
            kcp.rcv_nxt,
        ),
{
    let n = kcp.acklist.len();
    let empty: Vec<u8> = Vec::new();
    let mut i: usize = 0;
    proof {
        assert(kcp.acklist@.take(0) =~= Seq::<(u32, u32)>::empty());
        assert(stream_of(out@, buf@, out0) =~= Seq::<u8>::empty());
    }
    while i < n
        invariant
            n == kcp.acklist@.len(),
            i <= n,
            kcp.wf(),
            empty@.len() == 0,
            emit_ok(out@, buf@, out0, kcp.conv, kcp.mtu),
            stream_of(out@, buf@, out0) == ack_stream(
                kcp.acklist@.take(i as int),
                kcp.conv,
                wnd,
                kcp.rcv_nxt,
            ),
        decreases n - i,
    {
        make_room(out, buf, 24, kcp.mtu, Ghost(out0), Ghost(kcp.conv));
        let (sn, ts) = kcp.acklist[i];
        let h = SegHeader {
            conv: kcp.conv,
            cmd: IKCP_CMD_ACK,
            frg: 0,
            wnd,
            ts,
            sn,
            una: kcp.rcv_nxt,
            len: 0,
        };
        let ghost s0 = stream_of(out@, buf@, out0);
        put_segment(buf, &h, &empty, Ghost(kcp.conv));
        proof {
            let acks = kcp.acklist@;
            assert(acks.take(i + 1).drop_last() =~= acks.take(i as int));
            assert(acks.take(i + 1).last() == acks[i as int]);
            assert(h == ack_header(kcp.conv, acks[i as int], wnd, kcp.rcv_nxt));
            assert(stream_of(out@, buf@, out0) =~= s0 + header_bytes(h));
        }
        i = i + 1;
    }
    proof {
        assert(kcp.acklist@.take(n as int) =~= kcp.acklist@);
    }
}

/// Emits a header-only segment with command `cmd`.
fn flush_command(
    kcp: &IKCPCB,
    out: &mut Vec<Vec<u8>>,
    buf: &mut Vec<u8>,
    cmd: u8,
    wnd: u16,
    last: (u32, u32),
    Ghost(out0): Ghost<Seq<Vec<u8>>>,
)
    requires
        kcp.wf(),
        cmd == IKCP_CMD_WASK || cmd == IKCP_CMD_WINS,
        emit_ok(old(out)@, old(buf)@, out0, kcp.conv, kcp.mtu),
    ensures
        emit_ok(final(out)@, final(buf)@, out0, kcp.conv, kcp.mtu),
        stream_of(final(out)@, final(buf)@, out0) == stream_of(old(out)@, old(buf)@, out0)
            + header_bytes(command_header(kcp.conv, cmd, wnd, kcp.rcv_nxt, last)),
{
    make_room(out, buf, 24, kcp.mtu, Ghost(out0), Ghost(kcp.conv));
    let ghost s0 = stream_of(out@, buf@, out0);
    let empty: Vec<u8> = Vec::new();
    let h = SegHeader {
        conv: kcp.conv,
        cmd,
        frg: 0,
        wnd,
        ts: last.1,
        sn: last.0,
        una: kcp.rcv_nxt,
        len: 0,
    };
    put_segment(buf, &h, &empty, Ghost(kcp.conv));
    proof {
        let s1 = stream_of(out@, buf@, out0);
        assert(h == command_header(kcp.conv, cmd, wnd, kcp.rcv_nxt, last));
        assert(s1 =~= s0 + header_bytes(h));
    }
}

/// Paces window probing while the peer advertises a zero window.
fn probe_window(kcp: &mut IKCPCB)
    requires
        old(kcp).wf(),
    ensures
        final(kcp).wf(),
        final(kcp).same_config(old(kcp)),
        final(kcp).same_send_side(old(kcp)),
        final(kcp).rcv_queue@ == old(kcp).rcv_queue@,
        final(kcp).rcv_buf@ == old(kcp).rcv_buf@,
        final(kcp).rcv_nxt == old(kcp).rcv_nxt,
        final(kcp).acklist@ == old(kcp).acklist@,
        final(kcp).current == old(kcp).current,
        final(kcp).ts_flush == old(kcp).ts_flush,
        final(kcp).updated == old(kcp).updated,
        final(kcp).rx_srtt == old(kcp).rx_srtt,
        final(kcp).rx_rttval == old(kcp).rx_rttval,
        final(kcp).rx_rto == old(kcp).rx_rto,
        final(kcp).output == old(kcp).output,
        (final(kcp).probe, final(kcp).ts_probe, final(kcp).probe_wait) == probe_step(old(kcp)),
{
    if kcp.rmt_wnd == 0 {
        if kcp.probe_wait == 0 {
            kcp.probe_wait = IKCP_PROBE_INIT;
            kcp.ts_probe = add_wrap(kcp.current, kcp.probe_wait);
        } else if timediff(kcp.current, kcp.ts_probe) >= 0 {
            if kcp.probe_wait < IKCP_PROBE_INIT {
                kcp.probe_wait = IKCP_PROBE_INIT;
            }
            kcp.probe_wait = kcp.probe_wait + kcp.probe_wait / 2;
            if kcp.probe_wait > IKCP_PROBE_LIMIT {
                kcp.probe_wait = IKCP_PROBE_LIMIT;
            }
            kcp.ts_probe = add_wrap(kcp.current, kcp.probe_wait);
            kcp.probe = kcp.probe | IKCP_ASK_SEND;
        }
    } else {
        kcp.ts_probe = 0;
        kcp.probe_wait = 0;
    }
}

/// A queued segment `s` as it enters flight with number `sn` on control
/// block `k`, announcing window `wnd`: not yet sent, its timer due now.
pub open spec fn in_flight(s: IKCPSEG, k: &IKCPCB, wnd: u32, sn: u32) -> IKCPSEG {
    IKCPSEG {
        conv: k.conv,
        cmd: IKCP_CMD_PUSH as u32,
        wnd,
        ts: k.current,
        sn,
        una: k.rcv_nxt,
        resendts: k.current,
        rto: k.rx_rto as u32,
        fastack: 0,
        xmit: 0,
        ..s
    }
}

/// Moves segments from `snd_queue` into flight while the send window has
/// room, numbering them from `snd_nxt` on.
fn move_to_flight(kcp: &mut IKCPCB, wnd: u32, cwnd: u32)
    requires
        old(kcp).wf(),
    ensures
        final(kcp).wf(),
        final(kcp).same_config(old(kcp)),
        final(kcp).same_recv_side(old(kcp)),
        final(kcp).same_timing(old(kcp)),
        final(kcp).output == old(kcp).output,
        final(kcp).snd_una == old(kcp).snd_una,
        final(kcp).ssthresh == old(kcp).ssthresh,
        final(kcp).cwnd == old(kcp).cwnd,
        final(kcp).incr == old(kcp).incr,
        final(kcp).rmt_wnd == old(kcp).rmt_wnd,
        final(kcp).xmit == old(kcp).xmit,
        final(kcp).state == old(kcp).state,
        ({
            let q = old(kcp).snd_queue@;
            let m = q.len() - final(kcp).snd_queue@.len();
            let lim = wrap_add(old(kcp).snd_una, cwnd as int);
            &&& 0 <= m <= q.len()
            &&& final(kcp).snd_queue@ == q.skip(m)
            &&& datas(final(kcp).snd_buf@) == datas(old(kcp).snd_buf@) + datas(q.take(m))
            &&& sns(final(kcp).snd_buf@) == sns(old(kcp).snd_buf@) + Seq::new(
                m as nat,
                |j: int| wrap_add(old(kcp).snd_nxt, j),
            )
            &&& final(kcp).snd_nxt == wrap_add(old(kcp).snd_nxt, m)
            &&& forall|j: int|
                0 <= j < m ==> itimediff(#[trigger] wrap_add(old(kcp).snd_nxt, j), lim) < 0
            &&& (m == q.len() || itimediff(final(kcp).snd_nxt, lim) >= 0)
            &&& final(kcp).snd_buf@.len() == old(kcp).snd_buf@.len() + m
            &&& final(kcp).snd_buf@.take(old(kcp).snd_buf@.len() as int) == old(kcp).snd_buf@
            &&& forall|j: int|
                0 <= j < m ==> (#[trigger] final(kcp).snd_buf@[old(kcp).snd_buf@.len() + j]).xmit
                    == 0 && final(kcp).snd_buf@[old(kcp).snd_buf@.len() + j].frg == q[j].frg
            &&& forall|j: int|
                0 <= j < m ==> #[trigger] final(kcp).snd_buf@[old(kcp).snd_buf@.len() + j] == in_flight(
                    q[j],
                    old(kcp),
                    wnd,
                    wrap_add(old(kcp).snd_nxt, j),
                )
        }),
{
    let ghost q = kcp.snd_queue@;
    let ghost b0 = kcp.snd_buf@;
    let ghost nxt0 = kcp.snd_nxt;
    let ghost lim = wrap_add(kcp.snd_una, cwnd as int);
    let limit = add_wrap(kcp.snd_una, cwnd);
    let ghost mut m: int = 0;
    proof {
        assert(q.skip(0) =~= q);
        assert(q.take(0) =~= Seq::<IKCPSEG>::empty());
        assert(datas(b0) + datas(q.take(0)) =~= datas(b0));
        assert(sns(b0) + Seq::new(0, |j: int| wrap_add(nxt0, j)) =~= sns(b0));
    }
    while timediff(kcp.snd_nxt, limit) < 0 && kcp.snd_queue.len() > 0
        invariant_except_break
            0 <= m <= q.len(),
            limit == lim,
            kcp.snd_queue@ == q.skip(m),
            datas(kcp.snd_buf@) == datas(b0) + datas(q.take(m)),
            sns(kcp.snd_buf@) == sns(b0) + Seq::new(m as nat, |j: int| wrap_add(nxt0, j)),
            kcp.snd_nxt == wrap_add(nxt0, m),
            forall|j: int| 0 <= j < m ==> itimediff(#[trigger] wrap_add(nxt0, j), lim) < 0,
            kcp.snd_buf@.len() == b0.len() + m,
            kcp.snd_buf@.take(b0.len() as int) == b0,
            forall|j: int|
                0 <= j < m ==> (#[trigger] kcp.snd_buf@[b0.len() + j]).xmit == 0 && kcp.snd_buf@[b0.len()
                    + j].frg == q[j].frg,
            forall|j: int|
                0 <= j < m ==> #[trigger] kcp.snd_buf@[b0.len() + j] == in_flight(
                    q[j],
                    old(kcp),
                    wnd,
                    wrap_add(nxt0, j),
                ),
            kcp.wf(),
            kcp.same_config(old(kcp)),
            kcp.same_recv_side(old(kcp)),
            kcp.same_timing(old(kcp)),
            kcp.output == old(kcp).output,
            kcp.snd_una == old(kcp).snd_una,
            kcp.ssthresh == old(kcp).ssthresh,
            kcp.cwnd == old(kcp).cwnd,
            kcp.incr == old(kcp).incr,
            kcp.rmt_wnd == old(kcp).rmt_wnd,
            kcp.xmit == old(kcp).xmit,
            kcp.state == old(kcp).state,
        ensures
            0 <= m <= q.len(),
            kcp.snd_queue@ == q.skip(m),
            datas(kcp.snd_buf@) == datas(b0) + datas(q.take(m)),
            sns(kcp.snd_buf@) == sns(b0) + Seq::new(m as nat, |j: int| wrap_add(nxt0, j)),
            kcp.snd_nxt == wrap_add(nxt0, m),
            forall|j: int| 0 <= j < m ==> itimediff(#[trigger] wrap_add(nxt0, j), lim) < 0,
            m == q.len() || itimediff(kcp.snd_nxt, lim) >= 0,
            kcp.snd_buf@.len() == b0.len() + m,
            kcp.snd_buf@.take(b0.len() as int) == b0,
            forall|j: int|
                0 <= j < m ==> (#[trigger] kcp.snd_buf@[b0.len() + j]).xmit == 0 && kcp.snd_buf@[b0.len()
                    + j].frg == q[j].frg,
            forall|j: int|
                0 <= j < m ==> #[trigger] kcp.snd_buf@[b0.len() + j] == in_flight(
                    q[j],
                    old(kcp),
                    wnd,
                    wrap_add(nxt0, j),
                ),
            kcp.wf(),
            kcp.same_config(old(kcp)),
            kcp.same_recv_side(old(kcp)),
            kcp.same_timing(old(kcp)),
            kcp.output == old(kcp).output,
            kcp.snd_una == old(kcp).snd_una,
            kcp.ssthresh == old(kcp).ssthresh,
            kcp.cwnd == old(kcp).cwnd,
            kcp.incr == old(kcp).incr,
            kcp.rmt_wnd == old(kcp).rmt_wnd,
            kcp.xmit == old(kcp).xmit,
            kcp.state == old(kcp).state,
        decreases kcp.snd_queue@.len(),
    {
        let ghost bq = kcp.snd_queue@;
        let ghost bb = kcp.snd_buf@;
        let mut seg = kcp.snd_queue.remove(0);
        seg.conv = kcp.conv;
        seg.cmd = IKCP_CMD_PUSH as u32;
        seg.wnd = wnd;
        seg.ts = kcp.current;
        seg.sn = kcp.snd_nxt;
        seg.una = kcp.rcv_nxt;
        seg.resendts = kcp.current;
        seg.rto = kcp.rx_rto as u32;
        seg.fastack = 0;
        seg.xmit = 0;
        let ghost sd = seg.data@;
        let ghost ssn = seg.sn;
        let ghost sfrg = seg.frg;
        kcp.snd_buf.push(seg);
        kcp.snd_nxt = add_wrap(kcp.snd_nxt, 1);
        proof {
            assert(bq[0] == q[m]);
            assert(sd == q[m].data@);
            assert(ssn == wrap_add(nxt0, m));
            assert(q.take(m + 1) =~= q.take(m).push(q[m]));
            assert(datas(q.take(m + 1)) =~= datas(q.take(m)).push(q[m].data@));
            assert(datas(kcp.snd_buf@) =~= datas(bb).push(sd));
            assert(sns(kcp.snd_buf@) =~= sns(bb).push(ssn));
            assert(Seq::new((m + 1) as nat, |j: int| wrap_add(nxt0, j)) =~= Seq::new(
                m as nat,
                |j: int| wrap_add(nxt0, j),
            ).push(wrap_add(nxt0, m)));
            assert(q.skip(m + 1) =~= bq.drop_first());
            assert(sfrg == q[m].frg);
            assert(kcp.snd_buf@[b0.len() + m] == in_flight(q[m], old(kcp), wnd, wrap_add(nxt0, m)));
            assert(kcp.snd_buf@.take(b0.len() as int) =~= bb.take(b0.len() as int));
            assert forall|j: int| 0 <= j < m + 1 implies (#[trigger] kcp.snd_buf@[b0.len() + j]).xmit
                == 0 && kcp.snd_buf@[b0.len() + j].frg == q[j].frg by {
                if j < m {
                    assert(kcp.snd_buf@[b0.len() + j] == bb[b0.len() + j]);
                }
            }
            assert forall|j: int| 0 <= j < m + 1 implies #[trigger] kcp.snd_buf@[b0.len() + j]
                == in_flight(q[j], old(kcp), wnd, wrap_add(nxt0, j)) by {
                if j < m {
                    assert(kcp.snd_buf@[b0.len() + j] == bb[b0.len() + j]);
                }
            }
            assert(wrap_add(wrap_add(nxt0, m), 1) == wrap_add(nxt0, m + 1));
            m = m + 1;
            assert forall|i: int| 0 <= i < kcp.snd_queue@.len() implies #[trigger] kcp.snd_queue@[i].data@.len()
                <= 0x7fff_ffff by {
                assert(kcp.snd_queue@[i] == bq[i + 1]);
            }
            assert forall|i: int| 0 <= i < kcp.snd_buf@.len() implies #[trigger] kcp.snd_buf@[i].data@.len()
                <= 0x7fff_ffff by {
                if i < bb.len() {
                    assert(kcp.snd_buf@[i] == bb[i]);
                } else {
                    assert(kcp.snd_buf@[i].data@ == sd);
                }
            }
        }
    }
}

/// What a flush decides and stamps data segments with: the conversation,
/// the clock, the fast retransmission threshold and limit, the advertised
/// window and the cumulative acknowledgement.
pub struct DataParams {
    pub conv: u32,
    pub current: u32,
    pub resent: u32,
    pub fastlimit: i32,
    pub wnd: u16,
    pub una: u32,
    pub rx_rto: u32,
    pub nodelay: u32,
    pub rtomin: u32,
    pub wnd_full: u32,
}

/// The extra delay of a first transmission's timer: an eighth of the
/// timeout in normal mode, none in nodelay mode.
pub open spec fn rto_margin(k: &IKCPCB) -> u32 {
    if k.nodelay == 0 {
        (k.rx_rto / 8) as u32
    } else {
        0
    }
}

/// The parameters a flush of `k` sends its data segments with, given the
/// fast retransmission threshold, the timer margin and the advertised
/// window.
pub open spec fn flush_params(k: &IKCPCB, resent: u32, rtomin: u32, wnd: u32) -> DataParams {
    DataParams {
        conv: k.conv,
        current: k.current,
        resent,
        fastlimit: k.fastlimit,
        wnd: wnd as u16,
        una: k.rcv_nxt,
        rx_rto: k.rx_rto as u32,
        nodelay: k.nodelay,
        rtomin,
        wnd_full: wnd,
    }
}

/// The number of skipping acknowledgements after which a segment is
/// retransmitted fast: `fastresend`, or never when it is not positive.
pub open spec fn resend_threshold(k: &IKCPCB) -> u32 {
    if k.fastresend > 0 {
        k.fastresend as u32
    } else {
        0xffff_ffff
    }
}

/// The parameters a flush of `k` sends its data segments with.
pub open spec fn data_params(k: &IKCPCB) -> DataParams {
    flush_params(k, resend_threshold(k), rto_margin(k), wnd_unused(k))
}

/// A segment sent before whose retransmission timer has expired.
pub open spec fn is_timeout(s: IKCPSEG, p: DataParams) -> bool {
    s.xmit != 0 && itimediff(p.current, s.resendts) >= 0
}

/// A segment sent before, not timed out, skipped by `resent` or more
/// acknowledgements and not yet retransmitted fast beyond the limit.
pub open spec fn is_fast(s: IKCPSEG, p: DataParams) -> bool {
    &&& s.xmit != 0
    &&& itimediff(p.current, s.resendts) < 0
    &&& s.fastack >= p.resent
    &&& (s.xmit > 0x7fff_ffff || s.xmit as int <= p.fastlimit || p.fastlimit <= 0)
}

/// A segment a flush sends: never sent, timed out, or due for a fast
/// retransmission.
pub open spec fn is_due(s: IKCPSEG, p: DataParams) -> bool {
    s.xmit == 0 || is_timeout(s, p) || is_fast(s, p)
}

/// The header a data segment is sent with.
pub open spec fn data_header(s: IKCPSEG, p: DataParams) -> SegHeader {
    SegHeader {
        conv: p.conv,
        cmd: IKCP_CMD_PUSH,
        frg: (s.frg % 256) as u8,
        wnd: p.wnd,
        ts: p.current,
        sn: s.sn,
        una: p.una,
        len: s.data@.len() as u32,
    }
}

/// The bytes a flush sends for the segments in flight `b`, in order: each
/// due segment's header and payload.
pub open spec fn data_stream(b: Seq<IKCPSEG>, p: DataParams) -> Seq<u8>
    decreases b.len(),
{
    if b.len() == 0 {
        Seq::empty()
    } else {
        data_stream(b.drop_last(), p) + if is_due(b.last(), p) {
            header_bytes(data_header(b.last(), p)) + b.last().data@
        } else {
            Seq::empty()
        }
    }
}

/// Whether some segment of `b` is retransmitted fast.
pub open spec fn any_fast(b: Seq<IKCPSEG>, p: DataParams) -> bool {
    exists|k: int| 0 <= k < b.len() && is_fast(#[trigger] b[k], p)
}

/// Whether some segment of `b` timed out.
pub open spec fn any_timeout(b: Seq<IKCPSEG>, p: DataParams) -> bool {
    exists|k: int| 0 <= k < b.len() && is_timeout(#[trigger] b[k], p)
}

/// The header a segment first moved into flight as number `sn` is sent
/// with.
pub open spec fn new_header(s: IKCPSEG, sn: u32, p: DataParams) -> SegHeader {
    SegHeader {
        conv: p.conv,
        cmd: IKCP_CMD_PUSH,
        frg: (s.frg % 256) as u8,
        wnd: p.wnd,
        ts: p.current,
        sn,
        una: p.una,
        len: s.data@.len() as u32,
    }
}

/// The bytes a flush sends for the queued segments `qs` that it moves
/// into flight, numbered from `nxt` on: each one's header and payload.
pub open spec fn new_stream(qs: Seq<IKCPSEG>, nxt: u32, p: DataParams) -> Seq<u8>
    decreases qs.len(),
{
    if qs.len() == 0 {
        Seq::empty()
    } else {
        new_stream(qs.drop_last(), nxt, p) + (header_bytes(
            new_header(qs.last(), wrap_add(nxt, qs.len() - 1), p),
        ) + qs.last().data@)
    }
}

/// The slow-start threshold, congestion window and its byte count after a
/// flush of `pre` that left `nxt` as the next number to send: after a
/// fast retransmission the threshold is half the data in flight (at least
/// 2) and the window the threshold plus the resend count; after a timeout
/// the threshold is half the window used and the window restarts at one
/// segment; the window is never left below one segment.
pub open spec fn congestion_after(pre: &IKCPCB, nxt: u32, fast: bool, lost: bool) -> (u32, u32, u32) {
    let resent = resend_threshold(pre);
    let (ss1, cw1, in1) = if fast {
        let half = vstd::wrapping::u32_specs::wrapping_sub(nxt, pre.snd_una) / 2;
        let ss = if half < IKCP_THRESH_MIN {
            IKCP_THRESH_MIN
        } else {
            half
        };
        let cw = vstd::wrapping::u32_specs::wrapping_add(ss, resent);
        (ss, cw, vstd::wrapping::u32_specs::wrapping_mul(cw, pre.mss))
    } else {
        (pre.ssthresh, pre.cwnd, pre.incr)
    };
    let (ss2, cw2, in2) = if lost {
        let half = send_window(pre) / 2;
        (if half < IKCP_THRESH_MIN {
            IKCP_THRESH_MIN
        } else {
            half
        }, 1u32, pre.mss)
    } else {
        (ss1, cw1, in1)
    };
    if cw2 < 1 {
        (ss2, 1u32, pre.mss)
    } else {
        (ss2, cw2, in2)
    }
}

/// The data stream of two runs of segments is the two streams joined.
proof fn lemma_data_stream_append(a: Seq<IKCPSEG>, b: Seq<IKCPSEG>, p: DataParams)
    ensures
        data_stream(a + b, p) == data_stream(a, p) + data_stream(b, p),
    decreases b.len(),
{
    if b.len() == 0 {
        assert(a + b =~= a);
        assert(data_stream(a, p) + data_stream(b, p) =~= data_stream(a, p));
    } else {
        let c = b.drop_last();
        lemma_data_stream_append(a, c, p);
        assert((a + b).drop_last() =~= a + c);
        assert((a + b).last() == b.last());
        let x = if is_due(b.last(), p) {
            header_bytes(data_header(b.last(), p)) + b.last().data@
        } else {
            Seq::empty()
        };
        assert(data_stream(a, p) + (data_stream(c, p) + x) =~= data_stream(a, p) + data_stream(c, p)
            + x);
    }
}

/// Segments moved into flight are all sent, with the numbers they were
/// given.
proof fn lemma_new_part(nb: Seq<IKCPSEG>, qs: Seq<IKCPSEG>, nxt: u32, p: DataParams)
    requires
        nb.len() == qs.len(),
        forall|j: int|
            0 <= j < nb.len() ==> (#[trigger] nb[j]).xmit == 0 && nb[j].frg == qs[j].frg && nb[j].sn
                == wrap_add(nxt, j) && nb[j].data@ == qs[j].data@,
    ensures
        data_stream(nb, p) == new_stream(qs, nxt, p),
        !any_fast(nb, p),
        !any_timeout(nb, p),
    decreases nb.len(),
{
    if nb.len() > 0 {
        let n1 = nb.drop_last();
        let q1 = qs.drop_last();
        assert forall|j: int| 0 <= j < n1.len() implies (#[trigger] n1[j]).xmit == 0 && n1[j].frg
            == q1[j].frg && n1[j].sn == wrap_add(nxt, j) && n1[j].data@ == q1[j].data@ by {
            assert(n1[j] == nb[j]);
            assert(q1[j] == qs[j]);
        }
        lemma_new_part(n1, q1, nxt, p);
        let l = nb.len() - 1;
        assert(nb.last() == nb[l]);
        assert(qs.last() == qs[l]);
        assert(data_header(nb.last(), p) == new_header(qs.last(), wrap_add(nxt, l), p));
    }
    if any_fast(nb, p) {
        let k = choose|k: int| 0 <= k < nb.len() && is_fast(#[trigger] nb[k], p);
        assert(nb[k].xmit == 0);
    }
    if any_timeout(nb, p) {
        let k = choose|k: int| 0 <= k < nb.len() && is_timeout(#[trigger] nb[k], p);
        assert(nb[k].xmit == 0);
    }
}

/// Segments that are neither fast nor timed out add no fast
/// retransmission or timeout.
proof fn lemma_any_append(a: Seq<IKCPSEG>, b: Seq<IKCPSEG>, p: DataParams)
    requires
        !any_fast(b, p),
        !any_timeout(b, p),
    ensures
        any_fast(a + b, p) == any_fast(a, p),
        any_timeout(a + b, p) == any_timeout(a, p),
{
    let c = a + b;
    if any_fast(c, p) {
        let k = choose|k: int| 0 <= k < c.len() && is_fast(#[trigger] c[k], p);
        if k >= a.len() {
            assert(c[k] == b[k - a.len()]);
        } else {
            assert(c[k] == a[k]);
        }
    }
    if any_fast(a, p) {
        let k = choose|k: int| 0 <= k < a.len() && is_fast(#[trigger] a[k], p);
        assert(c[k] == a[k]);
    }
    if any_timeout(c, p) {
        let k = choose|k: int| 0 <= k < c.len() && is_timeout(#[trigger] c[k], p);
        if k >= a.len() {
            assert(c[k] == b[k - a.len()]);
        } else {
            assert(c[k] == a[k]);
        }
    }
    if any_timeout(a, p) {
        let k = choose|k: int| 0 <= k < a.len() && is_timeout(#[trigger] a[k], p);
        assert(c[k] == a[k]);
    }
}

/// The retransmission timeout of a segment after a retransmission by
/// timeout: doubled (at least by `rx_rto`) in normal mode; in nodelay
/// mode raised by half of itself (mode 1) or of `rx_rto` (higher modes),
/// that half taken of the value read as a signed 32-bit number and
/// rounded toward zero.
pub open spec fn backed_off(rto: u32, rx_rto: u32, nodelay: u32) -> u32 {
    if nodelay == 0 {
        vstd::wrapping::u32_specs::wrapping_add(
            rto,
            if rto >= rx_rto {
                rto
            } else {
                rx_rto
            },
        )
    } else {
        let v = if nodelay < 2 {
            rto
        } else {
            rx_rto
        };
        if v < 0x8000_0000 {
            vstd::wrapping::u32_specs::wrapping_add(rto, v / 2)
        } else {
            vstd::wrapping::u32_specs::wrapping_sub(rto, ((0x1_0000_0000 - v) / 2) as u32)
        }
    }
}

/// The timers a flush gives a segment: a first transmission is armed
/// for `rx_rto + rtomin`; a timed-out one counts a transmission and backs
/// its timeout off; a fast retransmission counts a transmission, clears
/// its skip count and rearms; any other segment is left alone.
pub open spec fn rescheduled(s: IKCPSEG, p: DataParams) -> IKCPSEG {
    let rx_rto = p.rx_rto;
    let nodelay = p.nodelay;
    let rtomin = p.rtomin;
    if s.xmit == 0 {
        IKCPSEG {
            xmit: 1,
            rto: rx_rto,
            resendts: vstd::wrapping::u32_specs::wrapping_add(
                vstd::wrapping::u32_specs::wrapping_add(p.current, rx_rto),
                rtomin,
            ),
            ..s
        }
    } else if is_timeout(s, p) {
        let r = backed_off(s.rto, rx_rto, nodelay);
        IKCPSEG {
            xmit: vstd::wrapping::u32_specs::wrapping_add(s.xmit, 1),
            rto: r,
            resendts: vstd::wrapping::u32_specs::wrapping_add(p.current, r),
            ..s
        }
    } else if is_fast(s, p) {
        IKCPSEG {
            xmit: vstd::wrapping::u32_specs::wrapping_add(s.xmit, 1),
            fastack: 0,
            resendts: vstd::wrapping::u32_specs::wrapping_add(p.current, s.rto),
            ..s
        }
    } else {
        s
    }
}

/// A segment stamped with the time, window and cumulative acknowledgement
/// it is sent with.
pub open spec fn stamped(s: IKCPSEG, p: DataParams) -> IKCPSEG {
    IKCPSEG { ts: p.current, wnd: p.wnd_full, una: p.una, ..s }
}

/// A segment in flight after a flush: rescheduled and stamped when it was
/// due, as it was otherwise.
pub open spec fn sent_as(s: IKCPSEG, p: DataParams) -> IKCPSEG {
    if is_due(s, p) {
        stamped(rescheduled(s, p), p)
    } else {
        s
    }
}

/// Decides whether a segment in flight is due and updates its timers: a
/// first transmission; a retransmission after its timer expired, with the
/// timeout backed off (doubled, or by half in nodelay mode); or a fast
/// retransmission once `resent` acknowledgements skipped it, at most
/// `fastlimit` times. Returns `(due, fast retransmission, timeout)`.
fn schedule(
    seg: &mut IKCPSEG,
    current: u32,
    rx_rto: u32,
    nodelay: u32,
    rtomin: u32,
    resent: u32,
    fastlimit: i32,
) -> (r: (bool, bool, bool))
    ensures
        final(seg).data@ == old(seg).data@,
        final(seg).sn == old(seg).sn,
        final(seg).frg == old(seg).frg,
        r.1 ==> r.0,
        r.2 ==> r.0,
        old(seg).xmit == 0 ==> r.0 && !r.1 && !r.2 && final(seg).xmit == 1,
        r.2 == (old(seg).xmit != 0 && itimediff(current, old(seg).resendts) >= 0),
        r.1 == (old(seg).xmit != 0 && itimediff(current, old(seg).resendts) < 0 && old(seg).fastack
            >= resent && (old(seg).xmit > 0x7fff_ffff || old(seg).xmit as int <= fastlimit
            || fastlimit <= 0)),
        r.0 == (old(seg).xmit == 0 || r.1 || r.2),
        *final(seg) == rescheduled(
            *old(seg),
            DataParams {
                conv: 0,
                current,
                resent,
                fastlimit,
                wnd: 0,
                una: 0,
                rx_rto,
                nodelay,
                rtomin,
                wnd_full: 0,
            },
        ),
{
    let xmit = seg.xmit;
    if xmit == 0 {
        seg.xmit = 1;
        seg.rto = rx_rto;
        seg.resendts = current.wrapping_add(rx_rto).wrapping_add(rtomin);
        (true, false, false)
    } else if timediff(current, seg.resendts) >= 0 {
        seg.xmit = xmit.wrapping_add(1);
        let rto = seg.rto;
        let new_rto = if nodelay == 0 {
            rto.wrapping_add(
                if rto >= rx_rto {
                    rto
                } else {
                    rx_rto
                },
            )
        } else {
            let v = if nodelay < 2 {
                rto
            } else {
                rx_rto
            };
            if v < 0x8000_0000 {
                rto.wrapping_add(v / 2)
            } else {
                rto.wrapping_sub(0u32.wrapping_sub(v) / 2)
            }
        };
        seg.rto = new_rto;
        seg.resendts = current.wrapping_add(new_rto);
        (true, false, true)
    } else if seg.fastack >= resent {
        let x: i32 = #[verifier::truncate] (xmit as i32);
        proof {
            super::lemma_c_int(xmit);
        }
        if x <= fastlimit || fastlimit <= 0 {
            seg.xmit = xmit.wrapping_add(1);
            seg.fastack = 0;
            seg.resendts = current.wrapping_add(seg.rto);
            (true, true, false)
        } else {
            (false, false, false)
        }
    } else {
        (false, false, false)
    }
}

/// Updating one segment in place keeps the payloads and sequence numbers
/// of a queue when it keeps those of the segment.
proof fn same_payloads(before: Seq<IKCPSEG>, after: Seq<IKCPSEG>, i: int)
    requires
        0 <= i < before.len(),
        after.len() == before.len(),
        forall|j: int| 0 <= j < before.len() && j != i ==> after[j] == before[j],
        after[i].data@ == before[i].data@,
        after[i].sn == before[i].sn,
    ensures
        datas(after) == datas(before),
        sns(after) == sns(before),
        forall|j: int| 0 <= j < after.len() ==> #[trigger] after[j].data@ == before[j].data@,
{
    assert(datas(after) =~= datas(before));
    assert(sns(after) =~= sns(before));
}

/// Stamps a segment with the time, window and cumulative acknowledgement
/// it is sent with.
fn stamp(seg: &mut IKCPSEG, ts: u32, wnd: u32, una: u32)
    ensures
        *final(seg) == (IKCPSEG { ts, wnd, una, ..*old(seg) }),
        final(seg).data@ == old(seg).data@,
        final(seg).sn == old(seg).sn,
        final(seg).frg == old(seg).frg,
        final(seg).xmit == old(seg).xmit,
        final(seg).ts == ts,
        final(seg).wnd == wnd,
        final(seg).una == una,
{
    seg.ts = ts;
    seg.wnd = wnd;
    seg.una = una;
}

/// Appends one segment to the datagrams being built, sending the one being
/// filled first when the segment would not fit the MTU after it.
fn emit_one(
    out: &mut Vec<Vec<u8>>,
    buf: &mut Vec<u8>,
    h: &SegHeader,
    payload: &Vec<u8>,
    mtu: u32,
    Ghost(out0): Ghost<Seq<Vec<u8>>>,
    Ghost(conv): Ghost<u32>,
)
    requires
        emit_ok(old(out)@, old(buf)@, out0, conv, mtu),
        h.conv == conv,
        h.cmd == IKCP_CMD_ACK || h.cmd == IKCP_CMD_PUSH || h.cmd == IKCP_CMD_WASK || h.cmd
            == IKCP_CMD_WINS,
        h.len == payload@.len(),
        payload@.len() <= 0x7fff_ffff,
        mtu <= 0x7fff_ffff,
    ensures
        emit_ok(final(out)@, final(buf)@, out0, conv, mtu),
        stream_of(final(out)@, final(buf)@, out0) == stream_of(old(out)@, old(buf)@, out0) + (
        header_bytes(*h) + payload@),
{
    let len = payload.len();
    make_room(out, buf, 24 + len, mtu, Ghost(out0), Ghost(conv));
    let ghost b0 = buf@;
    let ghost sm = stream_of(out@, buf@, out0);
    put_segment(buf, h, payload, Ghost(conv));
    proof {
        lemma_put_fits(b0, *h, payload@, mtu);
        assert(stream_of(out@, buf@, out0) =~= sm + (header_bytes(*h) + payload@));
    }
}

/// Puts segment `i` of `snd_buf` into the datagram being filled, stamped
/// with the current time, window and cumulative acknowledgement.
#[verifier::rlimit(100)]
fn emit_segment(
    kcp: &mut IKCPCB,
    i: usize,
    out: &mut Vec<Vec<u8>>,
    buf: &mut Vec<u8>,
    wnd: u32,
    Ghost(out0): Ghost<Seq<Vec<u8>>>,
    Ghost(st0): Ghost<Seq<u8>>,
    Ghost(p): Ghost<DataParams>,
)
    requires
        old(kcp).wf(),
        i < old(kcp).snd_buf@.len(),
        emit_ok(old(out)@, old(buf)@, out0, old(kcp).conv, old(kcp).mtu),
        is_prefix(st0, stream_of(old(out)@, old(buf)@, out0)),
        p.conv == old(kcp).conv,
        p.current == old(kcp).current,
        p.wnd == wnd as u16,
        p.una == old(kcp).rcv_nxt,
        p.wnd_full == wnd,
    ensures
        final(kcp).snd_buf@[i as int] == stamped(old(kcp).snd_buf@[i as int], p),
        final(kcp).state == if old(kcp).snd_buf@[i as int].xmit >= old(kcp).dead_link {
            0xffff_ffffu32
        } else {
            old(kcp).state
        },
        stream_of(final(out)@, final(buf)@, out0) == stream_of(old(out)@, old(buf)@, out0)
            + (header_bytes(data_header(old(kcp).snd_buf@[i as int], p)) + old(
            kcp,
        ).snd_buf@[i as int].data@),
        forall|k: int|
            0 <= k < final(kcp).snd_buf@.len() && k != i ==> #[trigger] final(kcp).snd_buf@[k]
                == old(kcp).snd_buf@[k],
        final(kcp).wf(),
        final(kcp).same_config(old(kcp)),
        final(kcp).same_recv_side(old(kcp)),
        final(kcp).same_timing(old(kcp)),
        final(kcp).output == old(kcp).output,
        final(kcp).snd_queue@ == old(kcp).snd_queue@,
        final(kcp).snd_buf@.len() == old(kcp).snd_buf@.len(),
        datas(final(kcp).snd_buf@) == datas(old(kcp).snd_buf@),
        sns(final(kcp).snd_buf@) == sns(old(kcp).snd_buf@),
        final(kcp).snd_una == old(kcp).snd_una,
        final(kcp).snd_nxt == old(kcp).snd_nxt,
        final(kcp).ssthresh == old(kcp).ssthresh,
        final(kcp).cwnd == old(kcp).cwnd,
        final(kcp).incr == old(kcp).incr,
        final(kcp).rmt_wnd == old(kcp).rmt_wnd,
        final(kcp).xmit == old(kcp).xmit,
        emit_ok(final(out)@, final(buf)@, out0, old(kcp).conv, old(kcp).mtu),
        is_prefix(st0, stream_of(final(out)@, final(buf)@, out0)),
        forall|k: int|
            0 <= k < final(kcp).snd_buf@.len() ==> #[trigger] final(kcp).snd_buf@[k].frg == old(
                kcp,
            ).snd_buf@[k].frg && final(kcp).snd_buf@[k].xmit == old(kcp).snd_buf@[k].xmit,
        carries(
            stream_of(final(out)@, final(buf)@, out0),
            old(kcp).conv,
            old(kcp).snd_buf@[i as int].sn,
            old(kcp).snd_buf@[i as int].frg,
            old(kcp).snd_buf@[i as int].data@,
        ),
{
    let ghost before = kcp.snd_buf@;
    let current = kcp.current;
    let una = kcp.rcv_nxt;
    stamp(&mut kcp.snd_buf[i], current, wnd, una);
    proof {
        same_payloads(before, kcp.snd_buf@, i as int);
    }
    let len = kcp.snd_buf[i].data.len();
    let ghost sm = stream_of(out@, buf@, out0);
    let frg: u8 = #[verifier::truncate] (kcp.snd_buf[i].frg as u8);
    let h = SegHeader {
        conv: kcp.conv,
        cmd: IKCP_CMD_PUSH,
        frg,
        wnd: #[verifier::truncate] (wnd as u16),
        ts: current,
        sn: kcp.snd_buf[i].sn,
        una,
        len: len as u32,
    };
    emit_one(out, buf, &h, &kcp.snd_buf[i].data, kcp.mtu, Ghost(out0), Ghost(kcp.conv));
    proof {
        let s1 = stream_of(out@, buf@, out0);
        lemma_prefix_append(st0, sm, header_bytes(h) + kcp.snd_buf@[i as int].data@);
        let dl = kcp.snd_buf@[i as int].data@.len() as int;
        assert(s1.subrange(sm.len() as int, sm.len() as int + 24 + dl) =~= header_bytes(h)
            + kcp.snd_buf@[i as int].data@);
        lemma_low_byte(old(kcp).snd_buf@[i as int].frg, frg);
        assert(h == data_header(old(kcp).snd_buf@[i as int], p));
    }
    if kcp.snd_buf[i].xmit >= kcp.dead_link {
        kcp.state = 0xffff_ffff;
    }
}

/// Transmits the segments in flight that are due: first transmissions,
/// those whose retransmission timer expired (backing the timer off), and
/// those skipped by `resent` or more acknowledgements (fast
/// retransmission, up to `fastlimit` transmissions). Returns whether a
/// fast retransmission and whether a timeout happened.
fn flush_data(
    kcp: &mut IKCPCB,
    out: &mut Vec<Vec<u8>>,
    buf: &mut Vec<u8>,
    wnd: u32,
    resent: u32,
    rtomin: u32,
    Ghost(out0): Ghost<Seq<Vec<u8>>>,
) -> (flags: (bool, bool))
    requires
        old(kcp).wf(),
        emit_ok(old(out)@, old(buf)@, out0, old(kcp).conv, old(kcp).mtu),
    ensures
        final(kcp).wf(),
        final(kcp).same_config(old(kcp)),
        final(kcp).same_recv_side(old(kcp)),
        final(kcp).same_timing(old(kcp)),
        final(kcp).output == old(kcp).output,
        final(kcp).snd_queue@ == old(kcp).snd_queue@,
        datas(final(kcp).snd_buf@) == datas(old(kcp).snd_buf@),
        sns(final(kcp).snd_buf@) == sns(old(kcp).snd_buf@),
        final(kcp).snd_una == old(kcp).snd_una,
        final(kcp).snd_nxt == old(kcp).snd_nxt,
        final(kcp).ssthresh == old(kcp).ssthresh,
        final(kcp).cwnd == old(kcp).cwnd,
        final(kcp).incr == old(kcp).incr,
        final(kcp).rmt_wnd == old(kcp).rmt_wnd,
        emit_ok(final(out)@, final(buf)@, out0, old(kcp).conv, old(kcp).mtu),
        is_prefix(stream_of(old(out)@, old(buf)@, out0), stream_of(final(out)@, final(buf)@, out0)),
        ({
            let p = flush_params(old(kcp), resent, rtomin, wnd);
            &&& stream_of(final(out)@, final(buf)@, out0) == stream_of(old(out)@, old(buf)@, out0)
                + data_stream(old(kcp).snd_buf@, p)
            &&& flags.0 == any_fast(old(kcp).snd_buf@, p)
            &&& flags.1 == any_timeout(old(kcp).snd_buf@, p)
            &&& final(kcp).snd_buf@ == Seq::new(
                old(kcp).snd_buf@.len(),
                |k: int| sent_as(old(kcp).snd_buf@[k], p),
            )
            &&& final(kcp).xmit == ((old(kcp).xmit + timeouts(old(kcp).snd_buf@, p))
                % 0x1_0000_0000) as u32
            &&& final(kcp).state == if dead_after(old(kcp).snd_buf@, p, old(kcp).dead_link) {
                0xffff_ffffu32
            } else {
                old(kcp).state
            }
        }),
        forall|k: int|
            0 <= k < old(kcp).snd_buf@.len() && (#[trigger] old(kcp).snd_buf@[k]).xmit == 0
                ==> carries(
                stream_of(final(out)@, final(buf)@, out0),
                old(kcp).conv,
                old(kcp).snd_buf@[k].sn,
                old(kcp).snd_buf@[k].frg,
                old(kcp).snd_buf@[k].data@,
            ),
{
    let n = kcp.snd_buf.len();
    let ghost b0 = kcp.snd_buf@;
    let current = kcp.current;
    let mut change = false;
    let mut lost = false;
    let ghost d0 = datas(kcp.snd_buf@);
    let ghost s0 = sns(kcp.snd_buf@);
    let ghost st0 = stream_of(out@, buf@, out0);
    let ghost p = flush_params(kcp, resent, rtomin, wnd);
    let mut i: usize = 0;
    proof {
        assert(st0.take(st0.len() as int) =~= st0);
        reveal(progress);
        assert(b0.take(0) =~= Seq::<IKCPSEG>::empty());
        assert(timeouts(b0.take(0), p) == 0);
        assert((kcp.xmit + 0nat) % 0x1_0000_0000 == kcp.xmit);
        assert(st0 + data_stream(b0.take(0), p) =~= st0);
    }
    while i < n
        invariant
            n == kcp.snd_buf@.len(),
            i <= n,
            current == kcp.current,
            datas(kcp.snd_buf@) == d0,
            sns(kcp.snd_buf@) == s0,
            kcp.wf(),
            kcp.same_config(old(kcp)),
            kcp.same_recv_side(old(kcp)),
            kcp.same_timing(old(kcp)),
            kcp.output == old(kcp).output,
            kcp.snd_queue@ == old(kcp).snd_queue@,
            kcp.snd_una == old(kcp).snd_una,
            kcp.snd_nxt == old(kcp).snd_nxt,
            kcp.ssthresh == old(kcp).ssthresh,
            kcp.cwnd == old(kcp).cwnd,
            kcp.incr == old(kcp).incr,
            kcp.rmt_wnd == old(kcp).rmt_wnd,
            emit_ok(out@, buf@, out0, kcp.conv, kcp.mtu),
            is_prefix(st0, stream_of(out@, buf@, out0)),
            b0 == old(kcp).snd_buf@,
            n == b0.len(),
            d0 == datas(b0),
            s0 == sns(b0),
            progress(kcp.snd_buf@, kcp.conv, b0, i as int, stream_of(out@, buf@, out0), p),
            kcp.xmit == ((old(kcp).xmit + timeouts(b0.take(i as int), p)) % 0x1_0000_0000) as u32,
            kcp.state == if dead_after(b0.take(i as int), p, old(kcp).dead_link) {
                0xffff_ffffu32
            } else {
                old(kcp).state
            },
            p == flush_params(old(kcp), resent, rtomin, wnd),
            stream_of(out@, buf@, out0) == st0 + data_stream(b0.take(i as int), p),
            change == any_fast(b0.take(i as int), p),
            lost == any_timeout(b0.take(i as int), p),
        decreases n - i,
    {
        let ghost s_before = stream_of(out@, buf@, out0);
        let (fast, timeout) = transmit_one(
            kcp,
            i,
            out,
            buf,
            wnd,
            resent,
            rtomin,
            Ghost(out0),
            Ghost(st0),
            Ghost(b0),
            Ghost(p),
        );
        if timeout {
            lost = true;
        }
        if fast {
            change = true;
        }
        proof {
            lemma_data_step(b0, i as int, p, old(kcp).dead_link);
            lemma_count_wraps(old(kcp).xmit, timeouts(b0.take(i as int), p));
            assert(stream_of(out@, buf@, out0) =~= st0 + data_stream(b0.take(i + 1), p));
        }
        i = i + 1;
    }
    proof {
        reveal(progress);
        assert(b0.take(n as int) =~= b0);
        assert(kcp.snd_buf@ =~= Seq::new(b0.len(), |k: int| sent_as(b0[k], p)));
    }
    (change, lost)
}

/// The number of segments of `b` that timed out.
pub open spec fn timeouts(b: Seq<IKCPSEG>, p: DataParams) -> nat
    decreases b.len(),
{
    if b.len() == 0 {
        0
    } else {
        timeouts(b.drop_last(), p) + if is_timeout(b.last(), p) {
            1nat
        } else {
            0nat
        }
    }
}

/// Whether some segment of `b` that a flush sends has then been sent
/// `dead_link` times or more.
pub open spec fn dead_after(b: Seq<IKCPSEG>, p: DataParams, dead_link: u32) -> bool {
    exists|k: int|
        0 <= k < b.len() && is_due(#[trigger] b[k], p) && rescheduled(b[k], p).xmit >= dead_link
}

/// Counting one more on a 32-bit counter kept modulo 2^32.
proof fn lemma_count_wraps(x: u32, t: nat)
    ensures
        vstd::wrapping::u32_specs::wrapping_add(((x + t) % 0x1_0000_0000) as u32, 1) == ((x + t
            + 1) % 0x1_0000_0000) as u32,
{
    let m: int = 0x1_0000_0000;
    let a = (x + t) % m;
    vstd::arithmetic::div_mod::lemma_add_mod_noop(x + t, 1, m);
    assert(1int % m == 1);
    assert(0 <= a < m);
    if a + 1 == m {
        assert((a + 1) % m == 0);
    } else {
        assert((a + 1) % m == a + 1);
    }
}

/// Timeouts and dead links of joined runs of segments, the second of
/// which was never sent.
proof fn lemma_fresh_append(a: Seq<IKCPSEG>, b: Seq<IKCPSEG>, p: DataParams, dl: u32)
    requires
        forall|j: int| 0 <= j < b.len() ==> (#[trigger] b[j]).xmit == 0,
    ensures
        timeouts(a + b, p) == timeouts(a, p),
        dead_after(a + b, p, dl) == (dead_after(a, p, dl) || dead_after(b, p, dl)),
    decreases b.len(),
{
    if b.len() > 0 {
        let c = b.drop_last();
        assert forall|j: int| 0 <= j < c.len() implies (#[trigger] c[j]).xmit == 0 by {
            assert(c[j] == b[j]);
        }
        lemma_fresh_append(a, c, p, dl);
        assert((a + b).drop_last() =~= a + c);
        assert((a + b).last() == b.last());
        assert(b.last() == b[b.len() - 1]);
    } else {
        assert(a + b =~= a);
    }
    let ab = a + b;
    if dead_after(ab, p, dl) {
        let k = choose|k: int| 0 <= k < ab.len() && is_due(#[trigger] ab[k], p) && rescheduled(ab[k], p).xmit >= dl;
        if k < a.len() {
            assert(ab[k] == a[k]);
        } else {
            assert(ab[k] == b[k - a.len()]);
        }
    }
    if dead_after(a, p, dl) {
        let k = choose|k: int| 0 <= k < a.len() && is_due(#[trigger] a[k], p) && rescheduled(a[k], p).xmit >= dl;
        assert(ab[k] == a[k]);
    }
    if dead_after(b, p, dl) {
        let k = choose|k: int| 0 <= k < b.len() && is_due(#[trigger] b[k], p) && rescheduled(b[k], p).xmit >= dl;
        assert(ab[a.len() + k] == b[k]);
    }
}

/// The running results of `flush_data` over `b0[..i]` extended by one
/// segment.
proof fn lemma_data_step(b0: Seq<IKCPSEG>, i: int, p: DataParams, dl: u32)
    requires
        0 <= i < b0.len(),
    ensures
        ({
            let t = b0.take(i + 1);
            let u = b0.take(i);
            &&& data_stream(t, p) == data_stream(u, p) + if is_due(b0[i], p) {
                header_bytes(data_header(b0[i], p)) + b0[i].data@
            } else {
                Seq::empty()
            }
            &&& any_fast(t, p) == (any_fast(u, p) || is_fast(b0[i], p))
            &&& any_timeout(t, p) == (any_timeout(u, p) || is_timeout(b0[i], p))
            &&& timeouts(t, p) == timeouts(u, p) + if is_timeout(b0[i], p) {
                1nat
            } else {
                0nat
            }
            &&& dead_after(t, p, dl) == (dead_after(u, p, dl) || (is_due(b0[i], p) && rescheduled(
                b0[i],
                p,
            ).xmit >= dl))
        }),
{
    let t = b0.take(i + 1);
    let u = b0.take(i);
    assert(t.drop_last() =~= u);
    assert(t.last() == b0[i]);
    if is_fast(b0[i], p) {
        assert(t[i] == b0[i]);
    }
    if any_fast(u, p) {
        let k = choose|k: int| 0 <= k < u.len() && is_fast(#[trigger] u[k], p);
        assert(t[k] == u[k]);
    }
    if any_fast(t, p) {
        let k = choose|k: int| 0 <= k < t.len() && is_fast(#[trigger] t[k], p);
        if k < i {
            assert(t[k] == u[k]);
        }
    }
    if is_timeout(b0[i], p) {
        assert(t[i] == b0[i]);
    }
    if any_timeout(u, p) {
        let k = choose|k: int| 0 <= k < u.len() && is_timeout(#[trigger] u[k], p);
        assert(t[k] == u[k]);
    }
    if any_timeout(t, p) {
        let k = choose|k: int| 0 <= k < t.len() && is_timeout(#[trigger] t[k], p);
        if k < i {
            assert(t[k] == u[k]);
        }
    }
    if dead_after(t, p, dl) {
        let k = choose|k: int|
            0 <= k < t.len() && is_due(#[trigger] t[k], p) && rescheduled(t[k], p).xmit >= dl;
        if k < i {
            assert(u[k] == t[k]);
        }
    }
    if dead_after(u, p, dl) {
        let k = choose|k: int|
            0 <= k < u.len() && is_due(#[trigger] u[k], p) && rescheduled(u[k], p).xmit >= dl;
        assert(t[k] == u[k]);
    }
    if is_due(b0[i], p) && rescheduled(b0[i], p).xmit >= dl {
        assert(t[i] == b0[i]);
    }
}

/// How far `flush_data` got through the segments in flight `b0`: up to
/// `i`, every first transmission is carried by the stream `s`; fragment
/// indexes are kept, and the segments from `i` on were not yet touched.
#[verifier::opaque]
spec fn progress(
    buf: Seq<IKCPSEG>,
    conv: u32,
    b0: Seq<IKCPSEG>,
    i: int,
    s: Seq<u8>,
    p: DataParams,
) -> bool {
    &&& buf.len() == b0.len()
    &&& forall|k: int| 0 <= k < b0.len() ==> #[trigger] buf[k].frg == b0[k].frg
    &&& forall|k: int| 0 <= k < i ==> #[trigger] buf[k] == sent_as(b0[k], p)
    &&& forall|k: int| i <= k < b0.len() ==> #[trigger] buf[k] == b0[k]
    &&& forall|k: int|
        0 <= k < i && (#[trigger] b0[k]).xmit == 0 ==> carries(
            s,
            conv,
            b0[k].sn,
            b0[k].frg,
            b0[k].data@,
        )
}

/// One more segment handled: `before` became `mid` when segment `i` was
/// scheduled, then `after` when it went out, or it was no first
/// transmission.
proof fn lemma_progress_step(
    before: Seq<IKCPSEG>,
    mid: Seq<IKCPSEG>,
    after: Seq<IKCPSEG>,
    conv: u32,
    b0: Seq<IKCPSEG>,
    i: int,
    cur0: Seq<u8>,
    s1: Seq<u8>,
    sent: bool,
    p: DataParams,
)
    requires
        progress(before, conv, b0, i, cur0, p),
        mid[i] == rescheduled(before[i], p),
        sent == is_due(b0[i], p),
        sent ==> after[i] == stamped(mid[i], p),
        !sent ==> after[i] == mid[i],
        0 <= i < b0.len(),
        before.len() == b0.len(),
        mid.len() == before.len(),
        after.len() == mid.len(),
        forall|k: int| 0 <= k < mid.len() && k != i ==> #[trigger] mid[k] == before[k],
        mid[i].frg == before[i].frg,
        forall|k: int| 0 <= k < after.len() ==> (#[trigger] after[k]).frg == mid[k].frg,
        forall|k: int| 0 <= k < after.len() && k != i ==> #[trigger] after[k] == mid[k],
        is_prefix(cur0, s1),
        sent ==> carries(s1, conv, b0[i].sn, b0[i].frg, b0[i].data@),
        !sent ==> b0[i].xmit != 0,
    ensures
        progress(after, conv, b0, i + 1, s1, p),
{
    reveal(progress);
    assert(before[i] == b0[i]);
    assert forall|k: int| 0 <= k < i + 1 implies #[trigger] after[k] == sent_as(b0[k], p) by {
        if k < i {
            assert(after[k] == mid[k]);
            assert(mid[k] == before[k]);
        }
    }
    assert forall|k: int| 0 <= k < i + 1 && (#[trigger] b0[k]).xmit == 0 implies carries(
        s1,
        conv,
        b0[k].sn,
        b0[k].frg,
        b0[k].data@,
    ) by {
        if k < i {
            lemma_carries_prefix(cur0, s1, conv, b0[k].sn, b0[k].frg, b0[k].data@);
        }
    }
    assert forall|k: int| 0 <= k < b0.len() implies #[trigger] after[k].frg == b0[k].frg by {
        assert(after[k].frg == mid[k].frg);
        if k != i {
            assert(mid[k] == before[k]);
        }
    }
    assert forall|k: int| i + 1 <= k < b0.len() implies #[trigger] after[k] == b0[k] by {
        assert(after[k] == mid[k]);
        assert(mid[k] == before[k]);
    }
}

/// The segment at `i` is as `flush_data` found it.
proof fn lemma_progress_untouched(
    buf: Seq<IKCPSEG>,
    conv: u32,
    b0: Seq<IKCPSEG>,
    i: int,
    s: Seq<u8>,
    p: DataParams,
)
    requires
        progress(buf, conv, b0, i, s, p),
        0 <= i < b0.len(),
    ensures
        buf[i] == b0[i],
        buf.len() == b0.len(),
{
    reveal(progress);
}

/// Decides whether segment `i` in flight is due (see [`schedule`]) and
/// counts a timeout. Returns `(due, fast retransmission, timeout)`.
fn schedule_at(
    kcp: &mut IKCPCB,
    i: usize,
    resent: u32,
    rtomin: u32,
    Ghost(p): Ghost<DataParams>,
) -> (r: (bool, bool, bool))
    requires
        old(kcp).wf(),
        i < old(kcp).snd_buf@.len(),
        p.current == old(kcp).current,
        p.resent == resent,
        p.fastlimit == old(kcp).fastlimit,
        p.rx_rto == old(kcp).rx_rto as u32,
        p.nodelay == old(kcp).nodelay,
        p.rtomin == rtomin,
    ensures
        final(kcp).snd_buf@[i as int] == rescheduled(old(kcp).snd_buf@[i as int], p),
        final(kcp).xmit == if r.2 {
            vstd::wrapping::u32_specs::wrapping_add(old(kcp).xmit, 1)
        } else {
            old(kcp).xmit
        },
        final(kcp).state == old(kcp).state,
        r.0 == is_due(old(kcp).snd_buf@[i as int], p),
        r.1 == is_fast(old(kcp).snd_buf@[i as int], p),
        r.2 == is_timeout(old(kcp).snd_buf@[i as int], p),
        final(kcp).wf(),
        final(kcp).same_config(old(kcp)),
        final(kcp).same_recv_side(old(kcp)),
        final(kcp).same_timing(old(kcp)),
        final(kcp).output == old(kcp).output,
        final(kcp).snd_queue@ == old(kcp).snd_queue@,
        final(kcp).snd_buf@.len() == old(kcp).snd_buf@.len(),
        datas(final(kcp).snd_buf@) == datas(old(kcp).snd_buf@),
        sns(final(kcp).snd_buf@) == sns(old(kcp).snd_buf@),
        final(kcp).snd_una == old(kcp).snd_una,
        final(kcp).snd_nxt == old(kcp).snd_nxt,
        final(kcp).ssthresh == old(kcp).ssthresh,
        final(kcp).cwnd == old(kcp).cwnd,
        final(kcp).incr == old(kcp).incr,
        final(kcp).rmt_wnd == old(kcp).rmt_wnd,
        forall|k: int|
            0 <= k < final(kcp).snd_buf@.len() && k != i ==> #[trigger] final(kcp).snd_buf@[k]
                == old(kcp).snd_buf@[k],
        final(kcp).snd_buf@[i as int].frg == old(kcp).snd_buf@[i as int].frg,
        old(kcp).snd_buf@[i as int].xmit == 0 ==> r.0,
{
    let ghost before = kcp.snd_buf@;
    let current = kcp.current;
    let rx_rto = kcp.rx_rto as u32;
    let nodelay = kcp.nodelay;
    let fastlimit = kcp.fastlimit;
    let (needsend, fast, timeout) = schedule(
        &mut kcp.snd_buf[i],
        current,
        rx_rto,
        nodelay,
        rtomin,
        resent,
        fastlimit,
    );
    proof {
        same_payloads(before, kcp.snd_buf@, i as int);
        assert forall|j: int| 0 <= j < kcp.snd_buf@.len() implies #[trigger] kcp.snd_buf@[j].data@.len()
            <= 0x7fff_ffff by {
            assert(kcp.snd_buf@[j].data@ == before[j].data@);
        }
    }
    if timeout {
        kcp.xmit = kcp.xmit.wrapping_add(1);
    }
    (needsend, fast, timeout)
}

/// One step of `flush_data`: decides whether segment `i` is due, sends it
/// if so, and counts a timeout. Returns `(fast retransmission, timeout)`.
#[verifier::rlimit(100)]
fn transmit_one(
    kcp: &mut IKCPCB,
    i: usize,
    out: &mut Vec<Vec<u8>>,
    buf: &mut Vec<u8>,
    wnd: u32,
    resent: u32,
    rtomin: u32,
    Ghost(out0): Ghost<Seq<Vec<u8>>>,
    Ghost(st0): Ghost<Seq<u8>>,
    Ghost(b0): Ghost<Seq<IKCPSEG>>,
    Ghost(p): Ghost<DataParams>,
) -> (r: (bool, bool))
    requires
        old(kcp).wf(),
        i < old(kcp).snd_buf@.len(),
        p.conv == old(kcp).conv,
        p.current == old(kcp).current,
        p.resent == resent,
        p.fastlimit == old(kcp).fastlimit,
        p.wnd == wnd as u16,
        p.una == old(kcp).rcv_nxt,
        p.rx_rto == old(kcp).rx_rto as u32,
        p.nodelay == old(kcp).nodelay,
        p.rtomin == rtomin,
        p.wnd_full == wnd,
        emit_ok(old(out)@, old(buf)@, out0, old(kcp).conv, old(kcp).mtu),
        is_prefix(st0, stream_of(old(out)@, old(buf)@, out0)),
        datas(old(kcp).snd_buf@) == datas(b0),
        sns(old(kcp).snd_buf@) == sns(b0),
        b0.len() == old(kcp).snd_buf@.len(),
        progress(
            old(kcp).snd_buf@,
            old(kcp).conv,
            b0,
            i as int,
            stream_of(old(out)@, old(buf)@, out0),
            p,
        ),
    ensures
        final(kcp).wf(),
        final(kcp).same_config(old(kcp)),
        final(kcp).same_recv_side(old(kcp)),
        final(kcp).same_timing(old(kcp)),
        final(kcp).output == old(kcp).output,
        final(kcp).snd_queue@ == old(kcp).snd_queue@,
        final(kcp).snd_buf@.len() == old(kcp).snd_buf@.len(),
        datas(final(kcp).snd_buf@) == datas(old(kcp).snd_buf@),
        sns(final(kcp).snd_buf@) == sns(old(kcp).snd_buf@),
        final(kcp).snd_una == old(kcp).snd_una,
        final(kcp).snd_nxt == old(kcp).snd_nxt,
        final(kcp).ssthresh == old(kcp).ssthresh,
        final(kcp).cwnd == old(kcp).cwnd,
        final(kcp).incr == old(kcp).incr,
        final(kcp).rmt_wnd == old(kcp).rmt_wnd,
        emit_ok(final(out)@, final(buf)@, out0, old(kcp).conv, old(kcp).mtu),
        is_prefix(st0, stream_of(final(out)@, final(buf)@, out0)),
        progress(
            final(kcp).snd_buf@,
            old(kcp).conv,
            b0,
            i + 1,
            stream_of(final(out)@, final(buf)@, out0),
            p,
        ),
        final(kcp).xmit == if is_timeout(b0[i as int], p) {
            vstd::wrapping::u32_specs::wrapping_add(old(kcp).xmit, 1)
        } else {
            old(kcp).xmit
        },
        final(kcp).state == if is_due(b0[i as int], p) && rescheduled(b0[i as int], p).xmit >= old(
            kcp,
        ).dead_link {
            0xffff_ffffu32
        } else {
            old(kcp).state
        },
        stream_of(final(out)@, final(buf)@, out0) == stream_of(old(out)@, old(buf)@, out0) + if is_due(
            b0[i as int],
            p,
        ) {
            header_bytes(data_header(b0[i as int], p)) + b0[i as int].data@
        } else {
            Seq::empty()
        },
        r.0 == is_fast(b0[i as int], p),
        r.1 == is_timeout(b0[i as int], p),
{
    let ghost before = kcp.snd_buf@;
    let ghost cur0 = stream_of(out@, buf@, out0);
    proof {
        lemma_progress_untouched(before, kcp.conv, b0, i as int, cur0, p);
        assert(cur0.take(cur0.len() as int) =~= cur0);
    }
    let (needsend, fast, timeout) = schedule_at(kcp, i, resent, rtomin, Ghost(p));
    let ghost mid = kcp.snd_buf@;
    proof {
        assert(mid[i as int].sn == sns(mid)[i as int]);
        assert(mid[i as int].data@ == datas(mid)[i as int]);
        assert(b0[i as int].sn == sns(b0)[i as int]);
        assert(b0[i as int].data@ == datas(b0)[i as int]);
        assert(data_header(mid[i as int], p) == data_header(b0[i as int], p));
    }
    if needsend {
        emit_segment(kcp, i, out, buf, wnd, Ghost(out0), Ghost(cur0), Ghost(p));
        proof {
            let s1 = stream_of(out@, buf@, out0);
            lemma_prefix_trans(st0, cur0, s1);
            lemma_progress_step(before, mid, kcp.snd_buf@, kcp.conv, b0, i as int, cur0, s1, true, p);
        }
    } else {
        proof {
            assert(cur0 + Seq::<u8>::empty() =~= cur0);
            assert(rescheduled(b0[i as int], p) == b0[i as int]);
            lemma_progress_step(before, mid, mid, kcp.conv, b0, i as int, cur0, cur0, false, p);
        }
    }
    (fast, timeout)
}

/// The advertised window, executable.
fn unused_window(kcp: &IKCPCB) -> (w: u32)
    ensures
        w == wnd_unused(kcp),
{
    let n = kcp.rcv_queue.len() as u64;
    if n < kcp.rcv_wnd as u64 {
        (kcp.rcv_wnd as u64 - n) as u32
    } else {
        0
    }
}

/// What a flush does to a control block that has been updated. It emits,
/// in well-formed datagrams appended to `output`, each within the MTU
/// unless it holds a single segment too large for it, exactly: every pending
/// acknowledgement in order, the window probe and window announcement
/// asked for (see [`probe_step`]), every segment in flight that is due
/// (see [`is_due`]), then every queued segment it moves into flight. It
/// clears the acknowledgement list and the probe flags; it moves queued
/// segments into flight while the send window has room, numbering them
/// from `snd_nxt` on; it adjusts the congestion window after fast
/// retransmissions and timeouts (see [`congestion_after`]); it leaves the
/// receiving side and the configuration as they were.
pub open spec fn flushed(pre: &IKCPCB, post: &IKCPCB) -> bool {
    let out0 = pre.output.unwrap()@;
    let out = post.output.unwrap()@;
    let q = pre.snd_queue@;
    let m = q.len() - post.snd_queue@.len();
    let lim = wrap_add(pre.snd_una, send_window(pre) as int);
    &&& post.output.is_some()
    &&& out.len() >= out0.len()
    &&& out.take(out0.len() as int) == out0
    &&& all_well_formed(out, out0.len() as int, pre.conv)
    &&& all_fit(out, out0.len() as int, pre.mtu)
    &&& is_prefix(
        ack_stream(pre.acklist@, pre.conv, wnd_unused(pre) as u16, pre.rcv_nxt),
        emitted(out, out0.len() as int),
    )
    &&& is_prefix(
        ack_stream(pre.acklist@, pre.conv, wnd_unused(pre) as u16, pre.rcv_nxt) + command_stream(
            pre.conv,
            probe_step(pre).0,
            wnd_unused(pre) as u16,
            pre.rcv_nxt,
            last_ack(pre.acklist@),
        ),
        emitted(out, out0.len() as int),
    )
    &&& post.ts_probe == probe_step(pre).1
    &&& post.probe_wait == probe_step(pre).2
    &&& emitted(out, out0.len() as int) == ack_stream(
        pre.acklist@,
        pre.conv,
        wnd_unused(pre) as u16,
        pre.rcv_nxt,
    ) + command_stream(
        pre.conv,
        probe_step(pre).0,
        wnd_unused(pre) as u16,
        pre.rcv_nxt,
        last_ack(pre.acklist@),
    ) + data_stream(pre.snd_buf@, data_params(pre)) + new_stream(
        q.take(m),
        pre.snd_nxt,
        data_params(pre),
    )
    &&& (post.ssthresh, post.cwnd, post.incr) == congestion_after(
        pre,
        post.snd_nxt,
        any_fast(pre.snd_buf@, data_params(pre)),
        any_timeout(pre.snd_buf@, data_params(pre)),
    )
    &&& post.rmt_wnd == pre.rmt_wnd
    &&& post.snd_buf@ == launched(pre, m, data_params(pre))
    &&& post.xmit == ((pre.xmit + timeouts(pre.snd_buf@, data_params(pre))) % 0x1_0000_0000) as u32
    &&& post.state == if dead_after(pre.snd_buf@, data_params(pre), pre.dead_link) || dead_after(
        entering(pre, m, data_params(pre)),
        data_params(pre),
        pre.dead_link,
    ) {
        0xffff_ffffu32
    } else {
        pre.state
    }
    &&& post.acklist@.len() == 0
    &&& post.probe == 0
    &&& post.rcv_queue@ == pre.rcv_queue@
    &&& post.rcv_buf@ == pre.rcv_buf@
    &&& post.rcv_nxt == pre.rcv_nxt
    &&& 0 <= m <= q.len()
    &&& post.snd_queue@ == q.skip(m)
    &&& datas(post.snd_buf@) == datas(pre.snd_buf@) + datas(q.take(m))
    &&& sns(post.snd_buf@) == sns(pre.snd_buf@) + Seq::new(
        m as nat,
        |j: int| wrap_add(pre.snd_nxt, j),
    )
    &&& post.snd_nxt == wrap_add(pre.snd_nxt, m)
    &&& forall|j: int| 0 <= j < m ==> itimediff(#[trigger] wrap_add(pre.snd_nxt, j), lim) < 0
    &&& (m == q.len() || itimediff(post.snd_nxt, lim) >= 0)
    &&& post.snd_una == pre.snd_una
    &&& post.current == pre.current
    &&& post.ts_flush == pre.ts_flush
    &&& post.updated == pre.updated
    &&& post.rx_srtt == pre.rx_srtt
    &&& post.rx_rttval == pre.rx_rttval
    &&& post.rx_rto == pre.rx_rto
    &&& forall|j: int|
        0 <= j < m ==> carries(
            emitted(out, out0.len() as int),
            pre.conv,
            wrap_add(pre.snd_nxt, j),
            (#[trigger] q[j]).frg,
            q[j].data@,
        )
}

/// The control part of a flush: every pending acknowledgement in order,
/// then the window probe and the window announcement that are asked for
/// after the probe pacing step. Clears the acknowledgement list and the
/// probe flags.
fn flush_control(
    kcp: &mut IKCPCB,
    out: &mut Vec<Vec<u8>>,
    buf: &mut Vec<u8>,
    wnd16: u16,
    Ghost(out0): Ghost<Seq<Vec<u8>>>,
)
    requires
        old(kcp).wf(),
        emit_ok(old(out)@, old(buf)@, out0, old(kcp).conv, old(kcp).mtu),
        stream_of(old(out)@, old(buf)@, out0).len() == 0,
    ensures
        final(kcp).wf(),
        final(kcp).same_config(old(kcp)),
        final(kcp).same_send_side(old(kcp)),
        final(kcp).rcv_queue@ == old(kcp).rcv_queue@,
        final(kcp).rcv_buf@ == old(kcp).rcv_buf@,
        final(kcp).rcv_nxt == old(kcp).rcv_nxt,
        final(kcp).acklist@.len() == 0,
        final(kcp).probe == 0,
        final(kcp).ts_probe == probe_step(old(kcp)).1,
        final(kcp).probe_wait == probe_step(old(kcp)).2,
        final(kcp).current == old(kcp).current,
        final(kcp).ts_flush == old(kcp).ts_flush,
        final(kcp).updated == old(kcp).updated,
        final(kcp).rx_srtt == old(kcp).rx_srtt,
        final(kcp).rx_rttval == old(kcp).rx_rttval,
        final(kcp).rx_rto == old(kcp).rx_rto,
        final(kcp).output == old(kcp).output,
        emit_ok(final(out)@, final(buf)@, out0, old(kcp).conv, old(kcp).mtu),
        stream_of(final(out)@, final(buf)@, out0) == ack_stream(
            old(kcp).acklist@,
            old(kcp).conv,
            wnd16,
            old(kcp).rcv_nxt,
        ) + command_stream(
            old(kcp).conv,
            probe_step(old(kcp)).0,
            wnd16,
            old(kcp).rcv_nxt,
            last_ack(old(kcp).acklist@),
        ),
{
    flush_acks(kcp, out, buf, wnd16, Ghost(out0));
    let ghost acks_stream = stream_of(out@, buf@, out0);
    let nacks = kcp.acklist.len();
    let last: (u32, u32) = if nacks > 0 {
        kcp.acklist[nacks - 1]
    } else {
        (0, 0)
    };
    kcp.acklist.clear();
    probe_window(kcp);
    let ghost pr = kcp.probe;
    if kcp.probe & IKCP_ASK_SEND != 0 {
        flush_command(kcp, out, buf, IKCP_CMD_WASK, wnd16, last, Ghost(out0));
    }
    if kcp.probe & IKCP_ASK_TELL != 0 {
        flush_command(kcp, out, buf, IKCP_CMD_WINS, wnd16, last, Ghost(out0));
    }
    kcp.probe = 0;
    proof {
        assert(last == last_ack(old(kcp).acklist@));
        assert(stream_of(out@, buf@, out0) =~= acks_stream + command_stream(
            old(kcp).conv,
            pr,
            wnd16,
            old(kcp).rcv_nxt,
            last,
        ));
    }
}

/// The first `m` queued segments of `k` as they enter flight in a flush
/// with parameters `p`.
pub open spec fn entering(k: &IKCPCB, m: int, p: DataParams) -> Seq<IKCPSEG> {
    Seq::new(
        m as nat,
        |j: int| in_flight(k.snd_queue@[j], k, p.wnd_full, wrap_add(k.snd_nxt, j)),
    )
}

/// The segments in flight after a flush of `k` with parameters `p` that
/// moved `m` queued segments into flight: the ones already in flight,
/// then the entering ones, each as the flush left it (see [`sent_as`]).
pub open spec fn launched(k: &IKCPCB, m: int, p: DataParams) -> Seq<IKCPSEG> {
    let all = k.snd_buf@ + entering(k, m, p);
    Seq::new(all.len(), |j: int| sent_as(all[j], p))
}

/// What moving `m` queued segments into flight does to the data part of a
/// flush: the segments in flight are the old ones and the entering ones,
/// which are all sent, none of them fast or timed out.
proof fn lemma_moved(pre: IKCPCB, moved: IKCPCB, m: int, dp: DataParams)
    requires
        0 <= m <= pre.snd_queue@.len(),
        moved.snd_buf@.len() == pre.snd_buf@.len() + m,
        moved.snd_buf@.take(pre.snd_buf@.len() as int) == pre.snd_buf@,
        forall|j: int|
            0 <= j < m ==> #[trigger] moved.snd_buf@[pre.snd_buf@.len() + j] == in_flight(
                pre.snd_queue@[j],
                &pre,
                dp.wnd_full,
                wrap_add(pre.snd_nxt, j),
            ),
        dp.conv == pre.conv,
        dp.current == pre.current,
        dp.una == pre.rcv_nxt,
    ensures
        moved.snd_buf@ == pre.snd_buf@ + entering(&pre, m, dp),
        data_stream(moved.snd_buf@, dp) == data_stream(pre.snd_buf@, dp) + new_stream(
            pre.snd_queue@.take(m),
            pre.snd_nxt,
            dp,
        ),
        any_fast(moved.snd_buf@, dp) == any_fast(pre.snd_buf@, dp),
        any_timeout(moved.snd_buf@, dp) == any_timeout(pre.snd_buf@, dp),
        timeouts(moved.snd_buf@, dp) == timeouts(pre.snd_buf@, dp),
        dead_after(moved.snd_buf@, dp, pre.dead_link) == (dead_after(pre.snd_buf@, dp, pre.dead_link)
            || dead_after(entering(&pre, m, dp), dp, pre.dead_link)),
{
    let n0 = pre.snd_buf@.len() as int;
    let nb = entering(&pre, m, dp);
    let q = pre.snd_queue@;
    assert forall|j: int| 0 <= j < moved.snd_buf@.len() implies moved.snd_buf@[j] == (pre.snd_buf@
        + nb)[j] by {
        if j < n0 {
            assert(moved.snd_buf@.take(n0)[j] == moved.snd_buf@[j]);
        } else {
            assert(moved.snd_buf@[n0 + (j - n0)] == nb[j - n0]);
        }
    }
    assert(moved.snd_buf@ =~= pre.snd_buf@ + nb);
    assert forall|j: int| 0 <= j < nb.len() implies (#[trigger] nb[j]).xmit == 0 && nb[j].frg
        == q.take(m)[j].frg && nb[j].sn == wrap_add(pre.snd_nxt, j) && nb[j].data@ == q.take(
        m,
    )[j].data@ by {}
    lemma_new_part(nb, q.take(m), pre.snd_nxt, dp);
    lemma_data_stream_append(pre.snd_buf@, nb, dp);
    lemma_any_append(pre.snd_buf@, nb, dp);
    assert forall|j: int| 0 <= j < nb.len() implies (#[trigger] nb[j]).xmit == 0 by {}
    lemma_fresh_append(pre.snd_buf@, nb, dp, pre.dead_link);
}

/// The data part of a flush: moves queued segments into flight while the
/// send window has room, sends every segment in flight that is due, and
/// adjusts the congestion window.
#[verifier::rlimit(100)]
fn flush_segments(
    kcp: &mut IKCPCB,
    out: &mut Vec<Vec<u8>>,
    buf: &mut Vec<u8>,
    wnd: u32,
    Ghost(out0): Ghost<Seq<Vec<u8>>>,
)
    requires
        old(kcp).wf(),
        emit_ok(old(out)@, old(buf)@, out0, old(kcp).conv, old(kcp).mtu),
        wnd == wnd_unused(old(kcp)),
    ensures
        final(kcp).wf(),
        final(kcp).same_config(old(kcp)),
        final(kcp).same_recv_side(old(kcp)),
        final(kcp).same_timing(old(kcp)),
        final(kcp).output == old(kcp).output,
        final(kcp).snd_una == old(kcp).snd_una,
        final(kcp).rmt_wnd == old(kcp).rmt_wnd,
        emit_ok(final(out)@, final(buf)@, out0, old(kcp).conv, old(kcp).mtu),
        ({
            let q = old(kcp).snd_queue@;
            let m = q.len() - final(kcp).snd_queue@.len();
            let lim = wrap_add(old(kcp).snd_una, send_window(old(kcp)) as int);
            let dp = data_params(old(kcp));
            &&& 0 <= m <= q.len()
            &&& final(kcp).snd_queue@ == q.skip(m)
            &&& datas(final(kcp).snd_buf@) == datas(old(kcp).snd_buf@) + datas(q.take(m))
            &&& sns(final(kcp).snd_buf@) == sns(old(kcp).snd_buf@) + Seq::new(
                m as nat,
                |j: int| wrap_add(old(kcp).snd_nxt, j),
            )
            &&& final(kcp).snd_nxt == wrap_add(old(kcp).snd_nxt, m)
            &&& forall|j: int|
                0 <= j < m ==> itimediff(#[trigger] wrap_add(old(kcp).snd_nxt, j), lim) < 0
            &&& (m == q.len() || itimediff(final(kcp).snd_nxt, lim) >= 0)
            &&& stream_of(final(out)@, final(buf)@, out0) == stream_of(old(out)@, old(buf)@, out0)
                + data_stream(old(kcp).snd_buf@, dp) + new_stream(q.take(m), old(kcp).snd_nxt, dp)
            &&& (final(kcp).ssthresh, final(kcp).cwnd, final(kcp).incr) == congestion_after(
                old(kcp),
                final(kcp).snd_nxt,
                any_fast(old(kcp).snd_buf@, dp),
                any_timeout(old(kcp).snd_buf@, dp),
            )
            &&& final(kcp).snd_buf@ == launched(old(kcp), m, dp)
            &&& final(kcp).xmit == ((old(kcp).xmit + timeouts(old(kcp).snd_buf@, dp))
                % 0x1_0000_0000) as u32
            &&& final(kcp).state == if dead_after(old(kcp).snd_buf@, dp, old(kcp).dead_link)
                || dead_after(entering(old(kcp), m, dp), dp, old(kcp).dead_link) {
                0xffff_ffffu32
            } else {
                old(kcp).state
            }
            &&& forall|j: int|
                0 <= j < m ==> carries(
                    stream_of(final(out)@, final(buf)@, out0),
                    old(kcp).conv,
                    wrap_add(old(kcp).snd_nxt, j),
                    (#[trigger] q[j]).frg,
                    q[j].data@,
                )
        }),
{
    let ghost pre = *kcp;
    let ghost cs = stream_of(out@, buf@, out0);
    let w = if kcp.snd_wnd < kcp.rmt_wnd {
        kcp.snd_wnd
    } else {
        kcp.rmt_wnd
    };
    let cwnd = if kcp.nocwnd == 0 && kcp.cwnd < w {
        kcp.cwnd
    } else {
        w
    };
    let ghost pre_move = *kcp;
    move_to_flight(kcp, wnd, cwnd);
    let ghost moved = *kcp;
    let resent: u32 = if kcp.fastresend > 0 {
        kcp.fastresend as u32
    } else {
        0xffff_ffff
    };
    let rtomin: u32 = if kcp.nodelay == 0 {
        (kcp.rx_rto / 8) as u32
    } else {
        0
    };
    let ghost s = stream_of(out@, buf@, out0);
    let (change, lost) = flush_data(kcp, out, buf, wnd, resent, rtomin, Ghost(out0));
    proof {
        let q = pre_move.snd_queue@;
        let m = q.len() - moved.snd_queue@.len();
        let n0 = pre_move.snd_buf@.len();
        let dp = data_params(&pre);
        lemma_moved(pre, moved, m, dp);
        assert forall|j: int| 0 <= j < m implies carries(
            stream_of(out@, buf@, out0),
            pre.conv,
            wrap_add(pre.snd_nxt, j),
            (#[trigger] q[j]).frg,
            q[j].data@,
        ) by {
            let k = n0 + j;
            assert(moved.snd_buf@[k] == in_flight(q[j], &pre, wnd, wrap_add(pre.snd_nxt, j)));
        }
    }
    if change {
        let inflight = kcp.snd_nxt.wrapping_sub(kcp.snd_una);
        kcp.ssthresh = inflight / 2;
        if kcp.ssthresh < IKCP_THRESH_MIN {
            kcp.ssthresh = IKCP_THRESH_MIN;
        }
        kcp.cwnd = kcp.ssthresh.wrapping_add(resent);
        kcp.incr = kcp.cwnd.wrapping_mul(kcp.mss);
    }
    if lost {
        kcp.ssthresh = cwnd / 2;
        if kcp.ssthresh < IKCP_THRESH_MIN {
            kcp.ssthresh = IKCP_THRESH_MIN;
        }
        kcp.cwnd = 1;
        kcp.incr = kcp.mss;
    }
    if kcp.cwnd < 1 {
        kcp.cwnd = 1;
        kcp.incr = kcp.mss;
    }
    proof {
        assert(send_window(&pre) == cwnd);
    }
}

/// Emits everything that is due (see [`flushed`]) and adjusts the
/// congestion window: after a fast retransmission the slow-start threshold
/// halves the data in flight; after a timeout it halves the window and the
/// congestion window restarts at one segment. Does nothing before the
/// first `ikcp_update`.
pub fn ikcp_flush(kcp: &mut IKCPCB)
    requires
        old(kcp).wf(),
        old(kcp).output.is_some(),
    ensures
        final(kcp).wf(),
        final(kcp).same_config(old(kcp)),
        final(kcp).output.is_some(),
        old(kcp).updated == 0 ==> *final(kcp) == *old(kcp),
        old(kcp).updated != 0 ==> flushed(old(kcp), final(kcp)),
{
    if kcp.updated == 0 {
        return ;
    }
    let ghost pre = *kcp;
    let mut out = kcp.output.take().unwrap();
    let ghost out0 = out@;
    let mut buf: Vec<u8> = Vec::new();
    let wnd = unused_window(kcp);
    let wnd16: u16 = #[verifier::truncate] (wnd as u16);
    proof {
        assert(out@.take(out0.len() as int) =~= out0);
        assert(segs_exact(buf@, kcp.conv));
        assert(emitted(out@, out0.len() as int) =~= Seq::<u8>::empty()) by {
            assert(Seq::new(0, |i: int| out@[out0.len() + i]@) =~= Seq::<Seq<u8>>::empty());
            assert(concat(Seq::<Seq<u8>>::empty()) =~= Seq::<u8>::empty());
        }
    }
    flush_control(kcp, &mut out, &mut buf, wnd16, Ghost(out0));
    let ghost acks_stream = ack_stream(pre.acklist@, pre.conv, wnd16, pre.rcv_nxt);
    let ghost cs = stream_of(out@, buf@, out0);
    proof {
        assert(cs.take(acks_stream.len() as int) =~= acks_stream);
        assert(cs.take(cs.len() as int) =~= cs);
    }
    let ghost ctrl = *kcp;
    flush_segments(kcp, &mut out, &mut buf, wnd, Ghost(out0));
    proof {
        let mm = pre.snd_queue@.len() - kcp.snd_queue@.len();
        assert(data_params(&ctrl) == data_params(&pre));
        assert(entering(&ctrl, mm, data_params(&pre)) =~= entering(&pre, mm, data_params(&pre)));
        assert(launched(&ctrl, mm, data_params(&pre)) =~= launched(&pre, mm, data_params(&pre)));
        let q = pre.snd_queue@;
        let m = q.len() - kcp.snd_queue@.len();
        let dp = data_params(&pre);
        let full = stream_of(out@, buf@, out0);
        assert(full.take(cs.len() as int) =~= cs);
        assert(full.take(acks_stream.len() as int) =~= acks_stream);
        assert forall|j: int| 0 <= j < m implies carries(
            full,
            pre.conv,
            wrap_add(pre.snd_nxt, j),
            (#[trigger] q[j]).frg,
            q[j].data@,
        ) by {
        }
    }
    if buf.len() > 0 {
        proof {
            lemma_segs_exact_input(buf@, kcp.conv);
            lemma_emitted_push(out@, out0.len() as int, buf);
        }
        let ghost ob = out@;
        out.push(buf);
        proof {
            assert(out@.take(out0.len() as int) =~= ob.take(out0.len() as int));
        }
    } else {
        proof {
            assert(stream_of(out@, buf@, out0) =~= emitted(out@, out0.len() as int));
        }
    }
    kcp.output = Some(out);
    proof {
        assert(ack_stream(pre.acklist@, pre.conv, wnd_unused(&pre) as u16, pre.rcv_nxt)
            == acks_stream);
    }
}

/// The flush deadline an update at `current` starts from, and how far
/// `current` is past it: the previous deadline, or `current` itself on the
/// first update and after a jump of the clock by 10 s or more.
pub open spec fn update_slap(kcp: &IKCPCB, current: u32) -> (u32, int) {
    let ts0 = if kcp.updated == 0 {
        current
    } else {
        kcp.ts_flush
    };
    let slap = itimediff(current, ts0);
    if slap >= 10000 || slap < -10000 {
        (current, 0)
    } else {
        (ts0, slap)
    }
}

/// The next flush deadline after a flush due at `ts`.
pub open spec fn next_flush(ts: u32, current: u32, interval: u32) -> u32 {
    let ts2 = wrap_add(ts, interval as int);
    if itimediff(current, ts2) >= 0 {
        wrap_add(current, interval as int)
    } else {
        ts2
    }
}

/// Drives the protocol clock: records `current` (in ms) and flushes once
/// the flush deadline has come, moving the deadline on by `interval`.
#[verifier::rlimit(60)]
pub fn ikcp_update(kcp: &mut IKCPCB, current: u32)
    requires
        old(kcp).wf(),
        old(kcp).output.is_some(),
    ensures
        final(kcp).wf(),
        final(kcp).same_config(old(kcp)),
        final(kcp).output.is_some(),
        final(kcp).current == current,
        final(kcp).updated == 1,
        ({
            let (ts, slap) = update_slap(old(kcp), current);
            let pre = IKCPCB {
                current,
                updated: 1,
                ts_flush: next_flush(ts, current, old(kcp).interval),
                ..*old(kcp)
            };
            &&& slap < 0 ==> *final(kcp) == IKCPCB {
                current,
                updated: 1,
                ts_flush: ts,
                ..*old(kcp)
            }
            &&& slap >= 0 ==> flushed(&pre, final(kcp))
            &&& slap >= 0 ==> final(kcp).ts_flush == next_flush(ts, current, old(kcp).interval)
        }),
{
    kcp.current = current;
    if kcp.updated == 0 {
        kcp.updated = 1;
        kcp.ts_flush = current;
    }
    let mut slap = timediff(current, kcp.ts_flush);
    if slap >= 10000 || slap < -10000 {
        kcp.ts_flush = current;
        slap = 0;
    }
    if slap >= 0 {
        kcp.ts_flush = add_wrap(kcp.ts_flush, kcp.interval);
        if timediff(current, kcp.ts_flush) >= 0 {
            kcp.ts_flush = add_wrap(current, kcp.interval);
        }
        let ghost pre = *kcp;
        proof {
            assert(pre == IKCPCB {
                current,
                updated: 1,
                ts_flush: pre.ts_flush,
                ..*old(kcp)
            });
        }
        ikcp_flush(kcp);
    }
}

/// The smallest `itimediff(resendts, current)` over the segments of `q`,
/// or `0x7fffffff` for an empty queue.
pub open spec fn min_resend_gap(q: Seq<IKCPSEG>, current: u32) -> int
    decreases q.len(),
{
    if q.len() == 0 {
        0x7fff_ffff
    } else {
        let d = itimediff(q.last().resendts, current);
        let r = min_resend_gap(q.drop_last(), current);
        if d < r {
            d
        } else {
            r
        }
    }
}

/// When `ikcp_update` should next be called: `current` when something is
/// due now (or before the first update), else the earliest of the flush
/// deadline, the retransmission timers and `current + interval`.
pub open spec fn check_time(kcp: &IKCPCB, current: u32) -> u32 {
    if kcp.updated == 0 {
        current
    } else {
        let diff = itimediff(current, kcp.ts_flush);
        let ts = if diff >= 10000 || diff < -10000 {
            current
        } else {
            kcp.ts_flush
        };
        if itimediff(current, ts) >= 0 {
            current
        } else {
            let tm_flush = itimediff(ts, current);
            let tm_packet = min_resend_gap(kcp.snd_buf@, current);
            if tm_packet <= 0 {
                current
            } else {
                let m = if tm_packet < tm_flush {
                    tm_packet
                } else {
                    tm_flush
                };
                let minimal = if m >= kcp.interval {
                    kcp.interval as int
                } else {
                    m
                };
                wrap_add(current, minimal)
            }
        }
    }
}

/// When `ikcp_update` should next be called (see [`check_time`]).
pub fn ikcp_check(kcp: &IKCPCB, current: u32) -> (r: u32)
    requires
        kcp.wf(),
    ensures
        r == check_time(kcp, current),
{
    if kcp.updated == 0 {
        return current;
    }
    let mut ts_flush = kcp.ts_flush;
    let diff = timediff(current, ts_flush);
    if diff >= 10000 || diff < -10000 {
        ts_flush = current;
    }
    if timediff(current, ts_flush) >= 0 {
        return current;
    }
    let tm_flush = timediff(ts_flush, current);
    let mut tm_packet: i32 = 0x7fff_ffff;
    let n = kcp.snd_buf.len();
    let mut i: usize = 0;
    let ghost q = kcp.snd_buf@;
    proof {
        assert(q.take(0) =~= Seq::<IKCPSEG>::empty());
    }
    while i < n
        invariant
            n == q.len(),
            q == kcp.snd_buf@,
            i <= n,
            tm_packet == min_resend_gap(q.take(i as int), current),
            tm_packet > 0,
        decreases n - i,
    {
        let d = timediff(kcp.snd_buf[i].resendts, current);
        proof {
            assert(q.take(i + 1).drop_last() =~= q.take(i as int));
            assert(q.take(i + 1).last() == q[i as int]);
        }
        if d <= 0 {
            proof {
                lemma_min_resend_gap_le(q, i as int + 1, current);
            }
            return current;
        }
        if d < tm_packet {
            tm_packet = d;
        }
        i = i + 1;
    }
    proof {
        assert(q.take(n as int) =~= q);
    }
    let m = if tm_packet < tm_flush {
        tm_packet
    } else {
        tm_flush
    };
    let minimal: u32 = if m as u32 >= kcp.interval {
        kcp.interval
    } else {
        m as u32
    };
    add_wrap(current, minimal)
}

/// Moving forward by `m` ticks, for `0 <= m < 2^31`, is a distance of `m`.
proof fn lemma_itimediff_wrap_add(c: u32, m: int)
    requires
        0 <= m < 0x8000_0000,
    ensures
        itimediff(wrap_add(c, m), c) == m,
{
}

/// The next update is never due before now and never later than one
/// interval from now.
pub proof fn law_check_within_interval(kcp: &IKCPCB, current: u32)
    requires
        kcp.wf(),
    ensures
        0 <= itimediff(check_time(kcp, current), current) <= kcp.interval,
{
    lemma_itimediff_wrap_add(current, 0);
    assert(wrap_add(current, 0) == current);
    if kcp.updated != 0 {
        let diff = itimediff(current, kcp.ts_flush);
        let ts = if diff >= 10000 || diff < -10000 {
            current
        } else {
            kcp.ts_flush
        };
        if itimediff(current, ts) < 0 {
            let tm_flush = itimediff(ts, current);
            let tm_packet = min_resend_gap(kcp.snd_buf@, current);
            if tm_packet > 0 {
                let m = if tm_packet < tm_flush {
                    tm_packet
                } else {
                    tm_flush
                };
                let minimal = if m >= kcp.interval {
                    kcp.interval as int
                } else {
                    m
                };
                assert(tm_flush > 0);
                assert(0 < minimal <= kcp.interval);
                lemma_itimediff_wrap_add(current, minimal);
            }
        }
    }
}

/// The gap of [`min_resend_gap`] is at most that of every segment, and is
/// that of one of them unless it is the empty-queue value.
proof fn lemma_min_resend_gap_bounds(q: Seq<IKCPSEG>, current: u32)
    ensures
        forall|k: int|
            0 <= k < q.len() ==> min_resend_gap(q, current) <= itimediff(
                #[trigger] q[k].resendts,
                current,
            ),
        min_resend_gap(q, current) == 0x7fff_ffff || exists|k: int|
            0 <= k < q.len() && min_resend_gap(q, current) == itimediff(
                #[trigger] q[k].resendts,
                current,
            ),
    decreases q.len(),
{
    if q.len() > 0 {
        let p = q.drop_last();
        lemma_min_resend_gap_bounds(p, current);
        assert forall|k: int| 0 <= k < q.len() implies min_resend_gap(q, current) <= itimediff(
            #[trigger] q[k].resendts,
            current,
        ) by {
            if k < p.len() {
                assert(q[k] == p[k]);
            }
        }
        let m = min_resend_gap(q, current);
        if m != 0x7fff_ffff {
            if m == itimediff(q.last().resendts, current) {
                assert(q[q.len() - 1] == q.last());
            } else {
                let k = choose|k: int| 0 <= k < p.len() && min_resend_gap(p, current) == itimediff(
                    #[trigger] p[k].resendts,
                    current,
                );
                assert(q[k] == p[k]);
            }
        }
    }
}

/// [`ikcp_check`] asks for the next update no later than anything falls
/// due. It answers `current` before the first update, when the flush
/// deadline is 10 s or more away from now, and when the flush deadline or
/// a retransmission timer has come. Otherwise it answers a time after
/// `current` that is the earliest of the flush deadline, every
/// retransmission timer of a segment in flight, and one interval from now.
pub proof fn law_check_earliest_deadline(kcp: &IKCPCB, current: u32)
    requires
        kcp.wf(),
    ensures
        ({
            let r = check_time(kcp, current);
            let g = itimediff(r, current);
            let b = kcp.snd_buf@;
            let near = -10000 <= itimediff(current, kcp.ts_flush) < 10000;
            let to_flush = itimediff(kcp.ts_flush, current);
            let resend_due = exists|k: int|
                0 <= k < b.len() && itimediff(#[trigger] b[k].resendts, current) <= 0;
            &&& kcp.updated == 0 ==> r == current
            &&& !near ==> r == current
            &&& near && to_flush <= 0 ==> r == current
            &&& resend_due ==> r == current
            &&& (kcp.updated != 0 && near && to_flush > 0 && !resend_due) ==> {
                &&& 0 < g <= kcp.interval
                &&& g <= to_flush
                &&& forall|k: int| 0 <= k < b.len() ==> g <= itimediff(#[trigger] b[k].resendts, current)
                &&& (g == kcp.interval || g == to_flush || exists|k: int|
                    0 <= k < b.len() && g == itimediff(#[trigger] b[k].resendts, current))
            }
        }),
{
    lemma_itimediff_wrap_add(current, 0);
    assert(wrap_add(current, 0) == current);
    lemma_min_resend_gap_bounds(kcp.snd_buf@, current);
    let b = kcp.snd_buf@;
    let tm_packet = min_resend_gap(b, current);
    if kcp.updated != 0 {
        let diff = itimediff(current, kcp.ts_flush);
        if -10000 <= diff < 10000 {
            assert(itimediff(kcp.ts_flush, current) == -diff);
            if diff < 0 {
                let tm_flush = itimediff(kcp.ts_flush, current);
                if tm_packet > 0 {
                    let m = if tm_packet < tm_flush {
                        tm_packet
                    } else {
                        tm_flush
                    };
                    let minimal = if m >= kcp.interval {
                        kcp.interval as int
                    } else {
                        m
                    };
                    lemma_itimediff_wrap_add(current, minimal);
                    assert(check_time(kcp, current) == wrap_add(current, minimal));
                    assert(itimediff(check_time(kcp, current), current) == minimal);
                } else {
                    assert(check_time(kcp, current) == current);
                    let k = choose|k: int| 0 <= k < b.len() && tm_packet == itimediff(
                        #[trigger] b[k].resendts,
                        current,
                    );
                    assert(0 <= k < b.len() && itimediff(b[k].resendts, current) <= 0);
                }
            }
        }
    }
}

/// The gap over a whole queue is at most the gap over a prefix.
proof fn lemma_min_resend_gap_le(q: Seq<IKCPSEG>, k: int, current: u32)
    requires
        0 <= k <= q.len(),
    ensures
        min_resend_gap(q, current) <= min_resend_gap(q.take(k), current),
    decreases q.len() - k,
{
    if k < q.len() {
        lemma_min_resend_gap_le(q, k + 1, current);
        assert(q.take(k + 1).drop_last() =~= q.take(k));
    } else {
        assert(q.take(k) =~= q);
    }
}

} // verus!
