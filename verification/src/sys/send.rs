//! The sending side: cutting data into segments on `snd_queue`.

use vstd::prelude::*;
use super::{segment_new, IKCPCB, IKCPSEG, IKCP_WND_RCV};

verus! {

/// The payloads of the segments of `q`.
pub open spec fn datas(q: Seq<IKCPSEG>) -> Seq<Seq<u8>> {
    Seq::new(q.len(), |i: int| q[i].data@)
}

/// The fragment indexes of the segments of `q`.
pub open spec fn frgs(q: Seq<IKCPSEG>) -> Seq<u32> {
    Seq::new(q.len(), |i: int| q[i].frg)
}

/// `d` cut into pieces of `mss` bytes; the last piece holds the rest and
/// may be shorter (or empty, when `d` is).
pub open spec fn pieces(d: Seq<u8>, mss: int) -> Seq<Seq<u8>>
    decreases d.len(),
    when mss > 0
{
    if d.len() <= mss {
        seq![d]
    } else {
        seq![d.take(mss)] + pieces(d.skip(mss), mss)
    }
}

/// The number of segments a payload of `len` bytes takes.
pub open spec fn frag_count(len: int, mss: int) -> int {
    if len <= mss {
        1
    } else {
        (len + mss - 1) / mss
    }
}

/// Fragment indexes of `count` new segments: counting down to 0 in message
/// mode, all 0 in stream mode.
pub open spec fn piece_frgs(count: int, stream: bool) -> Seq<u32> {
    Seq::new(count as nat, |i: int| if stream { 0u32 } else { (count - 1 - i) as u32 })
}

/// In stream mode, data first tops up the last queued segment when that
/// one is shorter than `mss`.
pub open spec fn merges(q: Seq<IKCPSEG>, mss: int, stream: bool) -> bool {
    stream && q.len() > 0 && q.last().data@.len() < mss
}

/// The number of bytes that top up the last queued segment.
pub open spec fn merge_len(q: Seq<IKCPSEG>, len: int, mss: int, stream: bool) -> int {
    if merges(q, mss, stream) {
        let cap = mss - q.last().data@.len();
        if len < cap {
            len
        } else {
            cap
        }
    } else {
        0
    }
}

/// The payloads and fragment indexes of the queue after the top-up.
pub open spec fn merged_datas(q: Seq<IKCPSEG>, data: Seq<u8>, mss: int, stream: bool) -> Seq<
    Seq<u8>,
> {
    if merges(q, mss, stream) {
        datas(q).drop_last().push(
            q.last().data@ + data.take(merge_len(q, data.len() as int, mss, stream)),
        )
    } else {
        datas(q)
    }
}

pub open spec fn merged_frgs(q: Seq<IKCPSEG>, mss: int, stream: bool) -> Seq<u32> {
    if merges(q, mss, stream) {
        frgs(q).drop_last().push(0u32)
    } else {
        frgs(q)
    }
}

/// The outcome of sending `data` onto a send queue `q`: the returned code
/// and the payloads and fragment indexes of the queue afterwards.
pub open spec fn send_outcome(q: Seq<IKCPSEG>, data: Seq<u8>, mss: int, stream: bool) -> (
    int,
    Seq<Seq<u8>>,
    Seq<u32>,
) {
    let len = data.len() as int;
    if len > 0x7fff_ffff {
        (-1, datas(q), frgs(q))
    } else {
        let ext = merge_len(q, len, mss, stream);
        let bd = merged_datas(q, data, mss, stream);
        let bf = merged_frgs(q, mss, stream);
        let rest = data.skip(ext);
        let count = frag_count(rest.len() as int, mss);
        if stream && rest.len() == 0 {
            (ext, bd, bf)
        } else if count >= IKCP_WND_RCV {
            (if stream && ext > 0 {
                ext
            } else {
                -2
            }, bd, bf)
        } else {
            (len, bd + pieces(rest, mss), bf + piece_frgs(count, stream))
        }
    }
}

pub proof fn lemma_pieces_len(d: Seq<u8>, mss: int)
    requires
        mss > 0,
    ensures
        pieces(d, mss).len() == frag_count(d.len() as int, mss),
        pieces(d, mss).len() >= 1,
    decreases d.len(),
{
    if d.len() > mss {
        lemma_pieces_len(d.skip(mss), mss);
        let l = d.len() as int;
        assert(frag_count(l - mss, mss) + 1 == (l + mss - 1) / mss) by (nonlinear_arith)
            requires
                l > mss,
                mss > 0,
                frag_count(l - mss, mss) == if l - mss <= mss {
                    1
                } else {
                    (l - mss + mss - 1) / mss
                },
        ;
    }
}

/// The concatenation of byte strings.
pub open spec fn concat(ps: Seq<Seq<u8>>) -> Seq<u8>
    decreases ps.len(),
{
    if ps.len() == 0 {
        Seq::empty()
    } else {
        ps[0] + concat(ps.drop_first())
    }
}

/// Concatenating one more string appends it.
pub proof fn lemma_concat_push(ps: Seq<Seq<u8>>, x: Seq<u8>)
    ensures
        concat(ps.push(x)) == concat(ps) + x,
    decreases ps.len(),
{
    if ps.len() == 0 {
        assert(ps.push(x) =~= seq![x]);
        assert(seq![x].drop_first() =~= Seq::<Seq<u8>>::empty());
        assert(concat(Seq::<Seq<u8>>::empty()) =~= Seq::<u8>::empty());
        assert(concat(seq![x]) == x + concat(seq![x].drop_first()));
        assert(x + Seq::<u8>::empty() =~= x);
        assert(Seq::<u8>::empty() + x =~= x);
    } else {
        lemma_concat_push(ps.drop_first(), x);
        assert(ps.push(x).drop_first() =~= ps.drop_first().push(x));
        assert(concat(ps.push(x)) == ps[0] + concat(ps.push(x).drop_first()));
        assert(concat(ps) == ps[0] + concat(ps.drop_first()));
        assert(ps[0] + (concat(ps.drop_first()) + x) =~= ps[0] + concat(ps.drop_first()) + x);
    }
}

/// Cutting data into pieces and concatenating them gives the data back.
pub proof fn lemma_pieces_concat(d: Seq<u8>, mss: int)
    requires
        mss > 0,
    ensures
        concat(pieces(d, mss)) == d,
    decreases d.len(),
{
    if d.len() <= mss {
        assert(pieces(d, mss) == seq![d]);
        assert(seq![d].drop_first() =~= Seq::<Seq<u8>>::empty());
        assert(concat(Seq::<Seq<u8>>::empty()) =~= Seq::<u8>::empty());
        assert(concat(seq![d]) == d + concat(seq![d].drop_first()));
        assert(d + Seq::<u8>::empty() =~= d);
    } else {
        lemma_pieces_concat(d.skip(mss), mss);
        let ps = seq![d.take(mss)] + pieces(d.skip(mss), mss);
        assert(pieces(d, mss) == ps);
        assert(ps.drop_first() =~= pieces(d.skip(mss), mss));
        assert(concat(ps) == ps[0] + concat(ps.drop_first()));
        assert(d.take(mss) + d.skip(mss) =~= d);
    }
}

/// Concatenation distributes over joining sequences of strings.
pub proof fn lemma_concat_append(a: Seq<Seq<u8>>, b: Seq<Seq<u8>>)
    ensures
        concat(a + b) == concat(a) + concat(b),
    decreases b.len(),
{
    if b.len() == 0 {
        assert(a + b =~= a);
        assert(concat(b) =~= Seq::<u8>::empty());
        assert(concat(a) + concat(b) =~= concat(a));
    } else {
        let p = b.drop_last();
        lemma_concat_append(a, p);
        assert(a + b =~= (a + p).push(b.last()));
        assert(b =~= p.push(b.last()));
        lemma_concat_push(a + p, b.last());
        lemma_concat_push(p, b.last());
        assert(concat(a) + (concat(p) + b.last()) =~= concat(a) + concat(p) + b.last());
    }
}

/// A send that the protocol accepts appends exactly the first `code`
/// bytes of the data to the bytes waiting in the send queue (all of them
/// unless a stream-mode top-up was all that fitted), whatever the mode.
pub proof fn law_send_appends_bytes(q: Seq<IKCPSEG>, data: Seq<u8>, mss: int, stream: bool)
    requires
        mss > 0,
        send_outcome(q, data, mss, stream).0 >= 0,
    ensures
        ({
            let (code, ds, fs) = send_outcome(q, data, mss, stream);
            &&& code <= data.len()
            &&& concat(ds) == concat(datas(q)) + data.take(code)
        }),
{
    let len = data.len() as int;
    let ext = merge_len(q, len, mss, stream);
    let bd = merged_datas(q, data, mss, stream);
    let rest = data.skip(ext);
    assert(0 <= ext <= len);
    if merges(q, mss, stream) {
        let p = datas(q).drop_last();
        assert(datas(q) =~= p.push(q.last().data@));
        lemma_concat_push(p, q.last().data@);
        lemma_concat_push(p, q.last().data@ + data.take(ext));
        assert(concat(bd) =~= concat(datas(q)) + data.take(ext));
    } else {
        assert(ext == 0);
        assert(data.take(0) =~= Seq::<u8>::empty());
        assert(concat(bd) =~= concat(datas(q)) + data.take(ext));
    }
    let count = frag_count(rest.len() as int, mss);
    if stream && rest.len() == 0 {
        assert(ext == len);
        assert(data.take(ext) =~= data.take(len));
    } else if count >= IKCP_WND_RCV {
    } else {
        lemma_concat_append(bd, pieces(rest, mss));
        lemma_pieces_concat(rest, mss);
        assert(data.take(ext) + rest =~= data.take(len));
    }
}

/// Copies `buf[from..to]` into a new vector.
pub fn bytes_of(buf: &[u8], from: usize, to: usize) -> (v: Vec<u8>)
    requires
        from <= to <= buf@.len(),
    ensures
        v@ == buf@.subrange(from as int, to as int),
{
    let mut v: Vec<u8> = Vec::new();
    let mut j = from;
    while j < to
        invariant
            from <= j <= to,
            to <= buf@.len(),
            v@ == buf@.subrange(from as int, j as int),
        decreases to - j,
    {
        v.push(buf[j]);
        j = j + 1;
        assert(v@ =~= buf@.subrange(from as int, j as int));
    }
    v
}

/// Queues `buffer` for sending.
///
/// In message mode the data becomes one message of up to 127 segments of
/// at most `mss` bytes, with fragment indexes counting down to 0. In
/// stream mode it first tops up the last queued segment, and every segment
/// has fragment index 0. Returns the number of bytes queued, -1 for data
/// longer than `i32::MAX` bytes, or -2 when the data would take 128
/// segments or more (nothing is queued then, except a stream-mode top-up,
/// whose size is returned instead when it is not empty).
pub fn ikcp_send(kcp: &mut IKCPCB, buffer: &[u8]) -> (r: i32)
    requires
        old(kcp).wf(),
    ensures
        final(kcp).wf(),
        ({
            let (code, ds, fs) = send_outcome(
                old(kcp).snd_queue@,
                buffer@,
                old(kcp).mss as int,
                old(kcp).stream != 0,
            );
            &&& r == code
            &&& datas(final(kcp).snd_queue@) == ds
            &&& frgs(final(kcp).snd_queue@) == fs
        }),
        final(kcp).same_config(old(kcp)),
        final(kcp).same_recv_side(old(kcp)),
        final(kcp).same_timing(old(kcp)),
        final(kcp).snd_buf@ == old(kcp).snd_buf@,
        final(kcp).snd_una == old(kcp).snd_una,
        final(kcp).snd_nxt == old(kcp).snd_nxt,
        final(kcp).ssthresh == old(kcp).ssthresh,
        final(kcp).cwnd == old(kcp).cwnd,
        final(kcp).incr == old(kcp).incr,
        final(kcp).rmt_wnd == old(kcp).rmt_wnd,
        final(kcp).xmit == old(kcp).xmit,
        final(kcp).state == old(kcp).state,
        final(kcp).output == old(kcp).output,
{
    let len = buffer.len();
    let ghost q = kcp.snd_queue@;
    let ghost stream = kcp.stream != 0;
    let ghost mss_i = kcp.mss as int;
    if len > 0x7fff_ffff {
        return -1;
    }
    let mss = kcp.mss as usize;
    let mut sent: usize = 0;
    if kcp.stream != 0 {
        let n = kcp.snd_queue.len();
        if n > 0 && kcp.snd_queue[n - 1].data.len() < mss {
            let old_seg = kcp.snd_queue.pop().unwrap();
            let cap = mss - old_seg.data.len();
            let extend = if len < cap {
                len
            } else {
                cap
            };
            let mut d = old_seg.data;
            let mut j: usize = 0;
            let ghost d0 = d@;
            while j < extend
                invariant
                    j <= extend <= len,
                    len == buffer@.len(),
                    d@ == d0 + buffer@.take(j as int),
                decreases extend - j,
            {
                d.push(buffer[j]);
                j = j + 1;
                assert(d@ =~= d0 + buffer@.take(j as int));
            }
            kcp.snd_queue.push(segment_new(d));
            sent = extend;
            proof {
                assert(datas(kcp.snd_queue@) =~= merged_datas(q, buffer@, mss_i, stream));
                assert(frgs(kcp.snd_queue@) =~= merged_frgs(q, mss_i, stream));
            }
        } else {
            proof {
                assert(datas(kcp.snd_queue@) =~= merged_datas(q, buffer@, mss_i, stream));
                assert(frgs(kcp.snd_queue@) =~= merged_frgs(q, mss_i, stream));
            }
        }
        if len - sent == 0 {
            proof {
                assert(buffer@.skip(sent as int).len() == 0);
            }
            return sent as i32;
        }
    }
    proof {
        assert(datas(kcp.snd_queue@) =~= merged_datas(q, buffer@, mss_i, stream));
        assert(frgs(kcp.snd_queue@) =~= merged_frgs(q, mss_i, stream));
        assert(sent == merge_len(q, len as int, mss_i, stream));
    }
    let rest: u64 = (len - sent) as u64;
    let m64: u64 = mss as u64;
    let count: u64 = if rest <= m64 {
        1
    } else {
        (rest + m64 - 1) / m64
    };
    if count >= IKCP_WND_RCV as u64 {
        if kcp.stream != 0 && sent > 0 {
            return sent as i32;
        }
        return -2;
    }
    let ghost d = buffer@.skip(sent as int);
    let ghost bd = datas(kcp.snd_queue@);
    let ghost bf = frgs(kcp.snd_queue@);
    let ghost all = pieces(d, mss_i);
    proof {
        lemma_pieces_len(d, mss_i);
        assert(all.len() == count);
    }
    let mut pos: usize = sent;
    let mut left: usize = len - sent;
    let mut i: u64 = 0;
    while i < count
        invariant
            0 <= i <= count,
            count < 128,
            count == all.len(),
            len == buffer@.len(),
            sent <= pos <= len,
            left == len - pos,
            mss == kcp.mss,
            mss_i == mss,
            mss > 0,
            d == buffer@.skip(sent as int),
            all == pieces(d, mss_i),
            i < count ==> pieces(buffer@.skip(pos as int), mss_i) == all.skip(i as int),
            datas(kcp.snd_queue@) == bd + all.take(i as int),
            frgs(kcp.snd_queue@) == bf + piece_frgs(count as int, stream).take(i as int),
            stream == (kcp.stream != 0),
            kcp.wf(),
            kcp.same_config(old(kcp)),
            kcp.same_recv_side(old(kcp)),
            kcp.same_timing(old(kcp)),
            kcp.snd_buf@ == old(kcp).snd_buf@,
            kcp.snd_una == old(kcp).snd_una,
            kcp.snd_nxt == old(kcp).snd_nxt,
            kcp.ssthresh == old(kcp).ssthresh,
            kcp.cwnd == old(kcp).cwnd,
            kcp.incr == old(kcp).incr,
            kcp.rmt_wnd == old(kcp).rmt_wnd,
            kcp.xmit == old(kcp).xmit,
            kcp.state == old(kcp).state,
            kcp.output == old(kcp).output,
        decreases count - i,
    {
        let ghost rem = buffer@.skip(pos as int);
        let size = if left > mss {
            mss
        } else {
            left
        };
        proof {
            assert(all.skip(i as int).len() >= 1);
            if rem.len() <= mss_i {
                assert(pieces(rem, mss_i) == seq![rem]);
            } else {
                assert(pieces(rem, mss_i) == seq![rem.take(mss_i)] + pieces(rem.skip(mss_i), mss_i));
            }
            assert(all[i as int] == all.skip(i as int)[0]);
        }
        let data = bytes_of(buffer, pos, pos + size);
        let mut seg = segment_new(data);
        seg.frg = if kcp.stream == 0 {
            (count - i - 1) as u32
        } else {
            0
        };
        let ghost before = kcp.snd_queue@;
        let ghost sd = seg.data@;
        let ghost sf = seg.frg;
        kcp.snd_queue.push(seg);
        proof {
            assert(rem.len() == left);
            assert(data@ =~= rem.take(size as int));
            assert(all.skip(i + 1) =~= all.skip(i as int).drop_first());
            if rem.len() <= mss_i {
                assert(rem.take(size as int) =~= rem);
                assert(all.skip(i as int) =~= seq![rem]);
                assert(all[i as int] == rem);
            } else {
                assert(all.skip(i as int) =~= seq![rem.take(mss_i)] + pieces(rem.skip(mss_i), mss_i));
                assert(all[i as int] == rem.take(mss_i));
                assert(all.skip(i + 1) =~= pieces(rem.skip(mss_i), mss_i));
                assert(rem.skip(mss_i) =~= buffer@.skip(pos + size));
            }
            assert(sd == all[i as int]);
            assert(sf == piece_frgs(count as int, stream)[i as int]);
            assert(datas(kcp.snd_queue@) =~= datas(before).push(sd));
            assert(frgs(kcp.snd_queue@) =~= frgs(before).push(sf));
            assert(all.take(i + 1) =~= all.take(i as int).push(all[i as int]));
            assert(datas(kcp.snd_queue@) =~= bd + all.take(i + 1));
            assert(frgs(kcp.snd_queue@) =~= bf + piece_frgs(count as int, stream).take(i + 1));
        }
        pos = pos + size;
        left = left - size;
        i = i + 1;
    }
    proof {
        assert(all.take(count as int) =~= all);
        assert(piece_frgs(count as int, stream).take(count as int) =~= piece_frgs(count as int, stream));
    }
    len as i32
}

} // verus!
