//! Wire format of a KCP segment: a 24-byte little-endian header followed by
//! `len` bytes of payload.
//!
//! ```text
//! 0       4     5     6       8       12      16      20      24
//! | conv  | cmd | frg |  wnd  |  ts   |  sn   |  una  |  len  | data...
//! ```

use vstd::prelude::*;

verus! {

/// Size of a segment header in bytes.
pub const IKCP_OVERHEAD: usize = 24;

/// Command: data segment.
pub const IKCP_CMD_PUSH: u8 = 81;

/// Command: acknowledgement.
pub const IKCP_CMD_ACK: u8 = 82;

/// Command: window probe (ask the peer for its window size).
pub const IKCP_CMD_WASK: u8 = 83;

/// Command: window size announcement.
pub const IKCP_CMD_WINS: u8 = 84;

/// The decoded header of one segment.
#[derive(Clone, Copy, Debug, PartialEq, Eq)]
pub struct SegHeader {
    pub conv: u32,
    pub cmd: u8,
    pub frg: u8,
    pub wnd: u16,
    pub ts: u32,
    pub sn: u32,
    pub una: u32,
    pub len: u32,
}

/// Little-endian bytes of a 16-bit value.
pub open spec fn u16_le(x: u16) -> Seq<u8> {
    seq![(x % 256) as u8, (x / 256) as u8]
}

/// Little-endian bytes of a 32-bit value.
pub open spec fn u32_le(x: u32) -> Seq<u8> {
    seq![
        (x % 256) as u8,
        ((x / 256) % 256) as u8,
        ((x / 65536) % 256) as u8,
        (x / 16777216) as u8,
    ]
}

/// The 16-bit value stored little-endian at `s[at..at + 2]`.
pub open spec fn read_u16_le(s: Seq<u8>, at: int) -> u16 {
    (s[at] + s[at + 1] * 256) as u16
}

/// The 32-bit value stored little-endian at `s[at..at + 4]`.
pub open spec fn read_u32_le(s: Seq<u8>, at: int) -> u32 {
    (s[at] + s[at + 1] * 256 + s[at + 2] * 65536 + s[at + 3] * 16777216) as u32
}

/// The 24 header bytes of `h`.
pub open spec fn header_bytes(h: SegHeader) -> Seq<u8> {
    u32_le(h.conv) + seq![h.cmd, h.frg] + u16_le(h.wnd) + u32_le(h.ts) + u32_le(h.sn)
        + u32_le(h.una) + u32_le(h.len)
}

/// The header stored in the first 24 bytes of `s`.
pub open spec fn parse_header(s: Seq<u8>) -> SegHeader {
    SegHeader {
        conv: read_u32_le(s, 0),
        cmd: s[4],
        frg: s[5],
        wnd: read_u16_le(s, 6),
        ts: read_u32_le(s, 8),
        sn: read_u32_le(s, 12),
        una: read_u32_le(s, 16),
        len: read_u32_le(s, 20),
    }
}

/// The four commands a segment may carry.
pub open spec fn is_known_cmd(cmd: u8) -> bool {
    cmd == IKCP_CMD_PUSH || cmd == IKCP_CMD_ACK || cmd == IKCP_CMD_WASK || cmd == IKCP_CMD_WINS
}

/// The code with which the parser of `ikcp_input` stops on the segments
/// in `d`, for a control block of conversation `conv`: 0 when every
/// segment is accepted (a tail shorter than a header is ignored), -1 at a
/// segment of another conversation, -2 at a payload length that overruns
/// the datagram or does not fit a signed 32-bit length, -3 at an unknown
/// command.
pub open spec fn input_code(d: Seq<u8>, conv: u32) -> int
    decreases d.len(),
{
    if d.len() < 24 {
        0
    } else {
        let h = parse_header(d);
        if h.conv != conv {
            -1
        } else if d.len() - 24 < h.len || h.len >= 0x8000_0000 {
            -2
        } else if !is_known_cmd(h.cmd) {
            -3
        } else {
            input_code(d.skip(24 + h.len), conv)
        }
    }
}

/// `d` is a sequence of whole, accepted segments, with nothing after the
/// last one.
pub open spec fn segs_exact(d: Seq<u8>, conv: u32) -> bool
    decreases d.len(),
{
    if d.len() == 0 {
        true
    } else if d.len() < 24 {
        false
    } else {
        let h = parse_header(d);
        &&& h.conv == conv
        &&& h.len <= d.len() - 24
        &&& h.len < 0x8000_0000
        &&& is_known_cmd(h.cmd)
        &&& segs_exact(d.skip(24 + h.len), conv)
    }
}

/// A datagram is well formed for `conv` when it holds at least one
/// header and every segment in it is accepted.
pub open spec fn well_formed_datagram(d: Seq<u8>, conv: u32) -> bool {
    d.len() >= 24 && input_code(d, conv) == 0
}

proof fn lemma_u16_roundtrip(x: u16)
    ensures
        read_u16_le(u16_le(x), 0) == x,
{
    let b0 = (x % 256) as u8;
    let b1 = (x / 256) as u8;
    assert(x == (x % 256) + (x / 256) * 256) by (bit_vector);
    assert(x / 256 < 256) by (bit_vector);
    assert(b0 == x % 256);
    assert(b1 == x / 256);
}

proof fn lemma_u32_roundtrip(x: u32)
    ensures
        read_u32_le(u32_le(x), 0) == x,
{
    assert(x == (x % 256) + ((x / 256) % 256) * 256 + ((x / 65536) % 256) * 65536 + (x
        / 16777216) * 16777216) by (bit_vector);
    assert(x / 16777216 < 256) by (bit_vector);
}

/// Reading back a header that was written gives the same header,
/// whatever follows it.
pub proof fn lemma_header_roundtrip(h: SegHeader, rest: Seq<u8>)
    ensures
        header_bytes(h).len() == 24,
        (header_bytes(h) + rest).len() == 24 + rest.len(),
        parse_header(header_bytes(h) + rest) == h,
        (header_bytes(h) + rest).skip(24) == rest,
{
    let s = header_bytes(h) + rest;
    lemma_u32_roundtrip(h.conv);
    lemma_u16_roundtrip(h.wnd);
    lemma_u32_roundtrip(h.ts);
    lemma_u32_roundtrip(h.sn);
    lemma_u32_roundtrip(h.una);
    lemma_u32_roundtrip(h.len);
    assert(s.subrange(0, 4) =~= u32_le(h.conv));
    assert(s.subrange(6, 8) =~= u16_le(h.wnd));
    assert(s.subrange(8, 12) =~= u32_le(h.ts));
    assert(s.subrange(12, 16) =~= u32_le(h.sn));
    assert(s.subrange(16, 20) =~= u32_le(h.una));
    assert(s.subrange(20, 24) =~= u32_le(h.len));
    assert(read_u32_le(s, 0) == read_u32_le(s.subrange(0, 4), 0));
    assert(read_u16_le(s, 6) == read_u16_le(s.subrange(6, 8), 0));
    assert(read_u32_le(s, 8) == read_u32_le(s.subrange(8, 12), 0));
    assert(read_u32_le(s, 12) == read_u32_le(s.subrange(12, 16), 0));
    assert(read_u32_le(s, 16) == read_u32_le(s.subrange(16, 20), 0));
    assert(read_u32_le(s, 20) == read_u32_le(s.subrange(20, 24), 0));
    assert(s.skip(24) =~= rest);
}

/// The parser stops with one of four codes.
pub proof fn lemma_input_code_range(d: Seq<u8>, conv: u32)
    ensures
        input_code(d, conv) == 0 || input_code(d, conv) == -1 || input_code(d, conv) == -2
            || input_code(d, conv) == -3,
    decreases d.len(),
{
    if d.len() >= 24 {
        let h = parse_header(d);
        if h.conv == conv && !(d.len() - 24 < h.len || h.len >= 0x8000_0000) && is_known_cmd(
            h.cmd,
        ) {
            lemma_input_code_range(d.skip(24 + h.len), conv);
        }
    }
}

/// Whole, accepted segments are accepted by the parser of `ikcp_input`.
pub proof fn lemma_segs_exact_input(d: Seq<u8>, conv: u32)
    requires
        segs_exact(d, conv),
    ensures
        input_code(d, conv) == 0,
    decreases d.len(),
{
    if d.len() >= 24 {
        let h = parse_header(d);
        lemma_segs_exact_input(d.skip(24 + h.len), conv);
    }
}

/// The header of `a + x` is the header of `a` when `a` holds one.
pub proof fn lemma_parse_header_prefix(a: Seq<u8>, x: Seq<u8>)
    requires
        a.len() >= 24,
    ensures
        parse_header(a + x) == parse_header(a),
{
    let s = a + x;
    assert(forall|k: int| 0 <= k < 24 ==> s[k] == a[k]);
}

/// Appending one well-formed segment to whole segments gives whole
/// segments.
pub proof fn lemma_segs_exact_append(a: Seq<u8>, h: SegHeader, payload: Seq<u8>, conv: u32)
    requires
        segs_exact(a, conv),
        h.conv == conv,
        is_known_cmd(h.cmd),
        h.len == payload.len(),
        payload.len() < 0x8000_0000,
    ensures
        segs_exact(a + header_bytes(h) + payload, conv),
    decreases a.len(),
{
    let seg = header_bytes(h) + payload;
    lemma_header_roundtrip(h, payload);
    assert(a + header_bytes(h) + payload =~= a + seg);
    if a.len() == 0 {
        assert(a + seg =~= seg);
        assert(seg.skip(24 + h.len) =~= Seq::<u8>::empty());
        assert(segs_exact(Seq::<u8>::empty(), conv));
        assert(parse_header(seg) == h);
        assert(segs_exact(seg, conv));
    } else {
        let ha = parse_header(a);
        lemma_parse_header_prefix(a, seg);
        let rest = a.skip(24 + ha.len);
        lemma_segs_exact_append(rest, h, payload, conv);
        assert((a + seg).skip(24 + ha.len) =~= rest + header_bytes(h) + payload);
        assert(parse_header(a + seg) == ha);
        assert(segs_exact(a + seg, conv));
    }
}

/// Appends the little-endian bytes of `x`.
pub fn encode_u32(out: &mut Vec<u8>, x: u32)
    ensures
        final(out)@ == old(out)@ + u32_le(x),
{
    out.push((x % 256) as u8);
    out.push(((x / 256) % 256) as u8);
    out.push(((x / 65536) % 256) as u8);
    out.push((x / 16777216) as u8);
    proof {
        assert(x / 16777216 < 256) by (bit_vector);
    }
    assert(final(out)@ =~= old(out)@ + u32_le(x));
}

/// Appends the 24 header bytes of `h`.
pub fn encode_header(out: &mut Vec<u8>, h: &SegHeader)
    ensures
        final(out)@ == old(out)@ + header_bytes(*h),
{
    encode_u32(out, h.conv);
    out.push(h.cmd);
    out.push(h.frg);
    out.push((h.wnd % 256) as u8);
    out.push((h.wnd / 256) as u8);
    encode_u32(out, h.ts);
    encode_u32(out, h.sn);
    encode_u32(out, h.una);
    encode_u32(out, h.len);
    proof {
        let w = h.wnd;
        assert(w / 256 < 256) by (bit_vector);
    }
    assert(final(out)@ =~= old(out)@ + header_bytes(*h));
}

/// Reads the little-endian 32-bit value at `data[at..at + 4]`.
pub fn decode_u32(data: &[u8], at: usize) -> (r: u32)
    requires
        at + 4 <= data@.len(),
    ensures
        r == read_u32_le(data@, at as int),
{
    let _n = data.len();
    let b0 = data[at] as u32;
    let b1 = data[at + 1] as u32;
    let b2 = data[at + 2] as u32;
    let b3 = data[at + 3] as u32;
    b0 + b1 * 256 + b2 * 65536 + b3 * 16777216
}

/// Reads the segment header stored at `data[at..at + 24]`.
pub fn decode_header(data: &[u8], at: usize) -> (h: SegHeader)
    requires
        at + 24 <= data@.len(),
    ensures
        h == parse_header(data@.skip(at as int)),
{
    let _n = data.len();
    let wnd = (data[at + 6] as u16) + (data[at + 7] as u16) * 256;
    let h = SegHeader {
        conv: decode_u32(data, at),
        cmd: data[at + 4],
        frg: data[at + 5],
        wnd,
        ts: decode_u32(data, at + 8),
        sn: decode_u32(data, at + 12),
        una: decode_u32(data, at + 16),
        len: decode_u32(data, at + 20),
    };
    let ghost s = data@.skip(at as int);
    assert(h.conv == read_u32_le(s, 0));
    assert(h.ts == read_u32_le(s, 8));
    assert(h.sn == read_u32_le(s, 12));
    assert(h.una == read_u32_le(s, 16));
    assert(h.len == read_u32_le(s, 20));
    assert(h.wnd == read_u16_le(s, 6));
    h
}

/// Reads the conversation id from the first four bytes of a datagram.
pub fn ikcp_getconv(data: &[u8]) -> (conv: u32)
    requires
        data@.len() >= 4,
    ensures
        conv == read_u32_le(data@, 0),
{
    decode_u32(data, 0)
}

/// The conversation id read from a datagram is the one its first header
/// was written with.
pub proof fn lemma_getconv_of_header(h: SegHeader, rest: Seq<u8>)
    ensures
        read_u32_le(header_bytes(h) + rest, 0) == h.conv,
{
    lemma_header_roundtrip(h, rest);
}

} // verus!
