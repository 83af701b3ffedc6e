# kcp_io

KCP, a fast and reliable ARQ protocol over datagrams, with its behaviour
stated in contracts and proved by Verus, and an asynchronous UDP layer on
tokio around it.

## Layout

- `src/sys/` — the KCP control block and its operations: the segment codec
  (`codec`), queueing data for sending (`send`), reading whole messages
  (`recv`), what a received datagram does to the receiving side
  (`deliver`) and to the segments in flight (`acks`), feeding datagrams in
  (`input`), and flushing and timing (`flush`).
- `src/kcp_core/` — `Kcp`, a `Result`-based control block whose emitted
  datagrams collect in an outbox, with its configuration presets and
  error type.
- `src/tokio_rt/` — the decisions of an asynchronous session as plain state
  machines: `KcpSession` (sending, reading, closing, timeouts),
  `KcpStream` and `ReadBuffer` (message and byte-stream reads),
  `SessionRouter` (a listener's routing of datagrams to sessions), and the
  session configuration and errors.
- `app/` — the tokio side: sockets, clocks, tasks and channels that drive
  the state machines (`KcpStream`, `KcpListener`, split halves with
  `AsyncRead`/`AsyncWrite`), and the error types with their
  `std::error::Error` impls.
- `tests/` — scenarios for the engine, the sessions and the router, some of
  them over an in-memory network with simulated loss.

## What is proved

Every public function of `src/` carries a contract. Among the laws proved
there: a message queued on one control block and flushed reaches a peer
fed those datagrams as exactly the pieces that read back as the message,
and the bytes waiting in a sender's queue reach the peer byte for byte,
also in any later round of a lossless exchange with data in flight;
a message or byte stream sent through `Kcp` on a configured control block
(congestion control off) goes out on its first update and reaches the peer
whole, and a send changes nothing of the sender but its queue; a datagram
from anyone but a session's peer acts as a timer tick and does not put off
its timeout;
in stream mode every byte of a send is queued, whatever its size;
a written header reads back unchanged; what a message-mode send
queues reassembles into exactly the sent bytes; every accepted send
appends exactly its bytes to the send queue; every datagram a flush emits
is accepted by a peer on the same conversation; a flush emits exactly the
pending acknowledgements, the asked-for window commands and the due data
segments; an in-order data segment lands at the end of the receive queue;
a cumulative acknowledgement beyond the flight empties it; the next update
is due within one interval; a closed session stays closed to late
retransmissions for a minute; byte-stream reads lose no bytes.
