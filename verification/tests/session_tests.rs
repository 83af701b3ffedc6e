//! Client/server scenarios over an in-memory datagram network: a client
//! stream talks to server streams that a router creates, with a simulated
//! clock and, optionally, simulated loss.

use kcp_io::kcp_core::KcpError;
use kcp_io::tokio_rt::conv::conv_of_seed;
use kcp_io::tokio_rt::{
    KcpSession, KcpSessionConfig, KcpStream, KcpTokioError, PeerAddr, ReadBuffer, ReadStep,
    Route, SessionKey, SessionRouter,
};

/// One millisecond, in the nanoseconds sessions count time in.
const MS: u128 = 1_000_000;

const CLIENT: PeerAddr = PeerAddr::V4 { ip: 0x7f00_0001, port: 40000 };
const SERVER: PeerAddr = PeerAddr::V4 { ip: 0x7f00_0001, port: 9090 };

fn test_config() -> KcpSessionConfig {
    KcpSessionConfig { timeout: Some(5000 * MS), ..KcpSessionConfig::fast() }
}

struct Net {
    now: u128,
    config: KcpSessionConfig,
    client: KcpStream,
    router: SessionRouter<usize>,
    servers: Vec<KcpStream>,
    loss_rate: f64,
    rng: u64,
    dropped: u64,
}

impl Net {
    fn new(config: KcpSessionConfig, conv: u32) -> Net {
        let session = KcpSession::new(conv, SERVER, config).unwrap();
        Net {
            now: 0,
            config,
            client: KcpStream::from_session(session),
            router: SessionRouter::new(),
            servers: Vec::new(),
            loss_rate: 0.0,
            rng: 0x9E37_79B9_7F4A_7C15,
            dropped: 0,
        }
    }

    fn lose(&mut self) -> bool {
        if self.loss_rate == 0.0 {
            return false;
        }
        self.rng ^= self.rng << 13;
        self.rng ^= self.rng >> 7;
        self.rng ^= self.rng << 17;
        let r = (self.rng as f64) / (u64::MAX as f64);
        if r < self.loss_rate {
            self.dropped += 1;
            true
        } else {
            false
        }
    }

    /// Delivers everything in flight and advances the clock by 10 ms.
    fn pump(&mut self) {
        for pkt in self.client.take_output() {
            if self.lose() {
                continue;
            }
            match self.router.route(CLIENT, &pkt, self.now) {
                Route::Drop => {}
                Route::Forward(i) => {
                    let idx = *self.router.get(i).unwrap();
                    self.servers[idx].on_datagram(CLIENT, &pkt, self.now);
                }
                Route::Create(key) => {
                    let session = KcpSession::new(key.conv, key.addr, self.config).unwrap();
                    let mut stream = KcpStream::from_session(session);
                    stream.on_datagram(CLIENT, &pkt, self.now);
                    self.servers.push(stream);
                    self.router.register(key, self.servers.len() - 1);
                }
            }
        }
        let mut back = Vec::new();
        for s in self.servers.iter_mut() {
            back.extend(s.take_output());
        }
        for pkt in back {
            if self.lose() {
                continue;
            }
            self.client.on_datagram(SERVER, &pkt, self.now);
        }
        self.now += 10 * MS;
        self.client.update(self.now);
        for s in self.servers.iter_mut() {
            s.update(self.now);
        }
    }

    fn client_recv(&mut self) -> Vec<u8> {
        for _ in 0..20000 {
            match self.client.recv_kcp_step(self.now) {
                Some(Ok(v)) => return v,
                Some(Err(e)) => panic!("client recv failed: {:?}", e),
                None => self.pump(),
            }
        }
        panic!("client received nothing");
    }

    fn server_recv(&mut self) -> Vec<u8> {
        for _ in 0..20000 {
            if let Some(s) = self.servers.first_mut() {
                match s.recv_kcp_step(self.now) {
                    Some(Ok(v)) => return v,
                    Some(Err(e)) => panic!("server recv failed: {:?}", e),
                    None => {}
                }
            }
            self.pump();
        }
        panic!("server received nothing");
    }

    fn server_send(&mut self, data: &[u8]) {
        self.servers[0].send_kcp(data).unwrap();
    }
}

#[test]
fn test_client_server_basic_communication() {
    let mut net = Net::new(test_config(), 0x12345678);
    let msg = b"Hello, KCP server!";
    net.client.send_kcp(msg).unwrap();
    let data = net.server_recv();
    net.server_send(&data);
    assert_eq!(net.servers[0].conv(), 0x12345678);
    assert_eq!(net.servers[0].remote_addr(), CLIENT);
    let data = net.client_recv();
    assert_eq!(&data, msg);
}

#[test]
fn test_recv_kcp_auto_small_message() {
    let mut net = Net::new(test_config(), 0xA001);
    net.client.send_kcp(b"ping").unwrap();
    let data = net.server_recv();
    net.server_send(b"hello");
    assert_eq!(&data, b"ping");
    let data = net.client_recv();
    assert_eq!(data, b"hello");
    assert_eq!(data.len(), 5, "Auto buffer should be exactly 5 bytes");
}

#[test]
fn test_recv_kcp_auto_large_message() {
    let mut net = Net::new(test_config(), 0xA002);
    let large_msg: Vec<u8> = (0..8000u16).map(|i| (i % 256) as u8).collect();
    net.client.send_kcp(b"go").unwrap();
    let _ = net.server_recv();
    net.server_send(&large_msg);
    let data = net.client_recv();
    assert_eq!(data.len(), 8000, "Auto buffer should be exactly 8000 bytes");
    assert_eq!(data, large_msg);
}

#[test]
fn test_recv_kcp_auto_varying_sizes() {
    let mut net = Net::new(test_config(), 0xA003);
    let responses: Vec<Vec<u8>> =
        vec![b"A".to_vec(), vec![0xBB; 100], vec![0xCC; 5000], b"end".to_vec()];
    let requests = [b"req1", b"req2", b"req3", b"req4"];
    for (req, resp) in requests.iter().zip(responses.iter()) {
        net.client.send_kcp(*req).unwrap();
        let _ = net.server_recv();
        net.server_send(resp);
        let data = net.client_recv();
        assert_eq!(data.len(), resp.len());
        assert_eq!(&data, resp);
    }
}

#[test]
fn test_recv_kcp_buf_too_small_returns_error() {
    let mut net = Net::new(test_config(), 0xA005);
    net.client.send_kcp(b"go").unwrap();
    let _ = net.server_recv();
    net.server_send(&[0xEE; 200]);
    // Wait until the whole message is queued at the client.
    let mut small_buf = [0u8; 10];
    let mut result = None;
    for _ in 0..1000 {
        match net.client.recv_kcp_buf_step(&mut small_buf, net.now) {
            None => net.pump(),
            Some(r) => {
                result = Some(r);
                break;
            }
        }
    }
    match result {
        Some(Err(KcpTokioError::Kcp(KcpError::RecvBufferTooSmall { need, got }))) => {
            assert_eq!(need, 200);
            assert_eq!(got, 10);
        }
        other => panic!("recv_kcp_buf should fail when buffer is smaller than message: {:?}", other),
    }
    let data = net.client_recv();
    assert_eq!(data.len(), 200);
    assert_eq!(data, vec![0xEE; 200]);
}

fn run_packet_loss_test(loss_rate: f64, message_count: usize) {
    let mut config = KcpSessionConfig::fast();
    config.timeout = Some(30000 * MS);
    config.kcp_config.snd_wnd = 256;
    config.kcp_config.rcv_wnd = 256;
    let mut net = Net::new(config, 0xDEAD);
    net.loss_rate = loss_rate;
    for i in 0..message_count {
        let msg = format!("loss-test-msg-{:04}", i);
        net.client.send_kcp(msg.as_bytes()).unwrap();
        let data = net.server_recv();
        net.server_send(&data);
        let data = net.client_recv();
        assert_eq!(&data, msg.as_bytes(), "Message {} corrupted or lost", i);
    }
    if loss_rate > 0.0 {
        assert!(net.dropped > 0);
    }
}

#[test]
fn test_reliability_under_10_percent_packet_loss() {
    run_packet_loss_test(0.10, 20);
}

#[test]
fn test_reliability_under_30_percent_packet_loss() {
    run_packet_loss_test(0.30, 20);
}

#[test]
fn test_reliability_under_50_percent_packet_loss() {
    run_packet_loss_test(0.50, 10);
}

#[test]
fn test_split_close_from_write_half() {
    let mut net = Net::new(test_config(), 0x600);
    net.client.send_kcp(b"before-close").unwrap();
    net.client.close();
    assert!(net.client.is_closed());
    assert!(matches!(net.client.send_kcp(b"after-close"), Err(KcpTokioError::Closed)));
    assert!(matches!(net.client.recv_kcp_step(net.now), Some(Err(KcpTokioError::Closed))));
}

#[test]
fn test_bidirectional_communication() {
    let mut net = Net::new(test_config(), 0x100);
    net.client.send_kcp(b"Hello from client").unwrap();
    let data = net.server_recv();
    assert_eq!(&data, b"Hello from client");
    net.server_send(b"Hello from server");
    let data = net.client_recv();
    assert_eq!(&data, b"Hello from server");
}

#[test]
fn test_large_data_transfer() {
    let mut config = test_config();
    config.kcp_config.stream_mode = true;
    config.kcp_config.snd_wnd = 512;
    config.kcp_config.rcv_wnd = 512;
    let mut net = Net::new(config, 0x200);
    let large_data: Vec<u8> = (0..2048u16).map(|i| (i % 256) as u8).collect();
    net.client.send_kcp(&large_data).unwrap();
    let mut total_recv = Vec::new();
    while total_recv.len() < large_data.len() {
        let data = net.server_recv();
        total_recv.extend_from_slice(&data);
    }
    assert_eq!(total_recv.len(), large_data.len());
    assert_eq!(&total_recv, &large_data);
    net.server_send(&total_recv);
    let mut back = Vec::new();
    while back.len() < large_data.len() {
        let data = net.client_recv();
        back.extend_from_slice(&data);
    }
    assert_eq!(back.len(), large_data.len());
    assert_eq!(&back, &large_data);
}

#[test]
fn test_multiple_messages() {
    let mut net = Net::new(test_config(), 0x300);
    let messages = [b"First message" as &[u8], b"Second message", b"Third message"];
    for msg in &messages {
        net.client.send_kcp(msg).unwrap();
        let data = net.server_recv();
        net.server_send(&data);
        let data = net.client_recv();
        assert_eq!(&data, *msg);
    }
}

#[test]
fn session_times_out_without_input() {
    let mut session = KcpSession::new(7, SERVER, test_config()).unwrap();
    assert!(!session.is_timed_out(5000 * MS));
    assert!(session.is_timed_out(5000 * MS + 1));
    let mut buf = [0u8; 16];
    assert!(session.recv_step(&mut buf, 1000 * MS).is_none());
    match session.recv_step(&mut buf, 6000 * MS) {
        Some(Err(KcpTokioError::Timeout)) => {}
        other => panic!("expected Timeout, got {:?}", other),
    }
    assert!(session.is_closed());
    match session.recv_step(&mut buf, 6000 * MS) {
        Some(Err(KcpTokioError::Closed)) => {}
        other => panic!("expected Closed, got {:?}", other),
    }
}

#[test]
fn session_input_postpones_timeout() {
    let mut session = KcpSession::new(7, SERVER, test_config()).unwrap();
    // Too short for a header: refused, but it still counts as an arrival.
    assert!(session.input(&[1, 2, 3], 4000 * MS).is_err());
    assert!(!session.is_timed_out(9000 * MS));
    assert!(session.is_timed_out(9001 * MS));
    // A datagram from elsewhere does not count.
    assert!(!session.on_datagram(CLIENT, &[0u8; 24], 8000 * MS));
    assert!(session.is_timed_out(9001 * MS));
}

#[test]
fn session_without_timeout_never_times_out() {
    let session = KcpSession::new(7, SERVER, KcpSessionConfig::default()).unwrap();
    assert!(!session.is_timed_out(u128::MAX));
}

#[test]
fn session_refuses_bad_mtu() {
    let mut config = test_config();
    config.kcp_config.mtu = 10;
    match KcpSession::new(1, SERVER, config) {
        Err(KcpTokioError::Kcp(KcpError::SetMtuFailed { mtu, code })) => {
            assert_eq!(mtu, 10);
            assert_eq!(code, -1);
        }
        _ => panic!("expected SetMtuFailed"),
    }
}

#[test]
fn session_update_uses_low_clock_bits() {
    let mut session = KcpSession::new(7, SERVER, test_config()).unwrap();
    session.send(b"x").unwrap();
    let _ = session.take_output();
    session.update(0x1_0000_0010 * MS);
    assert_eq!(session.conv(), 7);
    assert_eq!(session.remote_addr(), SERVER);
    assert_eq!(session.config().flush_interval, 10 * MS);
}

#[test]
fn session_send_flushes_when_configured() {
    let mut flushing = KcpSession::new(7, SERVER, test_config()).unwrap();
    flushing.update(10 * MS);
    let _ = flushing.take_output();
    assert_eq!(flushing.send(b"data").unwrap(), 4);
    assert!(!flushing.take_output().is_empty());

    let mut config = test_config();
    config.flush_write = false;
    let mut lazy = KcpSession::new(7, SERVER, config).unwrap();
    lazy.update(10 * MS);
    let _ = lazy.take_output();
    assert_eq!(lazy.send(b"data").unwrap(), 4);
    assert!(lazy.take_output().is_empty());
    assert_eq!(lazy.waitsnd(), 1);
}

#[test]
fn try_recv_auto_sizes_to_message() {
    let mut a = KcpSession::new(9, SERVER, test_config()).unwrap();
    let mut b = KcpSession::new(9, CLIENT, test_config()).unwrap();
    a.update(10 * MS);
    b.update(10 * MS);
    assert!(matches!(b.try_recv_auto(), Err(KcpTokioError::Kcp(KcpError::RecvWouldBlock))));
    a.send(&[7u8; 3000]).unwrap();
    for pkt in a.take_output() {
        b.input(&pkt, 20 * MS).unwrap();
    }
    let v = b.try_recv_auto().unwrap();
    assert_eq!(v, vec![7u8; 3000]);
}

#[test]
fn read_buffer_hands_out_message_in_pieces() {
    let mut a = KcpSession::new(9, SERVER, test_config()).unwrap();
    let mut b = KcpSession::new(9, CLIENT, test_config()).unwrap();
    a.update(10 * MS);
    a.send(b"abcdefghij").unwrap();
    for pkt in a.take_output() {
        b.input(&pkt, 20 * MS).unwrap();
    }
    let mut reader = ReadBuffer::new(64);
    assert!(!reader.has_pending());
    match reader.read_step(&mut b, 4, 30 * MS) {
        ReadStep::Data(v) => assert_eq!(v, b"abcd"),
        _ => panic!("expected data"),
    }
    assert!(reader.has_pending());
    match reader.read_step(&mut b, 4, 30 * MS) {
        ReadStep::Data(v) => assert_eq!(v, b"efgh"),
        _ => panic!("expected data"),
    }
    match reader.read_step(&mut b, 100, 30 * MS) {
        ReadStep::Data(v) => assert_eq!(v, b"ij"),
        _ => panic!("expected data"),
    }
    assert!(matches!(reader.read_step(&mut b, 100, 30 * MS), ReadStep::Pending));
    b.close();
    assert!(matches!(reader.read_step(&mut b, 100, 30 * MS), ReadStep::End));
}

#[test]
fn byte_stream_read_times_out() {
    let mut b = KcpSession::new(9, CLIENT, test_config()).unwrap();
    let mut reader = ReadBuffer::new(64);
    assert!(matches!(reader.read_step(&mut b, 10, 5000 * MS), ReadStep::Pending));
    assert!(!b.is_closed());
    match reader.read_step(&mut b, 10, 5001 * MS) {
        ReadStep::Failed(KcpTokioError::Timeout) => {}
        _ => panic!("expected Timeout"),
    }
    assert!(b.is_closed());
    assert!(matches!(reader.read_step(&mut b, 10, 5002 * MS), ReadStep::End));
}

#[test]
fn read_buffer_refuses_message_larger_than_capacity() {
    let mut a = KcpSession::new(9, SERVER, test_config()).unwrap();
    let mut b = KcpSession::new(9, CLIENT, test_config()).unwrap();
    a.update(10 * MS);
    a.send(&[1u8; 100]).unwrap();
    for pkt in a.take_output() {
        b.input(&pkt, 20 * MS).unwrap();
    }
    let mut reader = ReadBuffer::new(50);
    match reader.read_step(&mut b, 1000, 30 * MS) {
        ReadStep::Failed(KcpTokioError::Kcp(KcpError::RecvBufferTooSmall { need, got })) => {
            assert_eq!(need, 100);
            assert_eq!(got, 50);
        }
        _ => panic!("expected RecvBufferTooSmall"),
    }
}

fn header_with_conv(conv: u32) -> Vec<u8> {
    let mut p = vec![0u8; 24];
    p[0..4].copy_from_slice(&conv.to_le_bytes());
    p[4] = 81;
    p
}

#[test]
fn router_drops_short_packets() {
    let mut router: SessionRouter<u8> = SessionRouter::new();
    assert!(matches!(router.route(CLIENT, &[0u8; 23], 0), Route::Drop));
    assert_eq!(router.len(), 0);
}

#[test]
fn router_creates_then_forwards() {
    let mut router: SessionRouter<u8> = SessionRouter::new();
    let pkt = header_with_conv(0x55);
    let key = match router.route(CLIENT, &pkt, 0) {
        Route::Create(k) => k,
        _ => panic!("expected Create"),
    };
    assert_eq!(key, SessionKey { addr: CLIENT, conv: 0x55 });
    router.register(key, 42);
    match router.route(CLIENT, &pkt, 5 * MS) {
        Route::Forward(i) => assert_eq!(router.get(i), Some(&42)),
        _ => panic!("expected Forward"),
    }
    // Another conversation from the same peer is another session.
    assert!(matches!(router.route(CLIENT, &header_with_conv(0x56), 5 * MS), Route::Create(_)));
    // The same conversation from another peer too.
    assert!(matches!(router.route(SERVER, &pkt, 5 * MS), Route::Create(_)));
}

#[test]
fn router_remembers_closed_sessions_for_a_minute() {
    let mut router: SessionRouter<u8> = SessionRouter::new();
    let pkt = header_with_conv(7);
    let key = SessionKey { addr: CLIENT, conv: 7 };
    router.register(key, 1);
    router.forward_failed(key, 1000 * MS);
    assert_eq!(router.len(), 0);
    assert!(matches!(router.route(CLIENT, &pkt, 1000 * MS), Route::Drop));
    assert!(matches!(router.route(CLIENT, &pkt, 61000 * MS - 1), Route::Drop));
    assert!(matches!(router.route(CLIENT, &pkt, 61000 * MS), Route::Create(_)));
    // Once let through, the key is forgotten as closed.
    assert!(matches!(router.route(CLIENT, &pkt, 61001 * MS), Route::Create(_)));
}

#[test]
fn router_forgets_expired_entries_past_the_limit() {
    let mut router: SessionRouter<u8> = SessionRouter::new();
    for c in 0..101u32 {
        let key = SessionKey { addr: CLIENT, conv: c };
        router.register(key, 0);
        router.forward_failed(key, 0);
    }
    // Recently closed at 30 s: dropped.
    assert!(matches!(router.route(CLIENT, &header_with_conv(5), 30000 * MS), Route::Drop));
    // At 100 s everything has expired; a new key prunes the rest.
    assert!(matches!(router.route(CLIENT, &header_with_conv(500), 100000 * MS), Route::Create(_)));
    assert!(matches!(router.route(CLIENT, &header_with_conv(5), 100000 * MS), Route::Create(_)));
}

#[test]
fn local_bind_matches_family() {
    let v6 = PeerAddr::V6 { ip: 1, port: 9, flowinfo: 2, scope_id: 3 };
    assert_eq!(v6.local_bind_for(), PeerAddr::V6 { ip: 0, port: 0, flowinfo: 0, scope_id: 0 });
    assert_eq!(SERVER.local_bind_for(), PeerAddr::V4 { ip: 0, port: 0 });
}

#[test]
fn session_error_messages() {
    assert_eq!(KcpTokioError::Timeout.message(), "session timed out");
    assert_eq!(KcpTokioError::Closed.message(), "session closed");
    assert_eq!(
        KcpTokioError::ConnectionFailed("could not resolve address".to_string()).message(),
        "connection failed: could not resolve address"
    );
    assert_eq!(
        KcpTokioError::Kcp(KcpError::InputFailed(-3)).message(),
        "KCP error: input failed (error code: -3)"
    );
    assert_eq!(
        KcpTokioError::Kcp(KcpError::ConvMismatch { expected: 1, got: 2 }).message(),
        "KCP error: conversation ID mismatch (expected 1, got 2)"
    );
    let io = std::io::Error::new(std::io::ErrorKind::Other, "boom");
    assert_eq!(KcpTokioError::Io(io).message(), "IO error: boom");
}

#[test]
fn rand_conv_varies_with_the_clock() {
    let a = kcp_io::tokio_rt::rand_conv();
    let mut differs = false;
    for _ in 0..1000 {
        if kcp_io::tokio_rt::rand_conv() != a {
            differs = true;
            break;
        }
    }
    assert!(differs);
}

#[test]
fn conv_mixes_the_seed() {
    assert_eq!(conv_of_seed(0), 0);
    assert_eq!(conv_of_seed(0x1_0000_0001), 0x1_0000);
    assert_eq!(conv_of_seed(0xABCD), 0xABCD);
}

#[test]
fn test_recv_kcp_auto_split_half() {
    let mut net = Net::new(test_config(), 0xA004);
    // The session and the read buffer of a stream come apart and back
    // together without losing state.
    let client = std::mem::replace(
        &mut net.client,
        KcpStream::from_session(KcpSession::new(0, SERVER, test_config()).unwrap()),
    );
    let (session, reader) = client.into_parts();
    assert!(!reader.has_pending());
    assert_eq!(session.conv(), 0xA004);
    net.client = KcpStream::from_session(session);

    net.client.send_kcp(b"req1").unwrap();
    let _ = net.server_recv();
    net.server_send(&vec![0xDD; 3000]);
    let data = net.client_recv();
    assert_eq!(data.len(), 3000);
    assert_eq!(data, vec![0xDD; 3000]);

    net.client.send_kcp(b"req2").unwrap();
    let _ = net.server_recv();
    net.server_send(b"tiny");
    let data = net.client_recv();
    assert_eq!(data.len(), 4);
    assert_eq!(data, b"tiny");
}

#[test]
fn stream_reads_bytes_in_small_pieces() {
    let mut net = Net::new(test_config(), 0xB001);
    net.client.send_kcp(b"hello").unwrap();
    let _ = net.server_recv();
    net.server_send(b"abcdefghij");
    let mut got = Vec::new();
    for _ in 0..2000 {
        match net.client.read_step(3, net.now) {
            ReadStep::Data(v) => {
                assert!(v.len() <= 3);
                got.extend_from_slice(&v);
                if got.len() == 10 {
                    break;
                }
            }
            ReadStep::Pending => net.pump(),
            ReadStep::End => panic!("unexpected end"),
            ReadStep::Failed(e) => panic!("read failed: {:?}", e),
        }
    }
    assert_eq!(got, b"abcdefghij");
    net.client.close();
    assert!(matches!(net.client.read_step(3, net.now), ReadStep::End));
}

#[test]
fn stream_flush_sends_at_once() {
    let mut config = test_config();
    config.flush_write = false;
    let mut s = KcpStream::from_session(KcpSession::new(3, SERVER, config).unwrap());
    s.update(10 * MS);
    let _ = s.take_output();
    assert_eq!(s.send_kcp(b"data").unwrap(), 4);
    // Before the flush deadline an update sends nothing...
    s.update(12 * MS);
    assert!(s.take_output().is_empty());
    // ...but a flush sends at once.
    s.flush(13 * MS);
    let out = s.take_output();
    assert_eq!(out.len(), 1);
    assert_eq!(&out[0][24..], b"data");
}

#[test]
fn stranger_datagram_is_not_fed() {
    let mut peer = kcp_io::Kcp::with_config(7, &kcp_io::KcpConfig::fast()).unwrap();
    assert_eq!(peer.send(b"hi").unwrap(), 2);
    peer.update(0);
    let pkts = peer.take_output();
    assert!(!pkts.is_empty());
    let mut session = KcpSession::new(7, SERVER, test_config()).unwrap();
    for p in &pkts {
        assert!(!session.on_datagram(CLIENT, p, 10 * MS));
    }
    let mut buf = [0u8; 16];
    assert!(matches!(
        session.try_recv(&mut buf),
        Err(KcpTokioError::Kcp(KcpError::RecvWouldBlock))
    ));
    for p in &pkts {
        assert!(session.on_datagram(SERVER, p, 20 * MS));
    }
    assert_eq!(session.try_recv(&mut buf).unwrap(), 2);
    assert_eq!(&buf[..2], b"hi");
}
