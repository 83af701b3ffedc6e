//! Tests of the `Kcp` wrapper and its configuration presets.

use kcp_io::{Kcp, KcpConfig, KcpError};

/// Moves every datagram `from` emitted into `to`.
fn deliver(from: &mut Kcp, to: &mut Kcp) {
    for pkt in from.take_output() {
        to.input(&pkt).unwrap();
    }
}

#[test]
fn test_create_and_drop() {
    let _kcp = Kcp::new(1).unwrap();
}

#[test]
fn test_create_with_config() {
    let config = KcpConfig::fast();
    let kcp = Kcp::with_config(1, &config).unwrap();
    assert_eq!(kcp.conv(), 1);
}

#[test]
fn test_conv() {
    let kcp = Kcp::new(0xDEADBEEF).unwrap();
    assert_eq!(kcp.conv(), 0xDEADBEEF);
}

#[test]
fn test_default_config() {
    let config = KcpConfig::default();
    assert!(!config.nodelay);
    assert_eq!(config.interval, 100);
    assert_eq!(config.resend, 0);
    assert!(!config.nc);
    assert_eq!(config.mtu, 1400);
    assert_eq!(config.snd_wnd, 32);
    assert_eq!(config.rcv_wnd, 128);
    assert!(!config.stream_mode);
}

#[test]
fn test_fast_config() {
    let config = KcpConfig::fast();
    assert!(config.nodelay);
    assert_eq!(config.interval, 10);
    assert_eq!(config.resend, 2);
    assert!(config.nc);
    assert_eq!(config.snd_wnd, 128);
    assert_eq!(config.rcv_wnd, 128);
}

#[test]
fn test_normal_config() {
    let config = KcpConfig::normal();
    assert!(config.nodelay);
    assert_eq!(config.interval, 40);
    assert_eq!(config.resend, 2);
    assert!(!config.nc);
}

#[test]
fn test_apply_config() {
    let mut kcp = Kcp::new(1).unwrap();
    let config = KcpConfig {
        mtu: 1200,
        snd_wnd: 256,
        rcv_wnd: 256,
        stream_mode: true,
        ..KcpConfig::fast()
    };
    kcp.apply_config(&config).unwrap();
    assert!(kcp.is_stream_mode());
}

#[test]
fn kcp_tests_test_set_mtu() {
    let mut kcp = Kcp::new(1).unwrap();
    kcp.set_mtu(1200).unwrap();
}

#[test]
fn test_set_mtu_too_small() {
    let mut kcp = Kcp::new(1).unwrap();
    let result = kcp.set_mtu(10);
    assert!(result.is_err());
    match result.unwrap_err() {
        KcpError::SetMtuFailed { mtu, .. } => assert_eq!(mtu, 10),
        other => panic!("Expected SetMtuFailed, got {:?}", other),
    }
}

#[test]
fn test_stream_mode() {
    let mut kcp = Kcp::new(1).unwrap();
    assert!(!kcp.is_stream_mode());
    kcp.set_stream_mode(true);
    assert!(kcp.is_stream_mode());
    kcp.set_stream_mode(false);
    assert!(!kcp.is_stream_mode());
}

#[test]
fn test_send_increases_waitsnd() {
    let mut kcp = Kcp::new(1).unwrap();
    assert_eq!(kcp.waitsnd(), 0);
    kcp.send(b"hello").unwrap();
    assert!(kcp.waitsnd() > 0);
}

#[test]
fn kcp_tests_test_peeksize_empty() {
    let kcp = Kcp::new(1).unwrap();
    match kcp.peeksize() {
        Err(KcpError::RecvWouldBlock) => {}
        other => panic!("Expected RecvWouldBlock, got {:?}", other),
    }
}

#[test]
fn test_recv_empty() {
    let mut kcp = Kcp::new(1).unwrap();
    let mut recv_buf = [0u8; 1024];
    match kcp.recv(&mut recv_buf) {
        Err(KcpError::RecvWouldBlock) => {}
        other => panic!("Expected RecvWouldBlock, got {:?}", other),
    }
}

#[test]
fn test_loopback_message_mode() {
    let mut kcp_a = Kcp::new(0x01).unwrap();
    let mut kcp_b = Kcp::new(0x01).unwrap();
    kcp_a.apply_config(&KcpConfig::fast()).unwrap();
    kcp_b.apply_config(&KcpConfig::fast()).unwrap();

    let msg = b"Hello from A to B!";
    kcp_a.send(msg).unwrap();

    let mut current: u32 = 0;
    let mut received = false;
    for _ in 0..200 {
        current += 10;
        kcp_a.update(current);
        kcp_b.update(current);
        deliver(&mut kcp_a, &mut kcp_b);
        deliver(&mut kcp_b, &mut kcp_a);
        let mut recv_buf = [0u8; 1024];
        match kcp_b.recv(&mut recv_buf) {
            Ok(n) => {
                assert_eq!(&recv_buf[..n], msg);
                received = true;
                break;
            }
            Err(KcpError::RecvWouldBlock) => continue,
            Err(e) => panic!("Unexpected error: {:?}", e),
        }
    }
    assert!(received, "B should have received the message from A");
}

#[test]
fn test_loopback_bidirectional() {
    let mut kcp_a = Kcp::new(0x02).unwrap();
    let mut kcp_b = Kcp::new(0x02).unwrap();
    kcp_a.apply_config(&KcpConfig::fast()).unwrap();
    kcp_b.apply_config(&KcpConfig::fast()).unwrap();

    let msg_a = b"Message from A";
    let msg_b = b"Message from B";
    kcp_a.send(msg_a).unwrap();
    kcp_b.send(msg_b).unwrap();

    let mut current: u32 = 0;
    let mut a_received = false;
    let mut b_received = false;
    for _ in 0..200 {
        current += 10;
        kcp_a.update(current);
        kcp_b.update(current);
        deliver(&mut kcp_a, &mut kcp_b);
        deliver(&mut kcp_b, &mut kcp_a);
        if !b_received {
            let mut recv_buf = [0u8; 1024];
            if let Ok(n) = kcp_b.recv(&mut recv_buf) {
                assert_eq!(&recv_buf[..n], msg_a);
                b_received = true;
            }
        }
        if !a_received {
            let mut recv_buf = [0u8; 1024];
            if let Ok(n) = kcp_a.recv(&mut recv_buf) {
                assert_eq!(&recv_buf[..n], msg_b);
                a_received = true;
            }
        }
        if a_received && b_received {
            break;
        }
    }
    assert!(a_received, "A should have received message from B");
    assert!(b_received, "B should have received message from A");
}

#[test]
fn test_loopback_stream_mode() {
    let mut kcp_a = Kcp::new(0x03).unwrap();
    let mut kcp_b = Kcp::new(0x03).unwrap();
    let mut config = KcpConfig::fast();
    config.stream_mode = true;
    kcp_a.apply_config(&config).unwrap();
    kcp_b.apply_config(&config).unwrap();
    assert!(kcp_a.is_stream_mode());
    assert!(kcp_b.is_stream_mode());

    kcp_a.send(b"AAA").unwrap();
    kcp_a.send(b"BBB").unwrap();
    kcp_a.send(b"CCC").unwrap();

    let mut current: u32 = 0;
    let mut total_received = Vec::new();
    for _ in 0..200 {
        current += 10;
        kcp_a.update(current);
        kcp_b.update(current);
        deliver(&mut kcp_a, &mut kcp_b);
        deliver(&mut kcp_b, &mut kcp_a);
        let mut recv_buf = [0u8; 1024];
        while let Ok(n) = kcp_b.recv(&mut recv_buf) {
            total_received.extend_from_slice(&recv_buf[..n]);
        }
        if total_received.len() >= 9 {
            break;
        }
    }
    assert_eq!(&total_received, b"AAABBBCCC");
}

#[test]
fn test_large_data_fragmentation() {
    let mut kcp_a = Kcp::new(0x04).unwrap();
    let mut kcp_b = Kcp::new(0x04).unwrap();
    kcp_a.apply_config(&KcpConfig::fast()).unwrap();
    kcp_b.apply_config(&KcpConfig::fast()).unwrap();

    let large_msg: Vec<u8> = (0..5000u16).map(|i| (i % 256) as u8).collect();
    kcp_a.send(&large_msg).unwrap();

    let mut current: u32 = 0;
    let mut received = false;
    for _ in 0..500 {
        current += 10;
        kcp_a.update(current);
        kcp_b.update(current);
        deliver(&mut kcp_a, &mut kcp_b);
        deliver(&mut kcp_b, &mut kcp_a);
        let mut recv_buf = vec![0u8; 8192];
        if let Ok(n) = kcp_b.recv(&mut recv_buf) {
            assert_eq!(n, large_msg.len());
            assert_eq!(&recv_buf[..n], &large_msg[..]);
            received = true;
            break;
        }
    }
    assert!(received, "Should have received the large fragmented message");
}

#[test]
fn test_get_conv_from_packet() {
    let mut kcp_a = Kcp::new(0xAABBCCDD).unwrap();
    kcp_a.apply_config(&KcpConfig::fast()).unwrap();
    kcp_a.send(b"test").unwrap();
    kcp_a.update(100);
    let packets = kcp_a.take_output();
    assert!(!packets.is_empty(), "Should have generated output packets");
    let conv = Kcp::get_conv(&packets[0]);
    assert_eq!(conv, 0xAABBCCDD);
}

#[test]
fn test_output_callback_called() {
    let mut kcp = Kcp::new(1).unwrap();
    kcp.apply_config(&KcpConfig::fast()).unwrap();
    kcp.send(b"hello").unwrap();
    kcp.update(100);
    let call_count = kcp.take_output().len();
    assert!(call_count > 0, "Output callback should have been called");
}

#[test]
fn test_error_display() {
    let err = KcpError::SendFailed(-1);
    assert_eq!(err.message(), "send failed (error code: -1)");

    let err = KcpError::RecvWouldBlock;
    assert_eq!(err.message(), "no data available to receive (would block)");

    let err = KcpError::RecvBufferTooSmall { need: 100, got: 50 };
    assert_eq!(
        err.message(),
        "receive buffer too small (need 100 bytes, got 50 bytes)"
    );

    let err = KcpError::SetMtuFailed { mtu: 10, code: -1 };
    assert_eq!(err.message(), "failed to set MTU to 10 (error code: -1)");
}

#[test]
fn acknowledgement_empties_flight() {
    let mut a = Kcp::new(7).unwrap();
    let mut b = Kcp::new(7).unwrap();
    a.apply_config(&KcpConfig::fast()).unwrap();
    a.send(b"ping").unwrap();
    assert_eq!(a.waitsnd(), 1);
    a.update(0);
    b.update(0);
    deliver(&mut a, &mut b);
    // Still in flight until the acknowledgement comes back.
    assert_eq!(a.waitsnd(), 1);
    b.flush();
    deliver(&mut b, &mut a);
    assert_eq!(a.waitsnd(), 0);
}

#[test]
fn single_datagram_is_delivered_whole() {
    let mut a = Kcp::new(9).unwrap();
    let mut b = Kcp::new(9).unwrap();
    a.apply_config(&KcpConfig::fast()).unwrap();
    a.send(b"abc").unwrap();
    a.update(0);
    let out = a.take_output();
    assert_eq!(out.len(), 1);
    // 24-byte header followed by the payload.
    assert_eq!(out[0].len(), 24 + 3);
    assert_eq!(&out[0][24..], b"abc");
    b.input(&out[0]).unwrap();
    assert_eq!(b.peeksize().unwrap(), 3);
    let mut buf = [0u8; 8];
    assert_eq!(b.recv(&mut buf).unwrap(), 3);
    assert_eq!(&buf[..3], b"abc");
}

#[test]
fn message_fragments_reassemble() {
    let mut a = Kcp::new(5).unwrap();
    let mut b = Kcp::new(5).unwrap();
    a.apply_config(&KcpConfig::fast()).unwrap();
    a.set_mtu(100).unwrap();
    let msg: Vec<u8> = (0..300u16).map(|i| (i % 251) as u8).collect();
    a.send(&msg).unwrap();
    // 300 bytes in segments of at most 76 bytes: four fragments.
    assert_eq!(a.waitsnd(), 4);
    a.update(0);
    for pkt in a.take_output() {
        assert!(pkt.len() >= 24 && pkt.len() <= 100);
        b.input(&pkt).unwrap();
    }
    assert_eq!(b.peeksize().unwrap(), 300);
    let mut small = [0u8; 100];
    match b.recv(&mut small) {
        Err(KcpError::RecvBufferTooSmall { need, got }) => {
            assert_eq!(need, 300);
            assert_eq!(got, 100);
        }
        other => panic!("expected RecvBufferTooSmall, got {:?}", other),
    }
    let mut buf = vec![0u8; 400];
    assert_eq!(b.recv(&mut buf).unwrap(), 300);
    assert_eq!(&buf[..300], &msg[..]);
}

#[test]
fn input_refuses_foreign_and_short_datagrams() {
    let mut a = Kcp::new(1).unwrap();
    let mut b = Kcp::new(2).unwrap();
    a.apply_config(&KcpConfig::fast()).unwrap();
    a.send(b"x").unwrap();
    a.update(0);
    let out = a.take_output();
    match b.input(&out[0]) {
        Err(KcpError::InputFailed(code)) => assert_eq!(code, -1),
        other => panic!("expected InputFailed(-1), got {:?}", other),
    }
    match b.input(&[0u8; 10]) {
        Err(KcpError::InputFailed(code)) => assert_eq!(code, -1),
        other => panic!("expected InputFailed(-1), got {:?}", other),
    }
    // A header announcing more payload than the datagram holds.
    let mut bad = out[0].clone();
    bad[0..4].copy_from_slice(&2u32.to_le_bytes());
    bad.truncate(25);
    bad[20..24].copy_from_slice(&10u32.to_le_bytes());
    match b.input(&bad) {
        Err(KcpError::InputFailed(code)) => assert_eq!(code, -2),
        other => panic!("expected InputFailed(-2), got {:?}", other),
    }
    // An unknown command.
    let mut unknown = out[0].clone();
    unknown[0..4].copy_from_slice(&2u32.to_le_bytes());
    unknown[4] = 99;
    match b.input(&unknown) {
        Err(KcpError::InputFailed(code)) => assert_eq!(code, -3),
        other => panic!("expected InputFailed(-3), got {:?}", other),
    }
}

#[test]
fn check_is_within_one_interval() {
    let mut kcp = Kcp::new(1).unwrap();
    assert_eq!(kcp.check(1234), 1234);
    kcp.update(1000);
    let next = kcp.check(1000);
    assert!(next >= 1000 && next <= 1100);
}

#[test]
fn send_refuses_too_many_fragments() {
    let mut kcp = Kcp::new(1).unwrap();
    // 128 or more fragments of 1376 bytes do not fit the receive window.
    let big = vec![0u8; 1376 * 128];
    match kcp.send(&big) {
        Err(KcpError::SendFailed(code)) => assert_eq!(code, -2),
        other => panic!("expected SendFailed(-2), got {:?}", other),
    }
    assert_eq!(kcp.waitsnd(), 0);
    let fits = vec![0u8; 1376 * 127];
    assert_eq!(kcp.send(&fits).unwrap(), 1376 * 127);
    assert_eq!(kcp.waitsnd(), 127);
}

#[test]
fn with_config_applies_every_parameter() {
    let config = KcpConfig { mtu: 576, snd_wnd: 64, rcv_wnd: 16, ..KcpConfig::fast() };
    let kcp = Kcp::with_config(3, &config).unwrap();
    assert_eq!(kcp.conv(), 3);
    assert!(!kcp.is_stream_mode());
    let bad = KcpConfig { mtu: 49, ..KcpConfig::default() };
    match Kcp::with_config(3, &bad) {
        Err(KcpError::SetMtuFailed { mtu, code }) => {
            assert_eq!(mtu, 49);
            assert_eq!(code, -1);
        }
        _ => panic!("expected SetMtuFailed"),
    }
}

#[test]
fn stream_mode_merges_into_last_segment() {
    let mut a = Kcp::new(4).unwrap();
    let mut b = Kcp::new(4).unwrap();
    a.apply_config(&KcpConfig { stream_mode: true, ..KcpConfig::fast() }).unwrap();
    assert_eq!(a.send(b"AAA").unwrap(), 3);
    assert_eq!(a.send(b"BBB").unwrap(), 3);
    // Both writes share one segment.
    assert_eq!(a.waitsnd(), 1);
    a.update(0);
    for pkt in a.take_output() {
        b.input(&pkt).unwrap();
    }
    let mut buf = [0u8; 16];
    assert_eq!(b.recv(&mut buf).unwrap(), 6);
    assert_eq!(&buf[..6], b"AAABBB");
}

/// The commands of the segments in a datagram, in order.
fn commands(dgram: &[u8]) -> Vec<u8> {
    let mut cmds = Vec::new();
    let mut off = 0;
    while off + 24 <= dgram.len() {
        cmds.push(dgram[off + 4]);
        let len = u32::from_le_bytes([
            dgram[off + 20],
            dgram[off + 21],
            dgram[off + 22],
            dgram[off + 23],
        ]) as usize;
        off += 24 + len;
    }
    cmds
}

#[test]
fn window_announced_when_full_queue_drains() {
    let mut a = Kcp::new(8).unwrap();
    let mut b = Kcp::new(8).unwrap();
    a.apply_config(&KcpConfig { snd_wnd: 256, ..KcpConfig::fast() }).unwrap();
    b.apply_config(&KcpConfig::fast()).unwrap();
    for i in 0..200u32 {
        a.send(&i.to_le_bytes()).unwrap();
    }
    let mut current: u32 = 0;
    for _ in 0..50 {
        current += 10;
        a.update(current);
        b.update(current);
        deliver(&mut a, &mut b);
        deliver(&mut b, &mut a);
    }
    // The receive queue is full (128 messages); reading one frees room,
    // and the next flush announces the window.
    let mut buf = [0u8; 4];
    assert_eq!(b.recv(&mut buf).unwrap(), 4);
    assert_eq!(buf, 0u32.to_le_bytes());
    b.flush();
    let out = b.take_output();
    assert!(out.iter().any(|d| commands(d).contains(&84)));
}

#[test]
fn stream_mode_queues_any_size() {
    let mut a = Kcp::new(6).unwrap();
    a.set_stream_mode(true);
    assert_eq!(a.send(&[7u8; 174753]).unwrap(), 174753);
    // 174753 bytes in segments of at most 1376 bytes.
    assert_eq!(a.waitsnd(), 128);
    let mut b = Kcp::new(6).unwrap();
    b.set_stream_mode(true);
    assert_eq!(b.send(&[1u8]).unwrap(), 1);
    assert_eq!(b.send(&[2u8; 177503]).unwrap(), 177503);
    // 177504 bytes: the short segment is topped up, the rest follows.
    assert_eq!(b.waitsnd(), 129);
}

#[test]
fn stream_mode_large_send_arrives_whole() {
    let mut a = Kcp::new(6).unwrap();
    let mut b = Kcp::new(6).unwrap();
    let config = KcpConfig { stream_mode: true, snd_wnd: 256, rcv_wnd: 256, ..KcpConfig::fast() };
    a.apply_config(&config).unwrap();
    b.apply_config(&config).unwrap();
    let data: Vec<u8> = (0..200_000u32).map(|i| (i % 253) as u8).collect();
    assert_eq!(a.send(&data).unwrap(), data.len());
    let mut got = Vec::new();
    let mut current: u32 = 0;
    for _ in 0..2000 {
        current += 10;
        a.update(current);
        b.update(current);
        deliver(&mut a, &mut b);
        deliver(&mut b, &mut a);
        let mut buf = vec![0u8; 4096];
        while let Ok(n) = b.recv(&mut buf) {
            got.extend_from_slice(&buf[..n]);
        }
        if got.len() >= data.len() {
            break;
        }
    }
    assert_eq!(got, data);
}

#[test]
fn stream_mode_segments_follow_mtu() {
    let mut a = Kcp::new(8).unwrap();
    a.set_stream_mode(true);
    a.set_mtu(100).unwrap();
    // A segment holds at most 100 - 24 = 76 bytes.
    assert_eq!(a.send(&[3u8; 76]).unwrap(), 76);
    assert_eq!(a.waitsnd(), 1);
    let mut b = Kcp::new(8).unwrap();
    b.set_stream_mode(true);
    b.set_mtu(100).unwrap();
    assert_eq!(b.send(&[4u8; 77]).unwrap(), 77);
    assert_eq!(b.waitsnd(), 2);
    // A short last segment is topped up before a new one is started.
    assert_eq!(a.send(&[5u8; 10]).unwrap(), 10);
    assert_eq!(a.waitsnd(), 2);
    assert_eq!(b.send(&[6u8; 75]).unwrap(), 75);
    assert_eq!(b.waitsnd(), 2);
}

#[test]
fn first_stream_send_arrives_after_one_update() {
    let config = KcpConfig { stream_mode: true, ..KcpConfig::fast() };
    let mut a = Kcp::with_config(9, &config).unwrap();
    let mut b = Kcp::with_config(9, &config).unwrap();
    assert_eq!(a.send(b"AAA").unwrap(), 3);
    assert_eq!(a.send(b"BBB").unwrap(), 3);
    a.update(10);
    deliver(&mut a, &mut b);
    let mut buf = [0u8; 64];
    let n = b.recv(&mut buf).unwrap();
    assert_eq!(&buf[..n], b"AAABBB");
}
