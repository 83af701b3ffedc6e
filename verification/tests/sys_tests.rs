//! Tests of the control-block operations.

use kcp_io::sys::{
    ikcp_create, ikcp_flush, ikcp_input, ikcp_nodelay, ikcp_peeksize, ikcp_recv, ikcp_release,
    ikcp_send, ikcp_setmtu, ikcp_setoutput, ikcp_update, ikcp_waitsnd, ikcp_wndsize, IKCPCB,
};

/// Takes every datagram `kcp` emitted.
fn drain(kcp: &mut IKCPCB) -> Vec<Vec<u8>> {
    match kcp.output.as_mut() {
        Some(out) => std::mem::take(out),
        None => Vec::new(),
    }
}

#[test]
fn test_create_and_release() {
    let kcp = ikcp_create(0x11223344);
    assert_eq!(kcp.conv, 0x11223344);
    assert_eq!(kcp.mtu, 1400);
    ikcp_release(kcp);
}

#[test]
fn test_set_output() {
    let mut kcp = ikcp_create(1);
    ikcp_setoutput(&mut kcp);
    assert!(kcp.output.is_some());
    ikcp_release(kcp);
}

#[test]
fn test_nodelay_config() {
    let mut kcp = ikcp_create(1);
    let ret = ikcp_nodelay(&mut kcp, 1, 20, 2, 1);
    assert_eq!(ret, 0);
    assert_eq!(kcp.nodelay, 1);
    assert_eq!(kcp.interval, 20);
    assert_eq!(kcp.fastresend, 2);
    assert_eq!(kcp.nocwnd, 1);
    ikcp_release(kcp);
}

#[test]
fn lib_test_set_mtu() {
    let mut kcp = ikcp_create(1);
    let ret = ikcp_setmtu(&mut kcp, 1200);
    assert_eq!(ret, 0);
    assert_eq!(kcp.mtu, 1200);
    ikcp_release(kcp);
}

#[test]
fn test_wndsize() {
    let mut kcp = ikcp_create(1);
    let ret = ikcp_wndsize(&mut kcp, 128, 256);
    assert_eq!(ret, 0);
    assert_eq!(kcp.snd_wnd, 128);
    assert_eq!(kcp.rcv_wnd, 256);
    ikcp_release(kcp);
}

#[test]
fn test_getconv() {
    let mut kcp = ikcp_create(0xAABBCCDD);
    ikcp_setoutput(&mut kcp);
    let data = b"hello";
    let ret = ikcp_send(&mut kcp, data);
    assert!(ret >= 0, "ikcp_send should succeed");
    ikcp_update(&mut kcp, 0);
    ikcp_flush(&mut kcp);
    ikcp_release(kcp);
}

#[test]
fn lib_test_peeksize_empty() {
    let kcp = ikcp_create(1);
    let size = ikcp_peeksize(&kcp);
    assert!(size < 0, "peeksize should be negative when no data is available");
    ikcp_release(kcp);
}

#[test]
fn test_waitsnd_empty() {
    let kcp = ikcp_create(1);
    let count = ikcp_waitsnd(&kcp);
    assert_eq!(count, 0);
    ikcp_release(kcp);
}

#[test]
fn test_send_and_waitsnd() {
    let mut kcp = ikcp_create(1);
    ikcp_setoutput(&mut kcp);
    let data = b"test data for kcp";
    let ret = ikcp_send(&mut kcp, data);
    assert!(ret >= 0);
    let count = ikcp_waitsnd(&kcp);
    assert!(count > 0, "waitsnd should be > 0 after sending data");
    ikcp_release(kcp);
}

#[test]
fn test_loopback_communication() {
    let mut kcp_a = ikcp_create(0x01);
    let mut kcp_b = ikcp_create(0x01);
    ikcp_setoutput(&mut kcp_a);
    ikcp_setoutput(&mut kcp_b);
    ikcp_nodelay(&mut kcp_a, 1, 10, 2, 1);
    ikcp_nodelay(&mut kcp_b, 1, 10, 2, 1);

    let msg = b"Hello from A!";
    let ret = ikcp_send(&mut kcp_a, msg);
    assert!(ret >= 0);

    let mut current: u32 = 0;
    let mut received = false;
    for _ in 0..200 {
        current += 10;
        ikcp_update(&mut kcp_a, current);
        ikcp_update(&mut kcp_b, current);
        for pkt in drain(&mut kcp_a) {
            ikcp_input(&mut kcp_b, &pkt);
        }
        for pkt in drain(&mut kcp_b) {
            ikcp_input(&mut kcp_a, &pkt);
        }
        let mut recv_buf = [0u8; 1024];
        let n = ikcp_recv(&mut kcp_b, &mut recv_buf);
        if n > 0 {
            let received_msg = &recv_buf[..n as usize];
            assert_eq!(received_msg, msg, "Received message should match sent message");
            received = true;
            break;
        }
    }
    assert!(received, "B should have received the message from A");
    ikcp_release(kcp_a);
    ikcp_release(kcp_b);
}
