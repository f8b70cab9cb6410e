use blink::wifi::{
    apply_dhcp, check_credentials, dns_step, handshake_state, read_step, tcp_connect_check,
    timed_out, write_step, DhcpActions, DhcpUpdate, DnsAnswer, DnsStep, Handshake, Ipv4Cidr,
    NetConfig, NetworkStack, ReadStep, TcpLock, InitGuard, RecvState, SendState, TcpIoError, WifiError, WriteStep,
};

#[test]
fn credentials_limits() {
    assert_eq!(check_credentials("home", "secret"), Ok(()));
    let ssid = "s".repeat(32);
    let pwd = "p".repeat(64);
    assert_eq!(check_credentials(&ssid, &pwd), Ok(()));
    assert_eq!(check_credentials(&"s".repeat(33), "x"), Err(WifiError::ConfigError));
    assert_eq!(check_credentials("x", &"p".repeat(65)), Err(WifiError::ConfigError));
}

#[test]
fn dhcp_lease_then_loss() {
    let mut c = NetConfig { ip_address: None, dns_server: None, dns_socket: false, network_ready: false };
    let cidr = Ipv4Cidr { address: 0xC0A8_0002, prefix_len: 24 };
    let a = apply_dhcp(
        &mut c,
        DhcpUpdate::Configured { address: cidr, router: Some(0xC0A8_0001), dns: Some(0x0808_0808) },
    );
    assert_eq!(
        a,
        DhcpActions {
            set_address: Some(cidr),
            add_default_route: Some(0xC0A8_0001),
            open_dns_socket: Some(0x0808_0808),
            close_dns_socket: false,
        }
    );
    assert!(c.network_ready);
    assert_eq!(c.ip_address, Some(0xC0A8_0002));
    // A renewed lease does not open a second DNS socket.
    let a = apply_dhcp(&mut c, DhcpUpdate::Configured { address: cidr, router: None, dns: Some(0x0101_0101) });
    assert_eq!(a.open_dns_socket, None);
    assert_eq!(c.dns_server, Some(0x0101_0101));
    let a = apply_dhcp(&mut c, DhcpUpdate::Deconfigured);
    assert!(a.close_dns_socket);
    assert_eq!(c, NetConfig { ip_address: None, dns_server: None, dns_socket: false, network_ready: false });
}

#[test]
fn tcp_connect_preconditions() {
    assert_eq!(tcp_connect_check(false, false), Err(WifiError::NotReady));
    assert_eq!(tcp_connect_check(true, true), Err(WifiError::TcpFailed));
    assert_eq!(tcp_connect_check(true, false), Ok(()));
}

#[test]
fn handshake_progress() {
    assert_eq!(handshake_state(false, true), Handshake::Failed);
    assert_eq!(handshake_state(true, true), Handshake::Established);
    assert_eq!(handshake_state(true, false), Handshake::Pending);
}

#[test]
fn wait_limits() {
    assert!(!timed_out(5000, 5000));
    assert!(timed_out(5001, 5000));
}

#[test]
fn dns_answers() {
    assert_eq!(dns_step(DnsAnswer::Pending), DnsStep::Wait);
    assert_eq!(dns_step(DnsAnswer::Answered(Some(0x0A00_0001))), DnsStep::Resolved(0x0A00_0001));
    assert_eq!(dns_step(DnsAnswer::Answered(None)), DnsStep::Fail(WifiError::DnsFailed));
    assert_eq!(dns_step(DnsAnswer::Failed), DnsStep::Fail(WifiError::DnsFailed));
}

#[test]
fn blocking_read_and_write_steps() {
    assert_eq!(read_step(RecvState::Closed), ReadStep::Return(0));
    assert_eq!(read_step(RecvState::Received(7)), ReadStep::Return(7));
    assert_eq!(read_step(RecvState::Received(0)), ReadStep::Wait);
    assert_eq!(read_step(RecvState::Empty), ReadStep::Wait);
    assert_eq!(read_step(RecvState::Busy), ReadStep::Wait);
    assert_eq!(read_step(RecvState::Error), ReadStep::Fail(TcpIoError));
    assert_eq!(write_step(0, 10, SendState::Sent(4)), WriteStep::Continue(4));
    assert_eq!(write_step(4, 10, SendState::Full), WriteStep::Continue(4));
    assert_eq!(write_step(4, 10, SendState::Busy), WriteStep::Continue(4));
    assert_eq!(write_step(4, 10, SendState::Closed), WriteStep::Fail(TcpIoError));
}

#[test]
fn stack_without_radio_reports_failure() {
    assert!(matches!(NetworkStack::init(), Err(WifiError::InitFailed)));
}

#[test]
fn one_tcp_connection_at_a_time() {
    let mut lock = TcpLock::new();
    assert!(!lock.is_held());
    assert_eq!(lock.acquire(false), Err(WifiError::NotReady));
    assert!(!lock.is_held());
    assert_eq!(lock.acquire(true), Ok(()));
    assert_eq!(lock.finish(true), Ok(()));
    // A second connection is refused while the first is open.
    assert_eq!(lock.acquire(true), Err(WifiError::TcpFailed));
    assert!(lock.is_held());
    lock.release();
    assert_eq!(lock.acquire(true), Ok(()));
    // A failed handshake gives the lock back.
    assert_eq!(lock.finish(false), Err(WifiError::TcpFailed));
    assert!(!lock.is_held());
    assert_eq!(lock.acquire(true), Ok(()));
}

#[test]
fn network_stack_initialises_once() {
    let mut guard = InitGuard::new();
    assert_eq!(guard.claim(), Ok(()));
    assert_eq!(guard.claim(), Err(WifiError::InitFailed));
    assert_eq!(guard.claim(), Err(WifiError::InitFailed));
    // A failed initialisation gives the radio back.
    guard.release();
    assert_eq!(guard.claim(), Ok(()));
}
