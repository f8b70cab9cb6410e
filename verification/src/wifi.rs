//! The decisions of the WiFi + network stack: credential limits, what a
//! DHCP update changes, and when a TCP connection may be opened. The radio,
//! the IP stack and the sockets belong to the caller, which applies them.
use vstd::prelude::*;
use vstd::string::*;

verus! {

/// Errors that can occur during WiFi/network operations.
#[derive(Debug, Clone, Copy, PartialEq, Eq, Structural)]
pub enum WifiError {
    InitFailed,
    ConnectionFailed,
    Disconnected,
    ConfigError,
    NotReady,
    DnsFailed,
    TcpFailed,
}

#[verifier::external_type_specification]
#[verifier::external_body]
pub struct ExIpAddress(smoltcp::wire::IpAddress);

/// The network stack of a build without a radio: it can be neither brought
/// up nor used, and says so. The device's stack is made by the board's
/// network code, which takes its decisions from the functions below.
pub struct NetworkStack<'d> {
    _phantom: core::marker::PhantomData<&'d ()>,
}

impl<'d> NetworkStack<'d> {
    /// Without a radio there is nothing to initialise.
    pub fn init() -> (r: Result<Self, WifiError>)
        ensures
            r is Err && r->Err_0 == WifiError::InitFailed,
    {
        Err(WifiError::InitFailed)
    }

    /// Without a radio no access point can be joined.
    pub fn connect(&mut self, _ssid: &str, _password: &str) -> (r: Result<(), WifiError>)
        ensures
            r == Err::<(), WifiError>(WifiError::ConnectionFailed),
    {
        Err(WifiError::ConnectionFailed)
    }

    /// Drive the network stack; without a radio there is nothing to do.
    pub fn poll(&mut self)
        ensures
            *final(self) == *old(self),
    {
    }

    /// Returns `true` when the WiFi link is up: never, without a radio.
    pub fn is_connected(&self) -> (b: bool)
        ensures
            !b,
    {
        false
    }

    /// Returns `true` when an address has been assigned: never, without a radio.
    pub fn is_network_ready(&self) -> (b: bool)
        ensures
            !b,
    {
        false
    }

    /// Resolve a hostname; without a radio this always fails.
    pub fn resolve_dns(&mut self, _hostname: &str) -> (r: Result<smoltcp::wire::IpAddress, WifiError>)
        ensures
            r is Err && r->Err_0 == WifiError::DnsFailed,
    {
        Err(WifiError::DnsFailed)
    }
}

/// I/O error for the TCP bridge.
#[derive(Debug, Clone, Copy, PartialEq, Eq, Structural)]
pub struct TcpIoError;

/// The longest SSID a station configuration holds, in bytes.
pub const MAX_SSID_LEN: usize = 32;

/// The longest password a station configuration holds, in bytes.
pub const MAX_PASSWORD_LEN: usize = 64;

/// Check WPA2-Personal credentials before connecting: the SSID may take at
/// most 32 bytes and the password at most 64.
pub fn check_credentials(ssid: &str, password: &str) -> (r: Result<(), WifiError>)
    ensures
        r is Ok <==> ssid.spec_bytes().len() <= MAX_SSID_LEN && password.spec_bytes().len()
            <= MAX_PASSWORD_LEN,
        r is Err ==> r->Err_0 == WifiError::ConfigError,
{
    if ssid.as_bytes().len() > MAX_SSID_LEN || password.as_bytes().len() > MAX_PASSWORD_LEN {
        return Err(WifiError::ConfigError);
    }
    Ok(())
}

/// An IPv4 address (its four octets, most significant first, in a `u32`)
/// with its prefix length.
#[derive(Debug, Clone, Copy, PartialEq, Eq, Structural)]
pub struct Ipv4Cidr {
    pub address: u32,
    pub prefix_len: u8,
}

/// What the DHCP client reported.
#[derive(Debug, Clone, Copy, PartialEq, Eq, Structural)]
pub enum DhcpUpdate {
    /// A lease: the address, the default router and the first DNS server,
    /// when the server named them.
    Configured { address: Ipv4Cidr, router: Option<u32>, dns: Option<u32> },
    /// The lease was lost.
    Deconfigured,
}

/// What the network stack knows about its configuration.
#[derive(Debug, Clone, Copy, PartialEq, Eq, Structural)]
pub struct NetConfig {
    pub ip_address: Option<u32>,
    pub dns_server: Option<u32>,
    /// Whether a DNS socket is open.
    pub dns_socket: bool,
    /// An address has been assigned.
    pub network_ready: bool,
}

/// What the caller has to change in the interface and the socket set.
#[derive(Debug, Clone, Copy, PartialEq, Eq, Structural)]
pub struct DhcpActions {
    /// Replace the interface addresses with this one.
    pub set_address: Option<Ipv4Cidr>,
    /// Add a default route through this router.
    pub add_default_route: Option<u32>,
    /// Open a DNS socket that asks this server.
    pub open_dns_socket: Option<u32>,
    /// Close the DNS socket.
    pub close_dns_socket: bool,
}

/// The configuration and the changes after a DHCP update.
pub open spec fn dhcp_spec(c: NetConfig, u: DhcpUpdate) -> (NetConfig, DhcpActions) {
    match u {
        DhcpUpdate::Configured { address, router, dns } => {
            let opens = dns is Some && !c.dns_socket;
            (
                NetConfig {
                    ip_address: Some(address.address),
                    dns_server: if dns is Some {
                        Some(dns->Some_0)
                    } else {
                        c.dns_server
                    },
                    dns_socket: c.dns_socket || dns is Some,
                    network_ready: true,
                },
                DhcpActions {
                    set_address: Some(address),
                    add_default_route: router,
                    open_dns_socket: if opens {
                        dns
                    } else {
                        None
                    },
                    close_dns_socket: false,
                },
            )
        },
        DhcpUpdate::Deconfigured => (
            NetConfig { ip_address: None, dns_server: None, dns_socket: false, network_ready: false },
            DhcpActions {
                set_address: None,
                add_default_route: None,
                open_dns_socket: None,
                close_dns_socket: c.dns_socket,
            },
        ),
    }
}

/// Process a DHCP event: record the lease (address, DNS server) and say what
/// the interface and the socket set need, or forget the lease when it is lost.
pub fn apply_dhcp(config: &mut NetConfig, update: DhcpUpdate) -> (actions: DhcpActions)
    ensures
        (*final(config), actions) == dhcp_spec(*old(config), update),
{
    match update {
        DhcpUpdate::Configured { address, router, dns } => {
            let mut actions = DhcpActions {
                set_address: None,
                add_default_route: None,
                open_dns_socket: None,
                close_dns_socket: false,
            };
            config.ip_address = Some(address.address);
            actions.set_address = Some(address);
            actions.add_default_route = router;
            if let Some(server) = dns {
                config.dns_server = Some(server);
                if !config.dns_socket {
                    actions.open_dns_socket = Some(server);
                    config.dns_socket = true;
                }
            }
            config.network_ready = config.ip_address.is_some();
            actions
        },
        DhcpUpdate::Deconfigured => {
            // Deconfigured: lost IP
            config.ip_address = None;
            config.dns_server = None;
            config.network_ready = false;
            let close = config.dns_socket;
            config.dns_socket = false;
            DhcpActions {
                set_address: None,
                add_default_route: None,
                open_dns_socket: None,
                close_dns_socket: close,
            }
        },
    }
}

/// A lease is always taken as it comes, whatever was held before: its
/// address is recorded and set on the interface, its router becomes the
/// default route, and its DNS server (if it names one) replaces the one
/// known. A lost lease forgets the address and the DNS server, and the
/// network is no longer ready.
pub proof fn law_dhcp_lease_recorded(c: NetConfig, u: DhcpUpdate)
    ensures
        u matches DhcpUpdate::Configured { address, router, dns } ==> {
            &&& dhcp_spec(c, u).0.ip_address == Some(address.address)
            &&& dhcp_spec(c, u).1.set_address == Some(address)
            &&& dhcp_spec(c, u).1.add_default_route == router
            &&& dhcp_spec(c, u).0.network_ready
            &&& dns is Some ==> dhcp_spec(c, u).0.dns_server == dns
            &&& dns is None ==> dhcp_spec(c, u).0.dns_server == c.dns_server
            &&& !dhcp_spec(c, u).1.close_dns_socket
        },
        u is Deconfigured ==> {
            &&& dhcp_spec(c, u).0.ip_address is None
            &&& dhcp_spec(c, u).0.dns_server is None
            &&& !dhcp_spec(c, u).0.network_ready
            &&& dhcp_spec(c, u).1.set_address is None
            &&& dhcp_spec(c, u).1.close_dns_socket == c.dns_socket
        },
{
}

/// The network is ready exactly when an address is held, whatever the DHCP
/// client reports; at most one DNS socket is ever asked for; and a DNS
/// socket is only open while a DNS server is known.
pub proof fn law_dhcp_ready(c: NetConfig, u: DhcpUpdate)
    requires
        c.network_ready == (c.ip_address is Some),
        c.dns_socket ==> c.dns_server is Some,
    ensures
        dhcp_spec(c, u).0.dns_socket ==> dhcp_spec(c, u).0.dns_server is Some,
        dhcp_spec(c, u).0.network_ready == (dhcp_spec(c, u).0.ip_address is Some),
        dhcp_spec(c, u).1.open_dns_socket is Some ==> !c.dns_socket,
        dhcp_spec(c, u).0.dns_socket == (c.dns_socket && u is Configured)
            || dhcp_spec(c, u).1.open_dns_socket is Some,
{
}

/// Whether a TCP connection may be opened: `NotReady` without a ready
/// network, `TcpFailed` while the one connection is in use.
pub open spec fn tcp_connect_spec(network_ready: bool, tcp_in_use: bool) -> Result<(), WifiError> {
    if !network_ready {
        Err(WifiError::NotReady)
    } else if tcp_in_use {
        Err(WifiError::TcpFailed)
    } else {
        Ok(())
    }
}

/// Whether a TCP connection may be opened: the network must be ready, and
/// the one TCP connection the stack has buffers for must be free.
pub fn tcp_connect_check(network_ready: bool, tcp_in_use: bool) -> (r: Result<(), WifiError>)
    ensures
        r == tcp_connect_spec(network_ready, tcp_in_use),
        !network_ready ==> r == Err::<(), WifiError>(WifiError::NotReady),
        network_ready && tcp_in_use ==> r == Err::<(), WifiError>(WifiError::TcpFailed),
        network_ready && !tcp_in_use ==> r is Ok,
{
    if !network_ready {
        return Err(WifiError::NotReady);
    }
    if tcp_in_use {
        return Err(WifiError::TcpFailed);
    }
    Ok(())
}

/// The guard that lets the network stack be initialised only once: the
/// radio and its static storage can be handed out to one stack alone.
pub struct InitGuard {
    inited: bool,
}

impl InitGuard {
    /// Whether a stack has claimed the radio.
    pub closed spec fn claimed(&self) -> bool {
        self.inited
    }

    /// No stack has been initialised yet.
    pub fn new() -> (g: Self)
        ensures
            !g.claimed(),
    {
        InitGuard { inited: false }
    }

    /// The start of `NetworkStack::init`: a second initialisation fails with
    /// `InitFailed` and changes nothing; the first claims the radio.
    pub fn claim(&mut self) -> (r: Result<(), WifiError>)
        ensures
            old(self).claimed() ==> r == Err::<(), WifiError>(WifiError::InitFailed),
            old(self).claimed() ==> *final(self) == *old(self),
            !old(self).claimed() ==> r is Ok && final(self).claimed(),
    {
        if self.inited {
            return Err(WifiError::InitFailed);
        }
        self.inited = true;
        Ok(())
    }

    /// An initialisation that failed gives the radio back, so that it may be
    /// tried again.
    pub fn release(&mut self)
        ensures
            !final(self).claimed(),
    {
        self.inited = false;
    }
}

/// The guard over the one TCP connection the stack has buffers for: taken
/// when a connection is being opened, given back when it is closed or the
/// attempt fails.
pub struct TcpLock {
    in_use: bool,
}

/// A call on the stack's TCP connections, as far as the lock is concerned.
#[derive(Debug, Clone, Copy, PartialEq, Eq, Structural)]
pub enum TcpCall {
    /// `tcp_connect`, made with the network ready or not, whose handshake
    /// would complete or not.
    Connect { ready: bool, established: bool },
    /// `tcp_close` of the connection opened last.
    Close,
}

/// What a call returns and whether the lock is held after it, given whether
/// it was held before. A connection needs a ready network and a free lock;
/// one whose handshake fails gives the lock back.
pub open spec fn tcp_call(held: bool, c: TcpCall) -> (Result<(), WifiError>, bool) {
    match c {
        TcpCall::Close => (Ok(()), false),
        TcpCall::Connect { ready, established } => if !ready {
            (Err(WifiError::NotReady), held)
        } else if held {
            (Err(WifiError::TcpFailed), held)
        } else if !established {
            (Err(WifiError::TcpFailed), false)
        } else {
            (Ok(()), true)
        },
    }
}

/// The results of a run of calls from a free lock, and whether the lock is
/// held at the end.
pub open spec fn tcp_run(calls: Seq<TcpCall>) -> (Seq<Result<(), WifiError>>, bool)
    decreases calls.len(),
{
    if calls.len() == 0 {
        (Seq::empty(), false)
    } else {
        let (rs, held) = tcp_run(calls.drop_last());
        let (r, h) = tcp_call(held, calls.last());
        (rs.push(r), h)
    }
}

/// Call `j` is a connect that succeeded.
pub open spec fn opened(calls: Seq<TcpCall>, results: Seq<Result<(), WifiError>>, j: int) -> bool {
    calls[j] is Connect && results[j] is Ok
}

/// No close comes among calls `j + 1 .. i`.
pub open spec fn no_close_between(calls: Seq<TcpCall>, j: int, i: int) -> bool {
    forall|k: int| j < k < i ==> !(#[trigger] calls[k] is Close)
}

/// Before call `i`, some earlier connect succeeded and no close came after it.
#[verifier::opaque]
pub open spec fn connection_open(calls: Seq<TcpCall>, results: Seq<Result<(), WifiError>>, i: int) -> bool {
    exists|j: int| 0 <= j < i && #[trigger] opened(calls, results, j) && no_close_between(calls, j, i)
}

impl TcpLock {
    /// Whether the lock is held.
    pub closed spec fn held(&self) -> bool {
        self.in_use
    }

    /// A free lock.
    pub fn new() -> (l: Self)
        ensures
            !l.held(),
    {
        TcpLock { in_use: false }
    }

    /// Whether a connection holds the lock.
    pub fn is_held(&self) -> (b: bool)
        ensures
            b == self.held(),
    {
        self.in_use
    }

    /// The start of `tcp_connect`: the network must be ready, and the one
    /// connection free, which the call then takes.
    pub fn acquire(&mut self, network_ready: bool) -> (r: Result<(), WifiError>)
        ensures
            r == tcp_connect_spec(network_ready, old(self).held()),
            final(self).held() == (old(self).held() || r is Ok),
    {
        let r = tcp_connect_check(network_ready, self.in_use);
        if r.is_ok() {
            self.in_use = true;
        }
        r
    }

    /// The end of `tcp_connect`, once the handshake has come to an end: a
    /// connection that was not established gives the lock back and fails.
    pub fn finish(&mut self, established: bool) -> (r: Result<(), WifiError>)
        requires
            old(self).held(),
        ensures
            established ==> r is Ok && final(self).held(),
            !established ==> r == Err::<(), WifiError>(WifiError::TcpFailed) && !final(self).held(),
    {
        if established {
            Ok(())
        } else {
            self.in_use = false;
            Err(WifiError::TcpFailed)
        }
    }

    /// `tcp_close`: the connection is given up and the lock released.
    pub fn release(&mut self)
        ensures
            !final(self).held(),
    {
        self.in_use = false;
    }
}

/// What `acquire` and then, if it succeeded, `finish` make of a connect call:
/// exactly `tcp_call`.
pub proof fn law_connect_steps(held: bool, ready: bool, established: bool)
    ensures
        ({
            let a = tcp_connect_spec(ready, held);
            let call = tcp_call(held, TcpCall::Connect { ready, established });
            &&& a is Err ==> call == (a, held)
            &&& a is Ok ==> !held && call == (if established {
                (Ok::<(), WifiError>(()), true)
            } else {
                (Err::<(), WifiError>(WifiError::TcpFailed), false)
            })
        }),
{
}

proof fn lemma_tcp_run_prefix(calls: Seq<TcpCall>, i: int)
    requires
        0 <= i <= calls.len(),
    ensures
        tcp_run(calls).0.len() == calls.len(),
        tcp_run(calls.take(i)).0 == tcp_run(calls).0.take(i),
    decreases calls.len(),
{
    if calls.len() == 0 {
        assert(calls.take(i) =~= calls);
    } else {
        let p = calls.drop_last();
        lemma_tcp_run_prefix(p, 0);
        if i < calls.len() {
            lemma_tcp_run_prefix(p, i);
            assert(calls.take(i) =~= p.take(i));
            assert(tcp_run(p).0.take(i) =~= tcp_run(calls).0.take(i));
        } else {
            assert(calls.take(i) =~= calls);
            assert(tcp_run(calls).0.take(i) =~= tcp_run(calls).0);
        }
    }
}

/// A connection is open before call `i` exactly when call `i - 1` was a
/// connect that succeeded, or a connect made while one was already open.
proof fn lemma_open_step(calls: Seq<TcpCall>, rs: Seq<Result<(), WifiError>>, i: int)
    requires
        0 < i <= calls.len(),
    ensures
        connection_open(calls, rs, i) == (calls[i - 1] is Connect && (rs[i - 1] is Ok
            || connection_open(calls, rs, i - 1))),
{
    if connection_open(calls, rs, i) {
        lemma_open_step_forward(calls, rs, i);
    }
    if calls[i - 1] is Connect && rs[i - 1] is Ok {
        lemma_open_step_new(calls, rs, i);
    }
    if calls[i - 1] is Connect && connection_open(calls, rs, i - 1) {
        lemma_open_step_kept(calls, rs, i);
    }
}

proof fn lemma_open_step_forward(calls: Seq<TcpCall>, rs: Seq<Result<(), WifiError>>, i: int)
    requires
        0 < i <= calls.len(),
        connection_open(calls, rs, i),
    ensures
        calls[i - 1] is Connect,
        rs[i - 1] is Ok || connection_open(calls, rs, i - 1),
{
    reveal(connection_open);
    let j = choose|j: int| 0 <= j < i && #[trigger] opened(calls, rs, j) && no_close_between(calls, j, i);
    if j < i - 1 {
        assert(!(calls[i - 1] is Close));
        assert(no_close_between(calls, j, i - 1));
        assert(opened(calls, rs, j));
    }
}

proof fn lemma_open_step_new(calls: Seq<TcpCall>, rs: Seq<Result<(), WifiError>>, i: int)
    requires
        0 < i <= calls.len(),
        calls[i - 1] is Connect,
        rs[i - 1] is Ok,
    ensures
        connection_open(calls, rs, i),
{
    reveal(connection_open);
    assert(opened(calls, rs, i - 1));
    assert(no_close_between(calls, i - 1, i));
}

proof fn lemma_open_step_kept(calls: Seq<TcpCall>, rs: Seq<Result<(), WifiError>>, i: int)
    requires
        0 < i <= calls.len(),
        calls[i - 1] is Connect,
        connection_open(calls, rs, i - 1),
    ensures
        connection_open(calls, rs, i),
{
    reveal(connection_open);
    let j = choose|j: int| 0 <= j < i - 1 && #[trigger] opened(calls, rs, j) && no_close_between(calls, j, i - 1);
    assert(opened(calls, rs, j));
    assert forall|k: int| j < k < i implies !(#[trigger] calls[k] is Close) by {
        if k < i - 1 {
            assert(no_close_between(calls, j, i - 1));
        }
    }
    assert(no_close_between(calls, j, i));
}

/// Call `i` returns what `tcp_call` gives from the lock after the calls
/// before it, and that lock is held exactly when a connection is open.
proof fn lemma_tcp_held(calls: Seq<TcpCall>, i: int)
    requires
        0 <= i <= calls.len(),
    ensures
        tcp_run(calls.take(i)).1 == connection_open(calls, tcp_run(calls).0, i),
        i < calls.len() ==> tcp_run(calls).0[i] == tcp_call(tcp_run(calls.take(i)).1, calls[i]).0,
    decreases i,
{
    let rs = tcp_run(calls).0;
    lemma_tcp_run_prefix(calls, i);
    if i < calls.len() {
        lemma_tcp_run_prefix(calls, i + 1);
        assert(calls.take(i + 1).drop_last() =~= calls.take(i));
        assert(calls.take(i + 1).last() == calls[i]);
        assert(rs.take(i + 1)[i] == rs[i]);
    }
    if i == 0 {
        reveal(connection_open);
        assert(calls.take(0) =~= Seq::<TcpCall>::empty());
    } else {
        lemma_tcp_held(calls, i - 1);
        lemma_open_step(calls, rs, i);
        assert(calls.take(i).drop_last() =~= calls.take(i - 1));
        assert(calls.take(i).last() == calls[i - 1]);
    }
}

/// At most one TCP connection is open at a time: a connect made on a ready
/// network while an earlier connect's connection is still open (it returned
/// `Ok` and no close came since) is refused with `TcpFailed`; one made when
/// every connection has been closed (calls that failed hold nothing)
/// succeeds exactly when its handshake completes. Without a ready network a
/// connect fails with `NotReady`. The lock is held after the calls exactly
/// when a connection is open.
pub proof fn law_one_tcp_connection(calls: Seq<TcpCall>)
    ensures
        tcp_run(calls).0.len() == calls.len(),
        tcp_run(calls).1 == connection_open(calls, tcp_run(calls).0, calls.len() as int),
        forall|i: int|
            0 <= i < calls.len() ==> {
                let r = #[trigger] tcp_run(calls).0[i];
                match calls[i] {
                    TcpCall::Connect { ready, established } => {
                        &&& !ready ==> r == Err::<(), WifiError>(WifiError::NotReady)
                        &&& ready && connection_open(calls, tcp_run(calls).0, i) ==> r == Err::<
                            (),
                            WifiError,
                        >(WifiError::TcpFailed)
                        &&& ready && !connection_open(calls, tcp_run(calls).0, i) ==> (r is Ok
                            <==> established) && (r is Err ==> r == Err::<(), WifiError>(
                            WifiError::TcpFailed,
                        ))
                    },
                    TcpCall::Close => r is Ok,
                }
            },
{
    lemma_tcp_run_prefix(calls, calls.len() as int);
    assert(calls.take(calls.len() as int) =~= calls);
    lemma_tcp_held(calls, calls.len() as int);
    assert forall|i: int| 0 <= i < calls.len() implies {
        let r = #[trigger] tcp_run(calls).0[i];
        match calls[i] {
            TcpCall::Connect { ready, established } => {
                &&& !ready ==> r == Err::<(), WifiError>(WifiError::NotReady)
                &&& ready && connection_open(calls, tcp_run(calls).0, i) ==> r == Err::<
                    (),
                    WifiError,
                >(WifiError::TcpFailed)
                &&& ready && !connection_open(calls, tcp_run(calls).0, i) ==> (r is Ok
                    <==> established) && (r is Err ==> r == Err::<(), WifiError>(
                    WifiError::TcpFailed,
                ))
            },
            TcpCall::Close => r is Ok,
        }
    } by {
        lemma_tcp_held(calls, i);
    }
}

/// How far a TCP handshake has come.
#[derive(Debug, Clone, Copy, PartialEq, Eq, Structural)]
pub enum Handshake {
    /// Still waiting for the peer.
    Pending,
    /// The connection can send: it is established.
    Established,
    /// The socket closed: the connection failed.
    Failed,
}

/// What the state of a connecting socket means, after a poll: a socket that
/// is no longer open has failed, one that may send is established.
pub fn handshake_state(is_open: bool, may_send: bool) -> (h: Handshake)
    ensures
        !is_open ==> h == Handshake::Failed,
        is_open && may_send ==> h == Handshake::Established,
        is_open && !may_send ==> h == Handshake::Pending,
{
    if !is_open {
        Handshake::Failed
    } else if may_send {
        Handshake::Established
    } else {
        Handshake::Pending
    }
}

/// How long a DNS query may take, in milliseconds.
pub const DNS_TIMEOUT_MS: u64 = 5000;

/// How long a TCP handshake may take, in milliseconds.
pub const CONNECT_TIMEOUT_MS: u64 = 5000;

/// How long a blocking TCP read or write may take, in milliseconds.
pub const IO_TIMEOUT_MS: u64 = 10000;

/// A blocking wait has run out once more than `limit_ms` have passed.
pub fn timed_out(elapsed_ms: u64, limit_ms: u64) -> (b: bool)
    ensures
        b == (elapsed_ms > limit_ms),
{
    elapsed_ms > limit_ms
}

/// Where a DNS query stands after a poll.
#[derive(Debug, Clone, Copy, PartialEq, Eq, Structural)]
pub enum DnsAnswer {
    /// No answer yet.
    Pending,
    /// Answered, with its first IPv4 address if it has any.
    Answered(Option<u32>),
    /// The query failed.
    Failed,
}

/// What to do with a DNS query after a poll.
#[derive(Debug, Clone, Copy, PartialEq, Eq, Structural)]
pub enum DnsStep {
    Wait,
    Resolved(u32),
    Fail(WifiError),
}

/// A DNS query resolves to the first address of its answer; an empty
/// answer or a failed query is a DNS failure.
pub fn dns_step(answer: DnsAnswer) -> (s: DnsStep)
    ensures
        answer == DnsAnswer::Pending ==> s == DnsStep::Wait,
        answer matches DnsAnswer::Answered(Some(a)) ==> s == DnsStep::Resolved(a),
        answer == DnsAnswer::Answered(None) || answer == DnsAnswer::Failed ==> s == DnsStep::Fail(
            WifiError::DnsFailed,
        ),
{
    match answer {
        DnsAnswer::Pending => DnsStep::Wait,
        DnsAnswer::Answered(Some(a)) => DnsStep::Resolved(a),
        DnsAnswer::Answered(None) => DnsStep::Fail(WifiError::DnsFailed),
        DnsAnswer::Failed => DnsStep::Fail(WifiError::DnsFailed),
    }
}

/// What a TCP socket gave when asked for data, after a poll.
#[derive(Debug, Clone, Copy, PartialEq, Eq, Structural)]
pub enum RecvState {
    /// The peer closed the connection, or it is not connected.
    Closed,
    /// No data is waiting.
    Empty,
    /// This many bytes were received.
    Received(usize),
    /// The socket was not in a state to receive; try again.
    Busy,
    /// Receiving failed.
    Error,
}

/// What a blocking read does next.
#[derive(Debug, Clone, Copy, PartialEq, Eq, Structural)]
pub enum ReadStep {
    /// Return this many bytes (0 at the end of the stream).
    Return(usize),
    Wait,
    Fail(TcpIoError),
}

/// A blocking read returns the first data received, and 0 once the peer has
/// closed; it waits while nothing has arrived and fails on a receive error.
pub fn read_step(state: RecvState) -> (s: ReadStep)
    ensures
        state == RecvState::Closed ==> s == ReadStep::Return(0),
        state matches RecvState::Received(n) ==> (n > 0 ==> s == ReadStep::Return(n)),
        state == RecvState::Empty || state == RecvState::Busy || state == RecvState::Received(0)
            ==> s == ReadStep::Wait,
        state == RecvState::Error ==> s == ReadStep::Fail(TcpIoError),
{
    match state {
        RecvState::Closed => ReadStep::Return(0),  // peer closed or not connected
        RecvState::Empty => ReadStep::Wait,
        RecvState::Received(0) => ReadStep::Wait,
        RecvState::Received(n) => ReadStep::Return(n),
        RecvState::Busy => ReadStep::Wait,
        RecvState::Error => ReadStep::Fail(TcpIoError),
    }
}

/// What a TCP socket did when asked to send, after a poll.
#[derive(Debug, Clone, Copy, PartialEq, Eq, Structural)]
pub enum SendState {
    /// The connection can no longer send.
    Closed,
    /// The send buffer is full.
    Full,
    /// This many bytes were queued.
    Sent(usize),
    /// The socket was not in a state to send; try again.
    Busy,
}

/// What a blocking write does next.
#[derive(Debug, Clone, Copy, PartialEq, Eq, Structural)]
pub enum WriteStep {
    /// Go on; this many bytes are sent now.
    Continue(usize),
    Fail(TcpIoError),
}

/// A blocking write counts what each send queued and fails once the
/// connection can no longer send; `sent` of `len` bytes are sent so far.
pub fn write_step(sent: usize, len: usize, state: SendState) -> (s: WriteStep)
    requires
        sent < len,
        state matches SendState::Sent(n) ==> n <= len - sent,
    ensures
        state == SendState::Closed ==> s == WriteStep::Fail(TcpIoError),
        state matches SendState::Sent(n) ==> s == WriteStep::Continue((sent + n) as usize),
        state == SendState::Full || state == SendState::Busy ==> s == WriteStep::Continue(sent),
        s matches WriteStep::Continue(t) ==> sent <= t <= len,
{
    match state {
        SendState::Closed => WriteStep::Fail(TcpIoError),
        SendState::Full => WriteStep::Continue(sent),
        SendState::Sent(n) => WriteStep::Continue(sent + n),
        SendState::Busy => WriteStep::Continue(sent),
    }
}

} // verus!
