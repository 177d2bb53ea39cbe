//! Registrations and the keys that sessions are stored under.
//!
//! A registration names a client address, a phantom address, a phantom port
//! and a timeout. `SessionDetails::new` checks it; `session_key` derives the
//! text under which the session is stored and looked up.

use crate::addr::{
    lemma_view_determines_address, push_colon, push_hyphen, Address, IpAddr, Ipv6Addr,
};
use crate::parse::parse_ip_text;
use crate::text::{dec_text, push_dec};
use vstd::prelude::*;
use vstd::string::*;

verus! {

/// Why a registration was turned down.
#[derive(Debug, Clone, Copy, PartialEq, Eq)]
pub enum SessionError {
    /// The phantom text is no address.
    InvalidPhantom,
    /// The client text is no address, and is not left empty beside a
    /// version 6 phantom.
    InvalidClient,
    /// The phantom is of version 4 and the client is not.
    MixedV4V6Error,
}

/// A checked registration, or the reason why it was turned down.
pub type SessionResult = Result<SessionDetails, SessionError>;

/// A checked registration: the flow from `client_ip` to `phantom_ip` at
/// `phantom_port` may be forwarded for `timeout` nanoseconds.
#[derive(Copy, Clone, Debug)]
pub struct SessionDetails {
    pub client_ip: IpAddr,
    pub phantom_ip: IpAddr,
    pub phantom_port: u32,
    pub timeout: u64,
}

/// A registration as it arrives: two address texts, a port and a timeout in
/// nanoseconds, none of them checked yet.
#[derive(Debug)]
pub struct StationToDetector {
    pub client_ip: String,
    pub phantom_ip: String,
    pub phantom_port: u32,
    pub timeout_ns: u64,
}

/// An observed flow without its source port.
#[derive(Copy, Clone, Debug)]
pub struct FlowNoSrcPort {
    pub src_ip: IpAddr,
    pub dst_ip: IpAddr,
    pub dst_port: u16,
}

/// The version 6 loopback address `::1`.
pub open spec fn loopback_v6() -> Address {
    Address::V6(seq![0u16, 0u16, 0u16, 0u16, 0u16, 0u16, 0u16, 1u16])
}

/// The client address of a registration with client text `client` and
/// phantom address `phantom`: the address that the text denotes; the
/// version 6 loopback address where the text is empty and the phantom is of
/// version 6; none otherwise.
pub open spec fn resolved_client(client: Seq<char>, phantom: Address) -> Option<Address> {
    match parse_ip_text(client) {
        Some(c) => Some(c),
        None => if client.len() == 0 && phantom is V6 {
            Some(loopback_v6())
        } else {
            None
        },
    }
}

/// Why a registration with these two address texts is turned down, or
/// `None` where it is accepted.
pub open spec fn validation_error(client: Seq<char>, phantom: Seq<char>) -> Option<SessionError> {
    match parse_ip_text(phantom) {
        None => Some(SessionError::InvalidPhantom),
        Some(p) => match resolved_client(client, p) {
            None => Some(SessionError::InvalidClient),
            Some(c) => if p is V4 && !(c is V4) {
                Some(SessionError::MixedV4V6Error)
            } else {
                None
            },
        },
    }
}

/// Whether `r` is what checking a registration gives: the validation error
/// where there is one, and else the details with the two addresses that the
/// texts denote, the port and the timeout.
pub open spec fn checks_into(
    client: Seq<char>,
    phantom: Seq<char>,
    port: u32,
    timeout: u64,
    r: SessionResult,
) -> bool {
    match r {
        Ok(d) => {
            &&& validation_error(client, phantom) is None
            &&& Some(d.phantom_ip@) == parse_ip_text(phantom)
            &&& Some(d.client_ip@) == resolved_client(client, d.phantom_ip@)
            &&& d.phantom_port == port
            &&& d.timeout == timeout
        },
        Err(e) => validation_error(client, phantom) == Some(e),
    }
}

/// What checking the registration `s2d` gives.
pub open spec fn checked(s2d: StationToDetector) -> SessionResult {
    choose|r: SessionResult|
        checks_into(s2d.client_ip@, s2d.phantom_ip@, s2d.phantom_port, s2d.timeout_ns, r)
}

/// Checking a registration has one outcome.
pub proof fn lemma_checks_into_unique(
    client: Seq<char>,
    phantom: Seq<char>,
    port: u32,
    timeout: u64,
    r1: SessionResult,
    r2: SessionResult,
)
    requires
        checks_into(client, phantom, port, timeout, r1),
        checks_into(client, phantom, port, timeout, r2),
    ensures
        r1 == r2,
{
    match (r1, r2) {
        (Ok(d1), Ok(d2)) => {
            lemma_view_determines_address(d1.phantom_ip, d2.phantom_ip);
            lemma_view_determines_address(d1.client_ip, d2.client_ip);
        },
        _ => {},
    }
}

/// The key of a flow from `client` to `phantom` at `port`. For a version 6
/// phantom it is the phantom's text, a hyphen and the port; the client is
/// left out. For a version 4 phantom it is the client's text, a hyphen, the
/// phantom's text, a hyphen and the port.
pub open spec fn session_key(client: Address, phantom: Address, port: nat) -> Seq<char> {
    if phantom is V6 {
        phantom.text().push('-') + dec_text(port)
    } else {
        client.text().push('-') + phantom.text().push('-') + dec_text(port)
    }
}

/// Derives the key of a flow from `client` to `phantom` at `port`.
pub fn make_key(client: &IpAddr, phantom: &IpAddr, port: u32) -> (r: String)
    ensures
        r@ == session_key(client@, phantom@, port as nat),
{
    let mut s: String = String::new();
    if !phantom.is_ipv6() {
        client.push_text(&mut s);
        push_hyphen(&mut s);
    }
    phantom.push_text(&mut s);
    push_hyphen(&mut s);
    push_dec(&mut s, port as u64);
    assert(s@ =~= session_key(client@, phantom@, port as nat));
    s
}

impl SessionError {
    /// The message that describes the error.
    pub open spec fn message(self) -> Seq<char> {
        match self {
            SessionError::InvalidClient => "Invalid client address"@,
            SessionError::InvalidPhantom => "Invalid phantom address"@,
            SessionError::MixedV4V6Error => "Client/Phantom v4/v6 mismatch"@,
        }
    }

    /// The message that describes the error.
    pub fn to_string(&self) -> (r: String)
        ensures
            r@ == self.message(),
    {
        match self {
            SessionError::InvalidClient => String::from_str("Invalid client address"),
            SessionError::InvalidPhantom => String::from_str("Invalid phantom address"),
            SessionError::MixedV4V6Error => String::from_str("Client/Phantom v4/v6 mismatch"),
        }
    }
}

impl SessionDetails {
    /// Whether the addresses fit together: a version 4 phantom has a
    /// version 4 client.
    pub open spec fn wf(&self) -> bool {
        self.phantom_ip@ is V4 ==> self.client_ip@ is V4
    }

    /// The key under which the session is stored.
    pub open spec fn key(&self) -> Seq<char> {
        session_key(self.client_ip@, self.phantom_ip@, self.phantom_port as nat)
    }

    /// How the session reads in a log line: the client, or `_` where it is
    /// to be kept out, then ` -> `, the phantom, a colon, the port and the
    /// timeout in nanoseconds in brackets.
    pub open spec fn rendering(&self, show_client: bool) -> Seq<char> {
        (if show_client {
            self.client_ip@.text()
        } else {
            seq!['_']
        }) + seq![' ', '-', '>', ' '] + self.phantom_ip@.text().push(':') + dec_text(
            self.phantom_port as nat,
        ) + seq![' ', '('] + dec_text(self.timeout as nat) + seq!['n', 's', ')']
    }

    /// Checks a registration. The phantom text must denote an address. The
    /// client text must denote one too, but may be left empty beside a
    /// version 6 phantom, and then stands for the loopback address. A
    /// version 4 phantom takes a version 4 client only.
    pub fn new(client_ip: &str, phantom_ip: &str, phantom_port: u32, timeout: u64) -> (r:
        SessionResult)
        ensures
            checks_into(client_ip@, phantom_ip@, phantom_port, timeout, r),
            r matches Ok(d) ==> d.wf(),
    {
        let phantom: IpAddr = match IpAddr::parse(phantom_ip) {
            Some(ip) => ip,
            None => {
                return Err(SessionError::InvalidPhantom);
            },
        };
        let src: IpAddr = match IpAddr::parse(client_ip) {
            Some(ip) => ip,
            None => {
                if client_ip.is_empty() && phantom.is_ipv6() {
                    let lo = IpAddr::V6(Ipv6Addr { segments: [0, 0, 0, 0, 0, 0, 0, 1] });
                    assert(lo@ == loopback_v6()) by {
                        assert(lo@->V6_0 =~= loopback_v6()->V6_0);
                    }
                    lo
                } else {
                    return Err(SessionError::InvalidClient);
                }
            },
        };
        if phantom.is_ipv4() && !src.is_ipv4() {
            return Err(SessionError::MixedV4V6Error);
        }
        Ok(
            SessionDetails {
                client_ip: src,
                phantom_ip: phantom,
                phantom_port: phantom_port,
                timeout: timeout,
            },
        )
    }

    /// The key under which the session is stored.
    pub fn get_key(&self) -> (r: String)
        ensures
            r@ == self.key(),
    {
        make_key(&self.client_ip, &self.phantom_ip, self.phantom_port)
    }

    /// The session as a log line shows it; without the client address
    /// unless `show_client` is set.
    pub fn render(&self, show_client: bool) -> (r: String)
        ensures
            r@ == self.rendering(show_client),
    {
        proof {
            reveal_strlit("_");
            reveal_strlit(" -> ");
            reveal_strlit(" (");
            reveal_strlit("ns)");
        }
        let mut s: String = String::new();
        if show_client {
            self.client_ip.push_text(&mut s);
        } else {
            s.append("_");
        }
        s.append(" -> ");
        self.phantom_ip.push_text(&mut s);
        push_colon(&mut s);
        push_dec(&mut s, self.phantom_port as u64);
        s.append(" (");
        push_dec(&mut s, self.timeout);
        s.append("ns)");
        assert("_"@ =~= seq!['_']);
        assert(" -> "@ =~= seq![' ', '-', '>', ' ']);
        assert(" ("@ =~= seq![' ', '(']);
        assert("ns)"@ =~= seq!['n', 's', ')']);
        assert(s@ =~= self.rendering(show_client));
        s
    }
}

impl From<&StationToDetector> for SessionResult {
    /// Checks a registration as it arrived.
    fn from(s2d: &StationToDetector) -> (r: SessionResult)
        ensures
            checks_into(s2d.client_ip@, s2d.phantom_ip@, s2d.phantom_port, s2d.timeout_ns, r),
            r matches Ok(d) ==> d.wf(),
    {
        let r = SessionDetails::new(
            s2d.get_client_ip(),
            s2d.get_phantom_ip(),
            s2d.get_phantom_port(),
            s2d.get_timeout_ns(),
        );
        proof {
            assert(checks_into(
                s2d.client_ip@,
                s2d.phantom_ip@,
                s2d.phantom_port,
                s2d.timeout_ns,
                checked(*s2d),
            ));
            lemma_checks_into_unique(
                s2d.client_ip@,
                s2d.phantom_ip@,
                s2d.phantom_port,
                s2d.timeout_ns,
                r,
                checked(*s2d),
            );
        }
        r
    }
}

impl vstd::std_specs::convert::FromSpecImpl<&StationToDetector> for SessionResult {
    open spec fn obeys_from_spec() -> bool {
        true
    }

    open spec fn from_spec(s2d: &StationToDetector) -> SessionResult {
        checked(*s2d)
    }
}

impl StationToDetector {
    /// A registration with empty texts, port 0 and timeout 0.
    pub fn new() -> (r: StationToDetector)
        ensures
            r.client_ip@ == Seq::<char>::empty(),
            r.phantom_ip@ == Seq::<char>::empty(),
            r.phantom_port == 0,
            r.timeout_ns == 0,
    {
        StationToDetector {
            client_ip: String::new(),
            phantom_ip: String::new(),
            phantom_port: 0,
            timeout_ns: 0,
        }
    }

    /// Sets the client text.
    pub fn set_client_ip(&mut self, v: String)
        ensures
            *final(self) == (StationToDetector { client_ip: v, ..*old(self) }),
    {
        self.client_ip = v;
    }

    /// Sets the phantom text.
    pub fn set_phantom_ip(&mut self, v: String)
        ensures
            *final(self) == (StationToDetector { phantom_ip: v, ..*old(self) }),
    {
        self.phantom_ip = v;
    }

    /// Sets the phantom port.
    pub fn set_phantom_port(&mut self, v: u32)
        ensures
            *final(self) == (StationToDetector { phantom_port: v, ..*old(self) }),
    {
        self.phantom_port = v;
    }

    /// Sets the timeout, in nanoseconds.
    pub fn set_timeout_ns(&mut self, v: u64)
        ensures
            *final(self) == (StationToDetector { timeout_ns: v, ..*old(self) }),
    {
        self.timeout_ns = v;
    }

    /// The client text.
    pub fn get_client_ip(&self) -> (r: &str)
        ensures
            r@ == self.client_ip@,
    {
        self.client_ip.as_str()
    }

    /// The phantom text.
    pub fn get_phantom_ip(&self) -> (r: &str)
        ensures
            r@ == self.phantom_ip@,
    {
        self.phantom_ip.as_str()
    }

    /// The phantom port.
    pub fn get_phantom_port(&self) -> (r: u32)
        ensures
            r == self.phantom_port,
    {
        self.phantom_port
    }

    /// The timeout, in nanoseconds.
    pub fn get_timeout_ns(&self) -> (r: u64)
        ensures
            r == self.timeout_ns,
    {
        self.timeout_ns
    }
}

impl FlowNoSrcPort {
    /// The key under which a session for this flow is stored.
    pub open spec fn key(&self) -> Seq<char> {
        session_key(self.src_ip@, self.dst_ip@, self.dst_port as nat)
    }

    /// The key under which a session for this flow is stored.
    pub fn get_key(&self) -> (r: String)
        ensures
            r@ == self.key(),
    {
        make_key(&self.src_ip, &self.dst_ip, self.dst_port as u32)
    }
}

} // verus!
