//! SOCKS5 connections.

use crate::proxy::dane::{validate, vouched};
use crate::proxy::dns::{
    ipv4_in, ipv6_in, parse_a, parse_aaaa, tlsa_views, Resolution, Resolved, Tlsa, TlsaRecord,
};
use crate::proxy::pages::{
    certificate_error_page, error_response, no_response_page, page_for_certificate_error,
    page_for_no_response, page_for_ssl_error, page_for_unresolved, page_for_unverified,
    page_response, ssl_error_page, unresolved_page, unverified_page, Page, PageView,
};
use crate::proxy::request::{is_fistbump, is_fistbump_name};
use crate::proxy::steps::{
    address_in, join_port, pick_address, records_of, silent, silently, take_records, with_port,
    Act, ActView, Event, EventView, Step, StepView,
};
use crate::text::{decimal, lossy_string, text_in, texts};
use crate::text_map::TextMap;
use crate::wire::{
    be, be_value, law_be_read_write, lemma_be_value_bound, lemma_pow256_values, read_be,
};
use vstd::prelude::*;

verus! {

// ── The greeting ──

/// What is to be read next of a greeting.
pub enum Greeting {
    /// The version and how many methods follow.
    Version,
    /// The methods.
    Methods(usize),
    /// The command and the kind of address.
    Request,
    /// An IPv4 address.
    Ipv4,
    /// How long the name is.
    NameLength,
    /// A name.
    Name(usize),
    /// An IPv6 address.
    Ipv6,
    /// The port.
    Port(String),
}

pub enum GreetingView {
    Version,
    Methods(nat),
    Request,
    Ipv4,
    NameLength,
    Name(nat),
    Ipv6,
    Port(Seq<char>),
}

impl View for Greeting {
    type V = GreetingView;

    open spec fn view(&self) -> GreetingView {
        match self {
            Greeting::Version => GreetingView::Version,
            Greeting::Methods(n) => GreetingView::Methods(*n as nat),
            Greeting::Request => GreetingView::Request,
            Greeting::Ipv4 => GreetingView::Ipv4,
            Greeting::NameLength => GreetingView::NameLength,
            Greeting::Name(n) => GreetingView::Name(*n as nat),
            Greeting::Ipv6 => GreetingView::Ipv6,
            Greeting::Port(host) => GreetingView::Port(host@),
        }
    }
}

/// How many bytes are to be read next.
pub open spec fn wanted(g: GreetingView) -> nat {
    match g {
        GreetingView::Version => 2,
        GreetingView::Methods(n) => n,
        GreetingView::Request => 4,
        GreetingView::Ipv4 => 4,
        GreetingView::NameLength => 1,
        GreetingView::Name(n) => n,
        GreetingView::Ipv6 => 16,
        GreetingView::Port(_) => 2,
    }
}

/// What follows from what was read.
pub enum Heard {
    /// Read on.
    More(Greeting),
    /// Write this, then read on.
    Reply(Vec<u8>, Greeting),
    /// This is where the client wants to go.
    Goal { host: String, port: u16 },
    /// This is not understood.
    Error(String),
}

pub enum HeardView {
    More(GreetingView),
    Reply(Seq<u8>, GreetingView),
    Goal { host: Seq<char>, port: nat },
    Error(Seq<char>),
}

impl View for Heard {
    type V = HeardView;

    open spec fn view(&self) -> HeardView {
        match self {
            Heard::More(g) => HeardView::More(g@),
            Heard::Reply(b, g) => HeardView::Reply(b@, g@),
            Heard::Goal { host, port } => HeardView::Goal { host: host@, port: *port as nat },
            Heard::Error(e) => HeardView::Error(e@),
        }
    }
}

/// What follows from the bytes that were wanted.
pub open spec fn heard(g: GreetingView, b: Seq<u8>) -> HeardView {
    match g {
        GreetingView::Version => if b[0] != 5 {
            HeardView::Error("not SOCKS5"@)
        } else {
            HeardView::More(GreetingView::Methods(b[1] as nat))
        },
        GreetingView::Methods(_) => HeardView::Reply(seq![5u8, 0u8], GreetingView::Request),
        GreetingView::Request => if b[0] != 5 || b[1] != 1 {
            HeardView::Error("unsupported SOCKS5 command"@)
        } else if b[3] == 1 {
            HeardView::More(GreetingView::Ipv4)
        } else if b[3] == 3 {
            HeardView::More(GreetingView::NameLength)
        } else if b[3] == 4 {
            HeardView::More(GreetingView::Ipv6)
        } else {
            HeardView::Error("unsupported address type"@)
        },
        GreetingView::Ipv4 => HeardView::More(GreetingView::Port(ipv4_in(b)->Some_0)),
        GreetingView::NameLength => HeardView::More(GreetingView::Name(b[0] as nat)),
        GreetingView::Name(_) => HeardView::More(GreetingView::Port(text_in(b))),
        GreetingView::Ipv6 => HeardView::More(GreetingView::Port(ipv6_in(b)->Some_0)),
        GreetingView::Port(host) => HeardView::Goal { host, port: be_value(b) },
    }
}

impl Greeting {
    /// How many bytes are to be read next.
    pub fn want(&self) -> (r: usize)
        ensures
            r == wanted(self@),
    {
        match self {
            Greeting::Version => 2,
            Greeting::Methods(n) => *n,
            Greeting::Request => 4,
            Greeting::Ipv4 => 4,
            Greeting::NameLength => 1,
            Greeting::Name(n) => *n,
            Greeting::Ipv6 => 16,
            Greeting::Port(_) => 2,
        }
    }

    /// Takes the bytes that were wanted.
    pub fn hear(self, b: &[u8]) -> (r: Heard)
        requires
            b@.len() == wanted(self@),
        ensures
            r@ == heard(self@, b@),
    {
        match self {
            Greeting::Version => if b[0] != 5 {
                Heard::Error("not SOCKS5".to_owned())
            } else {
                Heard::More(Greeting::Methods(b[1] as usize))
            },
            Greeting::Methods(_) => {
                let mut reply: Vec<u8> = Vec::new();
                reply.push(5);
                reply.push(0);
                assert(reply@ =~= seq![5u8, 0u8]);
                Heard::Reply(reply, Greeting::Request)
            },
            Greeting::Request => if b[0] != 5 || b[1] != 1 {
                Heard::Error("unsupported SOCKS5 command".to_owned())
            } else if b[3] == 1 {
                Heard::More(Greeting::Ipv4)
            } else if b[3] == 3 {
                Heard::More(Greeting::NameLength)
            } else if b[3] == 4 {
                Heard::More(Greeting::Ipv6)
            } else {
                Heard::Error("unsupported address type".to_owned())
            },
            Greeting::Ipv4 => match parse_a(b) {
                Some(host) => Heard::More(Greeting::Port(host)),
                None => Heard::Error(String::new()),
            },
            Greeting::NameLength => Heard::More(Greeting::Name(b[0] as usize)),
            Greeting::Name(_) => Heard::More(Greeting::Port(lossy_string(b))),
            Greeting::Ipv6 => match parse_aaaa(b) {
                Some(host) => Heard::More(Greeting::Port(host)),
                None => Heard::Error(String::new()),
            },
            Greeting::Port(host) => {
                proof {
                    lemma_be_value_bound(b@);
                    lemma_pow256_values();
                }
                Heard::Goal { host, port: read_be(b) as u16 }
            },
        }
    }
}

/// What a client's bytes lead to, read as they are wanted: where it wants to
/// go and what is left over, or why it is not understood. `None` if more bytes
/// are needed.
pub open spec fn greeted(g: GreetingView, b: Seq<u8>, fuel: nat) -> Option<
    Result<(Seq<char>, nat, Seq<u8>), Seq<char>>,
>
    decreases fuel,
{
    if fuel == 0 || b.len() < wanted(g) {
        None
    } else {
        let rest = b.skip(wanted(g) as int);
        match heard(g, b.take(wanted(g) as int)) {
            HeardView::More(next) => greeted(next, rest, (fuel - 1) as nat),
            HeardView::Reply(_, next) => greeted(next, rest, (fuel - 1) as nat),
            HeardView::Goal { host, port } => Some(Ok((host, port, rest))),
            HeardView::Error(e) => Some(Err(e)),
        }
    }
}

/// What a client sends to go to a named host: a greeting with its methods, and
/// a request.
pub open spec fn hello(methods: Seq<u8>, name: Seq<u8>, port: u16) -> Seq<u8> {
    seq![5u8, methods.len() as u8] + methods + seq![5u8, 1u8, 0u8, 3u8, name.len() as u8] + name
        + be(port as nat, 2)
}

/// A client that asks for a named host is understood, in six reads, and what
/// it sends after that is left alone.
pub proof fn law_named_host_is_understood(
    methods: Seq<u8>,
    name: Seq<u8>,
    port: u16,
    after: Seq<u8>,
)
    requires
        methods.len() <= 255,
        name.len() <= 255,
    ensures
        greeted(GreetingView::Version, hello(methods, name, port) + after, 6) == Some(
            Ok::<(Seq<char>, nat, Seq<u8>), Seq<char>>((text_in(name), port as nat, after)),
        ),
{
    let m = methods.len();
    let n = name.len();
    let host = text_in(name);
    let p = be(port as nat, 2);
    lemma_pow256_values();
    law_be_read_write(port as nat, 2);
    let goal = Some(
        Ok::<(Seq<char>, nat, Seq<u8>), Seq<char>>((host, port as nat, after)),
    );
    let b5 = p + after;
    let b4 = name + b5;
    let b3 = seq![n as u8] + b4;
    let b2 = seq![5u8, 1u8, 0u8, 3u8] + b3;
    let b1 = methods + b2;
    let b0 = seq![5u8, m as u8] + b1;
    assert(greeted(GreetingView::Port(host), b5, 1) == goal) by {
        assert(b5.take(2) =~= p);
        assert(b5.skip(2) =~= after);
    }
    assert(greeted(GreetingView::Name(n), b4, 2) == goal) by {
        assert(b4.take(n as int) =~= name);
        assert(b4.skip(n as int) =~= b5);
    }
    assert(greeted(GreetingView::NameLength, b3, 3) == goal) by {
        assert(b3.take(1) =~= seq![n as u8]);
        assert(b3.skip(1) =~= b4);
    }
    assert(greeted(GreetingView::Request, b2, 4) == goal) by {
        assert(b2.take(4) =~= seq![5u8, 1u8, 0u8, 3u8]);
        assert(b2.skip(4) =~= b3);
    }
    assert(greeted(GreetingView::Methods(m), b1, 5) == goal) by {
        assert(b1.skip(m as int) =~= b2);
    }
    assert(greeted(GreetingView::Version, b0, 6) == goal) by {
        assert(b0.take(2) =~= seq![5u8, m as u8]);
        assert(b0.skip(2) =~= b1);
    }
    assert(hello(methods, name, port) + after =~= b0);
}

// ── The connection ──

/// Where a connection stands.
pub enum SocksPhase {
    /// The name is being looked up.
    Resolving { host: String, port: u16 },
    /// The server is being connected to.
    Dialing { host: String, port: u16, fistbump: bool },
    /// The records of the name are being looked up.
    Records { host: String },
    /// The TLS handshake is going on with the server of a Fistbump name.
    Handshaking { host: String, tlsa: Vec<TlsaRecord> },
    /// The TLS handshake is going on with the server of an ordinary name.
    Probing { host: String },
    /// All is decided.
    Over,
}

pub enum SocksPhaseView {
    Resolving { host: Seq<char>, port: u16 },
    Dialing { host: Seq<char>, port: u16, fistbump: bool },
    Records { host: Seq<char> },
    Handshaking { host: Seq<char>, tlsa: Seq<Tlsa> },
    Probing { host: Seq<char> },
    Over,
}

impl View for SocksPhase {
    type V = SocksPhaseView;

    open spec fn view(&self) -> SocksPhaseView {
        match self {
            SocksPhase::Resolving { host, port } => SocksPhaseView::Resolving {
                host: host@,
                port: *port,
            },
            SocksPhase::Dialing { host, port, fistbump } => SocksPhaseView::Dialing {
                host: host@,
                port: *port,
                fistbump: *fistbump,
            },
            SocksPhase::Records { host } => SocksPhaseView::Records { host: host@ },
            SocksPhase::Handshaking { host, tlsa } => SocksPhaseView::Handshaking {
                host: host@,
                tlsa: tlsa_views(tlsa@),
            },
            SocksPhase::Probing { host } => SocksPhaseView::Probing { host: host@ },
            SocksPhase::Over => SocksPhaseView::Over,
        }
    }
}

/// The reply to a request: a code, and no address.
pub open spec fn socks_reply(code: u8) -> Seq<u8> {
    seq![5u8, code, 0u8, 1u8, 0u8, 0u8, 0u8, 0u8, 0u8, 0u8]
}

/// A page: over TLS on port 443, in the open on any other.
pub open spec fn page_act(host: Seq<char>, port: u16, p: PageView) -> ActView {
    if port == 443 {
        ActView::TlsPage { host, response: page_response(p) }
    } else {
        ActView::PlainPage { response: page_response(p) }
    }
}

/// How a connection begins.
pub open spec fn socks_start(host: Seq<char>, port: u16, icann_tlds: Seq<Seq<char>>) -> (
    SocksPhaseView,
    StepView,
) {
    if is_fistbump(host, icann_tlds) {
        (SocksPhaseView::Resolving { host, port }, silent(ActView::Resolve { host }))
    } else {
        (
            SocksPhaseView::Dialing { host, port, fistbump: false },
            silent(ActView::Dial { addr: with_port(host, port) }),
        )
    }
}

/// How a connection goes on.
pub open spec fn socks_step(phase: SocksPhaseView, event: EventView, bypass: Set<Seq<char>>) -> (
    SocksPhaseView,
    StepView,
) {
    match (phase, event) {
        (SocksPhaseView::Resolving { host, port }, EventView::Resolved(r)) => match address_in(r) {
            Some(addr) => (
                SocksPhaseView::Dialing { host, port, fistbump: true },
                silent(ActView::Dial { addr: with_port(addr, port) }),
            ),
            None => (
                SocksPhaseView::Over,
                StepView {
                    write: socks_reply(0),
                    act: page_act(host, port, unresolved_page(r, host)),
                },
            ),
        },
        (SocksPhaseView::Dialing { host, port, fistbump }, EventView::Dialed(ok)) => if !ok {
            if fistbump {
                (
                    SocksPhaseView::Over,
                    StepView {
                        write: socks_reply(0),
                        act: page_act(host, port, no_response_page(host)),
                    },
                )
            } else {
                (
                    SocksPhaseView::Over,
                    StepView { write: socks_reply(5), act: ActView::Close },
                )
            }
        } else if port != 443 {
            (SocksPhaseView::Over, StepView { write: socks_reply(0), act: ActView::Pipe })
        } else if fistbump {
            (
                SocksPhaseView::Records { host },
                StepView { write: socks_reply(0), act: ActView::Resolve { host } },
            )
        } else {
            (
                SocksPhaseView::Probing { host },
                StepView { write: socks_reply(0), act: ActView::Probe { host } },
            )
        },
        (SocksPhaseView::Records { host }, EventView::Resolved(r)) => (
            SocksPhaseView::Handshaking { host, tlsa: records_of(r) },
            silent(ActView::Handshake { host }),
        ),
        (SocksPhaseView::Handshaking { host, tlsa }, EventView::TlsDone(cert)) => if vouched(
            tlsa,
            cert,
        ) || bypass.contains(host) {
            (SocksPhaseView::Over, silent(ActView::Relay { host }))
        } else {
            (
                SocksPhaseView::Over,
                silent(page_act(host, 443, unverified_page(host, tlsa.len() > 0))),
            )
        },
        (SocksPhaseView::Probing { host }, EventView::TlsDone(_)) => (
            SocksPhaseView::Over,
            silent(ActView::Relay { host }),
        ),
        (SocksPhaseView::Probing { host }, EventView::TlsRefused) => (
            SocksPhaseView::Over,
            silent(page_act(host, 443, certificate_error_page(host))),
        ),
        (SocksPhaseView::Probing { host }, EventView::TlsNotStarted) => (
            SocksPhaseView::Over,
            silent(page_act(host, 443, ssl_error_page(host))),
        ),
        (SocksPhaseView::Probing { host }, EventView::TlsFailed) => (
            SocksPhaseView::Over,
            silent(page_act(host, 443, ssl_error_page(host))),
        ),
        _ => (SocksPhaseView::Over, silent(ActView::Close)),
    }
}

fn reply_bytes(code: u8) -> (r: Vec<u8>)
    ensures
        r@ == socks_reply(code),
{
    let mut out: Vec<u8> = Vec::new();
    out.push(5);
    out.push(code);
    out.push(0);
    out.push(1);
    out.push(0);
    out.push(0);
    out.push(0);
    out.push(0);
    out.push(0);
    out.push(0);
    assert(out@ =~= socks_reply(code));
    out
}

fn page_action(host: String, port: u16, page: Page) -> (r: Act)
    ensures
        r@ == page_act(host@, port, page@),
{
    let response = error_response(&page);
    if port == 443 {
        Act::TlsPage { host, response }
    } else {
        Act::PlainPage { response }
    }
}

/// Begins a connection.
pub fn start_socks(host: String, port: u16, icann_tlds: &Vec<String>) -> (r: (SocksPhase, Step))
    ensures
        (r.0@, r.1@) == socks_start(host@, port, texts(icann_tlds@)),
{
    if is_fistbump_name(host.as_str(), icann_tlds) {
        let step = silently(Act::Resolve { host: host.clone() });
        (SocksPhase::Resolving { host, port }, step)
    } else {
        let addr = join_port(host.as_str(), port);
        (SocksPhase::Dialing { host, port, fistbump: false }, silently(Act::Dial { addr }))
    }
}

/// Goes on with a connection.
pub fn handle_socks5(phase: SocksPhase, event: Event, bypass: &TextMap<()>) -> (r: (
    SocksPhase,
    Step,
))
    ensures
        (r.0@, r.1@) == socks_step(phase@, event@, bypass@.dom()),
{
    match (phase, event) {
        (SocksPhase::Resolving { host, port }, Event::Resolved(name)) => match pick_address(
            &name,
        ) {
            Some(ip) => {
                let addr = join_port(ip.as_str(), port);
                (SocksPhase::Dialing { host, port, fistbump: true }, silently(Act::Dial { addr }))
            },
            None => {
                let page = page_for_unresolved(&name, host.as_str());
                (
                    SocksPhase::Over,
                    Step { write: reply_bytes(0), act: page_action(host, port, page) },
                )
            },
        },
        (SocksPhase::Dialing { host, port, fistbump }, Event::Dialed(ok)) => {
            if !ok {
                if fistbump {
                    let page = page_for_no_response(host.as_str());
                    (
                        SocksPhase::Over,
                        Step { write: reply_bytes(0), act: page_action(host, port, page) },
                    )
                } else {
                    (SocksPhase::Over, Step { write: reply_bytes(5), act: Act::Close })
                }
            } else if port != 443 {
                (SocksPhase::Over, Step { write: reply_bytes(0), act: Act::Pipe })
            } else if fistbump {
                let act = Act::Resolve { host: host.clone() };
                (SocksPhase::Records { host }, Step { write: reply_bytes(0), act })
            } else {
                let act = Act::Probe { host: host.clone() };
                (SocksPhase::Probing { host }, Step { write: reply_bytes(0), act })
            }
        },
        (SocksPhase::Records { host }, Event::Resolved(r)) => {
            let tlsa = take_records(r);
            let step = silently(Act::Handshake { host: host.clone() });
            (SocksPhase::Handshaking { host, tlsa }, step)
        },
        (SocksPhase::Handshaking { host, tlsa }, Event::TlsDone(cert)) => {
            let bypassed = bypass.contains_key(host.as_str());
            if validate(&cert, &tlsa) || bypassed {
                (SocksPhase::Over, silently(Act::Relay { host }))
            } else {
                let page = page_for_unverified(host.as_str(), tlsa.len() > 0);
                (SocksPhase::Over, silently(page_action(host, 443, page)))
            }
        },
        (SocksPhase::Probing { host }, Event::TlsDone(_)) => (
            SocksPhase::Over,
            silently(Act::Relay { host }),
        ),
        (SocksPhase::Probing { host }, Event::TlsRefused) => {
            let page = page_for_certificate_error(host.as_str());
            (SocksPhase::Over, silently(page_action(host, 443, page)))
        },
        (SocksPhase::Probing { host }, Event::TlsNotStarted) => {
            let page = page_for_ssl_error(host.as_str());
            (SocksPhase::Over, silently(page_action(host, 443, page)))
        },
        (SocksPhase::Probing { host }, Event::TlsFailed) => {
            let page = page_for_ssl_error(host.as_str());
            (SocksPhase::Over, silently(page_action(host, 443, page)))
        },
        _ => (SocksPhase::Over, silently(Act::Close)),
    }
}

// ── What holds of a whole connection ──

/// Where a connection stands after its first `n` events, and what it was told
/// to do last.
pub open spec fn socks_after(
    host: Seq<char>,
    port: u16,
    icann_tlds: Seq<Seq<char>>,
    events: Seq<EventView>,
    bypass: Set<Seq<char>>,
    n: nat,
) -> (SocksPhaseView, StepView)
    decreases n,
{
    if n == 0 {
        socks_start(host, port, icann_tlds)
    } else {
        socks_step(
            socks_after(host, port, icann_tlds, events, bypass, (n - 1) as nat).0,
            events[n - 1],
            bypass,
        )
    }
}

/// Whether the `i`-th of the first `n` events showed a certificate that one of
/// the records vouches for that the event before it brought.
pub open spec fn vouched_at(events: Seq<EventView>, n: nat, i: int) -> bool {
    &&& 1 <= i < n
    &&& match (events[i - 1], events[i]) {
        (EventView::Resolved(r), EventView::TlsDone(cert)) => vouched(records_of(r), cert),
        _ => false,
    }
}

proof fn lemma_socks_phase(
    host: Seq<char>,
    port: u16,
    icann_tlds: Seq<Seq<char>>,
    events: Seq<EventView>,
    bypass: Set<Seq<char>>,
    n: nat,
)
    requires
        n <= events.len(),
        is_fistbump(host, icann_tlds),
    ensures
        match socks_after(host, port, icann_tlds, events, bypass, n).0 {
            SocksPhaseView::Resolving { host: h, port: p } => h == host && p == port,
            SocksPhaseView::Dialing { host: h, port: p, fistbump } => h == host && p == port
                && fistbump,
            SocksPhaseView::Records { host: h } => h == host,
            SocksPhaseView::Handshaking { host: h, tlsa } => h == host && n >= 1 && events[n - 1]
                is Resolved && records_of(events[n - 1]->Resolved_0) == tlsa,
            SocksPhaseView::Probing { .. } => false,
            SocksPhaseView::Over => true,
        },
    decreases n,
{
    if n > 0 {
        lemma_socks_phase(host, port, icann_tlds, events, bypass, (n - 1) as nat);
    }
}

/// On port 443 of a Fistbump name, bytes are passed on only if a TLSA record
/// of the name vouches for the server's certificate, or the user wants to go
/// on all the same.
pub proof fn law_socks_relay_needs_accepted_certificate(
    host: Seq<char>,
    icann_tlds: Seq<Seq<char>>,
    events: Seq<EventView>,
    bypass: Set<Seq<char>>,
    n: nat,
)
    requires
        n <= events.len(),
        is_fistbump(host, icann_tlds),
    ensures
        ({
            let act = socks_after(host, 443, icann_tlds, events, bypass, n).1.act;
            &&& act is Relay ==> bypass.contains(host) || exists|i: int|
                #[trigger] vouched_at(events, n, i)
            &&& act !is Pipe
            &&& act !is Tunnel
        }),
{
    if n > 0 {
        let before = socks_after(host, 443, icann_tlds, events, bypass, (n - 1) as nat).0;
        lemma_socks_phase(host, 443, icann_tlds, events, bypass, (n - 1) as nat);
        if socks_after(host, 443, icann_tlds, events, bypass, n).1.act is Relay
            && !bypass.contains(host) {
            assert(vouched_at(events, n, n - 1));
        }
    }
}

/// What a client sends to go to an address: a greeting with its methods, and a
/// request with the kind of the address and the address.
pub open spec fn hello_address(methods: Seq<u8>, kind: u8, address: Seq<u8>, port: u16) -> Seq<
    u8,
> {
    seq![5u8, methods.len() as u8] + methods + seq![5u8, 1u8, 0u8, kind] + address + be(
        port as nat,
        2,
    )
}

/// A client that asks for an address is understood too: four bytes for an IPv4
/// address, sixteen for an IPv6 address.
pub proof fn law_address_is_understood(
    methods: Seq<u8>,
    address: Seq<u8>,
    port: u16,
    after: Seq<u8>,
)
    requires
        methods.len() <= 255,
    ensures
        address.len() == 4 ==> greeted(
            GreetingView::Version,
            hello_address(methods, 1, address, port) + after,
            5,
        ) == Some(
            Ok::<(Seq<char>, nat, Seq<u8>), Seq<char>>(
                (ipv4_in(address)->Some_0, port as nat, after),
            ),
        ),
        address.len() == 16 ==> greeted(
            GreetingView::Version,
            hello_address(methods, 4, address, port) + after,
            5,
        ) == Some(
            Ok::<(Seq<char>, nat, Seq<u8>), Seq<char>>(
                (ipv6_in(address)->Some_0, port as nat, after),
            ),
        ),
{
    if address.len() == 4 {
        lemma_address(methods, 1, address, port, after, ipv4_in(address)->Some_0);
    }
    if address.len() == 16 {
        lemma_address(methods, 4, address, port, after, ipv6_in(address)->Some_0);
    }
}

proof fn lemma_address(
    methods: Seq<u8>,
    kind: u8,
    address: Seq<u8>,
    port: u16,
    after: Seq<u8>,
    host: Seq<char>,
)
    requires
        methods.len() <= 255,
        kind == 1 && address.len() == 4 && host == ipv4_in(address)->Some_0 || kind == 4
            && address.len() == 16 && host == ipv6_in(address)->Some_0,
    ensures
        greeted(
            GreetingView::Version,
            hello_address(methods, kind, address, port) + after,
            5,
        ) == Some(Ok::<(Seq<char>, nat, Seq<u8>), Seq<char>>((host, port as nat, after))),
{
    let m = methods.len();
    let p = be(port as nat, 2);
    lemma_pow256_values();
    law_be_read_write(port as nat, 2);
    let goal = Some(
        Ok::<(Seq<char>, nat, Seq<u8>), Seq<char>>((host, port as nat, after)),
    );
    let g = if kind == 1 {
        GreetingView::Ipv4
    } else {
        GreetingView::Ipv6
    };
    let b4 = p + after;
    let b3 = address + b4;
    let b2 = seq![5u8, 1u8, 0u8, kind] + b3;
    let b1 = methods + b2;
    let b0 = seq![5u8, m as u8] + b1;
    assert(greeted(GreetingView::Port(host), b4, 1) == goal) by {
        assert(b4.take(2) =~= p);
        assert(b4.skip(2) =~= after);
    }
    assert(greeted(g, b3, 2) == goal) by {
        assert(b3.take(address.len() as int) =~= address);
        assert(b3.skip(address.len() as int) =~= b4);
    }
    assert(greeted(GreetingView::Request, b2, 3) == goal) by {
        assert(b2.take(4) =~= seq![5u8, 1u8, 0u8, kind]);
        assert(b2.skip(4) =~= b3);
    }
    assert(greeted(GreetingView::Methods(m), b1, 4) == goal) by {
        assert(b1.skip(m as int) =~= b2);
    }
    assert(greeted(GreetingView::Version, b0, 5) == goal) by {
        assert(b0.take(2) =~= seq![5u8, m as u8]);
        assert(b0.skip(2) =~= b1);
    }
    assert(hello_address(methods, kind, address, port) + after =~= b0);
}

/// A client of another version, one that wants anything but a connection, and
/// one with another kind of address are turned away; whatever methods a client
/// offers, it is told to use none.
pub proof fn law_others_are_turned_away(n: nat, b: Seq<u8>)
    requires
        b.len() >= 4,
    ensures
        b[0] != 5 ==> heard(GreetingView::Version, b) is Error && heard(GreetingView::Request, b)
            is Error,
        b[1] != 1 ==> heard(GreetingView::Request, b) is Error,
        b[3] != 1 && b[3] != 3 && b[3] != 4 ==> heard(GreetingView::Request, b) is Error,
        heard(GreetingView::Methods(n), b) matches HeardView::Reply(said, _) && said.len() == 2
            && said[0] == 5 && said[1] == 0,
{
}

/// What a client is told: ten bytes, of which the second says how it went.
pub open spec fn tells(written: Seq<u8>, code: u8) -> bool {
    written == seq![5u8, code, 0u8, 1u8, 0u8, 0u8, 0u8, 0u8, 0u8, 0u8]
}

/// How a connection to an ordinary name goes: it is dialled by its name and
/// port. On any port but 443 its bytes are passed on as they are; on that one
/// the certificate of the server is checked first, and what is wrong with it is
/// shown. A server that cannot be reached is reported as such.
pub proof fn law_ordinary_connection(
    host: Seq<char>,
    port: u16,
    icann_tlds: Seq<Seq<char>>,
    cert: Seq<u8>,
    bypass: Set<Seq<char>>,
)
    requires
        !is_fistbump(host, icann_tlds),
    ensures
        ({
            let (p0, s0) = socks_start(host, port, icann_tlds);
            let (p1, s1) = socks_step(p0, EventView::Dialed(true), bypass);
            let (p2, s2) = socks_step(p0, EventView::Dialed(false), bypass);
            &&& s0 == silent(ActView::Dial { addr: host + ":"@ + decimal(port as nat) })
            &&& tells(s1.write, 0)
            &&& tells(s2.write, 5) && s2.act == ActView::Close
            &&& port != 443 ==> s1.act == ActView::Pipe
            &&& port == 443 ==> s1.act == (ActView::Probe { host })
            &&& port == 443 ==> {
                &&& socks_step(p1, EventView::TlsDone(cert), bypass).1 == silent(
                    ActView::Relay { host },
                )
                &&& socks_step(p1, EventView::TlsRefused, bypass).1 == silent(
                    ActView::TlsPage {
                        host,
                        response: page_response(certificate_error_page(host)),
                    },
                )
                &&& socks_step(p1, EventView::TlsFailed, bypass).1 == silent(
                    ActView::TlsPage { host, response: page_response(ssl_error_page(host)) },
                )
                &&& socks_step(p1, EventView::TlsNotStarted, bypass).1 == silent(
                    ActView::TlsPage { host, response: page_response(ssl_error_page(host)) },
                )
            }
        }),
{
}

/// How a connection to a Fistbump name goes: the name is looked up and its first
/// address dialled on the port that was asked for. On port 443 its records are
/// looked up again, the certificate is held against those, and what is not
/// vouched for is shown unless the user wants to go on; on any other port the
/// bytes are passed on. What does not come about is explained on a page, over
/// TLS on port 443 and in the open elsewhere.
pub proof fn law_fistbump_connection(
    host: Seq<char>,
    port: u16,
    icann_tlds: Seq<Seq<char>>,
    found: Resolved,
    ip: Seq<char>,
    again: Resolved,
    cert: Seq<u8>,
    bypass: Set<Seq<char>>,
)
    requires
        is_fistbump(host, icann_tlds),
        found.ipv4 == Some(ip) || found.ipv4 is None && found.ipv6 == Some(ip),
    ensures
        ({
            let (p0, s0) = socks_start(host, port, icann_tlds);
            let (p1, s1) = socks_step(p0, EventView::Resolved(Resolution::Found(found)), bypass);
            let (p2, s2) = socks_step(p1, EventView::Dialed(true), bypass);
            let (p3, s3) = socks_step(p2, EventView::Resolved(Resolution::Found(again)), bypass);
            let (p4, s4) = socks_step(p3, EventView::TlsDone(cert), bypass);
            let no = socks_step(p1, EventView::Dialed(false), bypass).1;
            &&& s0 == silent(ActView::Resolve { host })
            &&& s1 == silent(ActView::Dial { addr: ip + ":"@ + decimal(port as nat) })
            &&& tells(s2.write, 0)
            &&& port != 443 ==> s2.act == ActView::Pipe
            &&& port == 443 ==> s2.act == (ActView::Resolve { host })
            &&& port == 443 ==> s3 == silent(ActView::Handshake { host })
            &&& port == 443 && (vouched(again.tlsa, cert) || bypass.contains(host)) ==> s4
                == silent(ActView::Relay { host })
            &&& port == 443 && !vouched(again.tlsa, cert) && !bypass.contains(host) ==> s4
                == silent(
                ActView::TlsPage {
                    host,
                    response: page_response(unverified_page(host, again.tlsa.len() > 0)),
                },
            )
            &&& tells(no.write, 0)
            &&& port == 443 ==> no.act == (ActView::TlsPage {
                host,
                response: page_response(no_response_page(host)),
            })
            &&& port != 443 ==> no.act == (ActView::PlainPage {
                response: page_response(no_response_page(host)),
            })
            &&& forall|r: Resolution|
                r !is Found ==> {
                    let s = (#[trigger] socks_step(p0, EventView::Resolved(r), bypass)).1;
                    tells(s.write, 0) && if port == 443 {
                        s.act == (ActView::TlsPage {
                            host,
                            response: page_response(unresolved_page(r, host)),
                        })
                    } else {
                        s.act == (ActView::PlainPage {
                            response: page_response(unresolved_page(r, host)),
                        })
                    }
                }
        }),
{
}

} // verus!
