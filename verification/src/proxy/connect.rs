//! `CONNECT` requests: tunnels for ordinary names, and for Fistbump names a
//! connection whose certificate is checked against the records of the name.

use crate::proxy::dane::{validate, vouched};
use crate::proxy::dns::{tlsa_views, Resolution, Resolved, Tlsa, TlsaRecord};
use crate::proxy::pages::{
    error_response, no_response_page, page_for_no_response, page_for_unresolved,
    page_for_unverified, page_response, unresolved_page, unverified_page, Page, PageView,
};
use crate::proxy::request::{
    host_port, is_fistbump, is_fistbump_name, law_host_and_port, law_top_level_decides,
    parse_host_port,
};
use crate::proxy::steps::{
    address_in, bytes_of, join_port, pick_address, records_of, silent, silently, take_records,
    with_port, Act, ActView, Event, EventView, Step, StepView,
};
use crate::text::{concat3, decimal, lacks, text_of, texts};
use crate::text_map::TextMap;
use vstd::prelude::*;
use vstd::utf8::encode_utf8;

verus! {

/// Where a `CONNECT` request stands.
pub enum Phase {
    /// The name is being looked up.
    Resolving { host: String, port: u16 },
    /// The server is being connected to.
    Dialing { host: String, tlsa: Vec<TlsaRecord> },
    /// The TLS handshake with the server is going on.
    Handshaking { host: String, tlsa: Vec<TlsaRecord> },
    /// A certificate for the browser is being made.
    Minting { host: String },
    /// All is decided.
    Over,
}

pub enum PhaseView {
    Resolving { host: Seq<char>, port: u16 },
    Dialing { host: Seq<char>, tlsa: Seq<Tlsa> },
    Handshaking { host: Seq<char>, tlsa: Seq<Tlsa> },
    Minting { host: Seq<char> },
    Over,
}

impl View for Phase {
    type V = PhaseView;

    open spec fn view(&self) -> PhaseView {
        match self {
            Phase::Resolving { host, port } => PhaseView::Resolving { host: host@, port: *port },
            Phase::Dialing { host, tlsa } => PhaseView::Dialing {
                host: host@,
                tlsa: tlsa_views(tlsa@),
            },
            Phase::Handshaking { host, tlsa } => PhaseView::Handshaking {
                host: host@,
                tlsa: tlsa_views(tlsa@),
            },
            Phase::Minting { host } => PhaseView::Minting { host: host@ },
            Phase::Over => PhaseView::Over,
        }
    }
}

/// What tells the browser that its tunnel is open.
pub open spec fn established() -> Seq<u8> {
    encode_utf8("HTTP/1.1 200 Connection Established\r\n\r\n"@)
}

/// A page through the tunnel.
pub open spec fn tunnel_page(host: Seq<char>, p: PageView) -> StepView {
    StepView {
        write: established(),
        act: ActView::TlsPage { host, response: page_response(p) },
    }
}

/// A refusal of the tunnel.
pub open spec fn refusal(line: Seq<char>) -> StepView {
    StepView { write: encode_utf8(line), act: ActView::Close }
}

/// How a `CONNECT` request begins.
pub open spec fn connect_start(target: Seq<char>, icann_tlds: Seq<Seq<char>>) -> (
    PhaseView,
    StepView,
) {
    let (host, port) = host_port(target, 443);
    if is_fistbump(host, icann_tlds) {
        (PhaseView::Resolving { host, port }, silent(ActView::Resolve { host }))
    } else {
        (PhaseView::Over, silent(ActView::Tunnel { host, port }))
    }
}

/// How a `CONNECT` request goes on. `bypass` are the hosts that the user
/// wants to go on to whatever their certificate.
pub open spec fn connect_step(phase: PhaseView, event: EventView, bypass: Set<Seq<char>>) -> (
    PhaseView,
    StepView,
) {
    match (phase, event) {
        (PhaseView::Resolving { host, port }, EventView::Resolved(r)) => match address_in(r) {
            Some(addr) => (
                PhaseView::Dialing { host, tlsa: records_of(r) },
                silent(ActView::Dial { addr: with_port(addr, port) }),
            ),
            None => (PhaseView::Over, tunnel_page(host, unresolved_page(r, host))),
        },
        (PhaseView::Dialing { host, tlsa }, EventView::Dialed(ok)) => if ok {
            (PhaseView::Handshaking { host, tlsa }, silent(ActView::Handshake { host }))
        } else {
            (PhaseView::Over, tunnel_page(host, no_response_page(host)))
        },
        (PhaseView::Handshaking { host, tlsa }, EventView::TlsNotStarted) => (
            PhaseView::Over,
            refusal("HTTP/1.1 502 TLS Init Failed\r\n\r\n"@),
        ),
        (PhaseView::Handshaking { host, tlsa }, EventView::TlsFailed) => (
            PhaseView::Over,
            refusal("HTTP/1.1 502 TLS Handshake Failed\r\n\r\n"@),
        ),
        (PhaseView::Handshaking { host, tlsa }, EventView::TlsDone(cert)) => if vouched(tlsa, cert)
            || bypass.contains(host) {
            (PhaseView::Minting { host }, silent(ActView::Mint { host }))
        } else {
            (PhaseView::Over, tunnel_page(host, unverified_page(host, tlsa.len() > 0)))
        },
        (PhaseView::Minting { host }, EventView::Minted(ok)) => if ok {
            (
                PhaseView::Over,
                StepView { write: established(), act: ActView::Relay { host } },
            )
        } else {
            (PhaseView::Over, refusal("HTTP/1.1 502 Internal Error\r\n\r\n"@))
        },
        _ => (PhaseView::Over, silent(ActView::Close)),
    }
}

fn page_step(host: String, page: Page) -> (r: Step)
    ensures
        r@ == tunnel_page(host@, page@),
{
    Step {
        write: bytes_of("HTTP/1.1 200 Connection Established\r\n\r\n"),
        act: Act::TlsPage { host, response: error_response(&page) },
    }
}

fn refuse(line: &str) -> (r: Step)
    ensures
        r@ == refusal(line@),
{
    Step { write: bytes_of(line), act: Act::Close }
}

/// Begins a `CONNECT` request.
pub fn start_connect(target: &str, icann_tlds: &Vec<String>) -> (r: (Phase, Step))
    ensures
        (r.0@, r.1@) == connect_start(target@, texts(icann_tlds@)),
{
    let (host, port) = parse_host_port(target);
    if is_fistbump_name(host.as_str(), icann_tlds) {
        let step = silently(Act::Resolve { host: host.clone() });
        (Phase::Resolving { host, port }, step)
    } else {
        (Phase::Over, silently(Act::Tunnel { host, port }))
    }
}

/// Goes on with a `CONNECT` request.
pub fn handle_connect(phase: Phase, event: Event, bypass: &TextMap<()>) -> (r: (Phase, Step))
    ensures
        (r.0@, r.1@) == connect_step(phase@, event@, bypass@.dom()),
{
    match (phase, event) {
        (Phase::Resolving { host, port }, Event::Resolved(name)) => match pick_address(&name) {
            Some(ip) => {
                let addr = join_port(ip.as_str(), port);
                (Phase::Dialing { host, tlsa: take_records(name) }, silently(Act::Dial { addr }))
            },
            None => {
                let page = page_for_unresolved(&name, host.as_str());
                (Phase::Over, page_step(host, page))
            },
        },
        (Phase::Dialing { host, tlsa }, Event::Dialed(ok)) => {
            if ok {
                let step = silently(Act::Handshake { host: host.clone() });
                (Phase::Handshaking { host, tlsa }, step)
            } else {
                let page = page_for_no_response(host.as_str());
                (Phase::Over, page_step(host, page))
            }
        },
        (Phase::Handshaking { host: _, tlsa: _ }, Event::TlsNotStarted) => (
            Phase::Over,
            refuse("HTTP/1.1 502 TLS Init Failed\r\n\r\n"),
        ),
        (Phase::Handshaking { host: _, tlsa: _ }, Event::TlsFailed) => (
            Phase::Over,
            refuse("HTTP/1.1 502 TLS Handshake Failed\r\n\r\n"),
        ),
        (Phase::Handshaking { host, tlsa }, Event::TlsDone(cert)) => {
            let bypassed = bypass.contains_key(host.as_str());
            if validate(&cert, &tlsa) || bypassed {
                let step = silently(Act::Mint { host: host.clone() });
                (Phase::Minting { host }, step)
            } else {
                let page = page_for_unverified(host.as_str(), tlsa.len() > 0);
                (Phase::Over, page_step(host, page))
            }
        },
        (Phase::Minting { host }, Event::Minted(ok)) => {
            if ok {
                (
                    Phase::Over,
                    Step {
                        write: bytes_of("HTTP/1.1 200 Connection Established\r\n\r\n"),
                        act: Act::Relay { host },
                    },
                )
            } else {
                (Phase::Over, refuse("HTTP/1.1 502 Internal Error\r\n\r\n"))
            }
        },
        _ => (Phase::Over, silently(Act::Close)),
    }
}

// ── Tunnels ──

/// How long to wait for a server to accept a tunnel, in seconds.
pub const TUNNEL_DIAL_SECS: u64 = 10;

/// How long a tunnel may be idle, in seconds.
pub const TUNNEL_IDLE_SECS: u64 = 300;

/// What becomes of a tunnel: the bytes to write to the browser, and why the
/// tunnel failed, if it did.
pub struct Tunnel {
    pub write: Vec<u8>,
    pub error: Option<String>,
}

/// Opens a tunnel, if one of the addresses of the server was reached.
pub fn tunnel_direct(host: &str, port: u16, reached: bool) -> (r: Tunnel)
    ensures
        r.write@ == if reached {
            established()
        } else {
            encode_utf8(
                "HTTP/1.1 502 Bad Gateway\r\nContent-Length: 0\r\nConnection: close\r\n\r\n"@,
            )
        },
        text_of(r.error) == if reached {
            None
        } else {
            Some("tunnel_direct: connect to "@ + with_port(host@, port) + " failed"@)
        },
{
    if reached {
        Tunnel { write: bytes_of("HTTP/1.1 200 Connection Established\r\n\r\n"), error: None }
    } else {
        Tunnel {
            write: bytes_of(
                "HTTP/1.1 502 Bad Gateway\r\nContent-Length: 0\r\nConnection: close\r\n\r\n",
            ),
            error: Some(
                concat3("tunnel_direct: connect to ", join_port(host, port).as_str(), " failed"),
            ),
        }
    }
}

// ── What holds of a whole request ──

/// Where a request stands after its first `n` events, and what it was told to
/// do last.
pub open spec fn connect_after(
    target: Seq<char>,
    icann_tlds: Seq<Seq<char>>,
    events: Seq<EventView>,
    bypass: Set<Seq<char>>,
    n: nat,
) -> (PhaseView, StepView)
    decreases n,
{
    if n == 0 {
        connect_start(target, icann_tlds)
    } else {
        connect_step(
            connect_after(target, icann_tlds, events, bypass, (n - 1) as nat).0,
            events[n - 1],
            bypass,
        )
    }
}

/// Whether an event says that a name resolved with these records.
pub open spec fn brings_records(e: EventView, tlsa: Seq<Tlsa>) -> bool {
    match e {
        EventView::Resolved(Resolution::Found(r)) => r.tlsa == tlsa,
        _ => false,
    }
}

/// Whether an event shows a certificate that one of the records vouches for.
pub open spec fn shows_vouched(e: EventView, tlsa: Seq<Tlsa>) -> bool {
    match e {
        EventView::TlsDone(cert) => vouched(tlsa, cert),
        _ => false,
    }
}

/// Whether these are the records that a name resolved to among the first `n`
/// events.
pub open spec fn resolved_to(events: Seq<EventView>, n: nat, tlsa: Seq<Tlsa>) -> bool {
    exists|i: int| 0 <= i < n && brings_records(#[trigger] events[i], tlsa)
}

/// Whether a certificate was shown among the first `n` events that a record of
/// the name vouches for.
pub open spec fn vouched_among(events: Seq<EventView>, n: nat) -> bool {
    exists|i: int, tlsa: Seq<Tlsa>|
        0 <= i < n && #[trigger] shows_vouched(events[i], tlsa) && resolved_to(events, n, tlsa)
}

/// Whether the certificate of a server is accepted: a record of the name
/// vouches for it, or the user wants to go on all the same.
pub open spec fn accepted(
    host: Seq<char>,
    events: Seq<EventView>,
    bypass: Set<Seq<char>>,
    n: nat,
) -> bool {
    bypass.contains(host) || vouched_among(events, n)
}

proof fn lemma_one_more_event(events: Seq<EventView>, n: nat)
    ensures
        forall|tlsa: Seq<Tlsa>|
            #[trigger] resolved_to(events, n, tlsa) ==> resolved_to(events, n + 1, tlsa),
        vouched_among(events, n) ==> vouched_among(events, n + 1),
{
    assert forall|tlsa: Seq<Tlsa>| #[trigger] resolved_to(events, n, tlsa) implies resolved_to(
        events,
        n + 1,
        tlsa,
    ) by {
        let i = choose|i: int| 0 <= i < n && brings_records(#[trigger] events[i], tlsa);
        assert(brings_records(events[i], tlsa));
    }
    if vouched_among(events, n) {
        let (i, tlsa) = choose|i: int, tlsa: Seq<Tlsa>|
            0 <= i < n && #[trigger] shows_vouched(events[i], tlsa) && resolved_to(
                events,
                n,
                tlsa,
            );
        assert(shows_vouched(events[i], tlsa) && resolved_to(events, n + 1, tlsa));
    }
}

/// What a phase says of the events that led to it.
pub open spec fn phase_ok(
    phase: PhaseView,
    host: Seq<char>,
    events: Seq<EventView>,
    bypass: Set<Seq<char>>,
    n: nat,
) -> bool {
    match phase {
        PhaseView::Resolving { host: h, port } => h == host,
        PhaseView::Dialing { host: h, tlsa } => h == host && resolved_to(events, n, tlsa),
        PhaseView::Handshaking { host: h, tlsa } => h == host && resolved_to(events, n, tlsa),
        PhaseView::Minting { host: h } => h == host && accepted(host, events, bypass, n),
        PhaseView::Over => true,
    }
}

proof fn lemma_connect_phase(
    target: Seq<char>,
    icann_tlds: Seq<Seq<char>>,
    events: Seq<EventView>,
    bypass: Set<Seq<char>>,
    n: nat,
)
    requires
        n <= events.len(),
    ensures
        phase_ok(
            connect_after(target, icann_tlds, events, bypass, n).0,
            host_port(target, 443).0,
            events,
            bypass,
            n,
        ),
    decreases n,
{
    if n > 0 {
        let m = (n - 1) as nat;
        let before = connect_after(target, icann_tlds, events, bypass, m).0;
        let e = events[n - 1];
        lemma_connect_phase(target, icann_tlds, events, bypass, m);
        lemma_one_more_event(events, m);
        match (before, e) {
            (PhaseView::Resolving { host, port }, EventView::Resolved(Resolution::Found(r))) => {
                assert(brings_records(events[n - 1], r.tlsa));
            },
            (PhaseView::Handshaking { host, tlsa }, EventView::TlsDone(cert)) => {
                if vouched(tlsa, cert) {
                    assert(shows_vouched(events[n - 1], tlsa) && resolved_to(events, n, tlsa));
                }
            },
            _ => {},
        }
    }
}

/// The proxy passes bytes between a browser and the server of a Fistbump name
/// only if a TLSA record of the name vouches for the server's certificate, or
/// the user wants to go on all the same.
pub proof fn law_relay_needs_accepted_certificate(
    target: Seq<char>,
    icann_tlds: Seq<Seq<char>>,
    events: Seq<EventView>,
    bypass: Set<Seq<char>>,
    n: nat,
)
    requires
        n <= events.len(),
        is_fistbump(host_port(target, 443).0, icann_tlds),
    ensures
        ({
            let act = connect_after(target, icann_tlds, events, bypass, n).1.act;
            &&& act is Relay ==> accepted(host_port(target, 443).0, events, bypass, n)
            &&& act !is Pipe
            &&& act !is Tunnel
        }),
{
    if n > 0 {
        lemma_connect_phase(target, icann_tlds, events, bypass, (n - 1) as nat);
        lemma_one_more_event(events, (n - 1) as nat);
    }
}

/// A tunnel to an ordinary name is opened without anything else being done.
pub proof fn law_ordinary_names_are_tunnelled(target: Seq<char>, icann_tlds: Seq<Seq<char>>)
    requires
        !is_fistbump(host_port(target, 443).0, icann_tlds),
    ensures
        connect_start(target, icann_tlds).1 == silent(
            ActView::Tunnel {
                host: host_port(target, 443).0,
                port: host_port(target, 443).1,
            },
        ),
{
}

/// How a request for a Fistbump name goes through: the name is looked up, the
/// first address that it has is dialled on the port of the request, the
/// handshake names the host, and the certificate that the server shows is held
/// against the records that came with the address; if it is accepted, the
/// browser is given a certificate for the same host, told that its tunnel is
/// open, and the bytes are passed on.
pub proof fn law_connect_goes_through(
    host: Seq<char>,
    port: u16,
    icann_tlds: Seq<Seq<char>>,
    found: Resolved,
    ip: Seq<char>,
    cert: Seq<u8>,
    bypass: Set<Seq<char>>,
)
    requires
        is_fistbump(host, icann_tlds),
        found.ipv4 == Some(ip) || found.ipv4 is None && found.ipv6 == Some(ip),
        vouched(found.tlsa, cert) || bypass.contains(host),
    ensures
        ({
            let target = host + ":"@ + decimal(port as nat);
            let events = seq![
                EventView::Resolved(Resolution::Found(found)),
                EventView::Dialed(true),
                EventView::TlsDone(cert),
                EventView::Minted(true),
            ];
            let at = |n: nat| connect_after(target, icann_tlds, events, bypass, n).1;
            &&& at(0) == silent(ActView::Resolve { host })
            &&& at(1) == silent(ActView::Dial { addr: ip + ":"@ + decimal(port as nat) })
            &&& at(2) == silent(ActView::Handshake { host })
            &&& at(3) == silent(ActView::Mint { host })
            &&& at(4) == (StepView {
                write: encode_utf8("HTTP/1.1 200 Connection Established\r\n\r\n"@),
                act: ActView::Relay { host },
            })
        }),
{
    law_host_and_port(host, port, host, 443);
    reveal_with_fuel(connect_after, 5);
}

/// What a browser gets where a request for a Fistbump name does not go through:
/// through its tunnel, the page for a name without an address, for a server
/// that does not answer, or for a certificate that nothing vouches for, each
/// about the host that was asked for.
pub proof fn law_connect_explains_itself(
    host: Seq<char>,
    port: u16,
    tlsa: Seq<Tlsa>,
    r: Resolution,
    cert: Seq<u8>,
    bypass: Set<Seq<char>>,
)
    ensures
        r !is Found ==> connect_step(
            PhaseView::Resolving { host, port },
            EventView::Resolved(r),
            bypass,
        ).1 == (StepView {
            write: encode_utf8("HTTP/1.1 200 Connection Established\r\n\r\n"@),
            act: ActView::TlsPage { host, response: page_response(unresolved_page(r, host)) },
        }),
        connect_step(PhaseView::Dialing { host, tlsa }, EventView::Dialed(false), bypass).1 == (
        StepView {
            write: encode_utf8("HTTP/1.1 200 Connection Established\r\n\r\n"@),
            act: ActView::TlsPage { host, response: page_response(no_response_page(host)) },
        }),
        !vouched(tlsa, cert) && !bypass.contains(host) ==> connect_step(
            PhaseView::Handshaking { host, tlsa },
            EventView::TlsDone(cert),
            bypass,
        ).1 == (StepView {
            write: encode_utf8("HTTP/1.1 200 Connection Established\r\n\r\n"@),
            act: ActView::TlsPage {
                host,
                response: page_response(unverified_page(host, tlsa.len() > 0)),
            },
        }),
        connect_step(PhaseView::Handshaking { host, tlsa }, EventView::TlsFailed, bypass).1 == (
        StepView {
            write: encode_utf8("HTTP/1.1 502 TLS Handshake Failed\r\n\r\n"@),
            act: ActView::Close,
        }),
        connect_step(PhaseView::Handshaking { host, tlsa }, EventView::TlsNotStarted, bypass).1 == (
        StepView {
            write: encode_utf8("HTTP/1.1 502 TLS Init Failed\r\n\r\n"@),
            act: ActView::Close,
        }),
        connect_step(PhaseView::Minting { host }, EventView::Minted(false), bypass).1 == (
        StepView {
            write: encode_utf8("HTTP/1.1 502 Internal Error\r\n\r\n"@),
            act: ActView::Close,
        }),
{
}

/// A request for an ordinary name is a tunnel to that name on that port; where
/// no port is named it is 443.
pub proof fn law_tunnel_goes_to_the_target(
    host: Seq<char>,
    t: Seq<char>,
    port: u16,
    icann_tlds: Seq<Seq<char>>,
)
    requires
        lacks(t, '.'),
        icann_tlds.contains(t),
    ensures
        connect_start(host + "."@ + t + ":"@ + decimal(port as nat), icann_tlds).1 == silent(
            ActView::Tunnel { host: host + "."@ + t, port },
        ),
        lacks(host + "."@ + t, ':') ==> connect_start(host + "."@ + t, icann_tlds).1 == silent(
            ActView::Tunnel { host: host + "."@ + t, port: 443 },
        ),
{
    law_host_and_port(host + "."@ + t, port, t, 443);
    law_top_level_decides(host, t, icann_tlds);
}

/// A tunnel that comes about is announced to the browser, and one that does not
/// is refused, with the place that was not reached in the error.
pub proof fn law_tunnels_are_announced(host: &str, port: u16, reached: bool, t: Tunnel)
    requires
        call_ensures(tunnel_direct, (host, port, reached), t),
    ensures
        reached ==> t.error is None && t.write@ == encode_utf8(
            "HTTP/1.1 200 Connection Established\r\n\r\n"@,
        ),
        !reached ==> t.error is Some && t.write@ == encode_utf8(
            "HTTP/1.1 502 Bad Gateway\r\nContent-Length: 0\r\nConnection: close\r\n\r\n"@,
        ) && t.error->Some_0@ == "tunnel_direct: connect to "@ + (host@ + ":"@ + decimal(
            port as nat,
        )) + " failed"@,
{
}

} // verus!
