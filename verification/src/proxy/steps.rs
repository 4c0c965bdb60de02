//! What the handlers of the proxy tell the connection to do, and what they are
//! told of it.

use crate::proxy::dns::{tlsa_views, Resolution, ResolveResult, Resolved, Tlsa, TlsaRecord};
use crate::text::{decimal, push_decimal, text_of};
use vstd::prelude::*;
use vstd::utf8::encode_utf8;

verus! {

/// What happened on a connection.
pub enum Event {
    /// A name was looked up.
    Resolved(ResolveResult),
    /// A connection to the server was tried: whether it came about.
    Dialed(bool),
    /// The TLS connection could not even be set up.
    TlsNotStarted,
    /// The TLS handshake broke off.
    TlsFailed,
    /// The certificate was refused in the TLS handshake.
    TlsRefused,
    /// The TLS handshake is over: the certificate of the server.
    TlsDone(Vec<u8>),
    /// A certificate for the browser was asked for: whether there is one.
    Minted(bool),
}

pub enum EventView {
    Resolved(Resolution),
    Dialed(bool),
    TlsNotStarted,
    TlsFailed,
    TlsRefused,
    TlsDone(Seq<u8>),
    Minted(bool),
}

impl View for Event {
    type V = EventView;

    open spec fn view(&self) -> EventView {
        match self {
            Event::Resolved(r) => EventView::Resolved(r@),
            Event::Dialed(ok) => EventView::Dialed(*ok),
            Event::TlsNotStarted => EventView::TlsNotStarted,
            Event::TlsFailed => EventView::TlsFailed,
            Event::TlsRefused => EventView::TlsRefused,
            Event::TlsDone(c) => EventView::TlsDone(c@),
            Event::Minted(ok) => EventView::Minted(*ok),
        }
    }
}

/// What to do next.
pub enum Act {
    /// Look a name up.
    Resolve { host: String },
    /// Connect to the server.
    Dial { addr: String },
    /// Do the TLS handshake with the server, whatever its certificate.
    Handshake { host: String },
    /// Do the TLS handshake, with the certificate checked by the usual roots.
    Probe { host: String },
    /// Make a certificate for the browser.
    Mint { host: String },
    /// Speak TLS to the browser and pass everything on in both directions.
    Relay { host: String },
    /// Pass the bytes on in both directions as they are.
    Pipe,
    /// Connect and pass the bytes on as they are.
    Tunnel { host: String, port: u16 },
    /// Speak TLS to the browser and answer with this.
    TlsPage { host: String, response: String },
    /// Answer with this.
    PlainPage { response: String },
    /// Send this, and as many bytes of the request behind it, to the server,
    /// and its response to the browser.
    Forward { head: String, body_len: usize },
    /// Nothing more.
    Close,
}

pub enum ActView {
    Resolve { host: Seq<char> },
    Dial { addr: Seq<char> },
    Handshake { host: Seq<char> },
    Probe { host: Seq<char> },
    Mint { host: Seq<char> },
    Relay { host: Seq<char> },
    Pipe,
    Tunnel { host: Seq<char>, port: u16 },
    TlsPage { host: Seq<char>, response: Seq<char> },
    PlainPage { response: Seq<char> },
    Forward { head: Seq<char>, body_len: nat },
    Close,
}

impl View for Act {
    type V = ActView;

    open spec fn view(&self) -> ActView {
        match self {
            Act::Resolve { host } => ActView::Resolve { host: host@ },
            Act::Dial { addr } => ActView::Dial { addr: addr@ },
            Act::Handshake { host } => ActView::Handshake { host: host@ },
            Act::Probe { host } => ActView::Probe { host: host@ },
            Act::Mint { host } => ActView::Mint { host: host@ },
            Act::Relay { host } => ActView::Relay { host: host@ },
            Act::Pipe => ActView::Pipe,
            Act::Tunnel { host, port } => ActView::Tunnel { host: host@, port: *port },
            Act::TlsPage { host, response } => ActView::TlsPage {
                host: host@,
                response: response@,
            },
            Act::PlainPage { response } => ActView::PlainPage { response: response@ },
            Act::Forward { head, body_len } => ActView::Forward {
                head: head@,
                body_len: *body_len as nat,
            },
            Act::Close => ActView::Close,
        }
    }
}

/// Bytes to write to the browser first, and what to do then.
pub struct Step {
    pub write: Vec<u8>,
    pub act: Act,
}

pub struct StepView {
    pub write: Seq<u8>,
    pub act: ActView,
}

impl View for Step {
    type V = StepView;

    open spec fn view(&self) -> StepView {
        StepView { write: self.write@, act: self.act@ }
    }
}

/// Nothing to write.
pub open spec fn silent(act: ActView) -> StepView {
    StepView { write: Seq::empty(), act }
}

pub fn silently(act: Act) -> (r: Step)
    ensures
        r@ == silent(act@),
{
    let write: Vec<u8> = Vec::new();
    assert(write@ =~= Seq::empty());
    Step { write, act }
}

/// The bytes of a text.
pub fn bytes_of(s: &str) -> (r: Vec<u8>)
    ensures
        r@ == encode_utf8(s@),
{
    vstd::slice::slice_to_vec(s.as_bytes())
}

/// The address that a name resolved to, the older kind before the newer.
pub open spec fn address_of(r: Resolved) -> Option<Seq<char>> {
    match r.ipv4 {
        Some(a) => Some(a),
        None => r.ipv6,
    }
}

/// The address to connect to, if looking a name up gave one.
pub open spec fn address_in(r: Resolution) -> Option<Seq<char>> {
    match r {
        Resolution::Found(n) => address_of(n),
        _ => None,
    }
}

/// The records that a name resolved to; none if it did not.
pub open spec fn records_of(r: Resolution) -> Seq<Tlsa> {
    match r {
        Resolution::Found(n) => n.tlsa,
        _ => Seq::empty(),
    }
}

/// A host, a colon and a port.
pub open spec fn with_port(host: Seq<char>, port: u16) -> Seq<char> {
    host + ":"@ + decimal(port as nat)
}

/// The address to connect to, if looking a name up gave one.
pub fn pick_address(r: &ResolveResult) -> (a: Option<String>)
    ensures
        text_of(a) == address_in(r@),
{
    match r {
        ResolveResult::Found(n) => match &n.ipv4 {
            Some(a) => Some(a.clone()),
            None => match &n.ipv6 {
                Some(a) => Some(a.clone()),
                None => None,
            },
        },
        _ => None,
    }
}

/// The records that a name resolved to; none if it did not.
pub fn take_records(r: ResolveResult) -> (v: Vec<TlsaRecord>)
    ensures
        tlsa_views(v@) == records_of(r@),
{
    match r {
        ResolveResult::Found(n) => n.tlsa,
        _ => {
            let v: Vec<TlsaRecord> = Vec::new();
            assert(tlsa_views(v@) =~= Seq::empty());
            v
        },
    }
}

/// A host, a colon and a port.
pub fn join_port(host: &str, port: u16) -> (r: String)
    ensures
        r@ == with_port(host@, port),
{
    let mut out = host.to_owned();
    out.append(":");
    push_decimal(&mut out, port as u64);
    out
}

// ── Passing bytes on ──

/// What reading from one side gave.
#[derive(Clone, Copy, PartialEq, Eq, Structural)]
pub enum ReadOutcome {
    /// The side has closed.
    Ended,
    /// There are bytes.
    Data,
    /// Nothing yet.
    NotYet,
    /// Something went wrong.
    Broken,
}

/// What to do after reading from one side.
#[derive(Clone, Copy, PartialEq, Eq, Structural)]
pub enum Flow {
    Stop,
    Pass,
    Wait,
}

/// Bytes are passed on; an end or an error ends the exchange.
pub fn after_read(outcome: ReadOutcome) -> (r: Flow)
    ensures
        r == (match outcome {
            ReadOutcome::Data => Flow::Pass,
            ReadOutcome::NotYet => Flow::Wait,
            _ => Flow::Stop,
        }),
{
    match outcome {
        ReadOutcome::Data => Flow::Pass,
        ReadOutcome::NotYet => Flow::Wait,
        ReadOutcome::Ended => Flow::Stop,
        ReadOutcome::Broken => Flow::Stop,
    }
}

// ── Listening ──

/// What happened to a listener.
#[derive(Clone, Copy, PartialEq, Eq, Structural)]
pub enum ListenEvent {
    Bound,
    BindFailed,
    AcceptFailed,
}

/// What a listener does next.
#[derive(Clone, Copy, PartialEq, Eq, Structural)]
pub enum ListenAct {
    /// Accept connections.
    Accept,
    /// Wait a second and bind again.
    Rebind,
    /// Give up.
    Quit,
}

/// A listener that can no longer accept binds again; one that cannot bind
/// gives up.
pub fn listener_next(e: ListenEvent) -> (r: ListenAct)
    ensures
        r == (match e {
            ListenEvent::Bound => ListenAct::Accept,
            ListenEvent::AcceptFailed => ListenAct::Rebind,
            ListenEvent::BindFailed => ListenAct::Quit,
        }),
{
    match e {
        ListenEvent::Bound => ListenAct::Accept,
        ListenEvent::AcceptFailed => ListenAct::Rebind,
        ListenEvent::BindFailed => ListenAct::Quit,
    }
}

/// Whether an error of a connection is worth a line in the log. Browsers close
/// connections all the time.
pub fn is_worth_logging(error: &str) -> (r: bool)
    ensures
        r == !(crate::text::contains_text(error@, "connection reset"@)
            || crate::text::contains_text(error@, "broken pipe"@) || crate::text::contains_text(
            error@,
            "eof"@,
        )),
{
    !crate::text::contains(error, "connection reset") && !crate::text::contains(
        error,
        "broken pipe",
    ) && !crate::text::contains(error, "eof")
}

/// What was read is passed on, what is not there yet is waited for, and anything
/// else ends the exchange.
pub proof fn law_what_follows_a_read(outcome: ReadOutcome, next: Flow)
    requires
        call_ensures(after_read, (outcome,), next),
    ensures
        next == Flow::Pass <==> outcome == ReadOutcome::Data,
        next == Flow::Wait <==> outcome == ReadOutcome::NotYet,
        next == Flow::Stop <==> outcome == ReadOutcome::Ended || outcome == ReadOutcome::Broken,
{
}

/// Only a listener that cannot be set up gives up; one that stops accepting is
/// set up again.
pub proof fn law_listeners(e: ListenEvent, next: ListenAct)
    requires
        call_ensures(listener_next, (e,), next),
    ensures
        next == ListenAct::Quit <==> e == ListenEvent::BindFailed,
        next == ListenAct::Rebind <==> e == ListenEvent::AcceptFailed,
        next == ListenAct::Accept <==> e == ListenEvent::Bound,
{
}

} // verus!
