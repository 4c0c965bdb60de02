//! How requests of the browser extension are answered: at once, or once the
//! user has decided.

use crate::extension::request::{
    event_name, field_views, kind_name, Field, FieldView, Kind, Request, RequestView,
};
use crate::json::{check_json, is_json, json_quote, json_quoted, json_text, json_text_at};
use crate::rpc::{error_reply, error_text};
use crate::settings::{with, Settings, SettingsView};
use crate::text::{
    concat2, contains_text, hexadecimal, list_contains, push_hex, stands_at, text_of, texts,
};
use crate::text_map::TextMap;
use crate::wire::{le, le_value, push_all, push_le, read_le};
use vstd::prelude::*;
use vstd::utf8::encode_utf8;

verus! {

/// How long the user may take to decide, in seconds.
pub const APPROVAL_SECS: u64 = 120;

/// How long to wait for the user to open a wallet, in milliseconds.
pub const WALLET_MS: u64 = 60000;

/// How long to wait between looking for an open wallet, in milliseconds.
pub const POLL_MS: u64 = 200;

/// The longest message of the extension, in bytes.
pub const MAX_FRAME: usize = 1048576;

// ── Frames ──

/// How long the message behind these four bytes is; none if it is empty or too
/// long, which ends the connection.
pub open spec fn message_len(prefix: Seq<u8>) -> Option<nat> {
    let n = le_value(prefix);
    if n == 0 || n > MAX_FRAME {
        None
    } else {
        Some(n)
    }
}

/// How long the message behind these four bytes is.
pub fn frame_len(prefix: &[u8; 4]) -> (r: Option<usize>)
    ensures
        match r {
            Some(n) => message_len(prefix@) == Some(n as nat),
            None => message_len(prefix@) is None,
        },
{
    let n: u64 = read_le(prefix);
    if n == 0 || n > MAX_FRAME as u64 {
        None
    } else {
        Some(n as usize)
    }
}

/// A message with its length in front.
pub open spec fn framed(body: Seq<u8>) -> Seq<u8> {
    le(body.len(), 4) + body
}

/// Puts the length in front of a message.
pub fn frame(body: &[u8]) -> (r: Vec<u8>)
    ensures
        r@ == framed(body@),
{
    let mut out: Vec<u8> = Vec::new();
    push_le(&mut out, body.len() as u64, 4);
    push_all(&mut out, body);
    assert(out@ =~= framed(body@));
    out
}

/// Any message of an admissible length is read back from its frame.
pub proof fn law_frame_reads_back(body: Seq<u8>)
    requires
        0 < body.len() <= MAX_FRAME,
    ensures
        framed(body).len() == 4 + body.len(),
        message_len(framed(body).take(4)) == Some(body.len()),
        framed(body).skip(4) == body,
{
    crate::wire::lemma_le_len(body.len(), 4);
    crate::wire::lemma_pow256_values();
    crate::wire::law_le_read_write(body.len(), 4);
    assert(framed(body).take(4) =~= le(body.len(), 4));
    assert(framed(body).skip(4) =~= body);
}

// ── Requests that wait for the user ──

/// A request that waits.
pub struct PendingRequest {
    pub origin: String,
    pub kind: Kind,
}

#[verifier::ext_equal]
pub struct PendingView {
    pub origin: Seq<char>,
    pub kind: Kind,
}

impl View for PendingRequest {
    type V = PendingView;

    open spec fn view(&self) -> PendingView {
        PendingView { origin: self.origin@, kind: self.kind }
    }
}

/// The requests that wait, by their names.
pub struct Registry {
    pub requests: TextMap<PendingRequest>,
}

impl View for Registry {
    type V = Map<Seq<char>, PendingView>;

    open spec fn view(&self) -> Map<Seq<char>, PendingView> {
        self.requests@.map_values(|p: PendingRequest| p@)
    }
}

impl Registry {
    pub fn new() -> (r: Registry)
        ensures
            r@ == Map::<Seq<char>, PendingView>::empty(),
    {
        let r = Registry { requests: TextMap::new() };
        assert(r@ =~= Map::empty());
        r
    }

    fn register(&mut self, id: String, origin: String, kind: Kind)
        ensures
            final(self)@ == old(self)@.insert(id@, PendingView { origin: origin@, kind }),
    {
        let ghost before = self@;
        let ghost key = id@;
        let ghost o = origin@;
        self.requests.insert(id, PendingRequest { origin, kind });
        assert(self@ =~= before.insert(key, PendingView { origin: o, kind }));
    }

    /// Takes a waiting request out.
    pub fn take_pending(&mut self, id: &str) -> (r: Option<PendingRequest>)
        ensures
            final(self)@ == old(self)@.remove(id@),
            match r {
                Some(p) => old(self)@.dom().contains(id@) && p@ == old(self)@[id@],
                None => !old(self)@.dom().contains(id@),
            },
    {
        let ghost before = self@;
        let r = self.requests.remove(id);
        assert(self@ =~= before.remove(id@));
        r
    }
}

/// The name of a request, from the time and the number of requests before it.
pub open spec fn id_text(nanos: nat, n: nat) -> Seq<char> {
    "ext-"@ + hexadecimal(nanos) + "-"@ + hexadecimal(n)
}

/// A name for a request.
pub fn fresh_id(nanos: u64, n: u64) -> (r: String)
    ensures
        r@ == id_text(nanos as nat, n as nat),
{
    let mut out = "ext-".to_owned();
    push_hex(&mut out, nanos);
    out.append("-");
    push_hex(&mut out, n);
    out
}

/// What hexadecimal digits stand for.
pub open spec fn hexadecimal_value(s: Seq<char>) -> nat
    decreases s.len(),
{
    if s.len() == 0 {
        0
    } else {
        hexadecimal_value(s.drop_last()) * 16 + crate::hexes::hex_value(s.last())
    }
}

proof fn lemma_hexadecimal_reads_back(n: nat)
    ensures
        hexadecimal_value(hexadecimal(n)) == n,
        hexadecimal(n).len() > 0,
        !hexadecimal(n).contains('-'),
    decreases n,
{
    let h = hexadecimal(n);
    if n < 16 {
        assert(h.drop_last() =~= Seq::empty());
        assert(hexadecimal_value(h.drop_last()) == 0);
        assert(h.last() != '-');
        assert(crate::hexes::hex_value(h.last()) == n);
    } else {
        lemma_hexadecimal_reads_back(n / 16);
        let front = hexadecimal(n / 16);
        assert(h.drop_last() =~= front);
        assert(h.last() != '-');
        assert(crate::hexes::hex_value(h.last()) == n % 16);
        assert forall|i: int| 0 <= i < h.len() implies h[i] != '-' by {
            if i < front.len() {
                assert(h[i] == front[i]);
                assert(front.contains(front[i]));
            }
        }
    }
}

/// Two requests have two names.
pub proof fn law_ids_differ(t: nat, n: nat, u: nat, m: nat)
    requires
        n != m,
    ensures
        id_text(t, n) != id_text(u, m),
{
    lemma_hexadecimal_reads_back(n);
    lemma_hexadecimal_reads_back(m);
    let a = id_text(t, n);
    let b = id_text(u, m);
    let x = hexadecimal(n);
    let y = hexadecimal(m);
    reveal_strlit("-");
    if a == b {
        let p = a.len() - x.len() - 1;
        let q = b.len() - y.len() - 1;
        assert(a[p] == '-');
        assert(b[q] == '-');
        if p < q {
            assert(a[q] == x[q - p - 1]);
            assert(x.contains(x[q - p - 1]));
        }
        if q < p {
            assert(b[p] == y[p - q - 1]);
            assert(y.contains(y[p - q - 1]));
        }
        assert(a.skip(p + 1) =~= x);
        assert(b.skip(q + 1) =~= y);
    }
}

// ── Answers ──

/// An answer to the extension.
pub enum Reply {
    /// The wallet is there.
    Info { version: String, connected: bool },
    /// The address of the open wallet.
    Address { address: String, origin: String },
    /// What the user interface made, written as JSON.
    Made(String),
    Error(String),
}

pub enum ReplyView {
    Info { version: Seq<char>, connected: bool },
    Address { address: Seq<char>, origin: Seq<char> },
    Made(Seq<char>),
    Error(Seq<char>),
}

impl View for Reply {
    type V = ReplyView;

    open spec fn view(&self) -> ReplyView {
        match self {
            Reply::Info { version, connected } => ReplyView::Info {
                version: version@,
                connected: *connected,
            },
            Reply::Address { address, origin } => ReplyView::Address {
                address: address@,
                origin: origin@,
            },
            Reply::Made(t) => ReplyView::Made(t@),
            Reply::Error(e) => ReplyView::Error(e@),
        }
    }
}

/// An answer, written as JSON.
pub open spec fn reply_body(r: ReplyView) -> Seq<char> {
    match r {
        ReplyView::Info { version, connected } => "{\"connected\":"@ + (if connected {
            "true"@
        } else {
            "false"@
        }) + ",\"ok\":true,\"running\":true,\"version\":"@ + json_quoted(version) + "}"@,
        ReplyView::Address { address, origin } => "{\"address\":"@ + json_quoted(address)
            + ",\"origin\":"@ + json_quoted(origin) + "}"@,
        ReplyView::Made(t) => t,
        ReplyView::Error(e) => error_text(e),
    }
}

/// Writes an answer as JSON.
pub fn reply_text(r: &Reply) -> (t: String)
    ensures
        t@ == reply_body(r@),
{
    match r {
        Reply::Info { version, connected } => {
            let mut out = "{\"connected\":".to_owned();
            if *connected {
                out.append("true");
            } else {
                out.append("false");
            }
            out.append(",\"ok\":true,\"running\":true,\"version\":");
            out.append(json_quote(version.as_str()).as_str());
            out.append("}");
            out
        },
        Reply::Address { address, origin } => {
            let mut out = "{\"address\":".to_owned();
            out.append(json_quote(address.as_str()).as_str());
            out.append(",\"origin\":");
            out.append(json_quote(origin.as_str()).as_str());
            out.append("}");
            out
        },
        Reply::Made(t) => t.clone(),
        Reply::Error(e) => error_reply(e.as_str()),
    }
}

/// Writes an answer with its length in front.
pub fn reply_frame(r: &Reply) -> (b: Vec<u8>)
    ensures
        b@ == framed(encode_utf8(reply_body(r@))),
{
    frame(reply_text(r).as_str().as_bytes())
}

// ── The address of the open wallet ──

/// What became of the search for the address of the open wallet.
pub enum AddressLookup {
    Address(String),
    NoActiveWallet,
    RpcFailed(String),
}

pub enum LookupView {
    Address(Seq<char>),
    NoActiveWallet,
    RpcFailed(Seq<char>),
}

impl View for AddressLookup {
    type V = LookupView;

    open spec fn view(&self) -> LookupView {
        match self {
            AddressLookup::Address(a) => LookupView::Address(a@),
            AddressLookup::NoActiveWallet => LookupView::NoActiveWallet,
            AddressLookup::RpcFailed(e) => LookupView::RpcFailed(e@),
        }
    }
}

/// What to do about the open wallet.
pub enum WalletPoll {
    Found(String),
    GiveUp,
    /// Look again after so many milliseconds.
    Wait(u64),
}

/// Looks whether a wallet is open, after so many milliseconds. The first look
/// does not wait.
pub fn wait_for_active_wallet(active: Option<String>, waited_ms: u64) -> (r: WalletPoll)
    ensures
        match active {
            Some(w) => r matches WalletPoll::Found(f) && f@ == w@,
            None => if waited_ms >= WALLET_MS {
                r is GiveUp
            } else {
                r matches WalletPoll::Wait(ms) && ms == POLL_MS
            },
        },
{
    match active {
        Some(w) => WalletPoll::Found(w),
        None => if waited_ms >= WALLET_MS {
            WalletPoll::GiveUp
        } else {
            WalletPoll::Wait(POLL_MS)
        },
    }
}

/// What came of asking the node for the address.
pub enum AddressCall {
    /// No wallet was open.
    NotMade,
    NotSent(String),
    NotRead(String),
    Answered(Vec<u8>),
}

/// What stands in the answer of the node.
pub struct WalletInfo {
    pub readable: bool,
    pub error: Option<String>,
    pub address: Option<String>,
}

/// What follows from the answer of the node.
pub open spec fn address_from(
    readable: bool,
    error: Option<Seq<char>>,
    address: Option<Seq<char>>,
) -> LookupView {
    if !readable {
        LookupView::RpcFailed("decode: error decoding response body"@)
    } else {
        match error {
            Some(e) => LookupView::RpcFailed(e),
            None => match address {
                Some(a) => LookupView::Address(a),
                None => LookupView::RpcFailed("getwalletinfo: no address field"@),
            },
        }
    }
}

/// The address that was found, or why there is none.
pub open spec fn looked_up(call: AddressCall) -> LookupView {
    match call {
        AddressCall::NotMade => LookupView::NoActiveWallet,
        AddressCall::NotSent(e) => LookupView::RpcFailed("send: "@ + e@),
        AddressCall::NotRead(e) => LookupView::RpcFailed("decode: "@ + e@),
        AddressCall::Answered(body) => address_from(
            is_json(body@),
            json_text_at(body@, "/error/message"@),
            json_text_at(body@, "/result/address"@),
        ),
    }
}

/// What follows from the answer of the node.
pub fn read_wallet_info(info: WalletInfo) -> (r: AddressLookup)
    ensures
        r@ == address_from(info.readable, text_of(info.error), text_of(info.address)),
{
    if !info.readable {
        return AddressLookup::RpcFailed("decode: error decoding response body".to_owned());
    }
    match info.error {
        Some(e) => AddressLookup::RpcFailed(e),
        None => match info.address {
            Some(a) => AddressLookup::Address(a),
            None => AddressLookup::RpcFailed("getwalletinfo: no address field".to_owned()),
        },
    }
}

/// The address of the open wallet, or why there is none.
pub fn current_address(call: AddressCall) -> (r: AddressLookup)
    ensures
        r@ == looked_up(call),
{
    match call {
        AddressCall::NotMade => AddressLookup::NoActiveWallet,
        AddressCall::NotSent(e) => AddressLookup::RpcFailed(concat2("send: ", e.as_str())),
        AddressCall::NotRead(e) => AddressLookup::RpcFailed(concat2("decode: ", e.as_str())),
        AddressCall::Answered(body) => read_wallet_info(
            WalletInfo {
                readable: check_json(&body),
                error: json_text(&body, "/error/message"),
                address: json_text(&body, "/result/address"),
            },
        ),
    }
}

/// The answer that gives an address to a page.
pub open spec fn address_reply(origin: Seq<char>, found: LookupView) -> ReplyView {
    match found {
        LookupView::Address(address) => ReplyView::Address { address, origin },
        LookupView::NoActiveWallet => ReplyView::Error(
            "no wallet selected — open a wallet in the Fistbump app and try again"@,
        ),
        LookupView::RpcFailed(e) => ReplyView::Error("wallet RPC failed: "@ + e),
    }
}

/// The answer that gives an address to a page.
pub fn address_value(origin: String, found: AddressLookup) -> (r: Reply)
    ensures
        r@ == address_reply(origin@, found@),
{
    match found {
        AddressLookup::Address(address) => Reply::Address { address, origin },
        AddressLookup::NoActiveWallet => Reply::Error(
            "no wallet selected — open a wallet in the Fistbump app and try again".to_owned(),
        ),
        AddressLookup::RpcFailed(e) => Reply::Error(concat2("wallet RPC failed: ", e.as_str())),
    }
}

// ── The flow of a request ──

/// What the user interface is told of a request.
pub struct ExtensionRequestEvent {
    pub id: String,
    pub origin: String,
    pub kind: &'static str,
}

/// What to do about a request.
pub enum Next {
    /// Answer it.
    Reply(Reply),
    /// Find the address of the open wallet, for this page.
    LookUp { origin: String },
    /// Put it before the user, by an event of this name, and wait.
    Prompt { event: ExtensionRequestEvent, name: &'static str, fields: Vec<Field> },
}

#[verifier::ext_equal]
pub enum NextView {
    Reply(ReplyView),
    LookUp { origin: Seq<char> },
    Prompt {
        id: Seq<char>,
        origin: Seq<char>,
        kind: Seq<char>,
        name: Seq<char>,
        fields: Seq<FieldView>,
    },
}

impl View for Next {
    type V = NextView;

    open spec fn view(&self) -> NextView {
        match self {
            Next::Reply(r) => NextView::Reply(r@),
            Next::LookUp { origin } => NextView::LookUp { origin: origin@ },
            Next::Prompt { event, name, fields } => NextView::Prompt {
                id: event.id@,
                origin: event.origin@,
                kind: event.kind@,
                name: name@,
                fields: field_views(fields@),
            },
        }
    }
}

pub open spec fn prompt(
    id: Seq<char>,
    origin: Seq<char>,
    kind: Kind,
    fields: Seq<FieldView>,
) -> NextView {
    NextView::Prompt { id, origin, kind: kind_name(kind), name: event_name(kind), fields }
}

/// What a request leads to that only an approved origin may make.
pub open spec fn asked(
    origin: Seq<char>,
    kind: Kind,
    fields: Seq<FieldView>,
    approved: Seq<Seq<char>>,
    id: Seq<char>,
) -> NextView {
    if approved.contains(origin) {
        prompt(id, origin, kind, fields)
    } else {
        NextView::Reply(
            ReplyView::Error("origin not connected — call window.fistbump.connect() first"@),
        )
    }
}

/// What a request leads to.
pub open spec fn begun(
    request: RequestView,
    approved: Seq<Seq<char>>,
    version: Seq<char>,
    id: Seq<char>,
) -> NextView {
    match request {
        RequestView::Refused(e) => NextView::Reply(ReplyView::Error(e)),
        RequestView::Info { origin } => NextView::Reply(
            ReplyView::Info { version, connected: origin.len() > 0 && approved.contains(origin) },
        ),
        RequestView::Connect { origin } => if approved.contains(origin) {
            NextView::LookUp { origin }
        } else {
            prompt(id, origin, Kind::Connect, Seq::empty())
        },
        RequestView::Ask { origin, kind, fields } => asked(origin, kind, fields, approved, id),
    }
}

/// Whether the wallet comes to the front for this, and gives the place back
/// when the request is answered.
pub open spec fn comes_to_front(next: NextView) -> bool {
    !(next is Reply)
}

/// The requests that wait once this one has led to `next`.
pub open spec fn registered(
    waiting: Map<Seq<char>, PendingView>,
    request: RequestView,
    next: NextView,
) -> Map<Seq<char>, PendingView> {
    match next {
        NextView::Prompt { id, .. } => match request {
            RequestView::Connect { origin } => waiting.insert(
                id,
                PendingView { origin, kind: Kind::Connect },
            ),
            RequestView::Ask { origin, kind, .. } => waiting.insert(
                id,
                PendingView { origin, kind },
            ),
            _ => waiting,
        },
        _ => waiting,
    }
}

/// Whether the wallet comes to the front for this.
pub fn needs_front(next: &Next) -> (r: bool)
    ensures
        r == comes_to_front(next@),
{
    match next {
        Next::Reply(_) => false,
        Next::LookUp { .. } => true,
        Next::Prompt { .. } => true,
    }
}

impl Registry {
    /// Puts a request before the user.
    fn put_to_user(&mut self, origin: String, kind: Kind, fields: Vec<Field>, id: String) -> (r:
        Next)
        ensures
            r@ == prompt(id@, origin@, kind, field_views(fields@)),
            final(self)@ == old(self)@.insert(id@, PendingView { origin: origin@, kind }),
    {
        let event = ExtensionRequestEvent {
            id: id.clone(),
            origin: origin.clone(),
            kind: kind.name(),
        };
        self.register(id, origin, kind);
        Next::Prompt { event, name: kind.event(), fields }
    }

    /// Puts a request of an approved origin before the user. One of any other
    /// origin is refused, and does not wait.
    pub fn dispatch_frontend_request(
        &mut self,
        origin: String,
        kind: Kind,
        fields: Vec<Field>,
        approved: &Vec<String>,
        id: String,
    ) -> (r: Next)
        ensures
            r@ == asked(origin@, kind, field_views(fields@), texts(approved@), id@),
            final(self)@ == if texts(approved@).contains(origin@) {
                old(self)@.insert(id@, PendingView { origin: origin@, kind })
            } else {
                old(self)@
            },
    {
        if !list_contains(approved, origin.as_str()) {
            return Next::Reply(
                Reply::Error(
                    "origin not connected — call window.fistbump.connect() first".to_owned(),
                ),
            );
        }
        self.put_to_user(origin, kind, fields, id)
    }

    /// What to do about a request of the extension. It is entered before the
    /// user is asked, so that no decision can come too early.
    pub fn begin(&mut self, request: Request, approved: &Vec<String>, version: &str, id: String)
        -> (r: Next)
        ensures
            r@ == begun(request@, texts(approved@), version@, id@),
            final(self)@ == registered(old(self)@, request@, r@),
    {
        match request {
            Request::Refused(e) => Next::Reply(Reply::Error(e)),
            Request::Info { origin } => {
                let connected = !origin.as_str().is_empty() && list_contains(
                    approved,
                    origin.as_str(),
                );
                Next::Reply(Reply::Info { version: version.to_owned(), connected })
            },
            Request::Connect { origin } => {
                if list_contains(approved, origin.as_str()) {
                    Next::LookUp { origin }
                } else {
                    let fields: Vec<Field> = Vec::new();
                    assert(field_views(fields@) =~= Seq::empty());
                    self.put_to_user(origin, Kind::Connect, fields, id)
                }
            },
            Request::Ask { origin, kind, fields } => self.dispatch_frontend_request(
                origin,
                kind,
                fields,
                approved,
                id,
            ),
        }
    }

    /// The user interface could not be told of a request: it no longer waits.
    pub fn emit_failed(&mut self, id: &str, error: &str) -> (r: Reply)
        ensures
            r@ == ReplyView::Error("emit failed: "@ + error@),
            final(self)@ == old(self)@.remove(id@),
    {
        let _ = self.take_pending(id);
        Reply::Error(concat2("emit failed: ", error))
    }
}

// ── Decisions ──

/// What the user decided.
pub enum Decision {
    /// Yes; the wallet makes the answer.
    Approve,
    /// Yes; this is the answer, written as JSON.
    ApproveWith(String),
    /// No; this is why.
    Deny(String),
}

/// What a decision on a request leads to; none if the time was up.
pub open spec fn decided(kind: Kind, origin: Seq<char>, decision: Option<Decision>) -> NextView {
    match decision {
        Some(Decision::Approve) => if kind == Kind::Connect {
            NextView::LookUp { origin }
        } else {
            NextView::Reply(
                ReplyView::Error(
                    "internal: frontend sent bare approve for non-connect request"@,
                ),
            )
        },
        Some(Decision::ApproveWith(value)) => NextView::Reply(ReplyView::Made(value@)),
        Some(Decision::Deny(e)) => NextView::Reply(ReplyView::Error(e@)),
        None => NextView::Reply(ReplyView::Error("approval request timed out"@)),
    }
}

/// What a decision is, from what the user interface says.
pub open spec fn decision_of(
    approve: bool,
    result: Option<Seq<char>>,
    error: Option<Seq<char>>,
    d: Decision,
) -> bool {
    if approve {
        match result {
            Some(value) => d matches Decision::ApproveWith(v) && v@ == value,
            None => d is Approve,
        }
    } else {
        d matches Decision::Deny(e) && e@ == match error {
            Some(t) => t,
            None => "user denied"@,
        }
    }
}

impl Registry {
    /// What a decision on a request leads to. When the time is up, the request
    /// no longer waits.
    pub fn decide(&mut self, id: &str, kind: Kind, origin: String, decision: Option<Decision>) -> (r:
        Next)
        ensures
            r@ == decided(kind, origin@, decision),
            final(self)@ == if decision is None {
                old(self)@.remove(id@)
            } else {
                old(self)@
            },
    {
        match decision {
            Some(Decision::Approve) => if kind == Kind::Connect {
                Next::LookUp { origin }
            } else {
                Next::Reply(
                    Reply::Error(
                        "internal: frontend sent bare approve for non-connect request".to_owned(),
                    ),
                )
            },
            Some(Decision::ApproveWith(value)) => Next::Reply(Reply::Made(value)),
            Some(Decision::Deny(e)) => Next::Reply(Reply::Error(e)),
            None => {
                let _ = self.take_pending(id);
                Next::Reply(Reply::Error("approval request timed out".to_owned()))
            },
        }
    }

    /// Takes what the user interface says of a request: the decision to hand
    /// on, and whether the settings are to be saved. A page that is let in is
    /// noted in the settings.
    pub fn resolve_ext_request(
        &mut self,
        settings: &mut Settings,
        id: &str,
        approve: bool,
        result: Option<String>,
        error: Option<String>,
    ) -> (r: Result<(Decision, bool), String>)
        ensures
            final(self)@ == old(self)@.remove(id@),
            match r {
                Ok((d, save)) => {
                    &&& old(self)@.dom().contains(id@)
                    &&& decision_of(approve, text_of(result), text_of(error), d)
                    &&& final(settings)@ == settled(old(settings)@, old(self)@[id@], approve)
                    &&& save == (final(settings)@ != old(settings)@)
                },
                Err(e) => {
                    &&& !old(self)@.dom().contains(id@)
                    &&& e@ == "no such pending request"@
                    &&& final(settings)@ == old(settings)@
                },
            },
    {
        let pending = match self.take_pending(id) {
            Some(p) => p,
            None => return Err("no such pending request".to_owned()),
        };
        let ghost origins = settings@.approved_origins;
        let mut save = false;
        if approve && pending.kind == Kind::Connect {
            save = settings.approve_origin(pending.origin.as_str());
            proof {
                if save {
                    assert(settings@.approved_origins.len() == origins.len() + 1);
                }
            }
        }
        let decision = if approve {
            match result {
                Some(value) => Decision::ApproveWith(value),
                None => Decision::Approve,
            }
        } else {
            match error {
                Some(e) => Decision::Deny(e),
                None => Decision::Deny("user denied".to_owned()),
            }
        };
        Ok((decision, save))
    }
}

/// The settings after a decision on a request.
pub open spec fn settled(s: SettingsView, p: PendingView, approve: bool) -> SettingsView {
    if approve && p.kind == Kind::Connect {
        SettingsView { approved_origins: with(s.approved_origins, p.origin), ..s }
    } else {
        s
    }
}

// ── Laws ──

/// A page that the user has not let in is answered nothing but that, whatever
/// it asks for besides being let in: the user is not even asked, and nothing
/// waits.
pub proof fn law_strangers_get_nothing(
    waiting: Map<Seq<char>, PendingView>,
    origin: Seq<char>,
    kind: Kind,
    fields: Seq<FieldView>,
    approved: Seq<Seq<char>>,
    version: Seq<char>,
    id: Seq<char>,
)
    requires
        !approved.contains(origin),
    ensures
        ({
            let request = RequestView::Ask { origin, kind, fields };
            let next = begun(request, approved, version, id);
            &&& next matches NextView::Reply(r) && r is Error
            &&& !comes_to_front(next)
            &&& registered(waiting, request, next) == waiting
        }),
{
}

/// The address goes only to a page that is let in already, or whose wish to
/// be let in the user grants.
pub proof fn law_address_needs_approval(
    request: RequestView,
    approved: Seq<Seq<char>>,
    version: Seq<char>,
    id: Seq<char>,
    kind: Kind,
    origin: Seq<char>,
    decision: Option<Decision>,
)
    ensures
        begun(request, approved, version, id) matches NextView::LookUp { origin: o }
            ==> approved.contains(o) && request == (RequestView::Connect { origin: o }),
        decided(kind, origin, decision) matches NextView::LookUp { origin: o } ==> o == origin
            && kind == Kind::Connect && decision == Some(Decision::Approve),
{
}

/// A request that is put before the user waits until it is decided on, and is
/// decided on once: a second decision finds nothing.
pub proof fn law_decided_once(
    waiting: Map<Seq<char>, PendingView>,
    request: RequestView,
    approved: Seq<Seq<char>>,
    version: Seq<char>,
    id: Seq<char>,
)
    ensures
        ({
            let next = begun(request, approved, version, id);
            let after = registered(waiting, request, next);
            next is Prompt ==> after.dom().contains(id) && !after.remove(id).dom().contains(id)
        }),
{
}

/// Once let in, a page is let in the next time without being asked about; once
/// its leave is revoked, it is asked about again.
pub proof fn law_approval_lasts(
    s: SettingsView,
    origin: Seq<char>,
    version: Seq<char>,
    id: Seq<char>,
)
    ensures
        ({
            let let_in = settled(s, PendingView { origin, kind: Kind::Connect }, true);
            let request = RequestView::Connect { origin };
            &&& begun(request, let_in.approved_origins, version, id) == (NextView::LookUp {
                origin,
            })
            &&& begun(
                request,
                crate::settings::without(let_in.approved_origins, origin),
                version,
                id,
            ) is Prompt
        }),
{
    crate::settings::law_approving(s.approved_origins, origin, origin);
    crate::settings::law_revoking(with(s.approved_origins, origin), origin, origin);
}

// ── What holds of a request ──

/// The length in front of a message is its first four bytes with the lowest
/// first; no message is empty or longer than a mebibyte.
pub proof fn law_message_lengths(prefix: Seq<u8>)
    ensures
        message_len(prefix) matches Some(n) ==> n == le_value(prefix) && 0 < n <= 0x10_0000,
        0 < le_value(prefix) <= 0x10_0000 ==> message_len(prefix) is Some,
{
}

/// What a page that may ask is asking for is put before the user as it asked it,
/// under the name of its kind, and so that the answer finds its way back: by the
/// id under which the page and the kind are kept.
pub proof fn law_prompt_is_the_request(
    waiting: Map<Seq<char>, PendingView>,
    origin: Seq<char>,
    kind: Kind,
    fields: Seq<FieldView>,
    approved: Seq<Seq<char>>,
    version: Seq<char>,
    id: Seq<char>,
)
    requires
        approved.contains(origin),
    ensures
        ({
            let request = RequestView::Ask { origin, kind, fields };
            let next = begun(request, approved, version, id);
            &&& next matches NextView::Prompt { id: i, origin: o, kind: k, name, fields: f }
            &&& i == id && o == origin && k == kind_name(kind) && name == event_name(kind) && f
                == fields
            &&& registered(waiting, request, next).dom().contains(id)
            &&& registered(waiting, request, next)[id] == (PendingView { origin, kind })
        }),
{
}

/// A page that is not connected is put before the user as one that wants to be,
/// and kept as such; one that is connected gets the address at once.
pub proof fn law_connecting(
    waiting: Map<Seq<char>, PendingView>,
    origin: Seq<char>,
    approved: Seq<Seq<char>>,
    version: Seq<char>,
    id: Seq<char>,
)
    ensures
        ({
            let request = RequestView::Connect { origin };
            let next = begun(request, approved, version, id);
            &&& approved.contains(origin) ==> next == (NextView::LookUp { origin }) && registered(
                waiting,
                request,
                next,
            ) == waiting
            &&& !approved.contains(origin) ==> {
                &&& next matches NextView::Prompt { id: i, origin: o, kind: k, .. }
                &&& i == id && o == origin && k == "connect"@
                &&& registered(waiting, request, next) == waiting.insert(
                    id,
                    PendingView { origin, kind: Kind::Connect },
                )
            }
        }),
{
}

/// A page is told that it is connected exactly if it is; the version is that of
/// the wallet.
pub proof fn law_information(
    origin: Seq<char>,
    approved: Seq<Seq<char>>,
    version: Seq<char>,
    id: Seq<char>,
)
    requires
        origin.len() > 0,
    ensures
        begun(RequestView::Info { origin }, approved, version, id) == NextView::Reply(
            ReplyView::Info { version, connected: approved.contains(origin) },
        ),
{
}

/// What becomes of a decision: a page that is let in gets the address, what the
/// user made is given to the page as it is, a refusal with its reason, and
/// silence is a refusal too.
pub proof fn law_decisions(kind: Kind, origin: Seq<char>, made: String, why: String)
    ensures
        decided(Kind::Connect, origin, Some(Decision::Approve)) == (NextView::LookUp { origin }),
        decided(kind, origin, Some(Decision::ApproveWith(made))) == NextView::Reply(
            ReplyView::Made(made@),
        ),
        decided(kind, origin, Some(Decision::Deny(why))) == NextView::Reply(ReplyView::Error(why@)),
        decided(kind, origin, None) matches NextView::Reply(ReplyView::Error(_)),
        kind != Kind::Connect ==> decided(kind, origin, Some(Decision::Approve)) matches
            NextView::Reply(ReplyView::Error(_)),
{
}

/// Letting a page in adds it, and it alone, to those that may ask; nothing else
/// that the user decides changes the settings.
pub proof fn law_only_connecting_lets_in(
    s: SettingsView,
    p: PendingView,
    approve: bool,
    other: Seq<char>,
)
    ensures
        settled(s, p, approve).approved_origins.contains(other) <==> s.approved_origins.contains(
            other,
        ) || approve && p.kind == Kind::Connect && other == p.origin,
        !approve || p.kind != Kind::Connect ==> settled(s, p, approve) == s,
        settled(s, p, approve).api_key == s.api_key,
        settled(s, p, approve).miner_address == s.miner_address,
{
    crate::settings::law_approving(s.approved_origins, p.origin, other);
    crate::settings::law_approving(s.approved_origins, p.origin, p.origin);
}

/// The address that a page gets is the one in the node's answer, unless the
/// answer is an error, whose message the page gets instead.
pub proof fn law_address_is_the_nodes(origin: Seq<char>, body: Vec<u8>)
    requires
        is_json(body@),
    ensures
        json_text_at(body@, "/error/message"@) is None ==> (json_text_at(
            body@,
            "/result/address"@,
        ) matches Some(a) ==> address_reply(origin, looked_up(AddressCall::Answered(body))) == (
        ReplyView::Address { address: a, origin })),
        json_text_at(body@, "/error/message"@) matches Some(e) ==> address_reply(
            origin,
            looked_up(AddressCall::Answered(body)),
        ) == ReplyView::Error("wallet RPC failed: "@ + e),
        address_reply(origin, looked_up(AddressCall::NotMade)) is Error,
{
}

/// The body of a reply names what it holds: an address and the page that it is
/// for, or that the wallet runs, its version and whether the page is connected.
pub proof fn law_reply_bodies(address: Seq<char>, origin: Seq<char>, version: Seq<char>)
    ensures
        contains_text(
            reply_body(ReplyView::Address { address, origin }),
            "\"address\":"@ + json_quoted(address),
        ),
        contains_text(
            reply_body(ReplyView::Address { address, origin }),
            "\"origin\":"@ + json_quoted(origin),
        ),
        contains_text(
            reply_body(ReplyView::Info { version, connected: true }),
            "\"connected\":true,"@,
        ),
        contains_text(
            reply_body(ReplyView::Info { version, connected: false }),
            "\"connected\":false,"@,
        ),
        contains_text(
            reply_body(ReplyView::Info { version, connected: true }),
            "\"version\":"@ + json_quoted(version),
        ),
        reply_body(ReplyView::Made(address)) == address,
{
    reveal_strlit("\"address\":");
    reveal_strlit("{\"address\":");
    reveal_strlit("\"origin\":");
    reveal_strlit(",\"origin\":");
    reveal_strlit("}");
    reveal_strlit("\"connected\":true,");
    reveal_strlit("\"connected\":false,");
    reveal_strlit("{\"connected\":");
    reveal_strlit("true");
    reveal_strlit("false");
    reveal_strlit(",\"ok\":true,\"running\":true,\"version\":");
    reveal_strlit("\"version\":");
    let open = seq!['{'];
    let comma = seq![','];
    let a = reply_body(ReplyView::Address { address, origin });
    let x = "\"address\":"@ + json_quoted(address);
    let y = "\"origin\":"@ + json_quoted(origin);
    assert(a =~= open + x + (comma + y + "}"@));
    lemma_stands_in(a, open, x, comma + y + "}"@);
    assert(a =~= (open + x + comma) + y + "}"@);
    lemma_stands_in(a, open + x + comma, y, "}"@);
    let long = ",\"ok\":true,\"running\":true,\"version\":"@;
    let yes = reply_body(ReplyView::Info { version, connected: true });
    let no = reply_body(ReplyView::Info { version, connected: false });
    let tail = long.skip(1) + json_quoted(version) + "}"@;
    assert(yes =~= open + "\"connected\":true,"@ + tail);
    lemma_stands_in(yes, open, "\"connected\":true,"@, tail);
    assert(no =~= open + "\"connected\":false,"@ + tail);
    lemma_stands_in(no, open, "\"connected\":false,"@, tail);
    let v = "\"version\":"@ + json_quoted(version);
    let before = "{\"connected\":"@ + "true"@ + long.take(long.len() - 10);
    assert(yes =~= before + v + "}"@);
    lemma_stands_in(yes, before, v, "}"@);
}

proof fn lemma_stands_in(hay: Seq<char>, a: Seq<char>, needle: Seq<char>, b: Seq<char>)
    requires
        hay == a + needle + b,
    ensures
        contains_text(hay, needle),
{
    assert(hay.subrange(a.len() as int, (a.len() + needle.len()) as int) =~= needle);
    assert(stands_at(hay, needle, a.len() as int));
}

/// What the user interface answers is what the user decided: a result, or none,
/// with a yes, and a reason with a no; without a reason it is said that the
/// user refused.
pub proof fn law_what_was_decided(
    approve: bool,
    result: Option<Seq<char>>,
    error: Option<Seq<char>>,
    d: Decision,
)
    requires
        decision_of(approve, result, error, d),
    ensures
        approve <==> !(d is Deny),
        approve && result is None ==> d is Approve,
        approve && result is Some ==> (d matches Decision::ApproveWith(v) && Some(v@) == result),
        !approve && error is Some ==> (d matches Decision::Deny(e) && Some(e@) == error),
        !approve && error is None ==> (d matches Decision::Deny(e) && e@ == "user denied"@),
{
}

} // verus!
