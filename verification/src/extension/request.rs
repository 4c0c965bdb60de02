//! Requests of the browser extension: their shape is checked here, before
//! the user is asked anything.

use crate::doubles::{
    is_positive_finite, law_positive_by_bits, positive_finite, saturated, to_whole, whole_number,
};
use crate::hexes::is_hex_digit;
use crate::json::{check_json, is_json, json_double, json_double_at, json_text, json_text_at};
use crate::text::{byte_len, chars_of, concat2, same_text, text_of};
use vstd::prelude::*;
use vstd::utf8::encode_utf8;

verus! {

/// The longest message that is put before the user, in bytes.
pub const MAX_MESSAGE_BYTES: usize = 8192;

/// The longest script, in hexadecimal digits.
pub const MAX_SCRIPT_DIGITS: usize = 20000;

/// What a page can ask for once it is connected, and connecting itself.
#[derive(Clone, Copy, PartialEq, Eq, Structural)]
pub enum Kind {
    Connect,
    SendTx,
    SignMessage,
    GetPublicKey,
    FundHtlc,
    SignHtlcSpend,
}

/// The name of a kind of request.
pub open spec fn kind_name(k: Kind) -> Seq<char> {
    match k {
        Kind::Connect => "connect"@,
        Kind::SendTx => "sendTx"@,
        Kind::SignMessage => "signMessage"@,
        Kind::GetPublicKey => "getPublicKey"@,
        Kind::FundHtlc => "fundHtlc"@,
        Kind::SignHtlcSpend => "signHtlcSpend"@,
    }
}

/// The event by which the user is asked.
pub open spec fn event_name(k: Kind) -> Seq<char> {
    match k {
        Kind::Connect => "ext://request"@,
        Kind::SendTx => "ext://tx-request"@,
        Kind::SignMessage => "ext://sign-request"@,
        Kind::GetPublicKey => "ext://swap-pubkey-request"@,
        Kind::FundHtlc => "ext://htlc-fund-request"@,
        Kind::SignHtlcSpend => "ext://htlc-spend-request"@,
    }
}

impl Kind {
    pub fn name(&self) -> (r: &'static str)
        ensures
            r@ == kind_name(*self),
    {
        match self {
            Kind::Connect => "connect",
            Kind::SendTx => "sendTx",
            Kind::SignMessage => "signMessage",
            Kind::GetPublicKey => "getPublicKey",
            Kind::FundHtlc => "fundHtlc",
            Kind::SignHtlcSpend => "signHtlcSpend",
        }
    }

    pub fn event(&self) -> (r: &'static str)
        ensures
            r@ == event_name(*self),
    {
        match self {
            Kind::Connect => "ext://request",
            Kind::SendTx => "ext://tx-request",
            Kind::SignMessage => "ext://sign-request",
            Kind::GetPublicKey => "ext://swap-pubkey-request",
            Kind::FundHtlc => "ext://htlc-fund-request",
            Kind::SignHtlcSpend => "ext://htlc-spend-request",
        }
    }
}

/// A value that is put before the user. A double is given by its bits.
pub enum Value {
    Text(String),
    Double(u64),
    Whole(u64),
}

/// A named value.
pub struct Field {
    pub key: String,
    pub value: Value,
}

pub enum ValueView {
    Text(Seq<char>),
    Double(u64),
    Whole(u64),
}

pub struct FieldView {
    pub key: Seq<char>,
    pub value: ValueView,
}

impl View for Field {
    type V = FieldView;

    open spec fn view(&self) -> FieldView {
        FieldView {
            key: self.key@,
            value: match self.value {
                Value::Text(t) => ValueView::Text(t@),
                Value::Double(d) => ValueView::Double(d),
                Value::Whole(n) => ValueView::Whole(n),
            },
        }
    }
}

pub open spec fn field_views(v: Seq<Field>) -> Seq<FieldView> {
    Seq::new(v.len(), |i: int| v[i]@)
}

/// A request.
pub enum Request {
    /// Whether the wallet is there, and the page connected.
    Info { origin: String },
    /// To be connected.
    Connect { origin: String },
    /// Something that the user decides on.
    Ask { origin: String, kind: Kind, fields: Vec<Field> },
    /// Nothing that makes sense: the answer.
    Refused(String),
}

pub enum RequestView {
    Info { origin: Seq<char> },
    Connect { origin: Seq<char> },
    Ask { origin: Seq<char>, kind: Kind, fields: Seq<FieldView> },
    Refused(Seq<char>),
}

impl View for Request {
    type V = RequestView;

    open spec fn view(&self) -> RequestView {
        match self {
            Request::Info { origin } => RequestView::Info { origin: origin@ },
            Request::Connect { origin } => RequestView::Connect { origin: origin@ },
            Request::Ask { origin, kind, fields } => RequestView::Ask {
                origin: origin@,
                kind: *kind,
                fields: field_views(fields@),
            },
            Request::Refused(e) => RequestView::Refused(e@),
        }
    }
}

// ── What the requests have to look like ──

pub open spec fn text_field(key: Seq<char>, t: Seq<char>) -> FieldView {
    FieldView { key, value: ValueView::Text(t) }
}

/// A text that holds something, if there is one.
pub open spec fn non_empty_text(t: Option<Seq<char>>) -> Option<Seq<char>> {
    match t {
        Some(s) => if s.len() == 0 {
            None
        } else {
            Some(s)
        },
        None => None,
    }
}

/// One field if there is such a text, else none.
pub open spec fn optional_field(key: Seq<char>, t: Option<Seq<char>>) -> Seq<FieldView> {
    match t {
        Some(s) => seq![text_field(key, s)],
        None => Seq::empty(),
    }
}

/// Hexadecimal digits, two or four or more of them.
pub open spec fn is_hex_text(s: Seq<char>) -> bool {
    s.len() > 0 && s.len() % 2 == 0 && forall|i: int|
        0 <= i < s.len() ==> is_hex_digit(#[trigger] s[i])
}

pub open spec fn refused(why: Seq<char>) -> RequestView {
    RequestView::Refused(why)
}

/// A payment: `to` and an `amount` above 0.
pub open spec fn send_tx_request(
    origin: Seq<char>,
    to: Option<Seq<char>>,
    amount: Option<u64>,
) -> RequestView {
    if origin.len() == 0 {
        refused("missing origin"@)
    } else {
        match to {
            None => refused("missing `to` field"@),
            Some(to) => if to.len() == 0 {
                refused("`to` is empty"@)
            } else {
                match amount {
                    None => refused("`amount` must be a positive number (FBC)"@),
                    Some(amount) => if !is_positive_finite(amount) {
                        refused("`amount` must be a positive number (FBC)"@)
                    } else {
                        RequestView::Ask {
                            origin,
                            kind: Kind::SendTx,
                            fields: seq![
                                text_field("to"@, to),
                                FieldView { key: "amount"@, value: ValueView::Double(amount) },
                            ],
                        }
                    },
                }
            },
        }
    }
}

/// A signature under a message of at most 8192 bytes, by an address or by a
/// name.
pub open spec fn sign_message_request(
    origin: Seq<char>,
    message: Option<Seq<char>>,
    name: Option<Seq<char>>,
) -> RequestView {
    if origin.len() == 0 {
        refused("missing origin"@)
    } else {
        match message {
            None => refused("missing `message` field"@),
            Some(message) => if encode_utf8(message).len() > MAX_MESSAGE_BYTES {
                refused("message too long (max 8 KB)"@)
            } else {
                RequestView::Ask {
                    origin,
                    kind: Kind::SignMessage,
                    fields: seq![text_field("message"@, message)] + optional_field(
                        "name"@,
                        non_empty_text(name),
                    ),
                }
            },
        }
    }
}

/// The key that swaps are made with.
pub open spec fn get_pubkey_request(origin: Seq<char>) -> RequestView {
    if origin.len() == 0 {
        refused("missing origin"@)
    } else {
        RequestView::Ask { origin, kind: Kind::GetPublicKey, fields: Seq::empty() }
    }
}

/// A deposit under a script: at most 10000 bytes of it, and an amount above 0.
pub open spec fn fund_htlc_request(
    origin: Seq<char>,
    script: Option<Seq<char>>,
    amount: Option<u64>,
    memo: Option<Seq<char>>,
) -> RequestView {
    if origin.len() == 0 {
        refused("missing origin"@)
    } else {
        match script {
            None => refused("missing `witnessScriptHex` field"@),
            Some(script) => if !is_hex_text(script) {
                refused("`witnessScriptHex` must be a hex string"@)
            } else if script.len() > MAX_SCRIPT_DIGITS {
                refused("`witnessScriptHex` is too large"@)
            } else {
                match amount {
                    None => refused("`amount` must be a positive number (FBC)"@),
                    Some(amount) => if !is_positive_finite(amount) {
                        refused("`amount` must be a positive number (FBC)"@)
                    } else {
                        RequestView::Ask {
                            origin,
                            kind: Kind::FundHtlc,
                            fields: seq![
                                text_field("witnessScriptHex"@, script),
                                FieldView { key: "amount"@, value: ValueView::Double(amount) },
                            ] + optional_field(
                                "memo"@,
                                non_empty_text(memo),
                            ),
                        }
                    },
                }
            },
        }
    }
}

/// Whether a double is a whole number above 0.
pub open spec fn is_positive_whole(bits: u64) -> bool {
    whole_number(bits) matches Some(n) && n > 0
}

/// What a page says of a spend of a deposit, as far as it says it.
pub struct Spend {
    pub funding_txid: Option<String>,
    pub funding_vout: Option<u64>,
    pub funding_amount: Option<u64>,
    pub witness_script: Option<String>,
    pub branch: Option<String>,
    pub preimage: Option<String>,
    pub destination: Option<String>,
    pub fee_rate: Option<u64>,
}

pub struct SpendView {
    pub funding_txid: Option<Seq<char>>,
    pub funding_vout: Option<u64>,
    pub funding_amount: Option<u64>,
    pub witness_script: Option<Seq<char>>,
    pub branch: Option<Seq<char>>,
    pub preimage: Option<Seq<char>>,
    pub destination: Option<Seq<char>>,
    pub fee_rate: Option<u64>,
}

impl View for Spend {
    type V = SpendView;

    open spec fn view(&self) -> SpendView {
        SpendView {
            funding_txid: text_of(self.funding_txid),
            funding_vout: self.funding_vout,
            funding_amount: self.funding_amount,
            witness_script: text_of(self.witness_script),
            branch: text_of(self.branch),
            preimage: text_of(self.preimage),
            destination: text_of(self.destination),
            fee_rate: self.fee_rate,
        }
    }
}

/// Why a spend of a deposit is refused, if it is.
pub open spec fn htlc_spend_fault(s: SpendView) -> Option<Seq<char>> {
    let preimage = non_empty_text(s.preimage);
    if s.funding_txid is None {
        Some("missing `fundingTxid`"@)
    } else if s.funding_txid->Some_0.len() != 64 || !is_hex_text(s.funding_txid->Some_0) {
        Some("`fundingTxid` must be 64 hex chars"@)
    } else if !(s.funding_vout is Some && whole_number(s.funding_vout->Some_0) is Some
        && whole_number(s.funding_vout->Some_0)->Some_0 <= u32::MAX) {
        Some("`fundingVout` must be a non-negative integer"@)
    } else if s.funding_amount is None {
        Some("`fundingAmount` must be a positive number (bumps)"@)
    } else if !is_positive_whole(s.funding_amount->Some_0) {
        Some("`fundingAmount` must be a positive integer"@)
    } else if s.witness_script is None {
        Some("missing `witnessScriptHex`"@)
    } else if !is_hex_text(s.witness_script->Some_0) {
        Some("`witnessScriptHex` must be a hex string"@)
    } else if s.branch is None {
        Some("missing `branch`"@)
    } else if s.branch->Some_0 != "claim"@ && s.branch->Some_0 != "refund"@ {
        Some("`branch` must be \"claim\" or \"refund\""@)
    } else if s.branch->Some_0 == "claim"@ && !(preimage is Some && preimage->Some_0.len() == 64
        && is_hex_text(preimage->Some_0)) {
        Some("claim branch requires `preimageHex` (64 hex chars)"@)
    } else if s.destination is None {
        Some("missing `destinationAddress`"@)
    } else if s.destination->Some_0.len() == 0 {
        Some("`destinationAddress` is empty"@)
    } else if !(s.fee_rate is Some && is_positive_whole(s.fee_rate->Some_0)) {
        Some("`feeRate` must be a positive integer"@)
    } else {
        None
    }
}

pub open spec fn whole_field(key: Seq<char>, bits: u64) -> FieldView {
    FieldView { key, value: ValueView::Whole(saturated(whole_number(bits)->Some_0)) }
}

/// A spend of a deposit, one way or the other.
pub open spec fn htlc_spend_request(origin: Seq<char>, s: SpendView) -> RequestView {
    if origin.len() == 0 {
        refused("missing origin"@)
    } else {
        match htlc_spend_fault(s) {
            Some(e) => refused(e),
            None => RequestView::Ask {
                origin,
                kind: Kind::SignHtlcSpend,
                fields: seq![
                    text_field("fundingTxid"@, s.funding_txid->Some_0),
                    whole_field("fundingVout"@, s.funding_vout->Some_0),
                    whole_field("fundingAmount"@, s.funding_amount->Some_0),
                    text_field("witnessScriptHex"@, s.witness_script->Some_0),
                    text_field("branch"@, s.branch->Some_0),
                ] + optional_field("preimageHex"@, non_empty_text(s.preimage)) + seq![
                    text_field("destinationAddress"@, s.destination->Some_0),
                    whole_field("feeRate"@, s.fee_rate->Some_0),
                ],
            },
        }
    }
}

/// The text at a pointer, or the empty text.
pub open spec fn text_or_empty(t: Option<Seq<char>>) -> Seq<char> {
    match t {
        Some(s) => s,
        None => Seq::empty(),
    }
}

/// What a message says of a spend.
pub open spec fn spend_in(data: Seq<u8>) -> SpendView {
    SpendView {
        funding_txid: json_text_at(data, "/fundingTxid"@),
        funding_vout: json_double_at(data, "/fundingVout"@),
        funding_amount: json_double_at(data, "/fundingAmount"@),
        witness_script: json_text_at(data, "/witnessScriptHex"@),
        branch: json_text_at(data, "/branch"@),
        preimage: json_text_at(data, "/preimageHex"@),
        destination: json_text_at(data, "/destinationAddress"@),
        fee_rate: json_double_at(data, "/feeRate"@),
    }
}

/// The request in a message.
pub open spec fn request_in(data: Seq<u8>) -> RequestView {
    let kind = text_or_empty(json_text_at(data, "/type"@));
    let origin = text_or_empty(json_text_at(data, "/origin"@));
    if !is_json(data) {
        refused("invalid json frame"@)
    } else if kind == "info"@ {
        RequestView::Info { origin }
    } else if kind == "connect"@ {
        if origin.len() == 0 {
            refused("missing origin"@)
        } else {
            RequestView::Connect { origin }
        }
    } else if kind == "sendTx"@ {
        send_tx_request(origin, json_text_at(data, "/to"@), json_double_at(data, "/amount"@))
    } else if kind == "signMessage"@ {
        sign_message_request(
            origin,
            json_text_at(data, "/message"@),
            json_text_at(data, "/name"@),
        )
    } else if kind == "getPublicKey"@ {
        get_pubkey_request(origin)
    } else if kind == "fundHtlc"@ {
        fund_htlc_request(
            origin,
            json_text_at(data, "/witnessScriptHex"@),
            json_double_at(data, "/amount"@),
            json_text_at(data, "/memo"@),
        )
    } else if kind == "signHtlcSpend"@ {
        htlc_spend_request(origin, spend_in(data))
    } else {
        refused("unknown request type: "@ + kind)
    }
}

/// No request goes to the user without an origin.
pub proof fn law_requests_have_origins(data: Seq<u8>)
    ensures
        request_in(data) matches RequestView::Connect { origin } ==> origin.len() > 0,
        request_in(data) matches RequestView::Ask { origin, kind, fields } ==> origin.len() > 0
            && kind != Kind::Connect,
{
}

/// Whether a field holds what a message has at the pointer to its key: a text
/// there as it is, a number there by its bits, and a whole number there as
/// that number, as far as 64 bits hold it.
pub open spec fn is_from(data: Seq<u8>, f: FieldView) -> bool {
    let pointer = "/"@ + f.key;
    match f.value {
        ValueView::Text(t) => json_text_at(data, pointer) == Some(t),
        ValueView::Double(d) => json_double_at(data, pointer) == Some(d),
        ValueView::Whole(n) => json_double_at(data, pointer) matches Some(d) && whole_number(
            d,
        ) matches Some(m) && n == (if m <= 0xffff_ffff_ffff_ffff {
            m as int
        } else {
            0xffff_ffff_ffff_ffff
        }),
    }
}

/// The keys of fields, in their order.
pub open spec fn keys_of(fields: Seq<FieldView>) -> Seq<Seq<char>> {
    Seq::new(fields.len(), |i: int| fields[i].key)
}

proof fn lemma_pointers()
    ensures
        "/"@ + "to"@ == "/to"@,
        "/"@ + "amount"@ == "/amount"@,
        "/"@ + "message"@ == "/message"@,
        "/"@ + "name"@ == "/name"@,
        "/"@ + "memo"@ == "/memo"@,
        "/"@ + "fundingTxid"@ == "/fundingTxid"@,
        "/"@ + "fundingVout"@ == "/fundingVout"@,
        "/"@ + "fundingAmount"@ == "/fundingAmount"@,
        "/"@ + "witnessScriptHex"@ == "/witnessScriptHex"@,
        "/"@ + "branch"@ == "/branch"@,
        "/"@ + "preimageHex"@ == "/preimageHex"@,
        "/"@ + "destinationAddress"@ == "/destinationAddress"@,
        "/"@ + "feeRate"@ == "/feeRate"@,
{
    reveal_strlit("/");
    reveal_strlit("to");
    reveal_strlit("/to");
    reveal_strlit("amount");
    reveal_strlit("/amount");
    reveal_strlit("message");
    reveal_strlit("/message");
    reveal_strlit("name");
    reveal_strlit("/name");
    reveal_strlit("memo");
    reveal_strlit("/memo");
    reveal_strlit("fundingTxid");
    reveal_strlit("/fundingTxid");
    reveal_strlit("fundingVout");
    reveal_strlit("/fundingVout");
    reveal_strlit("fundingAmount");
    reveal_strlit("/fundingAmount");
    reveal_strlit("witnessScriptHex");
    reveal_strlit("/witnessScriptHex");
    reveal_strlit("branch");
    reveal_strlit("/branch");
    reveal_strlit("preimageHex");
    reveal_strlit("/preimageHex");
    reveal_strlit("destinationAddress");
    reveal_strlit("/destinationAddress");
    reveal_strlit("feeRate");
    reveal_strlit("/feeRate");
    assert("/"@ + "to"@ =~= "/to"@);
    assert("/"@ + "amount"@ =~= "/amount"@);
    assert("/"@ + "message"@ =~= "/message"@);
    assert("/"@ + "name"@ =~= "/name"@);
    assert("/"@ + "memo"@ =~= "/memo"@);
    assert("/"@ + "fundingTxid"@ =~= "/fundingTxid"@);
    assert("/"@ + "fundingVout"@ =~= "/fundingVout"@);
    assert("/"@ + "fundingAmount"@ =~= "/fundingAmount"@);
    assert("/"@ + "witnessScriptHex"@ =~= "/witnessScriptHex"@);
    assert("/"@ + "branch"@ =~= "/branch"@);
    assert("/"@ + "preimageHex"@ =~= "/preimageHex"@);
    assert("/"@ + "destinationAddress"@ =~= "/destinationAddress"@);
    assert("/"@ + "feeRate"@ =~= "/feeRate"@);
}

/// What is put before the user is what the message says: every field of every
/// request holds, under its key, the value that the message has there, and the
/// origin and the kind are those of the message.
pub proof fn law_fields_are_the_members(data: Seq<u8>)
    ensures
        request_in(data) matches RequestView::Ask { origin, kind, fields } ==> {
            &&& is_json(data)
            &&& json_text_at(data, "/origin"@) == Some(origin)
            &&& json_text_at(data, "/type"@) == Some(kind_name(kind))
            &&& forall|i: int| 0 <= i < fields.len() ==> is_from(data, #[trigger] fields[i])
        },
        request_in(data) matches RequestView::Connect { origin } ==> json_text_at(data, "/origin"@)
            == Some(origin) && json_text_at(data, "/type"@) == Some("connect"@),
{
    lemma_pointers();
    lemma_kinds_differ();
    if let RequestView::Ask { origin, kind, fields } = request_in(data) {
        assert forall|i: int| 0 <= i < fields.len() implies is_from(
            data,
            #[trigger] fields[i],
        ) by {}
    }
}

/// A text of exactly 64 hexadecimal digits.
pub open spec fn is_64_hex(t: Seq<char>) -> bool {
    t.len() == 64 && forall|i: int|
        0 <= i < t.len() ==> ('0' <= #[trigger] t[i] <= '9' || 'a' <= t[i] <= 'f' || 'A' <= t[i]
            <= 'F')
}

/// A text of hexadecimal digits, an even number of them and some.
pub open spec fn is_hex_pairs(t: Seq<char>) -> bool {
    t.len() > 0 && t.len() % 2 == 0 && forall|i: int|
        0 <= i < t.len() ==> ('0' <= #[trigger] t[i] <= '9' || 'a' <= t[i] <= 'f' || 'A' <= t[i]
            <= 'F')
}

proof fn lemma_hex_digit(c: char)
    ensures
        is_hex_digit(c) == ('0' <= c <= '9' || 'a' <= c <= 'f' || 'A' <= c <= 'F'),
{
}

proof fn lemma_hex_pairs(t: Seq<char>)
    ensures
        is_hex_pairs(t) == is_hex_text(t),
        is_64_hex(t) == (t.len() == 64 && is_hex_text(t)),
{
    assert forall|i: int| 0 <= i < t.len() implies is_hex_digit(#[trigger] t[i]) == ('0' <= t[i]
        <= '9' || 'a' <= t[i] <= 'f' || 'A' <= t[i] <= 'F') by {
        lemma_hex_digit(t[i]);
    }
    if is_hex_pairs(t) || is_64_hex(t) {
        assert forall|i: int| 0 <= i < t.len() implies is_hex_digit(#[trigger] t[i]) by {}
    }
    if is_hex_text(t) {
        assert forall|i: int| 0 <= i < t.len() implies ('0' <= #[trigger] t[i] <= '9' || 'a'
            <= t[i] <= 'f' || 'A' <= t[i] <= 'F') by {
            assert(is_hex_digit(t[i]));
        }
    }
}

/// Whether a message has a whole number at a pointer, from `least` to `most`.
pub open spec fn has_whole(data: Seq<u8>, pointer: Seq<char>, least: nat, most: nat) -> bool {
    json_double_at(data, pointer) matches Some(d) && whole_number(d) matches Some(n) && least <= n
        <= most
}

/// Whether a message says all that a spend of a deposit needs: a transaction
/// and an output, an amount, a script, one of the two branches, the preimage if
/// it is a claim, a destination and a fee.
pub open spec fn is_full_spend(data: Seq<u8>) -> bool {
    &&& is_json(data)
    &&& json_text_at(data, "/type"@) == Some("signHtlcSpend"@)
    &&& json_text_at(data, "/origin"@) matches Some(o) && o.len() > 0
    &&& json_text_at(data, "/fundingTxid"@) matches Some(t) && is_64_hex(t)
    &&& has_whole(data, "/fundingVout"@, 0, 0xffff_ffff)
    &&& json_double_at(data, "/fundingAmount"@) matches Some(d) && whole_number(d) matches Some(n)
        && n > 0
    &&& json_text_at(data, "/witnessScriptHex"@) matches Some(w) && is_hex_pairs(w)
    &&& json_text_at(data, "/branch"@) == Some("refund"@) || json_text_at(data, "/branch"@) == Some(
        "claim"@,
    ) && json_text_at(data, "/preimageHex"@) is Some && is_64_hex(
        json_text_at(data, "/preimageHex"@)->Some_0,
    )
    &&& json_text_at(data, "/destinationAddress"@) matches Some(a) && a.len() > 0
    &&& json_double_at(data, "/feeRate"@) matches Some(f) && whole_number(f) matches Some(m) && m
        > 0
}

/// A message that says all that a spend needs, and no other, is put before the
/// user as a spend, with a field for everything it says; the preimage is there
/// if the message has one that is not empty, so with every claim.
pub proof fn law_full_spends_are_asked(data: Seq<u8>)
    ensures
        is_full_spend(data) <==> (request_in(data) matches RequestView::Ask { kind, .. } && kind
            == Kind::SignHtlcSpend),
        is_full_spend(data) ==> {
            let preimage = json_text_at(data, "/preimageHex"@);
            keys_of(request_in(data)->fields) == if preimage is Some && preimage->Some_0.len() > 0 {
                seq![
                    "fundingTxid"@,
                    "fundingVout"@,
                    "fundingAmount"@,
                    "witnessScriptHex"@,
                    "branch"@,
                    "preimageHex"@,
                    "destinationAddress"@,
                    "feeRate"@,
                ]
            } else {
                seq![
                    "fundingTxid"@,
                    "fundingVout"@,
                    "fundingAmount"@,
                    "witnessScriptHex"@,
                    "branch"@,
                    "destinationAddress"@,
                    "feeRate"@,
                ]
            }
        },
{
    lemma_kinds_differ();
    if let Some(t) = json_text_at(data, "/fundingTxid"@) {
        lemma_hex_pairs(t);
    }
    if let Some(t) = json_text_at(data, "/witnessScriptHex"@) {
        lemma_hex_pairs(t);
    }
    if let Some(t) = json_text_at(data, "/preimageHex"@) {
        lemma_hex_pairs(t);
    }
    reveal_strlit("claim");
    reveal_strlit("refund");
    assert("claim"@[0] != "refund"@[0]);
    if is_full_spend(data) {
        let preimage = json_text_at(data, "/preimageHex"@);
        let keys = keys_of(request_in(data)->fields);
        if preimage is Some && preimage->Some_0.len() > 0 {
            assert(keys =~= seq![
                "fundingTxid"@,
                "fundingVout"@,
                "fundingAmount"@,
                "witnessScriptHex"@,
                "branch"@,
                "preimageHex"@,
                "destinationAddress"@,
                "feeRate"@,
            ]);
        } else {
            assert(keys =~= seq![
                "fundingTxid"@,
                "fundingVout"@,
                "fundingAmount"@,
                "witnessScriptHex"@,
                "branch"@,
                "destinationAddress"@,
                "feeRate"@,
            ]);
        }
    }
}

/// A message asks for a payment if and only if it says to whom and how much: a
/// finite amount above zero, by its bits.
pub proof fn law_full_payments_are_asked(data: Seq<u8>)
    ensures
        (is_json(data) && json_text_at(data, "/type"@) == Some("sendTx"@) && (json_text_at(
            data,
            "/origin"@,
        ) matches Some(o) && o.len() > 0) && (json_text_at(data, "/to"@) matches Some(t) && t.len()
            > 0) && (json_double_at(data, "/amount"@) matches Some(d) && 0 < d
            < 0x7ff0_0000_0000_0000)) <==> (request_in(data) matches RequestView::Ask { kind, .. }
            && kind == Kind::SendTx),
        request_in(data) matches RequestView::Ask { kind: Kind::SendTx, fields, .. } ==> keys_of(
            fields,
        ) == seq!["to"@, "amount"@],
{
    lemma_kinds_differ();
    if let Some(d) = json_double_at(data, "/amount"@) {
        lemma_positive(d);
    }
    if let RequestView::Ask { kind: Kind::SendTx, fields, .. } = request_in(data) {
        assert(keys_of(fields) =~= seq!["to"@, "amount"@]);
    }
}

proof fn lemma_positive(d: u64)
    ensures
        is_positive_finite(d) == (0 < d < 0x7ff0_0000_0000_0000),
{
    law_positive_by_bits(d);
}

/// A message asks for a signature if and only if it has a message of at most
/// 8192 bytes; the name is put before the user too if there is one.
pub proof fn law_full_messages_are_asked(data: Seq<u8>)
    ensures
        (is_json(data) && json_text_at(data, "/type"@) == Some("signMessage"@) && (json_text_at(
            data,
            "/origin"@,
        ) matches Some(o) && o.len() > 0) && (json_text_at(data, "/message"@) matches Some(t)
            && encode_utf8(t).len() <= 8192)) <==> (request_in(data) matches RequestView::Ask {
            kind,
            ..
        } && kind == Kind::SignMessage),
        request_in(data) matches RequestView::Ask { kind: Kind::SignMessage, fields, .. } ==> {
            let name = json_text_at(data, "/name"@);
            keys_of(fields) == if name is Some && name->Some_0.len() > 0 {
                seq!["message"@, "name"@]
            } else {
                seq!["message"@]
            }
        },
{
    lemma_kinds_differ();
    if let RequestView::Ask { kind: Kind::SignMessage, fields, .. } = request_in(data) {
        let name = json_text_at(data, "/name"@);
        if name is Some && name->Some_0.len() > 0 {
            assert(keys_of(fields) =~= seq!["message"@, "name"@]);
        } else {
            assert(keys_of(fields) =~= seq!["message"@]);
        }
    }
}

/// A message asks for a deposit if and only if it has a script of at most 20000
/// hexadecimal digits and a finite amount above zero; a memo is put before the
/// user too if there is one.
pub proof fn law_full_deposits_are_asked(data: Seq<u8>)
    ensures
        (is_json(data) && json_text_at(data, "/type"@) == Some("fundHtlc"@) && (json_text_at(
            data,
            "/origin"@,
        ) matches Some(o) && o.len() > 0) && (json_text_at(data, "/witnessScriptHex"@) matches Some(
            w,
        ) && is_hex_pairs(w) && w.len() <= 20000) && (json_double_at(
            data,
            "/amount"@,
        ) matches Some(d) && 0 < d < 0x7ff0_0000_0000_0000)) <==> (request_in(
            data,
        ) matches RequestView::Ask { kind, .. } && kind == Kind::FundHtlc),
        request_in(data) matches RequestView::Ask { kind: Kind::FundHtlc, fields, .. } ==> {
            let memo = json_text_at(data, "/memo"@);
            keys_of(fields) == if memo is Some && memo->Some_0.len() > 0 {
                seq!["witnessScriptHex"@, "amount"@, "memo"@]
            } else {
                seq!["witnessScriptHex"@, "amount"@]
            }
        },
{
    lemma_kinds_differ();
    if let Some(t) = json_text_at(data, "/witnessScriptHex"@) {
        lemma_hex_pairs(t);
    }
    if let Some(d) = json_double_at(data, "/amount"@) {
        lemma_positive(d);
    }
    if let RequestView::Ask { kind: Kind::FundHtlc, fields, .. } = request_in(data) {
        let memo = json_text_at(data, "/memo"@);
        if memo is Some && memo->Some_0.len() > 0 {
            assert(keys_of(fields) =~= seq!["witnessScriptHex"@, "amount"@, "memo"@]);
        } else {
            assert(keys_of(fields) =~= seq!["witnessScriptHex"@, "amount"@]);
        }
    }
}

/// Whether a message of a type is a request at all: connecting and asking for
/// the key need an origin and nothing else, asking for information needs
/// nothing, and a message of no known type is refused by that type.
pub proof fn law_short_requests(data: Seq<u8>, origin: Seq<char>)
    requires
        is_json(data),
        json_text_at(data, "/origin"@) == Some(origin),
    ensures
        json_text_at(data, "/type"@) == Some("info"@) ==> request_in(data) == (RequestView::Info {
            origin,
        }),
        json_text_at(data, "/type"@) == Some("connect"@) && origin.len() > 0 ==> request_in(data)
            == (RequestView::Connect { origin }),
        json_text_at(data, "/type"@) == Some("getPublicKey"@) && origin.len() > 0 ==> request_in(
            data,
        ) == (RequestView::Ask { origin, kind: Kind::GetPublicKey, fields: Seq::empty() }),
        json_text_at(data, "/type"@) matches Some(t) ==> (t != "info"@ && t != "connect"@ && t
            != "sendTx"@ && t != "signMessage"@ && t != "getPublicKey"@ && t != "fundHtlc"@ && t
            != "signHtlcSpend"@ ==> request_in(data) == RequestView::Refused(
            "unknown request type: "@ + t,
        )),
{
    lemma_kinds_differ();
}

proof fn lemma_kinds_differ()
    ensures
        "info"@ != "connect"@,
        "info"@ != "sendTx"@,
        "info"@ != "signMessage"@,
        "info"@ != "getPublicKey"@,
        "info"@ != "fundHtlc"@,
        "info"@ != "signHtlcSpend"@,
        "connect"@ != "sendTx"@,
        "connect"@ != "signMessage"@,
        "connect"@ != "getPublicKey"@,
        "connect"@ != "fundHtlc"@,
        "connect"@ != "signHtlcSpend"@,
        "sendTx"@ != "signMessage"@,
        "sendTx"@ != "getPublicKey"@,
        "sendTx"@ != "fundHtlc"@,
        "sendTx"@ != "signHtlcSpend"@,
        "signMessage"@ != "getPublicKey"@,
        "signMessage"@ != "fundHtlc"@,
        "signMessage"@ != "signHtlcSpend"@,
        "getPublicKey"@ != "fundHtlc"@,
        "getPublicKey"@ != "signHtlcSpend"@,
        "fundHtlc"@ != "signHtlcSpend"@,
        "info"@.len() > 0 && "connect"@.len() > 0 && "sendTx"@.len() > 0 && "signMessage"@.len()
            > 0 && "getPublicKey"@.len() > 0 && "fundHtlc"@.len() > 0 && "signHtlcSpend"@.len() > 0,
{
    reveal_strlit("info");
    reveal_strlit("connect");
    reveal_strlit("sendTx");
    reveal_strlit("signMessage");
    reveal_strlit("getPublicKey");
    reveal_strlit("fundHtlc");
    reveal_strlit("signHtlcSpend");
    assert("info"@[0] == 'i' && "connect"@[0] == 'c' && "sendTx"@[0] == 's');
    assert("signMessage"@[0] == 's' && "getPublicKey"@[0] == 'g' && "fundHtlc"@[0] == 'f');
    assert("signHtlcSpend"@[0] == 's' && "sendTx"@[1] == 'e' && "signMessage"@[1] == 'i');
    assert("signHtlcSpend"@[1] == 'i' && "signHtlcSpend"@[4] == 'H' && "signMessage"@[4] == 'M');
}

/// Each kind of request has its own name, and the user is asked by an event of
/// its own.
pub proof fn law_kinds_stay_apart(a: Kind, b: Kind)
    requires
        a != b,
    ensures
        kind_name(a) != kind_name(b),
        event_name(a) != event_name(b),
{
    lemma_kinds_differ();
    reveal_strlit("ext://request");
    reveal_strlit("ext://tx-request");
    reveal_strlit("ext://sign-request");
    reveal_strlit("ext://swap-pubkey-request");
    reveal_strlit("ext://htlc-fund-request");
    reveal_strlit("ext://htlc-spend-request");
    assert("ext://request"@.len() == 13 && "ext://tx-request"@.len() == 16);
    assert("ext://sign-request"@.len() == 18 && "ext://swap-pubkey-request"@.len() == 25);
    assert("ext://htlc-fund-request"@.len() == 23 && "ext://htlc-spend-request"@.len() == 24);
}

// ── Checking ──

fn refuse(why: &str) -> (r: Request)
    ensures
        r@ == refused(why@),
{
    Request::Refused(why.to_owned())
}

fn push_text(fields: &mut Vec<Field>, key: &str, value: String)
    ensures
        field_views(final(fields)@) == field_views(old(fields)@).push(text_field(key@, value@)),
{
    let ghost before = fields@;
    let f = Field { key: key.to_owned(), value: Value::Text(value) };
    fields.push(f);
    assert(field_views(fields@) =~= field_views(before).push(f@));
}

fn push_value(fields: &mut Vec<Field>, key: &str, value: Value)
    requires
        value !is Text,
    ensures
        field_views(final(fields)@) == field_views(old(fields)@).push(
            (FieldView {
                key: key@,
                value: match value {
                    Value::Text(t) => ValueView::Text(t@),
                    Value::Double(d) => ValueView::Double(d),
                    Value::Whole(n) => ValueView::Whole(n),
                },
            }),
        ),
{
    let ghost before = fields@;
    let f = Field { key: key.to_owned(), value };
    fields.push(f);
    assert(field_views(fields@) =~= field_views(before).push(f@));
}

/// Whether a text is made of hexadecimal digits, an even number of them.
pub fn is_hex_string(s: &str) -> (r: bool)
    ensures
        r == is_hex_text(s@),
{
    let v = chars_of(s);
    if v.len() == 0 || v.len() % 2 != 0 {
        return false;
    }
    let mut i: usize = 0;
    while i < v.len()
        invariant
            i <= v@.len(),
            v@ == s@,
            forall|k: int| 0 <= k < i ==> is_hex_digit(#[trigger] v@[k]),
        decreases v@.len() - i,
    {
        let n = v[i] as u32;
        if !((48 <= n && n <= 57) || (65 <= n && n <= 70) || (97 <= n && n <= 102)) {
            assert(!is_hex_digit(v@[i as int]));
            return false;
        }
        i = i + 1;
    }
    true
}

fn is_hex_of_len(s: &String, n: usize) -> (r: bool)
    ensures
        r == (s@.len() == n && is_hex_text(s@)),
{
    chars_of(s.as_str()).len() == n && is_hex_string(s.as_str())
}

fn if_not_empty(t: Option<String>) -> (r: Option<String>)
    ensures
        text_of(r) == non_empty_text(text_of(t)),
{
    match t {
        Some(s) => if s.as_str().is_empty() {
            None
        } else {
            Some(s)
        },
        None => None,
    }
}

/// Checks a payment.
pub fn process_sendtx_request(origin: String, to: Option<String>, amount: Option<u64>) -> (r:
    Request)
    ensures
        r@ == send_tx_request(origin@, text_of(to), amount),
{
    if origin.as_str().is_empty() {
        return refuse("missing origin");
    }
    let to = match to {
        Some(t) => t,
        None => return refuse("missing `to` field"),
    };
    if to.as_str().is_empty() {
        return refuse("`to` is empty");
    }
    let amount = match amount {
        Some(d) => d,
        None => return refuse("`amount` must be a positive number (FBC)"),
    };
    if !positive_finite(amount) {
        return refuse("`amount` must be a positive number (FBC)");
    }
    let mut fields: Vec<Field> = Vec::new();
    assert(field_views(fields@) =~= Seq::empty());
    let ghost want = seq![
        text_field("to"@, to@),
        FieldView { key: "amount"@, value: ValueView::Double(amount) },
    ];
    push_text(&mut fields, "to", to);
    push_value(&mut fields, "amount", Value::Double(amount));
    assert(field_views(fields@) =~= want);
    Request::Ask { origin, kind: Kind::SendTx, fields }
}

/// Checks a wish for a signature under a message.
pub fn process_sign_message_request(
    origin: String,
    message: Option<String>,
    name: Option<String>,
) -> (r: Request)
    ensures
        r@ == sign_message_request(origin@, text_of(message), text_of(name)),
{
    if origin.as_str().is_empty() {
        return refuse("missing origin");
    }
    let message = match message {
        Some(t) => t,
        None => return refuse("missing `message` field"),
    };
    if byte_len(message.as_str()) > MAX_MESSAGE_BYTES {
        return refuse("message too long (max 8 KB)");
    }
    let mut fields: Vec<Field> = Vec::new();
    assert(field_views(fields@) =~= Seq::empty());
    let ghost want = seq![text_field("message"@, message@)] + optional_field(
        "name"@,
        non_empty_text(text_of(name)),
    );
    push_text(&mut fields, "message", message);
    match if_not_empty(name) {
        Some(n) => push_text(&mut fields, "name", n),
        None => {},
    }
    assert(field_views(fields@) =~= want);
    Request::Ask { origin, kind: Kind::SignMessage, fields }
}

/// Checks a wish for the key that swaps are made with.
pub fn process_get_pubkey_request(origin: String) -> (r: Request)
    ensures
        r@ == get_pubkey_request(origin@),
{
    if origin.as_str().is_empty() {
        return refuse("missing origin");
    }
    let fields: Vec<Field> = Vec::new();
    assert(field_views(fields@) =~= Seq::empty());
    Request::Ask { origin, kind: Kind::GetPublicKey, fields }
}

/// Checks a deposit.
pub fn process_fund_htlc_request(
    origin: String,
    script: Option<String>,
    amount: Option<u64>,
    memo: Option<String>,
) -> (r: Request)
    ensures
        r@ == fund_htlc_request(origin@, text_of(script), amount, text_of(memo)),
{
    if origin.as_str().is_empty() {
        return refuse("missing origin");
    }
    let script = match script {
        Some(t) => t,
        None => return refuse("missing `witnessScriptHex` field"),
    };
    if !is_hex_string(script.as_str()) {
        return refuse("`witnessScriptHex` must be a hex string");
    }
    if chars_of(script.as_str()).len() > MAX_SCRIPT_DIGITS {
        return refuse("`witnessScriptHex` is too large");
    }
    let amount = match amount {
        Some(d) => d,
        None => return refuse("`amount` must be a positive number (FBC)"),
    };
    if !positive_finite(amount) {
        return refuse("`amount` must be a positive number (FBC)");
    }
    let mut fields: Vec<Field> = Vec::new();
    assert(field_views(fields@) =~= Seq::empty());
    let ghost want = seq![
        text_field("witnessScriptHex"@, script@),
        FieldView { key: "amount"@, value: ValueView::Double(amount) },
    ] + optional_field("memo"@, non_empty_text(text_of(memo)));
    push_text(&mut fields, "witnessScriptHex", script);
    push_value(&mut fields, "amount", Value::Double(amount));
    match if_not_empty(memo) {
        Some(m) => push_text(&mut fields, "memo", m),
        None => {},
    }
    assert(field_views(fields@) =~= want);
    Request::Ask { origin, kind: Kind::FundHtlc, fields }
}

fn whole_above_zero(bits: u64) -> (r: Option<u64>)
    ensures
        match r {
            Some(n) => is_positive_whole(bits) && n == saturated(whole_number(bits)->Some_0),
            None => !is_positive_whole(bits),
        },
{
    match to_whole(bits) {
        Some(n) => if n > 0 {
            Some(n)
        } else {
            None
        },
        None => None,
    }
}

/// Checks a spend of a deposit.
pub fn process_sign_htlc_spend_request(origin: String, spend: Spend) -> (r: Request)
    ensures
        r@ == htlc_spend_request(origin@, spend@),
{
    let ghost view = spend@;
    if origin.as_str().is_empty() {
        return refuse("missing origin");
    }
    let txid = match spend.funding_txid {
        Some(t) => t,
        None => return refuse("missing `fundingTxid`"),
    };
    if !is_hex_of_len(&txid, 64) {
        return refuse("`fundingTxid` must be 64 hex chars");
    }
    let vout = match spend.funding_vout {
        Some(d) => match to_whole(d) {
            Some(n) => n,
            None => return refuse("`fundingVout` must be a non-negative integer"),
        },
        None => return refuse("`fundingVout` must be a non-negative integer"),
    };
    if vout > u32::MAX as u64 {
        return refuse("`fundingVout` must be a non-negative integer");
    }
    let amount = match spend.funding_amount {
        Some(d) => match whole_above_zero(d) {
            Some(n) => n,
            None => return refuse("`fundingAmount` must be a positive integer"),
        },
        None => return refuse("`fundingAmount` must be a positive number (bumps)"),
    };
    let script = match spend.witness_script {
        Some(t) => t,
        None => return refuse("missing `witnessScriptHex`"),
    };
    if !is_hex_string(script.as_str()) {
        return refuse("`witnessScriptHex` must be a hex string");
    }
    let branch = match spend.branch {
        Some(t) => t,
        None => return refuse("missing `branch`"),
    };
    let claim = same_text(branch.as_str(), "claim");
    if !claim && !same_text(branch.as_str(), "refund") {
        return refuse("`branch` must be \"claim\" or \"refund\"");
    }
    let preimage = if_not_empty(spend.preimage);
    if claim {
        let fine = match &preimage {
            Some(p) => is_hex_of_len(p, 64),
            None => false,
        };
        if !fine {
            return refuse("claim branch requires `preimageHex` (64 hex chars)");
        }
    }
    let dest = match spend.destination {
        Some(t) => t,
        None => return refuse("missing `destinationAddress`"),
    };
    if dest.as_str().is_empty() {
        return refuse("`destinationAddress` is empty");
    }
    let fee = match spend.fee_rate {
        Some(d) => match whole_above_zero(d) {
            Some(n) => n,
            None => return refuse("`feeRate` must be a positive integer"),
        },
        None => return refuse("`feeRate` must be a positive integer"),
    };
    let mut fields: Vec<Field> = Vec::new();
    assert(field_views(fields@) =~= Seq::empty());
    push_text(&mut fields, "fundingTxid", txid);
    push_value(&mut fields, "fundingVout", Value::Whole(vout));
    push_value(&mut fields, "fundingAmount", Value::Whole(amount));
    push_text(&mut fields, "witnessScriptHex", script);
    push_text(&mut fields, "branch", branch);
    match preimage {
        Some(p) => push_text(&mut fields, "preimageHex", p),
        None => {},
    }
    push_text(&mut fields, "destinationAddress", dest);
    push_value(&mut fields, "feeRate", Value::Whole(fee));
    assert(field_views(fields@) =~= htlc_spend_request(origin@, view)->fields);
    Request::Ask { origin, kind: Kind::SignHtlcSpend, fields }
}

fn text_at(data: &[u8], pointer: &str) -> (r: String)
    ensures
        r@ == text_or_empty(json_text_at(data@, pointer@)),
{
    match json_text(data, pointer) {
        Some(t) => t,
        None => {
            let t = String::new();
            assert(t@ =~= Seq::empty());
            t
        },
    }
}

/// Reads a request and checks its shape.
pub fn process_ipc_message(data: &[u8]) -> (r: Request)
    ensures
        r@ == request_in(data@),
{
    if !check_json(data) {
        return refuse("invalid json frame");
    }
    let kind = text_at(data, "/type");
    let origin = text_at(data, "/origin");
    if same_text(kind.as_str(), "info") {
        Request::Info { origin }
    } else if same_text(kind.as_str(), "connect") {
        if origin.as_str().is_empty() {
            refuse("missing origin")
        } else {
            Request::Connect { origin }
        }
    } else if same_text(kind.as_str(), "sendTx") {
        process_sendtx_request(origin, json_text(data, "/to"), json_double(data, "/amount"))
    } else if same_text(kind.as_str(), "signMessage") {
        process_sign_message_request(
            origin,
            json_text(data, "/message"),
            json_text(data, "/name"),
        )
    } else if same_text(kind.as_str(), "getPublicKey") {
        process_get_pubkey_request(origin)
    } else if same_text(kind.as_str(), "fundHtlc") {
        process_fund_htlc_request(
            origin,
            json_text(data, "/witnessScriptHex"),
            json_double(data, "/amount"),
            json_text(data, "/memo"),
        )
    } else if same_text(kind.as_str(), "signHtlcSpend") {
        let spend = Spend {
            funding_txid: json_text(data, "/fundingTxid"),
            funding_vout: json_double(data, "/fundingVout"),
            funding_amount: json_double(data, "/fundingAmount"),
            witness_script: json_text(data, "/witnessScriptHex"),
            branch: json_text(data, "/branch"),
            preimage: json_text(data, "/preimageHex"),
            destination: json_text(data, "/destinationAddress"),
            fee_rate: json_double(data, "/feeRate"),
        };
        process_sign_htlc_spend_request(origin, spend)
    } else {
        Request::Refused(concat2("unknown request type: ", kind.as_str()))
    }
}

} // verus!
