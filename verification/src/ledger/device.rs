//! The device behind its transport.

use crate::ledger::apdu::{
    encode_bip32_path, lemma_path_bytes_len, message_data, message_payload, meta_views,
    path_bytes, path_len_ok, INS_GET_PUBKEY, INS_SIGN_MESSAGE, SignInput, SignMeta,
};
use crate::ledger::session::{
    conclusion, exchanges, is_short, last_reply, law_chunks_are_short, parse_sign_input_reply,
    plain_step, plan, plan_session, plan_single, progress, reply_view, signed_views, single,
    went_through, Exchange, Plan, PlanView, Reply, SignResult, Signed, StepView,
};
use crate::ledger::tx::{law_tx_counts, parse_unsigned_tx, tx_in};
use crate::text::{
    bytes_outcome, concat2, decimal, number_after, numbers_after, utf8_error_text, utf8_string,
    with_number,
};
use crate::wire::{copy_range, lemma_le_len};
use vstd::prelude::*;
use vstd::utf8::{
    decode_utf8, encode_utf8, encode_utf8_decode_utf8, encode_utf8_valid_utf8, valid_utf8,
};

verus! {

/// Wire-level link to a device. An implementation owns a physical transport
/// and hides its framing behind one request and response. It checks the
/// 2-byte status word and strips it: callers only see response data.
pub trait LedgerTransport: Sized {
    /// All that was ever sent over this link, in order, and what came back. It
    /// is a record for proofs only: an implementation keeps nothing for it.
    closed spec fn sent(&self) -> Seq<Exchange> {
        arbitrary::<spec_fn(Self) -> Seq<Exchange>>()(*self)
    }

    /// Sends a command and waits up to `timeout_secs` seconds for the reply.
    /// Each call, and nothing else, adds to what was sent.
    fn exchange(&mut self, apdu: &[u8], timeout_secs: u64) -> (r: Result<Vec<u8>, String>)
        ensures
            final(self).sent() == old(self).sent().push(
                (Exchange { apdu: apdu@, timeout_secs, reply: reply_view(r) }),
            ),
    ;
}

/// Whether `r` is what came of asking a device to sign the transaction, where
/// `before` had been sent by then and `after` has been now: a transaction that
/// does not parse, or has another number of inputs than there is metadata for,
/// is refused without a word to the device. Else the session goes by the plan.
pub open spec fn signing_gave(
    before: Seq<Exchange>,
    after: Seq<Exchange>,
    tx_bytes: Seq<u8>,
    inputs: Seq<SignMeta>,
    r: Result<Vec<SignResult>, String>,
) -> bool {
    match tx_in(tx_bytes) {
        Err(e) => {
            &&& after == before
            &&& r matches Err(x) && x@ == e
        },
        Ok(tx) => if tx.inputs.len() != inputs.len() {
            &&& after == before
            &&& r matches Err(x) && x@ == "input count mismatch: tx has "@ + decimal(
                tx.inputs.len(),
            ) + ", caller provided "@ + decimal(inputs.len())
        } else {
            session_gave(before, after, plan(tx, inputs), r)
        },
    }
}

/// Whether `r` is what a session gave that went by `plan`.
pub open spec fn session_gave(
    before: Seq<Exchange>,
    after: Seq<Exchange>,
    plan: PlanView,
    r: Result<Vec<SignResult>, String>,
) -> bool {
    exists|replies: Seq<Reply>|
        {
            &&& #[trigger] went_through(plan, before, after, replies)
            &&& match conclusion(plan, replies) {
                Ok(sigs) => r matches Ok(v) && signed_views(v@) == sigs,
                Err(e) => r matches Err(x) && x@ == e,
            }
        }
}

/// How the device is asked for the key at a derivation path, and whether it
/// shows it.
pub open spec fn pubkey_plan(path: Seq<u32>, display: bool) -> PlanView {
    single(
        INS_GET_PUBKEY,
        if display {
            1
        } else {
            0
        },
        path_bytes(path),
        60,
    )
}

/// How the device is asked to sign a message.
pub open spec fn message_plan(path: Seq<u32>, message: Seq<u8>) -> PlanView {
    single(INS_SIGN_MESSAGE, 0, message_data(path, message), 180)
}

/// Every command of these is short.
pub proof fn law_commands_are_short(path: Seq<u32>, display: bool, message: Seq<u8>, i: int)
    ensures
        0 <= i < pubkey_plan(path, display).steps.len() ==> is_short(
            pubkey_plan(path, display).steps[i].apdu,
        ),
        0 <= i < message_plan(path, message).steps.len() ==> is_short(
            message_plan(path, message).steps[i].apdu,
        ),
{
    law_chunks_are_short(INS_GET_PUBKEY, 1, path_bytes(path), 60);
    law_chunks_are_short(INS_GET_PUBKEY, 0, path_bytes(path), 60);
    law_chunks_are_short(INS_SIGN_MESSAGE, 0, message_data(path, message), 180);
}

/// A key is asked for, and a message sent, in one command wherever one can
/// carry it; that command is then the only one.
pub proof fn law_one_command_if_it_fits(path: Seq<u32>, display: bool, message: Seq<u8>)
    ensures
        1 + 4 * path.len() <= 240 ==> pubkey_plan(path, display).steps == seq![
            plain_step(
                INS_GET_PUBKEY,
                if display {
                    1
                } else {
                    0
                },
                0,
                path_bytes(path),
                60,
            ),
        ],
        3 + 4 * path.len() + message.len() <= 240 ==> message_plan(path, message).steps == seq![
            plain_step(INS_SIGN_MESSAGE, 0, 0, message_data(path, message), 180),
        ],
{
    lemma_path_bytes_len(path);
    lemma_le_len(message.len(), 2);
    law_chunks_are_short(INS_GET_PUBKEY, 1, path_bytes(path), 60);
    law_chunks_are_short(INS_GET_PUBKEY, 0, path_bytes(path), 60);
    law_chunks_are_short(INS_SIGN_MESSAGE, 0, message_data(path, message), 180);
}

/// A public key, a chain code and an address.
pub type KeyView = (Seq<u8>, Seq<u8>, Seq<char>);

/// What the reply to `GET_PUBKEY` says:
/// `33 || pubkey || 32 || chain_code || addr_len || address`.
pub open spec fn pubkey_in(reply: Seq<u8>) -> Result<KeyView, Seq<char>> {
    let addr_end = 68 + reply[67] as int;
    if reply.len() < 68 {
        Err("get_pubkey response too short: "@ + decimal(reply.len()) + " bytes"@)
    } else if reply[0] != 33 {
        Err("expected 33B pubkey, got "@ + decimal(reply[0] as nat))
    } else if reply[34] != 32 {
        Err("expected 32B chain code, got "@ + decimal(reply[34] as nat))
    } else if reply.len() < addr_end {
        Err("get_pubkey response truncated at address"@)
    } else if !valid_utf8(reply.subrange(68, addr_end)) {
        Err("address utf8: "@ + utf8_error_text(reply.subrange(68, addr_end)))
    } else {
        Ok(
            (
                reply.subrange(1, 34),
                reply.subrange(35, 67),
                decode_utf8(reply.subrange(68, addr_end)),
            ),
        )
    }
}

/// The recoverable signature in the reply to `SIGN_MESSAGE`, which is
/// `recovery_id(1) || sig(64) || pubkey(33)`: the first 65 bytes.
pub open spec fn message_signature_in(reply: Seq<u8>) -> Result<Seq<u8>, Seq<char>> {
    if reply.len() != 98 {
        Err("SIGN_MESSAGE response wrong length: "@ + decimal(reply.len()) + " (expected 98)"@)
    } else if reply[0] > 3 {
        Err("SIGN_MESSAGE invalid recovery_id "@ + decimal(reply[0] as nat))
    } else {
        Ok(reply.subrange(0, 65))
    }
}

/// Why a message is not sent to be signed, if it is not.
pub open spec fn message_refused(path: Seq<u32>, message: Seq<u8>) -> Option<Seq<char>> {
    if message.len() > 512 {
        Some("message too long ("@ + decimal(message.len()) + " bytes, max 512)"@)
    } else if !path_len_ok(path) {
        Some("path length "@ + decimal(path.len()) + " out of range"@)
    } else {
        None
    }
}

/// What a key reply holds.
pub open spec fn key_view(k: (Vec<u8>, Vec<u8>, String)) -> KeyView {
    (k.0@, k.1@, k.2@)
}

pub open spec fn key_outcome(r: Result<(Vec<u8>, Vec<u8>, String), String>) -> Result<
    KeyView,
    Seq<char>,
> {
    match r {
        Ok(k) => Ok(key_view(k)),
        Err(e) => Err(e@),
    }
}

/// Reads the reply to `GET_PUBKEY`.
pub fn parse_pubkey_reply(reply: &[u8]) -> (r: Result<(Vec<u8>, Vec<u8>, String), String>)
    ensures
        key_outcome(r) == pubkey_in(reply@),
{
    if reply.len() < 68 {
        return Err(with_number("get_pubkey response too short: ", reply.len() as u64, " bytes"));
    }
    if reply[0] != 33 {
        return Err(number_after("expected 33B pubkey, got ", reply[0] as u64));
    }
    let pubkey = copy_range(reply, 1, 34);
    if reply[34] != 32 {
        return Err(number_after("expected 32B chain code, got ", reply[34] as u64));
    }
    let chain_code = copy_range(reply, 35, 67);
    let addr_end: usize = 68 + reply[67] as usize;
    if reply.len() < addr_end {
        return Err("get_pubkey response truncated at address".to_owned());
    }
    match utf8_string(copy_range(reply, 68, addr_end)) {
        Ok(address) => Ok((pubkey, chain_code, address)),
        Err(e) => Err(concat2("address utf8: ", e.as_str())),
    }
}

/// Reads the reply to `SIGN_MESSAGE`.
pub fn parse_sign_message_reply(reply: &[u8]) -> (r: Result<Vec<u8>, String>)
    ensures
        bytes_outcome(r) == message_signature_in(reply@),
{
    if reply.len() != 98 {
        return Err(
            with_number(
                "SIGN_MESSAGE response wrong length: ",
                reply.len() as u64,
                " (expected 98)",
            ),
        );
    }
    if reply[0] > 3 {
        return Err(number_after("SIGN_MESSAGE invalid recovery_id ", reply[0] as u64));
    }
    Ok(copy_range(reply, 0, 65))
}

/// A device, spoken to over a transport.
pub struct Ledger<T: LedgerTransport> {
    transport: T,
}

impl<T: LedgerTransport> Ledger<T> {
    /// All that was ever sent to the device, and what came back.
    pub closed spec fn sent(&self) -> Seq<Exchange> {
        self.transport.sent()
    }

    pub fn new(transport: T) -> (r: Self)
        ensures
            r.sent() == transport.sent(),
    {
        Ledger { transport }
    }

    /// Asks for the key at a derivation path: the compressed public key (33
    /// bytes), the chain code (32 bytes) and the address.
    pub fn get_pubkey(&mut self, path: &[u32], display: bool) -> (r: Result<
        (Vec<u8>, Vec<u8>, String),
        String,
    >)
        ensures
            exists|replies: Seq<Reply>|
                {
                    &&& #[trigger] went_through(
                        pubkey_plan(path@, display),
                        old(self).sent(),
                        final(self).sent(),
                        replies,
                    )
                    &&& key_outcome(r) == match last_reply(pubkey_plan(path@, display), replies) {
                        Ok(data) => pubkey_in(data),
                        Err(e) => Err(e),
                    }
                },
    {
        let path_data = encode_bip32_path(path);
        let p1: u8 = if display {
            1
        } else {
            0
        };
        proof {
            lemma_path_bytes_len(path@);
        }
        match self.converse(plan_single(INS_GET_PUBKEY, p1, &path_data, 60)) {
            Ok(data) => parse_pubkey_reply(&data),
            Err(e) => Err(e),
        }
    }

    /// Signs a message with the key at `path`: the 65 bytes
    /// `recovery_id || compact_sig`. The user approves on the device.
    pub fn sign_message(&mut self, path: &[u32], message: &[u8]) -> (r: Result<Vec<u8>, String>)
        ensures
            match message_refused(path@, message@) {
                Some(why) => {
                    &&& final(self).sent() == old(self).sent()
                    &&& bytes_outcome(r) == Err::<Seq<u8>, Seq<char>>(why)
                },
                None => exists|replies: Seq<Reply>|
                    {
                        &&& #[trigger] went_through(
                            message_plan(path@, message@),
                            old(self).sent(),
                            final(self).sent(),
                            replies,
                        )
                        &&& bytes_outcome(r) == match last_reply(
                            message_plan(path@, message@),
                            replies,
                        ) {
                            Ok(data) => message_signature_in(data),
                            Err(e) => Err(e),
                        }
                    },
            },
    {
        if message.len() > 512 {
            return Err(
                with_number("message too long (", message.len() as u64, " bytes, max 512)"),
            );
        }
        if path.len() == 0 || path.len() > 10 {
            return Err(with_number("path length ", path.len() as u64, " out of range"));
        }
        let payload = message_payload(path, message);
        proof {
            lemma_path_bytes_len(path@);
        }
        match self.converse(plan_single(INS_SIGN_MESSAGE, 0, &payload, 180)) {
            Ok(data) => parse_sign_message_reply(&data),
            Err(e) => Err(e),
        }
    }

    /// Goes through a plan of which only the last reply matters.
    fn converse(&mut self, plan: Plan) -> (r: Result<Vec<u8>, String>)
        requires
            plan@.steps.len() > 0,
            plan@.stop is None,
        ensures
            exists|replies: Seq<Reply>|
                {
                    &&& #[trigger] went_through(
                        plan@,
                        old(self).sent(),
                        final(self).sent(),
                        replies,
                    )
                    &&& reply_view(r) == last_reply(plan@, replies)
                },
    {
        match self.run(&plan) {
            Ok(done) => Ok(done.last),
            Err(e) => Err(e),
        }
    }

    /// Goes through a plan: sends its commands in order until one fails.
    fn run(&mut self, plan: &Plan) -> (r: Result<Done, String>)
        ensures
            exists|replies: Seq<Reply>|
                {
                    &&& #[trigger] went_through(
                        plan@,
                        old(self).sent(),
                        final(self).sent(),
                        replies,
                    )
                    &&& match conclusion(plan@, replies) {
                        Ok(sigs) => {
                            &&& r matches Ok(done)
                            &&& signed_views(done.sigs@) == sigs
                            &&& replies.len() > 0 ==> replies.last() == Ok::<Seq<u8>, Seq<char>>(
                                done.last@,
                            )
                        },
                        Err(e) => r matches Err(x) && x@ == e,
                    }
                },
    {
        let mut sigs: Vec<SignResult> = Vec::new();
        let mut last: Vec<u8> = Vec::new();
        let ghost before = self.sent();
        let ghost mut replies: Seq<Reply> = Seq::empty();
        let ghost steps = plan@.steps;
        let mut i: usize = 0;
        assert(signed_views(sigs@) =~= Seq::empty());
        assert(self.sent() =~= before + exchanges(steps, replies));
        while i < plan.steps.len()
            invariant
                i <= plan.steps@.len(),
                steps == plan@.steps,
                replies.len() == i,
                before == old(self).sent(),
                self.sent() == before + exchanges(steps, replies),
                forall|k: nat| k <= i ==> #[trigger] progress(steps, replies, k) is Ok,
                progress(steps, replies, i as nat) == Ok::<Seq<Signed>, Seq<char>>(
                    signed_views(sigs@),
                ),
                i > 0 ==> replies.last() == Ok::<Seq<u8>, Seq<char>>(last@),
            decreases plan.steps@.len() - i,
        {
            let reply = self.transport.exchange(&plan.steps[i].apdu, plan.steps[i].timeout_secs);
            let ghost earlier = replies;
            proof {
                replies = replies.push(reply_view(reply));
                assert(steps[i as int] == plan.steps@[i as int]@);
                assert(self.sent() =~= before + exchanges(steps, replies));
                assert forall|k: nat| k <= i implies #[trigger] progress(steps, replies, k) is Ok by {
                    lemma_progress_prefix(steps, earlier, replies, k);
                    assert(progress(steps, earlier, k) is Ok);
                }
                lemma_progress_prefix(steps, earlier, replies, i as nat);
            }
            match reply {
                Err(e) => {
                    assert(went_through(plan@, before, self.sent(), replies));
                    return Err(e);
                },
                Ok(data) => {
                    if plan.steps[i].signs {
                        match parse_sign_input_reply(&data) {
                            Err(e) => {
                                assert(went_through(plan@, before, self.sent(), replies));
                                return Err(e);
                            },
                            Ok(s) => {
                                let ghost sofar = sigs@;
                                sigs.push(s);
                                assert(signed_views(sigs@) =~= signed_views(sofar).push(s@));
                            },
                        }
                    }
                    last = data;
                },
            }
            i = i + 1;
        }
        assert(went_through(plan@, before, self.sent(), replies));
        match &plan.stop {
            Some(e) => Err(e.clone()),
            None => Ok(Done { sigs, last }),
        }
    }

    /// Streams a signing session to the device and collects a signature for
    /// each input.
    pub fn sign_pstx(&mut self, tx_bytes: &[u8], inputs: &[SignInput]) -> (r: Result<
        Vec<SignResult>,
        String,
    >)
        ensures
            signing_gave(
                old(self).sent(),
                final(self).sent(),
                tx_bytes@,
                meta_views(inputs@),
                r,
            ),
    {
        let parsed = match parse_unsigned_tx(tx_bytes) {
            Ok(p) => p,
            Err(e) => return Err(e),
        };
        if parsed.inputs.len() != inputs.len() {
            return Err(
                numbers_after(
                    "input count mismatch: tx has ",
                    parsed.inputs.len() as u64,
                    ", caller provided ",
                    inputs.len() as u64,
                ),
            );
        }
        proof {
            law_tx_counts(tx_bytes@);
        }
        match self.run(&plan_session(&parsed, inputs)) {
            Ok(done) => Ok(done.sigs),
            Err(e) => Err(e),
        }
    }
}

/// What going through a plan gave: the signatures, and the last reply.
struct Done {
    sigs: Vec<SignResult>,
    last: Vec<u8>,
}

/// Later replies do not change what came of the earlier ones.
proof fn lemma_progress_prefix(steps: Seq<StepView>, a: Seq<Reply>, b: Seq<Reply>, n: nat)
    requires
        n <= a.len() <= b.len(),
        forall|i: int| 0 <= i < a.len() ==> a[i] == b[i],
    ensures
        progress(steps, a, n) == progress(steps, b, n),
    decreases n,
{
    if n > 0 {
        lemma_progress_prefix(steps, a, b, (n - 1) as nat);
    }
}

// ── What holds of the replies ──

/// A key reply is taken apart as it was put together: the key behind its length,
/// the chain code behind its own, and the address behind its own; what follows
/// is of no account.
pub proof fn law_key_reply(
    pubkey: Seq<u8>,
    chain_code: Seq<u8>,
    address: Seq<char>,
    after: Seq<u8>,
)
    requires
        pubkey.len() == 33,
        chain_code.len() == 32,
        encode_utf8(address).len() <= 255,
    ensures
        pubkey_in(
            seq![33u8] + pubkey + seq![32u8] + chain_code + seq![encode_utf8(address).len() as u8]
                + encode_utf8(address) + after,
        ) == Ok::<KeyView, Seq<char>>((pubkey, chain_code, address)),
{
    let a = encode_utf8(address);
    let r = seq![33u8] + pubkey + seq![32u8] + chain_code + seq![a.len() as u8] + a + after;
    assert(r.subrange(1, 34) =~= pubkey);
    assert(r.subrange(35, 67) =~= chain_code);
    assert(r.subrange(68, 68 + a.len() as int) =~= a);
    encode_utf8_valid_utf8(address);
    encode_utf8_decode_utf8(address);
}

/// A signature under a message is the first 65 bytes of a reply of 98, of which
/// the first is at most 3; any other reply is an error.
pub proof fn law_message_reply(reply: Seq<u8>)
    ensures
        message_signature_in(reply) is Ok <==> reply.len() == 98 && reply[0] <= 3,
        message_signature_in(reply) matches Ok(sig) ==> sig.len() == 65 && sig == reply.take(65),
{
    if reply.len() == 98 {
        assert(reply.subrange(0, 65) =~= reply.take(65));
    }
}

/// A message of up to 512 bytes is sent to be signed, at a path of one to ten
/// words, and no other.
pub proof fn law_which_messages_are_sent(path: Seq<u32>, message: Seq<u8>)
    ensures
        message_refused(path, message) is None <==> message.len() <= 512 && 1 <= path.len() <= 10,
{
}

/// Which commands these are: the key is asked for by instruction 5, with 1 as
/// the parameter if it is to be shown, and a message is signed by instruction 7.
pub proof fn law_which_commands(path: Seq<u32>, display: bool, message: Seq<u8>, i: int)
    ensures
        0 <= i < pubkey_plan(path, display).steps.len() ==> {
            let c = pubkey_plan(path, display).steps[i].apdu;
            c[0] == 0xe0 && c[1] == 5 && c[2] == (if display {
                1u8
            } else {
                0u8
            })
        },
        0 <= i < message_plan(path, message).steps.len() ==> {
            let c = message_plan(path, message).steps[i].apdu;
            c[0] == 0xe0 && c[1] == 7 && c[2] == 0
        },
{
}

} // verus!
