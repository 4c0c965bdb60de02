//! A signing session: which commands are sent for a transaction, and what
//! comes of the replies.
//!
//! `BEGIN`, one `ADD_INPUT` per input, one `ADD_OUTPUT` per output (in
//! chunks if it is long), `REVIEW` (the user approves on the device), then one
//! `SIGN_INPUT` per input. The user approves once, however many inputs there
//! are.

use crate::ledger::apdu::{
    add_input_data, add_input_payload, apdu, begin_data, begin_payload, build_apdu,
    law_command_layout, lemma_apdu_len, lemma_path_bytes_len, meta_views, path_len_ok, INS_SIGN_TX, MAX_APDU_DATA,
    P1_SIGN_ADD_INPUT, P1_SIGN_ADD_OUTPUT, P1_SIGN_BEGIN, P1_SIGN_INPUT, P1_SIGN_REVIEW, P2_LAST,
    P2_MORE, SignInput, SignMeta,
};
use crate::ledger::reader::lemma_varint_len;
use crate::ledger::tx::{ParsedTx, Tx, TxInput};
use crate::text::{decimal, numbers_after, with_number};
use crate::wire::{
    be, be_value, copy_range, law_be_read_write, lemma_be_len, lemma_le_len, lemma_pow256_values,
    push_be,
};
use vstd::prelude::*;

verus! {

/// What the device returns for each input after the user approves.
pub struct SignResult {
    pub sig: Vec<u8>,
    pub sighash_byte: u8,
    pub pubkey: Vec<u8>,
}

/// A signature: 64 bytes, the kind of hash that it signs, and the key.
pub struct Signed {
    pub sig: Seq<u8>,
    pub sighash_byte: u8,
    pub pubkey: Seq<u8>,
}

impl View for SignResult {
    type V = Signed;

    open spec fn view(&self) -> Signed {
        Signed { sig: self.sig@, sighash_byte: self.sighash_byte, pubkey: self.pubkey@ }
    }
}

pub open spec fn signed_views(v: Seq<SignResult>) -> Seq<Signed> {
    Seq::new(v.len(), |i: int| v[i]@)
}

/// A command of the session, how many seconds to wait for the reply, and
/// whether the reply holds a signature.
pub struct Step {
    pub apdu: Vec<u8>,
    pub timeout_secs: u64,
    pub signs: bool,
}

pub struct StepView {
    pub apdu: Seq<u8>,
    pub timeout_secs: u64,
    pub signs: bool,
}

impl View for Step {
    type V = StepView;

    open spec fn view(&self) -> StepView {
        StepView { apdu: self.apdu@, timeout_secs: self.timeout_secs, signs: self.signs }
    }
}

pub open spec fn step_views(v: Seq<Step>) -> Seq<StepView> {
    Seq::new(v.len(), |i: int| v[i]@)
}

/// The steps of a session up to its end, and why it ends early if it does.
pub struct Plan {
    pub steps: Vec<Step>,
    pub stop: Option<String>,
}

#[verifier::ext_equal]
pub struct PlanView {
    pub steps: Seq<StepView>,
    pub stop: Option<Seq<char>>,
}

impl View for Plan {
    type V = PlanView;

    open spec fn view(&self) -> PlanView {
        PlanView {
            steps: step_views(self.steps@),
            stop: match self.stop {
                Some(t) => Some(t@),
                None => None,
            },
        }
    }
}

// ── The commands of a session ──

pub open spec fn plain_step(ins: u8, p1: u8, p2: u8, data: Seq<u8>, timeout_secs: u64) -> StepView {
    StepView { apdu: apdu(ins, p1, p2, data), timeout_secs, signs: false }
}

/// How many chunks `len` bytes take.
pub open spec fn chunk_count(len: nat) -> nat {
    (len + 239) / 240
}

/// The `i`-th 240 bytes of some data.
pub open spec fn data_chunk(data: Seq<u8>, i: int) -> Seq<u8> {
    data.subrange(
        240 * i,
        if i + 1 == chunk_count(data.len()) {
            data.len() as int
        } else {
            240 * i + 240
        },
    )
}

/// How long to wait until a chunk that is not the last is taken, in seconds.
pub const CHUNK_SECS: u64 = 10;

/// The commands that send some data: 240 bytes at a time, the last chunk
/// marked as such. The reply to the last is waited for `timeout_secs` seconds.
pub open spec fn chunk_steps(ins: u8, p1: u8, data: Seq<u8>, timeout_secs: u64) -> Seq<StepView> {
    Seq::new(
        chunk_count(data.len()),
        |i: int|
            if i + 1 == chunk_count(data.len()) {
                plain_step(ins, p1, P2_LAST, data_chunk(data, i), timeout_secs)
            } else {
                plain_step(ins, p1, P2_MORE, data_chunk(data, i), CHUNK_SECS)
            },
    )
}

/// The commands that send one output.
pub open spec fn output_steps(output: Seq<u8>) -> Seq<StepView> {
    chunk_steps(INS_SIGN_TX, P1_SIGN_ADD_OUTPUT, output, 10)
}

/// The first `n` chunks of some data, put together.
pub open spec fn joined_chunks(data: Seq<u8>, n: nat) -> Seq<u8>
    decreases n,
{
    if n == 0 {
        Seq::empty()
    } else {
        joined_chunks(data, (n - 1) as nat) + data_chunk(data, n - 1)
    }
}

/// The chunks of some data hold between 1 and 240 bytes each and make up the
/// data.
pub proof fn law_chunks_make_up_data(data: Seq<u8>)
    ensures
        joined_chunks(data, chunk_count(data.len())) == data,
        forall|i: int|
            0 <= i < chunk_count(data.len()) ==> 1 <= (#[trigger] data_chunk(data, i)).len()
                <= 240,
{
    lemma_joined(data, chunk_count(data.len()));
    assert(joined_chunks(data, chunk_count(data.len())) =~= data);
}

proof fn lemma_joined(data: Seq<u8>, n: nat)
    requires
        n <= chunk_count(data.len()),
    ensures
        joined_chunks(data, n) == data.take(
            if n == chunk_count(data.len()) {
                data.len() as int
            } else {
                (240 * n) as int
            },
        ),
    decreases n,
{
    if n > 0 {
        lemma_joined(data, (n - 1) as nat);
        assert(joined_chunks(data, n) =~= data.take(
            if n == chunk_count(data.len()) {
                data.len() as int
            } else {
                (240 * n) as int
            },
        ));
    } else {
        assert(joined_chunks(data, 0) =~= data.take(0));
    }
}

/// Whether a command carries at most 240 bytes of data, and its length byte is
/// their number.
pub open spec fn is_short(apdu: Seq<u8>) -> bool {
    5 <= apdu.len() <= 5 + MAX_APDU_DATA && apdu[4] == apdu.len() - 5
}

/// However much data is sent, each command is short; data that one command can
/// carry is sent in one.
pub proof fn law_chunks_are_short(ins: u8, p1: u8, data: Seq<u8>, timeout_secs: u64)
    ensures
        forall|i: int|
            0 <= i < chunk_steps(ins, p1, data, timeout_secs).len() ==> is_short(
                (#[trigger] chunk_steps(ins, p1, data, timeout_secs)[i]).apdu,
            ),
        1 <= data.len() <= 240 ==> chunk_steps(ins, p1, data, timeout_secs) == seq![
            plain_step(ins, p1, P2_LAST, data, timeout_secs),
        ],
{
    law_chunks_make_up_data(data);
    let steps = chunk_steps(ins, p1, data, timeout_secs);
    assert forall|i: int| 0 <= i < steps.len() implies is_short((#[trigger] steps[i]).apdu) by {
        let chunk = data_chunk(data, i);
        lemma_apdu_len(ins, p1, P2_LAST, chunk);
        lemma_apdu_len(ins, p1, P2_MORE, chunk);
    }
    if 1 <= data.len() <= 240 {
        assert(data_chunk(data, 0) =~= data);
        assert(steps =~= seq![plain_step(ins, p1, P2_LAST, data, timeout_secs)]);
    }
}

/// The command that begins a session.
pub open spec fn begin_step(tx: Tx, inputs: Seq<SignMeta>) -> StepView {
    plain_step(
        INS_SIGN_TX,
        P1_SIGN_BEGIN,
        0,
        begin_data(tx.version, inputs.len(), tx.outputs.len(), tx.locktime),
        10,
    )
}

/// The command that tells of an input.
pub open spec fn input_step(input: TxInput, meta: SignMeta) -> StepView {
    plain_step(INS_SIGN_TX, P1_SIGN_ADD_INPUT, 0, add_input_data(input, meta), 10)
}

/// The command that has the user look at the transaction.
pub open spec fn review_step() -> StepView {
    plain_step(INS_SIGN_TX, P1_SIGN_REVIEW, 0, Seq::empty(), 180)
}

/// Up to the `n`-th input.
pub open spec fn plan_inputs(tx: Tx, inputs: Seq<SignMeta>, n: nat) -> PlanView
    decreases n,
{
    if n == 0 {
        PlanView {
            steps: seq![
                begin_step(tx, inputs),
            ],
            stop: None,
        }
    } else {
        let before = plan_inputs(tx, inputs, (n - 1) as nat);
        let meta = inputs[n - 1];
        if before.stop is Some {
            before
        } else if !path_len_ok(meta.path) {
            PlanView {
                steps: before.steps,
                stop: Some("path length "@ + decimal(meta.path.len()) + " out of range"@),
            }
        } else {
            PlanView {
                steps: before.steps.push(input_step(tx.inputs[n - 1], meta)),
                stop: None,
            }
        }
    }
}

/// All inputs, and up to the `n`-th output.
pub open spec fn plan_outputs(tx: Tx, inputs: Seq<SignMeta>, n: nat) -> PlanView
    decreases n,
{
    if n == 0 {
        plan_inputs(tx, inputs, inputs.len())
    } else {
        let before = plan_outputs(tx, inputs, (n - 1) as nat);
        if before.stop is Some {
            before
        } else if tx.outputs[n - 1].len() == 0 {
            PlanView { steps: before.steps, stop: Some("output bytes empty"@) }
        } else {
            PlanView { steps: before.steps + output_steps(tx.outputs[n - 1]), stop: None }
        }
    }
}

/// The commands that ask for the signatures of `n` inputs.
pub open spec fn sign_steps(n: nat) -> Seq<StepView> {
    Seq::new(
        n,
        |i: int|
            StepView {
                apdu: apdu(INS_SIGN_TX, P1_SIGN_INPUT, 0, be(i as nat, 4)),
                timeout_secs: 30,
                signs: true,
            },
    )
}

/// The whole session.
pub open spec fn plan(tx: Tx, inputs: Seq<SignMeta>) -> PlanView {
    let before = plan_outputs(tx, inputs, tx.outputs.len());
    if before.stop is Some {
        before
    } else {
        PlanView {
            steps: before.steps.push(review_step()) + sign_steps(inputs.len()),
            stop: None,
        }
    }
}

proof fn lemma_plan_inputs_stop(tx: Tx, inputs: Seq<SignMeta>, i: nat, n: nat)
    requires
        i <= n,
        plan_inputs(tx, inputs, i).stop is Some,
    ensures
        plan_inputs(tx, inputs, n) == plan_inputs(tx, inputs, i),
    decreases n,
{
    if i < n {
        lemma_plan_inputs_stop(tx, inputs, i, (n - 1) as nat);
    }
}

proof fn lemma_plan_outputs_stop(tx: Tx, inputs: Seq<SignMeta>, i: nat, n: nat)
    requires
        i <= n,
        plan_outputs(tx, inputs, i).stop is Some,
    ensures
        plan_outputs(tx, inputs, n) == plan_outputs(tx, inputs, i),
    decreases n,
{
    if i < n {
        lemma_plan_outputs_stop(tx, inputs, i, (n - 1) as nat);
    }
}

// ── What comes of the replies ──

/// The signature in the reply to `SIGN_INPUT`:
/// `sig(64) || sighash(1) || pk_len(1) || pk(33)`.
pub open spec fn signature_in(reply: Seq<u8>) -> Result<Signed, Seq<char>> {
    if reply.len() < 67 {
        Err("SIGN_INPUT response too short ("@ + decimal(reply.len()) + " bytes)"@)
    } else if reply[65] != 33 || reply.len() != 99 {
        Err(
            "SIGN_INPUT pubkey malformed: pk_len="@ + decimal(reply[65] as nat) + ", total="@
                + decimal(reply.len()),
        )
    } else {
        Ok(
            Signed {
                sig: reply.subrange(0, 64),
                sighash_byte: reply[64],
                pubkey: reply.subrange(66, 99),
            },
        )
    }
}

/// A reply: data, or an error of the transport.
pub type Reply = Result<Seq<u8>, Seq<char>>;

pub open spec fn reply_view(r: Result<Vec<u8>, String>) -> Reply {
    match r {
        Ok(v) => Ok(v@),
        Err(e) => Err(e@),
    }
}

/// Where the session stands after `n` replies: the signatures so far, or why
/// it failed.
pub open spec fn progress(steps: Seq<StepView>, replies: Seq<Reply>, n: nat) -> Result<
    Seq<Signed>,
    Seq<char>,
>
    decreases n,
{
    if n == 0 {
        Ok(Seq::empty())
    } else {
        match progress(steps, replies, (n - 1) as nat) {
            Err(e) => Err(e),
            Ok(sigs) => match replies[n - 1] {
                Err(e) => Err(e),
                Ok(data) => if steps[n - 1].signs {
                    match signature_in(data) {
                        Err(e) => Err(e),
                        Ok(s) => Ok(sigs.push(s)),
                    }
                } else {
                    Ok(sigs)
                },
            },
        }
    }
}

/// Whether `replies` are those of a session that was carried on exactly as
/// far as it went well.
pub open spec fn carried_on(plan: PlanView, replies: Seq<Reply>) -> bool {
    &&& replies.len() <= plan.steps.len()
    &&& forall|k: nat|
        k < replies.len() ==> #[trigger] progress(plan.steps, replies, k) is Ok
    &&& replies.len() < plan.steps.len() ==> progress(plan.steps, replies, replies.len()) is Err
}

/// A command that was sent, how many seconds the reply was waited for, and what
/// came back.
pub struct Exchange {
    pub apdu: Seq<u8>,
    pub timeout_secs: u64,
    pub reply: Reply,
}

/// The commands that were answered, with the replies.
pub open spec fn exchanges(steps: Seq<StepView>, replies: Seq<Reply>) -> Seq<Exchange> {
    Seq::new(
        replies.len(),
        |i: int|
            Exchange {
                apdu: steps[i].apdu,
                timeout_secs: steps[i].timeout_secs,
                reply: replies[i],
            },
    )
}

/// Whether exactly the commands of the plan were sent after those in `before`,
/// in order, up to the first that failed, and `replies` came back.
pub open spec fn went_through(
    plan: PlanView,
    before: Seq<Exchange>,
    after: Seq<Exchange>,
    replies: Seq<Reply>,
) -> bool {
    carried_on(plan, replies) && after == before + exchanges(plan.steps, replies)
}

/// What the session gives: the first failure among the replies, else why the
/// plan ends early, else the signatures.
pub open spec fn conclusion(plan: PlanView, replies: Seq<Reply>) -> Result<
    Seq<Signed>,
    Seq<char>,
> {
    match progress(plan.steps, replies, replies.len()) {
        Err(e) => Err(e),
        Ok(sigs) => match plan.stop {
            Some(e) => Err(e),
            None => Ok(sigs),
        },
    }
}

/// The plan that sends one piece of data, in as many commands as it takes.
pub open spec fn single(ins: u8, p1: u8, data: Seq<u8>, timeout_secs: u64) -> PlanView {
    PlanView { steps: chunk_steps(ins, p1, data, timeout_secs), stop: None }
}

/// What comes of a plan of which only the last reply matters.
pub open spec fn last_reply(plan: PlanView, replies: Seq<Reply>) -> Reply {
    match conclusion(plan, replies) {
        Err(e) => Err(e),
        Ok(_) => replies.last(),
    }
}

/// A plan with one command is one exchange, whatever comes of it.
pub proof fn law_one_step_is_one_exchange(
    plan: PlanView,
    before: Seq<Exchange>,
    after: Seq<Exchange>,
    replies: Seq<Reply>,
)
    requires
        plan.steps.len() == 1,
        went_through(plan, before, after, replies),
    ensures
        replies.len() == 1,
        after == before.push(
            (Exchange {
                apdu: plan.steps[0].apdu,
                timeout_secs: plan.steps[0].timeout_secs,
                reply: replies[0],
            }),
        ),
{
    assert(progress(plan.steps, replies, 0) is Ok);
    assert(after =~= before.push(
        Exchange {
            apdu: plan.steps[0].apdu,
            timeout_secs: plan.steps[0].timeout_secs,
            reply: replies[0],
        },
    ));
}

/// The commands that tell of the first `n` outputs.
pub open spec fn outputs_steps(outputs: Seq<Seq<u8>>, n: nat) -> Seq<StepView>
    decreases n,
{
    if n == 0 {
        Seq::empty()
    } else {
        outputs_steps(outputs, (n - 1) as nat) + output_steps(outputs[n - 1])
    }
}

/// The commands that tell of the first `n` inputs.
pub open spec fn inputs_steps(tx: Tx, inputs: Seq<SignMeta>, n: nat) -> Seq<StepView> {
    Seq::new(n, |i: int| input_step(tx.inputs[i], inputs[i]))
}

/// The order of a session that is not cut short: `BEGIN`, the inputs in order,
/// the outputs in order, `REVIEW` once, then the signatures in order.
pub proof fn law_session_order(tx: Tx, inputs: Seq<SignMeta>)
    requires
        plan(tx, inputs).stop is None,
    ensures
        plan(tx, inputs).steps == seq![begin_step(tx, inputs)] + inputs_steps(
            tx,
            inputs,
            inputs.len(),
        ) + outputs_steps(tx.outputs, tx.outputs.len()) + seq![review_step()] + sign_steps(
            inputs.len(),
        ),
{
    lemma_outputs_in_order(tx, inputs, tx.outputs.len());
    assert(plan(tx, inputs).steps =~= seq![begin_step(tx, inputs)] + inputs_steps(
        tx,
        inputs,
        inputs.len(),
    ) + outputs_steps(tx.outputs, tx.outputs.len()) + seq![review_step()] + sign_steps(
        inputs.len(),
    ));
}

proof fn lemma_inputs_in_order(tx: Tx, inputs: Seq<SignMeta>, n: nat)
    requires
        plan_inputs(tx, inputs, n).stop is None,
    ensures
        plan_inputs(tx, inputs, n).steps == seq![begin_step(tx, inputs)] + inputs_steps(
            tx,
            inputs,
            n,
        ),
    decreases n,
{
    let all = seq![begin_step(tx, inputs)] + inputs_steps(tx, inputs, n);
    if n > 0 {
        lemma_inputs_in_order(tx, inputs, (n - 1) as nat);
    }
    assert(plan_inputs(tx, inputs, n).steps =~= all);
}

proof fn lemma_outputs_in_order(tx: Tx, inputs: Seq<SignMeta>, n: nat)
    requires
        plan_outputs(tx, inputs, n).stop is None,
    ensures
        plan_outputs(tx, inputs, n).steps == seq![begin_step(tx, inputs)] + inputs_steps(
            tx,
            inputs,
            inputs.len(),
        ) + outputs_steps(tx.outputs, n),
    decreases n,
{
    let all = seq![begin_step(tx, inputs)] + inputs_steps(tx, inputs, inputs.len())
        + outputs_steps(tx.outputs, n);
    if n > 0 {
        lemma_outputs_in_order(tx, inputs, (n - 1) as nat);
    } else {
        lemma_inputs_in_order(tx, inputs, inputs.len());
    }
    assert(plan_outputs(tx, inputs, n).steps =~= all);
}

/// The device is asked for a signature only after it has answered `REVIEW`,
/// that is once the user has approved.
pub proof fn law_no_signature_without_review(
    tx: Tx,
    inputs: Seq<SignMeta>,
    replies: Seq<Reply>,
    i: int,
)
    requires
        carried_on(plan(tx, inputs), replies),
        0 <= i < replies.len(),
        plan(tx, inputs).steps[i].signs,
    ensures
        exists|j: int|
            0 <= j < i && #[trigger] plan(tx, inputs).steps[j] == review_step()
                && replies[j] is Ok,
{
    let p = plan(tx, inputs);
    let head = plan_outputs(tx, inputs, tx.outputs.len());
    let j = head.steps.len() as int;
    lemma_outputs_do_not_sign(tx, inputs, tx.outputs.len());
    if i < j {
        assert(p.steps[i] == head.steps[i]);
    }
    assert(p.stop is None);
    assert(p.steps[j] == review_step());
    assert(progress(p.steps, replies, (j + 1) as nat) is Ok);
}

/// Every command of a session is short.
pub proof fn law_session_commands_are_short(tx: Tx, inputs: Seq<SignMeta>)
    requires
        tx.inputs.len() == inputs.len(),
        forall|i: int| 0 <= i < tx.inputs.len() ==> (#[trigger] tx.inputs[i]).prev_hash.len() == 32,
    ensures
        forall|i: int|
            0 <= i < plan(tx, inputs).steps.len() ==> is_short(
                (#[trigger] plan(tx, inputs).steps[i]).apdu,
            ),
{
    let p = plan(tx, inputs);
    let head = plan_outputs(tx, inputs, tx.outputs.len());
    lemma_outputs_short(tx, inputs, tx.outputs.len());
    assert forall|i: int| 0 <= i < p.steps.len() implies is_short((#[trigger] p.steps[i]).apdu) by {
        if i < head.steps.len() {
            assert(p.steps[i] == head.steps[i]);
        } else if i == head.steps.len() {
            lemma_apdu_len(INS_SIGN_TX, P1_SIGN_REVIEW, 0, Seq::empty());
        } else {
            let k = i - head.steps.len() - 1;
            lemma_be_len(k as nat, 4);
            lemma_apdu_len(INS_SIGN_TX, P1_SIGN_INPUT, 0, be(k as nat, 4));
        }
    }
}

proof fn lemma_inputs_short(tx: Tx, inputs: Seq<SignMeta>, n: nat)
    requires
        n <= inputs.len(),
        tx.inputs.len() == inputs.len(),
        forall|i: int| 0 <= i < tx.inputs.len() ==> (#[trigger] tx.inputs[i]).prev_hash.len() == 32,
    ensures
        forall|i: int|
            0 <= i < plan_inputs(tx, inputs, n).steps.len() ==> is_short(
                (#[trigger] plan_inputs(tx, inputs, n).steps[i]).apdu,
            ),
    decreases n,
{
    if n > 0 {
        lemma_inputs_short(tx, inputs, (n - 1) as nat);
        let meta = inputs[n - 1];
        let input = tx.inputs[n - 1];
        if path_len_ok(meta.path) {
            lemma_path_bytes_len(meta.path);
            lemma_le_len(input.prev_index, 4);
            lemma_le_len(input.sequence, 4);
            lemma_le_len(meta.value as nat, 8);
            lemma_apdu_len(INS_SIGN_TX, P1_SIGN_ADD_INPUT, 0, add_input_data(input, meta));
        }
    } else {
        let data = begin_data(tx.version, inputs.len(), tx.outputs.len(), tx.locktime);
        lemma_le_len(tx.version, 4);
        lemma_le_len(tx.locktime, 4);
        lemma_varint_len(inputs.len());
        lemma_varint_len(tx.outputs.len());
        lemma_apdu_len(INS_SIGN_TX, P1_SIGN_BEGIN, 0, data);
    }
}

proof fn lemma_outputs_short(tx: Tx, inputs: Seq<SignMeta>, n: nat)
    requires
        tx.inputs.len() == inputs.len(),
        forall|i: int| 0 <= i < tx.inputs.len() ==> (#[trigger] tx.inputs[i]).prev_hash.len() == 32,
    ensures
        forall|i: int|
            0 <= i < plan_outputs(tx, inputs, n).steps.len() ==> is_short(
                (#[trigger] plan_outputs(tx, inputs, n).steps[i]).apdu,
            ),
    decreases n,
{
    if n > 0 {
        lemma_outputs_short(tx, inputs, (n - 1) as nat);
        law_chunks_are_short(INS_SIGN_TX, P1_SIGN_ADD_OUTPUT, tx.outputs[n - 1], 10);
    } else {
        lemma_inputs_short(tx, inputs, inputs.len());
    }
}

/// A session that succeeds sent every command of the plan, and gives one
/// signature per input.
pub proof fn law_session_signs_every_input(tx: Tx, inputs: Seq<SignMeta>, replies: Seq<Reply>)
    requires
        carried_on(plan(tx, inputs), replies),
        conclusion(plan(tx, inputs), replies) is Ok,
    ensures
        replies.len() == plan(tx, inputs).steps.len(),
        conclusion(plan(tx, inputs), replies)->Ok_0.len() == inputs.len(),
{
    let p = plan(tx, inputs);
    let head = plan_outputs(tx, inputs, tx.outputs.len());
    lemma_outputs_do_not_sign(tx, inputs, tx.outputs.len());
    assert forall|i: int| 0 <= i <= head.steps.len() implies !(#[trigger] p.steps[i]).signs by {
        if i < head.steps.len() {
            assert(p.steps[i] == head.steps[i]);
        }
    }
    lemma_progress_count(p.steps, replies, head.steps.len() + 1, replies.len());
}

/// The signatures of a session that succeeds are those in the last replies of
/// the device, in order: the reply to the `SIGN_INPUT` of each input.
pub proof fn law_signatures_are_the_replies(
    tx: Tx,
    inputs: Seq<SignMeta>,
    before: Seq<Exchange>,
    after: Seq<Exchange>,
    replies: Seq<Reply>,
    i: int,
)
    requires
        went_through(plan(tx, inputs), before, after, replies),
        conclusion(plan(tx, inputs), replies) is Ok,
        0 <= i < inputs.len(),
    ensures
        conclusion(plan(tx, inputs), replies)->Ok_0.len() == inputs.len(),
        after.len() >= before.len() + inputs.len(),
        ({
            let e = after[after.len() - inputs.len() + i];
            &&& e.apdu == sign_steps(inputs.len())[i].apdu
            &&& e.reply matches Ok(data) && signature_in(data) == Ok::<Signed, Seq<char>>(
                conclusion(plan(tx, inputs), replies)->Ok_0[i],
            )
        }),
{
    let p = plan(tx, inputs);
    let head = plan_outputs(tx, inputs, tx.outputs.len());
    let from = head.steps.len() + 1;
    law_session_signs_every_input(tx, inputs, replies);
    lemma_outputs_do_not_sign(tx, inputs, tx.outputs.len());
    assert forall|k: int| 0 <= k < from implies !(#[trigger] p.steps[k]).signs by {
        if k < head.steps.len() {
            assert(p.steps[k] == head.steps[k]);
        }
    }
    assert forall|k: int| from <= k < p.steps.len() implies (#[trigger] p.steps[k]).signs by {
        assert(p.steps[k] == sign_steps(inputs.len())[k - from]);
    }
    lemma_progress_holds(p.steps, replies, from, replies.len(), i);
    assert(p.steps[from + i] == sign_steps(inputs.len())[i]);
    assert(after[after.len() - inputs.len() + i] == exchanges(p.steps, replies)[from + i]);
}

/// Where only the steps from `from` on sign, the `i`-th signature is that in the
/// reply to the `i`-th of those.
proof fn lemma_progress_holds(
    steps: Seq<StepView>,
    replies: Seq<Reply>,
    from: nat,
    n: nat,
    i: int,
)
    requires
        from + i < n <= steps.len(),
        0 <= i,
        forall|k: int| 0 <= k < from ==> !(#[trigger] steps[k]).signs,
        forall|k: int| from <= k < steps.len() ==> (#[trigger] steps[k]).signs,
        progress(steps, replies, n) is Ok,
    ensures
        replies[from + i] matches Ok(data) && signature_in(data) == Ok::<Signed, Seq<char>>(
            progress(steps, replies, n)->Ok_0[i],
        ),
    decreases n,
{
    lemma_progress_count(steps, replies, from, (n - 1) as nat);
    if from + i < n - 1 {
        lemma_progress_holds(steps, replies, from, (n - 1) as nat, i);
    }
}

proof fn lemma_inputs_do_not_sign(tx: Tx, inputs: Seq<SignMeta>, n: nat)
    ensures
        forall|i: int|
            0 <= i < plan_inputs(tx, inputs, n).steps.len() ==> !(#[trigger] plan_inputs(
                tx,
                inputs,
                n,
            ).steps[i]).signs,
    decreases n,
{
    if n > 0 {
        lemma_inputs_do_not_sign(tx, inputs, (n - 1) as nat);
    }
}

proof fn lemma_outputs_do_not_sign(tx: Tx, inputs: Seq<SignMeta>, n: nat)
    ensures
        forall|i: int|
            0 <= i < plan_outputs(tx, inputs, n).steps.len() ==> !(#[trigger] plan_outputs(
                tx,
                inputs,
                n,
            ).steps[i]).signs,
    decreases n,
{
    if n > 0 {
        lemma_outputs_do_not_sign(tx, inputs, (n - 1) as nat);
    } else {
        lemma_inputs_do_not_sign(tx, inputs, inputs.len());
    }
}

/// Where only the steps from `from` on sign, there is one signature for each
/// of those that were answered.
proof fn lemma_progress_count(steps: Seq<StepView>, replies: Seq<Reply>, from: nat, n: nat)
    requires
        from <= steps.len(),
        n <= steps.len(),
        forall|i: int| 0 <= i < from ==> !(#[trigger] steps[i]).signs,
        forall|i: int| from <= i < steps.len() ==> (#[trigger] steps[i]).signs,
        progress(steps, replies, n) is Ok,
    ensures
        progress(steps, replies, n)->Ok_0.len() == if n <= from {
            0
        } else {
            (n - from) as nat
        },
    decreases n,
{
    if n > 0 {
        lemma_progress_count(steps, replies, from, (n - 1) as nat);
    }
}

// ── Planning and concluding ──

fn push_step(steps: &mut Vec<Step>, ins: u8, p1: u8, p2: u8, data: &[u8], timeout_secs: u64)
    ensures
        step_views(final(steps)@) == step_views(old(steps)@).push(
            plain_step(ins, p1, p2, data@, timeout_secs),
        ),
{
    let ghost start = steps@;
    let step = Step { apdu: build_apdu(ins, p1, p2, data), timeout_secs, signs: false };
    steps.push(step);
    assert(step_views(steps@) =~= step_views(start).push(step@));
}

fn push_chunk_steps(steps: &mut Vec<Step>, ins: u8, p1: u8, data: &Vec<u8>, timeout_secs: u64)
    ensures
        step_views(final(steps)@) == step_views(old(steps)@) + chunk_steps(
            ins,
            p1,
            data@,
            timeout_secs,
        ),
{
    let ghost start = step_views(steps@);
    let ghost all = chunk_steps(ins, p1, data@, timeout_secs);
    let ghost n = chunk_count(data@.len());
    let len: usize = data.len();
    let mut offset: usize = 0;
    let ghost mut i: int = 0;
    assert(step_views(steps@) =~= start + all.take(0));
    while offset < len
        invariant
            len == data@.len(),
            n == chunk_count(data@.len()),
            all == chunk_steps(ins, p1, data@, timeout_secs),
            0 <= i <= n,
            offset == if i == n {
                len as int
            } else {
                240 * i
            },
            step_views(steps@) == start + all.take(i),
        decreases len - offset,
    {
        let end: usize = if len - offset <= MAX_APDU_DATA {
            len
        } else {
            offset + MAX_APDU_DATA
        };
        let chunk = copy_range(data, offset, end);
        if end == len {
            push_step(steps, ins, p1, P2_LAST, &chunk, timeout_secs);
        } else {
            push_step(steps, ins, p1, P2_MORE, &chunk, CHUNK_SECS);
        }
        proof {
            assert(i < n);
            assert((end == len) <==> (i + 1 == n));
            assert(all.take(i + 1) =~= all.take(i).push(all[i]));
            assert(step_views(steps@) =~= start + all.take(i + 1));
            i = i + 1;
        }
        offset = end;
    }
    assert(all.take(n as int) =~= all);
}

/// The commands to send for a transaction. It stops short at the first input
/// whose path the device would not take.
#[verifier::loop_isolation(false)]
pub fn plan_session(tx: &ParsedTx, inputs: &[SignInput]) -> (r: Plan)
    requires
        tx.inputs@.len() == inputs@.len(),
        inputs@.len() <= u32::MAX,
    ensures
        r@ == plan(tx@, meta_views(inputs@)),
{
    let ghost metas = meta_views(inputs@);
    let mut steps: Vec<Step> = Vec::new();
    let begin = begin_payload(
        tx.version,
        inputs.len() as u64,
        tx.outputs.len() as u64,
        tx.locktime,
    );
    push_step(&mut steps, INS_SIGN_TX, P1_SIGN_BEGIN, 0, &begin, 10);
    assert(step_views(steps@) =~= plan_inputs(tx@, metas, 0).steps);
    let mut i: usize = 0;
    while i < inputs.len()
        invariant
            i <= inputs@.len(),
            plan_inputs(tx@, metas, i as nat) == (PlanView {
                steps: step_views(steps@),
                stop: None,
            }),
        decreases inputs@.len() - i,
    {
        let n_words: usize = inputs[i].path.len();
        if n_words == 0 || n_words > 10 {
            let stop = with_number("path length ", n_words as u64, " out of range");
            proof {
                lemma_plan_inputs_stop(tx@, metas, (i + 1) as nat, inputs@.len());
                lemma_plan_outputs_stop(tx@, metas, 0, tx@.outputs.len());
            }
            return Plan { steps, stop: Some(stop) };
        }
        assert(metas[i as int] == inputs@[i as int]@);
        let data = add_input_payload(&tx.inputs[i], &inputs[i]);
        push_step(&mut steps, INS_SIGN_TX, P1_SIGN_ADD_INPUT, 0, &data, 10);
        assert(tx@.inputs[i as int] == tx.inputs@[i as int]@);
        i = i + 1;
    }
    let mut j: usize = 0;
    while j < tx.outputs.len()
        invariant
            j <= tx.outputs@.len(),
            plan_outputs(tx@, metas, j as nat) == (PlanView {
                steps: step_views(steps@),
                stop: None,
            }),
        decreases tx.outputs@.len() - j,
    {
        assert(tx@.outputs[j as int] == tx.outputs@[j as int]@);
        if tx.outputs[j].len() == 0 {
            proof {
                lemma_plan_outputs_stop(tx@, metas, (j + 1) as nat, tx@.outputs.len());
            }
            return Plan { steps, stop: Some("output bytes empty".to_owned()) };
        }
        push_chunk_steps(&mut steps, INS_SIGN_TX, P1_SIGN_ADD_OUTPUT, &tx.outputs[j], 10);
        j = j + 1;
    }
    let empty: Vec<u8> = Vec::new();
    push_step(&mut steps, INS_SIGN_TX, P1_SIGN_REVIEW, 0, &empty, 180);
    let ghost head = step_views(steps@);
    assert(empty@ =~= Seq::empty());
    let mut k: usize = 0;
    assert(head =~= head + sign_steps(0));
    while k < inputs.len()
        invariant
            k <= inputs@.len(),
            step_views(steps@) == head + sign_steps(k as nat),
        decreases inputs@.len() - k,
    {
        let mut index: Vec<u8> = Vec::new();
        push_be(&mut index, k as u64, 4);
        assert(index@ =~= be(k as nat, 4));
        let step = Step {
            apdu: build_apdu(INS_SIGN_TX, P1_SIGN_INPUT, 0, &index),
            timeout_secs: 30,
            signs: true,
        };
        let ghost before = steps@;
        steps.push(step);
        assert(step_views(steps@) =~= step_views(before).push(step@));
        assert(step_views(steps@) =~= head + sign_steps((k + 1) as nat));
        k = k + 1;
    }
    Plan { steps, stop: None }
}

/// The commands that send one piece of data.
pub fn plan_single(ins: u8, p1: u8, data: &Vec<u8>, timeout_secs: u64) -> (r: Plan)
    ensures
        r@ == single(ins, p1, data@, timeout_secs),
{
    let mut steps: Vec<Step> = Vec::new();
    push_chunk_steps(&mut steps, ins, p1, data, timeout_secs);
    assert(step_views(steps@) =~= chunk_steps(ins, p1, data@, timeout_secs));
    Plan { steps, stop: None }
}

/// The signature in the reply to `SIGN_INPUT`.
pub fn parse_sign_input_reply(reply: &[u8]) -> (r: Result<SignResult, String>)
    ensures
        match signature_in(reply@) {
            Ok(s) => r matches Ok(v) && v@ == s,
            Err(e) => r matches Err(t) && t@ == e,
        },
{
    if reply.len() < 67 {
        return Err(
            with_number("SIGN_INPUT response too short (", reply.len() as u64, " bytes)"),
        );
    }
    let pk_len = reply[65];
    if pk_len != 33 || reply.len() != 99 {
        return Err(
            numbers_after(
                "SIGN_INPUT pubkey malformed: pk_len=",
                pk_len as u64,
                ", total=",
                reply.len() as u64,
            ),
        );
    }
    Ok(
        SignResult {
            sig: copy_range(reply, 0, 64),
            sighash_byte: reply[64],
            pubkey: copy_range(reply, 66, 99),
        },
    )
}

/// A signature is taken from a reply as it was put together there: 64 bytes, the
/// kind of hash, the length of the key, and the key; no other reply has one.
pub proof fn law_signature_reply(sig: Seq<u8>, kind: u8, pubkey: Seq<u8>, other: Seq<u8>)
    requires
        sig.len() == 64,
        pubkey.len() == 33,
    ensures
        signature_in(sig + seq![kind, 33u8] + pubkey) == Ok::<Signed, Seq<char>>(
            Signed { sig, sighash_byte: kind, pubkey },
        ),
        signature_in(other) is Ok <==> other.len() == 99 && other[65] == 33,
{
    let r = sig + seq![kind, 33u8] + pubkey;
    assert(r.subrange(0, 64) =~= sig);
    assert(r.subrange(66, 99) =~= pubkey);
}

/// Which commands a session is made of: all are instruction 6. The first has
/// parameter 0 and tells how many inputs and outputs there are; the next have 1
/// and each tells of one input, in order; the one that has the user look at the
/// transaction has 3 and is waited for three minutes; the last have 4 and name
/// the inputs to be signed by their index.
pub proof fn law_session_commands(tx: Tx, inputs: Seq<SignMeta>, i: int)
    requires
        plan(tx, inputs).stop is None,
        0 <= i < inputs.len() <= 256,
        tx.inputs.len() == inputs.len(),
        forall|k: int| 0 <= k < tx.inputs.len() ==> (#[trigger] tx.inputs[k]).prev_hash.len() == 32,
    ensures
        ({
            let steps = plan(tx, inputs).steps;
            let n = inputs.len() as int;
            let begin = steps[0].apdu;
            let told = steps[1 + i].apdu;
            let review = steps[steps.len() - n - 1];
            let sign = steps[steps.len() - n + i];
            &&& steps.len() >= 2 + 2 * n
            &&& begin[0] == 0xe0 && begin[1] == 6 && begin[2] == 0
            &&& begin.skip(5) == begin_data(tx.version, inputs.len(), tx.outputs.len(), tx.locktime)
            &&& told[0] == 0xe0 && told[1] == 6 && told[2] == 1
            &&& told.len() >= 5 && told.skip(5) == add_input_data(tx.inputs[i], inputs[i])
            &&& 1 <= inputs[i].path.len() <= 10
            &&& review.apdu.subrange(0, 4) == seq![0xe0u8, 6u8, 3u8, 0u8] && !review.signs
            &&& review.timeout_secs == 180
            &&& sign.apdu.subrange(0, 5) == seq![0xe0u8, 6u8, 4u8, 0u8, 4u8] && sign.signs
            &&& be_value(sign.apdu.skip(5)) == i
        }),
{
    law_session_order(tx, inputs);
    let n = inputs.len();
    let outs = outputs_steps(tx.outputs, tx.outputs.len());
    let steps = plan(tx, inputs).steps;
    assert(steps.len() == 2 + 2 * n + outs.len());
    assert(steps[0] == begin_step(tx, inputs));
    assert(steps[1 + i] == input_step(tx.inputs[i], inputs[i]));
    assert(steps[steps.len() - n - 1] == review_step());
    assert(steps[steps.len() - n + i] == sign_steps(n)[i]);
    lemma_varint_len(n);
    lemma_varint_len(tx.outputs.len());
    lemma_le_len(tx.version, 4);
    lemma_le_len(tx.locktime, 4);
    law_command_layout(6, 0, 0, begin_data(tx.version, n, tx.outputs.len(), tx.locktime));
    lemma_path_fits(tx, inputs, n, i);
    lemma_path_bytes_len(inputs[i].path);
    lemma_le_len(tx.inputs[i].prev_index, 4);
    lemma_le_len(tx.inputs[i].sequence, 4);
    lemma_le_len(inputs[i].value as nat, 8);
    law_command_layout(6, 1, 0, add_input_data(tx.inputs[i], inputs[i]));
    law_command_layout(6, 3, 0, Seq::empty());
    assert(review_step().apdu.subrange(0, 4) =~= seq![0xe0u8, 6u8, 3u8, 0u8]);
    lemma_pow256_values();
    law_be_read_write(i as nat, 4);
    law_command_layout(6, 4, 0, be(i as nat, 4));
    let s = sign_steps(n)[i].apdu;
    assert(s.subrange(0, 5) =~= seq![0xe0u8, 6u8, 4u8, 0u8, 4u8]);
}

proof fn lemma_path_fits(tx: Tx, inputs: Seq<SignMeta>, n: nat, i: int)
    requires
        plan(tx, inputs).stop is None,
        0 <= i < n <= inputs.len(),
    ensures
        1 <= inputs[i].path.len() <= 10,
    decreases inputs.len() - n,
{
    if plan_outputs(tx, inputs, 0).stop is Some {
        lemma_plan_outputs_stop(tx, inputs, 0, tx.outputs.len());
    }
    if plan_inputs(tx, inputs, (i + 1) as nat).stop is Some {
        lemma_plan_inputs_stop(tx, inputs, (i + 1) as nat, inputs.len());
    }
}

/// The chunks of an output all but the last say that more follow, and each is
/// sent by instruction 6 with parameter 2.
pub proof fn law_output_commands(output: Seq<u8>, i: int)
    requires
        0 <= i < output_steps(output).len(),
    ensures
        ({
            let c = output_steps(output)[i].apdu;
            &&& c[0] == 0xe0 && c[1] == 6 && c[2] == 2
            &&& c[3] == (if i + 1 == output_steps(output).len() {
                0u8
            } else {
                0x80u8
            })
            &&& c.skip(5) == data_chunk(output, i)
        }),
{
    law_chunks_make_up_data(output);
    law_command_layout(6, 2, 0, data_chunk(output, i));
    law_command_layout(6, 2, 0x80, data_chunk(output, i));
}

/// A session is carried through exactly if every path has one to ten words and
/// no output is empty; else it ends before the user is asked anything.
pub proof fn law_when_sessions_stop(tx: Tx, inputs: Seq<SignMeta>)
    ensures
        plan(tx, inputs).stop is None <==> (forall|i: int|
            0 <= i < inputs.len() ==> 1 <= (#[trigger] inputs[i]).path.len() <= 10) && (forall|
            i: int,
        |
            0 <= i < tx.outputs.len() ==> (#[trigger] tx.outputs[i]).len() > 0),
{
    lemma_inputs_go_on(tx, inputs, inputs.len());
    lemma_outputs_go_on(tx, inputs, tx.outputs.len());
}

proof fn lemma_inputs_go_on(tx: Tx, inputs: Seq<SignMeta>, n: nat)
    requires
        n <= inputs.len(),
    ensures
        plan_inputs(tx, inputs, n).stop is None <==> forall|i: int|
            0 <= i < n ==> 1 <= (#[trigger] inputs[i]).path.len() <= 10,
    decreases n,
{
    if n > 0 {
        lemma_inputs_go_on(tx, inputs, (n - 1) as nat);
        assert(inputs[n - 1] == inputs[n - 1]);
    }
}

proof fn lemma_outputs_go_on(tx: Tx, inputs: Seq<SignMeta>, n: nat)
    requires
        n <= tx.outputs.len(),
    ensures
        plan_outputs(tx, inputs, n).stop is None <==> plan_inputs(
            tx,
            inputs,
            inputs.len(),
        ).stop is None && forall|i: int| 0 <= i < n ==> (#[trigger] tx.outputs[i]).len() > 0,
    decreases n,
{
    if n > 0 {
        lemma_outputs_go_on(tx, inputs, (n - 1) as nat);
        assert(tx.outputs[n - 1] == tx.outputs[n - 1]);
    }
}

/// The first failure among the replies is what a session fails with, and no
/// command is sent after it.
pub proof fn law_first_failure_ends(plan: PlanView, replies: Seq<Reply>, k: nat)
    requires
        carried_on(plan, replies),
        k < replies.len(),
        replies[k as int] is Err,
    ensures
        replies.len() == k + 1,
        conclusion(plan, replies) == Err::<Seq<Signed>, Seq<char>>(replies[k as int]->Err_0),
{
    assert(progress(plan.steps, replies, k) is Ok);
    assert(progress(plan.steps, replies, k + 1) == Err::<Seq<Signed>, Seq<char>>(
        replies[k as int]->Err_0,
    ));
    if k + 1 < replies.len() {
        assert(progress(plan.steps, replies, k + 1) is Ok);
    }
}

} // verus!
