//! Unsigned transactions, parsed as far as the device needs their fields.
//!
//! ```text
//! version(4 LE) || varint(n_in) || n_in × input || varint(n_out) ||
//!   n_out × output || locktime(4 LE)
//! input:  prev_hash(32) || prev_index(4 LE) || sequence(4 LE)
//! output: value(8) || addr_version(1) || addr_len(1) || addr_hash(·) ||
//!   covenant_kind(1) || varint(n_items) || n_items × (varint_len || bytes)
//! ```

use crate::ledger::reader::{
    agree, all_encoded, carries_over, law_varint_reads_back, lemma_many_carries_over,
    lemma_many_error, lemma_many_len, lemma_many_reads_back, lemma_need_carries_over,
    lemma_number_at, lemma_number_carries_over, lemma_varint_carries_over, many, need, number_at,
    varint, varint_at, Format, Read, Reader,
};
use crate::text::{decimal, number_after};
use crate::wire::{copy_range, le, le_value, lemma_le_len, lemma_pow256_values};
use vstd::prelude::*;

verus! {

/// What the device is told of one input of the transaction.
pub struct TxInputRef {
    pub prev_hash: [u8; 32],
    pub prev_index: u32,
    pub sequence: u32,
}

/// A parsed transaction. Each output is kept as the bytes that encode it.
pub struct ParsedTx {
    pub version: u32,
    pub locktime: u32,
    pub inputs: Vec<TxInputRef>,
    pub outputs: Vec<Vec<u8>>,
}

/// An input of a transaction.
pub struct TxInput {
    pub prev_hash: Seq<u8>,
    pub prev_index: nat,
    pub sequence: nat,
}

/// A transaction: its outputs are byte strings.
pub struct Tx {
    pub version: nat,
    pub locktime: nat,
    pub inputs: Seq<TxInput>,
    pub outputs: Seq<Seq<u8>>,
}

impl View for TxInputRef {
    type V = TxInput;

    open spec fn view(&self) -> TxInput {
        TxInput {
            prev_hash: self.prev_hash@,
            prev_index: self.prev_index as nat,
            sequence: self.sequence as nat,
        }
    }
}

pub open spec fn input_views(v: Seq<TxInputRef>) -> Seq<TxInput> {
    Seq::new(v.len(), |i: int| v[i]@)
}

pub open spec fn byte_views(v: Seq<Vec<u8>>) -> Seq<Seq<u8>> {
    Seq::new(v.len(), |i: int| v[i]@)
}

impl View for ParsedTx {
    type V = Tx;

    open spec fn view(&self) -> Tx {
        Tx {
            version: self.version as nat,
            locktime: self.locktime as nat,
            inputs: input_views(self.inputs@),
            outputs: byte_views(self.outputs@),
        }
    }
}

// ── What parsing gives ──

/// The input at `pos`.
pub open spec fn input_at(s: Seq<u8>, pos: nat) -> Read<TxInput> {
    match need(Format::Tx, s, pos, 32) {
        Err(e) => Err(e),
        Ok((prev_hash, p)) => match number_at(Format::Tx, s, p, 4) {
            Err(e) => Err(e),
            Ok((prev_index, q)) => match number_at(Format::Tx, s, q, 4) {
                Err(e) => Err(e),
                Ok((sequence, t)) => Ok((TxInput { prev_hash, prev_index, sequence }, t)),
            },
        },
    }
}

pub open spec fn input_step(s: Seq<u8>) -> spec_fn(nat) -> Read<TxInput> {
    |p: nat| input_at(s, p)
}

/// The covenant item at `pos`. Lengths are taken as machine words.
pub open spec fn item_at(s: Seq<u8>, pos: nat) -> Read<()> {
    match varint_at(Format::Tx, s, pos) {
        Err(e) => Err(e),
        Ok((n, p)) => match need(Format::Tx, s, p, ((n as u64) as usize) as nat) {
            Err(e) => Err(e),
            Ok((_, q)) => Ok(((), q)),
        },
    }
}

pub open spec fn item_step(s: Seq<u8>) -> spec_fn(nat) -> Read<()> {
    |p: nat| item_at(s, p)
}

/// What follows the address length of an output.
pub open spec fn output_tail_at(s: Seq<u8>, pos: nat, addr_len: nat) -> Read<()> {
    if addr_len != 20 && addr_len != 32 {
        Err("unknown addr_len "@ + decimal(addr_len))
    } else {
        match need(Format::Tx, s, pos, addr_len) {
            Err(e) => Err(e),
            Ok((_, p)) => match need(Format::Tx, s, p, 1) {
                Err(e) => Err(e),
                Ok((_, q)) => match varint_at(Format::Tx, s, q) {
                    Err(e) => Err(e),
                    Ok((n_items, t)) => match many(
                        item_step(s),
                        t,
                        ((n_items as u64) as usize) as nat,
                    ) {
                        Err(e) => Err(e),
                        Ok((_, u)) => Ok(((), u)),
                    },
                },
            },
        }
    }
}

/// The bytes of the output at `pos`.
pub open spec fn output_at(s: Seq<u8>, pos: nat) -> Read<Seq<u8>> {
    match need(Format::Tx, s, pos, 8) {
        Err(e) => Err(e),
        Ok((_, p)) => match number_at(Format::Tx, s, p, 1) {
            Err(e) => Err(e),
            Ok((_, q)) => match number_at(Format::Tx, s, q, 1) {
                Err(e) => Err(e),
                Ok((addr_len, t)) => match output_tail_at(s, t, addr_len) {
                    Err(e) => Err(e),
                    Ok((_, end)) => Ok((s.subrange(pos as int, end as int), end)),
                },
            },
        },
    }
}

pub open spec fn output_step(s: Seq<u8>) -> spec_fn(nat) -> Read<Seq<u8>> {
    |p: nat| output_at(s, p)
}

/// How many inputs are announced: between 1 and 256.
pub open spec fn input_count_at(s: Seq<u8>, pos: nat) -> Read<nat> {
    match varint_at(Format::Tx, s, pos) {
        Err(e) => Err(e),
        Ok((n, p)) => {
            let count = ((n as u64) as usize) as nat;
            if count == 0 || count > 256 {
                Err("unreasonable input count "@ + decimal(count))
            } else {
                Ok((count, p))
            }
        },
    }
}

/// How many outputs are announced: at most 256.
pub open spec fn output_count_at(s: Seq<u8>, pos: nat) -> Read<nat> {
    match varint_at(Format::Tx, s, pos) {
        Err(e) => Err(e),
        Ok((n, p)) => {
            let count = ((n as u64) as usize) as nat;
            if count > 256 {
                Err("unreasonable output count "@ + decimal(count))
            } else {
                Ok((count, p))
            }
        },
    }
}

/// The inputs, with their count in front.
pub open spec fn inputs_at(s: Seq<u8>, pos: nat) -> Read<Seq<TxInput>> {
    match input_count_at(s, pos) {
        Err(e) => Err(e),
        Ok((n, p)) => many(input_step(s), p, n),
    }
}

/// The outputs, with their count in front.
pub open spec fn outputs_at(s: Seq<u8>, pos: nat) -> Read<Seq<Seq<u8>>> {
    match output_count_at(s, pos) {
        Err(e) => Err(e),
        Ok((n, p)) => many(output_step(s), p, n),
    }
}

/// The transaction that `s` begins with.
pub open spec fn tx_in(s: Seq<u8>) -> Result<Tx, Seq<char>> {
    match tx_at(s) {
        Err(e) => Err(e),
        Ok((tx, _)) => Ok(tx),
    }
}

/// The same, and where it ends.
pub open spec fn tx_at(s: Seq<u8>) -> Read<Tx> {
    match number_at(Format::Tx, s, 0, 4) {
        Err(e) => Err(e),
        Ok((version, p)) => match inputs_at(s, p) {
            Err(e) => Err(e),
            Ok((inputs, q)) => match outputs_at(s, q) {
                Err(e) => Err(e),
                Ok((outputs, t)) => match number_at(Format::Tx, s, t, 4) {
                    Err(e) => Err(e),
                    Ok((locktime, u)) => Ok((Tx { version, locktime, inputs, outputs }, u)),
                },
            },
        },
    }
}

/// What follows a transaction does not matter, and a transaction that lacks
/// its end does not parse.
pub proof fn law_tx_needs_all_its_bytes(s: Seq<u8>, after: Seq<u8>, k: nat)
    requires
        tx_at(s) is Ok,
    ensures
        tx_at(s)->Ok_0.1 <= s.len(),
        tx_at(s.take(tx_at(s)->Ok_0.1 as int) + after) == tx_at(s),
        k < tx_at(s)->Ok_0.1 ==> tx_in(s.take(k as int)) is Err,
{
    let e = tx_at(s)->Ok_0.1;
    lemma_tx_carries_over(s, s, s.len());
    lemma_tx_carries_over(s, s.take(e as int) + after, e);
    if k < e {
        lemma_tx_carries_over(s, s.take(k as int), e);
    }
}

proof fn lemma_tx_carries_over(s: Seq<u8>, t: Seq<u8>, e: nat)
    requires
        agree(s, t, e),
    ensures
        carries_over(tx_at(s), tx_at(t), 0, e, t.len()),
        tx_at(s) matches Ok((_, p)) ==> p <= s.len(),
{
    lemma_number_carries_over(Format::Tx, s, t, e, 0, 4);
    if let Ok((_, p)) = number_at(Format::Tx, s, 0, 4) {
        lemma_inputs_carry_over(s, t, e, p);
        if let Ok((_, q)) = inputs_at(s, p) {
            lemma_outputs_carry_over(s, t, e, q);
            if let Ok((_, u)) = outputs_at(s, q) {
                lemma_number_carries_over(Format::Tx, s, t, e, u, 4);
            }
        }
    }
}

proof fn lemma_input_carries_over(s: Seq<u8>, t: Seq<u8>, e: nat, pos: nat)
    requires
        agree(s, t, e),
    ensures
        carries_over(input_at(s, pos), input_at(t, pos), pos, e, t.len()),
{
    lemma_need_carries_over(Format::Tx, s, t, e, pos, 32);
    lemma_number_carries_over(Format::Tx, s, t, e, pos + 32, 4);
    lemma_number_carries_over(Format::Tx, s, t, e, pos + 36, 4);
}

proof fn lemma_inputs_carry_over(s: Seq<u8>, t: Seq<u8>, e: nat, pos: nat)
    requires
        agree(s, t, e),
    ensures
        carries_over(inputs_at(s, pos), inputs_at(t, pos), pos, e, t.len()),
{
    lemma_varint_carries_over(Format::Tx, s, t, e, pos);
    assert forall|p: nat| carries_over(
        #[trigger] input_step(s)(p),
        input_step(t)(p),
        p,
        e,
        t.len(),
    ) by {
        lemma_input_carries_over(s, t, e, p);
    }
    if let Ok((n, p)) = input_count_at(s, pos) {
        lemma_many_carries_over(input_step(s), input_step(t), p, e, t.len(), n);
    }
}

proof fn lemma_item_carries_over(s: Seq<u8>, t: Seq<u8>, e: nat, pos: nat)
    requires
        agree(s, t, e),
    ensures
        carries_over(item_at(s, pos), item_at(t, pos), pos, e, t.len()),
{
    lemma_varint_carries_over(Format::Tx, s, t, e, pos);
    if let Ok((n, p)) = varint_at(Format::Tx, s, pos) {
        lemma_need_carries_over(Format::Tx, s, t, e, p, ((n as u64) as usize) as nat);
    }
}

proof fn lemma_tail_carries_over(s: Seq<u8>, t: Seq<u8>, e: nat, pos: nat, addr_len: nat)
    requires
        agree(s, t, e),
    ensures
        carries_over(
            output_tail_at(s, pos, addr_len),
            output_tail_at(t, pos, addr_len),
            pos,
            e,
            t.len(),
        ),
{
    lemma_need_carries_over(Format::Tx, s, t, e, pos, addr_len);
    if let Ok((_, p)) = need(Format::Tx, s, pos, addr_len) {
        lemma_need_carries_over(Format::Tx, s, t, e, p, 1);
        if let Ok((_, q)) = need(Format::Tx, s, p, 1) {
            lemma_varint_carries_over(Format::Tx, s, t, e, q);
            assert forall|i: nat| carries_over(
                #[trigger] item_step(s)(i),
                item_step(t)(i),
                i,
                e,
                t.len(),
            ) by {
                lemma_item_carries_over(s, t, e, i);
            }
            if let Ok((n, u)) = varint_at(Format::Tx, s, q) {
                lemma_many_carries_over(
                    item_step(s),
                    item_step(t),
                    u,
                    e,
                    t.len(),
                    ((n as u64) as usize) as nat,
                );
            }
        }
    }
}

proof fn lemma_output_carries_over(s: Seq<u8>, t: Seq<u8>, e: nat, pos: nat)
    requires
        agree(s, t, e),
    ensures
        carries_over(output_at(s, pos), output_at(t, pos), pos, e, t.len()),
{
    lemma_need_carries_over(Format::Tx, s, t, e, pos, 8);
    lemma_number_carries_over(Format::Tx, s, t, e, pos + 8, 1);
    lemma_number_carries_over(Format::Tx, s, t, e, pos + 9, 1);
    if let Ok((addr_len, p)) = number_at(Format::Tx, s, pos + 9, 1) {
        lemma_tail_carries_over(s, t, e, p, addr_len);
        if let Ok((_, end)) = output_tail_at(s, p, addr_len) {
            if end <= e && end <= t.len() {
                assert(s.subrange(pos as int, end as int) =~= t.subrange(pos as int, end as int));
            }
        }
    }
}

proof fn lemma_outputs_carry_over(s: Seq<u8>, t: Seq<u8>, e: nat, pos: nat)
    requires
        agree(s, t, e),
    ensures
        carries_over(outputs_at(s, pos), outputs_at(t, pos), pos, e, t.len()),
{
    lemma_varint_carries_over(Format::Tx, s, t, e, pos);
    assert forall|p: nat| carries_over(
        #[trigger] output_step(s)(p),
        output_step(t)(p),
        p,
        e,
        t.len(),
    ) by {
        lemma_output_carries_over(s, t, e, p);
    }
    if let Ok((n, p)) = output_count_at(s, pos) {
        lemma_many_carries_over(output_step(s), output_step(t), p, e, t.len(), n);
    }
}

/// A transaction that parses has between 1 and 256 inputs and at most 256
/// outputs.
pub proof fn law_tx_counts(s: Seq<u8>)
    ensures
        tx_in(s) matches Ok(tx) ==> 1 <= tx.inputs.len() <= 256 && tx.outputs.len() <= 256,
{
    if tx_in(s) is Ok {
        let p = number_at(Format::Tx, s, 0, 4)->Ok_0.1;
        let (n, q) = input_count_at(s, p)->Ok_0;
        lemma_many_len(input_step(s), q, n);
        let t = inputs_at(s, p)->Ok_0.1;
        let (m, u) = output_count_at(s, t)->Ok_0;
        lemma_many_len(output_step(s), u, m);
    }
}

// ── How a transaction is written ──

/// An output of a transaction.
pub struct TxOutput {
    pub value: nat,
    pub addr_version: u8,
    pub addr_hash: Seq<u8>,
    pub covenant_kind: u8,
    pub items: Seq<Seq<u8>>,
}

impl TxOutput {
    pub open spec fn wf(self) -> bool {
        self.value <= u64::MAX && (self.addr_hash.len() == 20 || self.addr_hash.len() == 32)
    }
}

impl TxInput {
    pub open spec fn wf(self) -> bool {
        self.prev_hash.len() == 32 && self.prev_index <= u32::MAX && self.sequence <= u32::MAX
    }
}

pub open spec fn encode_item(item: Seq<u8>) -> Seq<u8> {
    varint(item.len()) + item
}

/// The covenant items, with their count in front.
pub open spec fn encode_items(items: Seq<Seq<u8>>) -> Seq<u8> {
    varint(items.len()) + all_encoded(|item: Seq<u8>| encode_item(item), items)
}

pub open spec fn encode_output(o: TxOutput) -> Seq<u8> {
    le(o.value, 8) + seq![o.addr_version, o.addr_hash.len() as u8] + o.addr_hash + seq![
        o.covenant_kind,
    ] + encode_items(o.items)
}

pub open spec fn encode_input(i: TxInput) -> Seq<u8> {
    i.prev_hash + le(i.prev_index, 4) + le(i.sequence, 4)
}

/// The inputs, with their count in front.
pub open spec fn encode_inputs(inputs: Seq<TxInput>) -> Seq<u8> {
    varint(inputs.len()) + all_encoded(|i: TxInput| encode_input(i), inputs)
}

/// The outputs, with their count in front.
pub open spec fn encode_outputs(outputs: Seq<TxOutput>) -> Seq<u8> {
    varint(outputs.len()) + all_encoded(|o: TxOutput| encode_output(o), outputs)
}

/// An unsigned transaction as it is sent.
pub open spec fn encode_tx(
    version: nat,
    inputs: Seq<TxInput>,
    outputs: Seq<TxOutput>,
    locktime: nat,
) -> Seq<u8> {
    le(version, 4) + encode_inputs(inputs) + encode_outputs(outputs) + le(locktime, 4)
}

proof fn lemma_item_reads_back(before: Seq<u8>, item: Seq<u8>, after: Seq<u8>)
    requires
        (before + encode_item(item) + after).len() <= usize::MAX,
    ensures
        item_at(before + encode_item(item) + after, before.len()) == Ok::<((), nat), Seq<char>>(
            ((), before.len() + encode_item(item).len()),
        ),
{
    let s = before + encode_item(item) + after;
    assert(s =~= before + varint(item.len()) + (item + after));
    law_varint_reads_back(Format::Tx, before, item.len() as u64, item + after);
}

proof fn lemma_input_reads_back(before: Seq<u8>, i: TxInput, after: Seq<u8>)
    requires
        i.wf(),
        (before + encode_input(i) + after).len() <= usize::MAX,
    ensures
        input_at(before + encode_input(i) + after, before.len()) == Ok::<(TxInput, nat), Seq<char>>(
            (i, before.len() + encode_input(i).len()),
        ),
{
    let s = before + encode_input(i) + after;
    let p = before.len();
    lemma_pow256_values();
    lemma_le_len(i.prev_index, 4);
    lemma_le_len(i.sequence, 4);
    assert(s.subrange(p as int, (p + 32) as int) =~= i.prev_hash);
    assert(s.subrange((p + 32) as int, (p + 36) as int) =~= le(i.prev_index, 4));
    assert(s.subrange((p + 36) as int, (p + 40) as int) =~= le(i.sequence, 4));
    lemma_number_at(Format::Tx, s, p + 32, i.prev_index, 4);
    lemma_number_at(Format::Tx, s, p + 36, i.sequence, 4);
}

/// One byte, read as a number.
proof fn lemma_byte_at(s: Seq<u8>, pos: nat)
    requires
        pos < s.len() <= usize::MAX,
    ensures
        number_at(Format::Tx, s, pos, 1) == Ok::<(nat, nat), Seq<char>>(
            (s[pos as int] as nat, pos + 1),
        ),
{
    reveal_with_fuel(crate::wire::le_value, 2);
    assert(s.subrange(pos as int, (pos + 1) as int) =~= seq![s[pos as int]]);
    assert(seq![s[pos as int]].drop_first() =~= Seq::empty());
}

/// Items that were written with their count are read back.
proof fn lemma_items_read_back(before: Seq<u8>, items: Seq<Seq<u8>>, after: Seq<u8>)
    requires
        (before + encode_items(items) + after).len() <= usize::MAX,
    ensures
        ({
            let s = before + encode_items(items) + after;
            let p = before.len() + varint(items.len()).len();
            &&& varint_at(Format::Tx, s, before.len()) == Ok::<(nat, nat), Seq<char>>(
                (items.len(), p),
            )
            &&& items.len() <= usize::MAX
            &&& many(item_step(s), p, items.len()) matches Ok((_, q)) && q == before.len()
                + encode_items(items).len()
        }),
{
    let write = |item: Seq<u8>| encode_item(item);
    let step = |t: Seq<u8>| item_step(t);
    let n = varint(items.len());
    let body = all_encoded(write, items);
    let s = before + encode_items(items) + after;
    lemma_items_len(items);
    assert(s =~= before + n + (body + after));
    law_varint_reads_back(Format::Tx, before, items.len() as u64, body + after);
    assert(s =~= (before + n) + body + after);
    assert forall|b: Seq<u8>, i: int, a: Seq<u8>|
        #![trigger step(b + write(items[i]) + a)]
        0 <= i < items.len() && (b + write(items[i]) + a).len() <= usize::MAX implies step(
        b + write(items[i]) + a,
    )(b.len()) == Ok::<((), nat), Seq<char>>(((), b.len() + write(items[i]).len())) by {
        lemma_item_reads_back(b, items[i], a);
    }
    lemma_many_reads_back(step, write, |item: Seq<u8>| (), before + n, items, after);
}

#[verifier::spinoff_prover]
#[verifier::rlimit(40)]
proof fn lemma_output_reads_back(before: Seq<u8>, o: TxOutput, after: Seq<u8>)
    requires
        o.wf(),
        (before + encode_output(o) + after).len() <= usize::MAX,
    ensures
        output_at(before + encode_output(o) + after, before.len()) == Ok::<
            (Seq<u8>, nat),
            Seq<char>,
        >((encode_output(o), before.len() + encode_output(o).len())),
{
    let s = before + encode_output(o) + after;
    let p = before.len();
    let n = o.addr_hash.len();
    let items = encode_items(o.items);
    lemma_le_len(o.value, 8);
    let fixed = le(o.value, 8) + seq![o.addr_version, n as u8] + o.addr_hash + seq![o.covenant_kind];
    assert(fixed.len() == 11 + n);
    assert(fixed[9] == n as u8);
    assert(encode_output(o) == fixed + items);
    let head = before + fixed;
    assert(s =~= head + items + after);
    assert(s[p as int + 9] == head[p as int + 9] == fixed[9]);
    lemma_byte_at(s, p + 8);
    lemma_byte_at(s, p + 9);
    lemma_items_read_back(head, o.items, after);
    assert(s.subrange(p as int, (p + encode_output(o).len()) as int) =~= encode_output(o));
}

/// A list of items is no longer than what encodes it.
proof fn lemma_items_len(items: Seq<Seq<u8>>)
    ensures
        items.len() <= all_encoded(|item: Seq<u8>| encode_item(item), items).len(),
    decreases items.len(),
{
    if items.len() > 0 {
        lemma_items_len(items.drop_last());
        let n = items.last().len();
        lemma_le_len(n, 1);
        lemma_le_len(n, 2);
        lemma_le_len(n, 4);
        lemma_le_len(n, 8);
    }
}

proof fn lemma_inputs_read_back(before: Seq<u8>, inputs: Seq<TxInput>, after: Seq<u8>)
    requires
        1 <= inputs.len() <= 256,
        forall|i: int| 0 <= i < inputs.len() ==> (#[trigger] inputs[i]).wf(),
        (before + encode_inputs(inputs) + after).len() <= usize::MAX,
    ensures
        inputs_at(before + encode_inputs(inputs) + after, before.len()) == Ok::<
            (Seq<TxInput>, nat),
            Seq<char>,
        >((inputs, before.len() + encode_inputs(inputs).len())),
{
    let write = |i: TxInput| encode_input(i);
    let step = |t: Seq<u8>| input_step(t);
    let same = |i: TxInput| i;
    let n = varint(inputs.len());
    let body = all_encoded(write, inputs);
    let s = before + encode_inputs(inputs) + after;
    assert(s =~= before + n + (body + after));
    law_varint_reads_back(Format::Tx, before, inputs.len() as u64, body + after);
    assert(s =~= (before + n) + body + after);
    assert forall|b: Seq<u8>, i: int, a: Seq<u8>|
        #![trigger step(b + write(inputs[i]) + a)]
        0 <= i < inputs.len() && (b + write(inputs[i]) + a).len() <= usize::MAX implies step(
        b + write(inputs[i]) + a,
    )(b.len()) == Ok::<(TxInput, nat), Seq<char>>(
        (same(inputs[i]), b.len() + write(inputs[i]).len()),
    ) by {
        lemma_input_reads_back(b, inputs[i], a);
    }
    lemma_many_reads_back(step, write, same, before + n, inputs, after);
    assert(inputs.map_values(same) =~= inputs);
}

proof fn lemma_outputs_read_back(before: Seq<u8>, outputs: Seq<TxOutput>, after: Seq<u8>)
    requires
        outputs.len() <= 256,
        forall|i: int| 0 <= i < outputs.len() ==> (#[trigger] outputs[i]).wf(),
        (before + encode_outputs(outputs) + after).len() <= usize::MAX,
    ensures
        outputs_at(before + encode_outputs(outputs) + after, before.len()) == Ok::<
            (Seq<Seq<u8>>, nat),
            Seq<char>,
        >(
            (
                outputs.map_values(|o: TxOutput| encode_output(o)),
                before.len() + encode_outputs(outputs).len(),
            ),
        ),
{
    let write = |o: TxOutput| encode_output(o);
    let step = |t: Seq<u8>| output_step(t);
    let n = varint(outputs.len());
    let body = all_encoded(write, outputs);
    let s = before + encode_outputs(outputs) + after;
    assert(s =~= before + n + (body + after));
    law_varint_reads_back(Format::Tx, before, outputs.len() as u64, body + after);
    assert(s =~= (before + n) + body + after);
    assert forall|b: Seq<u8>, i: int, a: Seq<u8>|
        #![trigger step(b + write(outputs[i]) + a)]
        0 <= i < outputs.len() && (b + write(outputs[i]) + a).len() <= usize::MAX implies step(
        b + write(outputs[i]) + a,
    )(b.len()) == Ok::<(Seq<u8>, nat), Seq<char>>(
        (write(outputs[i]), b.len() + write(outputs[i]).len()),
    ) by {
        lemma_output_reads_back(b, outputs[i], a);
    }
    lemma_many_reads_back(step, write, write, before + n, outputs, after);
}

proof fn lemma_cuts(a: Seq<u8>, b: Seq<u8>, c: Seq<u8>, d: Seq<u8>, e: Seq<u8>)
    ensures
        ({
            let s = a + b + c + d + e;
            let p = (a + b + c).len();
            &&& s == a + b + (c + d + e)
            &&& s == (a + b) + c + (d + e)
            &&& s.subrange(0, a.len() as int) == a
            &&& s.subrange(p as int, (p + d.len()) as int) == d
        }),
{
    let s = a + b + c + d + e;
    let p = (a + b + c).len();
    assert(s =~= a + b + (c + d + e));
    assert(s =~= (a + b) + c + (d + e));
    assert(s.subrange(0, a.len() as int) =~= a);
    assert(s.subrange(p as int, (p + d.len()) as int) =~= d);
}

/// A transaction that was written, whatever follows it, is read back: its
/// version, its inputs, the bytes of each of its outputs and its lock time.
pub proof fn law_tx_reads_back(
    version: u32,
    inputs: Seq<TxInput>,
    outputs: Seq<TxOutput>,
    locktime: u32,
    after: Seq<u8>,
)
    requires
        1 <= inputs.len() <= 256,
        outputs.len() <= 256,
        forall|i: int| 0 <= i < inputs.len() ==> (#[trigger] inputs[i]).wf(),
        forall|i: int| 0 <= i < outputs.len() ==> (#[trigger] outputs[i]).wf(),
        (encode_tx(version as nat, inputs, outputs, locktime as nat) + after).len() <= usize::MAX,
    ensures
        tx_in(encode_tx(version as nat, inputs, outputs, locktime as nat) + after) == Ok::<
            Tx,
            Seq<char>,
        >(
            (Tx {
                version: version as nat,
                locktime: locktime as nat,
                inputs,
                outputs: outputs.map_values(|o: TxOutput| encode_output(o)),
            }),
        ),
{
    let s = encode_tx(version as nat, inputs, outputs, locktime as nat) + after;
    let v = le(version as nat, 4);
    let ins = encode_inputs(inputs);
    let outs = encode_outputs(outputs);
    let end = le(locktime as nat, 4);
    lemma_pow256_values();
    lemma_le_len(version as nat, 4);
    lemma_le_len(locktime as nat, 4);
    lemma_cuts(v, ins, outs, end, after);
    lemma_number_at(Format::Tx, s, 0, version as nat, 4);
    lemma_inputs_read_back(v, inputs, outs + end + after);
    lemma_outputs_read_back(v + ins, outputs, end + after);
    lemma_number_at(Format::Tx, s, (v + ins + outs).len(), locktime as nat, 4);
}

// ── Parsing ──

fn read_input(r: &mut Reader) -> (res: Result<TxInputRef, String>)
    requires
        old(r).wf(),
        old(r).format == Format::Tx,
    ensures
        final(r).moved(*old(r), input_at(old(r).data@, old(r).pos as nat)),
        match input_at(old(r).data@, old(r).pos as nat) {
            Ok((x, _)) => res matches Ok(v) && v@ == x,
            Err(e) => res matches Err(t) && t@ == e,
        },
{
    let prev_hash = match r.read_hash() {
        Ok(v) => v,
        Err(e) => return Err(e),
    };
    let prev_index = match r.read_u32_le() {
        Ok(v) => v,
        Err(e) => return Err(e),
    };
    let sequence = match r.read_u32_le() {
        Ok(v) => v,
        Err(e) => return Err(e),
    };
    Ok(TxInputRef { prev_hash, prev_index, sequence })
}

#[verifier::loop_isolation(false)]
fn skip_items(r: &mut Reader, n: usize) -> (res: Result<(), String>)
    requires
        old(r).wf(),
        old(r).format == Format::Tx,
    ensures
        final(r).moved(*old(r), many(item_step(old(r).data@), old(r).pos as nat, n as nat)),
        match many(item_step(old(r).data@), old(r).pos as nat, n as nat) {
            Ok(_) => res is Ok,
            Err(e) => res matches Err(t) && t@ == e,
        },
{
    let ghost start = *r;
    let ghost step = item_step(start.data@);
    let mut i: usize = 0;
    while i < n
        invariant
            i <= n,
            r.wf(),
            r.format == Format::Tx,
            r.data == start.data,
            step == item_step(start.data@),
            many(step, start.pos as nat, i as nat) matches Ok((_, p)) && p == r.pos,
        decreases n - i,
    {
        proof {
            let before = many(step, start.pos as nat, i as nat);
            assert(many(step, start.pos as nat, (i + 1) as nat) == match item_at(
                start.data@,
                r.pos as nat,
            ) {
                Err(e) => Err(e),
                Ok((x, q)) => Ok((before->Ok_0.0.push(x), q)),
            });
            if item_at(start.data@, r.pos as nat) is Err {
                lemma_many_error(step, start.pos as nat, (i + 1) as nat, n as nat);
            }
        }
        let len: usize = match r.read_varint() {
            Ok(v) => v as usize,
            Err(e) => return Err(e),
        };
        match r.need(len) {
            Ok(_) => {},
            Err(e) => return Err(e),
        }
        i = i + 1;
    }
    Ok(())
}

fn read_output(r: &mut Reader) -> (res: Result<Vec<u8>, String>)
    requires
        old(r).wf(),
        old(r).format == Format::Tx,
    ensures
        final(r).moved(*old(r), output_at(old(r).data@, old(r).pos as nat)),
        match output_at(old(r).data@, old(r).pos as nat) {
            Ok((x, _)) => res matches Ok(v) && v@ == x,
            Err(e) => res matches Err(t) && t@ == e,
        },
{
    let start = r.pos;
    match r.need(8) {
        Ok(_) => {},
        Err(e) => return Err(e),
    }
    match r.read_u8() {
        Ok(_) => {},
        Err(e) => return Err(e),
    }
    let addr_len: usize = match r.read_u8() {
        Ok(v) => v as usize,
        Err(e) => return Err(e),
    };
    if addr_len != 20 && addr_len != 32 {
        return Err(number_after("unknown addr_len ", addr_len as u64));
    }
    match r.need(addr_len) {
        Ok(_) => {},
        Err(e) => return Err(e),
    }
    match r.need(1) {
        Ok(_) => {},
        Err(e) => return Err(e),
    }
    let n_items: usize = match r.read_varint() {
        Ok(v) => v as usize,
        Err(e) => return Err(e),
    };
    let ghost mid = r.pos;
    proof {
        lemma_items_forward(r.data@, r.pos as nat, n_items as nat);
    }
    match skip_items(r, n_items) {
        Ok(_) => {},
        Err(e) => return Err(e),
    }
    Ok(copy_range(r.data, start, r.pos))
}

/// Skipping items never goes back.
proof fn lemma_items_forward(s: Seq<u8>, pos: nat, n: nat)
    ensures
        many(item_step(s), pos, n) matches Ok((_, p)) ==> pos <= p,
    decreases n,
{
    if n > 0 {
        lemma_items_forward(s, pos, (n - 1) as nat);
    }
}

#[verifier::loop_isolation(false)]
fn read_inputs(r: &mut Reader) -> (res: Result<Vec<TxInputRef>, String>)
    requires
        old(r).wf(),
        old(r).format == Format::Tx,
    ensures
        final(r).moved(*old(r), inputs_at(old(r).data@, old(r).pos as nat)),
        match inputs_at(old(r).data@, old(r).pos as nat) {
            Ok((x, _)) => res matches Ok(v) && input_views(v@) == x,
            Err(e) => res matches Err(t) && t@ == e,
        },
{
    let n: usize = match r.read_varint() {
        Ok(v) => v as usize,
        Err(e) => return Err(e),
    };
    if n == 0 || n > 256 {
        return Err(number_after("unreasonable input count ", n as u64));
    }
    let mut inputs: Vec<TxInputRef> = Vec::new();
    let ghost start = *r;
    let ghost step = input_step(start.data@);
    let mut i: usize = 0;
    assert(input_views(inputs@) =~= Seq::empty());
    while i < n
        invariant
            i <= n,
            r.wf(),
            r.format == Format::Tx,
            r.data == start.data,
            step == input_step(start.data@),
            many(step, start.pos as nat, i as nat) == Ok::<(Seq<TxInput>, nat), Seq<char>>(
                (input_views(inputs@), r.pos as nat),
            ),
        decreases n - i,
    {
        proof {
            assert(many(step, start.pos as nat, (i + 1) as nat) == match input_at(
                start.data@,
                r.pos as nat,
            ) {
                Err(e) => Err(e),
                Ok((x, q)) => Ok((input_views(inputs@).push(x), q)),
            });
            if input_at(start.data@, r.pos as nat) is Err {
                lemma_many_error(step, start.pos as nat, (i + 1) as nat, n as nat);
            }
        }
        match read_input(r) {
            Ok(v) => {
                let ghost before = inputs@;
                inputs.push(v);
                assert(input_views(inputs@) =~= input_views(before).push(v@));
            },
            Err(e) => return Err(e),
        }
        i = i + 1;
    }
    Ok(inputs)
}

#[verifier::loop_isolation(false)]
fn read_outputs(r: &mut Reader) -> (res: Result<Vec<Vec<u8>>, String>)
    requires
        old(r).wf(),
        old(r).format == Format::Tx,
    ensures
        final(r).moved(*old(r), outputs_at(old(r).data@, old(r).pos as nat)),
        match outputs_at(old(r).data@, old(r).pos as nat) {
            Ok((x, _)) => res matches Ok(v) && byte_views(v@) == x,
            Err(e) => res matches Err(t) && t@ == e,
        },
{
    let n: usize = match r.read_varint() {
        Ok(v) => v as usize,
        Err(e) => return Err(e),
    };
    if n > 256 {
        return Err(number_after("unreasonable output count ", n as u64));
    }
    let mut outputs: Vec<Vec<u8>> = Vec::new();
    let ghost start = *r;
    let ghost step = output_step(start.data@);
    let mut i: usize = 0;
    assert(byte_views(outputs@) =~= Seq::empty());
    while i < n
        invariant
            i <= n,
            r.wf(),
            r.format == Format::Tx,
            r.data == start.data,
            step == output_step(start.data@),
            many(step, start.pos as nat, i as nat) == Ok::<(Seq<Seq<u8>>, nat), Seq<char>>(
                (byte_views(outputs@), r.pos as nat),
            ),
        decreases n - i,
    {
        proof {
            assert(many(step, start.pos as nat, (i + 1) as nat) == match output_at(
                start.data@,
                r.pos as nat,
            ) {
                Err(e) => Err(e),
                Ok((x, q)) => Ok((byte_views(outputs@).push(x), q)),
            });
            if output_at(start.data@, r.pos as nat) is Err {
                lemma_many_error(step, start.pos as nat, (i + 1) as nat, n as nat);
            }
        }
        match read_output(r) {
            Ok(v) => {
                let ghost before = outputs@;
                outputs.push(v);
                assert(byte_views(outputs@) =~= byte_views(before).push(v@));
            },
            Err(e) => return Err(e),
        }
        i = i + 1;
    }
    Ok(outputs)
}

/// Parses an unsigned transaction just far enough to extract the fields that
/// the device needs.
pub fn parse_unsigned_tx(buf: &[u8]) -> (res: Result<ParsedTx, String>)
    ensures
        match tx_in(buf@) {
            Ok(tx) => res matches Ok(v) && v@ == tx,
            Err(e) => res matches Err(t) && t@ == e,
        },
{
    let mut r = Reader::new(Format::Tx, buf, 0);
    let version = match r.read_u32_le() {
        Ok(v) => v,
        Err(e) => return Err(e),
    };
    let inputs = match read_inputs(&mut r) {
        Ok(v) => v,
        Err(e) => return Err(e),
    };
    let outputs = match read_outputs(&mut r) {
        Ok(v) => v,
        Err(e) => return Err(e),
    };
    let locktime = match r.read_u32_le() {
        Ok(v) => v,
        Err(e) => return Err(e),
    };
    Ok(ParsedTx { version, locktime, inputs, outputs })
}

// ── Where everything stands ──

/// The fields of an input stand one behind the other: the transaction that it
/// spends from, which of its outputs, and the sequence.
pub proof fn law_input_fields(s: Seq<u8>, pos: nat)
    ensures
        input_at(s, pos) matches Ok((x, end)) ==> {
            let p = pos as int;
            &&& end == p + 40
            &&& end <= s.len()
            &&& x.prev_hash == s.subrange(p, p + 32)
            &&& x.prev_index == le_value(s.subrange(p + 32, p + 36))
            &&& x.sequence == le_value(s.subrange(p + 36, p + 40))
        },
{
}

/// A transaction begins with its version and ends with its lock time, four bytes
/// each; where it has fewer than 253 inputs, their number stands in the fifth
/// byte, and they follow, 40 bytes each, in order.
pub proof fn law_tx_fields(s: Seq<u8>, i: int)
    ensures
        tx_at(s) matches Ok((tx, end)) ==> {
            &&& 4 <= end
            &&& tx.version == le_value(s.subrange(0, 4))
            &&& tx.locktime == le_value(s.subrange(end - 4, end as int))
            &&& s[4] < 0xfd ==> tx.inputs.len() == s[4]
            &&& s[4] < 0xfd && 0 <= i < tx.inputs.len() ==> {
                &&& tx.inputs[i].prev_hash == s.subrange(5 + 40 * i, 37 + 40 * i)
                &&& tx.inputs[i].prev_index == le_value(s.subrange(37 + 40 * i, 41 + 40 * i))
                &&& tx.inputs[i].sequence == le_value(s.subrange(41 + 40 * i, 45 + 40 * i))
            }
        },
{
    reveal_with_fuel(le_value, 2);
    if let Ok((tx, end)) = tx_at(s) {
        let one = s.subrange(4, 5);
        assert(one.drop_first() =~= Seq::empty());
        assert(one[0] == s[4]);
        assert(le_value(one) == s[4]);
        lemma_many_len(input_step(s), 5, s[4] as nat);
        if s[4] < 0xfd {
            lemma_inputs_in_rows(s, 5, s[4] as nat);
        }
    }
}

proof fn lemma_inputs_in_rows(s: Seq<u8>, pos: nat, n: nat)
    ensures
        many(input_step(s), pos, n) matches Ok((v, end)) ==> {
            &&& end == pos + 40 * n
            &&& v.len() == n
            &&& forall|i: int|
                0 <= i < n ==> {
                    let p = pos + 40 * i;
                    &&& (#[trigger] v[i]).prev_hash == s.subrange(p, p + 32)
                    &&& v[i].prev_index == le_value(s.subrange(p + 32, p + 36))
                    &&& v[i].sequence == le_value(s.subrange(p + 36, p + 40))
                }
        },
    decreases n,
{
    if n > 0 {
        lemma_inputs_in_rows(s, pos, (n - 1) as nat);
        if let Ok((v, end)) = many(input_step(s), pos, n) {
            law_input_fields(s, (pos + 40 * (n - 1)) as nat);
            let less = many(input_step(s), pos, (n - 1) as nat)->Ok_0.0;
            assert forall|i: int| 0 <= i < n implies {
                let p = pos + 40 * i;
                &&& (#[trigger] v[i]).prev_hash == s.subrange(p, p + 32)
                &&& v[i].prev_index == le_value(s.subrange(p + 32, p + 36))
                &&& v[i].sequence == le_value(s.subrange(p + 36, p + 40))
            } by {
                if i < n - 1 {
                    assert(v[i] == less[i]);
                }
            }
        }
    }
}

/// The hash in each input of a transaction has 32 bytes, and its numbers fit in
/// four.
pub proof fn law_input_sizes(s: Seq<u8>)
    ensures
        tx_in(s) matches Ok(tx) ==> forall|i: int|
            0 <= i < tx.inputs.len() ==> {
                &&& (#[trigger] tx.inputs[i]).prev_hash.len() == 32
                &&& tx.inputs[i].prev_index <= 0xffff_ffff
                &&& tx.inputs[i].sequence <= 0xffff_ffff
            },
{
    if let Ok(tx) = tx_in(s) {
        let p = number_at(Format::Tx, s, 0, 4)->Ok_0.1;
        let (n, q) = input_count_at(s, p)->Ok_0;
        lemma_input_sizes(s, q, n);
    }
}

proof fn lemma_input_sizes(s: Seq<u8>, pos: nat, n: nat)
    ensures
        many(input_step(s), pos, n) matches Ok((v, _)) ==> forall|i: int|
            0 <= i < v.len() ==> {
                &&& (#[trigger] v[i]).prev_hash.len() == 32
                &&& v[i].prev_index <= 0xffff_ffff
                &&& v[i].sequence <= 0xffff_ffff
            },
    decreases n,
{
    if n > 0 {
        lemma_input_sizes(s, pos, (n - 1) as nat);
        if let Ok((v, end)) = many(input_step(s), pos, n) {
            let (less, p) = many(input_step(s), pos, (n - 1) as nat)->Ok_0;
            law_input_fields(s, p);
            let q = p as int;
            crate::wire::lemma_le_value_bound(s.subrange(q + 32, q + 36));
            crate::wire::lemma_le_value_bound(s.subrange(q + 36, q + 40));
            lemma_pow256_values();
            assert forall|i: int| 0 <= i < v.len() implies {
                &&& (#[trigger] v[i]).prev_hash.len() == 32
                &&& v[i].prev_index <= 0xffff_ffff
                &&& v[i].sequence <= 0xffff_ffff
            } by {
                if i < less.len() {
                    assert(v[i] == less[i]);
                }
            }
        }
    }
}

} // verus!
