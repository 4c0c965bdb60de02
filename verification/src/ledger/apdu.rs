//! The commands that the wallet sends to the device.

use crate::ledger::reader::{
    all_encoded, law_varint_reads_back, lemma_varint_len, varint, varint_at, write_varint, Format,
};
use crate::ledger::tx::{TxInput, TxInputRef};
use crate::wire::{
    be, be_value, law_be_read_write, law_le_read_write, le, le_value, lemma_be_len, lemma_le_len,
    lemma_pow256_values, push_all, push_be, push_le,
};
use vstd::prelude::*;

verus! {

pub const APDU_CLA: u8 = 0xe0;

pub const INS_GET_PUBKEY: u8 = 0x05;

pub const INS_SIGN_TX: u8 = 0x06;

pub const INS_SIGN_MESSAGE: u8 = 0x07;

pub const P1_SIGN_BEGIN: u8 = 0x00;

pub const P1_SIGN_ADD_INPUT: u8 = 0x01;

pub const P1_SIGN_ADD_OUTPUT: u8 = 0x02;

pub const P1_SIGN_REVIEW: u8 = 0x03;

pub const P1_SIGN_INPUT: u8 = 0x04;

/// More chunks follow.
pub const P2_MORE: u8 = 0x80;

/// The last chunk, or the only one.
pub const P2_LAST: u8 = 0x00;

pub const SCRIPT_KIND_P2WPKH: u8 = 0x00;

/// How much data one command carries at most, well under what both transports
/// can frame; whatever is longer is sent in chunks.
pub const MAX_APDU_DATA: usize = 240;

/// Per-input signing metadata.
pub struct SignInput {
    pub path: Vec<u32>,
    pub value: u64,
    pub sighash_type: u8,
}

/// What is known of an input to be signed.
pub struct SignMeta {
    pub path: Seq<u32>,
    pub value: u64,
    pub sighash_type: u8,
}

impl View for SignInput {
    type V = SignMeta;

    open spec fn view(&self) -> SignMeta {
        SignMeta { path: self.path@, value: self.value, sighash_type: self.sighash_type }
    }
}

pub open spec fn meta_views(v: Seq<SignInput>) -> Seq<SignMeta> {
    Seq::new(v.len(), |i: int| v[i]@)
}

/// A command: class, instruction, two parameters, the length of the data in
/// one byte, and the data.
pub open spec fn apdu(ins: u8, p1: u8, p2: u8, data: Seq<u8>) -> Seq<u8> {
    seq![APDU_CLA, ins, p1, p2] + le(data.len(), 1) + data
}

/// The words of a derivation path, most significant byte first.
pub open spec fn path_words(path: Seq<u32>) -> Seq<u8> {
    all_encoded(|w: u32| be(w as nat, 4), path)
}

/// A derivation path with its length in front.
pub open spec fn path_bytes(path: Seq<u32>) -> Seq<u8> {
    le(path.len(), 1) + path_words(path)
}

pub open spec fn begin_data(version: nat, n_in: nat, n_out: nat, locktime: nat) -> Seq<u8> {
    le(version, 4) + varint(n_in) + varint(n_out) + le(locktime, 4)
}

pub open spec fn add_input_data(input: TxInput, meta: SignMeta) -> Seq<u8> {
    input.prev_hash + le(input.prev_index, 4) + le(input.sequence, 4) + le(meta.value as nat, 8)
        + seq![meta.sighash_type] + path_bytes(meta.path) + seq![SCRIPT_KIND_P2WPKH]
}

pub open spec fn message_data(path: Seq<u32>, message: Seq<u8>) -> Seq<u8> {
    path_bytes(path) + le(message.len(), 2) + message
}

/// The length byte of a command with no more data than one may carry is the
/// length of its data.
pub proof fn lemma_apdu_len(ins: u8, p1: u8, p2: u8, data: Seq<u8>)
    requires
        data.len() <= MAX_APDU_DATA,
    ensures
        apdu(ins, p1, p2, data).len() == 5 + data.len(),
        apdu(ins, p1, p2, data)[4] == data.len(),
        apdu(ins, p1, p2, data)[2] == p1,
        apdu(ins, p1, p2, data).skip(5) == data,
{
    lemma_le_len(data.len(), 1);
    assert(apdu(ins, p1, p2, data).skip(5) =~= data);
}

pub proof fn lemma_path_bytes_len(path: Seq<u32>)
    ensures
        path_bytes(path).len() == 1 + 4 * path.len(),
{
    lemma_le_len(path.len(), 1);
    lemma_path_words_len(path);
}

proof fn lemma_path_words_len(path: Seq<u32>)
    ensures
        path_words(path).len() == 4 * path.len(),
    decreases path.len(),
{
    if path.len() > 0 {
        lemma_path_words_len(path.drop_last());
        lemma_be_len(path.last() as nat, 4);
    }
}

/// Which path lengths the device takes.
pub open spec fn path_len_ok(path: Seq<u32>) -> bool {
    1 <= path.len() <= 10
}

fn push_words(out: &mut Vec<u8>, path: &[u32])
    ensures
        final(out)@ == old(out)@ + path_words(path@),
{
    let ghost start = out@;
    let ghost word = |w: u32| be(w as nat, 4);
    let mut i: usize = 0;
    assert(out@ =~= start + all_encoded(word, path@.take(0)));
    while i < path.len()
        invariant
            i <= path@.len(),
            word == |w: u32| be(w as nat, 4),
            out@ == start + all_encoded(word, path@.take(i as int)),
        decreases path@.len() - i,
    {
        push_be(out, path[i] as u64, 4);
        proof {
            let t = path@.take(i + 1);
            assert(t.drop_last() =~= path@.take(i as int));
            assert(out@ =~= start + all_encoded(word, t));
        }
        i = i + 1;
    }
    assert(path@.take(i as int) =~= path@);
}

/// A derivation path as the device reads it.
pub fn encode_bip32_path(components: &[u32]) -> (r: Vec<u8>)
    ensures
        r@ == path_bytes(components@),
{
    let mut out: Vec<u8> = Vec::new();
    push_le(&mut out, components.len() as u64, 1);
    push_words(&mut out, components);
    assert(out@ =~= path_bytes(components@));
    out
}

/// One command.
pub fn build_apdu(ins: u8, p1: u8, p2: u8, data: &[u8]) -> (r: Vec<u8>)
    ensures
        r@ == apdu(ins, p1, p2, data@),
{
    let mut out: Vec<u8> = Vec::new();
    out.push(APDU_CLA);
    out.push(ins);
    out.push(p1);
    out.push(p2);
    assert(out@ =~= seq![APDU_CLA, ins, p1, p2]);
    push_le(&mut out, data.len() as u64, 1);
    push_all(&mut out, data);
    out
}

pub fn begin_payload(version: u32, n_in: u64, n_out: u64, locktime: u32) -> (r: Vec<u8>)
    ensures
        r@ == begin_data(version as nat, n_in as nat, n_out as nat, locktime as nat),
{
    let mut out: Vec<u8> = Vec::new();
    push_le(&mut out, version as u64, 4);
    write_varint(&mut out, n_in);
    write_varint(&mut out, n_out);
    push_le(&mut out, locktime as u64, 4);
    assert(out@ =~= begin_data(version as nat, n_in as nat, n_out as nat, locktime as nat));
    out
}

pub fn add_input_payload(input: &TxInputRef, meta: &SignInput) -> (r: Vec<u8>)
    ensures
        r@ == add_input_data(input@, meta@),
{
    let mut out: Vec<u8> = Vec::new();
    push_all(&mut out, &input.prev_hash);
    push_le(&mut out, input.prev_index as u64, 4);
    push_le(&mut out, input.sequence as u64, 4);
    push_le(&mut out, meta.value, 8);
    out.push(meta.sighash_type);
    push_all(&mut out, &encode_bip32_path(&meta.path));
    out.push(SCRIPT_KIND_P2WPKH);
    assert(out@ =~= add_input_data(input@, meta@));
    out
}

pub fn message_payload(path: &[u32], message: &[u8]) -> (r: Vec<u8>)
    ensures
        r@ == message_data(path@, message@),
{
    let mut out = encode_bip32_path(path);
    push_le(&mut out, message.len() as u64, 2);
    push_all(&mut out, message);
    out
}

// ── Where everything stands ──

/// A command is its class, its instruction, its two parameters, the length of
/// its data, and the data.
pub proof fn law_command_layout(ins: u8, p1: u8, p2: u8, data: Seq<u8>)
    requires
        data.len() <= 255,
    ensures
        ({
            let c = apdu(ins, p1, p2, data);
            &&& c.len() == 5 + data.len()
            &&& c[0] == 0xe0
            &&& c[1] == ins
            &&& c[2] == p1
            &&& c[3] == p2
            &&& c[4] == data.len()
            &&& c.skip(5) == data
        }),
{
    lemma_le_len(data.len(), 1);
    reveal_with_fuel(le, 2);
    assert(apdu(ins, p1, p2, data).skip(5) =~= data);
}

/// A path is sent as the number of its words and the words, each in four bytes
/// with the highest first.
pub proof fn law_path_layout(path: Seq<u32>, k: int)
    requires
        0 <= k < path.len() <= 255,
    ensures
        path_bytes(path).len() == 1 + 4 * path.len(),
        path_bytes(path)[0] == path.len(),
        be_value(path_bytes(path).subrange(1 + 4 * k, 5 + 4 * k)) == path[k],
{
    lemma_path_bytes_len(path);
    reveal_with_fuel(le, 2);
    lemma_word(path, k);
    assert(path_bytes(path).subrange(1 + 4 * k, 5 + 4 * k) =~= path_words(path).subrange(
        4 * k,
        4 * k + 4,
    ));
}

proof fn lemma_word(path: Seq<u32>, k: int)
    requires
        0 <= k < path.len(),
    ensures
        path_words(path).len() == 4 * path.len(),
        be_value(path_words(path).subrange(4 * k, 4 * k + 4)) == path[k],
    decreases path.len(),
{
    let less = path.drop_last();
    lemma_path_words_len(path);
    lemma_path_words_len(less);
    lemma_pow256_values();
    law_be_read_write(path.last() as nat, 4);
    if k < less.len() {
        lemma_word(less, k);
        assert(path_words(path).subrange(4 * k, 4 * k + 4) =~= path_words(less).subrange(
            4 * k,
            4 * k + 4,
        ));
    } else {
        assert(path_words(path).subrange(4 * k, 4 * k + 4) =~= be(path.last() as nat, 4));
    }
}

/// What the device is told of an input: which output of which transaction it
/// spends, its sequence, its value, the kind of hash, the path of its key, and
/// that it is spent by a key.
pub proof fn law_input_layout(input: TxInput, meta: SignMeta)
    requires
        input.prev_hash.len() == 32,
        input.prev_index <= 0xffff_ffff,
        input.sequence <= 0xffff_ffff,
    ensures
        ({
            let d = add_input_data(input, meta);
            let n = path_bytes(meta.path).len() as int;
            &&& d.len() == 50 + n
            &&& d.subrange(0, 32) == input.prev_hash
            &&& le_value(d.subrange(32, 36)) == input.prev_index
            &&& le_value(d.subrange(36, 40)) == input.sequence
            &&& le_value(d.subrange(40, 48)) == meta.value
            &&& d[48] == meta.sighash_type
            &&& d.subrange(49, 49 + n) == path_bytes(meta.path)
            &&& d[49 + n] == 0
        }),
{
    lemma_pow256_values();
    law_le_read_write(input.prev_index, 4);
    law_le_read_write(input.sequence, 4);
    law_le_read_write(meta.value as nat, 8);
    let d = add_input_data(input, meta);
    let n = path_bytes(meta.path).len() as int;
    assert(d.subrange(0, 32) =~= input.prev_hash);
    assert(d.subrange(32, 36) =~= le(input.prev_index, 4));
    assert(d.subrange(36, 40) =~= le(input.sequence, 4));
    assert(d.subrange(40, 48) =~= le(meta.value as nat, 8));
    assert(d.subrange(49, 49 + n) =~= path_bytes(meta.path));
}

/// What a session begins with: the version of the transaction, how many inputs
/// and outputs it has, and its lock time.
pub proof fn law_begin_layout(version: u32, n_in: u64, n_out: u64, locktime: u32)
    ensures
        ({
            let d = begin_data(version as nat, n_in as nat, n_out as nat, locktime as nat);
            let p = 4 + varint(n_in as nat).len();
            let q = p + varint(n_out as nat).len();
            &&& d.len() == q + 4
            &&& le_value(d.subrange(0, 4)) == version
            &&& varint_at(Format::Tx, d, 4) == Ok::<(nat, nat), Seq<char>>((n_in as nat, p))
            &&& varint_at(Format::Tx, d, p) == Ok::<(nat, nat), Seq<char>>((n_out as nat, q))
            &&& le_value(d.subrange(q as int, q as int + 4)) == locktime
        }),
{
    lemma_pow256_values();
    law_le_read_write(version as nat, 4);
    law_le_read_write(locktime as nat, 4);
    lemma_varint_len(n_in as nat);
    lemma_varint_len(n_out as nat);
    let v = le(version as nat, 4);
    let l = le(locktime as nat, 4);
    let a = varint(n_in as nat);
    let b = varint(n_out as nat);
    let d = begin_data(version as nat, n_in as nat, n_out as nat, locktime as nat);
    assert(d =~= v + a + (b + l));
    assert(d =~= (v + a) + b + l);
    law_varint_reads_back(Format::Tx, v, n_in, b + l);
    law_varint_reads_back(Format::Tx, v + a, n_out, l);
    assert(d.subrange(0, 4) =~= v);
    assert(d.subrange((4 + a.len() + b.len()) as int, d.len() as int) =~= l);
}

/// What the device is given to sign a message: the path of the key, the length
/// of the message in two bytes with the lower first, and the message.
pub proof fn law_message_layout(path: Seq<u32>, message: Seq<u8>)
    requires
        message.len() <= 0xffff,
    ensures
        ({
            let d = message_data(path, message);
            let n = path_bytes(path).len() as int;
            &&& d.subrange(0, n) == path_bytes(path)
            &&& le_value(d.subrange(n, n + 2)) == message.len()
            &&& d.skip(n + 2) == message
        }),
{
    lemma_pow256_values();
    law_le_read_write(message.len(), 2);
    let d = message_data(path, message);
    let n = path_bytes(path).len() as int;
    assert(d.subrange(0, n) =~= path_bytes(path));
    assert(d.subrange(n, n + 2) =~= le(message.len(), 2));
    assert(d.skip(n + 2) =~= message);
}

} // verus!
