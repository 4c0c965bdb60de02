//! Partially signed transactions, version 1.
//!
//! ```text
//! 0x01 || tx_len(4 LE) || tx || n_coins(2 LE) || n_coins × coin || inputs
//! coin:  value(8 LE) || addr_version(1) || hash_len(1) || hash(·) ||
//!   outpoint_hash(32) || outpoint_index(4 LE)
//! input: 0x00 || sig_len(1) || sig || pk_len(1) || pk
//! ```

use crate::ledger::reader::{
    agree, all_encoded, carries_over, lemma_many_carries_over, lemma_many_error,
    lemma_many_len, lemma_many_reads_back, lemma_need_carries_over, lemma_number_at, lemma_number_carries_over,
    many, need, number_at, Format, Read, Reader,
};
use crate::text::{bytes_outcome, decimal, numbers_after};
use crate::wire::{
    law_le_write_read, le, le_value, lemma_le_len, lemma_le_value_bound, lemma_pow256_values, push_all,
    push_le,
};
use vstd::prelude::*;

verus! {

/// A coin that an input spends.
#[derive(Debug, Clone)]
pub struct PstxCoin {
    pub value: u64,
    pub address_version: u8,
    pub address_hash: Vec<u8>,
    pub outpoint_hash: [u8; 32],
    pub outpoint_index: u32,
}

/// A partially signed transaction: the transaction and the coins it spends.
#[derive(Debug, Clone)]
pub struct PstxV1 {
    pub tx_bytes: Vec<u8>,
    pub coins: Vec<PstxCoin>,
}

pub struct Coin {
    pub value: nat,
    pub address_version: nat,
    pub address_hash: Seq<u8>,
    pub outpoint_hash: Seq<u8>,
    pub outpoint_index: nat,
}

pub struct Pstx {
    pub tx: Seq<u8>,
    pub coins: Seq<Coin>,
}

impl View for PstxCoin {
    type V = Coin;

    open spec fn view(&self) -> Coin {
        Coin {
            value: self.value as nat,
            address_version: self.address_version as nat,
            address_hash: self.address_hash@,
            outpoint_hash: self.outpoint_hash@,
            outpoint_index: self.outpoint_index as nat,
        }
    }
}

pub open spec fn coin_views(v: Seq<PstxCoin>) -> Seq<Coin> {
    Seq::new(v.len(), |i: int| v[i]@)
}

impl View for PstxV1 {
    type V = Pstx;

    open spec fn view(&self) -> Pstx {
        Pstx { tx: self.tx_bytes@, coins: coin_views(self.coins@) }
    }
}

/// What two byte strings hold.
pub open spec fn pair_view(p: (Vec<u8>, Vec<u8>)) -> (Seq<u8>, Seq<u8>) {
    (p.0@, p.1@)
}

pub open spec fn pair_views(v: Seq<(Vec<u8>, Vec<u8>)>) -> Seq<(Seq<u8>, Seq<u8>)> {
    Seq::new(v.len(), |i: int| pair_view(v[i]))
}

// ── What parsing gives ──

/// The coin at `pos`.
pub open spec fn coin_at(s: Seq<u8>, pos: nat) -> Read<Coin> {
    match number_at(Format::Pstx, s, pos, 8) {
        Err(e) => Err(e),
        Ok((value, p)) => match number_at(Format::Pstx, s, p, 1) {
            Err(e) => Err(e),
            Ok((address_version, q)) => match number_at(Format::Pstx, s, q, 1) {
                Err(e) => Err(e),
                Ok((hash_len, t)) => match need(Format::Pstx, s, t, hash_len) {
                    Err(e) => Err(e),
                    Ok((address_hash, u)) => match need(Format::Pstx, s, u, 32) {
                        Err(e) => Err(e),
                        Ok((outpoint_hash, v)) => match number_at(Format::Pstx, s, v, 4) {
                            Err(e) => Err(e),
                            Ok((outpoint_index, w)) => Ok(
                                (
                                    Coin {
                                        value,
                                        address_version,
                                        address_hash,
                                        outpoint_hash,
                                        outpoint_index,
                                    },
                                    w,
                                ),
                            ),
                        },
                    },
                },
            },
        },
    }
}

pub open spec fn coin_step(s: Seq<u8>) -> spec_fn(nat) -> Read<Coin> {
    |p: nat| coin_at(s, p)
}

/// The partially signed transaction in `s`. What follows the coins is not
/// looked at.
pub open spec fn pstx_in(s: Seq<u8>) -> Result<Pstx, Seq<char>> {
    match pstx_at(s) {
        Err(e) => Err(e),
        Ok((p, _)) => Ok(p),
    }
}

/// The same, and where its coins end.
pub open spec fn pstx_at(s: Seq<u8>) -> Read<Pstx> {
    if s.len() < 6 || s[0] != 1 {
        Err("not a v1 PSTX"@)
    } else {
        match number_at(Format::Pstx, s, 1, 4) {
            Err(e) => Err(e),
            Ok((tx_len, p)) => match need(Format::Pstx, s, p, tx_len) {
                Err(e) => Err(e),
                Ok((tx, q)) => match number_at(Format::Pstx, s, q, 2) {
                    Err(e) => Err(e),
                    Ok((n, t)) => match many(coin_step(s), t, n) {
                        Err(e) => Err(e),
                        Ok((coins, u)) => Ok((Pstx { tx, coins }, u)),
                    },
                },
            },
        }
    }
}

// ── How it is written ──

impl Coin {
    pub open spec fn wf(self) -> bool {
        &&& self.value <= u64::MAX
        &&& self.address_version <= u8::MAX
        &&& self.address_hash.len() <= u8::MAX
        &&& self.outpoint_hash.len() == 32
        &&& self.outpoint_index <= u32::MAX
    }
}

pub open spec fn encode_coin(c: Coin) -> Seq<u8> {
    le(c.value, 8) + le(c.address_version, 1) + le(c.address_hash.len(), 1) + c.address_hash
        + c.outpoint_hash + le(c.outpoint_index, 4)
}

/// A signature and a public key. A key that does not have 33 bytes is
/// left out.
pub open spec fn encode_signature(pair: (Seq<u8>, Seq<u8>)) -> Seq<u8> {
    seq![0u8] + le(pair.0.len(), 1) + pair.0 + if pair.1.len() == 33 {
        seq![33u8] + pair.1
    } else {
        seq![0u8]
    }
}

/// The transaction and its coins, and then one signature and key per input.
pub open spec fn encode_pstx(p: Pstx, inputs: Seq<(Seq<u8>, Seq<u8>)>) -> Seq<u8> {
    seq![1u8] + le(p.tx.len(), 4) + p.tx + le(p.coins.len(), 2) + all_encoded(
        |c: Coin| encode_coin(c),
        p.coins,
    ) + all_encoded(|i: (Seq<u8>, Seq<u8>)| encode_signature(i), inputs)
}

/// How many bytes the coins take.
pub open spec fn coins_len(coins: Seq<Coin>) -> nat
    decreases coins.len(),
{
    if coins.len() == 0 {
        0
    } else {
        coins_len(coins.drop_last()) + 46 + coins.last().address_hash.len()
    }
}

/// How many bytes there are before the signatures.
pub open spec fn head_len(p: Pstx) -> nat {
    7 + p.tx.len() + coins_len(p.coins)
}

/// What `serialize_p2wpkh` gives.
pub open spec fn serialized(p: Pstx, inputs: Seq<(Seq<u8>, Seq<u8>)>) -> Result<
    Seq<u8>,
    Seq<char>,
> {
    if inputs.len() != p.coins.len() {
        Err(
            "expected "@ + decimal(p.coins.len()) + " input slots, got "@ + decimal(inputs.len()),
        )
    } else {
        Ok(encode_pstx(p, inputs))
    }
}

proof fn lemma_coin_reads_back(before: Seq<u8>, c: Coin, after: Seq<u8>)
    requires
        c.wf(),
        (before + encode_coin(c) + after).len() <= usize::MAX,
    ensures
        coin_at(before + encode_coin(c) + after, before.len()) == Ok::<(Coin, nat), Seq<char>>(
            (c, before.len() + encode_coin(c).len()),
        ),
{
    let s = before + encode_coin(c) + after;
    let p = before.len();
    let n = c.address_hash.len();
    lemma_pow256_values();
    lemma_le_len(c.value, 8);
    lemma_le_len(c.address_version, 1);
    lemma_le_len(n, 1);
    lemma_le_len(c.outpoint_index, 4);
    assert(s.subrange(p as int, (p + 8) as int) =~= le(c.value, 8));
    lemma_number_at(Format::Pstx, s, p, c.value, 8);
    assert(s.subrange((p + 8) as int, (p + 9) as int) =~= le(c.address_version, 1));
    lemma_number_at(Format::Pstx, s, p + 8, c.address_version, 1);
    assert(s.subrange((p + 9) as int, (p + 10) as int) =~= le(n, 1));
    lemma_number_at(Format::Pstx, s, p + 9, n, 1);
    assert(s.subrange((p + 10) as int, (p + 10 + n) as int) =~= c.address_hash);
    assert(s.subrange((p + 10 + n) as int, (p + 42 + n) as int) =~= c.outpoint_hash);
    assert(s.subrange((p + 42 + n) as int, (p + 46 + n) as int) =~= le(c.outpoint_index, 4));
    lemma_number_at(Format::Pstx, s, p + 42 + n, c.outpoint_index, 4);
}

/// A partially signed transaction that was written, with whatever signatures,
/// is read back.
pub proof fn law_pstx_reads_back(p: Pstx, inputs: Seq<(Seq<u8>, Seq<u8>)>)
    requires
        p.tx.len() <= u32::MAX,
        p.coins.len() <= u16::MAX,
        forall|i: int| 0 <= i < p.coins.len() ==> (#[trigger] p.coins[i]).wf(),
        encode_pstx(p, inputs).len() <= usize::MAX,
    ensures
        pstx_in(encode_pstx(p, inputs)) == Ok::<Pstx, Seq<char>>(p),
{
    let s = encode_pstx(p, inputs);
    let n = p.tx.len();
    let write = |c: Coin| encode_coin(c);
    let step = |t: Seq<u8>| coin_step(t);
    let same = |c: Coin| c;
    let coins = all_encoded(write, p.coins);
    let rest = all_encoded(|i: (Seq<u8>, Seq<u8>)| encode_signature(i), inputs);
    let head = seq![1u8] + le(n, 4) + p.tx + le(p.coins.len(), 2);
    lemma_pow256_values();
    lemma_le_len(n, 4);
    lemma_le_len(p.coins.len(), 2);
    assert(s =~= head + coins + rest);
    assert(s.subrange(1, 5) =~= le(n, 4));
    lemma_number_at(Format::Pstx, s, 1, n, 4);
    assert(s.subrange(5, (5 + n) as int) =~= p.tx);
    assert(s.subrange((5 + n) as int, (7 + n) as int) =~= le(p.coins.len(), 2));
    lemma_number_at(Format::Pstx, s, 5 + n, p.coins.len(), 2);
    assert forall|b: Seq<u8>, i: int, a: Seq<u8>|
        #![trigger step(b + write(p.coins[i]) + a)]
        0 <= i < p.coins.len() && (b + write(p.coins[i]) + a).len() <= usize::MAX implies step(
        b + write(p.coins[i]) + a,
    )(b.len()) == Ok::<(Coin, nat), Seq<char>>(
        (same(p.coins[i]), b.len() + write(p.coins[i]).len()),
    ) by {
        lemma_coin_reads_back(b, p.coins[i], a);
    }
    lemma_many_reads_back(step, write, same, head, p.coins, rest);
    assert(p.coins.map_values(same) =~= p.coins);
}

// ── What parsing looks at ──

/// What follows the coins does not matter, and a partially signed transaction
/// that lacks some of its coins does not parse.
pub proof fn law_pstx_needs_all_its_bytes(s: Seq<u8>, after: Seq<u8>, k: nat)
    requires
        pstx_at(s) is Ok,
    ensures
        7 <= pstx_at(s)->Ok_0.1 <= s.len(),
        pstx_at(s.take(pstx_at(s)->Ok_0.1 as int) + after) == pstx_at(s),
        k < pstx_at(s)->Ok_0.1 ==> pstx_in(s.take(k as int)) is Err,
{
    let e = pstx_at(s)->Ok_0.1;
    lemma_coins_end(s);
    lemma_pstx_carries_over(s, s.take(e as int) + after, e);
    if k < e {
        lemma_pstx_carries_over(s, s.take(k as int), e);
    }
}

proof fn lemma_coin_carries_over(s: Seq<u8>, t: Seq<u8>, e: nat, pos: nat)
    requires
        agree(s, t, e),
    ensures
        carries_over(coin_at(s, pos), coin_at(t, pos), pos, e, t.len()),
{
    lemma_number_carries_over(Format::Pstx, s, t, e, pos, 8);
    lemma_number_carries_over(Format::Pstx, s, t, e, pos + 8, 1);
    lemma_number_carries_over(Format::Pstx, s, t, e, pos + 9, 1);
    if let Ok((n, p)) = number_at(Format::Pstx, s, pos + 9, 1) {
        lemma_need_carries_over(Format::Pstx, s, t, e, p, n);
        lemma_need_carries_over(Format::Pstx, s, t, e, p + n, 32);
        lemma_number_carries_over(Format::Pstx, s, t, e, p + n + 32, 4);
    }
}

proof fn lemma_pstx_carries_over(s: Seq<u8>, t: Seq<u8>, e: nat)
    requires
        agree(s, t, e),
        pstx_at(s) matches Ok((_, p)) && 7 <= p <= e,
    ensures
        if pstx_at(s)->Ok_0.1 <= t.len() {
            pstx_at(t) == pstx_at(s)
        } else {
            pstx_at(t) is Err
        },
{
    if t.len() >= 6 {
        assert(s[0] == t[0]);
        lemma_number_carries_over(Format::Pstx, s, t, e, 1, 4);
        if let Ok((n, p)) = number_at(Format::Pstx, s, 1, 4) {
            lemma_need_carries_over(Format::Pstx, s, t, e, p, n);
            lemma_number_carries_over(Format::Pstx, s, t, e, p + n, 2);
            assert forall|i: nat| carries_over(
                #[trigger] coin_step(s)(i),
                coin_step(t)(i),
                i,
                e,
                t.len(),
            ) by {
                lemma_coin_carries_over(s, t, e, i);
            }
            if let Ok((c, u)) = number_at(Format::Pstx, s, p + n, 2) {
                lemma_many_carries_over(coin_step(s), coin_step(t), u, e, t.len(), c);
            }
        }
    }
}

/// The coins end within the bytes, and behind the count of them.
proof fn lemma_coins_end(s: Seq<u8>)
    requires
        pstx_at(s) is Ok,
    ensures
        7 <= pstx_at(s)->Ok_0.1 <= s.len(),
{
    let n = number_at(Format::Pstx, s, 1, 4)->Ok_0.0;
    let c = number_at(Format::Pstx, s, 5 + n, 2)->Ok_0.0;
    lemma_coins_written(s, 7 + n, c);
}

// ── Writing what was read ──

/// A coin that was read is written as it stood.
proof fn lemma_coin_written(s: Seq<u8>, pos: nat)
    ensures
        coin_at(s, pos) matches Ok((c, p)) ==> {
            &&& c.wf()
            &&& pos <= p <= s.len()
            &&& s.subrange(pos as int, p as int) == encode_coin(c)
        },
{
    if let Ok((c, p)) = coin_at(s, pos) {
        let n = c.address_hash.len();
        let q = pos as int;
        lemma_pow256_values();
        lemma_le_value_bound(s.subrange(q, q + 8));
        lemma_le_value_bound(s.subrange(q + 8, q + 9));
        lemma_le_value_bound(s.subrange(q + 9, q + 10));
        lemma_le_value_bound(s.subrange(q + 42 + n, q + 46 + n));
        law_le_write_read(s.subrange(q, q + 8));
        law_le_write_read(s.subrange(q + 8, q + 9));
        law_le_write_read(s.subrange(q + 9, q + 10));
        law_le_write_read(s.subrange(q + 42 + n, q + 46 + n));
        assert(s.subrange(q, p as int) =~= s.subrange(q, q + 8) + s.subrange(q + 8, q + 9)
            + s.subrange(q + 9, q + 10) + s.subrange(q + 10, q + 10 + n) + s.subrange(
            q + 10 + n,
            q + 42 + n,
        ) + s.subrange(q + 42 + n, q + 46 + n));
    }
}

proof fn lemma_coins_written(s: Seq<u8>, pos: nat, n: nat)
    requires
        pos <= s.len(),
    ensures
        many(coin_step(s), pos, n) matches Ok((v, p)) ==> {
            &&& v.len() == n
            &&& pos <= p <= s.len()
            &&& s.subrange(pos as int, p as int) == all_encoded(|c: Coin| encode_coin(c), v)
            &&& forall|i: int| 0 <= i < v.len() ==> (#[trigger] v[i]).wf()
        },
    decreases n,
{
    let write = |c: Coin| encode_coin(c);
    if n > 0 {
        lemma_coins_written(s, pos, (n - 1) as nat);
        if let Ok((v, p)) = many(coin_step(s), pos, (n - 1) as nat) {
            lemma_coin_written(s, p);
            if let Ok((c, q)) = coin_at(s, p) {
                let w = v.push(c);
                assert(coin_step(s)(p) == coin_at(s, p));
                assert(w.drop_last() =~= v);
                assert(s.subrange(pos as int, q as int) =~= s.subrange(pos as int, p as int)
                    + s.subrange(p as int, q as int));
                assert(all_encoded(write, w) =~= all_encoded(write, v) + encode_coin(c));
            }
        }
    } else {
        assert(s.subrange(pos as int, pos as int) =~= Seq::empty());
    }
}

/// A partially signed transaction that was read is written, with whatever
/// signatures, as it stood up to the end of its coins.
pub proof fn law_pstx_is_written_as_read(s: Seq<u8>, inputs: Seq<(Seq<u8>, Seq<u8>)>)
    requires
        pstx_at(s) is Ok,
    ensures
        pstx_at(s)->Ok_0.1 <= s.len(),
        pstx_at(s)->Ok_0.1 == head_len(pstx_at(s)->Ok_0.0),
        encode_pstx(pstx_at(s)->Ok_0.0, inputs) == s.take(pstx_at(s)->Ok_0.1 as int) + all_encoded(
            |i: (Seq<u8>, Seq<u8>)| encode_signature(i),
            inputs,
        ),
        forall|i: int|
            0 <= i < pstx_at(s)->Ok_0.0.coins.len() ==> (
            #[trigger] pstx_at(s)->Ok_0.0.coins[i]).wf(),
{
    let (p, e) = pstx_at(s)->Ok_0;
    let n = p.tx.len();
    let c = p.coins.len();
    let rest = all_encoded(|i: (Seq<u8>, Seq<u8>)| encode_signature(i), inputs);
    let coins = all_encoded(|c: Coin| encode_coin(c), p.coins);
    let count = number_at(Format::Pstx, s, 5 + n, 2)->Ok_0.0;
    lemma_coins_written(s, 7 + n, count);
    law_le_write_read(s.subrange(1, 5));
    law_le_write_read(s.subrange((5 + n) as int, (7 + n) as int));
    assert(s.take(e as int) =~= seq![1u8] + s.subrange(1, 5) + s.subrange(5, (5 + n) as int)
        + s.subrange((5 + n) as int, (7 + n) as int) + s.subrange((7 + n) as int, e as int));
    assert(encode_pstx(p, inputs) =~= s.take(e as int) + rest);
    lemma_coins_len(p.coins);
}

proof fn lemma_coins_len(coins: Seq<Coin>)
    requires
        forall|i: int| 0 <= i < coins.len() ==> (#[trigger] coins[i]).wf(),
    ensures
        all_encoded(|c: Coin| encode_coin(c), coins).len() == coins_len(coins),
    decreases coins.len(),
{
    if coins.len() > 0 {
        let c = coins.last();
        lemma_coins_len(coins.drop_last());
        lemma_le_len(c.value, 8);
        lemma_le_len(c.address_version, 1);
        lemma_le_len(c.address_hash.len(), 1);
        lemma_le_len(c.outpoint_index, 4);
    }
}

// ── Parsing and writing ──

fn read_coin(r: &mut Reader) -> (res: Result<PstxCoin, String>)
    requires
        old(r).wf(),
        old(r).format == Format::Pstx,
    ensures
        final(r).moved(*old(r), coin_at(old(r).data@, old(r).pos as nat)),
        match coin_at(old(r).data@, old(r).pos as nat) {
            Ok((x, _)) => res matches Ok(v) && v@ == x,
            Err(e) => res matches Err(t) && t@ == e,
        },
{
    let value = match r.read_u64_le() {
        Ok(v) => v,
        Err(e) => return Err(e),
    };
    let address_version = match r.read_u8() {
        Ok(v) => v,
        Err(e) => return Err(e),
    };
    let hash_len = match r.read_u8() {
        Ok(v) => v,
        Err(e) => return Err(e),
    };
    let address_hash = match r.read_bytes(hash_len as usize) {
        Ok(v) => v,
        Err(e) => return Err(e),
    };
    let outpoint_hash = match r.read_hash() {
        Ok(v) => v,
        Err(e) => return Err(e),
    };
    let outpoint_index = match r.read_u32_le() {
        Ok(v) => v,
        Err(e) => return Err(e),
    };
    Ok(PstxCoin { value, address_version, address_hash, outpoint_hash, outpoint_index })
}

#[verifier::loop_isolation(false)]
fn read_coins(r: &mut Reader, n: usize) -> (res: Result<Vec<PstxCoin>, String>)
    requires
        old(r).wf(),
        old(r).format == Format::Pstx,
    ensures
        match many(coin_step(old(r).data@), old(r).pos as nat, n as nat) {
            Ok((x, _)) => res matches Ok(v) && coin_views(v@) == x,
            Err(e) => res matches Err(t) && t@ == e,
        },
{
    let mut coins: Vec<PstxCoin> = Vec::new();
    let ghost start = *r;
    let ghost step = coin_step(start.data@);
    let mut i: usize = 0;
    assert(coin_views(coins@) =~= Seq::empty());
    while i < n
        invariant
            i <= n,
            r.wf(),
            r.format == Format::Pstx,
            r.data == start.data,
            many(step, start.pos as nat, i as nat) == Ok::<(Seq<Coin>, nat), Seq<char>>(
                (coin_views(coins@), r.pos as nat),
            ),
        decreases n - i,
    {
        proof {
            assert(many(step, start.pos as nat, (i + 1) as nat) == match coin_at(
                start.data@,
                r.pos as nat,
            ) {
                Err(e) => Err(e),
                Ok((x, q)) => Ok((coin_views(coins@).push(x), q)),
            });
            if coin_at(start.data@, r.pos as nat) is Err {
                lemma_many_error(step, start.pos as nat, (i + 1) as nat, n as nat);
            }
        }
        match read_coin(r) {
            Ok(v) => {
                let ghost before = coins@;
                coins.push(v);
                assert(coin_views(coins@) =~= coin_views(before).push(v@));
            },
            Err(e) => return Err(e),
        }
        i = i + 1;
    }
    Ok(coins)
}

fn push_coin(out: &mut Vec<u8>, c: &PstxCoin)
    ensures
        final(out)@ == old(out)@ + encode_coin(c@),
{
    let ghost start = out@;
    push_le(out, c.value, 8);
    push_le(out, c.address_version as u64, 1);
    push_le(out, c.address_hash.len() as u64, 1);
    push_all(out, &c.address_hash);
    push_all(out, &c.outpoint_hash);
    push_le(out, c.outpoint_index as u64, 4);
    assert(out@ =~= start + encode_coin(c@));
}

fn push_signature(out: &mut Vec<u8>, sig: &Vec<u8>, pk: &Vec<u8>)
    ensures
        final(out)@ == old(out)@ + encode_signature((sig@, pk@)),
{
    let ghost start = out@;
    out.push(0x00);
    push_le(out, sig.len() as u64, 1);
    push_all(out, sig);
    if pk.len() == 33 {
        out.push(33);
        push_all(out, pk);
    } else {
        out.push(0);
    }
    assert(out@ =~= start + encode_signature((sig@, pk@)));
}

impl PstxV1 {
    /// Parses a version 1 PSTX.
    pub fn parse(data: &[u8]) -> (res: Result<PstxV1, String>)
        ensures
            match pstx_in(data@) {
                Ok(p) => res matches Ok(v) && v@ == p,
                Err(e) => res matches Err(t) && t@ == e,
            },
    {
        if data.len() < 6 || data[0] != 0x01 {
            return Err("not a v1 PSTX".to_owned());
        }
        let mut r = Reader::new(Format::Pstx, data, 1);
        let tx_len = match r.read_u32_le() {
            Ok(v) => v,
            Err(e) => return Err(e),
        };
        let tx_bytes = match r.read_bytes(tx_len as usize) {
            Ok(v) => v,
            Err(e) => return Err(e),
        };
        let coin_count = match r.read_u16_le() {
            Ok(v) => v,
            Err(e) => return Err(e),
        };
        let coins = match read_coins(&mut r, coin_count as usize) {
            Ok(v) => v,
            Err(e) => return Err(e),
        };
        Ok(PstxV1 { tx_bytes, coins })
    }

    /// Writes the transaction and its coins with the given signatures (with
    /// their sighash byte) and public keys in place of the inputs.
    pub fn serialize_p2wpkh(&self, inputs: &[(Vec<u8>, Vec<u8>)]) -> (res: Result<
        Vec<u8>,
        String,
    >)
        ensures
            bytes_outcome(res) == serialized(self@, pair_views(inputs@)),
    {
        if inputs.len() != self.coins.len() {
            return Err(
                numbers_after(
                    "expected ",
                    self.coins.len() as u64,
                    " input slots, got ",
                    inputs.len() as u64,
                ),
            );
        }
        let mut out: Vec<u8> = Vec::new();
        out.push(0x01);
        push_le(&mut out, self.tx_bytes.len() as u64, 4);
        push_all(&mut out, &self.tx_bytes);
        push_le(&mut out, self.coins.len() as u64, 2);
        let ghost head = seq![1u8] + le(self@.tx.len(), 4) + self@.tx + le(self@.coins.len(), 2);
        assert(out@ =~= head);
        let ghost write = |c: Coin| encode_coin(c);
        let ghost coins = self@.coins;
        let mut i: usize = 0;
        assert(out@ =~= head + all_encoded(write, coins.take(0)));
        while i < self.coins.len()
            invariant
                i <= self.coins@.len(),
                coins == self@.coins,
                write == |c: Coin| encode_coin(c),
                out@ == head + all_encoded(write, coins.take(i as int)),
            decreases self.coins@.len() - i,
        {
            push_coin(&mut out, &self.coins[i]);
            proof {
                let t = coins.take(i + 1);
                assert(t.drop_last() =~= coins.take(i as int));
                assert(out@ =~= head + all_encoded(write, t));
            }
            i = i + 1;
        }
        let ghost body = out@;
        assert(coins.take(i as int) =~= coins);
        let ghost sign = |p: (Seq<u8>, Seq<u8>)| encode_signature(p);
        let ghost pairs = pair_views(inputs@);
        let mut j: usize = 0;
        assert(out@ =~= body + all_encoded(sign, pairs.take(0)));
        while j < inputs.len()
            invariant
                j <= inputs@.len(),
                pairs == pair_views(inputs@),
                sign == |p: (Seq<u8>, Seq<u8>)| encode_signature(p),
                out@ == body + all_encoded(sign, pairs.take(j as int)),
            decreases inputs@.len() - j,
        {
            push_signature(&mut out, &inputs[j].0, &inputs[j].1);
            proof {
                let t = pairs.take(j + 1);
                assert(t.drop_last() =~= pairs.take(j as int));
                assert(t.last() == pair_view(inputs@[j as int]));
                assert(out@ =~= body + all_encoded(sign, t));
            }
            j = j + 1;
        }
        assert(pairs.take(j as int) =~= pairs);
        Ok(out)
    }
}

// ── Where everything stands ──

/// The fields of a coin stand one behind the other: its value in eight bytes,
/// the version of its address, the length of the hash in it and the hash, then
/// the transaction and the output that made it.
pub proof fn law_coin_layout(s: Seq<u8>, pos: nat)
    ensures
        coin_at(s, pos) matches Ok((c, end)) ==> {
            let p = pos as int;
            let n = s[p + 9] as int;
            &&& end == p + 46 + n
            &&& end <= s.len()
            &&& c.value == le_value(s.subrange(p, p + 8))
            &&& c.address_version == s[p + 8]
            &&& c.address_hash == s.subrange(p + 10, p + 10 + n)
            &&& c.outpoint_hash == s.subrange(p + 10 + n, p + 42 + n)
            &&& c.outpoint_index == le_value(s.subrange(p + 42 + n, p + 46 + n))
        },
{
    reveal_with_fuel(le_value, 2);
    if let Ok((c, end)) = coin_at(s, pos) {
        let p = pos as int;
        let v = s.subrange(p + 8, p + 9);
        let l = s.subrange(p + 9, p + 10);
        assert(v.drop_first() =~= Seq::empty() && l.drop_first() =~= Seq::empty());
        assert(v[0] == s[p + 8] && l[0] == s[p + 9]);
        assert(le_value(v) == s[p + 8] && le_value(l) == s[p + 9]);
    }
}

/// A partially signed transaction is its version 1, the length of the
/// transaction in four bytes, the transaction, and how many coins there are in
/// two bytes; nothing else is one.
pub proof fn law_pstx_layout(s: Seq<u8>)
    ensures
        pstx_at(s) matches Ok((p, _)) ==> {
            let n = le_value(s.subrange(1, 5)) as int;
            &&& s[0] == 1
            &&& p.tx == s.subrange(5, 5 + n)
            &&& p.coins.len() == le_value(s.subrange(5 + n, 7 + n))
        },
        s.len() > 0 && s[0] != 1 ==> pstx_in(s) is Err,
{
    if let Ok((p, end)) = pstx_at(s) {
        let n = le_value(s.subrange(1, 5));
        lemma_many_len(coin_step(s), 7 + n, p.coins.len());
        let m = le_value(s.subrange(5 + n as int, 7 + n as int));
        lemma_many_len(coin_step(s), 7 + n, m);
    }
}

/// A signature record is a zero, the length of the signature and the
/// signature, and 33 and the key, or a zero where there is no such key.
pub proof fn law_signature_layout(sig: Seq<u8>, key: Seq<u8>)
    requires
        sig.len() <= 255,
    ensures
        ({
            let r = encode_signature((sig, key));
            let n = sig.len() as int;
            &&& r[0] == 0
            &&& r[1] == n
            &&& r.subrange(2, 2 + n) == sig
            &&& key.len() == 33 ==> r.len() == n + 36 && r[2 + n] == 33 && r.skip(3 + n) == key
            &&& key.len() != 33 ==> r.len() == n + 3 && r[2 + n] == 0
        }),
{
    reveal_with_fuel(le, 2);
    lemma_le_len(sig.len(), 1);
    let r = encode_signature((sig, key));
    let n = sig.len() as int;
    assert(r.subrange(2, 2 + n) =~= sig);
    if key.len() == 33 {
        assert(r.skip(3 + n) =~= key);
    }
}

/// There has to be one pair of a signature and a key for each coin.
pub proof fn law_one_signature_per_coin(p: Pstx, inputs: Seq<(Seq<u8>, Seq<u8>)>)
    ensures
        serialized(p, inputs) is Ok <==> inputs.len() == p.coins.len(),
{
}

} // verus!
