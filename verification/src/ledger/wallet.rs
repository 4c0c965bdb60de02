//! What the wallet does with the device: fetch an account key, sign a message,
//! sign a transaction, and over which transport.

use crate::hexes::{hex_bytes, hex_decode, hex_encode, hex_error_text, hex_text, law_hex_reads_back};
use crate::ledger::apdu::{
    add_input_data, law_input_layout, law_path_layout, meta_views, path_bytes, SignInput, SignMeta,
};
use crate::ledger::base64::{base64, base64_encode};
use crate::ledger::device::{
    law_key_reply, message_plan, message_refused, message_signature_in, pubkey_in, pubkey_plan, signing_gave,
    Ledger, LedgerTransport,
};
use crate::ledger::keys::{address, assemble_xpub, encode_bech32_address, xpub};
use crate::ledger::path::{harden, hardened, parse_path, path_in};
use crate::ledger::pstx::{
    encode_pstx, encode_signature, head_len, law_pstx_is_written_as_read, law_pstx_reads_back, pair_view,
    pair_views, pstx_at, pstx_in, serialized, Coin, Pstx, PstxV1,
};
use crate::ledger::reader::all_encoded;
use crate::ledger::session::{
    conclusion, exchanges, last_reply, law_session_commands, law_session_signs_every_input, law_signatures_are_the_replies, plan,
    sign_steps, signed_views, went_through, Exchange, Reply, SignResult, Signed,
};
use crate::ledger::tx::{law_input_sizes, law_tx_counts, tx_in, Tx, TxInput};
use crate::text::{
    begins_with, concat2, decimal, push_decimal, same_text, slice_text_of, starts_with,
    text_outcome, trim, trimmed,
};
use crate::text_map::TextMap;
use crate::wire::{be_value, le, le_value};
use vstd::prelude::*;
use vstd::utf8::encode_utf8;

verus! {

/// The coin type of the derivation paths.
pub const SLIP44_FBC: u32 = 14159;

/// The path of an account: `m/44'/14159'/account'`.
pub open spec fn account_path(account: u32) -> Seq<u32> {
    seq![hardened(44), hardened(SLIP44_FBC), hardened(account)]
}

/// What is made of the reply with an account's key.
pub open spec fn xpub_in_reply(account: u32, reply: Reply) -> Result<Seq<char>, Seq<char>> {
    match reply {
        Err(e) => Err(e),
        Ok(data) => match pubkey_in(data) {
            Err(e) => Err(e),
            Ok((pubkey, chain_code, _)) => xpub(account, pubkey, chain_code),
        },
    }
}

/// Fetches the extended public key of an account.
pub fn fetch_xpub<T: LedgerTransport>(ledger: &mut Ledger<T>, account: u32) -> (r: Result<
    String,
    String,
>)
    ensures
        exists|replies: Seq<Reply>|
            {
                &&& #[trigger] went_through(
                    pubkey_plan(account_path(account), false),
                    old(ledger).sent(),
                    final(ledger).sent(),
                    replies,
                )
                &&& text_outcome(r) == xpub_in_reply(
                    account,
                    last_reply(pubkey_plan(account_path(account), false), replies),
                )
            },
{
    let mut path: Vec<u32> = Vec::new();
    path.push(harden(44));
    path.push(harden(SLIP44_FBC));
    path.push(harden(account));
    assert(path@ =~= account_path(account));
    match ledger.get_pubkey(&path, false) {
        Err(e) => Err(e),
        Ok(key) => assemble_xpub(account, &key.0, &key.1),
    }
}

/// Signs a message and gives the signature in Base64.
pub fn sign_message_text<T: LedgerTransport>(
    ledger: &mut Ledger<T>,
    path: &[u32],
    message: &[u8],
) -> (r: Result<String, String>)
    ensures
        match message_refused(path@, message@) {
            Some(why) => {
                &&& final(ledger).sent() == old(ledger).sent()
                &&& text_outcome(r) == Err::<Seq<char>, Seq<char>>(why)
            },
            None => exists|replies: Seq<Reply>|
                {
                    &&& #[trigger] went_through(
                        message_plan(path@, message@),
                        old(ledger).sent(),
                        final(ledger).sent(),
                        replies,
                    )
                    &&& text_outcome(r) == match last_reply(
                        message_plan(path@, message@),
                        replies,
                    ) {
                        Err(e) => Err(e),
                        Ok(data) => match message_signature_in(data) {
                            Err(e) => Err(e),
                            Ok(sig) => Ok(base64(sig)),
                        },
                    }
                },
        },
{
    match ledger.sign_message(path, message) {
        Err(e) => Err(e),
        Ok(sig) => Ok(base64_encode(&sig)),
    }
}

// ── Signing transactions ──

/// The partially signed transaction that a hexadecimal text holds.
pub open spec fn pstx_in_hex(text: Seq<char>) -> Result<Pstx, Seq<char>> {
    match hex_bytes(trim(text)) {
        None => Err("hex decode: "@ + hex_error_text(trim(text))),
        Some(b) => pstx_in(b),
    }
}

/// What the device is told of the `i`-th coin: the path of its address, its
/// value, and that all of the transaction is signed.
pub open spec fn coin_meta(
    coin: Coin,
    i: nat,
    network: Seq<char>,
    paths: Map<Seq<char>, String>,
) -> Result<SignMeta, Seq<char>> {
    match address(network, coin.address_version as u8, coin.address_hash) {
        Err(e) => Err(e),
        Ok(addr) => if !paths.dom().contains(addr) {
            Err("no derivation path for input "@ + decimal(i) + " address "@ + addr)
        } else {
            match path_in(paths[addr]@) {
                Err(e) => Err(e),
                Ok(path) => Ok(SignMeta { path, value: coin.value as u64, sighash_type: 1 }),
            }
        },
    }
}

/// What the device is told of the first `n` coins, or the first error.
pub open spec fn coin_metas(
    coins: Seq<Coin>,
    n: nat,
    network: Seq<char>,
    paths: Map<Seq<char>, String>,
) -> Result<Seq<SignMeta>, Seq<char>>
    decreases n,
{
    if n == 0 {
        Ok(Seq::empty())
    } else {
        match coin_metas(coins, (n - 1) as nat, network, paths) {
            Err(e) => Err(e),
            Ok(v) => match coin_meta(coins[n - 1], (n - 1) as nat, network, paths) {
                Err(e) => Err(e),
                Ok(m) => Ok(v.push(m)),
            },
        }
    }
}

proof fn lemma_coin_metas_error(
    coins: Seq<Coin>,
    i: nat,
    n: nat,
    network: Seq<char>,
    paths: Map<Seq<char>, String>,
)
    requires
        i <= n,
        coin_metas(coins, i, network, paths) is Err,
    ensures
        coin_metas(coins, n, network, paths) == coin_metas(coins, i, network, paths),
    decreases n,
{
    if i < n {
        lemma_coin_metas_error(coins, i, (n - 1) as nat, network, paths);
    }
}

/// Whether the device is told of a coin what is true of it: the path that the
/// map gives for the address of its own program on the network, its own value,
/// and that all of the transaction is signed.
pub open spec fn tells_of(
    meta: SignMeta,
    coin: Coin,
    network: Seq<char>,
    paths: Map<Seq<char>, String>,
) -> bool {
    &&& address(network, coin.address_version as u8, coin.address_hash) matches Ok(addr)
    &&& paths.dom().contains(addr)
    &&& path_in(paths[addr]@) == Ok::<Seq<u32>, Seq<char>>(meta.path)
    &&& meta.value == coin.value as u64
    &&& meta.sighash_type == 1
}

/// Where the device is told anything, it is told of each input what is true of
/// the coin that the input spends, and of no other: the `i`-th entry has the
/// path for the address of the `i`-th coin, and its value.
pub proof fn law_each_input_is_told_its_own_coin(
    coins: Seq<Coin>,
    network: Seq<char>,
    paths: Map<Seq<char>, String>,
    metas: Seq<SignMeta>,
    i: int,
)
    requires
        coin_metas(coins, coins.len(), network, paths) == Ok::<Seq<SignMeta>, Seq<char>>(metas),
        0 <= i < coins.len(),
    ensures
        metas.len() == coins.len(),
        tells_of(metas[i], coins[i], network, paths),
{
    lemma_told(coins, coins.len(), network, paths);
}

/// Two coins at different addresses, for which the map gives different paths,
/// are signed for at different paths.
pub proof fn law_coins_apart_are_signed_apart(
    coins: Seq<Coin>,
    network: Seq<char>,
    paths: Map<Seq<char>, String>,
    metas: Seq<SignMeta>,
    i: int,
    j: int,
)
    requires
        coin_metas(coins, coins.len(), network, paths) == Ok::<Seq<SignMeta>, Seq<char>>(metas),
        0 <= i < coins.len(),
        0 <= j < coins.len(),
        ({
            let a = address(network, coins[i].address_version as u8, coins[i].address_hash);
            let b = address(network, coins[j].address_version as u8, coins[j].address_hash);
            a is Ok && b is Ok ==> path_in(paths[a->Ok_0]@) != path_in(paths[b->Ok_0]@)
        }),
    ensures
        metas[i].path != metas[j].path,
{
    law_each_input_is_told_its_own_coin(coins, network, paths, metas, i);
    law_each_input_is_told_its_own_coin(coins, network, paths, metas, j);
}

/// The device is told of all coins as soon as something true can be told of
/// each of them.
pub proof fn law_known_coins_are_told(
    coins: Seq<Coin>,
    network: Seq<char>,
    paths: Map<Seq<char>, String>,
    metas: Seq<SignMeta>,
)
    requires
        metas.len() == coins.len(),
        forall|i: int|
            0 <= i < coins.len() ==> tells_of(#[trigger] metas[i], coins[i], network, paths),
    ensures
        coin_metas(coins, coins.len(), network, paths) == Ok::<Seq<SignMeta>, Seq<char>>(metas),
{
    lemma_known(coins, coins.len(), network, paths, metas);
    assert(metas.take(metas.len() as int) =~= metas);
}

/// The first coin whose address has no path is named, by its index and by its
/// address.
pub proof fn law_unknown_coin_is_named(
    coins: Seq<Coin>,
    network: Seq<char>,
    paths: Map<Seq<char>, String>,
    metas: Seq<SignMeta>,
    k: int,
    addr: Seq<char>,
)
    requires
        metas.len() == coins.len(),
        0 <= k < coins.len(),
        forall|i: int| 0 <= i < k ==> tells_of(#[trigger] metas[i], coins[i], network, paths),
        address(network, coins[k].address_version as u8, coins[k].address_hash) == Ok::<
            Seq<char>,
            Seq<char>,
        >(addr),
        !paths.dom().contains(addr),
    ensures
        coin_metas(coins, coins.len(), network, paths) == Err::<Seq<SignMeta>, Seq<char>>(
            "no derivation path for input "@ + decimal(k as nat) + " address "@ + addr,
        ),
{
    lemma_known(coins, k as nat, network, paths, metas);
    lemma_coin_metas_error(coins, (k + 1) as nat, coins.len(), network, paths);
}

proof fn lemma_told(
    coins: Seq<Coin>,
    n: nat,
    network: Seq<char>,
    paths: Map<Seq<char>, String>,
)
    requires
        n <= coins.len(),
    ensures
        coin_metas(coins, n, network, paths) matches Ok(metas) ==> {
            &&& metas.len() == n
            &&& forall|i: int| 0 <= i < n ==> tells_of(#[trigger] metas[i], coins[i], network, paths)
        },
    decreases n,
{
    if n > 0 {
        lemma_told(coins, (n - 1) as nat, network, paths);
        if let Ok(metas) = coin_metas(coins, n, network, paths) {
            let less = coin_metas(coins, (n - 1) as nat, network, paths)->Ok_0;
            assert forall|i: int| 0 <= i < n implies tells_of(
                #[trigger] metas[i],
                coins[i],
                network,
                paths,
            ) by {
                if i < n - 1 {
                    assert(metas[i] == less[i]);
                }
            }
        }
    }
}

proof fn lemma_known(
    coins: Seq<Coin>,
    n: nat,
    network: Seq<char>,
    paths: Map<Seq<char>, String>,
    metas: Seq<SignMeta>,
)
    requires
        n <= coins.len() == metas.len(),
        forall|i: int| 0 <= i < n ==> tells_of(#[trigger] metas[i], coins[i], network, paths),
    ensures
        coin_metas(coins, n, network, paths) == Ok::<Seq<SignMeta>, Seq<char>>(
            metas.take(n as int),
        ),
    decreases n,
{
    if n > 0 {
        lemma_known(coins, (n - 1) as nat, network, paths, metas);
        assert(tells_of(metas[n - 1], coins[n - 1], network, paths));
        assert(metas.take(n as int) =~= metas.take(n - 1).push(metas[n - 1]));
    } else {
        assert(metas.take(0) =~= Seq::empty());
    }
}

/// A signature with its sighash byte, and the key.
pub open spec fn signature_pair(s: Signed) -> (Seq<u8>, Seq<u8>) {
    (s.sig.push(s.sighash_byte), s.pubkey)
}

pub open spec fn signature_pairs(v: Seq<Signed>) -> Seq<(Seq<u8>, Seq<u8>)> {
    Seq::new(v.len(), |i: int| signature_pair(v[i]))
}

/// The signed transaction in hexadecimal.
pub open spec fn signed_hex(pstx: Pstx, sigs: Seq<Signed>) -> Result<Seq<char>, Seq<char>> {
    match serialized(pstx, signature_pairs(sigs)) {
        Err(e) => Err(e),
        Ok(b) => Ok(hex_text(b)),
    }
}

/// The signed transaction still holds the same transaction and coins.
pub proof fn law_signing_keeps_transaction(pstx: Pstx, sigs: Seq<Signed>)
    requires
        pstx.tx.len() <= u32::MAX,
        pstx.coins.len() <= u16::MAX,
        forall|i: int| 0 <= i < pstx.coins.len() ==> (#[trigger] pstx.coins[i]).wf(),
        sigs.len() == pstx.coins.len(),
        encode_pstx(pstx, signature_pairs(sigs)).len() <= usize::MAX,
    ensures
        signed_hex(pstx, sigs) matches Ok(text) && hex_bytes(text) matches Some(b) && pstx_in(b)
            == Ok::<Pstx, Seq<char>>(pstx),
{
    law_pstx_reads_back(pstx, signature_pairs(sigs));
    law_hex_reads_back(encode_pstx(pstx, signature_pairs(sigs)));
}

/// What is given back for a partially signed transaction in hexadecimal is, up
/// to the signatures, the same bytes that were given.
pub proof fn law_signing_keeps_bytes(text: Seq<char>, sigs: Seq<Signed>)
    requires
        pstx_in_hex(text) is Ok,
        sigs.len() == pstx_in_hex(text)->Ok_0.coins.len(),
    ensures
        ({
            let given = hex_bytes(trim(text))->Some_0;
            let end = pstx_at(given)->Ok_0.1;
            &&& end <= given.len()
            &&& signed_hex(pstx_in_hex(text)->Ok_0, sigs) matches Ok(out) && hex_bytes(out) == Some(
                given.take(end as int) + all_encoded(
                    |i: (Seq<u8>, Seq<u8>)| encode_signature(i),
                    signature_pairs(sigs),
                ),
            )
        }),
{
    let given = hex_bytes(trim(text))->Some_0;
    law_pstx_is_written_as_read(given, signature_pairs(sigs));
    law_hex_reads_back(encode_pstx(pstx_in_hex(text)->Ok_0, signature_pairs(sigs)));
}

/// The record of a signature: what the device replied with, without the length
/// of the key, and with the lengths in front that the format has.
pub open spec fn signature_record(reply: Seq<u8>) -> Seq<u8> {
    seq![0u8, 65u8] + reply.subrange(0, 65) + seq![33u8] + reply.subrange(66, 99)
}

/// Whether the `i`-th of `n` records from `k` on is what the device replied when
/// it was asked to sign the `i`-th input, which it was in the last exchanges.
pub open spec fn is_signed_at(
    bytes: Seq<u8>,
    k: int,
    sent: Seq<Exchange>,
    n: nat,
    i: int,
) -> bool {
    let e = sent[sent.len() - n + i];
    &&& e.apdu == sign_steps(n)[i].apdu
    &&& e.reply matches Ok(data) && data.len() == 99 && bytes.subrange(
        k + 101 * i,
        k + 101 * i + 101,
    ) == signature_record(data)
}

/// What the whole command gives for a partially signed transaction in
/// hexadecimal, where signing succeeds: the bytes that were given, up to the
/// signatures, and then one record for each coin, with what the device replied
/// when it was asked to sign that input.
pub proof fn law_signing_command(
    text: Seq<char>,
    network: Seq<char>,
    paths: Map<Seq<char>, String>,
    before: Seq<Exchange>,
    after: Seq<Exchange>,
    came: Result<Vec<SignResult>, String>,
)
    requires
        pstx_in_hex(text) matches Ok(p) && coin_metas(
            p.coins,
            p.coins.len(),
            network,
            paths,
        ) matches Ok(metas) && signing_gave(before, after, p.tx, metas, came),
        came is Ok,
    ensures
        ({
            let given = hex_bytes(trim(text))->Some_0;
            let p = pstx_in_hex(text)->Ok_0;
            let n = p.coins.len();
            let k = head_len(p) as int;
            &&& k <= given.len()
            &&& after.len() >= before.len() + n
            &&& signed_hex(p, signed_views(came->Ok_0@)) matches Ok(out) && hex_bytes(
                out,
            ) matches Some(b) && {
                &&& out == hex_text(b)
                &&& b.len() == k + 101 * n
                &&& b.take(k) == given.take(k)
                &&& forall|i: int| 0 <= i < n ==> #[trigger] is_signed_at(b, k, after, n, i)
            }
        }),
{
    let given = hex_bytes(trim(text))->Some_0;
    let p = pstx_in_hex(text)->Ok_0;
    let n = p.coins.len();
    let k = head_len(p) as int;
    let metas = coin_metas(p.coins, n, network, paths)->Ok_0;
    lemma_coin_metas_len(p.coins, n, network, paths);
    let tx = tx_in(p.tx)->Ok_0;
    let pl = plan(tx, metas);
    let replies = choose|replies: Seq<Reply>|
        {
            &&& #[trigger] went_through(pl, before, after, replies)
            &&& match conclusion(pl, replies) {
                Ok(sigs) => came matches Ok(v) && signed_views(v@) == sigs,
                Err(e) => came matches Err(x) && x@ == e,
            }
        };
    let sigs = signed_views(came->Ok_0@);
    assert(conclusion(pl, replies) == Ok::<Seq<Signed>, Seq<char>>(sigs));
    law_session_signs_every_input(tx, metas, replies);
    let pairs = signature_pairs(sigs);
    law_signing_keeps_bytes(text, sigs);
    law_pstx_is_written_as_read(given, pairs);
    let sign = |i: (Seq<u8>, Seq<u8>)| encode_signature(i);
    let records = all_encoded(sign, pairs);
    let b = encode_pstx(p, pairs);
    law_hex_reads_back(b);
    assert forall|i: int| 0 <= i < n implies (#[trigger] sign(pairs[i])).len() == 101 by {
        lemma_record(tx, metas, before, after, replies, i);
    }
    lemma_records(sign, pairs);
    assert(b == given.take(k) + records);
    assert(b.take(k) =~= given.take(k));
    assert forall|i: int| 0 <= i < n implies #[trigger] is_signed_at(b, k, after, n, i) by {
        lemma_record(tx, metas, before, after, replies, i);
        assert(records.subrange(101 * i, 101 * i + 101) == sign(pairs[i]));
        assert(b.subrange(k + 101 * i, k + 101 * i + 101) =~= records.subrange(
            101 * i,
            101 * i + 101,
        ));
    }
    if n > 0 {
        lemma_record(tx, metas, before, after, replies, 0);
    }
}

/// The record of a signature holds what the device replied.
proof fn lemma_record(
    tx: Tx,
    metas: Seq<SignMeta>,
    before: Seq<Exchange>,
    after: Seq<Exchange>,
    replies: Seq<Reply>,
    i: int,
)
    requires
        went_through(plan(tx, metas), before, after, replies),
        conclusion(plan(tx, metas), replies) is Ok,
        0 <= i < metas.len(),
    ensures
        after.len() >= before.len() + metas.len(),
        ({
            let e = after[after.len() - metas.len() + i];
            let record = encode_signature(
                signature_pairs(conclusion(plan(tx, metas), replies)->Ok_0)[i],
            );
            &&& e.apdu == sign_steps(metas.len())[i].apdu
            &&& record.len() == 101
            &&& e.reply matches Ok(data) && data.len() == 99 && record == signature_record(data)
        }),
{
    law_signatures_are_the_replies(tx, metas, before, after, replies, i);
    let data = after[after.len() - metas.len() + i].reply->Ok_0;
    let s = conclusion(plan(tx, metas), replies)->Ok_0[i];
    let pair = signature_pair(s);
    assert(signature_pairs(conclusion(plan(tx, metas), replies)->Ok_0)[i] == pair);
    assert(pair.0 =~= data.subrange(0, 65));
    assert(le(65, 1) =~= seq![65u8]) by {
        reveal_with_fuel(le, 2);
    }
    assert(encode_signature(pair) =~= signature_record(data));
}

/// Records of 101 bytes each stand one behind the other.
proof fn lemma_records(
    sign: spec_fn((Seq<u8>, Seq<u8>)) -> Seq<u8>,
    pairs: Seq<(Seq<u8>, Seq<u8>)>,
)
    requires
        forall|i: int| 0 <= i < pairs.len() ==> (#[trigger] sign(pairs[i])).len() == 101,
    ensures
        all_encoded(sign, pairs).len() == 101 * pairs.len(),
        forall|i: int|
            0 <= i < pairs.len() ==> #[trigger] all_encoded(sign, pairs).subrange(
                101 * i,
                101 * i + 101,
            ) == sign(pairs[i]),
    decreases pairs.len(),
{
    if pairs.len() > 0 {
        let front = pairs.drop_last();
        assert forall|i: int| 0 <= i < front.len() implies (#[trigger] sign(front[i])).len()
            == 101 by {
            assert(front[i] == pairs[i]);
        }
        lemma_records(sign, front);
        assert(sign(pairs[pairs.len() - 1]).len() == 101);
        assert forall|i: int| 0 <= i < pairs.len() implies #[trigger] all_encoded(
            sign,
            pairs,
        ).subrange(101 * i, 101 * i + 101) == sign(pairs[i]) by {
            if i < front.len() {
                assert(front[i] == pairs[i]);
                assert(all_encoded(sign, pairs).subrange(101 * i, 101 * i + 101) =~= all_encoded(
                    sign,
                    front,
                ).subrange(101 * i, 101 * i + 101));
            } else {
                assert(all_encoded(sign, pairs).subrange(101 * i, 101 * i + 101) =~= sign(
                    pairs[i],
                ));
            }
        }
    }
}

proof fn lemma_coin_metas_len(
    coins: Seq<Coin>,
    n: nat,
    network: Seq<char>,
    paths: Map<Seq<char>, String>,
)
    ensures
        coin_metas(coins, n, network, paths) matches Ok(v) ==> v.len() == n,
    decreases n,
{
    if n > 0 {
        lemma_coin_metas_len(coins, (n - 1) as nat, network, paths);
    }
}

/// Reads a partially signed transaction from hexadecimal.
pub fn decode_pstx(pstx_hex: &str) -> (r: Result<PstxV1, String>)
    ensures
        match pstx_in_hex(pstx_hex@) {
            Ok(p) => r matches Ok(v) && v@ == p,
            Err(e) => r matches Err(t) && t@ == e,
        },
{
    match hex_decode(trimmed(pstx_hex).as_str()) {
        Err(e) => Err(concat2("hex decode: ", e.as_str())),
        Ok(b) => PstxV1::parse(&b),
    }
}

/// What the device is told of each coin.
pub fn sign_inputs(pstx: &PstxV1, network: &str, address_to_path: &TextMap<String>) -> (r: Result<
    Vec<SignInput>,
    String,
>)
    ensures
        match coin_metas(pstx@.coins, pstx@.coins.len(), network@, address_to_path@) {
            Ok(m) => r matches Ok(v) && meta_views(v@) == m,
            Err(e) => r matches Err(t) && t@ == e,
        },
        r matches Ok(v) ==> v@.len() == pstx@.coins.len() && forall|i: int|
            0 <= i < v@.len() ==> tells_of(
                (#[trigger] v@[i])@,
                pstx@.coins[i],
                network@,
                address_to_path@,
            ),
{
    let ghost coins = pstx@.coins;
    let ghost paths = address_to_path@;
    let mut inputs: Vec<SignInput> = Vec::new();
    let mut i: usize = 0;
    assert(meta_views(inputs@) =~= Seq::empty());
    while i < pstx.coins.len()
        invariant
            i <= pstx.coins@.len(),
            coins == pstx@.coins,
            paths == address_to_path@,
            coin_metas(coins, i as nat, network@, paths) == Ok::<Seq<SignMeta>, Seq<char>>(
                meta_views(inputs@),
            ),
        decreases pstx.coins@.len() - i,
    {
        let coin = &pstx.coins[i];
        proof {
            assert(coins[i as int] == coin@);
            if coin_meta(coin@, i as nat, network@, paths) is Err {
                lemma_coin_metas_error(coins, (i + 1) as nat, coins.len(), network@, paths);
            }
        }
        let addr = match encode_bech32_address(network, coin.address_version, &coin.address_hash) {
            Ok(a) => a,
            Err(e) => return Err(e),
        };
        let path_text = match address_to_path.get(addr.as_str()) {
            Some(p) => p,
            None => {
                let mut text = "no derivation path for input ".to_owned();
                push_decimal(&mut text, i as u64);
                text.append(" address ");
                text.append(addr.as_str());
                return Err(text);
            },
        };
        let path = match parse_path(path_text.as_str()) {
            Ok(p) => p,
            Err(e) => return Err(e),
        };
        let input = SignInput { path, value: coin.value, sighash_type: 0x01 };
        let ghost before = inputs@;
        inputs.push(input);
        assert(meta_views(inputs@) =~= meta_views(before).push(input@));
        i = i + 1;
    }
    proof {
        lemma_told(coins, coins.len(), network@, paths);
        assert forall|k: int| 0 <= k < inputs@.len() implies tells_of(
            (#[trigger] inputs@[k])@,
            coins[k],
            network@,
            paths,
        ) by {
            assert(meta_views(inputs@)[k] == inputs@[k]@);
        }
    }
    Ok(inputs)
}

/// Puts the signatures into the transaction and writes it in hexadecimal.
pub fn finish_pstx(pstx: &PstxV1, results: Vec<SignResult>) -> (r: Result<String, String>)
    ensures
        text_outcome(r) == signed_hex(pstx@, signed_views(results@)),
{
    let mut pairs: Vec<(Vec<u8>, Vec<u8>)> = Vec::new();
    let ghost sigs = signed_views(results@);
    let mut i: usize = 0;
    assert(pair_views(pairs@) =~= signature_pairs(sigs.take(0)));
    while i < results.len()
        invariant
            i <= results@.len(),
            sigs == signed_views(results@),
            pair_views(pairs@) == signature_pairs(sigs.take(i as int)),
        decreases results@.len() - i,
    {
        let mut sig = crate::wire::copy_range(&results[i].sig, 0, results[i].sig.len());
        assert(sig@ =~= results@[i as int].sig@);
        sig.push(results[i].sighash_byte);
        let pubkey = crate::wire::copy_range(&results[i].pubkey, 0, results[i].pubkey.len());
        assert(pubkey@ =~= results@[i as int].pubkey@);
        let ghost before = pairs@;
        let ghost pair = (sig, pubkey);
        pairs.push((sig, pubkey));
        proof {
            assert(pair_view(pair) == signature_pair(sigs[i as int]));
            assert(pair_views(pairs@) =~= pair_views(before).push(pair_view(pair)));
            assert(signature_pairs(sigs.take(i + 1)) =~= signature_pairs(sigs.take(i as int)).push(
                signature_pair(sigs[i as int]),
            ));
        }
        i = i + 1;
    }
    assert(sigs.take(i as int) =~= sigs);
    match pstx.serialize_p2wpkh(&pairs) {
        Ok(b) => Ok(hex_encode(&b)),
        Err(e) => Err(e),
    }
}

/// Has all inputs of a partially signed transaction signed in one session.
pub fn sign_parsed_pstx<T: LedgerTransport>(
    pstx: &PstxV1,
    network: &str,
    address_to_path: &TextMap<String>,
    ledger: &mut Ledger<T>,
) -> (r: Result<String, String>)
    ensures
        match coin_metas(pstx@.coins, pstx@.coins.len(), network@, address_to_path@) {
            Err(e) => {
                &&& final(ledger).sent() == old(ledger).sent()
                &&& text_outcome(r) == Err::<Seq<char>, Seq<char>>(e)
            },
            Ok(metas) => exists|came: Result<Vec<SignResult>, String>|
                {
                    &&& #[trigger] signing_gave(
                        old(ledger).sent(),
                        final(ledger).sent(),
                        pstx@.tx,
                        metas,
                        came,
                    )
                    &&& text_outcome(r) == match came {
                        Err(e) => Err(e@),
                        Ok(v) => signed_hex(pstx@, signed_views(v@)),
                    }
                },
        },
{
    let inputs = match sign_inputs(pstx, network, address_to_path) {
        Ok(v) => v,
        Err(e) => return Err(e),
    };
    let came = ledger.sign_pstx(&pstx.tx_bytes, &inputs);
    assert(signing_gave(
        old(ledger).sent(),
        ledger.sent(),
        pstx@.tx,
        meta_views(inputs@),
        came,
    ));
    match came {
        Err(e) => Err(e),
        Ok(results) => finish_pstx(pstx, results),
    }
}

// ── Which transport ──

/// What is asked of the device.
pub enum Job {
    Xpub { account: u32 },
    SignMessage { path: Vec<u32>, message: Vec<u8> },
    SignPstx { pstx_hex: String, network: String },
}

pub enum JobView {
    Xpub { account: u32 },
    SignMessage { path: Seq<u32>, message: Seq<u8> },
    SignPstx { pstx_hex: Seq<char>, network: Seq<char> },
}

impl View for Job {
    type V = JobView;

    open spec fn view(&self) -> JobView {
        match self {
            Job::Xpub { account } => JobView::Xpub { account: *account },
            Job::SignMessage { path, message } => JobView::SignMessage {
                path: path@,
                message: message@,
            },
            Job::SignPstx { pstx_hex, network } => JobView::SignPstx {
                pstx_hex: pstx_hex@,
                network: network@,
            },
        }
    }
}

/// What to do next for a command: try the job over USB, do it over Bluetooth
/// with the device of that id, or answer.
pub enum Step {
    Usb(Job),
    Ble(String, Job),
    Done(Result<String, String>),
}

pub enum StepView {
    Usb(JobView),
    Ble(Seq<char>, JobView),
    Done(Result<Seq<char>, Seq<char>>),
}

impl View for Step {
    type V = StepView;

    open spec fn view(&self) -> StepView {
        match self {
            Step::Usb(job) => StepView::Usb(job@),
            Step::Ble(id, job) => StepView::Ble(id@, job@),
            Step::Done(r) => StepView::Done(text_outcome(*r)),
        }
    }
}

/// Whether an error says that no device is plugged in.
pub open spec fn no_usb_device(err: Seq<char>) -> bool {
    begins_with(err, "no Ledger device found"@)
}

/// Over Bluetooth, a device id is needed.
pub open spec fn over_ble(id: Seq<char>, job: JobView) -> StepView {
    if id.len() == 0 {
        StepView::Done(Err("BLE transport requires a deviceId"@))
    } else {
        StepView::Ble(id, job)
    }
}

/// How a command is carried out. `usb` is what came of it over USB, once that
/// was tried. `"usb"` and `"ble"` name a transport; anything else means USB
/// first and, if no device is plugged in and a device id is known, Bluetooth.
/// Without USB (`desktop` is false) everything goes over Bluetooth.
pub open spec fn routed(
    desktop: bool,
    transport: Seq<char>,
    device_id: Option<Seq<char>>,
    usb: Option<Result<Seq<char>, Seq<char>>>,
    job: JobView,
) -> StepView {
    let id = match device_id {
        Some(t) => t,
        None => Seq::empty(),
    };
    if !desktop {
        if transport == "usb"@ {
            StepView::Done(Err("USB Ledger is not supported on this platform"@))
        } else {
            over_ble(id, job)
        }
    } else if transport == "ble"@ {
        over_ble(id, job)
    } else {
        match usb {
            None => StepView::Usb(job),
            Some(Ok(v)) => StepView::Done(Ok(v)),
            Some(Err(e)) => if transport != "usb"@ && no_usb_device(e) && id.len() > 0 {
                StepView::Ble(id, job)
            } else {
                StepView::Done(Err(e))
            },
        }
    }
}

/// What came of trying USB.
pub open spec fn tried_view(usb: Option<Result<String, String>>) -> Option<
    Result<Seq<char>, Seq<char>>,
> {
    match usb {
        None => None,
        Some(r) => Some(text_outcome(r)),
    }
}

/// Whether an error says that no device is plugged in.
pub fn is_no_usb_device(err: &str) -> (r: bool)
    ensures
        r == no_usb_device(err@),
{
    starts_with(err, "no Ledger device found")
}

fn route(
    desktop: bool,
    transport: &str,
    device_id: Option<&str>,
    usb: Option<Result<String, String>>,
    job: Job,
) -> (r: Step)
    ensures
        r@ == routed(desktop, transport@, slice_text_of(device_id), tried_view(usb), job@),
{
    proof {
        reveal_strlit("");
        reveal_strlit("ble");
        reveal_strlit("usb");
    }
    let id: &str = match device_id {
        Some(t) => t,
        None => "",
    };
    assert(device_id is None ==> id@ =~= Seq::empty());
    let named_usb = same_text(transport, "usb");
    if !desktop && named_usb {
        return Step::Done(Err("USB Ledger is not supported on this platform".to_owned()));
    }
    if !desktop || same_text(transport, "ble") {
        if id.is_empty() {
            return Step::Done(Err("BLE transport requires a deviceId".to_owned()));
        }
        return Step::Ble(id.to_owned(), job);
    }
    match usb {
        None => Step::Usb(job),
        Some(Ok(v)) => Step::Done(Ok(v)),
        Some(Err(e)) => if !named_usb && is_no_usb_device(e.as_str()) && !id.is_empty() {
            Step::Ble(id.to_owned(), job)
        } else {
            Step::Done(Err(e))
        },
    }
}

/// How to get the extended public key of an account.
pub fn cmd_get_account_xpub(
    account: u32,
    transport: &str,
    device_id: Option<&str>,
    desktop: bool,
    usb: Option<Result<String, String>>,
) -> (r: Step)
    ensures
        r@ == routed(
            desktop,
            transport@,
            slice_text_of(device_id),
            tried_view(usb),
            JobView::Xpub { account },
        ),
{
    route(desktop, transport, device_id, usb, Job::Xpub { account })
}

/// How to have a message signed with the key at a path.
pub fn cmd_sign_message(
    path: &str,
    message: &str,
    transport: &str,
    device_id: Option<&str>,
    desktop: bool,
    usb: Option<Result<String, String>>,
) -> (r: Step)
    ensures
        match path_in(path@) {
            Err(e) => r@ == StepView::Done(Err(e)),
            Ok(words) => r@ == routed(
                desktop,
                transport@,
                slice_text_of(device_id),
                tried_view(usb),
                JobView::SignMessage { path: words, message: encode_utf8(message@) },
            ),
        },
{
    let words = match parse_path(path) {
        Ok(w) => w,
        Err(e) => return Step::Done(Err(e)),
    };
    let bytes = vstd::slice::slice_to_vec(message.as_bytes());
    route(desktop, transport, device_id, usb, Job::SignMessage { path: words, message: bytes })
}

/// How to have a partially signed transaction signed.
pub fn cmd_sign_pstx(
    pstx_hex: &str,
    network: &str,
    transport: &str,
    device_id: Option<&str>,
    desktop: bool,
    usb: Option<Result<String, String>>,
) -> (r: Step)
    ensures
        r@ == routed(
            desktop,
            transport@,
            slice_text_of(device_id),
            tried_view(usb),
            JobView::SignPstx { pstx_hex: pstx_hex@, network: network@ },
        ),
{
    route(
        desktop,
        transport,
        device_id,
        usb,
        Job::SignPstx { pstx_hex: pstx_hex.to_owned(), network: network.to_owned() },
    )
}

/// Once USB was tried, a command is not sent over USB again.
pub proof fn law_usb_is_tried_once(
    desktop: bool,
    transport: Seq<char>,
    device_id: Option<Seq<char>>,
    usb: Result<Seq<char>, Seq<char>>,
    job: JobView,
)
    ensures
        routed(desktop, transport, device_id, Some(usb), job) !is Usb,
{
}

/// A command goes where it was sent: over USB if that was named or nothing was
/// tried yet, over Bluetooth to the very device that was named, and the job is
/// never changed.
pub proof fn law_commands_go_where_sent(
    transport: Seq<char>,
    id: Seq<char>,
    said: Seq<char>,
    job: JobView,
)
    ensures
        routed(true, "usb"@, Some(id), None, job) == StepView::Usb(job),
        id.len() > 0 ==> routed(true, "ble"@, Some(id), None, job) == StepView::Ble(id, job),
        id.len() > 0 && transport != "usb"@ ==> routed(false, transport, Some(id), None, job)
            == StepView::Ble(id, job),
        transport != "usb"@ && transport != "ble"@ ==> routed(true, transport, None, None, job)
            == StepView::Usb(job),
        transport != "usb"@ && transport != "ble"@ && id.len() > 0 ==> routed(
            true,
            transport,
            Some(id),
            Some(Err("no Ledger device found"@ + said)),
            job,
        ) == StepView::Ble(id, job),
        routed(true, "usb"@, Some(id), Some(Err(said)), job) == StepView::Done(Err(said)),
        !begins_with(said, "no Ledger device found"@) && transport != "ble"@ ==> routed(
            true,
            transport,
            Some(id),
            Some(Err(said)),
            job,
        ) == StepView::Done(Err(said)),
        transport != "ble"@ ==> routed(true, transport, Some(id), Some(Ok(said)), job)
            == StepView::Done(Ok(said)),
        routed(false, "usb"@, Some(id), None, job) is Done,
        routed(false, "usb"@, Some(id), None, job)->Done_0 is Err,
        transport != "usb"@ ==> routed(false, transport, None, None, job) is Done && routed(
            false,
            transport,
            None,
            None,
            job,
        )->Done_0 is Err,
{
    reveal_strlit("usb");
    reveal_strlit("ble");
    assert("usb"@[0] != "ble"@[0]);
    let e = "no Ledger device found"@ + said;
    let p = "no Ledger device found"@;
    assert(e.subrange(0, p.len() as int) =~= p);
}

/// The path of an account has three hardened words: the purpose 44, the coin
/// type 14159 and the number of the account.
pub proof fn law_account_path(account: u32)
    requires
        account < 0x8000_0000,
    ensures
        account_path(account).len() == 3,
        account_path(account)[0] == 0x8000_0000 + 44,
        account_path(account)[1] == 0x8000_0000 + 14159,
        account_path(account)[2] == 0x8000_0000 + account,
{
}

/// Whether a command tells the device of an input: which output it spends, by
/// the bytes of the transaction, and of the coin there its value and the words
/// of the path for its address.
pub open spec fn is_told(
    apdu: Seq<u8>,
    input: TxInput,
    coin: Coin,
    network: Seq<char>,
    paths: Map<Seq<char>, String>,
) -> bool {
    &&& address(network, coin.address_version as u8, coin.address_hash) matches Ok(addr)
    &&& paths.dom().contains(addr)
    &&& path_in(paths[addr]@) matches Ok(path)
    &&& 1 <= path.len() <= 10
    &&& apdu.len() == 56 + 4 * path.len()
    &&& apdu[0] == 0xe0 && apdu[1] == 6 && apdu[2] == 1
    &&& apdu.subrange(5, 37) == input.prev_hash
    &&& le_value(apdu.subrange(37, 41)) == input.prev_index
    &&& le_value(apdu.subrange(41, 45)) == input.sequence
    &&& le_value(apdu.subrange(45, 53)) == coin.value as u64
    &&& apdu[53] == 1
    &&& apdu[54] == path.len()
    &&& forall|k: int|
        0 <= k < path.len() ==> be_value(apdu.subrange(55 + 4 * k, 59 + 4 * k)) == #[trigger] path[k]
}

/// When signing goes through, the command after the first, and as many after it
/// as there are coins, told the device of the inputs: the `i`-th of them of the
/// `i`-th input and of the `i`-th coin.
pub proof fn law_device_is_told_each_coin(
    text: Seq<char>,
    network: Seq<char>,
    paths: Map<Seq<char>, String>,
    before: Seq<Exchange>,
    after: Seq<Exchange>,
    came: Result<Vec<SignResult>, String>,
    i: int,
)
    requires
        pstx_in_hex(text) matches Ok(p) && coin_metas(
            p.coins,
            p.coins.len(),
            network,
            paths,
        ) matches Ok(metas) && signing_gave(before, after, p.tx, metas, came),
        came is Ok,
        0 <= i < pstx_in_hex(text)->Ok_0.coins.len(),
    ensures
        ({
            let p = pstx_in_hex(text)->Ok_0;
            &&& tx_in(p.tx) matches Ok(tx)
            &&& tx.inputs.len() == p.coins.len()
            &&& before.len() + 1 + i < after.len()
            &&& after.take(before.len() as int) == before
            &&& is_told(
                after[before.len() + 1 + i].apdu,
                tx.inputs[i],
                p.coins[i],
                network,
                paths,
            )
        }),
{
    let p = pstx_in_hex(text)->Ok_0;
    let n = p.coins.len();
    let metas = coin_metas(p.coins, n, network, paths)->Ok_0;
    law_each_input_is_told_its_own_coin(p.coins, network, paths, metas, i);
    let tx = tx_in(p.tx)->Ok_0;
    law_tx_counts(p.tx);
    law_input_sizes(p.tx);
    let pl = plan(tx, metas);
    let replies = choose|replies: Seq<Reply>|
        {
            &&& #[trigger] went_through(pl, before, after, replies)
            &&& match conclusion(pl, replies) {
                Ok(sigs) => came matches Ok(v) && signed_views(v@) == sigs,
                Err(e) => came matches Err(x) && x@ == e,
            }
        };
    assert(after.take(before.len() as int) =~= before);
    lemma_told_command(tx, metas, before, after, replies, i);
}

proof fn lemma_told_command(
    tx: Tx,
    metas: Seq<SignMeta>,
    before: Seq<Exchange>,
    after: Seq<Exchange>,
    replies: Seq<Reply>,
    i: int,
)
    requires
        went_through(plan(tx, metas), before, after, replies),
        conclusion(plan(tx, metas), replies) is Ok,
        0 <= i < metas.len() <= 256,
        tx.inputs.len() == metas.len(),
        forall|k: int|
            0 <= k < tx.inputs.len() ==> {
                &&& (#[trigger] tx.inputs[k]).prev_hash.len() == 32
                &&& tx.inputs[k].prev_index <= 0xffff_ffff
                &&& tx.inputs[k].sequence <= 0xffff_ffff
            },
    ensures
        before.len() + 1 + i < after.len(),
        told_bytes(after[before.len() + 1 + i].apdu, tx.inputs[i], metas[i]),
{
    let pl = plan(tx, metas);
    law_session_signs_every_input(tx, metas, replies);
    assert(pl.stop is None);
    law_session_commands(tx, metas, i);
    let e = after[before.len() + 1 + i];
    assert(e == exchanges(pl.steps, replies)[1 + i]);
    lemma_told_layout(e.apdu, tx.inputs[i], metas[i]);
}

/// Where everything stands in a command that tells of an input.
spec fn told_bytes(apdu: Seq<u8>, input: TxInput, meta: SignMeta) -> bool {
    &&& 1 <= meta.path.len() <= 10
    &&& apdu.len() == 56 + 4 * meta.path.len()
    &&& apdu[0] == 0xe0 && apdu[1] == 6 && apdu[2] == 1
    &&& apdu.subrange(5, 37) == input.prev_hash
    &&& le_value(apdu.subrange(37, 41)) == input.prev_index
    &&& le_value(apdu.subrange(41, 45)) == input.sequence
    &&& le_value(apdu.subrange(45, 53)) == meta.value
    &&& apdu[53] == meta.sighash_type
    &&& apdu[54] == meta.path.len()
    &&& forall|k: int|
        0 <= k < meta.path.len() ==> be_value(apdu.subrange(55 + 4 * k, 59 + 4 * k))
            == #[trigger] meta.path[k]
}

proof fn lemma_told_layout(apdu: Seq<u8>, input: TxInput, meta: SignMeta)
    requires
        apdu.len() >= 5,
        apdu.skip(5) == add_input_data(input, meta),
        input.prev_hash.len() == 32,
        input.prev_index <= 0xffff_ffff,
        input.sequence <= 0xffff_ffff,
        1 <= meta.path.len() <= 10,
    ensures
        apdu.len() == 56 + 4 * meta.path.len(),
        apdu.subrange(5, 37) == input.prev_hash,
        le_value(apdu.subrange(37, 41)) == input.prev_index,
        le_value(apdu.subrange(41, 45)) == input.sequence,
        le_value(apdu.subrange(45, 53)) == meta.value,
        apdu[53] == meta.sighash_type,
        apdu[54] == meta.path.len(),
        forall|k: int|
            0 <= k < meta.path.len() ==> be_value(apdu.subrange(55 + 4 * k, 59 + 4 * k))
                == #[trigger] meta.path[k],
{
    law_input_layout(input, meta);
    law_path_layout(meta.path, 0);
    let d = apdu.skip(5);
    let n = path_bytes(meta.path).len() as int;
    assert(apdu.subrange(5, 37) =~= d.subrange(0, 32));
    assert(apdu.subrange(37, 41) =~= d.subrange(32, 36));
    assert(apdu.subrange(41, 45) =~= d.subrange(36, 40));
    assert(apdu.subrange(45, 53) =~= d.subrange(40, 48));
    assert(apdu[53] == d[48]);
    let b = d.subrange(49, 49 + n);
    assert(apdu[54] == b[0]);
    assert forall|k: int| 0 <= k < meta.path.len() implies be_value(
        apdu.subrange(55 + 4 * k, 59 + 4 * k),
    ) == #[trigger] meta.path[k] by {
        law_path_layout(meta.path, k);
        assert(apdu.subrange(55 + 4 * k, 59 + 4 * k) =~= b.subrange(1 + 4 * k, 5 + 4 * k));
    }
}

/// The extended key of an account is made of the key and the chain code that the
/// device replied with, and of nothing else in its reply.
pub proof fn law_xpub_is_the_devices(
    account: u32,
    pubkey: Seq<u8>,
    chain_code: Seq<u8>,
    shown: Seq<char>,
    rest: Seq<u8>,
    e: Seq<char>,
)
    requires
        pubkey.len() == 33,
        chain_code.len() == 32,
        encode_utf8(shown).len() <= 255,
    ensures
        xpub_in_reply(
            account,
            Ok(
                seq![33u8] + pubkey + seq![32u8] + chain_code + seq![encode_utf8(shown).len() as u8]
                    + encode_utf8(shown) + rest,
            ),
        ) == xpub(account, pubkey, chain_code),
        xpub_in_reply(account, Err(e)) == Err::<Seq<char>, Seq<char>>(e),
{
    law_key_reply(pubkey, chain_code, shown, rest);
}

} // verus!
