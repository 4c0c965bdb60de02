//! Keys and addresses as text.

use crate::hashes::{sha256, sha256_digest};
use crate::ledger::path::{harden, hardened};
use crate::text::{begins_with, concat2, decimal, number_after, same_text, text_outcome};
use crate::wire::{
    be, be_value, copy_range, law_be_read_write, lemma_pow256_values, push_all, push_be,
};
use vstd::prelude::*;

verus! {

/// The Base58 text of a byte string.
pub uninterp spec fn base58_text(data: Seq<u8>) -> Seq<char>;

/// `bs58::encode` with its default alphabet. Only named.
#[verifier::external_body]
pub(crate) fn base58(data: &[u8]) -> (r: String)
    ensures
        r@ == base58_text(data@),
{
    bs58::encode(data).into_string()
}

/// The bech32 address of a version 0 witness program, or why there is none.
pub uninterp spec fn segwit_v0(hrp: Seq<char>, program: Seq<u8>) -> Result<Seq<char>, Seq<char>>;

/// The human-readable part, the witness version and the witness program that
/// `bech32::segwit::decode` finds in an address, if it is one.
pub uninterp spec fn segwit_decoded(address: Seq<char>) -> Option<(Seq<char>, u8, Seq<u8>)>;

/// Whether a text has only lower case letters and digits.
pub open spec fn is_lower_text(s: Seq<char>) -> bool {
    forall|i: int|
        0 <= i < s.len() ==> (97 <= (#[trigger] s[i]) as u32 <= 122 || 48 <= s[i] as u32 <= 57)
}

/// How an address of witness version 0 looks: lower case letters and digits,
/// of which the first are the human-readable part, a one and a `q`.
pub open spec fn looks_like_address(hrp: Seq<char>, s: Seq<char>) -> bool {
    begins_with(s, hrp + seq!['1', 'q']) && is_lower_text(s)
}

/// A human-readable part of two lower case letters.
pub open spec fn is_short_prefix(hrp: Seq<char>) -> bool {
    hrp.len() == 2 && (forall|i: int| 0 <= i < 2 ==> 97 <= #[trigger] hrp[i] as u32 <= 122)
}

/// `bech32::segwit::encode_v0`, its first argument made by `Hrp::parse`, which
/// takes any two lower case letters. A program of 20 or 32 bytes is encoded,
/// and no other. The address is in lower case, begins with the human-readable
/// part, the separator `1` and the `q` of version 0, and decodes to what it was
/// made of. The rest of the text and the wording of the error are only named.
#[verifier::external_body]
pub(crate) fn segwit_address(hrp: &str, program: &[u8]) -> (r: Result<String, String>)
    requires
        is_short_prefix(hrp@),
    ensures
        text_outcome(r) == segwit_v0(hrp@, program@),
        r is Ok <==> program@.len() == 20 || program@.len() == 32,
        r matches Ok(t) ==> segwit_decoded(t@) == Some((hrp@, 0u8, program@)),
        r matches Ok(t) ==> looks_like_address(hrp@, t@),
{
    match bech32::Hrp::parse(hrp) {
        Ok(h) => bech32::segwit::encode_v0(h, program).map_err(|e| e.to_string()),
        Err(e) => Err(e.to_string()),
    }
}

// ── Extended public keys ──

/// The 78 bytes of an extended public key at depth 3 with no parent
/// fingerprint.
pub open spec fn xpub_bytes(account: u32, pubkey: Seq<u8>, chain_code: Seq<u8>) -> Seq<u8> {
    seq![0x04u8, 0x88, 0xB2, 0x1E, 3, 0, 0, 0, 0] + be(hardened(account) as nat, 4) + chain_code
        + pubkey
}

/// A payload and the first four bytes of a digest.
pub open spec fn checked(payload: Seq<u8>, digest: Seq<u8>) -> Seq<u8> {
    payload + digest.take(4)
}

/// The text of the extended public key of an account.
pub open spec fn xpub(account: u32, pubkey: Seq<u8>, chain_code: Seq<u8>) -> Result<
    Seq<char>,
    Seq<char>,
> {
    if pubkey.len() != 33 {
        Err("pubkey must be 33B, got "@ + decimal(pubkey.len()))
    } else if chain_code.len() != 32 {
        Err("chain code must be 32B, got "@ + decimal(chain_code.len()))
    } else {
        let payload = xpub_bytes(account, pubkey, chain_code);
        Ok(base58_text(checked(payload, sha256_digest(sha256_digest(payload)))))
    }
}

/// The bytes of an extended public key, without their checksum.
pub fn xpub_payload(account: u32, pubkey: &[u8], chain_code: &[u8]) -> (r: Vec<u8>)
    ensures
        r@ == xpub_bytes(account, pubkey@, chain_code@),
{
    let mut out: Vec<u8> = Vec::new();
    out.push(0x04);
    out.push(0x88);
    out.push(0xB2);
    out.push(0x1E);
    out.push(3);
    push_be(&mut out, 0, 4);
    proof {
        reveal_with_fuel(be, 5);
        assert(out@ =~= seq![0x04u8, 0x88, 0xB2, 0x1E, 3, 0, 0, 0, 0]);
    }
    push_be(&mut out, harden(account) as u64, 4);
    push_all(&mut out, chain_code);
    push_all(&mut out, pubkey);
    out
}

/// Appends the first four bytes of a digest.
pub fn push_checksum(payload: &mut Vec<u8>, digest: &[u8])
    requires
        digest@.len() >= 4,
    ensures
        final(payload)@ == checked(old(payload)@, digest@),
{
    push_all(payload, &copy_range(digest, 0, 4));
    assert(digest@.subrange(0, 4) =~= digest@.take(4));
}

/// The extended public key of an account, as text.
pub fn assemble_xpub(account: u32, pubkey: &[u8], chain_code: &[u8]) -> (r: Result<
    String,
    String,
>)
    ensures
        text_outcome(r) == xpub(account, pubkey@, chain_code@),
{
    if pubkey.len() != 33 {
        return Err(number_after("pubkey must be 33B, got ", pubkey.len() as u64));
    }
    if chain_code.len() != 32 {
        return Err(number_after("chain code must be 32B, got ", chain_code.len() as u64));
    }
    let mut payload = xpub_payload(account, pubkey, chain_code);
    let digest = sha256(&sha256(&payload));
    push_checksum(&mut payload, &digest);
    Ok(base58(&payload))
}

// ── Addresses ──

/// The human-readable part of the addresses of a network.
pub open spec fn address_prefix(network: Seq<char>) -> Option<Seq<char>> {
    if network == "main"@ || network == "mainnet"@ {
        Some("fb"@)
    } else if network == "testnet"@ {
        Some("ft"@)
    } else if network == "regtest"@ {
        Some("fr"@)
    } else if network == "simnet"@ {
        Some("fs"@)
    } else {
        None
    }
}

/// The address of a witness program.
pub open spec fn address(network: Seq<char>, version: u8, hash: Seq<u8>) -> Result<
    Seq<char>,
    Seq<char>,
> {
    match address_prefix(network) {
        None => Err("unknown network: "@ + network),
        Some(hrp) => if version != 0 {
            Err("only witness version 0 supported, got "@ + decimal(version as nat))
        } else {
            match segwit_v0(hrp, hash) {
                Ok(a) => Ok(a),
                Err(e) => Err("bech32 encode: "@ + e),
            }
        },
    }
}

/// The human-readable part of the addresses of a network.
pub fn prefix_for(network: &str) -> (r: Option<String>)
    ensures
        crate::text::text_of(r) == address_prefix(network@),
        r matches Some(p) ==> is_short_prefix(p@),
{
    proof {
        reveal_strlit("fb");
        reveal_strlit("ft");
        reveal_strlit("fr");
        reveal_strlit("fs");
    }
    if same_text(network, "main") || same_text(network, "mainnet") {
        Some("fb".to_owned())
    } else if same_text(network, "testnet") {
        Some("ft".to_owned())
    } else if same_text(network, "regtest") {
        Some("fr".to_owned())
    } else if same_text(network, "simnet") {
        Some("fs".to_owned())
    } else {
        None
    }
}

/// The bech32 address of a version 0 witness program. It decodes to the network's
/// human-readable part and the program, so that no two of these have the same
/// address.
pub fn encode_bech32_address(network: &str, version: u8, hash: &[u8]) -> (r: Result<
    String,
    String,
>)
    ensures
        text_outcome(r) == address(network@, version, hash@),
        r is Ok <==> address_prefix(network@) is Some && version == 0 && (hash@.len() == 20
            || hash@.len() == 32),
        r matches Ok(t) ==> {
            let hrp = address_prefix(network@)->Some_0;
            &&& segwit_decoded(t@) == Some((hrp, 0u8, hash@))
            &&& looks_like_address(hrp, t@)
        },
{
    match prefix_for(network) {
        None => Err(concat2("unknown network: ", network)),
        Some(hrp) => if version != 0 {
            Err(number_after("only witness version 0 supported, got ", version as u64))
        } else {
            match segwit_address(hrp.as_str(), hash) {
                Ok(a) => Ok(a),
                Err(e) => Err(concat2("bech32 encode: ", e.as_str())),
            }
        },
    }
}

// ── What holds of them ──

/// Where everything stands among the bytes of an extended public key: the
/// version `04 88 B2 1E`, the depth 3, no parent fingerprint, the hardened
/// number of the account, the chain code, and the key.
pub proof fn law_xpub_layout(account: u32, pubkey: Seq<u8>, chain_code: Seq<u8>)
    requires
        account < 0x8000_0000,
        pubkey.len() == 33,
        chain_code.len() == 32,
    ensures
        ({
            let b = xpub_bytes(account, pubkey, chain_code);
            &&& b.len() == 78
            &&& b.subrange(0, 4) == seq![0x04u8, 0x88u8, 0xB2u8, 0x1Eu8]
            &&& b[4] == 3
            &&& b.subrange(5, 9) == seq![0u8, 0u8, 0u8, 0u8]
            &&& be_value(b.subrange(9, 13)) == 0x8000_0000 + account
            &&& b.subrange(13, 45) == chain_code
            &&& b.subrange(45, 78) == pubkey
        }),
{
    lemma_pow256_values();
    law_be_read_write(hardened(account) as nat, 4);
    let b = xpub_bytes(account, pubkey, chain_code);
    assert(b.subrange(0, 4) =~= seq![0x04u8, 0x88u8, 0xB2u8, 0x1Eu8]);
    assert(b.subrange(5, 9) =~= seq![0u8, 0u8, 0u8, 0u8]);
    assert(b.subrange(9, 13) =~= be(hardened(account) as nat, 4));
    assert(b.subrange(13, 45) =~= chain_code);
    assert(b.subrange(45, 78) =~= pubkey);
}

/// The text of an extended public key is the Base58 of its bytes and four more:
/// the first four of the hash of the hash of those bytes. A key or a chain code
/// of another length has none.
pub proof fn law_xpub_is_checked(account: u32, pubkey: Seq<u8>, chain_code: Seq<u8>)
    requires
        sha256_digest(sha256_digest(xpub_bytes(account, pubkey, chain_code))).len() == 32,
    ensures
        xpub(account, pubkey, chain_code) is Ok <==> pubkey.len() == 33 && chain_code.len() == 32,
        xpub(account, pubkey, chain_code) matches Ok(t) ==> exists|b: Seq<u8>| #[trigger]
            base58_text(b) == t && b.len() == 82 && b.take(78) == xpub_bytes(
                account,
                pubkey,
                chain_code,
            ) && b.skip(78) == sha256_digest(
                sha256_digest(xpub_bytes(account, pubkey, chain_code)),
            ).take(4),
{
    let payload = xpub_bytes(account, pubkey, chain_code);
    let digest = sha256_digest(sha256_digest(payload));
    let b = checked(payload, digest);
    crate::wire::lemma_be_len(hardened(account) as nat, 4);
    if pubkey.len() == 33 && chain_code.len() == 32 {
        assert(b.take(78) =~= payload);
        assert(b.skip(78) =~= digest.take(4));
        assert(base58_text(b) == xpub(account, pubkey, chain_code)->Ok_0);
    }
}

/// The addresses of the networks begin differently, and a network that is not
/// known has none.
pub proof fn law_networks(network: Seq<char>, hash: Seq<u8>, version: u8)
    ensures
        address_prefix("main"@) == Some("fb"@),
        address_prefix("mainnet"@) == Some("fb"@),
        address_prefix("testnet"@) == Some("ft"@),
        address_prefix("regtest"@) == Some("fr"@),
        address_prefix("simnet"@) == Some("fs"@),
        network != "main"@ && network != "mainnet"@ && network != "testnet"@ && network
            != "regtest"@ && network != "simnet"@ ==> address(network, version, hash) is Err,
        version != 0 ==> address(network, version, hash) is Err,
{
    reveal_strlit("main");
    reveal_strlit("mainnet");
    reveal_strlit("testnet");
    reveal_strlit("regtest");
    reveal_strlit("simnet");
    assert("main"@.len() == 4 && "mainnet"@.len() == 7 && "simnet"@.len() == 6);
    assert("mainnet"@[0] == 'm' && "testnet"@[0] == 't' && "regtest"@[0] == 'r');
}

} // verus!
