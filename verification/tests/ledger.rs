//! The hardware wallet: formats, sessions, framing and keys.

use std::cell::RefCell;

use fistbump_wallet::ledger::apdu::{
    add_input_payload, begin_payload, build_apdu, encode_bip32_path, message_payload, SignInput,
};
use fistbump_wallet::ledger::base64::base64_encode;
use fistbump_wallet::ledger::device::{
    parse_pubkey_reply, parse_sign_message_reply, Ledger, LedgerTransport,
};
use fistbump_wallet::ledger::frames::{
    hid_report, mtu_handshake, mtu_in, plan_frames, strip_status, Inbound, Link,
};
use fistbump_wallet::ledger::keys::{assemble_xpub, encode_bech32_address, prefix_for, xpub_payload};
use fistbump_wallet::ledger::path::{harden, parse_path};
use fistbump_wallet::ledger::pstx::{PstxCoin, PstxV1};
use fistbump_wallet::ledger::reader::{write_varint, Format, Reader};
use fistbump_wallet::ledger::session::{parse_sign_input_reply, plan_session, SignResult};
use fistbump_wallet::ledger::tx::{parse_unsigned_tx, TxInputRef};
use fistbump_wallet::ledger::usb::{pick_interface, read_timeout_ms, HidInterface};
use fistbump_wallet::ledger::wallet::{
    cmd_get_account_xpub, cmd_sign_message, cmd_sign_pstx, decode_pstx, fetch_xpub, finish_pstx,
    is_no_usb_device, sign_inputs, sign_message_text, sign_parsed_pstx, Job, Step,
};
use fistbump_wallet::text_map::TextMap;

const KEY_HASH: [u8; 20] = [
    0x75, 0x1e, 0x76, 0xe8, 0x19, 0x91, 0x96, 0xd4, 0x54, 0x94, 0x1c, 0x45, 0xd1, 0xb3, 0xa3, 0x23,
    0xf1, 0x43, 0x3b, 0xd6,
];

/// Answers commands from a list and remembers them.
struct Script {
    replies: RefCell<Vec<Result<Vec<u8>, String>>>,
    sent: RefCell<Vec<(Vec<u8>, u64)>>,
}

impl Script {
    fn new(mut replies: Vec<Result<Vec<u8>, String>>) -> Script {
        replies.reverse();
        Script { replies: RefCell::new(replies), sent: RefCell::new(Vec::new()) }
    }
}

impl LedgerTransport for &Script {
    fn exchange(&mut self, apdu: &[u8], timeout_secs: u64) -> Result<Vec<u8>, String> {
        self.sent.borrow_mut().push((apdu.to_vec(), timeout_secs));
        self.replies.borrow_mut().pop().unwrap_or_else(|| Err("nothing more".to_string()))
    }
}

fn output_bytes(n_items: u8) -> Vec<u8> {
    let mut o = 5000u64.to_le_bytes().to_vec();
    o.push(0);
    o.push(20);
    o.extend_from_slice(&[0x44; 20]);
    o.push(0);
    o.push(n_items);
    for i in 0..n_items {
        o.push(1);
        o.push(i);
    }
    o
}

fn one_input_tx() -> Vec<u8> {
    let mut t = vec![1, 0, 0, 0, 1];
    t.extend_from_slice(&[0xaa; 32]);
    t.extend_from_slice(&7u32.to_le_bytes());
    t.extend_from_slice(&0xffff_fffeu32.to_le_bytes());
    t.push(1);
    t.extend_from_slice(&output_bytes(2));
    t.extend_from_slice(&99u32.to_le_bytes());
    t
}

fn coin(version: u8, hash: Vec<u8>) -> PstxCoin {
    PstxCoin {
        value: 123456789,
        address_version: version,
        address_hash: hash,
        outpoint_hash: [0xaa; 32],
        outpoint_index: 7,
    }
}

fn key_reply() -> Vec<u8> {
    let mut r = vec![33];
    r.push(2);
    r.extend_from_slice(&[0x11; 32]);
    r.push(32);
    r.extend_from_slice(&[0x22; 32]);
    r.push(3);
    r.extend_from_slice(b"fb1");
    r
}

fn sign_reply() -> Vec<u8> {
    let mut r = vec![0x5a; 64];
    r.push(1);
    r.push(33);
    r.extend_from_slice(&[3; 33]);
    r
}

// ── Numbers and readers ──

#[test]
fn varints_are_written_in_as_few_bytes_as_hold_them() {
    let mut b = Vec::new();
    write_varint(&mut b, 0xfc);
    write_varint(&mut b, 0xfd);
    write_varint(&mut b, 0xffff);
    write_varint(&mut b, 0x1_0000);
    write_varint(&mut b, 0xffff_ffff);
    write_varint(&mut b, 0x1_0000_0000);
    assert_eq!(
        b,
        vec![
            0xfc, 0xfd, 0xfd, 0x00, 0xfd, 0xff, 0xff, 0xfe, 0, 0, 1, 0, 0xfe, 0xff, 0xff, 0xff,
            0xff, 0xff, 0, 0, 0, 0, 1, 0, 0, 0
        ]
    );
    let mut r = Reader::new(Format::Tx, &b, 0);
    for n in [0xfcu64, 0xfd, 0xffff, 0x1_0000, 0xffff_ffff, 0x1_0000_0000] {
        assert_eq!(r.read_varint(), Ok(n));
    }
    assert_eq!(r.read_u8(), Err("tx truncated at pos 26: need 1, have 0".to_string()));
}

#[test]
fn readers_word_their_errors_by_format() {
    let data = [1u8, 2, 3];
    let mut a = Reader::new(Format::Tx, &data, 1);
    assert_eq!(a.read_u32_le(), Err("tx truncated at pos 1: need 4, have 2".to_string()));
    let mut b = Reader::new(Format::Pstx, &data, 1);
    assert_eq!(b.read_u64_le(), Err("buffer underflow at pos 1: need 8, have 2".to_string()));
    assert_eq!(b.read_u16_le(), Ok(0x0302));
    let mut c = Reader::new(Format::Pstx, &data, 1);
    assert_eq!(c.read_bytes(usize::MAX), Err("cursor overflow".to_string()));
    let mut d = Reader::new(Format::Tx, &data, 1);
    assert_eq!(d.read_bytes(usize::MAX), Err("tx reader overflow".to_string()));
}

// ── Commands ──

#[test]
fn commands_are_built() {
    assert_eq!(build_apdu(5, 1, 2, &[9, 8]), vec![0xe0, 5, 1, 2, 2, 9, 8]);
    assert_eq!(
        encode_bip32_path(&[0x8000_002c, 1]),
        vec![2, 0x80, 0, 0, 0x2c, 0, 0, 0, 1]
    );
    assert_eq!(begin_payload(1, 2, 3, 4), vec![1, 0, 0, 0, 2, 3, 4, 0, 0, 0]);
    assert_eq!(message_payload(&[5], b"hi"), vec![1, 0, 0, 0, 5, 2, 0, b'h', b'i']);
    let input = TxInputRef { prev_hash: [7; 32], prev_index: 1, sequence: 2 };
    let meta = SignInput { path: vec![1], value: 3, sighash_type: 1 };
    let mut want = vec![7u8; 32];
    want.extend_from_slice(&[1, 0, 0, 0, 2, 0, 0, 0, 3, 0, 0, 0, 0, 0, 0, 0, 1, 1, 0, 0, 0, 1, 0]);
    assert_eq!(add_input_payload(&input, &meta), want);
}

// ── Transactions ──

#[test]
fn a_transaction_is_parsed() {
    let tx = parse_unsigned_tx(&one_input_tx()).unwrap();
    assert_eq!(tx.version, 1);
    assert_eq!(tx.locktime, 99);
    assert_eq!(tx.inputs.len(), 1);
    assert_eq!(tx.inputs[0].prev_hash, [0xaa; 32]);
    assert_eq!(tx.inputs[0].prev_index, 7);
    assert_eq!(tx.inputs[0].sequence, 0xffff_fffe);
    assert_eq!(tx.outputs, vec![output_bytes(2)]);
}

#[test]
fn bad_transactions_are_refused() {
    let err = |b: &[u8]| parse_unsigned_tx(b).err().unwrap();
    assert_eq!(err(&[]), "tx truncated at pos 0: need 4, have 0");
    assert_eq!(err(&[1, 0, 0, 0, 0]), "unreasonable input count 0");
    assert_eq!(err(&[1, 0, 0, 0, 0xfd, 1, 1]), "unreasonable input count 257");
    let mut t = vec![1, 0, 0, 0, 1];
    t.extend_from_slice(&[0; 40]);
    t.extend_from_slice(&[0xfd, 1, 1]);
    assert_eq!(err(&t), "unreasonable output count 257");
    let cut = one_input_tx();
    assert_eq!(err(&cut[..cut.len() - 1]), "tx truncated at pos 82: need 4, have 3");
    let at = 4 + 1 + 40 + 1 + 8 + 1;
    let mut v = one_input_tx();
    v[at] = 19;
    assert_eq!(err(&v), "unknown addr_len 19");
}

// ── Partially signed transactions ──

#[test]
fn pstx_is_read_back() {
    let p = PstxV1 {
        tx_bytes: one_input_tx(),
        coins: vec![coin(0, KEY_HASH.to_vec()), coin(0, vec![0x33; 32])],
    };
    let sig = (vec![1u8; 65], vec![2u8; 33]);
    let bare = (vec![4u8; 2], vec![]);
    let b = p.serialize_p2wpkh(&[sig, bare]).unwrap();
    assert_eq!(b[0], 1);
    let q = PstxV1::parse(&b).unwrap();
    assert_eq!(q.tx_bytes, p.tx_bytes);
    assert_eq!(q.coins.len(), 2);
    assert_eq!(q.coins[0].value, 123456789);
    assert_eq!(q.coins[0].address_hash, KEY_HASH.to_vec());
    assert_eq!(q.coins[1].address_hash, vec![0x33; 32]);
    assert_eq!(q.coins[1].outpoint_index, 7);
    let tail = &b[b.len() - 5..];
    assert_eq!(tail, &[0, 2, 4, 4, 0]);
}

#[test]
fn bad_pstx_is_refused() {
    let err = |b: &[u8]| PstxV1::parse(b).err().unwrap();
    assert_eq!(err(&[]), "not a v1 PSTX");
    assert_eq!(err(&[2, 0, 0, 0, 0, 0]), "not a v1 PSTX");
    assert_eq!(err(&[1, 9, 0, 0, 0, 0]), "buffer underflow at pos 5: need 9, have 1");
    let p = PstxV1 { tx_bytes: vec![], coins: vec![] };
    assert_eq!(
        p.serialize_p2wpkh(&[(vec![], vec![])]),
        Err("expected 0 input slots, got 1".to_string())
    );
}

// ── Sessions ──

#[test]
fn a_session_asks_for_every_signature() {
    let tx = parse_unsigned_tx(&one_input_tx()).unwrap();
    let plan =
        plan_session(&tx, &[SignInput { path: vec![harden(44)], value: 5, sighash_type: 1 }]);
    assert!(plan.stop.is_none());
    let kinds: Vec<u8> = plan.steps.iter().map(|s| s.apdu[2]).collect();
    assert_eq!(kinds, vec![0, 1, 2, 3, 4]);
    assert_eq!(plan.steps[4].apdu, vec![0xe0, 6, 4, 0, 4, 0, 0, 0, 0]);
    let signs: Vec<bool> = plan.steps.iter().map(|s| s.signs).collect();
    assert_eq!(signs, vec![false, false, false, false, true]);
    let waits: Vec<u64> = plan.steps.iter().map(|s| s.timeout_secs).collect();
    assert_eq!((waits[0], waits[4]), (10, 30));
}

#[test]
fn long_outputs_are_sent_in_chunks_that_make_them_up() {
    let mut t = vec![1, 0, 0, 0, 1];
    t.extend_from_slice(&[0xaa; 40]);
    t.push(1);
    let out = output_bytes(250);
    t.extend_from_slice(&out);
    t.extend_from_slice(&[0; 4]);
    let tx = parse_unsigned_tx(&t).unwrap();
    let plan = plan_session(&tx, &[SignInput { path: vec![1], value: 5, sighash_type: 1 }]);
    let chunks: Vec<&Vec<u8>> =
        plan.steps.iter().filter(|s| s.apdu[2] == 2).map(|s| &s.apdu).collect();
    assert_eq!(chunks.len(), 3);
    assert_eq!(chunks.iter().map(|a| a[3]).collect::<Vec<u8>>(), vec![0x80, 0x80, 0]);
    let all: Vec<u8> = chunks.iter().flat_map(|a| a[5..].to_vec()).collect();
    assert_eq!(all, out);
    assert!(chunks.iter().all(|a| a.len() - 5 <= 240));
}

#[test]
fn a_session_stops_at_a_bad_path() {
    let tx = parse_unsigned_tx(&one_input_tx()).unwrap();
    let plan = plan_session(&tx, &[SignInput { path: vec![], value: 5, sighash_type: 1 }]);
    assert_eq!(plan.stop, Some("path length 0 out of range".to_string()));
    assert_eq!(plan.steps.len(), 1);
}

#[test]
fn signature_replies_are_read() {
    let s = parse_sign_input_reply(&sign_reply()).unwrap();
    assert_eq!(s.sig, vec![0x5a; 64]);
    assert_eq!(s.sighash_byte, 1);
    assert_eq!(s.pubkey, vec![3; 33]);
    assert_eq!(
        parse_sign_input_reply(&[0; 5]).err(),
        Some("SIGN_INPUT response too short (5 bytes)".to_string())
    );
    assert_eq!(
        parse_sign_input_reply(&[0; 67]).err(),
        Some("SIGN_INPUT pubkey malformed: pk_len=0, total=67".to_string())
    );
}

#[test]
fn the_device_signs_a_transaction() {
    let mut replies: Vec<Result<Vec<u8>, String>> = vec![Ok(vec![]); 4];
    replies.push(Ok(sign_reply()));
    let script = Script::new(replies);
    let mut ledger = Ledger::new(&script);
    let inputs = [SignInput { path: vec![harden(44)], value: 5, sighash_type: 1 }];
    let got = ledger.sign_pstx(&one_input_tx(), &inputs).unwrap();
    assert_eq!(got.len(), 1);
    assert_eq!(got[0].sig, vec![0x5a; 64]);
    assert_eq!(script.sent.borrow().len(), 5);
    assert_eq!(script.sent.borrow()[3].0, vec![0xe0, 6, 3, 0, 0]);
}

#[test]
fn a_refusal_of_the_device_ends_the_session() {
    let script = Script::new(vec![Ok(vec![]), Err("device returned SW=0x6985".to_string())]);
    let mut ledger = Ledger::new(&script);
    let inputs = [SignInput { path: vec![1], value: 5, sighash_type: 1 }];
    assert_eq!(
        ledger.sign_pstx(&one_input_tx(), &inputs).err(),
        Some("device returned SW=0x6985".to_string())
    );
    assert_eq!(script.sent.borrow().len(), 2);
}

#[test]
fn missing_metadata_is_refused_without_asking_the_device() {
    let script = Script::new(vec![]);
    let mut ledger = Ledger::new(&script);
    assert_eq!(
        ledger.sign_pstx(&one_input_tx(), &[]).err(),
        Some("input count mismatch: tx has 1, caller provided 0".to_string())
    );
    assert!(script.sent.borrow().is_empty());
}

#[test]
fn a_key_is_fetched() {
    let script = Script::new(vec![Ok(key_reply())]);
    let mut ledger = Ledger::new(&script);
    let (key, code, addr) = ledger.get_pubkey(&[harden(44)], true).unwrap();
    assert_eq!(key[0], 2);
    assert_eq!(code, vec![0x22; 32]);
    assert_eq!(addr, "fb1");
    let sent = script.sent.borrow();
    assert_eq!(sent[0], (vec![0xe0, 5, 1, 0, 5, 1, 0x80, 0, 0, 44], 60));
}

#[test]
fn bad_key_replies_are_refused() {
    let err = |b: &[u8]| parse_pubkey_reply(b).err().unwrap();
    assert_eq!(err(&[0; 67]), "get_pubkey response too short: 67 bytes");
    assert_eq!(err(&[0; 68]), "expected 33B pubkey, got 0");
    let mut r = key_reply();
    r[34] = 31;
    assert_eq!(err(&r), "expected 32B chain code, got 31");
    let mut r = key_reply();
    r[67] = 4;
    assert_eq!(err(&r), "get_pubkey response truncated at address");
    let mut r = key_reply();
    r[68] = 0xff;
    assert!(err(&r).starts_with("address utf8: "));
    assert_ne!(err(&r), "address utf8: ");
}

#[test]
fn messages_are_signed() {
    let mut reply = vec![1];
    reply.extend_from_slice(&[7; 64]);
    reply.extend_from_slice(&[3; 33]);
    assert_eq!(parse_sign_message_reply(&reply).unwrap(), reply[..65].to_vec());
    let script = Script::new(vec![Ok(reply.clone())]);
    let mut ledger = Ledger::new(&script);
    assert_eq!(
        sign_message_text(&mut ledger, &[1], b"hello").unwrap(),
        base64_encode(&reply[..65])
    );
    assert_eq!(script.sent.borrow()[0].1, 180);
    reply[0] = 4;
    assert_eq!(
        parse_sign_message_reply(&reply).err(),
        Some("SIGN_MESSAGE invalid recovery_id 4".to_string())
    );
    assert_eq!(
        parse_sign_message_reply(&[0; 3]).err(),
        Some("SIGN_MESSAGE response wrong length: 3 (expected 98)".to_string())
    );
}

#[test]
fn messages_that_need_more_than_one_command_are_sent_in_chunks() {
    let mut reply = vec![0];
    reply.extend_from_slice(&[7; 97]);
    let script = Script::new(vec![Ok(vec![]), Ok(reply.clone())]);
    let message = [0x61; 300];
    let sig = Ledger::new(&script).sign_message(&[9], &message).unwrap();
    assert_eq!(sig, reply[..65].to_vec());
    let mut data = vec![1, 0, 0, 0, 9, 44, 1];
    data.extend_from_slice(&message);
    let mut first = vec![0xe0, 7, 0, 0x80, 240];
    first.extend_from_slice(&data[..240]);
    let mut second = vec![0xe0, 7, 0, 0, 67];
    second.extend_from_slice(&data[240..]);
    assert_eq!(*script.sent.borrow(), vec![(first, 10), (second, 180)]);

    let script = Script::new(vec![Err("device returned SW=0x6985".to_string()), Ok(reply)]);
    assert_eq!(
        Ledger::new(&script).sign_message(&[9], &message).err(),
        Some("device returned SW=0x6985".to_string())
    );
    assert_eq!(script.sent.borrow().len(), 1);
}

#[test]
fn nothing_is_signed_that_the_user_rejects() {
    let mut replies: Vec<Result<Vec<u8>, String>> = vec![Ok(vec![]); 3];
    replies.push(Err("rejected".to_string()));
    replies.push(Ok(sign_reply()));
    let script = Script::new(replies);
    let inputs = [SignInput { path: vec![1], value: 5, sighash_type: 1 }];
    assert_eq!(
        Ledger::new(&script).sign_pstx(&one_input_tx(), &inputs).err(),
        Some("rejected".to_string())
    );
    let kinds: Vec<u8> = script.sent.borrow().iter().map(|(c, _)| c[2]).collect();
    assert_eq!(kinds, vec![0, 1, 2, 3]);
}

#[test]
fn long_messages_and_bad_paths_are_not_sent() {
    let script = Script::new(vec![]);
    let mut ledger = Ledger::new(&script);
    assert_eq!(
        ledger.sign_message(&[1], &[0; 513]).err(),
        Some("message too long (513 bytes, max 512)".to_string())
    );
    assert_eq!(
        ledger.sign_message(&[1; 11], b"x").err(),
        Some("path length 11 out of range".to_string())
    );
    assert!(script.sent.borrow().is_empty());
}

// ── Keys and addresses ──

#[test]
fn extended_keys_are_written() {
    let mut key = vec![2u8];
    key.extend_from_slice(&[0x11; 32]);
    assert_eq!(
        assemble_xpub(0, &key, &[0x22; 32]).unwrap(),
        "xpub6BemYiVNp19ZzUKWLzp4gxb6AFoQyDJviqadniVBc1XAoBHPwUe2krvfWvRRQvfvsaEL8gExji2zSiF66JaVcJLW5wYnuXfGR5EmXMWYiv4"
    );
    assert_eq!(xpub_payload(7, &key, &[0x22; 32])[9..13], [0x80, 0, 0, 7]);
    assert_eq!(
        assemble_xpub(0, &[2; 32], &[0x22; 32]).err(),
        Some("pubkey must be 33B, got 32".to_string())
    );
    assert_eq!(
        assemble_xpub(0, &key, &[0x22; 31]).err(),
        Some("chain code must be 32B, got 31".to_string())
    );
}

#[test]
fn the_key_of_an_account_is_fetched() {
    let script = Script::new(vec![Ok(key_reply())]);
    let mut ledger = Ledger::new(&script);
    assert_eq!(
        fetch_xpub(&mut ledger, 7).unwrap(),
        "xpub6BemYiVNp19aJK7L5j8fki4qmWj89UBzJcNrES6f5UpmugqiKYYAPVu2UbQXKKHQKttzwvWa8YUYkvx1LiTZyNPTrtuX4iDcGzHQ6EPmF1L"
    );
    let sent = script.sent.borrow();
    assert_eq!(
        sent[0].0,
        vec![0xe0, 5, 0, 0, 13, 3, 0x80, 0, 0, 44, 0x80, 0, 0x37, 0x4f, 0x80, 0, 0, 7]
    );
}

#[test]
fn addresses_are_written() {
    let a = |n: &str| encode_bech32_address(n, 0, &KEY_HASH).unwrap();
    assert_eq!(a("main"), "fb1qw508d6qejxtdg4y5r3zarvary0c5xw7kcnpusk");
    assert_eq!(a("mainnet"), a("main"));
    assert_eq!(a("testnet"), "ft1qw508d6qejxtdg4y5r3zarvary0c5xw7krj3ykn");
    assert_eq!(a("regtest"), "fr1qw508d6qejxtdg4y5r3zarvary0c5xw7kwfld7l");
    assert_eq!(a("simnet"), "fs1qw508d6qejxtdg4y5r3zarvary0c5xw7kqe969a");
    assert_eq!(
        encode_bech32_address("main", 0, &[0x33; 32]).unwrap(),
        "fb1qxvenxvenxvenxvenxvenxvenxvenxvenxvenxvenxvenxvenxvesakacv6"
    );
    assert_eq!(prefix_for("moon"), None);
    assert_eq!(
        encode_bech32_address("moon", 0, &KEY_HASH).err(),
        Some("unknown network: moon".to_string())
    );
    assert_eq!(
        encode_bech32_address("main", 1, &KEY_HASH).err(),
        Some("only witness version 0 supported, got 1".to_string())
    );
    let e = encode_bech32_address("main", 0, &[1; 21]).err().unwrap();
    assert!(e.starts_with("bech32 encode: "));
    assert_ne!(e, "bech32 encode: ");
}

#[test]
fn base64_is_written() {
    assert_eq!(base64_encode(b""), "");
    assert_eq!(base64_encode(b"f"), "Zg==");
    assert_eq!(base64_encode(b"fo"), "Zm8=");
    assert_eq!(base64_encode(b"foo"), "Zm9v");
    assert_eq!(base64_encode(b"foobar"), "Zm9vYmFy");
    assert_eq!(base64_encode(&[0xfb, 0xff, 0xbf]), "+/+/");
}

#[test]
fn paths_are_parsed() {
    assert_eq!(harden(0), 0x8000_0000);
    assert_eq!(harden(0x8000_0001), 0x8000_0001);
    assert_eq!(
        parse_path("m/44'/14159'/0'/1/2").unwrap(),
        vec![harden(44), harden(14159), harden(0), 1, 2]
    );
    assert_eq!(parse_path("m/m//5//6").unwrap(), vec![5, 6]);
    assert_eq!(parse_path("").unwrap(), Vec::<u32>::new());
    assert_eq!(parse_path("m/7''").unwrap(), vec![harden(7)]);
    assert_eq!(parse_path("m/+7").unwrap(), vec![7]);
    assert_eq!(
        parse_path("m/4x").err(),
        Some("path component \"4x\": invalid digit found in string".to_string())
    );
    assert_eq!(
        parse_path("m/4294967296'").err(),
        Some(
            "path component \"4294967296'\": number too large to fit in target type".to_string()
        )
    );
    assert!(parse_path("m/'").is_err());
}

// ── Framing ──

#[test]
fn usb_frames_are_built() {
    let plan = plan_frames(Link::Hid, &[1, 2, 3], 0).unwrap();
    assert!(plan.stop.is_none());
    assert_eq!(plan.frames.len(), 1);
    assert_eq!(plan.frames[0][..10], [1, 1, 5, 0, 0, 0, 3, 1, 2, 3]);
    assert_eq!(plan.frames[0].len(), 64);
    let report = hid_report(&plan.frames[0]);
    assert_eq!(report.len(), 65);
    assert_eq!(report[0], 0);
    assert_eq!(report[1..], plan.frames[0][..]);
}

#[test]
fn bluetooth_frames_are_built() {
    let plan = plan_frames(Link::Ble, &[9; 5], 6).unwrap();
    assert_eq!(
        plan.frames,
        vec![vec![5, 0, 0, 0, 5, 9], vec![5, 0, 1, 9, 9, 9], vec![5, 0, 2, 9]]
    );
    assert_eq!(plan_frames(Link::Ble, &[1], 2).err(), Some("BLE MTU too small".to_string()));
    assert_eq!(
        plan_frames(Link::Hid, &vec![0; 65536], 0).err(),
        Some("apdu too long".to_string())
    );
    let stuck = plan_frames(Link::Ble, &[1], 3).unwrap();
    assert_eq!(stuck.frames.len(), 65536);
    assert_eq!(stuck.stop, Some("BLE seq overflow".to_string()));
}

#[test]
fn frames_are_put_together_again() {
    let mut reply: Vec<u8> = (0..200u32).map(|i| i as u8).collect();
    reply.extend_from_slice(&[0x90, 0]);
    for link in [Link::Hid, Link::Ble] {
        let plan = plan_frames(link, &reply, 23).unwrap();
        assert!(plan.frames.len() > 3);
        let mut inbound = Inbound::new(link);
        let last = plan.frames.len() - 1;
        for (i, f) in plan.frames.iter().enumerate() {
            let got = inbound.receive(f).unwrap();
            if i < last {
                assert_eq!(got, None);
            } else {
                assert_eq!(got, Some(reply[..200].to_vec()));
            }
        }
    }
}

#[test]
fn bad_frames_are_refused() {
    let hid = |f: &[u8]| Inbound::new(Link::Hid).receive(f).err().unwrap();
    assert_eq!(hid(&[1, 1]), "short HID frame (2 bytes)");
    assert_eq!(hid(&[1, 2, 5, 0, 0, 0, 2]), "bad HID header cid=0102 tag=05");
    assert_eq!(hid(&[1, 1, 5, 0, 1, 0, 2]), "HID seq mismatch (expected 0, got 1)");
    assert_eq!(hid(&[1, 1, 5, 0, 0, 0]), "first HID frame missing total length");
    let ble = |f: &[u8]| Inbound::new(Link::Ble).receive(f).err().unwrap();
    assert_eq!(ble(&[]), "bad BLE frame: tag=00 len=0");
    assert_eq!(ble(&[6, 0, 0, 0]), "bad BLE frame: tag=06 len=4");
    assert_eq!(ble(&[5, 0, 3, 0, 0]), "BLE seq mismatch: expected 0, got 3");
    assert_eq!(ble(&[5, 0, 0, 9]), "first BLE frame missing total length");
    assert_eq!(ble(&[5, 0, 0, 0, 1, 7]), "APDU response too short (1 bytes)");
}

#[test]
fn status_words_are_checked() {
    assert_eq!(strip_status(&[1, 2, 0x90, 0]).unwrap(), vec![1, 2]);
    assert_eq!(strip_status(&[0x69, 0x85]).err(), Some("device returned SW=0x6985".to_string()));
    assert_eq!(strip_status(&[0x90]).err(), Some("APDU response too short (1 bytes)".to_string()));
}

#[test]
fn the_mtu_is_negotiated() {
    assert_eq!(mtu_handshake(), vec![8, 0, 0, 0, 0]);
    assert_eq!(mtu_in(&[8, 0, 0, 0, 1, 156]), Some(156));
    assert_eq!(mtu_in(&[8, 0, 0, 0, 1]), None);
    assert_eq!(mtu_in(&[5, 0, 0, 0, 1, 156]), None);
}

#[test]
fn the_interface_for_commands_is_picked() {
    let list = [
        HidInterface { vendor_id: 0x1234, interface_number: 0, usage_page: 0xffa0 },
        HidInterface { vendor_id: 0x2c97, interface_number: 1, usage_page: 0xf1d0 },
        HidInterface { vendor_id: 0x2c97, interface_number: 2, usage_page: 0xffa0 },
        HidInterface { vendor_id: 0x2c97, interface_number: 0, usage_page: 1 },
    ];
    assert_eq!(pick_interface(&list), Ok(2));
    let none = pick_interface(&list[..2]).err().unwrap();
    assert!(none.starts_with("no Ledger device found"));
    assert!(is_no_usb_device(&none));
    assert_eq!(read_timeout_ms(60), 60000);
    assert_eq!(read_timeout_ms(u64::MAX), i32::MAX);
}

// ── What the wallet asks for ──

#[test]
fn commands_choose_a_transport() {
    let step = cmd_get_account_xpub(3, "auto", None, true, None);
    assert!(matches!(step, Step::Usb(Job::Xpub { account: 3 })));
    let step = cmd_get_account_xpub(3, "ble", None, true, None);
    assert!(matches!(step, Step::Done(Err(e)) if e == "BLE transport requires a deviceId"));
    let step = cmd_get_account_xpub(3, "ble", Some("x"), true, None);
    assert!(matches!(step, Step::Ble(id, _) if id == "x"));
    let missing = Some(Err("no Ledger device found — x".to_string()));
    let step = cmd_get_account_xpub(3, "auto", Some("x"), true, missing.clone());
    assert!(matches!(step, Step::Ble(id, _) if id == "x"));
    let step = cmd_get_account_xpub(3, "auto", None, true, missing.clone());
    assert!(matches!(step, Step::Done(Err(_))));
    let step = cmd_get_account_xpub(3, "usb", Some("x"), true, missing);
    assert!(matches!(step, Step::Done(Err(_))));
    let other = Some(Err("device returned SW=0x6985".to_string()));
    let step = cmd_get_account_xpub(3, "auto", Some("x"), true, other);
    assert!(matches!(step, Step::Done(Err(e)) if e == "device returned SW=0x6985"));
    let step = cmd_get_account_xpub(3, "usb", None, false, None);
    assert!(
        matches!(step, Step::Done(Err(e)) if e == "USB Ledger is not supported on this platform")
    );
    let step = cmd_get_account_xpub(3, "auto", Some("x"), true, Some(Ok("key".to_string())));
    assert!(matches!(step, Step::Done(Ok(k)) if k == "key"));
}

#[test]
fn commands_carry_their_job() {
    let step = cmd_sign_message("m/1'", "hé", "usb", None, true, None);
    match step {
        Step::Usb(Job::SignMessage { path, message }) => {
            assert_eq!(path, vec![harden(1)]);
            assert_eq!(message, "hé".as_bytes().to_vec());
        }
        _ => panic!("another step"),
    }
    let step = cmd_sign_message("m/x", "hi", "usb", None, true, None);
    assert!(matches!(step, Step::Done(Err(e)) if e.starts_with("path component \"x\"")));
    let step = cmd_sign_pstx("00", "main", "ble", Some("d"), true, None);
    match step {
        Step::Ble(id, Job::SignPstx { pstx_hex, network }) => {
            assert_eq!((id.as_str(), pstx_hex.as_str(), network.as_str()), ("d", "00", "main"));
        }
        _ => panic!("another step"),
    }
}

#[test]
fn a_pstx_is_signed_and_keeps_its_transaction() {
    let p = PstxV1 { tx_bytes: one_input_tx(), coins: vec![coin(0, KEY_HASH.to_vec())] };
    let mut paths = TextMap::new();
    paths.insert(
        "fb1qw508d6qejxtdg4y5r3zarvary0c5xw7kcnpusk".to_string(),
        "m/44'/14159'/0'/0/5".to_string(),
    );
    let inputs = sign_inputs(&p, "main", &paths).unwrap();
    assert_eq!(inputs[0].path, vec![harden(44), harden(14159), harden(0), 0, 5]);
    assert_eq!((inputs[0].value, inputs[0].sighash_type), (123456789, 1));
    let mut replies: Vec<Result<Vec<u8>, String>> = vec![Ok(vec![]); 4];
    replies.push(Ok(sign_reply()));
    let script = Script::new(replies);
    let text = sign_parsed_pstx(&p, "main", &paths, &mut Ledger::new(&script)).unwrap();
    let back = decode_pstx(&format!("  {}\n", text)).unwrap();
    let head = 7 + p.tx_bytes.len() + 46 + 20;
    assert_eq!(text.len(), 2 * (head + 101));
    let plain = hex::encode(p.serialize_p2wpkh(&[(vec![], vec![])]).unwrap());
    assert_eq!(text[..2 * head], plain[..2 * head]);
    assert_eq!(back.tx_bytes, p.tx_bytes);
    assert_eq!(back.coins[0].address_hash, p.coins[0].address_hash);
    assert!(text.ends_with(&format!("0041{}0121{}", "5a".repeat(64), "03".repeat(33))));
    assert_eq!(
        sign_inputs(&p, "testnet", &paths).err(),
        Some(
            "no derivation path for input 0 address ft1qw508d6qejxtdg4y5r3zarvary0c5xw7krj3ykn"
                .to_string()
        )
    );
}

#[test]
fn hexadecimal_is_decoded() {
    assert_eq!(
        decode_pstx("0g").err(),
        Some("hex decode: Invalid character 'g' at position 1".to_string())
    );
    assert_eq!(decode_pstx("000").err(), Some("hex decode: Odd number of digits".to_string()));
    assert_eq!(decode_pstx("0101").err(), Some("not a v1 PSTX".to_string()));
    let p = decode_pstx("01020000000A0b0000").unwrap();
    assert_eq!(p.tx_bytes, vec![10, 11]);
    let r = SignResult { sig: vec![1; 64], sighash_byte: 1, pubkey: vec![2; 33] };
    assert_eq!(
        finish_pstx(&p, vec![r]).err(),
        Some("expected 0 input slots, got 1".to_string())
    );
}

#[test]
fn nothing_that_lacks_its_end_is_read() {
    let tx = one_input_tx();
    for k in 0..tx.len() {
        assert!(parse_unsigned_tx(&tx[..k]).is_err());
    }
    let mut longer = tx.clone();
    longer.push(9);
    assert!(parse_unsigned_tx(&longer).is_ok());

    let p = PstxV1 { tx_bytes: tx, coins: vec![coin(0, KEY_HASH.to_vec())] };
    let none = vec![(vec![], vec![])];
    let bytes = p.serialize_p2wpkh(&none).unwrap();
    let end = bytes.len() - 3;
    for k in 0..end {
        assert!(PstxV1::parse(&bytes[..k]).is_err());
    }
    let mut other = bytes[..end].to_vec();
    other.extend_from_slice(&[7, 7]);
    let back = PstxV1::parse(&other).unwrap();
    let signed = back.serialize_p2wpkh(&[(vec![5; 65], vec![3; 33])]).unwrap();
    assert_eq!(signed[..end], bytes[..end]);
}

#[test]
fn addresses_decode_to_what_they_were_made_of() {
    for (network, hrp) in
        [("main", "fb"), ("mainnet", "fb"), ("testnet", "ft"), ("regtest", "fr"), ("simnet", "fs")]
    {
        for len in [20, 32] {
            let program: Vec<u8> = (0..len).collect();
            let text = encode_bech32_address(network, 0, &program).unwrap();
            assert!(text.starts_with(&format!("{hrp}1q")));
            assert!(text.chars().all(|c| c.is_ascii_lowercase() || c.is_ascii_digit()));
            let (h, version, back) = bech32::segwit::decode(&text).unwrap();
            assert_eq!((h.as_str(), version.to_u8(), back), (hrp, 0, program));
        }
    }
}
