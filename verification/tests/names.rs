//! Name resolution and certificates.

use fistbump_wallet::proxy::dane::{association_matches, matches_tlsa, validate};
use fistbump_wallet::proxy::dns::{
    build_query, dns_rcode, parse_a, parse_aaaa, parse_answers, parse_cname, parse_name,
    parse_tlsa, resolve, resolve_full, server_address, set_port, DnsServer, Lookup, ResolveResult,
    TlsaRecord,
};
use sha2::Digest;

const NAME: [u8; 6] = [4, b'n', b'a', b'm', b'e', 0];

fn reply(code: u8, qtype: u16, records: &[(u16, Vec<u8>)]) -> Vec<u8> {
    let mut r = vec![0xab, 0xcd, 0x81, code, 0, 1];
    r.extend_from_slice(&(records.len() as u16).to_be_bytes());
    r.extend_from_slice(&[0; 4]);
    r.extend_from_slice(&NAME);
    r.extend_from_slice(&qtype.to_be_bytes());
    r.extend_from_slice(&[0, 1]);
    for (t, data) in records {
        r.extend_from_slice(&[0xc0, 12]);
        r.extend_from_slice(&t.to_be_bytes());
        r.extend_from_slice(&[0, 1, 0, 0, 0, 60]);
        r.extend_from_slice(&(data.len() as u16).to_be_bytes());
        r.extend_from_slice(data);
    }
    r
}

fn tlsa_data() -> Vec<u8> {
    let mut d = vec![3, 1, 1];
    d.extend_from_slice(&[7; 32]);
    d
}

#[test]
fn queries_are_built() {
    let q = build_query("www.name", 1);
    assert_eq!(q[2..12], [1, 0, 0, 1, 0, 0, 0, 0, 0, 0]);
    assert_eq!(
        q[12..],
        [3, b'w', b'w', b'w', 4, b'n', b'a', b'm', b'e', 0, 0, 1, 0, 1]
    );
    assert_eq!(build_query(".www..name.", 1), q);
    let mut at = 12;
    assert_eq!(parse_name(&q, &mut at), Some("www.name".to_string()));
    assert_eq!(at, 22);
}

#[test]
fn names_are_read_through_pointers() {
    let data = [3, b'c', b'o', b'm', 0, 1, b'a', 0xc0, 0, 9];
    let mut at = 5;
    assert_eq!(parse_name(&data, &mut at), Some("a.com".to_string()));
    assert_eq!(at, 9);
    let round = [0xc0, 0];
    let mut at = 0;
    assert_eq!(parse_name(&round, &mut at), None);
    assert_eq!(at, 0);
    let cut = [5, b'a'];
    assert_eq!(parse_name(&cut, &mut at), None);
    let odd = [1, 0xff, 0];
    assert_eq!(parse_name(&odd, &mut at), Some("\u{fffd}".to_string()));
}

#[test]
fn answers_are_found_by_type() {
    let r = reply(0, 1, &[(5, NAME.to_vec()), (1, vec![1, 2, 3, 4]), (1, vec![5, 6, 7, 8])]);
    assert_eq!(parse_answers(&r, 1), vec![vec![1, 2, 3, 4], vec![5, 6, 7, 8]]);
    assert_eq!(parse_answers(&r, 5), vec![NAME.to_vec()]);
    assert!(parse_answers(&r, 28).is_empty());
    assert!(parse_answers(&r[..11], 1).is_empty());
    assert_eq!(parse_answers(&r[..r.len() - 1], 1), vec![vec![1, 2, 3, 4]]);
    assert_eq!(dns_rcode(&r), 0);
    assert_eq!(dns_rcode(&reply(0x83, 1, &[])), 3);
    assert_eq!(dns_rcode(&[1, 2, 3]), 0);
}

#[test]
fn record_data_is_read() {
    assert_eq!(parse_a(&[1, 2, 3, 4]), Some("1.2.3.4".to_string()));
    assert_eq!(parse_a(&[1, 2, 3]), None);
    let mut six = [0u8; 16];
    six[0] = 0x20;
    six[1] = 1;
    six[15] = 0x1f;
    assert_eq!(parse_aaaa(&six), Some("2001:0:0:0:0:0:0:1f".to_string()));
    assert_eq!(parse_aaaa(&six[..15]), None);
    let t = parse_tlsa(&tlsa_data()).unwrap();
    assert_eq!((t.usage, t.selector, t.matching_type), (3, 1, 1));
    assert_eq!(t.cert_data, vec![7; 32]);
    assert!(parse_tlsa(&[3, 1, 1]).is_none());
    assert_eq!(parse_cname(&NAME), Some("name".to_string()));
    assert_eq!(parse_cname(&[9]), None);
}

/// Resolves with a fixed answer to each kind of query.
fn run(name: &str, answer: &dyn Fn(&[u8]) -> Option<Vec<u8>>) -> (ResolveResult, usize) {
    let mut replies = Vec::new();
    loop {
        match resolve_full(&DnsServer { port: 53 }, name, &replies) {
            Lookup::Ask { to, query } => {
                assert_eq!(to, "127.0.0.1:53");
                replies.push(answer(&query));
            }
            Lookup::Done(r) => return (r, replies.len()),
        }
    }
}

fn kind(q: &[u8]) -> u16 {
    u16::from_be_bytes([q[q.len() - 4], q[q.len() - 3]])
}

#[test]
fn a_name_with_an_address_is_found() {
    let (r, asked) = run("name", &|q| match kind(q) {
        1 => Some(reply(0, 1, &[(1, vec![9, 9, 9, 9])])),
        52 => Some(reply(0, 52, &[(52, tlsa_data())])),
        t => Some(reply(0, t, &[])),
    });
    match r {
        ResolveResult::Found(n) => {
            assert_eq!(n.ipv4, Some("9.9.9.9".to_string()));
            assert_eq!(n.ipv6, None);
            assert_eq!(n.cname, None);
            assert_eq!(n.tlsa.len(), 1);
        }
        _ => panic!("not found"),
    }
    assert_eq!(asked, 4);
}

#[test]
fn records_for_the_name_itself_are_tried_last() {
    let (r, asked) = run("name", &|q| match kind(q) {
        28 => Some(reply(0, 28, &[(28, vec![1; 16])])),
        52 if q[12] == 4 && q[13] == b'n' => Some(reply(0, 52, &[(52, tlsa_data())])),
        t => Some(reply(0, t, &[])),
    });
    assert!(matches!(r, ResolveResult::Found(n) if n.tlsa.len() == 1 && n.ipv4.is_none()));
    assert_eq!(asked, 5);
}

#[test]
fn names_that_lead_nowhere_are_told_apart() {
    let (r, asked) = run("name", &|_| None);
    assert!(matches!(r, ResolveResult::DnsError));
    assert_eq!(asked, 1);
    let (r, asked) = run("name", &|q| Some(reply(3, kind(q), &[])));
    assert!(matches!(r, ResolveResult::NotFound));
    assert_eq!(asked, 1);
    let (r, asked) = run("name", &|q| Some(reply(0, kind(q), &[])));
    assert!(matches!(r, ResolveResult::NoRecords));
    assert_eq!(asked, 6);
    let (r, asked) = run("name", &|q| match kind(q) {
        16 => Some(reply(0, 16, &[(16, vec![1, b'x'])])),
        t => Some(reply(0, t, &[])),
    });
    assert!(matches!(r, ResolveResult::NoWebsite));
    assert_eq!(asked, 5);
    let (r, asked) = run("name", &|q| match kind(q) {
        255 => Some(reply(0, 255, &[(15, vec![0, 1, 0])])),
        t => Some(reply(0, t, &[])),
    });
    assert!(matches!(r, ResolveResult::NoWebsite));
    assert_eq!(asked, 6);
    let (r, _) = run("name", &|q| match kind(q) {
        52 => Some(reply(0, 52, &[(52, tlsa_data())])),
        t => Some(reply(0, t, &[])),
    });
    assert!(matches!(r, ResolveResult::NoWebsite));
    let (r, _) = run("name", &|q| match kind(q) {
        52 => Some(reply(0, 52, &[(52, tlsa_data())])),
        t => Some(reply(2, t, &[])),
    });
    assert!(matches!(r, ResolveResult::NoRecords));
}

#[test]
fn an_alias_needs_an_address() {
    let (r, asked) = run("name", &|q| match kind(q) {
        5 => Some(reply(0, 5, &[(5, vec![1, b'x', 0])])),
        t => Some(reply(0, t, &[])),
    });
    assert!(matches!(r, ResolveResult::NoWebsite));
    assert_eq!(asked, 3);
    let (r, _) = run("name", &|q| match kind(q) {
        5 => Some(reply(0, 5, &[(5, vec![1, b'x', 0])])),
        1 => Some(reply(0, 1, &[(1, vec![9, 9, 9, 9])])),
        t => Some(reply(0, t, &[])),
    });
    assert!(matches!(r, ResolveResult::Found(n)
        if n.cname == Some("x".to_string()) && n.ipv4 == Some("9.9.9.9".to_string())));
}

#[test]
fn the_short_form_says_nothing_of_the_reason() {
    let server = DnsServer { port: 53 };
    assert!(matches!(resolve(&server, "name", &vec![None]), Lookup::Done(None)));
    assert!(matches!(resolve(&server, "name", &vec![]), Lookup::Ask { .. }));
}

#[test]
fn the_server_is_on_this_machine() {
    let mut s = DnsServer { port: 1 };
    set_port(&mut s, 32870);
    assert_eq!(server_address(&s), "127.0.0.1:32870");
    set_port(&mut s, 42870);
    assert!(matches!(resolve_full(&s, "name", &vec![]), Lookup::Ask { to, .. }
        if to == "127.0.0.1:42870"));
}

// ── Certificates ──

fn tlsa(usage: u8, selector: u8, matching_type: u8, cert_data: Vec<u8>) -> TlsaRecord {
    TlsaRecord { usage, selector, matching_type, cert_data }
}

#[test]
fn certificates_are_matched_by_hash_and_whole() {
    let cert = b"abc";
    let h256 = sha2::Sha256::digest(cert).to_vec();
    let h512 = sha2::Sha512::digest(cert).to_vec();
    assert_eq!(h256[..4], [0xba, 0x78, 0x16, 0xbf]);
    assert!(matches_tlsa(cert, &tlsa(3, 0, 0, cert.to_vec())));
    assert!(matches_tlsa(cert, &tlsa(3, 0, 1, h256.clone())));
    assert!(matches_tlsa(cert, &tlsa(3, 0, 2, h512.clone())));
    assert!(!matches_tlsa(cert, &tlsa(1, 0, 2, h512.clone())));
    assert!(!matches_tlsa(cert, &tlsa(3, 0, 2, h256.clone())));
    assert!(!matches_tlsa(cert, &tlsa(3, 0, 3, h256.clone())));
    assert!(!matches_tlsa(cert, &tlsa(2, 0, 1, h256.clone())));
    assert!(!matches_tlsa(cert, &tlsa(3, 2, 1, h256.clone())));
    assert!(!matches_tlsa(cert, &tlsa(3, 1, 1, h256.clone())));
    assert!(association_matches(&tlsa(3, 0, 1, vec![1]), b"x", &[1], &[2]));
    assert!(!association_matches(&tlsa(3, 0, 2, vec![1]), b"x", &[1], &[2]));
}

#[test]
fn public_keys_are_matched() {
    let made = rcgen::generate_simple_self_signed(vec!["name".to_string()]).unwrap();
    let der = made.cert.der().to_vec();
    let key = made.key_pair.public_key_der();
    assert!(matches_tlsa(&der, &tlsa(3, 1, 0, key.clone())));
    assert!(matches_tlsa(&der, &tlsa(3, 1, 1, sha2::Sha256::digest(&key).to_vec())));
    assert!(!matches_tlsa(&der, &tlsa(3, 1, 0, der.clone())));
}

#[test]
fn one_matching_record_is_enough() {
    let cert = b"abc";
    let good = tlsa(3, 0, 0, cert.to_vec());
    let bad = tlsa(3, 0, 0, vec![]);
    assert!(!validate(cert, &[]));
    assert!(!validate(cert, &[bad.clone()]));
    assert!(validate(cert, &[bad.clone(), good.clone()]));
    assert!(validate(cert, &[bad.clone(), good, bad]));
}
