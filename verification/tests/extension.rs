//! Requests of the browser extension, and the bridge.

use fistbump_wallet::bridge::{
    bytes_contains, enclosing_app_bundle, first_is_info, json_escape, relay, socket_path,
    start_bridge, write_error, Act, Event, Phase, Side,
};
use fistbump_wallet::extension::flow::{
    address_value, current_address, frame, frame_len, fresh_id, needs_front, read_wallet_info,
    reply_frame, reply_text, wait_for_active_wallet, AddressCall, AddressLookup, Decision, Next,
    Registry, Reply, WalletInfo, WalletPoll, MAX_FRAME,
};
use fistbump_wallet::extension::focus::{
    capture_previous_focus, frontmost_window_info, raise_record, Window,
};
use fistbump_wallet::extension::hosts::{
    bridge_file, host_filename, host_manifest, install_native_messaging_host, needs_write,
    registry_key, strip_verbatim_prefix, windows_filename,
};
use fistbump_wallet::extension::request::{
    is_hex_string, process_fund_htlc_request, process_get_pubkey_request, process_ipc_message,
    process_sendtx_request, process_sign_htlc_spend_request, process_sign_message_request, Field,
    Kind, Request, Spend, Value,
};
use fistbump_wallet::places::{ipc_socket_path, Os};
use fistbump_wallet::settings::Settings;

fn text(s: &str) -> Option<String> {
    Some(s.to_string())
}

fn bits(d: f64) -> Option<u64> {
    Some(d.to_bits())
}

fn why(r: Request) -> String {
    match r {
        Request::Refused(e) => e,
        _ => panic!("not refused"),
    }
}

fn shown(fields: &[Field]) -> Vec<(String, String)> {
    fields
        .iter()
        .map(|f| {
            let v = match &f.value {
                Value::Text(t) => t.clone(),
                Value::Double(d) => format!("{}", f64::from_bits(*d)),
                Value::Whole(n) => format!("{}", n),
            };
            (f.key.clone(), v)
        })
        .collect()
}

fn pairs(list: &[(&str, &str)]) -> Vec<(String, String)> {
    list.iter().map(|(k, v)| (k.to_string(), v.to_string())).collect()
}

fn asked(r: Request) -> (Kind, Vec<(String, String)>) {
    match r {
        Request::Ask { kind, fields, .. } => (kind, shown(&fields)),
        _ => panic!("not asked"),
    }
}

// ── Requests ──

#[test]
fn payments_are_checked() {
    let send = |o: &str, to, amount| process_sendtx_request(o.to_string(), to, amount);
    assert_eq!(why(send("", text("a"), bits(1.0))), "missing origin");
    assert_eq!(why(send("o", None, bits(1.0))), "missing `to` field");
    assert_eq!(why(send("o", text(""), bits(1.0))), "`to` is empty");
    for bad in [None, bits(0.0), bits(-1.0), bits(f64::NAN), bits(f64::INFINITY)] {
        assert_eq!(
            why(send("o", text("a"), bad)),
            "`amount` must be a positive number (FBC)"
        );
    }
    let (kind, fields) = asked(send("o", text("a"), bits(0.5)));
    assert!(kind == Kind::SendTx);
    assert_eq!(fields, pairs(&[("to", "a"), ("amount", "0.5")]));
}

#[test]
fn messages_to_sign_are_checked() {
    let sign = |o: &str, m, n| process_sign_message_request(o.to_string(), m, n);
    assert_eq!(why(sign("", text("m"), None)), "missing origin");
    assert_eq!(why(sign("o", None, None)), "missing `message` field");
    assert_eq!(
        why(sign("o", Some("é".repeat(4097)), None)),
        "message too long (max 8 KB)"
    );
    assert_eq!(asked(sign("o", Some("é".repeat(4096)), None)).1.len(), 1);
    let (kind, fields) = asked(sign("o", text(""), text("n")));
    assert!(kind == Kind::SignMessage);
    assert_eq!(fields, pairs(&[("message", ""), ("name", "n")]));
    assert_eq!(asked(sign("o", text("m"), text(""))).1, pairs(&[("message", "m")]));
}

#[test]
fn keys_are_asked_for() {
    assert_eq!(why(process_get_pubkey_request(String::new())), "missing origin");
    let (kind, fields) = asked(process_get_pubkey_request("o".to_string()));
    assert!(kind == Kind::GetPublicKey);
    assert!(fields.is_empty());
}

#[test]
fn deposits_are_checked() {
    let fund = |o: &str, s, a, m| process_fund_htlc_request(o.to_string(), s, a, m);
    assert_eq!(why(fund("", text("ab"), bits(1.0), None)), "missing origin");
    assert_eq!(why(fund("o", None, bits(1.0), None)), "missing `witnessScriptHex` field");
    assert_eq!(
        why(fund("o", text("abc"), bits(1.0), None)),
        "`witnessScriptHex` must be a hex string"
    );
    assert_eq!(
        why(fund("o", Some("ab".repeat(10001)), bits(1.0), None)),
        "`witnessScriptHex` is too large"
    );
    assert_eq!(
        why(fund("o", text("ab"), None, None)),
        "`amount` must be a positive number (FBC)"
    );
    let (kind, fields) = asked(fund("o", text("aB01"), bits(2.0), text("x")));
    assert!(kind == Kind::FundHtlc);
    assert_eq!(
        fields,
        pairs(&[("witnessScriptHex", "aB01"), ("amount", "2"), ("memo", "x")])
    );
    assert!(is_hex_string("09afAF"));
    assert!(!is_hex_string(""));
    assert!(!is_hex_string("0g"));
}

fn spend() -> Spend {
    Spend {
        funding_txid: Some("ab".repeat(32)),
        funding_vout: bits(1.0),
        funding_amount: bits(5000.0),
        witness_script: text("51"),
        branch: text("claim"),
        preimage: Some("cd".repeat(32)),
        destination: text("d"),
        fee_rate: bits(2.0),
    }
}

#[test]
fn spends_are_checked() {
    let run = |s: Spend| process_sign_htlc_spend_request("o".to_string(), s);
    assert_eq!(
        why(process_sign_htlc_spend_request(String::new(), spend())),
        "missing origin"
    );
    assert_eq!(why(run(Spend { funding_txid: None, ..spend() })), "missing `fundingTxid`");
    assert_eq!(
        why(run(Spend { funding_txid: text("ab"), ..spend() })),
        "`fundingTxid` must be 64 hex chars"
    );
    for bad in [None, bits(-1.0), bits(0.5), bits(4294967296.0)] {
        assert_eq!(
            why(run(Spend { funding_vout: bad, ..spend() })),
            "`fundingVout` must be a non-negative integer"
        );
    }
    assert_eq!(
        why(run(Spend { funding_amount: None, ..spend() })),
        "`fundingAmount` must be a positive number (bumps)"
    );
    for bad in [bits(0.0), bits(1.5), bits(-3.0)] {
        assert_eq!(
            why(run(Spend { funding_amount: bad, ..spend() })),
            "`fundingAmount` must be a positive integer"
        );
    }
    assert_eq!(
        why(run(Spend { witness_script: None, ..spend() })),
        "missing `witnessScriptHex`"
    );
    assert_eq!(
        why(run(Spend { witness_script: text("x"), ..spend() })),
        "`witnessScriptHex` must be a hex string"
    );
    assert_eq!(why(run(Spend { branch: None, ..spend() })), "missing `branch`");
    assert_eq!(
        why(run(Spend { branch: text("x"), ..spend() })),
        "`branch` must be \"claim\" or \"refund\""
    );
    for bad in [None, text(""), text("cd")] {
        assert_eq!(
            why(run(Spend { preimage: bad, ..spend() })),
            "claim branch requires `preimageHex` (64 hex chars)"
        );
    }
    assert_eq!(
        why(run(Spend { destination: None, ..spend() })),
        "missing `destinationAddress`"
    );
    assert_eq!(
        why(run(Spend { destination: text(""), ..spend() })),
        "`destinationAddress` is empty"
    );
    for bad in [None, bits(0.0), bits(0.25)] {
        assert_eq!(
            why(run(Spend { fee_rate: bad, ..spend() })),
            "`feeRate` must be a positive integer"
        );
    }
    let (kind, fields) = asked(run(spend()));
    assert!(kind == Kind::SignHtlcSpend);
    assert_eq!(
        fields,
        pairs(&[
            ("fundingTxid", &"ab".repeat(32)),
            ("fundingVout", "1"),
            ("fundingAmount", "5000"),
            ("witnessScriptHex", "51"),
            ("branch", "claim"),
            ("preimageHex", &"cd".repeat(32)),
            ("destinationAddress", "d"),
            ("feeRate", "2"),
        ])
    );
    let refund = Spend { branch: text("refund"), preimage: None, ..spend() };
    assert_eq!(asked(run(refund)).1.len(), 7);
    let huge = Spend { funding_amount: bits(1e30), ..spend() };
    assert_eq!(asked(run(huge)).1[2].1, format!("{}", u64::MAX));
}

#[test]
fn messages_are_read() {
    let read = |s: &str| process_ipc_message(s.as_bytes());
    assert_eq!(why(read("{")), "invalid json frame");
    assert_eq!(why(read("{}")), "unknown request type: ");
    assert_eq!(why(read(r#"{"type":"x"}"#)), "unknown request type: x");
    assert!(matches!(read(r#"{"type":"info"}"#), Request::Info { origin } if origin.is_empty()));
    assert_eq!(why(read(r#"{"type":"connect"}"#)), "missing origin");
    assert!(matches!(read(r#"{"type":"connect","origin":"o"}"#),
        Request::Connect { origin } if origin == "o"));
    let (_, fields) = asked(read(r#"{"type":"sendTx","origin":"o","to":"a","amount":0.5}"#));
    assert_eq!(fields, pairs(&[("to", "a"), ("amount", "0.5")]));
    let (_, fields) = asked(read(r#"{"type":"signMessage","origin":"o","message":"m"}"#));
    assert_eq!(fields, pairs(&[("message", "m")]));
    assert!(asked(read(r#"{"type":"getPublicKey","origin":"o"}"#)).0 == Kind::GetPublicKey);
    let (_, fields) = asked(read(
        r#"{"type":"fundHtlc","origin":"o","witnessScriptHex":"51","amount":3,"memo":"m"}"#,
    ));
    assert_eq!(fields, pairs(&[("witnessScriptHex", "51"), ("amount", "3"), ("memo", "m")]));
    let id = "ab".repeat(32);
    let (_, fields) = asked(read(&format!(
        "{{\"type\":\"signHtlcSpend\",\"origin\":\"o\",\"fundingTxid\":\"{id}\",\"fundingVout\":0,\
         \"fundingAmount\":7,\"witnessScriptHex\":\"51\",\"branch\":\"refund\",\
         \"destinationAddress\":\"d\",\"feeRate\":1}}"
    )));
    assert_eq!(fields.len(), 7);
    assert_eq!(fields[2], ("fundingAmount".to_string(), "7".to_string()));
}

#[test]
fn kinds_have_names() {
    assert_eq!(Kind::Connect.name(), "connect");
    assert_eq!(Kind::SignHtlcSpend.name(), "signHtlcSpend");
    assert_eq!(Kind::Connect.event(), "ext://request");
    assert_eq!(Kind::GetPublicKey.event(), "ext://swap-pubkey-request");
}

// ── The flow of a request ──

#[test]
fn frames_are_read_back() {
    let f = frame(b"abc");
    assert_eq!(f, [3, 0, 0, 0, b'a', b'b', b'c']);
    assert_eq!(frame_len(&[3, 0, 0, 0]), Some(3));
    assert_eq!(frame_len(&[0; 4]), None);
    assert_eq!(frame_len(&[0, 0, 16, 0]), Some(MAX_FRAME));
    assert_eq!(frame_len(&[1, 0, 16, 0]), None);
}

#[test]
fn requests_get_names() {
    assert_eq!(fresh_id(0xabc, 17), "ext-abc-11");
    assert_eq!(fresh_id(0, 0), "ext-0-0");
    assert_ne!(fresh_id(0x11, 1), fresh_id(0x1, 0x11));
}

fn connect() -> Request {
    Request::Connect { origin: "o".to_string() }
}

#[test]
fn a_page_is_let_in_once() {
    let mut reg = Registry::new();
    let mut settings = Settings::new();
    let next = reg.begin(connect(), &settings.approved_origins, "1.0", "i".to_string());
    assert!(needs_front(&next));
    match next {
        Next::Prompt { event, name, fields } => {
            assert_eq!((event.id.as_str(), event.origin.as_str(), event.kind), ("i", "o", "connect"));
            assert_eq!(name, "ext://request");
            assert!(fields.is_empty());
        }
        _ => panic!("not put before the user"),
    }
    let (decision, save) =
        reg.resolve_ext_request(&mut settings, "i", true, None, None).ok().unwrap();
    assert!(save);
    assert_eq!(settings.approved_origins, vec!["o".to_string()]);
    let next = reg.decide("i", Kind::Connect, "o".to_string(), Some(decision));
    assert!(matches!(next, Next::LookUp { origin } if origin == "o"));
    assert_eq!(
        reg.resolve_ext_request(&mut settings, "i", true, None, None).err(),
        Some("no such pending request".to_string())
    );
    let next = reg.begin(connect(), &settings.approved_origins, "1.0", "j".to_string());
    assert!(matches!(next, Next::LookUp { .. }));
    assert!(reg.take_pending("j").is_none());
    settings.revoke_approved_origin("o");
    let next = reg.begin(connect(), &settings.approved_origins, "1.0", "k".to_string());
    assert!(matches!(next, Next::Prompt { .. }));
    assert!(matches!(reg.take_pending("k"), Some(p) if p.origin == "o" && p.kind == Kind::Connect));
}

#[test]
fn strangers_are_told_to_connect() {
    let mut reg = Registry::new();
    let ask = || process_get_pubkey_request("o".to_string());
    let next = reg.begin(ask(), &vec![], "1", "i".to_string());
    assert!(!needs_front(&next));
    assert!(matches!(next, Next::Reply(Reply::Error(e))
        if e == "origin not connected — call window.fistbump.connect() first"));
    assert!(reg.take_pending("i").is_none());
    let next = reg.begin(ask(), &vec!["o".to_string()], "1", "i".to_string());
    assert!(matches!(next, Next::Prompt { name, .. } if name == "ext://swap-pubkey-request"));
    let next = reg.begin(Request::Refused("no".to_string()), &vec![], "1", "x".to_string());
    assert!(matches!(next, Next::Reply(Reply::Error(e)) if e == "no"));
}

#[test]
fn the_wallet_says_that_it_is_there() {
    let mut reg = Registry::new();
    let list = vec!["o".to_string()];
    let mut info = |o: &str| {
        let r = Request::Info { origin: o.to_string() };
        match reg.begin(r, &list, "1.2", "i".to_string()) {
            Next::Reply(r) => reply_text(&r),
            _ => panic!("not answered"),
        }
    };
    assert_eq!(info("o"), r#"{"connected":true,"ok":true,"running":true,"version":"1.2"}"#);
    assert_eq!(info(""), r#"{"connected":false,"ok":true,"running":true,"version":"1.2"}"#);
}

#[test]
fn decisions_lead_to_answers() {
    let mut reg = Registry::new();
    let o = || "o".to_string();
    let mut decide = |k, d| reg.decide("i", k, o(), d);
    assert!(matches!(decide(Kind::SendTx, Some(Decision::Approve)), Next::Reply(Reply::Error(e))
        if e == "internal: frontend sent bare approve for non-connect request"));
    let made = Decision::ApproveWith("{}".to_string());
    assert!(matches!(decide(Kind::SendTx, Some(made)), Next::Reply(Reply::Made(t)) if t == "{}"));
    let deny = Decision::Deny("no".to_string());
    assert!(matches!(decide(Kind::SendTx, Some(deny)), Next::Reply(Reply::Error(e)) if e == "no"));
    assert!(matches!(decide(Kind::SendTx, None), Next::Reply(Reply::Error(e))
        if e == "approval request timed out"));
}

#[test]
fn refusals_change_no_settings() {
    let mut reg = Registry::new();
    let mut settings = Settings::new();
    reg.begin(connect(), &vec![], "1", "i".to_string());
    let (d, save) = reg.resolve_ext_request(&mut settings, "i", false, None, None).ok().unwrap();
    assert!(!save);
    assert!(matches!(d, Decision::Deny(e) if e == "user denied"));
    assert!(settings.approved_origins.is_empty());
    reg.begin(connect(), &vec![], "1", "i".to_string());
    let (d, _) = reg
        .resolve_ext_request(&mut settings, "i", false, None, text("why"))
        .ok()
        .unwrap();
    assert!(matches!(d, Decision::Deny(e) if e == "why"));
    let all = vec!["o".to_string()];
    reg.begin(process_get_pubkey_request("o".to_string()), &all, "1", "i".to_string());
    let (d, save) = reg
        .resolve_ext_request(&mut settings, "i", true, text("{\"a\":1}"), None)
        .ok()
        .unwrap();
    assert!(!save);
    assert!(matches!(d, Decision::ApproveWith(v) if v == "{\"a\":1}"));
    reg.begin(connect(), &vec![], "1", "i".to_string());
    let r = reg.emit_failed("i", "gone");
    assert!(matches!(r, Reply::Error(e) if e == "emit failed: gone"));
    assert!(reg.take_pending("i").is_none());
}

#[test]
fn replies_are_written() {
    let a = Reply::Address { address: "a\"b".to_string(), origin: "o".to_string() };
    assert_eq!(reply_text(&a), r#"{"address":"a\"b","origin":"o"}"#);
    assert_eq!(reply_text(&Reply::Made("[1]".to_string())), "[1]");
    assert_eq!(reply_text(&Reply::Error("e\n".to_string())), r#"{"error":"e\n"}"#);
    assert_eq!(reply_frame(&Reply::Made("ab".to_string())), [2, 0, 0, 0, b'a', b'b']);
}

#[test]
fn the_address_is_looked_up() {
    assert!(matches!(wait_for_active_wallet(text("w"), 60000), WalletPoll::Found(w) if w == "w"));
    assert!(matches!(wait_for_active_wallet(None, 0), WalletPoll::Wait(200)));
    assert!(matches!(wait_for_active_wallet(None, 60000), WalletPoll::GiveUp));
    let value = |f| reply_text(&address_value("o".to_string(), f));
    assert_eq!(
        value(current_address(AddressCall::NotMade)),
        "{\"error\":\"no wallet selected — open a wallet in the Fistbump app and try again\"}"
    );
    let body = |s: &str| current_address(AddressCall::Answered(s.as_bytes().to_vec()));
    assert_eq!(
        value(body(r#"{"result":{"address":"fb1"}}"#)),
        r#"{"address":"fb1","origin":"o"}"#
    );
    let failed = |l| match l {
        AddressLookup::RpcFailed(e) => e,
        _ => panic!("not failed"),
    };
    assert_eq!(failed(current_address(AddressCall::NotSent("x".to_string()))), "send: x");
    assert_eq!(failed(current_address(AddressCall::NotRead("y".to_string()))), "decode: y");
    assert_eq!(failed(body("<")), "decode: error decoding response body");
    assert_eq!(failed(body(r#"{"error":{"message":"locked"}}"#)), "locked");
    assert_eq!(failed(body("{}")), "getwalletinfo: no address field");
    assert_eq!(value(body("{}")), r#"{"error":"wallet RPC failed: getwalletinfo: no address field"}"#);
    let info = WalletInfo { readable: true, error: None, address: text("z") };
    assert!(matches!(read_wallet_info(info), AddressLookup::Address(a) if a == "z"));
}

// ── Windows ──

#[test]
fn the_window_in_front_is_remembered() {
    let w = |layer, pid, number| Window { layer, pid, number };
    let list = vec![
        w(Some(25), Some(1), Some(2)),
        w(Some(0), None, Some(3)),
        w(Some(0), Some(7), Some(8)),
        w(Some(0), Some(9), Some(9)),
    ];
    assert_eq!(frontmost_window_info(&list), Some((7, 8)));
    assert_eq!(frontmost_window_info(&vec![]), None);
    assert_eq!(capture_previous_focus(Some((7, 8)), 1).window, Some((7, 8)));
    assert_eq!(capture_previous_focus(Some((7, 8)), 7).window, None);
    assert_eq!(capture_previous_focus(Some((0, 8)), 7).window, None);
    assert_eq!(capture_previous_focus(None, 7).window, None);
    let r = raise_record(0x0102_0304, 2);
    assert_eq!(r.len(), 0xf8);
    assert_eq!((r[4], r[8], r[0x3a]), (0xf8, 2, 0x10));
    assert_eq!(r[0x3c..0x40], [4, 3, 2, 1]);
    assert_eq!(r.iter().filter(|b| **b != 0).count(), 7);
}

// ── Browsers ──

#[test]
fn manifests_are_written() {
    assert_eq!(
        host_manifest("/opt/a\\b", false),
        "{\n  \"allowed_origins\": [\n    \"chrome-extension://gdmmlkmiogkhboacejgemhghamolgaol/\"\n  ],\n  \"description\": \"Fistbump Wallet bridge for the browser extension\",\n  \"name\": \"org.fistbump.wallet\",\n  \"path\": \"/opt/a\\\\b\",\n  \"type\": \"stdio\"\n}"
    );
    assert!(host_manifest("p", true)
        .starts_with("{\n  \"allowed_extensions\": [\n    \"extension@fistbump.org\"\n  ],\n"));
    assert_eq!(host_filename(), "org.fistbump.wallet.json");
    assert_eq!(windows_filename(&host_manifest("p", true)), "org.fistbump.wallet-firefox.json");
    assert_eq!(windows_filename(&host_manifest("p", false)), "org.fistbump.wallet-chromium.json");
    assert_eq!(
        registry_key("Software\\Mozilla"),
        "Software\\Mozilla\\NativeMessagingHosts\\org.fistbump.wallet"
    );
    assert!(needs_write(None, "a"));
    assert!(needs_write(Some("b"), "a"));
    assert!(!needs_write(Some("a"), "a"));
    assert_eq!(strip_verbatim_prefix("\\\\?\\C:\\x"), "C:\\x");
    assert_eq!(strip_verbatim_prefix("\\\\?\\UNC\\s\\x"), "\\\\s\\x");
    assert_eq!(strip_verbatim_prefix("C:\\x"), "C:\\x");
    assert_eq!(bridge_file(Os::Windows), "fistbump-bridge.exe");
    assert_eq!(bridge_file(Os::MacOs), "fistbump-bridge");
}

#[test]
fn browsers_are_known() {
    let places = |os| {
        let (c, f) = install_native_messaging_host(os, "p");
        assert_eq!(c.manifest, host_manifest("p", false));
        assert_eq!(f.manifest, host_manifest("p", true));
        (c.browsers.len(), f.browsers.iter().map(|b| (b.place, b.hosts)).collect::<Vec<_>>())
    };
    assert_eq!(
        places(Os::MacOs),
        (6, vec![("Library/Application Support/Mozilla", "NativeMessagingHosts")])
    );
    assert_eq!(places(Os::Linux), (5, vec![(".mozilla", "native-messaging-hosts")]));
    assert_eq!(places(Os::Windows), (5, vec![("Software\\Mozilla", "NativeMessagingHosts")]));
    assert_eq!(places(Os::Android), (0, vec![]));
    assert_eq!(places(Os::Ios), (0, vec![]));
}

// ── The bridge ──

#[test]
fn texts_are_escaped() {
    assert_eq!(json_escape("a\"\\\n\r\t\u{1}é"), "\"a\\\"\\\\\\n\\r\\t\\u0001é\"");
    assert_eq!(write_error("x"), frame(b"{\"error\":\"x\"}"));
    assert!(bytes_contains(b"abc", b"bc"));
    assert!(!bytes_contains(b"abc", b"cb"));
    assert!(!bytes_contains(b"abc", b""));
    assert!(!bytes_contains(b"a", b"abc"));
    assert!(first_is_info(b"{\"type\":\"info\"}"));
    assert!(first_is_info(b"{\"type\": \"info\"}"));
    assert!(!first_is_info(b"{\"type\":\"connect\"}"));
}

#[test]
fn the_bundle_is_found() {
    let path = |s: &str| s.split('/').map(|p| p.to_string()).collect::<Vec<_>>();
    assert_eq!(
        enclosing_app_bundle(&path("/Applications/Fistbump.app/Contents/MacOS/bridge")),
        Some(3)
    );
    assert_eq!(enclosing_app_bundle(&path("/usr/local/bin/x/bridge")), None);
    assert_eq!(enclosing_app_bundle(&path("a.app/bridge")), None);
    assert_eq!(enclosing_app_bundle(&path("/.app/Contents/MacOS/bridge")), None);
    let p = socket_path();
    assert_eq!(p.parts, vec![".fistbump".to_string(), "extension.sock".to_string()]);
    for os in [Os::MacOs, Os::Linux, Os::Windows] {
        let wallet = ipc_socket_path(os);
        assert!(wallet.base == p.base && wallet.parts == p.parts);
    }
}

#[test]
fn only_approved_origins_are_put_before_the_user() {
    let approved = vec!["https://a".to_string()];
    let mut reg = Registry::new();
    let next = reg.dispatch_frontend_request(
        "https://b".to_string(),
        Kind::SendTx,
        vec![],
        &approved,
        "1".to_string(),
    );
    assert!(matches!(next, Next::Reply(Reply::Error(e)) if e.starts_with("origin not connected")));
    assert!(reg.take_pending("1").is_none());
    let next = reg.dispatch_frontend_request(
        "https://a".to_string(),
        Kind::SendTx,
        vec![],
        &approved,
        "2".to_string(),
    );
    assert!(matches!(next, Next::Prompt { .. }));
    assert!(reg.take_pending("2").is_some());
}

#[test]
fn messages_pass_the_bridge_unchanged() {
    let (phase, act) = start_bridge(true);
    assert!(matches!(act, Act::Read { from: Side::Browser, len: 4 }));
    let (phase, act) = relay(phase, Event::Bytes(vec![2, 0, 0, 0]));
    assert!(matches!(act, Act::Read { from: Side::Browser, len: 2 }));
    let (phase, act) = relay(phase, Event::Bytes(b"{}".to_vec()));
    assert!(matches!(act, Act::Write { to: Side::Wallet, bytes } if bytes == frame(b"{}")));
    let (phase, act) = relay(phase, Event::Written);
    assert!(matches!(act, Act::Read { from: Side::Wallet, len: 4 }));
    let (phase, act) = relay(phase, Event::Bytes(vec![3, 0, 0, 0]));
    assert!(matches!(act, Act::Read { from: Side::Wallet, len: 3 }));
    let (phase, act) = relay(phase, Event::Bytes(b"abc".to_vec()));
    assert!(matches!(act, Act::Write { to: Side::Browser, bytes } if bytes == frame(b"abc")));
    let (phase, act) = relay(phase, Event::Written);
    assert!(matches!(phase, Phase::Asked { connected: true }));
    assert!(matches!(act, Act::Read { from: Side::Browser, len: 4 }));
    let (phase, act) = relay(phase, Event::Closed);
    assert!(matches!(phase, Phase::Over));
    assert!(matches!(act, Act::Exit));
}

#[test]
fn a_probe_does_not_start_the_wallet() {
    let asked = |body: &[u8]| {
        let (phase, _) = start_bridge(false);
        let (phase, _) = relay(phase, Event::Bytes(frame(body)[..4].to_vec()));
        relay(phase, Event::Bytes(body.to_vec()))
    };
    let (phase, act) = asked(b"{\"type\":\"info\"}");
    assert!(matches!(act, Act::Write { to: Side::Browser, bytes }
        if bytes == frame(b"{\"ok\":true,\"running\":false,\"connected\":false}")));
    assert!(matches!(relay(phase, Event::Written).1, Act::Exit));
    let (phase, act) = asked(b"{\"type\":\"connect\"}");
    assert!(matches!(act, Act::Launch));
    let (_, act) = relay(phase, Event::Reached(true));
    assert!(matches!(act, Act::Write { to: Side::Wallet, bytes }
        if bytes == frame(b"{\"type\":\"connect\"}")));
    let (phase, _) = asked(b"x");
    let (_, act) = relay(phase, Event::Reached(false));
    assert!(matches!(act, Act::Write { to: Side::Browser, bytes }
        if bytes == write_error("could not start the Fistbump wallet")));
}

#[test]
fn lengths_out_of_range_end_the_bridge() {
    let (phase, _) = start_bridge(true);
    assert!(matches!(relay(phase, Event::Bytes(vec![0; 4])).1, Act::Exit));
    let (phase, _) = start_bridge(true);
    assert!(matches!(relay(phase, Event::Bytes(vec![0xff; 4])).1, Act::Exit));
    assert!(matches!(relay(Phase::Answering, Event::Bytes(vec![0xff; 4])).1, Act::Exit));
    assert!(matches!(
        relay(Phase::Answering, Event::Bytes(vec![0; 4])).1,
        Act::Read { from: Side::Wallet, len: 0 }
    ));
}
