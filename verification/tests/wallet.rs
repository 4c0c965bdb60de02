//! Settings, files, the node, and what belongs to them.

use fistbump_wallet::biometric::{
    biometric_keeper, is_available, load, open_file, read_opened, save, seal_with, Keeper, LoadAct,
    LoadEvent,
};
use fistbump_wallet::build_info::{build_network, bundled_hash, network_or_default, wallet_hash};
use fistbump_wallet::doubles::{positive_finite, to_whole};
use fistbump_wallet::links::{browse, browse_with, Browse};
use fistbump_wallet::pem::{base64_decode, ca_expiry, pem_bytes};
use fistbump_wallet::places::{
    biometric_path, cookie_path_for, fbd_data_dir, ipc_socket_path, legacy_fbd_wallets_dir,
    migration_marker_path, pid_path, settings_path, wallet_wallets_dir, Base, Os, Place,
};
use fistbump_wallet::rpc::{
    error_reply, make_reply, read_answer, rpc_call, rpc_payload, Answer, Attempt, Next,
};
use fistbump_wallet::settings::{approved_origins, keep_texts, network_ports, read_cookie, Settings};
use fistbump_wallet::setup::{
    ca_key_path, ca_path, finish_setup, get_proxy_status, get_settings, installs_on_launch,
    renew_ca, scan_qr, setup_outcome, setup_proxy, toggle_proxy, Found, Todo,
};
use fistbump_wallet::state::{
    append_log, detect_migration_candidate, find_binary, find_native_lib, first_there, stale_pid,
    start_args, AppState, MigrationCandidate, NodeAct, NodeArg, NodeEvent,
};
use fistbump_wallet::text::{
    between, keep_non_empty, list_contains, parse_number, same_but_for_case, split, split_lines,
    split_words, starts_with_but_for_case, trimmed,
};
use fistbump_wallet::text_map::TextMap;
use fistbump_wallet::wire::{push_be, push_le, read_be, read_le};

fn path(p: Place) -> String {
    let base = match p.base {
        Base::Home => "~",
        Base::LocalAppData => "%",
        Base::AndroidFiles => "android",
        Base::IosDocuments => "ios",
        Base::Program => "program",
        Base::Project => "project",
    };
    format!("{}/{}", base, p.parts.join("/"))
}

fn strings(list: &[&str]) -> Vec<String> {
    list.iter().map(|s| s.to_string()).collect()
}

// ── Numbers and texts ──

#[test]
fn numbers_are_read_as_they_are_written() {
    let mut v = Vec::new();
    push_le(&mut v, 0x0102, 3);
    push_be(&mut v, 0x0102, 3);
    assert_eq!(v, [2, 1, 0, 0, 1, 2]);
    assert_eq!(read_le(&v[..3]), 0x0102);
    assert_eq!(read_be(&v[3..]), 0x0102);
    assert!(positive_finite(0.5f64.to_bits()));
    assert!(!positive_finite(0f64.to_bits()));
    assert!(!positive_finite((-0.5f64).to_bits()));
    assert!(!positive_finite(f64::INFINITY.to_bits()));
    assert!(!positive_finite(f64::NAN.to_bits()));
    assert_eq!(to_whole(3f64.to_bits()), Some(3));
    assert_eq!(to_whole(0f64.to_bits()), Some(0));
    assert_eq!(to_whole((-0f64).to_bits()), Some(0));
    assert_eq!(to_whole(3.5f64.to_bits()), None);
    assert_eq!(to_whole(1e300f64.to_bits()), Some(u64::MAX));
    assert_eq!(to_whole((-1f64).to_bits()), None);
    assert_eq!(to_whole(4503599627370497f64.to_bits()), Some(4503599627370497));
}

#[test]
fn texts_are_taken_apart() {
    assert_eq!(trimmed(" \u{a0}a b\n"), "a b");
    assert_eq!(split("a,,b", ','), strings(&["a", "", "b"]));
    assert_eq!(split_words("  a \t b\n"), strings(&["a", "b"]));
    assert_eq!(split_lines("a\r\nb\n\nc"), strings(&["a", "b", "", "c"]));
    assert_eq!(between("a=b", "="), Some("b".to_string()));
    assert_eq!(parse_number("+7", 9), Some(7));
    assert_eq!(parse_number("007", 9), Some(7));
    assert_eq!(parse_number("10", 9), None);
    assert_eq!(parse_number("", 9), None);
    assert_eq!(parse_number("+", 9), None);
    assert_eq!(parse_number("-1", 9), None);
    assert!(same_but_for_case("aB", "Ab"));
    assert!(!same_but_for_case("É", "é"));
    assert!(starts_with_but_for_case("HOST: x", "host:"));
    assert!(list_contains(&strings(&["a", "b"]), "b"));
    assert_eq!(keep_non_empty(strings(&["", "a", ""])), strings(&["a"]));
}

#[test]
fn values_are_kept_by_their_names() {
    let mut m: TextMap<u8> = TextMap::new();
    assert_eq!(m.get("a"), None);
    m.insert("a".to_string(), 1);
    m.insert("b".to_string(), 2);
    m.insert("a".to_string(), 3);
    assert_eq!(m.get("a"), Some(&3));
    assert!(m.contains_key("b"));
    assert_eq!(m.remove("a"), Some(3));
    assert_eq!(m.remove("a"), None);
    assert_eq!(m.get("b"), Some(&2));
}

// ── Places ──

#[test]
fn files_have_their_places() {
    assert_eq!(path(settings_path(Os::Linux, "main")), "~/.fistbump/settings.json");
    assert_eq!(path(settings_path(Os::MacOs, "testnet")), "~/.fistbump/testnet/settings.json");
    assert_eq!(path(settings_path(Os::Android, "main")), "android/.fistbump/settings.json");
    assert_eq!(path(pid_path(Os::Ios)), "ios/.fistbump/fbd.pid");
    assert_eq!(path(fbd_data_dir(Os::Linux)), "~/.fistbump/fbd-data");
    assert_eq!(path(fbd_data_dir(Os::Android)), "android/fbd-data");
    assert_eq!(path(fbd_data_dir(Os::Ios)), "ios/fbd");
    assert_eq!(path(cookie_path_for(Os::Linux, "main")), "~/.fistbump/fbd-data/.cookie");
    assert_eq!(path(cookie_path_for(Os::Linux, "simnet")), "~/.fistbump/fbd-data/simnet/.cookie");
    assert_eq!(path(legacy_fbd_wallets_dir(Os::Windows, "main")), "%/fbd/wallets");
    assert_eq!(path(legacy_fbd_wallets_dir(Os::Linux, "regtest")), "~/.fbd/regtest/wallets");
    assert_eq!(path(wallet_wallets_dir(Os::Linux, "main")), "~/.fistbump/fbd-data/wallets");
    assert_eq!(
        path(migration_marker_path(Os::Linux)),
        "~/.fistbump/fbd-data/.fistbump-migration-done"
    );
    assert_eq!(path(biometric_path(Os::MacOs, "main", "w")), "~/.fistbump/biometric/w");
    assert_eq!(path(ipc_socket_path(Os::MacOs)), "~/.fistbump/extension.sock");
    assert_eq!(path(ca_path(Os::Linux)), "~/.fistbump/proxy-ca.crt");
    assert_eq!(path(ca_key_path(Os::Linux)), "~/.fistbump/proxy-ca.key");
}

// ── Settings ──

#[test]
fn networks_have_their_ports() {
    let p = |n: &str| {
        let p = network_ports(n, "testnet");
        (p.rpc, p.dns)
    };
    assert_eq!(p("main"), (32869, 32870));
    assert_eq!(p("testnet"), (42869, 42870));
    assert_eq!(p("regtest"), (52869, 52870));
    assert_eq!(p("simnet"), (62869, 62870));
    assert_eq!(p("other"), (42869, 42870));
}

#[test]
fn the_node_is_found_by_the_settings() {
    let mut s = Settings::new();
    assert_eq!(s.rpc_url("main"), "http://127.0.0.1:32869/");
    s.host = Some("h".to_string());
    s.port = Some(7);
    assert_eq!(s.rpc_url("main"), "http://h:7/");
    assert_eq!(s.get_api_key(Some(" k\n".to_string())), Some("k".to_string()));
    s.api_key = Some("own".to_string());
    assert_eq!(s.get_api_key(Some("k".to_string())), Some("own".to_string()));
    assert_eq!(read_cookie(Some(" \n".to_string())), None);
    assert_eq!(read_cookie(None), None);
}

#[test]
fn settings_are_changed() {
    let mut s = Settings::new();
    s.set_miner_address(" a ", Some(3));
    assert_eq!((s.miner_address.clone(), s.miner_threads), (Some("a".to_string()), 3));
    s.set_miner_address(" ", None);
    assert_eq!((s.miner_address.clone(), s.miner_threads), (None, 3));
    s.toggle_mining(true);
    assert!(s.mining_enabled);
    s.toggle_proxy(true);
    assert!(s.proxy_enabled && !s.proxy_setup_done);
    s.finish_proxy_setup();
    assert!(s.proxy_setup_done);
    assert!(s.approve_origin("a"));
    assert!(s.approve_origin("b"));
    assert!(!s.approve_origin("a"));
    assert_eq!(s.approved_origins, strings(&["a", "b"]));
    s.revoke_approved_origin("a");
    assert_eq!(s.approved_origins, strings(&["b"]));
}

#[test]
fn origins_are_read_from_the_settings_file() {
    let read = |s: &str| approved_origins(Some(s.as_bytes()));
    assert_eq!(read(r#"{"approvedOrigins":["a",1,"b"]}"#), strings(&["a", "b"]));
    assert!(read(r#"{"approvedOrigins":7}"#).is_empty());
    assert!(read("{}").is_empty());
    assert!(read("<").is_empty());
    assert!(approved_origins(None).is_empty());
    assert_eq!(keep_texts(vec![None, Some("x".to_string())]), strings(&["x"]));
}

// ── Calls to the node ──

#[test]
fn calls_are_written() {
    assert_eq!(
        rpc_payload("getinfo", "[1]", None),
        r#"{"id":1,"method":"getinfo","params":[1]}"#
    );
    assert_eq!(
        rpc_payload("a\"b", "[]", Some("w")),
        r#"{"id":1,"method":"a\"b","params":[],"wallet":"w"}"#
    );
}

#[test]
fn answers_are_read() {
    let reply = |s: &str| make_reply(&read_answer(s.as_bytes()));
    assert_eq!(reply(r#"{"result":{"b":1,"a":[2]}}"#), r#"{"result":{"a":[2],"b":1}}"#);
    assert_eq!(reply(r#"{"result":null,"error":null}"#), r#"{"result":null}"#);
    assert_eq!(reply("{}"), r#"{"result":null}"#);
    assert_eq!(
        reply(r#"{"error":{"message":"m","code":-5}}"#),
        r#"{"error":"m","errorCode":-5}"#
    );
    assert_eq!(reply(r#"{"error":{"code":3.5}}"#), r#"{"error":"RPC error","errorCode":-1}"#);
    assert_eq!(reply("x"), r#"{"error":"Invalid JSON response"}"#);
    assert_eq!(error_reply("é\t"), "{\"error\":\"é\\t\"}");
    let a = Answer {
        readable: true,
        failed: false,
        message: None,
        code: None,
        result: Some("7".to_string()),
    };
    assert_eq!(make_reply(&a), r#"{"result":7}"#);
}

#[test]
fn calls_are_tried_three_times() {
    let fail = || Attempt::Failed("refused".to_string());
    assert!(matches!(rpc_call(0, fail()), Next::Retry { tried: 1, wait_ms: 500 }));
    assert!(matches!(rpc_call(1, fail()), Next::Retry { tried: 2, wait_ms: 500 }));
    assert!(matches!(rpc_call(2, fail()), Next::Reply(t) if t == r#"{"error":"refused"}"#));
    assert!(matches!(rpc_call(0, Attempt::BrokenOff), Next::Reply(t)
        if t == r#"{"error":"Invalid JSON response"}"#));
    let fine = Attempt::Answered(br#"{"result":1}"#.to_vec());
    assert!(matches!(rpc_call(0, fine), Next::Reply(t) if t == r#"{"result":1}"#));
}

// ── The node ──

#[test]
fn the_log_keeps_its_newest_lines() {
    let mut log = Vec::new();
    append_log(&mut log, "a\r\n\n b \nc");
    assert_eq!(log, strings(&["a", " b ", "c"]));
    for i in 0..600 {
        append_log(&mut log, &format!("{}", i));
    }
    assert_eq!(log.len(), 500);
    assert_eq!(log[0], "100");
    assert_eq!(log[499], "599");
}

#[test]
fn the_program_of_the_node_is_looked_for() {
    let list = |os, arm, known| {
        find_binary(os, arm, known).into_iter().map(path).collect::<Vec<_>>()
    };
    assert_eq!(
        list(Os::Linux, true, true),
        strings(&[
            "program/fbd",
            "project/../bin/linux/aarch64/fbd",
            "project/../bin/linux/fbd",
            "project/../../fbd/.build/debug/fbd",
        ])
    );
    assert_eq!(list(Os::Linux, false, false)[0], "project/../bin/linux/x86_64/fbd");
    assert_eq!(list(Os::Windows, false, true)[..2], strings(&["program/fbd.exe", "project/../bin/windows/fbd.exe"]));
    assert_eq!(list(Os::MacOs, true, true)[1], "project/../bin/darwin/fbd");
    assert_eq!(list(Os::Android, true, true), strings(&["android/fbd"]));
    assert_eq!(first_there(&vec![false, true, true]), Some(1));
    assert_eq!(first_there(&vec![false]), None);
    assert_eq!(
        find_native_lib("7f r-xp 0 /data/app/lib/libfistbump.so\n80 r--p /lib/libc.so\n"),
        strings(&["/data/app/lib/libfistbump.so"])
    );
}

#[test]
fn pid_files_are_read() {
    assert_eq!(stale_pid(" 42\n"), Some(42));
    assert_eq!(stale_pid("0"), None);
    assert_eq!(stale_pid("x"), None);
    assert_eq!(stale_pid("4294967296"), None);
    assert_eq!(stale_pid("4294967295"), Some(u32::MAX));
}

#[test]
fn the_node_gets_its_arguments() {
    let show = |s: &Settings, os| {
        start_args(s, "main", "1.0", os)
            .into_iter()
            .map(|a| match a {
                NodeArg::Text(t) => t,
                NodeArg::DataDir => "DIR".to_string(),
            })
            .collect::<Vec<_>>()
            .join(" ")
    };
    let base = "--log-level debug --network main --datadir DIR --agent fbw:1.0";
    let mut s = Settings::new();
    assert_eq!(show(&s, Os::MacOs), format!("{base}(mac)"));
    assert_eq!(show(&s, Os::Windows), format!("{base}(windows)"));
    assert_eq!(show(&s, Os::Android), format!("{base}(android)"));
    s.miner_address = Some("addr".to_string());
    s.miner_threads = 2;
    assert_eq!(show(&s, Os::Linux), format!("{base}(linux)"));
    s.mining_enabled = true;
    assert_eq!(
        show(&s, Os::Linux),
        format!("{base}(linux) --miner-address addr --miner-threads 2")
    );
    s.miner_address = Some(String::new());
    s.miner_threads = 0;
    assert_eq!(show(&s, Os::Linux), format!("{base}(linux)"));
}

#[test]
fn the_node_is_started_again() {
    let mut st = AppState::new(Settings::new());
    assert!(st.start_node(NodeEvent::Stale(3)) == NodeAct::Wait);
    assert!(st.start_node(NodeEvent::Started(7)) == NodeAct::Wait);
    assert_eq!(st.fbd_pid, Some(7));
    assert!(st.start_node(NodeEvent::Printed("x\ny".to_string())) == NodeAct::Wait);
    assert!(st.start_node(NodeEvent::Exited(-1)) == NodeAct::Rest);
    assert_eq!(st.fbd_pid, None);
    assert!(st.start_node(NodeEvent::Rested) == NodeAct::Start);
    assert!(st.start_node(NodeEvent::NotStarted("no".to_string())) == NodeAct::Wait);
    assert!(st.start_node(NodeEvent::NoProgram { android: false }) == NodeAct::Wait);
    assert_eq!(
        st.get_log(),
        strings(&[
            "[fistbump] killing stale fbd (pid 3)",
            "[fistbump] started fbd (pid 7)",
            "x",
            "y",
            "[fistbump] fbd exited (code -1)",
            "[fistbump] restarting fbd...",
            "[fistbump] error: failed to start fbd: no",
            "[fistbump] error: bundled fbd binary not found",
        ])
    );
    st.start_node(NodeEvent::Started(8));
    assert!(st.start_node(NodeEvent::Rested) == NodeAct::Wait);
    assert_eq!(st.restart_if_managed(), Some(8));
    assert_eq!(st.get_log(), strings(&["[fistbump] restarting fbd for settings change..."]));
    assert_eq!(st.restart_if_managed(), None);
    assert!(st.get_log().is_empty());
    st.push_log_line("phone");
    assert_eq!(st.get_log(), strings(&["phone"]));
}

#[test]
fn a_wallet_that_quits_starts_nothing() {
    let mut st = AppState::new(Settings::new());
    st.start_node(NodeEvent::Started(9));
    assert_eq!(st.stop_node(), Some(9));
    assert!(st.start_node(NodeEvent::Exited(0)) == NodeAct::Wait);
    assert!(st.start_node(NodeEvent::Rested) == NodeAct::Wait);
    assert_eq!(st.stop_node(), None);
}

#[test]
fn old_wallets_are_asked_about() {
    let src = || "s".to_string();
    assert!(detect_migration_candidate(true, 0, src(), 1).is_none());
    assert!(detect_migration_candidate(false, 1, src(), 1).is_none());
    assert!(detect_migration_candidate(false, 0, src(), 0).is_none());
    let found = detect_migration_candidate(false, 0, src(), 2);
    let mut st = AppState::new(Settings::new());
    assert!(!st.begin(found));
    assert!(matches!(st.get_pending_migration(),
        Some(MigrationCandidate { source, wallet_count: 2 }) if source == "s"));
    assert!(matches!(st.resolve_migration(true), Ok(Some(c)) if c.wallet_count == 2));
    assert_eq!(st.resolve_migration(true).err(), Some("no pending migration".to_string()));
    assert!(matches!(st.resolve_migration(false), Ok(None)));
    assert!(st.begin(None));
    st.set_active_wallet(Some("w".to_string()));
    assert_eq!(st.active_wallet, Some("w".to_string()));
    st.set_active_wallet(Some(String::new()));
    assert_eq!(st.active_wallet, None);
}

// ── Setting the proxy up ──

fn found(ca_exists: bool, ca_trusted: bool, pac_installed: bool) -> Found {
    Found { ca_exists, ca_trusted, pac_installed }
}

#[test]
fn the_proxy_is_set_up() {
    let mut s = Settings::new();
    assert_eq!(setup_proxy(found(false, false, false)).err(), Some("Root CA not generated yet".to_string()));
    let todo = setup_proxy(found(true, false, false)).unwrap_or(vec![]);
    assert!(todo.len() == 2 && todo[0] == Todo::InstallCa && todo[1] == Todo::InstallPac);
    assert!(!finish_setup(&mut s, found(true, true, false)));
    assert!(!s.proxy_setup_done);
    assert!(finish_setup(&mut s, found(true, true, true)));
    assert!(s.proxy_setup_done && s.proxy_enabled);
    let todo = toggle_proxy(&mut s, false, found(true, true, true));
    assert!(todo.len() == 1 && todo[0] == Todo::RemovePac);
    assert!(!s.proxy_enabled);
    assert!(!installs_on_launch(&s, found(true, true, false)));
    assert!(toggle_proxy(&mut s, true, found(true, true, true)).is_empty());
    assert!(installs_on_launch(&s, found(true, true, false)));
    assert!(!installs_on_launch(&s, found(true, false, false)));
    assert!(!installs_on_launch(&s, found(true, true, true)));
    assert_eq!(renew_ca(None), Ok("CA certificate renewed".to_string()));
    assert_eq!(renew_ca(Some("e".to_string())), Err("Failed to create CA: e".to_string()));
}

#[test]
fn states_are_written_as_json() {
    let mut s = Settings::new();
    assert_eq!(
        get_proxy_status(&s, found(true, true, false), Some("soon")),
        r#"{"caExists":true,"caExpires":"soon","caTrusted":true,"pacInstalled":false,"proxyEnabled":false,"setupComplete":false,"setupDone":false}"#
    );
    assert!(get_proxy_status(&s, found(false, false, false), None).contains("\"caExpires\":null"));
    assert_eq!(
        setup_outcome(found(true, true, true)),
        r#"{"caTrusted":true,"pacInstalled":true,"setupComplete":true}"#
    );
    assert_eq!(
        get_settings(&s, "main"),
        r#"{"minerAddress":"","minerThreads":0,"miningEnabled":false,"network":"main"}"#
    );
    s.set_miner_address("a\\", Some(4));
    assert!(get_settings(&s, "main").starts_with(r#"{"minerAddress":"a\\","minerThreads":4,"#));
    assert_eq!(scan_qr(Some("x".to_string())), Ok("x".to_string()));
    assert_eq!(scan_qr(Some(String::new())), Err("Scan cancelled".to_string()));
    assert_eq!(
        scan_qr(None),
        Err("QR scanning not available on this platform".to_string())
    );
}

#[test]
fn pages_are_opened() {
    let fine = "https://a/";
    assert!(matches!(browse(true, Os::Linux, "x", false), Ok(Browse::Registered)));
    assert!(matches!(browse(false, Os::Android, "x", false), Ok(Browse::Android)));
    assert!(matches!(browse(false, Os::Ios, "x", false), Ok(Browse::Nothing)));
    assert!(matches!(browse(false, Os::MacOs, fine, true), Ok(Browse::Navigate)));
    assert!(matches!(browse(false, Os::Windows, fine, false), Ok(Browse::Open)));
    assert!(matches!(browse(false, Os::Linux, "x", false), Err(e)
        if e == "relative URL without a base"));
    assert!(matches!(browse_with(false, Os::Linux, Some("e".to_string()), true), Err(e) if e == "e"));
}

// ── Passphrases ──

#[test]
fn passphrases_are_sealed_and_opened() {
    let file = seal_with(&[1; 32], &[2; 12], "pä").ok().unwrap();
    assert_eq!(file.len(), 32 + 12 + 3 + 16);
    assert_eq!(file[..32], [1; 32]);
    assert_eq!(file[32..44], [2; 12]);
    assert_ne!(&file[44..47], "pä".as_bytes());
    assert_eq!(open_file(&file), Some("pä".to_string()));
    let mut spoilt = file.clone();
    spoilt[50] ^= 1;
    assert_eq!(open_file(&spoilt), None);
    assert_eq!(open_file(&file[..59]), None);
    let a = save("secret").ok().unwrap();
    let b = save("secret").ok().unwrap();
    assert_ne!(a, b);
    assert_eq!(open_file(&a), Some("secret".to_string()));
    assert_eq!(read_opened(Some(vec![0xff])), None);
    assert_eq!(read_opened(Some(b"x".to_vec())), Some("x".to_string()));
    assert_eq!(read_opened(None), None);
}

#[test]
fn passphrases_come_out_only_for_the_user() {
    assert!(matches!(load(LoadEvent::Looked(false)), LoadAct::Done(None)));
    assert!(matches!(load(LoadEvent::Looked(true)), LoadAct::Prompt));
    assert!(matches!(load(LoadEvent::Prompted(false)), LoadAct::Done(None)));
    assert!(matches!(load(LoadEvent::Prompted(true)), LoadAct::Read));
    assert!(matches!(load(LoadEvent::Read(None)), LoadAct::Done(None)));
    let file = seal_with(&[1; 32], &[2; 12], "p").ok();
    assert!(matches!(load(LoadEvent::Read(file)), LoadAct::Done(Some(p)) if p == "p"));
    assert!(biometric_keeper(true, Os::Linux) == Keeper::Registered);
    assert!(biometric_keeper(false, Os::MacOs) == Keeper::Files);
    assert!(biometric_keeper(false, Os::Android) == Keeper::Android);
    assert!(biometric_keeper(false, Os::Windows) == Keeper::Nobody);
    assert!(is_available(Some(true)));
    assert!(!is_available(Some(false)));
    assert!(!is_available(None));
}

// ── Certificates as text ──

#[test]
fn base64_is_decoded() {
    assert_eq!(base64_decode("Zm9v\r\nYmE="), Some(b"fooba".to_vec()));
    assert_eq!(base64_decode("Zg=="), Some(b"f".to_vec()));
    assert_eq!(base64_decode("Zg"), Some(b"f".to_vec()));
    assert_eq!(base64_decode("+/8"), Some(vec![0xfb, 0xff]));
    assert_eq!(base64_decode(""), Some(vec![]));
    assert_eq!(base64_decode("Zm 9"), None);
    assert_eq!(base64_decode("é"), None);
}

#[test]
fn the_expiry_of_a_certificate_is_read() {
    let pem = "-----BEGIN X-----\nZm9v\nYmE=\n-----END X-----\n";
    assert_eq!(pem_bytes(pem), Some(b"fooba".to_vec()));
    assert_eq!(pem_bytes("-----BEGIN X-----\n!\n"), None);
    assert_eq!(ca_expiry(pem), None);
    let key = rcgen::KeyPair::generate().unwrap();
    let mut params = rcgen::CertificateParams::new(vec!["name".to_string()]).unwrap();
    params.not_after = rcgen::date_time_ymd(2040, 1, 2);
    let cert = params.self_signed(&key).unwrap();
    let text = ca_expiry(&cert.pem()).unwrap();
    assert!(text.contains("Jan") && text.contains("2040"));
    assert_eq!(pem_bytes(&cert.pem()), Some(cert.der().to_vec()));
}

// ── Builds ──

#[test]
fn builds_know_their_network_and_versions() {
    assert_eq!(build_network(br#"{"network":"main"}"#), Some("main".to_string()));
    assert_eq!(build_network(b"{}"), Some("testnet".to_string()));
    assert_eq!(build_network(b"{"), None);
    assert_eq!(network_or_default(true, None), Some("testnet".to_string()));
    assert_eq!(network_or_default(false, Some("main".to_string())), None);
    assert_eq!(wallet_hash(Some(b"abc1234\n".to_vec())), "abc1234");
    assert_eq!(wallet_hash(Some(vec![0xff])), "");
    assert_eq!(wallet_hash(None), "");
    let file = "// x\nlet _buildHash = \"f00\"\nlet _buildHash = \"bar\"\n";
    assert_eq!(bundled_hash(Some(file)), "f00");
    assert_eq!(bundled_hash(Some("let _buildHash = 1\nlet _buildHash = \"x\"")), "unknown");
    assert_eq!(bundled_hash(Some("nothing")), "unknown");
    assert_eq!(bundled_hash(None), "unknown");
}
