//! Requests through the proxy.

use fistbump_wallet::proxy::cache::{Cache, CERT_CACHE_TTL_SECS, DNS_CACHE_TTL_SECS};
use fistbump_wallet::proxy::connect::{handle_connect, start_connect, tunnel_direct, Phase};
use fistbump_wallet::proxy::dns::{ResolveResult, ResolvedName, TlsaRecord};
use fistbump_wallet::proxy::http::{handle_http, start_http, HttpRequest};
use fistbump_wallet::proxy::pac::{pac_script, proxy_url};
use fistbump_wallet::proxy::pages::{
    error_html, error_response, page_for_certificate_error, page_for_no_response,
    page_for_ssl_error, page_for_unresolved, page_for_unverified, redirect_to, serve_pac, Page,
};
use fistbump_wallet::proxy::request::{
    absolute_url, content_length, ends_headers, extract_tld, forward_head, is_fistbump_name,
    parse_host_port, parse_http_url, remember_bypass, route_request, Route,
};
use fistbump_wallet::proxy::socks::{handle_socks5, start_socks, Greeting, Heard, SocksPhase};
use fistbump_wallet::proxy::steps::{
    after_read, is_worth_logging, join_port, listener_next, pick_address, Act, Event, Flow,
    ListenAct, ListenEvent, ReadOutcome,
};
use fistbump_wallet::text_map::TextMap;

fn tlds() -> Vec<String> {
    vec!["com".to_string(), "org".to_string()]
}

fn found(tlsa: Vec<TlsaRecord>) -> Event {
    Event::Resolved(ResolveResult::Found(ResolvedName {
        ipv4: Some("9.9.9.9".to_string()),
        ipv6: Some("1:2".to_string()),
        cname: None,
        tlsa,
    }))
}

fn whole(cert: &[u8]) -> TlsaRecord {
    TlsaRecord { usage: 3, selector: 0, matching_type: 0, cert_data: cert.to_vec() }
}

const ESTABLISHED: &[u8] = b"HTTP/1.1 200 Connection Established\r\n\r\n";

// ── Requests ──

#[test]
fn names_are_told_apart_by_their_last_label() {
    assert_eq!(extract_tld("www.example"), "example");
    assert_eq!(extract_tld("example"), "example");
    assert_eq!(extract_tld("a."), "");
    assert!(is_fistbump_name("shop.bump", &tlds()));
    assert!(!is_fistbump_name("example.com", &tlds()));
}

#[test]
fn targets_are_split() {
    assert_eq!(parse_host_port("a.b:8443"), ("a.b".to_string(), 8443));
    assert_eq!(parse_host_port("a.b"), ("a.b".to_string(), 443));
    assert_eq!(parse_host_port("a.b:x"), ("a.b".to_string(), 443));
    assert_eq!(parse_host_port("a.b:65536"), ("a.b".to_string(), 443));
    assert_eq!(parse_host_port("1:2:3"), ("1:2".to_string(), 3));
    let u = |s: &str| parse_http_url(s);
    assert_eq!(u("http://h:81/p/q?r"), ("h".to_string(), 81, "/p/q?r".to_string()));
    assert_eq!(u("http://h"), ("h".to_string(), 80, "/".to_string()));
    assert_eq!(u("h/x"), ("h".to_string(), 80, "/x".to_string()));
    assert_eq!(absolute_url("h/x"), "http://h/x");
    assert_eq!(absolute_url("http://h/x"), "http://h/x");
}

#[test]
fn requests_are_routed() {
    assert!(matches!(route_request("GET /\r\n"), Route::Nothing));
    assert!(matches!(
        route_request("GET /.fistbump/proxy.pac HTTP/1.1\r\n"),
        Route::Pac(t) if t == serve_pac()
    ));
    assert!(matches!(
        route_request("GET http://127.0.0.1:17350/.fistbump/proxy.pac HTTP/1.1"),
        Route::Pac(_)
    ));
    match route_request("GET /.fistbump/dane-bypass?host=shop HTTP/1.1") {
        Route::Bypass { host, response } => {
            assert_eq!(host, "shop");
            assert_eq!(response, redirect_to("shop"));
        }
        _ => panic!("another route"),
    }
    assert!(matches!(
        route_request("GET /.fistbump/dane-bypass?host= HTTP/1.1"),
        Route::Http { .. }
    ));
    assert!(matches!(
        route_request("connect a:1 HTTP/1.1"),
        Route::Connect { target } if target == "a:1"
    ));
    assert!(matches!(
        route_request("POST http://a/ HTTP/1.1"),
        Route::Http { method, target } if method == "POST" && target == "http://a/"
    ));
    assert!(ends_headers("\r\n"));
    assert!(!ends_headers("Host: x\r\n"));
}

#[test]
fn headers_are_passed_on() {
    let h = vec![
        "HOST: other\r\n".to_string(),
        "Connection: keep-alive\r\n".to_string(),
        "Proxy-Connection: x\r\n".to_string(),
        "content-LENGTH: 12\r\n".to_string(),
        "Accept: */*\r\n".to_string(),
    ];
    assert_eq!(
        forward_head("GET", "/p", "h", &h),
        "GET /p HTTP/1.1\r\nHost: h\r\ncontent-LENGTH: 12\r\nAccept: */*\r\nConnection: close\r\n\r\n"
    );
    assert_eq!(
        forward_head("GET", "/", "h", &vec![]),
        "GET / HTTP/1.1\r\nHost: h\r\nConnection: close\r\n\r\n"
    );
    assert_eq!(content_length(&h), 12);
    assert_eq!(content_length(&vec!["Content-Length: x\r\n".to_string()]), 0);
    assert_eq!(content_length(&vec![]), 0);
}

// ── Pages ──

#[test]
fn pages_are_written() {
    let p = Page { badge: "B".to_string(), title: "T".to_string(), message: "Mé".to_string() };
    let html = error_html(&p);
    assert!(html.contains("<div class=\"badge\">B</div><h2>T</h2><p>Mé</p>"));
    assert!(html.contains("html,body{height:100%;margin:0}"));
    assert_eq!(
        error_response(&p),
        format!(
            "HTTP/1.1 200 OK\r\nContent-Type: text/html; charset=utf-8\r\nContent-Length: {}\r\nConnection: close\r\n\r\n{}",
            html.len(),
            html
        )
    );
    let q = page_for_unresolved(&ResolveResult::NotFound, "shop");
    assert_eq!(q.badge, "NAME NOT FOUND");
    assert_eq!(
        q.message,
        "The name <strong>shop</strong> is not registered on the Fistbump blockchain."
    );
    assert_eq!(page_for_unresolved(&ResolveResult::NoRecords, "s").badge, "NO RECORDS");
    assert_eq!(page_for_unresolved(&ResolveResult::NoWebsite, "s").badge, "NO WEBSITE");
    assert_eq!(page_for_unresolved(&ResolveResult::DnsError, "s").badge, "DNS ERROR");
    assert_eq!(page_for_no_response("s").title, "No Response");
    assert_eq!(page_for_ssl_error("s").badge, "SSL ERROR");
    assert_eq!(page_for_certificate_error("s").badge, "CERTIFICATE ERROR");
    assert_eq!(page_for_unverified("s", false).badge, "NO DANE RECORD");
    let u = page_for_unverified("s", true);
    assert_eq!(u.badge, "DANE VALIDATION FAILED");
    assert!(u.message.ends_with(
        "<br><br><a href=\"http://127.0.0.1:17350/.fistbump/dane-bypass?host=s\" style=\"color:#60a5fa\">Proceed anyway</a>"
    ));
}

#[test]
fn the_script_is_served() {
    let script = pac_script();
    assert!(script.starts_with("function FindProxyForURL(url, host) {\n"));
    assert!(script.contains("/^\\d+\\.\\d+\\.\\d+\\.\\d+$/.test(host) || host.indexOf(':') !== -1"));
    assert!(script.ends_with("    return 'PROXY 127.0.0.1:17350; DIRECT';\n}"));
    assert_eq!(
        serve_pac(),
        format!(
            "HTTP/1.1 200 OK\r\nContent-Type: application/x-ns-proxy-autoconfig\r\nCache-Control: max-age=3600\r\nContent-Length: {}\r\nConnection: close\r\n\r\n{}",
            script.len(),
            script
        )
    );
    assert_eq!(proxy_url("/x"), "http://127.0.0.1:17350/x");
    assert_eq!(
        redirect_to("h"),
        "HTTP/1.1 302 Found\r\nLocation: https://h/\r\nContent-Length: 0\r\nConnection: close\r\n\r\n"
    );
}

// ── CONNECT ──

#[test]
fn ordinary_names_are_tunnelled() {
    let (phase, step) = start_connect("example.com:443", &tlds());
    assert!(matches!(phase, Phase::Over));
    assert!(step.write.is_empty());
    assert!(matches!(step.act, Act::Tunnel { host, port: 443 } if host == "example.com"));
    let t = tunnel_direct("example.com", 443, true);
    assert_eq!(t.write, ESTABLISHED);
    assert_eq!(t.error, None);
    let t = tunnel_direct("example.com", 443, false);
    assert_eq!(
        t.write,
        b"HTTP/1.1 502 Bad Gateway\r\nContent-Length: 0\r\nConnection: close\r\n\r\n"
    );
    assert_eq!(t.error, Some("tunnel_direct: connect to example.com:443 failed".to_string()));
}

#[test]
fn a_vouched_certificate_is_relayed() {
    let bypass = TextMap::new();
    let (phase, step) = start_connect("shop:443", &tlds());
    assert!(matches!(step.act, Act::Resolve { host } if host == "shop"));
    let (phase, step) = handle_connect(phase, found(vec![whole(b"cert")]), &bypass);
    assert!(matches!(step.act, Act::Dial { addr } if addr == "9.9.9.9:443"));
    let (phase, step) = handle_connect(phase, Event::Dialed(true), &bypass);
    assert!(matches!(step.act, Act::Handshake { host } if host == "shop"));
    let (phase, step) = handle_connect(phase, Event::TlsDone(b"cert".to_vec()), &bypass);
    assert!(matches!(step.act, Act::Mint { .. }));
    let (phase, step) = handle_connect(phase, Event::Minted(true), &bypass);
    assert!(matches!(phase, Phase::Over));
    assert_eq!(step.write, ESTABLISHED);
    assert!(matches!(step.act, Act::Relay { host } if host == "shop"));
}

#[test]
fn another_certificate_is_not_relayed_unless_the_user_insists() {
    let after_handshake = |bypass: &TextMap<()>| {
        let (phase, _) = start_connect("shop:443", &tlds());
        let (phase, _) = handle_connect(phase, found(vec![whole(b"cert")]), bypass);
        let (phase, _) = handle_connect(phase, Event::Dialed(true), bypass);
        handle_connect(phase, Event::TlsDone(b"other".to_vec()), bypass).1
    };
    let mut bypass = TextMap::new();
    let step = after_handshake(&bypass);
    assert_eq!(step.write, ESTABLISHED);
    match step.act {
        Act::TlsPage { host, response } => {
            assert_eq!(host, "shop");
            assert_eq!(response, error_response(&page_for_unverified("shop", true)));
        }
        _ => panic!("another act"),
    }
    remember_bypass(&mut bypass, "shop".to_string());
    assert!(matches!(after_handshake(&bypass).act, Act::Mint { .. }));
}

#[test]
fn failures_of_a_connect_request_are_answered() {
    let bypass = TextMap::new();
    let start = || start_connect("shop", &tlds()).0;
    let (_, step) = handle_connect(start(), Event::Resolved(ResolveResult::NoRecords), &bypass);
    assert!(matches!(step.act, Act::TlsPage { .. }));
    let bare = ResolvedName { ipv4: None, ipv6: None, cname: None, tlsa: vec![] };
    let (_, step) =
        handle_connect(start(), Event::Resolved(ResolveResult::Found(bare)), &bypass);
    assert!(matches!(step.act, Act::TlsPage { response, .. }
        if response == error_response(&page_for_unresolved(&ResolveResult::NoWebsite, "shop"))));
    let dialing = || handle_connect(start(), found(vec![]), &bypass).0;
    let (_, step) = handle_connect(dialing(), Event::Dialed(false), &bypass);
    assert!(matches!(step.act, Act::TlsPage { response, .. }
        if response == error_response(&page_for_no_response("shop"))));
    let shaking = || handle_connect(dialing(), Event::Dialed(true), &bypass).0;
    let (_, step) = handle_connect(shaking(), Event::TlsNotStarted, &bypass);
    assert_eq!(step.write, b"HTTP/1.1 502 TLS Init Failed\r\n\r\n");
    assert!(matches!(step.act, Act::Close));
    let (_, step) = handle_connect(shaking(), Event::TlsFailed, &bypass);
    assert_eq!(step.write, b"HTTP/1.1 502 TLS Handshake Failed\r\n\r\n");
    let (_, step) = handle_connect(shaking(), Event::TlsDone(vec![]), &bypass);
    assert!(matches!(step.act, Act::TlsPage { response, .. }
        if response == error_response(&page_for_unverified("shop", false))));
    let (_, step) =
        handle_connect(Phase::Minting { host: "shop".to_string() }, Event::Minted(false), &bypass);
    assert_eq!(step.write, b"HTTP/1.1 502 Internal Error\r\n\r\n");
}

// ── Plain HTTP ──

#[test]
fn plain_requests_are_forwarded() {
    let req = HttpRequest {
        method: "GET".to_string(),
        target: "http://shop:81/x".to_string(),
        headers: vec!["Content-Length: 4\r\n".to_string()],
    };
    assert!(matches!(start_http(&req, &tlds()).act, Act::Resolve { host } if host == "shop"));
    let step = handle_http(&req, found(vec![]));
    assert!(matches!(step.act, Act::Dial { addr } if addr == "9.9.9.9:81"));
    match handle_http(&req, Event::Dialed(true)).act {
        Act::Forward { head, body_len } => {
            assert_eq!(body_len, 4);
            assert!(head.starts_with("GET /x HTTP/1.1\r\n"));
        }
        _ => panic!("another act"),
    }
    let step = handle_http(&req, Event::Dialed(false));
    assert!(matches!(step.act, Act::PlainPage { response }
        if response == error_response(&page_for_no_response("shop"))));
    let step = handle_http(&req, Event::Resolved(ResolveResult::DnsError));
    assert!(matches!(step.act, Act::PlainPage { .. }));
    let com = HttpRequest {
        method: "GET".to_string(),
        target: "a.com/".to_string(),
        headers: vec![],
    };
    assert!(matches!(start_http(&com, &tlds()).act, Act::Dial { addr } if addr == "a.com:80"));
}

// ── SOCKS ──

fn greet(bytes: &[u8]) -> Result<(String, u16, Vec<u8>), String> {
    let mut rest = bytes;
    let mut written = Vec::new();
    let mut g = Greeting::Version;
    loop {
        let n = g.want();
        if rest.len() < n {
            return Err("short".to_string());
        }
        let (now, later) = rest.split_at(n);
        rest = later;
        match g.hear(now) {
            Heard::More(next) => g = next,
            Heard::Reply(b, next) => {
                written.extend_from_slice(&b);
                g = next;
            }
            Heard::Goal { host, port } => return Ok((host, port, written)),
            Heard::Error(e) => return Err(e),
        }
    }
}

#[test]
fn socks_greetings_are_understood() {
    let name = [5, 2, 0, 1, 5, 1, 0, 3, 4, b's', b'h', b'o', b'p', 1, 0xbb];
    assert_eq!(greet(&name), Ok(("shop".to_string(), 443, vec![5, 0])));
    let four = [5, 0, 5, 1, 0, 1, 1, 2, 3, 4, 0, 80];
    assert_eq!(greet(&four), Ok(("1.2.3.4".to_string(), 80, vec![5, 0])));
    let mut six = vec![5, 0, 5, 1, 0, 4];
    six.extend_from_slice(&[0; 15]);
    six.extend_from_slice(&[1, 0, 80]);
    assert_eq!(greet(&six), Ok(("0:0:0:0:0:0:0:1".to_string(), 80, vec![5, 0])));
    assert_eq!(greet(&[4, 1]), Err("not SOCKS5".to_string()));
    assert_eq!(greet(&[5, 0, 5, 2, 0, 1]), Err("unsupported SOCKS5 command".to_string()));
    assert_eq!(greet(&[5, 0, 5, 1, 0, 2]), Err("unsupported address type".to_string()));
    let odd = [5, 0, 5, 1, 0, 3, 1, 0xff, 0, 80];
    assert_eq!(greet(&odd), Ok(("\u{fffd}".to_string(), 80, vec![5, 0])));
}

const GRANTED: [u8; 10] = [5, 0, 0, 1, 0, 0, 0, 0, 0, 0];

#[test]
fn socks_connections_to_ordinary_names() {
    let bypass = TextMap::new();
    let (phase, step) = start_socks("a.com".to_string(), 443, &tlds());
    assert!(matches!(step.act, Act::Dial { addr } if addr == "a.com:443"));
    let (phase, step) = handle_socks5(phase, Event::Dialed(true), &bypass);
    assert_eq!(step.write, GRANTED);
    assert!(matches!(step.act, Act::Probe { .. }));
    let (_, step) = handle_socks5(phase, Event::TlsRefused, &bypass);
    assert!(matches!(step.act, Act::TlsPage { response, .. }
        if response == error_response(&page_for_certificate_error("a.com"))));
    let probing = || SocksPhase::Probing { host: "a.com".to_string() };
    let (_, step) = handle_socks5(probing(), Event::TlsDone(vec![]), &bypass);
    assert!(matches!(step.act, Act::Relay { .. }));
    let (_, step) = handle_socks5(probing(), Event::TlsFailed, &bypass);
    assert!(matches!(step.act, Act::TlsPage { response, .. }
        if response == error_response(&page_for_ssl_error("a.com"))));
    let (phase, _) = start_socks("a.com".to_string(), 80, &tlds());
    let (_, step) = handle_socks5(phase, Event::Dialed(true), &bypass);
    assert!(matches!(step.act, Act::Pipe));
    let (phase, _) = start_socks("a.com".to_string(), 80, &tlds());
    let (_, step) = handle_socks5(phase, Event::Dialed(false), &bypass);
    assert_eq!(step.write, [5, 5, 0, 1, 0, 0, 0, 0, 0, 0]);
    assert!(matches!(step.act, Act::Close));
}

#[test]
fn socks_connections_to_fistbump_names() {
    let bypass = TextMap::new();
    let run = |cert: &[u8]| {
        let (phase, step) = start_socks("shop".to_string(), 443, &tlds());
        assert!(matches!(step.act, Act::Resolve { .. }));
        let (phase, _) = handle_socks5(phase, found(vec![]), &bypass);
        let (phase, step) = handle_socks5(phase, Event::Dialed(true), &bypass);
        assert_eq!(step.write, GRANTED);
        assert!(matches!(step.act, Act::Resolve { .. }));
        let (phase, step) = handle_socks5(phase, found(vec![whole(b"cert")]), &bypass);
        assert!(matches!(step.act, Act::Handshake { .. }));
        handle_socks5(phase, Event::TlsDone(cert.to_vec()), &bypass).1
    };
    assert!(matches!(run(b"cert").act, Act::Relay { .. }));
    assert!(matches!(run(b"other").act, Act::TlsPage { .. }));
    let (phase, _) = start_socks("shop".to_string(), 80, &tlds());
    let (_, step) = handle_socks5(phase, Event::Resolved(ResolveResult::NotFound), &bypass);
    assert_eq!(step.write, GRANTED);
    assert!(matches!(step.act, Act::PlainPage { .. }));
}

// ── The rest ──

#[test]
fn bytes_are_passed_on_until_one_side_ends() {
    assert!(after_read(ReadOutcome::Data) == Flow::Pass);
    assert!(after_read(ReadOutcome::NotYet) == Flow::Wait);
    assert!(after_read(ReadOutcome::Ended) == Flow::Stop);
    assert!(after_read(ReadOutcome::Broken) == Flow::Stop);
    assert!(listener_next(ListenEvent::Bound) == ListenAct::Accept);
    assert!(listener_next(ListenEvent::AcceptFailed) == ListenAct::Rebind);
    assert!(listener_next(ListenEvent::BindFailed) == ListenAct::Quit);
    assert!(!is_worth_logging("x: connection reset by peer"));
    assert!(is_worth_logging("certificate"));
    assert_eq!(join_port("h", 80), "h:80");
    let r = ResolvedName { ipv4: None, ipv6: Some("1:2".to_string()), cname: None, tlsa: vec![] };
    assert_eq!(pick_address(&ResolveResult::Found(r)), Some("1:2".to_string()));
    assert_eq!(pick_address(&ResolveResult::NoWebsite), None);
}

#[test]
fn cached_values_are_used_until_they_are_stale() {
    let mut c: Cache<u8> = Cache::new(DNS_CACHE_TTL_SECS);
    assert_eq!(c.lookup("a", 0), None);
    c.store("a".to_string(), 7, 1000);
    assert_eq!(c.lookup("a", 1000), Some(&7));
    assert_eq!(c.lookup("a", 300_999), Some(&7));
    assert_eq!(c.lookup("a", 301_000), None);
    c.store("a".to_string(), 8, 301_000);
    assert_eq!(c.lookup("a", 301_000), Some(&8));
    assert_eq!(CERT_CACHE_TTL_SECS, 3600);
}
