//! The script that sends a browser to the proxy.

use crate::text::{contains_text, decimal, push_decimal, stands_at};
use vstd::prelude::*;

verus! {

pub const PROXY_PORT: u16 = 17350;

pub const SOCKS_PORT: u16 = 17351;

/// The script: everything goes through the proxy, which can tell Fistbump
/// names from others, except for this machine and addresses in numbers. Only
/// an IPv6 address has a colon in it: a name never has, and a port is not part
/// of the host.
pub open spec fn pac_text() -> Seq<char> {
    "function FindProxyForURL(url, host) {\n    if (host === 'localhost' || host === '127.0.0.1' || host === '::1') {\n        return 'DIRECT';\n    }\n    if (/^\\d+\\.\\d+\\.\\d+\\.\\d+$/.test(host) || host.indexOf(':') !== -1) {\n        return 'DIRECT';\n    }\n    return 'PROXY 127.0.0.1:"@
        + decimal(PROXY_PORT as nat) + "; DIRECT';\n}"@
}

/// The proxy auto-configuration script.
pub fn pac_script() -> (r: String)
    ensures
        r@ == pac_text(),
{
    let mut out =
        "function FindProxyForURL(url, host) {\n    if (host === 'localhost' || host === '127.0.0.1' || host === '::1') {\n        return 'DIRECT';\n    }\n    if (/^\\d+\\.\\d+\\.\\d+\\.\\d+$/.test(host) || host.indexOf(':') !== -1) {\n        return 'DIRECT';\n    }\n    return 'PROXY 127.0.0.1:".to_owned();
    push_decimal(&mut out, PROXY_PORT as u64);
    out.append("; DIRECT';\n}");
    out
}

/// Where the proxy serves the path `path`.
pub open spec fn local_url(path: Seq<char>) -> Seq<char> {
    "http://127.0.0.1:"@ + decimal(PROXY_PORT as nat) + path
}

/// Where the script is served.
pub open spec fn pac_url() -> Seq<char> {
    local_url("/.fistbump/proxy.pac"@)
}

/// Where the proxy serves a path.
pub fn proxy_url(path: &str) -> (r: String)
    ensures
        r@ == local_url(path@),
{
    let mut out = "http://127.0.0.1:".to_owned();
    push_decimal(&mut out, PROXY_PORT as u64);
    out.append(path);
    out
}

/// The script sends a browser to the proxy on its own port of this machine, and
/// past it if the proxy is not there.
pub proof fn law_script_names_the_proxy()
    ensures
        contains_text(pac_text(), "return 'PROXY 127.0.0.1:17350; DIRECT';"@),
        PROXY_PORT == 17350,
        SOCKS_PORT == 17351,
{
    reveal_strlit("return 'PROXY 127.0.0.1:17350; DIRECT';");
    reveal_strlit("; DIRECT';\n}");
    reveal_strlit("return 'PROXY 127.0.0.1:");
    reveal_strlit(
        "function FindProxyForURL(url, host) {\n    if (host === 'localhost' || host === '127.0.0.1' || host === '::1') {\n        return 'DIRECT';\n    }\n    if (/^\\d+\\.\\d+\\.\\d+\\.\\d+$/.test(host) || host.indexOf(':') !== -1) {\n        return 'DIRECT';\n    }\n    return 'PROXY 127.0.0.1:",
    );
    reveal_with_fuel(decimal, 5);
    assert(decimal(17350) =~= seq!['1', '7', '3', '5', '0']);
    let long =
        "function FindProxyForURL(url, host) {\n    if (host === 'localhost' || host === '127.0.0.1' || host === '::1') {\n        return 'DIRECT';\n    }\n    if (/^\\d+\\.\\d+\\.\\d+\\.\\d+$/.test(host) || host.indexOf(':') !== -1) {\n        return 'DIRECT';\n    }\n    return 'PROXY 127.0.0.1:"@;
    let t = pac_text();
    let needle = "return 'PROXY 127.0.0.1:17350; DIRECT';"@;
    let at = long.len() - 24;
    assert(long.skip(at) =~= "return 'PROXY 127.0.0.1:"@);
    assert(t.subrange(at, at + needle.len()) =~= needle);
    assert(stands_at(t, needle, at));
}

} // verus!
