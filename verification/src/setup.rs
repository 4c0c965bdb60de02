//! Setting the proxy up, and the state of that.

use crate::json::{json_quote, json_quoted};
use crate::places::{own_base, Os, Place};
use crate::settings::{Settings, SettingsView};
use crate::text::{concat2, decimal, push_decimal};
use vstd::prelude::*;

verus! {

/// What is known of the proxy on this system.
#[derive(Clone, Copy, PartialEq, Eq, Structural)]
pub struct Found {
    /// There is a root certificate.
    pub ca_exists: bool,
    /// The system trusts it.
    pub ca_trusted: bool,
    /// The system knows of the script.
    pub pac_installed: bool,
}

/// What to do.
#[derive(Clone, Copy, PartialEq, Eq, Structural)]
pub enum Todo {
    InstallCa,
    InstallPac,
    RemovePac,
}

/// What is missing on this system.
pub open spec fn missing(f: Found) -> Seq<Todo> {
    (if f.ca_exists && !f.ca_trusted {
        seq![Todo::InstallCa]
    } else {
        seq![]
    }) + (if !f.pac_installed {
        seq![Todo::InstallPac]
    } else {
        seq![]
    })
}

fn list_missing(f: Found) -> (r: Vec<Todo>)
    ensures
        r@ == missing(f),
{
    let mut list: Vec<Todo> = Vec::new();
    if f.ca_exists && !f.ca_trusted {
        list.push(Todo::InstallCa);
    }
    if !f.pac_installed {
        list.push(Todo::InstallPac);
    }
    assert(list@ =~= missing(f));
    list
}

/// Where the root certificate is.
pub fn ca_path(os: Os) -> (r: Place)
    ensures
        r@ == own_base(os).join("proxy-ca.crt"@),
{
    crate::places::settings_base_dir(os).join("proxy-ca.crt")
}

/// Where the key of the root certificate is.
pub fn ca_key_path(os: Os) -> (r: Place)
    ensures
        r@ == own_base(os).join("proxy-ca.key"@),
{
    crate::places::settings_base_dir(os).join("proxy-ca.key")
}

/// Turns the proxy on or off: the settings, and what to do about the system.
pub fn toggle_proxy(settings: &mut Settings, enabled: bool, f: Found) -> (r: Vec<Todo>)
    ensures
        final(settings)@ == (SettingsView { proxy_enabled: enabled, ..old(settings)@ }),
        r@ == if enabled {
            missing(f)
        } else {
            seq![Todo::RemovePac]
        },
{
    settings.toggle_proxy(enabled);
    if enabled {
        list_missing(f)
    } else {
        let mut list: Vec<Todo> = Vec::new();
        list.push(Todo::RemovePac);
        assert(list@ =~= seq![Todo::RemovePac]);
        list
    }
}

/// What to do to set the proxy up. Without a root certificate it cannot be.
pub fn setup_proxy(f: Found) -> (r: Result<Vec<Todo>, String>)
    ensures
        match r {
            Ok(list) => f.ca_exists && list@ == missing(f),
            Err(e) => !f.ca_exists && e@ == "Root CA not generated yet"@,
        },
{
    if !f.ca_exists {
        return Err("Root CA not generated yet".to_owned());
    }
    Ok(list_missing(f))
}

/// Whether all is set up.
pub open spec fn is_complete(f: Found) -> bool {
    f.ca_trusted && f.pac_installed
}

/// What came of setting the proxy up. Only if all is set up is that noted, and
/// the proxy turned on.
pub fn finish_setup(settings: &mut Settings, f: Found) -> (complete: bool)
    ensures
        complete == is_complete(f),
        final(settings)@ == if is_complete(f) {
            SettingsView { proxy_setup_done: true, proxy_enabled: true, ..old(settings)@ }
        } else {
            old(settings)@
        },
{
    let complete = f.ca_trusted && f.pac_installed;
    if complete {
        settings.finish_proxy_setup();
    }
    complete
}

/// Doing what is missing sets all up, if there is a root certificate.
pub proof fn law_setup_is_complete(f: Found)
    requires
        f.ca_exists,
    ensures
        is_complete(
            (Found {
                ca_exists: f.ca_exists,
                ca_trusted: f.ca_trusted || missing(f).contains(Todo::InstallCa),
                pac_installed: f.pac_installed || missing(f).contains(Todo::InstallPac),
            }),
        ),
        is_complete(f) <==> missing(f).len() == 0,
{
    let m = missing(f);
    if !f.ca_trusted {
        assert(m[0] == Todo::InstallCa);
    }
    if !f.pac_installed {
        assert(m.last() == Todo::InstallPac);
        assert(m[m.len() - 1] == Todo::InstallPac);
    }
}

/// Whether the script is installed when the wallet starts: only where the root
/// certificate is trusted, so that the user is asked nothing, and the proxy on.
pub fn installs_on_launch(settings: &Settings, f: Found) -> (r: bool)
    ensures
        r == (f.ca_trusted && settings@.proxy_enabled && !f.pac_installed),
{
    f.ca_trusted && settings.proxy_enabled && !f.pac_installed
}

/// What came of renewing the root certificate.
pub fn renew_ca(failed: Option<String>) -> (r: Result<String, String>)
    ensures
        match failed {
            Some(e) => r matches Err(t) && t@ == "Failed to create CA: "@ + e@,
            None => r matches Ok(t) && t@ == "CA certificate renewed"@,
        },
{
    match failed {
        Some(e) => Err(concat2("Failed to create CA: ", e.as_str())),
        None => Ok("CA certificate renewed".to_owned()),
    }
}

// ── As JSON ──

pub open spec fn bool_text(b: bool) -> Seq<char> {
    if b {
        "true"@
    } else {
        "false"@
    }
}

fn push_bool(out: &mut String, key: &str, b: bool)
    ensures
        final(out)@ == old(out)@ + key@ + bool_text(b),
{
    out.append(key);
    if b {
        out.append("true");
    } else {
        out.append("false");
    }
}

/// The state of the proxy, as JSON.
pub open spec fn status_text(s: SettingsView, f: Found, expires: Option<Seq<char>>) -> Seq<char> {
    "{\"caExists\":"@ + bool_text(f.ca_exists) + ",\"caExpires\":"@ + (match expires {
        Some(t) => json_quoted(t),
        None => "null"@,
    }) + ",\"caTrusted\":"@ + bool_text(f.ca_trusted) + ",\"pacInstalled\":"@ + bool_text(
        f.pac_installed,
    ) + ",\"proxyEnabled\":"@ + bool_text(s.proxy_enabled) + ",\"setupComplete\":"@ + bool_text(
        is_complete(f),
    ) + ",\"setupDone\":"@ + bool_text(s.proxy_setup_done) + "}"@
}

/// The state of the proxy, as JSON. `expires` says when the root certificate
/// expires, where that is known.
pub fn get_proxy_status(settings: &Settings, f: Found, expires: Option<&str>) -> (r: String)
    ensures
        r@ == status_text(settings@, f, crate::text::slice_text_of(expires)),
{
    let mut out = String::new();
    push_bool(&mut out, "{\"caExists\":", f.ca_exists);
    assert(out@ =~= "{\"caExists\":"@ + bool_text(f.ca_exists));
    out.append(",\"caExpires\":");
    match expires {
        Some(t) => out.append(json_quote(t).as_str()),
        None => out.append("null"),
    }
    push_bool(&mut out, ",\"caTrusted\":", f.ca_trusted);
    push_bool(&mut out, ",\"pacInstalled\":", f.pac_installed);
    push_bool(&mut out, ",\"proxyEnabled\":", settings.proxy_enabled);
    push_bool(&mut out, ",\"setupComplete\":", f.ca_trusted && f.pac_installed);
    push_bool(&mut out, ",\"setupDone\":", settings.proxy_setup_done);
    out.append("}");
    out
}

/// What came of setting the proxy up, as JSON.
pub open spec fn setup_text(f: Found) -> Seq<char> {
    "{\"caTrusted\":"@ + bool_text(f.ca_trusted) + ",\"pacInstalled\":"@ + bool_text(
        f.pac_installed,
    ) + ",\"setupComplete\":"@ + bool_text(is_complete(f)) + "}"@
}

/// What came of setting the proxy up, as JSON.
pub fn setup_outcome(f: Found) -> (r: String)
    ensures
        r@ == setup_text(f),
{
    let mut out = String::new();
    push_bool(&mut out, "{\"caTrusted\":", f.ca_trusted);
    assert(out@ =~= "{\"caTrusted\":"@ + bool_text(f.ca_trusted));
    push_bool(&mut out, ",\"pacInstalled\":", f.pac_installed);
    push_bool(&mut out, ",\"setupComplete\":", f.ca_trusted && f.pac_installed);
    out.append("}");
    out
}

/// The settings that the user interface shows, as JSON.
pub open spec fn settings_text(s: SettingsView, network: Seq<char>) -> Seq<char> {
    "{\"minerAddress\":"@ + json_quoted(
        match s.miner_address {
            Some(a) => a,
            None => ""@,
        },
    ) + ",\"minerThreads\":"@ + decimal(s.miner_threads as nat) + ",\"miningEnabled\":"@
        + bool_text(s.mining_enabled) + ",\"network\":"@ + json_quoted(network) + "}"@
}

/// The settings that the user interface shows, as JSON.
pub fn get_settings(settings: &Settings, network: &str) -> (r: String)
    ensures
        r@ == settings_text(settings@, network@),
{
    let mut out = "{\"minerAddress\":".to_owned();
    let address = match &settings.miner_address {
        Some(a) => json_quote(a.as_str()),
        None => json_quote(""),
    };
    out.append(address.as_str());
    out.append(",\"minerThreads\":");
    push_decimal(&mut out, settings.miner_threads as u64);
    push_bool(&mut out, ",\"miningEnabled\":", settings.mining_enabled);
    out.append(",\"network\":");
    out.append(json_quote(network).as_str());
    out.append("}");
    out
}

// ── Scanning a code ──

/// What came of scanning a QR code: nothing scanned means that the user gave
/// up; without a scanner there is nothing to scan with.
pub fn scan_qr(scanned: Option<String>) -> (r: Result<String, String>)
    ensures
        match scanned {
            Some(t) => if t@.len() == 0 {
                r matches Err(e) && e@ == "Scan cancelled"@
            } else {
                r matches Ok(s) && s@ == t@
            },
            None => r matches Err(e) && e@ == "QR scanning not available on this platform"@,
        },
{
    match scanned {
        Some(t) => if t.as_str().is_empty() {
            Err("Scan cancelled".to_owned())
        } else {
            Ok(t)
        },
        None => Err("QR scanning not available on this platform".to_owned()),
    }
}

/// What is done to set the proxy up: each step exactly if it is needed, the
/// certificate before the script; setup is over when both are there.
pub proof fn law_what_is_missing(f: Found)
    ensures
        missing(f).contains(Todo::InstallCa) <==> f.ca_exists && !f.ca_trusted,
        missing(f).contains(Todo::InstallPac) <==> !f.pac_installed,
        !missing(f).contains(Todo::RemovePac),
        missing(f).len() == 2 ==> missing(f)[0] == Todo::InstallCa && missing(f)[1]
            == Todo::InstallPac,
        is_complete(f) ==> missing(f).len() == 0,
        f.ca_exists && missing(f).len() == 0 ==> is_complete(f),
{
    let m = missing(f);
    if f.ca_exists && !f.ca_trusted {
        assert(m[0] == Todo::InstallCa);
    }
    if !f.pac_installed {
        assert(m[m.len() - 1] == Todo::InstallPac);
    }
}

/// What the user interface is told is what was found: each of these under its
/// own key, and setup as over exactly if the certificate is trusted and the
/// script is there.
pub proof fn law_status_says_what_was_found(
    s: SettingsView,
    f: Found,
    expires: Seq<char>,
)
    ensures
        bool_text(true) == "true"@,
        bool_text(false) == "false"@,
        status_text(s, f, Some(expires)) == "{\"caExists\":"@ + bool_text(f.ca_exists)
            + ",\"caExpires\":"@ + json_quoted(expires) + ",\"caTrusted\":"@ + bool_text(
            f.ca_trusted,
        ) + ",\"pacInstalled\":"@ + bool_text(f.pac_installed) + ",\"proxyEnabled\":"@
            + bool_text(s.proxy_enabled) + ",\"setupComplete\":"@ + bool_text(
            f.ca_trusted && f.pac_installed,
        ) + ",\"setupDone\":"@ + bool_text(s.proxy_setup_done) + "}"@,
        setup_text(f) == "{\"caTrusted\":"@ + bool_text(f.ca_trusted) + ",\"pacInstalled\":"@
            + bool_text(f.pac_installed) + ",\"setupComplete\":"@ + bool_text(
            f.ca_trusted && f.pac_installed,
        ) + "}"@,
{
}

/// The settings that the user interface is shown: each under its own key.
pub proof fn law_settings_are_shown(s: SettingsView, network: Seq<char>)
    ensures
        settings_text(s, network) == "{\"minerAddress\":"@ + json_quoted(
            if s.miner_address is Some {
                s.miner_address->Some_0
            } else {
                ""@
            },
        ) + ",\"minerThreads\":"@ + decimal(s.miner_threads as nat) + ",\"miningEnabled\":"@ + (
        if s.mining_enabled {
            "true"@
        } else {
            "false"@
        }) + ",\"network\":"@ + json_quoted(network) + "}"@,
{
}

/// The script is put in at start only where the proxy is on, its certificate
/// trusted and the script missing.
pub proof fn law_install_on_launch(settings: Settings, f: Found, installs: bool)
    requires
        call_ensures(installs_on_launch, (&settings, f), installs),
    ensures
        installs ==> missing(f).contains(Todo::InstallPac) && settings@.proxy_enabled,
        f.pac_installed || !settings@.proxy_enabled || !f.ca_trusted ==> !installs,
        f.ca_trusted && settings@.proxy_enabled && !f.pac_installed ==> installs,
{
    law_what_is_missing(f);
}

} // verus!
