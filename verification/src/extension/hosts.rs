//! How browsers are told of the bridge.

use crate::json::{json_quote, json_quoted};
use crate::places::Os;
use crate::text::{begins_with, concat2, concat3, contains, contains_text, same_text, strip_prefix};
use vstd::prelude::*;

verus! {

/// The extension in Chromium browsers.
pub const EXTENSION_ID: &'static str = "gdmmlkmiogkhboacejgemhghamolgaol";

/// The extension in Firefox.
pub const FIREFOX_EXTENSION_ID: &'static str = "extension@fistbump.org";

/// The name that the extension asks for.
pub const NM_HOST_NAME: &'static str = "org.fistbump.wallet";

/// A file that is no longer used.
pub const LEGACY_FILE: &'static str = "org.fistbump.wallet.launcher.json";

/// The file of the bridge.
pub fn bridge_file(os: Os) -> (r: &'static str)
    ensures
        r@ == if os == Os::Windows {
            "fistbump-bridge.exe"@
        } else {
            "fistbump-bridge"@
        },
{
    match os {
        Os::Windows => "fistbump-bridge.exe",
        Os::MacOs => "fistbump-bridge",
        Os::Linux => "fistbump-bridge",
        Os::Android => "fistbump-bridge",
        Os::Ios => "fistbump-bridge",
    }
}

/// A path without the prefix for long paths, which browsers do not take.
pub open spec fn plain_path(path: Seq<char>) -> Seq<char> {
    if begins_with(path, "\\\\?\\UNC\\"@) {
        "\\\\"@ + path.skip("\\\\?\\UNC\\"@.len() as int)
    } else if begins_with(path, "\\\\?\\"@) {
        path.skip("\\\\?\\"@.len() as int)
    } else {
        path
    }
}

/// Takes the prefix for long paths off.
pub fn strip_verbatim_prefix(path: &str) -> (r: String)
    ensures
        r@ == plain_path(path@),
{
    match strip_prefix(path, "\\\\?\\UNC\\") {
        Some(rest) => concat2("\\\\", rest.as_str()),
        None => match strip_prefix(path, "\\\\?\\") {
            Some(rest) => rest,
            None => path.to_owned(),
        },
    }
}

/// No plain path has the prefix for long paths, where it was there once.
pub proof fn law_plain_path(rest: Seq<char>)
    requires
        !begins_with(rest, "UNC\\"@),
        !begins_with(rest, "\\\\?\\"@),
    ensures
        plain_path("\\\\?\\"@ + rest) == rest,
        plain_path("\\\\?\\UNC\\"@ + rest) == "\\\\"@ + rest,
        plain_path(rest) == rest,
{
    reveal_strlit("\\\\?\\");
    reveal_strlit("\\\\?\\UNC\\");
    reveal_strlit("UNC\\");
    let p = "\\\\?\\"@;
    let u = "\\\\?\\UNC\\"@;
    assert(u =~= p + "UNC\\"@);
    let a = p + rest;
    assert(a.skip(p.len() as int) =~= rest);
    if begins_with(a, u) {
        assert(a.skip(4).take(4) =~= "UNC\\"@) by {
            assert(a.take(8) =~= u);
            assert forall|i: int| 0 <= i < 4 implies a.skip(4).take(4)[i] == "UNC\\"@[i] by {
                assert(a.take(8)[4 + i] == u[4 + i]);
            }
        }
        assert(begins_with(rest, "UNC\\"@));
    }
    assert(begins_with(a, p)) by {
        assert(a.take(4) =~= p);
    }
    let b = u + rest;
    assert(begins_with(b, u)) by {
        assert(b.take(8) =~= u);
    }
    assert(b.skip(u.len() as int) =~= rest);
    if begins_with(rest, u) {
        assert(rest.take(4) =~= p) by {
            assert forall|i: int| 0 <= i < 4 implies rest.take(4)[i] == p[i] by {
                assert(rest.take(8)[i] == u[i]);
            }
        }
    }
}

// ── Manifests ──

/// The manifest of the bridge: for Firefox, or for Chromium browsers.
pub open spec fn manifest(bridge: Seq<char>, firefox: bool) -> Seq<char> {
    "{\n"@ + (if firefox {
        "  \"allowed_extensions\": [\n    \""@ + FIREFOX_EXTENSION_ID@ + "\"\n  ],\n"@
    } else {
        "  \"allowed_origins\": [\n    \"chrome-extension://"@ + EXTENSION_ID@ + "/\"\n  ],\n"@
    }) + "  \"description\": \"Fistbump Wallet bridge for the browser extension\",\n"@
        + "  \"name\": \""@ + NM_HOST_NAME@ + "\",\n  \"path\": "@ + json_quoted(bridge)
        + ",\n  \"type\": \"stdio\"\n}"@
}

/// The manifest of the bridge.
pub fn host_manifest(bridge: &str, firefox: bool) -> (r: String)
    ensures
        r@ == manifest(bridge@, firefox),
{
    let allowed = if firefox {
        concat3("  \"allowed_extensions\": [\n    \"", FIREFOX_EXTENSION_ID, "\"\n  ],\n")
    } else {
        concat3(
            "  \"allowed_origins\": [\n    \"chrome-extension://",
            EXTENSION_ID,
            "/\"\n  ],\n",
        )
    };
    let mut out = "{\n".to_owned();
    out.append(allowed.as_str());
    out.append("  \"description\": \"Fistbump Wallet bridge for the browser extension\",\n");
    out.append("  \"name\": \"");
    out.append(NM_HOST_NAME);
    out.append("\",\n  \"path\": ");
    out.append(json_quote(bridge).as_str());
    out.append(",\n  \"type\": \"stdio\"\n}");
    out
}

/// Whether a manifest has to be written: not if it is there already.
pub fn needs_write(existing: Option<&str>, manifest: &str) -> (r: bool)
    ensures
        r == !(existing matches Some(t) && t@ == manifest@),
{
    match existing {
        Some(t) => !same_text(t, manifest),
        None => true,
    }
}

/// The file of the manifest.
pub fn host_filename() -> (r: String)
    ensures
        r@ == NM_HOST_NAME@ + ".json"@,
{
    concat2(NM_HOST_NAME, ".json")
}

/// The file of the manifest on Windows, where those for Firefox and for
/// Chromium browsers lie side by side.
pub open spec fn windows_file(manifest: Seq<char>) -> Seq<char> {
    NM_HOST_NAME@ + "-"@ + (if contains_text(manifest, "allowed_extensions"@) {
        "firefox"@
    } else {
        "chromium"@
    }) + ".json"@
}

/// The file of the manifest on Windows.
pub fn windows_filename(manifest: &str) -> (r: String)
    ensures
        r@ == windows_file(manifest@),
{
    let which = if contains(manifest, "allowed_extensions") {
        "firefox"
    } else {
        "chromium"
    };
    let mut out = concat3(NM_HOST_NAME, "-", which);
    out.append(".json");
    out
}

/// The key in the registry of Windows that holds the path of the manifest.
pub fn registry_key(browser: &str) -> (r: String)
    ensures
        r@ == browser@ + "\\NativeMessagingHosts\\"@ + NM_HOST_NAME@,
{
    concat3(browser, "\\NativeMessagingHosts\\", NM_HOST_NAME)
}

// ── Browsers ──

/// A browser: where its data are under the home directory, or its key in the
/// registry; the directory for manifests in there; and what it is called.
pub struct Browser {
    pub place: &'static str,
    pub hosts: &'static str,
    pub name: &'static str,
}

pub struct BrowserView {
    pub place: Seq<char>,
    pub hosts: Seq<char>,
    pub name: Seq<char>,
}

impl View for Browser {
    type V = BrowserView;

    open spec fn view(&self) -> BrowserView {
        BrowserView { place: self.place@, hosts: self.hosts@, name: self.name@ }
    }
}

pub open spec fn browser_views(v: Seq<Browser>) -> Seq<BrowserView> {
    Seq::new(v.len(), |i: int| v[i]@)
}

/// A browser with the directory that most of them have.
pub open spec fn usual(place: Seq<char>, name: Seq<char>) -> BrowserView {
    BrowserView { place, hosts: "NativeMessagingHosts"@, name }
}

/// The browsers that are told of the bridge.
pub open spec fn known_browsers(os: Os, firefox: bool) -> Seq<BrowserView> {
    match os {
        Os::MacOs => if firefox {
            seq![usual("Library/Application Support/Mozilla"@, "Firefox"@)]
        } else {
            seq![
                usual("Library/Application Support/Google/Chrome"@, "Chrome"@),
                usual("Library/Application Support/Chromium"@, "Chromium"@),
                usual("Library/Application Support/BraveSoftware/Brave-Browser"@, "Brave"@),
                usual("Library/Application Support/Microsoft Edge"@, "Edge"@),
                usual("Library/Application Support/Arc/User Data"@, "Arc"@),
                usual("Library/Application Support/Vivaldi"@, "Vivaldi"@),
            ]
        },
        Os::Linux => if firefox {
            seq![
                BrowserView {
                    place: ".mozilla"@,
                    hosts: "native-messaging-hosts"@,
                    name: "Firefox"@,
                },
            ]
        } else {
            seq![
                usual(".config/google-chrome"@, "Chrome"@),
                usual(".config/chromium"@, "Chromium"@),
                usual(".config/BraveSoftware/Brave-Browser"@, "Brave"@),
                usual(".config/microsoft-edge"@, "Edge"@),
                usual(".config/vivaldi"@, "Vivaldi"@),
            ]
        },
        Os::Windows => if firefox {
            seq![usual("Software\\Mozilla"@, "Firefox"@)]
        } else {
            seq![
                usual("Software\\Google\\Chrome"@, "Chrome"@),
                usual("Software\\Chromium"@, "Chromium"@),
                usual("Software\\BraveSoftware\\Brave-Browser"@, "Brave"@),
                usual("Software\\Microsoft\\Edge"@, "Edge"@),
                usual("Software\\Vivaldi"@, "Vivaldi"@),
            ]
        },
        Os::Android => seq![],
        Os::Ios => seq![],
    }
}

fn add(list: &mut Vec<Browser>, place: &'static str, name: &'static str)
    ensures
        browser_views(final(list)@) == browser_views(old(list)@).push(usual(place@, name@)),
{
    let ghost before = list@;
    list.push(Browser { place, hosts: "NativeMessagingHosts", name });
    assert(browser_views(list@) =~= browser_views(before).push(usual(place@, name@)));
}

/// The browsers on macOS.
pub fn macos_browser_dirs(firefox: bool) -> (r: Vec<Browser>)
    ensures
        browser_views(r@) == known_browsers(Os::MacOs, firefox),
{
    let mut list: Vec<Browser> = Vec::new();
    if firefox {
        self::add(&mut list, "Library/Application Support/Mozilla", "Firefox");
    } else {
        self::add(&mut list, "Library/Application Support/Google/Chrome", "Chrome");
        self::add(&mut list, "Library/Application Support/Chromium", "Chromium");
        self::add(
            &mut list,
            "Library/Application Support/BraveSoftware/Brave-Browser",
            "Brave",
        );
        self::add(&mut list, "Library/Application Support/Microsoft Edge", "Edge");
        self::add(&mut list, "Library/Application Support/Arc/User Data", "Arc");
        self::add(&mut list, "Library/Application Support/Vivaldi", "Vivaldi");
    }
    assert(browser_views(list@) =~= known_browsers(Os::MacOs, firefox));
    list
}

/// The browsers on Linux. Firefox has a directory of another name there.
pub fn linux_browser_dirs(firefox: bool) -> (r: Vec<Browser>)
    ensures
        browser_views(r@) == known_browsers(Os::Linux, firefox),
{
    let mut list: Vec<Browser> = Vec::new();
    if firefox {
        list.push(
            Browser { place: ".mozilla", hosts: "native-messaging-hosts", name: "Firefox" },
        );
    } else {
        self::add(&mut list, ".config/google-chrome", "Chrome");
        self::add(&mut list, ".config/chromium", "Chromium");
        self::add(&mut list, ".config/BraveSoftware/Brave-Browser", "Brave");
        self::add(&mut list, ".config/microsoft-edge", "Edge");
        self::add(&mut list, ".config/vivaldi", "Vivaldi");
    }
    assert(browser_views(list@) =~= known_browsers(Os::Linux, firefox));
    list
}

/// The browsers on Windows.
pub fn windows_keys(firefox: bool) -> (r: Vec<Browser>)
    ensures
        browser_views(r@) == known_browsers(Os::Windows, firefox),
{
    let mut list: Vec<Browser> = Vec::new();
    if firefox {
        self::add(&mut list, "Software\\Mozilla", "Firefox");
    } else {
        self::add(&mut list, "Software\\Google\\Chrome", "Chrome");
        self::add(&mut list, "Software\\Chromium", "Chromium");
        self::add(&mut list, "Software\\BraveSoftware\\Brave-Browser", "Brave");
        self::add(&mut list, "Software\\Microsoft\\Edge", "Edge");
        self::add(&mut list, "Software\\Vivaldi", "Vivaldi");
    }
    assert(browser_views(list@) =~= known_browsers(Os::Windows, firefox));
    list
}

/// A manifest and the browsers that it is for.
pub struct Installation {
    pub manifest: String,
    pub browsers: Vec<Browser>,
}

/// What is installed: one manifest for Chromium browsers, one for Firefox.
pub fn install_native_messaging_host(os: Os, bridge: &str) -> (r: (Installation, Installation))
    ensures
        r.0.manifest@ == manifest(bridge@, false),
        browser_views(r.0.browsers@) == known_browsers(os, false),
        r.1.manifest@ == manifest(bridge@, true),
        browser_views(r.1.browsers@) == known_browsers(os, true),
{
    let (chromium, firefox) = match os {
        Os::MacOs => (macos_browser_dirs(false), macos_browser_dirs(true)),
        Os::Linux => (linux_browser_dirs(false), linux_browser_dirs(true)),
        Os::Windows => (windows_keys(false), windows_keys(true)),
        Os::Android => (Vec::new(), Vec::new()),
        Os::Ios => (Vec::new(), Vec::new()),
    };
    assert(browser_views(chromium@) =~= known_browsers(os, false));
    assert(browser_views(firefox@) =~= known_browsers(os, true));
    (
        Installation { manifest: host_manifest(bridge, false), browsers: chromium },
        Installation { manifest: host_manifest(bridge, true), browsers: firefox },
    )
}

/// On Windows the two manifests lie in two files, wherever the bridge is,
/// unless its path itself speaks of allowed extensions.
pub proof fn law_manifests_do_not_collide(bridge: Seq<char>)
    requires
        !contains_text(manifest(bridge, false), "allowed_extensions"@),
    ensures
        windows_file(manifest(bridge, true)) != windows_file(manifest(bridge, false)),
{
    let m = manifest(bridge, true);
    let n = "allowed_extensions"@;
    reveal_strlit("allowed_extensions");
    reveal_strlit("{\n");
    reveal_strlit("  \"allowed_extensions\": [\n    \"");
    let start = "{\n"@ + "  \"allowed_extensions\": [\n    \""@;
    assert(start.len() == 33);
    assert(m.take(33) =~= start) by {
        assert forall|i: int| 0 <= i < 33 implies m[i] == start[i] by {}
    }
    assert(crate::text::stands_at(m, n, 5)) by {
        assert(start.subrange(5, 23) =~= n);
        assert(m.subrange(5, 23) =~= m.take(33).subrange(5, 23));
    }
    let a = windows_file(m);
    let b = windows_file(manifest(bridge, false));
    reveal_strlit("firefox");
    reveal_strlit("chromium");
    assert(a.len() != b.len());
}

/// A manifest names the host, the bridge that is to be run, and the one
/// extension that may run it, each browser in its own way.
pub proof fn law_manifest_names(bridge: Seq<char>, firefox: bool)
    ensures
        contains_text(manifest(bridge, firefox), "\"name\": \"org.fistbump.wallet\""@),
        contains_text(manifest(bridge, firefox), "\"path\": "@ + json_quoted(bridge) + ","@),
        contains_text(manifest(bridge, false), "\"allowed_origins\""@),
        contains_text(
            manifest(bridge, false),
            "\"chrome-extension://gdmmlkmiogkhboacejgemhghamolgaol/\""@,
        ),
        contains_text(manifest(bridge, true), "\"allowed_extensions\""@),
        contains_text(manifest(bridge, true), "\"extension@fistbump.org\""@),
{
    lemma_names_host(bridge, firefox);
    lemma_names_chrome(bridge);
    lemma_names_firefox(bridge);
}

proof fn lemma_part(hay: Seq<char>, a: Seq<char>, needle: Seq<char>, b: Seq<char>)
    requires
        hay == a + needle + b,
    ensures
        contains_text(hay, needle),
{
    assert(hay.subrange(a.len() as int, (a.len() + needle.len()) as int) =~= needle);
    assert(crate::text::stands_at(hay, needle, a.len() as int));
}

proof fn lemma_names_host(bridge: Seq<char>, firefox: bool)
    ensures
        contains_text(manifest(bridge, firefox), "\"name\": \"org.fistbump.wallet\""@),
        contains_text(manifest(bridge, firefox), "\"path\": "@ + json_quoted(bridge) + ","@),
{
    reveal_strlit("\"name\": \"org.fistbump.wallet\"");
    reveal_strlit("\"path\": ");
    reveal_strlit(",");
    reveal_strlit("  \"name\": \"");
    reveal_strlit("org.fistbump.wallet");
    reveal_strlit("\",\n  \"path\": ");
    reveal_strlit(",\n  \"type\": \"stdio\"\n}");
    let m = manifest(bridge, firefox);
    let name = "  \"name\": \""@ + NM_HOST_NAME@;
    let path = "\",\n  \"path\": "@;
    let end = ",\n  \"type\": \"stdio\"\n}"@;
    let j = json_quoted(bridge);
    let start = m.take(m.len() - end.len() - j.len() - path.len() - name.len());
    assert(m =~= start + name + path + j + end);
    let n = "\"name\": \"org.fistbump.wallet\""@;
    assert(name + path.take(1) =~= name.take(2) + n);
    let rest = path.skip(1) + j + end;
    assert(m =~= (start + name.take(2)) + n + rest);
    lemma_part(m, start + name.take(2), n, rest);
    let p = "\"path\": "@ + j + ","@;
    let before = start + name + path.take(5);
    assert(path =~= path.take(5) + "\"path\": "@);
    assert(m =~= before + p + end.skip(1));
    lemma_part(m, before, p, end.skip(1));
}

proof fn lemma_names_chrome(bridge: Seq<char>)
    ensures
        contains_text(manifest(bridge, false), "\"allowed_origins\""@),
        contains_text(
            manifest(bridge, false),
            "\"chrome-extension://gdmmlkmiogkhboacejgemhghamolgaol/\""@,
        ),
{
    reveal_strlit("\"allowed_origins\"");
    reveal_strlit("\"chrome-extension://gdmmlkmiogkhboacejgemhghamolgaol/\"");
    reveal_strlit("{\n");
    reveal_strlit("  \"allowed_origins\": [\n    \"chrome-extension://");
    reveal_strlit("gdmmlkmiogkhboacejgemhghamolgaol");
    reveal_strlit("/\"\n  ],\n");
    let m = manifest(bridge, false);
    let open = "{\n"@;
    let a = "  \"allowed_origins\": [\n    \"chrome-extension://"@;
    let id = EXTENSION_ID@;
    let b = "/\"\n  ],\n"@;
    let rest = m.skip((open.len() + a.len() + id.len() + b.len()) as int);
    assert(m =~= open + a + id + b + rest);
    let k = "\"allowed_origins\""@;
    assert(a =~= a.take(2) + k + a.skip(19));
    assert(m =~= (open + a.take(2)) + k + (a.skip(19) + id + b + rest));
    lemma_part(m, open + a.take(2), k, a.skip(19) + id + b + rest);
    let v = "\"chrome-extension://gdmmlkmiogkhboacejgemhghamolgaol/\""@;
    assert(a.skip(27) + id + b.take(2) =~= v);
    assert(m =~= (open + a.take(27)) + v + (b.skip(2) + rest));
    lemma_part(m, open + a.take(27), v, b.skip(2) + rest);
}

proof fn lemma_names_firefox(bridge: Seq<char>)
    ensures
        contains_text(manifest(bridge, true), "\"allowed_extensions\""@),
        contains_text(manifest(bridge, true), "\"extension@fistbump.org\""@),
{
    reveal_strlit("\"allowed_extensions\"");
    reveal_strlit("\"extension@fistbump.org\"");
    reveal_strlit("{\n");
    reveal_strlit("  \"allowed_extensions\": [\n    \"");
    reveal_strlit("extension@fistbump.org");
    reveal_strlit("\"\n  ],\n");
    let m = manifest(bridge, true);
    let open = "{\n"@;
    let a = "  \"allowed_extensions\": [\n    \""@;
    let id = FIREFOX_EXTENSION_ID@;
    let b = "\"\n  ],\n"@;
    let rest = m.skip((open.len() + a.len() + id.len() + b.len()) as int);
    assert(m =~= open + a + id + b + rest);
    let k = "\"allowed_extensions\""@;
    assert(a =~= a.take(2) + k + a.skip(22));
    assert(m =~= (open + a.take(2)) + k + (a.skip(22) + id + b + rest));
    lemma_part(m, open + a.take(2), k, a.skip(22) + id + b + rest);
    let v = "\"extension@fistbump.org\""@;
    let n = a.len() - 1;
    assert(a.skip(n) + id + b.take(1) =~= v);
    assert(m =~= (open + a.take(n)) + v + (b.skip(1) + rest));
    lemma_part(m, open + a.take(n), v, b.skip(1) + rest);
}

/// The browsers that are known, by their names; all keep their hosts in a
/// directory of the same name but for Firefox on Linux.
pub proof fn law_browsers(os: Os, firefox: bool, i: int)
    requires
        0 <= i < known_browsers(os, firefox).len(),
    ensures
        firefox ==> known_browsers(os, firefox).len() == 1 && known_browsers(os, firefox)[i].name
            == "Firefox"@,
        !firefox ==> known_browsers(os, firefox)[0].name == "Chrome"@ && known_browsers(
            os,
            firefox,
        )[1].name == "Chromium"@ && known_browsers(os, firefox)[2].name == "Brave"@
            && known_browsers(os, firefox)[3].name == "Edge"@ && known_browsers(
            os,
            firefox,
        ).last().name == "Vivaldi"@,
        !(os == Os::Linux && firefox) ==> known_browsers(os, firefox)[i].hosts
            == "NativeMessagingHosts"@,
        os == Os::Linux && firefox ==> known_browsers(os, firefox)[i].hosts
            == "native-messaging-hosts"@,
{
}

} // verus!
