//! The settings of the wallet, and what it holds while it runs.

use crate::json::{json_array, json_array_at, json_text, json_text_at};
use crate::proxy::request::{http_url, law_url_parts};
use crate::text::{
    decimal, is_white_space, lacks, law_trim, lemma_texts_push, list_contains, push_decimal, same_text, text_of, texts, trim,
    trimmed,
};
use vstd::prelude::*;

verus! {

// ── Networks ──

/// The ports of the node on a network.
pub struct NetworkPorts {
    pub rpc: u16,
    pub dns: u16,
}

/// The ports on a known network.
pub open spec fn known_ports(network: Seq<char>) -> Option<NetworkPorts> {
    if network == "main"@ {
        Some(NetworkPorts { rpc: 32869, dns: 32870 })
    } else if network == "testnet"@ {
        Some(NetworkPorts { rpc: 42869, dns: 42870 })
    } else if network == "regtest"@ {
        Some(NetworkPorts { rpc: 52869, dns: 52870 })
    } else if network == "simnet"@ {
        Some(NetworkPorts { rpc: 62869, dns: 62870 })
    } else {
        None
    }
}

fn ports_of(network: &str) -> (r: Option<NetworkPorts>)
    ensures
        r == known_ports(network@),
{
    if same_text(network, "main") {
        Some(NetworkPorts { rpc: 32869, dns: 32870 })
    } else if same_text(network, "testnet") {
        Some(NetworkPorts { rpc: 42869, dns: 42870 })
    } else if same_text(network, "regtest") {
        Some(NetworkPorts { rpc: 52869, dns: 52870 })
    } else if same_text(network, "simnet") {
        Some(NetworkPorts { rpc: 62869, dns: 62870 })
    } else {
        None
    }
}

/// The ports on a network; those of the default network if it is not known.
pub fn network_ports(network: &str, default_network: &str) -> (r: NetworkPorts)
    requires
        known_ports(default_network@) is Some,
    ensures
        Some(r) == match known_ports(network@) {
            Some(p) => Some(p),
            None => known_ports(default_network@),
        },
{
    match ports_of(network) {
        Some(p) => p,
        None => match ports_of(default_network) {
            Some(p) => p,
            None => NetworkPorts { rpc: 0, dns: 0 },
        },
    }
}

// ── Settings ──

/// What the user has set.
pub struct Settings {
    pub host: Option<String>,
    pub port: Option<u16>,
    pub api_key: Option<String>,
    pub proxy_setup_done: bool,
    pub proxy_enabled: bool,
    pub miner_address: Option<String>,
    pub mining_enabled: bool,
    pub miner_threads: u32,
    /// The web origins that may talk to this wallet.
    pub approved_origins: Vec<String>,
}

#[verifier::ext_equal]
pub struct SettingsView {
    pub host: Option<Seq<char>>,
    pub port: Option<u16>,
    pub api_key: Option<Seq<char>>,
    pub proxy_setup_done: bool,
    pub proxy_enabled: bool,
    pub miner_address: Option<Seq<char>>,
    pub mining_enabled: bool,
    pub miner_threads: u32,
    pub approved_origins: Seq<Seq<char>>,
}

impl View for Settings {
    type V = SettingsView;

    open spec fn view(&self) -> SettingsView {
        SettingsView {
            host: text_of(self.host),
            port: self.port,
            api_key: text_of(self.api_key),
            proxy_setup_done: self.proxy_setup_done,
            proxy_enabled: self.proxy_enabled,
            miner_address: text_of(self.miner_address),
            mining_enabled: self.mining_enabled,
            miner_threads: self.miner_threads,
            approved_origins: texts(self.approved_origins@),
        }
    }
}

/// Nothing set.
pub open spec fn no_settings() -> SettingsView {
    SettingsView {
        host: None,
        port: None,
        api_key: None,
        proxy_setup_done: false,
        proxy_enabled: false,
        miner_address: None,
        mining_enabled: false,
        miner_threads: 0,
        approved_origins: Seq::empty(),
    }
}

/// `list` without any `x` in it.
pub open spec fn without(list: Seq<Seq<char>>, x: Seq<char>) -> Seq<Seq<char>>
    decreases list.len(),
{
    if list.len() == 0 {
        Seq::empty()
    } else if list.last() == x {
        without(list.drop_last(), x)
    } else {
        without(list.drop_last(), x).push(list.last())
    }
}

/// `list` with `x` in it.
pub open spec fn with(list: Seq<Seq<char>>, x: Seq<char>) -> Seq<Seq<char>> {
    if list.contains(x) {
        list
    } else {
        list.push(x)
    }
}

/// Whether nothing occurs twice.
pub open spec fn no_repeats(list: Seq<Seq<char>>) -> bool {
    forall|i: int, j: int| 0 <= i < j < list.len() ==> #[trigger] list[i] != #[trigger] list[j]
}

/// An approved origin is on the list, whoever was on it stays, and nobody gets
/// on it twice.
pub proof fn law_approving(list: Seq<Seq<char>>, origin: Seq<char>, other: Seq<char>)
    ensures
        with(list, origin).contains(origin),
        list.contains(other) ==> with(list, origin).contains(other),
        with(list, origin).contains(other) ==> list.contains(other) || other == origin,
        no_repeats(list) ==> no_repeats(with(list, origin)),
        with(with(list, origin), origin) == with(list, origin),
{
    if !list.contains(origin) {
        let l = list.push(origin);
        assert(l[list.len() as int] == origin);
        if list.contains(other) {
            let i = choose|i: int| 0 <= i < list.len() && list[i] == other;
            assert(l[i] == other);
        }
        if l.contains(other) && other != origin {
            let i = choose|i: int| 0 <= i < l.len() && l[i] == other;
            assert(list[i] == other);
        }
    }
}

/// A revoked origin is off the list, and all others stay.
pub proof fn law_revoking(list: Seq<Seq<char>>, origin: Seq<char>, other: Seq<char>)
    ensures
        !without(list, origin).contains(origin),
        other != origin ==> (without(list, origin).contains(other) <==> list.contains(other)),
    decreases list.len(),
{
    if list.len() > 0 {
        let front = list.drop_last();
        law_revoking(front, origin, other);
        let w = without(front, origin);
        if list.last() != origin {
            let v = w.push(list.last());
            assert(!v.contains(origin)) by {
                assert forall|i: int| 0 <= i < v.len() implies v[i] != origin by {
                    if i < w.len() {
                        assert(w.contains(w[i]));
                    }
                }
            }
            if other != origin {
                if v.contains(other) {
                    let i = choose|i: int| 0 <= i < v.len() && v[i] == other;
                    if i < w.len() {
                        assert(w.contains(w[i]));
                        let j = choose|j: int| 0 <= j < front.len() && front[j] == other;
                        assert(list[j] == other);
                    } else {
                        assert(list[list.len() - 1] == other);
                    }
                }
                if list.contains(other) {
                    let j = choose|j: int| 0 <= j < list.len() && list[j] == other;
                    if j < front.len() {
                        assert(front[j] == other);
                        let i = choose|i: int| 0 <= i < w.len() && w[i] == other;
                        assert(v[i] == other);
                    } else {
                        assert(v[w.len() as int] == other);
                    }
                }
            }
        } else if other != origin {
            if list.contains(other) {
                let j = choose|j: int| 0 <= j < list.len() && list[j] == other;
                assert(front[j] == other);
            }
            if front.contains(other) {
                let j = choose|j: int| 0 <= j < front.len() && front[j] == other;
                assert(list[j] == other);
            }
        }
    }
}

impl Settings {
    /// Nothing set.
    pub fn new() -> (r: Settings)
        ensures
            r@ == no_settings(),
    {
        let r = Settings {
            host: None,
            port: None,
            api_key: None,
            proxy_setup_done: false,
            proxy_enabled: false,
            miner_address: None,
            mining_enabled: false,
            miner_threads: 0,
            approved_origins: Vec::new(),
        };
        assert(r@ =~= no_settings());
        r
    }

    /// Where to reach the node.
    pub fn rpc_host(&self) -> (r: String)
        ensures
            r@ == match self@.host {
                Some(h) => h,
                None => "127.0.0.1"@,
            },
    {
        match &self.host {
            Some(h) => h.clone(),
            None => "127.0.0.1".to_owned(),
        }
    }

    /// The port of the node.
    pub fn rpc_port(&self, default_network: &str) -> (r: u16)
        requires
            known_ports(default_network@) is Some,
        ensures
            r == match self@.port {
                Some(p) => p,
                None => known_ports(default_network@)->Some_0.rpc,
            },
    {
        match self.port {
            Some(p) => p,
            None => network_ports(default_network, default_network).rpc,
        }
    }

    /// The URL of the node.
    pub fn rpc_url(&self, default_network: &str) -> (r: String)
        requires
            known_ports(default_network@) is Some,
        ensures
            r@ == "http://"@ + (match self@.host {
                Some(h) => h,
                None => "127.0.0.1"@,
            }) + ":"@ + decimal(
                (match self@.port {
                    Some(p) => p,
                    None => known_ports(default_network@)->Some_0.rpc,
                }) as nat,
            ) + "/"@,
    {
        let mut out = "http://".to_owned();
        out.append(self.rpc_host().as_str());
        out.append(":");
        push_decimal(&mut out, self.rpc_port(default_network) as u64);
        out.append("/");
        out
    }

    /// The key to the node: the one that is set, else the one that the node
    /// left in its cookie file.
    pub fn get_api_key(&self, cookie_file: Option<String>) -> (r: Option<String>)
        ensures
            text_of(r) == match self@.api_key {
                Some(k) => Some(k),
                None => cookie_in(text_of(cookie_file)),
            },
    {
        match &self.api_key {
            Some(k) => Some(k.clone()),
            None => read_cookie(cookie_file),
        }
    }

    /// Sets where to mine to; white space around it does not count, and
    /// nothing else unsets it. The number of threads stays if none is given.
    pub fn set_miner_address(&mut self, address: &str, threads: Option<u32>)
        ensures
            final(self)@ == (SettingsView {
                miner_address: if trim(address@).len() == 0 {
                    None
                } else {
                    Some(trim(address@))
                },
                miner_threads: match threads {
                    Some(t) => t,
                    None => old(self)@.miner_threads,
                },
                ..old(self)@
            }),
    {
        let addr = trimmed(address);
        if addr.as_str().is_empty() {
            self.miner_address = None;
        } else {
            self.miner_address = Some(addr);
        }
        match threads {
            Some(t) => {
                self.miner_threads = t;
            },
            None => {},
        }
    }

    /// Turns mining on or off.
    pub fn toggle_mining(&mut self, enabled: bool)
        ensures
            final(self)@ == (SettingsView { mining_enabled: enabled, ..old(self)@ }),
    {
        self.mining_enabled = enabled;
    }

    /// Turns the proxy on or off.
    pub fn toggle_proxy(&mut self, enabled: bool)
        ensures
            final(self)@ == (SettingsView { proxy_enabled: enabled, ..old(self)@ }),
    {
        self.proxy_enabled = enabled;
    }

    /// Notes that the proxy was set up, and turns it on.
    pub fn finish_proxy_setup(&mut self)
        ensures
            final(self)@ == (SettingsView {
                proxy_setup_done: true,
                proxy_enabled: true,
                ..old(self)@
            }),
    {
        self.proxy_setup_done = true;
        self.proxy_enabled = true;
    }

    /// Lets an origin talk to the wallet. Says whether anything changed.
    pub fn approve_origin(&mut self, origin: &str) -> (changed: bool)
        ensures
            final(self)@ == (SettingsView {
                approved_origins: with(old(self)@.approved_origins, origin@),
                ..old(self)@
            }),
            changed == !old(self)@.approved_origins.contains(origin@),
    {
        if list_contains(&self.approved_origins, origin) {
            return false;
        }
        let o = origin.to_owned();
        proof {
            lemma_texts_push(self.approved_origins@, o);
        }
        self.approved_origins.push(o);
        true
    }

    /// No longer lets an origin talk to the wallet.
    pub fn revoke_approved_origin(&mut self, origin: &str)
        ensures
            final(self)@ == (SettingsView {
                approved_origins: without(old(self)@.approved_origins, origin@),
                ..old(self)@
            }),
    {
        let mut kept: Vec<String> = Vec::new();
        let ghost all = texts(self.approved_origins@);
        let mut i: usize = 0;
        assert(texts(kept@) =~= without(all.take(0), origin@));
        while i < self.approved_origins.len()
            invariant
                i <= self.approved_origins@.len(),
                *self == *old(self),
                all == texts(self.approved_origins@),
                texts(kept@) == without(all.take(i as int), origin@),
            decreases self.approved_origins@.len() - i,
        {
            assert(all.take(i + 1).drop_last() =~= all.take(i as int));
            assert(all[i as int] == self.approved_origins@[i as int]@);
            if !same_text(self.approved_origins[i].as_str(), origin) {
                let o = self.approved_origins[i].clone();
                proof {
                    lemma_texts_push(kept@, o);
                }
                kept.push(o);
            }
            i = i + 1;
        }
        assert(all.take(i as int) =~= all);
        self.approved_origins = kept;
    }
}

/// The key in a cookie file: what it holds but for white space around it, if
/// that is anything.
pub open spec fn cookie_in(file: Option<Seq<char>>) -> Option<Seq<char>> {
    match file {
        Some(t) => if trim(t).len() == 0 {
            None
        } else {
            Some(trim(t))
        },
        None => None,
    }
}

/// The key in a cookie file.
pub fn read_cookie(cookie_file: Option<String>) -> (r: Option<String>)
    ensures
        text_of(r) == cookie_in(text_of(cookie_file)),
{
    match cookie_file {
        Some(t) => {
            let key = trimmed(t.as_str());
            if key.as_str().is_empty() {
                None
            } else {
                Some(key)
            }
        },
        None => None,
    }
}

// ── The origins in the settings file ──

/// The texts among these values.
pub open spec fn texts_among(values: Seq<Option<Seq<char>>>) -> Seq<Seq<char>>
    decreases values.len(),
{
    if values.len() == 0 {
        Seq::empty()
    } else {
        let before = texts_among(values.drop_last());
        match values.last() {
            Some(t) => before.push(t),
            None => before,
        }
    }
}

/// Where the `i`-th origin stands in the settings file.
pub open spec fn origin_pointer(i: nat) -> Seq<char> {
    "/approvedOrigins/"@ + decimal(i)
}

/// The approved origins in a settings file: the texts in a list. A file that
/// cannot be read has none.
pub open spec fn origins_in(file: Option<Seq<u8>>) -> Seq<Seq<char>> {
    match file {
        None => Seq::empty(),
        Some(data) => match json_array_at(data, "/approvedOrigins"@) {
            None => Seq::empty(),
            Some(n) => texts_among(
                Seq::new(n, |i: int| json_text_at(data, origin_pointer(i as nat))),
            ),
        },
    }
}

/// What optional texts hold.
pub open spec fn optional_texts(v: Seq<Option<String>>) -> Seq<Option<Seq<char>>> {
    Seq::new(v.len(), |i: int| text_of(v[i]))
}

/// The texts among these values.
pub fn keep_texts(values: Vec<Option<String>>) -> (r: Vec<String>)
    ensures
        texts(r@) == texts_among(optional_texts(values@)),
{
    let ghost all = optional_texts(values@);
    let mut out: Vec<String> = Vec::new();
    let mut i: usize = 0;
    assert(texts(out@) =~= texts_among(all.take(0)));
    while i < values.len()
        invariant
            i <= values@.len(),
            all == optional_texts(values@),
            texts(out@) == texts_among(all.take(i as int)),
        decreases values@.len() - i,
    {
        assert(all.take(i + 1).drop_last() =~= all.take(i as int));
        assert(all[i as int] == text_of(values@[i as int]));
        match &values[i] {
            Some(t) => {
                let o = t.clone();
                proof {
                    lemma_texts_push(out@, o);
                }
                out.push(o);
            },
            None => {},
        }
        i = i + 1;
    }
    assert(all.take(i as int) =~= all);
    out
}

/// The approved origins in a settings file. It is read anew for each request,
/// so that what the user revokes is revoked at once.
pub fn approved_origins(settings_file: Option<&[u8]>) -> (r: Vec<String>)
    ensures
        texts(r@) == origins_in(
            match settings_file {
                Some(d) => Some(d@),
                None => None,
            },
        ),
{
    let data = match settings_file {
        Some(d) => d,
        None => {
            let none: Vec<String> = Vec::new();
            assert(texts(none@) =~= Seq::empty());
            return none;
        },
    };
    let n: usize = match json_array(data, "/approvedOrigins") {
        Some(n) => n,
        None => {
            let none: Vec<String> = Vec::new();
            assert(texts(none@) =~= Seq::empty());
            return none;
        },
    };
    let ghost all = Seq::new(
        n as nat,
        |i: int| json_text_at(data@, origin_pointer(i as nat)),
    );
    let mut values: Vec<Option<String>> = Vec::new();
    let mut i: usize = 0;
    assert(optional_texts(values@) =~= all.take(0));
    while i < n
        invariant
            i <= n,
            all == Seq::new(n as nat, |i: int| json_text_at(data@, origin_pointer(i as nat))),
            optional_texts(values@) == all.take(i as int),
        decreases n - i,
    {
        let mut pointer = "/approvedOrigins/".to_owned();
        push_decimal(&mut pointer, i as u64);
        let v = json_text(data, pointer.as_str());
        let ghost before = values@;
        values.push(v);
        proof {
            assert(optional_texts(values@) =~= optional_texts(before).push(text_of(v)));
            assert(all.take(i + 1) =~= all.take(i as int).push(all[i as int]));
        }
        i = i + 1;
    }
    assert(all.take(n as int) =~= all);
    keep_texts(values)
}

// ── What holds of the files ──

/// Each network has two ports of its own, one next to the other; those of two
/// networks are ten thousand apart.
pub proof fn law_ports(network: Seq<char>)
    ensures
        known_ports("main"@) matches Some(p) && p.rpc == 32869,
        known_ports("testnet"@) matches Some(p) && p.rpc == 42869,
        known_ports("regtest"@) matches Some(p) && p.rpc == 52869,
        known_ports("simnet"@) matches Some(p) && p.rpc == 62869,
        known_ports(network) matches Some(p) ==> p.dns == p.rpc + 1,
        network != "main"@ && network != "testnet"@ && network != "regtest"@ && network
            != "simnet"@ ==> known_ports(network) is None,
{
    reveal_strlit("main");
    reveal_strlit("testnet");
    reveal_strlit("regtest");
    reveal_strlit("simnet");
    assert("main"@.len() == 4 && "simnet"@.len() == 6);
    assert("testnet"@[0] == 't' && "regtest"@[0] == 'r');
}

/// A cookie is what a file holds, without the white space round it; an empty
/// file has none.
pub proof fn law_cookie(t: Seq<char>, c: char)
    requires
        t.len() > 0,
        !is_white_space(t[0]),
        !is_white_space(t.last()),
        is_white_space(c),
    ensures
        cookie_in(Some(t)) == Some(t),
        cookie_in(Some(t.push(c))) == Some(t),
        cookie_in(Some(seq![c] + t)) == Some(t),
        cookie_in(Some(seq![c])) is None,
        cookie_in(None) is None,
{
    law_trim(t, c);
    let none = Seq::<char>::empty();
    law_trim(none, c);
    assert(seq![c] + none =~= seq![c]);
}

/// The origins that were approved are those in the file, in their order: a list
/// of texts is read as these texts.
pub proof fn law_origins_are_read(data: Seq<u8>, origins: Seq<Seq<char>>)
    requires
        json_array_at(data, "/approvedOrigins"@) == Some(origins.len()),
        forall|i: int|
            0 <= i < origins.len() ==> json_text_at(
                data,
                "/approvedOrigins/"@ + #[trigger] decimal(i as nat),
            ) == Some(origins[i]),
    ensures
        origins_in(Some(data)) == origins,
        origins_in(None) == Seq::<Seq<char>>::empty(),
{
    let values = Seq::new(
        origins.len(),
        |i: int| json_text_at(data, origin_pointer(i as nat)),
    );
    assert forall|i: int| 0 <= i < origins.len() implies #[trigger] values[i] == Some(
        origins[i],
    ) by {
        assert(json_text_at(data, "/approvedOrigins/"@ + decimal(i as nat)) == Some(origins[i]));
    }
    lemma_texts_among(values, origins);
}

proof fn lemma_texts_among(values: Seq<Option<Seq<char>>>, all: Seq<Seq<char>>)
    requires
        values.len() == all.len(),
        forall|i: int| 0 <= i < all.len() ==> #[trigger] values[i] == Some(all[i]),
    ensures
        texts_among(values) == all,
    decreases all.len(),
{
    if all.len() > 0 {
        let v = values.drop_last();
        let a = all.drop_last();
        assert forall|i: int| 0 <= i < a.len() implies #[trigger] v[i] == Some(a[i]) by {
            assert(v[i] == values[i]);
        }
        lemma_texts_among(v, a);
        assert(values[all.len() - 1] == Some(all.last()));
        assert(a.push(all.last()) =~= all);
    } else {
        assert(all =~= Seq::empty());
    }
}

/// The URL of the node leads to the host and the port that the settings name;
/// where they name none, to this machine and to the port of the network.
pub proof fn law_node_url(s: Settings, network: &str, url: String, host: Seq<char>, port: u16)
    requires
        call_ensures(Settings::rpc_url, (&s, network), url),
        lacks(host, '/'),
        lacks(host, ':'),
        s@.host == Some(host) || s@.host is None && host == "127.0.0.1"@,
        s@.port == Some(port) || s@.port is None && (known_ports(network@) matches Some(p) && p.rpc
            == port),
    ensures
        http_url(url@) == (host, port, "/"@),
{
    law_url_parts(host, port, Seq::empty());
    assert("http://"@ + host + ":"@ + decimal(port as nat) + "/"@ =~= "http://"@ + host + ":"@
        + decimal(port as nat) + "/"@ + Seq::<char>::empty());
    assert("/"@ + Seq::<char>::empty() =~= "/"@);
}

/// A key in the settings goes before the cookie; without either there is none.
pub proof fn law_which_key(s: Settings, file: Option<String>, key: Option<String>)
    requires
        call_ensures(Settings::get_api_key, (&s, file), key),
    ensures
        s@.api_key is Some ==> text_of(key) == s@.api_key,
        s@.api_key is None && file is None ==> key is None,
        s@.api_key is None ==> (file matches Some(t) ==> (t@.len() > 0 && !is_white_space(t@[0])
            && !is_white_space(t@.last()) ==> text_of(key) == Some(t@))),
{
    if let Some(t) = file {
        law_trim(t@, ' ');
    }
}

} // verus!
