//! Where the wallet keeps its files.

use crate::text::{same_text, texts};
use vstd::prelude::*;

verus! {

/// The systems that the wallet runs on.
#[derive(Clone, Copy, PartialEq, Eq, Structural)]
pub enum Os {
    MacOs,
    Windows,
    Linux,
    Android,
    Ios,
}

/// A directory that the system provides.
#[derive(Clone, Copy, PartialEq, Eq, Structural)]
pub enum Base {
    /// The user's home directory.
    Home,
    /// Where programs keep local data on Windows.
    LocalAppData,
    /// The files of the app on Android.
    AndroidFiles,
    /// The documents of the app on iOS.
    IosDocuments,
    /// Where the program itself is.
    Program,
    /// Where the program was built.
    Project,
}

/// A place: a directory of the system, and the names from there on.
pub struct Place {
    pub base: Base,
    pub parts: Vec<String>,
}

#[verifier::ext_equal]
pub struct PlaceView {
    pub base: Base,
    pub parts: Seq<Seq<char>>,
}

impl View for Place {
    type V = PlaceView;

    open spec fn view(&self) -> PlaceView {
        PlaceView { base: self.base, parts: texts(self.parts@) }
    }
}

impl PlaceView {
    /// What is called `name` in this place.
    pub open spec fn join(self, name: Seq<char>) -> PlaceView {
        PlaceView { base: self.base, parts: self.parts.push(name) }
    }

    /// The place for a network: the main network has no name of its own.
    pub open spec fn for_network(self, network: Seq<char>) -> PlaceView {
        if network == "main"@ {
            self
        } else {
            self.join(network)
        }
    }
}

pub open spec fn base_place(base: Base) -> PlaceView {
    PlaceView { base, parts: Seq::empty() }
}

impl Place {
    pub fn at(base: Base) -> (r: Place)
        ensures
            r@ == base_place(base),
    {
        let r = Place { base, parts: Vec::new() };
        assert(r@ =~= base_place(base));
        r
    }

    /// What is called `name` in this place.
    pub fn join(self, name: &str) -> (r: Place)
        ensures
            r@ == self@.join(name@),
    {
        let mut parts = self.parts;
        let ghost before = parts@;
        let part = name.to_owned();
        parts.push(part);
        let r = Place { base: self.base, parts };
        proof {
            crate::text::lemma_texts_push(before, part);
        }
        r
    }

    pub fn for_network(self, network: &str) -> (r: Place)
        ensures
            r@ == self@.for_network(network@),
    {
        if same_text(network, "main") {
            self
        } else {
            self.join(network)
        }
    }
}

// ── The places ──

pub open spec fn own_base(os: Os) -> PlaceView {
    match os {
        Os::Android => base_place(Base::AndroidFiles).join(".fistbump"@),
        Os::Ios => base_place(Base::IosDocuments).join(".fistbump"@),
        _ => base_place(Base::Home).join(".fistbump"@),
    }
}

/// The data directory of the node that the wallet runs.
pub open spec fn node_base(os: Os) -> PlaceView {
    match os {
        Os::Android => base_place(Base::AndroidFiles).join("fbd-data"@),
        Os::Ios => base_place(Base::IosDocuments).join("fbd"@),
        _ => own_base(os).join("fbd-data"@),
    }
}

/// The data directory of a node that runs on its own.
pub open spec fn legacy_base(os: Os) -> PlaceView {
    match os {
        Os::Windows => base_place(Base::LocalAppData).join("fbd"@),
        _ => base_place(Base::Home).join(".fbd"@),
    }
}

pub open spec fn own_dir(os: Os, network: Seq<char>) -> PlaceView {
    own_base(os).for_network(network)
}

pub open spec fn cookie_place(os: Os, network: Seq<char>) -> PlaceView {
    node_base(os).for_network(network).join(".cookie"@)
}

/// The socket that the browser extension reaches the wallet by, whatever the
/// network.
pub open spec fn socket_place(os: Os) -> PlaceView {
    own_base(os).join("extension.sock"@)
}

pub open spec fn wallets_place(os: Os, network: Seq<char>) -> PlaceView {
    node_base(os).for_network(network).join("wallets"@)
}

pub open spec fn legacy_wallets_place(os: Os, network: Seq<char>) -> PlaceView {
    legacy_base(os).for_network(network).join("wallets"@)
}

/// Whether one place lies in another, or is it.
pub open spec fn lies_in(a: PlaceView, b: PlaceView) -> bool {
    a.base == b.base && b.parts.len() <= a.parts.len() && a.parts.take(b.parts.len() as int)
        == b.parts
}

/// The wallet's own node never works in the directory of a node that runs on
/// its own, nor the other way round.
pub proof fn law_data_is_apart(os: Os)
    ensures
        !lies_in(node_base(os), legacy_base(os)),
        !lies_in(legacy_base(os), node_base(os)),
{
    reveal_strlit(".fistbump");
    reveal_strlit("fbd-data");
    reveal_strlit(".fbd");
    reveal_strlit("fbd");
    assert(".fistbump"@.len() != ".fbd"@.len());
    let a = node_base(os);
    let b = legacy_base(os);
    if a.base == b.base {
        assert(a.parts[0] == ".fistbump"@);
        assert(b.parts[0] == ".fbd"@);
        assert(b.parts.len() == 1);
        if lies_in(a, b) {
            assert(a.parts.take(1)[0] == b.parts[0]);
        }
    }
}

pub fn settings_base_dir(os: Os) -> (r: Place)
    ensures
        r@ == own_base(os),
{
    match os {
        Os::Android => Place::at(Base::AndroidFiles).join(".fistbump"),
        Os::Ios => Place::at(Base::IosDocuments).join(".fistbump"),
        Os::MacOs => Place::at(Base::Home).join(".fistbump"),
        Os::Windows => Place::at(Base::Home).join(".fistbump"),
        Os::Linux => Place::at(Base::Home).join(".fistbump"),
    }
}

/// Where the settings are, apart for each network.
pub fn settings_dir(os: Os, network: &str) -> (r: Place)
    ensures
        r@ == own_dir(os, network@),
{
    settings_base_dir(os).for_network(network)
}

pub fn settings_path(os: Os, network: &str) -> (r: Place)
    ensures
        r@ == own_dir(os, network@).join("settings.json"@),
{
    settings_dir(os, network).join("settings.json")
}

/// Where the process id of the node is noted.
pub fn pid_path(os: Os) -> (r: Place)
    ensures
        r@ == own_base(os).join("fbd.pid"@),
{
    settings_base_dir(os).join("fbd.pid")
}

pub fn fbd_data_dir(os: Os) -> (r: Place)
    ensures
        r@ == node_base(os),
{
    match os {
        Os::Android => Place::at(Base::AndroidFiles).join("fbd-data"),
        Os::Ios => Place::at(Base::IosDocuments).join("fbd"),
        Os::MacOs => settings_base_dir(os).join("fbd-data"),
        Os::Windows => settings_base_dir(os).join("fbd-data"),
        Os::Linux => settings_base_dir(os).join("fbd-data"),
    }
}

/// Where the node leaves the key to its RPC.
pub fn cookie_path_for(os: Os, network: &str) -> (r: Place)
    ensures
        r@ == cookie_place(os, network@),
{
    fbd_data_dir(os).for_network(network).join(".cookie")
}

/// The wallets of a node that runs on its own.
pub fn legacy_fbd_wallets_dir(os: Os, network: &str) -> (r: Place)
    ensures
        r@ == legacy_wallets_place(os, network@),
{
    let base = match os {
        Os::Windows => Place::at(Base::LocalAppData).join("fbd"),
        Os::MacOs => Place::at(Base::Home).join(".fbd"),
        Os::Linux => Place::at(Base::Home).join(".fbd"),
        Os::Android => Place::at(Base::Home).join(".fbd"),
        Os::Ios => Place::at(Base::Home).join(".fbd"),
    };
    base.for_network(network).join("wallets")
}

/// The wallets of the wallet's own node.
pub fn wallet_wallets_dir(os: Os, network: &str) -> (r: Place)
    ensures
        r@ == wallets_place(os, network@),
{
    fbd_data_dir(os).for_network(network).join("wallets")
}

/// A file that is there once the user was asked about old wallets.
pub fn migration_marker_path(os: Os) -> (r: Place)
    ensures
        r@ == node_base(os).join(".fistbump-migration-done"@),
{
    fbd_data_dir(os).join(".fistbump-migration-done")
}

/// Where a passphrase is kept for unlocking by fingerprint.
pub fn biometric_path(os: Os, network: &str, wallet: &str) -> (r: Place)
    ensures
        r@ == own_dir(os, network@).join("biometric"@).join(wallet@),
{
    settings_dir(os, network).join("biometric").join(wallet)
}

/// The socket that the browser extension reaches the wallet by.
pub fn ipc_socket_path(os: Os) -> (r: Place)
    ensures
        r@ == socket_place(os),
{
    settings_base_dir(os).join("extension.sock")
}

/// Everything of a network but the main one lies in a directory of its name;
/// the cookie and the wallets lie in the node's data, under these names.
pub proof fn law_networks_have_their_own(os: Os, network: Seq<char>)
    ensures
        cookie_place(os, network).parts.last() == ".cookie"@,
        wallets_place(os, network).parts.last() == "wallets"@,
        legacy_wallets_place(os, network).parts.last() == "wallets"@,
        lies_in(cookie_place(os, network), node_base(os)),
        lies_in(wallets_place(os, network), node_base(os)),
        lies_in(legacy_wallets_place(os, network), legacy_base(os)),
        lies_in(own_dir(os, network), own_base(os)),
        lies_in(socket_place(os), own_base(os)),
        socket_place(os).parts.last() == "extension.sock"@,
        network == "main"@ ==> own_dir(os, network) == own_base(os),
        network == "main"@ ==> cookie_place(os, network).parts.len() == node_base(os).parts.len()
            + 1,
        network != "main"@ ==> own_dir(os, network).parts.last() == network,
        network != "main"@ ==> cookie_place(os, network).parts.len() == node_base(os).parts.len()
            + 2 && cookie_place(os, network).parts[node_base(os).parts.len() as int] == network,
        network != "main"@ ==> wallets_place(os, network).parts.len() == node_base(os).parts.len()
            + 2 && wallets_place(os, network).parts[node_base(os).parts.len() as int] == network,
{
    let n = node_base(os);
    let l = legacy_base(os);
    let o = own_base(os);
    assert(cookie_place(os, network).parts.take(n.parts.len() as int) =~= n.parts);
    assert(wallets_place(os, network).parts.take(n.parts.len() as int) =~= n.parts);
    assert(legacy_wallets_place(os, network).parts.take(l.parts.len() as int) =~= l.parts);
    assert(own_dir(os, network).parts.take(o.parts.len() as int) =~= o.parts);
    assert(socket_place(os).parts.take(o.parts.len() as int) =~= o.parts);
}

/// Where the wallet keeps its own: in a hidden directory of its name, in the
/// user's home, or among the app's files on a phone; the node's data lies in it,
/// or beside it on a phone. Old wallets lie in the home, or on Windows where
/// programs keep local data.
pub proof fn law_bases(os: Os)
    ensures
        own_base(os).parts == seq![".fistbump"@],
        own_base(os).base == (match os {
            Os::Android => Base::AndroidFiles,
            Os::Ios => Base::IosDocuments,
            _ => Base::Home,
        }),
        node_base(os).base == own_base(os).base,
        os != Os::Android && os != Os::Ios ==> lies_in(node_base(os), own_base(os)),
        legacy_base(os).base == (if os == Os::Windows {
            Base::LocalAppData
        } else {
            Base::Home
        }),
{
    assert(own_base(os).parts =~= seq![".fistbump"@]);
    let n = node_base(os);
    let o = own_base(os);
    if os != Os::Android && os != Os::Ios {
        assert(n.parts.take(o.parts.len() as int) =~= o.parts);
    }
}

} // verus!
