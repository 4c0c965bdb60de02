//! How the system is told of the proxy and of its root certificate.

use crate::places::{base_place, Base, Os, Place, PlaceView};
use crate::proxy::ca::CA_NAME;
use crate::proxy::pac::{pac_url, proxy_url};
use crate::state::place_views;
use crate::text::{
    all_lines, chars_of, concat2, concat3, contains, contains_text, is_white_space,
    keep_non_empty, lacks, law_lines, law_trim, lemma_non_empty_joins, lemma_texts_push,
    lossy_string, non_empty, same_text, split_lines, string_of, text_in,
    texts, trim, trimmed, upper_text, uppercase,
};
use vstd::prelude::*;

verus! {

// ── Commands ──

/// A word of a command: a text, or one of two paths.
pub enum Word {
    Text(String),
    /// The path of the root certificate.
    Certificate,
    /// The path of the keychain of the user.
    Keychain,
}

pub enum WordView {
    Text(Seq<char>),
    Certificate,
    Keychain,
}

impl View for Word {
    type V = WordView;

    open spec fn view(&self) -> WordView {
        match self {
            Word::Text(t) => WordView::Text(t@),
            Word::Certificate => WordView::Certificate,
            Word::Keychain => WordView::Keychain,
        }
    }
}

/// A command: a program and its arguments.
pub struct Cmd {
    pub program: &'static str,
    pub args: Vec<Word>,
}

#[verifier::ext_equal]
pub struct CmdView {
    pub program: Seq<char>,
    pub args: Seq<WordView>,
}

pub open spec fn word_views(v: Seq<Word>) -> Seq<WordView> {
    Seq::new(v.len(), |i: int| v[i]@)
}

impl View for Cmd {
    type V = CmdView;

    open spec fn view(&self) -> CmdView {
        CmdView { program: self.program@, args: word_views(self.args@) }
    }
}

pub open spec fn cmd_views(v: Seq<Cmd>) -> Seq<CmdView> {
    Seq::new(v.len(), |i: int| v[i]@)
}

impl CmdView {
    /// The command with one more word.
    pub open spec fn arg(self, t: Seq<char>) -> CmdView {
        CmdView { program: self.program, args: self.args.push(WordView::Text(t)) }
    }

    /// The command with the path of the root certificate.
    pub open spec fn certificate(self) -> CmdView {
        CmdView { program: self.program, args: self.args.push(WordView::Certificate) }
    }
}

pub open spec fn command(program: Seq<char>) -> CmdView {
    CmdView { program, args: Seq::empty() }
}

impl Cmd {
    pub fn new(program: &'static str) -> (r: Cmd)
        ensures
            r@ == command(program@),
    {
        let r = Cmd { program, args: Vec::new() };
        assert(r@ =~= command(program@));
        r
    }

    fn with(self, w: Word) -> (r: Cmd)
        ensures
            r@ == (CmdView { program: self@.program, args: self@.args.push(w@) }),
    {
        let mut args = self.args;
        let ghost before = args@;
        args.push(w);
        assert(word_views(args@) =~= word_views(before).push(w@));
        Cmd { program: self.program, args }
    }

    /// The command with one more word.
    pub fn arg(self, t: &str) -> (r: Cmd)
        ensures
            r@ == self@.arg(t@),
    {
        self.with(Word::Text(t.to_owned()))
    }

    /// The command with the path of the root certificate.
    pub fn certificate(self) -> (r: Cmd)
        ensures
            r@ == self@.certificate(),
    {
        self.with(Word::Certificate)
    }
}

fn add_cmd(list: &mut Vec<Cmd>, c: Cmd)
    ensures
        cmd_views(final(list)@) == cmd_views(old(list)@).push(c@),
{
    let ghost before = list@;
    list.push(c);
    assert(cmd_views(list@) =~= cmd_views(before).push(c@));
}

/// What a program printed; none if it could not be run.
pub open spec fn printed(output: Option<Vec<u8>>) -> Option<Seq<char>> {
    match output {
        Some(o) => Some(text_in(o@)),
        None => None,
    }
}

fn text_printed(output: Option<Vec<u8>>) -> (r: Option<String>)
    ensures
        crate::text::text_of(r) == printed(output),
{
    match output {
        Some(o) => Some(lossy_string(&o)),
        None => None,
    }
}

// ── Network services ──

/// A text without the stars that it begins with.
pub open spec fn without_stars(s: Seq<char>) -> Seq<char>
    decreases s.len(),
{
    if s.len() > 0 && s[0] == '*' {
        without_stars(s.drop_first())
    } else {
        s
    }
}

pub open spec fn service_name(line: Seq<char>) -> Seq<char> {
    trim(without_stars(line))
}

/// The network services in a list that begins with a heading. A star marks
/// those that are off.
pub open spec fn services_in(text: Seq<char>) -> Seq<Seq<char>> {
    let lines = all_lines(text).skip(1);
    non_empty(Seq::new(lines.len(), |i: int| service_name(lines[i])))
}

fn name_of_service(line: &str) -> (r: String)
    ensures
        r@ == service_name(line@),
{
    let v = chars_of(line);
    let mut i: usize = 0;
    assert(line@.skip(0) =~= line@);
    while i < v.len() && v[i] == '*'
        invariant
            i <= v@.len(),
            v@ == line@,
            without_stars(line@.skip(i as int)) == without_stars(line@),
        decreases v@.len() - i,
    {
        assert(line@.skip(i as int).drop_first() =~= line@.skip(i + 1));
        i = i + 1;
    }
    let rest = string_of(&v, i, v.len());
    assert(rest@ =~= line@.skip(i as int));
    trimmed(rest.as_str())
}

/// The network services of a Mac, by what `networksetup` printed.
pub fn network_services(output: Option<Vec<u8>>) -> (r: Vec<String>)
    ensures
        texts(r@) == match printed(output) {
            Some(t) => services_in(t),
            None => Seq::empty(),
        },
{
    let mut names: Vec<String> = Vec::new();
    let text = match text_printed(output) {
        Some(t) => t,
        None => {
            assert(texts(names@) =~= Seq::empty());
            return names;
        },
    };
    let lines = split_lines(text.as_str());
    let ghost all = texts(lines@);
    let ghost rest = all.skip(1);
    let ghost want = Seq::new(rest.len(), |i: int| service_name(rest[i]));
    proof {
        crate::text::lemma_split_on_len(text@, '\n');
    }
    let mut i: usize = 1;
    assert(texts(names@) =~= want.take(0));
    while i < lines.len()
        invariant
            1 <= i <= lines@.len(),
            all == texts(lines@),
            rest == all.skip(1),
            want == Seq::new(rest.len(), |i: int| service_name(rest[i])),
            texts(names@) == want.take(i - 1),
        decreases lines@.len() - i,
    {
        let name = name_of_service(lines[i].as_str());
        proof {
            assert(rest[i - 1] == all[i as int]);
            assert(all[i as int] == lines@[i as int]@);
            assert(want[i - 1] == name@);
            lemma_texts_push(names@, name);
            assert(want.take(i as int) =~= want.take(i - 1).push(want[i - 1]));
        }
        names.push(name);
        i = i + 1;
    }
    assert(want.take(i - 1) =~= want);
    keep_non_empty(names)
}

/// The command that lists the network services of a Mac.
pub fn list_services() -> (r: Cmd)
    ensures
        r@ == command("networksetup"@).arg("-listallnetworkservices"@),
{
    Cmd::new("networksetup").arg("-listallnetworkservices")
}

// ── Telling the system of the script ──

/// Where Windows keeps the address of the script.
pub const INET_SETTINGS_KEY: &'static str =
    "HKCU\\Software\\Microsoft\\Windows\\CurrentVersion\\Internet Settings";

/// The desktops that are told in different ways.
#[derive(Clone, Copy, PartialEq, Eq, Structural)]
pub enum Desktop {
    /// By the settings of GNOME, which others heed too.
    Gnome,
    Kde,
}

/// The desktop, by its name in capitals.
pub open spec fn desktop(name: Seq<char>) -> Desktop {
    if contains_text(name, "GNOME"@) || contains_text(name, "UNITY"@) || contains_text(
        name,
        "CINNAMON"@,
    ) || contains_text(name, "MATE"@) || contains_text(name, "BUDGIE"@) {
        Desktop::Gnome
    } else if contains_text(name, "KDE"@) || contains_text(name, "PLASMA"@) {
        Desktop::Kde
    } else {
        Desktop::Gnome
    }
}

/// The desktop, by its name in capitals.
pub fn desktop_of(name: &str) -> (r: Desktop)
    ensures
        r == desktop(name@),
{
    if contains(name, "GNOME") || contains(name, "UNITY") || contains(name, "CINNAMON")
        || contains(name, "MATE") || contains(name, "BUDGIE") {
        Desktop::Gnome
    } else if contains(name, "KDE") || contains(name, "PLASMA") {
        Desktop::Kde
    } else {
        Desktop::Gnome
    }
}

/// The desktop, by what the system calls it; none if it does not say.
pub fn desktop_env(name: Option<&str>) -> (r: Desktop)
    ensures
        r == match name {
            Some(n) => desktop(upper_text(n@)),
            None => desktop(""@),
        },
{
    match name {
        Some(n) => desktop_of(uppercase(n).as_str()),
        None => desktop_of(""),
    }
}

pub open spec fn gsettings_set(key: Seq<char>, value: Seq<char>) -> CmdView {
    command("gsettings"@).arg("set"@).arg("org.gnome.system.proxy"@).arg(key).arg(value)
}

pub open spec fn kde_write(key: Seq<char>, value: Seq<char>) -> CmdView {
    command("kwriteconfig5"@).arg("--group"@).arg("Proxy Settings"@).arg("--key"@).arg(key).arg(
        value,
    ).arg("--file"@).arg("kioslaverc"@)
}

pub open spec fn mac_state(service: Seq<char>, state: Seq<char>) -> CmdView {
    command("networksetup"@).arg("-setautoproxystate"@).arg(service).arg(state)
}

pub open spec fn mac_url(service: Seq<char>) -> CmdView {
    command("networksetup"@).arg("-setautoproxyurl"@).arg(service).arg(pac_url())
}

/// For each network service: the address of the script, and that it is on.
pub open spec fn mac_install(services: Seq<Seq<char>>) -> Seq<CmdView>
    decreases services.len(),
{
    if services.len() == 0 {
        Seq::empty()
    } else {
        mac_install(services.drop_last()).push(mac_url(services.last())).push(
            mac_state(services.last(), "on"@),
        )
    }
}

/// For each network service: that the script is off.
pub open spec fn mac_remove(services: Seq<Seq<char>>) -> Seq<CmdView> {
    Seq::new(services.len(), |i: int| mac_state(services[i], "off"@))
}

/// The script by which Windows notices the change.
pub const NOTIFY_SCRIPT: &'static str =
    "\nAdd-Type -TypeDefinition @\"\nusing System.Runtime.InteropServices;\npublic class WinInet {\n    [DllImport(\"wininet.dll\", SetLastError=true)]\n    public static extern bool InternetSetOption(System.IntPtr h, int o, System.IntPtr b, int l);\n}\n\"@\n[WinInet]::InternetSetOption([System.IntPtr]::Zero, 39, [System.IntPtr]::Zero, 0) # INTERNET_OPTION_SETTINGS_CHANGED\n[WinInet]::InternetSetOption([System.IntPtr]::Zero, 37, [System.IntPtr]::Zero, 0) # INTERNET_OPTION_REFRESH\n";

pub open spec fn windows_notify() -> CmdView {
    command("powershell"@).arg("-NoProfile"@).arg("-NonInteractive"@).arg("-Command"@).arg(
        NOTIFY_SCRIPT@,
    )
}

/// The commands that tell the system of the script.
pub open spec fn install_commands(os: Os, desktop: Desktop, services: Seq<Seq<char>>) -> Seq<
    CmdView,
> {
    match os {
        Os::MacOs => mac_install(services),
        Os::Windows => seq![
            command("reg"@).arg("add"@).arg(INET_SETTINGS_KEY@).arg("/v"@).arg(
                "AutoConfigURL"@,
            ).arg("/t"@).arg("REG_SZ"@).arg("/d"@).arg(pac_url()).arg("/f"@),
            windows_notify(),
        ],
        Os::Linux => match desktop {
            Desktop::Gnome => seq![
                gsettings_set("mode"@, "auto"@),
                gsettings_set("autoconfig-url"@, pac_url()),
            ],
            Desktop::Kde => seq![
                kde_write("ProxyType"@, "2"@),
                kde_write("Proxy Config Script"@, pac_url()),
            ],
        },
        _ => seq![],
    }
}

/// The commands that make the system forget the script.
pub open spec fn remove_commands(os: Os, services: Seq<Seq<char>>) -> Seq<CmdView> {
    match os {
        Os::MacOs => mac_remove(services),
        Os::Windows => seq![
            command("reg"@).arg("delete"@).arg(INET_SETTINGS_KEY@).arg("/v"@).arg(
                "AutoConfigURL"@,
            ).arg("/f"@),
            windows_notify(),
        ],
        Os::Linux => seq![
            gsettings_set("mode"@, "none"@),
            gsettings_set("autoconfig-url"@, "''"@),
            kde_write("ProxyType"@, "0"@),
        ],
        _ => seq![],
    }
}

fn set_gsettings(key: &str, value: &str) -> (r: Cmd)
    ensures
        r@ == gsettings_set(key@, value@),
{
    Cmd::new("gsettings").arg("set").arg("org.gnome.system.proxy").arg(key).arg(value)
}

fn write_kde(key: &str, value: &str) -> (r: Cmd)
    ensures
        r@ == kde_write(key@, value@),
{
    Cmd::new("kwriteconfig5").arg("--group").arg("Proxy Settings").arg("--key").arg(key).arg(
        value,
    ).arg("--file").arg("kioslaverc")
}

fn notify_inet_change() -> (r: Cmd)
    ensures
        r@ == windows_notify(),
{
    Cmd::new("powershell").arg("-NoProfile").arg("-NonInteractive").arg("-Command").arg(
        NOTIFY_SCRIPT,
    )
}

/// The commands that tell the system of the script. The network services are
/// those of a Mac.
pub fn install_pac(os: Os, desktop: Desktop, services: &Vec<String>) -> (r: Vec<Cmd>)
    ensures
        cmd_views(r@) == install_commands(os, desktop, texts(services@)),
{
    let url = proxy_url("/.fistbump/proxy.pac");
    let mut list: Vec<Cmd> = Vec::new();
    assert(cmd_views(list@) =~= Seq::empty());
    match os {
        Os::MacOs => {
            let ghost all = texts(services@);
            let mut i: usize = 0;
            assert(all.take(0) =~= Seq::empty());
            while i < services.len()
                invariant
                    i <= services@.len(),
                    all == texts(services@),
                    url@ == pac_url(),
                    cmd_views(list@) == mac_install(all.take(i as int)),
                decreases services@.len() - i,
            {
                assert(all.take(i + 1).drop_last() =~= all.take(i as int));
                assert(all[i as int] == services@[i as int]@);
                let s = services[i].as_str();
                add_cmd(
                    &mut list,
                    Cmd::new("networksetup").arg("-setautoproxyurl").arg(s).arg(url.as_str()),
                );
                add_cmd(
                    &mut list,
                    Cmd::new("networksetup").arg("-setautoproxystate").arg(s).arg("on"),
                );
                i = i + 1;
            }
            assert(all.take(i as int) =~= all);
        },
        Os::Windows => {
            let add_url = Cmd::new("reg").arg("add").arg(INET_SETTINGS_KEY).arg("/v").arg(
                "AutoConfigURL",
            ).arg("/t").arg("REG_SZ").arg("/d").arg(url.as_str()).arg("/f");
            add_cmd(&mut list, add_url);
            add_cmd(&mut list, notify_inet_change());
            assert(cmd_views(list@) =~= install_commands(os, desktop, texts(services@)));
        },
        Os::Linux => match desktop {
            Desktop::Gnome => {
                add_cmd(&mut list, set_gsettings("mode", "auto"));
                add_cmd(&mut list, set_gsettings("autoconfig-url", url.as_str()));
                assert(cmd_views(list@) =~= install_commands(os, desktop, texts(services@)));
            },
            Desktop::Kde => {
                add_cmd(&mut list, write_kde("ProxyType", "2"));
                add_cmd(&mut list, write_kde("Proxy Config Script", url.as_str()));
                assert(cmd_views(list@) =~= install_commands(os, desktop, texts(services@)));
            },
        },
        _ => {},
    }
    list
}

/// The commands that make the system forget the script.
pub fn remove_pac(os: Os, services: &Vec<String>) -> (r: Vec<Cmd>)
    ensures
        cmd_views(r@) == remove_commands(os, texts(services@)),
{
    let mut list: Vec<Cmd> = Vec::new();
    assert(cmd_views(list@) =~= Seq::empty());
    match os {
        Os::MacOs => {
            let ghost all = texts(services@);
            let ghost want = mac_remove(all);
            let mut i: usize = 0;
            assert(cmd_views(list@) =~= want.take(0));
            while i < services.len()
                invariant
                    i <= services@.len(),
                    all == texts(services@),
                    want == mac_remove(all),
                    cmd_views(list@) == want.take(i as int),
                decreases services@.len() - i,
            {
                let s = services[i].as_str();
                add_cmd(
                    &mut list,
                    Cmd::new("networksetup").arg("-setautoproxystate").arg(s).arg("off"),
                );
                assert(want.take(i + 1) =~= want.take(i as int).push(want[i as int]));
                i = i + 1;
            }
            assert(want.take(i as int) =~= want);
        },
        Os::Windows => {
            add_cmd(
                &mut list,
                Cmd::new("reg").arg("delete").arg(INET_SETTINGS_KEY).arg("/v").arg(
                    "AutoConfigURL",
                ).arg("/f"),
            );
            add_cmd(&mut list, notify_inet_change());
            assert(cmd_views(list@) =~= remove_commands(os, texts(services@)));
        },
        Os::Linux => {
            add_cmd(&mut list, set_gsettings("mode", "none"));
            add_cmd(&mut list, set_gsettings("autoconfig-url", "''"));
            add_cmd(&mut list, write_kde("ProxyType", "0"));
            assert(cmd_views(list@) =~= remove_commands(os, texts(services@)));
        },
        _ => {},
    }
    list
}

// ── Whether the system knows of the script ──

/// What the system is being asked.
pub enum Check {
    /// For the network services of a Mac.
    Services,
    /// For the script of one of them; these are left.
    Service { rest: Vec<String> },
    Registry,
    GnomeMode,
    GnomeUrl,
    KdeType,
    KdeUrl,
}

pub enum CheckView {
    Services,
    Service { rest: Seq<Seq<char>> },
    Registry,
    GnomeMode,
    GnomeUrl,
    KdeType,
    KdeUrl,
}

impl View for Check {
    type V = CheckView;

    open spec fn view(&self) -> CheckView {
        match self {
            Check::Services => CheckView::Services,
            Check::Service { rest } => CheckView::Service { rest: texts(rest@) },
            Check::Registry => CheckView::Registry,
            Check::GnomeMode => CheckView::GnomeMode,
            Check::GnomeUrl => CheckView::GnomeUrl,
            Check::KdeType => CheckView::KdeType,
            Check::KdeUrl => CheckView::KdeUrl,
        }
    }
}

/// The next step: run a command and see what it prints, or the answer.
pub enum CheckStep {
    Run { check: Check, cmd: Cmd },
    Answer(bool),
}

#[verifier::ext_equal]
pub enum CheckStepView {
    Run { check: CheckView, cmd: CmdView },
    Answer(bool),
}

impl View for CheckStep {
    type V = CheckStepView;

    open spec fn view(&self) -> CheckStepView {
        match self {
            CheckStep::Run { check, cmd } => CheckStepView::Run { check: check@, cmd: cmd@ },
            CheckStep::Answer(yes) => CheckStepView::Answer(*yes),
        }
    }
}

pub open spec fn gsettings_get(key: Seq<char>) -> CmdView {
    command("gsettings"@).arg("get"@).arg("org.gnome.system.proxy"@).arg(key)
}

pub open spec fn kde_read(key: Seq<char>) -> CmdView {
    command("kreadconfig5"@).arg("--group"@).arg("Proxy Settings"@).arg("--key"@).arg(key).arg(
        "--file"@,
    ).arg("kioslaverc"@)
}

pub open spec fn first_check(os: Os) -> CheckStepView {
    match os {
        Os::MacOs => CheckStepView::Run {
            check: CheckView::Services,
            cmd: command("networksetup"@).arg("-listallnetworkservices"@),
        },
        Os::Windows => CheckStepView::Run {
            check: CheckView::Registry,
            cmd: command("reg"@).arg("query"@).arg(INET_SETTINGS_KEY@).arg("/v"@).arg(
                "AutoConfigURL"@,
            ),
        },
        Os::Linux => CheckStepView::Run {
            check: CheckView::GnomeMode,
            cmd: gsettings_get("mode"@),
        },
        _ => CheckStepView::Answer(false),
    }
}

/// Asks the first of these network services, if there is one.
pub open spec fn ask_service(services: Seq<Seq<char>>) -> CheckStepView {
    if services.len() == 0 {
        CheckStepView::Answer(false)
    } else {
        CheckStepView::Run {
            check: CheckView::Service { rest: services.drop_first() },
            cmd: command("networksetup"@).arg("-getautoproxyurl"@).arg(services[0]),
        }
    }
}

pub open spec fn ask_kde() -> CheckStepView {
    CheckStepView::Run { check: CheckView::KdeType, cmd: kde_read("ProxyType"@) }
}

/// Whether there is output, and this text in it.
pub open spec fn says(out: Option<Seq<char>>, text: Seq<char>) -> bool {
    match out {
        Some(t) => contains_text(t, text),
        None => false,
    }
}

/// As `says`, but for white space around the output.
pub open spec fn says_trimmed(out: Option<Seq<char>>, text: Seq<char>) -> bool {
    match out {
        Some(t) => contains_text(trim(t), text),
        None => false,
    }
}

/// What follows from what a command printed.
pub open spec fn next_check(check: CheckView, out: Option<Seq<char>>) -> CheckStepView {
    match check {
        CheckView::Services => ask_service(
            match out {
                Some(t) => services_in(t),
                None => Seq::empty(),
            },
        ),
        CheckView::Service { rest } => if says(out, pac_url()) && says(out, "Enabled: Yes"@) {
            CheckStepView::Answer(true)
        } else {
            ask_service(rest)
        },
        CheckView::Registry => CheckStepView::Answer(says(out, pac_url())),
        CheckView::GnomeMode => if says_trimmed(out, "auto"@) {
            CheckStepView::Run {
                check: CheckView::GnomeUrl,
                cmd: gsettings_get("autoconfig-url"@),
            }
        } else {
            ask_kde()
        },
        CheckView::GnomeUrl => if says_trimmed(out, pac_url()) {
            CheckStepView::Answer(true)
        } else {
            ask_kde()
        },
        CheckView::KdeType => if out matches Some(t) && trim(t) == "2"@ {
            CheckStepView::Run {
                check: CheckView::KdeUrl,
                cmd: kde_read("Proxy Config Script"@),
            }
        } else {
            CheckStepView::Answer(false)
        },
        CheckView::KdeUrl => CheckStepView::Answer(says_trimmed(out, pac_url())),
    }
}

/// The first question to the system.
pub fn start_check(os: Os) -> (r: CheckStep)
    ensures
        r@ == first_check(os),
{
    match os {
        Os::MacOs => CheckStep::Run { check: Check::Services, cmd: list_services() },
        Os::Windows => CheckStep::Run {
            check: Check::Registry,
            cmd: Cmd::new("reg").arg("query").arg(INET_SETTINGS_KEY).arg("/v").arg(
                "AutoConfigURL",
            ),
        },
        Os::Linux => CheckStep::Run {
            check: Check::GnomeMode,
            cmd: Cmd::new("gsettings").arg("get").arg("org.gnome.system.proxy").arg("mode"),
        },
        _ => CheckStep::Answer(false),
    }
}

fn service_check(services: Vec<String>) -> (r: CheckStep)
    ensures
        r@ == ask_service(texts(services@)),
{
    if services.len() == 0 {
        return CheckStep::Answer(false);
    }
    let mut rest = services;
    let ghost before = rest@;
    let first = rest.remove(0);
    assert(texts(rest@) =~= texts(before).drop_first());
    assert(texts(before)[0] == first@);
    CheckStep::Run {
        check: Check::Service { rest },
        cmd: Cmd::new("networksetup").arg("-getautoproxyurl").arg(first.as_str()),
    }
}

fn read_kde(key: &str) -> (r: Cmd)
    ensures
        r@ == kde_read(key@),
{
    Cmd::new("kreadconfig5").arg("--group").arg("Proxy Settings").arg("--key").arg(key).arg(
        "--file",
    ).arg("kioslaverc")
}

fn kde_check() -> (r: CheckStep)
    ensures
        r@ == ask_kde(),
{
    CheckStep::Run { check: Check::KdeType, cmd: read_kde("ProxyType") }
}

fn output_says(out: &Option<String>, text: &str) -> (r: bool)
    ensures
        r == says(crate::text::text_of(*out), text@),
{
    match out {
        Some(t) => contains(t.as_str(), text),
        None => false,
    }
}

fn output_says_trimmed(out: &Option<String>, text: &str) -> (r: bool)
    ensures
        r == says_trimmed(crate::text::text_of(*out), text@),
{
    match out {
        Some(t) => contains(trimmed(t.as_str()).as_str(), text),
        None => false,
    }
}

/// What follows from what a command printed: another question, or whether the
/// system knows of the script.
pub fn is_pac_installed(check: Check, output: Option<Vec<u8>>) -> (r: CheckStep)
    ensures
        r@ == next_check(check@, printed(output)),
{
    let url = proxy_url("/.fistbump/proxy.pac");
    match check {
        Check::Services => {
            let services = network_services(output);
            service_check(services)
        },
        Check::Service { rest } => {
            let out = text_printed(output);
            if output_says(&out, url.as_str()) && output_says(&out, "Enabled: Yes") {
                CheckStep::Answer(true)
            } else {
                service_check(rest)
            }
        },
        Check::Registry => {
            let out = text_printed(output);
            CheckStep::Answer(output_says(&out, url.as_str()))
        },
        Check::GnomeMode => {
            let out = text_printed(output);
            if output_says_trimmed(&out, "auto") {
                CheckStep::Run {
                    check: Check::GnomeUrl,
                    cmd: Cmd::new("gsettings").arg("get").arg("org.gnome.system.proxy").arg(
                        "autoconfig-url",
                    ),
                }
            } else {
                kde_check()
            }
        },
        Check::GnomeUrl => {
            let out = text_printed(output);
            if output_says_trimmed(&out, url.as_str()) {
                CheckStep::Answer(true)
            } else {
                kde_check()
            }
        },
        Check::KdeType => {
            let out = text_printed(output);
            let script = match &out {
                Some(t) => same_text(trimmed(t.as_str()).as_str(), "2"),
                None => false,
            };
            if script {
                CheckStep::Run { check: Check::KdeUrl, cmd: read_kde("Proxy Config Script") }
            } else {
                CheckStep::Answer(false)
            }
        },
        Check::KdeUrl => {
            let out = text_printed(output);
            CheckStep::Answer(output_says_trimmed(&out, url.as_str()))
        },
    }
}

// ── The root certificate ──

/// What is known of the root certificate in the trust store of the system.
pub enum Evidence {
    /// On a Mac: whether `security` accepts it.
    Mac { accepted: bool },
    /// On Windows: whether `certutil` succeeded, and what it printed.
    Windows { success: bool, output: Vec<u8> },
    /// On Linux: for each database of certificates whether it is there and
    /// lists it, and whether it lies in the system's own store.
    Linux { listed: Vec<bool>, in_system: bool },
    /// Nothing could be found out.
    Nothing,
}

/// Whether the system trusts the root certificate.
pub open spec fn is_trusted(e: Evidence) -> bool {
    match e {
        Evidence::Mac { accepted } => accepted,
        Evidence::Windows { success, output } => success && contains_text(
            text_in(output@),
            CA_NAME@,
        ),
        Evidence::Linux { listed, in_system } => listed@.contains(true) || in_system,
        Evidence::Nothing => false,
    }
}

/// Whether the system trusts the root certificate.
#[verifier::loop_isolation(false)]
pub fn is_ca_installed(e: &Evidence) -> (r: bool)
    ensures
        r == is_trusted(*e),
{
    match e {
        Evidence::Mac { accepted } => *accepted,
        Evidence::Windows { success, output } => {
            *success && contains(lossy_string(output).as_str(), CA_NAME)
        },
        Evidence::Linux { listed, in_system } => {
            let mut i: usize = 0;
            while i < listed.len()
                invariant
                    i <= listed@.len(),
                    forall|k: int| 0 <= k < i ==> !listed@[k],
                decreases listed@.len() - i,
            {
                if listed[i] {
                    assert(listed@[i as int]);
                    return true;
                }
                i = i + 1;
            }
            assert(!listed@.contains(true));
            *in_system
        },
        Evidence::Nothing => false,
    }
}

/// The command that says whether the system trusts the root certificate, on a
/// Mac and on Windows.
pub open spec fn trust_query(os: Os) -> Option<CmdView> {
    match os {
        Os::MacOs => Some(command("security"@).arg("verify-cert"@).arg("-c"@).certificate()),
        Os::Windows => Some(
            command("certutil"@).arg("-store"@).arg("-user"@).arg("Root"@).arg(CA_NAME@),
        ),
        _ => None,
    }
}

pub fn check_ca(os: Os) -> (r: Option<Cmd>)
    ensures
        match r {
            Some(c) => trust_query(os) == Some(c@),
            None => trust_query(os) is None,
        },
{
    match os {
        Os::MacOs => Some(Cmd::new("security").arg("verify-cert").arg("-c").certificate()),
        Os::Windows => Some(
            Cmd::new("certutil").arg("-store").arg("-user").arg("Root").arg(CA_NAME),
        ),
        _ => None,
    }
}

/// The command that makes the system trust the root certificate, on a Mac and
/// on Windows.
pub open spec fn trust_command(os: Os) -> Option<CmdView> {
    match os {
        Os::MacOs => {
            let c = command("security"@).arg("add-trusted-cert"@).arg("-r"@).arg(
                "trustRoot"@,
            ).arg("-k"@);
            Some(
                CmdView {
                    program: c.program,
                    args: c.args.push(WordView::Keychain).push(WordView::Certificate),
                },
            )
        },
        Os::Windows => Some(
            command("certutil"@).arg("-addstore"@).arg("-user"@).arg("Root"@).certificate(),
        ),
        _ => None,
    }
}

pub fn install_ca_cert(os: Os) -> (r: Option<Cmd>)
    ensures
        match r {
            Some(c) => trust_command(os) == Some(c@),
            None => trust_command(os) is None,
        },
{
    match os {
        Os::MacOs => Some(
            Cmd::new("security").arg("add-trusted-cert").arg("-r").arg("trustRoot").arg("-k").with(
                Word::Keychain,
            ).certificate(),
        ),
        Os::Windows => Some(
            Cmd::new("certutil").arg("-addstore").arg("-user").arg("Root").certificate(),
        ),
        _ => None,
    }
}

// ── Linux ──

/// Where the system's own store keeps the root certificate.
pub const SYSTEM_CERT: &'static str =
    "/usr/local/share/ca-certificates/fistbump-local-ca.crt";

/// The browsers that have a home directory of their own, as snaps.
pub open spec fn snaps() -> Seq<Seq<char>> {
    seq!["chromium"@, "google-chrome"@, "brave"@, "opera"@]
}

pub fn snap_names() -> (r: Vec<&'static str>)
    ensures
        r@.len() == 4,
        forall|i: int| 0 <= i < 4 ==> (#[trigger] r@[i])@ == snaps()[i],
{
    let mut list: Vec<&'static str> = Vec::new();
    list.push("chromium");
    list.push("google-chrome");
    list.push("brave");
    list.push("opera");
    list
}

pub open spec fn snap_database(name: Seq<char>) -> PlaceView {
    base_place(Base::Home).join("snap"@).join(name).join("current/.pki/nssdb"@)
}

/// The databases of the snaps among the first `n` that are there.
pub open spec fn snap_databases(there: Seq<bool>, n: nat) -> Seq<PlaceView>
    decreases n,
{
    if n == 0 {
        Seq::empty()
    } else {
        let before = snap_databases(there, (n - 1) as nat);
        if there[n - 1] {
            before.push(snap_database(snaps()[n - 1]))
        } else {
            before
        }
    }
}

/// The databases of certificates that browsers use: that of the user, and
/// those of the snaps that are there.
pub fn nss_db_paths(there: &[bool; 4]) -> (r: Vec<Place>)
    ensures
        place_views(r@) == seq![base_place(Base::Home).join(".pki/nssdb"@)] + snap_databases(
            there@,
            4,
        ),
{
    let names = snap_names();
    let mut list: Vec<Place> = Vec::new();
    list.push(Place::at(Base::Home).join(".pki/nssdb"));
    let ghost first = seq![base_place(Base::Home).join(".pki/nssdb"@)];
    let mut i: usize = 0;
    assert(place_views(list@) =~= first + snap_databases(there@, 0));
    while i < 4
        invariant
            i <= 4,
            names@.len() == 4,
            forall|k: int| 0 <= k < 4 ==> (#[trigger] names@[k])@ == snaps()[k],
            place_views(list@) == first + snap_databases(there@, i as nat),
        decreases 4 - i,
    {
        if there[i] {
            let ghost before = list@;
            let p = Place::at(Base::Home).join("snap").join(names[i]).join("current/.pki/nssdb");
            list.push(p);
            assert(place_views(list@) =~= place_views(before).push(p@));
            assert(place_views(list@) =~= first + snap_databases(there@, (i + 1) as nat));
        }
        i = i + 1;
    }
    list
}

/// How `certutil` is told of a database.
pub open spec fn nss_name(dir: Seq<char>) -> Seq<char> {
    "sql:"@ + dir
}

/// The commands that put the root certificate into a database: one to make the
/// database, if it is not there; one to remove an older certificate; one to
/// put it in, which says whether it is there.
pub open spec fn nss_commands(dir: Seq<char>, there: bool) -> Seq<CmdView> {
    let db = nss_name(dir);
    (if there {
        seq![]
    } else {
        seq![command("certutil"@).arg("-N"@).arg("-d"@).arg(db).arg("--empty-password"@)]
    }) + seq![
        command("certutil"@).arg("-D"@).arg("-d"@).arg(db).arg("-n"@).arg(CA_NAME@),
        command("certutil"@).arg("-A"@).arg("-d"@).arg(db).arg("-t"@).arg("CT,c,c"@).arg(
            "-n"@,
        ).arg(CA_NAME@).arg("-i"@).certificate(),
    ]
}

pub fn install_to_nssdb(dir: &str, there: bool) -> (r: Vec<Cmd>)
    ensures
        cmd_views(r@) == nss_commands(dir@, there),
{
    let db = concat2("sql:", dir);
    let mut list: Vec<Cmd> = Vec::new();
    assert(cmd_views(list@) =~= Seq::empty());
    if !there {
        add_cmd(
            &mut list,
            Cmd::new("certutil").arg("-N").arg("-d").arg(db.as_str()).arg("--empty-password"),
        );
    }
    add_cmd(
        &mut list,
        Cmd::new("certutil").arg("-D").arg("-d").arg(db.as_str()).arg("-n").arg(CA_NAME),
    );
    add_cmd(
        &mut list,
        Cmd::new("certutil").arg("-A").arg("-d").arg(db.as_str()).arg("-t").arg("CT,c,c").arg(
            "-n",
        ).arg(CA_NAME).arg("-i").certificate(),
    );
    assert(cmd_views(list@) =~= nss_commands(dir@, there));
    list
}

/// The command that succeeds if the root certificate is in a database.
pub fn check_nssdb(dir: &str) -> (r: Cmd)
    ensures
        r@ == command("certutil"@).arg("-L"@).arg("-d"@).arg(nss_name(dir@)).arg("-n"@).arg(
            CA_NAME@,
        ),
{
    let db = concat2("sql:", dir);
    Cmd::new("certutil").arg("-L").arg("-d").arg(db.as_str()).arg("-n").arg(CA_NAME)
}

/// The command that puts the root certificate into the system's own store.
pub open spec fn system_command(cert: Seq<char>) -> CmdView {
    command("pkexec"@).arg("sh"@).arg("-c"@).arg(
        "cp '"@ + cert + "' '"@ + SYSTEM_CERT@ + "' && update-ca-certificates"@,
    )
}

pub fn install_ca_system(cert: &str, there: bool) -> (r: Option<Cmd>)
    ensures
        r is None <==> there,
        r matches Some(c) ==> c@ == system_command(cert@),
{
    if there {
        return None;
    }
    let mut script = concat3("cp '", cert, "' '");
    script.append(SYSTEM_CERT);
    script.append("' && update-ca-certificates");
    Some(Cmd::new("pkexec").arg("sh").arg("-c").arg(script.as_str()))
}

/// The programs that could install `certutil`.
#[derive(Clone, Copy, PartialEq, Eq, Structural)]
pub enum Installer {
    Apt,
    Dnf,
    Pacman,
}

/// What to do about `certutil`: nothing if it is there; else install it with
/// the first program that can.
pub enum CertutilPlan {
    Ready,
    Install(Cmd),
    Impossible,
}

pub open spec fn certutil_install(i: Installer) -> CmdView {
    match i {
        Installer::Apt => command("pkexec"@).arg("apt-get"@).arg("install"@).arg("-y"@).arg(
            "libnss3-tools"@,
        ),
        Installer::Dnf => command("pkexec"@).arg("dnf"@).arg("install"@).arg("-y"@).arg(
            "nss-tools"@,
        ),
        Installer::Pacman => command("pkexec"@).arg("pacman"@).arg("-S"@).arg(
            "--noconfirm"@,
        ).arg("nss"@),
    }
}

pub fn ensure_certutil(certutil: bool, apt: bool, dnf: bool, pacman: bool) -> (r: CertutilPlan)
    ensures
        match r {
            CertutilPlan::Ready => certutil,
            CertutilPlan::Install(c) => !certutil && (if apt {
                c@ == certutil_install(Installer::Apt)
            } else if dnf {
                c@ == certutil_install(Installer::Dnf)
            } else {
                pacman && c@ == certutil_install(Installer::Pacman)
            }),
            CertutilPlan::Impossible => !certutil && !apt && !dnf && !pacman,
        },
{
    if certutil {
        CertutilPlan::Ready
    } else if apt {
        CertutilPlan::Install(
            Cmd::new("pkexec").arg("apt-get").arg("install").arg("-y").arg("libnss3-tools"),
        )
    } else if dnf {
        CertutilPlan::Install(
            Cmd::new("pkexec").arg("dnf").arg("install").arg("-y").arg("nss-tools"),
        )
    } else if pacman {
        CertutilPlan::Install(
            Cmd::new("pkexec").arg("pacman").arg("-S").arg("--noconfirm").arg("nss"),
        )
    } else {
        CertutilPlan::Impossible
    }
}

// ── Laws ──

/// On GNOME, what was installed is found again: the settings that were written
/// are those that are looked for.
pub proof fn law_gnome_finds_script(mode: Seq<char>, url: Seq<char>)
    requires
        contains_text(trim(mode), "auto"@),
        contains_text(trim(url), pac_url()),
    ensures
        install_commands(Os::Linux, Desktop::Gnome, Seq::empty()) == seq![
            gsettings_set("mode"@, "auto"@),
            gsettings_set("autoconfig-url"@, pac_url()),
        ],
        next_check(CheckView::GnomeMode, Some(mode)) == (CheckStepView::Run {
            check: CheckView::GnomeUrl,
            cmd: gsettings_get("autoconfig-url"@),
        }),
        next_check(CheckView::GnomeUrl, Some(url)) == CheckStepView::Answer(true),
{
}

/// How many questions there are at most from here on.
pub open spec fn steps_left(check: CheckView) -> nat {
    match check {
        CheckView::Services => 0,
        CheckView::Service { rest } => rest.len() + 1,
        CheckView::Registry => 1,
        CheckView::GnomeMode => 4,
        CheckView::GnomeUrl => 3,
        CheckView::KdeType => 2,
        CheckView::KdeUrl => 1,
    }
}

/// The question whether the system knows of the script comes to an end: each
/// step asks of one network service fewer, or goes on to the next of at most
/// four questions.
pub proof fn law_check_ends(check: CheckView, out: Option<Seq<char>>)
    requires
        !(check is Services),
    ensures
        next_check(check, out) matches CheckStepView::Run { check: next, .. } ==> !(next is Services)
            && steps_left(next) < steps_left(check),
{
}

// ── What the commands are ──

/// Whether a command is this program with these words.
pub open spec fn is_command(c: CmdView, program: Seq<char>, args: Seq<Seq<char>>) -> bool {
    c.program == program && c.args == Seq::new(args.len(), |i: int| WordView::Text(args[i]))
}

/// The script is served by the proxy on this machine.
pub proof fn law_script_url()
    ensures
        pac_url() == "http://127.0.0.1:17350/.fistbump/proxy.pac"@,
{
    reveal_strlit("http://127.0.0.1:");
    reveal_strlit("/.fistbump/proxy.pac");
    reveal_strlit("http://127.0.0.1:17350/.fistbump/proxy.pac");
    reveal_with_fuel(crate::text::decimal, 5);
    assert(crate::text::decimal(17350) =~= seq!['1', '7', '3', '5', '0']);
    assert(pac_url() =~= "http://127.0.0.1:17350/.fistbump/proxy.pac"@);
}

/// On a Mac each network service is given the script and told to heed it, in
/// this order, and to take it off again each is told not to.
pub proof fn law_mac_commands(desktop: Desktop, services: Seq<Seq<char>>, i: int)
    requires
        0 <= i < services.len(),
    ensures
        install_commands(Os::MacOs, desktop, services).len() == 2 * services.len(),
        is_command(
            install_commands(Os::MacOs, desktop, services)[2 * i],
            "networksetup"@,
            seq![
                "-setautoproxyurl"@,
                services[i],
                "http://127.0.0.1:17350/.fistbump/proxy.pac"@,
            ],
        ),
        is_command(
            install_commands(Os::MacOs, desktop, services)[2 * i + 1],
            "networksetup"@,
            seq!["-setautoproxystate"@, services[i], "on"@],
        ),
        remove_commands(Os::MacOs, services).len() == services.len(),
        is_command(
            remove_commands(Os::MacOs, services)[i],
            "networksetup"@,
            seq!["-setautoproxystate"@, services[i], "off"@],
        ),
    decreases services.len(),
{
    law_script_url();
    let less = services.drop_last();
    lemma_mac_install_len(less);
    let s = services[i];
    let url = seq![
        "-setautoproxyurl"@,
        s,
        "http://127.0.0.1:17350/.fistbump/proxy.pac"@,
    ];
    let on = seq!["-setautoproxystate"@, s, "on"@];
    let off = seq!["-setautoproxystate"@, s, "off"@];
    assert(mac_state(s, "off"@).args =~= Seq::new(off.len(), |k: int| WordView::Text(off[k])));
    if i < less.len() {
        law_mac_commands(desktop, less, i);
        assert(mac_install(services)[2 * i] == mac_install(less)[2 * i]);
        assert(mac_install(services)[2 * i + 1] == mac_install(less)[2 * i + 1]);
    } else {
        assert(mac_url(s).args =~= Seq::new(url.len(), |k: int| WordView::Text(url[k])));
        assert(mac_state(s, "on"@).args =~= Seq::new(on.len(), |k: int| WordView::Text(on[k])));
    }
}

proof fn lemma_mac_install_len(services: Seq<Seq<char>>)
    ensures
        mac_install(services).len() == 2 * services.len(),
    decreases services.len(),
{
    if services.len() > 0 {
        lemma_mac_install_len(services.drop_last());
    }
}

/// On Windows the script is written into the settings of the user, or taken out
/// of them, and the programs that run are told so.
pub proof fn law_windows_commands(desktop: Desktop, services: Seq<Seq<char>>)
    ensures
        ({
            let key =
                "HKCU\\Software\\Microsoft\\Windows\\CurrentVersion\\Internet Settings"@;
            let add = install_commands(Os::Windows, desktop, services);
            let del = remove_commands(Os::Windows, services);
            &&& add.len() == 2 && del.len() == 2
            &&& is_command(
                add[0],
                "reg"@,
                seq![
                    "add"@,
                    key,
                    "/v"@,
                    "AutoConfigURL"@,
                    "/t"@,
                    "REG_SZ"@,
                    "/d"@,
                    "http://127.0.0.1:17350/.fistbump/proxy.pac"@,
                    "/f"@,
                ],
            )
            &&& is_command(del[0], "reg"@, seq!["delete"@, key, "/v"@, "AutoConfigURL"@, "/f"@])
            &&& add[1] == del[1] && add[1].program == "powershell"@
        }),
{
    law_script_url();
    let key = "HKCU\\Software\\Microsoft\\Windows\\CurrentVersion\\Internet Settings"@;
    let add = install_commands(Os::Windows, desktop, services);
    let del = remove_commands(Os::Windows, services);
    let a = seq![
        "add"@,
        key,
        "/v"@,
        "AutoConfigURL"@,
        "/t"@,
        "REG_SZ"@,
        "/d"@,
        "http://127.0.0.1:17350/.fistbump/proxy.pac"@,
        "/f"@,
    ];
    let d = seq!["delete"@, key, "/v"@, "AutoConfigURL"@, "/f"@];
    assert(add[0].args =~= Seq::new(a.len(), |k: int| WordView::Text(a[k])));
    assert(del[0].args =~= Seq::new(d.len(), |k: int| WordView::Text(d[k])));
}

/// On Linux the desktop is told to take its proxies from the script, and where
/// that is; to take it off again, both kinds of desktop are told to use none.
pub proof fn law_linux_commands(services: Seq<Seq<char>>)
    ensures
        ({
            let gnome = install_commands(Os::Linux, Desktop::Gnome, services);
            let kde = install_commands(Os::Linux, Desktop::Kde, services);
            let off = remove_commands(Os::Linux, services);
            &&& gnome.len() == 2 && kde.len() == 2 && off.len() == 3
            &&& is_command(
                gnome[0],
                "gsettings"@,
                seq!["set"@, "org.gnome.system.proxy"@, "mode"@, "auto"@],
            )
            &&& is_command(
                gnome[1],
                "gsettings"@,
                seq![
                    "set"@,
                    "org.gnome.system.proxy"@,
                    "autoconfig-url"@,
                    "http://127.0.0.1:17350/.fistbump/proxy.pac"@,
                ],
            )
            &&& is_kde_command(kde[0], "ProxyType"@, "2"@)
            &&& is_kde_command(
                kde[1],
                "Proxy Config Script"@,
                "http://127.0.0.1:17350/.fistbump/proxy.pac"@,
            )
            &&& is_command(
                off[0],
                "gsettings"@,
                seq!["set"@, "org.gnome.system.proxy"@, "mode"@, "none"@],
            )
            &&& is_command(
                off[1],
                "gsettings"@,
                seq!["set"@, "org.gnome.system.proxy"@, "autoconfig-url"@, "''"@],
            )
            &&& is_kde_command(off[2], "ProxyType"@, "0"@)
        }),
{
    law_script_url();
    let url = "http://127.0.0.1:17350/.fistbump/proxy.pac"@;
    lemma_gsettings("mode"@, "auto"@);
    lemma_gsettings("autoconfig-url"@, url);
    lemma_gsettings("mode"@, "none"@);
    lemma_gsettings("autoconfig-url"@, "''"@);
    lemma_kde("ProxyType"@, "2"@);
    lemma_kde("Proxy Config Script"@, url);
    lemma_kde("ProxyType"@, "0"@);
}

/// Whether a command sets a key of KDE's proxy settings.
pub open spec fn is_kde_command(c: CmdView, key: Seq<char>, value: Seq<char>) -> bool {
    is_command(
        c,
        "kwriteconfig5"@,
        seq![
            "--group"@,
            "Proxy Settings"@,
            "--key"@,
            key,
            value,
            "--file"@,
            "kioslaverc"@,
        ],
    )
}

proof fn lemma_gsettings(key: Seq<char>, value: Seq<char>)
    ensures
        is_command(
            gsettings_set(key, value),
            "gsettings"@,
            seq!["set"@, "org.gnome.system.proxy"@, key, value],
        ),
{
    let a = seq!["set"@, "org.gnome.system.proxy"@, key, value];
    assert(gsettings_set(key, value).args =~= Seq::new(a.len(), |k: int| WordView::Text(a[k])));
}

proof fn lemma_kde(key: Seq<char>, value: Seq<char>)
    ensures
        is_kde_command(kde_write(key, value), key, value),
{
    let a = seq![
        "--group"@,
        "Proxy Settings"@,
        "--key"@,
        key,
        value,
        "--file"@,
        "kioslaverc"@,
    ];
    assert(kde_write(key, value).args =~= Seq::new(a.len(), |k: int| WordView::Text(a[k])));
}

/// The network services are the lines behind the first, without the star of one
/// that is off.
pub proof fn law_services_are_listed(title: Seq<char>, name: Seq<char>, rest: Seq<char>)
    requires
        lacks(title, '\n'),
        lacks(name, '\n'),
        name.len() > 0,
        name[0] != '*',
        !is_white_space(name[0]),
        !is_white_space(name.last()),
    ensures
        services_in(title + "\n"@ + (name + "\n"@ + rest)) == seq![name] + services_in(
            title + "\n"@ + rest,
        ),
        services_in(title + "\n"@ + ("*"@ + name + "\n"@ + rest)) == seq![name] + services_in(
            title + "\n"@ + rest,
        ),
{
    reveal_strlit("*");
    let star = "*"@ + name;
    assert(star.drop_first() =~= name);
    assert(lacks(star, '\n')) by {
        assert forall|i: int| 0 <= i < star.len() implies #[trigger] star[i] != '\n' by {
            if i > 0 {
                assert(star[i] == name[i - 1]);
            }
        }
    }
    assert(is_white_space('\r'));
    law_trim(name, '\r');
    assert(without_stars(name) == name);
    assert(without_stars(star) == without_stars(star.drop_first()));
    lemma_service(title, name, name, rest);
    lemma_service(title, star, name, rest);
}

proof fn lemma_service(title: Seq<char>, line: Seq<char>, name: Seq<char>, rest: Seq<char>)
    requires
        lacks(title, '\n'),
        lacks(line, '\n'),
        line.len() > 0,
        line.last() != '\r',
        name.len() > 0,
        service_name(line) == name,
    ensures
        services_in(title + "\n"@ + (line + "\n"@ + rest)) == seq![name] + services_in(
            title + "\n"@ + rest,
        ),
{
    law_lines(title, line + "\n"@ + rest);
    law_lines(line, rest);
    law_lines(title, rest);
    let more = all_lines(rest);
    let all = all_lines(title + "\n"@ + (line + "\n"@ + rest)).skip(1);
    let less = all_lines(title + "\n"@ + rest).skip(1);
    assert(all =~= seq![line] + more);
    assert(less =~= more);
    let names = Seq::new(all.len(), |i: int| service_name(all[i]));
    let others = Seq::new(less.len(), |i: int| service_name(less[i]));
    assert(names =~= seq![name] + others);
    lemma_non_empty_joins(seq![name], others);
    reveal_with_fuel(non_empty, 2);
    assert(seq![name].drop_last() =~= Seq::empty());
    assert(non_empty(seq![name]) =~= seq![name]);
}

/// Whether the script is in force: on a Mac as soon as one service has it and
/// heeds it; on Windows if the settings name it; on Linux if a desktop takes its
/// proxies from it.
pub proof fn law_when_in_force(rest: Seq<Seq<char>>, out: Seq<char>)
    ensures
        ({
            let url = "http://127.0.0.1:17350/.fistbump/proxy.pac"@;
            let yes = CheckStepView::Answer(true);
            let no = CheckStepView::Answer(false);
            &&& contains_text(out, url) && contains_text(out, "Enabled: Yes"@) ==> next_check(
                CheckView::Service { rest },
                Some(out),
            ) == yes
            &&& !contains_text(out, url) || !contains_text(out, "Enabled: Yes"@) ==> next_check(
                CheckView::Service { rest: Seq::empty() },
                Some(out),
            ) == no
            &&& next_check(CheckView::Registry, Some(out)) == CheckStepView::Answer(
                contains_text(out, url),
            )
            &&& next_check(CheckView::Registry, None) == no
            &&& contains_text(trim(out), url) ==> next_check(CheckView::GnomeUrl, Some(out)) == yes
                && next_check(CheckView::KdeUrl, Some(out)) == yes
            &&& !contains_text(trim(out), url) ==> next_check(CheckView::KdeUrl, Some(out)) == no
            &&& trim(out) != "2"@ ==> next_check(CheckView::KdeType, Some(out)) == no
        }),
{
    law_script_url();
}

/// What has the root certificate trusted, and what asks whether it is.
pub proof fn law_trust_commands(dir: Seq<char>, there: bool)
    ensures
        trust_command(Os::MacOs) matches Some(c) && c.program == "security"@ && c.args[0]
            == WordView::Text("add-trusted-cert"@) && c.args.contains(WordView::Certificate)
            && c.args.contains(WordView::Keychain),
        trust_command(Os::Windows) matches Some(c) && c.program == "certutil"@ && c.args[0]
            == WordView::Text("-addstore"@) && c.args.last() == WordView::Certificate,
        trust_query(Os::Windows) matches Some(c) && is_command(
            c,
            "certutil"@,
            seq!["-store"@, "-user"@, "Root"@, "Fistbump Local CA"@],
        ),
        trust_query(Os::MacOs) matches Some(c) && c.program == "security"@ && c.args[0]
            == WordView::Text("verify-cert"@) && c.args.last() == WordView::Certificate,
        trust_command(Os::Linux) is None,
        nss_commands(dir, true).len() == 2,
        nss_commands(dir, false).len() == 3,
        ({
            let c = nss_commands(dir, there).last();
            &&& c.program == "certutil"@
            &&& c.args[0] == WordView::Text("-A"@)
            &&& c.args[2] == WordView::Text("sql:"@ + dir)
            &&& c.args[4] == WordView::Text("CT,c,c"@)
            &&& c.args[6] == WordView::Text("Fistbump Local CA"@)
            &&& c.args.last() == WordView::Certificate
        }),
{
    let m = trust_command(Os::MacOs)->Some_0.args;
    assert(m[5] == WordView::Certificate && m[4] == WordView::Keychain);
    let q = seq!["-store"@, "-user"@, "Root"@, "Fistbump Local CA"@];
    assert(trust_query(Os::Windows)->Some_0.args =~= Seq::new(
        q.len(),
        |k: int| WordView::Text(q[k]),
    ));
}

/// Which desktop it is: KDE only where nothing says that it is one that heeds
/// the settings of GNOME; whatever is not known is taken for one of these.
pub proof fn law_desktops(name: Seq<char>)
    ensures
        contains_text(name, "GNOME"@) ==> desktop(name) == Desktop::Gnome,
        desktop(name) == Desktop::Kde ==> contains_text(name, "KDE"@) || contains_text(
            name,
            "PLASMA"@,
        ),
        (contains_text(name, "KDE"@) || contains_text(name, "PLASMA"@)) && !contains_text(
            name,
            "GNOME"@,
        ) && !contains_text(name, "UNITY"@) && !contains_text(name, "CINNAMON"@)
            && !contains_text(name, "MATE"@) && !contains_text(name, "BUDGIE"@) ==> desktop(name)
            == Desktop::Kde,
{
}

/// A certificate counts as trusted where the system says so: on Linux in any
/// of the databases, or in the system's own store.
pub proof fn law_trust(accepted: bool, success: bool, output: Vec<u8>, listed: Vec<bool>, i: int)
    ensures
        is_trusted(Evidence::Mac { accepted }) == accepted,
        !success ==> !is_trusted(Evidence::Windows { success, output }),
        success ==> is_trusted(Evidence::Windows { success, output }) == contains_text(
            text_in(output@),
            "Fistbump Local CA"@,
        ),
        is_trusted(Evidence::Linux { listed, in_system: true }),
        0 <= i < listed@.len() && listed@[i] ==> is_trusted(
            Evidence::Linux { listed, in_system: false },
        ),
        !listed@.contains(true) ==> !is_trusted(Evidence::Linux { listed, in_system: false }),
        !is_trusted(Evidence::Nothing),
{
}

/// Each snap that is there has its database looked at, and no other, in the
/// order in which they are known.
pub proof fn law_snaps(there: Seq<bool>, i: int)
    requires
        there.len() == 4,
        0 <= i < 4,
    ensures
        snaps() == seq!["chromium"@, "google-chrome"@, "brave"@, "opera"@],
        snap_databases(there, 4).contains(snap_database(snaps()[i])) <== there[i],
        snap_databases(there, 4).len() <= 4,
        (forall|k: int| 0 <= k < 4 ==> !(#[trigger] there[k])) ==> snap_databases(there, 4).len()
            == 0,
        snap_database(snaps()[i]).parts == seq!["snap"@, snaps()[i], "current/.pki/nssdb"@],
        snap_database(snaps()[i]).base == Base::Home,
{
    reveal_with_fuel(snap_databases, 5);
    assert(snap_database(snaps()[i]).parts =~= seq!["snap"@, snaps()[i], "current/.pki/nssdb"@]);
    let d0 = snap_databases(there, 0);
    let d1 = snap_databases(there, 1);
    let d2 = snap_databases(there, 2);
    let d3 = snap_databases(there, 3);
    let d4 = snap_databases(there, 4);
    if there[i] {
        let k = snap_databases(there, i as nat).len() as int;
        assert(snap_databases(there, (i + 1) as nat)[k] == snap_database(snaps()[i]));
        if i == 0 {
            assert(d2[k] == d1[k] && d3[k] == d2[k] && d4[k] == d3[k]);
        } else if i == 1 {
            assert(d3[k] == d2[k] && d4[k] == d3[k]);
        } else if i == 2 {
            assert(d4[k] == d3[k]);
        }
        assert(d4[k] == snap_database(snaps()[i]));
    }
    if forall|k: int| 0 <= k < 4 ==> !(#[trigger] there[k]) {
        assert(!there[0] && !there[1] && !there[2] && !there[3]);
    }
}

/// What installs the tool for the databases, by the program that installs
/// things, and what copies the certificate into the system's own store.
pub proof fn law_installers(cert: Seq<char>)
    ensures
        is_command(
            certutil_install(Installer::Apt),
            "pkexec"@,
            seq!["apt-get"@, "install"@, "-y"@, "libnss3-tools"@],
        ),
        is_command(
            certutil_install(Installer::Dnf),
            "pkexec"@,
            seq!["dnf"@, "install"@, "-y"@, "nss-tools"@],
        ),
        is_command(
            certutil_install(Installer::Pacman),
            "pkexec"@,
            seq!["pacman"@, "-S"@, "--noconfirm"@, "nss"@],
        ),
        is_command(
            system_command(cert),
            "pkexec"@,
            seq![
                "sh"@,
                "-c"@,
                "cp '"@ + cert + "' '"@ + "/usr/local/share/ca-certificates/fistbump-local-ca.crt"@
                    + "' && update-ca-certificates"@,
            ],
        ),
{
    let a = seq!["apt-get"@, "install"@, "-y"@, "libnss3-tools"@];
    let d = seq!["dnf"@, "install"@, "-y"@, "nss-tools"@];
    let p = seq!["pacman"@, "-S"@, "--noconfirm"@, "nss"@];
    let s = seq![
        "sh"@,
        "-c"@,
        "cp '"@ + cert + "' '"@ + "/usr/local/share/ca-certificates/fistbump-local-ca.crt"@
            + "' && update-ca-certificates"@,
    ];
    assert(certutil_install(Installer::Apt).args =~= Seq::new(4, |k: int| WordView::Text(a[k])));
    assert(certutil_install(Installer::Dnf).args =~= Seq::new(4, |k: int| WordView::Text(d[k])));
    assert(certutil_install(Installer::Pacman).args =~= Seq::new(
        4,
        |k: int| WordView::Text(p[k]),
    ));
    assert(system_command(cert).args =~= Seq::new(3, |k: int| WordView::Text(s[k])));
}

} // verus!
