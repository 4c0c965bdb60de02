//! What the wallet holds while it runs: its settings, the log of its node, and
//! the node itself.

use crate::places::{base_place, Base, Os, Place, PlaceView};
use crate::rpc::{push_signed, signed_decimal};
use crate::settings::{Settings, SettingsView};
use crate::text::{
    concat2, concat3, contains, contains_text, decimal, full_lines, law_decimal_is_short,
    law_decimal_reads_back, law_numbers_are_read, law_trim, lemma_texts_push, lines_with_text,
    number, parse_number, push_decimal, split_words, text_of, texts, trim,
    trimmed, with_number, words,
};
use vstd::prelude::*;

verus! {

/// How many lines of the log are kept.
pub const MAX_LOG_LINES: usize = 500;

/// How long to wait before the node is started again, in seconds.
pub const RESTART_SECS: u64 = 3;

/// How often to look whether the old node is gone, and how long to wait
/// between, in milliseconds.
pub const EXIT_CHECKS: u32 = 100;

pub const EXIT_CHECK_MS: u64 = 100;

/// Old wallets that could be copied.
#[derive(Clone, Debug)]
pub struct MigrationCandidate {
    /// Where they are.
    pub source: String,
    /// How many there are.
    pub wallet_count: usize,
}

pub struct MigrationView {
    pub source: Seq<char>,
    pub wallet_count: nat,
}

impl View for MigrationCandidate {
    type V = MigrationView;

    open spec fn view(&self) -> MigrationView {
        MigrationView { source: self.source@, wallet_count: self.wallet_count as nat }
    }
}

pub open spec fn migration_view(m: Option<MigrationCandidate>) -> Option<MigrationView> {
    match m {
        Some(c) => Some(c@),
        None => None,
    }
}

/// What the wallet holds while it runs.
pub struct AppState {
    pub settings: Settings,
    pub log_lines: Vec<String>,
    /// The log of a node that runs inside the wallet, as on phones.
    pub mobile_log: Vec<String>,
    pub fbd_pid: Option<u32>,
    pub is_quitting: bool,
    /// Old wallets that the user is being asked about. The node is not started
    /// until the answer is there.
    pub pending_migration: Option<MigrationCandidate>,
    /// The wallet that is open.
    pub active_wallet: Option<String>,
}

#[verifier::ext_equal]
pub struct StateView {
    pub settings: SettingsView,
    pub log_lines: Seq<Seq<char>>,
    pub mobile_log: Seq<Seq<char>>,
    pub fbd_pid: Option<u32>,
    pub is_quitting: bool,
    pub pending_migration: Option<MigrationView>,
    pub active_wallet: Option<Seq<char>>,
}

impl View for AppState {
    type V = StateView;

    open spec fn view(&self) -> StateView {
        StateView {
            settings: self.settings@,
            log_lines: texts(self.log_lines@),
            mobile_log: texts(self.mobile_log@),
            fbd_pid: self.fbd_pid,
            is_quitting: self.is_quitting,
            pending_migration: migration_view(self.pending_migration),
            active_wallet: text_of(self.active_wallet),
        }
    }
}

// ── The log ──

/// The last lines, as many as are kept.
pub open spec fn newest(lines: Seq<Seq<char>>) -> Seq<Seq<char>> {
    if lines.len() > MAX_LOG_LINES {
        lines.skip(lines.len() - MAX_LOG_LINES)
    } else {
        lines
    }
}

/// The log with the lines of a text.
pub open spec fn logged(log: Seq<Seq<char>>, text: Seq<char>) -> Seq<Seq<char>> {
    newest(log + full_lines(text))
}

/// Adds the lines of a text to a log.
pub fn append_log(log: &mut Vec<String>, text: &str)
    ensures
        texts(final(log)@) == logged(texts(old(log)@), text@),
{
    let lines = lines_with_text(text);
    let ghost before = texts(log@);
    let ghost all = texts(lines@);
    let mut i: usize = 0;
    assert(texts(log@) =~= before + all.take(0));
    while i < lines.len()
        invariant
            i <= lines@.len(),
            all == texts(lines@),
            texts(log@) == before + all.take(i as int),
        decreases lines@.len() - i,
    {
        let line = lines[i].clone();
        proof {
            lemma_texts_push(log@, line);
            assert(all.take(i + 1) =~= all.take(i as int).push(all[i as int]));
            assert(before + all.take(i + 1) =~= (before + all.take(i as int)).push(
                all[i as int],
            ));
        }
        log.push(line);
        i = i + 1;
    }
    assert(all.take(i as int) =~= all);
    let n: usize = log.len();
    if n > MAX_LOG_LINES {
        let ghost full = texts(log@);
        let ghost old_log = log@;
        let kept = log.split_off(n - MAX_LOG_LINES);
        *log = kept;
        assert(log@ =~= old_log.skip(n - MAX_LOG_LINES));
        assert(texts(log@) =~= full.skip(n - MAX_LOG_LINES));
    }
}

/// A log never holds more than it may, and never loses its newest line.
pub proof fn law_log_is_bounded(log: Seq<Seq<char>>, text: Seq<char>)
    requires
        log.len() <= MAX_LOG_LINES,
    ensures
        logged(log, text).len() <= MAX_LOG_LINES,
        full_lines(text).len() > 0 ==> logged(log, text).len() > 0 && logged(log, text).last()
            == full_lines(text).last(),
        log.len() + full_lines(text).len() <= MAX_LOG_LINES ==> logged(log, text) == log
            + full_lines(text),
{
}

fn copy_lines(lines: &Vec<String>) -> (r: Vec<String>)
    ensures
        texts(r@) == texts(lines@),
{
    let mut out: Vec<String> = Vec::new();
    let ghost all = texts(lines@);
    let mut i: usize = 0;
    assert(texts(out@) =~= all.take(0));
    while i < lines.len()
        invariant
            i <= lines@.len(),
            all == texts(lines@),
            texts(out@) == all.take(i as int),
        decreases lines@.len() - i,
    {
        let line = lines[i].clone();
        proof {
            lemma_texts_push(out@, line);
            assert(all.take(i + 1) =~= all.take(i as int).push(all[i as int]));
        }
        out.push(line);
        i = i + 1;
    }
    assert(all.take(i as int) =~= all);
    out
}

// ── The program of the node ──

pub open spec fn program_name(os: Os) -> Seq<char> {
    if os == Os::Windows {
        "fbd.exe"@
    } else {
        "fbd"@
    }
}

/// Where the project lies, from where it is built.
pub open spec fn project_root() -> PlaceView {
    base_place(Base::Project).join(".."@)
}

/// Where the program of the node is looked for, in this order. `program_known`
/// says whether it is known where this program is.
pub open spec fn candidates(os: Os, arm: bool, program_known: bool) -> Seq<PlaceView> {
    let exe = program_name(os);
    let bin = project_root().join("bin"@);
    if os == Os::Android {
        seq![base_place(Base::AndroidFiles).join("fbd"@)]
    } else {
        (if program_known {
            seq![base_place(Base::Program).join(exe)]
        } else {
            seq![]
        }) + (match os {
            Os::Windows => seq![bin.join("windows"@).join(exe)],
            Os::Linux => seq![
                bin.join("linux"@).join(
                    if arm {
                        "aarch64"@
                    } else {
                        "x86_64"@
                    },
                ).join(exe),
                bin.join("linux"@).join(exe),
            ],
            _ => seq![bin.join("darwin"@).join(exe)],
        }) + seq![
            project_root().join(".."@).join("fbd"@).join(".build"@).join("debug"@).join(exe),
        ]
    }
}

pub open spec fn place_views(v: Seq<Place>) -> Seq<PlaceView> {
    Seq::new(v.len(), |i: int| v[i]@)
}

fn add_place(list: &mut Vec<Place>, p: Place)
    ensures
        place_views(final(list)@) == place_views(old(list)@).push(p@),
{
    let ghost before = list@;
    list.push(p);
    assert(place_views(list@) =~= place_views(before).push(p@));
}

/// Where the program of the node is looked for, in this order.
pub fn find_binary(os: Os, arm: bool, program_known: bool) -> (r: Vec<Place>)
    ensures
        place_views(r@) == candidates(os, arm, program_known),
{
    let mut list: Vec<Place> = Vec::new();
    if os == Os::Android {
        add_place(&mut list, Place::at(Base::AndroidFiles).join("fbd"));
        assert(place_views(list@) =~= candidates(os, arm, program_known));
        return list;
    }
    let exe = if os == Os::Windows {
        "fbd.exe"
    } else {
        "fbd"
    };
    if program_known {
        add_place(&mut list, Place::at(Base::Program).join(exe));
    }
    match os {
        Os::Windows => {
            let bin = Place::at(Base::Project).join("..").join("bin");
            add_place(&mut list, bin.join("windows").join(exe));
        },
        Os::Linux => {
            let arch = if arm {
                "aarch64"
            } else {
                "x86_64"
            };
            let bin = Place::at(Base::Project).join("..").join("bin");
            add_place(&mut list, bin.join("linux").join(arch).join(exe));
            let bin = Place::at(Base::Project).join("..").join("bin");
            add_place(&mut list, bin.join("linux").join(exe));
        },
        _ => {
            let bin = Place::at(Base::Project).join("..").join("bin");
            add_place(&mut list, bin.join("darwin").join(exe));
        },
    }
    let root = Place::at(Base::Project).join("..");
    add_place(&mut list, root.join("..").join("fbd").join(".build").join("debug").join(exe));
    assert(place_views(list@) =~= candidates(os, arm, program_known));
    list
}

/// The first of several that is there.
pub open spec fn first_true(there: Seq<bool>) -> Option<int>
    decreases there.len(),
{
    if there.len() == 0 {
        None
    } else if there[0] {
        Some(0)
    } else {
        match first_true(there.drop_first()) {
            Some(i) => Some(i + 1),
            None => None,
        }
    }
}

/// The first of several that is there.
pub fn first_there(there: &Vec<bool>) -> (r: Option<usize>)
    ensures
        match r {
            Some(i) => first_true(there@) == Some(i as int),
            None => first_true(there@) is None,
        },
{
    let mut i: usize = 0;
    assert(there@.skip(0) =~= there@);
    while i < there.len()
        invariant
            i <= there@.len(),
            match first_true(there@.skip(i as int)) {
                Some(k) => first_true(there@) == Some(k + i),
                None => first_true(there@) is None,
            },
        decreases there@.len() - i,
    {
        let ghost rest = there@.skip(i as int);
        assert(rest.drop_first() =~= there@.skip(i + 1));
        if there[i] {
            assert(first_true(rest) == Some(0int));
            return Some(i);
        }
        i = i + 1;
    }
    None
}

/// The words of the lines that name the library of the wallet: the last of
/// each line, which is its path.
pub open spec fn library_paths(lines: Seq<Seq<char>>) -> Seq<Seq<char>>
    decreases lines.len(),
{
    if lines.len() == 0 {
        Seq::empty()
    } else {
        let before = library_paths(lines.drop_last());
        let w = words(lines.last());
        if contains_text(lines.last(), "libfistbump.so"@) && w.len() > 0 {
            before.push(w.last())
        } else {
            before
        }
    }
}

/// Where the library of the wallet was loaded from, by the list of what is in
/// memory.
pub fn find_native_lib(maps: &str) -> (r: Vec<String>)
    ensures
        texts(r@) == library_paths(full_lines(maps@)),
{
    let lines = lines_with_text(maps);
    let ghost all = texts(lines@);
    let mut out: Vec<String> = Vec::new();
    let mut i: usize = 0;
    assert(texts(out@) =~= library_paths(all.take(0)));
    while i < lines.len()
        invariant
            i <= lines@.len(),
            all == texts(lines@),
            texts(out@) == library_paths(all.take(i as int)),
        decreases lines@.len() - i,
    {
        assert(all.take(i + 1).drop_last() =~= all.take(i as int));
        assert(all[i as int] == lines@[i as int]@);
        if contains(lines[i].as_str(), "libfistbump.so") {
            let w = split_words(lines[i].as_str());
            let n: usize = w.len();
            assert(texts(w@).len() == n);
            if n > 0 {
                let path = w[n - 1].clone();
                proof {
                    lemma_texts_push(out@, path);
                    assert(texts(w@).last() == path@);
                }
                out.push(path);
            }
        }
        i = i + 1;
    }
    assert(all.take(i as int) =~= all);
    out
}

// ── Starting and stopping the node ──

/// The process that a pid file names, unless it is none.
pub open spec fn pid_in(file: Seq<char>) -> Option<nat> {
    match number(trim(file), u32::MAX as nat) {
        Some(n) => if n > 0 {
            Some(n)
        } else {
            None
        },
        None => None,
    }
}

/// The process that a pid file names.
pub fn stale_pid(file: &str) -> (r: Option<u32>)
    ensures
        match r {
            Some(n) => pid_in(file@) == Some(n as nat),
            None => pid_in(file@) is None,
        },
{
    match parse_number(trimmed(file).as_str(), u32::MAX as u64) {
        Some(n) => if n > 0 {
            Some(n as u32)
        } else {
            None
        },
        None => None,
    }
}

/// What the pid file says of a process is read back.
pub proof fn law_pid_reads_back(pid: u32)
    requires
        pid > 0,
    ensures
        pid_in(decimal(pid as nat)) == Some(pid as nat),
{
    let s = decimal(pid as nat);
    crate::text::law_decimal_reads_back(pid as nat);
    assert(!crate::text::is_white_space(s[0])) by {
        assert(crate::text::is_digit(s[0]));
    }
    assert(!crate::text::is_white_space(s.last())) by {
        assert(crate::text::is_digit(s[s.len() - 1]));
    }
    assert(trim(s) == s);
    assert(s[0] != '+');
}

/// An argument for the node.
pub enum NodeArg {
    Text(String),
    /// The path of the data directory.
    DataDir,
}

pub enum ArgView {
    Text(Seq<char>),
    DataDir,
}

impl View for NodeArg {
    type V = ArgView;

    open spec fn view(&self) -> ArgView {
        match self {
            NodeArg::Text(t) => ArgView::Text(t@),
            NodeArg::DataDir => ArgView::DataDir,
        }
    }
}

pub open spec fn arg_views(v: Seq<NodeArg>) -> Seq<ArgView> {
    Seq::new(v.len(), |i: int| v[i]@)
}

/// What the system is called in the name that the node gives itself.
pub open spec fn platform(os: Os) -> Seq<char> {
    match os {
        Os::Android => "android"@,
        Os::MacOs => "mac"@,
        Os::Windows => "windows"@,
        _ => "linux"@,
    }
}

/// What the node is told of mining.
pub open spec fn miner_args(s: SettingsView) -> Seq<ArgView> {
    if s.mining_enabled {
        (match s.miner_address {
            Some(a) => if a.len() > 0 {
                seq![ArgView::Text("--miner-address"@), ArgView::Text(a)]
            } else {
                seq![]
            },
            None => seq![],
        }) + (if s.miner_threads > 0 {
            seq![
                ArgView::Text("--miner-threads"@),
                ArgView::Text(decimal(s.miner_threads as nat)),
            ]
        } else {
            seq![]
        })
    } else {
        seq![]
    }
}

/// The arguments of the node.
pub open spec fn node_args(s: SettingsView, network: Seq<char>, version: Seq<char>, os: Os) -> Seq<
    ArgView,
> {
    seq![
        ArgView::Text("--log-level"@),
        ArgView::Text("debug"@),
        ArgView::Text("--network"@),
        ArgView::Text(network),
        ArgView::Text("--datadir"@),
        ArgView::DataDir,
        ArgView::Text("--agent"@),
        ArgView::Text("fbw:"@ + version + "("@ + platform(os) + ")"@),
    ] + miner_args(s)
}

fn push_arg(list: &mut Vec<NodeArg>, t: &str)
    ensures
        arg_views(final(list)@) == arg_views(old(list)@).push(ArgView::Text(t@)),
{
    let ghost before = list@;
    list.push(NodeArg::Text(t.to_owned()));
    assert(arg_views(list@) =~= arg_views(before).push(ArgView::Text(t@)));
}

/// The arguments of the node.
pub fn start_args(settings: &Settings, network: &str, version: &str, os: Os) -> (r: Vec<NodeArg>)
    ensures
        arg_views(r@) == node_args(settings@, network@, version@, os),
{
    let mut list: Vec<NodeArg> = Vec::new();
    assert(arg_views(list@) =~= seq![]);
    push_arg(&mut list, "--log-level");
    push_arg(&mut list, "debug");
    push_arg(&mut list, "--network");
    push_arg(&mut list, network);
    push_arg(&mut list, "--datadir");
    let ghost before = list@;
    list.push(NodeArg::DataDir);
    assert(arg_views(list@) =~= arg_views(before).push(ArgView::DataDir));
    push_arg(&mut list, "--agent");
    let name = match os {
        Os::Android => "android",
        Os::MacOs => "mac",
        Os::Windows => "windows",
        _ => "linux",
    };
    let mut agent = concat3("fbw:", version, "(");
    agent.append(name);
    agent.append(")");
    push_arg(&mut list, agent.as_str());
    let ghost base = arg_views(list@);
    if settings.mining_enabled {
        match &settings.miner_address {
            Some(a) => {
                if !a.as_str().is_empty() {
                    push_arg(&mut list, "--miner-address");
                    push_arg(&mut list, a.as_str());
                }
            },
            None => {},
        }
        if settings.miner_threads > 0 {
            push_arg(&mut list, "--miner-threads");
            let mut n = String::new();
            push_decimal(&mut n, settings.miner_threads as u64);
            assert(n@ =~= decimal(settings.miner_threads as nat));
            push_arg(&mut list, n.as_str());
        }
    }
    assert(arg_views(list@) =~= base + miner_args(settings@));
    assert(arg_views(list@) =~= node_args(settings@, network@, version@, os));
    list
}

/// What happens while the node is started and runs.
pub enum NodeEvent {
    /// The program of the node is not there.
    NoProgram { android: bool },
    /// A node of an earlier run is still there, and is being stopped.
    Stale(u32),
    NotStarted(String),
    Started(u32),
    /// The node is over, with this code.
    Exited(i32),
    /// So much time has passed since then that it could be started again.
    Rested,
    /// The node printed something.
    Printed(String),
}

/// What to do next.
#[derive(Clone, Copy, PartialEq, Eq, Structural)]
pub enum NodeAct {
    /// Nothing.
    Wait,
    /// Wait a while, then see whether to start the node again.
    Rest,
    /// Start the node.
    Start,
}

/// What is written to the log.
pub open spec fn note(event: NodeEvent, restart: bool) -> Option<Seq<char>> {
    match event {
        NodeEvent::NoProgram { android } => Some(
            if android {
                "[fistbump] error: fbd binary not found on Android"@
            } else {
                "[fistbump] error: bundled fbd binary not found"@
            },
        ),
        NodeEvent::Stale(pid) => Some(
            "[fistbump] killing stale fbd (pid "@ + decimal(pid as nat) + ")"@,
        ),
        NodeEvent::NotStarted(e) => Some("[fistbump] error: failed to start fbd: "@ + e@),
        NodeEvent::Started(pid) => Some(
            "[fistbump] started fbd (pid "@ + decimal(pid as nat) + ")"@,
        ),
        NodeEvent::Exited(code) => Some(
            "[fistbump] fbd exited (code "@ + signed_decimal(code as int) + ")"@,
        ),
        NodeEvent::Rested => if restart {
            Some("[fistbump] restarting fbd..."@)
        } else {
            None
        },
        NodeEvent::Printed(t) => Some(t@),
    }
}

/// Whether the node is to be started again: not while the wallet is quitting,
/// nor where one runs already.
pub open spec fn wants_restart(st: StateView) -> bool {
    !st.is_quitting && st.fbd_pid is None
}

/// What to do next.
pub open spec fn node_act(st: StateView, event: NodeEvent) -> NodeAct {
    match event {
        NodeEvent::Exited(_) => if st.is_quitting {
            NodeAct::Wait
        } else {
            NodeAct::Rest
        },
        NodeEvent::Rested => if wants_restart(st) {
            NodeAct::Start
        } else {
            NodeAct::Wait
        },
        _ => NodeAct::Wait,
    }
}

/// The state after an event.
pub open spec fn after_event(st: StateView, event: NodeEvent) -> StateView {
    StateView {
        log_lines: match note(event, wants_restart(st)) {
            Some(t) => logged(st.log_lines, t),
            None => st.log_lines,
        },
        fbd_pid: match event {
            NodeEvent::Started(pid) => Some(pid),
            NodeEvent::Exited(_) => None,
            _ => st.fbd_pid,
        },
        ..st
    }
}

impl AppState {
    /// The state at the start.
    pub fn new(settings: Settings) -> (r: AppState)
        ensures
            r@ == (StateView {
                settings: settings@,
                log_lines: Seq::empty(),
                mobile_log: Seq::empty(),
                fbd_pid: None,
                is_quitting: false,
                pending_migration: None,
                active_wallet: None,
            }),
    {
        let r = AppState {
            settings,
            log_lines: Vec::new(),
            mobile_log: Vec::new(),
            fbd_pid: None,
            is_quitting: false,
            pending_migration: None,
            active_wallet: None,
        };
        assert(r@.log_lines =~= Seq::empty());
        assert(r@.mobile_log =~= Seq::empty());
        r
    }

    /// The log: that of a node inside the wallet, where there is one.
    pub fn get_log(&self) -> (r: Vec<String>)
        ensures
            texts(r@) == if self@.mobile_log.len() > 0 {
                self@.mobile_log
            } else {
                self@.log_lines
            },
    {
        if self.mobile_log.len() > 0 {
            copy_lines(&self.mobile_log)
        } else {
            copy_lines(&self.log_lines)
        }
    }

    /// Takes what a node inside the wallet prints.
    pub fn push_log_line(&mut self, text: &str)
        ensures
            final(self)@ == (StateView {
                mobile_log: logged(old(self)@.mobile_log, text@),
                ..old(self)@
            }),
    {
        append_log(&mut self.mobile_log, text);
    }

    /// Takes note of what happened to the node and says what to do next.
    pub fn start_node(&mut self, event: NodeEvent) -> (r: NodeAct)
        ensures
            r == node_act(old(self)@, event),
            final(self)@ == after_event(old(self)@, event),
    {
        let mut act = NodeAct::Wait;
        match event {
            NodeEvent::NoProgram { android } => {
                if android {
                    append_log(
                        &mut self.log_lines,
                        "[fistbump] error: fbd binary not found on Android",
                    );
                } else {
                    append_log(
                        &mut self.log_lines,
                        "[fistbump] error: bundled fbd binary not found",
                    );
                }
            },
            NodeEvent::Stale(pid) => {
                let t = with_number("[fistbump] killing stale fbd (pid ", pid as u64, ")");
                append_log(&mut self.log_lines, t.as_str());
            },
            NodeEvent::NotStarted(e) => {
                let t = concat2("[fistbump] error: failed to start fbd: ", e.as_str());
                append_log(&mut self.log_lines, t.as_str());
            },
            NodeEvent::Started(pid) => {
                self.fbd_pid = Some(pid);
                let t = with_number("[fistbump] started fbd (pid ", pid as u64, ")");
                append_log(&mut self.log_lines, t.as_str());
            },
            NodeEvent::Exited(code) => {
                let mut t = "[fistbump] fbd exited (code ".to_owned();
                push_signed(&mut t, code as i64);
                t.append(")");
                append_log(&mut self.log_lines, t.as_str());
                self.fbd_pid = None;
                if !self.is_quitting {
                    act = NodeAct::Rest;
                }
            },
            NodeEvent::Rested => {
                if !self.is_quitting && self.fbd_pid.is_none() {
                    append_log(&mut self.log_lines, "[fistbump] restarting fbd...");
                    act = NodeAct::Start;
                }
            },
            NodeEvent::Printed(t) => {
                append_log(&mut self.log_lines, t.as_str());
            },
        }
        act
    }

    /// The wallet quits: the process to stop, if there is one.
    pub fn stop_node(&mut self) -> (r: Option<u32>)
        ensures
            r == old(self)@.fbd_pid,
            final(self)@ == (StateView { is_quitting: true, fbd_pid: None, ..old(self)@ }),
            forall|event: NodeEvent| node_act(final(self)@, event) == NodeAct::Wait,
    {
        self.is_quitting = true;
        let pid = self.fbd_pid;
        self.fbd_pid = None;
        pid
    }

    /// The node is to be started anew: the process to stop before, if there is
    /// one. The logs start anew too.
    pub fn restart_if_managed(&mut self) -> (r: Option<u32>)
        ensures
            r == old(self)@.fbd_pid,
            final(self)@ == (StateView {
                log_lines: if old(self)@.fbd_pid is Some {
                    logged(Seq::empty(), "[fistbump] restarting fbd for settings change..."@)
                } else {
                    Seq::empty()
                },
                mobile_log: Seq::empty(),
                fbd_pid: None,
                ..old(self)@
            }),
            !old(self)@.is_quitting ==> node_act(final(self)@, NodeEvent::Rested) == NodeAct::Start,
    {
        self.log_lines = Vec::new();
        self.mobile_log = Vec::new();
        assert(texts(self.log_lines@) =~= Seq::empty());
        assert(texts(self.mobile_log@) =~= Seq::empty());
        let pid = self.fbd_pid;
        self.fbd_pid = None;
        if pid.is_some() {
            append_log(
                &mut self.log_lines,
                "[fistbump] restarting fbd for settings change...",
            );
        }
        pid
    }

    // ── The open wallet ──

    /// Notes which wallet is open; an empty name is none.
    pub fn set_active_wallet(&mut self, name: Option<String>)
        ensures
            final(self)@ == (StateView {
                active_wallet: match text_of(name) {
                    Some(n) => if n.len() == 0 {
                        None
                    } else {
                        Some(n)
                    },
                    None => None,
                },
                ..old(self)@
            }),
    {
        self.active_wallet = match name {
            Some(n) => if n.as_str().is_empty() {
                None
            } else {
                Some(n)
            },
            None => None,
        };
    }

    // ── Old wallets ──

    /// At the start: whether the node can be started at once. Where there are
    /// old wallets to ask about, it cannot.
    pub fn begin(&mut self, candidate: Option<MigrationCandidate>) -> (start: bool)
        ensures
            start == (candidate is None),
            final(self)@ == match candidate {
                Some(c) => StateView { pending_migration: Some(c@), ..old(self)@ },
                None => old(self)@,
            },
    {
        match candidate {
            Some(c) => {
                self.pending_migration = Some(c);
                false
            },
            None => true,
        }
    }

    /// The old wallets that the user is being asked about.
    pub fn get_pending_migration(&self) -> (r: Option<MigrationCandidate>)
        ensures
            migration_view(r) == self@.pending_migration,
    {
        match &self.pending_migration {
            Some(c) => Some(
                MigrationCandidate { source: c.source.clone(), wallet_count: c.wallet_count },
            ),
            None => None,
        }
    }

    /// The user's answer: what to copy, if anything. Whatever the answer, there
    /// is nothing to ask about afterwards.
    pub fn resolve_migration(&mut self, accept: bool) -> (r: Result<
        Option<MigrationCandidate>,
        String,
    >)
        ensures
            final(self)@ == (StateView { pending_migration: None, ..old(self)@ }),
            match r {
                Ok(Some(c)) => accept && old(self)@.pending_migration == Some(c@),
                Ok(None) => !accept,
                Err(e) => accept && old(self)@.pending_migration is None && e@
                    == "no pending migration"@,
            },
    {
        let mut candidate: Option<MigrationCandidate> = None;
        std::mem::swap(&mut candidate, &mut self.pending_migration);
        if accept {
            match candidate {
                Some(c) => Ok(Some(c)),
                None => Err("no pending migration".to_owned()),
            }
        } else {
            Ok(None)
        }
    }
}

/// Whether there are old wallets to ask about: not if the user was asked
/// already, nor if there are wallets in the new place.
pub fn detect_migration_candidate(asked: bool, own_wallets: usize, source: String, count: usize)
    -> (r: Option<MigrationCandidate>)
    ensures
        migration_view(r) == if asked || own_wallets > 0 || count == 0 {
            None
        } else {
            Some(MigrationView { source: source@, wallet_count: count as nat })
        },
{
    if asked || own_wallets > 0 || count == 0 {
        None
    } else {
        Some(MigrationCandidate { source, wallet_count: count })
    }
}

// ── Laws ──

/// Once the wallet is quitting, the node is not started again by itself,
/// whatever happens to it.
pub proof fn law_quitting_is_final(st: StateView, event: NodeEvent)
    requires
        st.is_quitting,
    ensures
        node_act(st, event) == NodeAct::Wait,
        after_event(st, event).is_quitting,
{
}

/// A node that ends by itself is started again, unless another runs by then or
/// the wallet quits.
pub proof fn law_node_comes_back(st: StateView, code: i32)
    requires
        !st.is_quitting,
    ensures
        node_act(st, NodeEvent::Exited(code)) == NodeAct::Rest,
        node_act(after_event(st, NodeEvent::Exited(code)), NodeEvent::Rested) == NodeAct::Start,
{
}

// ── What holds of it ──

/// The log holds the newest 500 lines, in their order: counted from its end, it
/// is what was there before and what was said since.
pub proof fn law_log_is_newest(log: Seq<Seq<char>>, text: Seq<char>, k: int)
    requires
        log.len() <= 500,
    ensures
        ({
            let all = log + full_lines(text);
            let now = logged(log, text);
            &&& now.len() == (if all.len() > 500 {
                500
            } else {
                all.len()
            })
            &&& 0 <= k < now.len() ==> now[now.len() - 1 - k] == all[all.len() - 1 - k]
        }),
{
}

/// The first place where something is, and no other, is the first that says so.
pub proof fn law_first_true(there: Seq<bool>)
    ensures
        match first_true(there) {
            Some(i) => 0 <= i < there.len() && there[i] && forall|k: int|
                0 <= k < i ==> !(#[trigger] there[k]),
            None => forall|k: int| 0 <= k < there.len() ==> !(#[trigger] there[k]),
        },
    decreases there.len(),
{
    if there.len() > 0 && !there[0] {
        let rest = there.drop_first();
        law_first_true(rest);
        match first_true(rest) {
            Some(i) => {
                assert forall|k: int| 0 <= k < i + 1 implies !(#[trigger] there[k]) by {
                    if k > 0 {
                        assert(rest[k - 1] == there[k]);
                    }
                }
            },
            None => {
                assert forall|k: int| 0 <= k < there.len() implies !(#[trigger] there[k]) by {
                    if k > 0 {
                        assert(rest[k - 1] == there[k]);
                    }
                }
            },
        }
    }
}

/// Whether the value that follows a flag is this one.
pub open spec fn has_flag(args: Seq<ArgView>, flag: Seq<char>, value: ArgView) -> bool {
    exists|i: int|
        0 <= i < args.len() - 1 && #[trigger] args[i] == ArgView::Text(flag) && args[i + 1] == value
}

/// The node is started for the network that was chosen, with its own data
/// directory, and tells others which wallet started it.
pub proof fn law_node_is_told(s: SettingsView, network: Seq<char>, version: Seq<char>, os: Os)
    ensures
        ({
            let args = node_args(s, network, version, os);
            &&& has_flag(args, "--network"@, ArgView::Text(network))
            &&& has_flag(args, "--datadir"@, ArgView::DataDir)
            &&& has_flag(
                args,
                "--agent"@,
                ArgView::Text("fbw:"@ + version + "("@ + platform(os) + ")"@),
            )
            &&& has_flag(args, "--log-level"@, ArgView::Text("debug"@))
        }),
{
    let args = node_args(s, network, version, os);
    assert(args[0] == ArgView::Text("--log-level"@) && args[1] == ArgView::Text("debug"@));
    assert(args[2] == ArgView::Text("--network"@) && args[3] == ArgView::Text(network));
    assert(args[4] == ArgView::Text("--datadir"@) && args[5] == ArgView::DataDir);
    assert(args[6] == ArgView::Text("--agent"@));
}

/// Only where mining is on is the node told anything of it: the address if there
/// is one, and the number of threads if it is not zero.
pub proof fn law_mining_is_told(s: SettingsView, a: Seq<char>)
    ensures
        !s.mining_enabled ==> miner_args(s).len() == 0,
        s.mining_enabled && s.miner_address == Some(a) && a.len() > 0 ==> has_flag(
            miner_args(s),
            "--miner-address"@,
            ArgView::Text(a),
        ),
        s.mining_enabled && s.miner_threads > 0 ==> has_flag(
            miner_args(s),
            "--miner-threads"@,
            ArgView::Text(decimal(s.miner_threads as nat)),
        ),
        s.mining_enabled && s.miner_address is None && s.miner_threads == 0 ==> miner_args(s).len()
            == 0,
{
    let args = miner_args(s);
    if s.mining_enabled && s.miner_address == Some(a) && a.len() > 0 {
        assert(args[0] == ArgView::Text("--miner-address"@) && args[1] == ArgView::Text(a));
    }
    if s.mining_enabled && s.miner_threads > 0 {
        let n = args.len();
        assert(args[n - 2] == ArgView::Text("--miner-threads"@));
        assert(args[n - 1] == ArgView::Text(decimal(s.miner_threads as nat)));
    }
}

/// The number of the node's process is known from when it has started until it
/// is over; nothing that happens to it changes anything but that and the log.
pub proof fn law_process_is_known(st: StateView, pid: u32, code: i32, text: String)
    ensures
        after_event(st, NodeEvent::Started(pid)).fbd_pid == Some(pid),
        after_event(st, NodeEvent::Exited(code)).fbd_pid is None,
        after_event(st, NodeEvent::Printed(text)).fbd_pid == st.fbd_pid,
        after_event(st, NodeEvent::Printed(text)).log_lines == logged(st.log_lines, text@),
        after_event(st, NodeEvent::Started(pid)).settings == st.settings,
        after_event(st, NodeEvent::Exited(code)).settings == st.settings,
        after_event(st, NodeEvent::Started(pid)).active_wallet == st.active_wallet,
        after_event(st, NodeEvent::Started(pid)).pending_migration == st.pending_migration,
        st.fbd_pid is Some ==> node_act(st, NodeEvent::Rested) == NodeAct::Wait,
{
}

/// A process number is read with white space around it; zero, and what is no
/// number, is none.
pub proof fn law_pid_in_file(pid: u32)
    requires
        pid > 0,
    ensures
        pid_in(decimal(pid as nat) + "\n"@) == Some(pid as nat),
        pid_in("0"@) is None,
        pid_in(""@) is None,
{
    reveal_strlit("\n");
    reveal_strlit("0");
    reveal_strlit("");
    let d = decimal(pid as nat);
    law_pid_reads_back(pid);
    law_trim(d, '\n');
    assert(d + "\n"@ =~= d.push('\n'));
    law_decimal_reads_back(0);
    law_decimal_is_short(0);
    law_numbers_are_read(0, u32::MAX as nat, ""@, 0);
    assert("0"@ =~= decimal(0));
    law_trim("0"@, ' ');
    assert(""@ =~= Seq::empty());
}

/// The places where the node's program is looked for: beside the wallet's own
/// program first, if that is known, and everywhere under its own name. On
/// Android there is one place.
pub proof fn law_where_the_node_is(os: Os, arm: bool, program_known: bool, i: int)
    ensures
        ({
            let places = candidates(os, arm, program_known);
            let name = if os == Os::Windows {
                "fbd.exe"@
            } else {
                "fbd"@
            };
            &&& 0 <= i < places.len() ==> places[i].parts.len() > 0 && places[i].parts.last()
                == name
            &&& os == Os::Android ==> places.len() == 1 && places[0].base == Base::AndroidFiles
            &&& os != Os::Android && program_known ==> places[0].base == Base::Program
                && places[0].parts.len() == 1
            &&& os != Os::Android ==> places.last().base == Base::Project
            &&& os == Os::Linux ==> places[places.len() - 3].parts.contains(
                if arm {
                    "aarch64"@
                } else {
                    "x86_64"@
                },
            )
        }),
{
    if os == Os::Linux {
        let places = candidates(os, arm, program_known);
        let p = places[places.len() - 3].parts;
        assert(p[3] == if arm {
            "aarch64"@
        } else {
            "x86_64"@
        });
    }
}

/// The places of the library are the last words of the lines that name it, in
/// their order; other lines say nothing.
pub proof fn law_library_lines(before: Seq<Seq<char>>, line: Seq<char>)
    ensures
        contains_text(line, "libfistbump.so"@) && words(line).len() > 0 ==> library_paths(
            before.push(line),
        ) == library_paths(before).push(words(line).last()),
        !contains_text(line, "libfistbump.so"@) ==> library_paths(before.push(line))
            == library_paths(before),
        library_paths(Seq::empty()) == Seq::<Seq<char>>::empty(),
{
    assert(before.push(line).drop_last() =~= before);
}

/// Old wallets are offered to be taken over only where the user was not asked
/// yet, has none of the new kind, and there are some; the offer says where they
/// are and how many.
pub proof fn law_when_wallets_are_offered(
    asked: bool,
    own: usize,
    source: String,
    count: usize,
    offer: Option<MigrationCandidate>,
)
    requires
        call_ensures(detect_migration_candidate, (asked, own, source, count), offer),
    ensures
        offer is Some <==> !asked && own == 0 && count > 0,
        offer matches Some(c) ==> c.source@ == source@ && c.wallet_count == count,
{
}

/// A node inside the wallet has a log of its own, which is shown as soon as there
/// is something in it.
pub proof fn law_which_log(state: AppState, shown: Vec<String>)
    requires
        call_ensures(AppState::get_log, (&state,), shown),
    ensures
        state@.mobile_log.len() > 0 ==> texts(shown@) == state@.mobile_log,
        state@.mobile_log.len() == 0 ==> texts(shown@) == state@.log_lines,
{
}

} // verus!
