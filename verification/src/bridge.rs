//! The bridge between a browser and the wallet: a small program that the
//! browser starts, and that passes messages on.

use crate::extension::flow::{frame, frame_len, framed, message_len, MAX_FRAME};
use crate::places::{base_place, socket_place, Base, Os, Place, PlaceView};
use crate::text::{chars_of, hex_fixed, push_hex_fixed, texts};
use crate::wire::{bytes_equal, copy_range, le_value, push_all, read_le};
use vstd::prelude::*;
use vstd::utf8::{encode_utf8, is_ascii_chars_encode_utf8};

verus! {

/// How long to wait for the wallet to start, in milliseconds.
pub const START_MS: u64 = 10000;

/// How long to wait between tries to reach it, in milliseconds.
pub const TRY_MS: u64 = 100;

/// How long to wait for an answer of the wallet, in seconds.
pub const ANSWER_SECS: u64 = 120;

/// How long to wait for a message to be sent, in seconds.
pub const SEND_SECS: u64 = 10;

/// Where the wallet is reached.
pub open spec fn bridge_socket() -> PlaceView {
    base_place(Base::Home).join(".fistbump"@).join("extension.sock"@)
}

/// Where the wallet is reached.
pub fn socket_path() -> (r: Place)
    ensures
        r@ == bridge_socket(),
{
    Place::at(Base::Home).join(".fistbump").join("extension.sock")
}

/// On a desktop the bridge looks for the socket where the wallet has it.
pub proof fn law_bridge_meets_wallet(os: Os)
    requires
        os != Os::Android,
        os != Os::Ios,
    ensures
        bridge_socket() == socket_place(os),
{
}

// ── The program that the bridge belongs to ──

/// Whether a file name has the extension `app`.
pub open spec fn is_bundle_name(name: Seq<char>) -> bool {
    name.len() > 4 && name.skip(name.len() - 4) == seq!['.', 'a', 'p', 'p']
}

/// The bundle that a program lies in, three levels up, given by the number of
/// parts of its path.
pub open spec fn bundle_of(path: Seq<Seq<char>>) -> Option<nat> {
    if path.len() > 3 && is_bundle_name(path[path.len() - 4]) {
        Some((path.len() - 3) as nat)
    } else {
        None
    }
}

/// How many of the parts of the program's path make up its bundle.
pub fn enclosing_app_bundle(path: &Vec<String>) -> (r: Option<usize>)
    ensures
        match r {
            Some(n) => bundle_of(texts(path@)) == Some(n as nat),
            None => bundle_of(texts(path@)) is None,
        },
{
    let n: usize = path.len();
    if n <= 3 {
        return None;
    }
    let name = chars_of(path[n - 4].as_str());
    let k: usize = name.len();
    if k > 4 && name[k - 4] == '.' && name[k - 3] == 'a' && name[k - 2] == 'p' && name[k - 1]
        == 'p' {
        assert(name@.skip(k - 4) =~= seq!['.', 'a', 'p', 'p']);
        Some(n - 3)
    } else {
        proof {
            let s = name@;
            if is_bundle_name(s) {
                let t = s.skip(k - 4);
                assert(t[0] == s[k - 4] && t[1] == s[k - 3] && t[2] == s[k - 2] && t[3] == s[k
                    - 1]);
            }
        }
        None
    }
}

// ── Texts in JSON ──

/// A character inside a JSON text.
pub open spec fn escaped_char(c: char) -> Seq<char> {
    if c == '"' {
        seq!['\\', '"']
    } else if c == '\\' {
        seq!['\\', '\\']
    } else if c == '\n' {
        seq!['\\', 'n']
    } else if c == '\r' {
        seq!['\\', 'r']
    } else if c == '\t' {
        seq!['\\', 't']
    } else if (c as u32) < 0x20 {
        seq!['\\', 'u'] + hex_fixed(c as nat, 4)
    } else {
        seq![c]
    }
}

pub open spec fn escaped_chars(s: Seq<char>) -> Seq<char>
    decreases s.len(),
{
    if s.len() == 0 {
        Seq::empty()
    } else {
        escaped_char(s[0]) + escaped_chars(s.drop_first())
    }
}

/// A text, written as JSON.
pub open spec fn escaped(s: Seq<char>) -> Seq<char> {
    seq!['"'] + escaped_chars(s) + seq!['"']
}

fn push_escaped(out: &mut String, c: char)
    ensures
        final(out)@ == old(out)@ + escaped_char(c),
{
    let ghost start = out@;
    if c == '"' {
        out.push('\\');
        out.push('"');
    } else if c == '\\' {
        out.push('\\');
        out.push('\\');
    } else if c == '\n' {
        out.push('\\');
        out.push('n');
    } else if c == '\r' {
        out.push('\\');
        out.push('r');
    } else if c == '\t' {
        out.push('\\');
        out.push('t');
    } else if (c as u32) < 0x20 {
        out.push('\\');
        out.push('u');
        push_hex_fixed(out, c as u64, 4);
    } else {
        out.push(c);
    }
    assert(out@ =~= start + escaped_char(c));
}

/// Writes a text as JSON.
pub fn json_escape(s: &str) -> (r: String)
    ensures
        r@ == escaped(s@),
{
    let mut out = String::new();
    out.push('"');
    let v = chars_of(s);
    let mut i: usize = 0;
    assert(s@.skip(0) =~= s@);
    while i < v.len()
        invariant
            i <= v@.len(),
            v@ == s@,
            out@ + escaped_chars(s@.skip(i as int)) == seq!['"'] + escaped_chars(s@),
        decreases v@.len() - i,
    {
        let ghost before = out@;
        push_escaped(&mut out, v[i]);
        proof {
            let rest = s@.skip(i as int);
            assert(rest.drop_first() =~= s@.skip(i + 1));
            assert(out@ + escaped_chars(s@.skip(i + 1)) =~= before + escaped_chars(rest));
        }
        i = i + 1;
    }
    assert(s@.skip(i as int) =~= Seq::empty());
    assert(out@ =~= seq!['"'] + escaped_chars(s@));
    out.push('"');
    assert(out@ =~= escaped(s@));
    out
}

/// What a hexadecimal digit stands for.
pub open spec fn digit_value(c: char) -> nat {
    crate::hexes::hex_value(c)
}

/// What the inside of a JSON text says.
pub open spec fn unescaped_chars(t: Seq<char>) -> Option<Seq<char>>
    decreases t.len(),
{
    if t.len() == 0 {
        Some(Seq::empty())
    } else if t[0] == '"' || (t[0] as u32) < 0x20 {
        None
    } else if t[0] != '\\' {
        after(seq![t[0]], unescaped_chars(t.skip(1)))
    } else if t.len() >= 6 && t[1] == 'u' {
        after(
            seq![
                (digit_value(t[2]) * 4096 + digit_value(t[3]) * 256 + digit_value(t[4]) * 16
                    + digit_value(t[5])) as char,
            ],
            unescaped_chars(t.skip(6)),
        )
    } else if t.len() >= 2 {
        match short_escape(t[1]) {
            Some(c) => after(seq![c], unescaped_chars(t.skip(2))),
            None => None,
        }
    } else {
        None
    }
}

/// What a letter behind a backslash stands for.
pub open spec fn short_escape(c: char) -> Option<char> {
    if c == '"' || c == '\\' || c == '/' {
        Some(c)
    } else if c == 'b' {
        Some('\u{8}')
    } else if c == 'f' {
        Some('\u{c}')
    } else if c == 'n' {
        Some('\n')
    } else if c == 'r' {
        Some('\r')
    } else if c == 't' {
        Some('\t')
    } else {
        None
    }
}

pub open spec fn after(start: Seq<char>, rest: Option<Seq<char>>) -> Option<Seq<char>> {
    match rest {
        Some(r) => Some(start + r),
        None => None,
    }
}

proof fn lemma_control_digits(c: char)
    requires
        (c as u32) < 0x20,
    ensures
        ({
            let h = hex_fixed(c as nat, 4);
            &&& h.len() == 4
            &&& digit_value(h[0]) == 0
            &&& digit_value(h[1]) == 0
            &&& digit_value(h[2]) * 16 + digit_value(h[3]) == c as nat
        }),
{
    reveal_with_fuel(hex_fixed, 5);
    let n = c as nat;
    let h = hex_fixed(n, 4);
    assert(n / 16 / 16 == 0);
    assert(n / 16 < 2);
    assert(h =~= seq![
        crate::text::hex_digit(0),
        crate::text::hex_digit(0),
        crate::text::hex_digit(n / 16),
        crate::text::hex_digit(n % 16),
    ]);
}

proof fn lemma_char_reads_back(c: char, rest: Seq<char>)
    ensures
        unescaped_chars(escaped_char(c) + rest) == after(seq![c], unescaped_chars(rest)),
{
    let e = escaped_char(c);
    let t = e + rest;
    assert(t.skip(e.len() as int) =~= rest);
    if c != '"' && c != '\\' && c != '\n' && c != '\r' && c != '\t' && (c as u32) < 0x20 {
        lemma_control_digits(c);
        let h = hex_fixed(c as nat, 4);
        assert(t[1] == 'u' && t[2] == h[0] && t[3] == h[1] && t[4] == h[2] && t[5] == h[3]);
    }
}

proof fn lemma_chars_read_back(s: Seq<char>)
    ensures
        unescaped_chars(escaped_chars(s)) == Some(s),
    decreases s.len(),
{
    if s.len() > 0 {
        let rest = s.drop_first();
        lemma_chars_read_back(rest);
        lemma_char_reads_back(s[0], escaped_chars(rest));
        assert(seq![s[0]] + rest =~= s);
    } else {
        assert(s =~= Seq::empty());
    }
}

/// Whatever text is written as JSON is what the JSON says.
pub proof fn law_escaped_reads_back(s: Seq<char>)
    ensures
        escaped(s).len() >= 2,
        escaped(s)[0] == '"',
        escaped(s).last() == '"',
        unescaped_chars(escaped(s).subrange(1, escaped(s).len() - 1)) == Some(s),
{
    lemma_chars_read_back(s);
    assert(escaped(s).subrange(1, escaped(s).len() - 1) =~= escaped_chars(s));
}

// ── Probes ──

/// Whether one byte string stands somewhere in another. An empty one does not.
pub open spec fn holds_bytes(hay: Seq<u8>, needle: Seq<u8>) -> bool {
    needle.len() > 0 && exists|i: int|
        0 <= i <= hay.len() - needle.len() && #[trigger] hay.subrange(i, i + needle.len())
            == needle
}

/// Whether `needle` stands somewhere in `haystack`.
pub fn bytes_contains(haystack: &[u8], needle: &[u8]) -> (r: bool)
    ensures
        r == holds_bytes(haystack@, needle@),
{
    let n: usize = needle.len();
    let total: usize = haystack.len();
    if n == 0 || n > total {
        return false;
    }
    let last: usize = total - n;
    let mut i: usize = 0;
    while i <= last
        invariant
            n == needle@.len(),
            0 < n <= total == haystack@.len(),
            last == total - n,
            i <= last + 1,
            forall|k: int|
                0 <= k < i ==> #[trigger] haystack@.subrange(k, k + needle@.len()) != needle@,
        decreases last + 1 - i,
    {
        let piece = copy_range(haystack, i, i + n);
        if bytes_equal(&piece, needle) {
            assert(haystack@.subrange(i as int, i + needle@.len()) == needle@);
            return true;
        }
        if i == last {
            return false;
        }
        i = i + 1;
    }
    false
}

/// Whether a message only asks whether the wallet is there.
pub open spec fn is_probe(message: Seq<u8>) -> bool {
    holds_bytes(message, encode_utf8("\"type\":\"info\""@)) || holds_bytes(
        message,
        encode_utf8("\"type\": \"info\""@),
    )
}

/// Whether a message only asks whether the wallet is there.
pub fn first_is_info(message: &[u8]) -> (r: bool)
    ensures
        r == is_probe(message@),
{
    bytes_contains(message, "\"type\":\"info\"".as_bytes()) || bytes_contains(
        message,
        "\"type\": \"info\"".as_bytes(),
    )
}

/// The answer to such a message where the wallet does not run.
pub open spec fn not_running() -> Seq<u8> {
    framed(encode_utf8("{\"ok\":true,\"running\":false,\"connected\":false}"@))
}

/// An error as a message to the browser.
pub open spec fn error_message(text: Seq<char>) -> Seq<u8> {
    framed(encode_utf8("{\"error\":"@ + escaped(text) + "}"@))
}

/// An error as a message to the browser.
pub fn write_error(text: &str) -> (r: Vec<u8>)
    ensures
        r@ == error_message(text@),
{
    let mut body = "{\"error\":".to_owned();
    body.append(json_escape(text).as_str());
    body.append("}");
    frame(body.as_str().as_bytes())
}

// ── Passing messages on ──

#[derive(Clone, Copy, PartialEq, Eq, Structural)]
pub enum Side {
    Browser,
    Wallet,
}

/// What happened.
pub enum Event {
    /// All the bytes that were wanted were read.
    Bytes(Vec<u8>),
    /// Everything was written.
    Written,
    /// The wallet was started: whether it was reached.
    Reached(bool),
    /// One of the sides is gone.
    Closed,
}

/// What to do next.
pub enum Act {
    /// Read so many bytes.
    Read { from: Side, len: usize },
    Write { to: Side, bytes: Vec<u8> },
    /// Start the wallet, and try to reach it until the time is up.
    Launch,
    Exit,
}

pub enum ActView {
    Read { from: Side, len: nat },
    Write { to: Side, bytes: Seq<u8> },
    Launch,
    Exit,
}

impl View for Act {
    type V = ActView;

    open spec fn view(&self) -> ActView {
        match self {
            Act::Read { from, len } => ActView::Read { from: *from, len: *len as nat },
            Act::Write { to, bytes } => ActView::Write { to: *to, bytes: bytes@ },
            Act::Launch => ActView::Launch,
            Act::Exit => ActView::Exit,
        }
    }
}

/// What the bridge waits for.
pub enum Phase {
    /// The length of a message of the browser.
    Asked { connected: bool },
    /// The message itself.
    AskedBody { connected: bool, prefix: Vec<u8> },
    /// The wallet, to pass this on.
    Launching { message: Vec<u8> },
    /// The message to be passed on.
    Forwarding,
    /// The length of the answer of the wallet.
    Answering,
    /// The answer itself.
    AnswerBody { prefix: Vec<u8> },
    /// The answer to be passed on.
    Returning,
    /// The last answer to be written.
    LastWords,
    Over,
}

pub enum PhaseView {
    Asked { connected: bool },
    AskedBody { connected: bool, prefix: Seq<u8> },
    Launching { message: Seq<u8> },
    Forwarding,
    Answering,
    AnswerBody { prefix: Seq<u8> },
    Returning,
    LastWords,
    Over,
}

impl View for Phase {
    type V = PhaseView;

    open spec fn view(&self) -> PhaseView {
        match self {
            Phase::Asked { connected } => PhaseView::Asked { connected: *connected },
            Phase::AskedBody { connected, prefix } => PhaseView::AskedBody {
                connected: *connected,
                prefix: prefix@,
            },
            Phase::Launching { message } => PhaseView::Launching { message: message@ },
            Phase::Forwarding => PhaseView::Forwarding,
            Phase::Answering => PhaseView::Answering,
            Phase::AnswerBody { prefix } => PhaseView::AnswerBody { prefix: prefix@ },
            Phase::Returning => PhaseView::Returning,
            Phase::LastWords => PhaseView::LastWords,
            Phase::Over => PhaseView::Over,
        }
    }
}

pub enum EventView {
    Bytes(Seq<u8>),
    Written,
    Reached(bool),
    Closed,
}

impl View for Event {
    type V = EventView;

    open spec fn view(&self) -> EventView {
        match self {
            Event::Bytes(b) => EventView::Bytes(b@),
            Event::Written => EventView::Written,
            Event::Reached(yes) => EventView::Reached(*yes),
            Event::Closed => EventView::Closed,
        }
    }
}

pub open spec fn over() -> (PhaseView, ActView) {
    (PhaseView::Over, ActView::Exit)
}

pub open spec fn pass_on(message: Seq<u8>) -> (PhaseView, ActView) {
    (PhaseView::Forwarding, ActView::Write { to: Side::Wallet, bytes: message })
}

pub open spec fn last_words(bytes: Seq<u8>) -> (PhaseView, ActView) {
    (PhaseView::LastWords, ActView::Write { to: Side::Browser, bytes })
}

/// The first step: the bridge tries to reach the wallet before it reads
/// anything.
pub open spec fn opening(connected: bool) -> (PhaseView, ActView) {
    (PhaseView::Asked { connected }, ActView::Read { from: Side::Browser, len: 4 })
}

/// What follows an event.
pub open spec fn step(phase: PhaseView, event: EventView) -> (PhaseView, ActView) {
    match (phase, event) {
        (PhaseView::Asked { connected }, EventView::Bytes(prefix)) => match message_len(prefix) {
            Some(len) => (
                PhaseView::AskedBody { connected, prefix },
                ActView::Read { from: Side::Browser, len },
            ),
            None => over(),
        },
        (PhaseView::AskedBody { connected, prefix }, EventView::Bytes(body)) => if connected {
            pass_on(prefix + body)
        } else if is_probe(body) {
            last_words(not_running())
        } else {
            (PhaseView::Launching { message: prefix + body }, ActView::Launch)
        },
        (PhaseView::Launching { message }, EventView::Reached(yes)) => if yes {
            pass_on(message)
        } else {
            last_words(error_message("could not start the Fistbump wallet"@))
        },
        (PhaseView::Forwarding, EventView::Written) => (
            PhaseView::Answering,
            ActView::Read { from: Side::Wallet, len: 4 },
        ),
        (PhaseView::Answering, EventView::Bytes(prefix)) => if le_value(prefix) > MAX_FRAME {
            over()
        } else {
            (
                PhaseView::AnswerBody { prefix },
                ActView::Read { from: Side::Wallet, len: le_value(prefix) },
            )
        },
        (PhaseView::AnswerBody { prefix }, EventView::Bytes(body)) => (
            PhaseView::Returning,
            ActView::Write { to: Side::Browser, bytes: prefix + body },
        ),
        (PhaseView::Returning, EventView::Written) => opening(true),
        _ => over(),
    }
}

/// Whether an event can follow on a phase: four bytes are read where a length
/// is read.
pub open spec fn fits(phase: PhaseView, event: EventView) -> bool {
    match (phase, event) {
        (PhaseView::Asked { .. }, EventView::Bytes(b)) => b.len() == 4,
        (PhaseView::Answering, EventView::Bytes(b)) => b.len() == 4,
        _ => true,
    }
}

/// The first step.
pub fn start_bridge(connected: bool) -> (r: (Phase, Act))
    ensures
        (r.0@, r.1@) == opening(connected),
{
    (Phase::Asked { connected }, Act::Read { from: Side::Browser, len: 4 })
}

fn joined(prefix: Vec<u8>, body: Vec<u8>) -> (r: Vec<u8>)
    ensures
        r@ == prefix@ + body@,
{
    let mut out = prefix;
    push_all(&mut out, &body);
    out
}

/// What follows an event.
pub fn relay(phase: Phase, event: Event) -> (r: (Phase, Act))
    requires
        fits(phase@, event@),
    ensures
        (r.0@, r.1@) == step(phase@, event@),
{
    match (phase, event) {
        (Phase::Asked { connected }, Event::Bytes(prefix)) => {
            let four: [u8; 4] = [prefix[0], prefix[1], prefix[2], prefix[3]];
            assert(four@ =~= prefix@);
            match frame_len(&four) {
                Some(len) => (
                    Phase::AskedBody { connected, prefix },
                    Act::Read { from: Side::Browser, len },
                ),
                None => (Phase::Over, Act::Exit),
            }
        },
        (Phase::AskedBody { connected, prefix }, Event::Bytes(body)) => {
            if connected {
                (
                    Phase::Forwarding,
                    Act::Write { to: Side::Wallet, bytes: joined(prefix, body) },
                )
            } else if first_is_info(&body) {
                let bytes = frame(
                    "{\"ok\":true,\"running\":false,\"connected\":false}".as_bytes(),
                );
                (Phase::LastWords, Act::Write { to: Side::Browser, bytes })
            } else {
                (Phase::Launching { message: joined(prefix, body) }, Act::Launch)
            }
        },
        (Phase::Launching { message }, Event::Reached(yes)) => {
            if yes {
                (Phase::Forwarding, Act::Write { to: Side::Wallet, bytes: message })
            } else {
                let bytes = write_error("could not start the Fistbump wallet");
                (Phase::LastWords, Act::Write { to: Side::Browser, bytes })
            }
        },
        (Phase::Forwarding, Event::Written) => (
            Phase::Answering,
            Act::Read { from: Side::Wallet, len: 4 },
        ),
        (Phase::Answering, Event::Bytes(prefix)) => {
            let len: u64 = read_le(&prefix);
            if len > MAX_FRAME as u64 {
                (Phase::Over, Act::Exit)
            } else {
                (
                    Phase::AnswerBody { prefix },
                    Act::Read { from: Side::Wallet, len: len as usize },
                )
            }
        },
        (Phase::AnswerBody { prefix }, Event::Bytes(body)) => (
            Phase::Returning,
            Act::Write { to: Side::Browser, bytes: joined(prefix, body) },
        ),
        (Phase::Returning, Event::Written) => start_bridge(true),
        _ => (Phase::Over, Act::Exit),
    }
}

/// A probe never starts the wallet: where it does not run, the bridge answers
/// itself and ends.
pub proof fn law_probe_starts_nothing(prefix: Seq<u8>, body: Seq<u8>)
    requires
        is_probe(body),
    ensures
        ({
            let phase = PhaseView::AskedBody { connected: false, prefix };
            let (next, act) = step(phase, EventView::Bytes(body));
            &&& act == (ActView::Write { to: Side::Browser, bytes: not_running() })
            &&& step(next, EventView::Written) == over()
        }),
{
}

/// The bridge changes nothing: what the browser sends reaches the wallet, and
/// what the wallet answers reaches the browser, byte for byte.
pub proof fn law_bridge_changes_nothing(message: Seq<u8>, answer: Seq<u8>)
    requires
        0 < message.len() <= MAX_FRAME,
        answer.len() <= MAX_FRAME,
    ensures
        ({
            let m = framed(message);
            let a = framed(answer);
            let s0 = opening(true);
            let s1 = step(s0.0, EventView::Bytes(m.take(4)));
            let s2 = step(s1.0, EventView::Bytes(m.skip(4)));
            let s3 = step(s2.0, EventView::Written);
            let s4 = step(s3.0, EventView::Bytes(a.take(4)));
            let s5 = step(s4.0, EventView::Bytes(a.skip(4)));
            &&& s1.1 == (ActView::Read { from: Side::Browser, len: message.len() })
            &&& s2.1 == (ActView::Write { to: Side::Wallet, bytes: m })
            &&& s4.1 == (ActView::Read { from: Side::Wallet, len: answer.len() })
            &&& s5.1 == (ActView::Write { to: Side::Browser, bytes: a })
            &&& step(s5.0, EventView::Written) == opening(true)
        }),
{
    let m = framed(message);
    let a = framed(answer);
    crate::extension::flow::law_frame_reads_back(message);
    crate::wire::lemma_le_len(answer.len(), 4);
    crate::wire::lemma_pow256_values();
    crate::wire::law_le_read_write(answer.len(), 4);
    assert(a.take(4) =~= crate::wire::le(answer.len(), 4));
    assert(a.take(4) + a.skip(4) =~= a);
    assert(m.take(4) + m.skip(4) =~= m);
}

// ── What holds of the bridge ──

/// A message that finds no wallet running starts it, unless it only asks whether
/// one runs; once the wallet is reached, the message is passed on as it came,
/// and if it is not, the browser is told so.
pub proof fn law_wallet_is_started(prefix: Seq<u8>, body: Seq<u8>)
    requires
        !is_probe(body),
    ensures
        ({
            let phase = PhaseView::AskedBody { connected: false, prefix };
            let (next, act) = step(phase, EventView::Bytes(body));
            &&& act == ActView::Launch
            &&& step(next, EventView::Reached(true)).1 == (ActView::Write {
                to: Side::Wallet,
                bytes: prefix + body,
            })
            &&& step(next, EventView::Reached(false)).1 == (ActView::Write {
                to: Side::Browser,
                bytes: error_message("could not start the Fistbump wallet"@),
            })
        }),
{
}

/// A message that asks only whether a wallet runs is recognised wherever that
/// stands in it, with a space behind the colon or without.
pub proof fn law_probes_are_recognised(a: Seq<u8>, b: Seq<u8>)
    ensures
        is_probe(a + encode_utf8("\"type\":\"info\""@) + b),
        is_probe(a + encode_utf8("\"type\": \"info\""@) + b),
{
    lemma_probe_texts();
    lemma_holds(a, encode_utf8("\"type\":\"info\""@), b);
    lemma_holds(a, encode_utf8("\"type\": \"info\""@), b);
}

proof fn lemma_probe_texts()
    ensures
        encode_utf8("\"type\":\"info\""@).len() > 0,
        encode_utf8("\"type\": \"info\""@).len() > 0,
{
    reveal_strlit("\"type\":\"info\"");
    reveal_strlit("\"type\": \"info\"");
    is_ascii_chars_encode_utf8("\"type\":\"info\""@);
    is_ascii_chars_encode_utf8("\"type\": \"info\""@);
}

proof fn lemma_holds(a: Seq<u8>, needle: Seq<u8>, b: Seq<u8>)
    requires
        needle.len() > 0,
    ensures
        holds_bytes(a + needle + b, needle),
{
    let hay = a + needle + b;
    let i = a.len() as int;
    assert(hay.subrange(i, i + needle.len()) =~= needle);
}

/// What the bridge itself says comes in a frame like any message: that no wallet
/// runs, or an error, quoted.
pub proof fn law_own_words(text: Seq<char>)
    ensures
        not_running() == framed(
            encode_utf8("{\"ok\":true,\"running\":false,\"connected\":false}"@),
        ),
        error_message(text) == framed(encode_utf8("{\"error\":"@ + escaped(text) + "}"@)),
{
}

/// Whatever the bridge does not expect ends it: a side that is gone, a length of
/// zero or of more than a mebibyte.
pub proof fn law_bridge_ends(phase: PhaseView, connected: bool, prefix: Seq<u8>)
    ensures
        step(phase, EventView::Closed).1 == ActView::Exit,
        le_value(prefix) == 0 || le_value(prefix) > 0x10_0000 ==> step(
            PhaseView::Asked { connected },
            EventView::Bytes(prefix),
        ).1 == ActView::Exit,
        le_value(prefix) > 0x10_0000 ==> step(PhaseView::Answering, EventView::Bytes(prefix)).1
            == ActView::Exit,
{
}

/// The program lies in a bundle exactly if the directory three above it is named
/// like one, and the bundle is that directory.
pub proof fn law_bundle(before: Seq<Seq<char>>, name: Seq<char>, rest: Seq<Seq<char>>)
    requires
        rest.len() == 3,
        name.len() > 0,
    ensures
        bundle_of(before + seq![name + ".app"@] + rest) == Some(before.len() + 1),
{
    reveal_strlit(".app");
    let path = before + seq![name + ".app"@] + rest;
    let n = name + ".app"@;
    assert(path[path.len() - 4] == n);
    assert(n.skip(n.len() - 4) =~= seq!['.', 'a', 'p', 'p']);
}

} // verus!
