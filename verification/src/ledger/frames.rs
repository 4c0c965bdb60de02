//! How commands and replies are cut into frames on the two transports.
//!
//! USB HID frames have 64 bytes: channel(2 BE), tag, sequence number(2 BE) and
//! 59 bytes of payload, the last ones filled up with zeros. Bluetooth frames
//! have a tag, a sequence number(2 BE) and up to `mtu - 3` bytes of payload.
//! On both the payload begins with the total length(2 BE).

use crate::text::{
    bytes_outcome, decimal, hex_after, hex_fixed, numbers_after, push_decimal, push_hex_fixed,
    with_hex, with_number, with_numbers,
};
use crate::wire::{
    be, be_value, copy_range, law_be_read_write, law_two_bytes, lemma_be_len, lemma_be_value_bound,
    lemma_pow256_values, push_all, push_be, read_be,
};
use vstd::prelude::*;

verus! {

pub const SW_OK: u16 = 0x9000;

pub const HID_CID: u16 = 0x0101;

pub const APDU_TAG: u8 = 0x05;

pub const BLE_MTU_TAG: u8 = 0x08;

pub const HID_FRAME_LEN: usize = 64;

/// The two transports.
#[derive(Clone, Copy, PartialEq, Eq, Structural)]
pub enum Link {
    Hid,
    Ble,
}

pub open spec fn zeros(n: int) -> Seq<u8> {
    Seq::new(
        if n > 0 {
            n as nat
        } else {
            0
        },
        |i: int| 0u8,
    )
}

// ── Sending ──

/// A frame with the given sequence number and payload.
pub open spec fn frame(link: Link, seq: nat, chunk: Seq<u8>) -> Seq<u8> {
    match link {
        Link::Hid => be(HID_CID as nat, 2) + seq![APDU_TAG] + be(seq, 2) + chunk + zeros(
            59 - chunk.len(),
        ),
        Link::Ble => seq![APDU_TAG] + be(seq, 2) + chunk,
    }
}

/// `s` cut into pieces of `cap` bytes, the last one what is left.
pub open spec fn chunks(s: Seq<u8>, cap: nat) -> Seq<Seq<u8>>
    decreases s.len(),
{
    if s.len() == 0 || cap == 0 {
        Seq::empty()
    } else if s.len() <= cap {
        seq![s]
    } else {
        seq![s.take(cap as int)] + chunks(s.skip(cap as int), cap)
    }
}

/// The frames for these pieces, numbered from `start`.
pub open spec fn numbered(link: Link, pieces: Seq<Seq<u8>>, start: nat) -> Seq<Seq<u8>> {
    Seq::new(pieces.len(), |i: int| frame(link, (start + i) as nat, pieces[i]))
}

/// A command with its length in front.
pub open spec fn prefixed(apdu: Seq<u8>) -> Seq<u8> {
    be(apdu.len(), 2) + apdu
}

/// The pieces that are sent. Where a frame has no room for payload, empty
/// frames are sent until the sequence numbers run out.
pub open spec fn pieces_of(payload: Seq<u8>, cap: nat) -> Seq<Seq<u8>> {
    if cap == 0 {
        Seq::new(65536, |i: int| Seq::empty())
    } else {
        chunks(payload, cap)
    }
}

/// The frames to send, and why the command fails once they are sent, if it
/// does.
pub struct FramePlan {
    pub frames: Vec<Vec<u8>>,
    pub stop: Option<String>,
}

#[verifier::ext_equal]
pub struct FramePlanView {
    pub frames: Seq<Seq<u8>>,
    pub stop: Option<Seq<char>>,
}

pub open spec fn frame_views(v: Seq<Vec<u8>>) -> Seq<Seq<u8>> {
    Seq::new(v.len(), |i: int| v[i]@)
}

impl View for FramePlan {
    type V = FramePlanView;

    open spec fn view(&self) -> FramePlanView {
        FramePlanView {
            frames: frame_views(self.frames@),
            stop: match self.stop {
                Some(t) => Some(t@),
                None => None,
            },
        }
    }
}

pub open spec fn sequence_overflow(link: Link) -> Seq<char> {
    match link {
        Link::Hid => "HID seq overflow"@,
        Link::Ble => "BLE seq overflow"@,
    }
}

/// At most 65536 frames can be numbered, and after the last of these the
/// command fails.
pub open spec fn frames_for(link: Link, payload: Seq<u8>, cap: nat) -> FramePlanView {
    let pieces = pieces_of(payload, cap);
    if pieces.len() >= 65536 {
        FramePlanView {
            frames: numbered(link, pieces.take(65536), 0),
            stop: Some(sequence_overflow(link)),
        }
    } else {
        FramePlanView { frames: numbered(link, pieces, 0), stop: None }
    }
}

/// How a command is sent. `mtu` counts for Bluetooth alone.
pub open spec fn outgoing(link: Link, apdu: Seq<u8>, mtu: nat) -> Result<
    FramePlanView,
    Seq<char>,
> {
    if apdu.len() > 0xffff {
        Err("apdu too long"@)
    } else {
        match link {
            Link::Hid => Ok(frames_for(link, prefixed(apdu), 59)),
            Link::Ble => if mtu < 3 {
                Err("BLE MTU too small"@)
            } else {
                Ok(frames_for(link, prefixed(apdu), (mtu - 3) as nat))
            },
        }
    }
}

fn build_frame(link: Link, seq: u16, chunk: &[u8]) -> (r: Vec<u8>)
    ensures
        r@ == frame(link, seq as nat, chunk@),
{
    let mut out: Vec<u8> = Vec::new();
    match link {
        Link::Hid => {
            push_be(&mut out, HID_CID as u64, 2);
            out.push(APDU_TAG);
            push_be(&mut out, seq as u64, 2);
            push_all(&mut out, chunk);
            let ghost head = out@;
            let mut pad: usize = chunk.len();
            assert(head =~= head + zeros(0));
            while pad < 59
                invariant
                    chunk@.len() <= pad,
                    pad <= 59 || pad == chunk@.len(),
                    out@ == head + zeros(pad - chunk@.len()),
                decreases 59 - pad,
            {
                out.push(0);
                pad = pad + 1;
                assert(out@ =~= head + zeros(pad - chunk@.len()));
            }
            assert(zeros(pad - chunk@.len()) =~= zeros(59 - chunk@.len()));
            assert(out@ =~= frame(link, seq as nat, chunk@));
        },
        Link::Ble => {
            out.push(APDU_TAG);
            push_be(&mut out, seq as u64, 2);
            push_all(&mut out, chunk);
            assert(out@ =~= frame(link, seq as nat, chunk@));
        },
    }
    out
}

fn overflow_text(link: Link) -> (r: String)
    ensures
        r@ == sequence_overflow(link),
{
    match link {
        Link::Hid => "HID seq overflow".to_owned(),
        Link::Ble => "BLE seq overflow".to_owned(),
    }
}

/// The empty frames that are sent where a frame has no room for payload.
fn build_empty_frames(link: Link) -> (r: FramePlan)
    ensures
        forall|payload: Seq<u8>| r@ == #[trigger] frames_for(link, payload, 0),
{
    let empty: Vec<u8> = Vec::new();
    let ghost all: Seq<Seq<u8>> = Seq::new(65536, |i: int| Seq::empty());
    let mut frames: Vec<Vec<u8>> = Vec::new();
    let mut seq: u32 = 0;
    while seq < 65536
        invariant
            seq <= 65536,
            all.len() == 65536,
            forall|i: int| 0 <= i < 65536 ==> #[trigger] all[i] == Seq::<u8>::empty(),
            empty@.len() == 0,
            frame_views(frames@) == numbered(link, all.take(seq as int), 0),
        decreases 65536 - seq,
    {
        let f = build_frame(link, seq as u16, &empty);
        let ghost before = frames@;
        frames.push(f);
        proof {
            assert(empty@ =~= Seq::<u8>::empty());
            let t = all.take(seq + 1);
            assert(numbered(link, t, 0) =~= numbered(link, all.take(seq as int), 0).push(f@)) by {
                assert(t[seq as int] == all[seq as int]);
            }
            assert(frame_views(frames@) =~= frame_views(before).push(f@));
        }
        seq = seq + 1;
    }
    let stop = overflow_text(link);
    let r = FramePlan { frames, stop: Some(stop) };
    proof {
        assert forall|payload: Seq<u8>| r@ == #[trigger] frames_for(link, payload, 0) by {
            assert(pieces_of(payload, 0) =~= all);
        }
    }
    r
}

/// The frames for a payload of which `cap` bytes fit into each.
#[verifier::loop_isolation(false)]
fn build_frames(link: Link, payload: &[u8], cap: usize) -> (r: FramePlan)
    ensures
        r@ == frames_for(link, payload@, cap as nat),
{
    if cap == 0 {
        return build_empty_frames(link);
    }
    let ghost pieces = chunks(payload@, cap as nat);
    let mut frames: Vec<Vec<u8>> = Vec::new();
    let mut offset: usize = 0;
    let mut seq: u16 = 0;
    proof {
        assert(payload@.skip(0) =~= payload@);
        assert(pieces.skip(0) =~= pieces);
        assert(frame_views(frames@) =~= numbered(link, pieces.take(0), 0));
    }
    while offset < payload.len()
        invariant
            offset <= payload@.len(),
            seq <= pieces.len(),
            cap > 0,
            chunks(payload@.skip(offset as int), cap as nat) == pieces.skip(seq as int),
            frame_views(frames@) == numbered(link, pieces.take(seq as int), 0),
        decreases payload@.len() - offset,
    {
        let left: usize = payload.len() - offset;
        let size: usize = if left <= cap {
            left
        } else {
            cap
        };
        let chunk = copy_range(payload, offset, offset + size);
        let f = build_frame(link, seq, &chunk);
        let ghost before = frames@;
        let ghost rest = payload@.skip(offset as int);
        frames.push(f);
        proof {
            assert(pieces.skip(seq as int).len() > 0);
            assert(pieces[seq as int] == pieces.skip(seq as int)[0]);
            if left <= cap {
                assert(chunk@ =~= rest);
                assert(pieces.skip(seq + 1) =~= Seq::empty());
                assert(payload@.skip(offset + size).len() == 0);
            } else {
                assert(chunk@ =~= rest.take(cap as int));
                assert(rest.skip(cap as int) =~= payload@.skip(offset + size));
                assert(pieces.skip(seq + 1) =~= pieces.skip(seq as int).drop_first());
                assert((seq![rest.take(cap as int)] + chunks(rest.skip(cap as int), cap as nat))
                    .drop_first() =~= chunks(rest.skip(cap as int), cap as nat));
            }
            let t = pieces.take(seq + 1);
            assert(numbered(link, t, 0) =~= numbered(link, pieces.take(seq as int), 0).push(f@))
                by {
                assert(t[seq as int] == pieces[seq as int]);
            }
            assert(frame_views(frames@) =~= frame_views(before).push(f@));
        }
        offset = offset + size;
        match seq.checked_add(1) {
            Some(next) => {
                seq = next;
            },
            None => {
                let stop = overflow_text(link);
                return FramePlan { frames, stop: Some(stop) };
            },
        }
    }
    proof {
        assert(pieces.skip(seq as int).len() == 0);
        assert(pieces.take(seq as int) =~= pieces);
    }
    FramePlan { frames, stop: None }
}

fn prefix_length(apdu: &[u8]) -> (r: Vec<u8>)
    ensures
        r@ == prefixed(apdu@),
{
    let mut payload: Vec<u8> = Vec::new();
    push_be(&mut payload, apdu.len() as u64, 2);
    push_all(&mut payload, apdu);
    assert(payload@ =~= prefixed(apdu@));
    payload
}

/// The frames that send a command. `mtu` is what the Bluetooth device
/// negotiated; on USB it is not looked at.
pub fn plan_frames(link: Link, apdu: &[u8], mtu: usize) -> (r: Result<FramePlan, String>)
    ensures
        match outgoing(link, apdu@, mtu as nat) {
            Ok(p) => r matches Ok(v) && v@ == p,
            Err(e) => r matches Err(t) && t@ == e,
        },
{
    if apdu.len() > 0xffff {
        return Err("apdu too long".to_owned());
    }
    let payload = prefix_length(apdu);
    match link {
        Link::Hid => Ok(build_frames(link, &payload, 59)),
        Link::Ble => if mtu < 3 {
            Err("BLE MTU too small".to_owned())
        } else {
            Ok(build_frames(link, &payload, mtu - 3))
        },
    }
}

/// The report that carries a USB frame: the report number 0 in front.
pub fn hid_report(frame: &[u8]) -> (r: Vec<u8>)
    ensures
        r@ == seq![0u8] + frame@,
{
    let mut out: Vec<u8> = Vec::new();
    out.push(0);
    push_all(&mut out, frame);
    assert(out@ =~= seq![0u8] + frame@);
    out
}

/// What is written to ask a Bluetooth device for its frame size.
pub fn mtu_handshake() -> (r: Vec<u8>)
    ensures
        r@ == seq![BLE_MTU_TAG, 0u8, 0u8, 0u8, 0u8],
{
    let mut out: Vec<u8> = Vec::new();
    out.push(BLE_MTU_TAG);
    out.push(0);
    out.push(0);
    out.push(0);
    out.push(0);
    assert(out@ =~= seq![BLE_MTU_TAG, 0u8, 0u8, 0u8, 0u8]);
    out
}

/// The frame size in a notification, if it is the answer to the handshake.
pub fn mtu_in(value: &[u8]) -> (r: Option<usize>)
    ensures
        r == if value@.len() >= 6 && value@[0] == BLE_MTU_TAG {
            Some(value@[5] as usize)
        } else {
            None
        },
{
    if value.len() >= 6 && value[0] == BLE_MTU_TAG {
        Some(value[5] as usize)
    } else {
        None
    }
}

// ── Receiving ──

/// What has been received of a reply.
pub struct Inbound {
    link: Link,
    response: Vec<u8>,
    expected: Option<usize>,
    seq: u16,
}

#[verifier::ext_equal]
pub struct InboundView {
    pub link: Link,
    pub response: Seq<u8>,
    pub expected: Option<nat>,
    pub seq: nat,
}

impl View for Inbound {
    type V = InboundView;

    closed spec fn view(&self) -> InboundView {
        InboundView {
            link: self.link,
            response: self.response@,
            expected: match self.expected {
                Some(n) => Some(n as nat),
                None => None,
            },
            seq: self.seq as nat,
        }
    }
}

pub open spec fn nothing_received(link: Link) -> InboundView {
    InboundView { link, response: Seq::empty(), expected: None, seq: 0 }
}

/// The payload of the frame with sequence number `seq`.
#[verifier::opaque]
pub open spec fn payload_of(link: Link, seq: nat, f: Seq<u8>) -> Result<Seq<u8>, Seq<char>> {
    match link {
        Link::Hid => {
            if f.len() < 5 {
                Err("short HID frame ("@ + decimal(f.len()) + " bytes)"@)
            } else if be_value(f.take(2)) != HID_CID || f[2] != APDU_TAG {
                Err(
                    "bad HID header cid="@ + hex_fixed(be_value(f.take(2)), 4) + " tag="@
                        + hex_fixed(f[2] as nat, 2),
                )
            } else if be_value(f.subrange(3, 5)) != seq {
                Err(
                    "HID seq mismatch (expected "@ + decimal(seq) + ", got "@ + decimal(
                        be_value(f.subrange(3, 5)),
                    ) + ")"@,
                )
            } else {
                Ok(f.skip(5))
            }
        },
        Link::Ble => {
            if f.len() < 3 || f[0] != APDU_TAG {
                Err(
                    "bad BLE frame: tag="@ + hex_fixed(
                        if f.len() > 0 {
                            f[0] as nat
                        } else {
                            0
                        },
                        2,
                    ) + " len="@ + decimal(f.len()),
                )
            } else if be_value(f.subrange(1, 3)) != seq {
                Err(
                    "BLE seq mismatch: expected "@ + decimal(seq) + ", got "@ + decimal(
                        be_value(f.subrange(1, 3)),
                    ),
                )
            } else {
                Ok(f.skip(3))
            }
        },
    }
}

pub open spec fn missing_length(link: Link) -> Seq<char> {
    match link {
        Link::Hid => "first HID frame missing total length"@,
        Link::Ble => "first BLE frame missing total length"@,
    }
}

pub open spec fn read_overflow(link: Link) -> Seq<char> {
    match link {
        Link::Hid => "HID seq overflow on read"@,
        Link::Ble => "BLE seq overflow on read"@,
    }
}

/// What is known after one more frame.
pub open spec fn with_frame(st: InboundView, f: Seq<u8>) -> Result<InboundView, Seq<char>> {
    match payload_of(st.link, st.seq, f) {
        Err(e) => Err(e),
        Ok(body) => if st.seq == 0 && body.len() < 2 {
            Err(missing_length(st.link))
        } else if st.seq == 65535 {
            Err(read_overflow(st.link))
        } else if st.seq == 0 {
            Ok(
                InboundView {
                    link: st.link,
                    response: st.response + body.skip(2),
                    expected: Some(be_value(body.take(2))),
                    seq: 1,
                },
            )
        } else {
            Ok(
                InboundView {
                    link: st.link,
                    response: st.response + body,
                    expected: st.expected,
                    seq: st.seq + 1,
                },
            )
        },
    }
}

/// Whether all of the reply is there.
pub open spec fn is_complete(st: InboundView) -> bool {
    st.expected matches Some(t) && st.response.len() >= t
}

/// The data of a reply: all but its status word, which must be `0x9000`.
pub open spec fn reply_data(reply: Seq<u8>) -> Result<Seq<u8>, Seq<char>> {
    let n = reply.len();
    if n < 2 {
        Err("APDU response too short ("@ + decimal(n) + " bytes)"@)
    } else if be_value(reply.skip(n - 2)) != SW_OK {
        Err("device returned SW=0x"@ + hex_fixed(be_value(reply.skip(n - 2)), 4))
    } else {
        Ok(reply.take(n - 2))
    }
}

/// What one more frame leads to: nothing yet, or the reply.
pub open spec fn reply_with_frame(st: InboundView, f: Seq<u8>) -> Result<
    Option<Seq<u8>>,
    Seq<char>,
> {
    match with_frame(st, f) {
        Err(e) => Err(e),
        Ok(next) => if is_complete(next) {
            match reply_data(next.response.take(next.expected->Some_0 as int)) {
                Ok(data) => Ok(Some(data)),
                Err(e) => Err(e),
            }
        } else {
            Ok(None)
        },
    }
}

/// What a row of frames leads to.
pub open spec fn reply_with_frames(st: InboundView, frames: Seq<Seq<u8>>) -> Result<
    Option<Seq<u8>>,
    Seq<char>,
>
    decreases frames.len(),
{
    if frames.len() == 0 {
        Ok(None)
    } else {
        match reply_with_frame(st, frames[0]) {
            Err(e) => Err(e),
            Ok(Some(data)) => Ok(Some(data)),
            Ok(None) => reply_with_frames(with_frame(st, frames[0])->Ok_0, frames.drop_first()),
        }
    }
}

fn frame_payload(link: Link, seq: u16, f: &[u8]) -> (r: Result<Vec<u8>, String>)
    ensures
        bytes_outcome(r) == payload_of(link, seq as nat, f@),
{
    reveal(payload_of);
    match link {
        Link::Hid => {
            if f.len() < 5 {
                return Err(with_number("short HID frame (", f.len() as u64, " bytes)"));
            }
            let cid = read_be(&copy_range(f, 0, 2));
            assert(f@.subrange(0, 2) =~= f@.take(2));
            if cid != HID_CID as u64 || f[2] != APDU_TAG {
                let mut text = with_hex("bad HID header cid=", cid, 4, " tag=");
                push_hex_fixed(&mut text, f[2] as u64, 2);
                return Err(text);
            }
            let got = read_be(&copy_range(f, 3, 5));
            if got != seq as u64 {
                return Err(
                    with_numbers("HID seq mismatch (expected ", seq as u64, ", got ", got, ")"),
                );
            }
            let body = copy_range(f, 5, f.len());
            assert(body@ =~= f@.skip(5));
            Ok(body)
        },
        Link::Ble => {
            if f.len() < 3 || f[0] != APDU_TAG {
                let tag: u8 = if f.len() > 0 {
                    f[0]
                } else {
                    0
                };
                let mut text = with_hex("bad BLE frame: tag=", tag as u64, 2, " len=");
                push_decimal(&mut text, f.len() as u64);
                return Err(text);
            }
            let got = read_be(&copy_range(f, 1, 3));
            if got != seq as u64 {
                return Err(
                    numbers_after("BLE seq mismatch: expected ", seq as u64, ", got ", got),
                );
            }
            let body = copy_range(f, 3, f.len());
            assert(body@ =~= f@.skip(3));
            Ok(body)
        },
    }
}

/// Checks the status word of a reply and takes it off.
pub fn strip_status(reply: &[u8]) -> (r: Result<Vec<u8>, String>)
    ensures
        bytes_outcome(r) == reply_data(reply@),
{
    let n: usize = reply.len();
    if n < 2 {
        return Err(with_number("APDU response too short (", n as u64, " bytes)"));
    }
    let sw = read_be(&copy_range(reply, n - 2, n));
    assert(reply@.subrange(n - 2, n as int) =~= reply@.skip(n - 2));
    if sw != SW_OK as u64 {
        return Err(hex_after("device returned SW=0x", sw, 4));
    }
    let data = copy_range(reply, 0, n - 2);
    assert(data@ =~= reply@.take(n - 2));
    Ok(data)
}

/// What a received reply holds.
pub open spec fn reply_outcome(r: Result<Option<Vec<u8>>, String>) -> Result<
    Option<Seq<u8>>,
    Seq<char>,
> {
    match r {
        Ok(Some(v)) => Ok(Some(v@)),
        Ok(None) => Ok(None),
        Err(e) => Err(e@),
    }
}

impl Inbound {
    /// Waiting for the first frame.
    pub fn new(link: Link) -> (r: Self)
        ensures
            r@ == nothing_received(link),
    {
        let r = Inbound { link, response: Vec::new(), expected: None, seq: 0 };
        assert(r@ =~= nothing_received(link));
        r
    }

    /// Takes one frame. `Some` is the data of the reply, complete and with its
    /// status word checked; `None` asks for another frame.
    pub fn receive(&mut self, f: &[u8]) -> (r: Result<Option<Vec<u8>>, String>)
        ensures
            reply_outcome(r) == reply_with_frame(old(self)@, f@),
            r matches Ok(None) ==> with_frame(old(self)@, f@) == Ok::<InboundView, Seq<char>>(
                final(self)@,
            ),
    {
        let ghost start = self@;
        let body = match frame_payload(self.link, self.seq, f) {
            Ok(b) => b,
            Err(e) => return Err(e),
        };
        if self.seq == 0 && body.len() < 2 {
            return Err(
                match self.link {
                    Link::Hid => "first HID frame missing total length".to_owned(),
                    Link::Ble => "first BLE frame missing total length".to_owned(),
                },
            );
        }
        if self.seq == 65535 {
            return Err(
                match self.link {
                    Link::Hid => "HID seq overflow on read".to_owned(),
                    Link::Ble => "BLE seq overflow on read".to_owned(),
                },
            );
        }
        if self.seq == 0 {
            let total = read_be(&copy_range(&body, 0, 2));
            proof {
                assert(body@.subrange(0, 2) =~= body@.take(2));
                lemma_be_value_bound(body@.take(2));
                lemma_pow256_values();
            }
            self.expected = Some(total as usize);
            let rest = copy_range(&body, 2, body.len());
            assert(rest@ =~= body@.skip(2));
            push_all(&mut self.response, &rest);
        } else {
            push_all(&mut self.response, &body);
        }
        self.seq = self.seq + 1;
        assert(with_frame(start, f@) == Ok::<InboundView, Seq<char>>(self@)) by {
            assert(self@ =~= with_frame(start, f@)->Ok_0);
        }
        match self.expected {
            Some(t) => if self.response.len() >= t {
                let whole = copy_range(&self.response, 0, t);
                assert(whole@ =~= self.response@.take(t as int));
                match strip_status(&whole) {
                    Ok(data) => Ok(Some(data)),
                    Err(e) => Err(e),
                }
            } else {
                Ok(None)
            },
            None => Ok(None),
        }
    }
}

// ── What is sent can be received ──

proof fn lemma_payload_of_frame(link: Link, seq: nat, chunk: Seq<u8>)
    requires
        seq < 65536,
    ensures
        payload_of(link, seq, frame(link, seq, chunk)) == Ok::<Seq<u8>, Seq<char>>(
            match link {
                Link::Hid => chunk + zeros(59 - chunk.len()),
                Link::Ble => chunk,
            },
        ),
{
    reveal(payload_of);
    let f = frame(link, seq, chunk);
    lemma_pow256_values();
    law_be_read_write(seq, 2);
    law_be_read_write(HID_CID as nat, 2);
    match link {
        Link::Hid => {
            assert(f.take(2) =~= be(HID_CID as nat, 2));
            assert(f.subrange(3, 5) =~= be(seq, 2));
            assert(f.skip(5) =~= chunk + zeros(59 - chunk.len()));
        },
        Link::Ble => {
            assert(f.subrange(1, 3) =~= be(seq, 2));
            assert(f.skip(3) =~= chunk);
        },
    }
}

/// Whether frames on this link have room for `cap` bytes of payload.
pub open spec fn fits_link(link: Link, cap: nat) -> bool {
    match link {
        Link::Hid => cap == 59,
        Link::Ble => cap >= 2,
    }
}

/// The first frame and the others.
proof fn lemma_numbered(link: Link, pieces: Seq<Seq<u8>>, start: nat)
    requires
        pieces.len() > 0,
    ensures
        numbered(link, pieces, start).len() == pieces.len(),
        numbered(link, pieces, start)[0] == frame(link, start, pieces[0]),
        numbered(link, pieces, start).drop_first() == numbered(
            link,
            pieces.drop_first(),
            start + 1,
        ),
{
    let a = numbered(link, pieces, start).drop_first();
    let b = numbered(link, pieces.drop_first(), start + 1);
    assert forall|i: int| 0 <= i < a.len() implies a[i] == b[i] by {
        assert(pieces.drop_first()[i] == pieces[i + 1]);
        assert((start + (i + 1)) as nat == (start + 1 + i) as nat);
    }
    assert(a =~= b);
}

/// What a piece becomes in a frame: USB fills its frames up.
spec fn carried(link: Link, chunk: Seq<u8>) -> Seq<u8> {
    match link {
        Link::Hid => chunk + zeros(59 - chunk.len()),
        Link::Ble => chunk,
    }
}

proof fn lemma_first_frame(link: Link, chunk: Seq<u8>)
    requires
        chunk.len() >= 2,
    ensures
        with_frame(nothing_received(link), frame(link, 0, chunk)) == Ok::<InboundView, Seq<char>>(
            InboundView {
                link,
                response: carried(link, chunk).skip(2),
                expected: Some(be_value(chunk.take(2))),
                seq: 1,
            },
        ),
{
    lemma_payload_of_frame(link, 0, chunk);
    let body = carried(link, chunk);
    assert(body.take(2) =~= chunk.take(2));
    assert(Seq::<u8>::empty() + body.skip(2) =~= body.skip(2));
}

proof fn lemma_later_frame(st: InboundView, chunk: Seq<u8>)
    requires
        1 <= st.seq < 65535,
    ensures
        with_frame(st, frame(st.link, st.seq, chunk)) == Ok::<InboundView, Seq<char>>(
            InboundView {
                link: st.link,
                response: st.response + carried(st.link, chunk),
                expected: st.expected,
                seq: st.seq + 1,
            },
        ),
{
    lemma_payload_of_frame(st.link, st.seq, chunk);
}

/// The frames for the rest of a reply complete it.
proof fn lemma_rest_received(st: InboundView, rest: Seq<u8>, cap: nat)
    requires
        fits_link(st.link, cap),
        st.seq >= 1,
        st.expected == Some(st.response.len() + rest.len()),
        rest.len() > 0,
        st.seq + chunks(rest, cap).len() <= 65535,
    ensures
        reply_with_frames(st, numbered(st.link, chunks(rest, cap), st.seq)) == match reply_data(
            st.response + rest,
        ) {
            Ok(data) => Ok(Some(data)),
            Err(e) => Err(e),
        },
    decreases rest.len(),
{
    let pieces = chunks(rest, cap);
    let frames = numbered(st.link, pieces, st.seq);
    lemma_numbered(st.link, pieces, st.seq);
    lemma_later_frame(st, pieces[0]);
    let next = with_frame(st, frames[0])->Ok_0;
    if rest.len() <= cap {
        assert(pieces[0] == rest);
        assert(next.response.take((st.response.len() + rest.len()) as int) =~= st.response + rest);
    } else {
        let tail = rest.skip(cap as int);
        assert(pieces[0] == rest.take(cap as int));
        assert(carried(st.link, pieces[0]) =~= pieces[0]);
        assert(pieces.drop_first() =~= chunks(tail, cap));
        lemma_rest_received(next, tail, cap);
        assert(next.response + tail =~= st.response + rest);
    }
}

/// A reply that is cut into frames as commands are is put together again:
/// what comes out is the reply without its status word, or the error that the
/// status word stands for.
pub proof fn law_frames_reassemble(link: Link, reply: Seq<u8>, cap: nat)
    requires
        reply.len() <= 0xffff,
        fits_link(link, cap),
        frames_for(link, prefixed(reply), cap).stop is None,
    ensures
        reply_with_frames(
            nothing_received(link),
            frames_for(link, prefixed(reply), cap).frames,
        ) == match reply_data(reply) {
            Ok(data) => Ok(Some(data)),
            Err(e) => Err(e),
        },
{
    let st = nothing_received(link);
    let s = prefixed(reply);
    let pieces = chunks(s, cap);
    let frames = numbered(link, pieces, 0);
    lemma_be_len(reply.len(), 2);
    assert(s.len() == 2 + reply.len());
    assert(pieces.len() > 0 && pieces[0].len() >= 2 && pieces[0].take(2) =~= s.take(2));
    assert(be_value(pieces[0].take(2)) == reply.len()) by {
        lemma_pow256_values();
        law_be_read_write(reply.len(), 2);
        assert(s.take(2) =~= be(reply.len(), 2));
    }
    lemma_numbered(link, pieces, 0);
    lemma_first_frame(link, pieces[0]);
    let next = with_frame(st, frames[0])->Ok_0;
    if s.len() <= cap {
        assert(pieces[0] == s);
        assert(next.response.take(reply.len() as int) =~= reply);
    } else {
        let rest = s.skip(cap as int);
        assert(pieces[0] == s.take(cap as int));
        assert(carried(link, pieces[0]) =~= pieces[0]);
        assert(next.response =~= reply.take(cap - 2));
        assert(rest =~= reply.skip(cap - 2));
        assert(pieces.drop_first() =~= chunks(rest, cap));
        lemma_rest_received(next, rest, cap);
        assert(next.response + rest =~= reply);
    }
}

proof fn lemma_chunk_count(s: Seq<u8>, cap: nat, k: nat)
    requires
        cap >= 59,
        s.len() <= 59 * k,
    ensures
        chunks(s, cap).len() <= k,
    decreases s.len(),
{
    if s.len() > cap {
        lemma_chunk_count(s.skip(cap as int), cap, (k - 1) as nat);
    }
}

/// On USB the sequence numbers never run out: whatever can be sent at all is
/// sent whole.
pub proof fn law_hid_never_overflows(apdu: Seq<u8>, mtu: nat)
    requires
        apdu.len() <= 0xffff,
    ensures
        outgoing(Link::Hid, apdu, mtu) matches Ok(p) && p.stop is None,
{
    lemma_be_len(apdu.len(), 2);
    lemma_chunk_count(prefixed(apdu), 59, 1111);
}

// ── Where everything stands ──

/// A frame for USB is 64 bytes: the channel `01 01`, the tag 5, its number with
/// the high byte first, and up to 59 bytes filled up with zeros. A frame for
/// Bluetooth is the tag, the number and the bytes.
pub proof fn law_frame_layout(seq: nat, chunk: Seq<u8>)
    requires
        seq <= 0xffff,
        chunk.len() <= 59,
    ensures
        ({
            let f = frame(Link::Hid, seq, chunk);
            &&& f.len() == 64
            &&& f[0] == 1 && f[1] == 1 && f[2] == 5
            &&& be_value(f.subrange(3, 5)) == seq
            &&& f.subrange(5, 5 + chunk.len() as int) == chunk
            &&& forall|i: int| 5 + chunk.len() <= i < 64 ==> #[trigger] f[i] == 0
        }),
        ({
            let f = frame(Link::Ble, seq, chunk);
            &&& f.len() == 3 + chunk.len()
            &&& f[0] == 5
            &&& be_value(f.subrange(1, 3)) == seq
            &&& f.skip(3) == chunk
        }),
{
    lemma_pow256_values();
    law_be_read_write(seq, 2);
    lemma_be_len(HID_CID as nat, 2);
    reveal_with_fuel(be, 3);
    let f = frame(Link::Hid, seq, chunk);
    assert(be(HID_CID as nat, 2) =~= seq![1u8, 1u8]);
    assert(f.subrange(3, 5) =~= be(seq, 2));
    assert(f.subrange(5, 5 + chunk.len() as int) =~= chunk);
    let g = frame(Link::Ble, seq, chunk);
    assert(g.subrange(1, 3) =~= be(seq, 2));
    assert(g.skip(3) =~= chunk);
}

/// What is sent for a command: the first frame begins with the length of the
/// command in two bytes with the high one first, the frames are numbered from 0
/// on, and none is longer than the link takes.
pub proof fn law_outgoing_frames(apdu: Seq<u8>, mtu: nat, i: int)
    requires
        0 < apdu.len() <= 0xffff,
        5 <= mtu,
    ensures
        outgoing(Link::Hid, apdu, mtu) matches Ok(p) && p.frames.len() > 0 && (0 <= i
            < p.frames.len() ==> p.frames[i].len() == 64 && be_value(p.frames[i].subrange(3, 5))
            == i) && be_value(p.frames[0].subrange(5, 7)) == apdu.len(),
        outgoing(Link::Ble, apdu, mtu) matches Ok(p) && p.frames.len() > 0 && (0 <= i
            < p.frames.len() && i <= 0xffff ==> p.frames[i].len() <= mtu && be_value(
            p.frames[i].subrange(1, 3),
        ) == i) && be_value(p.frames[0].subrange(3, 5)) == apdu.len(),
{
    let payload = prefixed(apdu);
    lemma_pow256_values();
    law_be_read_write(apdu.len(), 2);
    law_hid_never_overflows(apdu, mtu);
    lemma_chunk_sizes(payload, 59);
    lemma_chunk_sizes(payload, (mtu - 3) as nat);
    let hid = outgoing(Link::Hid, apdu, mtu)->Ok_0;
    let ble = outgoing(Link::Ble, apdu, mtu)->Ok_0;
    let hc = chunks(payload, 59);
    let bc = chunks(payload, (mtu - 3) as nat);
    lemma_hid_count(apdu, mtu);
    assert(hid.frames[0] == frame(Link::Hid, 0, hc[0]));
    law_frame_layout(0, hc[0]);
    assert(hid.frames[0].subrange(5, 7) =~= hc[0].take(2));
    assert(hc[0].take(2) =~= be(apdu.len(), 2));
    if 0 <= i < hid.frames.len() {
        assert(hid.frames[i] == frame(Link::Hid, i as nat, hc[i]));
        law_frame_layout(i as nat, hc[i]);
    }
    lemma_ble_frame(0, bc[0]);
    assert(ble.frames[0] == frame(Link::Ble, 0, bc[0]));
    assert(ble.frames[0].subrange(3, 5) =~= bc[0].take(2));
    assert(bc[0].take(2) =~= be(apdu.len(), 2));
    if 0 <= i < ble.frames.len() && i <= 0xffff {
        assert(ble.frames[i] == frame(Link::Ble, i as nat, bc[i]));
        lemma_ble_frame(i as nat, bc[i]);
    }
}

proof fn lemma_hid_count(apdu: Seq<u8>, mtu: nat)
    requires
        0 < apdu.len() <= 0xffff,
    ensures
        chunks(prefixed(apdu), 59).len() < 65536,
        outgoing(Link::Hid, apdu, mtu)->Ok_0.frames.len() == chunks(prefixed(apdu), 59).len(),
{
    law_hid_never_overflows(apdu, mtu);
}

proof fn lemma_ble_frame(seq: nat, chunk: Seq<u8>)
    requires
        seq <= 0xffff,
    ensures
        ({
            let f = frame(Link::Ble, seq, chunk);
            &&& f.len() == 3 + chunk.len()
            &&& be_value(f.subrange(1, 3)) == seq
            &&& f.skip(3) == chunk
        }),
{
    lemma_pow256_values();
    law_be_read_write(seq, 2);
    let f = frame(Link::Ble, seq, chunk);
    assert(f.subrange(1, 3) =~= be(seq, 2));
    assert(f.skip(3) =~= chunk);
}

proof fn lemma_chunk_sizes(s: Seq<u8>, cap: nat)
    requires
        cap >= 2,
        s.len() >= 2,
    ensures
        chunks(s, cap).len() > 0,
        chunks(s, cap)[0].len() >= 2,
        chunks(s, cap)[0].take(2) == s.take(2),
        forall|i: int| 0 <= i < chunks(s, cap).len() ==> (#[trigger] chunks(s, cap)[i]).len()
            <= cap,
{
    lemma_chunk_bound(s, cap);
    if s.len() > cap {
        assert(s.take(cap as int).take(2) =~= s.take(2));
    }
}

proof fn lemma_chunk_bound(s: Seq<u8>, cap: nat)
    requires
        cap >= 1,
    ensures
        forall|i: int| 0 <= i < chunks(s, cap).len() ==> (#[trigger] chunks(s, cap)[i]).len()
            <= cap,
    decreases s.len(),
{
    if s.len() > cap {
        let rest = chunks(s.skip(cap as int), cap);
        lemma_chunk_bound(s.skip(cap as int), cap);
        assert forall|i: int| 0 <= i < chunks(s, cap).len() implies (#[trigger] chunks(
            s,
            cap,
        )[i]).len() <= cap by {
            if i > 0 {
                assert(chunks(s, cap)[i] == rest[i - 1]);
            }
        }
    }
}

/// The status `90 00` at the end of a reply means success and is taken off; any
/// other status is an error.
pub proof fn law_status_words(data: Seq<u8>, a: u8, b: u8)
    ensures
        a == 0x90 && b == 0 ==> reply_data(data + seq![a, b]) == Ok::<Seq<u8>, Seq<char>>(data),
        a != 0x90 || b != 0 ==> reply_data(data + seq![a, b]) is Err,
        data.len() < 2 ==> reply_data(data) is Err,
{
    let r = data + seq![a, b];
    assert(r.skip(r.len() - 2) =~= seq![a, b]);
    assert(r.take(r.len() - 2) =~= data);
    law_two_bytes(a, b);
}

/// A frame that is too short, has another tag or channel, or comes out of turn
/// is refused; any other gives the bytes behind its header.
pub proof fn law_which_frames_are_taken(seq: nat, f: Seq<u8>)
    ensures
        payload_of(Link::Hid, seq, f) is Ok <==> f.len() >= 5 && f[0] == 1 && f[1] == 1 && f[2] == 5
            && 256 * (f[3] as nat) + f[4] as nat == seq,
        payload_of(Link::Ble, seq, f) is Ok <==> f.len() >= 3 && f[0] == 5 && 256 * (f[1] as nat)
            + f[2] as nat == seq,
        payload_of(Link::Hid, seq, f) matches Ok(b) ==> b == f.skip(5),
        payload_of(Link::Ble, seq, f) matches Ok(b) ==> b == f.skip(3),
{
    reveal(payload_of);
    if f.len() >= 5 {
        assert(f.take(2) =~= seq![f[0], f[1]]);
        assert(f.subrange(3, 5) =~= seq![f[3], f[4]]);
        law_two_bytes(f[0], f[1]);
        law_two_bytes(f[3], f[4]);
    }
    if f.len() >= 3 {
        assert(f.subrange(1, 3) =~= seq![f[1], f[2]]);
        law_two_bytes(f[1], f[2]);
    }
}

/// The frames that a command is sent in carry just that command: put together
/// again by the rules for replies, they give its bytes, up to the status at its
/// end. This holds of any link that takes at least two bytes of data per frame.
pub proof fn law_sent_frames_carry_the_command(link: Link, apdu: Seq<u8>, mtu: nat)
    requires
        apdu.len() <= 0xffff,
        mtu >= 5,
        outgoing(link, apdu, mtu) matches Ok(p) && p.stop is None,
    ensures
        reply_with_frames(nothing_received(link), outgoing(link, apdu, mtu)->Ok_0.frames)
            == match reply_data(apdu) {
            Ok(data) => Ok(Some(data)),
            Err(e) => Err(e),
        },
{
    match link {
        Link::Hid => law_frames_reassemble(link, apdu, 59),
        Link::Ble => law_frames_reassemble(link, apdu, (mtu - 3) as nat),
    }
}

} // verus!
