//! Which window was in front before the wallet came up, and how it is put in
//! front again.

use crate::wire::{le, push_le};
use vstd::prelude::*;

verus! {

/// What the window server says of a window; what it does not say is none.
pub struct Window {
    pub layer: Option<i32>,
    pub pid: Option<i32>,
    pub number: Option<i32>,
}

/// Whether this is an ordinary window of which the owner and number are known.
pub open spec fn is_ordinary(w: Window) -> bool {
    w.layer == Some(0i32) && w.pid is Some && w.number is Some
}

/// The owner and number of the first ordinary window. Windows are listed from
/// front to back.
pub open spec fn frontmost(windows: Seq<Window>) -> Option<(i32, i32)>
    decreases windows.len(),
{
    if windows.len() == 0 {
        None
    } else if is_ordinary(windows[0]) {
        Some((windows[0].pid->Some_0, windows[0].number->Some_0))
    } else {
        frontmost(windows.drop_first())
    }
}

/// The owner and number of the first ordinary window.
pub fn frontmost_window_info(windows: &Vec<Window>) -> (r: Option<(i32, i32)>)
    ensures
        r == frontmost(windows@),
{
    let mut i: usize = 0;
    assert(windows@.skip(0) =~= windows@);
    while i < windows.len()
        invariant
            i <= windows@.len(),
            frontmost(windows@.skip(i as int)) == frontmost(windows@),
        decreases windows@.len() - i,
    {
        let w = &windows[i];
        let ghost rest = windows@.skip(i as int);
        assert(rest[0] == *w);
        assert(rest.drop_first() =~= windows@.skip(i + 1));
        match (w.layer, w.pid, w.number) {
            (Some(layer), Some(pid), Some(number)) => {
                if layer == 0 {
                    return Some((pid, number));
                }
            },
            _ => {},
        }
        i = i + 1;
    }
    None
}

/// The window to put in front again. There is none if the wallet was in front
/// itself.
pub struct PreviousFocus {
    pub window: Option<(i32, i32)>,
}

/// Notes which window is in front.
pub fn capture_previous_focus(front: Option<(i32, i32)>, own_pid: i32) -> (r: PreviousFocus)
    ensures
        r.window == match front {
            Some((pid, number)) => if pid == own_pid || pid <= 0 {
                None
            } else {
                Some((pid, number))
            },
            None => None,
        },
{
    match front {
        Some((pid, number)) => if pid == own_pid || pid <= 0 {
            PreviousFocus { window: None }
        } else {
            PreviousFocus { window: Some((pid, number)) }
        },
        None => PreviousFocus { window: None },
    }
}

/// How long an event for the window server is.
pub const RECORD_LEN: usize = 0xf8;

/// The byte at `i` in the event by which a window is put in front. Two such
/// events are sent, the first with `which` 1, the second with 2.
pub open spec fn record_byte(number: u32, which: u8, i: int) -> u8 {
    if i == 0x04 {
        0xf8
    } else if i == 0x08 {
        which
    } else if i == 0x3a {
        0x10
    } else if 0x3c <= i < 0x40 {
        le(number as nat, 4)[i - 0x3c]
    } else {
        0
    }
}

/// The event by which a window is put in front.
pub fn raise_record(number: u32, which: u8) -> (r: Vec<u8>)
    ensures
        r@.len() == RECORD_LEN,
        forall|i: int| 0 <= i < RECORD_LEN ==> #[trigger] r@[i] == record_byte(number, which, i),
{
    let mut name: Vec<u8> = Vec::new();
    push_le(&mut name, number as u64, 4);
    proof {
        crate::wire::lemma_le_len(number as nat, 4);
        assert(name@ =~= le(number as nat, 4));
    }
    let mut out: Vec<u8> = Vec::new();
    let mut i: usize = 0;
    while i < RECORD_LEN
        invariant
            i <= RECORD_LEN,
            name@ == le(number as nat, 4),
            name@.len() == 4,
            out@.len() == i,
            forall|k: int| 0 <= k < i ==> #[trigger] out@[k] == record_byte(number, which, k),
        decreases RECORD_LEN - i,
    {
        let b: u8 = if i == 0x04 {
            0xf8
        } else if i == 0x08 {
            which
        } else if i == 0x3a {
            0x10
        } else if 0x3c <= i && i < 0x40 {
            name[i - 0x3c]
        } else {
            0
        };
        out.push(b);
        i = i + 1;
    }
    out
}

// ── What holds of it ──

/// The window in front is the first that is an ordinary one.
pub proof fn law_first_ordinary_window(windows: Seq<Window>, i: int)
    requires
        0 <= i < windows.len(),
        windows[i].layer == Some(0i32) && windows[i].pid is Some && windows[i].number is Some,
        forall|k: int| 0 <= k < i ==> !is_ordinary(#[trigger] windows[k]),
    ensures
        frontmost(windows) == Some((windows[i].pid->Some_0, windows[i].number->Some_0)),
    decreases i,
{
    if i > 0 {
        let rest = windows.drop_first();
        assert(rest[i - 1] == windows[i]);
        assert forall|k: int| 0 <= k < i - 1 implies !is_ordinary(#[trigger] rest[k]) by {
            assert(rest[k] == windows[k + 1]);
        }
        law_first_ordinary_window(rest, i - 1);
        assert(!is_ordinary(windows[0]));
    }
}

/// Without an ordinary window none is in front.
pub proof fn law_no_ordinary_window(windows: Seq<Window>)
    requires
        forall|k: int|
            0 <= k < windows.len() ==> (#[trigger] windows[k]).layer != Some(0i32)
                || windows[k].pid is None || windows[k].number is None,
    ensures
        frontmost(windows) is None,
    decreases windows.len(),
{
    if windows.len() > 0 {
        let rest = windows.drop_first();
        assert forall|k: int| 0 <= k < rest.len() implies (#[trigger] rest[k]).layer != Some(0i32)
            || rest[k].pid is None || rest[k].number is None by {
            assert(rest[k] == windows[k + 1]);
        }
        law_no_ordinary_window(rest);
        assert(windows[0].layer != Some(0i32) || windows[0].pid is None || windows[0].number
            is None);
    }
}

/// The record that raises a window: 248 bytes, its own length in the fifth, which
/// of the two records it is in the ninth, and the number of the window in four
/// bytes with the lowest first; but for one more byte all others are zero.
pub proof fn law_record_layout(number: u32, which: u8, i: int)
    ensures
        ({
            let r = Seq::new(248, |k: int| record_byte(number, which, k));
            &&& r[4] == 248
            &&& r[8] == which
            &&& r[0x3a] == 0x10
            &&& crate::wire::le_value(r.subrange(0x3c, 0x40)) == number
            &&& 0 <= i < 248 && i != 4 && i != 8 && i != 0x3a && !(0x3c <= i < 0x40) ==> r[i] == 0
        }),
{
    let r = Seq::new(248, |k: int| record_byte(number, which, k));
    crate::wire::lemma_pow256_values();
    crate::wire::law_le_read_write(number as nat, 4);
    assert(r.subrange(0x3c, 0x40) =~= le(number as nat, 4));
}

/// A window of another program is remembered as it is; one of our own, or of no
/// program, is not.
pub proof fn law_what_is_remembered(pid: i32, number: i32, own: i32, kept: PreviousFocus)
    requires
        call_ensures(capture_previous_focus, (Some((pid, number)), own), kept),
    ensures
        pid > 0 && pid != own ==> kept.window == Some((pid, number)),
        pid <= 0 || pid == own ==> kept.window is None,
{
}

} // verus!
