//! Finding the device among the USB HID interfaces.

use vstd::prelude::*;

verus! {

pub const LEDGER_VID: u16 = 0x2c97;

/// The usage page of the interface that takes commands.
pub const APDU_USAGE_PAGE: u16 = 0xffa0;

/// What the system says of a HID interface.
pub struct HidInterface {
    pub vendor_id: u16,
    pub interface_number: i32,
    pub usage_page: u16,
}

/// Whether an interface takes commands. The devices have others too (U2F,
/// keyboard), on which a command would never be answered.
pub open spec fn takes_commands(i: HidInterface) -> bool {
    i.vendor_id == LEDGER_VID && (i.interface_number == 0 || i.usage_page == APDU_USAGE_PAGE)
}

/// The first interface that takes commands.
pub fn pick_interface(list: &[HidInterface]) -> (r: Result<usize, String>)
    ensures
        match r {
            Ok(i) => {
                &&& i < list@.len()
                &&& takes_commands(list@[i as int])
                &&& forall|k: int| 0 <= k < i ==> !takes_commands(#[trigger] list@[k])
            },
            Err(e) => {
                &&& forall|k: int| 0 <= k < list@.len() ==> !takes_commands(#[trigger] list@[k])
                &&& e@
                    == "no Ledger device found — connect & unlock the device, then open Fistbump"@
            },
        },
{
    let mut i: usize = 0;
    while i < list.len()
        invariant
            i <= list@.len(),
            forall|k: int| 0 <= k < i ==> !takes_commands(#[trigger] list@[k]),
        decreases list@.len() - i,
    {
        if list[i].vendor_id == LEDGER_VID && (list[i].interface_number == 0 || list[i].usage_page
            == APDU_USAGE_PAGE) {
            return Ok(i);
        }
        i = i + 1;
    }
    Err("no Ledger device found — connect & unlock the device, then open Fistbump".to_owned())
}

/// The error for a missing device is the one that sends an automatic choice of
/// transport on to Bluetooth.
pub proof fn law_missing_device_is_recognised()
    ensures
        crate::ledger::wallet::no_usb_device(
            "no Ledger device found — connect & unlock the device, then open Fistbump"@,
        ),
{
    reveal_strlit("no Ledger device found");
    reveal_strlit("no Ledger device found — connect & unlock the device, then open Fistbump");
    let s = "no Ledger device found — connect & unlock the device, then open Fistbump"@;
    let p = "no Ledger device found"@;
    assert(s.subrange(0, p.len() as int) =~= p);
}

/// How many milliseconds to wait for a frame: a 32-bit number.
pub fn read_timeout_ms(timeout_secs: u64) -> (r: i32)
    ensures
        r == if timeout_secs * 1000 <= i32::MAX {
            timeout_secs * 1000
        } else {
            i32::MAX as int
        },
{
    if timeout_secs <= 2_147_483 {
        (timeout_secs * 1000) as i32
    } else {
        i32::MAX
    }
}

/// Nothing of another vendor takes commands; of this one, the first interface
/// does, and whatever is on the page for commands.
pub proof fn law_interfaces(i: HidInterface)
    ensures
        i.vendor_id != 0x2c97 ==> !takes_commands(i),
        i.vendor_id == 0x2c97 && i.interface_number == 0 ==> takes_commands(i),
        i.vendor_id == 0x2c97 && i.usage_page == 0xffa0 ==> takes_commands(i),
        i.interface_number != 0 && i.usage_page != 0xffa0 ==> !takes_commands(i),
{
}

} // verus!
