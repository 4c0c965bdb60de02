//! Bluetooth devices: which are known, and how to connect to one.

use crate::text::{concat2, contains, contains_text, outcome, text_of};
use vstd::prelude::*;

verus! {

/// How long to scan if nothing else is asked for.
pub const DEFAULT_SCAN_SECS: u64 = 5;

/// How long to look for a device that the system has not seen yet.
pub const FIND_DEADLINE_MS: u64 = 8000;

/// The models that speak Bluetooth.
#[derive(Clone, Copy, PartialEq, Eq, Structural)]
pub enum BleModel {
    NanoX,
    Stax,
    Flex,
}

/// A device that a scan found.
#[derive(Clone)]
pub struct BleDeviceInfo {
    pub id: String,
    pub name: String,
    pub model: String,
}

pub open spec fn model_name(m: BleModel) -> Seq<char> {
    match m {
        BleModel::NanoX => "Nano X"@,
        BleModel::Stax => "Stax"@,
        BleModel::Flex => "Flex"@,
    }
}

pub open spec fn service_uuid(m: BleModel) -> u128 {
    match m {
        BleModel::NanoX => 0x13d634002c97000400004c6564676572,
        BleModel::Stax => 0x13d634002c97600400004c6564676572,
        BleModel::Flex => 0x13d634002c97300400004c6564676572,
    }
}

pub open spec fn notify_uuid(m: BleModel) -> u128 {
    match m {
        BleModel::NanoX => 0x13d634002c97000400014c6564676572,
        BleModel::Stax => 0x13d634002c97600400014c6564676572,
        BleModel::Flex => 0x13d634002c97300400014c6564676572,
    }
}

pub open spec fn write_uuid(m: BleModel) -> u128 {
    match m {
        BleModel::NanoX => 0x13d634002c97000400034c6564676572,
        BleModel::Stax => 0x13d634002c97600400034c6564676572,
        BleModel::Flex => 0x13d634002c97300400034c6564676572,
    }
}

impl BleModel {
    pub fn name(&self) -> (r: &'static str)
        ensures
            r@ == model_name(*self),
    {
        match self {
            BleModel::NanoX => "Nano X",
            BleModel::Stax => "Stax",
            BleModel::Flex => "Flex",
        }
    }

    pub fn service(&self) -> (r: u128)
        ensures
            r == service_uuid(*self),
    {
        match self {
            BleModel::NanoX => 0x13d634002c97000400004c6564676572,
            BleModel::Stax => 0x13d634002c97600400004c6564676572,
            BleModel::Flex => 0x13d634002c97300400004c6564676572,
        }
    }

    pub fn notify(&self) -> (r: u128)
        ensures
            r == notify_uuid(*self),
    {
        match self {
            BleModel::NanoX => 0x13d634002c97000400014c6564676572,
            BleModel::Stax => 0x13d634002c97600400014c6564676572,
            BleModel::Flex => 0x13d634002c97300400014c6564676572,
        }
    }

    pub fn write_cmd(&self) -> (r: u128)
        ensures
            r == write_uuid(*self),
    {
        match self {
            BleModel::NanoX => 0x13d634002c97000400034c6564676572,
            BleModel::Stax => 0x13d634002c97600400034c6564676572,
            BleModel::Flex => 0x13d634002c97300400034c6564676572,
        }
    }
}

/// The model with this service.
pub open spec fn model_of_service(service: u128) -> Option<BleModel> {
    if service == service_uuid(BleModel::NanoX) {
        Some(BleModel::NanoX)
    } else if service == service_uuid(BleModel::Stax) {
        Some(BleModel::Stax)
    } else if service == service_uuid(BleModel::Flex) {
        Some(BleModel::Flex)
    } else {
        None
    }
}

/// The first model whose name stands in the name of a device.
pub open spec fn model_of_name(name: Seq<char>) -> Option<BleModel> {
    if contains_text(name, model_name(BleModel::NanoX)) {
        Some(BleModel::NanoX)
    } else if contains_text(name, model_name(BleModel::Stax)) {
        Some(BleModel::Stax)
    } else if contains_text(name, model_name(BleModel::Flex)) {
        Some(BleModel::Flex)
    } else {
        None
    }
}

/// The model of the first known service.
pub open spec fn model_of_services(services: Seq<u128>) -> Option<BleModel>
    decreases services.len(),
{
    if services.len() == 0 {
        None
    } else if model_of_service(services[0]) is Some {
        model_of_service(services[0])
    } else {
        model_of_services(services.drop_first())
    }
}

/// The model of an advertised device: by its services, else by its name.
pub open spec fn advertised_model(services: Seq<u128>, name: Option<Seq<char>>) -> Option<
    BleModel,
> {
    match model_of_services(services) {
        Some(m) => Some(m),
        None => match name {
            Some(n) => model_of_name(n),
            None => None,
        },
    }
}

pub fn model_for_service(service: u128) -> (r: Option<BleModel>)
    ensures
        r == model_of_service(service),
{
    if service == BleModel::NanoX.service() {
        Some(BleModel::NanoX)
    } else if service == BleModel::Stax.service() {
        Some(BleModel::Stax)
    } else if service == BleModel::Flex.service() {
        Some(BleModel::Flex)
    } else {
        None
    }
}

pub fn model_for_name(name: &str) -> (r: Option<BleModel>)
    ensures
        r == model_of_name(name@),
{
    if contains(name, BleModel::NanoX.name()) {
        Some(BleModel::NanoX)
    } else if contains(name, BleModel::Stax.name()) {
        Some(BleModel::Stax)
    } else if contains(name, BleModel::Flex.name()) {
        Some(BleModel::Flex)
    } else {
        None
    }
}

/// How long to scan: what was asked for, in seconds.
pub fn scan_secs(timeout_secs: u32) -> (r: u64)
    ensures
        r == if timeout_secs == 0 {
            5
        } else {
            timeout_secs as int
        },
{
    if timeout_secs == 0 {
        DEFAULT_SCAN_SECS
    } else {
        timeout_secs as u64
    }
}

/// What a device found in a scan is listed as, if it is one of the known
/// models. One without a name of its own gets the name of its model.
pub fn identify(id: String, services: &[u128], local_name: Option<String>) -> (r: Option<
    BleDeviceInfo,
>)
    ensures
        match advertised_model(services@, text_of(local_name)) {
            None => r is None,
            Some(m) => {
                &&& r matches Some(info)
                &&& info.id == id
                &&& info.model@ == model_name(m)
                &&& info.name@ == match local_name {
                    Some(n) => n@,
                    None => "Ledger "@ + model_name(m),
                }
            },
        },
{
    let mut found: Option<BleModel> = None;
    let mut i: usize = 0;
    assert(services@.skip(0) =~= services@);
    while i < services.len() && found.is_none()
        invariant
            i <= services@.len(),
            match found {
                Some(m) => model_of_services(services@) == Some(m),
                None => model_of_services(services@) == model_of_services(services@.skip(i as int)),
            },
        decreases services@.len() - i,
    {
        assert(services@.skip(i as int).drop_first() =~= services@.skip(i + 1));
        found = model_for_service(services[i]);
        i = i + 1;
    }
    let model = match found {
        Some(m) => Some(m),
        None => match &local_name {
            Some(n) => model_for_name(n.as_str()),
            None => None,
        },
    };
    match model {
        None => None,
        Some(m) => {
            let name = match local_name {
                Some(n) => n,
                None => concat2("Ledger ", m.name()),
            };
            Some(BleDeviceInfo { id, name, model: m.name().to_owned() })
        },
    }
}

// ── Connecting ──

/// A characteristic of a connected device, and the service it belongs to.
pub struct Characteristic {
    pub service: u128,
    pub uuid: u128,
}

/// Which characteristics to use.
pub struct Channels {
    pub model: BleModel,
    pub notify: usize,
    pub write_cmd: usize,
}

/// Whether a characteristic of this service is there.
pub open spec fn has_service(list: Seq<Characteristic>, service: u128) -> bool {
    exists|i: int| 0 <= i < list.len() && (#[trigger] list[i]).service == service
}

/// Whether `i` is the first characteristic with this id.
pub open spec fn is_first(list: Seq<Characteristic>, uuid: u128, i: int) -> bool {
    &&& 0 <= i < list.len()
    &&& list[i].uuid == uuid
    &&& forall|k: int| 0 <= k < i ==> (#[trigger] list[k]).uuid != uuid
}

pub open spec fn has_uuid(list: Seq<Characteristic>, uuid: u128) -> bool {
    exists|i: int| 0 <= i < list.len() && (#[trigger] list[i]).uuid == uuid
}

/// The first model that a device has the service of.
pub open spec fn connected_model(list: Seq<Characteristic>) -> Option<BleModel> {
    if has_service(list, service_uuid(BleModel::NanoX)) {
        Some(BleModel::NanoX)
    } else if has_service(list, service_uuid(BleModel::Stax)) {
        Some(BleModel::Stax)
    } else if has_service(list, service_uuid(BleModel::Flex)) {
        Some(BleModel::Flex)
    } else {
        None
    }
}

fn exposes(list: &[Characteristic], service: u128) -> (r: bool)
    ensures
        r == has_service(list@, service),
{
    let mut i: usize = 0;
    while i < list.len()
        invariant
            i <= list@.len(),
            forall|k: int| 0 <= k < i ==> (#[trigger] list@[k]).service != service,
        decreases list@.len() - i,
    {
        if list[i].service == service {
            return true;
        }
        i = i + 1;
    }
    false
}

fn find_uuid(list: &[Characteristic], uuid: u128) -> (r: Option<usize>)
    ensures
        match r {
            Some(i) => is_first(list@, uuid, i as int),
            None => !has_uuid(list@, uuid),
        },
{
    let mut i: usize = 0;
    while i < list.len()
        invariant
            i <= list@.len(),
            forall|k: int| 0 <= k < i ==> (#[trigger] list@[k]).uuid != uuid,
        decreases list@.len() - i,
    {
        if list[i].uuid == uuid {
            return Some(i);
        }
        i = i + 1;
    }
    None
}

/// Picks the characteristics to talk over.
pub fn pick_channels(list: &[Characteristic]) -> (r: Result<Channels, String>)
    ensures
        match connected_model(list@) {
            None => r matches Err(e) && e@ == "device doesn't expose a known Ledger BLE service"@,
            Some(m) => if !has_uuid(list@, notify_uuid(m)) {
                r matches Err(e) && e@ == model_name(m) + " notify characteristic missing"@
            } else if !has_uuid(list@, write_uuid(m)) {
                r matches Err(e) && e@ == model_name(m) + " write-cmd characteristic missing"@
            } else {
                &&& r matches Ok(c)
                &&& c.model == m
                &&& is_first(list@, notify_uuid(m), c.notify as int)
                &&& is_first(list@, write_uuid(m), c.write_cmd as int)
            },
        },
{
    let model = if exposes(list, BleModel::NanoX.service()) {
        BleModel::NanoX
    } else if exposes(list, BleModel::Stax.service()) {
        BleModel::Stax
    } else if exposes(list, BleModel::Flex.service()) {
        BleModel::Flex
    } else {
        return Err("device doesn't expose a known Ledger BLE service".to_owned());
    };
    let notify = match find_uuid(list, model.notify()) {
        Some(i) => i,
        None => return Err(concat2(model.name(), " notify characteristic missing")),
    };
    let write_cmd = match find_uuid(list, model.write_cmd()) {
        Some(i) => i,
        None => return Err(concat2(model.name(), " write-cmd characteristic missing")),
    };
    Ok(Channels { model, notify, write_cmd })
}

/// What to do next to get connected.
#[derive(Clone, Copy, PartialEq, Eq, Structural)]
pub enum Connect {
    /// Ask whether the session in the cache is still connected.
    ProbeCached,
    /// Drop the session in the cache.
    DropCached,
    /// Get the adapter and look for the device.
    Find,
    /// Ask whether the device that was found is connected already.
    Probe,
    /// Connect to it.
    Link,
    /// Discover its services and open the channels.
    Open,
    /// Nothing: the session can be used.
    Ready,
}

/// What comes after a step. `yes` is the answer where the step asks
/// something: whether there is a session in the cache, at the very start, or
/// whether a device is connected.
pub open spec fn after(done: Option<Connect>, yes: bool) -> Connect {
    match done {
        None => if yes {
            Connect::ProbeCached
        } else {
            Connect::Find
        },
        Some(Connect::ProbeCached) => if yes {
            Connect::Ready
        } else {
            Connect::DropCached
        },
        Some(Connect::DropCached) => Connect::Find,
        Some(Connect::Find) => Connect::Probe,
        Some(Connect::Probe) => if yes {
            Connect::Open
        } else {
            Connect::Link
        },
        Some(Connect::Link) => Connect::Open,
        Some(Connect::Open) => Connect::Ready,
        Some(Connect::Ready) => Connect::Ready,
    }
}

/// What to do next to get connected.
pub fn next_connect_step(done: Option<Connect>, yes: bool) -> (r: Connect)
    ensures
        r == after(done, yes),
{
    match done {
        None => if yes {
            Connect::ProbeCached
        } else {
            Connect::Find
        },
        Some(Connect::ProbeCached) => if yes {
            Connect::Ready
        } else {
            Connect::DropCached
        },
        Some(Connect::DropCached) => Connect::Find,
        Some(Connect::Find) => Connect::Probe,
        Some(Connect::Probe) => if yes {
            Connect::Open
        } else {
            Connect::Link
        },
        Some(Connect::Link) => Connect::Open,
        Some(Connect::Open) => Connect::Ready,
        Some(Connect::Ready) => Connect::Ready,
    }
}

/// How many steps are left at most.
pub open spec fn steps_left(c: Connect) -> nat {
    match c {
        Connect::ProbeCached => 6,
        Connect::DropCached => 5,
        Connect::Find => 4,
        Connect::Probe => 3,
        Connect::Link => 2,
        Connect::Open => 1,
        Connect::Ready => 0,
    }
}

/// Connecting comes to an end, whatever is answered; and a device is only
/// used without being opened anew if the cached session was still connected.
pub proof fn law_connecting_ends(c: Connect, yes: bool)
    ensures
        c != Connect::Ready ==> steps_left(after(Some(c), yes)) < steps_left(c),
        after(Some(c), yes) == Connect::Ready && c != Connect::Ready ==> c == Connect::Open || (c
            == Connect::ProbeCached && yes),
{
}

/// Where a device stands among those that the adapter knows.
pub fn find_device(ids: &Vec<String>, device_id: &str) -> (r: Option<usize>)
    ensures
        match r {
            Some(i) => {
                &&& i < ids@.len()
                &&& ids@[i as int]@ == device_id@
                &&& forall|k: int| 0 <= k < i ==> (#[trigger] ids@[k])@ != device_id@
            },
            None => forall|k: int| 0 <= k < ids@.len() ==> (#[trigger] ids@[k])@ != device_id@,
        },
{
    let mut i: usize = 0;
    while i < ids.len()
        invariant
            i <= ids@.len(),
            forall|k: int| 0 <= k < i ==> (#[trigger] ids@[k])@ != device_id@,
        decreases ids@.len() - i,
    {
        if crate::text::same_text(ids[i].as_str(), device_id) {
            return Some(i);
        }
        i = i + 1;
    }
    None
}

// ── Permission ──

/// Asks for the permission to use Bluetooth only once: the first answer stands.
pub fn init_btleplug(first: &mut Option<Result<(), String>>, answer: Result<(), String>) -> (r:
    Result<(), String>)
    ensures
        *final(first) == (match *old(first) {
            Some(a) => Some(a),
            None => Some(answer),
        }),
        outcome(r) == outcome((*final(first))->Some_0),
{
    if first.is_none() {
        *first = Some(answer);
    }
    match first {
        Some(Ok(())) => Ok(()),
        Some(Err(e)) => Err(e.clone()),
        None => Ok(()),
    }
}

/// What the identifiers of a model have in common: they end in `Ledger`, as
/// letters, and those of the channels follow that of the service at distances
/// one and three in the field before it. No two models share one.
pub proof fn law_identifiers(a: BleModel, b: BleModel)
    ensures
        service_uuid(a) % 0x1_0000_0000_0000 == 0x4c65_6467_6572,
        notify_uuid(a) == service_uuid(a) + 0x1_0000_0000_0000,
        write_uuid(a) == service_uuid(a) + 0x3_0000_0000_0000,
        a != b ==> service_uuid(a) != service_uuid(b),
        model_of_service(service_uuid(a)) == Some(a),
{
}

/// A service is told by its identifier: Stax and Flex have a 6 and a 3 where
/// Nano X has a 0.
pub proof fn law_models_by_service()
    ensures
        service_uuid(BleModel::NanoX) == 0x13d63400_2c97_0004_0000_4c6564676572,
        service_uuid(BleModel::Stax) - service_uuid(BleModel::NanoX) == 0x6000_0000_0000_0000_0000,
        service_uuid(BleModel::Flex) - service_uuid(BleModel::NanoX) == 0x3000_0000_0000_0000_0000,
{
}

/// What a device says of its services goes before its name: the first service
/// that is known decides, and a name decides only where none is.
pub proof fn law_services_decide(services: Seq<u128>, i: int, name: Option<Seq<char>>)
    requires
        0 <= i <= services.len(),
        forall|k: int| 0 <= k < i ==> model_of_service(#[trigger] services[k]) is None,
    ensures
        i < services.len() && model_of_service(services[i]) is Some ==> advertised_model(
            services,
            name,
        ) == model_of_service(services[i]),
        i == services.len() && name is None ==> advertised_model(services, name) is None,
        i == services.len() ==> (name matches Some(n) ==> advertised_model(services, name)
            == model_of_name(n)),
    decreases i,
{
    if i > 0 {
        let rest = services.drop_first();
        assert forall|k: int| 0 <= k < i - 1 implies model_of_service(
            #[trigger] rest[k],
        ) is None by {
            assert(rest[k] == services[k + 1]);
        }
        law_services_decide(rest, i - 1, name);
        assert(model_of_service(services[0]) is None);
    }
}

/// A name that holds the name of one model, and that of no other, tells the
/// model.
pub proof fn law_models_by_name(name: Seq<char>)
    ensures
        contains_text(name, "Nano X"@) ==> model_of_name(name) == Some(BleModel::NanoX),
        contains_text(name, "Stax"@) && !contains_text(name, "Nano X"@) ==> model_of_name(name)
            == Some(BleModel::Stax),
        contains_text(name, "Flex"@) && !contains_text(name, "Nano X"@) && !contains_text(
            name,
            "Stax"@,
        ) ==> model_of_name(name) == Some(BleModel::Flex),
        !contains_text(name, "Nano X"@) && !contains_text(name, "Stax"@) && !contains_text(
            name,
            "Flex"@,
        ) ==> model_of_name(name) is None,
{
}

/// How a session comes about: a device that is not known is looked for,
/// connected to unless it is already, and opened; one that is known and still
/// connected is used as it is, and one that is not is dropped first.
pub proof fn law_how_sessions_come_about(yes: bool)
    ensures
        after(None, true) == Connect::ProbeCached,
        after(None, false) == Connect::Find,
        after(Some(Connect::ProbeCached), true) == Connect::Ready,
        after(Some(Connect::ProbeCached), false) == Connect::DropCached,
        after(Some(Connect::DropCached), yes) == Connect::Find,
        after(Some(Connect::Find), yes) == Connect::Probe,
        after(Some(Connect::Probe), true) == Connect::Open,
        after(Some(Connect::Probe), false) == Connect::Link,
        after(Some(Connect::Link), yes) == Connect::Open,
        after(Some(Connect::Open), yes) == Connect::Ready,
{
}

} // verus!
