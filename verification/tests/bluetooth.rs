//! Bluetooth devices.

use fistbump_wallet::ledger::ble::{
    find_device, identify, init_btleplug, model_for_name, model_for_service, next_connect_step,
    pick_channels, scan_secs, BleModel, Characteristic, Connect,
};

#[test]
fn models_are_known_by_service_and_name() {
    assert!(matches!(
        model_for_service(0x13d634002c97000400004c6564676572),
        Some(BleModel::NanoX)
    ));
    assert!(model_for_service(1).is_none());
    assert!(matches!(model_for_name("My Stax 2"), Some(BleModel::Stax)));
    assert!(model_for_name("stax").is_none());
}

#[test]
fn scanned_devices_are_identified() {
    let flex = BleModel::Flex.service();
    let d = identify("id".to_string(), &[7, flex], None).unwrap();
    assert_eq!((d.id.as_str(), d.name.as_str(), d.model.as_str()), ("id", "Ledger Flex", "Flex"));
    let d = identify("id".to_string(), &[], Some("Nano X 12".to_string())).unwrap();
    assert_eq!((d.name.as_str(), d.model.as_str()), ("Nano X 12", "Nano X"));
    assert!(identify("id".to_string(), &[7], Some("Headphones".to_string())).is_none());
    assert_eq!(scan_secs(0), 5);
    assert_eq!(scan_secs(9), 9);
}

#[test]
fn channels_are_picked() {
    let m = BleModel::Stax;
    let list = [
        Characteristic { service: 1, uuid: 2 },
        Characteristic { service: m.service(), uuid: m.write_cmd() },
        Characteristic { service: m.service(), uuid: m.notify() },
    ];
    let c = pick_channels(&list).ok().unwrap();
    assert_eq!((c.notify, c.write_cmd), (2, 1));
    assert!(c.model == BleModel::Stax);
    assert_eq!(
        pick_channels(&list[..1]).err(),
        Some("device doesn't expose a known Ledger BLE service".to_string())
    );
    assert_eq!(
        pick_channels(&list[..2]).err(),
        Some("Stax notify characteristic missing".to_string())
    );
    assert_eq!(
        pick_channels(&list[2..]).err(),
        Some("Stax write-cmd characteristic missing".to_string())
    );
}

#[test]
fn connecting_takes_its_steps() {
    assert!(next_connect_step(None, false) == Connect::Find);
    assert!(next_connect_step(None, true) == Connect::ProbeCached);
    assert!(next_connect_step(Some(Connect::ProbeCached), true) == Connect::Ready);
    assert!(next_connect_step(Some(Connect::ProbeCached), false) == Connect::DropCached);
    let mut step = next_connect_step(None, false);
    let mut n = 0;
    while step != Connect::Ready {
        step = next_connect_step(Some(step), false);
        n += 1;
    }
    assert_eq!(n, 4);
}

#[test]
fn devices_are_found_by_id() {
    let ids = vec!["a".to_string(), "b".to_string(), "b".to_string()];
    assert_eq!(find_device(&ids, "b"), Some(1));
    assert_eq!(find_device(&ids, "c"), None);
}

#[test]
fn permission_is_asked_for_once() {
    let mut first = None;
    assert_eq!(init_btleplug(&mut first, Err("no".to_string())), Err("no".to_string()));
    assert_eq!(init_btleplug(&mut first, Ok(())), Err("no".to_string()));
}
