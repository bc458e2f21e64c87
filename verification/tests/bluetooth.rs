use networkkit::bluetooth::{
    collect_devices, controller_name, device_command, device_info_from_output, discovered_devices,
    normalize_address, parse_device_event, parse_info_output, parse_show_output, power_command,
    power_outcome, rssi_to_pct, Bluetooth, DeviceFilter,
};
use networkkit::types::NetworkError;

#[test]
fn normalizes_addresses() {
    assert_eq!(
        normalize_address("aa:bb:cc:dd:ee:ff"),
        Some("AA:BB:CC:DD:EE:FF".to_string())
    );
    assert_eq!(
        normalize_address("AA-BB-CC-DD-EE-FF"),
        Some("AA:BB:CC:DD:EE:FF".to_string())
    );
    assert_eq!(normalize_address("nope"), None);
    assert_eq!(normalize_address(""), None);
}

#[test]
fn parses_plain_and_new_device_lines() {
    let plain = parse_device_event("Device AA:BB:CC:DD:EE:FF Galaxy Buds").unwrap();
    assert_eq!(plain.address, "AA:BB:CC:DD:EE:FF");
    assert_eq!(plain.name.as_deref(), Some("Galaxy Buds"));

    let new = parse_device_event("[NEW] Device 00:11:22:33:44:55 ThinkPad Keyboard").unwrap();
    assert_eq!(new.address, "00:11:22:33:44:55");
    assert_eq!(new.name.as_deref(), Some("ThinkPad Keyboard"));
}

#[test]
fn parses_rssi_change_events() {
    let chg = parse_device_event("[CHG] Device AA:BB:CC:DD:EE:FF RSSI: -63").unwrap();
    assert_eq!(chg.address, "AA:BB:CC:DD:EE:FF");
    assert_eq!(chg.rssi_pct, Some(74));
    assert!(chg.name.is_none());

    assert!(parse_device_event("[CHG] Device AA:BB:CC:DD:EE:FF Connected: yes").is_none());
}

#[test]
fn rssi_conversion_clamps() {
    assert_eq!(rssi_to_pct(-40), 100);
    assert_eq!(rssi_to_pct(-75), 50);
    assert_eq!(rssi_to_pct(-110), 0);
}

#[test]
fn parses_info_output() {
    let sample = "\
Device AA:BB:CC:DD:EE:FF (public)
\tName: Pixel 7
\tAlias: Pixel 7
\tPaired: yes
\tBonded: yes
\tTrusted: no
\tBlocked: no
\tLegacyPairing: no
\tConnected: yes
\tRSSI: -52
";

    let device = parse_info_output(sample);
    assert_eq!(device.address, "AA:BB:CC:DD:EE:FF");
    assert_eq!(device.name.as_deref(), Some("Pixel 7"));
    assert!(device.paired);
    assert!(!device.trusted);
    assert!(device.connected);
    assert_eq!(device.rssi_pct, Some(96));
}

#[test]
fn parses_show_output() {
    let sample = "\
Controller AA:BB:CC:DD:EE:FF (public)
\tName: BlueZ 5.66
\tAlias: tontoo-box
\tClass: 0x00000000
\tPowered: yes
\tPairable: yes
\tUUIDs: Headset Audio Gateway
\tModalias: usb:v1D6Bp0246d0540
\tDiscovering: no
";

    let adapter = parse_show_output(sample, "hci0");
    assert_eq!(adapter.address, "AA:BB:CC:DD:EE:FF");
    assert_eq!(adapter.alias, "tontoo-box");
    assert_eq!(adapter.name, "hci0");
    assert!(adapter.powered);
    assert!(adapter.pairable);
    assert!(!adapter.discovering);
}

#[test]
fn collect_dedupes_nothing_here_but_parses_lines() {
    let sample = "Device AA:BB:CC:DD:EE:FF One\nDevice 11:22:33:44:55:66 Two\njunk\n";
    let devices = collect_devices(sample);
    assert_eq!(devices.len(), 2);
    assert_eq!(devices[1].address, "11:22:33:44:55:66");
}

#[test]
fn rssi_conversion_boundaries() {
    assert_eq!(rssi_to_pct(-50), 100);
    assert_eq!(rssi_to_pct(-100), 0);
    assert_eq!(rssi_to_pct(-99), 2);
    assert_eq!(rssi_to_pct(i32::MAX), 100);
    assert_eq!(rssi_to_pct(i32::MIN), 0);
}

#[test]
fn normalizing_twice_changes_nothing() {
    let once = normalize_address("  0a-1b-2c-3d-4e-5f ").unwrap();
    assert_eq!(once, "0A:1B:2C:3D:4E:5F");
    assert_eq!(normalize_address(&once), Some(once.clone()));
    assert_eq!(normalize_address("aa:bb:cc:dd:ee"), None);
    assert_eq!(normalize_address("aa:bb-cc:dd:ee:ff"), None);
    assert_eq!(normalize_address("gg:bb:cc:dd:ee:ff"), None);
}

#[test]
fn device_event_without_property_keeps_address() {
    let d = parse_device_event("Device AA:BB:CC:DD:EE:FF").unwrap();
    assert_eq!(d.address, "AA:BB:CC:DD:EE:FF");
    assert!(d.name.is_none());
    assert!(d.rssi_pct.is_none());
    assert!(parse_device_event("[DEL] Device zz").is_none());
    assert!(parse_device_event("[CHG] Device AA:BB:CC:DD:EE:FF RSSI: weak").is_none());
}

#[test]
fn info_output_keeps_first_name_and_address() {
    let sample = "Device 11:22:33:44:55:66\nAlias: Second\nName: First\nDevice AA:BB:CC:DD:EE:FF\n";
    let d = parse_info_output(sample);
    assert_eq!(d.address, "11:22:33:44:55:66");
    assert_eq!(d.name.as_deref(), Some("Second"));
    assert_eq!(d.rssi_pct, None);
}

#[test]
fn discovery_merges_events_and_sorts_by_signal() {
    let session = "\
[NEW] Device AA:BB:CC:DD:EE:FF Phone
[CHG] Device AA:BB:CC:DD:EE:FF RSSI: -90
[NEW] Device 11:22:33:44:55:66 Speaker
[CHG] Device 11:22:33:44:55:66 RSSI: -60
[CHG] Device AA:BB:CC:DD:EE:FF Connected: no
Device 99:88:77:66:55:44 Watch
[CHG] Device AA:BB:CC:DD:EE:FF RSSI: -70
";
    let devices = discovered_devices(session);
    assert_eq!(devices.len(), 3);
    assert_eq!(devices[0].address, "11:22:33:44:55:66");
    assert_eq!(devices[0].rssi_pct, Some(80));
    assert_eq!(devices[0].name.as_deref(), Some("Speaker"));
    assert_eq!(devices[1].address, "AA:BB:CC:DD:EE:FF");
    assert_eq!(devices[1].rssi_pct, Some(60));
    assert_eq!(devices[1].name.as_deref(), Some("Phone"));
    assert_eq!(devices[2].address, "99:88:77:66:55:44");
    assert_eq!(devices[2].rssi_pct, None);
}

#[test]
fn device_info_reports_unknown_devices() {
    match device_info_from_output("AA:BB:CC:DD:EE:FF", "No default controller available\n") {
        Err(NetworkError::ParseError(msg)) => assert_eq!(msg, "no such device AA:BB:CC:DD:EE:FF"),
        other => panic!("unexpected {:?}", other),
    }
    let ok = device_info_from_output("x", "Device 00:11:22:33:44:55\nPaired: yes\n").unwrap();
    assert!(ok.paired);
    assert_eq!(ok.address, "00:11:22:33:44:55");
}

#[test]
fn session_commands() {
    assert_eq!(DeviceFilter::All.command(), "devices");
    assert_eq!(DeviceFilter::Paired.command(), "devices Paired");
    assert_eq!(DeviceFilter::Connected.command(), "devices Connected");
    assert_eq!(device_command("pair", "AA:BB"), "pair AA:BB");
    assert_eq!(power_command(true), "power on");
    assert_eq!(power_command(false), "power off");
    assert!(power_outcome(true, true).is_ok());
    assert!(matches!(power_outcome(true, false), Err(NetworkError::PermissionDenied)));
    let _ = Bluetooth::new();
}

#[test]
fn picks_controller_name() {
    let names = vec!["hci0:11".to_string(), "rfkill3".to_string(), "hci1".to_string(), "hci0".to_string()];
    assert_eq!(controller_name(&names), "hci1");
    assert_eq!(controller_name(&vec!["hci0:64".to_string()]), "hci");
    assert_eq!(controller_name(&Vec::new()), "hci");
}
