use networkkit::bluetooth::{Adapter, Bluetooth, Device, DeviceFilter};
use networkkit::bluetooth_client::{BluetoothStep, SessionLine};
use networkkit::localnet::{Address, Interface, IpAddress, Ipv4Address};
use networkkit::types::NetworkError;
use networkkit::util::{rfkill_blocked, run, CommandOutput, RfkillEntry};
use networkkit::wifi::{Wifi, WifiNetwork};
use networkkit::wifi_client::WifiStep;

fn session_lines(step: BluetoothStep<impl Sized>) -> Vec<(String, u64)> {
    match step {
        BluetoothStep::Session(lines) => lines
            .into_iter()
            .map(|l: SessionLine| (l.command, l.delay_ms))
            .collect(),
        _ => panic!("expected a session"),
    }
}

fn adapter(powered: bool) -> Adapter {
    Adapter {
        name: "hci0".to_string(),
        address: "00:1A:7D:DA:71:13".to_string(),
        alias: "desk".to_string(),
        powered,
        discovering: false,
        pairable: true,
    }
}

fn device(paired: bool, connected: bool) -> Device {
    Device {
        address: "AA:BB:CC:DD:EE:FF".to_string(),
        name: Some("Buds".to_string()),
        paired,
        trusted: paired,
        connected,
        rssi_pct: None,
    }
}

#[test]
fn bluetooth_steps_require_availability() {
    let bt = Bluetooth::new();
    assert!(matches!(
        bt.adapter(false, None, "hci0"),
        BluetoothStep::Done(Err(NetworkError::NotAvailable))
    ));
    assert!(matches!(
        bt.devices(DeviceFilter::All, false, None),
        BluetoothStep::Done(Err(NetworkError::NotAvailable))
    ));
    assert!(matches!(
        bt.connect("AA:BB:CC:DD:EE:FF", false, None, None, false),
        BluetoothStep::Done(Err(NetworkError::NotAvailable))
    ));
    assert!(matches!(
        bt.remove_device("AA:BB:CC:DD:EE:FF", false, None),
        BluetoothStep::Done(Err(NetworkError::NotAvailable))
    ));
}

#[test]
fn adapter_runs_show_then_parses() {
    let bt = Bluetooth::new();
    match bt.adapter(true, None, "hci0") {
        BluetoothStep::Run(args) => assert_eq!(args, vec!["--".to_string(), "show".to_string()]),
        _ => panic!("expected a run"),
    }
    let text = "Controller 00:1A:7D:DA:71:13 (public)\n\tAlias: desk\n\tPowered: yes\n";
    match bt.adapter(true, Some(Ok(text.to_string())), "hci0") {
        BluetoothStep::Done(Ok(a)) => {
            assert_eq!(a.name, "hci0");
            assert_eq!(a.address, "00:1A:7D:DA:71:13");
            assert_eq!(a.alias, "desk");
            assert!(a.powered);
        }
        _ => panic!("expected the adapter"),
    }
    let failed = bt.adapter(true, Some(Err(NetworkError::CommandFailed("x".into()))), "hci0");
    assert!(matches!(failed, BluetoothStep::Done(Err(NetworkError::CommandFailed(m))) if m == "x"));
}

#[test]
fn set_powered_checks_reported_state() {
    let bt = Bluetooth::new();
    assert_eq!(
        session_lines(bt.set_powered(true, true, None, None)),
        vec![("power on".to_string(), 400)]
    );
    assert_eq!(
        session_lines(bt.set_powered(false, true, None, None)),
        vec![("power off".to_string(), 400)]
    );
    assert!(matches!(
        bt.set_powered(true, true, Some(Ok(String::new())), None),
        BluetoothStep::ReadAdapter
    ));
    assert!(matches!(
        bt.set_powered(true, true, Some(Ok(String::new())), Some(Ok(adapter(true)))),
        BluetoothStep::Done(Ok(()))
    ));
    assert!(matches!(
        bt.set_powered(true, true, Some(Ok(String::new())), Some(Ok(adapter(false)))),
        BluetoothStep::Done(Err(NetworkError::PermissionDenied))
    ));
    assert!(matches!(
        bt.set_powered(true, true, Some(Err(NetworkError::Timeout)), None),
        BluetoothStep::Done(Err(NetworkError::Timeout))
    ));
}

#[test]
fn devices_session_follows_filter() {
    let bt = Bluetooth::new();
    assert_eq!(
        session_lines(bt.devices(DeviceFilter::Paired, true, None)),
        vec![("devices Paired".to_string(), 300)]
    );
    assert_eq!(
        session_lines(bt.devices(DeviceFilter::Connected, true, None)),
        vec![("devices Connected".to_string(), 300)]
    );
    let listing = "Device AA:BB:CC:DD:EE:FF Buds\nnoise\nDevice 00:11:22:33:44:55 Mouse\n";
    match bt.devices(DeviceFilter::All, true, Some(Ok(listing.to_string()))) {
        BluetoothStep::Done(Ok(v)) => {
            assert_eq!(v.len(), 2);
            assert_eq!(v[0].address, "AA:BB:CC:DD:EE:FF");
            assert_eq!(v[1].name.as_deref(), Some("Mouse"));
        }
        _ => panic!("expected devices"),
    }
}

#[test]
fn discover_session_and_merge() {
    let bt = Bluetooth::new();
    assert_eq!(
        session_lines(bt.discover(10, true, None)),
        vec![
            ("scan on".to_string(), 500),
            (String::new(), 10_000),
            ("scan off".to_string(), 400),
            ("devices".to_string(), 300),
        ]
    );
    let text = "[NEW] Device AA:BB:CC:DD:EE:FF Buds\n\
                [CHG] Device 00:11:22:33:44:55 RSSI: -60\n\
                [CHG] Device AA:BB:CC:DD:EE:FF RSSI: -90\n\
                Device 00:11:22:33:44:55 Mouse\n";
    match bt.discover(10, true, Some(Ok(text.to_string()))) {
        BluetoothStep::Done(Ok(v)) => {
            assert_eq!(v.len(), 2);
            assert_eq!(v[0].address, "00:11:22:33:44:55");
            assert_eq!(v[0].rssi_pct, Some(80));
            assert_eq!(v[0].name.as_deref(), Some("Mouse"));
            assert_eq!(v[1].rssi_pct, Some(20));
        }
        _ => panic!("expected devices"),
    }
}

#[test]
fn device_info_reports_unknown_address() {
    let bt = Bluetooth::new();
    match bt.device_info("AA:BB:CC:DD:EE:FF", true, None) {
        BluetoothStep::Run(args) => assert_eq!(
            args,
            vec!["--".to_string(), "info".to_string(), "AA:BB:CC:DD:EE:FF".to_string()]
        ),
        _ => panic!("expected a run"),
    }
    let missing = bt.device_info(
        "AA:BB:CC:DD:EE:FF",
        true,
        Some(Ok("Waiting to connect to bluetoothd...\n".to_string())),
    );
    assert!(matches!(
        missing,
        BluetoothStep::Done(Err(NetworkError::ParseError(m))) if m == "no such device AA:BB:CC:DD:EE:FF"
    ));
    let info = "Device AA:BB:CC:DD:EE:FF (public)\n\tName: Buds\n\tPaired: yes\n";
    match bt.device_info("AA:BB:CC:DD:EE:FF", true, Some(Ok(info.to_string()))) {
        BluetoothStep::Done(Ok(d)) => {
            assert_eq!(d.address, "AA:BB:CC:DD:EE:FF");
            assert!(d.paired);
        }
        _ => panic!("expected the device"),
    }
}

#[test]
fn pair_polls_until_paired_or_timeout() {
    let bt = Bluetooth::new();
    let addr = "AA:BB:CC:DD:EE:FF";
    assert_eq!(
        session_lines(bt.pair(addr, true, None, None, false)),
        vec![
            ("pair AA:BB:CC:DD:EE:FF".to_string(), 300),
            ("trust AA:BB:CC:DD:EE:FF".to_string(), 200),
        ]
    );
    let done = Some(Ok(String::new()));
    assert!(matches!(
        bt.pair(addr, true, done.clone(), None, false),
        BluetoothStep::ReadDevice(a) if a == addr
    ));
    assert!(matches!(
        bt.pair(addr, true, done.clone(), Some(Ok(device(false, false))), false),
        BluetoothStep::Wait(500)
    ));
    assert!(matches!(
        bt.pair(addr, true, done.clone(), Some(Ok(device(true, false))), true),
        BluetoothStep::Done(Ok(d)) if d.paired
    ));
    assert!(matches!(
        bt.pair(addr, true, done.clone(), None, true),
        BluetoothStep::Done(Err(NetworkError::Timeout))
    ));
    assert!(matches!(
        bt.pair(addr, true, done, Some(Err(NetworkError::NotAvailable)), false),
        BluetoothStep::Done(Err(NetworkError::NotAvailable))
    ));
}

#[test]
fn connect_waits_for_connected_flag() {
    let bt = Bluetooth::new();
    let addr = "AA:BB:CC:DD:EE:FF";
    assert_eq!(
        session_lines(bt.connect(addr, true, None, None, false)),
        vec![("connect AA:BB:CC:DD:EE:FF".to_string(), 300)]
    );
    let done = Some(Ok(String::new()));
    assert!(matches!(
        bt.connect(addr, true, done.clone(), Some(Ok(device(true, false))), false),
        BluetoothStep::Wait(500)
    ));
    assert!(matches!(
        bt.connect(addr, true, done, Some(Ok(device(true, true))), false),
        BluetoothStep::Done(Ok(d)) if d.connected
    ));
}

#[test]
fn disconnect_and_remove_succeed_after_session() {
    let bt = Bluetooth::new();
    let addr = "AA:BB:CC:DD:EE:FF";
    assert_eq!(
        session_lines(bt.disconnect(addr, true, None)),
        vec![("disconnect AA:BB:CC:DD:EE:FF".to_string(), 600)]
    );
    assert_eq!(
        session_lines(bt.remove_device(addr, true, None)),
        vec![("remove AA:BB:CC:DD:EE:FF".to_string(), 600)]
    );
    assert!(matches!(
        bt.disconnect(addr, true, Some(Ok("whatever".to_string()))),
        BluetoothStep::Done(Ok(()))
    ));
    assert!(matches!(
        bt.remove_device(addr, true, Some(Err(NetworkError::Timeout))),
        BluetoothStep::Done(Err(NetworkError::Timeout))
    ));
}

fn entry(kind: &str, hard: &str, soft: &str) -> RfkillEntry {
    RfkillEntry {
        type_text: Some(format!("{}\n", kind)),
        hard: Some(format!("{}\n", hard)),
        soft: Some(format!("{}\n", soft)),
    }
}

#[test]
fn rfkill_first_entry_of_kind_decides() {
    let entries = vec![entry("wlan", "0", "0"), entry("bluetooth", "0", "1"), entry("bluetooth", "0", "0")];
    assert_eq!(rfkill_blocked(&entries, "bluetooth"), Some(true));
    assert_eq!(rfkill_blocked(&entries, "wlan"), Some(false));
    assert_eq!(rfkill_blocked(&entries, "nfc"), None);
    assert_eq!(rfkill_blocked(&Vec::new(), "wlan"), None);
    assert_eq!(Bluetooth::new().radio_blocked(&entries), Some(true));
    assert_eq!(Wifi::new().radio_blocked(&vec![entry("wlan", "1", "0")]), Some(true));
    let unreadable = RfkillEntry { type_text: Some("wlan".to_string()), hard: None, soft: None };
    assert_eq!(rfkill_blocked(&vec![unreadable], "wlan"), Some(false));
}

#[test]
fn run_passes_output_or_reports_failure() {
    let ok = CommandOutput { success: true, code: Some(0), stdout: b"hello\n".to_vec(), stderr: vec![] };
    assert_eq!(run("nmcli", Ok(ok)).unwrap(), "hello\n");
    let failed = CommandOutput { success: false, code: Some(2), stdout: vec![], stderr: b" boom \n".to_vec() };
    assert!(matches!(run("nmcli", Ok(failed)), Err(NetworkError::CommandFailed(m)) if m == "nmcli: boom"));
    let silent = CommandOutput { success: false, code: None, stdout: vec![], stderr: vec![] };
    assert!(matches!(run("ip", Ok(silent)), Err(NetworkError::CommandFailed(m)) if m == "ip: exit code -1"));
    assert!(matches!(run("ip", Err(NetworkError::NotAvailable)), Err(NetworkError::NotAvailable)));
}

#[test]
fn wifi_availability_needs_interface_and_nmcli() {
    let wifi = Wifi::new();
    assert!(wifi.is_available(&Some("wlan0".to_string()), true));
    assert!(!wifi.is_available(&None, true));
    assert!(!wifi.is_available(&Some("wlan0".to_string()), false));
}

#[test]
fn wifi_scan_prefers_daemon() {
    let wifi = Wifi::new();
    assert!(matches!(wifi.scan(None), WifiStep::AskDaemon));
    let known = WifiNetwork {
        ssid: "Home".to_string(),
        bssid: None,
        signal_pct: 70,
        frequency_mhz: Some(2412),
        security: "WPA2".to_string(),
        known: true,
    };
    match wifi.scan(Some(Ok(vec![known]))) {
        WifiStep::Done(Ok(v)) => assert!(v[0].known),
        _ => panic!("expected the daemon list"),
    }
    assert!(matches!(wifi.scan(Some(Err(NetworkError::NotAvailable))), WifiStep::ReadDirect));
    assert!(matches!(wifi.status(Some(Err(NetworkError::Timeout))), WifiStep::ReadDirect));
    assert!(matches!(wifi.status(Some(Ok(None))), WifiStep::Done(Ok(None))));
}

#[test]
fn wifi_scan_direct_arguments_and_parse() {
    let wifi = Wifi::new();
    assert!(matches!(
        wifi.scan_direct(true, false, None),
        WifiStep::Done(Err(NetworkError::NotAvailable))
    ));
    match wifi.scan_direct(true, true, None) {
        WifiStep::Nmcli(args) => {
            assert_eq!(args.len(), 10);
            assert_eq!(args[4], "SSID,BSSID,SIGNAL,FREQ,SECURITY");
            assert_eq!(&args[8..], &["--rescan".to_string(), "yes".to_string()]);
        }
        _ => panic!("expected nmcli"),
    }
    match wifi.scan_direct(false, true, None) {
        WifiStep::Nmcli(args) => assert_eq!(args.last().map(String::as_str), Some("list")),
        _ => panic!("expected nmcli"),
    }
    let text = "SSID:BSSID:SIGNAL:FREQ:SECURITY\nHome:A0\\:F3\\:C1\\:3B\\:6F\\:90:82:5180:WPA2\nCafe::40:2412:\n";
    match wifi.scan_direct(false, true, Some(Ok(text.to_string()))) {
        WifiStep::Done(Ok(v)) => {
            assert_eq!(v.len(), 2);
            assert_eq!(v[0].ssid, "Home");
            assert_eq!(v[1].security, "OPEN");
            assert!(!v[0].known);
        }
        _ => panic!("expected networks"),
    }
}

fn wlan0(ip: Option<[u8; 4]>) -> Interface {
    Interface {
        name: "wlan0".to_string(),
        index: 3,
        mac: None,
        state: "UP".to_string(),
        up: true,
        wireless: true,
        ipv4: ip
            .map(|o| vec![Address { ip: IpAddress::V4(Ipv4Address::new(o[0], o[1], o[2], o[3])), prefix_len: 24 }])
            .unwrap_or_default(),
        ipv6: vec![],
    }
}

#[test]
fn wifi_status_direct_steps() {
    let wifi = Wifi::new();
    let iface = Some("wlan0".to_string());
    assert!(matches!(
        wifi.status_direct(true, None, None, None, None),
        WifiStep::Done(Err(NetworkError::NotAvailable))
    ));
    match wifi.status_direct(true, iface.clone(), None, None, None) {
        WifiStep::Nmcli(args) => {
            assert_eq!(args[4], "ACTIVE,SSID,BSSID,SIGNAL,FREQ,SECURITY");
            assert_eq!(&args[8..], &["ifname".to_string(), "wlan0".to_string()]);
        }
        _ => panic!("expected nmcli"),
    }
    let idle = "ACTIVE:SSID:BSSID:SIGNAL:FREQ:SECURITY\nno:Cafe::40:2412:\n".to_string();
    assert!(matches!(
        wifi.status_direct(true, iface.clone(), Some(Ok(idle)), None, None),
        WifiStep::Done(Ok(None))
    ));
    let active =
        Some(Ok("ACTIVE:SSID:BSSID:SIGNAL:FREQ:SECURITY\nyes:Home:A0\\:F3\\:C1\\:3B\\:6F\\:90:82:5180:WPA2\n".to_string()));
    match wifi.status_direct(true, iface.clone(), active.clone(), None, None) {
        WifiStep::Nmcli(args) => assert_eq!(
            args,
            vec!["--terse", "-f", "DEVICE,STATE", "device", "status"]
                .into_iter()
                .map(String::from)
                .collect::<Vec<_>>()
        ),
        _ => panic!("expected nmcli"),
    }
    let states = Some(Ok("lo:unmanaged\nwlan0:connected\n".to_string()));
    assert!(matches!(
        wifi.status_direct(true, iface.clone(), active.clone(), states.clone(), None),
        WifiStep::ListInterfaces
    ));
    match wifi.status_direct(true, iface.clone(), active.clone(), states, Some(Ok(vec![wlan0(Some([192, 168, 1, 20]))]))) {
        WifiStep::Done(Ok(Some(st))) => {
            assert_eq!(st.interface, "wlan0");
            assert_eq!(st.ssid.as_deref(), Some("Home"));
            assert_eq!(st.bssid.as_deref(), Some("a0:f3:c1:3b:6f:90"));
            assert_eq!(st.signal_pct, 82);
            assert_eq!(st.frequency_mhz, Some(5180));
            assert_eq!(st.state, "connected");
            assert_eq!(st.ipv4.as_deref(), Some("192.168.1.20"));
        }
        _ => panic!("expected a status"),
    }
    match wifi.status_direct(
        true,
        iface,
        active,
        Some(Err(NetworkError::NotAvailable)),
        Some(Err(NetworkError::NotAvailable)),
    ) {
        WifiStep::Done(Ok(Some(st))) => {
            assert_eq!(st.state, "unknown");
            assert_eq!(st.ipv4, None);
        }
        _ => panic!("expected a status"),
    }
}
