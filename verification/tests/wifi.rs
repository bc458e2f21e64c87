use networkkit::wifi::{
    active_status, device_state, freq_to_channel, normalize_bssid, parse_network_line,
    parse_network_list, split_terse, Wifi,
};

#[test]
fn splits_terse_lines_with_escapes() {
    assert_eq!(
        split_terse(r"My\:Net\\Work:aa\:bb\:cc\:dd\:ee\:ff:82"),
        vec![
            "My:Net\\Work".to_string(),
            "aa:bb:cc:dd:ee:ff".to_string(),
            "82".to_string(),
        ]
    );
    assert_eq!(split_terse(""), Vec::<String>::new());
    assert_eq!(split_terse("a:b"), vec!["a".to_string(), "b".to_string()]);
}

#[test]
fn normalizes_bssids() {
    assert_eq!(
        normalize_bssid("A0:F3:C1:3B:6F:90"),
        Some("a0:f3:c1:3b:6f:90".to_string())
    );
    assert_eq!(normalize_bssid("a0:f3:c1"), None);
    assert_eq!(normalize_bssid(""), None);
    assert_eq!(normalize_bssid("zz:zz:zz:zz:zz:zz"), None);
}

#[test]
fn parses_network_line() {
    let net = parse_network_line(r"HomeNet:a0\:f3\:c1\:3b\:6f\:90:82:2437:WPA2").unwrap();
    assert_eq!(net.ssid, "HomeNet");
    assert_eq!(net.bssid.as_deref(), Some("a0:f3:c1:3b:6f:90"));
    assert_eq!(net.signal_pct, 82);
    assert_eq!(net.channel(), Some(6));
    assert_eq!(net.security, "WPA2");

    let open = parse_network_line("Cafe::55:5180:").unwrap();
    assert_eq!(open.security, "OPEN");
    assert_eq!(open.bssid, None);
    assert_eq!(open.signal_pct, 55);
}

#[test]
fn rejects_broken_network_lines() {
    assert!(parse_network_line("").is_none());
    assert!(parse_network_line("only:ssid").is_none());
    assert!(parse_network_line("S:bssid:notanumber:2437:WPA2").is_none());
}

#[test]
fn parses_list_sorted_and_deduped() {
    let sample = "SSID:BSSID:SIGNAL:FREQ:SECURITY\n\
HomeNet:a0\\:f3\\:c1\\:3b\\:6f\\:90:64:2437:WPA2\n\
HomeNet:a0\\:f3\\:c1\\:3b\\:6f\\:90:82:2437:WPA2\n\
Cafe:00\\:1c\\:42\\:1f\\:65\\:e9:55:5180:\n\
Weak:11\\:22\\:33\\:44\\:55\\:66:12:2412:WEP\n\
broken-line-without-fields\n";
    let list = parse_network_list(sample);
    assert_eq!(list.len(), 3);
    assert_eq!(list[0].ssid, "HomeNet");
    assert_eq!(list[0].signal_pct, 82);
    assert_eq!(list[1].ssid, "Cafe");
    assert_eq!(list[2].security, "WEP");
}

#[test]
fn maps_frequencies_to_channels() {
    assert_eq!(freq_to_channel(2412), Some(1));
    assert_eq!(freq_to_channel(2437), Some(6));
    assert_eq!(freq_to_channel(2484), Some(14));
    assert_eq!(freq_to_channel(5180), Some(36));
    assert_eq!(freq_to_channel(5500), Some(100));
    assert_eq!(freq_to_channel(9999), None);
}

#[test]
fn channel_edges() {
    assert_eq!(freq_to_channel(2472), Some(13));
    assert_eq!(freq_to_channel(2473), None);
    assert_eq!(freq_to_channel(5160), Some(32));
    assert_eq!(freq_to_channel(5885), Some(177));
    assert_eq!(freq_to_channel(5886), None);
}

#[test]
fn terse_escapes_round_trip() {
    assert_eq!(
        split_terse(r"a\\\:b::c\\"),
        vec!["a\\:b".to_string(), "".to_string(), "c\\".to_string()]
    );
    assert_eq!(split_terse(":"), vec!["".to_string(), "".to_string()]);
}

#[test]
fn network_line_clamps_and_trims() {
    let n = parse_network_line(" Spaced :zz:+150: 2412 : WPA3 :extra").unwrap();
    assert_eq!(n.ssid, "Spaced");
    assert_eq!(n.bssid, None);
    assert_eq!(n.signal_pct, 100);
    assert_eq!(n.frequency_mhz, Some(2412));
    assert_eq!(n.security, "WPA3");
    assert!(!n.known);
    let neg = parse_network_line("x::-5:abc:").unwrap();
    assert_eq!(neg.signal_pct, 0);
    assert_eq!(neg.frequency_mhz, None);
    assert!(parse_network_line("x::99999999999:1:").is_none());
}

#[test]
fn list_sorts_equal_signals_by_ssid() {
    let sample = "HEADER\nbeta::50:2412:\nalpha::50:2412:\nalpha::40:2412:\n";
    let list = parse_network_list(sample);
    assert_eq!(list.len(), 2);
    assert_eq!(list[0].ssid, "alpha");
    assert_eq!(list[0].signal_pct, 50);
    assert_eq!(list[1].ssid, "beta");
    assert!(parse_network_list("").is_empty());
    assert!(parse_network_list("alpha::50:2412:\n").is_empty());
}

#[test]
fn reads_active_status_and_state() {
    let list = "ACTIVE:SSID:BSSID:SIGNAL:FREQ:SECURITY\n\
no:Other:11\\:22\\:33\\:44\\:55\\:66:40:2412:WPA2\n\
yes:HomeNet:A0\\:F3\\:C1\\:3B\\:6F\\:90:77:5180:WPA2\n";
    let st = active_status("wlan0", list).unwrap();
    assert_eq!(st.interface, "wlan0");
    assert_eq!(st.ssid.as_deref(), Some("HomeNet"));
    assert_eq!(st.bssid.as_deref(), Some("a0:f3:c1:3b:6f:90"));
    assert_eq!(st.signal_pct, 77);
    assert_eq!(st.frequency_mhz, Some(5180));
    assert_eq!(st.security, "WPA2");
    assert!(active_status("wlan0", "HEADER\nno:x::1:1:\n").is_none());

    assert_eq!(device_state("wlan0", Some("eth0:connected\nwlan0:connected\n")), "connected");
    assert_eq!(device_state("wlan0", Some("connected\n")), "unknown");
    assert_eq!(device_state("wlan0", None), "unknown");
    let _ = Wifi::new();
}
