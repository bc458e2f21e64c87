use networkkit::localnet::{
    broadcast_address, broadcast_targets, interface_ipv4, interfaces_from_entries,
    merge_mdns_records, neighbor_line, neighbor_table, subnet_hosts, sweep_targets, Address, AddrInfoEntry,
    DiscoverySource, Interface, IpAddress, IpAddressEntry, Ipv4Address, LocalNetwork,
};
use networkkit::mdns::{build_query, parse_response, query_packet, read_name, read_u16, MdnsRecord, TYPE_A, TYPE_PTR};

fn v4(a: u8, b: u8, c: u8, d: u8) -> Ipv4Address {
    Ipv4Address::new(a, b, c, d)
}

#[test]
fn computes_broadcast_addresses() {
    assert_eq!(
        broadcast_address(v4(192, 168, 1, 10), 24),
        Some(v4(192, 168, 1, 255))
    );
    assert_eq!(
        broadcast_address(v4(10, 0, 128, 200), 17),
        Some(v4(10, 0, 255, 255))
    );
    assert_eq!(
        broadcast_address(v4(192, 168, 1, 1), 0),
        Some(v4(255, 255, 255, 255))
    );
    assert_eq!(broadcast_address(v4(1, 1, 1, 1), 33), None);
}

#[test]
fn enumerates_subnet_hosts() {
    let hosts = subnet_hosts(v4(192, 168, 1, 7));
    assert_eq!(hosts.len(), 254);
    assert_eq!(hosts[0], v4(192, 168, 1, 1));
    assert_eq!(hosts[253], v4(192, 168, 1, 254));

    let hosts = subnet_hosts(v4(10, 20, 30, 40));
    assert_eq!(hosts[0], v4(10, 20, 30, 1));
}

#[test]
fn broadcast_of_host_prefix_is_the_address() {
    assert_eq!(broadcast_address(v4(10, 1, 2, 3), 32), Some(v4(10, 1, 2, 3)));
    assert_eq!(broadcast_address(v4(10, 1, 2, 3), 8), Some(v4(10, 255, 255, 255)));
}

#[test]
fn formats_and_splits_ipv4() {
    let a = v4(192, 168, 1, 42);
    assert_eq!(a.octets(), [192, 168, 1, 42]);
    assert_eq!(a.to_text(), "192.168.1.42");
    assert_eq!(v4(0, 0, 0, 0).to_text(), "0.0.0.0");
    assert_eq!(v4(255, 9, 10, 100).to_text(), "255.9.10.100");
    assert!(v4(127, 0, 0, 1).is_loopback());
    assert!(!a.is_loopback());
}

fn entry(name: &str, flags: &[&str], mac: Option<&str>, addrs: Vec<AddrInfoEntry>) -> IpAddressEntry {
    IpAddressEntry {
        ifindex: 1,
        ifname: name.to_string(),
        operstate: "UP".to_string(),
        flags: flags.iter().map(|f| f.to_string()).collect(),
        address: mac.map(|m| m.to_string()),
        addr_info: addrs,
    }
}

fn info(ip: IpAddress, prefixlen: u8) -> AddrInfoEntry {
    AddrInfoEntry { local: Some(ip), prefixlen }
}

fn sample_interfaces() -> Vec<Interface> {
    let entries = vec![
        entry("lo", &["LOOPBACK", "UP"], Some("00:00:00:00:00:00"), vec![info(IpAddress::V4(v4(127, 0, 0, 1)), 8)]),
        entry(
            "wlan0",
            &["BROADCAST", "UP"],
            Some("aa:f3:c1:3b:6f:90"),
            vec![
                info(IpAddress::V4(v4(192, 168, 1, 23)), 24),
                info(IpAddress::V6(0xfe80_0000_0000_0000_0000_0000_0000_1234), 64),
                AddrInfoEntry { local: None, prefixlen: 3 },
            ],
        ),
        entry("eth0", &["BROADCAST"], Some("none"), vec![info(IpAddress::V4(v4(10, 0, 0, 5)), 8)]),
    ];
    interfaces_from_entries(&entries)
}

#[test]
fn builds_interfaces_from_entries() {
    let ifs = sample_interfaces();
    assert_eq!(ifs.len(), 3);
    assert!(ifs[0].up);
    assert!(!ifs[0].wireless);
    assert_eq!(ifs[1].mac.as_deref(), Some("aa:f3:c1:3b:6f:90"));
    assert_eq!(ifs[1].ipv4.len(), 1);
    assert_eq!(ifs[1].ipv4[0].prefix_len, 24);
    assert_eq!(ifs[1].ipv6.len(), 1);
    assert!(!ifs[2].up);
    assert_eq!(ifs[2].mac, None);
    assert_eq!(interface_ipv4("wlan0", &ifs).as_deref(), Some("192.168.1.23"));
    assert_eq!(interface_ipv4("wlan9", &ifs), None);
}

#[test]
fn broadcast_targets_skip_down_and_loopback() {
    let ifs = sample_interfaces();
    assert_eq!(broadcast_targets(&ifs), vec![v4(192, 168, 1, 255)]);
}

#[test]
fn sweep_targets_are_sorted_unique_and_capped() {
    let ifs = sample_interfaces();
    let targets = sweep_targets(&ifs);
    assert_eq!(targets.len(), 254);
    assert_eq!(targets[0], v4(192, 168, 1, 1));
    let mut many = Vec::new();
    for k in 0..6u8 {
        many.push(info(IpAddress::V4(v4(10, 0, 5 - k, 9)), 24));
    }
    many.push(info(IpAddress::V4(v4(10, 0, 0, 77)), 24));
    let e = vec![entry("eth1", &["UP"], None, many)];
    let targets = sweep_targets(&interfaces_from_entries(&e));
    assert_eq!(targets.len(), 1024);
    assert_eq!(targets[0], v4(10, 0, 0, 1));
    assert_eq!(targets[254], v4(10, 0, 1, 1));
    assert!(targets.windows(2).all(|w| w[0].bits < w[1].bits));
}

#[test]
fn splits_neighbor_lines() {
    let reachable =
        neighbor_line("192.168.1.1 dev wlan0 lladdr AA:BB:CC:DD:EE:FF REACHABLE").unwrap();
    assert_eq!(reachable.ip, "192.168.1.1");
    assert_eq!(reachable.device, "wlan0");
    assert_eq!(reachable.mac.as_deref(), Some("aa:bb:cc:dd:ee:ff"));
    assert_eq!(reachable.state, "REACHABLE");

    let stale = neighbor_line("fe80::1 dev eth0 lladdr 11:22:33:44:55:66 router stale").unwrap();
    assert_eq!(stale.ip, "fe80::1");
    assert_eq!(stale.state, "STALE");

    let failed = neighbor_line("192.168.1.99 dev eth0 FAILED").unwrap();
    assert_eq!(failed.mac, None);
    assert!(failed.is_failed());

    assert!(neighbor_line("").is_none());
    assert!(neighbor_line("192.168.1.5 lladdr aa:bb:cc:dd:ee:ff").is_none());
    let _ = LocalNetwork::new();
}

#[test]
fn builds_query_packet() {
    let packet = build_query("_http._tcp", 0x1234).unwrap();
    assert_eq!(&packet[..2], &[0x12, 0x34]);
    assert_eq!(&packet[2..4], &[0x00, 0x00]);
    assert_eq!(&packet[4..6], &[0x00, 0x01]);

    let question = &packet[12..];
    assert_eq!(question[0], 5);
    assert_eq!(&question[1..6], b"_http");
    assert!(packet.windows(4).any(|w| w == b"_tcp"));
    assert!(packet.windows(5).any(|w| w == b"local"));
    assert_eq!(&packet[packet.len() - 4..], &[0x00, 12, 0x00, 0x01]);
}

#[test]
fn rejects_bad_labels() {
    assert!(build_query("", 1).is_none());
    assert!(build_query(&"a".repeat(80), 1).is_none());
}

#[test]
fn query_trims_trailing_dots_and_rejects_empty_labels() {
    let p = build_query("_ipp._tcp..", 7).unwrap();
    assert_eq!(p.len(), 12 + 1 + 4 + 1 + 4 + 1 + 5 + 1 + 4);
    assert!(build_query("a..b", 7).is_none());
    assert_eq!(read_name(&p, 12), Some(("_ipp._tcp.local".to_string(), p.len() - 4)));
}

fn sample_response() -> Vec<u8> {
    let mut response = Vec::new();
    response.extend_from_slice(&[0xAB, 0xCD]);
    response.extend_from_slice(&[0x84, 0x00]);
    response.extend_from_slice(&[0x00, 0x00]);
    response.extend_from_slice(&[0x00, 0x02]);
    response.extend_from_slice(&[0x00, 0x00, 0x00, 0x00]);

    response.push(5);
    response.extend_from_slice(b"_http");
    response.push(4);
    response.extend_from_slice(b"_tcp");
    response.push(5);
    response.extend_from_slice(b"local");
    response.push(0);
    response.extend_from_slice(&12u16.to_be_bytes());
    response.extend_from_slice(&1u16.to_be_bytes());
    response.extend_from_slice(&120u32.to_be_bytes());

    let target = vec![
        7u8, b'p', b'r', b'i', b'n', b't', b'e', b'r', 5, b'_', b'h', b't', b't', b'p', 4,
        b'_', b't', b'c', b'p', 5, b'l', b'o', b'c', b'a', b'l', 0,
    ];
    response.extend_from_slice(&(target.len() as u16).to_be_bytes());
    response.extend_from_slice(&target);

    response.push(7);
    response.extend_from_slice(b"printer");
    response.push(0xC0);
    response.push(12);
    response.extend_from_slice(&1u16.to_be_bytes());
    response.extend_from_slice(&1u16.to_be_bytes());
    response.extend_from_slice(&120u32.to_be_bytes());
    response.extend_from_slice(&4u16.to_be_bytes());
    response.extend_from_slice(&[192, 168, 1, 42]);
    response
}

#[test]
fn parses_response_with_ptr_and_a() {
    let response = sample_response();
    let records = parse_response(&response);
    assert_eq!(records.len(), 2);

    assert_eq!(records[0].record_type, TYPE_PTR);
    assert_eq!(
        records[0].ptr_target.as_deref(),
        Some("printer._http._tcp.local")
    );

    assert_eq!(records[1].record_type, TYPE_A);
    assert_eq!(records[1].ipv4, Some(v4(192, 168, 1, 42)));
    assert_eq!(records[1].owner, "printer._http._tcp.local");
}

#[test]
fn malformed_packets_return_empty() {
    assert!(parse_response(&[]).is_empty());
    assert!(parse_response(&[0, 1, 2]).is_empty());
    assert!(parse_response(&[0u8; 12]).is_empty());
}

#[test]
fn truncated_response_keeps_complete_records() {
    let response = sample_response();
    let cut = &response[..response.len() - 2];
    let records = parse_response(cut);
    assert_eq!(records.len(), 1);
    assert_eq!(read_u16(&response, 6), Some(2));
    assert_eq!(read_u16(&response, response.len() - 1), None);
    let mut looped = vec![0u8; 12];
    looped.extend_from_slice(&[0xC0, 12]);
    assert_eq!(read_name(&looped, 12), None);
}

#[test]
fn merges_mdns_records_into_hosts() {
    let records = parse_response(&sample_response());
    let hosts = merge_mdns_records(records);
    assert_eq!(hosts.len(), 1);
    assert_eq!(hosts[0].name.as_deref(), Some("printer"));
    assert_eq!(hosts[0].address, IpAddress::V4(v4(192, 168, 1, 42)));
    assert_eq!(hosts[0].source, DiscoverySource::Mdns);

    let extra = vec![
        MdnsRecord { owner: "zeta.local".to_string(), record_type: 16, ptr_target: None, ipv4: None },
        MdnsRecord { owner: "_x._tcp.local".to_string(), record_type: 12, ptr_target: Some("b.local".to_string()), ipv4: None },
        MdnsRecord { owner: "_x._tcp.local".to_string(), record_type: 12, ptr_target: Some("a.local".to_string()), ipv4: None },
        MdnsRecord { owner: "c.local".to_string(), record_type: 1, ptr_target: None, ipv4: Some(v4(10, 0, 0, 3)) },
    ];
    let hosts = merge_mdns_records(extra);
    assert_eq!(hosts.len(), 3);
    assert_eq!(hosts[0].name, None);
    assert_eq!(hosts[0].address, IpAddress::V4(v4(10, 0, 0, 3)));
    assert_eq!(hosts[1].name.as_deref(), Some("a"));
    assert_eq!(hosts[2].name.as_deref(), Some("b"));
    let _ = Address { ip: IpAddress::V4(v4(1, 2, 3, 4)), prefix_len: 8 };
}

#[test]
fn neighbor_table_drops_failed_and_fieldless_lines() {
    let text = "192.168.1.1 dev wlan0 lladdr AA:BB:CC:DD:EE:FF REACHABLE\n\
                192.168.1.99 dev eth0 FAILED\n\
                garbage\n\
                fe80::1 dev eth0 lladdr 11:22:33:44:55:66 router STALE\n";
    let table = neighbor_table(text);
    assert_eq!(table.len(), 2);
    assert_eq!(table[0].ip, "192.168.1.1");
    assert_eq!(table[0].mac.as_deref(), Some("aa:bb:cc:dd:ee:ff"));
    assert_eq!(table[1].ip, "fe80::1");
    assert_eq!(table[1].state, "STALE");
    assert!(neighbor_table("").is_empty());
}

#[test]
fn query_packet_names_bad_services() {
    assert_eq!(query_packet("_http._tcp", 7).unwrap(), build_query("_http._tcp", 7).unwrap());
    let long = "x".repeat(64);
    match query_packet(&long, 7) {
        Err(networkkit::types::NetworkError::ParseError(m)) => {
            assert_eq!(m, format!("invalid service name {}", long))
        }
        _ => panic!("expected a parse error"),
    }
}

#[test]
fn neighbor_line_fields_of_original_inputs() {
    let reachable =
        neighbor_line("192.168.1.1 dev wlan0 lladdr AA:BB:CC:DD:EE:FF REACHABLE").unwrap();
    assert_eq!(reachable.ip, "192.168.1.1");
    assert_eq!(reachable.device, "wlan0");
    assert_eq!(reachable.mac.as_deref(), Some("aa:bb:cc:dd:ee:ff"));
    assert_eq!(reachable.state, "REACHABLE");

    let stale = neighbor_line("fe80::1 dev eth0 lladdr 11:22:33:44:55:66 router STALE").unwrap();
    assert_eq!(stale.ip, "fe80::1");
    assert_eq!(stale.state, "STALE");

    let incomplete = neighbor_line("192.168.1.99 dev eth0 INCOMPLETE").unwrap();
    assert_eq!(incomplete.mac, None);
    assert_eq!(incomplete.state, "INCOMPLETE");

    assert!(neighbor_line("").is_none());
    // The address stays text here; the neighbor table reader drops lines
    // whose address does not parse as an IP address.
    let not_ip = neighbor_line("not-an-ip dev eth0 STALE").unwrap();
    assert_eq!(not_ip.ip, "not-an-ip");
}

#[test]
fn query_name_reads_back() {
    let p = build_query("_http._tcp.", 0x0102).unwrap();
    assert_eq!(read_name(&p, 12), Some(("_http._tcp.local".to_string(), p.len() - 4)));
    assert_eq!(&p[p.len() - 4..], &[0, 12, 0, 1]);
}
