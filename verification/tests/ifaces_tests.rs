use node_agent::ifaces::parse_interfaces;

#[test]
fn two_interface_sample_in_order() {
    let text = b"1: lo: <LOOPBACK,UP,LOWER_UP> mtu 65536\n    inet 127.0.0.1/8 scope host lo\n2: eth0: <BROADCAST,MULTICAST,UP> mtu 1500\n    link/ether aa:bb:cc:dd:ee:ff brd ff:ff:ff:ff:ff:ff\n    inet 10.0.0.5/24 brd 10.0.0.255 scope global eth0\n";
    let records = parse_interfaces(text);
    assert_eq!(records.len(), 2);
    assert_eq!(records[0].name, b"lo".to_vec());
    assert_eq!(records[0].ipv4, Some(b"127.0.0.1/8".to_vec()));
    assert_eq!(records[0].ipv6, None);
    assert_eq!(records[0].mac, None);
    assert_eq!(records[1].name, b"eth0".to_vec());
    assert_eq!(records[1].mac, Some(b"aa:bb:cc:dd:ee:ff".to_vec()));
    assert_eq!(records[1].ipv4, Some(b"10.0.0.5/24".to_vec()));
    assert_eq!(records[1].ipv6, None);
}

#[test]
fn inet6_line_populates_ipv6_only() {
    let text = b"1: lo: <LOOPBACK>\n    inet6 ::1/128 scope host\n";
    let records = parse_interfaces(text);
    assert_eq!(records.len(), 1);
    assert_eq!(records[0].ipv6, Some(b"::1/128".to_vec()));
    assert_eq!(records[0].ipv4, None);
}

#[test]
fn empty_input_yields_no_records() {
    let records = parse_interfaces(b"");
    assert_eq!(records.len(), 0);
}

#[test]
fn record_closes_at_next_numbered_line() {
    let text = b"3: wlan0: <UP>\n    inet 192.168.1.9/24\n4: docker0: <DOWN>\n";
    let records = parse_interfaces(text);
    assert_eq!(records.len(), 2);
    assert_eq!(records[0].name, b"wlan0".to_vec());
    assert_eq!(records[0].ipv4, Some(b"192.168.1.9/24".to_vec()));
    assert_eq!(records[1].name, b"docker0".to_vec());
    assert_eq!(records[1].ipv4, None);
}

#[test]
fn non_numbered_colon_line_does_not_start_a_record() {
    let text = b"1: eth1: <UP>\n    link/ether 00:11:22:33:44:55 brd ff:ff:ff:ff:ff:ff\n";
    let records = parse_interfaces(text);
    assert_eq!(records.len(), 1);
    assert_eq!(records[0].name, b"eth1".to_vec());
    assert_eq!(records[0].mac, Some(b"00:11:22:33:44:55".to_vec()));
}

#[test]
fn later_address_line_replaces_earlier() {
    let text = b"1: eth2: <UP>\n    inet 10.0.0.1/24\n    inet 10.0.0.2/24\n";
    let records = parse_interfaces(text);
    assert_eq!(records.len(), 1);
    assert_eq!(records[0].ipv4, Some(b"10.0.0.2/24".to_vec()));
}
