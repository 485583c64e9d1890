use node_agent::netdev::parse_net_dev;

const HEADERS: &str = "Inter-|   Receive                                                |  Transmit\n face |bytes    packets errs drop fifo frame compressed multicast|bytes    packets errs drop fifo colls carrier compressed\n";

#[test]
fn one_data_line_yields_the_four_counters() {
    let text = format!(
        "{}  eth0: 100 2 0 0 0 0 0 0 300 4 0 0 0 0 0 0\n",
        HEADERS
    );
    let records = parse_net_dev(text.as_bytes());
    assert_eq!(records.len(), 1);
    assert_eq!(records[0].name, b"eth0".to_vec());
    assert_eq!(records[0].receive_bytes, 100);
    assert_eq!(records[0].receive_packets, 2);
    assert_eq!(records[0].transmit_bytes, 300);
    assert_eq!(records[0].transmit_packets, 4);
}

#[test]
fn short_data_line_is_omitted() {
    let text = format!(
        "{}  eth0: 100 2 0 0 0 0 0 0 300 4 0 0 0 0 0 0\n  bad0: 1 2 3\n",
        HEADERS
    );
    let records = parse_net_dev(text.as_bytes());
    assert_eq!(records.len(), 1);
    assert_eq!(records[0].name, b"eth0".to_vec());
}

#[test]
fn unparseable_field_defaults_to_zero() {
    let text = format!(
        "{}  eth0: junk 2 0 0 0 0 0 0 300 4 0 0 0 0 0 0\n",
        HEADERS
    );
    let records = parse_net_dev(text.as_bytes());
    assert_eq!(records.len(), 1);
    assert_eq!(records[0].receive_bytes, 0);
    assert_eq!(records[0].receive_packets, 2);
}

#[test]
fn header_lines_are_skipped_unconditionally() {
    let records = parse_net_dev(HEADERS.as_bytes());
    assert_eq!(records.len(), 0);
}

#[test]
fn records_keep_line_order() {
    let text = format!(
        "{}  lo: 1 1 0 0 0 0 0 0 1 1 0 0 0 0 0 0\n  eth0: 2 2 0 0 0 0 0 0 2 2 0 0 0 0 0 0\n",
        HEADERS
    );
    let records = parse_net_dev(text.as_bytes());
    assert_eq!(records.len(), 2);
    assert_eq!(records[0].name, b"lo".to_vec());
    assert_eq!(records[1].name, b"eth0".to_vec());
}

#[test]
fn overflowing_counter_defaults_to_zero() {
    let text = format!(
        "{}  eth0: 99999999999999999999999 2 0 0 0 0 0 0 300 4 0 0 0 0 0 0\n",
        HEADERS
    );
    let records = parse_net_dev(text.as_bytes());
    assert_eq!(records.len(), 1);
    assert_eq!(records[0].receive_bytes, 0);
}
