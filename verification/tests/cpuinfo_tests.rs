use node_agent::cpuinfo::{parse_cpu_info, parse_mhz_milli};

#[test]
fn two_physical_ids_yield_two_records() {
    let text = b"processor\t: 0\nphysical id\t: 0\nmodel name\t: Demo CPU\n\n\
processor\t: 1\nphysical id\t: 0\nmodel name\t: Demo CPU\n\n\
processor\t: 2\nphysical id\t: 1\nmodel name\t: Demo CPU\n\n\
processor\t: 3\nphysical id\t: 1\nmodel name\t: Demo CPU\n";
    let records = parse_cpu_info(text, 4);
    assert_eq!(records.len(), 2);
    for rec in &records {
        assert_eq!(rec.logical_cpu_count, 4);
    }
    assert_eq!(records[0].physical_id, b"0".to_vec());
    assert_eq!(records[1].physical_id, b"1".to_vec());
}

#[test]
fn missing_model_name_defaults_to_unknown() {
    let text = b"physical id: 0\nvendor_id: DemoVendor\n";
    let records = parse_cpu_info(text, 1);
    assert_eq!(records.len(), 1);
    assert_eq!(records[0].model, b"Unknown".to_vec());
    assert_eq!(records[0].vendor_id, b"DemoVendor".to_vec());
}

#[test]
fn missing_vendor_defaults_to_unknown_and_missing_mhz_to_zero() {
    let text = b"physical id: 0\nmodel name: Demo CPU\n";
    let records = parse_cpu_info(text, 1);
    assert_eq!(records.len(), 1);
    assert_eq!(records[0].vendor_id, b"Unknown".to_vec());
    assert_eq!(records[0].frequency_mhz_milli, 0);
}

#[test]
fn first_block_per_physical_id_wins() {
    let text = b"physical id: 0\nmodel name: First\n\nphysical id: 0\nmodel name: Second\n";
    let records = parse_cpu_info(text, 2);
    assert_eq!(records.len(), 1);
    assert_eq!(records[0].model, b"First".to_vec());
}

#[test]
fn trailing_block_without_blank_line_is_flushed_once() {
    let text = b"physical id: 7\nmodel name: Tail CPU";
    let records = parse_cpu_info(text, 1);
    assert_eq!(records.len(), 1);
    assert_eq!(records[0].physical_id, b"7".to_vec());
    assert_eq!(records[0].model, b"Tail CPU".to_vec());
}

#[test]
fn block_without_physical_id_yields_nothing() {
    let text = b"processor: 0\nmodel name: Demo CPU\n\n";
    let records = parse_cpu_info(text, 1);
    assert_eq!(records.len(), 0);
}

#[test]
fn frequency_is_parsed_in_thousandths_of_mhz() {
    let text = b"physical id: 0\ncpu MHz: 3392.363\n";
    let records = parse_cpu_info(text, 1);
    assert_eq!(records.len(), 1);
    assert_eq!(records[0].frequency_mhz_milli, 3392363);
}

#[test]
fn mhz_field_variants() {
    assert_eq!(parse_mhz_milli(b"2400"), 2400000);
    assert_eq!(parse_mhz_milli(b"2400."), 2400000);
    assert_eq!(parse_mhz_milli(b"2400.5"), 2400500);
    assert_eq!(parse_mhz_milli(b"2400.25"), 2400250);
    assert_eq!(parse_mhz_milli(b"2400.123999"), 2400123);
    assert_eq!(parse_mhz_milli(b"not a number"), 0);
    assert_eq!(parse_mhz_milli(b""), 0);
    assert_eq!(parse_mhz_milli(b"1.2.3"), 0);
}

#[test]
fn later_key_line_in_a_block_replaces_earlier() {
    let text = b"physical id: 0\nmodel name: Old\nmodel name: New\n";
    let records = parse_cpu_info(text, 1);
    assert_eq!(records.len(), 1);
    assert_eq!(records[0].model, b"New".to_vec());
}
