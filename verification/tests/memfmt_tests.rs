use node_agent::handlers::passthrough_args;
use node_agent::memfmt::{format_gib, mem_usage_string, render_u64};

#[test]
fn whole_gib_values_render_with_two_decimals() {
    assert_eq!(format_gib(0), b"0.00GiB".to_vec());
    assert_eq!(format_gib(1073741824), b"1.00GiB".to_vec());
    assert_eq!(format_gib(2147483648), b"2.00GiB".to_vec());
}

#[test]
fn fractional_gib_values_round_to_hundredths() {
    assert_eq!(format_gib(1610612736), b"1.50GiB".to_vec());
    assert_eq!(format_gib(536870912), b"0.50GiB".to_vec());
    assert_eq!(format_gib(805306368), b"0.75GiB".to_vec());
    assert_eq!(format_gib(279172874), b"0.26GiB".to_vec());
}

#[test]
fn usage_joins_used_and_total_with_a_slash() {
    assert_eq!(
        mem_usage_string(2147483648, 8589934592),
        b"2.00GiB/8.00GiB".to_vec()
    );
}

#[test]
fn decimal_rendering_is_exact() {
    assert_eq!(render_u64(0), b"0".to_vec());
    assert_eq!(render_u64(9), b"9".to_vec());
    assert_eq!(render_u64(10), b"10".to_vec());
    assert_eq!(render_u64(18446744073709551615), b"18446744073709551615".to_vec());
}

#[test]
fn passthrough_args_keep_strings_in_order_and_drop_the_rest() {
    let items = vec![
        Some(b"-4".to_vec()),
        None,
        Some(b"example.com".to_vec()),
        None,
    ];
    let args = passthrough_args(items);
    assert_eq!(args, vec![b"-4".to_vec(), b"example.com".to_vec()]);
}

#[test]
fn passthrough_args_empty() {
    let args = passthrough_args(vec![]);
    assert_eq!(args.len(), 0);
}
