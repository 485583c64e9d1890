use node_agent::auth::authorize;

#[test]
fn empty_token_and_empty_secret_rejected() {
    assert!(!authorize(b"", b""));
}

#[test]
fn empty_token_rejected_before_any_comparison() {
    assert!(!authorize(b"", b"secret"));
}

#[test]
fn matching_token_admitted() {
    assert!(authorize(b"sample-bearer-token", b"sample-bearer-token"));
}

#[test]
fn different_length_rejected() {
    assert!(!authorize(b"abc", b"abcd"));
}

#[test]
fn same_length_different_bytes_rejected() {
    assert!(!authorize(b"abcx", b"abcd"));
}

#[test]
fn single_byte_match() {
    assert!(authorize(b"k", b"k"));
    assert!(!authorize(b"k", b"j"));
}
