//! The authentication gate: equality of a presented bearer token with the
//! configured secret.

use vstd::prelude::*;

verus! {

/// A presented token is admitted exactly when it is non-empty and equals the
/// configured secret byte for byte. An empty token is always rejected, even
/// against an empty secret.
pub open spec fn authorized(token: Seq<u8>, secret: Seq<u8>) -> bool {
    token.len() > 0 && token == secret
}

/// A token is authorized exactly when it is non-empty, has the secret's
/// length, and agrees with it at every index. In particular an empty token
/// is never authorized, not even against an empty secret.
pub proof fn lemma_authorized_bytewise(token: Seq<u8>, secret: Seq<u8>)
    ensures
        authorized(token, secret) <==> (token.len() > 0 && token.len() == secret.len() && (forall|
            i: int,
        |
            0 <= i < token.len() ==> token[i] == secret[i])),
        !authorized(Seq::<u8>::empty(), Seq::<u8>::empty()),
{
    if token.len() > 0 && token.len() == secret.len() && (forall|i: int|
        0 <= i < token.len() ==> token[i] == secret[i]) {
        assert(token =~= secret);
    }
}

/// Decides whether a presented bearer token is admitted: the token must be
/// non-empty, of the same length as the secret, and equal to it byte for
/// byte. The length and emptiness tests come before any byte is compared.
pub fn authorize(token: &[u8], secret: &[u8]) -> (admitted: bool)
    ensures
        admitted == authorized(token@, secret@),
{
    if token.len() != secret.len() || token.len() == 0 {
        return false;
    }
    let mut i: usize = 0;
    while i < token.len()
        invariant
            0 <= i <= token@.len(),
            token@.len() == secret@.len(),
            token@.len() > 0,
            forall|j: int| 0 <= j < i ==> token@[j] == secret@[j],
        decreases token@.len() - i,
    {
        if token[i] != secret[i] {
            return false;
        }
        i = i + 1;
    }
    proof {
        assert(token@ =~= secret@);
    }
    true
}

} // verus!
