//! Path secrets, kept in memory that is wiped when they are dropped.
use secrecy::{ExposeSecret, SecretVec};
use vstd::prelude::*;

verus! {

/// A path secret. It is a `secrecy::SecretVec<u8>`, which wipes its bytes on drop and shows
/// them only when asked to.
#[verifier::external_body]
pub struct PathSecret {
    inner: SecretVec<u8>,
}

/// The bytes that a path secret holds.
pub uninterp spec fn secret_bytes(secret: PathSecret) -> Seq<u8>;

impl View for PathSecret {
    type V = Seq<u8>;

    open spec fn view(&self) -> Seq<u8> {
        secret_bytes(*self)
    }
}

/// Calls `secrecy::Secret::new`. The secret holds the bytes that it was made from.
#[verifier::external_body]
fn wrap(bytes: Vec<u8>) -> (secret: PathSecret)
    ensures
        secret_bytes(secret) == bytes@,
{
    PathSecret { inner: SecretVec::new(bytes) }
}

/// Calls `secrecy::ExposeSecret::expose_secret` on a `secrecy::Secret`. It hands out the
/// bytes that the secret holds.
#[verifier::external_body]
fn expose(secret: &PathSecret) -> (bytes: &Vec<u8>)
    ensures
        bytes@ == secret_bytes(*secret),
{
    secret.inner.expose_secret()
}

impl PathSecret {
    /// The secret with the given bytes.
    pub fn new(bytes: Vec<u8>) -> (secret: PathSecret)
        ensures
            secret@ == bytes@,
    {
        wrap(bytes)
    }

    /// The bytes of the secret.
    pub fn expose_secret(&self) -> (bytes: &Vec<u8>)
        ensures
            bytes@ == self@,
    {
        expose(self)
    }
}

} // verus!
