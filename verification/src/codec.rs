//! The byte encoding of the fields of a complaint: SCALE.
use parity_scale_codec::Encode;
use vstd::prelude::*;

verus! {

/// The four bytes of a number, the lowest first.
pub open spec fn u32_bytes(x: u32) -> Seq<u8> {
    seq![
        (x % 0x100) as u8,
        (x / 0x100 % 0x100) as u8,
        (x / 0x1_0000 % 0x100) as u8,
        (x / 0x100_0000) as u8,
    ]
}

/// Calls `parity_scale_codec::Encode::encode` on a `u32`. It gives the four bytes of the
/// number, the lowest first.
#[verifier::external_body]
pub(crate) fn encode_u32(x: u32) -> (bytes: Vec<u8>)
    ensures
        bytes@ == u32_bytes(x),
{
    x.encode()
}

/// Calls `parity_scale_codec::Encode::encode` on a `[u8; 32]`. It gives the bytes of the
/// array, with no length before them.
#[verifier::external_body]
pub(crate) fn encode_digest(digest: &[u8; 32]) -> (bytes: Vec<u8>)
    ensures
        bytes@ == digest@,
{
    digest.encode()
}

/// Four bytes belong to one number only.
pub(crate) proof fn lemma_u32_bytes_injective(x: u32, y: u32)
    requires
        u32_bytes(x) == u32_bytes(y),
    ensures
        x == y,
{
    assert(u32_bytes(x)[0] == u32_bytes(y)[0]);
    assert(u32_bytes(x)[1] == u32_bytes(y)[1]);
    assert(u32_bytes(x)[2] == u32_bytes(y)[2]);
    assert(u32_bytes(x)[3] == u32_bytes(y)[3]);
}

/// The bytes of a number weigh 1, 2^8, 2^16 and 2^24, and add up to it.
pub proof fn law_u32_bytes_add_up(x: u32)
    ensures
        u32_bytes(x).len() == 4,
        x == u32_bytes(x)[0] + 0x100 * u32_bytes(x)[1] + 0x1_0000 * u32_bytes(x)[2] + 0x100_0000
            * u32_bytes(x)[3],
{
}

} // verus!
