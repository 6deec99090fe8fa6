//! The crate's trusted boundary: the few outside calls the node needs —
//! a hash for tokens, random values for identifiers, and a clock.

use vstd::prelude::*;

verus! {

/// The SHA-1 digest of a byte string: a fixed function of its input alone,
/// left unstated here because writing it out would prove nothing.
pub uninterp spec fn sha1_of(data: Seq<u8>) -> Seq<u8>;

/// Relies on sha1::Sha1 (the `Digest::digest` one-shot): the digest is a
/// function of the input bytes alone and is 20 bytes long.
#[verifier::external_body]
pub fn sha1_bytes(data: &Vec<u8>) -> (r: Vec<u8>)
    ensures
        r@ == sha1_of(data@),
        r@.len() == 20,
{
    let digest = <sha1::Sha1 as sha1::Digest>::digest(data.as_slice());
    digest.to_vec()
}

/// Relies on rand::random: one byte drawn from the thread-local
/// generator. Nothing can be promised of the value.
#[verifier::external_body]
pub fn random_u8() -> u8 {
    rand::random::<u8>()
}

/// Relies on rand::random: a 16-bit transaction id drawn from the
/// thread-local generator. Nothing can be promised of the value.
#[verifier::external_body]
pub fn random_u16() -> u16 {
    rand::random::<u16>()
}

/// Relies on std::time::SystemTime::now: seconds since the Unix epoch,
/// or zero if the system clock sits before it. Nothing can be promised
/// of the value.
#[verifier::external_body]
pub fn now_secs() -> u64 {
    match std::time::SystemTime::now().duration_since(std::time::UNIX_EPOCH) {
        Ok(d) => d.as_secs(),
        Err(_) => 0,
    }
}

/// Twenty bytes drawn from the process-wide generator: a fresh identifier
/// or token secret.
pub fn random_bytes20() -> (r: Vec<u8>)
    ensures
        r@.len() == 20,
{
    let mut bytes: Vec<u8> = Vec::new();
    let mut i: usize = 0;
    while i < 20
        invariant
            i <= 20,
            bytes@.len() == i,
        decreases 20 - i,
    {
        bytes.push(random_u8());
        i = i + 1;
    }
    bytes
}

} // verus!
