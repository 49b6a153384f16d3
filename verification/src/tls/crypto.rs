//! X25519 key agreement and a time-seeded byte generator.

use vstd::prelude::*;
use ring::agreement::{EphemeralPrivateKey, PublicKey};
use crate::tls::errors::DecodeError;
use crate::tls::errors::TlsResult;

verus! {

#[verifier::external_type_specification]
#[verifier::external_body]
pub struct ExEphemeralPrivateKey(EphemeralPrivateKey);

#[verifier::external_type_specification]
#[verifier::external_body]
pub struct ExPublicKey(PublicKey);

/// Relies on ring's X25519 agreement: `EphemeralPrivateKey::generate`
/// draws a fresh private key from the system RNG and
/// `compute_public_key` derives its public half. Both values are
/// opaque here; nothing is promised of them beyond the pairing the
/// call performs.
#[verifier::external_body]
pub fn create_paired_keys() -> (r: TlsResult<(EphemeralPrivateKey, PublicKey), DecodeError>) {
    let rnd = ring::rand::SystemRandom::new();
    let priv_key = ring::agreement::EphemeralPrivateKey::generate(&ring::agreement::X25519, &rnd)
        .map_err(|_x| DecodeError::CryptoError("cannot generate agreement of X25519".into()))?;
    let pub_key = priv_key
        .compute_public_key()
        .map_err(|_x| DecodeError::CryptoError("cannot compute public key of X25519".into()))?;
    Ok((priv_key, pub_key))
}

/// Relies on ring's `agree_ephemeral`: performs the X25519 agreement
/// between our private key and the peer's raw public key, discarding
/// the shared material. Succeeds or fails at ring's discretion;
/// nothing more is promised.
#[verifier::external_body]
pub fn generate_peer_key(peer_pub_key: &[u8; 32], priv_key: EphemeralPrivateKey) -> (r: TlsResult<
    (),
    DecodeError,
>) {
    let peer_public_key = ring::agreement::UnparsedPublicKey::new(
        &ring::agreement::X25519,
        peer_pub_key,
    );
    let _x = ring::agreement::agree_ephemeral(priv_key, &peer_public_key, |_key_material| {})
        .map_err(|_x| DecodeError::CryptoError("cannot generate peer key of X25519".into()))?;
    Ok(())
}

/// Relies on std's system clock: the nanoseconds since the epoch, or
/// zero if the clock reads earlier than the epoch. The value depends
/// on the moment of the call; nothing is promised of it.
#[verifier::external_body]
fn unix_nanos() -> (r: u128) {
    match std::time::SystemTime::now().duration_since(std::time::UNIX_EPOCH) {
        Ok(d) => d.as_nanos(),
        Err(_) => 0,
    }
}

/// Thirty-two bytes mixed from the current time, none of them zero.
pub fn create_random_u8_32() -> (r: Vec<u8>)
    ensures
        r@.len() == 32,
        forall|i: int| 0 <= i < 32 ==> r@[i] != 0,
{
    let mut seed = unix_nanos();
    let mut buf: Vec<u8> = Vec::new();
    let mut i: usize = 0;
    while i < 32
        invariant
            0 <= i <= 32,
            buf@.len() == i,
            forall|k: int| 0 <= k < i ==> buf@[k] != 0,
        decreases 32 - i,
    {
        seed = seed ^ ((seed << 13) | (seed >> 115));
        let b = (seed % 256) as u8;
        if b == 0 {
            buf.push(128);
        } else {
            buf.push(b);
        }
        i = i + 1;
    }
    buf
}

} // verus!
