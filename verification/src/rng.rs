use vstd::prelude::*;

verus! {

/// The cryptographic random-number generator used to seed secret
/// shares and ElGamal encryption randomness. The generator's state is
/// opaque to the verifier; every contract downstream holds for every
/// value it may produce.
#[verifier::external_type_specification]
#[verifier::external_body]
pub struct ExChaCha20Rng(rand_chacha::ChaCha20Rng);

/// Relies on rand_core's `Rng::next_u64` as implemented by
/// `rand_chacha::ChaCha20Rng`: returns the next 64 bits of the stream.
/// Nothing can be promised of a random value.
#[verifier::external_body]
pub(crate) fn next_random_u64(rng: &mut rand_chacha::ChaCha20Rng) -> u64 {
    rand::Rng::next_u64(rng)
}

/// Relies on uuid's `Uuid::new_v4` and `Uuid::as_u128`: a freshly
/// generated version-4 identifier, carried as its 128-bit value.
/// Nothing can be promised of a random identifier.
#[verifier::external_body]
pub(crate) fn fresh_correlation_id() -> u128 {
    uuid::Uuid::new_v4().as_u128()
}

} // verus!
