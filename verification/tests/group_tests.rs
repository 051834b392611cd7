use ipa_core::group::{encrypt, encrypt_with, Ciphertext, DecryptionKey, PRIME};
use rand::SeedableRng;
use rand_chacha::ChaCha20Rng;

#[test]
fn decrypt_of_encrypt_is_identity() {
    let mut rng = ChaCha20Rng::seed_from_u64(17);
    let key = DecryptionKey::from_scalar(123_456_789);
    let pk = key.public_key();
    for m in [0u64, 1, 7, 1_000_000, PRIME - 1] {
        let c = encrypt(m, &pk, &mut rng);
        assert_eq!(key.decrypt(c), m);
    }
}

#[test]
fn decrypt_of_encrypt_with_fixed_randomness() {
    let key = DecryptionKey::from_scalar(42);
    let pk = key.public_key();
    let c = encrypt_with(1000, &pk, 987_654_321);
    assert_eq!(key.decrypt(c), 1000);
}

#[test]
fn threshold_decrypt_commutes() {
    let mut rng = ChaCha20Rng::seed_from_u64(23);
    let k1 = DecryptionKey::from_scalar(1111);
    let k2 = DecryptionKey::from_scalar(2222);
    let key = DecryptionKey::from_scalar(999);
    let pk = key.public_key();
    let c = encrypt(31337, &pk, &mut rng);
    let ab = k2.threshold_decrypt(k1.threshold_decrypt(c));
    let ba = k1.threshold_decrypt(k2.threshold_decrypt(c));
    assert_eq!(ab, ba);
}

#[test]
fn partial_then_full_decryption_recovers_plaintext() {
    // The full secret is the sum of the two holders' shares modulo
    // the group order; stripping one share and then decrypting with
    // the other recovers the plaintext.
    let mut rng = ChaCha20Rng::seed_from_u64(29);
    let s1: u64 = 1_000_000_007;
    let s2: u64 = 998_244_353;
    let full = DecryptionKey::from_scalar((s1 + s2) % PRIME);
    let k1 = DecryptionKey::from_scalar(s1);
    let k2 = DecryptionKey::from_scalar(s2);
    let pk = full.public_key();
    let m = 424_242u64;
    let c = encrypt(m, &pk, &mut rng);
    let partially = k1.threshold_decrypt(c);
    assert_eq!(k2.decrypt(partially), m);
}

#[test]
fn ciphertext_equality_is_structural() {
    let a = Ciphertext { c1: 1, c2: 2 };
    let b = Ciphertext { c1: 1, c2: 2 };
    let c = Ciphertext { c1: 1, c2: 3 };
    assert_eq!(a, b);
    assert_ne!(a, c);
}
