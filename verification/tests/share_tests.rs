use ipa_core::share::{combine_u32, combine_u64, split_u32, split_u64, SecretShare, SHARE_COUNT};
use rand::SeedableRng;
use rand_chacha::ChaCha20Rng;

#[test]
fn split_combine_round_trips_u64() {
    let mut rng = ChaCha20Rng::seed_from_u64(7);
    for v in [0u64, 1, 42, 0xdead_beef, u64::MAX - 1, u64::MAX] {
        let s = split_u64(v, &mut rng);
        assert_eq!(s.shares().len(), SHARE_COUNT);
        assert_eq!(combine_u64(&s).unwrap(), v);
    }
}

#[test]
fn split_combine_round_trips_u32() {
    let mut rng = ChaCha20Rng::seed_from_u64(11);
    for v in [0u32, 1, 1234, u32::MAX] {
        let s = split_u32(v, &mut rng);
        assert_eq!(combine_u32(&s).unwrap(), v);
    }
}

#[test]
fn combine_rejects_wrong_cardinality() {
    let s = SecretShare::from_shares(vec![1, 2]);
    assert_eq!(combine_u64(&s), Err(ipa_core::error::Error::Combine));
    let s = SecretShare::from_shares(vec![1, 2, 3, 4]);
    assert_eq!(combine_u64(&s), Err(ipa_core::error::Error::Combine));
    let s = SecretShare::from_shares(vec![1, 2]);
    assert_eq!(combine_u32(&s), Err(ipa_core::error::Error::Combine));
}

#[test]
fn combine_u32_rejects_out_of_range() {
    // Three shares that wrap to a value above u32::MAX.
    let s = SecretShare::from_shares(vec![u32::MAX as u64 + 1, 0, 0]);
    assert_eq!(combine_u32(&s), Err(ipa_core::error::Error::TypeConversion));
}

#[test]
fn different_rng_states_give_different_shares() {
    let mut rng1 = ChaCha20Rng::seed_from_u64(1);
    let mut rng2 = ChaCha20Rng::seed_from_u64(2);
    let a = split_u64(99, &mut rng1);
    let b = split_u64(99, &mut rng2);
    assert_ne!(a.shares(), b.shares());
    assert_eq!(combine_u64(&a).unwrap(), 99);
    assert_eq!(combine_u64(&b).unwrap(), 99);
}

#[test]
fn same_rng_state_gives_same_shares() {
    let mut rng1 = ChaCha20Rng::seed_from_u64(5);
    let mut rng2 = ChaCha20Rng::seed_from_u64(5);
    let a = split_u64(123_456, &mut rng1);
    let b = split_u64(123_456, &mut rng2);
    assert_eq!(a.shares(), b.shares());
}

#[test]
fn no_single_share_equals_the_value() {
    let mut rng = ChaCha20Rng::seed_from_u64(3);
    let v = 555_555_555u64;
    let s = split_u64(v, &mut rng);
    // The value is only recovered from all shares together.
    let partial: u64 = s.shares()[0].wrapping_add(s.shares()[1]);
    assert_ne!(partial, v);
    assert_eq!(combine_u64(&s).unwrap(), v);
}
