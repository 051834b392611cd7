use ipa_core::group::{encrypt_with, DecryptionKey};
use ipa_core::report::{
    n_matches, any_matches, DecryptedEventReport, DecryptedMatchkeys, EncryptedMatchkeys,
    EventReport,
};

#[test]
fn count_matches_counts_every_pair() {
    // Many-to-many counting: duplicates on either side all
    // contribute, so the count exceeds the set-intersection size.
    let a = DecryptedMatchkeys::from_matchkeys(vec![
        ("p1".to_string(), 5),
        ("p2".to_string(), 5),
    ]);
    let b = DecryptedMatchkeys::from_matchkeys(vec![
        ("q1".to_string(), 5),
        ("q2".to_string(), 6),
    ]);
    assert_eq!(a.count_matches(&b), 2);
    assert_eq!(b.count_matches(&a), 2);
    let bb = DecryptedMatchkeys::from_matchkeys(vec![
        ("q1".to_string(), 5),
        ("q2".to_string(), 5),
    ]);
    assert_eq!(a.count_matches(&bb), 4);
}

#[test]
fn n_matches_and_any_matches_on_values() {
    let a = vec![1u64, 2, 2, 3];
    let b = vec![2u64, 2, 4];
    assert_eq!(n_matches(&a, &b), 4);
    assert!(any_matches(&a, &b));
    let c = vec![9u64];
    assert_eq!(n_matches(&a, &c), 0);
    assert!(!any_matches(&a, &c));
    assert!(!any_matches(&a, &Vec::new()));
}

#[test]
fn has_any_match_is_intersection_nonempty() {
    let a = DecryptedMatchkeys::from_matchkeys(vec![
        ("x".to_string(), 10),
        ("y".to_string(), 20),
    ]);
    let b = DecryptedMatchkeys::from_matchkeys(vec![("z".to_string(), 20)]);
    let c = DecryptedMatchkeys::from_matchkeys(vec![("w".to_string(), 30)]);
    assert!(a.has_any_match(&b));
    assert!(b.has_any_match(&a));
    assert!(!a.has_any_match(&c));
}

#[test]
fn threshold_decryption_of_reports_recovers_matches() {
    let s1: u64 = 777;
    let s2: u64 = 888;
    let full = DecryptionKey::from_scalar(s1 + s2);
    let k1 = DecryptionKey::from_scalar(s1);
    let k2 = DecryptionKey::from_scalar(s2);
    let pk = full.public_key();

    let ours = EncryptedMatchkeys::from_matchkeys(vec![
        ("alice".to_string(), encrypt_with(101, &pk, 11)),
        ("bob".to_string(), encrypt_with(202, &pk, 12)),
    ]);
    let theirs = EncryptedMatchkeys::from_matchkeys(vec![
        ("carol".to_string(), encrypt_with(202, &pk, 13)),
        ("dave".to_string(), encrypt_with(303, &pk, 14)),
    ]);

    // Both holders strip their key share, in either order, then the
    // fully-reduced reports decrypt with the zero key.
    let zero = DecryptionKey::from_scalar(0);
    let ours_dec = ours.threshold_decrypt(&k1).threshold_decrypt(&k2).decrypt(&zero);
    let theirs_dec = theirs.threshold_decrypt(&k2).threshold_decrypt(&k1).decrypt(&zero);
    assert!(ours_dec.has_any_match(&theirs_dec));
    assert_eq!(ours_dec.count_matches(&theirs_dec), 1);
}

#[test]
fn threshold_decrypt_order_is_irrelevant() {
    let k1 = DecryptionKey::from_scalar(31);
    let k2 = DecryptionKey::from_scalar(41);
    let key = DecryptionKey::from_scalar(59);
    let pk = key.public_key();
    let report = EncryptedMatchkeys::from_matchkeys(vec![
        ("a".to_string(), encrypt_with(1, &pk, 2)),
        ("b".to_string(), encrypt_with(3, &pk, 4)),
    ]);
    let ab = report.threshold_decrypt(&k1).threshold_decrypt(&k2);
    let ba = report.threshold_decrypt(&k2).threshold_decrypt(&k1);
    assert_eq!(ab.count_matches(&ba), 2);
}

#[test]
fn encrypted_count_matches_compares_ciphertexts() {
    let key = DecryptionKey::from_scalar(7);
    let pk = key.public_key();
    // Same plaintext and same randomness give the same ciphertext.
    let a = EncryptedMatchkeys::from_matchkeys(vec![
        ("m1".to_string(), encrypt_with(50, &pk, 9)),
        ("m2".to_string(), encrypt_with(60, &pk, 10)),
    ]);
    let b = EncryptedMatchkeys::from_matchkeys(vec![
        ("n1".to_string(), encrypt_with(50, &pk, 9)),
        ("n2".to_string(), encrypt_with(60, &pk, 99)),
    ]);
    assert_eq!(a.count_matches(&b), 1);
}

#[test]
fn report_accessors_expose_matchkey_sets() {
    let key = DecryptionKey::from_scalar(3);
    let pk = key.public_key();
    let enc = EncryptedMatchkeys::from_matchkeys(vec![(
        "label".to_string(),
        encrypt_with(9, &pk, 1),
    )]);
    let report = EventReport { encrypted_match_keys: enc };
    let dec = report.matchkeys().decrypt(&key);
    let dec_report = DecryptedEventReport { decrypted_match_keys: dec };
    let expect = DecryptedMatchkeys::from_matchkeys(vec![("other".to_string(), 9)]);
    assert!(dec_report.matchkeys().has_any_match(&expect));
}
