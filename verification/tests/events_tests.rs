use ipa_core::error::Error;
use ipa_core::events::{gen_events, gen_matchkeys, EventType, GenEventParams};
use ipa_core::share::{combine_u32, combine_u64};
use ipa_core::verbosity::{LogLevel, Verbosity};
use rand::SeedableRng;
use rand_chacha::ChaCha20Rng;

fn params(devices: u8, impressions: u8, conversions: u8) -> GenEventParams {
    GenEventParams {
        devices,
        impressions,
        conversions,
        epoch: 0,
        breakdown_key: "12345".to_string(),
    }
}

#[test]
fn same_seed_ss_matchkeys_and_plain_matchkeys_are_same() {
    // 10,000 events, generated with and without secret sharing from
    // the same seed: combining every shared field reproduces the
    // corresponding plaintext field exactly.
    let mut rng = ChaCha20Rng::seed_from_u64(0);
    let mut ss_rng = ChaCha20Rng::seed_from_u64(0);
    let p = params(3, 2, 2);
    let diffs_i = vec![60, 3600];
    let diffs_c = vec![120, 30];
    let values = vec![100, 250];
    let mut total = 0usize;
    while total < 10_000 {
        let mks = gen_matchkeys(p.devices, &mut rng);
        let plain = gen_events(&p, &mks, false, 500, &diffs_i, &diffs_c, &values, &mut ss_rng)
            .unwrap();
        let shared = gen_events(&p, &mks, true, 500, &diffs_i, &diffs_c, &values, &mut ss_rng)
            .unwrap();
        assert_eq!(plain.len(), shared.len());
        for (e1, e2) in plain.iter().zip(shared.iter()) {
            match e1 {
                EventType::S(s) => {
                    if let EventType::ES(es) = e2 {
                        for (k, v) in s.event.matchkeys.iter().enumerate() {
                            let ssm = combine_u64(&es.event.matchkeys[k]).unwrap();
                            assert!(*v == ssm);
                        }
                        let timestamp = combine_u32(&es.event.timestamp).unwrap();
                        assert!(s.event.timestamp == timestamp);
                        assert!(s.breakdown_key == es.breakdown_key);
                        assert!(s.event.epoch == es.event.epoch);
                    } else {
                        unreachable!();
                    }
                }
                EventType::T(t) => {
                    if let EventType::ET(et) = e2 {
                        for (k, v) in t.event.matchkeys.iter().enumerate() {
                            let matchkey = combine_u64(&et.event.matchkeys[k]).unwrap();
                            assert!(*v == matchkey);
                        }
                        let timestamp = combine_u32(&et.event.timestamp).unwrap();
                        let value = combine_u32(&et.value).unwrap();
                        assert!(t.event.timestamp == timestamp);
                        assert!(t.value == value);
                        assert!(t.zkp == et.zkp);
                        assert!(t.event.epoch == et.event.epoch);
                    } else {
                        unreachable!();
                    }
                }
                EventType::ES(_) | EventType::ET(_) => unreachable!(),
            }
            total += 1;
        }
    }
}

#[test]
fn timestamps_accumulate_the_sampled_gaps() {
    let mut ss_rng = ChaCha20Rng::seed_from_u64(4);
    let p = params(1, 2, 1);
    let mks = vec![42];
    let events = gen_events(
        &p,
        &mks,
        false,
        1000,
        &vec![10, 20],
        &vec![5],
        &vec![77],
        &mut ss_rng,
    )
    .unwrap();
    assert_eq!(events.len(), 3);
    match &events[0] {
        EventType::S(s) => assert_eq!(s.event.timestamp, 1010),
        _ => unreachable!(),
    }
    match &events[1] {
        EventType::S(s) => assert_eq!(s.event.timestamp, 1030),
        _ => unreachable!(),
    }
    match &events[2] {
        EventType::T(t) => {
            assert_eq!(t.event.timestamp, 1035);
            assert_eq!(t.value, 77);
            assert_eq!(t.zkp, "zkp");
        }
        _ => unreachable!(),
    }
}

#[test]
fn timestamp_overflow_is_a_conversion_error() {
    let mut ss_rng = ChaCha20Rng::seed_from_u64(5);
    let p = params(1, 1, 0);
    let mks = vec![1];
    let r = gen_events(
        &p,
        &mks,
        false,
        u32::MAX - 5,
        &vec![10],
        &Vec::new(),
        &Vec::new(),
        &mut ss_rng,
    );
    assert_eq!(r.err(), Some(Error::TypeConversion));
}

#[test]
fn gen_matchkeys_yields_one_key_per_device() {
    let mut rng = ChaCha20Rng::seed_from_u64(6);
    let mks = gen_matchkeys(5, &mut rng);
    assert_eq!(mks.len(), 5);
    let again = gen_matchkeys(0, &mut rng);
    assert!(again.is_empty());
}

#[test]
fn level_filter_follows_the_switches() {
    assert_eq!(
        Verbosity { quiet: true, verbose: 4 }.level_filter(),
        LogLevel::Off
    );
    assert_eq!(
        Verbosity { quiet: false, verbose: 0 }.level_filter(),
        LogLevel::Error
    );
    assert_eq!(
        Verbosity { quiet: false, verbose: 1 }.level_filter(),
        LogLevel::Warn
    );
    assert_eq!(
        Verbosity { quiet: false, verbose: 2 }.level_filter(),
        LogLevel::Info
    );
    assert_eq!(
        Verbosity { quiet: false, verbose: 3 }.level_filter(),
        LogLevel::Debug
    );
    assert_eq!(
        Verbosity { quiet: false, verbose: 9 }.level_filter(),
        LogLevel::Trace
    );
}
