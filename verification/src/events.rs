use vstd::prelude::*;
use crate::error::Error;
use crate::rng::next_random_u64;
use crate::share::{SecretShare, combine_spec, split_u32, split_u64};

verus! {

/// A synthetic event: the matchkeys of the user's devices, the epoch
/// it falls in, and its timestamp in seconds from the epoch's start.
#[derive(Clone, Debug)]
pub struct Event {
    pub matchkeys: Vec<u64>,
    pub epoch: u8,
    pub timestamp: u32,
}

/// An impression, in the clear.
#[derive(Debug)]
pub struct SourceEvent {
    pub event: Event,
    pub breakdown_key: String,
}

/// A conversion, in the clear.
#[derive(Debug)]
pub struct TriggerEvent {
    pub event: Event,
    pub value: u32,
    pub zkp: String,
}

/// An event whose numeric fields are additively secret-shared.
#[derive(Debug)]
pub struct SharedEvent {
    pub matchkeys: Vec<SecretShare>,
    pub epoch: u8,
    pub timestamp: SecretShare,
}

/// An impression with secret-shared fields.
#[derive(Debug)]
pub struct SharedSourceEvent {
    pub event: SharedEvent,
    pub breakdown_key: String,
}

/// A conversion with secret-shared fields.
#[derive(Debug)]
pub struct SharedTriggerEvent {
    pub event: SharedEvent,
    pub value: SecretShare,
    pub zkp: String,
}

/// One generated event, in the clear or secret-shared.
#[derive(Debug)]
pub enum EventType {
    /// Source event in clear.
    S(SourceEvent),
    /// Trigger event in clear.
    T(TriggerEvent),
    /// Source event secret-shared.
    ES(SharedSourceEvent),
    /// Trigger event secret-shared.
    ET(SharedTriggerEvent),
}

/// The shape of one user's events: how many devices, impressions and
/// conversions, under which epoch and breakdown key.
#[derive(Debug)]
pub struct GenEventParams {
    pub devices: u8,
    pub impressions: u8,
    pub conversions: u8,
    pub epoch: u8,
    pub breakdown_key: String,
}

/// Sum of the first `n` sampled gaps.
pub open spec fn sum_prefix(s: Seq<u32>, n: int) -> int
    decreases n,
{
    if n <= 0 {
        0
    } else {
        sum_prefix(s, n - 1) + s[n - 1]
    }
}

proof fn lemma_sum_prefix_bounds(s: Seq<u32>, a: int, b: int)
    requires
        0 <= a <= b <= s.len(),
    ensures
        sum_prefix(s, a) <= sum_prefix(s, b),
        sum_prefix(s, a) >= 0,
    decreases b,
{
    if a == b {
        if a > 0 {
            lemma_sum_prefix_bounds(s, a - 1, a - 1);
        }
    } else {
        lemma_sum_prefix_bounds(s, a, b - 1);
    }
}

/// The timestamp of impression `j`: the sampled start plus the first
/// `j + 1` impression gaps.
pub open spec fn imp_ts(start: u32, imp_diffs: Seq<u32>, j: int) -> int {
    start + sum_prefix(imp_diffs, j + 1)
}

/// The timestamp of conversion `j`: the last impression's time plus
/// the first `j + 1` conversion gaps.
pub open spec fn conv_ts(start: u32, imp_diffs: Seq<u32>, conv_diffs: Seq<u32>, j: int) -> int {
    start + sum_prefix(imp_diffs, imp_diffs.len() as int) + sum_prefix(conv_diffs, j + 1)
}

pub open spec fn plain_event_ok(e: Event, mks: Seq<u64>, epoch: u8, ts: int) -> bool {
    e.matchkeys@ == mks && e.epoch == epoch && e.timestamp == ts
}

/// A shared event stands for the plain one: every shared field
/// combines back to the plain field.
pub open spec fn shared_event_ok(e: SharedEvent, mks: Seq<u64>, epoch: u8, ts: int) -> bool {
    &&& e.matchkeys@.len() == mks.len()
    &&& forall|k: int|
        0 <= k < mks.len() ==> (#[trigger] e.matchkeys@[k]).wf() && combine_spec(e.matchkeys@[k]@)
            == mks[k]
    &&& e.epoch == epoch
    &&& e.timestamp.wf()
    &&& combine_spec(e.timestamp@) == ts
}

pub open spec fn source_ok(s: SourceEvent, mks: Seq<u64>, epoch: u8, ts: int, bk: Seq<char>) -> bool {
    plain_event_ok(s.event, mks, epoch, ts) && s.breakdown_key@ == bk
}

pub open spec fn shared_source_ok(
    s: SharedSourceEvent,
    mks: Seq<u64>,
    epoch: u8,
    ts: int,
    bk: Seq<char>,
) -> bool {
    shared_event_ok(s.event, mks, epoch, ts) && s.breakdown_key@ == bk
}

pub open spec fn trigger_ok(t: TriggerEvent, mks: Seq<u64>, epoch: u8, ts: int, value: u32) -> bool {
    plain_event_ok(t.event, mks, epoch, ts) && t.value == value && t.zkp@ == "zkp"@
}

pub open spec fn shared_trigger_ok(
    t: SharedTriggerEvent,
    mks: Seq<u64>,
    epoch: u8,
    ts: int,
    value: u32,
) -> bool {
    &&& shared_event_ok(t.event, mks, epoch, ts)
    &&& t.value.wf()
    &&& combine_spec(t.value@) == value
    &&& t.zkp@ == "zkp"@
}

/// Draw one random 64-bit matchkey per device.
pub fn gen_matchkeys(count: u8, rng: &mut rand_chacha::ChaCha20Rng) -> (mks: Vec<u64>)
    ensures
        mks@.len() == count as int,
{
    let mut mks: Vec<u64> = Vec::new();
    let mut i: usize = 0;
    while i < count as usize
        invariant
            i <= count as usize,
            mks@.len() == i,
        decreases count as usize - i,
    {
        mks.push(next_random_u64(rng));
        i = i + 1;
    }
    mks
}

/// One event's own copy of the user's matchkeys.
fn copy_keys(matchkeys: &Vec<u64>) -> (r: Vec<u64>)
    ensures
        r@ == matchkeys@,
{
    let mut out: Vec<u64> = Vec::new();
    let mut k: usize = 0;
    while k < matchkeys.len()
        invariant
            k <= matchkeys@.len(),
            out@ =~= matchkeys@.take(k as int),
        decreases matchkeys@.len() - k,
    {
        out.push(matchkeys[k]);
        proof {
            assert(out@ =~= matchkeys@.take(k + 1));
        }
        k = k + 1;
    }
    proof {
        assert(matchkeys@.take(matchkeys@.len() as int) =~= matchkeys@);
    }
    out
}

/// The matchkey share vectors an event carries, if it is
/// secret-shared.
pub open spec fn shared_mks_of(e: EventType) -> Seq<SecretShare> {
    match e {
        EventType::ES(s) => s.event.matchkeys@,
        EventType::ET(t) => t.event.matchkeys@,
        _ => Seq::empty(),
    }
}

/// One event's own copy of the user's matchkey shares, holder value
/// for holder value.
fn copy_shares(base: &Vec<SecretShare>) -> (r: Vec<SecretShare>)
    ensures
        r@.len() == base@.len(),
        forall|k: int| 0 <= k < base@.len() ==> (#[trigger] r@[k])@ == base@[k]@,
{
    let mut out: Vec<SecretShare> = Vec::new();
    let mut k: usize = 0;
    while k < base.len()
        invariant
            k <= base@.len(),
            out@.len() == k,
            forall|j: int| 0 <= j < k ==> (#[trigger] out@[j])@ == base@[j]@,
        decreases base@.len() - k,
    {
        let holder_values = copy_keys(base[k].shares());
        out.push(SecretShare::from_shares(holder_values));
        k = k + 1;
    }
    out
}

/// Split every value into a fresh share set; each set combines back
/// to its value.
fn share_values(values: &Vec<u64>, ss_rng: &mut rand_chacha::ChaCha20Rng) -> (r: Vec<SecretShare>)
    ensures
        r@.len() == values@.len(),
        forall|k: int|
            0 <= k < values@.len() ==> (#[trigger] r@[k]).wf() && combine_spec(r@[k]@)
                == values@[k],
{
    let mut out: Vec<SecretShare> = Vec::new();
    let mut k: usize = 0;
    while k < values.len()
        invariant
            k <= values@.len(),
            out@.len() == k,
            forall|j: int|
                0 <= j < k ==> (#[trigger] out@[j]).wf() && combine_spec(out@[j]@) == values@[j],
        decreases values@.len() - k,
    {
        out.push(split_u64(values[k], ss_rng));
        k = k + 1;
    }
    out
}

/// Generate one user's events: their impressions first, then their
/// conversions, timestamps accumulating the sampled gaps. With
/// secret sharing on, every numeric field is carried as shares that
/// combine back to the plain value; the matchkeys are split once per
/// user, from `ss_rng` alone, and every event of the batch carries a
/// copy of that one share vector, while timestamp and value shares
/// are drawn fresh per event. Sampling (the gaps, the conversion
/// values, the matchkeys' count) happens outside the core; a
/// timestamp that leaves 32 bits fails with
/// `Error::TypeConversion`.
#[verifier::rlimit(30)]
pub fn gen_events(
    params: &GenEventParams,
    matchkeys: &Vec<u64>,
    secret_share: bool,
    start: u32,
    impression_diffs: &Vec<u32>,
    conversion_diffs: &Vec<u32>,
    conversion_values: &Vec<u32>,
    ss_rng: &mut rand_chacha::ChaCha20Rng,
) -> (r: Result<Vec<EventType>, Error>)
    requires
        matchkeys@.len() == params.devices as int,
        impression_diffs@.len() == params.impressions as int,
        conversion_diffs@.len() == params.conversions as int,
        conversion_values@.len() == params.conversions as int,
    ensures
        r is Ok <==> start + sum_prefix(impression_diffs@, params.impressions as int) + sum_prefix(
            conversion_diffs@,
            params.conversions as int,
        ) <= u32::MAX,
        r is Err ==> r->Err_0 == Error::TypeConversion,
        r is Ok ==> ({
            let evs = r->Ok_0@;
            &&& evs.len() == params.impressions as int + params.conversions as int
            &&& forall|j: int|
                0 <= j < params.impressions as int ==> (if secret_share {
                    (#[trigger] evs[j]) is ES && shared_source_ok(
                        evs[j]->ES_0,
                        matchkeys@,
                        params.epoch,
                        imp_ts(start, impression_diffs@, j),
                        params.breakdown_key@,
                    )
                } else {
                    (#[trigger] evs[j]) is S && source_ok(
                        evs[j]->S_0,
                        matchkeys@,
                        params.epoch,
                        imp_ts(start, impression_diffs@, j),
                        params.breakdown_key@,
                    )
                })
            &&& forall|j: int|
                0 <= j < params.conversions as int ==> (if secret_share {
                    (#[trigger] evs[params.impressions as int + j]) is ET && shared_trigger_ok(
                        evs[params.impressions as int + j]->ET_0,
                        matchkeys@,
                        params.epoch,
                        conv_ts(start, impression_diffs@, conversion_diffs@, j),
                        conversion_values@[j],
                    )
                } else {
                    (#[trigger] evs[params.impressions as int + j]) is T && trigger_ok(
                        evs[params.impressions as int + j]->T_0,
                        matchkeys@,
                        params.epoch,
                        conv_ts(start, impression_diffs@, conversion_diffs@, j),
                        conversion_values@[j],
                    )
                })
        }),
        r is Ok && secret_share ==> (forall|j1: int, j2: int, k: int|
            0 <= j1 < r->Ok_0@.len() && 0 <= j2 < r->Ok_0@.len() && 0 <= k < matchkeys@.len()
                ==> (#[trigger] shared_mks_of(r->Ok_0@[j1])[k])@ == (#[trigger] shared_mks_of(
                r->Ok_0@[j2],
            )[k])@),
{
    let imps: usize = params.impressions as usize;
    let convs: usize = params.conversions as usize;
    let base_sh: Vec<SecretShare> = if secret_share {
        share_values(matchkeys, ss_rng)
    } else {
        Vec::new()
    };
    let mut events: Vec<EventType> = Vec::new();
    let mut last: u32 = start;
    let mut j: usize = 0;
    while j < imps
        invariant
            j <= imps,
            imps == params.impressions as int,
            convs == params.conversions as int,
            matchkeys@.len() == params.devices as int,
            impression_diffs@.len() == imps,
            conversion_diffs@.len() == convs,
            conversion_values@.len() == convs,
            last == start + sum_prefix(impression_diffs@, j as int),
            events@.len() == j,
            secret_share ==> base_sh@.len() == matchkeys@.len(),
            secret_share ==> forall|k: int|
                0 <= k < matchkeys@.len() ==> (#[trigger] base_sh@[k]).wf() && combine_spec(
                    base_sh@[k]@,
                ) == matchkeys@[k],
            secret_share ==> forall|jj: int, k: int|
                0 <= jj < events@.len() && 0 <= k < matchkeys@.len() ==> (
                #[trigger] shared_mks_of(events@[jj])[k])@ == base_sh@[k]@,
            forall|jj: int|
                0 <= jj < j ==> (if secret_share {
                    (#[trigger] events@[jj]) is ES && shared_source_ok(
                        events@[jj]->ES_0,
                        matchkeys@,
                        params.epoch,
                        imp_ts(start, impression_diffs@, jj),
                        params.breakdown_key@,
                    )
                } else {
                    (#[trigger] events@[jj]) is S && source_ok(
                        events@[jj]->S_0,
                        matchkeys@,
                        params.epoch,
                        imp_ts(start, impression_diffs@, jj),
                        params.breakdown_key@,
                    )
                }),
        decreases imps - j,
    {
        let t = match last.checked_add(impression_diffs[j]) {
            Some(t) => t,
            None => {
                proof {
                    lemma_sum_prefix_bounds(impression_diffs@, j + 1, imps as int);
                    lemma_sum_prefix_bounds(conversion_diffs@, 0, convs as int);
                }
                return Err(Error::TypeConversion);
            },
        };
        if secret_share {
            let mks_sh = copy_shares(&base_sh);
            let ts_sh = split_u32(t, ss_rng);
            events.push(
                EventType::ES(
                    SharedSourceEvent {
                        event: SharedEvent {
                            matchkeys: mks_sh,
                            epoch: params.epoch,
                            timestamp: ts_sh,
                        },
                        breakdown_key: params.breakdown_key.clone(),
                    },
                ),
            );
        } else {
            let mks = copy_keys(matchkeys);
            events.push(
                EventType::S(
                    SourceEvent {
                        event: Event { matchkeys: mks, epoch: params.epoch, timestamp: t },
                        breakdown_key: params.breakdown_key.clone(),
                    },
                ),
            );
        }
        last = t;
        j = j + 1;
    }
    let mut c: usize = 0;
    while c < convs
        invariant
            c <= convs,
            imps == params.impressions as int,
            convs == params.conversions as int,
            matchkeys@.len() == params.devices as int,
            impression_diffs@.len() == imps,
            conversion_diffs@.len() == convs,
            conversion_values@.len() == convs,
            last == start + sum_prefix(impression_diffs@, imps as int) + sum_prefix(
                conversion_diffs@,
                c as int,
            ),
            events@.len() == imps + c,
            secret_share ==> base_sh@.len() == matchkeys@.len(),
            secret_share ==> forall|k: int|
                0 <= k < matchkeys@.len() ==> (#[trigger] base_sh@[k]).wf() && combine_spec(
                    base_sh@[k]@,
                ) == matchkeys@[k],
            secret_share ==> forall|jj: int, k: int|
                0 <= jj < events@.len() && 0 <= k < matchkeys@.len() ==> (
                #[trigger] shared_mks_of(events@[jj])[k])@ == base_sh@[k]@,
            forall|jj: int|
                0 <= jj < imps ==> (if secret_share {
                    (#[trigger] events@[jj]) is ES && shared_source_ok(
                        events@[jj]->ES_0,
                        matchkeys@,
                        params.epoch,
                        imp_ts(start, impression_diffs@, jj),
                        params.breakdown_key@,
                    )
                } else {
                    (#[trigger] events@[jj]) is S && source_ok(
                        events@[jj]->S_0,
                        matchkeys@,
                        params.epoch,
                        imp_ts(start, impression_diffs@, jj),
                        params.breakdown_key@,
                    )
                }),
            forall|jj: int|
                0 <= jj < c ==> (if secret_share {
                    (#[trigger] events@[imps + jj]) is ET && shared_trigger_ok(
                        events@[imps + jj]->ET_0,
                        matchkeys@,
                        params.epoch,
                        conv_ts(start, impression_diffs@, conversion_diffs@, jj),
                        conversion_values@[jj],
                    )
                } else {
                    (#[trigger] events@[imps + jj]) is T && trigger_ok(
                        events@[imps + jj]->T_0,
                        matchkeys@,
                        params.epoch,
                        conv_ts(start, impression_diffs@, conversion_diffs@, jj),
                        conversion_values@[jj],
                    )
                }),
        decreases convs - c,
    {
        let t = match last.checked_add(conversion_diffs[c]) {
            Some(t) => t,
            None => {
                proof {
                    lemma_sum_prefix_bounds(conversion_diffs@, c + 1, convs as int);
                }
                return Err(Error::TypeConversion);
            },
        };
        let conversion_value = conversion_values[c];
        if secret_share {
            let mks_sh = copy_shares(&base_sh);
            let ts_sh = split_u32(t, ss_rng);
            let value_sh = split_u32(conversion_value, ss_rng);
            events.push(
                EventType::ET(
                    SharedTriggerEvent {
                        event: SharedEvent {
                            matchkeys: mks_sh,
                            epoch: params.epoch,
                            timestamp: ts_sh,
                        },
                        value: value_sh,
                        zkp: "zkp".to_owned(),
                    },
                ),
            );
        } else {
            let mks = copy_keys(matchkeys);
            events.push(
                EventType::T(
                    TriggerEvent {
                        event: Event { matchkeys: mks, epoch: params.epoch, timestamp: t },
                        value: conversion_value,
                        zkp: "zkp".to_owned(),
                    },
                ),
            );
        }
        last = t;
        c = c + 1;
    }
    proof {
        lemma_sum_prefix_bounds(impression_diffs@, 0, imps as int);
        lemma_sum_prefix_bounds(conversion_diffs@, 0, convs as int);
        if secret_share {
            assert forall|j1: int, j2: int, k: int|
                0 <= j1 < events@.len() && 0 <= j2 < events@.len() && 0 <= k
                    < matchkeys@.len() implies (#[trigger] shared_mks_of(events@[j1])[k])@ == (
            #[trigger] shared_mks_of(events@[j2])[k])@ by {
                assert((shared_mks_of(events@[j1])[k])@ == base_sh@[k]@);
                assert((shared_mks_of(events@[j2])[k])@ == base_sh@[k]@);
            }
        }
    }
    Ok(events)
}

} // verus!
