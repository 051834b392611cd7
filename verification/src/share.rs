use vstd::prelude::*;
use vstd::wrapping::u64_specs;
use crate::error::Error;
use crate::rng::next_random_u64;

verus! {

/// Number of helper parties, and so of shares in every split.
pub const SHARE_COUNT: usize = 3;

/// An additive secret sharing of a 64-bit value: one share per
/// holder, summing (modulo 2^64) to the value. No proper subset of
/// the shares determines the value.
#[derive(Clone, Debug)]
pub struct SecretShare {
    shares: Vec<u64>,
}

/// The value a share set reconstructs to: the wrapping sum of its
/// three shares.
pub open spec fn combine_spec(s: Seq<u64>) -> u64 {
    u64_specs::wrapping_add(u64_specs::wrapping_add(s[0], s[1]), s[2])
}

/// The share set that splitting `v` with random draws `r1`, `r2`
/// produces: the draws themselves, and the remainder that makes the
/// wrapping sum come out to `v`.
pub open spec fn split_spec(v: u64, r1: u64, r2: u64) -> Seq<u64> {
    seq![r1, r2, u64_specs::wrapping_sub(u64_specs::wrapping_sub(v, r1), r2)]
}

/// Splitting then combining is the identity: for every value and
/// every pair of random draws, the three shares sum back to the
/// value.
pub proof fn lemma_combine_split(v: u64, r1: u64, r2: u64)
    ensures
        combine_spec(split_spec(v, r1, r2)) == v,
{
}

impl SecretShare {
    pub closed spec fn view(&self) -> Seq<u64> {
        self.shares@
    }

    pub open spec fn wf(&self) -> bool {
        self@.len() == SHARE_COUNT
    }

    /// Assemble a share set from raw holder values, e.g. when shares
    /// arrive from the other parties.
    pub fn from_shares(shares: Vec<u64>) -> (s: SecretShare)
        ensures
            s@ == shares@,
    {
        SecretShare { shares }
    }

    /// The raw holder values.
    pub fn shares(&self) -> (r: &Vec<u64>)
        ensures
            r@ == self@,
    {
        &self.shares
    }
}

/// Deterministic core of `split_u64`: make the share set for `value`
/// from two given random draws.
pub fn split_u64_with(value: u64, r1: u64, r2: u64) -> (s: SecretShare)
    ensures
        s@ == split_spec(value, r1, r2),
        s.wf(),
        combine_spec(s@) == value,
{
    let third = value.wrapping_sub(r1).wrapping_sub(r2);
    let shares = vec![r1, r2, third];
    proof {
        lemma_combine_split(value, r1, r2);
        assert(shares@ =~= split_spec(value, r1, r2));
    }
    SecretShare { shares }
}

/// Split a 64-bit value into `SHARE_COUNT` additive shares, seeded by
/// the cryptographic generator. Whatever the generator draws, the
/// shares combine back to `value`.
pub fn split_u64(value: u64, rng: &mut rand_chacha::ChaCha20Rng) -> (s: SecretShare)
    ensures
        s.wf(),
        combine_spec(s@) == value,
        exists|r1: u64, r2: u64| s@ == #[trigger] split_spec(value, r1, r2),
{
    let r1 = next_random_u64(rng);
    let r2 = next_random_u64(rng);
    let s = split_u64_with(value, r1, r2);
    proof {
        assert(s@ == split_spec(value, r1, r2));
    }
    s
}

/// Split a 32-bit value into `SHARE_COUNT` additive shares. The
/// combined value stays within 32 bits, so `combine_u32` recovers it.
pub fn split_u32(value: u32, rng: &mut rand_chacha::ChaCha20Rng) -> (s: SecretShare)
    ensures
        s.wf(),
        combine_spec(s@) == value as u64,
        exists|r1: u64, r2: u64| s@ == #[trigger] split_spec(value as u64, r1, r2),
{
    split_u64(value as u64, rng)
}

/// Reconstruct a 64-bit value from a share set. Fails with
/// `Error::Combine` exactly when the set is malformed (wrong
/// cardinality).
pub fn combine_u64(s: &SecretShare) -> (r: Result<u64, Error>)
    ensures
        r is Ok <==> s.wf(),
        r is Ok ==> r->Ok_0 == combine_spec(s@),
        r is Err ==> r->Err_0 == Error::Combine,
{
    if s.shares.len() != SHARE_COUNT {
        Err(Error::Combine)
    } else {
        let a = s.shares[0];
        let b = s.shares[1];
        let c = s.shares[2];
        Ok(a.wrapping_add(b).wrapping_add(c))
    }
}

/// Reconstruct a 32-bit value from a share set. Fails with
/// `Error::Combine` when the set is malformed, and with
/// `Error::TypeConversion` when the reconstructed value does not fit
/// in 32 bits.
pub fn combine_u32(s: &SecretShare) -> (r: Result<u32, Error>)
    ensures
        r is Ok <==> s.wf() && combine_spec(s@) <= u32::MAX,
        r is Ok ==> r->Ok_0 == combine_spec(s@),
        r is Err && s.wf() ==> r->Err_0 == Error::TypeConversion,
        r is Err && !s.wf() ==> r->Err_0 == Error::Combine,
{
    match combine_u64(s) {
        Err(e) => Err(e),
        Ok(v) => {
            if v > u32::MAX as u64 {
                Err(Error::TypeConversion)
            } else {
                Ok(v as u32)
            }
        },
    }
}

} // verus!
