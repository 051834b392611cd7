use vstd::prelude::*;
use vstd::arithmetic::div_mod::{
    lemma_mul_mod_noop_general, lemma_small_mod, lemma_mod_bound, lemma_mod_adds,
    lemma_add_mod_noop, lemma_mod_add_multiples_vanish,
};
use crate::rng::next_random_u64;

verus! {

/// Order of the prime-order group underlying the threshold cipher:
/// the Mersenne prime 2^61 - 1. Group elements are residues modulo
/// this prime under addition; scalar application is multiplication
/// modulo the prime.
pub const PRIME: u64 = 2305843009213693951;

/// Fixed public generator of the group. In the additive group modulo a
/// prime every nonzero element generates the whole group.
pub const GENERATOR: u64 = 7;

/// An element or scalar is a residue modulo the group order.
pub open spec fn in_group(x: u64) -> bool {
    x < PRIME
}

pub open spec fn addm(a: u64, b: u64) -> u64 {
    (((a + b) % (PRIME as int)) as u64)
}

pub open spec fn subm(a: u64, b: u64) -> u64 {
    (((a + PRIME - b) % (PRIME as int)) as u64)
}

pub open spec fn mulm(a: u64, b: u64) -> u64 {
    (((a * b) % (PRIME as int)) as u64)
}

/// Group addition of two residues.
pub fn group_add(a: u64, b: u64) -> (r: u64)
    requires
        in_group(a),
        in_group(b),
    ensures
        r == addm(a, b),
        in_group(r),
{
    let s: u64 = a + b;
    if s >= PRIME {
        s - PRIME
    } else {
        s
    }
}

/// Group subtraction of two residues.
pub fn group_sub(a: u64, b: u64) -> (r: u64)
    requires
        in_group(a),
        in_group(b),
    ensures
        r == subm(a, b),
        in_group(r),
{
    if a >= b {
        proof {
            lemma_small_mod((a - b) as nat, PRIME as nat);
        }
        a - b
    } else {
        proof {
            lemma_small_mod((a + PRIME - b) as nat, PRIME as nat);
        }
        a + (PRIME - b)
    }
}

/// Scalar application: multiplication of two residues modulo the group
/// order, computed in 128-bit intermediate precision.
pub fn group_mul(a: u64, b: u64) -> (r: u64)
    requires
        in_group(a),
        in_group(b),
    ensures
        r == mulm(a, b),
        in_group(r),
{
    proof {
        assert((a as int) * (b as int) <= (PRIME - 1) * (PRIME - 1)) by (nonlinear_arith)
            requires
                a < PRIME,
                b < PRIME,
        ;
        lemma_mod_bound((a * b) as int, PRIME as int);
    }
    let prod: u128 = (a as u128) * (b as u128);
    let m: u128 = prod % (PRIME as u128);
    m as u64
}

/// An ElGamal-style ciphertext over the group: `c1` carries the
/// encryption randomness, `c2` the masked plaintext element.
#[derive(Clone, Copy, Debug, PartialEq, Eq, Structural)]
pub struct Ciphertext {
    pub c1: u64,
    pub c2: u64,
}

pub open spec fn ciphertext_wf(c: Ciphertext) -> bool {
    in_group(c.c1) && in_group(c.c2)
}

/// The public key derived from a secret scalar.
pub open spec fn pub_key_spec(k: u64) -> u64 {
    mulm(k, GENERATOR)
}

/// What encrypting plaintext element `m` under public key `y` with
/// randomness `r` yields.
pub open spec fn encrypt_spec(m: u64, y: u64, r: u64) -> Ciphertext {
    Ciphertext { c1: mulm(r, GENERATOR), c2: addm(m, mulm(r, y)) }
}

/// One holder's partial decryption with key share `k`.
pub open spec fn threshold_decrypt_spec(c: Ciphertext, k: u64) -> Ciphertext {
    Ciphertext { c1: c.c1, c2: subm(c.c2, mulm(k, c.c1)) }
}

/// Full decryption with key `k`.
pub open spec fn decrypt_spec(c: Ciphertext, k: u64) -> u64 {
    subm(c.c2, mulm(k, c.c1))
}

/// A decryption key: either one holder's share of the group's secret
/// scalar or the fully aggregated secret.
#[derive(Clone, Copy, Debug)]
pub struct DecryptionKey {
    key: u64,
}

/// A public encryption key.
#[derive(Clone, Copy, Debug)]
pub struct PublicKey {
    point: u64,
}

impl PublicKey {
    pub closed spec fn view(&self) -> u64 {
        self.point
    }

    pub open spec fn wf(&self) -> bool {
        in_group(self@)
    }
}

impl DecryptionKey {
    pub closed spec fn view(&self) -> u64 {
        self.key
    }

    pub open spec fn wf(&self) -> bool {
        in_group(self@)
    }

    /// Make a key from a secret scalar; any 64-bit secret is reduced
    /// into the group.
    pub fn from_scalar(secret: u64) -> (k: DecryptionKey)
        ensures
            k.wf(),
            k@ == secret % PRIME,
    {
        DecryptionKey { key: secret % PRIME }
    }

    /// The public key matching this secret.
    pub fn public_key(&self) -> (y: PublicKey)
        requires
            self.wf(),
        ensures
            y.wf(),
            y@ == pub_key_spec(self@),
    {
        PublicKey { point: group_mul(self.key, GENERATOR) }
    }

    /// One holder's partial decryption: strips this key share's
    /// contribution from the mask and leaves the rest of the
    /// ciphertext for the remaining holders.
    pub fn threshold_decrypt(&self, c: Ciphertext) -> (r: Ciphertext)
        requires
            self.wf(),
            ciphertext_wf(c),
        ensures
            r == threshold_decrypt_spec(c, self@),
            ciphertext_wf(r),
    {
        Ciphertext { c1: c.c1, c2: group_sub(c.c2, group_mul(self.key, c.c1)) }
    }

    /// Full decryption to a group element, for a party holding the
    /// complete (or fully aggregated) secret.
    pub fn decrypt(&self, c: Ciphertext) -> (m: u64)
        requires
            self.wf(),
            ciphertext_wf(c),
        ensures
            m == decrypt_spec(c, self@),
            in_group(m),
    {
        group_sub(c.c2, group_mul(self.key, c.c1))
    }
}

/// Encrypt plaintext element `m` under public key `y` with the given
/// randomness. Deterministic core of `encrypt`.
pub fn encrypt_with(m: u64, y: &PublicKey, r: u64) -> (c: Ciphertext)
    requires
        in_group(m),
        y.wf(),
        in_group(r),
    ensures
        c == encrypt_spec(m, y@, r),
        ciphertext_wf(c),
{
    Ciphertext { c1: group_mul(r, GENERATOR), c2: group_add(m, group_mul(r, y.point)) }
}

/// Encrypt plaintext element `m` under public key `y`, drawing the
/// encryption randomness from `rng`. Whatever residue is drawn, the
/// result is its `encrypt_spec` image, so decryption under the
/// matching secret recovers `m` (`lemma_decrypt_encrypt`).
pub fn encrypt(m: u64, y: &PublicKey, rng: &mut rand_chacha::ChaCha20Rng) -> (c: Ciphertext)
    requires
        in_group(m),
        y.wf(),
    ensures
        exists|r: u64| in_group(r) && c == encrypt_spec(m, y@, r),
        ciphertext_wf(c),
{
    let raw = next_random_u64(rng);
    let r: u64 = raw % PRIME;
    let c = encrypt_with(m, y, r);
    proof {
        assert(in_group(r) && c == encrypt_spec(m, y@, r));
    }
    c
}

/// Unmasking is exact: for any plaintext `m`, mask `t`, subtracting
/// the mask after adding it restores `m`.
proof fn lemma_mask_unmask(m: u64, t: u64)
    requires
        in_group(m),
        in_group(t),
    ensures
        subm(addm(m, t), t) == m,
{
    let p = PRIME as int;
    if m + t < p {
        lemma_small_mod((m + t) as nat, PRIME as nat);
        assert(addm(m, t) == m + t);
        lemma_small_mod(m as nat, PRIME as nat);
        assert((m + t + p - t) % p == (m + p) % p);
        lemma_mod_adds(m as int, p, p);
        lemma_small_mod(m as nat, PRIME as nat);
    } else {
        assert((m + t) % p == (m + t - p) % p) by {
            lemma_mod_adds((m + t - p) as int, p, p);
            lemma_mod_bound((m + t - p) as int, p);
            lemma_small_mod(((m + t - p) % p) as nat, PRIME as nat);
        }
        lemma_small_mod((m + t - p) as nat, PRIME as nat);
        assert(addm(m, t) == m + t - p);
        lemma_small_mod(m as nat, PRIME as nat);
    }
}

/// Scalars slide through the mask: `k * (r * g)` and `r * (k * g)`
/// agree modulo the group order.
proof fn lemma_scalar_swap(k: u64, r: u64, g: u64)
    ensures
        mulm(k, mulm(r, g)) == mulm(r, mulm(k, g)),
{
    let p = PRIME as int;
    lemma_mul_mod_noop_general(k as int, (r * g) as int, p);
    assert(mulm(k, mulm(r, g)) == ((k * (r * g)) % p) as u64);
    lemma_mul_mod_noop_general(r as int, (k * g) as int, p);
    assert(mulm(r, mulm(k, g)) == ((r * (k * g)) % p) as u64);
    assert(k * (r * g) == r * (k * g)) by (nonlinear_arith);
}

/// Decrypting an encryption recovers the plaintext: for every
/// plaintext element `m`, secret `k` and encryption randomness `r`,
/// `decrypt(encrypt(m, pub(k), r), k) == m`.
pub proof fn lemma_decrypt_encrypt(m: u64, k: u64, r: u64)
    requires
        in_group(m),
        in_group(k),
        in_group(r),
    ensures
        decrypt_spec(encrypt_spec(m, pub_key_spec(k), r), k) == m,
{
    let p = PRIME as int;
    let c = encrypt_spec(m, pub_key_spec(k), r);
    lemma_scalar_swap(k, r, GENERATOR);
    lemma_mod_bound((r * pub_key_spec(k)) as int, p);
    lemma_mod_bound((k * c.c1) as int, p);
    assert(mulm(k, c.c1) == mulm(r, pub_key_spec(k)));
    lemma_mask_unmask(m, mulm(r, pub_key_spec(k)));
}

/// Partial decryption commutes: two holders may strip their key
/// shares in either order and reach the same ciphertext.
pub proof fn lemma_threshold_decrypt_commutes(c: Ciphertext, k1: u64, k2: u64)
    requires
        ciphertext_wf(c),
        in_group(k1),
        in_group(k2),
    ensures
        threshold_decrypt_spec(threshold_decrypt_spec(c, k1), k2)
            == threshold_decrypt_spec(threshold_decrypt_spec(c, k2), k1),
{
    let p = PRIME as int;
    let t1 = mulm(k1, c.c1);
    let t2 = mulm(k2, c.c1);
    lemma_mod_bound((k1 * c.c1) as int, p);
    lemma_mod_bound((k2 * c.c1) as int, p);
    lemma_double_sub(c.c2, t1, t2);
}

/// Key shares aggregate: one holder's partial decryption followed by
/// full decryption with the other share is full decryption with the
/// sum of the shares. Recovering the plaintext needs all holders'
/// contributions, in any grouping.
pub proof fn lemma_threshold_then_decrypt(c: Ciphertext, k1: u64, k2: u64)
    requires
        ciphertext_wf(c),
        in_group(k1),
        in_group(k2),
    ensures
        decrypt_spec(threshold_decrypt_spec(c, k1), k2) == decrypt_spec(c, addm(k1, k2)),
{
    let p = PRIME as int;
    let a = c.c2;
    let x = c.c1;
    let t1 = mulm(k1, x);
    let t2 = mulm(k2, x);
    lemma_mod_bound((k1 * x) as int, p);
    lemma_mod_bound((k2 * x) as int, p);
    lemma_sub_shift(a, t1, t2);
    let s = addm(k1, k2);
    lemma_mod_bound((k1 + k2) as int, p);
    assert(mulm(s, x) == (((k1 + k2) * x) % p) as u64) by {
        lemma_mul_mod_noop_general((k1 + k2) as int, x as int, p);
    }
    assert(((k1 + k2) * x) % p == (t1 + t2) % p) by {
        lemma_add_mod_noop((k1 * x) as int, (k2 * x) as int, p);
        assert((k1 + k2) * x == k1 * x + k2 * x) by (nonlinear_arith);
    }
    let u = t1 + t2;
    lemma_mod_bound(u as int, p);
    if u < p {
        lemma_small_mod(u as nat, PRIME as nat);
        assert(mulm(s, x) == u);
        lemma_mod_add_multiples_vanish(a + p - u, p);
        assert((a + p - t1 + p - t2) % p == (a + p - u) % p);
    } else {
        assert(u % p == u - p) by {
            lemma_mod_adds((u - p) as int, p, p);
            lemma_mod_bound((u - p) as int, p);
            lemma_small_mod((u - p) as nat, PRIME as nat);
        }
        assert(mulm(s, x) == u - p);
        assert(a + p - t1 + p - t2 == a + p - (u - p));
    }
}

/// Stripping two masks in either order yields the same residue.
proof fn lemma_double_sub(a: u64, b: u64, c: u64)
    requires
        in_group(a),
        in_group(b),
        in_group(c),
    ensures
        subm(subm(a, b), c) == subm(subm(a, c), b),
{
    let p = PRIME as int;
    lemma_sub_shift(a, b, c);
    lemma_sub_shift(a, c, b);
    assert(a + p - b + p - c == a + p - c + p - b);
}

/// Unfolding one level: subtracting `c` from `a - b (mod p)` is
/// `a + p - b + p - c` reduced once.
proof fn lemma_sub_shift(a: u64, b: u64, c: u64)
    requires
        in_group(a),
        in_group(b),
        in_group(c),
    ensures
        subm(subm(a, b), c) == (((a + PRIME - b + PRIME - c) % (PRIME as int)) as u64),
{
    let p = PRIME as int;
    lemma_mod_bound((a + p - b) as int, p);
    let s = subm(a, b);
    assert(s + p - c == ((a + p - b) % p) + (p - c));
    lemma_mod_adds((a + p - b) as int, (p - c) as int, p);
    assert((a + p - b + p - c) % p == (((a + p - b) % p) + ((p - c) % p)) % p);
    if c == 0 {
        lemma_mod_adds((a + p - b) as int, p, p);
        lemma_mod_bound((a + p - b) as int, p);
        lemma_small_mod((((a + p - b) % p)) as nat, PRIME as nat);
    } else {
        lemma_small_mod((p - c) as nat, PRIME as nat);
    }
}

} // verus!
