use vstd::prelude::*;
use vstd::arithmetic::div_mod::{lemma_fundamental_div_mod, lemma_multiply_divide_lt};
use crate::error::Error;

verus! {

/// Powers of 256: the value range of a little-endian byte string of
/// the given length.
pub open spec fn pow256(n: nat) -> nat
    decreases n,
{
    if n == 0 {
        1
    } else {
        256 * pow256((n - 1) as nat)
    }
}

/// The `n` little-endian base-256 digits of `x`.
pub open spec fn le_bytes(x: nat, n: nat) -> Seq<u8>
    decreases n,
{
    if n == 0 {
        Seq::empty()
    } else {
        seq![(x % 256) as u8] + le_bytes(x / 256, (n - 1) as nat)
    }
}

/// The value a little-endian byte string stands for.
pub open spec fn le_value(s: Seq<u8>) -> nat
    decreases s.len(),
{
    if s.len() == 0 {
        0
    } else {
        s[0] as nat + 256 * le_value(s.drop_first())
    }
}

/// The wire form of a correlation identifier: its 16 little-endian
/// bytes.
pub open spec fn id_bytes(id: u128) -> Seq<u8> {
    le_bytes(id as nat, 16)
}

proof fn lemma_pow256_pos(n: nat)
    ensures
        pow256(n) >= 1,
    decreases n,
{
    if n > 0 {
        lemma_pow256_pos((n - 1) as nat);
    }
}

proof fn lemma_pow256_le(a: nat, b: nat)
    requires
        a <= b,
    ensures
        pow256(a) <= pow256(b),
    decreases b,
{
    if a < b {
        lemma_pow256_le(a, (b - 1) as nat);
        lemma_pow256_pos((b - 1) as nat);
    }
}

proof fn lemma_le_bytes_len(x: nat, n: nat)
    ensures
        le_bytes(x, n).len() == n,
    decreases n,
{
    if n > 0 {
        lemma_le_bytes_len(x / 256, (n - 1) as nat);
    }
}

/// Digits round-trip: the value of the `n` base-256 digits of any
/// `x` below `256^n` is `x` again.
proof fn lemma_le_round_trip(x: nat, n: nat)
    requires
        x < pow256(n),
    ensures
        le_value(le_bytes(x, n)) == x,
    decreases n,
{
    if n == 0 {
        assert(x == 0);
    } else {
        let s = le_bytes(x, n);
        lemma_le_bytes_len(x, n);
        assert(s[0] == (x % 256) as u8);
        assert(s.drop_first() =~= le_bytes(x / 256, (n - 1) as nat));
        lemma_multiply_divide_lt(x as int, 256, pow256((n - 1) as nat) as int);
        lemma_le_round_trip(x / 256, (n - 1) as nat);
        lemma_fundamental_div_mod(x as int, 256);
    }
}

/// 2^128: every `u128` identifier fits in 16 base-256 digits.
proof fn lemma_pow256_16()
    ensures
        pow256(16) == 0x1_0000_0000_0000_0000_0000_0000_0000_0000,
{
    reveal_with_fuel(pow256, 17);
}

/// Frame a correlated message for the wire: the correlation
/// identifier's 16 little-endian bytes, then the opaque payload.
pub fn encode_envelope(id: u128, payload: &Vec<u8>) -> (out: Vec<u8>)
    requires
        payload@.len() + 16 <= usize::MAX,
    ensures
        out@ == id_bytes(id) + payload@,
        out@.len() == 16 + payload@.len(),
{
    proof {
        lemma_le_bytes_len(id as nat, 16);
    }
    let mut out: Vec<u8> = Vec::new();
    let mut x: u128 = id;
    let mut k: usize = 0;
    while k < 16
        invariant
            k <= 16,
            out@.len() == k,
            id_bytes(id) =~= out@ + le_bytes(x as nat, (16 - k) as nat),
        decreases 16 - k,
    {
        let b: u8 = (x % 256) as u8;
        proof {
            assert(le_bytes(x as nat, (16 - k) as nat) =~= seq![b] + le_bytes(
                (x as nat) / 256,
                (15 - k) as nat,
            ));
            assert(out@ + le_bytes(x as nat, (16 - k) as nat) =~= out@.push(b) + le_bytes(
                (x as nat) / 256,
                (15 - k) as nat,
            ));
        }
        out.push(b);
        x = x / 256;
        k = k + 1;
    }
    proof {
        assert(le_bytes(x as nat, 0) =~= Seq::<u8>::empty());
        assert(id_bytes(id) =~= out@);
    }
    let mut j: usize = 0;
    while j < payload.len()
        invariant
            j <= payload@.len(),
            out@.len() == 16 + j,
            out@ =~= id_bytes(id) + payload@.take(j as int),
        decreases payload@.len() - j,
    {
        out.push(payload[j]);
        proof {
            assert(out@ =~= id_bytes(id) + payload@.take(j + 1));
        }
        j = j + 1;
    }
    proof {
        assert(payload@.take(payload@.len() as int) =~= payload@);
        assert(out@ =~= id_bytes(id) + payload@);
    }
    out
}

/// Parse a framed message back into its correlation identifier and
/// payload. Fails with `Error::Receive` exactly when the frame is
/// shorter than an identifier: a malformed payload surfaces as a
/// typed decode error, never a panic.
pub fn decode_envelope(bytes: &Vec<u8>) -> (r: Result<(u128, Vec<u8>), Error>)
    ensures
        r is Ok <==> bytes@.len() >= 16,
        r is Ok ==> r->Ok_0.0 as nat == le_value(bytes@.take(16)) && r->Ok_0.1@ == bytes@.skip(
            16,
        ),
        r is Err ==> r->Err_0 == Error::Receive,
{
    if bytes.len() < 16 {
        return Err(Error::Receive);
    }
    let mut acc: u128 = 0;
    let mut k: usize = 16;
    while k > 0
        invariant
            k <= 16,
            bytes@.len() >= 16,
            acc as nat == le_value(bytes@.subrange(k as int, 16)),
            acc < pow256((16 - k) as nat),
        decreases k,
    {
        proof {
            lemma_pow256_le((17 - k) as nat, 16);
            lemma_pow256_16();
        }
        k = k - 1;
        let b: u8 = bytes[k];
        proof {
            let s = bytes@.subrange(k as int, 16);
            assert(s.len() == 16 - k);
            assert(s[0] == bytes@[k as int]);
            assert(s.drop_first() =~= bytes@.subrange(k + 1, 16));
        }
        acc = acc * 256 + (b as u128);
        proof {
            assert(acc as nat == le_value(bytes@.subrange(k as int, 16)));
        }
    }
    proof {
        assert(bytes@.subrange(0, 16) =~= bytes@.take(16));
    }
    let mut payload: Vec<u8> = Vec::new();
    let mut j: usize = 16;
    while j < bytes.len()
        invariant
            16 <= j <= bytes@.len(),
            payload@ =~= bytes@.subrange(16, j as int),
        decreases bytes@.len() - j,
    {
        payload.push(bytes[j]);
        proof {
            assert(payload@ =~= bytes@.subrange(16, j + 1));
        }
        j = j + 1;
    }
    proof {
        assert(bytes@.subrange(16, bytes@.len() as int) =~= bytes@.skip(16));
    }
    Ok((acc, payload))
}

/// 2^32: every `u32` fits in 4 base-256 digits.
proof fn lemma_pow256_4()
    ensures
        pow256(4) == 0x1_0000_0000,
{
    reveal_with_fuel(pow256, 5);
}

/// Encode a 32-bit value as its 4 little-endian bytes, the payload
/// form of a forwarded number.
pub fn encode_u32(x: u32) -> (out: Vec<u8>)
    ensures
        out@ == le_bytes(x as nat, 4),
        out@.len() == 4,
{
    proof {
        lemma_le_bytes_len(x as nat, 4);
    }
    let mut out: Vec<u8> = Vec::new();
    let mut v: u32 = x;
    let mut k: usize = 0;
    while k < 4
        invariant
            k <= 4,
            out@.len() == k,
            le_bytes(x as nat, 4) =~= out@ + le_bytes(v as nat, (4 - k) as nat),
        decreases 4 - k,
    {
        let b: u8 = (v % 256) as u8;
        proof {
            assert(le_bytes(v as nat, (4 - k) as nat) =~= seq![b] + le_bytes(
                (v as nat) / 256,
                (3 - k) as nat,
            ));
            assert(out@ + le_bytes(v as nat, (4 - k) as nat) =~= out@.push(b) + le_bytes(
                (v as nat) / 256,
                (3 - k) as nat,
            ));
        }
        out.push(b);
        v = v / 256;
        k = k + 1;
    }
    proof {
        assert(le_bytes(v as nat, 0) =~= Seq::<u8>::empty());
        assert(le_bytes(x as nat, 4) =~= out@);
    }
    out
}

/// Parse 4 little-endian bytes back into a 32-bit value. Fails with
/// `Error::Receive` exactly when the payload is not 4 bytes long.
pub fn decode_u32(bytes: &Vec<u8>) -> (r: Result<u32, Error>)
    ensures
        r is Ok <==> bytes@.len() == 4,
        r is Ok ==> r->Ok_0 as nat == le_value(bytes@),
        r is Err ==> r->Err_0 == Error::Receive,
{
    if bytes.len() != 4 {
        return Err(Error::Receive);
    }
    let mut acc: u32 = 0;
    let mut k: usize = 4;
    while k > 0
        invariant
            k <= 4,
            bytes@.len() == 4,
            acc as nat == le_value(bytes@.subrange(k as int, 4)),
            acc < pow256((4 - k) as nat),
        decreases k,
    {
        proof {
            lemma_pow256_le((5 - k) as nat, 4);
            lemma_pow256_4();
        }
        k = k - 1;
        let b: u8 = bytes[k];
        proof {
            let s = bytes@.subrange(k as int, 4);
            assert(s.len() == 4 - k);
            assert(s[0] == bytes@[k as int]);
            assert(s.drop_first() =~= bytes@.subrange(k + 1, 4));
        }
        acc = acc * 256 + (b as u32);
        proof {
            assert(acc as nat == le_value(bytes@.subrange(k as int, 4)));
        }
    }
    proof {
        assert(bytes@.subrange(0, 4) =~= bytes@);
    }
    Ok(acc)
}

/// Number payloads round-trip: the 4-byte form of any 32-bit value
/// parses back to that value.
pub proof fn lemma_u32_round_trip(x: u32)
    ensures
        le_value(le_bytes(x as nat, 4)) == x as nat,
        le_bytes(x as nat, 4).len() == 4,
{
    lemma_pow256_4();
    lemma_le_round_trip(x as nat, 4);
    lemma_le_bytes_len(x as nat, 4);
}

/// Framing round-trips: a frame built from an identifier and a
/// payload parses back to exactly that identifier and payload.
pub proof fn lemma_envelope_round_trip(id: u128, payload: Seq<u8>)
    ensures
        (id_bytes(id) + payload).len() == 16 + payload.len(),
        le_value((id_bytes(id) + payload).take(16)) == id as nat,
        (id_bytes(id) + payload).skip(16) == payload,
{
    lemma_le_bytes_len(id as nat, 16);
    lemma_pow256_16();
    lemma_le_round_trip(id as nat, 16);
    assert((id_bytes(id) + payload).take(16) =~= id_bytes(id));
    assert((id_bytes(id) + payload).skip(16) =~= payload);
}

} // verus!
