//! The difficulty rule: how many low-order bits of a digest must be zero.

use vstd::arithmetic::div_mod::lemma_fundamental_div_mod;
use vstd::arithmetic::div_mod::lemma_mod_multiples_basic;
use vstd::arithmetic::power2::lemma2_to64;
use vstd::arithmetic::power2::lemma_pow2_adds;
use vstd::arithmetic::power2::lemma_pow2_pos;
use vstd::arithmetic::power2::pow2;
use vstd::bits::lemma_u8_shl_is_mul;
use vstd::prelude::*;

verus! {

/// The low-order `bits` bits of `digest`, read as a big-endian number, are
/// zero: its last `bits / 8` bytes are zero, and the byte before them is a
/// multiple of `2^(bits % 8)`.
pub open spec fn low_bits_zero(digest: Seq<u8>, bits: nat) -> bool {
    &&& forall|i: int| 0 <= i < bits / 8 ==> #[trigger] digest[digest.len() - 1 - i] == 0
    &&& bits % 8 > 0 ==> digest[digest.len() - 1 - bits / 8] as nat % pow2(bits % 8) == 0
}

/// The number that `bytes` spell in base 256, most significant byte first.
pub open spec fn big_endian_value(bytes: Seq<u8>) -> nat
    decreases bytes.len(),
{
    if bytes.len() == 0 {
        0
    } else {
        big_endian_value(bytes.drop_last()) * 256 + bytes.last() as nat
    }
}

/// Whether the low-order `difficulty` bits of `digest` are zero, checked
/// from the last byte backward.
pub fn digest_meets_difficulty(digest: &[u8; 32], difficulty: u8) -> (ok: bool)
    ensures
        ok == low_bits_zero(digest@, difficulty as nat),
{
    let n_bytes: usize = (difficulty / 8) as usize;
    let n_bits: u8 = difficulty % 8;
    let mut i: usize = 0;
    while i < n_bytes
        invariant
            i <= n_bytes,
            n_bytes == difficulty as nat / 8,
            forall|k: int| 0 <= k < i ==> #[trigger] digest@[32 - 1 - k] == 0,
        decreases n_bytes - i,
    {
        if digest[31 - i] != 0 {
            assert(digest@[digest@.len() - 1 - i] != 0);
            return false;
        }
        i += 1;
    }
    if n_bits > 0 {
        let byte: u8 = digest[31 - n_bytes];
        proof {
            lemma2_to64();
            lemma_u8_shl_is_mul(1, n_bits);
        }
        let mask: u8 = 1u8 << n_bits;
        if byte % mask != 0 {
            return false;
        }
    }
    true
}

proof fn low_byte_decides(high: nat, low: nat, m: nat)
    requires
        low < 256,
        m > 0,
    ensures
        ((256 * high + low) % (256 * m) == 0) <==> (low == 0 && high % m == 0),
{
    let x = (256 * high + low) as int;
    let d = (256 * m) as int;
    if x % d == 0 {
        lemma_fundamental_div_mod(x, d);
        let k = x / d;
        let t = m * k;
        assert(d * k == 256 * t) by (nonlinear_arith)
            requires
                d == 256 * m,
                t == m * k,
        ;
        assert(t == high && low == 0);
        assert(k * (m as int) == t) by (nonlinear_arith)
            requires
                t == m * k,
        ;
        lemma_mod_multiples_basic(k, m as int);
    }
    if low == 0 && high % m == 0 {
        lemma_fundamental_div_mod(high as int, m as int);
        let q = high as int / m as int;
        assert(q * d == x) by (nonlinear_arith)
            requires
                d == 256 * m,
                x == 256 * high,
                high == m * q,
        ;
        lemma_mod_multiples_basic(q, d);
    }
}

proof fn within_last_byte(high: nat, low: nat, bits: nat)
    requires
        low < 256,
        bits < 8,
    ensures
        (256 * high + low) % pow2(bits) == low % pow2(bits),
{
    lemma2_to64();
    let x = 256 * high + low;
    if bits == 0 {
        assert(x % 1 == low % 1);
    } else if bits == 1 {
        assert(x % 2 == low % 2);
    } else if bits == 2 {
        assert(x % 4 == low % 4);
    } else if bits == 3 {
        assert(x % 8 == low % 8);
    } else if bits == 4 {
        assert(x % 16 == low % 16);
    } else if bits == 5 {
        assert(x % 32 == low % 32);
    } else if bits == 6 {
        assert(x % 64 == low % 64);
    } else {
        assert(x % 128 == low % 128);
    }
}

/// The byte rule says what its name says: it holds exactly when the number
/// that the digest spells is a multiple of `2^bits`.
pub proof fn low_bits_zero_means_divisible(digest: Seq<u8>, bits: nat)
    requires
        bits < 8 * digest.len(),
    ensures
        low_bits_zero(digest, bits) <==> big_endian_value(digest) % pow2(bits) == 0,
    decreases digest.len(),
{
    let high = big_endian_value(digest.drop_last());
    let low = digest.last() as nat;
    let n = digest.len() as int;
    if bits < 8 {
        within_last_byte(high, low, bits);
        lemma2_to64();
        assert(bits / 8 == 0 && bits % 8 == bits);
        if bits == 0 {
            assert(big_endian_value(digest) % 1 == 0);
        }
    } else {
        let rest = digest.drop_last();
        let less = (bits - 8) as nat;
        low_bits_zero_means_divisible(rest, less);
        lemma_pow2_adds(8, less);
        lemma_pow2_pos(less);
        lemma2_to64();
        low_byte_decides(high, low, pow2(less));
        assert(less / 8 == bits / 8 - 1 && less % 8 == bits % 8);
        assert(digest[n - 1 - 0] == digest.last());
        if low_bits_zero(digest, bits) {
            assert forall|i: int| 0 <= i < less / 8 implies #[trigger] rest[rest.len() - 1 - i]
                == 0 by {
                assert(digest[n - 1 - (i + 1)] == 0);
            }
            assert(rest[rest.len() - 1 - less / 8] == digest[n - 1 - bits / 8]);
            assert(low_bits_zero(rest, less));
        }
        if low == 0 && low_bits_zero(rest, less) {
            assert forall|i: int| 0 <= i < bits / 8 implies #[trigger] digest[n - 1 - i]
                == 0 by {
                if i > 0 {
                    assert(rest[rest.len() - 1 - (i - 1)] == 0);
                }
            }
            assert(rest[rest.len() - 1 - less / 8] == digest[n - 1 - bits / 8]);
            assert(low_bits_zero(digest, bits));
        }
    }
}

} // verus!
