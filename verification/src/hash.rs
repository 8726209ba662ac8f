use vstd::prelude::*;

verus! {

/// Multiplier that `universal` folds into its running factor after each byte.
pub const UNIVERSAL_B: u128 = 27183;

/// Initial value of the running factor of `universal`.
pub const UNIVERSAL_A0: u128 = 31415;

/// The running hash after one more byte: `a * hash * level + byte` modulo 2^128.
pub open spec fn universal_step(a: u128, hash: u128, level: u32, byte: u8) -> u128 {
    vstd::wrapping::u128_specs::wrapping_add(
        vstd::wrapping::u128_specs::wrapping_mul(
            vstd::wrapping::u128_specs::wrapping_mul(a, hash),
            level as u128,
        ),
        byte as u128,
    )
}

/// State `(a, hash)` of the universal hash after the first `n` bytes of `bytes`:
/// `hash' = a * hash * level + byte` and `a' = a * B`, all modulo 2^128.
pub open spec fn universal_state(bytes: Seq<u8>, level: u32, n: nat) -> (u128, u128)
    decreases n,
{
    if n == 0 {
        (UNIVERSAL_A0, 0u128)
    } else {
        let (a, h) = universal_state(bytes, level, (n - 1) as nat);
        (
            vstd::wrapping::u128_specs::wrapping_mul(a, UNIVERSAL_B),
            universal_step(a, h, level, bytes[n - 1]),
        )
    }
}

/// The universal hash of `bytes` at `level`: the low 32 bits of the final state.
#[verifier::opaque]
pub open spec fn spec_universal(bytes: Seq<u8>, level: u32) -> u32 {
    universal_state(bytes, level, bytes.len()).1 as u32
}

/// Hashes `bytes` with a multiplicative universal hash parameterised by `level`.
/// Every step is taken modulo 2^128.
pub fn universal(bytes: &[u8], level: u32) -> (r: u32)
    ensures
        r == spec_universal(bytes@, level),
{
    let lvl: u128 = level as u128;
    let mut a: u128 = UNIVERSAL_A0;
    let mut hash: u128 = 0;
    let mut i: usize = 0;
    while i < bytes.len()
        invariant
            i <= bytes.len(),
            lvl == level as u128,
            (a, hash) == universal_state(bytes@, level, i as nat),
        decreases bytes.len() - i,
    {
        hash = a.wrapping_mul(hash).wrapping_mul(lvl).wrapping_add(bytes[i] as u128);
        a = a.wrapping_mul(UNIVERSAL_B);
        i = i + 1;
    }
    proof {
        reveal(spec_universal);
    }
    hash as u32
}

/// The hash folds every byte: the state after the bytes `bytes` followed by
/// `b` is the state after `bytes` moved one step by `b`, and the hash is the
/// low 32 bits of the running hash after the last byte.
pub proof fn lemma_universal_push(bytes: Seq<u8>, b: u8, level: u32)
    ensures
        universal_state(bytes.push(b), level, bytes.len() + 1) == ({
            let (a, h) = universal_state(bytes, level, bytes.len());
            (vstd::wrapping::u128_specs::wrapping_mul(a, UNIVERSAL_B), universal_step(a, h, level, b))
        }),
        spec_universal(bytes.push(b), level) == ({
            let (a, h) = universal_state(bytes, level, bytes.len());
            universal_step(a, h, level, b) as u32
        }),
{
    reveal(spec_universal);
    lemma_universal_prefix(bytes, b, level, bytes.len());
}

/// The state after the first `n` bytes depends on those bytes alone.
pub proof fn lemma_universal_prefix(bytes: Seq<u8>, b: u8, level: u32, n: nat)
    requires
        n <= bytes.len(),
    ensures
        universal_state(bytes.push(b), level, n) == universal_state(bytes, level, n),
    decreases n,
{
    if n > 0 {
        lemma_universal_prefix(bytes, b, level, (n - 1) as nat);
        assert(bytes.push(b)[n - 1] == bytes[n - 1]);
    }
}

/// The hash of no bytes is zero.
pub proof fn lemma_universal_empty(level: u32)
    ensures
        spec_universal(Seq::empty(), level) == 0,
{
    reveal(spec_universal);
}

} // verus!
