//! Deterministic hashing.
//!
//! A fixed xorshift-multiply avalanche mixer turns a cell position, tick
//! number and channel into a pseudo-random 32-bit word. The output is a
//! pure function of the inputs: identical inputs give bit-identical
//! outputs on every run, which is what makes the stochastic rounding of
//! particle movement reproducible.

use vstd::prelude::*;

verus! {

/// `2^32`.
pub const POW32: u64 = 0x1_0000_0000;

/// Product of two words, truncated to 32 bits.
pub open spec fn mul32(a: u32, b: u32) -> u32 {
    (((a as u64) * (b as u64)) % 0x1_0000_0000) as u32
}

/// The avalanche mixer, step by step: xor-shift by 17, 11, 15 and 14 bits,
/// interleaved with three fixed odd multipliers.
pub open spec fn hash_spec(x: u32) -> u32 {
    let a = x ^ (x >> 17);
    let b = mul32(a, 0xed5ad4bb);
    let c = b ^ (b >> 11);
    let d = mul32(c, 0xac4c1b51);
    let e = d ^ (d >> 15);
    let f = mul32(e, 0x31848bab);
    f ^ (f >> 14)
}

/// The word fed to the mixer: tick, position and channel folded together
/// with multipliers keyed to the grid dimension `n`, truncated to 32 bits.
pub open spec fn rand_input_spec(n: u32, x: u32, y: u32, t: u32, c: u32) -> u32 {
    (((t as u64) + (x as u64) * (n as u64) + (y as u64) * (n as u64) * (n as u64) + (c as u64)
        * 1063) % 0x1_0000_0000) as u32
}

/// The pseudo-random word for cell `(x, y)`, tick `t` and channel `c` on a
/// grid of dimension `n`.
pub open spec fn rand_spec(n: u32, x: u32, y: u32, t: u32, c: u32) -> u32 {
    hash_spec(rand_input_spec(n, x, y, t, c))
}

/// The avalanche mixer.
pub fn hash(x: u32) -> (r: u32)
    ensures
        r == hash_spec(x),
{
    let a = x ^ (x >> 17);
    let b = (((a as u64) * 0xed5ad4bb) % 0x1_0000_0000) as u32;
    let c = b ^ (b >> 11);
    let d = (((c as u64) * 0xac4c1b51) % 0x1_0000_0000) as u32;
    let e = d ^ (d >> 15);
    let f = (((e as u64) * 0x31848bab) % 0x1_0000_0000) as u32;
    f ^ (f >> 14)
}

/// The pseudo-random word for a cell, tick and channel.
pub fn rand(n: u32, x: u32, y: u32, t: u32, c: u32) -> (r: u32)
    requires
        n <= 4096,
        x < n,
        y < n,
        c <= 8,
    ensures
        r == rand_spec(n, x, y, t, c),
{
    proof {
        lemma_rand_input_bound(n as int, x as int, y as int);
    }
    let input = (((t as u64) + (x as u64) * (n as u64) + (y as u64) * (n as u64) * (n as u64) + (
    c as u64) * 1063) % 0x1_0000_0000) as u32;
    hash(input)
}

/// The folded input stays far below `u64::MAX` for any supported grid.
proof fn lemma_rand_input_bound(n: int, x: int, y: int)
    by (nonlinear_arith)
    requires
        0 <= x < n,
        0 <= y < n,
        n <= 4096,
    ensures
        x * n < 0x1000_0000,
        y * n < 0x1000_0000,
        y * n * n < 0x10_0000_0000,
{
}

} // verus!
