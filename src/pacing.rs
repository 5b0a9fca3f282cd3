//! How far a sub-graph must run ahead of the primary graph, and how large the
//! ring buffer between them is.
//!
//! A sub-graph at rate `R` feeds a primary graph at rate `S` through a ring
//! buffer. Before the primary graph computes its block number `m`, the
//! sub-graph must have computed `ceil(m * R / S)` blocks, plus a few more so
//! that scheduling jitter never lets the buffer run dry.
use vstd::prelude::*;

verus! {

/// Sub-graph blocks computed beyond what the primary graph strictly needs.
pub const LOOKAHEAD_BLOCKS: u64 = 4;

/// Smallest ring buffer between a sub-graph and the primary graph, in samples.
pub const MIN_BRIDGE_CAPACITY: u64 = 8192;

/// Largest number of interleaved channels carried by one bridge.
pub const MAX_BRIDGE_CHANNELS: usize = 8;

/// `a / b` rounded up.
pub open spec fn ceil_div(a: nat, b: nat) -> nat
    recommends
        b > 0,
{
    ((a + b - 1) as nat) / b
}

/// Sub-graph blocks at `rate` needed before the primary graph, at `main_rate`,
/// computes its block number `main_blocks`.
pub open spec fn blocks_needed(main_blocks: nat, rate: nat, main_rate: nat) -> nat {
    ceil_div(main_blocks * rate, main_rate) + LOOKAHEAD_BLOCKS as nat
}

/// The smaller of two numbers.
pub open spec fn min_nat(a: nat, b: nat) -> nat {
    if a <= b {
        a
    } else {
        b
    }
}

/// The number of blocks a sub-graph at `rate` must have computed before the
/// primary graph at `main_rate` computes its block number `main_blocks`;
/// `u64::MAX` where that number is larger.
pub fn sub_blocks_needed(main_blocks: u64, rate: u32, main_rate: u32) -> (r: u64)
    requires
        main_rate > 0,
    ensures
        r == min_nat(blocks_needed(main_blocks as nat, rate as nat, main_rate as nat), u64::MAX as nat),
{
    let m = main_blocks as u128;
    let rr = rate as u128;
    assert(m * rr <= 0xffff_ffff_ffff_ffffu128 * 0xffff_ffffu128) by (nonlinear_arith)
        requires
            m <= 0xffff_ffff_ffff_ffffu128,
            rr <= 0xffff_ffffu128,
    ;
    let product: u128 = m * rr;
    let num: u128 = product + main_rate as u128 - 1;
    let c: u128 = num / (main_rate as u128);
    assert(c <= num) by (nonlinear_arith)
        requires
            main_rate > 0,
            c == num / (main_rate as u128),
    ;
    let needed: u128 = c + LOOKAHEAD_BLOCKS as u128;
    if needed > u64::MAX as u128 {
        u64::MAX
    } else {
        needed as u64
    }
}

/// The smallest power of two that is at least `x`.
pub open spec fn next_pow2(x: nat) -> nat
    decreases x,
{
    if x <= 1 {
        1
    } else {
        2 * next_pow2(((x + 1) / 2) as nat)
    }
}

proof fn lemma_next_pow2_bound(x: nat)
    requires
        x >= 2,
    ensures
        next_pow2(x) <= 2 * x - 2,
    decreases x,
{
    let c = ((x + 1) / 2) as nat;
    assert(next_pow2(x) == 2 * next_pow2(c));
    if c >= 2 {
        lemma_next_pow2_bound(c);
    } else {
        assert(next_pow2(c) == 1);
    }
}

/// The smallest power of two that is at least `x`.
fn next_power_of_two(x: u64) -> (r: u64)
    requires
        x <= 0x1_0000_0000_0000,
    ensures
        r == next_pow2(x as nat),
    decreases x,
{
    if x <= 1 {
        1
    } else {
        proof {
            if (x + 1) / 2 >= 2 {
                lemma_next_pow2_bound(((x + 1) / 2) as nat);
            }
        }
        2 * next_power_of_two((x + 1) / 2)
    }
}

/// Capacity, in samples, of the ring buffer between a sub-graph at `rate`
/// and the primary graph: a power of two holding about 100 ms of interleaved
/// audio, and at least `MIN_BRIDGE_CAPACITY`.
pub open spec fn bridge_capacity_spec(rate: nat, channels: nat) -> nat {
    let p = next_pow2((rate / 10) * channels);
    if p >= MIN_BRIDGE_CAPACITY {
        p
    } else {
        MIN_BRIDGE_CAPACITY as nat
    }
}

/// Capacity, in samples, of the ring buffer between a sub-graph at `rate`
/// carrying `channels` channels and the primary graph.
pub fn bridge_capacity(rate: u32, channels: usize) -> (r: u64)
    requires
        channels <= MAX_BRIDGE_CHANNELS,
    ensures
        r == bridge_capacity_spec(rate as nat, channels as nat),
{
    let frames = (rate / 10) as u64;
    assert(frames * (channels as u64) <= 0xffff_ffffu64 * 8) by (nonlinear_arith)
        requires
            frames <= 0xffff_ffffu64,
            channels <= 8,
    ;
    let samples = frames * (channels as u64);
    let p = next_power_of_two(samples);
    proof {
        if samples >= 2 {
            lemma_next_pow2_bound(samples as nat);
        }
    }
    if p >= MIN_BRIDGE_CAPACITY {
        p
    } else {
        MIN_BRIDGE_CAPACITY
    }
}

} // verus!
