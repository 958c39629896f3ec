use vstd::prelude::*;

verus! {

/// Reward per point of effort.
pub const EFFORT_RATE: u64 = 1_000_000;

/// Reward per point of quality.
pub const QUALITY_RATE: u64 = 500_000;

/// The plaintext inputs of the bounty circuit.
#[derive(Clone, Copy, Debug, PartialEq, Eq, Structural)]
pub struct BountyInput {
    pub effort: u8,
    pub quality: u8,
}

/// The bounty amount that the circuit computes from its inputs.
pub open spec fn bounty_amount(input: BountyInput) -> int {
    input.effort as int * EFFORT_RATE as int + input.quality as int * QUALITY_RATE as int
}

/// The function that the confidential network evaluates, on plaintext inputs.
pub fn bounty(input: BountyInput) -> (amount: u64)
    ensures
        amount as int == bounty_amount(input),
{
    (input.effort as u64) * EFFORT_RATE + (input.quality as u64) * QUALITY_RATE
}

} // verus!
