//! Host-runtime adapters and fixed parameters that accompany the engine:
//! the fee polynomial of the transaction-payment adapter, the timestamp
//! capture hook, the asset-to-native credit swapper, and the reward-cycle
//! parameters.
use vstd::prelude::*;

verus! {

/// One coefficient of a weight-to-fee polynomial: an integer part plus a
/// rational fraction, applied at the given degree.
#[derive(Clone, Copy, PartialEq, Eq, Structural, Debug)]
pub struct FeeCoefficient {
    pub degree: u8,
    pub negative: bool,
    pub coeff_integer: u128,
    pub coeff_frac_num: u128,
    pub coeff_frac_den: u128,
}

/// Maps extrinsic weight to fee so that one base-weight extrinsic costs a
/// tenth of the currency unit.
pub struct WeightToFee;

impl WeightToFee {
    /// The polynomial's single degree-one coefficient: the currency unit
    /// divided by ten times the base extrinsic weight, split into an integer
    /// part and a remainder fraction.
    pub fn polynomial(base_extrinsic_weight: u64) -> (c: FeeCoefficient)
        requires
            base_extrinsic_weight > 0,
        ensures
            c.degree == 1,
            !c.negative,
            c.coeff_integer == 1_000_000_000_000u128 as int / (10 * base_extrinsic_weight) as int,
            c.coeff_frac_num == 1_000_000_000_000u128 as int % (10 * base_extrinsic_weight) as int,
            c.coeff_frac_den == 10 * base_extrinsic_weight,
    {
        let p: u128 = 1_000_000_000_000;
        let q: u128 = 10 * (base_extrinsic_weight as u128);
        FeeCoefficient {
            degree: 1,
            negative: false,
            coeff_integer: p / q,
            coeff_frac_num: p % q,
            coeff_frac_den: q,
        }
    }
}

/// Captures the moment the timestamp pallet sets, for inspection.
pub struct MockOnTimestampSet {
    pub captured_moment: Option<u64>,
}

impl MockOnTimestampSet {
    /// Records the freshly set moment.
    pub fn on_timestamp_set(&mut self, moment: u64)
        ensures
            final(self).captured_moment == Some(moment),
    {
        self.captured_moment = Some(moment);
    }
}

/// Swaps an asset credit into native currency one for one.
pub struct AlternateTokenSwapper;

impl AlternateTokenSwapper {
    /// The native imbalance matching an asset credit.
    pub fn swap(credit: u128) -> (r: u128)
        ensures
            r == credit,
    {
        credit
    }
}

/// Drops collected fees and tips: they are burned, never redistributed.
pub struct DealWithFees;

impl DealWithFees {
    /// Consumes the fee imbalances without redistributing them.
    pub fn on_unbalanceds(fees_then_tips: Vec<u128>) -> (burned: u128)
        ensures
            burned == 0,
    {
        let _ = fees_then_tips;
        0
    }
}

/// The key under which the governance pallet account is generated.
pub fn get_account_generation_key() -> (r: u32)
    ensures
        r == 1,
{
    1
}

/// The fixed parameters of a reward cycle: start block, end block, initial
/// claimable percentage, and cycle id.
pub fn get_parameters_for_reward_cycle() -> (r: (u64, u64, u32, u32))
    ensures
        r == (20u64, 120u64, 25u32, 1u32),
{
    (20, 120, 25, 1)
}

} // verus!
