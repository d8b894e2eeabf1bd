//! Payout verification: once per era the harness submits a payout claim
//! for the previous era and confirms, by reading the stash balance before
//! and after, that the balance strictly increased. The check is made, never
//! assumed; a balance that failed to grow is a verification failure that
//! must end the run, not a silent no-op.

use vstd::prelude::*;

use crate::calls::ChainCall;
use crate::util::clone_bytes;

verus! {

/// One completed payout cycle: the era claimed, the rewarded stash, and
/// the stash balance observed before and after the claim.
#[derive(Debug)]
pub struct PayoutRecord {
    pub era: u32,
    pub stash: Vec<u8>,
    pub balance_before: u128,
    pub balance_after: u128,
}

/// A payout claim whose balance did not strictly increase, reported with
/// the era and stash so the failure is diagnosable.
#[derive(Debug)]
pub struct PayoutFailure {
    pub era: u32,
    pub stash: Vec<u8>,
    pub balance_before: u128,
    pub balance_after: u128,
}

/// The payout-claim operation for one era and stash.
pub fn claim_payout(stash: Vec<u8>, era: u32) -> (r: ChainCall)
    ensures
        r matches ChainCall::ClaimPayout { stash: st, era: e } && st == stash && e == era,
{
    ChainCall::ClaimPayout { stash, era }
}

/// The success criterion of one payout cycle: accepts exactly where the
/// balance strictly increased, and otherwise reports the era and stash of
/// the failed claim.
pub fn verify_payout(era: u32, stash: Vec<u8>, balance_before: u128, balance_after: u128) -> (r:
    Result<PayoutRecord, PayoutFailure>)
    ensures
        r is Ok <==> balance_after > balance_before,
        r matches Ok(rec) ==> rec.era == era && rec.stash@ == stash@ && rec.balance_before
            == balance_before && rec.balance_after == balance_after,
        r matches Err(f) ==> f.era == era && f.stash@ == stash@ && f.balance_before
            == balance_before && f.balance_after == balance_after,
{
    if balance_after > balance_before {
        Ok(PayoutRecord { era, stash, balance_before, balance_after })
    } else {
        Err(PayoutFailure { era, stash, balance_before, balance_after })
    }
}

} // verus!
