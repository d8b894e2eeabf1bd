//! Descriptors for the state-changing operations the harness submits, and
//! the one-shot staking commands that prepare single operations from plain
//! command-line values.

use vstd::prelude::*;

verus! {

/// Smallest unit count of one whole token.
pub const TOKEN: u128 = 1_000_000_000_000;

/// One remote operation, described by plain values. Addresses are 32-byte
/// account identifiers. A batched variant carries every sub-operation of
/// one submitted unit of work.
pub enum ChainCall {
    Transfer { recipients: Vec<Vec<u8>>, amount_each: u128 },
    BondSelf { stash: Vec<u8>, controller: Vec<u8>, amount: u128 },
    Validate { stash: Vec<u8>, commission: u8 },
    BatchBond { stashes: Vec<Vec<u8>>, amount: u128 },
    BatchNominate { pairs: Vec<(Vec<u8>, Vec<u8>)> },
    ClaimPayout { stash: Vec<u8>, era: u32 },
    SetStakingLimits { minimal_nominator_stake: u128, minimal_validator_stake: u128 },
    ForceNewEra,
}

/// The account identifier that SS58 decoding assigns to an address string,
/// or nothing where the string is not a well-formed SS58 address.
pub uninterp spec fn ss58_decode(s: Seq<char>) -> Option<Seq<u8>>;

/// Relies on sp_core::crypto::Ss58Codec::from_ss58check_with_version for
/// AccountId32: decoding an SS58 address string (base-58 decoding, length,
/// format and checksum tests) is a function of the string alone, and a
/// decoded account identifier is 32 bytes.
#[verifier::external_body]
fn parse_ss58_account(s: &str) -> (r: Option<Vec<u8>>)
    ensures
        match r {
            Some(a) => ss58_decode(s@) == Some(a@) && a@.len() == 32,
            None => ss58_decode(s@) is None,
        },
{
    match <sp_core::crypto::AccountId32 as sp_core::crypto::Ss58Codec>::from_ss58check_with_version(
        s,
    ) {
        Ok((a, _)) => Some(<sp_core::crypto::AccountId32 as AsRef<[u8; 32]>>::as_ref(&a).to_vec()),
        Err(_) => None,
    }
}

/// A controller address string that SS58 decoding rejects.
#[derive(Debug)]
pub enum CommandError {
    BadControllerAddress,
}

/// Prepares a one-shot bonding operation: the stake is the whole-token
/// count scaled to units, the controller is the decoded address. Rejects
/// exactly the strings that SS58 decoding rejects.
pub fn bond(initial_stake_in_tokens: u32, controller_account: &String) -> (r: Result<
    ChainCall,
    CommandError,
>)
    ensures
        match r {
            Ok(c) => ss58_decode(controller_account@) matches Some(a) && c matches
                ChainCall::BondSelf { stash, controller, amount } && controller@ == a && stash@
                == a && amount == initial_stake_in_tokens * TOKEN,
            Err(e) => ss58_decode(controller_account@) is None && e
                == CommandError::BadControllerAddress,
        },
{
    proof {
        assert((initial_stake_in_tokens as u128) * TOKEN <= u32::MAX as u128 * TOKEN)
            by (nonlinear_arith)
            requires
                initial_stake_in_tokens <= u32::MAX,
        ;
    }
    let initial_stake = (initial_stake_in_tokens as u128) * TOKEN;
    match parse_ss58_account(controller_account.as_str()) {
        Some(controller) => {
            let stash = crate::util::clone_bytes(&controller);
            Ok(ChainCall::BondSelf { stash, controller, amount: initial_stake })
        },
        None => Err(CommandError::BadControllerAddress),
    }
}

/// Prepares a one-shot validation declaration: the signing stash declares
/// candidacy with the given commission.
pub fn validate(stash: Vec<u8>, commission_percentage: u8) -> (r: ChainCall)
    requires
        commission_percentage <= 100,
    ensures
        r matches ChainCall::Validate { stash: st, commission } && st == stash && commission
            == commission_percentage,
{
    ChainCall::Validate { stash, commission: commission_percentage }
}

/// Prepares a staking-limits update: both whole-token minima scaled to
/// units.
pub fn set_staking_limits(minimal_nominator_stake_tokens: u64, minimal_validator_stake_tokens: u64)
    -> (r: ChainCall)
    ensures
        r matches ChainCall::SetStakingLimits {
            minimal_nominator_stake,
            minimal_validator_stake,
        } && minimal_nominator_stake == minimal_nominator_stake_tokens * TOKEN
            && minimal_validator_stake == minimal_validator_stake_tokens * TOKEN,
{
    proof {
        assert((minimal_nominator_stake_tokens as u128) * TOKEN <= u64::MAX as u128 * TOKEN
            && (minimal_validator_stake_tokens as u128) * TOKEN <= u64::MAX as u128 * TOKEN)
            by (nonlinear_arith)
            requires
                minimal_nominator_stake_tokens <= u64::MAX,
                minimal_validator_stake_tokens <= u64::MAX,
        ;
    }
    ChainCall::SetStakingLimits {
        minimal_nominator_stake: (minimal_nominator_stake_tokens as u128) * TOKEN,
        minimal_validator_stake: (minimal_validator_stake_tokens as u128) * TOKEN,
    }
}

/// Prepares a forced era transition.
pub fn force_new_era() -> (r: ChainCall)
    ensures
        r == ChainCall::ForceNewEra,
{
    ChainCall::ForceNewEra
}

} // verus!
