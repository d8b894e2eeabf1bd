use flooder::calls::{bond, force_new_era, set_staking_limits, validate, ChainCall, CommandError, TOKEN};

// The well-known development account "Alice": its SS58 address and the
// 32-byte sr25519 public key the address encodes.
const ALICE_SS58: &str = "5GrwvaEF5zXb26Fz9rcQpDWS57CtERHpNehXCPcNoHGKutQY";
const ALICE_PUBKEY: [u8; 32] = [
    0xd4, 0x35, 0x93, 0xc7, 0x15, 0xfd, 0xd3, 0x1c, 0x61, 0x14, 0x1a, 0xbd, 0x04, 0xa9, 0x9f,
    0xd6, 0x82, 0x2c, 0x85, 0x58, 0x85, 0x4c, 0xcd, 0xe3, 0x9a, 0x56, 0x84, 0xe7, 0xa5, 0x6d,
    0xa2, 0x7d,
];

#[test]
fn bond_scales_tokens_and_decodes_the_controller() {
    let call = bond(10, &ALICE_SS58.to_string()).expect("a valid address decodes");
    match call {
        ChainCall::BondSelf { stash, controller, amount } => {
            assert_eq!(amount, 10 * TOKEN);
            assert_eq!(amount, 10_000_000_000_000u128);
            assert_eq!(controller, ALICE_PUBKEY.to_vec());
            assert_eq!(stash, controller);
        },
        _ => panic!("bond must prepare a self-bond"),
    }
}

#[test]
fn bond_rejects_a_malformed_address() {
    let r = bond(1, &"not an address".to_string());
    assert!(matches!(r, Err(CommandError::BadControllerAddress)));
    let r2 = bond(1, &String::new());
    assert!(matches!(r2, Err(CommandError::BadControllerAddress)));
}

#[test]
fn bond_rejects_an_address_with_a_broken_checksum() {
    // The Alice address with its last character changed.
    let broken = "5GrwvaEF5zXb26Fz9rcQpDWS57CtERHpNehXCPcNoHGKutQZ";
    let r = bond(1, &broken.to_string());
    assert!(matches!(r, Err(CommandError::BadControllerAddress)));
}

#[test]
fn validate_carries_the_stash_and_commission() {
    let call = validate(vec![1, 2, 3], 15);
    match call {
        ChainCall::Validate { stash, commission } => {
            assert_eq!(stash, vec![1, 2, 3]);
            assert_eq!(commission, 15);
        },
        _ => panic!("validate must prepare a validation declaration"),
    }
}

#[test]
fn set_staking_limits_scales_both_minima() {
    let call = set_staking_limits(3, 750);
    match call {
        ChainCall::SetStakingLimits { minimal_nominator_stake, minimal_validator_stake } => {
            assert_eq!(minimal_nominator_stake, 3 * TOKEN);
            assert_eq!(minimal_validator_stake, 750 * TOKEN);
        },
        _ => panic!("set_staking_limits must prepare a limits update"),
    }
}

#[test]
fn force_new_era_is_the_era_bump() {
    assert!(matches!(force_new_era(), ChainCall::ForceNewEra));
}
