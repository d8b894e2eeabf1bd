use flooder::calls::{ChainCall, TOKEN};
use flooder::era::EraClock;
use flooder::orchestrator::{
    derive_population, exit_code, population_plan, provisioning_plan, step, Event, RunConfig,
    Stage,
};
use flooder::payout::verify_payout;
use flooder::population::Identity;

// A synthetic population on the nominator index range: key derivation is
// costly and its determinism is covered by its own tests; the run logic
// only reads the addresses.
fn synthetic_nominators(first_index: u64, count: u64) -> Vec<Identity> {
    (0..count)
        .map(|k| {
            let index = first_index + k;
            let mut address = vec![0u8; 32];
            address[..8].copy_from_slice(&index.to_le_bytes());
            address[8] = 0xaa;
            Identity { index, seed: format!("//{}", index), address }
        })
        .collect()
}

fn config(validators: u64, nominators: u64, eras: u32) -> RunConfig {
    RunConfig {
        validator_count: validators,
        nominator_count: nominators,
        eras_to_observe: eras,
        transfer_batch_limit: 1024,
        bond_batch_limit: 256,
        nominate_batch_limit: 256,
        validator_bond: 1000 * TOKEN,
        nominator_bond: 10 * TOKEN,
        commission: 10,
    }
}

#[test]
fn run_advances_through_the_configured_phases() {
    let cfg = config(2, 3, 2);
    let s = step(&cfg, Stage::Provisioning, Event::CallsSucceeded);
    assert_eq!(s, Stage::Populating);
    let s = step(&cfg, s, Event::CallsSucceeded);
    assert_eq!(s, Stage::Warming { boundaries_passed: 0 });
    let s = step(&cfg, s, Event::EraPassed);
    assert_eq!(s, Stage::Warming { boundaries_passed: 1 });
    let s = step(&cfg, s, Event::EraPassed);
    assert_eq!(s, Stage::Claiming { iterations_done: 0 });
    let s = step(&cfg, s, Event::PayoutChecked { ok: true });
    assert_eq!(s, Stage::AwaitingEra { iterations_done: 1 });
    let s = step(&cfg, s, Event::EraPassed);
    assert_eq!(s, Stage::Claiming { iterations_done: 1 });
    let s = step(&cfg, s, Event::PayoutChecked { ok: true });
    assert_eq!(s, Stage::Complete);
    assert_eq!(exit_code(&s), 0);
}

#[test]
fn a_failed_batch_ends_the_run_nonzero() {
    let cfg = config(1, 1, 1);
    for stage in [
        Stage::Provisioning,
        Stage::Populating,
        Stage::Warming { boundaries_passed: 0 },
        Stage::Claiming { iterations_done: 0 },
        Stage::AwaitingEra { iterations_done: 0 },
    ] {
        let s = step(&cfg, stage, Event::CallsFailed);
        assert_eq!(s, Stage::Failed);
        assert_eq!(exit_code(&s), 1);
    }
}

#[test]
fn a_failed_verification_ends_the_run_and_stays_ended() {
    let cfg = config(1, 1, 5);
    let s = step(
        &cfg,
        Stage::Claiming { iterations_done: 3 },
        Event::PayoutChecked { ok: false },
    );
    assert_eq!(s, Stage::Failed);
    let s = step(&cfg, s, Event::EraPassed);
    assert_eq!(s, Stage::Failed);
    assert_eq!(exit_code(&s), 1);
}

#[test]
fn an_unexpected_event_ends_the_run() {
    let cfg = config(1, 1, 1);
    let s = step(&cfg, Stage::Provisioning, Event::EraPassed);
    assert_eq!(s, Stage::Failed);
}

// Scenario: four validators, 1024 nominators all bonded and nominated
// toward the first validator, two era boundaries of warm-up, then ten
// payout cycles whose balance strictly increases each time.
#[test]
fn full_run_four_validators_1024_nominators_ten_eras() {
    let cfg = config(4, 1024, 10);
    let small = config(4, 8, 10);
    let (validators, derived) = derive_population(&small).expect("numeric seeds derive");
    assert_eq!(validators.len(), 4);
    assert_eq!(derived.len(), 8);
    assert_ne!(validators[3].address, derived[0].address);
    let nominators = synthetic_nominators(4, 1024);
    assert_eq!(nominators.len(), 1024);

    let pplan = provisioning_plan(&cfg, &validators);
    assert_eq!(pplan.bond_phase.len(), 4);
    assert_eq!(pplan.declare_phase.len(), 4);

    let nplan = population_plan(&cfg, &validators, &nominators);
    // 1024 nominators under a 1024 transfer ceiling: one funding batch.
    assert_eq!(nplan.transfers.len(), 1);
    assert_eq!(nplan.bonds.len(), 4);
    assert_eq!(nplan.nominates.len(), 4);
    for call in &nplan.nominates {
        match call {
            ChainCall::BatchNominate { pairs } => {
                for (_, t) in pairs {
                    assert_eq!(t, &validators[0].address);
                }
            },
            _ => panic!("the nomination phase must hold batched nominations only"),
        }
    }

    let mut stage = Stage::Provisioning;
    stage = step(&cfg, stage, Event::CallsSucceeded);
    stage = step(&cfg, stage, Event::CallsSucceeded);

    let mut clock = EraClock::new(0);
    let mut era: u32 = 0;
    while !matches!(stage, Stage::Claiming { .. }) {
        era += 1;
        if clock.observe(era).is_some() {
            stage = step(&cfg, stage, Event::EraPassed);
        }
    }
    assert_eq!(stage, Stage::Claiming { iterations_done: 0 });
    assert_eq!(era, 2);

    let mut balance: u128 = 1_000_000;
    let mut verified: u32 = 0;
    loop {
        match stage {
            Stage::Claiming { .. } => {
                let before = balance;
                balance += 17;
                let outcome = verify_payout(era - 1, validators[0].address.clone(), before, balance);
                assert!(outcome.is_ok());
                verified += 1;
                stage = step(&cfg, stage, Event::PayoutChecked { ok: outcome.is_ok() });
            },
            Stage::AwaitingEra { .. } => {
                era += 1;
                if clock.observe(era).is_some() {
                    stage = step(&cfg, stage, Event::EraPassed);
                }
            },
            _ => break,
        }
    }
    assert_eq!(verified, 10);
    assert_eq!(stage, Stage::Complete);
    assert_eq!(exit_code(&stage), 0);
}

// The same run, except the seventh payout observes an unchanged balance:
// the run must end failed, reporting that era and stash, with no further
// verifications.
#[test]
fn full_run_halts_on_the_first_unchanged_balance() {
    let cfg = config(4, 8, 10);
    let validators = synthetic_nominators(0, 4);
    let mut stage = Stage::Provisioning;
    stage = step(&cfg, stage, Event::CallsSucceeded);
    stage = step(&cfg, stage, Event::CallsSucceeded);
    stage = step(&cfg, stage, Event::EraPassed);
    stage = step(&cfg, stage, Event::EraPassed);

    let mut era: u32 = 2;
    let mut balance: u128 = 500;
    let mut verifications: u32 = 0;
    loop {
        match stage {
            Stage::Claiming { .. } => {
                let before = balance;
                if verifications < 6 {
                    balance += 1;
                }
                verifications += 1;
                let outcome = verify_payout(era - 1, validators[0].address.clone(), before, balance);
                if let Err(f) = &outcome {
                    assert_eq!(f.era, era - 1);
                    assert_eq!(f.stash, validators[0].address);
                    assert_eq!(f.balance_before, f.balance_after);
                }
                stage = step(&cfg, stage, Event::PayoutChecked { ok: outcome.is_ok() });
            },
            Stage::AwaitingEra { .. } => {
                era += 1;
                stage = step(&cfg, stage, Event::EraPassed);
            },
            _ => break,
        }
    }
    assert_eq!(verifications, 7);
    assert_eq!(stage, Stage::Failed);
    assert_eq!(exit_code(&stage), 1);
}
