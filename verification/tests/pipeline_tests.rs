use flooder::calls::{ChainCall, TOKEN};
use flooder::pipeline::run;
use flooder::population::derive_range;

#[test]
fn pipeline_funds_bonds_and_nominates_the_whole_population_in_order() {
    let nominators = derive_range(4, 5).expect("numeric seeds derive");
    let target = derive_range(0, 1).expect("numeric seeds derive")[0].address.clone();
    let bond = 10 * TOKEN;
    let plan = run(&nominators, &target, bond, bond, 2, 2, 3);

    // ceil(5/2) = 3 funding batches, 3 bonding batches, ceil(5/3) = 2
    // nomination batches.
    assert_eq!(plan.transfers.len(), 3);
    assert_eq!(plan.bonds.len(), 3);
    assert_eq!(plan.nominates.len(), 2);

    let addresses: Vec<Vec<u8>> = nominators.iter().map(|n| n.address.clone()).collect();

    let mut funded: Vec<Vec<u8>> = Vec::new();
    for call in &plan.transfers {
        match call {
            ChainCall::Transfer { recipients, amount_each } => {
                assert_eq!(*amount_each, bond);
                assert!(recipients.len() >= 1 && recipients.len() <= 2);
                funded.extend(recipients.iter().cloned());
            },
            _ => panic!("the funding phase must hold transfers only"),
        }
    }
    assert_eq!(funded, addresses);

    let mut bonded: Vec<Vec<u8>> = Vec::new();
    for call in &plan.bonds {
        match call {
            ChainCall::BatchBond { stashes, amount } => {
                assert_eq!(*amount, bond);
                assert!(stashes.len() >= 1 && stashes.len() <= 2);
                bonded.extend(stashes.iter().cloned());
            },
            _ => panic!("the bonding phase must hold batched bonds only"),
        }
    }
    assert_eq!(bonded, addresses);

    let mut nominated: Vec<Vec<u8>> = Vec::new();
    for call in &plan.nominates {
        match call {
            ChainCall::BatchNominate { pairs } => {
                assert!(pairs.len() >= 1 && pairs.len() <= 3);
                for (nominator, t) in pairs {
                    assert_eq!(t, &target);
                    nominated.push(nominator.clone());
                }
            },
            _ => panic!("the nomination phase must hold batched nominations only"),
        }
    }
    assert_eq!(nominated, addresses);
}

#[test]
fn pipeline_batches_are_full_except_the_last() {
    let nominators = derive_range(1, 7).expect("numeric seeds derive");
    let target = vec![9u8; 32];
    let plan = run(&nominators, &target, TOKEN, TOKEN, 3, 7, 2);
    assert_eq!(plan.transfers.len(), 3);
    assert_eq!(plan.bonds.len(), 1);
    assert_eq!(plan.nominates.len(), 4);
    match &plan.transfers[2] {
        ChainCall::Transfer { recipients, .. } => assert_eq!(recipients.len(), 1),
        _ => panic!("the funding phase must hold transfers only"),
    }
    match &plan.nominates[3] {
        ChainCall::BatchNominate { pairs } => assert_eq!(pairs.len(), 1),
        _ => panic!("the nomination phase must hold batched nominations only"),
    }
}
