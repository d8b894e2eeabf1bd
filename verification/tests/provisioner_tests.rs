use flooder::calls::{ChainCall, TOKEN};
use flooder::population::derive_range;
use flooder::provisioner::provision;

#[test]
fn provision_emits_one_bond_then_one_declaration_per_validator() {
    let validators = derive_range(0, 4).expect("numeric seeds derive");
    let bond = 100 * TOKEN;
    let plan = provision(&validators, bond, 10);
    assert_eq!(plan.bond_phase.len(), 4);
    assert_eq!(plan.declare_phase.len(), 4);
    for (j, call) in plan.bond_phase.iter().enumerate() {
        match call {
            ChainCall::BondSelf { stash, controller, amount } => {
                assert_eq!(stash, &validators[j].address);
                assert_eq!(controller, &validators[j].address);
                assert!(*amount >= bond);
                assert_eq!(*amount, bond);
            },
            _ => panic!("phase one must hold self-bonds only"),
        }
    }
    for (j, call) in plan.declare_phase.iter().enumerate() {
        match call {
            ChainCall::Validate { stash, commission } => {
                assert_eq!(stash, &validators[j].address);
                assert_eq!(*commission, 10);
            },
            _ => panic!("phase two must hold validation declarations only"),
        }
    }
}
