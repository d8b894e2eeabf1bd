//! Two-phase validator provisioning: every validator bonds self-stake, and
//! only after the whole bonding phase completes does every validator
//! declare validation with the configured commission. Operations within a
//! phase are mutually independent and may be submitted with unbounded
//! fan-out; the phases themselves are strictly ordered.

use vstd::prelude::*;

use crate::calls::ChainCall;
use crate::model::{
    apply_calls, bonds_account, bonded_stashes, commission_of, is_bonding, is_validating,
    lemma_bonding_calls, lemma_validating_calls, stake_of, validated_stashes, validates_account,
    ChainState,
};
use crate::population::Identity;
use crate::util::clone_bytes;

verus! {

/// The addresses of a population, in index order.
pub open spec fn addresses_of(ids: Seq<Identity>) -> Seq<Seq<u8>> {
    ids.map_values(|id: Identity| id.address@)
}

/// The two strictly ordered phases of validator provisioning.
pub struct ProvisionPlan {
    pub bond_phase: Vec<ChainCall>,
    pub declare_phase: Vec<ChainCall>,
}

/// The plan provisions exactly the given validators: one self-bond of
/// `bond_amount` per validator in the first phase, one validation
/// declaration with `commission` per validator in the second, in index
/// order.
pub open spec fn provision_plan_ok(
    plan: ProvisionPlan,
    validators: Seq<Identity>,
    bond_amount: u128,
    commission: u8,
) -> bool {
    &&& plan.bond_phase@.len() == validators.len()
    &&& plan.declare_phase@.len() == validators.len()
    &&& forall|j: int|
        0 <= j < validators.len() ==> ((#[trigger] plan.bond_phase@[j]) matches ChainCall::BondSelf {
            stash,
            controller,
            amount,
        } && stash@ == validators[j].address@ && controller@ == validators[j].address@ && amount
            == bond_amount)
    &&& forall|j: int|
        0 <= j < validators.len() ==> ((#[trigger] plan.declare_phase@[j])
            matches ChainCall::Validate { stash, commission: c } && stash@
            == validators[j].address@ && c == commission)
}

/// Builds the provisioning plan for a validator set: phase one bonds
/// `bond_amount` with each validator as its own controller, phase two
/// declares validation with `commission`.
pub fn provision(validators: &Vec<Identity>, bond_amount: u128, commission: u8) -> (plan:
    ProvisionPlan)
    requires
        commission <= 100,
    ensures
        provision_plan_ok(plan, validators@, bond_amount, commission),
{
    let mut bond_phase: Vec<ChainCall> = Vec::new();
    let mut declare_phase: Vec<ChainCall> = Vec::new();
    let mut j: usize = 0;
    while j < validators.len()
        invariant
            j <= validators@.len(),
            bond_phase@.len() == j,
            declare_phase@.len() == j,
            forall|k: int|
                0 <= k < j ==> ((#[trigger] bond_phase@[k]) matches ChainCall::BondSelf {
                    stash,
                    controller,
                    amount,
                } && stash@ == validators@[k].address@ && controller@ == validators@[k].address@
                    && amount == bond_amount),
            forall|k: int|
                0 <= k < j ==> ((#[trigger] declare_phase@[k]) matches ChainCall::Validate {
                    stash,
                    commission: c,
                } && stash@ == validators@[k].address@ && c == commission),
        decreases validators@.len() - j,
    {
        let stash = clone_bytes(&validators[j].address);
        let controller = clone_bytes(&validators[j].address);
        bond_phase.push(ChainCall::BondSelf { stash, controller, amount: bond_amount });
        let declare_stash = clone_bytes(&validators[j].address);
        declare_phase.push(ChainCall::Validate { stash: declare_stash, commission });
        j = j + 1;
    }
    ProvisionPlan { bond_phase, declare_phase }
}

/// Provisioning takes effect: in any starting state, after the bonding
/// phase and then the declaration phase of a well-formed plan, every
/// validator's recorded stake is exactly `bond_amount` and its recorded
/// commission is exactly `commission`.
pub proof fn lemma_provision_effect(
    plan: ProvisionPlan,
    validators: Seq<Identity>,
    bond_amount: u128,
    commission: u8,
    s0: ChainState,
    j: int,
)
    requires
        provision_plan_ok(plan, validators, bond_amount, commission),
        0 <= j < validators.len(),
    ensures
        stake_of(
            apply_calls(apply_calls(s0, plan.bond_phase@), plan.declare_phase@),
            validators[j].address@,
        ) == Some(bond_amount),
        commission_of(
            apply_calls(apply_calls(s0, plan.bond_phase@), plan.declare_phase@),
            validators[j].address@,
        ) == Some(commission),
{
    let a = validators[j].address@;
    let s1 = apply_calls(s0, plan.bond_phase@);
    let s2 = apply_calls(s1, plan.declare_phase@);
    assert forall|i: int| 0 <= i < plan.bond_phase@.len() implies is_bonding(
        #[trigger] plan.bond_phase@[i],
        bond_amount,
    ) by {}
    lemma_bonding_calls(s0, plan.bond_phase@, bond_amount);
    assert(bonded_stashes(plan.bond_phase@[j]).contains(a)) by {
        assert(bonded_stashes(plan.bond_phase@[j])[0] == a);
    }
    assert(bonds_account(plan.bond_phase@, a));
    assert(stake_of(s1, a) == Some(bond_amount));
    assert forall|i: int| 0 <= i < plan.declare_phase@.len() implies is_validating(
        #[trigger] plan.declare_phase@[i],
        commission,
    ) by {}
    lemma_validating_calls(s1, plan.declare_phase@, commission);
    assert(validated_stashes(plan.declare_phase@[j]).contains(a)) by {
        assert(validated_stashes(plan.declare_phase@[j])[0] == a);
    }
    assert(validates_account(plan.declare_phase@, a));
    assert(s2.stakes == s1.stakes);
    assert(stake_of(s2, a) == stake_of(s1, a));
}

} // verus!
