//! Run-level sequencing: provision the validator set, run the nomination
//! pipeline toward the first validator, wait out two era boundaries so the
//! nominations take effect, then loop a configured number of payout
//! verifications, waiting for the next era between them. Any failed
//! operation or failed verification ends the run; the run completes only
//! after every configured verification succeeded.

use vstd::prelude::*;

use crate::model::{
    apply_calls, balance_of, commission_of, nomination_of, stake_of, ChainState,
};
use crate::pipeline::{
    lemma_nomination_pipeline_effect, nomination_plan_ok, plan_calls, run, NominationPlan,
};
use crate::population::{derive_range, public_key_of, seed_of_index, Identity};
use crate::provisioner::{
    lemma_provision_effect, provision, provision_plan_ok, ProvisionPlan,
};

verus! {

/// Era boundaries to wait out between populating and the first measured
/// payout, so nomination is in effect for the first claimed era.
pub const WARMUP_BOUNDARIES: u32 = 2;

/// Run-level configuration, passed in at construction.
pub struct RunConfig {
    pub validator_count: u64,
    pub nominator_count: u64,
    pub eras_to_observe: u32,
    pub transfer_batch_limit: usize,
    pub bond_batch_limit: usize,
    pub nominate_batch_limit: usize,
    pub validator_bond: u128,
    pub nominator_bond: u128,
    pub commission: u8,
}

impl RunConfig {
    /// Positive population sizes, ceilings and loop count; a commission
    /// that is a percentage; index ranges that fit the index type.
    pub open spec fn wf(self) -> bool {
        &&& self.validator_count > 0
        &&& self.nominator_count > 0
        &&& self.validator_count + self.nominator_count <= u64::MAX
        &&& self.eras_to_observe > 0
        &&& self.transfer_batch_limit > 0
        &&& self.bond_batch_limit > 0
        &&& self.nominate_batch_limit > 0
        &&& self.commission <= 100
    }
}

/// Where the run stands. The two terminal stages are `Complete` and
/// `Failed`.
#[derive(PartialEq, Eq, Structural, Clone, Copy, Debug)]
pub enum Stage {
    Provisioning,
    Populating,
    Warming { boundaries_passed: u32 },
    Claiming { iterations_done: u32 },
    AwaitingEra { iterations_done: u32 },
    Complete,
    Failed,
}

/// What the outside world reported back for the stage's work.
#[derive(PartialEq, Eq, Structural, Clone, Copy, Debug)]
pub enum Event {
    CallsSucceeded,
    CallsFailed,
    EraPassed,
    PayoutChecked { ok: bool },
}

/// The run's transition function: provisioning, then populating, then two
/// era boundaries of warm-up, then alternating payout verification and
/// era waits until the configured number of verifications succeeded. A
/// failed operation, a failed verification, or an event the stage cannot
/// take moves the run to `Failed`; the terminal stages never move.
pub open spec fn next_stage(cfg: RunConfig, s: Stage, e: Event) -> Stage {
    match (s, e) {
        (Stage::Provisioning, Event::CallsSucceeded) => Stage::Populating,
        (Stage::Populating, Event::CallsSucceeded) => Stage::Warming { boundaries_passed: 0 },
        (Stage::Warming { boundaries_passed }, Event::EraPassed) => {
            if boundaries_passed + 1 >= WARMUP_BOUNDARIES {
                Stage::Claiming { iterations_done: 0 }
            } else {
                Stage::Warming { boundaries_passed: (boundaries_passed + 1) as u32 }
            }
        },
        (Stage::Claiming { iterations_done }, Event::PayoutChecked { ok }) => {
            if !ok {
                Stage::Failed
            } else if iterations_done + 1 >= cfg.eras_to_observe {
                Stage::Complete
            } else {
                Stage::AwaitingEra { iterations_done: (iterations_done + 1) as u32 }
            }
        },
        (Stage::AwaitingEra { iterations_done }, Event::EraPassed) => Stage::Claiming {
            iterations_done,
        },
        (Stage::Complete, _) => Stage::Complete,
        (Stage::Failed, _) => Stage::Failed,
        _ => Stage::Failed,
    }
}

/// One step of the run.
pub fn step(cfg: &RunConfig, stage: Stage, event: Event) -> (r: Stage)
    requires
        cfg.wf(),
    ensures
        r == next_stage(*cfg, stage, event),
{
    match (stage, event) {
        (Stage::Provisioning, Event::CallsSucceeded) => Stage::Populating,
        (Stage::Populating, Event::CallsSucceeded) => Stage::Warming { boundaries_passed: 0 },
        (Stage::Warming { boundaries_passed }, Event::EraPassed) => {
            if boundaries_passed >= WARMUP_BOUNDARIES - 1 {
                Stage::Claiming { iterations_done: 0 }
            } else {
                Stage::Warming { boundaries_passed: boundaries_passed + 1 }
            }
        },
        (Stage::Claiming { iterations_done }, Event::PayoutChecked { ok }) => {
            if !ok {
                Stage::Failed
            } else if iterations_done >= cfg.eras_to_observe - 1 {
                Stage::Complete
            } else {
                Stage::AwaitingEra { iterations_done: iterations_done + 1 }
            }
        },
        (Stage::AwaitingEra { iterations_done }, Event::EraPassed) => Stage::Claiming {
            iterations_done,
        },
        (Stage::Complete, _) => Stage::Complete,
        (Stage::Failed, _) => Stage::Failed,
        _ => Stage::Failed,
    }
}

/// The process exit status for a finished run: zero exactly on completion.
pub fn exit_code(stage: &Stage) -> (r: i32)
    ensures
        r == 0 <==> stage is Complete,
        stage is Complete ==> r == 0,
        !(stage is Complete) ==> r == 1,
{
    match stage {
        Stage::Complete => 0,
        _ => 1,
    }
}

/// A failed payout verification ends the run in the failed terminal stage:
/// there is no silent continuation.
pub proof fn lemma_failed_verification_halts(cfg: RunConfig, iterations_done: u32)
    ensures
        next_stage(
            cfg,
            Stage::Claiming { iterations_done },
            Event::PayoutChecked { ok: false },
        ) == Stage::Failed,
        forall|e: Event| next_stage(cfg, Stage::Failed, e) == Stage::Failed,
{
}

/// A failed batch of operations ends the run, whatever stage it was in.
pub proof fn lemma_failed_calls_halt(cfg: RunConfig, s: Stage)
    ensures
        next_stage(cfg, s, Event::CallsFailed) == Stage::Failed || s is Complete,
{
}

/// The terminal stages absorb every further event: a completed run stays
/// completed, a failed run stays failed.
pub proof fn lemma_terminal_stages_absorb(cfg: RunConfig, e: Event)
    ensures
        next_stage(cfg, Stage::Complete, e) == Stage::Complete,
        next_stage(cfg, Stage::Failed, e) == Stage::Failed,
{
}

/// The run completes only out of a successful payout verification whose
/// count reaches the configured number of eras to observe.
pub proof fn lemma_complete_needs_every_verification(cfg: RunConfig, s: Stage, e: Event)
    requires
        !(s is Complete),
        next_stage(cfg, s, e) is Complete,
    ensures
        s matches Stage::Claiming { iterations_done } && iterations_done + 1
            >= cfg.eras_to_observe,
        e == (Event::PayoutChecked { ok: true }),
{
}

/// The whole population of a run: the validator set on the index range
/// `[0, V)` and the nominator population on `[V, V + N)`, disjoint by
/// construction. Fails only where the derivation scheme rejects an index.
pub fn derive_population(cfg: &RunConfig) -> (r: Option<(Vec<Identity>, Vec<Identity>)>)
    requires
        cfg.wf(),
    ensures
        r matches Some((validators, nominators)) ==> {
            &&& validators@.len() == cfg.validator_count
            &&& nominators@.len() == cfg.nominator_count
            &&& forall|k: int|
                0 <= k < validators@.len() ==> (#[trigger] validators@[k]).wf()
                    && validators@[k].index == k
            &&& forall|k: int|
                0 <= k < nominators@.len() ==> (#[trigger] nominators@[k]).wf()
                    && nominators@[k].index == cfg.validator_count + k
            &&& forall|i: int, j: int|
                0 <= i < validators@.len() && 0 <= j < nominators@.len() ==> (
                #[trigger] validators@[i]).index != (#[trigger] nominators@[j]).index
        },
        r is None ==> exists|j: u64|
            j < cfg.validator_count + cfg.nominator_count && (#[trigger] public_key_of(
                seed_of_index(j as nat),
            )) is None,
{
    let validators = match derive_range(0, cfg.validator_count) {
        Some(v) => v,
        None => {
            proof {
                let j = choose|j: u64|
                    0 <= j < 0 + cfg.validator_count && public_key_of(
                        seed_of_index(j as nat),
                    ) is None;
                assert(j < cfg.validator_count + cfg.nominator_count && public_key_of(
                    seed_of_index(j as nat),
                ) is None);
            }
            return None;
        },
    };
    let nominators = match derive_range(cfg.validator_count, cfg.nominator_count) {
        Some(n) => n,
        None => {
            proof {
                let j = choose|j: u64|
                    cfg.validator_count <= j < cfg.validator_count + cfg.nominator_count
                        && public_key_of(seed_of_index(j as nat)) is None;
                assert(j < cfg.validator_count + cfg.nominator_count && public_key_of(
                    seed_of_index(j as nat),
                ) is None);
            }
            return None;
        },
    };
    Some((validators, nominators))
}

/// Folds a run of events through the transition function, in order.
pub open spec fn fold_stages(cfg: RunConfig, s: Stage, es: Seq<Event>) -> Stage
    decreases es.len(),
{
    if es.len() == 0 {
        s
    } else {
        fold_stages(cfg, next_stage(cfg, s, es[0]), es.drop_first())
    }
}

/// The payout-and-wait section of a run, from iteration `i` on: one payout
/// observation per remaining era, its flag set by whether the balance
/// strictly grew, and an era boundary between successive claims.
pub open spec fn claim_events(before: Seq<u128>, after: Seq<u128>, i: int) -> Seq<Event>
    decreases before.len() - i,
{
    if i < 0 || i >= before.len() {
        Seq::empty()
    } else if i == before.len() - 1 {
        seq![Event::PayoutChecked { ok: after[i] > before[i] }]
    } else {
        seq![Event::PayoutChecked { ok: after[i] > before[i] }, Event::EraPassed] + claim_events(
            before,
            after,
            i + 1,
        )
    }
}

/// The events of one whole run: both setup phases accepted, the two
/// warm-up era boundaries, then one payout cycle per configured era.
pub open spec fn run_events(before: Seq<u128>, after: Seq<u128>) -> Seq<Event> {
    seq![
        Event::CallsSucceeded,
        Event::CallsSucceeded,
        Event::EraPassed,
        Event::EraPassed,
    ] + claim_events(before, after, 0)
}

proof fn lemma_claim_section_completes(cfg: RunConfig, before: Seq<u128>, after: Seq<u128>, i: int)
    requires
        cfg.wf(),
        before.len() == cfg.eras_to_observe,
        after.len() == before.len(),
        0 <= i < before.len(),
        forall|k: int| i <= k < before.len() ==> after[k] > before[k],
    ensures
        fold_stages(
            cfg,
            Stage::Claiming { iterations_done: i as u32 },
            claim_events(before, after, i),
        ) == Stage::Complete,
    decreases before.len() - i,
{
    let s0 = Stage::Claiming { iterations_done: i as u32 };
    let ev = Event::PayoutChecked { ok: after[i] > before[i] };
    assert(after[i] > before[i]);
    let es = claim_events(before, after, i);
    if i == before.len() - 1 {
        assert(next_stage(cfg, s0, ev) == Stage::Complete);
        assert(es == seq![ev]);
        assert(es[0] == ev);
        assert(es.drop_first() =~= Seq::<Event>::empty());
        assert(fold_stages(cfg, s0, es) == fold_stages(cfg, Stage::Complete, es.drop_first()));
        assert(fold_stages(cfg, Stage::Complete, es.drop_first()) == Stage::Complete);
    } else {
        let rest = claim_events(before, after, i + 1);
        assert(es == seq![ev, Event::EraPassed] + rest);
        let s1 = next_stage(cfg, s0, ev);
        assert(s1 == Stage::AwaitingEra { iterations_done: (i + 1) as u32 });
        let s2 = next_stage(cfg, s1, Event::EraPassed);
        assert(s2 == Stage::Claiming { iterations_done: (i + 1) as u32 });
        assert(es[0] == ev);
        let tail = es.drop_first();
        assert(tail =~= seq![Event::EraPassed] + rest);
        assert(tail[0] == Event::EraPassed);
        assert(tail.drop_first() =~= rest);
        lemma_claim_section_completes(cfg, before, after, i + 1);
        assert(fold_stages(cfg, s0, es) == fold_stages(cfg, s1, tail));
        assert(fold_stages(cfg, s1, tail) == fold_stages(cfg, s2, rest));
    }
}

/// The state after the two provisioning phases ran.
pub open spec fn provisioned_state(s0: ChainState, pplan: ProvisionPlan) -> ChainState {
    apply_calls(apply_calls(s0, pplan.bond_phase@), pplan.declare_phase@)
}

/// The state after the two provisioning phases and the whole nomination
/// pipeline ran, in submission order.
pub open spec fn setup_state(
    s0: ChainState,
    pplan: ProvisionPlan,
    nplan: NominationPlan,
) -> ChainState {
    apply_calls(provisioned_state(s0, pplan), plan_calls(nplan))
}

/// The end-to-end scenario, as one statement. Given a provisioning plan
/// for the validator set and a pipeline plan that funds, bonds and
/// nominates the whole nominator population toward the first validator:
/// in any starting state, after provisioning every validator holds stake
/// `validator_bond` with the configured commission; after the pipeline
/// every nominator holds balance at least `nominator_bond`, stake exactly
/// `nominator_bond`, and nominates the first validator; and a run whose
/// payout observation strictly increases the balance in each of the
/// configured eras walks the stage machine — two acceptances, the warm-up
/// boundaries, one payout cycle per era — to `Complete`, the one stage
/// whose exit status is zero.
pub proof fn lemma_scenario_run(
    cfg: RunConfig,
    validators: Seq<Identity>,
    nominators: Seq<Identity>,
    pplan: ProvisionPlan,
    nplan: NominationPlan,
    s0: ChainState,
    before: Seq<u128>,
    after: Seq<u128>,
)
    requires
        cfg.wf(),
        validators.len() > 0,
        provision_plan_ok(pplan, validators, cfg.validator_bond, cfg.commission),
        nomination_plan_ok(
            nplan,
            nominators,
            validators[0].address@,
            cfg.nominator_bond,
            cfg.nominator_bond,
            cfg.transfer_batch_limit as int,
            cfg.bond_batch_limit as int,
            cfg.nominate_batch_limit as int,
        ),
        before.len() == cfg.eras_to_observe,
        after.len() == before.len(),
        forall|k: int| 0 <= k < before.len() ==> after[k] > before[k],
    ensures
        forall|j: int|
            0 <= j < validators.len() ==> stake_of(
                provisioned_state(s0, pplan),
                (#[trigger] validators[j]).address@,
            ) == Some(cfg.validator_bond) && commission_of(
                provisioned_state(s0, pplan),
                validators[j].address@,
            ) == Some(cfg.commission),
        forall|k: int|
            0 <= k < nominators.len() ==> stake_of(
                setup_state(s0, pplan, nplan),
                (#[trigger] nominators[k]).address@,
            ) == Some(cfg.nominator_bond) && nomination_of(
                setup_state(s0, pplan, nplan),
                nominators[k].address@,
            ) == Some(validators[0].address@) && balance_of(
                setup_state(s0, pplan, nplan),
                nominators[k].address@,
            ) >= cfg.nominator_bond,
        fold_stages(cfg, Stage::Provisioning, run_events(before, after)) == Stage::Complete,
{
    assert forall|j: int| 0 <= j < validators.len() implies stake_of(
        provisioned_state(s0, pplan),
        (#[trigger] validators[j]).address@,
    ) == Some(cfg.validator_bond) && commission_of(
        provisioned_state(s0, pplan),
        validators[j].address@,
    ) == Some(cfg.commission) by {
        lemma_provision_effect(pplan, validators, cfg.validator_bond, cfg.commission, s0, j);
    }
    let s_prov = provisioned_state(s0, pplan);
    assert forall|k: int| 0 <= k < nominators.len() implies stake_of(
        setup_state(s0, pplan, nplan),
        (#[trigger] nominators[k]).address@,
    ) == Some(cfg.nominator_bond) && nomination_of(
        setup_state(s0, pplan, nplan),
        nominators[k].address@,
    ) == Some(validators[0].address@) && balance_of(
        setup_state(s0, pplan, nplan),
        nominators[k].address@,
    ) >= cfg.nominator_bond by {
        lemma_nomination_pipeline_effect(
            nplan,
            nominators,
            validators[0].address@,
            cfg.nominator_bond,
            cfg.nominator_bond,
            cfg.transfer_batch_limit as int,
            cfg.bond_batch_limit as int,
            cfg.nominate_batch_limit as int,
            s_prov,
            k,
        );
    }
    let warm = seq![
        Event::CallsSucceeded,
        Event::CallsSucceeded,
        Event::EraPassed,
        Event::EraPassed,
    ];
    let claims = claim_events(before, after, 0);
    let es = run_events(before, after);
    assert(es == warm + claims);
    assert(es[0] == Event::CallsSucceeded);
    let t1 = es.drop_first();
    assert(t1 =~= seq![Event::CallsSucceeded, Event::EraPassed, Event::EraPassed] + claims);
    assert(t1[0] == Event::CallsSucceeded);
    let t2 = t1.drop_first();
    assert(t2 =~= seq![Event::EraPassed, Event::EraPassed] + claims);
    assert(t2[0] == Event::EraPassed);
    let t3 = t2.drop_first();
    assert(t3 =~= seq![Event::EraPassed] + claims);
    assert(t3[0] == Event::EraPassed);
    let t4 = t3.drop_first();
    assert(t4 =~= claims);
    let s1 = next_stage(cfg, Stage::Provisioning, Event::CallsSucceeded);
    assert(s1 == Stage::Populating);
    let s2 = next_stage(cfg, s1, Event::CallsSucceeded);
    assert(s2 == Stage::Warming { boundaries_passed: 0 });
    let s3 = next_stage(cfg, s2, Event::EraPassed);
    assert(s3 == Stage::Warming { boundaries_passed: 1 });
    let s4 = next_stage(cfg, s3, Event::EraPassed);
    assert(s4 == Stage::Claiming { iterations_done: 0 });
    assert(fold_stages(cfg, Stage::Provisioning, es) == fold_stages(cfg, s1, t1));
    assert(fold_stages(cfg, s1, t1) == fold_stages(cfg, s2, t2));
    assert(fold_stages(cfg, s2, t2) == fold_stages(cfg, s3, t3));
    assert(fold_stages(cfg, s3, t3) == fold_stages(cfg, s4, claims));
    lemma_claim_section_completes(cfg, before, after, 0);
}

/// The plan for the run's first phase: provision the validator set with
/// the configured validator bond and commission.
pub fn provisioning_plan(cfg: &RunConfig, validators: &Vec<Identity>) -> (plan: ProvisionPlan)
    requires
        cfg.wf(),
    ensures
        provision_plan_ok(plan, validators@, cfg.validator_bond, cfg.commission),
{
    provision(validators, cfg.validator_bond, cfg.commission)
}

/// The plan for the run's second phase: fund, bond and nominate the whole
/// nominator population toward the first validator, under the configured
/// ceilings.
pub fn population_plan(cfg: &RunConfig, validators: &Vec<Identity>, nominators: &Vec<Identity>)
    -> (plan: NominationPlan)
    requires
        cfg.wf(),
        validators@.len() > 0,
    ensures
        nomination_plan_ok(
            plan,
            nominators@,
            validators@[0].address@,
            cfg.nominator_bond,
            cfg.nominator_bond,
            cfg.transfer_batch_limit as int,
            cfg.bond_batch_limit as int,
            cfg.nominate_batch_limit as int,
        ),
{
    run(
        nominators,
        &validators[0].address,
        cfg.nominator_bond,
        cfg.nominator_bond,
        cfg.transfer_batch_limit,
        cfg.bond_batch_limit,
        cfg.nominate_batch_limit,
    )
}

} // verus!
