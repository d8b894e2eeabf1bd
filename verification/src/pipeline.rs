//! The fund/bond/nominate pipeline: fund every nominator by batched
//! transfers, batch-bond every nominator to itself, then batch-nominate
//! every nominator toward one target validator — each phase chunked under
//! its own ceiling and submitted strictly in chunk order, nomination
//! strictly after bonding.

use vstd::prelude::*;

use crate::batcher::{chunk, chunk_count};
use crate::calls::ChainCall;
use crate::model::{
    apply_calls, balance_of, bonded_stashes, bonds_account, funded_accounts, funds_account,
    is_bonding, is_funding, is_nominating, lemma_apply_calls_concat, lemma_bonding_calls,
    lemma_funding_calls, lemma_nominating_calls, lemma_proj_concat_membership,
    lemma_proj_concat_push, nominates_account, nominating_accounts, nomination_of, proj_concat,
    stake_of, ChainState,
};
use crate::population::Identity;
use crate::provisioner::addresses_of;
use crate::util::clone_bytes;

verus! {

/// The three strictly ordered phases of the pipeline, each a run of
/// size-bounded batches in submission order.
pub struct NominationPlan {
    pub transfers: Vec<ChainCall>,
    pub bonds: Vec<ChainCall>,
    pub nominates: Vec<ChainCall>,
}

/// The full submission order of the pipeline: every funding batch, then
/// every bonding batch, then every nomination batch.
pub open spec fn plan_calls(plan: NominationPlan) -> Seq<ChainCall> {
    plan.transfers@ + plan.bonds@ + plan.nominates@
}

/// The plan funds, bonds and nominates exactly the given population, in
/// index order: every phase's batches concatenate back to the population's
/// addresses with no drop, duplicate or reorder; every batch respects its
/// phase's ceiling; every batch but a phase's last is full; every
/// nomination names `target`.
pub open spec fn nomination_plan_ok(
    plan: NominationPlan,
    nominators: Seq<Identity>,
    target: Seq<u8>,
    fund_amount: u128,
    bond_amount: u128,
    transfer_limit: int,
    bond_limit: int,
    nominate_limit: int,
) -> bool {
    let a = addresses_of(nominators);
    &&& plan.transfers@.len() == chunk_count(a.len() as int, transfer_limit)
    &&& forall|i: int|
        0 <= i < plan.transfers@.len() ==> is_funding(#[trigger] plan.transfers@[i], fund_amount)
    &&& forall|i: int|
        0 <= i < plan.transfers@.len() ==> 1 <= (#[trigger] funded_accounts(
            plan.transfers@[i],
        )).len() <= transfer_limit
    &&& forall|i: int|
        0 <= i < plan.transfers@.len() - 1 ==> (#[trigger] funded_accounts(
            plan.transfers@[i],
        )).len() == transfer_limit
    &&& proj_concat(plan.transfers@, |c: ChainCall| funded_accounts(c)) == a
    &&& plan.bonds@.len() == chunk_count(a.len() as int, bond_limit)
    &&& forall|i: int|
        0 <= i < plan.bonds@.len() ==> is_bonding(#[trigger] plan.bonds@[i], bond_amount)
    &&& forall|i: int|
        0 <= i < plan.bonds@.len() ==> 1 <= (#[trigger] bonded_stashes(plan.bonds@[i])).len()
            <= bond_limit
    &&& forall|i: int|
        0 <= i < plan.bonds@.len() - 1 ==> (#[trigger] bonded_stashes(plan.bonds@[i])).len()
            == bond_limit
    &&& proj_concat(plan.bonds@, |c: ChainCall| bonded_stashes(c)) == a
    &&& plan.nominates@.len() == chunk_count(a.len() as int, nominate_limit)
    &&& forall|i: int|
        0 <= i < plan.nominates@.len() ==> is_nominating(#[trigger] plan.nominates@[i], target)
    &&& forall|i: int|
        0 <= i < plan.nominates@.len() ==> 1 <= (#[trigger] nominating_accounts(
            plan.nominates@[i],
        )).len() <= nominate_limit
    &&& forall|i: int|
        0 <= i < plan.nominates@.len() - 1 ==> (#[trigger] nominating_accounts(
            plan.nominates@[i],
        )).len() == nominate_limit
    &&& proj_concat(plan.nominates@, |c: ChainCall| nominating_accounts(c)) == a
}

/// The addresses of a population as owned byte vectors, in index order.
fn collect_addresses(ids: &Vec<Identity>) -> (r: Vec<Vec<u8>>)
    ensures
        r@.len() == ids@.len(),
        forall|k: int| 0 <= k < ids@.len() ==> #[trigger] r@[k]@ == ids@[k].address@,
{
    let mut r: Vec<Vec<u8>> = Vec::new();
    let mut k: usize = 0;
    while k < ids.len()
        invariant
            k <= ids@.len(),
            r@.len() == k,
            forall|j: int| 0 <= j < k ==> #[trigger] r@[j]@ == ids@[j].address@,
        decreases ids@.len() - k,
    {
        r.push(clone_bytes(&ids[k].address));
        k = k + 1;
    }
    r
}

/// The (nominator address, target address) pairs of a population, in index
/// order.
fn collect_pairs(ids: &Vec<Identity>, target: &Vec<u8>) -> (r: Vec<(Vec<u8>, Vec<u8>)>)
    ensures
        r@.len() == ids@.len(),
        forall|k: int|
            0 <= k < ids@.len() ==> #[trigger] r@[k].0@ == ids@[k].address@ && r@[k].1@ == target@,
    {
    let mut r: Vec<(Vec<u8>, Vec<u8>)> = Vec::new();
    let mut k: usize = 0;
    while k < ids.len()
        invariant
            k <= ids@.len(),
            r@.len() == k,
            forall|j: int|
                0 <= j < k ==> #[trigger] r@[j].0@ == ids@[j].address@ && r@[j].1@ == target@,
        decreases ids@.len() - k,
    {
        r.push((clone_bytes(&ids[k].address), clone_bytes(target)));
        k = k + 1;
    }
    r
}

/// Ceiling division covers the whole input: `chunk_count(n, l) * l >= n`.
proof fn lemma_chunk_count_covers(n: int, l: int)
    requires
        n >= 0,
        l > 0,
    ensures
        chunk_count(n, l) * l >= n,
{
    vstd::arithmetic::div_mod::lemma_fundamental_div_mod(n + l - 1, l);
    vstd::arithmetic::div_mod::lemma_mod_bound(n + l - 1, l);
    assert(l * chunk_count(n, l) == chunk_count(n, l) * l) by (nonlinear_arith);
}

/// A chunk index under the ceiling count starts strictly inside the input.
proof fn lemma_chunk_index_bound(n: int, l: int, i: int)
    requires
        n >= 0,
        l > 0,
        0 <= i < chunk_count(n, l),
    ensures
        0 <= i * l,
        i * l < n,
        i * l + l == (i + 1) * l,
{
    vstd::arithmetic::div_mod::lemma_fundamental_div_mod(n + l - 1, l);
    vstd::arithmetic::div_mod::lemma_mod_bound(n + l - 1, l);
    let q = chunk_count(n, l);
    assert(0 <= i * l && i * l <= (q - 1) * l && (q - 1) * l == l * q - l && i * l + l == (i + 1)
        * l) by (nonlinear_arith)
        requires
            0 <= i,
            i <= q - 1,
            l > 0,
    ;
}

/// Wraps each chunk of recipients as one funding batch, in chunk order.
#[verifier::loop_isolation(false)]
fn wrap_transfers(
    chunks: Vec<Vec<Vec<u8>>>,
    amount_each: u128,
    Ghost(a): Ghost<Seq<Seq<u8>>>,
    limit: usize,
) -> (calls: Vec<ChainCall>)
    requires
        limit > 0,
        chunks@.len() == chunk_count(a.len() as int, limit as int),
        forall|i: int| 0 <= i < chunks@.len() ==> 1 <= #[trigger] chunks@[i]@.len() <= limit,
        forall|i: int| 0 <= i < chunks@.len() - 1 ==> #[trigger] chunks@[i]@.len() == limit,
        forall|i: int| 0 <= i < chunks@.len() ==> (#[trigger] chunks@[i]@).map_values(
            |v: Vec<u8>| v@,
        ) == a.subrange(
            i * limit,
            vstd::math::min(a.len() as int, (i + 1) * limit),
        ),
    ensures
        calls@.len() == chunks@.len(),
        forall|i: int| 0 <= i < calls@.len() ==> is_funding(#[trigger] calls@[i], amount_each),
        forall|i: int| 0 <= i < calls@.len() ==> #[trigger] funded_accounts(calls@[i])
            == a.subrange(
            i * limit,
            vstd::math::min(a.len() as int, (i + 1) * limit),
        ),
        forall|i: int| 0 <= i < calls@.len() ==> 1 <= (#[trigger] funded_accounts(calls@[i])).len()
            <= limit,
        forall|i: int| 0 <= i < calls@.len() - 1 ==> (#[trigger] funded_accounts(calls@[i])).len()
            == limit,
        proj_concat(calls@, |c: ChainCall| funded_accounts(c)) == a,
{
    let ghost orig = chunks@;
    let ghost f = |c: ChainCall| funded_accounts(c);
    let mut chunks = chunks;
    let mut calls: Vec<ChainCall> = Vec::new();
    proof {
        assert(proj_concat(calls@, f) =~= a.subrange(0, 0));
        assert(chunks@ =~= orig.subrange(0, orig.len() as int));
    }
    while chunks.len() > 0
        invariant
            calls@.len() + chunks@.len() == orig.len(),
            chunks@ == orig.subrange(calls@.len() as int, orig.len() as int),
            forall|i: int| 0 <= i < calls@.len() ==> is_funding(#[trigger] calls@[i], amount_each),
            forall|i: int| 0 <= i < calls@.len() ==> 1 <= (#[trigger] funded_accounts(
                calls@[i],
            )).len() <= limit,
            forall|i: int| 0 <= i < orig.len() - 1 && i < calls@.len() ==> (#[trigger] funded_accounts(
                calls@[i],
            )).len() == limit,
            forall|i: int| 0 <= i < calls@.len() ==> #[trigger] funded_accounts(calls@[i])
                == a.subrange(
                i * limit,
                vstd::math::min(a.len() as int, (i + 1) * limit),
            ),
            proj_concat(calls@, f) == a.subrange(
                0,
                vstd::math::min(a.len() as int, (calls@.len() as int) * (limit as int)),
            ),
        decreases chunks@.len(),
    {
        let ghost done = calls@.len() as int;
        let ghost l = limit as int;
        let ghost n = a.len() as int;
        let c = chunks.remove(0);
        proof {
            assert(c == orig[done]);
            assert(chunks@ =~= orig.subrange(done + 1, orig.len() as int));
        }
        let call = ChainCall::Transfer { recipients: c, amount_each };
        proof {
            assert(funded_accounts(call) == a.subrange(
                done * l,
                vstd::math::min(n, (done + 1) * l),
            ));
            lemma_chunk_index_bound(n, l, done);
            assert(funded_accounts(call).len() == orig[done]@.len());
            assert(funded_accounts(call).len() >= 1);
            assert(vstd::math::min(n, done * l) == done * l);
            lemma_proj_concat_push(calls@, f, call);
            assert(a.subrange(0, done * l) + a.subrange(
                done * l,
                vstd::math::min(n, (done + 1) * l),
            ) =~= a.subrange(0, vstd::math::min(n, (done + 1) * l)));
        }
        calls.push(call);
    }
    proof {
        lemma_chunk_count_covers(a.len() as int, limit as int);
        assert(vstd::math::min(a.len() as int, (calls@.len() as int) * (limit as int))
            == a.len() as int);
        assert(a.subrange(0, a.len() as int) =~= a);
    }
    calls
}

/// Wraps each chunk of stashes as one bonding batch, in chunk order.
#[verifier::loop_isolation(false)]
fn wrap_bonds(
    chunks: Vec<Vec<Vec<u8>>>,
    amount: u128,
    Ghost(a): Ghost<Seq<Seq<u8>>>,
    limit: usize,
) -> (calls: Vec<ChainCall>)
    requires
        limit > 0,
        chunks@.len() == chunk_count(a.len() as int, limit as int),
        forall|i: int| 0 <= i < chunks@.len() ==> 1 <= #[trigger] chunks@[i]@.len() <= limit,
        forall|i: int| 0 <= i < chunks@.len() - 1 ==> #[trigger] chunks@[i]@.len() == limit,
        forall|i: int| 0 <= i < chunks@.len() ==> (#[trigger] chunks@[i]@).map_values(
            |v: Vec<u8>| v@,
        ) == a.subrange(
            i * limit,
            vstd::math::min(a.len() as int, (i + 1) * limit),
        ),
    ensures
        calls@.len() == chunks@.len(),
        forall|i: int| 0 <= i < calls@.len() ==> is_bonding(#[trigger] calls@[i], amount),
        forall|i: int| 0 <= i < calls@.len() ==> #[trigger] bonded_stashes(calls@[i])
            == a.subrange(
            i * limit,
            vstd::math::min(a.len() as int, (i + 1) * limit),
        ),
        forall|i: int| 0 <= i < calls@.len() ==> 1 <= (#[trigger] bonded_stashes(calls@[i])).len()
            <= limit,
        forall|i: int| 0 <= i < calls@.len() - 1 ==> (#[trigger] bonded_stashes(calls@[i])).len()
            == limit,
        proj_concat(calls@, |c: ChainCall| bonded_stashes(c)) == a,
{
    let ghost orig = chunks@;
    let ghost f = |c: ChainCall| bonded_stashes(c);
    let mut chunks = chunks;
    let mut calls: Vec<ChainCall> = Vec::new();
    proof {
        assert(proj_concat(calls@, f) =~= a.subrange(0, 0));
        assert(chunks@ =~= orig.subrange(0, orig.len() as int));
    }
    while chunks.len() > 0
        invariant
            calls@.len() + chunks@.len() == orig.len(),
            chunks@ == orig.subrange(calls@.len() as int, orig.len() as int),
            forall|i: int| 0 <= i < calls@.len() ==> is_bonding(#[trigger] calls@[i], amount),
            forall|i: int| 0 <= i < calls@.len() ==> 1 <= (#[trigger] bonded_stashes(
                calls@[i],
            )).len() <= limit,
            forall|i: int| 0 <= i < orig.len() - 1 && i < calls@.len() ==> (#[trigger] bonded_stashes(
                calls@[i],
            )).len() == limit,
            forall|i: int| 0 <= i < calls@.len() ==> #[trigger] bonded_stashes(calls@[i])
                == a.subrange(
                i * limit,
                vstd::math::min(a.len() as int, (i + 1) * limit),
            ),
            proj_concat(calls@, f) == a.subrange(
                0,
                vstd::math::min(a.len() as int, (calls@.len() as int) * (limit as int)),
            ),
        decreases chunks@.len(),
    {
        let ghost done = calls@.len() as int;
        let ghost l = limit as int;
        let ghost n = a.len() as int;
        let c = chunks.remove(0);
        proof {
            assert(c == orig[done]);
            assert(chunks@ =~= orig.subrange(done + 1, orig.len() as int));
        }
        let call = ChainCall::BatchBond { stashes: c, amount };
        proof {
            assert(bonded_stashes(call) == a.subrange(
                done * l,
                vstd::math::min(n, (done + 1) * l),
            ));
            lemma_chunk_index_bound(n, l, done);
            assert(bonded_stashes(call).len() == orig[done]@.len());
            assert(bonded_stashes(call).len() >= 1);
            assert(vstd::math::min(n, done * l) == done * l);
            lemma_proj_concat_push(calls@, f, call);
            assert(a.subrange(0, done * l) + a.subrange(
                done * l,
                vstd::math::min(n, (done + 1) * l),
            ) =~= a.subrange(0, vstd::math::min(n, (done + 1) * l)));
        }
        calls.push(call);
    }
    proof {
        lemma_chunk_count_covers(a.len() as int, limit as int);
        assert(vstd::math::min(a.len() as int, (calls@.len() as int) * (limit as int))
            == a.len() as int);
        assert(a.subrange(0, a.len() as int) =~= a);
    }
    calls
}

/// Wraps each chunk of pairs as one nomination batch, in chunk order.
#[verifier::loop_isolation(false)]
fn wrap_nominates(
    chunks: Vec<Vec<(Vec<u8>, Vec<u8>)>>,
    Ghost(a): Ghost<Seq<Seq<u8>>>,
    Ghost(target): Ghost<Seq<u8>>,
    limit: usize,
) -> (calls: Vec<ChainCall>)
    requires
        limit > 0,
        chunks@.len() == chunk_count(a.len() as int, limit as int),
        forall|i: int| 0 <= i < chunks@.len() ==> 1 <= #[trigger] chunks@[i]@.len() <= limit,
        forall|i: int| 0 <= i < chunks@.len() - 1 ==> #[trigger] chunks@[i]@.len() == limit,
        forall|i: int| 0 <= i < chunks@.len() ==> (#[trigger] chunks@[i]@).map_values(
            |p: (Vec<u8>, Vec<u8>)| p.0@,
        ) == a.subrange(
            i * limit,
            vstd::math::min(a.len() as int, (i + 1) * limit),
        ),
        forall|i: int, t: int|
            0 <= i < chunks@.len() && 0 <= t < chunks@[i]@.len() ==> (#[trigger] chunks@[i]@[t]).1@
                == target,
    ensures
        calls@.len() == chunks@.len(),
        forall|i: int| 0 <= i < calls@.len() ==> is_nominating(#[trigger] calls@[i], target),
        forall|i: int| 0 <= i < calls@.len() ==> #[trigger] nominating_accounts(calls@[i])
            == a.subrange(
            i * limit,
            vstd::math::min(a.len() as int, (i + 1) * limit),
        ),
        forall|i: int| 0 <= i < calls@.len() ==> 1 <= (#[trigger] nominating_accounts(calls@[i])).len()
            <= limit,
        forall|i: int| 0 <= i < calls@.len() - 1 ==> (#[trigger] nominating_accounts(calls@[i])).len()
            == limit,
        proj_concat(calls@, |c: ChainCall| nominating_accounts(c)) == a,
{
    let ghost orig = chunks@;
    let ghost f = |c: ChainCall| nominating_accounts(c);
    let mut chunks = chunks;
    let mut calls: Vec<ChainCall> = Vec::new();
    proof {
        assert(proj_concat(calls@, f) =~= a.subrange(0, 0));
        assert(chunks@ =~= orig.subrange(0, orig.len() as int));
    }
    while chunks.len() > 0
        invariant
            calls@.len() + chunks@.len() == orig.len(),
            chunks@ == orig.subrange(calls@.len() as int, orig.len() as int),
            forall|i: int| 0 <= i < calls@.len() ==> is_nominating(#[trigger] calls@[i], target),
            forall|i: int| 0 <= i < calls@.len() ==> 1 <= (#[trigger] nominating_accounts(
                calls@[i],
            )).len() <= limit,
            forall|i: int| 0 <= i < orig.len() - 1 && i < calls@.len() ==> (#[trigger] nominating_accounts(
                calls@[i],
            )).len() == limit,
            forall|i: int| 0 <= i < calls@.len() ==> #[trigger] nominating_accounts(calls@[i])
                == a.subrange(
                i * limit,
                vstd::math::min(a.len() as int, (i + 1) * limit),
            ),
            proj_concat(calls@, f) == a.subrange(
                0,
                vstd::math::min(a.len() as int, (calls@.len() as int) * (limit as int)),
            ),
        decreases chunks@.len(),
    {
        let ghost done = calls@.len() as int;
        let ghost l = limit as int;
        let ghost n = a.len() as int;
        let c = chunks.remove(0);
        proof {
            assert(c == orig[done]);
            assert(chunks@ =~= orig.subrange(done + 1, orig.len() as int));
        }
        let call = ChainCall::BatchNominate { pairs: c };
        proof {
            assert(nominating_accounts(call) =~= c@.map_values(|p: (Vec<u8>, Vec<u8>)| p.0@));
            assert(nominating_accounts(call) == a.subrange(
                done * l,
                vstd::math::min(n, (done + 1) * l),
            ));
            assert(is_nominating(call, target)) by {
                assert forall|j: int| 0 <= j < c@.len() implies (#[trigger] c@[j]).1@
                    == target by {
                    assert(orig[done]@[j].1@ == target);
                }
            }
            lemma_chunk_index_bound(n, l, done);
            assert(nominating_accounts(call).len() == orig[done]@.len());
            assert(nominating_accounts(call).len() >= 1);
            assert(vstd::math::min(n, done * l) == done * l);
            lemma_proj_concat_push(calls@, f, call);
            assert(a.subrange(0, done * l) + a.subrange(
                done * l,
                vstd::math::min(n, (done + 1) * l),
            ) =~= a.subrange(0, vstd::math::min(n, (done + 1) * l)));
        }
        calls.push(call);
    }
    proof {
        lemma_chunk_count_covers(a.len() as int, limit as int);
        assert(vstd::math::min(a.len() as int, (calls@.len() as int) * (limit as int))
            == a.len() as int);
        assert(a.subrange(0, a.len() as int) =~= a);
    }
    calls
}

/// Builds the pipeline plan: fund every nominator `fund_amount` by batched
/// transfers under the transfer ceiling, batch-bond `bond_amount` for every
/// nominator under the bond ceiling, then batch-nominate every nominator
/// toward `target` under the nomination ceiling — the three phases in that
/// strict order, each phase's batches in population order.
pub fn run(
    nominators: &Vec<Identity>,
    target: &Vec<u8>,
    fund_amount: u128,
    bond_amount: u128,
    transfer_batch_limit: usize,
    bond_batch_limit: usize,
    nominate_batch_limit: usize,
) -> (plan: NominationPlan)
    requires
        transfer_batch_limit > 0,
        bond_batch_limit > 0,
        nominate_batch_limit > 0,
        fund_amount >= bond_amount,
    ensures
        nomination_plan_ok(
            plan,
            nominators@,
            target@,
            fund_amount,
            bond_amount,
            transfer_batch_limit as int,
            bond_batch_limit as int,
            nominate_batch_limit as int,
        ),
{
    let ghost a = addresses_of(nominators@);
    let ghost n = a.len() as int;

    let t_items = collect_addresses(nominators);
    proof {
        assert(t_items@.map_values(|v: Vec<u8>| v@) =~= a);
    }
    let t_chunks = chunk(t_items, transfer_batch_limit);
    proof {
        let l = transfer_batch_limit as int;
        assert forall|i: int| 0 <= i < t_chunks@.len() implies (#[trigger] t_chunks@[i]@).map_values(
            |v: Vec<u8>| v@,
        ) == a.subrange(i * l, vstd::math::min(n, (i + 1) * l)) by {
            lemma_chunk_index_bound(n, l, i);
            let m = vstd::math::min(n, (i + 1) * l);
            let sub = t_chunks@[i]@;
            assert(sub == t_items@.subrange(i * l, m));
            assert forall|t: int| 0 <= t < sub.len() implies (#[trigger] sub[t])@ == a[i * l
                + t] by {
                assert(sub[t] == t_items@[i * l + t]);
                assert(t_items@[i * l + t]@ == nominators@[i * l + t].address@);
            }
            assert(sub.map_values(|v: Vec<u8>| v@) =~= a.subrange(i * l, m));
        }
    }
    let transfers = wrap_transfers(t_chunks, fund_amount, Ghost(a), transfer_batch_limit);

    let b_items = collect_addresses(nominators);
    proof {
        assert(b_items@.map_values(|v: Vec<u8>| v@) =~= a);
    }
    let b_chunks = chunk(b_items, bond_batch_limit);
    proof {
        let l = bond_batch_limit as int;
        assert forall|i: int| 0 <= i < b_chunks@.len() implies (#[trigger] b_chunks@[i]@).map_values(
            |v: Vec<u8>| v@,
        ) == a.subrange(i * l, vstd::math::min(n, (i + 1) * l)) by {
            lemma_chunk_index_bound(n, l, i);
            let m = vstd::math::min(n, (i + 1) * l);
            let sub = b_chunks@[i]@;
            assert(sub == b_items@.subrange(i * l, m));
            assert forall|t: int| 0 <= t < sub.len() implies (#[trigger] sub[t])@ == a[i * l
                + t] by {
                assert(sub[t] == b_items@[i * l + t]);
                assert(b_items@[i * l + t]@ == nominators@[i * l + t].address@);
            }
            assert(sub.map_values(|v: Vec<u8>| v@) =~= a.subrange(i * l, m));
        }
    }
    let bonds = wrap_bonds(b_chunks, bond_amount, Ghost(a), bond_batch_limit);

    let n_items = collect_pairs(nominators, target);
    proof {
        assert(n_items@.map_values(|p: (Vec<u8>, Vec<u8>)| p.0@) =~= a);
    }
    let n_chunks = chunk(n_items, nominate_batch_limit);
    proof {
        let l = nominate_batch_limit as int;
        assert forall|i: int| 0 <= i < n_chunks@.len() implies (#[trigger] n_chunks@[i]@).map_values(
            |p: (Vec<u8>, Vec<u8>)| p.0@,
        ) == a.subrange(i * l, vstd::math::min(n, (i + 1) * l)) by {
            lemma_chunk_index_bound(n, l, i);
            let m = vstd::math::min(n, (i + 1) * l);
            let sub = n_chunks@[i]@;
            assert(sub == n_items@.subrange(i * l, m));
            assert forall|t: int| 0 <= t < sub.len() implies (#[trigger] sub[t]).0@ == a[i * l
                + t] by {
                assert(sub[t] == n_items@[i * l + t]);
                assert(n_items@[i * l + t].0@ == nominators@[i * l + t].address@);
            }
            assert(sub.map_values(|p: (Vec<u8>, Vec<u8>)| p.0@) =~= a.subrange(i * l, m));
        }
        assert forall|i: int, t: int|
            0 <= i < n_chunks@.len() && 0 <= t < n_chunks@[i]@.len() implies (
        #[trigger] n_chunks@[i]@[t]).1@ == target@ by {
            let l = nominate_batch_limit as int;
            lemma_chunk_index_bound(n, l, i);
            assert(n_chunks@[i]@[t] == n_items@[i * l + t]);
            assert(n_items@[i * l + t].0@ == nominators@[i * l + t].address@);
            assert(n_items@[i * l + t].1@ == target@);
        }
    }
    let nominates = wrap_nominates(n_chunks, Ghost(a), Ghost(target@), nominate_batch_limit);

    NominationPlan { transfers, bonds, nominates }
}

/// The pipeline takes effect: in any starting state, after the whole plan
/// runs in submission order, every nominator's balance is at least the
/// funding amount, its recorded stake is exactly `bond_amount`, and its
/// recorded nomination target is exactly `target`.
pub proof fn lemma_nomination_pipeline_effect(
    plan: NominationPlan,
    nominators: Seq<Identity>,
    target: Seq<u8>,
    fund_amount: u128,
    bond_amount: u128,
    transfer_limit: int,
    bond_limit: int,
    nominate_limit: int,
    s0: ChainState,
    k: int,
)
    requires
        nomination_plan_ok(
            plan,
            nominators,
            target,
            fund_amount,
            bond_amount,
            transfer_limit,
            bond_limit,
            nominate_limit,
        ),
        0 <= k < nominators.len(),
    ensures
        balance_of(apply_calls(s0, plan_calls(plan)), nominators[k].address@) >= fund_amount,
        stake_of(apply_calls(s0, plan_calls(plan)), nominators[k].address@) == Some(bond_amount),
        nomination_of(apply_calls(s0, plan_calls(plan)), nominators[k].address@) == Some(target),
{
    let a = addresses_of(nominators);
    let x = nominators[k].address@;
    assert(a[k] == x);
    assert(a.contains(x));
    let s1 = apply_calls(s0, plan.transfers@);
    let s2 = apply_calls(s1, plan.bonds@);
    let s3 = apply_calls(s2, plan.nominates@);
    lemma_apply_calls_concat(s0, plan.transfers@, plan.bonds@);
    lemma_apply_calls_concat(s0, plan.transfers@ + plan.bonds@, plan.nominates@);
    assert(plan_calls(plan) == (plan.transfers@ + plan.bonds@) + plan.nominates@) by {
        assert(plan.transfers@ + plan.bonds@ + plan.nominates@ =~= (plan.transfers@ + plan.bonds@)
            + plan.nominates@);
    }
    assert(apply_calls(s0, plan_calls(plan)) == s3);

    let ft = |c: ChainCall| funded_accounts(c);
    assert(proj_concat(plan.transfers@, ft).contains(x));
    lemma_proj_concat_membership(plan.transfers@, ft, x);
    assert(funds_account(plan.transfers@, x)) by {
        let i = choose|i: int|
            0 <= i < plan.transfers@.len() && (#[trigger] ft(plan.transfers@[i])).contains(x);
        assert(funded_accounts(plan.transfers@[i]).contains(x));
    }
    lemma_funding_calls(s0, plan.transfers@, fund_amount);
    assert(balance_of(s1, x) >= fund_amount);

    let fb = |c: ChainCall| bonded_stashes(c);
    assert(proj_concat(plan.bonds@, fb).contains(x));
    lemma_proj_concat_membership(plan.bonds@, fb, x);
    assert(bonds_account(plan.bonds@, x)) by {
        let i = choose|i: int|
            0 <= i < plan.bonds@.len() && (#[trigger] fb(plan.bonds@[i])).contains(x);
        assert(bonded_stashes(plan.bonds@[i]).contains(x));
    }
    lemma_bonding_calls(s1, plan.bonds@, bond_amount);
    assert(stake_of(s2, x) == Some(bond_amount));
    assert(balance_of(s2, x) == balance_of(s1, x));

    let fn_ = |c: ChainCall| nominating_accounts(c);
    assert(proj_concat(plan.nominates@, fn_).contains(x));
    lemma_proj_concat_membership(plan.nominates@, fn_, x);
    assert(nominates_account(plan.nominates@, x)) by {
        let i = choose|i: int|
            0 <= i < plan.nominates@.len() && (#[trigger] fn_(plan.nominates@[i])).contains(x);
        assert(nominating_accounts(plan.nominates@[i]).contains(x));
    }
    lemma_nominating_calls(s2, plan.nominates@, target);
    assert(nomination_of(s3, x) == Some(target));
    assert(stake_of(s3, x) == stake_of(s2, x));
    assert(balance_of(s3, x) == balance_of(s2, x));
}

} // verus!
