//! A ghost model of the remote system's harness-visible bookkeeping: what
//! each submitted operation does to balances, stakes, declared commissions
//! and nomination targets. Reward computation, fees and consensus are the
//! remote system's own and are not modelled; a payout claim is verified by
//! observation (see the payout verifier), never assumed.

use vstd::prelude::*;

use crate::calls::ChainCall;

verus! {

/// The harness-visible account state of the remote system.
pub struct ChainState {
    pub balances: Map<Seq<u8>, nat>,
    pub stakes: Map<Seq<u8>, u128>,
    pub commissions: Map<Seq<u8>, u8>,
    pub nominations: Map<Seq<u8>, Seq<u8>>,
    pub limits: Option<(u128, u128)>,
}

/// An account's free balance; an account never seen holds nothing.
pub open spec fn balance_of(s: ChainState, a: Seq<u8>) -> nat {
    if s.balances.dom().contains(a) {
        s.balances[a]
    } else {
        0
    }
}

/// An account's bonded stake, if it has bonded.
pub open spec fn stake_of(s: ChainState, a: Seq<u8>) -> Option<u128> {
    if s.stakes.dom().contains(a) {
        Some(s.stakes[a])
    } else {
        None
    }
}

/// An account's declared commission, if it has declared validation.
pub open spec fn commission_of(s: ChainState, a: Seq<u8>) -> Option<u8> {
    if s.commissions.dom().contains(a) {
        Some(s.commissions[a])
    } else {
        None
    }
}

/// An account's nomination target, if it has nominated.
pub open spec fn nomination_of(s: ChainState, a: Seq<u8>) -> Option<Seq<u8>> {
    if s.nominations.dom().contains(a) {
        Some(s.nominations[a])
    } else {
        None
    }
}

/// Credits one account with `amt`.
pub open spec fn credit_one(s: ChainState, a: Seq<u8>, amt: u128) -> ChainState {
    ChainState { balances: s.balances.insert(a, (balance_of(s, a) + amt) as nat), ..s }
}

/// Credits every listed account with `amt`, in order.
pub open spec fn credit_all(s: ChainState, rs: Seq<Seq<u8>>, amt: u128) -> ChainState
    decreases rs.len(),
{
    if rs.len() == 0 {
        s
    } else {
        credit_all(credit_one(s, rs[0], amt), rs.drop_first(), amt)
    }
}

/// Bonds `amt` for one stash.
pub open spec fn bond_one(s: ChainState, st: Seq<u8>, amt: u128) -> ChainState {
    ChainState { stakes: s.stakes.insert(st, amt), ..s }
}

/// Bonds `amt` for every listed stash, in order.
pub open spec fn bond_all(s: ChainState, sts: Seq<Seq<u8>>, amt: u128) -> ChainState
    decreases sts.len(),
{
    if sts.len() == 0 {
        s
    } else {
        bond_all(bond_one(s, sts[0], amt), sts.drop_first(), amt)
    }
}

/// Records one (nominator, target) nomination.
pub open spec fn nominate_one(s: ChainState, p: (Seq<u8>, Seq<u8>)) -> ChainState {
    ChainState { nominations: s.nominations.insert(p.0, p.1), ..s }
}

/// Records every listed nomination, in order.
pub open spec fn nominate_all(s: ChainState, ps: Seq<(Seq<u8>, Seq<u8>)>) -> ChainState
    decreases ps.len(),
{
    if ps.len() == 0 {
        s
    } else {
        nominate_all(nominate_one(s, ps[0]), ps.drop_first())
    }
}

/// What one submitted operation does to the harness-visible state. A
/// payout claim moves reward funds the remote system computes, so its
/// balance effect is deliberately left out of the model; an era bump
/// changes no account state.
pub open spec fn apply_call(s: ChainState, c: ChainCall) -> ChainState {
    match c {
        ChainCall::Transfer { recipients, amount_each } => credit_all(
            s,
            recipients@.map_values(|v: Vec<u8>| v@),
            amount_each,
        ),
        ChainCall::BondSelf { stash, controller, amount } => bond_one(s, stash@, amount),
        ChainCall::Validate { stash, commission } => ChainState {
            commissions: s.commissions.insert(stash@, commission),
            ..s
        },
        ChainCall::BatchBond { stashes, amount } => bond_all(
            s,
            stashes@.map_values(|v: Vec<u8>| v@),
            amount,
        ),
        ChainCall::BatchNominate { pairs } => nominate_all(
            s,
            pairs@.map_values(|p: (Vec<u8>, Vec<u8>)| (p.0@, p.1@)),
        ),
        ChainCall::ClaimPayout { .. } => s,
        ChainCall::SetStakingLimits { minimal_nominator_stake, minimal_validator_stake } =>
            ChainState {
            limits: Some((minimal_nominator_stake, minimal_validator_stake)),
            ..s
        },
        ChainCall::ForceNewEra => s,
    }
}

/// Applies a run of operations in submission order.
pub open spec fn apply_calls(s: ChainState, cs: Seq<ChainCall>) -> ChainState
    decreases cs.len(),
{
    if cs.len() == 0 {
        s
    } else {
        apply_calls(apply_call(s, cs[0]), cs.drop_first())
    }
}

/// Applying a concatenation is applying the parts in order.
pub proof fn lemma_apply_calls_concat(s: ChainState, a: Seq<ChainCall>, b: Seq<ChainCall>)
    ensures
        apply_calls(s, a + b) == apply_calls(apply_calls(s, a), b),
    decreases a.len(),
{
    if a.len() == 0 {
        assert(a + b =~= b);
    } else {
        assert((a + b)[0] == a[0]);
        assert((a + b).drop_first() =~= a.drop_first() + b);
        lemma_apply_calls_concat(apply_call(s, a[0]), a.drop_first(), b);
    }
}

/// The stashes that one operation bonds.
pub open spec fn bonded_stashes(c: ChainCall) -> Seq<Seq<u8>> {
    match c {
        ChainCall::BondSelf { stash, .. } => seq![stash@],
        ChainCall::BatchBond { stashes, .. } => stashes@.map_values(|v: Vec<u8>| v@),
        _ => Seq::empty(),
    }
}

/// The operation only bonds, and bonds exactly `amt`.
pub open spec fn is_bonding(c: ChainCall, amt: u128) -> bool {
    match c {
        ChainCall::BondSelf { amount, .. } => amount == amt,
        ChainCall::BatchBond { amount, .. } => amount == amt,
        _ => false,
    }
}

/// Some operation of the run bonds for account `x`.
pub open spec fn bonds_account(cs: Seq<ChainCall>, x: Seq<u8>) -> bool {
    exists|i: int| 0 <= i < cs.len() && (#[trigger] bonded_stashes(cs[i])).contains(x)
}

proof fn lemma_bond_all_effect(s: ChainState, sts: Seq<Seq<u8>>, amt: u128)
    ensures
        forall|x: Seq<u8>| sts.contains(x) ==> stake_of(bond_all(s, sts, amt), x) == Some(amt),
        forall|x: Seq<u8>| !sts.contains(x) ==> stake_of(bond_all(s, sts, amt), x) == stake_of(
            s,
            x,
        ),
        bond_all(s, sts, amt).balances == s.balances,
        bond_all(s, sts, amt).commissions == s.commissions,
        bond_all(s, sts, amt).nominations == s.nominations,
        bond_all(s, sts, amt).limits == s.limits,
    decreases sts.len(),
{
    if sts.len() > 0 {
        let s1 = bond_one(s, sts[0], amt);
        let rest = sts.drop_first();
        lemma_bond_all_effect(s1, rest, amt);
        assert forall|x: Seq<u8>| sts.contains(x) implies stake_of(bond_all(s, sts, amt), x)
            == Some(amt) by {
            if !rest.contains(x) {
                let i = choose|i: int| 0 <= i < sts.len() && sts[i] == x;
                if i > 0 {
                    assert(rest[i - 1] == x);
                    assert(rest.contains(x));
                }
                assert(x == sts[0]);
                assert(stake_of(s1, x) == Some(amt));
            }
        }
        assert forall|x: Seq<u8>| !sts.contains(x) implies stake_of(bond_all(s, sts, amt), x)
            == stake_of(s, x) by {
            assert(sts[0] == sts[0] && sts.contains(sts[0]));
            assert(x != sts[0]);
            if rest.contains(x) {
                let j = choose|j: int| 0 <= j < rest.len() && rest[j] == x;
                assert(sts[j + 1] == x);
                assert(sts.contains(x));
            }
        }
    }
}

/// After a run of operations that all bond `amt`: every stash some
/// operation names holds stake exactly `amt`; every other account's stake
/// is untouched; balances, commissions, nominations and limits are
/// untouched.
pub proof fn lemma_bonding_calls(s: ChainState, cs: Seq<ChainCall>, amt: u128)
    requires
        forall|i: int| 0 <= i < cs.len() ==> is_bonding(#[trigger] cs[i], amt),
    ensures
        forall|x: Seq<u8>| bonds_account(cs, x) ==> stake_of(apply_calls(s, cs), x) == Some(amt),
        forall|x: Seq<u8>| !bonds_account(cs, x) ==> stake_of(apply_calls(s, cs), x) == stake_of(
            s,
            x,
        ),
        apply_calls(s, cs).balances == s.balances,
        apply_calls(s, cs).commissions == s.commissions,
        apply_calls(s, cs).nominations == s.nominations,
        apply_calls(s, cs).limits == s.limits,
    decreases cs.len(),
{
    if cs.len() > 0 {
        let c0 = cs[0];
        let s1 = apply_call(s, c0);
        let rest = cs.drop_first();
        match c0 {
            ChainCall::BondSelf { stash, controller, amount } => {
                assert(bonded_stashes(c0) =~= seq![stash@]);
                assert forall|x: Seq<u8>| bonded_stashes(c0).contains(x) implies x == stash@ by {}
                assert(stake_of(s1, stash@) == Some(amt));
            },
            ChainCall::BatchBond { stashes, amount } => {
                lemma_bond_all_effect(s, stashes@.map_values(|v: Vec<u8>| v@), amt);
            },
            _ => {
                assert(false);
            },
        }
        lemma_bonding_calls(s1, rest, amt);
        assert forall|x: Seq<u8>| bonds_account(cs, x) implies stake_of(apply_calls(s, cs), x)
            == Some(amt) by {
            if bonds_account(rest, x) {
            } else {
                let i = choose|i: int|
                    0 <= i < cs.len() && (#[trigger] bonded_stashes(cs[i])).contains(x);
                if i > 0 {
                    assert(bonded_stashes(rest[i - 1]).contains(x));
                    assert(bonds_account(rest, x));
                }
                assert(bonded_stashes(c0).contains(x));
                assert(stake_of(s1, x) == Some(amt));
            }
        }
        assert forall|x: Seq<u8>| !bonds_account(cs, x) implies stake_of(apply_calls(s, cs), x)
            == stake_of(s, x) by {
            assert(!bonded_stashes(cs[0]).contains(x));
            if bonds_account(rest, x) {
                let j = choose|j: int|
                    0 <= j < rest.len() && (#[trigger] bonded_stashes(rest[j])).contains(x);
                assert(bonded_stashes(cs[j + 1]).contains(x));
                assert(bonds_account(cs, x));
            }
            match c0 {
                ChainCall::BondSelf { stash, .. } => {
                    if x == stash@ {
                        assert(bonded_stashes(c0)[0] == stash@);
                        assert(bonded_stashes(c0).contains(x));
                    }
                    assert(stake_of(s1, x) == stake_of(s, x));
                },
                ChainCall::BatchBond { stashes, .. } => {
                    assert(stake_of(s1, x) == stake_of(s, x));
                },
                _ => {},
            }
            assert(stake_of(apply_calls(s1, rest), x) == stake_of(s1, x));
        }
    }
}

/// The nominators that one operation nominates for.
pub open spec fn nominating_accounts(c: ChainCall) -> Seq<Seq<u8>> {
    match c {
        ChainCall::BatchNominate { pairs } => pairs@.map_values(|p: (Vec<u8>, Vec<u8>)| p.0@),
        _ => Seq::empty(),
    }
}

/// The operation only nominates, and every pair names `target`.
pub open spec fn is_nominating(c: ChainCall, target: Seq<u8>) -> bool {
    match c {
        ChainCall::BatchNominate { pairs } => forall|j: int|
            0 <= j < pairs@.len() ==> (#[trigger] pairs@[j]).1@ == target,
        _ => false,
    }
}

/// Some operation of the run nominates for account `x`.
pub open spec fn nominates_account(cs: Seq<ChainCall>, x: Seq<u8>) -> bool {
    exists|i: int| 0 <= i < cs.len() && (#[trigger] nominating_accounts(cs[i])).contains(x)
}

proof fn lemma_nominate_all_effect(s: ChainState, ps: Seq<(Seq<u8>, Seq<u8>)>, target: Seq<u8>)
    requires
        forall|j: int| 0 <= j < ps.len() ==> (#[trigger] ps[j]).1 == target,
    ensures
        forall|x: Seq<u8>|
            ps.map_values(|p: (Seq<u8>, Seq<u8>)| p.0).contains(x) ==> nomination_of(
                nominate_all(s, ps),
                x,
            ) == Some(target),
        forall|x: Seq<u8>|
            !ps.map_values(|p: (Seq<u8>, Seq<u8>)| p.0).contains(x) ==> nomination_of(
                nominate_all(s, ps),
                x,
            ) == nomination_of(s, x),
        nominate_all(s, ps).balances == s.balances,
        nominate_all(s, ps).stakes == s.stakes,
        nominate_all(s, ps).commissions == s.commissions,
        nominate_all(s, ps).limits == s.limits,
    decreases ps.len(),
{
    let f = |p: (Seq<u8>, Seq<u8>)| p.0;
    if ps.len() > 0 {
        let s1 = nominate_one(s, ps[0]);
        let rest = ps.drop_first();
        assert(rest.map_values(f) =~= ps.map_values(f).drop_first());
        lemma_nominate_all_effect(s1, rest, target);
        let firsts = ps.map_values(f);
        assert forall|x: Seq<u8>| firsts.contains(x) implies nomination_of(nominate_all(s, ps), x)
            == Some(target) by {
            if !rest.map_values(f).contains(x) {
                let i = choose|i: int| 0 <= i < firsts.len() && firsts[i] == x;
                if i > 0 {
                    assert(rest.map_values(f)[i - 1] == x);
                }
                assert(x == ps[0].0);
                assert(nomination_of(s1, x) == Some(target));
            }
        }
        assert forall|x: Seq<u8>| !firsts.contains(x) implies nomination_of(
            nominate_all(s, ps),
            x,
        ) == nomination_of(s, x) by {
            assert(firsts[0] == ps[0].0);
            if x == ps[0].0 {
                assert(firsts.contains(x));
            }
            assert(x != ps[0].0);
            if rest.map_values(f).contains(x) {
                let j = choose|j: int| 0 <= j < rest.len() && rest.map_values(f)[j] == x;
                assert(firsts[j + 1] == x);
                assert(firsts.contains(x));
            }
            assert(nomination_of(s1, x) == nomination_of(s, x));
            assert(nomination_of(nominate_all(s1, rest), x) == nomination_of(s1, x));
        }
    }
}

/// After a run of operations that all nominate `target`: every nominator
/// some operation names nominates exactly `target`; every other account's
/// nomination is untouched; balances, stakes, commissions and limits are
/// untouched.
pub proof fn lemma_nominating_calls(s: ChainState, cs: Seq<ChainCall>, target: Seq<u8>)
    requires
        forall|i: int| 0 <= i < cs.len() ==> is_nominating(#[trigger] cs[i], target),
    ensures
        forall|x: Seq<u8>|
            nominates_account(cs, x) ==> nomination_of(apply_calls(s, cs), x) == Some(target),
        forall|x: Seq<u8>|
            !nominates_account(cs, x) ==> nomination_of(apply_calls(s, cs), x) == nomination_of(
                s,
                x,
            ),
        apply_calls(s, cs).balances == s.balances,
        apply_calls(s, cs).stakes == s.stakes,
        apply_calls(s, cs).commissions == s.commissions,
        apply_calls(s, cs).limits == s.limits,
    decreases cs.len(),
{
    if cs.len() > 0 {
        let c0 = cs[0];
        let s1 = apply_call(s, c0);
        let rest = cs.drop_first();
        match c0 {
            ChainCall::BatchNominate { pairs } => {
                let ps = pairs@.map_values(|p: (Vec<u8>, Vec<u8>)| (p.0@, p.1@));
                assert forall|j: int| 0 <= j < ps.len() implies (#[trigger] ps[j]).1 == target by {
                    assert(pairs@[j].1@ == target);
                }
                lemma_nominate_all_effect(s, ps, target);
                assert(ps.map_values(|p: (Seq<u8>, Seq<u8>)| p.0) =~= nominating_accounts(c0));
            },
            _ => {
                assert(false);
            },
        }
        lemma_nominating_calls(s1, rest, target);
        assert forall|x: Seq<u8>| nominates_account(cs, x) implies nomination_of(
            apply_calls(s, cs),
            x,
        ) == Some(target) by {
            if !nominates_account(rest, x) {
                let i = choose|i: int|
                    0 <= i < cs.len() && (#[trigger] nominating_accounts(cs[i])).contains(x);
                if i > 0 {
                    assert(nominating_accounts(rest[i - 1]).contains(x));
                }
                assert(nominating_accounts(c0).contains(x));
                assert(nomination_of(s1, x) == Some(target));
            }
        }
        assert forall|x: Seq<u8>| !nominates_account(cs, x) implies nomination_of(
            apply_calls(s, cs),
            x,
        ) == nomination_of(s, x) by {
            assert(!nominating_accounts(cs[0]).contains(x));
            if nominates_account(rest, x) {
                let j = choose|j: int|
                    0 <= j < rest.len() && (#[trigger] nominating_accounts(rest[j])).contains(x);
                assert(nominating_accounts(cs[j + 1]).contains(x));
            }
            assert(nomination_of(s1, x) == nomination_of(s, x));
        }
    }
}

/// The recipients that one operation funds.
pub open spec fn funded_accounts(c: ChainCall) -> Seq<Seq<u8>> {
    match c {
        ChainCall::Transfer { recipients, .. } => recipients@.map_values(|v: Vec<u8>| v@),
        _ => Seq::empty(),
    }
}

/// The operation only transfers, each recipient receiving `amt`.
pub open spec fn is_funding(c: ChainCall, amt: u128) -> bool {
    match c {
        ChainCall::Transfer { amount_each, .. } => amount_each == amt,
        _ => false,
    }
}

/// Some operation of the run funds account `x`.
pub open spec fn funds_account(cs: Seq<ChainCall>, x: Seq<u8>) -> bool {
    exists|i: int| 0 <= i < cs.len() && (#[trigger] funded_accounts(cs[i])).contains(x)
}

proof fn lemma_credit_all_effect(s: ChainState, rs: Seq<Seq<u8>>, amt: u128)
    ensures
        forall|x: Seq<u8>| rs.contains(x) ==> balance_of(credit_all(s, rs, amt), x) >= amt,
        forall|x: Seq<u8>| #[trigger] balance_of(credit_all(s, rs, amt), x) >= balance_of(s, x),
        forall|x: Seq<u8>| !rs.contains(x) ==> balance_of(credit_all(s, rs, amt), x) == balance_of(
            s,
            x,
        ),
        credit_all(s, rs, amt).stakes == s.stakes,
        credit_all(s, rs, amt).commissions == s.commissions,
        credit_all(s, rs, amt).nominations == s.nominations,
        credit_all(s, rs, amt).limits == s.limits,
    decreases rs.len(),
{
    if rs.len() > 0 {
        let s1 = credit_one(s, rs[0], amt);
        let rest = rs.drop_first();
        lemma_credit_all_effect(s1, rest, amt);
        assert forall|x: Seq<u8>| rs.contains(x) implies balance_of(credit_all(s, rs, amt), x)
            >= amt by {
            if !rest.contains(x) {
                let i = choose|i: int| 0 <= i < rs.len() && rs[i] == x;
                if i > 0 {
                    assert(rest[i - 1] == x);
                }
                assert(x == rs[0]);
                assert(balance_of(s1, x) >= amt);
            }
        }
        assert forall|x: Seq<u8>| !rs.contains(x) implies balance_of(credit_all(s, rs, amt), x)
            == balance_of(s, x) by {
            assert(rs.contains(rs[0]));
            assert(x != rs[0]);
            if rest.contains(x) {
                let j = choose|j: int| 0 <= j < rest.len() && rest[j] == x;
                assert(rs[j + 1] == x);
            }
        }
    }
}

/// After a run of operations that all transfer `amt` to each recipient:
/// every recipient holds at least `amt`; no balance shrinks; accounts never
/// named keep their balance; stakes, commissions, nominations and limits
/// are untouched.
pub proof fn lemma_funding_calls(s: ChainState, cs: Seq<ChainCall>, amt: u128)
    requires
        forall|i: int| 0 <= i < cs.len() ==> is_funding(#[trigger] cs[i], amt),
    ensures
        forall|x: Seq<u8>| funds_account(cs, x) ==> balance_of(apply_calls(s, cs), x) >= amt,
        forall|x: Seq<u8>| #[trigger] balance_of(apply_calls(s, cs), x) >= balance_of(s, x),
        forall|x: Seq<u8>| !funds_account(cs, x) ==> balance_of(apply_calls(s, cs), x)
            == balance_of(s, x),
        apply_calls(s, cs).stakes == s.stakes,
        apply_calls(s, cs).commissions == s.commissions,
        apply_calls(s, cs).nominations == s.nominations,
        apply_calls(s, cs).limits == s.limits,
    decreases cs.len(),
{
    if cs.len() > 0 {
        let c0 = cs[0];
        let s1 = apply_call(s, c0);
        let rest = cs.drop_first();
        match c0 {
            ChainCall::Transfer { recipients, amount_each } => {
                lemma_credit_all_effect(s, recipients@.map_values(|v: Vec<u8>| v@), amt);
            },
            _ => {
                assert(false);
            },
        }
        lemma_funding_calls(s1, rest, amt);
        assert forall|x: Seq<u8>| funds_account(cs, x) implies balance_of(apply_calls(s, cs), x)
            >= amt by {
            if !funds_account(rest, x) {
                let i = choose|i: int|
                    0 <= i < cs.len() && (#[trigger] funded_accounts(cs[i])).contains(x);
                if i > 0 {
                    assert(funded_accounts(rest[i - 1]).contains(x));
                }
                assert(funded_accounts(c0).contains(x));
                assert(balance_of(s1, x) >= amt);
            }
        }
        assert forall|x: Seq<u8>| !funds_account(cs, x) implies balance_of(apply_calls(s, cs), x)
            == balance_of(s, x) by {
            assert(!funded_accounts(cs[0]).contains(x));
            if funds_account(rest, x) {
                let j = choose|j: int|
                    0 <= j < rest.len() && (#[trigger] funded_accounts(rest[j])).contains(x);
                assert(funded_accounts(cs[j + 1]).contains(x));
            }
            assert(balance_of(s1, x) == balance_of(s, x));
        }
    }
}

/// The concatenation, in submission order, of one projected sequence per
/// operation: with `funded_accounts` it is every recipient of a run of
/// transfers, in order; with `bonded_stashes`, every bonded stash; with
/// `nominating_accounts`, every nominator.
pub open spec fn proj_concat<U>(cs: Seq<ChainCall>, f: spec_fn(ChainCall) -> Seq<U>) -> Seq<U>
    decreases cs.len(),
{
    if cs.len() == 0 {
        Seq::empty()
    } else {
        f(cs[0]) + proj_concat(cs.drop_first(), f)
    }
}

/// Appending one operation appends its projection.
pub proof fn lemma_proj_concat_push<U>(cs: Seq<ChainCall>, f: spec_fn(ChainCall) -> Seq<U>, c: ChainCall)
    ensures
        proj_concat(cs.push(c), f) == proj_concat(cs, f) + f(c),
    decreases cs.len(),
{
    if cs.len() == 0 {
        assert(cs.push(c)[0] == c);
        assert(cs.push(c).drop_first() =~= cs);
        assert(proj_concat(cs, f) == Seq::<U>::empty());
        assert(proj_concat(cs.push(c), f) == f(c) + Seq::<U>::empty());
        assert(f(c) + Seq::<U>::empty() =~= Seq::<U>::empty() + f(c));
    } else {
        assert(cs.push(c)[0] == cs[0]);
        assert(cs.push(c).drop_first() =~= cs.drop_first().push(c));
        lemma_proj_concat_push(cs.drop_first(), f, c);
        assert(proj_concat(cs.push(c), f) == f(cs[0]) + proj_concat(cs.drop_first().push(c), f));
        assert(proj_concat(cs, f) == f(cs[0]) + proj_concat(cs.drop_first(), f));
        assert(f(cs[0]) + (proj_concat(cs.drop_first(), f) + f(c)) =~= (f(cs[0]) + proj_concat(
            cs.drop_first(),
            f,
        )) + f(c));
    }
}

/// An element of the projected concatenation lies in some operation's
/// projection.
pub proof fn lemma_proj_concat_membership<U>(
    cs: Seq<ChainCall>,
    f: spec_fn(ChainCall) -> Seq<U>,
    x: U,
)
    requires
        proj_concat(cs, f).contains(x),
    ensures
        exists|i: int| 0 <= i < cs.len() && (#[trigger] f(cs[i])).contains(x),
    decreases cs.len(),
{
    if cs.len() == 0 {
        assert(false);
    } else {
        let head = f(cs[0]);
        let tail = proj_concat(cs.drop_first(), f);
        let k = choose|k: int|
            0 <= k < proj_concat(cs, f).len() && proj_concat(cs, f)[k] == x;
        if k < head.len() {
            assert(head[k] == x);
            assert(head.contains(x));
        } else {
            assert(tail[k - head.len()] == x);
            assert(tail.contains(x));
            lemma_proj_concat_membership(cs.drop_first(), f, x);
            let i = choose|i: int|
                0 <= i < cs.drop_first().len() && (#[trigger] f(cs.drop_first()[i])).contains(x);
            assert(f(cs[i + 1]).contains(x));
        }
    }
}

/// The stashes for which one operation declares validation.
pub open spec fn validated_stashes(c: ChainCall) -> Seq<Seq<u8>> {
    match c {
        ChainCall::Validate { stash, .. } => seq![stash@],
        _ => Seq::empty(),
    }
}

/// The operation only declares validation, with commission `comm`.
pub open spec fn is_validating(c: ChainCall, comm: u8) -> bool {
    match c {
        ChainCall::Validate { commission, .. } => commission == comm,
        _ => false,
    }
}

/// Some operation of the run declares validation for account `x`.
pub open spec fn validates_account(cs: Seq<ChainCall>, x: Seq<u8>) -> bool {
    exists|i: int| 0 <= i < cs.len() && (#[trigger] validated_stashes(cs[i])).contains(x)
}

/// After a run of operations that all declare validation with commission
/// `comm`: every stash some operation names has that commission recorded;
/// every other account's commission is untouched; balances, stakes,
/// nominations and limits are untouched.
pub proof fn lemma_validating_calls(s: ChainState, cs: Seq<ChainCall>, comm: u8)
    requires
        forall|i: int| 0 <= i < cs.len() ==> is_validating(#[trigger] cs[i], comm),
    ensures
        forall|x: Seq<u8>|
            validates_account(cs, x) ==> commission_of(apply_calls(s, cs), x) == Some(comm),
        forall|x: Seq<u8>|
            !validates_account(cs, x) ==> commission_of(apply_calls(s, cs), x) == commission_of(
                s,
                x,
            ),
        apply_calls(s, cs).balances == s.balances,
        apply_calls(s, cs).stakes == s.stakes,
        apply_calls(s, cs).nominations == s.nominations,
        apply_calls(s, cs).limits == s.limits,
    decreases cs.len(),
{
    if cs.len() > 0 {
        let c0 = cs[0];
        let s1 = apply_call(s, c0);
        let rest = cs.drop_first();
        match c0 {
            ChainCall::Validate { stash, commission } => {
                assert(validated_stashes(c0) =~= seq![stash@]);
                assert(commission_of(s1, stash@) == Some(comm));
            },
            _ => {
                assert(false);
            },
        }
        lemma_validating_calls(s1, rest, comm);
        assert forall|x: Seq<u8>| validates_account(cs, x) implies commission_of(
            apply_calls(s, cs),
            x,
        ) == Some(comm) by {
            if !validates_account(rest, x) {
                let i = choose|i: int|
                    0 <= i < cs.len() && (#[trigger] validated_stashes(cs[i])).contains(x);
                if i > 0 {
                    assert(validated_stashes(rest[i - 1]).contains(x));
                }
                assert(validated_stashes(c0).contains(x));
                assert(commission_of(s1, x) == Some(comm));
            }
        }
        assert forall|x: Seq<u8>| !validates_account(cs, x) implies commission_of(
            apply_calls(s, cs),
            x,
        ) == commission_of(s, x) by {
            assert(!validated_stashes(cs[0]).contains(x));
            if validates_account(rest, x) {
                let j = choose|j: int|
                    0 <= j < rest.len() && (#[trigger] validated_stashes(rest[j])).contains(x);
                assert(validated_stashes(cs[j + 1]).contains(x));
            }
            match c0 {
                ChainCall::Validate { stash, .. } => {
                    if x == stash@ {
                        assert(validated_stashes(c0)[0] == stash@);
                        assert(validated_stashes(c0).contains(x));
                    }
                    assert(commission_of(s1, x) == commission_of(s, x));
                },
                _ => {},
            }
            assert(commission_of(apply_calls(s1, rest), x) == commission_of(s1, x));
        }
    }
}

} // verus!
