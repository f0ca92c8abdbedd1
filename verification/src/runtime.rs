//! The composition root: one value holding the four engines and the height
//! counter, built at genesis by `ExtBuilder`, with the height-driven
//! scheduler loop (`run_to_block`) that fires the periodic finalization.

use vstd::prelude::*;
use vstd::arithmetic::div_mod::{
    lemma_fundamental_div_mod, lemma_fundamental_div_mod_converse, lemma_mod_bound,
};
use crate::balances;
use crate::dispatch::DispatchError;
use crate::identity;
use crate::kitties;
use crate::voting;

verus! {

pub struct Runtime {
    /// The host's monotonically advanced height counter.
    pub block_number: u64,
    pub identity: identity::Pallet,
    pub voting: voting::Pallet,
    pub kitties: kitties::Pallet,
    pub balances: balances::Pallet,
    /// The alerting path: any failure of the privileged action during a
    /// finalization lands here instead of being silently discarded.
    pub finalize_failures: Vec<DispatchError>,
}

impl Runtime {
    pub open spec fn wf(&self) -> bool {
        &&& self.identity.wf()
        &&& self.voting.wf()
        &&& self.balances.wf()
        &&& self.voting.reserves_backed_by(&self.balances)
    }
}

pub struct ExtBuilder;

impl ExtBuilder {
    /// Composes the whole system at genesis: the deployment constants
    /// (admission quorum 2, ten proposals of at most 1000 bytes, one
    /// finalization every 60 blocks, participation threshold 10000, one
    /// item per owner), six endowed accounts, and the height already
    /// advanced past genesis.
    pub fn build() -> (rt: Runtime)
        ensures
            rt.wf(),
            rt.block_number == 2,
            rt.identity.spec_min_vouches() == 2,
            rt.identity.voters() == Seq::<u64>::empty(),
            rt.identity.pending() == Map::<u64, Seq<u64>>::empty(),
            rt.identity.spec_events() == Seq::<identity::Event>::empty(),
            rt.voting.spec_proposals() == Seq::<Seq<u8>>::empty(),
            rt.voting.spec_proposers() == Seq::<u64>::empty(),
            rt.voting.reserves() == Map::<u64, u128>::empty(),
            rt.voting.spec_tally() == (0u128, 0u128),
            rt.voting.spec_events() == Seq::<voting::Event>::empty(),
            rt.voting.spec_max_proposals() == 10,
            rt.voting.spec_max_proposal_length() == 1000,
            rt.voting.spec_blocks_per_vote() == 60,
            rt.voting.spec_participation_threshold() == 10000,
            rt.kitties.spec_max_owned() == 1,
            rt.kitties.spec_kitties() == Seq::<kitties::Kitty>::empty(),
            rt.balances.spec_free(1) == 1000000000000000,
            forall|a: u64| 2 <= a <= 6 ==> rt.balances.spec_free(a) == 1000000000000,
            forall|a: u64| a < 1 || a > 6 ==> rt.balances.spec_free(a) == 0,
            forall|a: u64| rt.balances.spec_reserved(a) == 0,
            rt.finalize_failures@ == Seq::<DispatchError>::empty(),
    {
        let mut ledger = balances::Pallet::new();
        ledger.set_balance(1, 1_000_000_000_000_000);
        ledger.set_balance(2, 1_000_000_000_000);
        ledger.set_balance(3, 1_000_000_000_000);
        ledger.set_balance(4, 1_000_000_000_000);
        ledger.set_balance(5, 1_000_000_000_000);
        ledger.set_balance(6, 1_000_000_000_000);
        proof {
            assert forall|a: u64| a < 1 || a > 6 implies ledger.spec_free(a) == 0 by {
                assert(ledger.spec_account(a) == (balances::AccountData { free: 0, reserved: 0 }));
            }
            assert forall|a: u64| ledger.spec_reserved(a) == 0 by {
                if a < 1 || a > 6 {
                    assert(ledger.spec_account(a) == (balances::AccountData {
                        free: 0,
                        reserved: 0,
                    }));
                }
            }
        }
        Runtime {
            block_number: 2,
            identity: identity::Pallet::new(2),
            voting: voting::Pallet::new(10, 1000, 60, 10_000),
            kitties: kitties::Pallet::new(1),
            balances: ledger,
            finalize_failures: Vec::new(),
        }
    }
}

/// Advances the height one block at a time up to `n`, invoking the voting
/// engine's height hook at every step, as the host scheduler would, so the
/// hook sees each height exactly once. A failure reported by a
/// finalization is recorded on the runtime's alerting path. A range that
/// crosses no finalization height changes nothing; one that crosses
/// exactly one acts as that single finalization.
pub fn run_to_block(rt: &mut Runtime, n: u64)
    requires
        old(rt).voting.wf(),
    ensures
        final(rt).voting.wf(),
        final(rt).identity == old(rt).identity,
        final(rt).balances == old(rt).balances,
        final(rt).voting.reserves() == old(rt).voting.reserves(),
        final(rt).voting.same_config(&old(rt).voting),
        final(rt).kitties.spec_max_owned() == old(rt).kitties.spec_max_owned(),
        old(rt).block_number >= n ==> final(rt).block_number == old(rt).block_number,
        old(rt).block_number < n ==> final(rt).block_number == n,
        old(rt).voting.reserves_backed_by(&old(rt).balances) ==> final(rt).voting.reserves_backed_by(&final(rt).balances),
        // Failures are only ever appended, and proposals only consumed.
        final(rt).finalize_failures@.len() >= old(rt).finalize_failures@.len(),
        forall|i: int|
            0 <= i < old(rt).finalize_failures@.len() ==> final(rt).finalize_failures@[i] == old(rt).finalize_failures@[i],
        final(rt).voting.spec_proposals().len() <= old(rt).voting.spec_proposals().len(),
        ({
            let a = old(rt).block_number as int;
            let q = old(rt).voting.spec_blocks_per_vote() as int;
            old(rt).block_number < n ==> {
                &&& (n as int / q == a / q ==> final(rt).voting == old(rt).voting && final(rt).kitties == old(rt).kitties && final(rt).finalize_failures == old(rt).finalize_failures)
                &&& (n as int / q == a / q + 1 ==> exists|r: Result<(), DispatchError>|
                    voting::finalize_post(
                        &old(rt).voting,
                        &old(rt).kitties,
                        &final(rt).voting,
                        &final(rt).kitties,
                        r,
                    ) && (r is Ok ==> final(rt).finalize_failures == old(rt).finalize_failures) && (
                    r is Err ==> final(rt).finalize_failures@ == old(rt).finalize_failures@.push(r->Err_0)))
            }
        }),
{
    proof {
        old(rt).voting.lemma_config_positive();
    }
    while rt.block_number < n
        invariant
            rt.voting.wf(),
            rt.identity == old(rt).identity,
            rt.balances == old(rt).balances,
            rt.voting.reserves() == old(rt).voting.reserves(),
            rt.voting.same_config(&old(rt).voting),
            rt.kitties.spec_max_owned() == old(rt).kitties.spec_max_owned(),
            old(rt).block_number >= n ==> rt.block_number == old(rt).block_number,
            old(rt).block_number < n ==> old(rt).block_number <= rt.block_number <= n,
            rt.finalize_failures@.len() >= old(rt).finalize_failures@.len(),
            forall|i: int|
                0 <= i < old(rt).finalize_failures@.len() ==> rt.finalize_failures@[i] == old(rt).finalize_failures@[i],
            rt.voting.spec_proposals().len() <= old(rt).voting.spec_proposals().len(),
            ({
                let a = old(rt).block_number as int;
                let c = rt.block_number as int;
                let q = old(rt).voting.spec_blocks_per_vote() as int;
                &&& a / q <= c / q
                &&& (c / q == a / q ==> rt.voting == old(rt).voting && rt.kitties == old(rt).kitties && rt.finalize_failures == old(rt).finalize_failures)
                &&& (c / q == a / q + 1 ==> exists|r: Result<(), DispatchError>|
                    voting::finalize_post(
                        &old(rt).voting,
                        &old(rt).kitties,
                        &rt.voting,
                        &rt.kitties,
                        r,
                    ) && (r is Ok ==> rt.finalize_failures == old(rt).finalize_failures) && (
                    r is Err ==> rt.finalize_failures@ == old(rt).finalize_failures@.push(
                        r->Err_0,
                    )))
            }),
        decreases n - rt.block_number,
    {
        rt.block_number = rt.block_number + 1;
        let ghost voting_pre = rt.voting;
        let ghost kitties_pre = rt.kitties;
        let ghost failures_pre = rt.finalize_failures;
        let res = rt.voting.on_initialize(&mut rt.kitties, rt.block_number);
        let ghost step_result = res;
        match res {
            Ok(()) => {},
            Err(e) => {
                rt.finalize_failures.push(e);
            },
        }
        proof {
            voting_pre.lemma_config_positive();
            let a = old(rt).block_number as int;
            let q = voting_pre.spec_blocks_per_vote() as int;
            let b = rt.block_number as int;
            let c = b - 1;
            lemma_fundamental_div_mod(b, q);
            lemma_mod_bound(b, q);
            if b % q == 0 {
                assert(c == (b / q - 1) * q + (q - 1)) by (nonlinear_arith)
                    requires
                        b == q * (b / q) + b % q,
                        b % q == 0,
                        c == b - 1,
                        q >= 1,
                ;
                lemma_fundamental_div_mod_converse(c, q, b / q - 1, q - 1);
                assert(c / q == b / q - 1);
                if c / q == a / q {
                    assert(voting_pre == old(rt).voting && kitties_pre == old(rt).kitties
                        && failures_pre == old(rt).finalize_failures);
                    assert(voting::finalize_post(
                        &old(rt).voting,
                        &old(rt).kitties,
                        &rt.voting,
                        &rt.kitties,
                        step_result,
                    ) && (step_result is Ok ==> rt.finalize_failures == old(rt).finalize_failures)
                        && (step_result is Err ==> rt.finalize_failures@ == old(
                        rt,
                    ).finalize_failures@.push(step_result->Err_0)));
                }
            } else {
                assert(c == (b / q) * q + (b % q - 1)) by (nonlinear_arith)
                    requires
                        b == q * (b / q) + b % q,
                        c == b - 1,
                ;
                lemma_fundamental_div_mod_converse(c, q, b / q, b % q - 1);
                assert(c / q == b / q);
                if c / q == a / q + 1 {
                    let r0 = choose|r: Result<(), DispatchError>|
                        voting::finalize_post(
                            &old(rt).voting,
                            &old(rt).kitties,
                            &voting_pre,
                            &kitties_pre,
                            r,
                        ) && (r is Ok ==> failures_pre == old(rt).finalize_failures) && (r is Err
                        ==> failures_pre@ == old(rt).finalize_failures@.push(r->Err_0));
                    assert(voting::finalize_post(
                        &old(rt).voting,
                        &old(rt).kitties,
                        &rt.voting,
                        &rt.kitties,
                        r0,
                    ) && (r0 is Ok ==> rt.finalize_failures == old(rt).finalize_failures) && (
                    r0 is Err ==> rt.finalize_failures@ == old(rt).finalize_failures@.push(
                        r0->Err_0,
                    )));
                }
            }
        }
    }
}

} // verus!
