//! The quadratic governance engine. It owns the proposal and proposer
//! queues, the per-account reserve map and the running tally; voting power
//! is the integer square root of the caller's reserved stake. The admission
//! check and the privileged item-creation action are reached only through
//! the capability interfaces.

use vstd::prelude::*;
use crate::assoc_list::AssocList;
use crate::balances;
use crate::bounded_vec::BoundedVec;
use crate::dispatch::{ensure_signed, DispatchError, Origin};
use crate::interface::{IdentityInterface, KittiesInterface};
use crate::sqrt::{integer_sqrt, isqrt, lemma_isqrt_bound};

verus! {

#[derive(Clone, Copy, Debug, PartialEq, Eq, Structural)]
pub enum Error {
    /// Doesn't make sense to add an empty proposal.
    TriedToAddEmptyProposal,
    /// The proposal queue (or the proposal itself) is over capacity.
    TooManyProposals,
    /// The reserve amount is zero.
    InvalidReserveAmount,
    /// The caller has no voting reserve to release.
    NoVotingPowerToRelease,
    /// Tried to vote with no voting power.
    VotedWithNoVotingPower,
    /// The caller is not in the voter set.
    NotInVoterSet,
    /// Tried to vote but there are no proposals.
    NoProposalToVoteFor,
    /// The voting power does not fit the tally's numeric width.
    BalanceToVoteConvertFailed,
}

#[derive(Debug)]
pub enum Event {
    /// Proposal submitted: (submitter, proposal).
    ProposalSubmitted(u64, Vec<u8>),
    /// Voting power was reserved by locking currency: (who, amount).
    VotingPowerReserved(u64, u128),
    /// Voting power was released by unlocking currency: (who).
    AllVotingPowerReleased(u64),
    /// Voted on the current proposal: (voter, (aye power, nay power)).
    VotedOnCurrentProposal(u64, (u128, u128)),
    /// The current proposal passed: (proposal, (aye power, nay power)).
    VoteOnCurrentProposalPassed(Vec<u8>, (u128, u128)),
    /// The current proposal was rejected: (proposal, (aye power, nay power)).
    CurrentProposalRejected(Vec<u8>, (u128, u128)),
}

/// `post` is `pre` with exactly one event appended.
pub open spec fn events_appended(pre: Seq<Event>, post: Seq<Event>) -> bool {
    &&& post.len() == pre.len() + 1
    &&& forall|i: int| 0 <= i < pre.len() ==> post[i] == pre[i]
}

/// Twice the nay power, saturating at the numeric maximum so that an
/// overflow rejects the proposal instead of wrapping.
pub open spec fn spec_twice_nay(nay: u128) -> int {
    if 2 * (nay as int) > u128::MAX as int {
        u128::MAX as int
    } else {
        2 * (nay as int)
    }
}

/// Total turnout, saturating at zero on overflow: a conservative,
/// fail-closed choice that also rejects the proposal.
pub open spec fn spec_turnout(aye: u128, nay: u128) -> int {
    if (aye as int) + (nay as int) > u128::MAX as int {
        0
    } else {
        (aye as int) + (nay as int)
    }
}

/// The approval rule: ayes must more than double the nays, and turnout
/// must exceed the participation threshold.
pub open spec fn spec_approved(aye: u128, nay: u128, threshold: u128) -> bool {
    (aye as int) > spec_twice_nay(nay) && spec_turnout(aye, nay) > threshold as int
}

/// The recognized privileged-action payload: the bytes of "mint a kitty".
pub open spec fn mint_sentinel() -> Seq<u8> {
    seq![109u8, 105u8, 110u8, 116u8, 32u8, 97u8, 32u8, 107u8, 105u8, 116u8, 116u8, 121u8]
}

/// Whether `p` holds exactly the privileged-action payload.
fn is_mint_sentinel(p: &Vec<u8>) -> (r: bool)
    ensures
        r == (p@ == mint_sentinel()),
{
    let sentinel: [u8; 12] = [109, 105, 110, 116, 32, 97, 32, 107, 105, 116, 116, 121];
    proof {
        assert(sentinel@ =~= mint_sentinel());
    }
    if p.len() != 12 {
        proof {
            assert(p@ != mint_sentinel());
        }
        return false;
    }
    let mut i: usize = 0;
    while i < 12
        invariant
            i <= 12,
            p@.len() == 12,
            sentinel@ == mint_sentinel(),
            forall|j: int| 0 <= j < i ==> p@[j] == sentinel@[j],
        decreases 12 - i,
    {
        if p[i] != sentinel[i] {
            proof {
                assert(p@[i as int] != mint_sentinel()[i as int]);
            }
            return false;
        }
        i += 1;
    }
    proof {
        assert(p@ =~= mint_sentinel());
    }
    true
}

pub struct Pallet {
    /// Pending proposal payloads, oldest first.
    proposals: BoundedVec<Vec<u8>>,
    /// The submitter of each pending proposal, index for index.
    proposers: BoundedVec<u64>,
    /// Locked stake backing each account's voting power.
    reserve_set: AssocList<u128>,
    /// (aye power, nay power) for the proposal at the front of the queue.
    tally: (u128, u128),
    /// Everything the engine has announced, oldest first.
    events: Vec<Event>,
    /// The most proposals the queue may hold.
    max_proposals: u32,
    /// The longest payload a proposal may carry, in bytes.
    max_proposal_length: u32,
    /// How many height advances pass between finalizations.
    blocks_per_vote: u32,
    /// The turnout a proposal needs for its outcome to count.
    participation_threshold: u128,
}

impl Pallet {
    pub closed spec fn spec_proposals(&self) -> Seq<Seq<u8>> {
        Seq::new(self.proposals@.len(), |i: int| self.proposals@[i]@)
    }

    pub closed spec fn spec_proposers(&self) -> Seq<u64> {
        self.proposers@
    }

    pub closed spec fn reserves(&self) -> Map<u64, u128> {
        self.reserve_set@
    }

    /// The stake reserved by `a` (zero when `a` has no entry).
    pub open spec fn reserve_of(&self, a: u64) -> u128 {
        if self.reserves().dom().contains(a) {
            self.reserves()[a]
        } else {
            0
        }
    }

    pub closed spec fn spec_tally(&self) -> (u128, u128) {
        self.tally
    }

    pub closed spec fn spec_events(&self) -> Seq<Event> {
        self.events@
    }

    pub closed spec fn spec_max_proposals(&self) -> u32 {
        self.max_proposals
    }

    pub closed spec fn spec_max_proposal_length(&self) -> u32 {
        self.max_proposal_length
    }

    pub closed spec fn spec_blocks_per_vote(&self) -> u32 {
        self.blocks_per_vote
    }

    pub closed spec fn spec_participation_threshold(&self) -> u128 {
        self.participation_threshold
    }

    /// The configuration constants, which no call ever changes.
    pub open spec fn same_config(&self, other: &Pallet) -> bool {
        &&& self.spec_max_proposals() == other.spec_max_proposals()
        &&& self.spec_max_proposal_length() == other.spec_max_proposal_length()
        &&& self.spec_blocks_per_vote() == other.spec_blocks_per_vote()
        &&& self.spec_participation_threshold() == other.spec_participation_threshold()
    }

    pub closed spec fn wf(&self) -> bool {
        &&& self.proposals.wf()
        &&& self.proposers.wf()
        &&& self.proposals.spec_cap() == self.max_proposals as usize
        &&& self.proposers.spec_cap() == self.max_proposals as usize
        // The two queues move in lock-step and always have equal length.
        &&& self.proposals@.len() == self.proposers@.len()
        &&& forall|i: int|
            0 <= i < self.proposals@.len() ==> #[trigger] self.proposals@[i]@.len()
                <= self.max_proposal_length
        &&& self.reserve_set.wf()
        // Reserve entries are only created by positive top-ups.
        &&& forall|a: u64| #[trigger] self.reserve_set@.dom().contains(a)
            ==> self.reserve_set@[a] >= 1
        &&& self.blocks_per_vote >= 1
    }

    /// Both queues always have the same length: the lock-step invariant.
    pub proof fn lemma_queues_lock_step(&self)
        requires
            self.wf(),
        ensures
            self.spec_proposals().len() == self.spec_proposers().len(),
    {
    }

    /// The finalization interval is positive: the height hook can always
    /// take the height modulo the interval.
    pub proof fn lemma_config_positive(&self)
        requires
            self.wf(),
        ensures
            self.spec_blocks_per_vote() >= 1,
    {
    }

    /// Every reserve entry is backed by at least as much stake actually
    /// locked in the ledger.
    pub open spec fn reserves_backed_by(&self, ledger: &balances::Pallet) -> bool {
        forall|a: u64| #[trigger] self.reserves().dom().contains(a) ==> self.reserves()[a]
            <= ledger.spec_reserved(a)
    }

    /// Whether adding the caller's voting power to the chosen side of the
    /// tally stays within the tally's numeric width. The host keeps tallies
    /// far from the maximum in any sane configuration.
    pub open spec fn vote_headroom_ok(&self, sender: u64, verdict: bool) -> bool {
        if verdict {
            self.spec_tally().0 + isqrt(self.reserve_of(sender) as int) <= u128::MAX
        } else {
            self.spec_tally().1 + isqrt(self.reserve_of(sender) as int) <= u128::MAX
        }
    }

    pub fn new(
        max_proposals: u32,
        max_proposal_length: u32,
        blocks_per_vote: u32,
        participation_threshold: u128,
    ) -> (r: Pallet)
        requires
            blocks_per_vote >= 1,
        ensures
            r.wf(),
            r.spec_proposals() == Seq::<Seq<u8>>::empty(),
            r.spec_proposers() == Seq::<u64>::empty(),
            r.reserves() == Map::<u64, u128>::empty(),
            r.spec_tally() == (0u128, 0u128),
            r.spec_events() == Seq::<Event>::empty(),
            r.spec_max_proposals() == max_proposals,
            r.spec_max_proposal_length() == max_proposal_length,
            r.spec_blocks_per_vote() == blocks_per_vote,
            r.spec_participation_threshold() == participation_threshold,
    {
        let r = Pallet {
            proposals: BoundedVec::new(max_proposals as usize),
            proposers: BoundedVec::new(max_proposals as usize),
            reserve_set: AssocList::new(),
            tally: (0, 0),
            events: Vec::new(),
            max_proposals,
            max_proposal_length,
            blocks_per_vote,
            participation_threshold,
        };
        proof {
            assert(r.spec_proposals() =~= Seq::<Seq<u8>>::empty());
        }
        r
    }

    /// Appends a proposal and its submitter to the two queues, atomically:
    /// every check precedes the first write.
    pub fn add_proposal<I: IdentityInterface>(
        &mut self,
        identity: &I,
        origin: Origin,
        proposal_string: Vec<u8>,
    ) -> (r: Result<(), DispatchError>)
        requires
            old(self).wf(),
        ensures
            final(self).wf(),
            final(self).same_config(old(self)),
            final(self).reserves() == old(self).reserves(),
            final(self).spec_tally() == old(self).spec_tally(),
            match origin.signer() {
                None => r == Err::<(), DispatchError>(DispatchError::BadOrigin) && *final(self)
                    == *old(self),
                Some(s) => {
                    &&& (r == Err::<(), DispatchError>(DispatchError::Voting(
                        Error::TriedToAddEmptyProposal,
                    )) <==> proposal_string@.len() == 0)
                    &&& (r == Err::<(), DispatchError>(DispatchError::Voting(Error::NotInVoterSet))
                        <==> proposal_string@.len() > 0 && !identity.is_voter(s))
                    &&& (r == Err::<(), DispatchError>(DispatchError::Voting(
                        Error::TooManyProposals,
                    )) <==> proposal_string@.len() > 0 && identity.is_voter(s) && (old(self).spec_proposals().len() >= old(self).spec_max_proposals()
                        || proposal_string@.len() > old(self).spec_max_proposal_length()))
                    &&& (r is Ok <==> 0 < proposal_string@.len() <= old(self).spec_max_proposal_length() && identity.is_voter(s) && old(self).spec_proposals().len() < old(self).spec_max_proposals())
                    &&& (r is Ok ==> final(self).spec_proposals() == old(self).spec_proposals().push(proposal_string@) && final(self).spec_proposers()
                        == old(self).spec_proposers().push(s) && events_appended(
                        old(self).spec_events(),
                        final(self).spec_events(),
                    ) && final(self).spec_events().last() is ProposalSubmitted && final(self).spec_events().last()->ProposalSubmitted_0 == s && final(self).spec_events().last()->ProposalSubmitted_1@ == proposal_string@)
                    &&& (r is Err ==> *final(self) == *old(self))
                },
            },
    {
        let sender = match ensure_signed(&origin) {
            Ok(s) => s,
            Err(e) => {
                return Err(e);
            },
        };
        if proposal_string.len() == 0 {
            return Err(DispatchError::Voting(Error::TriedToAddEmptyProposal));
        }
        if identity.get_voter_from_set(sender).is_none() {
            return Err(DispatchError::Voting(Error::NotInVoterSet));
        }
        if self.proposals.len() >= self.max_proposals as usize || proposal_string.len()
            > self.max_proposal_length as usize {
            return Err(DispatchError::Voting(Error::TooManyProposals));
        }
        let payload_for_event = clone_bytes(&proposal_string);
        self.proposals.push(proposal_string);
        self.proposers.push(sender);
        self.events.push(Event::ProposalSubmitted(sender, payload_for_event));
        proof {
            assert(self.spec_proposals() =~= old(self).spec_proposals().push(proposal_string@));
        }
        Ok(())
    }

    /// Locks `amount` in the stake ledger and merges it additively into the
    /// caller's reserve entry, creating the entry when absent.
    pub fn reserve_voting_power(
        &mut self,
        ledger: &mut balances::Pallet,
        origin: Origin,
        amount: u128,
    ) -> (r: Result<(), DispatchError>)
        requires
            old(self).wf(),
            old(ledger).wf(),
            old(self).reserves_backed_by(old(ledger)),
        ensures
            final(self).wf(),
            final(ledger).wf(),
            final(self).reserves_backed_by(final(ledger)),
            final(self).same_config(old(self)),
            final(self).spec_proposals() == old(self).spec_proposals(),
            final(self).spec_proposers() == old(self).spec_proposers(),
            final(self).spec_tally() == old(self).spec_tally(),
            match origin.signer() {
                None => r == Err::<(), DispatchError>(DispatchError::BadOrigin) && *final(self)
                    == *old(self) && *final(ledger) == *old(ledger),
                Some(s) => {
                    &&& (r == Err::<(), DispatchError>(DispatchError::Voting(
                        Error::InvalidReserveAmount,
                    )) <==> amount == 0)
                    &&& (r == Err::<(), DispatchError>(DispatchError::Balances(
                        balances::Error::InsufficientBalance,
                    )) <==> amount > 0 && amount > old(ledger).spec_free(s))
                    &&& (r is Ok <==> 1 <= amount <= old(ledger).spec_free(s))
                    &&& (r is Err ==> *final(self) == *old(self) && *final(ledger) == *old(
                        ledger,
                    ))
                    &&& (r is Ok ==> {
                        &&& final(self).reserves() == old(self).reserves().insert(
                            s,
                            (old(self).reserve_of(s) + amount) as u128,
                        )
                        &&& final(ledger).spec_free(s) == old(ledger).spec_free(s) - amount
                        &&& final(ledger).spec_reserved(s) == old(ledger).spec_reserved(s) + amount
                        &&& (forall|a: u64|
                            a != s ==> final(ledger).spec_account(a) == old(ledger).spec_account(
                                a,
                            ))
                        &&& events_appended(old(self).spec_events(), final(self).spec_events())
                        &&& final(self).spec_events().last() == Event::VotingPowerReserved(
                            s,
                            amount,
                        )
                    })
                },
            },
    {
        let sender = match ensure_signed(&origin) {
            Ok(s) => s,
            Err(e) => {
                return Err(e);
            },
        };
        if amount == 0 {
            return Err(DispatchError::Voting(Error::InvalidReserveAmount));
        }
        match ledger.reserve(sender, amount) {
            Ok(()) => {},
            Err(e) => {
                return Err(DispatchError::Balances(e));
            },
        }
        let current: u128 = match self.reserve_set.get(sender) {
            Some(v) => *v,
            None => 0,
        };
        proof {
            old(ledger).lemma_balance_bound(sender);
            assert(current <= old(ledger).spec_reserved(sender));
            assert(current + amount <= u128::MAX);
        }
        self.reserve_set.insert(sender, current + amount);
        self.events.push(Event::VotingPowerReserved(sender, amount));
        proof {
            assert forall|a: u64| #[trigger] self.reserves().dom().contains(
                a,
            ) implies self.reserves()[a] <= ledger.spec_reserved(a) by {
                if a != sender {
                    assert(old(self).reserves().dom().contains(a));
                    assert(ledger.spec_account(a) == old(ledger).spec_account(a));
                }
            }
        }
        Ok(())
    }

    /// Removes the caller's whole reserve entry and unlocks the stake that
    /// backed it. Unlocking in full is owed: the entry never exceeds what
    /// the ledger holds locked.
    pub fn release_all_voting_power(
        &mut self,
        ledger: &mut balances::Pallet,
        origin: Origin,
    ) -> (r: Result<(), DispatchError>)
        requires
            old(self).wf(),
            old(ledger).wf(),
            old(self).reserves_backed_by(old(ledger)),
        ensures
            final(self).wf(),
            final(ledger).wf(),
            final(self).reserves_backed_by(final(ledger)),
            final(self).same_config(old(self)),
            final(self).spec_proposals() == old(self).spec_proposals(),
            final(self).spec_proposers() == old(self).spec_proposers(),
            final(self).spec_tally() == old(self).spec_tally(),
            match origin.signer() {
                None => r == Err::<(), DispatchError>(DispatchError::BadOrigin) && *final(self)
                    == *old(self) && *final(ledger) == *old(ledger),
                Some(s) => {
                    &&& (r == Err::<(), DispatchError>(DispatchError::Voting(
                        Error::NoVotingPowerToRelease,
                    )) <==> !old(self).reserves().dom().contains(s))
                    &&& (r is Ok <==> old(self).reserves().dom().contains(s))
                    &&& (r is Err ==> *final(self) == *old(self) && *final(ledger) == *old(
                        ledger,
                    ))
                    &&& (r is Ok ==> {
                        let amt = old(self).reserves()[s];
                        &&& final(self).reserves() == old(self).reserves().remove(s)
                        &&& final(ledger).spec_reserved(s) == old(ledger).spec_reserved(s) - amt
                        &&& final(ledger).spec_free(s) == old(ledger).spec_free(s) + amt
                        &&& (forall|a: u64|
                            a != s ==> final(ledger).spec_account(a) == old(ledger).spec_account(
                                a,
                            ))
                        &&& events_appended(old(self).spec_events(), final(self).spec_events())
                        &&& final(self).spec_events().last() == Event::AllVotingPowerReleased(s)
                    })
                },
            },
    {
        let sender = match ensure_signed(&origin) {
            Ok(s) => s,
            Err(e) => {
                return Err(e);
            },
        };
        if !self.reserve_set.contains_key(sender) {
            return Err(DispatchError::Voting(Error::NoVotingPowerToRelease));
        }
        let amount = match self.reserve_set.remove(sender) {
            Some(v) => v,
            None => {
                return Err(DispatchError::Voting(Error::NoVotingPowerToRelease));
            },
        };
        ledger.unreserve(sender, amount);
        self.events.push(Event::AllVotingPowerReleased(sender));
        proof {
            assert forall|a: u64| #[trigger] self.reserves().dom().contains(
                a,
            ) implies self.reserves()[a] <= ledger.spec_reserved(a) by {
                assert(a != sender);
                assert(old(self).reserves().dom().contains(a));
                assert(ledger.spec_account(a) == old(ledger).spec_account(a));
            }
        }
        Ok(())
    }

    /// Adds the caller's voting power — the integer square root of their
    /// reserve — to the chosen side of the tally. A caller may vote again
    /// before finalization; each call re-adds their current power.
    pub fn vote_on_current_proposal<I: IdentityInterface>(
        &mut self,
        identity: &I,
        origin: Origin,
        verdict: bool,
    ) -> (r: Result<(), DispatchError>)
        requires
            old(self).wf(),
            match origin.signer() {
                Some(s) => old(self).vote_headroom_ok(s, verdict),
                None => true,
            },
        ensures
            final(self).wf(),
            final(self).same_config(old(self)),
            final(self).reserves() == old(self).reserves(),
            final(self).spec_proposals() == old(self).spec_proposals(),
            final(self).spec_proposers() == old(self).spec_proposers(),
            // With a 128-bit reserve and a 128-bit tally the power
            // conversion cannot fail.
            r != Err::<(), DispatchError>(DispatchError::Voting(Error::BalanceToVoteConvertFailed)),
            match origin.signer() {
                None => r == Err::<(), DispatchError>(DispatchError::BadOrigin) && *final(self)
                    == *old(self),
                Some(s) => {
                    &&& (r == Err::<(), DispatchError>(DispatchError::Voting(
                        Error::VotedWithNoVotingPower,
                    )) <==> !old(self).reserves().dom().contains(s))
                    &&& (r == Err::<(), DispatchError>(DispatchError::Voting(Error::NotInVoterSet))
                        <==> old(self).reserves().dom().contains(s) && !identity.is_voter(s))
                    &&& (r == Err::<(), DispatchError>(DispatchError::Voting(
                        Error::NoProposalToVoteFor,
                    )) <==> old(self).reserves().dom().contains(s) && identity.is_voter(s) && old(
                        self,
                    ).spec_proposals().len() == 0)
                    &&& (r is Ok <==> old(self).reserves().dom().contains(s) && identity.is_voter(
                        s,
                    ) && old(self).spec_proposals().len() > 0)
                    &&& (r is Err ==> *final(self) == *old(self))
                    &&& (r is Ok ==> {
                        let power = isqrt(old(self).reserve_of(s) as int) as u128;
                        &&& (verdict ==> final(self).spec_tally() == (
                            (old(self).spec_tally().0 + power) as u128,
                            old(self).spec_tally().1,
                        ))
                        &&& (!verdict ==> final(self).spec_tally() == (
                            old(self).spec_tally().0,
                            (old(self).spec_tally().1 + power) as u128,
                        ))
                        &&& events_appended(old(self).spec_events(), final(self).spec_events())
                        &&& final(self).spec_events().last() == Event::VotedOnCurrentProposal(
                            s,
                            final(self).spec_tally(),
                        )
                    })
                },
            },
    {
        let sender = match ensure_signed(&origin) {
            Ok(s) => s,
            Err(e) => {
                return Err(e);
            },
        };
        let voter_reserve: u128 = match self.reserve_set.get(sender) {
            Some(v) => *v,
            None => {
                return Err(DispatchError::Voting(Error::VotedWithNoVotingPower));
            },
        };
        if identity.get_voter_from_set(sender).is_none() {
            return Err(DispatchError::Voting(Error::NotInVoterSet));
        }
        if self.proposals.len() == 0 {
            return Err(DispatchError::Voting(Error::NoProposalToVoteFor));
        }
        let voter_power: u128 = match Self::calc_voter_power_from_reserve(voter_reserve) {
            Ok(p) => p,
            Err(e) => {
                return Err(DispatchError::Voting(e));
            },
        };
        proof {
            assert(old(self).reserves().dom().contains(sender));
            assert(voter_reserve == old(self).reserve_of(sender));
            lemma_isqrt_bound(voter_reserve as int);
            assert(voter_power as int == isqrt(old(self).reserve_of(sender) as int));
        }
        if verdict {
            self.tally = (self.tally.0 + voter_power, self.tally.1);
        } else {
            self.tally = (self.tally.0, self.tally.1 + voter_power);
        }
        self.events.push(Event::VotedOnCurrentProposal(sender, self.tally));
        Ok(())
    }

    /// Voting power is the integer square root of the reserve. With a
    /// 128-bit reserve the root always fits the 128-bit tally, so the
    /// conversion error is unreachable under this configuration.
    pub fn calc_voter_power_from_reserve(reserve: u128) -> (r: Result<u128, Error>)
        ensures
            r == Ok::<u128, Error>(isqrt(reserve as int) as u128),
    {
        let power = integer_sqrt(reserve);
        Ok(power)
    }

    /// Pops the oldest proposal, resets the tally, and applies the approval
    /// rule. On approval of the recognized privileged-action payload it
    /// invokes the item capability's privileged create for the proposer;
    /// a failure of that call is handed back to the host, never swallowed.
    /// On an empty queue this is a no-op: no event, no state change.
    pub fn finalize_current_vote<K: KittiesInterface>(&mut self, kitties: &mut K) -> (r: Result<
        (),
        DispatchError,
    >)
        requires
            old(self).wf(),
            old(kitties).inv(),
        ensures
            final(self).wf(),
            final(kitties).inv(),
            finalize_post(old(self), old(kitties), final(self), final(kitties), r),
    {
        if self.proposals.len() == 0 {
            return Ok(());
        }
        let proposal = self.proposals.remove_front();
        let proposer = self.proposers.remove_front();
        let tally = self.tally;
        self.tally = (0, 0);
        let twice_nay: u128 = if tally.1 > u128::MAX / 2 {
            u128::MAX
        } else {
            2 * tally.1
        };
        let yae_and_nay: u128 = if tally.0 > u128::MAX - tally.1 {
            0
        } else {
            tally.0 + tally.1
        };
        let approved = tally.0 > twice_nay && yae_and_nay > self.participation_threshold;
        proof {
            assert(twice_nay as int == spec_twice_nay(tally.1));
            assert(yae_and_nay as int == spec_turnout(tally.0, tally.1));
            assert(approved == spec_approved(tally.0, tally.1, self.participation_threshold));
        }
        let mint = is_mint_sentinel(&proposal);
        let mut action: Result<(), DispatchError> = Ok(());
        if approved {
            if mint {
                action = kitties.free_create_kitty(Origin::Root, proposer);
            }
            self.events.push(Event::VoteOnCurrentProposalPassed(proposal, tally));
        } else {
            self.events.push(Event::CurrentProposalRejected(proposal, tally));
        }
        proof {
            assert(self.spec_proposals() =~= old(self).spec_proposals().drop_first());
            assert(self.spec_proposers() =~= old(self).spec_proposers().drop_first());
            assert(old(self).spec_proposals()[0] == proposal@);
        }
        action
    }

    /// The height-driven trigger: at every multiple of the configured
    /// interval it finalizes the current vote, and does nothing at any
    /// other height.
    pub fn on_initialize<K: KittiesInterface>(&mut self, kitties: &mut K, b: u64) -> (r: Result<
        (),
        DispatchError,
    >)
        requires
            old(self).wf(),
            old(kitties).inv(),
        ensures
            final(self).wf(),
            final(kitties).inv(),
            b % (old(self).spec_blocks_per_vote() as u64) == 0 ==> finalize_post(
                old(self),
                old(kitties),
                final(self),
                final(kitties),
                r,
            ),
            b % (old(self).spec_blocks_per_vote() as u64) != 0 ==> *final(self) == *old(self)
                && *final(kitties) == *old(kitties) && r is Ok,
    {
        if b % (self.blocks_per_vote as u64) == 0 {
            self.finalize_current_vote(kitties)
        } else {
            Ok(())
        }
    }

    /// The pending proposal payloads, oldest first.
    pub fn get_proposals(&self) -> (r: &Vec<Vec<u8>>)
        ensures
            r@.len() == self.spec_proposals().len(),
            forall|i: int| 0 <= i < r@.len() ==> r@[i]@ == self.spec_proposals()[i],
    {
        self.proposals.as_vec()
    }

    /// The submitters of the pending proposals, index for index.
    pub fn get_proposers(&self) -> (r: &Vec<u64>)
        ensures
            r@ == self.spec_proposers(),
    {
        self.proposers.as_vec()
    }

    /// The stake reserved by `who` (zero without an entry).
    pub fn get_reserve(&self, who: u64) -> (r: u128)
        requires
            self.wf(),
        ensures
            r == self.reserve_of(who),
    {
        match self.reserve_set.get(who) {
            Some(v) => *v,
            None => 0,
        }
    }

    /// The running (aye power, nay power) tally for the front proposal.
    pub fn get_tally(&self) -> (r: (u128, u128))
        ensures
            r == self.spec_tally(),
    {
        self.tally
    }

    /// The events announced so far, oldest first.
    pub fn events(&self) -> (r: &Vec<Event>)
        ensures
            r@ == self.spec_events(),
    {
        &self.events
    }
}

/// How one `finalize_current_vote` call relates the new state of the
/// engine and the item registry to the old: the heart of the periodic
/// transition, shared by the height-driven trigger's contract.
pub open spec fn finalize_post<K: KittiesInterface>(
    pre: &Pallet,
    pre_k: &K,
    post: &Pallet,
    post_k: &K,
    r: Result<(), DispatchError>,
) -> bool {
    &&& post.same_config(pre)
    &&& post.reserves() == pre.reserves()
    &&& post_k.owned_cap() == pre_k.owned_cap()
    &&& if pre.spec_proposals().len() == 0 {
        // An empty queue is a no-op: no event is emitted.
        &&& *post == *pre
        &&& *post_k == *pre_k
        &&& r is Ok
    } else {
        let payload = pre.spec_proposals()[0];
        let proposer = pre.spec_proposers()[0];
        let approved = spec_approved(
            pre.spec_tally().0,
            pre.spec_tally().1,
            pre.spec_participation_threshold(),
        );
        &&& post.spec_proposals() == pre.spec_proposals().drop_first()
        &&& post.spec_proposers() == pre.spec_proposers().drop_first()
        // The tally is reset the moment the front proposal is consumed.
        &&& post.spec_tally() == (0u128, 0u128)
        &&& events_appended(pre.spec_events(), post.spec_events())
        &&& (approved ==> post.spec_events().last() is VoteOnCurrentProposalPassed
            && post.spec_events().last()->VoteOnCurrentProposalPassed_0@ == payload
            && post.spec_events().last()->VoteOnCurrentProposalPassed_1 == pre.spec_tally())
        &&& (!approved ==> post.spec_events().last() is CurrentProposalRejected
            && post.spec_events().last()->CurrentProposalRejected_0@ == payload
            && post.spec_events().last()->CurrentProposalRejected_1 == pre.spec_tally())
        &&& if approved && payload == mint_sentinel() {
            // The privileged create ran, with the proposer as recipient.
            &&& (r is Ok <==> pre_k.owned_count(proposer) < pre_k.owned_cap())
            &&& (r is Ok ==> post_k.owned_count(proposer) == pre_k.owned_count(proposer) + 1
                && forall|a: u64| a != proposer ==> post_k.owned_count(a) == pre_k.owned_count(a))
            &&& (r is Err ==> *post_k == *pre_k)
        } else {
            &&& *post_k == *pre_k
            &&& r is Ok
        }
    }
}

/// A byte-for-byte copy.
fn clone_bytes(v: &Vec<u8>) -> (r: Vec<u8>)
    ensures
        r@ == v@,
{
    let mut out: Vec<u8> = Vec::new();
    let mut i: usize = 0;
    while i < v.len()
        invariant
            i <= v@.len(),
            out@ == v@.subrange(0, i as int),
        decreases v@.len() - i,
    {
        out.push(v[i]);
        proof {
            assert(out@ =~= v@.subrange(0, i as int + 1));
        }
        i += 1;
    }
    proof {
        assert(v@.subrange(0, v@.len() as int) =~= v@);
    }
    out
}

} // verus!
