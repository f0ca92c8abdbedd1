//! The social-graph admission engine. It owns the voter set and the
//! pending-vouch ledger, seeds originators while the graph is below the
//! quorum constant, and promotes a vouched-for account the moment its
//! vouch sequence would reach quorum.

use vstd::prelude::*;
use crate::assoc_list::AssocList;
use crate::bounded_vec::BoundedVec;
use crate::dispatch::{ensure_signed, DispatchError, Origin};

verus! {

#[derive(Clone, Copy, Debug, PartialEq, Eq, Structural)]
pub enum Error {
    /// Proposed originator is already in the voter set.
    AlreadyInSet,
    /// Tried to add social graph originators when there are enough.
    NoNeedForAdditionalOriginators,
    /// Voucher isn't in the voter set.
    VoucherNotInVoterSet,
    /// A voter can vouch for a given account only once.
    VouchedForSameTwice,
}

#[derive(Clone, Copy, Debug, PartialEq, Eq, Structural)]
pub enum Event {
    /// An original member of the social graph was added.
    OriginatorAdded(u64),
    /// A voter vouched for a non-voter: (voter, non-voter).
    VoterVouchedForNonVoter(u64, u64),
}

pub struct Pallet {
    /// Accounts admitted to the social graph. Membership is permanent.
    voter_set: Vec<u64>,
    /// For each non-promoted target, the voters who vouched for it so far.
    vouched_for: AssocList<BoundedVec<u64>>,
    /// The admission quorum: vouches needed for promotion, and also the
    /// voter-set size at which seeding originators ends.
    min_vouches: u32,
    /// Everything the engine has announced, oldest first.
    events: Vec<Event>,
}

impl Pallet {
    pub closed spec fn voters(&self) -> Seq<u64> {
        self.voter_set@
    }

    pub open spec fn spec_is_voter(&self, a: u64) -> bool {
        self.voters().contains(a)
    }

    pub closed spec fn spec_min_vouches(&self) -> u32 {
        self.min_vouches
    }

    pub closed spec fn spec_events(&self) -> Seq<Event> {
        self.events@
    }

    /// The pending-vouch ledger: target account to its vouchers, in order.
    pub closed spec fn pending(&self) -> Map<u64, Seq<u64>> {
        self.vouched_for@.map_values(|v: BoundedVec<u64>| v@)
    }

    /// The vouchers recorded for `t` (empty when `t` has no entry).
    pub open spec fn pending_of(&self, t: u64) -> Seq<u64> {
        if self.pending().dom().contains(t) {
            self.pending()[t]
        } else {
            Seq::<u64>::empty()
        }
    }

    pub closed spec fn wf(&self) -> bool {
        &&& (forall|i: int, j: int|
            0 <= i < j < self.voter_set@.len() ==> self.voter_set@[i] != self.voter_set@[j])
        &&& self.vouched_for.wf()
        &&& forall|t: u64| #[trigger] self.vouched_for@.dom().contains(t) ==> {
            let vs = self.vouched_for@[t];
            &&& vs.wf()
            &&& vs.spec_cap() == self.min_vouches as usize
            &&& 1 <= vs@.len()
            &&& vs@.len() + 1 <= self.min_vouches
            &&& (forall|i: int, j: int| 0 <= i < j < vs@.len() ==> vs@[i] != vs@[j])
            &&& (forall|i: int| 0 <= i < vs@.len() ==> self.spec_is_voter(#[trigger] vs@[i]))
        }
    }

    pub fn new(min_vouches: u32) -> (r: Pallet)
        ensures
            r.wf(),
            r.voters() == Seq::<u64>::empty(),
            r.pending() == Map::<u64, Seq<u64>>::empty(),
            r.spec_min_vouches() == min_vouches,
            r.spec_events() == Seq::<Event>::empty(),
    {
        let r = Pallet {
            voter_set: Vec::new(),
            vouched_for: AssocList::new(),
            min_vouches,
            events: Vec::new(),
        };
        proof {
            assert(r.pending() =~= Map::<u64, Seq<u64>>::empty());
        }
        r
    }

    proof fn lemma_push_voter(pre: Seq<u64>, x: u64)
        requires
            forall|i: int, j: int| 0 <= i < j < pre.len() ==> pre[i] != pre[j],
            !pre.contains(x),
        ensures
            forall|i: int, j: int|
                0 <= i < j < pre.push(x).len() ==> pre.push(x)[i] != pre.push(x)[j],
            forall|y: u64| pre.contains(y) ==> pre.push(x).contains(y),
            pre.push(x).contains(x),
    {
        let s2 = pre.push(x);
        assert forall|i: int, j: int| 0 <= i < j < s2.len() implies s2[i] != s2[j] by {
            if j == pre.len() {
                assert(s2[i] == pre[i]);
                if pre[i] == x {
                    assert(pre.contains(x));
                }
            } else {
                assert(s2[i] == pre[i] && s2[j] == pre[j]);
            }
        }
        assert forall|y: u64| pre.contains(y) implies s2.contains(y) by {
            let i = choose|i: int| 0 <= i < pre.len() && pre[i] == y;
            assert(s2[i] == y);
        }
        assert(s2[pre.len() as int] == x);
    }

    fn voter_set_contains(&self, a: u64) -> (r: bool)
        ensures
            r == self.spec_is_voter(a),
    {
        let mut i: usize = 0;
        while i < self.voter_set.len()
            invariant
                i <= self.voter_set@.len(),
                forall|j: int| 0 <= j < i ==> self.voter_set@[j] != a,
            decreases self.voter_set@.len() - i,
        {
            if self.voter_set[i] == a {
                assert(self.voter_set@[i as int] == a);
                return true;
            }
            i += 1;
        }
        assert(!self.voter_set@.contains(a));
        false
    }

    /// Membership query: no side effects, never fails.
    pub fn get_voter_from_set(&self, account_id: u64) -> (r: Option<()>)
        ensures
            r is Some <==> self.spec_is_voter(account_id),
    {
        if self.voter_set_contains(account_id) {
            Some(())
        } else {
            None
        }
    }

    /// Seeds the caller into the voter set, allowed only while the set is
    /// still below the quorum constant.
    pub fn try_add_as_social_graph_originator(&mut self, origin: Origin) -> (r: Result<
        (),
        DispatchError,
    >)
        requires
            old(self).wf(),
        ensures
            final(self).wf(),
            final(self).spec_min_vouches() == old(self).spec_min_vouches(),
            // Voter-set membership is monotone: nobody is ever removed.
            forall|a: u64| old(self).spec_is_voter(a) ==> final(self).spec_is_voter(a),
            final(self).pending() == old(self).pending(),
            match origin.signer() {
                None => r == Err::<(), DispatchError>(DispatchError::BadOrigin)
                    && *final(self) == *old(self),
                Some(sender) => {
                    &&& (r == Err::<(), DispatchError>(DispatchError::Identity(Error::AlreadyInSet))
                        <==> old(self).spec_is_voter(sender))
                    &&& (r == Err::<(), DispatchError>(DispatchError::Identity(
                        Error::NoNeedForAdditionalOriginators,
                    )) <==> !old(self).spec_is_voter(sender)
                        && old(self).voters().len() >= old(self).spec_min_vouches())
                    &&& (r is Ok <==> !old(self).spec_is_voter(sender)
                        && old(self).voters().len() < old(self).spec_min_vouches())
                    &&& (r is Ok ==> final(self).voters() == old(self).voters().push(sender)
                        && final(self).spec_is_voter(sender) && final(self).spec_events() == old(
                        self,
                    ).spec_events().push(Event::OriginatorAdded(sender)))
                    &&& (r is Err ==> *final(self) == *old(self))
                },
            },
    {
        let sender = match ensure_signed(&origin) {
            Ok(s) => s,
            Err(e) => {
                return Err(e);
            },
        };
        match self.add_originator_impl(sender) {
            Ok(()) => Ok(()),
            Err(e) => Err(DispatchError::Identity(e)),
        }
    }

    /// Records the caller's vouch for `other`, creating or extending the
    /// pending entry, or promoting `other` when the vouch reaches quorum.
    pub fn vouch_for(&mut self, origin: Origin, other: u64) -> (r: Result<(), DispatchError>)
        requires
            old(self).wf(),
        ensures
            final(self).wf(),
            final(self).spec_min_vouches() == old(self).spec_min_vouches(),
            forall|a: u64| old(self).spec_is_voter(a) ==> final(self).spec_is_voter(a),
            match origin.signer() {
                None => r == Err::<(), DispatchError>(DispatchError::BadOrigin)
                    && *final(self) == *old(self),
                Some(sender) => {
                    &&& (r == Err::<(), DispatchError>(DispatchError::Identity(
                        Error::VoucherNotInVoterSet,
                    )) <==> !old(self).spec_is_voter(sender))
                    &&& (r == Err::<(), DispatchError>(DispatchError::Identity(
                        Error::VouchedForSameTwice,
                    )) <==> old(self).spec_is_voter(sender) && !old(self).spec_is_voter(other)
                        && old(self).pending_of(other).contains(sender))
                    &&& (r is Ok <==> old(self).spec_is_voter(sender) && (old(self).spec_is_voter(
                        other,
                    ) || !old(self).pending_of(other).contains(sender)))
                    &&& (r is Err ==> final(self).voters() == old(self).voters() && final(self).pending() == old(self).pending() && final(self).spec_events() == old(self).spec_events())
                    &&& (r is Ok && old(self).spec_is_voter(other) ==> *final(self) == *old(self))
                    &&& (r is Ok && !old(self).spec_is_voter(other) ==> {
                        let p = old(self).pending_of(other);
                        &&& final(self).spec_events() == old(self).spec_events().push(
                            Event::VoterVouchedForNonVoter(sender, other),
                        )
                        &&& (p.len() + 1 >= old(self).spec_min_vouches() ==> final(self).voters()
                            == old(self).voters().push(other) && final(self).spec_is_voter(other)
                            && final(self).pending() == old(self).pending().remove(other))
                        &&& (p.len() + 1 < old(self).spec_min_vouches() ==> final(self).voters()
                            == old(self).voters() && final(self).pending() == old(self).pending().insert(other, p.push(sender)))
                    })
                },
            },
    {
        let sender = match ensure_signed(&origin) {
            Ok(s) => s,
            Err(e) => {
                return Err(e);
            },
        };
        match self.vouch_for_impl(sender, other) {
            Ok(()) => Ok(()),
            Err(e) => Err(DispatchError::Identity(e)),
        }
    }

    fn add_originator_impl(&mut self, sender: u64) -> (r: Result<(), Error>)
        requires
            old(self).wf(),
        ensures
            final(self).wf(),
            final(self).spec_min_vouches() == old(self).spec_min_vouches(),
            forall|a: u64| old(self).spec_is_voter(a) ==> final(self).spec_is_voter(a),
            final(self).pending() == old(self).pending(),
            r == Err::<(), Error>(Error::AlreadyInSet) <==> old(self).spec_is_voter(sender),
            r == Err::<(), Error>(Error::NoNeedForAdditionalOriginators) <==> !old(self).spec_is_voter(sender) && old(self).voters().len() >= old(self).spec_min_vouches(),
            r is Ok <==> !old(self).spec_is_voter(sender) && old(self).voters().len() < old(self).spec_min_vouches(),
            r is Ok ==> final(self).voters() == old(self).voters().push(sender) && final(self).spec_is_voter(sender) && final(self).spec_events() == old(self).spec_events().push(Event::OriginatorAdded(sender)),
            r is Err ==> *final(self) == *old(self),
    {
        if self.voter_set_contains(sender) {
            return Err(Error::AlreadyInSet);
        }
        if !(self.voter_set.len() < self.min_vouches as usize) {
            return Err(Error::NoNeedForAdditionalOriginators);
        }
        proof {
            Self::lemma_push_voter(self.voter_set@, sender);
        }
        self.voter_set.push(sender);
        self.events.push(Event::OriginatorAdded(sender));
        Ok(())
    }

    fn vouch_for_impl(&mut self, sender: u64, other: u64) -> (r: Result<(), Error>)
        requires
            old(self).wf(),
        ensures
            final(self).wf(),
            final(self).spec_min_vouches() == old(self).spec_min_vouches(),
            forall|a: u64| old(self).spec_is_voter(a) ==> final(self).spec_is_voter(a),
            r == Err::<(), Error>(Error::VoucherNotInVoterSet) <==> !old(self).spec_is_voter(
                sender,
            ),
            r == Err::<(), Error>(Error::VouchedForSameTwice) <==> old(self).spec_is_voter(sender)
                && !old(self).spec_is_voter(other) && old(self).pending_of(other).contains(sender),
            r is Ok <==> old(self).spec_is_voter(sender) && (old(self).spec_is_voter(other) || !old(self).pending_of(other).contains(sender)),
            r is Err ==> final(self).voters() == old(self).voters() && final(self).pending() == old(self).pending() && final(self).spec_events() == old(self).spec_events(),
            r is Ok && old(self).spec_is_voter(other) ==> *final(self) == *old(self),
            r is Ok && !old(self).spec_is_voter(other) ==> {
                let p = old(self).pending_of(other);
                &&& final(self).spec_events() == old(self).spec_events().push(
                    Event::VoterVouchedForNonVoter(sender, other),
                )
                &&& (p.len() + 1 >= old(self).spec_min_vouches() ==> final(self).voters() == old(self).voters().push(other) && final(self).spec_is_voter(other) && final(self).pending() == old(self).pending().remove(
                    other,
                ))
                &&& (p.len() + 1 < old(self).spec_min_vouches() ==> final(self).voters() == old(self).voters() && final(self).pending() == old(self).pending().insert(
                    other,
                    p.push(sender),
                ))
            },
    {
        if !self.voter_set_contains(sender) {
            return Err(Error::VoucherNotInVoterSet);
        }
        if self.voter_set_contains(other) {
            return Ok(());
        }
        let entry = self.vouched_for.remove(other);
        match entry {
            Some(vouchers) => {
                proof {
                    assert(old(self).vouched_for@.dom().contains(other));
                    assert(old(self).pending().dom().contains(other));
                    assert(old(self).pending_of(other) == vouchers@);
                }
                if vouchers.contains(sender) {
                    self.vouched_for.insert(other, vouchers);
                    proof {
                        assert(self.vouched_for@ =~= old(self).vouched_for@);
                        assert(self.pending() =~= old(self).pending());
                    }
                    return Err(Error::VouchedForSameTwice);
                }
                if vouchers.len() + 1 >= self.min_vouches as usize {
                    proof {
                        Self::lemma_push_voter(self.voter_set@, other);
                    }
                    self.voter_set.push(other);
                    proof {
                        lemma_pending_map_values_remove(old(self).vouched_for@, other);
                        assert(forall|t: u64| #[trigger] self.vouched_for@.dom().contains(t)
                            ==> old(self).vouched_for@.dom().contains(t)
                                && self.vouched_for@[t] == old(self).vouched_for@[t]);
                    }
                } else {
                    let mut vs = vouchers;
                    vs.push(sender);
                    self.vouched_for.insert(other, vs);
                    proof {
                        lemma_pending_map_values_insert(
                            old(self).vouched_for@.remove(other),
                            other,
                            vs,
                        );
                        assert(old(self).vouched_for@.remove(other).map_values(
                            |v: BoundedVec<u64>| v@,
                        ).insert(other, vs@) =~= old(self).pending().insert(other, vs@)) by {
                            lemma_pending_map_values_remove(old(self).vouched_for@, other);
                        }
                    }
                }
            },
            None => {
                proof {
                    assert(!old(self).pending().dom().contains(other));
                    assert(old(self).pending_of(other) == Seq::<u64>::empty());
                    assert(self.vouched_for@ =~= old(self).vouched_for@);
                }
                if 1 >= self.min_vouches as usize {
                    proof {
                        Self::lemma_push_voter(self.voter_set@, other);
                        assert(old(self).pending().remove(other) =~= old(self).pending());
                    }
                    self.voter_set.push(other);
                } else {
                    let mut vs: BoundedVec<u64> = BoundedVec::new(self.min_vouches as usize);
                    vs.push(sender);
                    self.vouched_for.insert(other, vs);
                    proof {
                        lemma_pending_map_values_insert(old(self).vouched_for@, other, vs);
                        assert(vs@ =~= old(self).pending_of(other).push(sender));
                    }
                }
            },
        }
        self.events.push(Event::VoterVouchedForNonVoter(sender, other));
        Ok(())
    }

    /// The events announced so far, oldest first.
    pub fn events(&self) -> (r: &Vec<Event>)
        ensures
            r@ == self.spec_events(),
    {
        &self.events
    }

    /// A pending-vouch sequence never exceeds quorum minus one entries:
    /// the vouch that would reach quorum promotes its target and deletes
    /// the entry in the same operation, so no recorded sequence ever holds
    /// quorum entries.
    pub proof fn lemma_pending_below_quorum(&self, t: u64)
        requires
            self.wf(),
            self.pending().dom().contains(t),
        ensures
            1 <= self.pending()[t].len(),
            self.pending()[t].len() < self.spec_min_vouches(),
    {
        assert(self.vouched_for@.dom().contains(t));
        assert(self.pending()[t] == self.vouched_for@[t]@);
    }

    /// No account appears twice in the same target's pending-vouch
    /// sequence, and every recorded voucher is a voter.
    pub proof fn lemma_pending_vouchers(&self, t: u64)
        requires
            self.wf(),
            self.pending().dom().contains(t),
        ensures
            forall|i: int, j: int|
                0 <= i < j < self.pending()[t].len() ==> self.pending()[t][i] != self.pending()[t][j],
            forall|i: int|
                0 <= i < self.pending()[t].len() ==> self.spec_is_voter(#[trigger] self.pending()[t][i]),
    {
        assert(self.vouched_for@.dom().contains(t));
        assert(self.pending()[t] == self.vouched_for@[t]@);
    }
}

/// The admission engine offered through the identity capability, so the
/// governance engine can consume it without naming this module's types.
impl crate::interface::IdentityInterface for Pallet {
    open spec fn inv(&self) -> bool {
        self.wf()
    }

    open spec fn is_voter(&self, account: u64) -> bool {
        self.spec_is_voter(account)
    }

    fn try_add_as_social_graph_originator(&mut self, origin: Origin) -> (r: Result<
        (),
        DispatchError,
    >) {
        Pallet::try_add_as_social_graph_originator(self, origin)
    }

    fn vouch_for(&mut self, origin: Origin, other: u64) -> (r: Result<(), DispatchError>) {
        Pallet::vouch_for(self, origin, other)
    }

    fn get_voter_from_set(&self, account_id: u64) -> (r: Option<()>) {
        Pallet::get_voter_from_set(self, account_id)
    }
}

/// `map_values` commutes with dropping a key.
proof fn lemma_pending_map_values_remove(m: Map<u64, BoundedVec<u64>>, k: u64)
    ensures
        m.remove(k).map_values(|v: BoundedVec<u64>| v@) == m.map_values(
            |v: BoundedVec<u64>| v@,
        ).remove(k),
{
    assert(m.remove(k).map_values(|v: BoundedVec<u64>| v@) =~= m.map_values(
        |v: BoundedVec<u64>| v@,
    ).remove(k));
}

/// `map_values` commutes with binding a key.
proof fn lemma_pending_map_values_insert(m: Map<u64, BoundedVec<u64>>, k: u64, v: BoundedVec<u64>)
    ensures
        m.insert(k, v).map_values(|vv: BoundedVec<u64>| vv@) == m.map_values(
            |vv: BoundedVec<u64>| vv@,
        ).insert(k, v@),
{
    assert(m.insert(k, v).map_values(|vv: BoundedVec<u64>| vv@) =~= m.map_values(
        |vv: BoundedVec<u64>| vv@,
    ).insert(k, v@));
}

} // verus!
