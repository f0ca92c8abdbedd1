//! The capability interfaces: the only seams through which the governance
//! engine reaches the admission engine and the item registry. Any type that
//! implements these traits (and so proves their contracts) can be plugged
//! in at composition time; the governance engine never names a concrete
//! implementation.

use vstd::prelude::*;
use crate::dispatch::{DispatchError, Origin};

verus! {

/// Admission capability: seeding, vouching, and the membership query that
/// gates proposing and voting.
pub trait IdentityInterface {
    /// The implementor's well-formedness.
    spec fn inv(&self) -> bool;

    /// Whether `account` has been admitted as a voter.
    spec fn is_voter(&self, account: u64) -> bool;

    fn try_add_as_social_graph_originator(&mut self, origin: Origin) -> (r: Result<
        (),
        DispatchError,
    >)
        requires
            old(self).inv(),
        ensures
            final(self).inv(),
            // Membership is monotone: a voter stays a voter.
            forall|a: u64| old(self).is_voter(a) ==> final(self).is_voter(a),
    ;

    fn vouch_for(&mut self, origin: Origin, other: u64) -> (r: Result<(), DispatchError>)
        requires
            old(self).inv(),
        ensures
            final(self).inv(),
            forall|a: u64| old(self).is_voter(a) ==> final(self).is_voter(a),
    ;

    fn get_voter_from_set(&self, account_id: u64) -> (r: Option<()>)
        ensures
            r is Some <==> self.is_voter(account_id),
    ;
}

/// Item-registry capability: a keyed-ownership store with a capped
/// per-owner count. The governance engine uses only the privileged create
/// action; the rest is offered to ordinary callers. Pricing and settlement
/// details beyond the per-owner cap are the implementor's business.
pub trait KittiesInterface: Sized {
    /// The implementor's well-formedness.
    spec fn inv(&self) -> bool;

    /// How many items `account` owns.
    spec fn owned_count(&self, account: u64) -> nat;

    /// The most items any single account may own.
    spec fn owned_cap(&self) -> nat;

    fn buy_kitty(&mut self, origin: Origin, kitty_id: [u8; 16], bid_price: u128) -> (r: Result<
        (),
        DispatchError,
    >)
        requires
            old(self).inv(),
        ensures
            final(self).inv(),
            final(self).owned_cap() == old(self).owned_cap(),
            r is Err ==> *final(self) == *old(self),
    ;

    fn set_price(&mut self, origin: Origin, kitty_id: [u8; 16], new_price: Option<u128>) -> (r:
        Result<(), DispatchError>)
        requires
            old(self).inv(),
        ensures
            final(self).inv(),
            final(self).owned_cap() == old(self).owned_cap(),
            forall|a: u64| final(self).owned_count(a) == old(self).owned_count(a),
            r is Err ==> *final(self) == *old(self),
    ;

    fn transfer(&mut self, origin: Origin, to: u64, kitty_id: [u8; 16]) -> (r: Result<
        (),
        DispatchError,
    >)
        requires
            old(self).inv(),
        ensures
            final(self).inv(),
            final(self).owned_cap() == old(self).owned_cap(),
            r is Err ==> *final(self) == *old(self),
            r is Ok ==> match origin.signer() {
                Some(s) => if to == s {
                    forall|a: u64| final(self).owned_count(a) == old(self).owned_count(a)
                } else {
                    &&& final(self).owned_count(to) == old(self).owned_count(to) + 1
                    &&& old(self).owned_count(s) > 0 && final(self).owned_count(s) == old(
                        self,
                    ).owned_count(s) - 1
                    &&& forall|a: u64| a != to && a != s ==> final(self).owned_count(a) == old(
                        self,
                    ).owned_count(a)
                },
                None => false,
            },
    ;

    fn create_kitty(&mut self, origin: Origin) -> (r: Result<(), DispatchError>)
        requires
            old(self).inv(),
        ensures
            final(self).inv(),
            final(self).owned_cap() == old(self).owned_cap(),
            r is Err ==> *final(self) == *old(self),
            r is Ok <==> origin.signer() is Some && old(self).owned_count(
                origin.signer()->Some_0,
            ) < old(self).owned_cap(),
            r is Ok ==> final(self).owned_count(origin.signer()->Some_0) == old(self).owned_count(
                origin.signer()->Some_0,
            ) + 1 && forall|a: u64|
                a != origin.signer()->Some_0 ==> final(self).owned_count(a) == old(
                    self,
                ).owned_count(a),
    ;

    /// The privileged create action: mints for `recipient`, and only the
    /// root context may invoke it.
    fn free_create_kitty(&mut self, origin: Origin, recipient: u64) -> (r: Result<
        (),
        DispatchError,
    >)
        requires
            old(self).inv(),
        ensures
            final(self).inv(),
            final(self).owned_cap() == old(self).owned_cap(),
            r is Err ==> *final(self) == *old(self),
            r is Ok <==> origin is Root && old(self).owned_count(recipient) < old(
                self,
            ).owned_cap(),
            r is Ok ==> final(self).owned_count(recipient) == old(self).owned_count(recipient) + 1
                && forall|a: u64|
                a != recipient ==> final(self).owned_count(a) == old(self).owned_count(a),
    ;

    fn get_kitties_owned(&self, account_id: u64) -> (r: Vec<[u8; 16]>)
        ensures
            r@.len() == self.owned_count(account_id),
    ;
}

} // verus!
