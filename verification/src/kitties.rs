//! A small keyed-ownership registry (the "kitty" store): each item has an
//! owner and an optional asking price, and each account may own at most a
//! configured number of items. The governance engine reaches it only
//! through the item capability, for the privileged create action; currency
//! settlement is the stake ledger's business, not this registry's.

use vstd::prelude::*;
use crate::dispatch::{ensure_signed, DispatchError, Origin};
use crate::interface::KittiesInterface;

verus! {

#[derive(Clone, Copy, Debug, PartialEq, Eq, Structural)]
pub enum Error {
    /// The recipient already owns the maximum number of items.
    TooManyOwned,
    /// No item with the given identifier exists.
    NoSuchKitty,
    /// The caller does not own the item.
    NotOwner,
    /// The item is not for sale.
    NotForSale,
    /// The bid is below the asking price.
    BidTooLow,
}

#[derive(Clone, Copy, Debug)]
pub struct Kitty {
    pub id: [u8; 16],
    pub owner: u64,
    pub price: Option<u128>,
}

/// The identifiers of the items in `s` owned by `a`, oldest first.
pub open spec fn owned_ids(s: Seq<Kitty>, a: u64) -> Seq<[u8; 16]>
    decreases s.len(),
{
    if s.len() == 0 {
        Seq::empty()
    } else {
        let rest = owned_ids(s.drop_last(), a);
        if s.last().owner == a {
            rest.push(s.last().id)
        } else {
            rest
        }
    }
}

/// The position of the first item in `s` carrying `id`, or -1.
pub open spec fn first_with_id(s: Seq<Kitty>, id: Seq<u8>) -> int
    decreases s.len(),
{
    if s.len() == 0 {
        -1
    } else if s.first().id@ == id {
        0
    } else {
        let rest = first_with_id(s.drop_first(), id);
        if rest == -1 {
            -1
        } else {
            rest + 1
        }
    }
}

/// `first_with_id` returns the index of the first match.
proof fn lemma_first_with_id_found(s: Seq<Kitty>, id: Seq<u8>, i: int)
    requires
        0 <= i < s.len(),
        s[i].id@ == id,
        forall|j: int| 0 <= j < i ==> s[j].id@ != id,
    ensures
        first_with_id(s, id) == i,
    decreases i,
{
    if i == 0 {
    } else {
        assert(s.first().id@ != id);
        lemma_first_with_id_found(s.drop_first(), id, i - 1);
    }
}

/// `first_with_id` reports -1 exactly when nothing matches.
proof fn lemma_first_with_id_none(s: Seq<Kitty>, id: Seq<u8>)
    requires
        forall|j: int| 0 <= j < s.len() ==> s[j].id@ != id,
    ensures
        first_with_id(s, id) == -1,
    decreases s.len(),
{
    if s.len() > 0 {
        assert(s.first().id@ != id);
        lemma_first_with_id_none(s.drop_first(), id);
    }
}

/// Appending an item adds its identifier to exactly its owner's list.
proof fn lemma_owned_ids_push(s: Seq<Kitty>, k: Kitty, a: u64)
    ensures
        owned_ids(s.push(k), a) == if k.owner == a {
            owned_ids(s, a).push(k.id)
        } else {
            owned_ids(s, a)
        },
{
    assert(s.push(k).drop_last() =~= s);
    assert(s.push(k).last() == k);
}

/// How replacing the item at `i` moves each account's owned count.
proof fn lemma_owned_count_update(s: Seq<Kitty>, i: int, k: Kitty, a: u64)
    requires
        0 <= i < s.len(),
    ensures
        owned_ids(s.update(i, k), a).len() as int == owned_ids(s, a).len() as int - (
        if s[i].owner == a {
            1int
        } else {
            0int
        }) + (
        if k.owner == a {
            1int
        } else {
            0int
        }),
    decreases s.len(),
{
    let t = s.update(i, k);
    if i == s.len() - 1 {
        assert(t.drop_last() =~= s.drop_last());
        assert(t.last() == k);
        assert(s.last() == s[i]);
    } else {
        assert(t.drop_last() =~= s.drop_last().update(i, k));
        assert(t.last() == s.last());
        lemma_owned_count_update(s.drop_last(), i, k, a);
    }
}

fn id_eq(a: &[u8; 16], b: &[u8; 16]) -> (r: bool)
    ensures
        r == (a@ == b@),
{
    let mut i: usize = 0;
    while i < 16
        invariant
            i <= 16,
            forall|j: int| 0 <= j < i ==> a@[j] == b@[j],
        decreases 16 - i,
    {
        if a[i] != b[i] {
            assert(a@[i as int] != b@[i as int]);
            return false;
        }
        i += 1;
    }
    proof {
        assert(a@ =~= b@);
    }
    true
}

pub struct Pallet {
    /// Every item ever minted, in mint order.
    kitties: Vec<Kitty>,
    /// How many items one account may own at most.
    max_kitties_owned: u32,
}

impl Pallet {
    pub closed spec fn spec_kitties(&self) -> Seq<Kitty> {
        self.kitties@
    }

    pub closed spec fn spec_max_owned(&self) -> u32 {
        self.max_kitties_owned
    }

    pub open spec fn spec_owned_count(&self, a: u64) -> nat {
        owned_ids(self.spec_kitties(), a).len()
    }

    pub fn new(max_kitties_owned: u32) -> (r: Pallet)
        ensures
            r.spec_kitties() == Seq::<Kitty>::empty(),
            r.spec_max_owned() == max_kitties_owned,
    {
        Pallet { kitties: Vec::new(), max_kitties_owned }
    }

    /// How many items `a` owns.
    fn owned_count_of(&self, a: u64) -> (c: usize)
        ensures
            c == self.spec_owned_count(a),
    {
        let mut c: usize = 0;
        let mut i: usize = 0;
        while i < self.kitties.len()
            invariant
                i <= self.kitties@.len(),
                c == owned_ids(self.kitties@.subrange(0, i as int), a).len(),
                c <= i,
            decreases self.kitties@.len() - i,
        {
            proof {
                let pre = self.kitties@.subrange(0, i as int);
                let cur = self.kitties@.subrange(0, i as int + 1);
                assert(cur.drop_last() =~= pre);
                assert(cur.last() == self.kitties@[i as int]);
            }
            if self.kitties[i].owner == a {
                c += 1;
            }
            i += 1;
        }
        proof {
            assert(self.kitties@.subrange(0, self.kitties@.len() as int) =~= self.kitties@);
        }
        c
    }

    /// The position of the first item carrying `id`, if any.
    fn find_kitty(&self, id: &[u8; 16]) -> (r: Option<usize>)
        ensures
            match r {
                Some(i) => first_with_id(self.spec_kitties(), id@) == i && i
                    < self.spec_kitties().len() && self.spec_kitties()[i as int].id@ == id@,
                None => first_with_id(self.spec_kitties(), id@) == -1,
            },
    {
        let mut i: usize = 0;
        while i < self.kitties.len()
            invariant
                i <= self.kitties@.len(),
                forall|j: int| 0 <= j < i ==> self.kitties@[j].id@ != id@,
            decreases self.kitties@.len() - i,
        {
            if id_eq(&self.kitties[i].id, id) {
                proof {
                    lemma_first_with_id_found(self.kitties@, id@, i as int);
                }
                return Some(i);
            }
            i += 1;
        }
        proof {
            lemma_first_with_id_none(self.kitties@, id@);
        }
        None
    }

    /// A fresh identifier, derived from how many items exist already.
    fn make_kitty_id(&self) -> [u8; 16] {
        let n = self.kitties.len() as u64;
        let b0 = (n % 256) as u8;
        let n1 = n / 256;
        let b1 = (n1 % 256) as u8;
        let n2 = n1 / 256;
        let b2 = (n2 % 256) as u8;
        let n3 = n2 / 256;
        let b3 = (n3 % 256) as u8;
        let n4 = n3 / 256;
        let b4 = (n4 % 256) as u8;
        let n5 = n4 / 256;
        let b5 = (n5 % 256) as u8;
        let n6 = n5 / 256;
        let b6 = (n6 % 256) as u8;
        let n7 = n6 / 256;
        let b7 = (n7 % 256) as u8;
        [b0, b1, b2, b3, b4, b5, b6, b7, 0, 0, 0, 0, 0, 0, 0, 0]
    }

    fn mint(&mut self, owner: u64)
        ensures
            final(self).spec_max_owned() == old(self).spec_max_owned(),
            final(self).spec_owned_count(owner) == old(self).spec_owned_count(owner) + 1,
            forall|a: u64|
                a != owner ==> final(self).spec_owned_count(a) == old(self).spec_owned_count(a),
    {
        let id = self.make_kitty_id();
        let kitty = Kitty { id, owner, price: None };
        self.kitties.push(kitty);
        proof {
            assert forall|a: u64|
                a != owner implies self.spec_owned_count(a) == old(self).spec_owned_count(
                a,
            ) by {
                lemma_owned_ids_push(old(self).kitties@, kitty, a);
            }
            lemma_owned_ids_push(old(self).kitties@, kitty, owner);
        }
    }

    /// Replaces the item at position `i`.
    fn replace_at(&mut self, i: usize, k: Kitty)
        requires
            i < old(self).spec_kitties().len(),
        ensures
            final(self).spec_max_owned() == old(self).spec_max_owned(),
            final(self).spec_kitties() == old(self).spec_kitties().update(i as int, k),
    {
        let _old_kitty = self.kitties.remove(i);
        self.kitties.insert(i, k);
        proof {
            assert(self.kitties@ =~= old(self).kitties@.update(i as int, k));
        }
    }

    /// Mints a new item for the signed caller, while under the cap.
    pub fn create_kitty(&mut self, origin: Origin) -> (r: Result<(), DispatchError>)
        ensures
            final(self).spec_max_owned() == old(self).spec_max_owned(),
            r is Err ==> *final(self) == *old(self),
            match origin.signer() {
                None => r == Err::<(), DispatchError>(DispatchError::BadOrigin),
                Some(s) => {
                    &&& (r is Ok <==> old(self).spec_owned_count(s) < old(self).spec_max_owned())
                    &&& (r is Err ==> r == Err::<(), DispatchError>(DispatchError::Kitties(
                        Error::TooManyOwned,
                    )))
                    &&& (r is Ok ==> final(self).spec_owned_count(s) == old(self).spec_owned_count(
                        s,
                    ) + 1 && forall|a: u64|
                        a != s ==> final(self).spec_owned_count(a) == old(self).spec_owned_count(
                            a,
                        ))
                },
            },
    {
        let sender = match ensure_signed(&origin) {
            Ok(s) => s,
            Err(e) => {
                return Err(e);
            },
        };
        if !(self.owned_count_of(sender) < self.max_kitties_owned as usize) {
            return Err(DispatchError::Kitties(Error::TooManyOwned));
        }
        self.mint(sender);
        Ok(())
    }

    /// The privileged create action: only the root context may mint for an
    /// arbitrary recipient.
    pub fn free_create_kitty(&mut self, origin: Origin, recipient: u64) -> (r: Result<
        (),
        DispatchError,
    >)
        ensures
            final(self).spec_max_owned() == old(self).spec_max_owned(),
            r is Err ==> *final(self) == *old(self),
            r is Ok <==> origin is Root && old(self).spec_owned_count(recipient) < old(
                self,
            ).spec_max_owned(),
            !(origin is Root) ==> r == Err::<(), DispatchError>(DispatchError::BadOrigin),
            origin is Root && old(self).spec_owned_count(recipient) >= old(self).spec_max_owned()
                ==> r == Err::<(), DispatchError>(DispatchError::Kitties(Error::TooManyOwned)),
            r is Ok ==> final(self).spec_owned_count(recipient) == old(self).spec_owned_count(
                recipient,
            ) + 1 && forall|a: u64|
                a != recipient ==> final(self).spec_owned_count(a) == old(self).spec_owned_count(
                    a,
                ),
    {
        match origin {
            Origin::Root => {},
            Origin::Signed(_) => {
                return Err(DispatchError::BadOrigin);
            },
        }
        if !(self.owned_count_of(recipient) < self.max_kitties_owned as usize) {
            return Err(DispatchError::Kitties(Error::TooManyOwned));
        }
        self.mint(recipient);
        Ok(())
    }

    /// Sets or clears the asking price of an item the caller owns.
    pub fn set_price(&mut self, origin: Origin, kitty_id: [u8; 16], new_price: Option<u128>) -> (r:
        Result<(), DispatchError>)
        ensures
            final(self).spec_max_owned() == old(self).spec_max_owned(),
            forall|a: u64| final(self).spec_owned_count(a) == old(self).spec_owned_count(a),
            r is Err ==> *final(self) == *old(self),
            match origin.signer() {
                None => r == Err::<(), DispatchError>(DispatchError::BadOrigin),
                Some(s) => {
                    let fi = first_with_id(old(self).spec_kitties(), kitty_id@);
                    &&& (r == Err::<(), DispatchError>(DispatchError::Kitties(Error::NoSuchKitty))
                        <==> fi == -1)
                    &&& (r == Err::<(), DispatchError>(DispatchError::Kitties(Error::NotOwner))
                        <==> fi >= 0 && old(self).spec_kitties()[fi].owner != s)
                    &&& (r is Ok <==> fi >= 0 && old(self).spec_kitties()[fi].owner == s)
                    &&& (r is Ok ==> final(self).spec_kitties() == old(
                        self,
                    ).spec_kitties().update(
                        fi,
                        Kitty {
                            id: old(self).spec_kitties()[fi].id,
                            owner: s,
                            price: new_price,
                        },
                    ))
                },
            },
    {
        let sender = match ensure_signed(&origin) {
            Ok(s) => s,
            Err(e) => {
                return Err(e);
            },
        };
        let i = match self.find_kitty(&kitty_id) {
            Some(i) => i,
            None => {
                return Err(DispatchError::Kitties(Error::NoSuchKitty));
            },
        };
        let k = self.kitties[i];
        if k.owner != sender {
            return Err(DispatchError::Kitties(Error::NotOwner));
        }
        let updated = Kitty { id: k.id, owner: k.owner, price: new_price };
        self.replace_at(i, updated);
        proof {
            assert forall|a: u64|
                true implies self.spec_owned_count(a) == old(self).spec_owned_count(a) by {
                lemma_owned_count_update(old(self).kitties@, i as int, updated, a);
            }
        }
        Ok(())
    }

    /// Moves an item the caller owns to `to`, clearing its price, while
    /// `to` stays under the cap.
    pub fn transfer(&mut self, origin: Origin, to: u64, kitty_id: [u8; 16]) -> (r: Result<
        (),
        DispatchError,
    >)
        ensures
            final(self).spec_max_owned() == old(self).spec_max_owned(),
            r is Err ==> *final(self) == *old(self),
            match origin.signer() {
                None => r == Err::<(), DispatchError>(DispatchError::BadOrigin),
                Some(s) => {
                    let fi = first_with_id(old(self).spec_kitties(), kitty_id@);
                    &&& (r == Err::<(), DispatchError>(DispatchError::Kitties(Error::NoSuchKitty))
                        <==> fi == -1)
                    &&& (r == Err::<(), DispatchError>(DispatchError::Kitties(Error::NotOwner))
                        <==> fi >= 0 && old(self).spec_kitties()[fi].owner != s)
                    &&& (r == Err::<(), DispatchError>(DispatchError::Kitties(Error::TooManyOwned))
                        <==> fi >= 0 && old(self).spec_kitties()[fi].owner == s && old(
                        self,
                    ).spec_owned_count(to) >= old(self).spec_max_owned())
                    &&& (r is Ok <==> fi >= 0 && old(self).spec_kitties()[fi].owner == s && old(
                        self,
                    ).spec_owned_count(to) < old(self).spec_max_owned())
                    &&& (r is Ok ==> final(self).spec_kitties() == old(self).spec_kitties().update(
                        fi,
                        Kitty { id: old(self).spec_kitties()[fi].id, owner: to, price: None },
                    ) && (if to == s {
                        forall|a: u64|
                            final(self).spec_owned_count(a) == old(self).spec_owned_count(a)
                    } else {
                        &&& final(self).spec_owned_count(to) == old(self).spec_owned_count(to) + 1
                        &&& old(self).spec_owned_count(s) > 0
                        &&& final(self).spec_owned_count(s) == old(self).spec_owned_count(s) - 1
                        &&& forall|a: u64|
                            a != to && a != s ==> final(self).spec_owned_count(a) == old(
                                self,
                            ).spec_owned_count(a)
                    }))
                },
            },
    {
        let sender = match ensure_signed(&origin) {
            Ok(s) => s,
            Err(e) => {
                return Err(e);
            },
        };
        let i = match self.find_kitty(&kitty_id) {
            Some(i) => i,
            None => {
                return Err(DispatchError::Kitties(Error::NoSuchKitty));
            },
        };
        let k = self.kitties[i];
        if k.owner != sender {
            return Err(DispatchError::Kitties(Error::NotOwner));
        }
        if !(self.owned_count_of(to) < self.max_kitties_owned as usize) {
            return Err(DispatchError::Kitties(Error::TooManyOwned));
        }
        let updated = Kitty { id: k.id, owner: to, price: None };
        self.replace_at(i, updated);
        proof {
            lemma_owned_count_in_range(old(self).kitties@, i as int);
            assert forall|a: u64| true implies self.spec_owned_count(a) as int == old(
                self,
            ).spec_owned_count(a) as int - (
            if old(self).kitties@[i as int].owner == a {
                1int
            } else {
                0int
            }) + (
            if to == a {
                1int
            } else {
                0int
            }) by {
                lemma_owned_count_update(old(self).kitties@, i as int, updated, a);
            }
        }
        Ok(())
    }

    /// Takes over an item that is for sale, at or above its asking price,
    /// while the buyer stays under the cap. Payment settlement is outside
    /// this registry.
    pub fn buy_kitty(&mut self, origin: Origin, kitty_id: [u8; 16], bid_price: u128) -> (r: Result<
        (),
        DispatchError,
    >)
        ensures
            final(self).spec_max_owned() == old(self).spec_max_owned(),
            r is Err ==> *final(self) == *old(self),
            match origin.signer() {
                None => r == Err::<(), DispatchError>(DispatchError::BadOrigin),
                Some(s) => {
                    let fi = first_with_id(old(self).spec_kitties(), kitty_id@);
                    &&& (r == Err::<(), DispatchError>(DispatchError::Kitties(Error::NoSuchKitty))
                        <==> fi == -1)
                    &&& (r == Err::<(), DispatchError>(DispatchError::Kitties(Error::NotForSale))
                        <==> fi >= 0 && old(self).spec_kitties()[fi].price is None)
                    &&& (r == Err::<(), DispatchError>(DispatchError::Kitties(Error::BidTooLow))
                        <==> fi >= 0 && old(self).spec_kitties()[fi].price is Some && bid_price
                        < old(self).spec_kitties()[fi].price->Some_0)
                    &&& (r == Err::<(), DispatchError>(DispatchError::Kitties(Error::TooManyOwned))
                        <==> fi >= 0 && old(self).spec_kitties()[fi].price is Some && bid_price
                        >= old(self).spec_kitties()[fi].price->Some_0 && old(
                        self,
                    ).spec_owned_count(s) >= old(self).spec_max_owned())
                    &&& (r is Ok <==> fi >= 0 && old(self).spec_kitties()[fi].price is Some
                        && bid_price >= old(self).spec_kitties()[fi].price->Some_0 && old(
                        self,
                    ).spec_owned_count(s) < old(self).spec_max_owned())
                    &&& (r is Ok ==> final(self).spec_kitties() == old(self).spec_kitties().update(
                        fi,
                        Kitty { id: old(self).spec_kitties()[fi].id, owner: s, price: None },
                    ))
                },
            },
    {
        let sender = match ensure_signed(&origin) {
            Ok(s) => s,
            Err(e) => {
                return Err(e);
            },
        };
        let i = match self.find_kitty(&kitty_id) {
            Some(i) => i,
            None => {
                return Err(DispatchError::Kitties(Error::NoSuchKitty));
            },
        };
        let k = self.kitties[i];
        let price = match k.price {
            Some(p) => p,
            None => {
                return Err(DispatchError::Kitties(Error::NotForSale));
            },
        };
        if bid_price < price {
            return Err(DispatchError::Kitties(Error::BidTooLow));
        }
        if !(self.owned_count_of(sender) < self.max_kitties_owned as usize) {
            return Err(DispatchError::Kitties(Error::TooManyOwned));
        }
        let updated = Kitty { id: k.id, owner: sender, price: None };
        self.replace_at(i, updated);
        Ok(())
    }

    /// The identifiers of the items `account_id` owns, oldest first.
    pub fn get_kitties_owned(&self, account_id: u64) -> (r: Vec<[u8; 16]>)
        ensures
            r@ == owned_ids(self.spec_kitties(), account_id),
            r@.len() == self.spec_owned_count(account_id),
    {
        let mut out: Vec<[u8; 16]> = Vec::new();
        let mut i: usize = 0;
        while i < self.kitties.len()
            invariant
                i <= self.kitties@.len(),
                out@ == owned_ids(self.kitties@.subrange(0, i as int), account_id),
            decreases self.kitties@.len() - i,
        {
            proof {
                let pre = self.kitties@.subrange(0, i as int);
                let cur = self.kitties@.subrange(0, i as int + 1);
                assert(cur.drop_last() =~= pre);
                assert(cur.last() == self.kitties@[i as int]);
            }
            if self.kitties[i].owner == account_id {
                out.push(self.kitties[i].id);
            }
            i += 1;
        }
        proof {
            assert(self.kitties@.subrange(0, self.kitties@.len() as int) =~= self.kitties@);
        }
        out
    }
}

/// An account owning the item at `i` owns at least one item.
proof fn lemma_owned_count_in_range(s: Seq<Kitty>, i: int)
    requires
        0 <= i < s.len(),
    ensures
        owned_ids(s, s[i].owner).len() >= 1,
    decreases s.len(),
{
    if i == s.len() - 1 {
        assert(s.last() == s[i]);
    } else {
        lemma_owned_count_in_range(s.drop_last(), i);
        assert(s.drop_last()[i] == s[i]);
    }
}

/// The item registry offered through the item capability, so the
/// governance engine can consume it without naming this module's types.
impl KittiesInterface for Pallet {
    open spec fn inv(&self) -> bool {
        true
    }

    open spec fn owned_count(&self, account: u64) -> nat {
        self.spec_owned_count(account)
    }

    open spec fn owned_cap(&self) -> nat {
        self.spec_max_owned() as nat
    }

    fn buy_kitty(&mut self, origin: Origin, kitty_id: [u8; 16], bid_price: u128) -> (r: Result<
        (),
        DispatchError,
    >) {
        Pallet::buy_kitty(self, origin, kitty_id, bid_price)
    }

    fn set_price(&mut self, origin: Origin, kitty_id: [u8; 16], new_price: Option<u128>) -> (r:
        Result<(), DispatchError>) {
        Pallet::set_price(self, origin, kitty_id, new_price)
    }

    fn transfer(&mut self, origin: Origin, to: u64, kitty_id: [u8; 16]) -> (r: Result<
        (),
        DispatchError,
    >) {
        Pallet::transfer(self, origin, to, kitty_id)
    }

    fn create_kitty(&mut self, origin: Origin) -> (r: Result<(), DispatchError>) {
        Pallet::create_kitty(self, origin)
    }

    fn free_create_kitty(&mut self, origin: Origin, recipient: u64) -> (r: Result<
        (),
        DispatchError,
    >) {
        Pallet::free_create_kitty(self, origin, recipient)
    }

    fn get_kitties_owned(&self, account_id: u64) -> (r: Vec<[u8; 16]>) {
        Pallet::get_kitties_owned(self, account_id)
    }
}

} // verus!
