//! A minimal stake ledger: per-account free and reserved balances, with
//! locking (`reserve`) and unlocking (`unreserve`). The voting engine backs
//! voting power with locks made here and never touches balances directly.

use vstd::prelude::*;
use crate::assoc_list::AssocList;

verus! {

#[derive(Clone, Copy, Debug, PartialEq, Eq, Structural)]
pub enum Error {
    /// The account's free balance cannot cover the requested lock.
    InsufficientBalance,
}

#[derive(Clone, Copy, Debug, PartialEq, Eq, Structural)]
pub struct AccountData {
    pub free: u128,
    pub reserved: u128,
}

pub struct Pallet {
    accounts: AssocList<AccountData>,
}

impl Pallet {
    pub closed spec fn spec_account(&self, who: u64) -> AccountData {
        if self.accounts@.dom().contains(who) {
            self.accounts@[who]
        } else {
            AccountData { free: 0, reserved: 0 }
        }
    }

    pub open spec fn spec_free(&self, who: u64) -> u128 {
        self.spec_account(who).free
    }

    pub open spec fn spec_reserved(&self, who: u64) -> u128 {
        self.spec_account(who).reserved
    }

    pub closed spec fn wf(&self) -> bool {
        &&& self.accounts.wf()
        &&& forall|a: u64| #[trigger] self.accounts@.dom().contains(a)
            ==> self.accounts@[a].free + self.accounts@[a].reserved <= u128::MAX
    }

    /// An account's free and reserved balances together fit the numeric
    /// width: moving stake between them can never overflow.
    pub proof fn lemma_balance_bound(&self, who: u64)
        requires
            self.wf(),
        ensures
            self.spec_free(who) + self.spec_reserved(who) <= u128::MAX,
    {
    }

    pub fn new() -> (r: Pallet)
        ensures
            r.wf(),
            forall|a: u64| #[trigger] r.spec_account(a) == (AccountData { free: 0, reserved: 0 }),
    {
        Pallet { accounts: AssocList::new() }
    }

    /// Endows `who` with a free balance, as a genesis configuration does.
    /// Any earlier balance of `who` is overwritten.
    pub fn set_balance(&mut self, who: u64, free: u128)
        requires
            old(self).wf(),
        ensures
            final(self).wf(),
            final(self).spec_free(who) == free,
            final(self).spec_reserved(who) == 0,
            forall|a: u64| a != who ==> final(self).spec_account(a) == old(self).spec_account(a),
    {
        self.accounts.insert(who, AccountData { free, reserved: 0 });
    }

    pub fn free_balance(&self, who: u64) -> (r: u128)
        requires
            self.wf(),
        ensures
            r == self.spec_free(who),
    {
        match self.accounts.get(who) {
            Some(data) => data.free,
            None => 0,
        }
    }

    pub fn reserved_balance(&self, who: u64) -> (r: u128)
        requires
            self.wf(),
        ensures
            r == self.spec_reserved(who),
    {
        match self.accounts.get(who) {
            Some(data) => data.reserved,
            None => 0,
        }
    }

    /// Locks `amount` of `who`'s free balance, rejecting the request when
    /// the free balance cannot cover it.
    pub fn reserve(&mut self, who: u64, amount: u128) -> (r: Result<(), Error>)
        requires
            old(self).wf(),
        ensures
            final(self).wf(),
            r is Ok <==> amount <= old(self).spec_free(who),
            r is Err ==> r == Err::<(), Error>(Error::InsufficientBalance) && *final(self) == *old(self),
            r is Ok ==> final(self).spec_free(who) == old(self).spec_free(who) - amount && final(self).spec_reserved(who) == old(self).spec_reserved(who) + amount,
            forall|a: u64| a != who ==> final(self).spec_account(a) == old(self).spec_account(a),
    {
        let data = match self.accounts.get(who) {
            Some(d) => *d,
            None => AccountData { free: 0, reserved: 0 },
        };
        if amount > data.free {
            return Err(Error::InsufficientBalance);
        }
        self.accounts.insert(
            who,
            AccountData { free: data.free - amount, reserved: data.reserved + amount },
        );
        Ok(())
    }

    /// Unlocks up to `amount` of `who`'s reserved balance; when less than
    /// `amount` is reserved, only the reserved part moves back. Never fails.
    pub fn unreserve(&mut self, who: u64, amount: u128)
        requires
            old(self).wf(),
        ensures
            final(self).wf(),
            ({
                let moved: u128 = if amount <= old(self).spec_reserved(who) {
                    amount
                } else {
                    old(self).spec_reserved(who)
                };
                final(self).spec_reserved(who) == old(self).spec_reserved(who) - moved && final(self).spec_free(who) == old(self).spec_free(who) + moved
            }),
            forall|a: u64| a != who ==> final(self).spec_account(a) == old(self).spec_account(a),
    {
        let data = match self.accounts.get(who) {
            Some(d) => *d,
            None => AccountData { free: 0, reserved: 0 },
        };
        let moved = if amount <= data.reserved {
            amount
        } else {
            data.reserved
        };
        self.accounts.insert(
            who,
            AccountData { free: data.free + moved, reserved: data.reserved - moved },
        );
    }
}

} // verus!
