//! A fixed-capacity sequence: the one container shared by the proposal
//! queue, the proposer queue and the vouch ledger. An insert into a full
//! container is reported as an error instead of being silently truncated.

use vstd::prelude::*;

verus! {

pub struct BoundedVec<T> {
    items: Vec<T>,
    cap: usize,
}

impl<T> View for BoundedVec<T> {
    type V = Seq<T>;

    closed spec fn view(&self) -> Seq<T> {
        self.items@
    }
}

impl<T> BoundedVec<T> {
    /// The most elements this container will ever hold.
    pub closed spec fn spec_cap(&self) -> usize {
        self.cap
    }

    pub open spec fn wf(&self) -> bool {
        self@.len() <= self.spec_cap()
    }

    pub fn new(cap: usize) -> (r: BoundedVec<T>)
        ensures
            r@ == Seq::<T>::empty(),
            r.spec_cap() == cap,
            r.wf(),
    {
        BoundedVec { items: Vec::new(), cap }
    }

    pub fn len(&self) -> (r: usize)
        ensures
            r == self@.len(),
    {
        self.items.len()
    }

    pub fn capacity(&self) -> (r: usize)
        ensures
            r == self.spec_cap(),
    {
        self.cap
    }

    /// Appends when there is room; this is the caller's duty to have checked.
    pub fn push(&mut self, value: T)
        requires
            old(self).wf(),
            old(self)@.len() < old(self).spec_cap(),
        ensures
            final(self).wf(),
            final(self).spec_cap() == old(self).spec_cap(),
            final(self)@ == old(self)@.push(value),
    {
        self.items.push(value);
    }

    /// Appends, reporting an error when the container is already full.
    pub fn try_push(&mut self, value: T) -> (r: Result<(), ()>)
        requires
            old(self).wf(),
        ensures
            final(self).wf(),
            final(self).spec_cap() == old(self).spec_cap(),
            r is Ok <==> old(self)@.len() < old(self).spec_cap(),
            r is Ok ==> final(self)@ == old(self)@.push(value),
            r is Err ==> final(self)@ == old(self)@,
    {
        if self.items.len() < self.cap {
            self.items.push(value);
            Ok(())
        } else {
            Err(())
        }
    }

    /// Removes and returns the oldest element.
    pub fn remove_front(&mut self) -> (r: T)
        requires
            old(self)@.len() > 0,
        ensures
            final(self).spec_cap() == old(self).spec_cap(),
            r == old(self)@[0],
            final(self)@ == old(self)@.subrange(1, old(self)@.len() as int),
            old(self).wf() ==> final(self).wf(),
    {
        let r = self.items.remove(0);
        proof {
            assert(self.items@ =~= old(self)@.subrange(1, old(self)@.len() as int));
        }
        r
    }

    pub fn get(&self, i: usize) -> (r: &T)
        requires
            i < self@.len(),
        ensures
            *r == self@[i as int],
    {
        &self.items[i]
    }

    pub fn as_vec(&self) -> (r: &Vec<T>)
        ensures
            r@ == self@,
    {
        &self.items
    }
}

impl BoundedVec<u64> {
    pub fn contains(&self, x: u64) -> (r: bool)
        ensures
            r == self@.contains(x),
    {
        let mut i: usize = 0;
        while i < self.items.len()
            invariant
                i <= self.items@.len(),
                forall|j: int| 0 <= j < i ==> self.items@[j] != x,
            decreases self.items@.len() - i,
        {
            if self.items[i] == x {
                assert(self@[i as int] == x);
                return true;
            }
            i += 1;
        }
        assert(!self@.contains(x));
        false
    }
}

} // verus!
