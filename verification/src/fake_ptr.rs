//! Handles that stand in for pointers: a value is parked in a map and the
//! other side gets the number under which it can be fetched back.

use std::collections::HashMap;
use std::marker::PhantomData;
use vstd::prelude::*;

verus! {

broadcast use vstd::std_specs::hash::group_hash_axioms;

/// A number that stands for a parked value of type `T`.
pub struct FakePtr<T> {
    pub id: i32,
    phantom: PhantomData<T>,
}

impl<T> View for FakePtr<T> {
    type V = i32;

    /// The number of the handle.
    closed spec fn view(&self) -> i32 {
        self.id
    }
}

impl<T> Clone for FakePtr<T> {
    fn clone(&self) -> (r: FakePtr<T>)
        ensures
            r@ == self@,
    {
        FakePtr { id: self.id, phantom: PhantomData }
    }
}

impl<T> Copy for FakePtr<T> {

}

/// The parked values, by number, and the number that the next one gets.
pub struct FakePtrMap<T> {
    pub ptr_to_t: HashMap<i32, T>,
    pub next_id: i32,
}

impl<T> FakePtrMap<T> {
    /// No value is parked; the first one gets number 1.
    pub fn new() -> (r: FakePtrMap<T>)
        ensures
            r.ptr_to_t@ == Map::<i32, T>::empty(),
            r.next_id == 1,
    {
        FakePtrMap { ptr_to_t: HashMap::new(), next_id: 1 }
    }

    /// Parks `t` under the next number and gives the handle with that
    /// number. The numbers must not have run out.
    pub fn to_fake_ptr(&mut self, t: T) -> (r: FakePtr<T>)
        requires
            old(self).next_id < i32::MAX,
        ensures
            r@ == old(self).next_id,
            final(self).next_id == old(self).next_id + 1,
            final(self).ptr_to_t@ == old(self).ptr_to_t@.insert(old(self).next_id, t),
    {
        let fake_id = self.next_id;
        self.ptr_to_t.insert(fake_id, t);
        self.next_id = fake_id + 1;
        FakePtr { id: fake_id, phantom: PhantomData }
    }

    /// Takes the value parked under the number of `p` out of the map. A
    /// value must be parked there.
    pub fn recover(&mut self, p: FakePtr<T>) -> (r: T)
        requires
            old(self).ptr_to_t@.contains_key(p@),
        ensures
            r == old(self).ptr_to_t@[p@],
            final(self).ptr_to_t@ == old(self).ptr_to_t@.remove(p@),
            final(self).next_id == old(self).next_id,
    {
        let result = self.ptr_to_t.remove(&p.id);
        match result {
            Some(t) => t,
            None => {
                proof {
                    assert(false);
                }
                vstd::pervasive::unreached()
            },
        }
    }
}

} // verus!
