//! The result budget of an invocation.

use vstd::prelude::*;
use crate::model::MAX_RESULTS;

verus! {

/// A list that never holds more than `MAX_RESULTS` items.
pub struct Capped<T> {
    items: Vec<T>,
}

impl<T> View for Capped<T> {
    type V = Seq<T>;

    closed spec fn view(&self) -> Seq<T> {
        self.items@
    }
}

impl<T> Capped<T> {
    #[verifier::type_invariant]
    spec fn within_budget(self) -> bool {
        self.items.len() <= MAX_RESULTS
    }

    pub fn new() -> (list: Self)
        ensures
            list@ == Seq::<T>::empty(),
    {
        Capped { items: Vec::new() }
    }

    pub fn len(&self) -> (n: usize)
        ensures
            n == self@.len(),
            n <= MAX_RESULTS,
    {
        proof {
            use_type_invariant(self);
        }
        self.items.len()
    }

    /// Whether the budget is used up.
    pub fn is_full(&self) -> (full: bool)
        ensures
            full == (self@.len() >= MAX_RESULTS),
            self@.len() <= MAX_RESULTS,
    {
        proof {
            use_type_invariant(self);
        }
        self.items.len() >= MAX_RESULTS
    }

    /// Appends `item` unless the budget is used up.
    pub fn push(&mut self, item: T) -> (pushed: bool)
        ensures
            pushed == (old(self)@.len() < MAX_RESULTS),
            final(self)@ == if pushed {
                old(self)@.push(item)
            } else {
                old(self)@
            },
    {
        proof {
            use_type_invariant(&*self);
        }
        if self.items.len() >= MAX_RESULTS {
            return false;
        }
        let mut items: Vec<T> = Vec::new();
        std::mem::swap(&mut self.items, &mut items);
        items.push(item);
        self.items = items;
        true
    }

    /// The items, in the order in which they were appended.
    pub fn into_vec(self) -> (items: Vec<T>)
        ensures
            items@ == self@,
            items.len() <= MAX_RESULTS,
    {
        proof {
            use_type_invariant(&self);
        }
        self.items
    }
}

} // verus!
