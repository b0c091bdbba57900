//! The items of a set column, kept in the order in which they came.

use vstd::prelude::*;
use vstd::std_specs::cmp::PartialEqSpec;

verus! {

/// The items of a set column, in the order in which they came. Nothing
/// keeps an item from occurring twice but `insert_no_dupe`.
#[derive(Debug, Clone, PartialEq, Eq)]
pub struct ItemSet<T>(pub Vec<T>);

impl<T> View for ItemSet<T> {
    type V = Seq<T>;

    open spec fn view(&self) -> Seq<T> {
        self.0@
    }
}

/// Some item of `items` equals `v`, as `==` of `T` has it.
pub open spec fn holds<T: PartialEq>(items: Seq<T>, v: T) -> bool {
    exists|i: int| 0 <= i < items.len() && (#[trigger] items[i]).eq_spec(&v)
}

impl<T> ItemSet<T> {
    /// The set of the given items.
    pub fn from(v: Vec<T>) -> (set: ItemSet<T>)
        ensures
            set@ == v@,
    {
        ItemSet(v)
    }

    /// Adds `v` at the end, whether or not the set holds it already.
    pub fn push(&mut self, v: T)
        ensures
            final(self)@ == old(self)@.push(v),
    {
        self.0.push(v)
    }

    /// Whether the set has no item.
    pub fn is_empty(&self) -> (empty: bool)
        ensures
            empty == (self@.len() == 0),
    {
        self.0.len() == 0
    }

    /// The items as a vector that can be changed.
    pub fn as_mut(&mut self) -> (items: &mut Vec<T>)
        ensures
            *items == old(self).0,
            final(self).0 == *final(items),
    {
        &mut self.0
    }
}

impl<T: PartialEq> ItemSet<T> {
    /// Whether the set holds an item equal to `v`.
    pub fn contains(&self, v: &T) -> (found: bool)
        ensures
            T::obeys_eq_spec() ==> found == holds(self@, *v),
    {
        let mut i: usize = 0;
        while i < self.0.len()
            invariant
                i <= self.0.len(),
                T::obeys_eq_spec() ==> forall|j: int| 0 <= j < i ==> !(#[trigger] self@[j]).eq_spec(v),
            decreases self.0.len() - i,
        {
            if self.0[i] == *v {
                return true;
            }
            i += 1;
        }
        false
    }

    /// Adds `v` at the end, unless the set holds an item equal to it.
    pub fn insert_no_dupe(&mut self, v: T)
        ensures
            T::obeys_eq_spec() ==> final(self)@ == if holds(old(self)@, v) {
                old(self)@
            } else {
                old(self)@.push(v)
            },
    {
        if self.contains(&v) {
            return ;
        }
        self.0.push(v);
    }
}

impl<T> Default for ItemSet<T> {
    fn default() -> (set: ItemSet<T>)
        ensures
            set@ == Seq::<T>::empty(),
    {
        ItemSet(Vec::new())
    }
}

} // verus!
