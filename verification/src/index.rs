//! Access by handle with `[]`, for handles that are known to be valid.

use vstd::prelude::*;
use crate::option_vec::OptionVec;
use crate::slots::is_occupied;

verus! {

impl<T> core::ops::Index<usize> for OptionVec<T> {
    type Output = T;

    /// The value of handle `idx`, which must be valid.
    fn index(&self, idx: usize) -> (r: &T)
        ensures
            Some(*r) == self@[idx as int],
    {
        self.inner()[idx].as_ref().unwrap()
    }
}

impl<T> vstd::std_specs::core::IndexSpecImpl<usize> for OptionVec<T> {
    open spec fn index_req(&self, idx: &usize) -> bool {
        is_occupied(self@, *idx as int)
    }
}

impl<T> core::ops::IndexMut<usize> for OptionVec<T> {
    /// The value of handle `idx`, which must be valid, to be changed in place.
    fn index_mut(&mut self, idx: usize) -> (r: &mut T)
        requires
            is_occupied(old(self)@, idx as int),
        ensures
            Some(*r) == old(self)@[idx as int],
            final(self)@ == old(self)@.update(idx as int, Some(*final(r))),
    {
        self.inner_mut()[idx].as_mut().unwrap()
    }
}

} // verus!
