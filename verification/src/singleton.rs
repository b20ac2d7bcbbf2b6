//! Storage of exactly one row, held inline with no allocation.

use vstd::prelude::*;
use crate::traits::MutableStorage;

verus! {

/// One row, stored as the row value itself.
pub struct SingletonStorage<T>(pub T);

impl<T> From<T> for SingletonStorage<T> {
    /// Wraps a row value as the storage's one row.
    fn from(el: T) -> (r: Self) {
        SingletonStorage(el)
    }
}

impl<T> vstd::std_specs::convert::FromSpecImpl<T> for SingletonStorage<T> {
    open spec fn obeys_from_spec() -> bool {
        true
    }

    open spec fn from_spec(el: T) -> Self {
        SingletonStorage(el)
    }
}

impl<T: Default> Default for SingletonStorage<T> {
    /// Defaults the one row.
    fn default() -> (r: Self)
        ensures
            call_ensures(<T as Default>::default, (), r.0),
    {
        SingletonStorage(T::default())
    }
}

impl<T: Copy> MutableStorage for SingletonStorage<T> {
    type Item = T;

    open spec fn inv(&self) -> bool {
        true
    }

    open spec fn rows(&self) -> Seq<T> {
        seq![self.0]
    }

    fn row_count(&self) -> (r: usize) {
        1
    }

    fn row_at(&self, i: usize) -> (r: T) {
        self.0
    }

    fn set_row(&mut self, i: usize, r: T) {
        self.0 = r;
        proof {
            assert(self.rows() =~= old(self).rows().update(i as int, r));
        }
    }
}

} // verus!
