//! Growable storage: one growable column per component type, starting empty.

use vstd::prelude::*;
use core::marker::PhantomData;
use crate::traits::{MutableStorage, ToVec, Zippable};

verus! {

/// One growable column per element of the component list `T`, all empty at
/// construction.
pub struct DynamicStorage<T: ToVec> {
    _marker: PhantomData<T>,
    inner: T::AsVec,
}

impl<T: ToVec> DynamicStorage<T> {
    /// Every column is empty.
    pub closed spec fn cols_empty(&self) -> bool {
        T::cols_empty(&self.inner)
    }

    /// Fresh storage with every column empty.
    pub fn new() -> (r: DynamicStorage<T>)
        ensures
            r.cols_empty(),
    {
        DynamicStorage { _marker: PhantomData, inner: T::new() }
    }
}

/// Empty columns are a consistent storage of no rows.
pub proof fn lemma_empty_storage_consistent<T: ToVec>(s: &DynamicStorage<T>) where
    T::AsVec: Zippable,

    requires
        s.cols_empty(),
    ensures
        MutableStorage::inv(s),
        MutableStorage::rows(s) == Seq::<<T::AsVec as Zippable>::Item>::empty(),
{
}

impl<T: ToVec> MutableStorage for DynamicStorage<T> where T::AsVec: Zippable {
    type Item = <T::AsVec as Zippable>::Item;

    closed spec fn inv(&self) -> bool {
        T::cols_empty(&self.inner)
    }

    /// The columns start empty and no operation fills them, so the storage
    /// presents no rows.
    open spec fn rows(&self) -> Seq<Self::Item> {
        Seq::empty()
    }

    fn row_count(&self) -> (r: usize) {
        0
    }

    fn row_at(&self, i: usize) -> (r: Self::Item) {
        // With no rows, no index satisfies the precondition.
        vstd::pervasive::unreached()
    }

    fn set_row(&mut self, i: usize, r: Self::Item) {
        // With no rows, no index satisfies the precondition.
        vstd::pervasive::unreached()
    }
}

} // verus!
