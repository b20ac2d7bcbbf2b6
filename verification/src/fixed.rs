//! Fixed-capacity storage: exactly `N` rows, one fixed-size column per
//! component type, filled at construction.

use vstd::prelude::*;
use core::marker::PhantomData;
use crate::traits::{MutableStorage, ToArray, Zippable};

verus! {

/// Exactly `N` rows over the component list `T`, one column of `N` slots per
/// element.
pub struct StaticStorage<T: ToArray<N>, const N: usize> {
    _marker: PhantomData<T>,
    inner: T::AsArray,
}

impl<T: ToArray<N>, const N: usize> StaticStorage<T, N> {
    /// Every row slot is filled.
    pub closed spec fn rows_filled(&self) -> bool {
        forall|i: int| 0 <= i < N ==> self.inner.valid_row(i)
    }

    /// Fills every row with a copy of the prototype.
    pub fn from_element(el: T) -> (r: Self)
        ensures
            r.rows_filled(),
            MutableStorage::inv(&r),
            MutableStorage::rows(&r) == Seq::new(N as nat, |i: int| el),
    {
        let r = StaticStorage { _marker: PhantomData, inner: T::from_element(el) };
        proof {
            assert(MutableStorage::rows(&r) =~= Seq::new(N as nat, |i: int| el));
        }
        r
    }
}

impl<T: ToArray<N> + Default, const N: usize> StaticStorage<T, N> {
    /// Fills every row with the component list's default value.
    pub fn from_default() -> (r: Self)
        ensures
            r.rows_filled(),
            MutableStorage::inv(&r),
            exists|proto: T|
                call_ensures(<T as Default>::default, (), proto) && MutableStorage::rows(&r)
                    == Seq::new(N as nat, |i: int| proto),
    {
        let proto = T::default();
        let r = StaticStorage { _marker: PhantomData, inner: T::from_element(proto) };
        proof {
            assert(MutableStorage::rows(&r) =~= Seq::new(N as nat, |i: int| proto));
        }
        r
    }
}

impl<T: ToArray<N>, const N: usize> MutableStorage for StaticStorage<T, N> {
    type Item = <T::AsArray as Zippable>::Item;

    closed spec fn inv(&self) -> bool {
        self.rows_filled()
    }

    closed spec fn rows(&self) -> Seq<Self::Item> {
        Seq::new(N as nat, |i: int| self.inner.row_spec(i))
    }

    fn row_count(&self) -> (r: usize) {
        N
    }

    fn row_at(&self, i: usize) -> (r: Self::Item) {
        self.inner.row_at(i)
    }

    fn set_row(&mut self, i: usize, r: Self::Item) {
        self.inner.set_row(i, r);
        proof {
            assert(self.rows() =~= old(self).rows().update(i as int, r));
        }
    }
}

} // verus!
