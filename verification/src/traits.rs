//! Type-level component lists and the storage traits over them.
//!
//! A component list is a compile-time cons-list of component types. The
//! traits here map such a list to a concrete storage shape — one growable
//! column per element, or one fixed-size column per element — and assemble
//! full rows back out of the columns.

use vstd::prelude::*;

verus! {

/// The empty type-level list, and the empty row.
#[derive(Clone, Copy, PartialEq, Eq, Structural)]
pub struct HNil;

/// A type-level cons cell: a head type and the list of the remaining types.
/// A value of it is a row fragment: the head value and the remaining values.
#[derive(Clone, Copy)]
pub struct HCons<H, T> {
    pub head: H,
    pub tail: T,
}

impl Default for HNil {
    /// The empty row is its own default.
    fn default() -> (r: Self)
        ensures
            r == HNil,
    {
        HNil
    }
}

impl<H: Default, T: Default> Default for HCons<H, T> {
    /// Defaults every field of the row.
    fn default() -> (r: Self)
        ensures
            call_ensures(<H as Default>::default, (), r.head),
            call_ensures(<T as Default>::default, (), r.tail),
    {
        HCons { head: H::default(), tail: T::default() }
    }
}

/// Per-column containers that zip into full rows: a value of the
/// implementing type is a list of columns, and row `i` is the `i`-th element
/// of every column.
pub trait Zippable: Sized {
    /// The row the columns form: one value per column.
    type Item;

    /// Every column reaches past row `i`.
    spec fn valid_row(&self, i: int) -> bool;

    /// Row `i`, as a value.
    spec fn row_spec(&self, i: int) -> Self::Item;

    /// Reads row `i` out of the columns.
    fn row_at(&self, i: usize) -> (r: Self::Item)
        requires
            self.valid_row(i as int),
        ensures
            r == self.row_spec(i as int),
    ;

    /// Writes `r` as row `i` of the columns, leaving every other row alone.
    fn set_row(&mut self, i: usize, r: Self::Item)
        requires
            old(self).valid_row(i as int),
        ensures
            forall|j: int| final(self).valid_row(j) <==> old(self).valid_row(j),
            final(self).row_spec(i as int) == r,
            forall|j: int|
                j != i && old(self).valid_row(j) ==> final(self).row_spec(j) == old(
                    self,
                ).row_spec(j),
    ;
}

impl Zippable for HNil {
    type Item = HNil;

    /// A list of no columns forms an empty row at every index.
    open spec fn valid_row(&self, i: int) -> bool {
        true
    }

    open spec fn row_spec(&self, i: int) -> HNil {
        HNil
    }

    fn row_at(&self, i: usize) -> (r: HNil) {
        HNil
    }

    fn set_row(&mut self, i: usize, r: HNil) {
    }
}

impl<A: Copy, T: Zippable> Zippable for HCons<Vec<A>, T> {
    type Item = HCons<A, T::Item>;

    open spec fn valid_row(&self, i: int) -> bool {
        0 <= i < self.head@.len() && self.tail.valid_row(i)
    }

    open spec fn row_spec(&self, i: int) -> HCons<A, T::Item> {
        HCons { head: self.head@[i], tail: self.tail.row_spec(i) }
    }

    fn row_at(&self, i: usize) -> (r: HCons<A, T::Item>) {
        HCons { head: self.head[i], tail: self.tail.row_at(i) }
    }

    fn set_row(&mut self, i: usize, r: HCons<A, T::Item>) {
        let slot = &mut self.head[i];
        *slot = r.head;
        self.tail.set_row(i, r.tail);
    }
}

/// Lists whose elements are all growable columns.
pub trait VecList {

}

impl VecList for HNil {

}

impl<T, TS: VecList> VecList for HCons<Vec<T>, TS> {

}

/// Maps a component list to one growable column per element.
pub trait ToVec: Sized {
    /// The column list: a `Vec` per component type.
    type AsVec;

    /// Every column is empty.
    spec fn cols_empty(v: &Self::AsVec) -> bool;

    /// Fresh, empty columns.
    fn new() -> (r: Self::AsVec)
        ensures
            Self::cols_empty(&r),
    ;
}

impl ToVec for HNil {
    type AsVec = HNil;

    open spec fn cols_empty(v: &HNil) -> bool {
        true
    }

    fn new() -> (r: HNil) {
        HNil
    }
}

impl<A, B: ToVec> ToVec for HCons<A, B> {
    type AsVec = HCons<Vec<A>, B::AsVec>;

    open spec fn cols_empty(v: &Self::AsVec) -> bool {
        v.head@.len() == 0 && B::cols_empty(&v.tail)
    }

    fn new() -> (r: Self::AsVec) {
        HCons { head: Vec::new(), tail: B::new() }
    }
}

/// Maps a component list to one fixed-size column of `N` slots per element.
/// The columns zip back into rows of the list's own shape.
pub trait ToArray<const N: usize>: Sized {
    /// The column list: one container of `N` values per component type.
    type AsArray: Zippable<Item = Self>;

    /// Fills every slot of every column with a copy of the prototype's
    /// field for that column: all `N` rows equal the prototype.
    fn from_element(prototype: Self) -> (r: Self::AsArray)
        ensures
            forall|i: int| 0 <= i < N ==> #[trigger] r.valid_row(i),
            forall|i: int| 0 <= i < N ==> #[trigger] r.row_spec(i) == prototype,
    ;
}

impl<const N: usize> ToArray<N> for HNil {
    type AsArray = HNil;

    fn from_element(prototype: Self) -> (r: HNil) {
        HNil
    }
}

impl<const N: usize, A: Copy, B: ToArray<N>> ToArray<N> for HCons<A, B> {
    type AsArray = HCons<Vec<A>, B::AsArray>;

    #[verifier::loop_isolation(false)]
    fn from_element(prototype: Self) -> (r: Self::AsArray) {
        let mut head: Vec<A> = Vec::new();
        let mut i: usize = 0;
        while i < N
            invariant
                i <= N,
                head@.len() == i,
                forall|k: int| 0 <= k < i ==> head@[k] == prototype.head,
            decreases N - i,
        {
            head.push(prototype.head);
            i = i + 1;
        }
        HCons { head, tail: B::from_element(prototype.tail) }
    }
}

/// Storage that hands rows out and takes them back, one index at a time.
pub trait MutableStorage: Sized {
    /// One full row.
    type Item;

    /// The storage is internally consistent.
    spec fn inv(&self) -> bool;

    /// The rows the storage holds, in order.
    spec fn rows(&self) -> Seq<Self::Item>;

    /// How many rows the storage holds.
    fn row_count(&self) -> (r: usize)
        requires
            self.inv(),
        ensures
            r == self.rows().len(),
    ;

    /// Reads row `i`.
    fn row_at(&self, i: usize) -> (r: Self::Item)
        requires
            self.inv(),
            i < self.rows().len(),
        ensures
            r == self.rows()[i as int],
    ;

    /// Writes `r` back as row `i`.
    fn set_row(&mut self, i: usize, r: Self::Item)
        requires
            old(self).inv(),
            i < old(self).rows().len(),
        ensures
            final(self).inv(),
            final(self).rows() == old(self).rows().update(i as int, r),
    ;
}

} // verus!
