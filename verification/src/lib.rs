//! Core of a columnar, multi-type container: a type-erased "archetype table"
//! that stores fixed-shape rows of heterogeneous component values in a
//! struct-of-arrays layout, together with a statically typed archetype
//! facade over type-level component lists.

pub mod dynamic;
pub mod fixed;
pub mod layout;
pub mod query;
pub mod raw_table;
pub mod singleton;
pub mod storage;
pub mod traits;
pub mod type_data;

use vstd::prelude::*;
use core::marker::PhantomData;
use crate::dynamic::DynamicStorage;
use crate::fixed::StaticStorage;
use crate::singleton::SingletonStorage;
use crate::traits::{HCons, HNil, MutableStorage, ToArray, ToVec, Zippable};

verus! {

/// A tag for the value types a row may carry.
pub trait Component {

}

/// A type-level list whose elements are component types.
pub trait ComponentList: Sized {

}

impl ComponentList for HNil {

}

impl<A: Component, B: ComponentList> ComponentList for HCons<A, B> {

}

/// The position of a field at the head of a row.
pub struct Here;

/// The position of a field one step into a row's tail.
pub struct There<I> {
    _marker: PhantomData<I>,
}

/// One field of a row, located by its type at position `I`: reading it out
/// and writing it back.
pub trait SubrowField<S, I>: Sized {
    /// The field's value within the row.
    spec fn get_spec(s: S) -> Self;

    /// The row with the field replaced.
    spec fn put_spec(self, s: S) -> S;

    /// Reads the field out of the row.
    fn get(s: &S) -> (r: Self)
        ensures
            r == Self::get_spec(*s),
    ;

    /// Writes the field back into the row.
    fn put(self, s: &mut S)
        ensures
            *final(s) == self.put_spec(*old(s)),
    ;
}

impl<H: Copy, T> SubrowField<HCons<H, T>, Here> for H {
    open spec fn get_spec(s: HCons<H, T>) -> H {
        s.head
    }

    open spec fn put_spec(self, s: HCons<H, T>) -> HCons<H, T> {
        HCons { head: self, ..s }
    }

    fn get(s: &HCons<H, T>) -> (r: H) {
        s.head
    }

    fn put(self, s: &mut HCons<H, T>) {
        s.head = self;
    }
}

impl<X, H, T, I> SubrowField<HCons<H, T>, There<I>> for X where X: SubrowField<T, I> {
    open spec fn get_spec(s: HCons<H, T>) -> X {
        X::get_spec(s.tail)
    }

    open spec fn put_spec(self, s: HCons<H, T>) -> HCons<H, T> {
        HCons { tail: self.put_spec(s.tail), ..s }
    }

    fn get(s: &HCons<H, T>) -> (r: X) {
        X::get(&s.tail)
    }

    fn put(self, s: &mut HCons<H, T>) {
        self.put(&mut s.tail);
    }
}

/// A selection of a row's fields by their types, at positions `Is`: project
/// the selection out of a row, and store a changed selection back.
pub trait Subrow<S, Is>: Sized {
    /// The selected fields, read out of the row.
    spec fn pick_spec(s: S) -> Self;

    /// The row with the selected fields replaced.
    spec fn store_spec(self, s: S) -> S;

    /// Projects the selection out of the row.
    fn pick(s: &S) -> (r: Self)
        ensures
            r == Self::pick_spec(*s),
    ;

    /// Writes the selection back into the row, leaving the other fields
    /// alone.
    fn store(self, s: &mut S)
        ensures
            *final(s) == self.store_spec(*old(s)),
    ;
}

impl<S> Subrow<S, HNil> for HNil {
    open spec fn pick_spec(s: S) -> HNil {
        HNil
    }

    open spec fn store_spec(self, s: S) -> S {
        s
    }

    fn pick(s: &S) -> (r: HNil) {
        HNil
    }

    fn store(self, s: &mut S) {
    }
}

impl<S, H, T, IH, IT> Subrow<S, HCons<IH, IT>> for HCons<H, T> where
    H: SubrowField<S, IH>,
    T: Subrow<S, IT>,
 {
    open spec fn pick_spec(s: S) -> HCons<H, T> {
        HCons { head: H::get_spec(s), tail: T::pick_spec(s) }
    }

    open spec fn store_spec(self, s: S) -> S {
        self.tail.store_spec(self.head.put_spec(s))
    }

    fn pick(s: &S) -> (r: HCons<H, T>) {
        HCons { head: H::get(s), tail: T::pick(s) }
    }

    fn store(self, s: &mut S) {
        self.head.put(s);
        self.tail.store(s);
    }
}

/// A phantom-typed accumulator of component types: starts from the empty
/// list, prepends one component at a time, and finally picks a storage
/// shape.
pub struct ArchetypeBuilder<A: ComponentList> {
    inner: PhantomData<A>,
}

impl ArchetypeBuilder<HNil> {
    /// Starts from the empty component list.
    pub fn new() -> (r: Self) {
        ArchetypeBuilder { inner: PhantomData }
    }
}

impl<A: ComponentList> ArchetypeBuilder<A> {
    /// Prepends a component type to the list.
    pub fn add_component<C: Component>(self) -> (r: ArchetypeBuilder<HCons<C, A>>) {
        ArchetypeBuilder { inner: PhantomData }
    }

    /// One row, stored inline.
    pub fn build_singleton(self, prototype: A) -> (r: Archetype<A, SingletonStorage<A>>) where
        A: Copy,

        ensures
            r.inv(),
            r.rows() == seq![prototype],
    {
        Archetype { _marker: PhantomData, storage: SingletonStorage::from(prototype) }
    }

    /// Growable columns, starting empty.
    pub fn build_dynamic(self) -> (r: Archetype<A, DynamicStorage<A>>) where
        A: ToVec,
        A::AsVec: Zippable,

        ensures
            r.inv(),
            r.rows() == Seq::<<A::AsVec as Zippable>::Item>::empty(),
    {
        let storage = DynamicStorage::new();
        proof {
            crate::dynamic::lemma_empty_storage_consistent(&storage);
        }
        Archetype { _marker: PhantomData, storage }
    }
}

impl<A: ComponentList + Copy> ArchetypeBuilder<A> {
    /// Exactly `N` rows, each a copy of the prototype.
    pub fn build_static<const N: usize>(self, prototype: A) -> (r: Archetype<
        A,
        StaticStorage<A, N>,
    >) where A: ToArray<N>
        ensures
            r.inv(),
            r.rows() == Seq::new(N as nat, |i: int| prototype),
    {
        Archetype { _marker: PhantomData, storage: StaticStorage::from_element(prototype) }
    }
}

impl<A: ComponentList + Default + Copy> ArchetypeBuilder<A> {
    /// Exactly `N` rows, each the component list's default.
    pub fn build_static_default<const N: usize>(self) -> (r: Archetype<A, StaticStorage<A, N>>) where
        A: ToArray<N>,

        ensures
            r.inv(),
            exists|proto: A|
                call_ensures(<A as Default>::default, (), proto) && r.rows() == Seq::new(
                    N as nat,
                    |i: int| proto,
                ),
    {
        Archetype { _marker: PhantomData, storage: StaticStorage::from_default() }
    }
}

/// A typed table over the component list `A`, realized by a storage `S`.
pub struct Archetype<A, S> {
    _marker: PhantomData<A>,
    storage: S,
}

impl<A, S: MutableStorage> Archetype<A, S> {
    /// The storage is internally consistent.
    pub closed spec fn inv(&self) -> bool {
        self.storage.inv()
    }

    /// The rows the archetype holds, in order.
    pub closed spec fn rows(&self) -> Seq<S::Item> {
        self.storage.rows()
    }

    /// Applies an operation to every row, projected to the subset of columns
    /// the operation asks for: each row is read, the selected fields are
    /// handed to the operation, and what it returns is written back in their
    /// places. The other fields of the row are untouched.
    #[verifier::loop_isolation(false)]
    pub fn apply<B, Is, F: Fn(B) -> B>(&mut self, operation: F) where B: Subrow<S::Item, Is>
        requires
            old(self).inv(),
            forall|b: B| call_requires(operation, (b,)),
        ensures
            final(self).inv(),
            final(self).rows().len() == old(self).rows().len(),
            exists|outs: Seq<B>|
                {
                    &&& outs.len() == old(self).rows().len()
                    &&& forall|i: int|
                        0 <= i < outs.len() ==> call_ensures(
                            operation,
                            (B::pick_spec(old(self).rows()[i]),),
                            #[trigger] outs[i],
                        )
                    &&& final(self).rows() == Seq::new(
                        old(self).rows().len(),
                        |i: int| outs[i].store_spec(old(self).rows()[i]),
                    )
                },
    {
        let n: usize = self.storage.row_count();
        let ghost mut outs: Seq<B> = Seq::empty();
        let mut i: usize = 0;
        while i < n
            invariant
                i <= n,
                self.inv(),
                self.rows().len() == n,
                outs.len() == i,
                forall|k: int|
                    0 <= k < i ==> call_ensures(
                        operation,
                        (B::pick_spec(old(self).rows()[k]),),
                        #[trigger] outs[k],
                    ),
                forall|k: int|
                    0 <= k < i ==> #[trigger] self.rows()[k] == outs[k].store_spec(
                        old(self).rows()[k],
                    ),
                forall|k: int| i <= k < n ==> #[trigger] self.rows()[k] == old(self).rows()[k],
            decreases n - i,
        {
            let row = self.storage.row_at(i);
            let picked = B::pick(&row);
            let out = operation(picked);
            proof {
                outs = outs.push(out);
            }
            let mut updated = row;
            out.store(&mut updated);
            self.storage.set_row(i, updated);
            i = i + 1;
        }
        proof {
            assert(self.rows() =~= Seq::new(
                old(self).rows().len(),
                |k: int| outs[k].store_spec(old(self).rows()[k]),
            ));
        }
    }
}

} // verus!
