//! The row-oriented table: a columnar store plus the count of valid rows,
//! with the checked row operations (push, pop, swap-pop, swap-remove,
//! insert-at, erase, extend, clear).
//!
//! A table views its contents as a sequence of rows; each row is one value
//! per column, in the canonical (sorted-by-identity) column order. Rows enter
//! and leave as bundles whose fields are presented in that same order, so a
//! transfer is a lockstep walk over the columns.

use vstd::prelude::*;
use crate::layout::metas_wf;
use crate::raw_table::{can_reserve, reserved_capacity, RawTable};
use crate::type_data::{
    bundle_fields_wf, distinct_ids, ids_of, lemma_sorted_ids_unique, sorted_by_id,
    strictly_sorted_by_id, DynamicBundle, TypeMetadata,
};

verus! {

/// The rows a sequence of bundles would form, in order.
pub open spec fn rows_of<V, B: DynamicBundle<V>>(bs: Seq<B>) -> Seq<Seq<V>> {
    Seq::new(bs.len(), |i: int| bs[i].field_values())
}

/// Every bundle in the sequence has well-formed fields.
pub open spec fn bundles_wf<V, B: DynamicBundle<V>>(bs: Seq<B>) -> bool {
    forall|i: int|
        0 <= i < bs.len() ==> bundle_fields_wf(
            (#[trigger] bs[i]).field_metas(),
            bs[i].field_values(),
        )
}

/// A columnar store plus the number of valid rows: rows `[0, len)` hold
/// values, slots `[len, capacity)` are free room.
pub struct Table<V> {
    buf: RawTable<V>,
    len: usize,
}

impl<V> View for Table<V> {
    type V = Seq<Seq<V>>;

    /// The rows the table holds, in order; each row is one value per column,
    /// in column order.
    closed spec fn view(&self) -> Seq<Seq<V>> {
        Seq::new(self.len as nat, |i: int| self.row_at(i))
    }
}

impl<V> Table<V> {
    /// The column descriptors, in column order.
    pub closed spec fn metas(&self) -> Seq<TypeMetadata> {
        self.buf.metas()
    }

    /// How many columns the table has.
    pub open spec fn num_cols(&self) -> int {
        self.metas().len() as int
    }

    /// How many valid rows the table holds.
    pub closed spec fn spec_len(&self) -> int {
        self.len as int
    }

    /// How many row slots the backing region holds.
    pub closed spec fn spec_capacity(&self) -> int {
        self.buf.capacity_spec()
    }

    /// Row `i`: the value of each column at index `i`.
    closed spec fn row_at(&self, i: int) -> Seq<V> {
        Seq::new(self.metas().len(), |c: int| self.buf.col(c)[i])
    }

    /// Internal consistency: the store is consistent, every column holds
    /// exactly `len` values, and they all fit the backing region.
    pub closed spec fn wf(&self) -> bool {
        &&& self.buf.wf()
        &&& self.buf.cols_uniform_at(self.len as int)
        &&& self.len <= self.buf.capacity_spec()
    }

    /// A bundle whose fields carry exactly the table's column types, in the
    /// table's order, may enter or leave as a row.
    pub open spec fn compatible_with(&self, metas: Seq<TypeMetadata>) -> bool {
        ids_of(metas) == ids_of(self.metas())
    }

    /// Every bundle in the sequence is compatible with the table.
    pub open spec fn all_compatible<B: DynamicBundle<V>>(&self, bs: Seq<B>) -> bool {
        forall|i: int|
            0 <= i < bs.len() ==> self.compatible_with((#[trigger] bs[i]).field_metas())
    }

    /// An empty table over the given types, in any order; sorts them into
    /// the canonical column order. The types must be pairwise distinct.
    pub fn new(types: Vec<TypeMetadata>) -> (r: Self)
        requires
            metas_wf(types@),
            distinct_ids(types@),
        ensures
            r.wf(),
            r@ == Seq::<Seq<V>>::empty(),
            r.spec_len() == 0,
            r.spec_capacity() == 0,
            r.metas().len() == types@.len(),
            r.metas().to_multiset() == types@.to_multiset(),
            ids_of(r.metas()).to_multiset() == ids_of(types@).to_multiset(),
            sorted_by_id(r.metas()),
            sorted_by_id(types@) ==> r.metas() == types@,
    {
        let r = Table { buf: RawTable::new(types), len: 0 };
        proof {
            lemma_table_metas_sorted(&r);
            assert(r@ =~= Seq::<Seq<V>>::empty());
        }
        r
    }

    /// An empty table shaped for a bundle: the columns are exactly the
    /// bundle's field types, which are already sorted and validated.
    pub fn new_for_bundle<B: DynamicBundle<V>>(data: &B) -> (r: Self)
        requires
            bundle_fields_wf(data.field_metas(), data.field_values()),
            distinct_ids(data.field_metas()),
        ensures
            r.wf(),
            r@ == Seq::<Seq<V>>::empty(),
            r.spec_len() == 0,
            r.spec_capacity() == 0,
            r.metas() == data.field_metas(),
            r.compatible_with(data.field_metas()),
    {
        proof {
            assert(strictly_sorted_by_id(data.field_metas()));
        }
        let types = data.type_metadata();
        let r = Table { buf: RawTable::new_unchecked(types), len: 0 };
        proof {
            assert(r@ =~= Seq::<Seq<V>>::empty());
        }
        r
    }

    /// How many valid rows the table holds.
    pub fn len(&self) -> (r: usize)
        ensures
            r == self.spec_len(),
            r == self@.len(),
    {
        self.len
    }

    /// How many row slots the backing region holds.
    pub fn capacity(&self) -> (r: usize)
        ensures
            r == self.spec_capacity(),
    {
        self.buf.capacity()
    }

    /// Whether the table holds no rows.
    pub fn empty(&self) -> (r: bool)
        ensures
            r == (self@.len() == 0),
    {
        self.len == 0
    }

    /// Ensures room for at least `capacity` rows; never shrinks, never
    /// touches the contents.
    pub fn reserve(&mut self, capacity: usize)
        requires
            old(self).wf(),
            can_reserve(old(self).metas(), old(self).spec_capacity(), capacity as int),
        ensures
            final(self).wf(),
            final(self)@ == old(self)@,
            final(self).metas() == old(self).metas(),
            final(self).spec_len() == old(self).spec_len(),
            final(self).spec_capacity() == reserved_capacity(
                old(self).spec_capacity(),
                capacity as int,
            ),
            final(self).spec_capacity() >= capacity,
            final(self).spec_capacity() >= old(self).spec_capacity(),
    {
        self.buf.reserve(capacity);
        proof {
            assert(self@ =~~= old(self)@);
        }
    }

    /// Whether a bundle's field types match the table's columns exactly:
    /// same count, same identities, in the same order.
    pub fn is_bundle_compatible<B: DynamicBundle<V>>(&self, data: &B) -> (r: bool)
        requires
            self.wf(),
            bundle_fields_wf(data.field_metas(), data.field_values()),
        ensures
            r == self.compatible_with(data.field_metas()),
    {
        let bundle_metas = data.type_metadata();
        let table_metas = self.buf.type_metadata();
        if bundle_metas.len() != table_metas.len() {
            proof {
                assert(ids_of(data.field_metas()).len() == data.field_metas().len());
                assert(ids_of(self.metas()).len() == self.metas().len());
            }
            return false;
        }
        let n: usize = bundle_metas.len();
        let mut c: usize = 0;
        while c < n
            invariant
                c <= n,
                n == bundle_metas@.len() == table_metas@.len(),
                bundle_metas@ == data.field_metas(),
                table_metas@ == self.metas(),
                forall|k: int| 0 <= k < c ==> (#[trigger] bundle_metas@[k]).id == table_metas@[k].id,
            decreases n - c,
        {
            if bundle_metas[c].id != table_metas[c].id {
                proof {
                    assert(ids_of(data.field_metas())[c as int] != ids_of(self.metas())[c as int]);
                }
                return false;
            }
            c += 1;
        }
        proof {
            assert(ids_of(data.field_metas()) =~= ids_of(self.metas()));
        }
        true
    }
    /// Writes a compatible bundle into the next free row.
    pub fn push<B: DynamicBundle<V>>(&mut self, data: B)
        requires
            old(self).wf(),
            bundle_fields_wf(data.field_metas(), data.field_values()),
            old(self).compatible_with(data.field_metas()),
            can_reserve(old(self).metas(), old(self).spec_capacity(), old(self).spec_len() + 1),
        ensures
            final(self).wf(),
            final(self)@ == old(self)@.push(data.field_values()),
            final(self).spec_len() == old(self).spec_len() + 1,
            final(self).spec_capacity() == reserved_capacity(
                old(self).spec_capacity(),
                old(self).spec_len() + 1,
            ),
            final(self).spec_capacity() >= old(self).spec_capacity(),
            final(self).spec_capacity() >= final(self).spec_len(),
            final(self).metas() == old(self).metas(),
    {
        proof {
            assert(ids_of(data.field_metas()).len() == data.field_metas().len());
            assert(ids_of(self.metas()).len() == self.metas().len());
            assert(self.len < usize::MAX);
        }
        self.reserve(self.len + 1);
        let (_bundle_metas, values) = data.put();
        let ghost mid = *self;
        self.buf.put_column(self.len, values);
        self.len = self.len + 1;
        proof {
            assert forall|i: int| 0 <= i < old(self).spec_len() implies self.row_at(i)
                == old(self).row_at(i) by {
                assert(self.row_at(i) =~= mid.row_at(i));
                assert(mid@[i] == mid.row_at(i));
                assert(old(self)@[i] == old(self).row_at(i));
            }
            assert(self.row_at(old(self).spec_len()) =~= data.field_values());
            assert(self@ =~= old(self)@.push(data.field_values()));
        }
    }

    /// Takes the last row out as a bundle of the table's own column types.
    pub fn pop<B: DynamicBundle<V>>(&mut self) -> (r: B)
        requires
            old(self).wf(),
            old(self).spec_len() > 0,
        ensures
            final(self).wf(),
            r.field_metas() == old(self).metas(),
            r.field_values() == old(self)@.last(),
            final(self)@ == old(self)@.drop_last(),
            final(self).spec_len() == old(self).spec_len() - 1,
            final(self).spec_capacity() == old(self).spec_capacity(),
            final(self).metas() == old(self).metas(),
    {
        proof {
            lemma_table_metas_sorted(self);
        }
        self.len = self.len - 1;
        let values = self.buf.take_column(self.len);
        let metas = self.buf.type_metadata();
        proof {
            assert(old(self)@.last() =~= values@);
            assert forall|i: int| 0 <= i < self.spec_len() implies self.row_at(i)
                == old(self).row_at(i) by {
                assert(self.row_at(i) =~= old(self).row_at(i));
            }
            assert(self@ =~= old(self)@.drop_last());
        }
        B::take(metas, values)
    }

    /// Swaps row `idx` with the last row, then pops: the bundle formerly at
    /// `idx` comes out, and the former last row now sits at `idx`.
    pub fn swap_pop<B: DynamicBundle<V>>(&mut self, idx: usize) -> (r: B)
        requires
            old(self).wf(),
            idx < old(self).spec_len(),
        ensures
            final(self).wf(),
            r.field_metas() == old(self).metas(),
            r.field_values() == old(self)@[idx as int],
            final(self)@ == old(self)@.update(idx as int, old(self)@.last()).drop_last(),
            idx < old(self).spec_len() - 1 ==> final(self)@[idx as int] == old(self)@.last(),
            final(self).spec_len() == old(self).spec_len() - 1,
            final(self).spec_capacity() == old(self).spec_capacity(),
            final(self).metas() == old(self).metas(),
    {
        let ghost pre = *self;
        self.buf.swap_columns(idx, self.len - 1);
        proof {
            assert forall|i: int| 0 <= i < self.spec_len() implies #[trigger] self.row_at(i)
                == pre@.update(idx as int, pre@.last()).update(
                pre.spec_len() - 1,
                pre@[idx as int],
            )[i] by {
                if i == idx as int {
                    assert(self.row_at(i) =~= pre.row_at(pre.spec_len() - 1));
                } else if i == pre.spec_len() - 1 {
                    assert(self.row_at(i) =~= pre.row_at(idx as int));
                } else {
                    assert(self.row_at(i) =~= pre.row_at(i));
                }
            }
            assert(self@ =~= pre@.update(idx as int, pre@.last()).update(
                pre.spec_len() - 1,
                pre@[idx as int],
            ));
        }
        let r = self.pop::<B>();
        proof {
            assert(final(self)@ =~= old(self)@.update(idx as int, old(self)@.last()).drop_last());
        }
        r
    }

    /// Swaps row `idx` with the last row and drops that last row in place.
    pub fn swap_remove(&mut self, idx: usize)
        requires
            old(self).wf(),
            idx < old(self).spec_len(),
        ensures
            final(self).wf(),
            final(self)@ == old(self)@.update(idx as int, old(self)@.last()).drop_last(),
            idx < old(self).spec_len() - 1 ==> final(self)@[idx as int] == old(self)@.last(),
            final(self).spec_len() == old(self).spec_len() - 1,
            final(self).spec_capacity() == old(self).spec_capacity(),
            final(self).metas() == old(self).metas(),
    {
        let ghost pre = *self;
        self.len = self.len - 1;
        self.buf.swap_columns(idx, self.len);
        self.buf.drop_column(self.len);
        proof {
            let target = pre@.update(idx as int, pre@.last()).drop_last();
            assert forall|i: int| 0 <= i < self.spec_len() implies #[trigger] self.row_at(i)
                == target[i] by {
                if i == idx as int {
                    assert(self.row_at(i) =~= pre.row_at(pre.spec_len() - 1));
                } else {
                    assert(self.row_at(i) =~= pre.row_at(i));
                }
            }
            assert(self@ =~= target);
        }
    }

    /// Replaces the row at `idx` with a compatible bundle, handing the
    /// previous occupant back; the table reads the old row out and writes the
    /// new one into the same slot.
    pub fn insert_at<B: DynamicBundle<V>>(&mut self, idx: usize, data: B) -> (r: B)
        requires
            old(self).wf(),
            idx < old(self).spec_len(),
            bundle_fields_wf(data.field_metas(), data.field_values()),
            old(self).compatible_with(data.field_metas()),
        ensures
            final(self).wf(),
            r.field_metas() == old(self).metas(),
            r.field_values() == old(self)@[idx as int],
            final(self)@ == old(self)@.update(idx as int, data.field_values()),
            final(self).spec_len() == old(self).spec_len(),
            final(self).spec_capacity() == old(self).spec_capacity(),
            final(self).metas() == old(self).metas(),
    {
        proof {
            lemma_table_metas_sorted(self);
            assert(ids_of(data.field_metas()).len() == data.field_metas().len());
            assert(ids_of(self.metas()).len() == self.metas().len());
        }
        let (_bundle_metas, values) = data.put();
        let prev = self.buf.replace_column(idx, values);
        let metas = self.buf.type_metadata();
        proof {
            assert(old(self)@[idx as int] =~= prev@);
            let target = old(self)@.update(idx as int, data.field_values());
            assert forall|i: int| 0 <= i < self.spec_len() implies #[trigger] self.row_at(i)
                == target[i] by {
                if i == idx as int {
                    assert(self.row_at(i) =~= data.field_values());
                } else {
                    assert(self.row_at(i) =~= old(self).row_at(i));
                }
            }
            assert(self@ =~= target);
        }
        B::take(metas, prev)
    }

    /// Drops every row, then releases the backing region: length and
    /// capacity both return to zero.
    pub fn clear(&mut self)
        requires
            old(self).wf(),
        ensures
            final(self).wf(),
            final(self)@ == Seq::<Seq<V>>::empty(),
            final(self).spec_len() == 0,
            final(self).spec_capacity() == 0,
            final(self).metas() == old(self).metas(),
    {
        self.buf.clear();
        self.len = 0;
        proof {
            assert(self@ =~= Seq::<Seq<V>>::empty());
        }
    }

    /// Drops the rows `[idx, idx + count)` and moves the rows above them
    /// down; the table keeps its capacity.
    #[verifier::loop_isolation(false)]
    pub fn erase(&mut self, idx: usize, count: usize)
        requires
            old(self).wf(),
            idx + count <= old(self).spec_len(),
        ensures
            final(self).wf(),
            final(self)@ == old(self)@.subrange(0, idx as int) + old(self)@.subrange(
                idx + count,
                old(self).spec_len(),
            ),
            final(self).spec_len() == old(self).spec_len() - count,
            final(self).spec_capacity() == old(self).spec_capacity(),
            final(self).metas() == old(self).metas(),
    {
        let mut dropped: usize = 0;
        while dropped < count
            invariant
                dropped <= count,
                self.wf(),
                idx + count <= old(self).spec_len(),
                self.spec_len() == old(self).spec_len() - dropped,
                self.metas() == old(self).metas(),
                self.spec_capacity() == old(self).spec_capacity(),
                self@ =~~= old(self)@.subrange(0, idx as int) + old(self)@.subrange(
                    idx + dropped,
                    old(self).spec_len(),
                ),
            decreases count - dropped,
        {
            let ghost pre = *self;
            self.buf.drop_column(idx);
            self.len = self.len - 1;
            proof {
                let target = pre@.remove(idx as int);
                assert forall|i: int| 0 <= i < self.spec_len() implies #[trigger] self.row_at(i)
                    == target[i] by {
                    pre@.remove_ensures(idx as int);
                    if i < idx as int {
                        assert(self.row_at(i) =~= pre.row_at(i));
                    } else {
                        assert(self.row_at(i) =~= pre.row_at(i + 1));
                    }
                }
                assert(self@ =~= target);
                assert(self@ =~~= old(self)@.subrange(0, idx as int) + old(self)@.subrange(
                    idx + dropped + 1,
                    old(self).spec_len(),
                ));
            }
            dropped = dropped + 1;
        }
        proof {
            assert(self@ =~= old(self)@.subrange(0, idx as int) + old(self)@.subrange(
                idx + count,
                old(self).spec_len(),
            ));
        }
    }
    /// Writes the bundles into the free slots starting at `idx`, one row
    /// each, and counts how many rows were written.
    #[verifier::loop_isolation(false)]
    fn put_column_from_iter_unchecked<B: DynamicBundle<V>>(
        &mut self,
        idx: usize,
        columns: Vec<B>,
    ) -> (count: usize)
        requires
            old(self).wf(),
            idx == old(self).spec_len(),
            bundles_wf::<V, B>(columns@),
            old(self).all_compatible(columns@),
            old(self).spec_len() + columns@.len() <= old(self).spec_capacity(),
        ensures
            final(self).wf(),
            count == columns@.len(),
            final(self)@ == old(self)@ + rows_of::<V, B>(columns@),
            final(self).spec_len() == old(self).spec_len() + count,
            final(self).spec_capacity() == old(self).spec_capacity(),
            final(self).metas() == old(self).metas(),
    {
        let ghost cols_view = columns@;
        let mut cols = columns;
        let mut count: usize = 0;
        proof {
            assert(self@ + rows_of::<V, B>(cols_view.take(0)) =~= self@);
        }
        while cols.len() > 0
            invariant
                count + cols@.len() == cols_view.len(),
                cols@ =~= cols_view.subrange(count as int, cols_view.len() as int),
                self.wf(),
                self.spec_len() == old(self).spec_len() + count,
                self.metas() == old(self).metas(),
                self.spec_capacity() == old(self).spec_capacity(),
                self@ =~~= old(self)@ + rows_of::<V, B>(cols_view.take(count as int)),
            decreases cols@.len(),
        {
            proof {
                crate::raw_table::lemma_raw_table_wf_facts(&self.buf);
                assert(cols@[0] == cols_view[count as int]);
            }
            let data = cols.remove(0);
            self.push(data);
            count = count + 1;
            proof {
                assert(rows_of::<V, B>(cols_view.take(count as int)) =~= rows_of::<V, B>(
                    cols_view.take(count as int - 1),
                ).push(cols_view[count as int - 1].field_values()));
                assert(self@ =~~= old(self)@ + rows_of::<V, B>(cols_view.take(count as int)));
            }
        }
        proof {
            assert(cols_view.take(count as int) =~= cols_view);
            assert(self@ =~~= old(self)@ + rows_of::<V, B>(cols_view));
        }
        count
    }

    /// Appends every bundle of an exactly sized batch, reserving the room
    /// once up front.
    pub fn extend<B: DynamicBundle<V>>(&mut self, iter: Vec<B>)
        requires
            old(self).wf(),
            bundles_wf::<V, B>(iter@),
            old(self).all_compatible(iter@),
            can_reserve(
                old(self).metas(),
                old(self).spec_capacity(),
                old(self).spec_len() + iter@.len(),
            ),
        ensures
            final(self).wf(),
            final(self)@ == old(self)@ + rows_of::<V, B>(iter@),
            final(self).spec_len() == old(self).spec_len() + iter@.len(),
            final(self).spec_capacity() >= old(self).spec_capacity(),
            final(self).spec_capacity() >= final(self).spec_len(),
            final(self).metas() == old(self).metas(),
    {
        let add_size = iter.len();
        proof {
            assert(reserved_capacity(
                old(self).spec_capacity(),
                old(self).spec_len() + add_size,
            ) >= old(self).spec_len() + add_size);
            assert(self.len + add_size <= usize::MAX);
        }
        self.reserve(self.len + add_size);
        let _written = self.put_column_from_iter_unchecked(self.len, iter);
    }

    /// Appends `n` rows drawn from a function of the row's position in the
    /// batch.
    #[verifier::loop_isolation(false)]
    pub fn extend_from_fn<B: DynamicBundle<V>, F: Fn(usize) -> B>(&mut self, n: usize, f: F)
        requires
            old(self).wf(),
            forall|i: usize| i < n ==> call_requires(f, (i,)),
            forall|i: usize, b: B|
                i < n && call_ensures(f, (i,), b) ==> bundle_fields_wf(
                    b.field_metas(),
                    b.field_values(),
                ) && old(self).compatible_with(b.field_metas()),
            can_reserve(
                old(self).metas(),
                old(self).spec_capacity(),
                old(self).spec_len() + n,
            ),
        ensures
            final(self).wf(),
            final(self).spec_len() == old(self).spec_len() + n,
            final(self).spec_capacity() >= old(self).spec_capacity(),
            final(self).spec_capacity() >= final(self).spec_len(),
            final(self).metas() == old(self).metas(),
            final(self)@.len() == old(self)@.len() + n,
            final(self)@.subrange(0, old(self).spec_len()) == old(self)@,
            exists|bs: Seq<B>|
                {
                    &&& bs.len() == n
                    &&& final(self)@ == old(self)@ + #[trigger] rows_of::<V, B>(bs)
                    &&& forall|k: int|
                        0 <= k < n ==> call_ensures(f, (k as usize,), #[trigger] bs[k])
                },
    {
        let mut batch: Vec<B> = Vec::new();
        let mut i: usize = 0;
        while i < n
            invariant
                i <= n,
                batch@.len() == i,
                forall|j: usize| j < n ==> call_requires(f, (j,)),
                forall|k: int|
                    0 <= k < i ==> call_ensures(f, (k as usize,), #[trigger] batch@[k]),
            decreases n - i,
        {
            let b = f(i);
            batch.push(b);
            i = i + 1;
        }
        let ghost batch_view = batch@;
        self.extend(batch);
        proof {
            assert(self@.subrange(0, old(self).spec_len()) =~= old(self)@);
            assert(batch_view.len() == n && self@ == old(self)@ + rows_of::<V, B>(batch_view)
                && forall|k: int| 0 <= k < n ==> call_ensures(f, (k as usize,), #[trigger] batch_view[k]));
        }
    }

    /// Appends `n` rows of the bundle type's default value.
    #[verifier::loop_isolation(false)]
    pub fn extend_default<B: DynamicBundle<V> + Default>(&mut self, n: usize)
        requires
            old(self).wf(),
            forall|b: B|
                call_ensures(<B as core::default::Default>::default, (), b)
                    ==> bundle_fields_wf(b.field_metas(), b.field_values())
                        && old(self).compatible_with(b.field_metas()),
            can_reserve(
                old(self).metas(),
                old(self).spec_capacity(),
                old(self).spec_len() + n,
            ),
        ensures
            final(self).wf(),
            final(self).spec_len() == old(self).spec_len() + n,
            final(self).spec_capacity() >= old(self).spec_capacity(),
            final(self).spec_capacity() >= final(self).spec_len(),
            final(self).metas() == old(self).metas(),
            final(self)@.len() == old(self)@.len() + n,
            final(self)@.subrange(0, old(self).spec_len()) == old(self)@,
            exists|bs: Seq<B>|
                {
                    &&& bs.len() == n
                    &&& final(self)@ == old(self)@ + #[trigger] rows_of::<V, B>(bs)
                    &&& forall|k: int|
                        0 <= k < n ==> call_ensures(
                            <B as core::default::Default>::default,
                            (),
                            #[trigger] bs[k],
                        )
                },
    {
        let mut batch: Vec<B> = Vec::new();
        let mut i: usize = 0;
        while i < n
            invariant
                i <= n,
                batch@.len() == i,
                forall|k: int|
                    0 <= k < i ==> call_ensures(
                        <B as core::default::Default>::default,
                        (),
                        #[trigger] batch@[k],
                    ),
            decreases n - i,
        {
            let b = B::default();
            batch.push(b);
            i = i + 1;
        }
        let ghost batch_view = batch@;
        self.extend(batch);
        proof {
            assert(self@.subrange(0, old(self).spec_len()) =~= old(self)@);
            assert(batch_view.len() == n && self@ == old(self)@ + rows_of::<V, B>(batch_view)
                && forall|k: int|
                    0 <= k < n ==> call_ensures(
                        <B as core::default::Default>::default,
                        (),
                        #[trigger] batch_view[k],
                    ));
        }
    }

    /// Appends `n` clones of a prototype bundle.
    #[verifier::loop_isolation(false)]
    pub fn extend_cloned<B: DynamicBundle<V> + Clone>(&mut self, n: usize, prototype: B)
        requires
            old(self).wf(),
            forall|b: B|
                call_ensures(<B as Clone>::clone, (&prototype,), b)
                    ==> bundle_fields_wf(b.field_metas(), b.field_values())
                        && old(self).compatible_with(b.field_metas()),
            can_reserve(
                old(self).metas(),
                old(self).spec_capacity(),
                old(self).spec_len() + n,
            ),
        ensures
            final(self).wf(),
            final(self).spec_len() == old(self).spec_len() + n,
            final(self).spec_capacity() >= old(self).spec_capacity(),
            final(self).spec_capacity() >= final(self).spec_len(),
            final(self).metas() == old(self).metas(),
            final(self)@.len() == old(self)@.len() + n,
            final(self)@.subrange(0, old(self).spec_len()) == old(self)@,
            exists|bs: Seq<B>|
                {
                    &&& bs.len() == n
                    &&& final(self)@ == old(self)@ + #[trigger] rows_of::<V, B>(bs)
                    &&& forall|k: int|
                        0 <= k < n ==> call_ensures(
                            <B as Clone>::clone,
                            (&prototype,),
                            #[trigger] bs[k],
                        )
                },
    {
        let mut batch: Vec<B> = Vec::new();
        let mut i: usize = 0;
        while i < n
            invariant
                i <= n,
                batch@.len() == i,
                forall|k: int|
                    0 <= k < i ==> call_ensures(
                        <B as Clone>::clone,
                        (&prototype,),
                        #[trigger] batch@[k],
                    ),
            decreases n - i,
        {
            let b = prototype.clone();
            batch.push(b);
            i = i + 1;
        }
        let ghost batch_view = batch@;
        self.extend(batch);
        proof {
            assert(self@.subrange(0, old(self).spec_len()) =~= old(self)@);
            assert(batch_view.len() == n && self@ == old(self)@ + rows_of::<V, B>(batch_view)
                && forall|k: int|
                    0 <= k < n ==> call_ensures(
                        <B as Clone>::clone,
                        (&prototype,),
                        #[trigger] batch_view[k],
                    ));
        }
    }

    /// A table shaped after the first bundle of a batch, filled with the
    /// whole batch. An empty batch gives a table with no columns.
    pub fn from_iter<B: DynamicBundle<V>>(bundles: Vec<B>) -> (r: Self)
        requires
            bundles_wf::<V, B>(bundles@),
            bundles@.len() > 0 ==> distinct_ids(bundles@[0].field_metas()),
            forall|i: int|
                0 <= i < bundles@.len() ==> ids_of((#[trigger] bundles@[i]).field_metas())
                    == ids_of(bundles@[0].field_metas()),
            bundles@.len() > 0 ==> can_reserve(
                bundles@[0].field_metas(),
                0,
                bundles@.len() as int,
            ),
        ensures
            r.wf(),
            r@ == rows_of::<V, B>(bundles@),
            r.spec_len() == bundles@.len(),
            bundles@.len() > 0 ==> r.metas() == bundles@[0].field_metas(),
    {
        if bundles.len() == 0 {
            let r = Table::new(Vec::new());
            proof {
                assert(r@ =~= rows_of::<V, B>(bundles@));
            }
            r
        } else {
            let mut init = Self::new_for_bundle(&bundles[0]);
            init.extend(bundles);
            proof {
                assert(init@ =~= rows_of::<V, B>(bundles@));
            }
            init
        }
    }

    /// A table of `n` rows drawn from a function of the row index; the
    /// columns are the field types the function's bundles carry.
    #[verifier::loop_isolation(false)]
    pub fn from_fn<B: DynamicBundle<V>, F: Fn(usize) -> B>(n: usize, f: F) -> (r: Self)
        requires
            forall|i: usize| i < n ==> call_requires(f, (i,)),
            forall|i: usize, b: B|
                i < n && call_ensures(f, (i,), b) ==> bundle_fields_wf(
                    b.field_metas(),
                    b.field_values(),
                ) && distinct_ids(b.field_metas()),
            forall|i: usize, j: usize, b1: B, b2: B|
                i < n && j < n && call_ensures(f, (i,), b1) && call_ensures(f, (j,), b2)
                    ==> b1.field_metas() == b2.field_metas(),
            forall|b: B|
                call_ensures(f, (0usize,), b) ==> can_reserve(b.field_metas(), 0, n as int),
        ensures
            r.wf(),
            r.spec_len() == n,
            r@.len() == n,
            exists|bs: Seq<B>|
                {
                    &&& bs.len() == n
                    &&& r@ == #[trigger] rows_of::<V, B>(bs)
                    &&& forall|k: int|
                        0 <= k < n ==> call_ensures(f, (k as usize,), #[trigger] bs[k])
                },
    {
        let mut batch: Vec<B> = Vec::new();
        let mut i: usize = 0;
        while i < n
            invariant
                i <= n,
                batch@.len() == i,
                forall|j: usize| j < n ==> call_requires(f, (j,)),
                forall|k: int|
                    0 <= k < i ==> call_ensures(f, (k as usize,), #[trigger] batch@[k]),
            decreases n - i,
        {
            let b = f(i);
            batch.push(b);
            i = i + 1;
        }
        let ghost batch_view = batch@;
        let r = Self::from_iter(batch);
        proof {
            assert(batch_view.len() == n && r@ == rows_of::<V, B>(batch_view)
                && forall|k: int| 0 <= k < n ==> call_ensures(f, (k as usize,), #[trigger] batch_view[k]));
        }
        r
    }
}

/// A well-formed table's columns stand in canonical order with usable
/// layouts.
pub proof fn lemma_table_metas_sorted<V>(t: &Table<V>)
    requires
        t.wf(),
    ensures
        strictly_sorted_by_id(t.metas()),
        sorted_by_id(t.metas()),
        metas_wf(t.metas()),
{
    crate::raw_table::lemma_raw_table_wf_facts(&t.buf);
}

/// Round trip: pushing a row and then popping returns exactly that row and
/// leaves the table as it was. In the contracts above, a push appends the
/// bundle's fields to the view and a pop hands the view's last row back, so
/// the popped bundle is the pushed one, field for field.
pub proof fn lemma_push_pop_round_trip<V>(rows: Seq<Seq<V>>, row: Seq<V>)
    ensures
        rows.push(row).last() == row,
        rows.push(row).drop_last() == rows,
{
    assert(rows.push(row).drop_last() =~= rows);
}

/// The rows a table holds after pushing a batch one by one, first to last.
pub open spec fn pushed_all<V>(rows: Seq<Seq<V>>, batch: Seq<Seq<V>>) -> Seq<Seq<V>>
    decreases batch.len(),
{
    if batch.len() == 0 {
        rows
    } else {
        pushed_all(rows.push(batch.first()), batch.drop_first())
    }
}

/// Extending by a batch leaves the same contents as pushing each of its
/// rows in order: the batch append of `extend` is the fold of single pushes.
pub proof fn lemma_extend_matches_pushes<V>(rows: Seq<Seq<V>>, batch: Seq<Seq<V>>)
    ensures
        pushed_all(rows, batch) == rows + batch,
    decreases batch.len(),
{
    if batch.len() == 0 {
        assert(rows + batch =~= rows);
    } else {
        lemma_extend_matches_pushes(rows.push(batch.first()), batch.drop_first());
        assert(rows.push(batch.first()) + batch.drop_first() =~= rows + batch);
    }
}

/// Removal by swapping loses exactly one row: after a swap-pop or a
/// swap-remove at `idx`, putting the removed row back gives exactly the
/// rows the table held before. Every row that entered is thus still
/// accounted for: it either stays in the table or has left through the one
/// removal.
pub proof fn lemma_swap_removal_conserves_rows<V>(rows: Seq<Seq<V>>, idx: int)
    requires
        0 <= idx < rows.len(),
    ensures
        rows.update(idx, rows.last()).drop_last().to_multiset().insert(rows[idx])
            == rows.to_multiset(),
{
    broadcast use vstd::multiset::group_multiset_axioms;

    let swapped = rows.update(idx, rows.last());
    vstd::seq_lib::to_multiset_update(rows, idx, rows.last());
    assert(swapped.drop_last() =~= swapped.remove(swapped.len() - 1));
    vstd::seq_lib::to_multiset_remove(swapped, swapped.len() - 1);
    assert(swapped[swapped.len() - 1] == rows.last());
    vstd::seq_lib::to_multiset_contains(rows, rows.last());
    vstd::seq_lib::to_multiset_contains(rows, rows[idx]);
    assert(rows.contains(rows.last()));
    assert(rows.contains(rows[idx]));
    assert(swapped.drop_last().to_multiset().insert(rows[idx]) =~= rows.to_multiset());
}

/// Replacement loses exactly one row as well: after an insert-at, the new
/// contents plus the returned occupant are the old contents plus the
/// inserted row. Together with the swap-removal lemma, every row that enters
/// the table leaves it exactly once — in a returned bundle or by being
/// dropped in place.
pub proof fn lemma_insert_at_conserves_rows<V>(rows: Seq<Seq<V>>, idx: int, row: Seq<V>)
    requires
        0 <= idx < rows.len(),
    ensures
        rows.update(idx, row).to_multiset().insert(rows[idx]) == rows.to_multiset().insert(row),
{
    broadcast use vstd::multiset::group_multiset_axioms;

    vstd::seq_lib::to_multiset_update(rows, idx, row);
    vstd::seq_lib::to_multiset_contains(rows, rows[idx]);
    assert(rows.contains(rows[idx]));
    assert(rows.update(idx, row).to_multiset().insert(rows[idx]) =~= rows.to_multiset().insert(
        row,
    ));
}

/// Compatibility is a property of the field multiset alone: two bundles
/// whose sorted fields carry the same identities in any arrangement are
/// accepted or rejected together, by every table.
pub proof fn lemma_compatibility_of_permutations<V>(
    t: &Table<V>,
    m1: Seq<TypeMetadata>,
    m2: Seq<TypeMetadata>,
)
    requires
        sorted_by_id(m1),
        sorted_by_id(m2),
        ids_of(m1).to_multiset() == ids_of(m2).to_multiset(),
    ensures
        t.compatible_with(m1) == t.compatible_with(m2),
{
    lemma_sorted_ids_unique(m1, m2);
}

} // verus!
