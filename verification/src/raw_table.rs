//! The untyped columnar allocator: sorted column descriptors (`RowInfo`) and
//! the growable multi-column store (`RawTable`).
//!
//! A `RawTable` keeps one column per component type, all columns the same
//! length, inside a backing region of `capacity` row slots. It knows nothing
//! of how many rows are initialized; the row-oriented wrapper above it owns
//! that bookkeeping. Its operations move whole rows: append one value per
//! column, take the last value of every column, swap two row indices in every
//! column, remove a row index from every column.

use vstd::prelude::*;
use crate::layout::{
    col_offset, compute_layout, layout_ok, lemma_column_alignment, lemma_cols_size_zero_cap,
    lemma_max_align, lemma_round_up, lemma_total_bytes_ge, metas_wf, stride_of,
};
use crate::type_data::{
    distinct_ids, ids_of, lemma_distinct_ids_preserved, sort_fields_by_id, sorted_by_id,
    strictly_sorted_by_id, TypeMetadata,
};

verus! {

/// Sorted column descriptors: one `(metadata, column offset)` entry per
/// column, ascending by type identity, all identities distinct. The offset
/// locates the column's array inside the backing region; while the capacity
/// is zero it is zero, the model of a dangling column pointer.
pub struct RowInfo {
    metas: Vec<TypeMetadata>,
    offsets: Vec<usize>,
}

impl RowInfo {
    /// The descriptors, in column order.
    pub closed spec fn metas_seq(&self) -> Seq<TypeMetadata> {
        self.metas@
    }

    /// The column offsets, in column order.
    pub closed spec fn offsets_seq(&self) -> Seq<usize> {
        self.offsets@
    }

    /// One offset per descriptor, identities strictly ascending, layouts
    /// usable.
    pub open spec fn wf(&self) -> bool {
        &&& self.offsets_seq().len() == self.metas_seq().len()
        &&& strictly_sorted_by_id(self.metas_seq())
        &&& metas_wf(self.metas_seq())
    }

    /// Collects descriptors in any order, sorts them by identity, and starts
    /// every column offset at zero (no allocation yet). The identities must
    /// be pairwise distinct: a row holds at most one column per type.
    #[verifier::loop_isolation(false)]
    pub fn new(type_metadata: Vec<TypeMetadata>) -> (r: Self)
        requires
            metas_wf(type_metadata@),
            distinct_ids(type_metadata@),
        ensures
            r.wf(),
            r.metas_seq().len() == type_metadata@.len(),
            r.metas_seq().to_multiset() == type_metadata@.to_multiset(),
            ids_of(r.metas_seq()).to_multiset() == ids_of(type_metadata@).to_multiset(),
            sorted_by_id(type_metadata@) ==> r.metas_seq() == type_metadata@,
            forall|c: int| 0 <= c < r.offsets_seq().len() ==> r.offsets_seq()[c] == 0,
    {
        let ghost orig = type_metadata@;
        let n: usize = type_metadata.len();
        let mut zeros: Vec<usize> = Vec::new();
        for k in 0..n
            invariant
                zeros@.len() == k,
        {
            zeros.push(0);
        }
        let (sorted, _) = sort_fields_by_id(type_metadata, zeros);
        proof {
            lemma_distinct_ids_preserved(orig, sorted@);
        }
        let m: usize = sorted.len();
        let mut offsets: Vec<usize> = Vec::new();
        for k in 0..m
            invariant
                offsets@.len() == k,
                forall|c: int| 0 <= c < k ==> offsets@[c] == 0,
        {
            offsets.push(0);
        }
        RowInfo { metas: sorted, offsets }
    }

    /// Takes descriptors already in canonical order — validated elsewhere,
    /// typically because they came out of a bundle — and skips the sort.
    #[verifier::loop_isolation(false)]
    pub fn new_unchecked(type_metadata: Vec<TypeMetadata>) -> (r: Self)
        requires
            metas_wf(type_metadata@),
            strictly_sorted_by_id(type_metadata@),
        ensures
            r.wf(),
            r.metas_seq() == type_metadata@,
            forall|c: int| 0 <= c < r.offsets_seq().len() ==> r.offsets_seq()[c] == 0,
    {
        let n: usize = type_metadata.len();
        let mut offsets: Vec<usize> = Vec::new();
        for k in 0..n
            invariant
                offsets@.len() == k,
                forall|c: int| 0 <= c < k ==> offsets@[c] == 0,
        {
            offsets.push(0);
        }
        RowInfo { metas: type_metadata, offsets }
    }

    /// How many columns the row describes.
    pub fn len(&self) -> (r: usize)
        ensures
            r == self.metas_seq().len(),
    {
        self.metas.len()
    }

    /// Binary search by identity token: the entry of the column holding that
    /// type, or `None` when no column does.
    pub fn search_dynamic(&self, type_id: u64) -> (r: Option<(TypeMetadata, usize)>)
        requires
            self.wf(),
        ensures
            match r {
                Some(p) => exists|i: int|
                    0 <= i < self.metas_seq().len() && #[trigger] self.metas_seq()[i].id == type_id
                        && p.0 == self.metas_seq()[i] && p.1 == self.offsets_seq()[i],
                None => forall|i: int|
                    0 <= i < self.metas_seq().len() ==> (#[trigger] self.metas_seq()[i]).id != type_id,
            },
    {
        let mut lo: usize = 0;
        let mut hi: usize = self.metas.len();
        while lo < hi
            invariant
                self.wf(),
                lo <= hi <= self.metas_seq().len(),
                forall|i: int| 0 <= i < lo ==> (#[trigger] self.metas_seq()[i]).id < type_id,
                forall|i: int|
                    hi <= i < self.metas_seq().len() ==> (#[trigger] self.metas_seq()[i]).id > type_id,
            decreases hi - lo,
        {
            let mid: usize = lo + (hi - lo) / 2;
            let m: TypeMetadata = self.metas[mid];
            if m.id == type_id {
                return Some((m, self.offsets[mid]));
            } else if m.id < type_id {
                lo = mid + 1;
            } else {
                hi = mid;
            }
        }
        None
    }

    /// Binary search by a descriptor's identity.
    pub fn search(&self, meta: &TypeMetadata) -> (r: Option<(TypeMetadata, usize)>)
        requires
            self.wf(),
        ensures
            match r {
                Some(p) => exists|i: int|
                    0 <= i < self.metas_seq().len() && #[trigger] self.metas_seq()[i].id == meta.id
                        && p.0 == self.metas_seq()[i] && p.1 == self.offsets_seq()[i],
                None => forall|i: int|
                    0 <= i < self.metas_seq().len() ==> (#[trigger] self.metas_seq()[i]).id != meta.id,
            },
    {
        self.search_dynamic(meta.id)
    }
}

/// Capacity after growing by at least `min_additional` rows: the current
/// capacity doubles unless the request asks for more (amortized doubling).
pub open spec fn grown_capacity(cap: int, min_additional: int) -> int {
    cap + if cap >= min_additional {
        cap
    } else {
        min_additional
    }
}

/// Capacity after reserving room for `total` rows: unchanged when the room
/// is already there, grown otherwise.
pub open spec fn reserved_capacity(cap: int, total: int) -> int {
    if total <= cap {
        cap
    } else {
        grown_capacity(cap, total - cap)
    }
}

/// Reserving room for `total` rows is within machine limits: the resulting
/// capacity fits a word and its backing layout is computable.
pub open spec fn can_reserve(metas: Seq<TypeMetadata>, cap: int, total: int) -> bool {
    &&& reserved_capacity(cap, total) <= usize::MAX
    &&& layout_ok(metas, reserved_capacity(cap, total))
}

/// The untyped columnar store: a capacity of row slots, sorted column
/// descriptors with their offsets, and the column contents.
pub struct RawTable<V> {
    capacity: usize,
    rows: RowInfo,
    cols: Vec<Vec<V>>,
}

impl<V> RawTable<V> {
    /// The column descriptors, in column order.
    pub closed spec fn metas(&self) -> Seq<TypeMetadata> {
        self.rows.metas_seq()
    }

    /// The column offsets, in column order.
    pub closed spec fn offsets_seq(&self) -> Seq<usize> {
        self.rows.offsets_seq()
    }

    /// How many columns the table has.
    pub open spec fn num_cols(&self) -> int {
        self.metas().len() as int
    }

    /// The contents of column `c`, oldest row first.
    pub closed spec fn col(&self, c: int) -> Seq<V> {
        self.cols@[c]@
    }

    /// How many row slots the backing region holds.
    pub closed spec fn capacity_spec(&self) -> int {
        self.capacity as int
    }

    /// Every column holds exactly `k` values.
    pub open spec fn cols_uniform_at(&self, k: int) -> bool {
        forall|c: int| 0 <= c < self.num_cols() ==> (#[trigger] self.col(c)).len() == k
    }

    /// Internal consistency: descriptors sorted and usable, one content
    /// vector per column, the current capacity's layout computable, and each
    /// column offset placed exactly where the layout puts that column.
    pub closed spec fn wf(&self) -> bool {
        &&& self.rows.wf()
        &&& self.cols@.len() == self.metas().len()
        &&& layout_ok(self.metas(), self.capacity_spec())
        &&& self.offsets_seq() == crate::layout::spec_offsets(
            self.metas(),
            self.capacity_spec(),
        )
    }

    /// A zero-capacity table over the given types; sorts and validates them.
    pub fn new(type_infos: Vec<TypeMetadata>) -> (r: Self)
        requires
            metas_wf(type_infos@),
            distinct_ids(type_infos@),
        ensures
            r.wf(),
            r.capacity_spec() == 0,
            r.cols_uniform_at(0),
            r.metas().len() == type_infos@.len(),
            r.metas().to_multiset() == type_infos@.to_multiset(),
            ids_of(r.metas()).to_multiset() == ids_of(type_infos@).to_multiset(),
            sorted_by_id(type_infos@) ==> r.metas() == type_infos@,
    {
        let rows = RowInfo::new(type_infos);
        Self::from_row_info(rows)
    }

    /// A zero-capacity table over types already in canonical order.
    pub fn new_unchecked(type_infos: Vec<TypeMetadata>) -> (r: Self)
        requires
            metas_wf(type_infos@),
            strictly_sorted_by_id(type_infos@),
        ensures
            r.wf(),
            r.capacity_spec() == 0,
            r.cols_uniform_at(0),
            r.metas() == type_infos@,
    {
        let rows = RowInfo::new_unchecked(type_infos);
        Self::from_row_info(rows)
    }

    /// Wraps validated descriptors in an empty store.
    #[verifier::loop_isolation(false)]
    fn from_row_info(rows: RowInfo) -> (r: Self)
        requires
            rows.wf(),
            forall|c: int| 0 <= c < rows.offsets_seq().len() ==> rows.offsets_seq()[c] == 0,
        ensures
            r.wf(),
            r.capacity_spec() == 0,
            r.cols_uniform_at(0),
            r.metas() == rows.metas_seq(),
    {
        proof {
            lemma_layout_zero_cap(rows.metas_seq());
            assert(rows.offsets_seq() =~= crate::layout::spec_offsets(rows.metas_seq(), 0));
        }
        let n: usize = rows.len();
        let mut cols: Vec<Vec<V>> = Vec::new();
        for c in 0..n
            invariant
                cols@.len() == c,
                forall|k: int| 0 <= k < c ==> (#[trigger] cols@[k])@.len() == 0,
        {
            cols.push(Vec::new());
        }
        RawTable { capacity: 0, rows, cols }
    }

    /// Ensures the backing region holds at least `total_capacity` row slots,
    /// growing if it does not.
    pub fn reserve(&mut self, total_capacity: usize)
        requires
            old(self).wf(),
            can_reserve(old(self).metas(), old(self).capacity_spec(), total_capacity as int),
        ensures
            final(self).wf(),
            final(self).capacity_spec() == reserved_capacity(
                old(self).capacity_spec(),
                total_capacity as int,
            ),
            final(self).capacity_spec() >= total_capacity,
            final(self).capacity_spec() >= old(self).capacity_spec(),
            final(self).metas() == old(self).metas(),
            forall|c: int| 0 <= c < final(self).num_cols()
                ==> #[trigger] final(self).col(c) == old(self).col(c),
    {
        if total_capacity > self.capacity {
            let min_additional = total_capacity - self.capacity;
            self.grow(min_additional);
        }
    }

    /// Grows by at least `min_additional_capacity` row slots, doubling when
    /// the current capacity is the larger.
    pub fn grow(&mut self, min_additional_capacity: usize)
        requires
            old(self).wf(),
            grown_capacity(old(self).capacity_spec(), min_additional_capacity as int)
                <= usize::MAX,
            layout_ok(
                old(self).metas(),
                grown_capacity(old(self).capacity_spec(), min_additional_capacity as int),
            ),
        ensures
            final(self).wf(),
            final(self).capacity_spec() == grown_capacity(
                old(self).capacity_spec(),
                min_additional_capacity as int,
            ),
            final(self).metas() == old(self).metas(),
            forall|c: int| 0 <= c < final(self).num_cols()
                ==> #[trigger] final(self).col(c) == old(self).col(c),
    {
        let additional = if self.capacity >= min_additional_capacity {
            self.capacity
        } else {
            min_additional_capacity
        };
        self.grow_exact(additional);
    }

    /// Grows by exactly `additional_capacity` row slots: recomputes the
    /// layout for the new capacity and moves every column offset to its new
    /// place.
    fn grow_exact(&mut self, additional_capacity: usize)
        requires
            old(self).wf(),
            old(self).capacity_spec() + additional_capacity <= usize::MAX,
            layout_ok(old(self).metas(), old(self).capacity_spec() + additional_capacity),
        ensures
            final(self).wf(),
            final(self).capacity_spec() == old(self).capacity_spec() + additional_capacity,
            final(self).metas() == old(self).metas(),
            forall|c: int| 0 <= c < final(self).num_cols()
                ==> #[trigger] final(self).col(c) == old(self).col(c),
    {
        let new_capacity = self.capacity + additional_capacity;
        let (offsets, _total_size) = compute_layout(&self.rows.metas, new_capacity);
        proof {
            lemma_offsets_fit(self.rows.metas@, new_capacity as int);
            assert(offsets@ =~= crate::layout::spec_offsets(
                self.rows.metas@,
                new_capacity as int,
            ));
        }
        self.rows.offsets = offsets;
        self.capacity = new_capacity;
    }

    /// The identity tokens of the columns, in column order.
    #[verifier::loop_isolation(false)]
    pub fn type_ids(&self) -> (r: Vec<u64>)
        ensures
            r@ == ids_of(self.metas()),
    {
        let n: usize = self.rows.metas.len();
        let mut out: Vec<u64> = Vec::new();
        for c in 0..n
            invariant
                n == self.metas().len(),
                out@.len() == c,
                forall|k: int| 0 <= k < c ==> out@[k] == self.metas()[k].id,
        {
            out.push(self.rows.metas[c].id);
        }
        proof {
            assert(out@ =~= ids_of(self.metas()));
        }
        out
    }

    /// A copy of the column descriptors, in column order.
    #[verifier::loop_isolation(false)]
    pub fn type_metadata(&self) -> (r: Vec<TypeMetadata>)
        ensures
            r@ == self.metas(),
    {
        let n: usize = self.rows.metas.len();
        let mut out: Vec<TypeMetadata> = Vec::new();
        let mut c: usize = 0;
        while c < n
            invariant
                c <= n,
                n == self.metas().len(),
                out@.len() == c,
                forall|k: int| 0 <= k < c ==> out@[k] == self.metas()[k],
            decreases n - c,
        {
            out.push(self.rows.metas[c]);
            c += 1;
        }
        proof {
            assert(out@ =~= self.metas());
        }
        out
    }

    /// How many row slots the backing region holds.
    pub fn capacity(&self) -> (r: usize)
        ensures
            r == self.capacity_spec(),
    {
        self.capacity
    }

    /// Writes one row into slot `idx`, the first free slot of every column:
    /// one value per column, in column order.
    #[verifier::loop_isolation(false)]
    pub fn put_column(&mut self, idx: usize, values: Vec<V>)
        requires
            old(self).wf(),
            old(self).cols_uniform_at(idx as int),
            idx < old(self).capacity_spec(),
            values@.len() == old(self).num_cols(),
        ensures
            final(self).wf(),
            final(self).metas() == old(self).metas(),
            final(self).capacity_spec() == old(self).capacity_spec(),
            final(self).cols_uniform_at(idx + 1),
            forall|c: int|
                0 <= c < final(self).num_cols()
                    ==> #[trigger] final(self).col(c) == old(self).col(c).push(values@[c]),
    {
        let ghost values_view = values@;
        let n: usize = self.cols.len();
        let mut vals = values;
        let mut c: usize = 0;
        while c < n
            invariant
                c <= n,
                n == self.cols@.len(),
                self.rows == old(self).rows,
                self.capacity == old(self).capacity,
                self.wf(),
                vals@ =~= values_view.subrange(c as int, n as int),
                forall|k: int|
                    0 <= k < c ==> (#[trigger] self.cols@[k])@ == old(self).cols@[k]@.push(
                        values_view[k],
                    ),
                forall|k: int| c <= k < n ==> #[trigger] self.cols@[k] == old(self).cols@[k],
            decreases n - c,
        {
            let v = vals.remove(0);
            self.cols[c].push(v);
            c += 1;
        }
        proof {
            assert forall|k: int| 0 <= k < self.num_cols() implies #[trigger] self.col(k)
                == old(self).col(k).push(values_view[k]) by {
                assert(self.cols@[k]@ == old(self).cols@[k]@.push(values_view[k]));
            }
            assert forall|k: int| 0 <= k < self.num_cols() implies (#[trigger] self.col(k)).len()
                == idx + 1 by {
                assert(old(self).col(k).len() == idx as int);
            }
        }
    }

    /// Takes the last row out: slot `idx` must be the last filled slot of
    /// every column. Returns one value per column, in column order.
    #[verifier::loop_isolation(false)]
    pub fn take_column(&mut self, idx: usize) -> (r: Vec<V>)
        requires
            old(self).wf(),
            old(self).cols_uniform_at(idx + 1),
        ensures
            final(self).wf(),
            final(self).metas() == old(self).metas(),
            final(self).capacity_spec() == old(self).capacity_spec(),
            final(self).cols_uniform_at(idx as int),
            r@.len() == final(self).num_cols(),
            forall|c: int| 0 <= c < final(self).num_cols() ==> r@[c] == old(self).col(c)[idx as int],
            forall|c: int|
                0 <= c < final(self).num_cols()
                    ==> #[trigger] final(self).col(c) == old(self).col(c).drop_last(),
    {
        let n: usize = self.cols.len();
        let mut out: Vec<V> = Vec::new();
        let mut c: usize = 0;
        while c < n
            invariant
                c <= n,
                n == self.cols@.len(),
                self.rows == old(self).rows,
                self.capacity == old(self).capacity,
                self.wf(),
                out@.len() == c,
                forall|k: int| 0 <= k < c ==> out@[k] == old(self).cols@[k]@[idx as int],
                forall|k: int|
                    0 <= k < c ==> (#[trigger] self.cols@[k])@ == old(self).cols@[k]@.drop_last(),
                forall|k: int| c <= k < n ==> #[trigger] self.cols@[k] == old(self).cols@[k],
            decreases n - c,
        {
            proof {
                assert(old(self).col(c as int).len() == idx + 1);
            }
            let v = self.cols[c].pop().unwrap();
            out.push(v);
            c += 1;
        }
        proof {
            assert forall|k: int| 0 <= k < self.num_cols() implies #[trigger] self.col(k)
                == old(self).col(k).drop_last() by {
                assert(old(self).col(k).len() == idx + 1);
                assert(self.cols@[k]@ == old(self).cols@[k]@.drop_last());
            }
            assert forall|k: int| 0 <= k < self.num_cols() implies (#[trigger] self.col(k)).len()
                == idx as int by {
                assert(old(self).col(k).len() == idx + 1);
                assert(self.cols@[k]@ == old(self).cols@[k]@.drop_last());
            }
            assert forall|k: int| 0 <= k < self.num_cols() implies out@[k]
                == old(self).col(k)[idx as int] by {
                assert(out@[k] == old(self).cols@[k]@[idx as int]);
            }
        }
        out
    }

    /// Replaces the row in slot `idx`, handing the previous row back: one
    /// value per column in, one value per column out.
    #[verifier::loop_isolation(false)]
    pub fn replace_column(&mut self, idx: usize, values: Vec<V>) -> (r: Vec<V>)
        requires
            old(self).wf(),
            forall|c: int| 0 <= c < old(self).num_cols() ==> idx < (#[trigger] old(self).col(c)).len(),
            values@.len() == old(self).num_cols(),
        ensures
            final(self).wf(),
            final(self).metas() == old(self).metas(),
            final(self).capacity_spec() == old(self).capacity_spec(),
            r@.len() == final(self).num_cols(),
            forall|c: int| 0 <= c < final(self).num_cols() ==> r@[c] == old(self).col(c)[idx as int],
            forall|c: int|
                0 <= c < final(self).num_cols()
                    ==> #[trigger] final(self).col(c) == old(self).col(c).update(idx as int, values@[c]),
    {
        let ghost values_view = values@;
        let n: usize = self.cols.len();
        let mut vals = values;
        let mut out: Vec<V> = Vec::new();
        let mut c: usize = 0;
        while c < n
            invariant
                c <= n,
                n == self.cols@.len(),
                self.rows == old(self).rows,
                self.capacity == old(self).capacity,
                self.wf(),
                vals@ =~= values_view.subrange(c as int, n as int),
                out@.len() == c,
                forall|k: int| 0 <= k < c ==> out@[k] == old(self).cols@[k]@[idx as int],
                forall|k: int|
                    0 <= k < c
                        ==> (#[trigger] self.cols@[k])@ =~= old(self).cols@[k]@.update(
                            idx as int,
                            values_view[k],
                        ),
                forall|k: int| c <= k < n ==> #[trigger] self.cols@[k] == old(self).cols@[k],
            decreases n - c,
        {
            proof {
                assert(idx < old(self).col(c as int).len());
            }
            let v = vals.remove(0);
            self.cols[c].push(v);
            let prev = self.cols[c].swap_remove(idx);
            out.push(prev);
            c += 1;
        }
        proof {
            assert forall|k: int| 0 <= k < self.num_cols() implies #[trigger] self.col(k)
                == old(self).col(k).update(idx as int, values_view[k]) by {
                assert(idx < old(self).col(k).len());
                assert(self.cols@[k]@ =~= old(self).cols@[k]@.update(idx as int, values_view[k]));
            }
            assert forall|k: int| 0 <= k < self.num_cols() implies out@[k]
                == old(self).col(k)[idx as int] by {
                assert(out@[k] == old(self).cols@[k]@[idx as int]);
            }
        }
        out
    }

    /// Drops the row in slot `idx` of every column; later rows close the gap.
    #[verifier::loop_isolation(false)]
    pub fn drop_column(&mut self, idx: usize)
        requires
            old(self).wf(),
            forall|c: int| 0 <= c < old(self).num_cols() ==> idx < (#[trigger] old(self).col(c)).len(),
        ensures
            final(self).wf(),
            final(self).metas() == old(self).metas(),
            final(self).capacity_spec() == old(self).capacity_spec(),
            forall|c: int|
                0 <= c < final(self).num_cols()
                    ==> #[trigger] final(self).col(c) == old(self).col(c).remove(idx as int),
    {
        let n: usize = self.cols.len();
        let mut c: usize = 0;
        while c < n
            invariant
                c <= n,
                n == self.cols@.len(),
                self.rows == old(self).rows,
                self.capacity == old(self).capacity,
                self.wf(),
                forall|k: int|
                    0 <= k < c
                        ==> (#[trigger] self.cols@[k])@ == old(self).cols@[k]@.remove(idx as int),
                forall|k: int| c <= k < n ==> #[trigger] self.cols@[k] == old(self).cols@[k],
            decreases n - c,
        {
            proof {
                assert(idx < old(self).col(c as int).len());
            }
            let _dropped = self.cols[c].remove(idx);
            c += 1;
        }
        proof {
            assert forall|k: int| 0 <= k < self.num_cols() implies #[trigger] self.col(k)
                == old(self).col(k).remove(idx as int) by {
                assert(self.cols@[k]@ == old(self).cols@[k]@.remove(idx as int));
            }
        }
    }

    /// Swaps the rows in slots `idx_a` and `idx_b` of every column.
    #[verifier::loop_isolation(false)]
    pub fn swap_columns(&mut self, idx_a: usize, idx_b: usize)
        requires
            old(self).wf(),
            forall|c: int|
                0 <= c < old(self).num_cols() ==> idx_a < (#[trigger] old(self).col(c)).len(),
            forall|c: int|
                0 <= c < old(self).num_cols() ==> idx_b < (#[trigger] old(self).col(c)).len(),
        ensures
            final(self).wf(),
            final(self).metas() == old(self).metas(),
            final(self).capacity_spec() == old(self).capacity_spec(),
            forall|c: int|
                0 <= c < final(self).num_cols()
                    ==> #[trigger] final(self).col(c) == old(self).col(c).update(
                        idx_a as int,
                        old(self).col(c)[idx_b as int],
                    ).update(idx_b as int, old(self).col(c)[idx_a as int]),
    {
        if idx_a != idx_b {
            let n: usize = self.cols.len();
            let mut c: usize = 0;
            while c < n
                invariant
                    c <= n,
                    n == self.cols@.len(),
                    self.rows == old(self).rows,
                    self.capacity == old(self).capacity,
                    self.wf(),
                    forall|k: int|
                        0 <= k < c
                            ==> (#[trigger] self.cols@[k])@ == old(self).cols@[k]@.update(
                                idx_a as int,
                                old(self).cols@[k]@[idx_b as int],
                            ).update(idx_b as int, old(self).cols@[k]@[idx_a as int]),
                    forall|k: int| c <= k < n ==> #[trigger] self.cols@[k] == old(self).cols@[k],
                decreases n - c,
            {
                proof {
                    assert(idx_a < old(self).col(c as int).len());
                    assert(idx_b < old(self).col(c as int).len());
                }
                vec_swap(&mut self.cols[c], idx_a, idx_b);
                c += 1;
            }
            proof {
                assert forall|k: int| 0 <= k < self.num_cols() implies #[trigger] self.col(k)
                    == old(self).col(k).update(idx_a as int, old(self).col(k)[idx_b as int]).update(
                    idx_b as int,
                    old(self).col(k)[idx_a as int],
                ) by {
                    assert(self.cols@[k]@ == old(self).cols@[k]@.update(
                        idx_a as int,
                        old(self).cols@[k]@[idx_b as int],
                    ).update(idx_b as int, old(self).cols@[k]@[idx_a as int]));
                }
            }
        } else {
            proof {
                assert forall|c: int| 0 <= c < self.num_cols() implies #[trigger] self.col(c)
                    == old(self).col(c).update(idx_a as int, old(self).col(c)[idx_b as int]).update(
                    idx_b as int,
                    old(self).col(c)[idx_a as int],
                ) by {
                    assert(self.col(c) =~= old(self).col(c).update(
                        idx_a as int,
                        old(self).col(c)[idx_b as int],
                    ).update(idx_b as int, old(self).col(c)[idx_a as int]));
                }
            }
        }
    }

    /// Releases the backing region: every column emptied, offsets back to
    /// their unallocated state, capacity zero. Whatever the columns held is
    /// dropped here.
    #[verifier::loop_isolation(false)]
    pub fn clear(&mut self)
        requires
            old(self).wf(),
        ensures
            final(self).wf(),
            final(self).metas() == old(self).metas(),
            final(self).capacity_spec() == 0,
            final(self).cols_uniform_at(0),
    {
        let n: usize = self.cols.len();
        let mut c: usize = 0;
        while c < n
            invariant
                c <= n,
                n == self.cols@.len(),
                self.rows == old(self).rows,
                self.capacity == old(self).capacity,
                self.wf(),
                forall|k: int| 0 <= k < c ==> (#[trigger] self.cols@[k])@.len() == 0,
                forall|k: int| c <= k < n ==> #[trigger] self.cols@[k] == old(self).cols@[k],
            decreases n - c,
        {
            self.cols[c].clear();
            c += 1;
        }
        proof {
            assert forall|k: int| 0 <= k < self.num_cols() implies (#[trigger] self.col(k)).len()
                == 0 by {
                assert(self.cols@[k]@.len() == 0);
            }
        }
        let m: usize = self.rows.offsets.len();
        let mut offsets: Vec<usize> = Vec::new();
        for k in 0..m
            invariant
                offsets@.len() == k,
                forall|i: int| 0 <= i < k ==> offsets@[i] == 0,
        {
            offsets.push(0);
        }
        self.rows.offsets = offsets;
        self.capacity = 0;
        proof {
            lemma_layout_zero_cap(self.metas());
            assert(self.offsets_seq() =~= crate::layout::spec_offsets(self.metas(), 0));
        }
    }
}

/// At capacity zero the layout is trivially computable and every column
/// offset is zero: the unallocated state.
pub proof fn lemma_layout_zero_cap(metas: Seq<TypeMetadata>)
    requires
        metas_wf(metas),
    ensures
        layout_ok(metas, 0),
        forall|c: int| 0 <= c < metas.len() ==> col_offset(metas, 0, c) == 0,
{
    lemma_cols_size_zero_cap(metas);
    lemma_max_align(metas);
    assert forall|c: int| 0 <= c < metas.len() implies col_offset(metas, 0, c) == 0 by {
        assert(metas_wf(metas.take(c)));
        lemma_cols_size_zero_cap(metas.take(c));
        assert(metas[c].layout_wf());
    }
}

/// What a consistent store guarantees about its descriptors: canonical
/// order, usable layouts, and a computable layout at the current capacity.
pub proof fn lemma_raw_table_wf_facts<V>(t: &RawTable<V>)
    requires
        t.wf(),
    ensures
        strictly_sorted_by_id(t.metas()),
        sorted_by_id(t.metas()),
        metas_wf(t.metas()),
        layout_ok(t.metas(), t.capacity_spec()),
        0 <= t.capacity_spec() <= usize::MAX,
{
}

/// Alignment of the live state: in a well-formed table, element `i` of
/// column `c` sits at an offset that satisfies the column's alignment, for
/// every row index the capacity covers.
pub proof fn lemma_raw_table_alignment<V>(t: RawTable<V>, c: int, i: int)
    requires
        t.wf(),
        0 <= c < t.num_cols(),
        0 <= i < t.capacity_spec(),
    ensures
        (t.offsets_seq()[c] + i * stride_of(t.metas()[c])) % (t.metas()[c].align as int) == 0,
{
    lemma_offsets_fit(t.metas(), t.capacity_spec());
    assert(t.offsets_seq()[c] == crate::layout::spec_offsets(t.metas(), t.capacity_spec())[c]);
    assert(t.offsets_seq()[c] as int == col_offset(t.metas(), t.capacity_spec(), c));
    lemma_column_alignment(t.metas(), t.capacity_spec(), c, i);
}

/// Swaps two elements of a vector.
fn vec_swap<V>(v: &mut Vec<V>, a: usize, b: usize)
    requires
        a < old(v)@.len(),
        b < old(v)@.len(),
    ensures
        final(v)@ == old(v)@.update(a as int, old(v)@[b as int]).update(
            b as int,
            old(v)@[a as int],
        ),
{
    let ghost s = v@;
    if a == b {
        proof {
            assert(v@ =~= s.update(a as int, s[b as int]).update(b as int, s[a as int]));
        }
        return ;
    }
    let lo: usize = if a < b { a } else { b };
    let hi: usize = if a < b { b } else { a };
    let x_hi = v.remove(hi);
    let x_lo = v.remove(lo);
    v.insert(lo, x_hi);
    v.insert(hi, x_lo);
    proof {
        s.remove_ensures(hi as int);
        s.remove(hi as int).remove_ensures(lo as int);
        s.remove(hi as int).remove(lo as int).insert_ensures(lo as int, s[hi as int]);
        s.remove(hi as int).remove(lo as int).insert(lo as int, s[hi as int]).insert_ensures(
            hi as int,
            s[lo as int],
        );
        assert(v@ =~= s.update(a as int, s[b as int]).update(b as int, s[a as int]));
    }
}

/// The offsets a layout computes all fit in a machine word.
proof fn lemma_offsets_fit(metas: Seq<TypeMetadata>, cap: int)
    requires
        layout_ok(metas, cap),
    ensures
        forall|c: int| 0 <= c < metas.len() ==> 0 <= #[trigger] col_offset(metas, cap, c) <= usize::MAX,
{
    assert forall|c: int| 0 <= c < metas.len() implies 0 <= #[trigger] col_offset(metas, cap, c)
        <= usize::MAX by {
        crate::layout::lemma_cols_size_step(metas, cap, c);
        crate::layout::lemma_cols_size_prefix(metas, cap, c + 1);
        crate::layout::lemma_cols_size_nonneg(metas.take(c), cap);
        lemma_total_bytes_ge(metas, cap);
        lemma_round_up(crate::layout::cols_size(metas.take(c), cap), metas[c].align as int);
        assert(metas[c].layout_wf());
        assert(stride_of(metas[c]) * cap >= 0) by (nonlinear_arith)
            requires stride_of(metas[c]) >= 0, cap >= 0;
    }
}

} // verus!
