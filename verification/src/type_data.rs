//! Per-type erased descriptors and the bundle protocol.
//!
//! A `TypeMetadata` describes one component type: an opaque identity token,
//! which carries equality and the total order used everywhere for the
//! canonical column order, and the component's layout (size and alignment).
//! Component values themselves travel through the table as values of the
//! table's payload type, so the destructor runs wherever the value finally
//! goes out of scope.

use vstd::prelude::*;
use vstd::seq_lib::{group_to_multiset_ensures, lemma_sorted_unique};
use vstd::relations::{sorted_by, total_ordering};

verus! {

/// Erased descriptor of one component type.
///
/// Equality and ordering are defined solely on `id`; `size` and `align`
/// describe the component's layout inside a column.
#[derive(Clone, Copy, Debug)]
pub struct TypeMetadata {
    pub id: u64,
    pub size: usize,
    pub align: usize,
}

impl TypeMetadata {
    /// The layout is usable: the alignment is a nonzero power of two and the
    /// size padded up to the alignment still fits an `isize`.
    pub open spec fn layout_wf(self) -> bool {
        &&& self.align >= 1
        &&& (self.align & (self.align - 1) as usize) == 0
        &&& self.size + self.align - 1 <= isize::MAX
    }

    /// Assembles a descriptor from its parts. The caller vouches for the
    /// layout, as the allocator will be driven by it.
    pub fn from_raw_parts(id: u64, size: usize, align: usize) -> (r: Self)
        requires
            (TypeMetadata { id, size, align }).layout_wf(),
        ensures
            r == (TypeMetadata { id, size, align }),
    {
        TypeMetadata { id, size, align }
    }
}

impl PartialEq for TypeMetadata {
    /// Metadata are equal exactly when their identities are.
    fn eq(&self, other: &Self) -> (r: bool) {
        self.id == other.id
    }
}

impl vstd::std_specs::cmp::PartialEqSpecImpl for TypeMetadata {
    open spec fn obeys_eq_spec() -> bool {
        true
    }

    open spec fn eq_spec(&self, other: &Self) -> bool {
        self.id == other.id
    }
}

impl Eq for TypeMetadata {}

/// The identities of a metadata sequence, in order.
pub open spec fn ids_of(s: Seq<TypeMetadata>) -> Seq<u64> {
    s.map_values(|m: TypeMetadata| m.id)
}

/// Sorted ascending by identity, ties allowed.
pub open spec fn sorted_by_id(s: Seq<TypeMetadata>) -> bool {
    forall|i: int, j: int| 0 <= i < j < s.len() ==> s[i].id <= s[j].id
}

/// Sorted strictly ascending by identity: the canonical column order.
pub open spec fn strictly_sorted_by_id(s: Seq<TypeMetadata>) -> bool {
    forall|i: int, j: int| 0 <= i < j < s.len() ==> s[i].id < s[j].id
}

/// No two entries share an identity.
pub open spec fn distinct_ids(s: Seq<TypeMetadata>) -> bool {
    forall|i: int, j: int| 0 <= i < j < s.len() ==> s[i].id != s[j].id
}

/// The metadata/value pairs of a bundle, as one sequence.
pub open spec fn field_pairs<V>(metas: Seq<TypeMetadata>, values: Seq<V>) -> Seq<(TypeMetadata, V)> {
    Seq::new(metas.len(), |i: int| (metas[i], values[i]))
}

/// A bundle's fields are usable: one value per descriptor, descriptors in
/// canonical (sorted-by-identity) order, layouts usable.
pub open spec fn bundle_fields_wf<V>(metas: Seq<TypeMetadata>, values: Seq<V>) -> bool {
    &&& metas.len() == values.len()
    &&& sorted_by_id(metas)
    &&& crate::layout::metas_wf(metas)
}

/// The bundle protocol: something that can enter or leave a table as one row.
///
/// A bundle presents its fields in sorted-by-identity order, matching the
/// table's canonical column order, so row transfer is a lockstep walk and
/// never a search.
pub trait DynamicBundle<V>: Sized {
    /// The field descriptors, in the order the bundle presents them.
    spec fn field_metas(&self) -> Seq<TypeMetadata>;

    /// The field values, in the same order.
    spec fn field_values(&self) -> Seq<V>;

    /// The descriptors of the fields, sorted by identity.
    fn type_metadata(&self) -> (r: Vec<TypeMetadata>)
        requires
            bundle_fields_wf(self.field_metas(), self.field_values()),
        ensures
            r@ == self.field_metas(),
    ;

    /// Surrenders the fields, in sorted order; the table takes ownership.
    fn put(self) -> (r: (Vec<TypeMetadata>, Vec<V>))
        requires
            bundle_fields_wf(self.field_metas(), self.field_values()),
        ensures
            r.0@ == self.field_metas(),
            r.1@ == self.field_values(),
    ;

    /// Assembles a bundle from fields handed over in sorted order.
    fn take(metas: Vec<TypeMetadata>, values: Vec<V>) -> (r: Self)
        requires
            bundle_fields_wf(metas@, values@),
        ensures
            r.field_metas() == metas@,
            r.field_values() == values@,
    ;
}

/// The canonical bundle: a row of component values, each under its
/// descriptor, held in sorted-by-identity order.
#[derive(Clone)]
pub struct Bundle<V> {
    metas: Vec<TypeMetadata>,
    values: Vec<V>,
}

impl<V> Default for Bundle<V> {
    /// The empty bundle: no fields, the row of a table with no columns.
    fn default() -> (r: Self)
        ensures
            r.field_metas() == Seq::<TypeMetadata>::empty(),
            r.field_values() == Seq::<V>::empty(),
            bundle_fields_wf(r.field_metas(), r.field_values()),
    {
        Bundle { metas: Vec::new(), values: Vec::new() }
    }
}

impl<V> Bundle<V> {
    /// Builds a bundle from fields in any order; the constructor sorts them
    /// into the canonical order, values travelling with their descriptors.
    pub fn new(metas: Vec<TypeMetadata>, values: Vec<V>) -> (r: Bundle<V>)
        requires
            metas@.len() == values@.len(),
            crate::layout::metas_wf(metas@),
        ensures
            bundle_fields_wf(r.field_metas(), r.field_values()),
            field_pairs(r.field_metas(), r.field_values()).to_multiset()
                == field_pairs(metas@, values@).to_multiset(),
            r.field_metas().to_multiset() == metas@.to_multiset(),
            ids_of(r.field_metas()).to_multiset() == ids_of(metas@).to_multiset(),
            r.field_metas().len() == metas@.len(),
            sorted_by_id(metas@) ==> r.field_metas() == metas@ && r.field_values() == values@,
    {
        let (m, v) = sort_fields_by_id(metas, values);
        Bundle { metas: m, values: v }
    }

    /// How many fields the bundle carries.
    pub fn len(&self) -> (r: usize)
        ensures
            r == self.field_values().len(),
    {
        self.values.len()
    }

    /// Surrenders the values alone, in sorted-by-identity order.
    pub fn into_values(self) -> (r: Vec<V>)
        ensures
            r@ == self.field_values(),
    {
        self.values
    }
}

impl<V> DynamicBundle<V> for Bundle<V> {
    closed spec fn field_metas(&self) -> Seq<TypeMetadata> {
        self.metas@
    }

    closed spec fn field_values(&self) -> Seq<V> {
        self.values@
    }

    fn type_metadata(&self) -> (r: Vec<TypeMetadata>) {
        self.metas.clone()
    }

    fn put(self) -> (r: (Vec<TypeMetadata>, Vec<V>)) {
        let Bundle { metas, values } = self;
        (metas, values)
    }

    fn take(metas: Vec<TypeMetadata>, values: Vec<V>) -> (r: Self) {
        Bundle { metas, values }
    }
}

/// Removing position `i` from both halves of a field list removes the pair.
proof fn lemma_field_pairs_remove<V>(metas: Seq<TypeMetadata>, values: Seq<V>, i: int)
    requires
        metas.len() == values.len(),
        0 <= i < metas.len(),
    ensures
        field_pairs(metas.remove(i), values.remove(i)) == field_pairs(metas, values).remove(i),
        ids_of(metas.remove(i)) == ids_of(metas).remove(i),
{
    metas.remove_ensures(i);
    values.remove_ensures(i);
    field_pairs(metas, values).remove_ensures(i);
    ids_of(metas).remove_ensures(i);
    assert(field_pairs(metas.remove(i), values.remove(i))
        =~= field_pairs(metas, values).remove(i));
    assert(ids_of(metas.remove(i)) =~= ids_of(metas).remove(i));
}

/// Pushing onto both halves of a field list pushes the pair.
proof fn lemma_field_pairs_push<V>(metas: Seq<TypeMetadata>, values: Seq<V>, m: TypeMetadata, v: V)
    requires
        metas.len() == values.len(),
    ensures
        field_pairs(metas.push(m), values.push(v)) == field_pairs(metas, values).push((m, v)),
        ids_of(metas.push(m)) == ids_of(metas).push(m.id),
{
    assert(field_pairs(metas.push(m), values.push(v)) =~= field_pairs(metas, values).push((m, v)));
    assert(ids_of(metas.push(m)) =~= ids_of(metas).push(m.id));
}

/// Sorts a field list by identity: values stay with their descriptors, and
/// the multiset of pairs is untouched.
pub(crate) fn sort_fields_by_id<V>(metas: Vec<TypeMetadata>, values: Vec<V>) -> (r: (Vec<TypeMetadata>, Vec<V>))
    requires
        metas@.len() == values@.len(),
        crate::layout::metas_wf(metas@),
    ensures
        r.0@.len() == metas@.len(),
        r.1@.len() == values@.len(),
        sorted_by_id(r.0@),
        crate::layout::metas_wf(r.0@),
        field_pairs(r.0@, r.1@).to_multiset() == field_pairs(metas@, values@).to_multiset(),
        r.0@.to_multiset() == metas@.to_multiset(),
        ids_of(r.0@).to_multiset() == ids_of(metas@).to_multiset(),
        sorted_by_id(metas@) ==> r.0@ == metas@ && r.1@ == values@,
{
    broadcast use group_to_multiset_ensures;

    let ghost orig_m = metas@;
    let ghost orig_v = values@;
    let mut rem_m = metas;
    let mut rem_v = values;
    let mut out_m: Vec<TypeMetadata> = Vec::new();
    let mut out_v: Vec<V> = Vec::new();
    while rem_m.len() > 0
        invariant
            rem_m@.len() == rem_v@.len(),
            out_m@.len() == out_v@.len(),
            out_m@.len() + rem_m@.len() == orig_m.len(),
            orig_m.len() == orig_v.len(),
            sorted_by_id(out_m@),
            crate::layout::metas_wf(out_m@),
            crate::layout::metas_wf(rem_m@),
            forall|k: int, l: int|
                0 <= k < out_m@.len() && 0 <= l < rem_m@.len()
                    ==> #[trigger] out_m@[k].id <= #[trigger] rem_m@[l].id,
            field_pairs(out_m@, out_v@).to_multiset().add(
                field_pairs(rem_m@, rem_v@).to_multiset(),
            ) == field_pairs(orig_m, orig_v).to_multiset(),
            out_m@.to_multiset().add(rem_m@.to_multiset()) == orig_m.to_multiset(),
            ids_of(out_m@).to_multiset().add(ids_of(rem_m@).to_multiset())
                == ids_of(orig_m).to_multiset(),
            sorted_by_id(orig_m) ==> {
                &&& out_m@ =~= orig_m.take(out_m@.len() as int)
                &&& out_v@ =~= orig_v.take(out_v@.len() as int)
                &&& rem_m@ =~= orig_m.skip(out_m@.len() as int)
                &&& rem_v@ =~= orig_v.skip(out_v@.len() as int)
            },
        decreases rem_m@.len(),
    {
        let mut min: usize = 0;
        let mut k: usize = 1;
        while k < rem_m.len()
            invariant
                min < rem_m@.len(),
                k <= rem_m@.len(),
                forall|l: int| 0 <= l < k ==> rem_m@[min as int].id <= (#[trigger] rem_m@[l]).id,
                sorted_by_id(rem_m@) ==> min == 0,
            decreases rem_m@.len() - k,
        {
            if rem_m[k].id < rem_m[min].id {
                min = k;
            }
            k += 1;
        }
        let ghost pre_m = rem_m@;
        let ghost pre_v = rem_v@;
        let m = rem_m.remove(min);
        let v = rem_v.remove(min);
        proof {
            broadcast use vstd::multiset::group_multiset_axioms;

            lemma_field_pairs_remove(pre_m, pre_v, min as int);
            pre_m.remove_ensures(min as int);
            let p = (m, v);
            let before_pairs = field_pairs(pre_m, pre_v);
            assert(before_pairs[min as int] == p);
            vstd::seq_lib::to_multiset_remove(before_pairs, min as int);
            vstd::seq_lib::to_multiset_contains(before_pairs, p);
            assert(before_pairs.contains(p));
            assert(field_pairs(rem_m@, rem_v@).to_multiset()
                == before_pairs.to_multiset().remove(p));
            assert(ids_of(pre_m)[min as int] == m.id);
            vstd::seq_lib::to_multiset_remove(ids_of(pre_m), min as int);
            vstd::seq_lib::to_multiset_contains(ids_of(pre_m), m.id);
            assert(ids_of(pre_m).contains(m.id));
            assert(ids_of(rem_m@).to_multiset() == ids_of(pre_m).to_multiset().remove(m.id));
            vstd::seq_lib::to_multiset_remove(pre_m, min as int);
            vstd::seq_lib::to_multiset_contains(pre_m, m);
            assert(pre_m.contains(m));
            assert(rem_m@.to_multiset() == pre_m.to_multiset().remove(m));
        }
        let ghost mid_out_m = out_m@;
        let ghost mid_out_v = out_v@;
        out_m.push(m);
        out_v.push(v);
        proof {
            broadcast use vstd::multiset::group_multiset_axioms;

            lemma_field_pairs_push(mid_out_m, mid_out_v, m, v);
            let p = (m, v);
            vstd::seq_lib::to_multiset_build(field_pairs(mid_out_m, mid_out_v), p);
            vstd::seq_lib::to_multiset_build(ids_of(mid_out_m), m.id);
            vstd::seq_lib::to_multiset_build(mid_out_m, m);
            assert(field_pairs(out_m@, out_v@).to_multiset()
                == field_pairs(mid_out_m, mid_out_v).to_multiset().insert(p));
            assert(ids_of(out_m@).to_multiset() == ids_of(mid_out_m).to_multiset().insert(m.id));
            assert(field_pairs(out_m@, out_v@).to_multiset().add(
                field_pairs(rem_m@, rem_v@).to_multiset(),
            ) =~= field_pairs(orig_m, orig_v).to_multiset());
            assert(out_m@.to_multiset().add(rem_m@.to_multiset()) =~= orig_m.to_multiset());
            assert(ids_of(out_m@).to_multiset().add(ids_of(rem_m@).to_multiset())
                =~= ids_of(orig_m).to_multiset());
        }
    }
    proof {
        broadcast use vstd::multiset::group_multiset_axioms;

        assert(field_pairs(rem_m@, rem_v@) =~= Seq::<(TypeMetadata, V)>::empty());
        assert(ids_of(rem_m@) =~= Seq::<u64>::empty());
        assert(rem_m@ =~= Seq::<TypeMetadata>::empty());
        Seq::<(TypeMetadata, V)>::empty().to_multiset_ensures();
        Seq::<u64>::empty().to_multiset_ensures();
        Seq::<TypeMetadata>::empty().to_multiset_ensures();
        assert(field_pairs(out_m@, out_v@).to_multiset()
            =~= field_pairs(orig_m, orig_v).to_multiset());
        assert(out_m@.to_multiset() =~= orig_m.to_multiset());
        assert(ids_of(out_m@).to_multiset() =~= ids_of(orig_m).to_multiset());
    }
    (out_m, out_v)
}

/// Identity order is a total order on the tokens.
pub open spec fn id_le(a: u64, b: u64) -> bool {
    a <= b
}

/// Canonicalization is unique: two sorted metadata sequences carrying the
/// same multiset of identities carry them in the same order. This is why a
/// table built from one arrangement of a bundle's fields accepts every
/// other arrangement of the same fields.
pub proof fn lemma_sorted_ids_unique(s1: Seq<TypeMetadata>, s2: Seq<TypeMetadata>)
    requires
        sorted_by_id(s1),
        sorted_by_id(s2),
        ids_of(s1).to_multiset() == ids_of(s2).to_multiset(),
    ensures
        ids_of(s1) == ids_of(s2),
{
    let leq = |a: u64, b: u64| a <= b;
    assert(total_ordering(leq));
    assert(sorted_by(ids_of(s1), leq));
    assert(sorted_by(ids_of(s2), leq));
    lemma_sorted_unique(ids_of(s1), ids_of(s2), leq);
    assert(ids_of(s1) =~= ids_of(s2));
}

/// Distinctness of identities survives any permutation: carried over from
/// one sequence to another with the same multiset of identities.
pub proof fn lemma_distinct_ids_preserved(s1: Seq<TypeMetadata>, s2: Seq<TypeMetadata>)
    requires
        distinct_ids(s1),
        ids_of(s1).to_multiset() == ids_of(s2).to_multiset(),
    ensures
        distinct_ids(s2),
{
    assert(ids_of(s1).no_duplicates());
    ids_of(s1).lemma_multiset_has_no_duplicates();
    ids_of(s2).lemma_multiset_has_no_duplicates_conv();
    assert forall|i: int, j: int| 0 <= i < j < s2.len() implies s2[i].id != s2[j].id by {
        assert(ids_of(s2)[i] == s2[i].id);
        assert(ids_of(s2)[j] == s2[j].id);
    }
}

} // verus!
