//! Layout algebra for the columnar allocation.
//!
//! The backing buffer of a table is one allocation holding a concatenation of
//! column arrays, in column order. Each column array holds `capacity`
//! elements of that column's layout, the element size padded to the element
//! alignment, and each column array starts at an offset padded to its own
//! alignment; the whole allocation is finally padded to the largest
//! alignment. The functions here compute those offsets and sizes, and the
//! lemmas show that every element of every column lands on an address that
//! satisfies the column's alignment.

use vstd::prelude::*;
use vstd::arithmetic::div_mod::{lemma_fundamental_div_mod, lemma_mod_multiples_basic};
use crate::type_data::TypeMetadata;

verus! {

/// `x` rounded up to the next multiple of `a`.
pub open spec fn round_up(x: int, a: int) -> int
    recommends
        a >= 1,
        x >= 0,
{
    if x % a == 0 {
        x
    } else {
        x + a - x % a
    }
}

/// Distance between two consecutive elements of a column: the element size
/// padded to the element alignment.
pub open spec fn stride_of(m: TypeMetadata) -> int {
    round_up(m.size as int, m.align as int)
}

/// Bytes taken by the column arrays of `metas`, at `cap` rows each: the fold
/// that pads the running size to each column's alignment and then adds that
/// column's array.
pub open spec fn cols_size(metas: Seq<TypeMetadata>, cap: int) -> int
    decreases metas.len(),
{
    if metas.len() == 0 {
        0
    } else {
        round_up(cols_size(metas.drop_last(), cap), metas.last().align as int)
            + stride_of(metas.last()) * cap
    }
}

/// Offset of column `c`'s array within the allocation.
pub open spec fn col_offset(metas: Seq<TypeMetadata>, cap: int, c: int) -> int
    recommends
        0 <= c < metas.len(),
{
    round_up(cols_size(metas.take(c), cap), metas[c].align as int)
}

/// Alignment of the whole allocation: the largest column alignment.
pub open spec fn max_align(metas: Seq<TypeMetadata>) -> int
    decreases metas.len(),
{
    if metas.len() == 0 {
        1
    } else if max_align(metas.drop_last()) >= metas.last().align as int {
        max_align(metas.drop_last())
    } else {
        metas.last().align as int
    }
}

/// Size of the whole allocation: the column arrays, padded to the overall
/// alignment.
pub open spec fn total_bytes(metas: Seq<TypeMetadata>, cap: int) -> int {
    round_up(cols_size(metas, cap), max_align(metas))
}

/// The offsets of all column arrays, as one sequence.
pub open spec fn spec_offsets(metas: Seq<TypeMetadata>, cap: int) -> Seq<usize> {
    Seq::new(metas.len(), |c: int| col_offset(metas, cap, c) as usize)
}

/// Every descriptor in `metas` has a usable layout.
pub open spec fn metas_wf(metas: Seq<TypeMetadata>) -> bool {
    forall|i: int| 0 <= i < metas.len() ==> (#[trigger] metas[i]).layout_wf()
}

/// The allocation for `metas` at `cap` rows is computable: the layouts are
/// usable and the total size stays below `isize::MAX`, as the allocator
/// demands.
pub open spec fn layout_ok(metas: Seq<TypeMetadata>, cap: int) -> bool {
    &&& metas_wf(metas)
    &&& cap >= 0
    &&& total_bytes(metas, cap) <= isize::MAX
}

/// Rounding up lands on a multiple of `a`, moves by less than `a`, and never
/// moves down.
pub proof fn lemma_round_up(x: int, a: int)
    requires
        a >= 1,
        x >= 0,
    ensures
        round_up(x, a) % a == 0,
        x <= round_up(x, a) < x + a,
{
    let r = x % a;
    lemma_fundamental_div_mod(x, a);
    if r != 0 {
        assert(x + a - r == a * (x / a + 1)) by (nonlinear_arith)
            requires x == a * (x / a) + r;
        lemma_mod_multiples_basic(x / a + 1, a);
    }
}

/// At capacity zero no column takes any room: every offset is zero.
pub proof fn lemma_cols_size_zero_cap(metas: Seq<TypeMetadata>)
    requires
        metas_wf(metas),
    ensures
        cols_size(metas, 0) == 0,
    decreases metas.len(),
{
    if metas.len() > 0 {
        assert(metas.drop_last() =~= metas.take(metas.len() - 1));
        lemma_cols_size_zero_cap(metas.drop_last());
        let m = metas.last();
        assert(m.layout_wf());
        assert(stride_of(m) * 0 == 0);
    }
}

/// The column-array fold never shrinks, so every partial size is nonnegative.
pub proof fn lemma_cols_size_nonneg(metas: Seq<TypeMetadata>, cap: int)
    requires
        metas_wf(metas),
        cap >= 0,
    ensures
        cols_size(metas, cap) >= 0,
    decreases metas.len(),
{
    if metas.len() > 0 {
        assert(metas.drop_last() =~= metas.take(metas.len() - 1));
        lemma_cols_size_nonneg(metas.drop_last(), cap);
        let m = metas.last();
        assert(m.layout_wf());
        lemma_round_up(cols_size(metas.drop_last(), cap), m.align as int);
        lemma_round_up(m.size as int, m.align as int);
        assert(stride_of(m) * cap >= 0) by (nonlinear_arith)
            requires stride_of(m) >= 0, cap >= 0;
    }
}

/// One step of the fold: adding column `c` pads the running size to `c`'s
/// alignment and then adds `c`'s array.
pub proof fn lemma_cols_size_step(metas: Seq<TypeMetadata>, cap: int, c: int)
    requires
        0 <= c < metas.len(),
    ensures
        cols_size(metas.take(c + 1), cap) == col_offset(metas, cap, c) + stride_of(metas[c]) * cap,
        max_align(metas.take(c + 1)) == if max_align(metas.take(c)) >= metas[c].align as int {
            max_align(metas.take(c))
        } else {
            metas[c].align as int
        },
{
    assert(metas.take(c + 1).drop_last() =~= metas.take(c));
    assert(metas.take(c + 1).last() == metas[c]);
}

/// Prefixes of the fold never exceed the full fold.
pub proof fn lemma_cols_size_prefix(metas: Seq<TypeMetadata>, cap: int, c: int)
    requires
        metas_wf(metas),
        cap >= 0,
        0 <= c <= metas.len(),
    ensures
        cols_size(metas.take(c), cap) <= cols_size(metas, cap),
    decreases metas.len() - c,
{
    if c == metas.len() {
        assert(metas.take(c) =~= metas);
    } else {
        lemma_cols_size_prefix(metas, cap, c + 1);
        lemma_cols_size_step(metas, cap, c);
        let m = metas[c];
        assert(m.layout_wf());
        lemma_cols_size_nonneg(metas.take(c), cap);
        lemma_round_up(cols_size(metas.take(c), cap), m.align as int);
        lemma_round_up(m.size as int, m.align as int);
        assert(stride_of(m) * cap >= 0) by (nonlinear_arith)
            requires stride_of(m) >= 0, cap >= 0;
    }
}

/// The overall alignment is positive and at least every column's alignment.
pub proof fn lemma_max_align(metas: Seq<TypeMetadata>)
    ensures
        max_align(metas) >= 1,
        forall|i: int| 0 <= i < metas.len() ==> max_align(metas) >= (#[trigger] metas[i]).align as int,
    decreases metas.len(),
{
    if metas.len() > 0 {
        lemma_max_align(metas.drop_last());
        assert(forall|i: int| 0 <= i < metas.len() - 1 ==> metas.drop_last()[i] == metas[i]);
    }
}

/// Padding the fold to the overall alignment never shrinks it.
pub proof fn lemma_total_bytes_ge(metas: Seq<TypeMetadata>, cap: int)
    requires
        metas_wf(metas),
        cap >= 0,
    ensures
        total_bytes(metas, cap) >= cols_size(metas, cap) >= 0,
{
    lemma_cols_size_nonneg(metas, cap);
    lemma_max_align(metas);
    lemma_round_up(cols_size(metas, cap), max_align(metas));
}

/// Column alignment: every element of every column starts at an offset that
/// is a multiple of the column's alignment. Element `i` of column `c` lives
/// `i` strides past the column's base offset; the base offset is padded to
/// the column's alignment and the stride is a multiple of it.
pub proof fn lemma_column_alignment(metas: Seq<TypeMetadata>, cap: int, c: int, i: int)
    requires
        metas_wf(metas),
        cap >= 0,
        0 <= c < metas.len(),
        0 <= i < cap,
    ensures
        (col_offset(metas, cap, c) + i * stride_of(metas[c])) % (metas[c].align as int) == 0,
{
    let a = metas[c].align as int;
    let o = col_offset(metas, cap, c);
    let s = stride_of(metas[c]);
    assert(metas[c].layout_wf());
    lemma_cols_size_nonneg(metas.take(c), cap);
    lemma_round_up(cols_size(metas.take(c), cap), a);
    lemma_round_up(metas[c].size as int, a);
    lemma_fundamental_div_mod(o, a);
    lemma_fundamental_div_mod(s, a);
    assert(o + i * s == (o / a + i * (s / a)) * a) by (nonlinear_arith)
        requires o == a * (o / a), s == a * (s / a);
    lemma_mod_multiples_basic(o / a + i * (s / a), a);
}

/// `x` rounded up to the next multiple of `a`, on machine words.
pub(crate) fn round_up_exec(x: usize, a: usize) -> (r: usize)
    requires
        a >= 1,
        round_up(x as int, a as int) <= usize::MAX,
    ensures
        r == round_up(x as int, a as int),
{
    let rem: usize = x % a;
    if rem == 0 {
        x
    } else {
        x + (a - rem)
    }
}

/// Offsets of all column arrays and the total allocation size for `metas` at
/// `cap` rows. This is the layout walk of a growth operation: fold the
/// column array layouts in column order, then pad to the overall alignment.
pub(crate) fn compute_layout(metas: &Vec<TypeMetadata>, cap: usize) -> (r: (Vec<usize>, usize))
    requires
        layout_ok(metas@, cap as int),
    ensures
        r.0@.len() == metas@.len(),
        forall|c: int| 0 <= c < metas@.len() ==> r.0@[c] == col_offset(metas@, cap as int, c),
        r.1 == total_bytes(metas@, cap as int),
{
    let ghost gcap: int = cap as int;
    let mut offsets: Vec<usize> = Vec::new();
    let mut size: usize = 0;
    let mut align: usize = 1;
    let n: usize = metas.len();
    proof {
        assert(metas@.take(0) =~= Seq::<TypeMetadata>::empty());
    }
    for c in 0..n
        invariant
            n == metas@.len(),
            layout_ok(metas@, gcap),
            gcap == cap as int,
            offsets@.len() == c,
            forall|k: int| 0 <= k < c ==> offsets@[k] == col_offset(metas@, gcap, k),
            size == cols_size(metas@.take(c as int), gcap),
            align == max_align(metas@.take(c as int)),
    {
        let m: TypeMetadata = metas[c];
        proof {
            assert(m.layout_wf());
            lemma_cols_size_step(metas@, gcap, c as int);
            lemma_cols_size_prefix(metas@, gcap, c as int);
            lemma_cols_size_prefix(metas@, gcap, c + 1);
            lemma_cols_size_nonneg(metas@.take(c as int), gcap);
            lemma_total_bytes_ge(metas@, gcap);
            lemma_round_up(size as int, m.align as int);
            lemma_round_up(m.size as int, m.align as int);
            assert(stride_of(m) * gcap >= 0) by (nonlinear_arith)
                requires stride_of(m) >= 0, gcap >= 0;
        }
        let offset: usize = round_up_exec(size, m.align);
        let stride: usize = round_up_exec(m.size, m.align);
        offsets.push(offset);
        size = offset + stride * cap;
        if m.align > align {
            align = m.align;
        }
    }
    proof {
        assert(metas@.take(n as int) =~= metas@);
        lemma_total_bytes_ge(metas@, gcap);
    }
    let total: usize = round_up_exec(size, align);
    (offsets, total)
}

} // verus!
