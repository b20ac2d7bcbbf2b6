use osiris_ecs::raw_table::{RawTable, RowInfo};
use osiris_ecs::storage::Table;
use osiris_ecs::type_data::{Bundle, TypeMetadata};

fn meta(id: u64, size: usize, align: usize) -> TypeMetadata {
    TypeMetadata::from_raw_parts(id, size, align)
}

fn word_meta(id: u64) -> TypeMetadata {
    meta(id, 4, 4)
}

fn pair_table() -> Table<u32> {
    Table::new(vec![word_meta(1), word_meta(2)])
}

fn pop_values(t: &mut Table<u32>) -> Vec<u32> {
    let b: Bundle<u32> = t.pop();
    b.into_values()
}

#[test]
fn round_trip_push_pop() {
    let mut t = pair_table();
    t.push(Bundle::new(vec![word_meta(1), word_meta(2)], vec![10, 20]));
    let values = pop_values(&mut t);
    assert_eq!(values, vec![10, 20]);
    assert_eq!(t.len(), 0);
}

#[test]
fn bundle_fields_sort_by_identity() {
    // The same fields handed over in the other order land in the same
    // columns: the constructor sorts them, values travelling along.
    let mut t = pair_table();
    t.push(Bundle::new(vec![word_meta(2), word_meta(1)], vec![20, 10]));
    let values = pop_values(&mut t);
    assert_eq!(values, vec![10, 20]);
}

#[test]
fn compatibility_of_permutations() {
    let t = pair_table();
    let straight = Bundle::new(vec![word_meta(1), word_meta(2)], vec![0u32, 0]);
    let permuted = Bundle::new(vec![word_meta(2), word_meta(1)], vec![0u32, 0]);
    let shorter = Bundle::new(vec![word_meta(1)], vec![0u32]);
    let other = Bundle::new(vec![word_meta(1), word_meta(3)], vec![0u32, 0]);
    assert!(t.is_bundle_compatible(&straight));
    assert!(t.is_bundle_compatible(&permuted));
    assert!(!t.is_bundle_compatible(&shorter));
    assert!(!t.is_bundle_compatible(&other));
}

#[test]
fn swap_pop_brings_last_row_in() {
    let mut t = Table::new(vec![word_meta(1)]);
    for x in [1u32, 2, 3] {
        t.push(Bundle::new(vec![word_meta(1)], vec![x]));
    }
    let popped: Bundle<u32> = t.swap_pop(0);
    assert_eq!(popped.into_values(), vec![1]);
    assert_eq!(t.len(), 2);
    // The former last row moved into slot 0: popping now yields 2, then 3.
    assert_eq!(pop_values(&mut t), vec![2]);
    assert_eq!(pop_values(&mut t), vec![3]);
}

#[test]
fn extend_matches_single_pushes() {
    let rows = [(1u32, 9u32), (2, 8), (3, 7)];
    let mut by_extend = pair_table();
    by_extend.extend(
        rows.iter()
            .map(|&(a, b)| Bundle::new(vec![word_meta(1), word_meta(2)], vec![a, b]))
            .collect::<Vec<_>>(),
    );
    let mut by_push = pair_table();
    for &(a, b) in rows.iter() {
        by_push.push(Bundle::new(vec![word_meta(1), word_meta(2)], vec![a, b]));
    }
    assert_eq!(by_extend.len(), by_push.len());
    for _ in 0..rows.len() {
        assert_eq!(pop_values(&mut by_extend), pop_values(&mut by_push));
    }
}

#[test]
fn erase_closes_the_gap() {
    let mut t = Table::new(vec![word_meta(1)]);
    for x in 0..10u32 {
        t.push(Bundle::new(vec![word_meta(1)], vec![x]));
    }
    t.erase(3, 4);
    assert_eq!(t.len(), 6);
    for expected in [9u32, 8, 7, 2, 1, 0] {
        assert_eq!(pop_values(&mut t), vec![expected]);
    }
}

#[test]
fn cardinality_of_each_operation() {
    let mut t = Table::new(vec![word_meta(1)]);
    let one = |x: u32| Bundle::new(vec![word_meta(1)], vec![x]);
    t.push(one(5));
    assert_eq!(t.len(), 1);
    t.push(one(6));
    assert_eq!(t.len(), 2);
    let _b: Bundle<u32> = t.pop();
    assert_eq!(t.len(), 1);
    t.push(one(7));
    let _b: Bundle<u32> = t.swap_pop(0);
    assert_eq!(t.len(), 1);
    t.swap_remove(0);
    assert_eq!(t.len(), 0);
    assert!(t.empty());
    t.push(one(8));
    t.clear();
    assert_eq!(t.len(), 0);
    assert_eq!(t.capacity(), 0);
}

#[test]
fn capacity_never_shrinks_except_clear() {
    let mut t = Table::new(vec![word_meta(1)]);
    assert_eq!(t.capacity(), 0);
    t.push(Bundle::new(vec![word_meta(1)], vec![1u32]));
    // Growth doubles, starting from the requested one slot.
    assert_eq!(t.capacity(), 1);
    t.push(Bundle::new(vec![word_meta(1)], vec![2u32]));
    assert_eq!(t.capacity(), 2);
    t.push(Bundle::new(vec![word_meta(1)], vec![3u32]));
    assert_eq!(t.capacity(), 4);
    t.reserve(3);
    assert_eq!(t.capacity(), 4);
    t.reserve(9);
    assert_eq!(t.capacity(), 9);
    let _b: Bundle<u32> = t.pop();
    assert_eq!(t.capacity(), 9);
    t.clear();
    assert_eq!(t.capacity(), 0);
}

#[test]
fn insert_at_replaces_in_place() {
    let mut t = Table::new(vec![word_meta(1)]);
    for x in [10u32, 11, 12] {
        t.push(Bundle::new(vec![word_meta(1)], vec![x]));
    }
    let prev: Bundle<u32> = t.insert_at(1, Bundle::new(vec![word_meta(1)], vec![99]));
    assert_eq!(prev.into_values(), vec![11]);
    assert_eq!(t.len(), 3);
    assert_eq!(pop_values(&mut t), vec![12]);
    assert_eq!(pop_values(&mut t), vec![99]);
    assert_eq!(pop_values(&mut t), vec![10]);
}

#[test]
fn from_fn_and_from_iter_fill_in_order() {
    let mut t: Table<u32> = Table::from_fn(5, |i: usize| {
        Bundle::new(vec![word_meta(1)], vec![(i as u32) * 2])
    });
    assert_eq!(t.len(), 5);
    for expected in [8u32, 6, 4, 2, 0] {
        assert_eq!(pop_values(&mut t), vec![expected]);
    }

    let mut t2: Table<u32> = Table::from_iter(vec![
        Bundle::new(vec![word_meta(1)], vec![3u32]),
        Bundle::new(vec![word_meta(1)], vec![4u32]),
    ]);
    assert_eq!(t2.len(), 2);
    assert_eq!(pop_values(&mut t2), vec![4]);
    assert_eq!(pop_values(&mut t2), vec![3]);

    let empty: Table<u32> = Table::from_iter(Vec::<Bundle<u32>>::new());
    assert_eq!(empty.len(), 0);
}

#[test]
fn extend_cloned_and_default() {
    let mut t = Table::new(vec![word_meta(1)]);
    t.extend_cloned(3, Bundle::new(vec![word_meta(1)], vec![42u32]));
    assert_eq!(t.len(), 3);
    for _ in 0..3 {
        assert_eq!(pop_values(&mut t), vec![42]);
    }

    // The default bundle carries no fields: it fits the table of no columns.
    let mut bare: Table<u32> = Table::new(Vec::new());
    bare.extend_default::<Bundle<u32>>(4);
    assert_eq!(bare.len(), 4);
    let row: Bundle<u32> = bare.pop();
    assert_eq!(row.len(), 0);
}

#[test]
fn extend_from_fn_fills_in_order() {
    let mut t = Table::new(vec![word_meta(1)]);
    t.push(Bundle::new(vec![word_meta(1)], vec![100u32]));
    t.extend_from_fn(3, |i: usize| Bundle::new(vec![word_meta(1)], vec![i as u32]));
    assert_eq!(t.len(), 4);
    for expected in [2u32, 1, 0, 100] {
        assert_eq!(pop_values(&mut t), vec![expected]);
    }
}

#[test]
fn row_info_sorts_and_searches() {
    let info = RowInfo::new(vec![word_meta(5), word_meta(3), word_meta(9)]);
    assert_eq!(info.len(), 3);
    let found = info.search_dynamic(3).unwrap();
    assert_eq!(found.0.id, 3);
    assert_eq!(found.1, 0);
    let found = info.search(&word_meta(9)).unwrap();
    assert_eq!(found.0.id, 9);
    assert!(info.search_dynamic(4).is_none());
}

#[test]
fn raw_table_growth_policy() {
    let mut rt: RawTable<u32> = RawTable::new(vec![word_meta(2), word_meta(1)]);
    assert_eq!(rt.capacity(), 0);
    assert_eq!(rt.type_ids(), vec![1, 2]);
    rt.reserve(10);
    assert_eq!(rt.capacity(), 10);
    rt.reserve(7);
    assert_eq!(rt.capacity(), 10);
    rt.grow(1);
    assert_eq!(rt.capacity(), 20);
    rt.grow(30);
    assert_eq!(rt.capacity(), 50);
    rt.clear();
    assert_eq!(rt.capacity(), 0);
}

#[test]
fn mixed_layout_round_trip() {
    // Columns of unequal size and alignment: one byte-sized, one word-sized.
    let metas = vec![meta(1, 1, 1), meta(2, 4, 4)];
    let mut t: Table<u64> = Table::new(metas.clone());
    t.push(Bundle::new(metas.clone(), vec![7u64, 8u64]));
    t.push(Bundle::new(metas, vec![9u64, 10u64]));
    assert_eq!(t.len(), 2);
    let b: Bundle<u64> = t.pop();
    assert_eq!(b.into_values(), vec![9, 10]);
}
