use std::cell::Cell;
use std::rc::Rc;

use osiris_ecs::storage::Table;
use osiris_ecs::type_data::{Bundle, TypeMetadata};

// Droopy things count how many times they have been dropped.
struct Droopy(isize, Rc<Cell<usize>>);

impl Drop for Droopy {
    fn drop(&mut self) {
        self.0 = -1;
        let c = &self.1;
        c.set(c.get() + 1);
    }
}

const DROOPY_ID: u64 = 7;

fn droopy_meta() -> TypeMetadata {
    TypeMetadata::from_raw_parts(
        DROOPY_ID,
        std::mem::size_of::<Droopy>(),
        std::mem::align_of::<Droopy>(),
    )
}

fn droopy_bundle(d: Droopy) -> Bundle<Droopy> {
    Bundle::new(vec![droopy_meta()], vec![d])
}

fn droopy_table() -> Table<Droopy> {
    Table::new(vec![droopy_meta()])
}

#[test]
fn extend_empty_table() {
    let mut sut = droopy_table();
    let data = std::array::from_fn::<_, 1000, _>(|_| Rc::new(Cell::new(0)));

    assert_eq!(sut.len(), 0);
    assert_eq!(sut.capacity(), 0);

    sut.extend(
        data.iter()
            .enumerate()
            .map(|(idx, x)| droopy_bundle(Droopy(idx as isize, x.clone())))
            .collect::<Vec<_>>(),
    );

    assert!(sut.capacity() >= 1000);
    assert_eq!(sut.len(), 1000);

    sut.clear();

    for (idx, data) in data.iter().enumerate() {
        assert_eq!(data.get(), 1, "Value at {} is false!", idx);
    }
    // Congrats, all the items were dropped! And only dropped once!
}

#[test]
fn table_no_explicit_clear() {
    let data = std::array::from_fn::<_, 1000, _>(|_| Rc::new(Cell::new(0)));
    {
        let mut sut = droopy_table();

        assert_eq!(sut.len(), 0);
        assert_eq!(sut.capacity(), 0);

        sut.extend(
            data.iter()
                .enumerate()
                .map(|(idx, x)| droopy_bundle(Droopy(idx as isize, x.clone())))
                .collect::<Vec<_>>(),
        );

        assert!(sut.capacity() >= 1000);
        assert_eq!(sut.len(), 1000);
    }

    for (idx, data) in data.iter().enumerate() {
        assert_eq!(data.get(), 1, "Value at {} is false!", idx);
    }
    // Congrats, all the items were dropped! And only dropped once!
}

#[test]
fn push_empty_table() {
    let mut sut = droopy_table();
    let data = std::array::from_fn::<_, 1000, _>(|_| Rc::new(Cell::new(0)));

    assert_eq!(sut.len(), 0);
    assert_eq!(sut.capacity(), 0);

    for item in data
        .iter()
        .enumerate()
        .map(|(idx, x)| droopy_bundle(Droopy(idx as isize, x.clone())))
    {
        sut.push(item);
    }

    assert!(sut.capacity() >= 1000);
    assert_eq!(sut.len(), 1000);

    sut.clear();

    for (idx, data) in data.iter().enumerate() {
        assert_eq!(data.get(), 1, "Value at {} is false!", idx);
    }
    // Congrats, all the items were dropped! And only dropped once!
}

#[test]
fn test_insert_at() {
    let mut sut = droopy_table();
    let data = std::array::from_fn::<_, 1000, _>(|_| Rc::new(Cell::new(0)));

    assert_eq!(sut.len(), 0);
    assert_eq!(sut.capacity(), 0);

    for item in data
        .iter()
        .enumerate()
        .take(999)
        .map(|(idx, x)| droopy_bundle(Droopy(idx as isize, x.clone())))
    {
        sut.push(item);
    }

    assert!(sut.capacity() >= 999);
    assert_eq!(sut.len(), 999);

    const DROOPSTER_IDX: usize = 999 / 2;
    let old_droopster = sut.insert_at(DROOPSTER_IDX, droopy_bundle(Droopy(999, data[999].clone())));

    drop(old_droopster);

    assert_eq!(data[DROOPSTER_IDX].get(), 1);

    sut.clear();

    for (idx, data) in data.iter().enumerate() {
        assert_eq!(data.get(), 1, "Value at {} is false!", idx);
    }
    // Congrats, all the items were dropped! And only dropped once!
}

#[test]
fn test_swap_remove() {
    let mut sut = droopy_table();
    let data = std::array::from_fn::<_, 1000, _>(|_| Rc::new(Cell::new(0)));

    assert_eq!(sut.len(), 0);
    assert_eq!(sut.capacity(), 0);

    for item in data
        .iter()
        .enumerate()
        .map(|(idx, x)| droopy_bundle(Droopy(idx as isize, x.clone())))
    {
        sut.push(item);
    }

    assert!(sut.capacity() >= 1000);
    assert_eq!(sut.len(), 1000);

    const MAX_IDX: usize = 1000 / 2;

    for droopster in 0..MAX_IDX {
        sut.swap_remove(droopster);
    }

    for (idx, data) in data.iter().take(MAX_IDX).enumerate() {
        assert_eq!(data.get(), 1, "Value at {} is false!", idx);
    }

    sut.clear();

    for (idx, data) in data.iter().enumerate() {
        assert_eq!(data.get(), 1, "Value at {} is false!", idx);
    }
    // Congrats, all the items were dropped! And only dropped once!
}

#[test]
fn test_swap_pop() {
    let mut sut = droopy_table();
    let data = std::array::from_fn::<_, 1000, _>(|_| Rc::new(Cell::new(0)));

    assert_eq!(sut.len(), 0);
    assert_eq!(sut.capacity(), 0);

    for item in data
        .iter()
        .enumerate()
        .map(|(idx, x)| droopy_bundle(Droopy(idx as isize, x.clone())))
    {
        sut.push(item);
    }

    assert!(sut.capacity() >= 1000);
    assert_eq!(sut.len(), 1000);

    const MAX_IDX: usize = 1000 / 2;

    for droopster in 0..MAX_IDX {
        let popped: Bundle<Droopy> = sut.swap_pop(droopster);
        let mut values = popped.into_values();
        let popped = values.pop().unwrap();
        assert_eq!(popped.0, droopster as isize);
        assert_eq!(popped.1.get(), 0);
    }

    for (idx, data) in data.iter().take(MAX_IDX).enumerate() {
        assert_eq!(data.get(), 1, "Value at {} is false!", idx);
    }

    sut.clear();

    for (idx, data) in data.iter().enumerate() {
        assert_eq!(data.get(), 1, "Value at {} is false!", idx);
    }
    // Congrats, all the items were dropped! And only dropped once!
}

#[test]
fn test_pop() {
    let mut sut = droopy_table();
    let data = std::array::from_fn::<_, 1000, _>(|_| Rc::new(Cell::new(0)));

    assert_eq!(sut.len(), 0);
    assert_eq!(sut.capacity(), 0);

    for item in data
        .iter()
        .enumerate()
        .map(|(idx, x)| droopy_bundle(Droopy(idx as isize, x.clone())))
    {
        sut.push(item);
    }

    assert!(sut.capacity() >= 1000);
    assert_eq!(sut.len(), 1000);

    const MIN_IDX: usize = 1000 / 2;

    for droopster in (MIN_IDX..1000).rev() {
        let popped: Bundle<Droopy> = sut.pop();
        let mut values = popped.into_values();
        let popped = values.pop().unwrap();
        assert_eq!(popped.0, droopster as isize);
        assert_eq!(popped.1.get(), 0);
    }

    for (idx, data) in data.iter().enumerate().skip(MIN_IDX) {
        assert_eq!(data.get(), 1, "Value at {} is false!", idx);
    }

    sut.clear();

    for (idx, data) in data.iter().enumerate() {
        assert_eq!(data.get(), 1, "Value at {} is false!", idx);
    }
    // Congrats, all the items were dropped! And only dropped once!
}

#[test]
fn test_remove_if() {
}
