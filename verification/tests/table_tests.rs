use bp_emulator::{BranchHistoryTable, Counter};

#[test]
fn empty_table_reads_the_default_everywhere() {
    let table = BranchHistoryTable::new();
    for index in [0usize, 1, 7, 1024, usize::MAX] {
        assert_eq!(table.counter_at(index).value(), 2);
    }
}

#[test]
fn lookup_fills_an_absent_slot_with_the_default() {
    let mut table = BranchHistoryTable::new();
    let (counter, present) = table.lookup_or_default(5);
    assert_eq!(counter.value(), 2);
    assert!(!present);
    let (counter, present) = table.lookup_or_default(5);
    assert_eq!(counter.value(), 2);
    assert!(present);
}

#[test]
fn reading_does_not_fill_a_slot() {
    let mut table = BranchHistoryTable::new();
    assert_eq!(table.counter_at(3).value(), 2);
    let all = table.iterate_all(2);
    assert_eq!(all.len(), 4);
    let (_, present) = table.lookup_or_default(3);
    assert!(!present);
}

#[test]
fn store_overwrites_the_slot() {
    let mut table = BranchHistoryTable::new();
    let mut counter = Counter::new();
    counter.decrement();
    counter.decrement();
    table.store(9, counter);
    assert_eq!(table.counter_at(9).value(), 0);
    let (found, present) = table.lookup_or_default(9);
    assert_eq!(found.value(), 0);
    assert!(present);
    let mut other = Counter::new();
    other.increment();
    table.store(9, other);
    assert_eq!(table.counter_at(9).value(), 3);
    assert_eq!(table.counter_at(8).value(), 2);
}

#[test]
fn train_predicts_from_the_old_counter_and_stores_the_new() {
    let mut table = BranchHistoryTable::new();
    assert!(table.train(1, true));
    assert_eq!(table.counter_at(1).value(), 3);
    assert!(table.train(1, false));
    assert_eq!(table.counter_at(1).value(), 2);
    assert!(table.train(1, false));
    assert_eq!(table.counter_at(1).value(), 1);
    assert!(!table.train(1, false));
    assert_eq!(table.counter_at(1).value(), 0);
    assert!(!table.train(1, true));
    assert_eq!(table.counter_at(1).value(), 1);
    assert_eq!(table.counter_at(0).value(), 2);
}

#[test]
fn iterate_all_lists_every_slot_in_ascending_order() {
    let mut table = BranchHistoryTable::new();
    table.train(2, true);
    table.train(5, false);
    table.train(5, false);
    let all = table.iterate_all(3);
    let listed: Vec<(usize, u8)> = all.iter().map(|slot| (slot.0, slot.1.value())).collect();
    assert_eq!(
        listed,
        vec![(0, 2), (1, 2), (2, 3), (3, 2), (4, 2), (5, 0), (6, 2), (7, 2)]
    );
}

#[test]
fn iterate_all_of_no_bits_is_one_slot() {
    let table = BranchHistoryTable::new();
    let all = table.iterate_all(0);
    assert_eq!(all.len(), 1);
    assert_eq!(all[0].0, 0);
    assert_eq!(all[0].1.value(), 2);
}
