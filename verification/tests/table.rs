use roshambo::moves::RPS;
use roshambo::table::{copy_window, same_window, Table};

use RPS::{Paper, Rock, Scissors};

#[test]
fn same_window_compares_move_by_move() {
    assert!(same_window(&vec![], &vec![]));
    assert!(same_window(&vec![Rock, Paper], &vec![Rock, Paper]));
    assert!(!same_window(&vec![Rock, Paper], &vec![Paper, Rock]));
    assert!(!same_window(&vec![Rock, Paper], &vec![Rock, Scissors]));
    assert!(!same_window(&vec![Rock, Paper], &vec![Rock]));
    assert!(!same_window(&vec![Rock], &vec![Rock, Paper]));
    assert!(!same_window(&vec![], &vec![Scissors]));
}

#[test]
fn copy_window_copies_every_move() {
    assert_eq!(copy_window(&vec![]), Vec::<RPS>::new());
    assert_eq!(copy_window(&vec![Scissors, Rock, Rock, Paper]), vec![Scissors, Rock, Rock, Paper]);
}

#[test]
fn new_table_counts_nothing() {
    let table = Table::new();
    assert_eq!(table.get(&vec![Rock]), 0);
    assert_eq!(table.get(&vec![]), 0);
    assert!(table.entries().is_empty());
}

#[test]
fn increment_counts_a_window_once_more() {
    let mut table = Table::new();
    table.increment(vec![Rock, Paper]);
    assert_eq!(table.get(&vec![Rock, Paper]), 1);
    table.increment(vec![Rock, Paper]);
    assert_eq!(table.get(&vec![Rock, Paper]), 2);
    table.increment(vec![Rock, Paper]);
    assert_eq!(table.get(&vec![Rock, Paper]), 3);
}

#[test]
fn increment_leaves_other_windows_alone() {
    let mut table = Table::new();
    table.increment(vec![Rock, Paper]);
    table.increment(vec![Paper, Rock]);
    table.increment(vec![Rock, Paper]);
    assert_eq!(table.get(&vec![Rock, Paper]), 2);
    assert_eq!(table.get(&vec![Paper, Rock]), 1);
    assert_eq!(table.get(&vec![Rock, Rock]), 0);
    assert_eq!(table.get(&vec![Rock]), 0);
    assert_eq!(table.get(&vec![Rock, Paper, Rock]), 0);
}

#[test]
fn entries_list_each_counted_window_once() {
    let mut table = Table::new();
    table.increment(vec![Scissors]);
    table.increment(vec![Rock]);
    table.increment(vec![Scissors]);
    table.increment(vec![Scissors]);
    let mut entries = table.entries();
    entries.sort_by_key(|entry| entry.1);
    assert_eq!(entries, vec![(vec![Rock], 1), (vec![Scissors], 3)]);
}

#[test]
fn the_empty_window_can_be_counted() {
    let mut table = Table::new();
    table.increment(vec![]);
    table.increment(vec![]);
    assert_eq!(table.get(&vec![]), 2);
    assert_eq!(table.entries(), vec![(vec![], 2)]);
}
