use smart_pointers::chain::release;
use smart_pointers::chain::share;
use smart_pointers::cycle::cons;
use smart_pointers::cycle::cycle_reference;
use smart_pointers::cycle::nil;
use smart_pointers::cycle::set_tail;
use smart_pointers::cycle::values;
use smart_pointers::cycle::CycList;
use smart_pointers::shared::Store;

#[test]
fn closing_a_cycle_leaves_both_counts_at_two() {
    let mut store: Store<CycList> = Store::new();
    let end = nil(&mut store);
    let a = cons(&mut store, 5, end);
    assert_eq!(store.strong_count(&a), 1);
    assert_eq!(store.get(&a).head(), Some(5));
    assert!(store.get(&a).tail().is_some());

    let a_for_b = share(&mut store, &a);
    let b = cons(&mut store, 10, a_for_b);
    assert_eq!(store.strong_count(&a), 2);
    assert_eq!(store.strong_count(&b), 1);

    let b_for_a = share(&mut store, &b);
    let old_end = set_tail(&mut store, &a, b_for_a);
    assert_eq!(store.strong_count(&b), 2);
    assert_eq!(store.strong_count(&a), 2);
    assert_eq!(release(&mut store, old_end), 1);

    for _ in 0..50 {
        assert_eq!(values(&store, &a, 6), vec![5, 10, 5, 10, 5, 10]);
        assert_eq!(values(&store, &b, 3), vec![10, 5, 10]);
        assert!(store.strong_count(&a) >= 2);
        assert!(store.strong_count(&b) >= 2);
    }
    assert_eq!(store.strong_count(&a), 2);
    assert_eq!(store.strong_count(&b), 2);
}

#[test]
fn a_cycle_outlives_every_outside_handle() {
    let mut store: Store<CycList> = Store::new();
    let end = nil(&mut store);
    let a = cons(&mut store, 5, end);
    let a_for_b = share(&mut store, &a);
    let b = cons(&mut store, 10, a_for_b);
    let b_for_a = share(&mut store, &b);
    let old_end = set_tail(&mut store, &a, b_for_a);
    assert_eq!(release(&mut store, old_end), 1);

    let a_cell = a.cell();
    let b_cell = b.cell();
    assert_eq!(release(&mut store, a), 0);
    assert_eq!(release(&mut store, b), 0);
    assert_eq!(store.count_at(a_cell), 1);
    assert_eq!(store.count_at(b_cell), 1);
    assert_eq!(store.live_cells(), 2);
}

#[test]
fn without_a_cycle_the_nodes_are_destroyed() {
    let mut store: Store<CycList> = Store::new();
    let end = nil(&mut store);
    let a = cons(&mut store, 5, end);
    let a_for_b = share(&mut store, &a);
    let b = cons(&mut store, 10, a_for_b);
    assert_eq!(values(&store, &b, 6), vec![10, 5]);
    assert_eq!(release(&mut store, a), 0);
    assert_eq!(release(&mut store, b), 3);
    assert_eq!(store.live_cells(), 0);
}

#[test]
fn set_tail_hands_back_the_link_it_replaces() {
    let mut store: Store<CycList> = Store::new();
    let end = nil(&mut store);
    let a = cons(&mut store, 1, end);
    let other_end = nil(&mut store);
    let b = cons(&mut store, 2, other_end);
    let b_for_a = share(&mut store, &b);
    let previous = set_tail(&mut store, &a, b_for_a);
    assert_eq!(previous.cell(), 0);
    assert_eq!(store.strong_count(&previous), 1);
    assert_eq!(store.get(&previous).head(), None);
    assert!(store.get(&previous).tail().is_none());
    assert_eq!(values(&store, &a, 5), vec![1, 2]);
    assert_eq!(store.strong_count(&b), 2);
    assert_eq!(release(&mut store, previous), 1);
    assert_eq!(release(&mut store, b), 0);
    assert_eq!(release(&mut store, a), 3);
    assert_eq!(store.live_cells(), 0);
}

#[test]
fn a_node_may_link_to_itself() {
    let mut store: Store<CycList> = Store::new();
    let end = nil(&mut store);
    let a = cons(&mut store, 7, end);
    let a_again = share(&mut store, &a);
    let old_end = set_tail(&mut store, &a, a_again);
    assert_eq!(release(&mut store, old_end), 1);
    assert_eq!(store.strong_count(&a), 2);
    assert_eq!(values(&store, &a, 4), vec![7, 7, 7, 7]);
    let cell = a.cell();
    assert_eq!(release(&mut store, a), 0);
    assert_eq!(store.count_at(cell), 1);
    assert_eq!(store.live_cells(), 1);
}

#[test]
fn cycle_report() {
    let report = cycle_reference();
    assert_eq!(report.a_initial, 1);
    assert_eq!(report.a_after_b, 2);
    assert_eq!(report.b_initial, 1);
    assert_eq!(report.b_after_cycle, 2);
    assert_eq!(report.a_after_cycle, 2);
    assert_eq!(report.walk, vec![5, 10, 5, 10]);
    assert_eq!(report.a_leaked, 1);
    assert_eq!(report.b_leaked, 1);
    assert_eq!(report.cells_left, 2);
}
