use smart_pointers::chain::release;
use smart_pointers::chain::share;
use smart_pointers::list::cons;
use smart_pointers::list::discard;
use smart_pointers::list::nil;
use smart_pointers::list::use_rc_create_cons;
use smart_pointers::list::List;
use smart_pointers::shared::Store;

#[test]
fn new_handle_starts_with_count_one() {
    let mut store: Store<u32> = Store::new();
    let h = store.new_handle(7);
    assert_eq!(store.strong_count(&h), 1);
    assert_eq!(*store.get(&h), 7);
    assert_eq!(store.len(), 1);
    assert_eq!(h.cell(), 0);
    assert!(store.contains(&h));
}

#[test]
fn each_new_handle_gets_a_cell_of_its_own() {
    let mut store: Store<u32> = Store::new();
    let first = store.new_handle(1);
    let second = store.new_handle(2);
    assert_eq!(first.cell(), 0);
    assert_eq!(second.cell(), 1);
    assert!(!first.same_cell(&second));
    assert_eq!(store.strong_count(&first), 1);
    assert_eq!(store.strong_count(&second), 1);
    assert_eq!(*store.get(&first), 1);
    assert_eq!(*store.get(&second), 2);
}

#[test]
fn clone_adds_one_and_drop_takes_one() {
    let mut store: Store<u32> = Store::new();
    let h = store.new_handle(7);
    let h2 = store.clone_handle(&h);
    assert_eq!(store.strong_count(&h), 2);
    let h3 = store.clone_handle(&h2);
    assert_eq!(store.strong_count(&h), 3);
    assert!(h.same_cell(&h3));
    assert_eq!(store.len(), 1);
    assert_eq!(store.drop_handle(h3), None);
    assert_eq!(store.strong_count(&h), 2);
    assert_eq!(store.drop_handle(h2), None);
    assert_eq!(store.strong_count(&h), 1);
}

#[test]
fn every_handle_reads_the_same_payload() {
    let mut store: Store<String> = Store::new();
    let h = store.new_handle(String::from("shared"));
    let h2 = store.clone_handle(&h);
    assert_eq!(store.get(&h).as_str(), "shared");
    assert_eq!(store.get(&h2).as_str(), "shared");
    assert!(std::ptr::eq(store.get(&h), store.get(&h2)));
}

#[test]
fn payload_is_destroyed_with_the_last_handle_only() {
    let mut store: Store<String> = Store::new();
    let h = store.new_handle(String::from("payload"));
    let h2 = store.clone_handle(&h);
    let cell = h.cell();
    assert_eq!(store.drop_handle(h), None);
    assert_eq!(store.count_at(cell), 1);
    assert_eq!(store.live_cells(), 1);
    assert_eq!(store.drop_handle(h2), Some(String::from("payload")));
    assert_eq!(store.count_at(cell), 0);
    assert_eq!(store.live_cells(), 0);
    assert_eq!(store.len(), 1);
}

#[test]
fn a_destroyed_cell_is_not_used_again() {
    let mut store: Store<u32> = Store::new();
    let h = store.new_handle(1);
    assert_eq!(store.drop_handle(h), Some(1));
    let again = store.new_handle(2);
    assert_eq!(again.cell(), 1);
    assert_eq!(store.count_at(0), 0);
    assert_eq!(store.count_at(1), 1);
    assert_eq!(store.live_cells(), 1);
}

#[test]
fn immutable_list_shares_its_tail() {
    let mut store: Store<List> = Store::new();
    let end = nil(&mut store);
    let t = cons(&mut store, 10, end);
    assert_eq!(store.strong_count(&t), 1);

    let t_for_a = share(&mut store, &t);
    let a = cons(&mut store, 5, t_for_a);
    assert_eq!(store.strong_count(&t), 2);

    let t_for_b = share(&mut store, &t);
    let b = cons(&mut store, 3, t_for_b);
    assert_eq!(store.strong_count(&t), 3);

    assert_eq!(store.get(&a).values(&store, 10), vec![5, 10]);
    assert_eq!(store.get(&b).values(&store, 10), vec![3, 10]);
    assert_eq!(store.len(), 4);

    assert_eq!(release(&mut store, a), 1);
    assert_eq!(store.strong_count(&t), 2);
    assert_eq!(release(&mut store, b), 1);
    assert_eq!(store.strong_count(&t), 1);
    assert_eq!(store.live_cells(), 2);
}

#[test]
fn lists_held_outside_the_store_share_a_tail_too() {
    let mut store: Store<List> = Store::new();
    let end = nil(&mut store);
    let t = cons(&mut store, 10, end);

    let t_for_a = share(&mut store, &t);
    let a = List::Cons(5, t_for_a);
    let t_for_b = share(&mut store, &t);
    let b = List::Cons(3, t_for_b);
    assert_eq!(store.strong_count(&t), 3);
    assert_eq!(a.head(), Some(5));
    assert_eq!(b.head(), Some(3));
    assert!(a.tail().is_some());
    assert_eq!(a.values(&store, 10), vec![5, 10]);
    assert_eq!(b.values(&store, 10), vec![3, 10]);

    assert_eq!(discard(&mut store, a), 0);
    assert_eq!(discard(&mut store, b), 0);
    assert_eq!(store.strong_count(&t), 1);
}

#[test]
fn dropping_the_last_handle_destroys_the_whole_chain() {
    let mut store: Store<List> = Store::new();
    let end = nil(&mut store);
    let ten = cons(&mut store, 10, end);
    let five = cons(&mut store, 5, ten);
    assert_eq!(store.live_cells(), 3);
    assert_eq!(release(&mut store, five), 3);
    assert_eq!(store.live_cells(), 0);
    assert_eq!(store.count_at(0), 0);
    assert_eq!(store.count_at(1), 0);
    assert_eq!(store.count_at(2), 0);
}

#[test]
fn a_chain_is_destroyed_down_to_the_first_shared_node() {
    let mut store: Store<List> = Store::new();
    let end = nil(&mut store);
    let ten = cons(&mut store, 10, end);
    let keep = share(&mut store, &ten);
    let five = cons(&mut store, 5, ten);
    let three = cons(&mut store, 3, five);
    assert_eq!(release(&mut store, three), 2);
    assert_eq!(store.strong_count(&keep), 1);
    assert_eq!(store.get(&keep).values(&store, 10), vec![10]);
    assert_eq!(store.live_cells(), 2);
}

#[test]
fn a_walk_stops_at_its_limit() {
    let mut store: Store<List> = Store::new();
    let end = nil(&mut store);
    let ten = cons(&mut store, 10, end);
    let five = cons(&mut store, 5, ten);
    let three = cons(&mut store, 3, five);
    assert_eq!(store.get(&three).values(&store, 0), Vec::<i32>::new());
    assert_eq!(store.get(&three).values(&store, 2), vec![3, 5]);
    assert_eq!(store.get(&three).values(&store, 3), vec![3, 5, 10]);
    assert_eq!(store.get(&three).values(&store, 9), vec![3, 5, 10]);
    assert_eq!(List::Nil.values(&store, 9), Vec::<i32>::new());
    assert_eq!(List::Nil.head(), None);
    assert!(List::Nil.tail().is_none());
}

#[test]
fn sharing_report_counts() {
    let report = use_rc_create_cons();
    assert_eq!(report.after_a, 1);
    assert_eq!(report.after_b, 2);
    assert_eq!(report.after_c, 3);
    assert_eq!(report.after_drop_c, 2);
    assert_eq!(report.b, vec![3, 5, 10]);
}
