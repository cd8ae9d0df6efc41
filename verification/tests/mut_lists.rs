use smart_pointers::mut_list::multi_owners_mutable_data;
use smart_pointers::mut_list::MutHeap;
use smart_pointers::mut_list::MutList;

#[test]
fn a_change_to_a_shared_value_shows_in_every_list() {
    let mut heap = MutHeap::new();

    let value = heap.new_value(5);
    let value_for_a = heap.share_value(&value);
    let end = heap.nil();
    let a = heap.cons(value_for_a, end);

    let six = heap.new_value(6);
    let a_for_b = heap.share(&a);
    let b = MutList::MutCons(six, a_for_b);
    let seven = heap.new_value(7);
    let a_for_c = heap.share(&a);
    let c = MutList::MutCons(seven, a_for_c);

    assert_eq!(heap.values_from(heap.get(&a), 5), vec![5]);
    assert_eq!(heap.values_from(&b, 5), vec![6, 5]);
    assert_eq!(heap.values_from(&c, 5), vec![7, 5]);

    heap.add_to(&value, 10);

    assert_eq!(heap.read_value(&value), 15);
    assert_eq!(heap.values_from(heap.get(&a), 5), vec![15]);
    assert_eq!(heap.values_from(&b, 5), vec![6, 15]);
    assert_eq!(heap.values_from(&c, 5), vec![7, 15]);
    assert_eq!(heap.values_from(&b, 1), vec![6]);
    assert_eq!(heap.values_from(&b, 0), Vec::<i32>::new());
    assert_eq!(heap.value_owners(&value), 2);
    assert_eq!(heap.owners(&a), 3);
    assert!(b.value().is_some());
    assert!(b.tail().is_some());
    assert!(MutList::Nil.value().is_none());
    assert!(MutList::Nil.tail().is_none());
    assert_eq!(heap.values_from(&MutList::Nil, 5), Vec::<i32>::new());
}

#[test]
fn add_to_adds_exactly() {
    let mut heap = MutHeap::new();
    let value = heap.new_value(-3);
    heap.add_to(&value, 10);
    assert_eq!(heap.read_value(&value), 7);
    heap.add_to(&value, -7);
    assert_eq!(heap.read_value(&value), 0);
    heap.add_to(&value, i32::MAX);
    assert_eq!(heap.read_value(&value), i32::MAX);
}

#[test]
fn a_value_is_destroyed_with_its_last_owner() {
    let mut heap = MutHeap::new();
    let value = heap.new_value(9);
    let other = heap.share_value(&value);
    assert_eq!(heap.value_owners(&value), 2);
    assert_eq!(heap.drop_value(other), None);
    assert_eq!(heap.value_owners(&value), 1);
    assert_eq!(heap.live_values(), 1);
    assert_eq!(heap.drop_value(value), Some(9));
    assert_eq!(heap.live_values(), 0);
}

#[test]
fn a_destroyed_node_gives_up_its_value_and_its_link() {
    let mut heap = MutHeap::new();
    let shared = heap.new_value(1);
    let shared_for_list = heap.share_value(&shared);
    let own = heap.new_value(2);
    let end = heap.nil();
    let second = heap.cons(shared_for_list, end);
    let first = heap.cons(own, second);
    assert_eq!(heap.values_from(heap.get(&first), 5), vec![2, 1]);
    assert_eq!(heap.live_nodes(), 3);
    assert_eq!(heap.live_values(), 2);
    assert_eq!(heap.value_owners(&shared), 2);

    assert_eq!(heap.release(first), 3);
    assert_eq!(heap.live_nodes(), 0);
    assert_eq!(heap.live_values(), 1);
    assert_eq!(heap.value_owners(&shared), 1);
    assert_eq!(heap.read_value(&shared), 1);
    assert_eq!(heap.drop_value(shared), Some(1));
    assert_eq!(heap.live_values(), 0);
}

#[test]
fn a_shared_node_survives_the_lists_in_front_of_it() {
    let mut heap = MutHeap::new();
    let five = heap.new_value(5);
    let end = heap.nil();
    let a = heap.cons(five, end);
    let six = heap.new_value(6);
    let a_for_b = heap.share(&a);
    let b = heap.cons(six, a_for_b);
    let seven = heap.new_value(7);
    let a_for_c = heap.share(&a);
    let c = heap.cons(seven, a_for_c);
    assert_eq!(heap.owners(&a), 3);
    assert_eq!(heap.values_from(heap.get(&c), 5), vec![7, 5]);

    assert_eq!(heap.release(b), 1);
    assert_eq!(heap.owners(&a), 2);
    assert_eq!(heap.live_values(), 2);
    assert_eq!(heap.release(c), 1);
    assert_eq!(heap.owners(&a), 1);
    assert_eq!(heap.live_values(), 1);
    assert_eq!(heap.values_from(heap.get(&a), 5), vec![5]);
    assert_eq!(heap.release(a), 2);
    assert_eq!(heap.live_nodes(), 0);
    assert_eq!(heap.live_values(), 0);
}

#[test]
fn mutation_report() {
    let report = multi_owners_mutable_data();
    assert_eq!(report.a, vec![15]);
    assert_eq!(report.b, vec![6, 15]);
    assert_eq!(report.c, vec![7, 15]);
    assert_eq!(report.value_owners, 2);
    assert_eq!(report.a_owners, 3);
}
