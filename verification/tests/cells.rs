use smart_pointers::cell::interior_mutability;
use smart_pointers::cell::BorrowError;
use smart_pointers::cell::BorrowState;
use smart_pointers::cell::Cell;
use smart_pointers::shared::Store;

#[test]
fn a_new_cell_is_unborrowed() {
    let cell = Cell::new(5);
    assert_eq!(cell.borrow_state(), BorrowState::Unborrowed);
    assert_eq!(*cell.peek(), 5);
    assert_eq!(cell.into_inner(), 5);
}

#[test]
fn two_shared_borrows_are_both_granted() {
    let mut cell = Cell::new(5);
    let first = cell.try_borrow();
    assert!(first.is_ok());
    assert_eq!(cell.borrow_state(), BorrowState::SharedBorrowed(1));
    let second = cell.try_borrow();
    assert!(second.is_ok());
    assert_eq!(cell.borrow_state(), BorrowState::SharedBorrowed(2));
    let first = first.ok().unwrap();
    let second = second.ok().unwrap();
    assert_eq!(*cell.get(&first), 5);
    assert_eq!(*cell.get(&second), 5);
    cell.release(first);
    assert_eq!(cell.borrow_state(), BorrowState::SharedBorrowed(1));
    cell.release(second);
    assert_eq!(cell.borrow_state(), BorrowState::Unborrowed);
}

#[test]
fn exclusive_borrow_is_refused_while_a_shared_guard_is_out() {
    let mut cell = Cell::new(5);
    let reader = cell.borrow();
    assert_eq!(cell.try_borrow_mut().err(), Some(BorrowError::SharedOutstanding));
    assert_eq!(cell.borrow_state(), BorrowState::SharedBorrowed(1));
    assert_eq!(*cell.get(&reader), 5);
    cell.release(reader);
    assert!(cell.try_borrow_mut().is_ok());
}

#[test]
fn shared_borrow_is_refused_while_the_exclusive_guard_is_out() {
    let mut cell = Cell::new(5);
    let writer = cell.borrow_mut();
    assert_eq!(cell.borrow_state(), BorrowState::ExclusiveBorrowed);
    assert_eq!(cell.try_borrow().err(), Some(BorrowError::ExclusiveOutstanding));
    assert_eq!(cell.borrow_state(), BorrowState::ExclusiveBorrowed);
    assert_eq!(*cell.get_exclusive(&writer), 5);
    cell.release_mut(writer);
    assert!(cell.try_borrow().is_ok());
}

#[test]
fn a_second_exclusive_borrow_is_refused() {
    let mut cell = Cell::new(5);
    let writer = cell.try_borrow_mut().ok().unwrap();
    assert_eq!(cell.try_borrow_mut().err(), Some(BorrowError::ExclusiveOutstanding));
    assert_eq!(cell.borrow_state(), BorrowState::ExclusiveBorrowed);
    cell.release_mut(writer);
    assert_eq!(cell.borrow_state(), BorrowState::Unborrowed);
}

#[test]
fn a_refused_borrow_changes_nothing() {
    let mut cell = Cell::new(String::from("kept"));
    let writer = cell.borrow_mut();
    assert!(cell.try_borrow().is_err());
    assert!(cell.try_borrow_mut().is_err());
    assert_eq!(cell.get_exclusive(&writer).as_str(), "kept");
    cell.release_mut(writer);
    assert_eq!(cell.borrow_state(), BorrowState::Unborrowed);
    assert_eq!(cell.into_inner(), "kept");
}

#[test]
fn a_write_under_the_exclusive_guard_is_seen_afterwards() {
    let mut cell = Cell::new(5);
    let writer = cell.borrow_mut();
    assert_eq!(cell.set(&writer, 15), 5);
    assert_eq!(*cell.get_exclusive(&writer), 15);
    cell.release_mut(writer);
    let reader = cell.borrow();
    assert_eq!(*cell.get(&reader), 15);
    cell.release(reader);
    assert_eq!(cell.into_inner(), 15);
}

#[test]
fn borrow_and_release_cycles_change_nothing() {
    let mut cell = Cell::new(42);
    for _ in 0..100 {
        let guard = cell.borrow();
        assert_eq!(*cell.get(&guard), 42);
        cell.release(guard);
        assert_eq!(cell.borrow_state(), BorrowState::Unborrowed);
    }
    for _ in 0..100 {
        let guard = cell.try_borrow().ok().unwrap();
        cell.release(guard);
    }
    for _ in 0..100 {
        let guard = cell.borrow_mut();
        cell.release_mut(guard);
        assert_eq!(cell.borrow_state(), BorrowState::Unborrowed);
    }
    assert_eq!(cell.borrow_state(), BorrowState::Unborrowed);
    assert_eq!(cell.into_inner(), 42);
}

#[test]
fn shared_guards_may_be_released_in_any_order() {
    let mut cell = Cell::new(1);
    let a = cell.borrow();
    let b = cell.borrow();
    let c = cell.borrow();
    assert_eq!(cell.borrow_state(), BorrowState::SharedBorrowed(3));
    cell.release(b);
    assert_eq!(cell.borrow_state(), BorrowState::SharedBorrowed(2));
    cell.release(a);
    assert_eq!(cell.borrow_state(), BorrowState::SharedBorrowed(1));
    assert!(cell.try_borrow_mut().is_err());
    cell.release(c);
    assert_eq!(cell.borrow_state(), BorrowState::Unborrowed);
    assert!(cell.try_borrow_mut().is_ok());
}

#[test]
fn interior_mutability_runs() {
    interior_mutability();
}

#[test]
fn a_shared_cell_can_be_changed_through_any_handle() {
    let mut store: Store<Cell<i32>> = Store::new();
    let value = store.new_cell(5);
    let other = store.share_cell(&value);
    assert_eq!(store.strong_count_at(&value), 2);
    assert_eq!(store.borrow_state_at(&value), BorrowState::Unborrowed);

    let writer = store.borrow_mut_at(&other);
    assert_eq!(store.borrow_state_at(&value), BorrowState::ExclusiveBorrowed);
    assert_eq!(*store.read_exclusive_at(&other, &writer), 5);
    assert_eq!(store.write_at(&other, &writer, 15), 5);
    store.release_mut_at(&other, writer);

    let reader = store.borrow_at(&value);
    assert_eq!(*store.read_at(&value, &reader), 15);
    assert_eq!(store.borrow_state_at(&other), BorrowState::SharedBorrowed(1));
    store.release_at(&value, reader);
    assert_eq!(store.borrow_state_at(&other), BorrowState::Unborrowed);

    assert_eq!(store.drop_cell(other), None);
    assert_eq!(store.strong_count_at(&value), 1);
    assert_eq!(store.drop_cell(value), Some(15));
    assert_eq!(store.live_cells(), 0);
}

#[test]
fn the_borrow_rule_holds_behind_handles() {
    let mut store: Store<Cell<i32>> = Store::new();
    let value = store.new_cell(5);
    let other = store.share_cell(&value);

    let reader = store.try_borrow_at(&value).ok().unwrap();
    let second = store.try_borrow_at(&other).ok().unwrap();
    assert_eq!(store.borrow_state_at(&value), BorrowState::SharedBorrowed(2));
    assert_eq!(store.try_borrow_mut_at(&other).err(), Some(BorrowError::SharedOutstanding));
    store.release_at(&other, second);
    store.release_at(&value, reader);

    let writer = store.try_borrow_mut_at(&value).ok().unwrap();
    assert_eq!(store.try_borrow_at(&other).err(), Some(BorrowError::ExclusiveOutstanding));
    assert_eq!(store.try_borrow_mut_at(&other).err(), Some(BorrowError::ExclusiveOutstanding));
    store.release_mut_at(&value, writer);
    assert_eq!(store.borrow_state_at(&other), BorrowState::Unborrowed);
}
