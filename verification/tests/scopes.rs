use smart_pointers::destruction::drop_and_finalize;
use smart_pointers::destruction::CustomSmartPointer;
use smart_pointers::destruction::DestructionHook;
use smart_pointers::destruction::Scope;
use smart_pointers::indirection::deref_use;
use smart_pointers::indirection::MyBox;
use smart_pointers::shared::Store;

fn pointer(data: &str) -> CustomSmartPointer {
    CustomSmartPointer { data: String::from(data) }
}

#[test]
fn the_hook_reports_the_data() {
    assert_eq!(pointer("my stuff").finalize(), "Dropping with data `my stuff`!");
    assert_eq!(pointer("").finalize(), "Dropping with data ``!");
}

#[test]
fn a_box_is_destroyed_through_what_it_owns() {
    let boxed = MyBox::new(pointer("boxed"));
    assert_eq!(boxed.data, "boxed");
    assert_eq!(boxed.finalize(), "Dropping with data `boxed`!");
}

#[test]
fn a_scope_destroys_in_reverse_of_declaration() {
    let mut scope: Scope<CustomSmartPointer> = Scope::new();
    scope.declare(pointer("first"));
    scope.declare(pointer("second"));
    scope.declare(pointer("third"));
    assert_eq!(
        scope.close(),
        vec![
            String::from("Dropping with data `third`!"),
            String::from("Dropping with data `second`!"),
            String::from("Dropping with data `first`!"),
        ]
    );
}

#[test]
fn an_empty_scope_leaves_no_trace() {
    let scope: Scope<CustomSmartPointer> = Scope::new();
    assert_eq!(scope.close(), Vec::<String>::new());
}

#[test]
fn early_disposal_fires_at_once_and_only_once() {
    let mut scope: Scope<CustomSmartPointer> = Scope::new();
    let a = scope.declare(pointer("my stuff"));
    let b = scope.declare(pointer("other stuff"));
    assert!(scope.owns(&a));
    assert!(scope.owns(&b));
    assert_eq!(scope.dispose(a), "Dropping with data `my stuff`!");
    assert_eq!(scope.get(&b).data, "other stuff");
    assert!(scope.owns(&b));
    assert_eq!(scope.close(), vec![String::from("Dropping with data `other stuff`!")]);
}

#[test]
fn disposal_in_the_middle_keeps_the_order_of_the_rest() {
    let mut scope: Scope<CustomSmartPointer> = Scope::new();
    scope.declare(pointer("a"));
    let b = scope.declare(pointer("b"));
    scope.declare(pointer("c"));
    let d = scope.declare(pointer("d"));
    assert_eq!(scope.dispose(d), "Dropping with data `d`!");
    assert_eq!(scope.dispose(b), "Dropping with data `b`!");
    assert_eq!(
        scope.close(),
        vec![String::from("Dropping with data `c`!"), String::from("Dropping with data `a`!")]
    );
}

#[test]
fn nested_scopes_each_unwind_in_reverse() {
    let mut outer: Scope<CustomSmartPointer> = Scope::new();
    outer.declare(pointer("outer 1"));
    let mut trace: Vec<String> = Vec::new();
    {
        let mut inner: Scope<CustomSmartPointer> = Scope::new();
        inner.declare(pointer("inner 1"));
        inner.declare(pointer("inner 2"));
        {
            let mut innermost: Scope<CustomSmartPointer> = Scope::new();
            innermost.declare(pointer("innermost 1"));
            innermost.declare(pointer("innermost 2"));
            trace.extend(innermost.close());
        }
        inner.declare(pointer("inner 3"));
        trace.extend(inner.close());
    }
    outer.declare(pointer("outer 2"));
    trace.extend(outer.close());
    assert_eq!(
        trace,
        vec![
            String::from("Dropping with data `innermost 2`!"),
            String::from("Dropping with data `innermost 1`!"),
            String::from("Dropping with data `inner 3`!"),
            String::from("Dropping with data `inner 2`!"),
            String::from("Dropping with data `inner 1`!"),
            String::from("Dropping with data `outer 2`!"),
            String::from("Dropping with data `outer 1`!"),
        ]
    );
}

#[test]
fn a_scope_of_boxes_unwinds_like_a_scope_of_values() {
    let mut scope: Scope<MyBox<CustomSmartPointer>> = Scope::new();
    scope.declare(MyBox::new(pointer("one")));
    scope.declare(MyBox::new(pointer("two")));
    assert_eq!(
        scope.close(),
        vec![String::from("Dropping with data `two`!"), String::from("Dropping with data `one`!")]
    );
}

#[test]
fn a_box_gives_read_access_to_its_value() {
    let boxed = MyBox::new(5);
    assert_eq!(5, *boxed);
    let text = MyBox::new(String::from("Rust"));
    assert_eq!(text.len(), 4);
    assert_eq!(text.into_inner(), "Rust");
}

#[test]
fn deref_use_runs() {
    deref_use();
}

#[test]
fn a_shared_value_meets_its_hook_with_the_last_handle() {
    let mut store: Store<CustomSmartPointer> = Store::new();
    let first = store.new_handle(pointer("shared"));
    let second = store.clone_handle(&first);
    let third = store.clone_handle(&first);
    assert_eq!(drop_and_finalize(&mut store, second), None);
    assert_eq!(drop_and_finalize(&mut store, first), None);
    assert_eq!(store.strong_count(&third), 1);
    assert_eq!(store.get(&third).data, "shared");
    assert_eq!(
        drop_and_finalize(&mut store, third),
        Some(String::from("Dropping with data `shared`!"))
    );
    assert_eq!(store.live_cells(), 0);
}
