//! A box that owns exactly one value and hands out read access to it.

use vstd::prelude::*;

verus! {

/// Sole owner of one value of type `T`.
///
/// The box adds no bookkeeping: its model is the value itself.
pub struct MyBox<T>(T);

impl<T> View for MyBox<T> {
    type V = T;

    closed spec fn view(&self) -> T {
        self.0
    }
}

impl<T> MyBox<T> {
    /// Takes ownership of `x`.
    pub fn new(x: T) -> (b: MyBox<T>)
        ensures
            b@ == x,
    {
        MyBox(x)
    }

    /// Gives the owned value back and ends the box.
    pub fn into_inner(self) -> (x: T)
        ensures
            x == self@,
    {
        self.0
    }
}

impl<T> std::ops::Deref for MyBox<T> {
    type Target = T;

    /// Read access to the owned value, without copying it.
    fn deref(&self) -> (r: &T)
        ensures
            *r == self@,
    {
        &self.0
    }
}

/// Reads one integer through a plain reference, a standard box and a
/// `MyBox`: all three dereference to the value they were made from.
pub fn deref_use() {
    let x: i32 = 5;
    let y = &x;
    assert(x == *y);

    let y_box = Box::new(x);
    assert(x == *y_box);

    let z_mybox = MyBox::new(x);
    let z: i32 = *z_mybox;
    assert(5 == z);
}

} // verus!
