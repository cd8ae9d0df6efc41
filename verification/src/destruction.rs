//! Destruction hooks, and scopes that fire them in a fixed order.
//!
//! A type attaches a hook by implementing [`DestructionHook`].  The hook
//! takes the value by value, so it runs at most once for each value.  A
//! [`Scope`] owns the values declared in it.  A value can be disposed of
//! early, and the hook fires at that point; the values that are left when
//! the scope closes are destroyed last declared first.

use vstd::prelude::*;
use crate::indirection::MyBox;
use crate::shared::Handle;
use crate::shared::Store;

verus! {

/// A finalizer that runs when an owner gives its value up for good.
pub trait DestructionHook: Sized {
    /// The line that the destruction of this value leaves in the trace.
    spec fn farewell(&self) -> Seq<char>;

    /// Destroys the value and returns its line for the trace.
    fn finalize(self) -> (line: String)
        ensures
            line@ == self.farewell(),
    ;
}

/// A value that reports its own destruction.
#[derive(Debug)]
pub struct CustomSmartPointer {
    pub data: String,
}

impl DestructionHook for CustomSmartPointer {
    open spec fn farewell(&self) -> Seq<char> {
        "Dropping with data `"@ + self.data@ + "`!"@
    }

    fn finalize(self) -> (line: String) {
        String::from_str("Dropping with data `").concat(self.data.as_str()).concat("`!")
    }
}

/// A box is destroyed by destroying what it owns.
impl<T: DestructionHook> DestructionHook for MyBox<T> {
    open spec fn farewell(&self) -> Seq<char> {
        self@.farewell()
    }

    fn finalize(self) -> (line: String) {
        self.into_inner().finalize()
    }
}

/// The right to one value declared in a [`Scope`]; its model is the
/// position of the declaration.  It is spent by [`Scope::dispose`].
pub struct Owner {
    slot: usize,
}

impl View for Owner {
    type V = int;

    closed spec fn view(&self) -> int {
        self.slot as int
    }
}

/// The lines of a trace as plain text.
pub open spec fn texts(lines: Seq<String>) -> Seq<Seq<char>> {
    Seq::new(lines.len(), |i: int| lines[i]@)
}

/// The farewells of the values that a scope still owns, in the order in
/// which the values were declared.
pub open spec fn farewells<T: DestructionHook>(slots: Seq<Option<T>>) -> Seq<Seq<char>>
    decreases slots.len(),
{
    if slots.len() == 0 {
        Seq::empty()
    } else {
        farewells(slots.drop_last()) + (match slots.last() {
            Some(value) => seq![value.farewell()],
            None => Seq::empty(),
        })
    }
}

/// The trace that closing a scope leaves: the value declared last goes
/// first, then the rest of the scope in the same way.
pub open spec fn unwound<T: DestructionHook>(slots: Seq<Option<T>>) -> Seq<Seq<char>>
    decreases slots.len(),
{
    if slots.len() == 0 {
        Seq::empty()
    } else {
        (match slots.last() {
            Some(value) => seq![value.farewell()],
            None => Seq::empty(),
        }) + unwound(slots.drop_last())
    }
}

/// The number of values that a scope still owns.
pub open spec fn owned<T>(slots: Seq<Option<T>>) -> nat
    decreases slots.len(),
{
    if slots.len() == 0 {
        0
    } else {
        owned(slots.drop_last()) + if slots.last().is_some() {
            1nat
        } else {
            0nat
        }
    }
}

/// Owner of the values declared in it, in the order of their declaration.
/// A position whose value was disposed of early stays behind, empty.
pub struct Scope<T> {
    slots: Vec<Option<T>>,
}

impl<T> View for Scope<T> {
    type V = Seq<Option<T>>;

    closed spec fn view(&self) -> Seq<Option<T>> {
        self.slots@
    }
}

impl<T: DestructionHook> Scope<T> {
    /// `owner` stands for a value that this scope still owns.
    pub open spec fn holds(&self, owner: Owner) -> bool {
        &&& 0 <= owner@ < self@.len()
        &&& self@[owner@].is_some()
    }

    /// A scope that owns nothing.
    pub fn new() -> (scope: Self)
        ensures
            scope@ == Seq::<Option<T>>::empty(),
    {
        Scope { slots: Vec::new() }
    }

    /// Hands `value` to the scope, after all values declared before.
    pub fn declare(&mut self, value: T) -> (owner: Owner)
        ensures
            final(self)@ == old(self)@.push(Some(value)),
            owner@ == old(self)@.len(),
            final(self).holds(owner),
    {
        let slot = self.slots.len();
        self.slots.push(Some(value));
        Owner { slot }
    }

    /// Whether `owner` stands for a value that this scope still owns.
    pub fn owns(&self, owner: &Owner) -> (held: bool)
        ensures
            held == self.holds(*owner),
    {
        owner.slot < self.slots.len() && self.slots[owner.slot].is_some()
    }

    /// Read access to the value that `owner` stands for.
    pub fn get(&self, owner: &Owner) -> (value: &T)
        requires
            self.holds(*owner),
        ensures
            self@[owner@] == Some(*value),
    {
        self.slots[owner.slot].as_ref().unwrap()
    }

    /// Destroys the value that `owner` stands for now, ahead of the end of
    /// the scope: its hook fires here and not again when the scope closes.
    pub fn dispose(&mut self, owner: Owner) -> (line: String)
        requires
            old(self).holds(owner),
        ensures
            final(self)@ == old(self)@.update(owner@, None),
            line@ == old(self)@[owner@].unwrap().farewell(),
    {
        let value = self.slots[owner.slot].take().unwrap();
        assert(self@ =~= old(self)@.update(owner@, None));
        value.finalize()
    }

    /// Closes the scope: fires the hook of every value that the scope still
    /// owns, the one declared last first, and returns the lines in the
    /// order in which the hooks fired.
    pub fn close(self) -> (lines: Vec<String>)
        ensures
            texts(lines@) == unwound(self@),
    {
        let mut slots = self.slots;
        let mut lines: Vec<String> = Vec::new();
        while slots.len() > 0
            invariant
                texts(lines@) + unwound(slots@) == unwound(self@),
            decreases slots.len(),
        {
            let ghost fired = texts(lines@);
            let ghost rest = slots@;
            let slot = slots.pop().unwrap();
            assert(slots@ =~= rest.drop_last());
            match slot {
                Some(value) => {
                    let ghost farewell = value.farewell();
                    lines.push(value.finalize());
                    assert(texts(lines@) =~= fired.push(farewell));
                    assert(fired.push(farewell) + unwound(slots@) =~= fired + (seq![farewell]
                        + unwound(slots@)));
                },
                None => {
                    assert(Seq::<Seq<char>>::empty() + unwound(slots@) =~= unwound(slots@));
                },
            }
        }
        assert(texts(lines@) + Seq::<Seq<char>>::empty() =~= texts(lines@));
        lines
    }
}

/// Ends the handle `h` and, if it was the last one to its cell, fires the
/// hook of the payload: the line is returned if and only if the strong
/// count reached 0.  Each payload meets its hook once, since a cell
/// without payload has no handle left to drop.
pub fn drop_and_finalize<T: DestructionHook>(store: &mut Store<T>, h: Handle) -> (line: Option<
    String,
>)
    requires
        old(store).wf(),
        old(store).is_live(h),
    ensures
        final(store).wf(),
        final(store)@ == old(store)@.update(h@.cell, old(store)@[h@.cell].release(h@.token)),
        line.is_some() <==> old(store)@[h@.cell].strong_count() == 1,
        line matches Some(text) ==> text@ == old(store)@[h@.cell].payload.unwrap().farewell(),
{
    match store.drop_handle(h) {
        Some(payload) => Some(payload.finalize()),
        None => None,
    }
}

/// Closing a scope fires one hook for each value that the scope still
/// owns, and none for a value that was disposed of before: with the hook
/// that fired at its disposal, every value meets its hook once.
pub proof fn lemma_one_hook_per_value<T: DestructionHook>(slots: Seq<Option<T>>, disposed: int)
    requires
        0 <= disposed < slots.len(),
        slots[disposed].is_some(),
    ensures
        unwound(slots).len() == owned(slots),
        unwound(slots.update(disposed, None)).len() == owned(slots) - 1,
{
    lemma_hooks_counted(slots);
    lemma_hooks_counted(slots.update(disposed, None));
    lemma_owned_without(slots, disposed);
}

/// Closing a scope fires as many hooks as the scope owns values.
proof fn lemma_hooks_counted<T: DestructionHook>(slots: Seq<Option<T>>)
    ensures
        unwound(slots).len() == owned(slots),
    decreases slots.len(),
{
    if slots.len() > 0 {
        lemma_hooks_counted(slots.drop_last());
    }
}

/// Taking one value out of a scope leaves it one value less.
proof fn lemma_owned_without<T>(slots: Seq<Option<T>>, index: int)
    requires
        0 <= index < slots.len(),
        slots[index].is_some(),
    ensures
        owned(slots.update(index, None)) == owned(slots) - 1,
    decreases slots.len(),
{
    let updated = slots.update(index, None);
    if index == slots.len() - 1 {
        assert(updated.drop_last() =~= slots.drop_last());
    } else {
        lemma_owned_without(slots.drop_last(), index);
        assert(updated.drop_last() =~= slots.drop_last().update(index, None));
    }
}

/// Closing a scope fires the hooks in the reverse of the order in which
/// the values it still owns were declared.
pub proof fn lemma_close_reverses_declaration<T: DestructionHook>(slots: Seq<Option<T>>)
    ensures
        unwound(slots) == farewells(slots).reverse(),
    decreases slots.len(),
{
    if slots.len() > 0 {
        lemma_close_reverses_declaration(slots.drop_last());
        let head = farewells(slots.drop_last());
        let last: Seq<Seq<char>> = match slots.last() {
            Some(value) => seq![value.farewell()],
            None => Seq::empty(),
        };
        assert((head + last).reverse() =~= last + head.reverse());
    } else {
        assert(farewells(slots).reverse() =~= Seq::<Seq<char>>::empty());
    }
}

/// Where nothing was disposed of early, the hook that fires at position
/// `k` of the closing trace belongs to the value declared `k` places
/// before the end.
pub proof fn lemma_close_order<T: DestructionHook>(slots: Seq<Option<T>>, k: int)
    requires
        forall|i: int| 0 <= i < slots.len() ==> (#[trigger] slots[i]).is_some(),
        0 <= k < slots.len(),
    ensures
        unwound(slots).len() == slots.len(),
        unwound(slots)[k] == slots[slots.len() - 1 - k].unwrap().farewell(),
    decreases slots.len(),
{
    let rest = slots.drop_last();
    let first = seq![slots.last().unwrap().farewell()];
    assert(slots.last().is_some());
    assert(unwound(slots) == first + unwound(rest));
    assert forall|i: int| 0 <= i < rest.len() implies (#[trigger] rest[i]).is_some() by {
        assert(rest[i] == slots[i]);
    }
    if rest.len() == 0 {
        assert(unwound(rest).len() == 0);
    } else if k == 0 {
        lemma_close_order(rest, 0);
    } else {
        lemma_close_order(rest, k - 1);
        assert(unwound(slots)[k] == unwound(rest)[k - 1]);
        assert(rest[rest.len() - 1 - (k - 1)] == slots[slots.len() - 1 - k]);
    }
}

} // verus!
