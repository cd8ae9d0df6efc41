//! A cell that enforces its borrow rule when a borrow is asked for.
//!
//! At any time a [`Cell`] is unborrowed, lent to any number of readers, or
//! lent to one writer, never to readers and a writer at once.  A borrow
//! yields a guard; the guard gives access to the value and is handed back
//! to end the borrow.

use vstd::prelude::*;

verus! {

/// The borrow state of a [`Cell`].
#[derive(Clone, Copy, Debug, PartialEq, Eq, Structural)]
pub enum BorrowState {
    /// No guard is outstanding.
    Unborrowed,
    /// This many shared guards are outstanding; the number is at least 1.
    SharedBorrowed(usize),
    /// One exclusive guard is outstanding.
    ExclusiveBorrowed,
}

/// Why a borrow was refused.
#[derive(Clone, Copy, Debug, PartialEq, Eq, Structural)]
pub enum BorrowError {
    /// A shared guard is outstanding, so the cell cannot be lent
    /// exclusively.
    SharedOutstanding,
    /// An exclusive guard is outstanding, so the cell cannot be lent at
    /// all.
    ExclusiveOutstanding,
}

/// Proof of one shared borrow of a [`Cell`]; its model is the token that
/// the cell gave to the borrow.
pub struct SharedGuard {
    token: Ghost<nat>,
}

impl View for SharedGuard {
    type V = nat;

    closed spec fn view(&self) -> nat {
        self.token@
    }
}

/// Proof of the exclusive borrow of a [`Cell`]; its model is the token
/// that the cell gave to the borrow.
pub struct ExclusiveGuard {
    token: Ghost<nat>,
}

impl View for ExclusiveGuard {
    type V = nat;

    closed spec fn view(&self) -> nat {
        self.token@
    }
}

/// Model of a [`Cell`]: the value, the tokens of the outstanding shared
/// guards, and the token of the outstanding exclusive guard if there is
/// one.
pub struct CellView<T> {
    pub value: T,
    pub readers: Set<nat>,
    pub writer: Option<nat>,
}

impl<T> CellView<T> {
    /// The borrow rule: finitely many readers, and none beside a writer.
    pub open spec fn wf(self) -> bool {
        &&& self.readers.finite()
        &&& self.writer.is_some() ==> self.readers.len() == 0
    }

    /// The borrow state that the outstanding guards amount to.
    pub open spec fn state(self) -> BorrowState {
        if self.writer.is_some() {
            BorrowState::ExclusiveBorrowed
        } else if self.readers.len() == 0 {
            BorrowState::Unborrowed
        } else {
            BorrowState::SharedBorrowed(self.readers.len() as usize)
        }
    }

    /// A shared borrow is granted unless a writer holds the cell.
    pub open spec fn can_borrow(self) -> bool {
        self.writer.is_none()
    }

    /// An exclusive borrow is granted only while nothing is outstanding.
    pub open spec fn can_borrow_mut(self) -> bool {
        self.writer.is_none() && self.readers.len() == 0
    }

    /// A cell that holds `value` and has lent nothing.
    pub open spec fn unborrowed(value: T) -> Self {
        CellView { value, readers: Set::empty(), writer: None }
    }

    /// The cell after a shared borrow under `token`.
    pub open spec fn borrowed(self, token: nat) -> Self {
        CellView { value: self.value, readers: self.readers.insert(token), writer: self.writer }
    }

    /// The cell after the shared borrow under `token` has ended.
    pub open spec fn released(self, token: nat) -> Self {
        CellView { value: self.value, readers: self.readers.remove(token), writer: self.writer }
    }

    /// The cell after an exclusive borrow under `token`.
    pub open spec fn borrowed_mut(self, token: nat) -> Self {
        CellView { value: self.value, readers: self.readers, writer: Some(token) }
    }

    /// The cell after the exclusive borrow has ended.
    pub open spec fn released_mut(self) -> Self {
        CellView { value: self.value, readers: self.readers, writer: None }
    }

    /// The cell with `value` in place of its value.
    pub open spec fn written(self, value: T) -> Self {
        CellView { value, readers: self.readers, writer: self.writer }
    }

    /// The cell after one shared borrow and its release for each of
    /// `tokens`, in order, with no write in between.
    pub open spec fn cycled(self, tokens: Seq<nat>) -> Self
        decreases tokens.len(),
    {
        if tokens.len() == 0 {
            self
        } else {
            self.cycled(tokens.drop_last()).borrowed(tokens.last()).released(tokens.last())
        }
    }
}

/// A value that can be changed through its guards although the cell itself
/// is shared.
pub struct Cell<T> {
    value: T,
    state: BorrowState,
    readers: Ghost<Set<nat>>,
    writer: Ghost<Option<nat>>,
    issued: Ghost<nat>,
}

impl<T> View for Cell<T> {
    type V = CellView<T>;

    closed spec fn view(&self) -> CellView<T> {
        CellView { value: self.value, readers: self.readers@, writer: self.writer@ }
    }
}

impl<T> Cell<T> {
    /// The stored state agrees with the outstanding guards, whose number
    /// fits the counter, and every token in use was issued by this cell.
    pub closed spec fn rep_inv(&self) -> bool {
        &&& self.state == self@.state()
        &&& self.readers@.len() <= usize::MAX
        &&& forall|t: nat| #[trigger] self.readers@.contains(t) ==> t < self.issued@
        &&& self.writer@ matches Some(t) ==> t < self.issued@
    }

    /// Well-formedness: the constructor establishes it and every method
    /// keeps it.
    pub open spec fn wf(&self) -> bool {
        &&& self.rep_inv()
        &&& self@.wf()
    }

    /// A cell that holds `value` and has lent nothing.
    pub fn new(value: T) -> (cell: Self)
        ensures
            cell.wf(),
            cell@ == CellView::unborrowed(value),
            cell@.state() == BorrowState::Unborrowed,
    {
        Cell {
            value,
            state: BorrowState::Unborrowed,
            readers: Ghost(Set::empty()),
            writer: Ghost(None),
            issued: Ghost(0),
        }
    }

    /// The current borrow state.
    pub fn borrow_state(&self) -> (state: BorrowState)
        requires
            self.wf(),
        ensures
            state == self@.state(),
    {
        self.state
    }

    /// Asks for a shared borrow.  It is granted, and counted, unless an
    /// exclusive guard is outstanding; a refusal changes nothing.
    pub fn try_borrow(&mut self) -> (outcome: Result<SharedGuard, BorrowError>)
        requires
            old(self).wf(),
            old(self)@.readers.len() < usize::MAX,
        ensures
            final(self).wf(),
            match outcome {
                Ok(guard) => {
                    &&& old(self)@.can_borrow()
                    &&& !old(self)@.readers.contains(guard@)
                    &&& final(self)@ == old(self)@.borrowed(guard@)
                },
                Err(error) => {
                    &&& !old(self)@.can_borrow()
                    &&& error == BorrowError::ExclusiveOutstanding
                    &&& *final(self) == *old(self)
                },
            },
    {
        let ghost token = self.issued@;
        match self.state {
            BorrowState::ExclusiveBorrowed => Err(BorrowError::ExclusiveOutstanding),
            BorrowState::Unborrowed => {
                self.state = BorrowState::SharedBorrowed(1);
                self.readers = Ghost(old(self).readers@.insert(token));
                self.issued = Ghost(token + 1);
                Ok(SharedGuard { token: Ghost(token) })
            },
            BorrowState::SharedBorrowed(n) => {
                self.state = BorrowState::SharedBorrowed(n + 1);
                self.readers = Ghost(old(self).readers@.insert(token));
                self.issued = Ghost(token + 1);
                Ok(SharedGuard { token: Ghost(token) })
            },
        }
    }

    /// A shared borrow of a cell that no writer holds.
    pub fn borrow(&mut self) -> (guard: SharedGuard)
        requires
            old(self).wf(),
            old(self)@.can_borrow(),
            old(self)@.readers.len() < usize::MAX,
        ensures
            final(self).wf(),
            !old(self)@.readers.contains(guard@),
            final(self)@ == old(self)@.borrowed(guard@),
    {
        let ghost token = self.issued@;
        let readers: usize = match self.state {
            BorrowState::SharedBorrowed(n) => n,
            _ => 0,
        };
        self.state = BorrowState::SharedBorrowed(readers + 1);
        self.readers = Ghost(old(self).readers@.insert(token));
        self.issued = Ghost(token + 1);
        SharedGuard { token: Ghost(token) }
    }

    /// Asks for the exclusive borrow.  It is granted only while no guard
    /// of either kind is outstanding; a refusal changes nothing.
    pub fn try_borrow_mut(&mut self) -> (outcome: Result<ExclusiveGuard, BorrowError>)
        requires
            old(self).wf(),
        ensures
            final(self).wf(),
            match outcome {
                Ok(guard) => {
                    &&& old(self)@.can_borrow_mut()
                    &&& final(self)@ == old(self)@.borrowed_mut(guard@)
                },
                Err(error) => {
                    &&& !old(self)@.can_borrow_mut()
                    &&& error == (if old(self)@.writer.is_some() {
                        BorrowError::ExclusiveOutstanding
                    } else {
                        BorrowError::SharedOutstanding
                    })
                    &&& *final(self) == *old(self)
                },
            },
    {
        let ghost token = self.issued@;
        match self.state {
            BorrowState::ExclusiveBorrowed => Err(BorrowError::ExclusiveOutstanding),
            BorrowState::SharedBorrowed(_) => Err(BorrowError::SharedOutstanding),
            BorrowState::Unborrowed => {
                self.state = BorrowState::ExclusiveBorrowed;
                self.writer = Ghost(Some(token));
                self.issued = Ghost(token + 1);
                Ok(ExclusiveGuard { token: Ghost(token) })
            },
        }
    }

    /// The exclusive borrow of a cell that has lent nothing.
    pub fn borrow_mut(&mut self) -> (guard: ExclusiveGuard)
        requires
            old(self).wf(),
            old(self)@.can_borrow_mut(),
        ensures
            final(self).wf(),
            final(self)@ == old(self)@.borrowed_mut(guard@),
    {
        let ghost token = self.issued@;
        self.state = BorrowState::ExclusiveBorrowed;
        self.writer = Ghost(Some(token));
        self.issued = Ghost(token + 1);
        ExclusiveGuard { token: Ghost(token) }
    }

    /// Ends the shared borrow that `guard` stands for.
    pub fn release(&mut self, guard: SharedGuard)
        requires
            old(self).wf(),
            old(self)@.readers.contains(guard@),
        ensures
            final(self).wf(),
            final(self)@ == old(self)@.released(guard@),
    {
        self.state = match self.state {
            BorrowState::SharedBorrowed(n) => if n > 1 {
                BorrowState::SharedBorrowed(n - 1)
            } else {
                BorrowState::Unborrowed
            },
            _ => BorrowState::Unborrowed,
        };
        self.readers = Ghost(old(self).readers@.remove(guard.token@));
    }

    /// Ends the exclusive borrow that `guard` stands for.
    pub fn release_mut(&mut self, guard: ExclusiveGuard)
        requires
            old(self).wf(),
            old(self)@.writer == Some(guard@),
        ensures
            final(self).wf(),
            final(self)@ == old(self)@.released_mut(),
            final(self)@.state() == BorrowState::Unborrowed,
    {
        self.state = BorrowState::Unborrowed;
        self.writer = Ghost(None);
    }

    /// Reads the value without taking a guard, which is safe while no
    /// writer holds the cell.  The borrow state stays as it is.
    pub fn peek(&self) -> (value: &T)
        requires
            self.wf(),
            self@.can_borrow(),
        ensures
            *value == self@.value,
    {
        &self.value
    }

    /// Reads the value under a shared borrow.
    pub fn get(&self, guard: &SharedGuard) -> (value: &T)
        requires
            self.wf(),
            self@.readers.contains(guard@),
        ensures
            *value == self@.value,
    {
        &self.value
    }

    /// Reads the value under the exclusive borrow.
    pub fn get_exclusive(&self, guard: &ExclusiveGuard) -> (value: &T)
        requires
            self.wf(),
            self@.writer == Some(guard@),
        ensures
            *value == self@.value,
    {
        &self.value
    }

    /// Puts `value` into the cell under the exclusive borrow and returns
    /// what the cell held before.
    pub fn set(&mut self, guard: &ExclusiveGuard, value: T) -> (previous: T)
        requires
            old(self).wf(),
            old(self)@.writer == Some(guard@),
        ensures
            final(self).wf(),
            final(self)@ == old(self)@.written(value),
            previous == old(self)@.value,
    {
        let mut value = value;
        std::mem::swap(&mut self.value, &mut value);
        value
    }

    /// Ends the cell and gives its value back.
    pub fn into_inner(self) -> (value: T)
        ensures
            value == self@.value,
    {
        self.value
    }
}

/// A local value that is not declared mutable cannot be changed, and the
/// compiler refuses a mutable reference to it.  Where shared data has to
/// change all the same, [`Cell`] enforces the rule at run time instead.
pub fn interior_mutability() {
    let _x: i32 = 5;
}

/// While a shared guard is outstanding an exclusive borrow is refused, and
/// a further shared borrow is still granted.
pub proof fn lemma_shared_excludes_exclusive<T>(cell: CellView<T>, token: nat)
    requires
        cell.wf(),
        cell.can_borrow(),
    ensures
        cell.borrowed(token).wf(),
        !cell.borrowed(token).can_borrow_mut(),
        cell.borrowed(token).can_borrow(),
{
}

/// While the exclusive guard is outstanding every borrow is refused.
pub proof fn lemma_exclusive_excludes_all<T>(cell: CellView<T>, token: nat)
    requires
        cell.wf(),
        cell.can_borrow_mut(),
    ensures
        cell.borrowed_mut(token).wf(),
        !cell.borrowed_mut(token).can_borrow(),
        !cell.borrowed_mut(token).can_borrow_mut(),
{
}

/// Two shared borrows of a cell that no writer holds are both granted, and
/// both guards are outstanding afterwards: the cell counts two readers
/// more.
pub proof fn lemma_shared_borrows_coexist<T>(cell: CellView<T>, first: nat, second: nat)
    requires
        cell.wf(),
        cell.can_borrow(),
        !cell.readers.contains(first),
        !cell.readers.contains(second),
        first != second,
    ensures
        cell.borrowed(first).can_borrow(),
        cell.borrowed(first).borrowed(second).wf(),
        cell.borrowed(first).borrowed(second).readers.contains(first),
        cell.borrowed(first).borrowed(second).readers.contains(second),
        cell.borrowed(first).borrowed(second).readers.len() == cell.readers.len() + 2,
{
}

/// A shared borrow followed by its release leaves a cell as it was, as
/// long as the token is not already in use.
pub proof fn lemma_borrow_then_release<T>(cell: CellView<T>, token: nat)
    requires
        !cell.readers.contains(token),
    ensures
        cell.borrowed(token).released(token) == cell,
{
    assert(cell.readers.insert(token).remove(token) =~= cell.readers);
}

/// The exclusive borrow followed by its release, with no write in between,
/// leaves an unborrowed cell as it was.
pub proof fn lemma_borrow_mut_then_release<T>(cell: CellView<T>, token: nat)
    requires
        cell.can_borrow_mut(),
    ensures
        cell.borrowed_mut(token).released_mut() == cell,
{
}

/// Any number of borrow-and-release cycles without a write leave an
/// unborrowed cell unborrowed and its value unchanged.
pub proof fn lemma_cycles_change_nothing<T>(cell: CellView<T>, tokens: Seq<nat>)
    requires
        cell.wf(),
        cell.state() == BorrowState::Unborrowed,
    ensures
        cell.cycled(tokens) == cell,
        cell.cycled(tokens).state() == BorrowState::Unborrowed,
        cell.cycled(tokens).value == cell.value,
    decreases tokens.len(),
{
    if tokens.len() > 0 {
        lemma_cycles_change_nothing(cell, tokens.drop_last());
        lemma_borrow_then_release(cell, tokens.last());
    }
}

} // verus!
