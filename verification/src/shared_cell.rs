//! Borrow cells behind handles: data with several owners that can still
//! be changed.
//!
//! A handle gives only read access to its payload.  Where the payload is a
//! [`Cell`], the store runs the cell's borrow protocol on behalf of the
//! handle, so every change to shared data obeys the borrow rule.
//!
//! The contracts here speak of [`Store::deep`], the model of such a store:
//! for each shared cell the model of the borrow cell inside it, and the
//! tokens of its handles.

use vstd::prelude::*;
use crate::cell::BorrowError;
use crate::cell::BorrowState;
use crate::cell::Cell;
use crate::cell::CellView;
use crate::cell::ExclusiveGuard;
use crate::cell::SharedGuard;
use crate::shared::live_in;
use crate::shared::Handle;
use crate::shared::SharedCellView;
use crate::shared::Store;

verus! {

impl<T> Store<Cell<T>> {
    /// The store is well formed and every cell in it obeys the borrow rule.
    pub open spec fn cells_inv(&self) -> bool {
        &&& self.wf()
        &&& forall|i: int|
            0 <= i < self@.len() && (#[trigger] self@[i]).payload.is_some()
                ==> self@[i].payload.unwrap().wf()
    }

    /// Model of a store of borrow cells.
    pub open spec fn deep(&self) -> Seq<SharedCellView<CellView<T>>> {
        Seq::new(
            self@.len(),
            |i: int|
                SharedCellView {
                    payload: match self@[i].payload {
                        Some(cell) => Some(cell@),
                        None => None,
                    },
                    owners: self@[i].owners,
                },
        )
    }

    /// `h` is one of the live handles of this store.
    pub open spec fn holds(&self, h: Handle) -> bool {
        live_in(self.deep(), h@)
    }

    /// No shared cell counts `token` among its handles.
    pub open spec fn unused_in_cells(&self, token: nat) -> bool {
        forall|i: int|
            0 <= i < self.deep().len() ==> !(#[trigger] self.deep()[i]).owners.contains(token)
    }

    /// Model of the borrow cell behind `h`.
    pub open spec fn cell_at(&self, h: Handle) -> CellView<T> {
        self.deep()[h@.cell].payload.unwrap()
    }

    /// The model of the store once the borrow cell behind `h` has become
    /// `cell`: nothing else differs.
    pub open spec fn with_cell(&self, h: Handle, cell: CellView<T>) -> Seq<
        SharedCellView<CellView<T>>,
    > {
        self.deep().update(
            h@.cell,
            SharedCellView { payload: Some(cell), owners: self.deep()[h@.cell].owners },
        )
    }

    /// Makes a shared cell that holds an unborrowed borrow cell with
    /// `value` in it, and returns its first handle.
    pub fn new_cell(&mut self, value: T) -> (h: Handle)
        requires
            old(self).cells_inv(),
        ensures
            final(self).cells_inv(),
            h@.cell == old(self)@.len(),
            old(self).unused_in_cells(h@.token),
            final(self).deep() == old(self).deep().push(
                SharedCellView::fresh(CellView::unborrowed(value), h@.token),
            ),
            final(self).holds(h),
    {
        let h = self.new_handle(Cell::new(value));
        assert(self.deep() =~= old(self).deep().push(
            SharedCellView::fresh(CellView::unborrowed(value), h@.token),
        ));
        h
    }

    /// Another handle to the shared cell of `h`: the strong count grows by
    /// exactly 1 and the borrow cell inside is not touched.
    pub fn share_cell(&mut self, h: &Handle) -> (r: Handle)
        requires
            old(self).cells_inv(),
            old(self).holds(*h),
            old(self).deep()[h@.cell].strong_count() < usize::MAX,
        ensures
            final(self).cells_inv(),
            r@.cell == h@.cell,
            old(self).unused_in_cells(r@.token),
            final(self).deep() == old(self).deep().update(
                h@.cell,
                old(self).deep()[h@.cell].acquire(r@.token),
            ),
            final(self).holds(r),
    {
        let r = self.clone_handle(h);
        assert(self.deep() =~= old(self).deep().update(
            h@.cell,
            old(self).deep()[h@.cell].acquire(r@.token),
        ));
        r
    }

    /// Ends `h`: the strong count of its shared cell falls by exactly 1.
    /// With the last handle the borrow cell is destroyed and the value in
    /// it returned.
    pub fn drop_cell(&mut self, h: Handle) -> (destroyed: Option<T>)
        requires
            old(self).cells_inv(),
            old(self).holds(h),
        ensures
            final(self).cells_inv(),
            final(self).deep() == old(self).deep().update(
                h@.cell,
                old(self).deep()[h@.cell].release(h@.token),
            ),
            destroyed == (if old(self).deep()[h@.cell].strong_count() == 1 {
                Some(old(self).cell_at(h).value)
            } else {
                None
            }),
    {
        let destroyed = self.drop_handle(h);
        assert(self.deep() =~= old(self).deep().update(
            h@.cell,
            old(self).deep()[h@.cell].release(h@.token),
        ));
        match destroyed {
            Some(cell) => Some(cell.into_inner()),
            None => None,
        }
    }

    /// The number of live handles to the shared cell of `h`.
    pub fn strong_count_at(&self, h: &Handle) -> (n: usize)
        requires
            self.cells_inv(),
            self.holds(*h),
        ensures
            n == self.deep()[h@.cell].strong_count(),
            n >= 1,
    {
        self.strong_count(h)
    }

    /// The borrow state of the cell behind `h`.
    pub fn borrow_state_at(&self, h: &Handle) -> (state: BorrowState)
        requires
            self.cells_inv(),
            self.holds(*h),
        ensures
            state == self.cell_at(*h).state(),
    {
        self.get(h).borrow_state()
    }

    /// Asks the cell behind `h` for a shared borrow; see
    /// [`Cell::try_borrow`].
    pub fn try_borrow_at(&mut self, h: &Handle) -> (outcome: Result<SharedGuard, BorrowError>)
        requires
            old(self).cells_inv(),
            old(self).holds(*h),
            old(self).cell_at(*h).readers.len() < usize::MAX,
        ensures
            final(self).cells_inv(),
            match outcome {
                Ok(guard) => {
                    &&& old(self).cell_at(*h).can_borrow()
                    &&& !old(self).cell_at(*h).readers.contains(guard@)
                    &&& final(self).deep() == old(self).with_cell(
                        *h,
                        old(self).cell_at(*h).borrowed(guard@),
                    )
                },
                Err(error) => {
                    &&& !old(self).cell_at(*h).can_borrow()
                    &&& error == BorrowError::ExclusiveOutstanding
                    &&& final(self).deep() == old(self).deep()
                },
            },
    {
        let cell = self.payload_mut(h);
        let outcome = cell.try_borrow();
        proof {
            if outcome is Ok {
                assert(self.deep() =~= old(self).with_cell(
                    *h,
                    old(self).cell_at(*h).borrowed(outcome->Ok_0@),
                ));
            } else {
                assert(self.deep() =~= old(self).deep());
            }
        }
        outcome
    }

    /// A shared borrow of the cell behind `h`, which no writer holds.
    pub fn borrow_at(&mut self, h: &Handle) -> (guard: SharedGuard)
        requires
            old(self).cells_inv(),
            old(self).holds(*h),
            old(self).cell_at(*h).can_borrow(),
            old(self).cell_at(*h).readers.len() < usize::MAX,
        ensures
            final(self).cells_inv(),
            !old(self).cell_at(*h).readers.contains(guard@),
            final(self).deep() == old(self).with_cell(*h, old(self).cell_at(*h).borrowed(guard@)),
    {
        let cell = self.payload_mut(h);
        let guard = cell.borrow();
        assert(self.deep() =~= old(self).with_cell(*h, old(self).cell_at(*h).borrowed(guard@)));
        guard
    }

    /// Asks the cell behind `h` for the exclusive borrow; see
    /// [`Cell::try_borrow_mut`].
    pub fn try_borrow_mut_at(&mut self, h: &Handle) -> (outcome: Result<
        ExclusiveGuard,
        BorrowError,
    >)
        requires
            old(self).cells_inv(),
            old(self).holds(*h),
        ensures
            final(self).cells_inv(),
            match outcome {
                Ok(guard) => {
                    &&& old(self).cell_at(*h).can_borrow_mut()
                    &&& final(self).deep() == old(self).with_cell(
                        *h,
                        old(self).cell_at(*h).borrowed_mut(guard@),
                    )
                },
                Err(error) => {
                    &&& !old(self).cell_at(*h).can_borrow_mut()
                    &&& error == (if old(self).cell_at(*h).writer.is_some() {
                        BorrowError::ExclusiveOutstanding
                    } else {
                        BorrowError::SharedOutstanding
                    })
                    &&& final(self).deep() == old(self).deep()
                },
            },
    {
        let cell = self.payload_mut(h);
        let outcome = cell.try_borrow_mut();
        proof {
            if outcome is Ok {
                assert(self.deep() =~= old(self).with_cell(
                    *h,
                    old(self).cell_at(*h).borrowed_mut(outcome->Ok_0@),
                ));
            } else {
                assert(self.deep() =~= old(self).deep());
            }
        }
        outcome
    }

    /// The exclusive borrow of the cell behind `h`, which has lent nothing.
    pub fn borrow_mut_at(&mut self, h: &Handle) -> (guard: ExclusiveGuard)
        requires
            old(self).cells_inv(),
            old(self).holds(*h),
            old(self).cell_at(*h).can_borrow_mut(),
        ensures
            final(self).cells_inv(),
            final(self).deep() == old(self).with_cell(
                *h,
                old(self).cell_at(*h).borrowed_mut(guard@),
            ),
    {
        let cell = self.payload_mut(h);
        let guard = cell.borrow_mut();
        assert(self.deep() =~= old(self).with_cell(
            *h,
            old(self).cell_at(*h).borrowed_mut(guard@),
        ));
        guard
    }

    /// Ends a shared borrow of the cell behind `h`.
    pub fn release_at(&mut self, h: &Handle, guard: SharedGuard)
        requires
            old(self).cells_inv(),
            old(self).holds(*h),
            old(self).cell_at(*h).readers.contains(guard@),
        ensures
            final(self).cells_inv(),
            final(self).deep() == old(self).with_cell(*h, old(self).cell_at(*h).released(guard@)),
    {
        let ghost token = guard@;
        let cell = self.payload_mut(h);
        cell.release(guard);
        assert(self.deep() =~= old(self).with_cell(*h, old(self).cell_at(*h).released(token)));
    }

    /// Ends the exclusive borrow of the cell behind `h`.
    pub fn release_mut_at(&mut self, h: &Handle, guard: ExclusiveGuard)
        requires
            old(self).cells_inv(),
            old(self).holds(*h),
            old(self).cell_at(*h).writer == Some(guard@),
        ensures
            final(self).cells_inv(),
            final(self).deep() == old(self).with_cell(*h, old(self).cell_at(*h).released_mut()),
    {
        let cell = self.payload_mut(h);
        cell.release_mut(guard);
        assert(self.deep() =~= old(self).with_cell(*h, old(self).cell_at(*h).released_mut()));
    }

    /// Reads the cell behind `h` under a shared borrow.
    pub fn read_at(&self, h: &Handle, guard: &SharedGuard) -> (value: &T)
        requires
            self.cells_inv(),
            self.holds(*h),
            self.cell_at(*h).readers.contains(guard@),
        ensures
            *value == self.cell_at(*h).value,
    {
        self.get(h).get(guard)
    }

    /// Reads the cell behind `h` under the exclusive borrow.
    pub fn read_exclusive_at(&self, h: &Handle, guard: &ExclusiveGuard) -> (value: &T)
        requires
            self.cells_inv(),
            self.holds(*h),
            self.cell_at(*h).writer == Some(guard@),
        ensures
            *value == self.cell_at(*h).value,
    {
        self.get(h).get_exclusive(guard)
    }

    /// Puts `value` into the cell behind `h` under the exclusive borrow and
    /// returns what the cell held before.  Every handle to the cell sees
    /// the new value.
    pub fn write_at(&mut self, h: &Handle, guard: &ExclusiveGuard, value: T) -> (previous: T)
        requires
            old(self).cells_inv(),
            old(self).holds(*h),
            old(self).cell_at(*h).writer == Some(guard@),
        ensures
            final(self).cells_inv(),
            previous == old(self).cell_at(*h).value,
            final(self).deep() == old(self).with_cell(*h, old(self).cell_at(*h).written(value)),
    {
        let cell = self.payload_mut(h);
        let previous = cell.set(guard, value);
        assert(self.deep() =~= old(self).with_cell(*h, old(self).cell_at(*h).written(value)));
        previous
    }
}

} // verus!
