//! Reference-counted handles into a store of shared cells.
//!
//! A [`Store`] owns every shared cell.  A [`Handle`] names one cell and
//! carries a token of its own; the cell lists the tokens of the handles
//! that are alive, and its strong count is the size of that list.  Cloning
//! a handle adds a token, dropping one removes it, and the payload leaves
//! the store with the last token.

use vstd::prelude::*;

verus! {

/// Model of a handle: the cell it refers to, and the token that tells it
/// from every other handle of the store.
pub struct HandleView {
    pub cell: int,
    pub token: nat,
}

/// Shared, read-only access to one cell of a [`Store`].
///
/// A handle cannot be copied: another handle to the same cell comes from
/// [`Store::clone_handle`], and a handle ends in [`Store::drop_handle`].
pub struct Handle {
    cell: usize,
    token: Ghost<nat>,
}

impl View for Handle {
    type V = HandleView;

    closed spec fn view(&self) -> HandleView {
        HandleView { cell: self.cell as int, token: self.token@ }
    }
}

impl Handle {
    /// The index of the cell that the handle refers to.
    pub fn cell(&self) -> (index: usize)
        ensures
            index == self@.cell,
    {
        self.cell
    }

    /// Whether both handles refer to one cell.
    pub fn same_cell(&self, other: &Handle) -> (same: bool)
        ensures
            same == (self@.cell == other@.cell),
    {
        self.cell == other.cell
    }
}

/// Model of a shared cell: the payload, present until the cell is
/// destroyed, and the tokens of the handles that are alive.
pub struct SharedCellView<T> {
    pub payload: Option<T>,
    pub owners: Set<nat>,
}

impl<T> SharedCellView<T> {
    /// The number of live handles.
    pub open spec fn strong_count(self) -> nat {
        self.owners.len()
    }

    /// A cell just made for `value`, with one handle.
    pub open spec fn fresh(value: T, token: nat) -> Self {
        SharedCellView { payload: Some(value), owners: set![token] }
    }

    /// The cell with one handle more.
    pub open spec fn acquire(self, token: nat) -> Self {
        SharedCellView { payload: self.payload, owners: self.owners.insert(token) }
    }

    /// The cell with one handle less; the payload goes with the last one.
    pub open spec fn release(self, token: nat) -> Self {
        let owners = self.owners.remove(token);
        SharedCellView { payload: if owners.len() == 0 { None } else { self.payload }, owners }
    }
}

/// What holds of the cells of every well-formed store: a cell has finitely
/// many handles, and it has a payload exactly while it has a handle.
pub open spec fn cells_wf<T>(cells: Seq<SharedCellView<T>>) -> bool {
    forall|i: int|
        0 <= i < cells.len() ==> {
            &&& (#[trigger] cells[i]).owners.finite()
            &&& cells[i].payload.is_some() <==> cells[i].owners.len() > 0
        }
}

/// `h` is one of the live handles among `cells`.
pub open spec fn live_in<T>(cells: Seq<SharedCellView<T>>, h: HandleView) -> bool {
    &&& 0 <= h.cell < cells.len()
    &&& cells[h.cell].owners.contains(h.token)
}

/// The number of cells that still hold their payload.
pub open spec fn alive<T>(cells: Seq<SharedCellView<T>>) -> nat
    decreases cells.len(),
{
    if cells.len() == 0 {
        0
    } else {
        alive(cells.drop_last()) + if cells.last().payload.is_some() {
            1nat
        } else {
            0nat
        }
    }
}

/// No more cells hold a payload than there are cells.
pub proof fn lemma_alive_bound<T>(cells: Seq<SharedCellView<T>>)
    ensures
        alive(cells) <= cells.len(),
    decreases cells.len(),
{
    if cells.len() > 0 {
        lemma_alive_bound(cells.drop_last());
    }
}

/// Replacing one cell changes the number of cells that hold a payload by
/// what that one cell contributes.
pub proof fn lemma_alive_update<T>(cells: Seq<SharedCellView<T>>, index: int, cell: SharedCellView<T>)
    requires
        0 <= index < cells.len(),
    ensures
        alive(cells.update(index, cell)) + (if cells[index].payload.is_some() {
            1nat
        } else {
            0nat
        }) == alive(cells) + (if cell.payload.is_some() {
            1nat
        } else {
            0nat
        }),
    decreases cells.len(),
{
    let updated = cells.update(index, cell);
    if index == cells.len() - 1 {
        assert(updated.drop_last() =~= cells.drop_last());
    } else {
        lemma_alive_update(cells.drop_last(), index, cell);
        assert(updated.drop_last() =~= cells.drop_last().update(index, cell));
    }
}

/// A new cell with a payload adds one to the number of cells that hold a
/// payload.
pub proof fn lemma_alive_push<T>(cells: Seq<SharedCellView<T>>, cell: SharedCellView<T>)
    ensures
        alive(cells.push(cell)) == alive(cells) + (if cell.payload.is_some() {
            1nat
        } else {
            0nat
        }),
{
    assert(cells.push(cell).drop_last() =~= cells);
}

/// A cell is destroyed at most once: once its payload is gone, no handle
/// to it is alive, so nothing can be dropped on it again.  And a cell with
/// a live handle has its payload.
pub proof fn lemma_payload_lives_with_handles<T>(cells: Seq<SharedCellView<T>>, h: HandleView)
    requires
        cells_wf(cells),
        0 <= h.cell < cells.len(),
    ensures
        cells[h.cell].payload.is_none() ==> !live_in(cells, h),
        live_in(cells, h) ==> cells[h.cell].payload.is_some() && cells[h.cell].strong_count() >= 1,
{
    if cells[h.cell].owners.contains(h.token) {
        assert(cells[h.cell].owners.len() > 0);
    }
}

struct SharedCell<T> {
    value: Option<T>,
    strong_count: usize,
    owners: Ghost<Set<nat>>,
}

/// Owner of all shared cells of one payload type.
///
/// Cells are never reused: a cell keeps its index for the life of the
/// store, also after its payload is gone.
pub struct Store<T> {
    cells: Vec<SharedCell<T>>,
    issued: Ghost<nat>,
}

impl<T> View for Store<T> {
    type V = Seq<SharedCellView<T>>;

    closed spec fn view(&self) -> Seq<SharedCellView<T>> {
        Seq::new(
            self.cells@.len(),
            |i: int| SharedCellView { payload: self.cells@[i].value, owners: self.cells@[i].owners@ },
        )
    }
}

impl<T> Store<T> {
    /// The stored counts agree with the owner sets, and every token in use
    /// was issued by this store.
    pub closed spec fn rep_inv(&self) -> bool {
        forall|i: int|
            0 <= i < self.cells@.len() ==> {
                &&& (#[trigger] self.cells@[i]).strong_count as nat == self.cells@[i].owners@.len()
                &&& forall|t: nat| #[trigger] self.cells@[i].owners@.contains(t) ==> t < self.issued@
            }
    }

    /// Well-formedness: every constructor establishes it and every method
    /// keeps it.
    pub open spec fn wf(&self) -> bool {
        &&& self.rep_inv()
        &&& cells_wf(self@)
    }

    /// `h` is one of the live handles of this store.
    pub open spec fn is_live(&self, h: Handle) -> bool {
        live_in(self@, h@)
    }

    /// No cell counts `token` among its handles.
    pub open spec fn unused(&self, token: nat) -> bool {
        forall|i: int| 0 <= i < self@.len() ==> !(#[trigger] self@[i]).owners.contains(token)
    }

    /// The number of cells fits the machine's index type.
    pub proof fn lemma_len_fits(&self)
        ensures
            self@.len() <= usize::MAX,
    {
        assert(self.cells.len() == self.cells@.len());
    }

    /// A store without cells.
    pub fn new() -> (s: Self)
        ensures
            s.wf(),
            s@ == Seq::<SharedCellView<T>>::empty(),
    {
        Store { cells: Vec::new(), issued: Ghost(0) }
    }

    /// The number of cells made so far, destroyed ones included.
    pub fn len(&self) -> (n: usize)
        ensures
            n == self@.len(),
    {
        self.cells.len()
    }

    /// The number of cells that still hold their payload.
    pub fn live_cells(&self) -> (n: usize)
        requires
            self.wf(),
        ensures
            n == alive(self@),
    {
        let mut n: usize = 0;
        let mut i: usize = 0;
        while i < self.cells.len()
            invariant
                i <= self.cells.len(),
                self.wf(),
                n == alive(self@.take(i as int)),
                n <= i,
            decreases self.cells.len() - i,
        {
            assert(self@.take(i + 1).drop_last() =~= self@.take(i as int));
            if self.cells[i].strong_count > 0 {
                n = n + 1;
            }
            i = i + 1;
        }
        assert(self@.take(i as int) =~= self@);
        n
    }

    /// Makes a cell for `value` and returns its first handle: the strong
    /// count of the new cell is 1.
    pub fn new_handle(&mut self, value: T) -> (h: Handle)
        requires
            old(self).wf(),
        ensures
            final(self).wf(),
            h@.cell == old(self)@.len(),
            old(self).unused(h@.token),
            final(self)@ == old(self)@.push(SharedCellView::fresh(value, h@.token)),
            final(self).is_live(h),
            final(self)@[h@.cell].strong_count() == 1,
    {
        let cell = self.cells.len();
        let ghost token = self.issued@;
        let ghost owners = set![token];
        self.cells.push(SharedCell { value: Some(value), strong_count: 1, owners: Ghost(owners) });
        self.issued = Ghost(token + 1);
        assert(self@ =~= old(self)@.push(SharedCellView::fresh(value, token)));
        Handle { cell, token: Ghost(token) }
    }

    /// Another handle to the cell of `h`: the strong count grows by exactly
    /// 1 and the payload is neither copied nor touched.
    pub fn clone_handle(&mut self, h: &Handle) -> (r: Handle)
        requires
            old(self).wf(),
            old(self).is_live(*h),
            old(self)@[h@.cell].strong_count() < usize::MAX,
        ensures
            final(self).wf(),
            r@.cell == h@.cell,
            old(self).unused(r@.token),
            final(self)@ == old(self)@.update(h@.cell, old(self)@[h@.cell].acquire(r@.token)),
            final(self).is_live(r),
            final(self)@[h@.cell].strong_count() == old(self)@[h@.cell].strong_count() + 1,
    {
        let cell = h.cell;
        let ghost token = self.issued@;
        let count = self.cells[cell].strong_count;
        self.cells[cell].strong_count = count + 1;
        self.cells[cell].owners = Ghost(old(self).cells@[cell as int].owners@.insert(token));
        self.issued = Ghost(token + 1);
        assert(self@ =~= old(self)@.update(h@.cell, old(self)@[h@.cell].acquire(token)));
        Handle { cell, token: Ghost(token) }
    }

    /// The number of live handles to the cell of `h`.
    pub fn strong_count(&self, h: &Handle) -> (n: usize)
        requires
            self.wf(),
            self.is_live(*h),
        ensures
            n == self@[h@.cell].strong_count(),
            n >= 1,
    {
        self.cells[h.cell].strong_count
    }

    /// The number of live handles to the cell at `index`, which is 0 once
    /// the cell is destroyed.  This looks at the bookkeeping only and needs
    /// no handle.
    pub fn count_at(&self, index: usize) -> (n: usize)
        requires
            self.wf(),
            index < self@.len(),
        ensures
            n == self@[index as int].strong_count(),
    {
        self.cells[index].strong_count
    }

    /// Whether the cell that `h` names exists and still has its payload.
    /// Every live handle passes this test.
    pub fn contains(&self, h: &Handle) -> (present: bool)
        requires
            self.wf(),
        ensures
            present == (h@.cell < self@.len() && self@[h@.cell].payload.is_some()),
            self.is_live(*h) ==> present,
    {
        h.cell < self.cells.len() && self.cells[h.cell].strong_count > 0
    }

    /// Read access to the payload behind `h`.
    pub fn get(&self, h: &Handle) -> (payload: &T)
        requires
            self.wf(),
            self.is_live(*h),
        ensures
            self@[h@.cell].payload == Some(*payload),
    {
        self.cells[h.cell].value.as_ref().unwrap()
    }

    /// Mutable access to the payload behind `h`, for the modules of this
    /// crate that keep a borrow cell behind a handle.  The handles of the
    /// cell stay as they are.
    pub(crate) fn payload_mut(&mut self, h: &Handle) -> (payload: &mut T)
        requires
            old(self).wf(),
            old(self).is_live(*h),
        ensures
            old(self)@[h@.cell].payload == Some(*payload),
            final(self)@ == old(self)@.update(
                h@.cell,
                SharedCellView { payload: Some(*final(payload)), owners: old(self)@[h@.cell].owners },
            ),
            final(self).rep_inv(),
    {
        self.cells[h.cell].value.as_mut().unwrap()
    }

    /// Ends `h`: the strong count of its cell falls by exactly 1.  The
    /// payload leaves the store, and is returned, if and only if the count
    /// reaches 0.
    pub fn drop_handle(&mut self, h: Handle) -> (destroyed: Option<T>)
        requires
            old(self).wf(),
            old(self).is_live(h),
        ensures
            final(self).wf(),
            final(self)@ == old(self)@.update(h@.cell, old(self)@[h@.cell].release(h@.token)),
            final(self)@[h@.cell].strong_count() == old(self)@[h@.cell].strong_count() - 1,
            destroyed.is_some() <==> final(self)@[h@.cell].strong_count() == 0,
            destroyed.is_some() ==> destroyed == old(self)@[h@.cell].payload,
            !final(self).is_live(h),
    {
        let cell = h.cell;
        let count = self.cells[cell].strong_count;
        self.cells[cell].strong_count = count - 1;
        self.cells[cell].owners = Ghost(old(self).cells@[cell as int].owners@.remove(h.token@));
        let destroyed = if count == 1 {
            self.cells[cell].value.take()
        } else {
            None
        };
        assert(self@ =~= old(self)@.update(h@.cell, old(self)@[h@.cell].release(h@.token)));
        destroyed
    }
}

} // verus!
