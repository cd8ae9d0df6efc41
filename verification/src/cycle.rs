//! The cons list whose links can be redirected, and the cycle that this
//! makes possible.
//!
//! Each node keeps the handle to its successor in a [`Cell`], so the link
//! can be replaced after the node is built.  Pointing a node back at one of
//! its predecessors closes a cycle: every node in it is then owned by a
//! link, no strong count in it can reach 0, and the nodes stay in the store
//! although nothing outside refers to them.  The store does not look for
//! such cycles.

use vstd::prelude::*;
use crate::cell::BorrowState;
use crate::cell::Cell;
use crate::chain::external;
use crate::chain::insert;
use crate::chain::link_of;
use crate::chain::links_wf;
use crate::chain::release;
use crate::chain::share;
use crate::chain::Link;
use crate::chain::Linked;
use crate::shared::alive;
use crate::shared::lemma_alive_update;
use crate::shared::live_in;
use crate::shared::Handle;
use crate::shared::HandleView;
use crate::shared::SharedCellView;
use crate::shared::Store;

verus! {

/// A node of the list with redirectable links.
pub enum CycList {
    /// A value, and the slot that holds the handle to the next node.
    Cons(i32, Cell<Handle>),
    /// The end of a list.
    Nil,
}

impl Linked for CycList {
    open spec fn successor(&self) -> Option<Handle> {
        match self {
            CycList::Cons(_, slot) => Some(slot@.value),
            CycList::Nil => None,
        }
    }
}

impl Link for CycList {
    fn into_successor(self) -> (next: Option<Handle>) {
        match self {
            CycList::Cons(_, slot) => Some(slot.into_inner()),
            CycList::Nil => None,
        }
    }
}

impl CycList {
    /// The value of the node, if it holds one.
    pub open spec fn spec_head(&self) -> Option<i32> {
        match self {
            CycList::Cons(value, _) => Some(*value),
            CycList::Nil => None,
        }
    }

    /// The slot of the node is well formed and lent to nobody.
    pub open spec fn idle(&self) -> bool {
        match self {
            CycList::Cons(_, slot) => slot.wf() && slot@.state() == BorrowState::Unborrowed,
            CycList::Nil => true,
        }
    }

    /// The value of the node, if it holds one.
    pub fn head(&self) -> (value: Option<i32>)
        ensures
            value == self.spec_head(),
    {
        match self {
            CycList::Cons(value, _) => Some(*value),
            CycList::Nil => None,
        }
    }

    /// The slot that holds the link to the next node, if the node has one.
    pub fn tail(&self) -> (slot: Option<&Cell<Handle>>)
        ensures
            match slot {
                Some(s) => *self matches CycList::Cons(_, own) && *s == own,
                None => *self is Nil,
            },
    {
        match self {
            CycList::Cons(_, slot) => Some(slot),
            CycList::Nil => None,
        }
    }
}

/// The store is well formed, so are its links, and no slot is lent out.
pub open spec fn cycle_wf(store: Store<CycList>) -> bool {
    &&& store.wf()
    &&& links_wf(store@)
    &&& forall|i: int|
        0 <= i < store@.len() && (#[trigger] store@[i]).payload.is_some()
            ==> store@[i].payload.unwrap().idle()
}

/// The values met on a walk of at most `limit` steps along the links,
/// starting at cell `index`.
pub open spec fn walk(cells: Seq<SharedCellView<CycList>>, index: int, limit: nat) -> Seq<i32>
    decreases limit,
{
    if limit == 0 {
        Seq::empty()
    } else {
        match cells[index].payload {
            Some(CycList::Cons(value, slot)) => seq![value] + walk(
                cells,
                slot@.value@.cell,
                (limit - 1) as nat,
            ),
            _ => Seq::empty(),
        }
    }
}

/// Makes the end of a list and returns the first handle to it.
pub fn nil(store: &mut Store<CycList>) -> (h: Handle)
    requires
        cycle_wf(*old(store)),
    ensures
        cycle_wf(*final(store)),
        h@.cell == old(store)@.len(),
        old(store).unused(h@.token),
        final(store)@ == old(store)@.push(SharedCellView::fresh(CycList::Nil, h@.token)),
        final(store).is_live(h),
        external(final(store)@, h@),
        forall|x: HandleView| external(old(store)@, x) ==> #[trigger] external(final(store)@, x),
{
    insert(store, CycList::Nil)
}

/// Makes a node that holds `value` and links to the node behind `next`,
/// and returns the first handle to the new node.  The node owns `next`
/// from now on.
pub fn cons(store: &mut Store<CycList>, value: i32, next: Handle) -> (h: Handle)
    requires
        cycle_wf(*old(store)),
        old(store).is_live(next),
        external(old(store)@, next@),
    ensures
        cycle_wf(*final(store)),
        h@.cell == old(store)@.len(),
        old(store).unused(h@.token),
        final(store)@.len() == old(store)@.len() + 1,
        forall|i: int| 0 <= i < old(store)@.len() ==> #[trigger] final(store)@[i] == old(store)@[i],
        final(store)@[h@.cell].owners == set![h@.token],
        final(store)@[h@.cell].payload matches Some(node) && node.spec_head() == Some(value)
            && node.successor() == Some(next),
        final(store).is_live(h),
        external(final(store)@, h@),
        forall|x: HandleView|
            external(old(store)@, x) && x.token != next@.token ==> #[trigger] external(
                final(store)@,
                x,
            ),
{
    insert(store, CycList::Cons(value, Cell::new(next)))
}

/// Redirects the link of the node behind `node` to the node behind `next`
/// and returns the handle that the link held before.  The slot is borrowed
/// exclusively for the exchange and released again.
///
/// The returned handle is an external one from now on, and `next` is
/// owned by the node.
pub fn set_tail(store: &mut Store<CycList>, node: &Handle, next: Handle) -> (previous: Handle)
    requires
        cycle_wf(*old(store)),
        old(store).is_live(*node),
        old(store)@[node@.cell].payload.unwrap() is Cons,
        old(store).is_live(next),
        external(old(store)@, next@),
    ensures
        cycle_wf(*final(store)),
        final(store)@.len() == old(store)@.len(),
        forall|i: int|
            0 <= i < old(store)@.len() && i != node@.cell ==> #[trigger] final(store)@[i] == old(
                store,
            )@[i],
        final(store)@[node@.cell].owners == old(store)@[node@.cell].owners,
        final(store)@[node@.cell].payload matches Some(after) && after.spec_head() == old(
            store,
        )@[node@.cell].payload.unwrap().spec_head() && after.successor() == Some(next),
        Some(previous) == old(store)@[node@.cell].payload.unwrap().successor(),
        final(store).is_live(previous),
        external(final(store)@, previous@),
        forall|x: HandleView|
            external(old(store)@, x) && x.token != next@.token ==> #[trigger] external(
                final(store)@,
                x,
            ),
        alive(final(store)@) == alive(old(store)@),
{
    let ghost before = store@;
    let ghost index = node@.cell;
    assert(before[index].payload.unwrap().idle());
    assert(link_of(before, index) matches Some(link) && live_in(before, link));
    let payload = store.payload_mut(node);
    let previous = match payload {
        CycList::Cons(_, slot) => {
            let guard = slot.borrow_mut();
            let previous = slot.set(&guard, next);
            slot.release_mut(guard);
            previous
        },
        CycList::Nil => next,
    };
    proof {
        let after = store@;
        lemma_alive_update(before, index, after[index]);
        assert(after =~= before.update(index, after[index]));
        assert forall|i: int| 0 <= i < after.len() && i != index implies #[trigger] link_of(
            after,
            i,
        ) == link_of(before, i) by {}
        assert(link_of(after, index) == Some(next@));
        assert(link_of(before, index) == Some(previous@));
        assert forall|i: int| 0 <= i < after.len() implies (#[trigger] link_of(after, i) matches Some(
            link,
        ) ==> live_in(after, link) && link.token != previous@.token) by {
            if i != index {
                assert(link_of(after, i) == link_of(before, i));
            }
        }
        assert forall|i: int, j: int|
            0 <= i < after.len() && 0 <= j < after.len() && i != j implies (#[trigger] link_of(
            after,
            i,
        ) matches Some(a) ==> (#[trigger] link_of(after, j) matches Some(b) ==> a.token
            != b.token)) by {
            if i != index {
                assert(link_of(after, i) == link_of(before, i));
            }
            if j != index {
                assert(link_of(after, j) == link_of(before, j));
            }
        }
        assert forall|x: HandleView|
            external(before, x) && x.token != next@.token implies #[trigger] external(after, x) by {
            assert forall|i: int| 0 <= i < after.len() implies (#[trigger] link_of(after, i) matches Some(
                link,
            ) ==> link.token != x.token) by {
                if i != index {
                    assert(link_of(after, i) == link_of(before, i));
                }
            }
        }
    }
    previous
}

/// The values met on a walk of at most `limit` steps along the links,
/// starting at the node behind `start`.  On a cycle the walk goes round
/// until the steps are used up.
pub fn values(store: &Store<CycList>, start: &Handle, limit: usize) -> (values: Vec<i32>)
    requires
        cycle_wf(*store),
        store.is_live(*start),
    ensures
        values@ == walk(store@, start@.cell, limit as nat),
{
    let mut values: Vec<i32> = Vec::new();
    let mut at: &Handle = start;
    let mut remaining: usize = limit;
    while remaining > 0
        invariant
            cycle_wf(*store),
            store.is_live(*at),
            values@ + walk(store@, at@.cell, remaining as nat) == walk(
                store@,
                start@.cell,
                limit as nat,
            ),
        decreases remaining,
    {
        match store.get(at) {
            CycList::Nil => {
                remaining = 0;
            },
            CycList::Cons(value, slot) => {
                let ghost before = values@;
                let ghost here = at@.cell;
                assert(store@[here].payload.unwrap().idle());
                assert(link_of(store@, here) == Some(slot@.value@));
                let next = slot.peek();
                values.push(*value);
                assert(values@ + walk(store@, next@.cell, (remaining - 1) as nat) =~= before
                    + (seq![*value] + walk(store@, next@.cell, (remaining - 1) as nat)));
                at = next;
                remaining = remaining - 1;
            },
        }
    }
    assert(values@ + Seq::<i32>::empty() =~= values@);
    values
}

/// What [`cycle_reference`] observed.
pub struct CycleReport {
    /// Strong count of node `a` once it is built.
    pub a_initial: usize,
    /// Strong count of `a` once node `b` links to it.
    pub a_after_b: usize,
    /// Strong count of `b` once it is built.
    pub b_initial: usize,
    /// Strong count of `b` once `a` links back to it.
    pub b_after_cycle: usize,
    /// Strong count of `a` once the cycle is closed.
    pub a_after_cycle: usize,
    /// The values met on four steps from `a`: the walk goes round.
    pub walk: Vec<i32>,
    /// Strong count of `a` once both outside handles are dropped.
    pub a_leaked: usize,
    /// Strong count of `b` once both outside handles are dropped.
    pub b_leaked: usize,
    /// The number of payloads left in the store at the end.
    pub cells_left: usize,
}

/// Builds node `a` with value 5 and node `b` with value 10 that links to
/// `a`, then redirects the link of `a` to `b`.  Both strong counts are 2
/// from then on.  Dropping the two outside handles brings each count to 1
/// and destroys nothing: the two nodes are leaked.
pub fn cycle_reference() -> (report: CycleReport)
    ensures
        report.a_initial == 1,
        report.a_after_b == 2,
        report.b_initial == 1,
        report.b_after_cycle == 2,
        report.a_after_cycle == 2,
        report.walk@ == seq![5i32, 10i32, 5i32, 10i32],
        report.a_leaked == 1,
        report.b_leaked == 1,
        report.cells_left == 2,
{
    let mut store: Store<CycList> = Store::new();
    let end = nil(&mut store);
    let a = cons(&mut store, 5, end);
    let a_initial = store.strong_count(&a);

    let a_for_b = share(&mut store, &a);
    let b = cons(&mut store, 10, a_for_b);
    let a_after_b = store.strong_count(&a);
    let b_initial = store.strong_count(&b);

    let b_for_a = share(&mut store, &b);
    let old_end = set_tail(&mut store, &a, b_for_a);
    release(&mut store, old_end);
    let b_after_cycle = store.strong_count(&b);
    let a_after_cycle = store.strong_count(&a);

    let round = values(&store, &a, 4);

    let a_cell = a.cell();
    let b_cell = b.cell();
    release(&mut store, a);
    release(&mut store, b);
    let a_leaked = store.count_at(a_cell);
    let b_leaked = store.count_at(b_cell);
    let cells_left = store.live_cells();
    proof {
        reveal_with_fuel(walk, 5);
        reveal_with_fuel(alive, 4);
        assert(store@.len() == 3);
        assert(store@.drop_last().drop_last().drop_last().len() == 0);
    }

    CycleReport {
        a_initial,
        a_after_b,
        b_initial,
        b_after_cycle,
        a_after_cycle,
        walk: round,
        a_leaked,
        b_leaked,
        cells_left,
    }
}

} // verus!
