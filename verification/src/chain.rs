//! Payloads that own a handle to a successor, and what dropping the last
//! handle to such a payload sets off.
//!
//! Every cons list of this crate keeps its links inside payloads of a
//! [`Store`].  A link is a handle like any other: it counts towards the
//! strong count of its target, and it ends when the payload that owns it is
//! destroyed.  That may destroy the target too, and so on down the chain.
//! Where the links form a cycle, no count in it reaches 0 and the cells of
//! the cycle stay in the store for good.

use vstd::prelude::*;
use crate::shared::alive;
use crate::shared::cells_wf;
use crate::shared::lemma_alive_bound;
use crate::shared::lemma_alive_push;
use crate::shared::lemma_alive_update;
use crate::shared::live_in;
use crate::shared::Handle;
use crate::shared::HandleView;
use crate::shared::SharedCellView;
use crate::shared::Store;

verus! {

/// A payload that may own one handle into the store it lives in.
pub trait Linked: Sized {
    /// The handle through which the payload owns its successor.
    spec fn successor(&self) -> Option<Handle>;
}

/// A payload that owns nothing but its link, so that it can be taken apart
/// by handing the link out.
pub trait Link: Linked {
    /// Ends the payload and hands out the handle it owned.
    fn into_successor(self) -> (next: Option<Handle>)
        ensures
            next == self.successor(),
    ;
}

/// The link that the payload of cell `index` owns, if the cell has a
/// payload and the payload a successor.
pub open spec fn link_of<T: Linked>(cells: Seq<SharedCellView<T>>, index: int) -> Option<HandleView> {
    match cells[index].payload {
        Some(payload) => match payload.successor() {
            Some(h) => Some(h@),
            None => None,
        },
        None => None,
    }
}

/// Every link is a live handle, and no two payloads own the same one.
pub open spec fn links_wf<T: Linked>(cells: Seq<SharedCellView<T>>) -> bool {
    &&& forall|i: int|
        0 <= i < cells.len() ==> (#[trigger] link_of(cells, i) matches Some(h) ==> live_in(
            cells,
            h,
        ))
    &&& forall|i: int, j: int|
        0 <= i < cells.len() && 0 <= j < cells.len() && i != j ==> (#[trigger] link_of(cells, i)
            matches Some(a) ==> (#[trigger] link_of(cells, j) matches Some(b) ==> a.token
            != b.token))
}

/// No payload owns `h`: whoever holds it, holds it from outside the store.
pub open spec fn external<T: Linked>(cells: Seq<SharedCellView<T>>, h: HandleView) -> bool {
    forall|i: int|
        0 <= i < cells.len() ==> (#[trigger] link_of(cells, i) matches Some(link) ==> link.token
            != h.token)
}

/// The cells after the handle `h` has been dropped: its cell loses one
/// handle; if that destroys the payload, the link that the payload owned
/// is dropped in the same way.
pub open spec fn cascade<T: Linked>(cells: Seq<SharedCellView<T>>, h: HandleView) -> Seq<
    SharedCellView<T>,
>
    decreases alive(cells),
    via cascade_decreases::<T>
{
    if 0 <= h.cell < cells.len() {
        let after = cells.update(h.cell, cells[h.cell].release(h.token));
        if cells[h.cell].payload.is_some() && after[h.cell].payload.is_none() {
            match link_of(cells, h.cell) {
                Some(next) => cascade(after, next),
                None => after,
            }
        } else {
            after
        }
    } else {
        cells
    }
}

#[via_fn]
proof fn cascade_decreases<T: Linked>(cells: Seq<SharedCellView<T>>, h: HandleView) {
    if 0 <= h.cell < cells.len() {
        lemma_alive_update(cells, h.cell, cells[h.cell].release(h.token));
    }
}

/// A finite set of size 1 has no two distinct elements.
proof fn lemma_single_owner(owners: Set<nat>, a: nat, b: nat)
    requires
        owners.finite(),
        owners.contains(a),
        owners.contains(b),
        owners.remove(a).len() == 0,
    ensures
        a == b,
{
    if a != b {
        assert(owners.remove(a).contains(b));
    }
}

/// Dropping an external handle keeps the links well formed and every
/// external handle external.  Where the drop destroys a payload, the link
/// that the payload owned is live and external afterwards.
pub proof fn lemma_drop_keeps_links<T: Linked>(cells: Seq<SharedCellView<T>>, h: HandleView)
    requires
        cells_wf(cells),
        links_wf(cells),
        live_in(cells, h),
        external(cells, h),
    ensures
        ({
            let after = cells.update(h.cell, cells[h.cell].release(h.token));
            &&& links_wf(after)
            &&& forall|x: HandleView| external(cells, x) ==> #[trigger] external(after, x)
            &&& forall|x: HandleView|
                live_in(cells, x) && external(cells, x) && x.token != h.token
                    ==> #[trigger] live_in(after, x)
            &&& after[h.cell].payload.is_none() ==> (link_of(cells, h.cell) matches Some(next)
                ==> live_in(after, next) && external(after, next))
        }),
{
    let after = cells.update(h.cell, cells[h.cell].release(h.token));
    assert forall|i: int| 0 <= i < cells.len() implies (#[trigger] link_of(after, i) matches Some(
        link,
    ) ==> link_of(cells, i) == Some(link) && live_in(after, link)) by {
        if let Some(link) = link_of(after, i) {
            assert(link_of(cells, i) == Some(link));
            assert(live_in(cells, link));
            assert(link.token != h.token);
        }
    }
    assert forall|x: HandleView| external(cells, x) implies #[trigger] external(after, x) by {
        assert forall|i: int| 0 <= i < after.len() implies (#[trigger] link_of(after, i) matches Some(
            link,
        ) ==> link.token != x.token) by {
            if let Some(link) = link_of(after, i) {
                assert(link_of(cells, i) == Some(link));
            }
        }
    }
    if after[h.cell].payload.is_none() {
        if let Some(next) = link_of(cells, h.cell) {
            assert(live_in(cells, next));
            assert(next.token != h.token);
            if next.cell == h.cell {
                lemma_single_owner(cells[h.cell].owners, h.token, next.token);
            }
            assert(live_in(after, next));
            assert forall|i: int| 0 <= i < after.len() implies (#[trigger] link_of(after, i) matches Some(
                link,
            ) ==> link.token != next.token) by {
                if let Some(link) = link_of(after, i) {
                    assert(i != h.cell);
                    assert(link_of(cells, i) == Some(link));
                }
            }
        }
    }
}

/// Handles taken on a cell leave every link as it was, and a token that was
/// in use nowhere belongs to no link.
pub proof fn lemma_acquire_keeps_links<T: Linked>(
    cells: Seq<SharedCellView<T>>,
    index: int,
    token: nat,
)
    requires
        links_wf(cells),
        0 <= index < cells.len(),
        forall|i: int| 0 <= i < cells.len() ==> !(#[trigger] cells[i]).owners.contains(token),
    ensures
        ({
            let after = cells.update(index, cells[index].acquire(token));
            &&& links_wf(after)
            &&& external(after, HandleView { cell: index, token })
            &&& forall|x: HandleView| external(cells, x) ==> #[trigger] external(after, x)
        }),
{
    let after = cells.update(index, cells[index].acquire(token));
    assert forall|i: int| 0 <= i < cells.len() implies #[trigger] link_of(after, i) == link_of(
        cells,
        i,
    ) by {}
    assert forall|i: int| 0 <= i < after.len() implies (#[trigger] link_of(after, i) matches Some(
        link,
    ) ==> link.token != token) by {
        if let Some(link) = link_of(after, i) {
            assert(link_of(cells, i) == Some(link));
            assert(live_in(cells, link));
        }
    }
    assert forall|x: HandleView| external(cells, x) implies #[trigger] external(after, x) by {
        assert forall|i: int| 0 <= i < after.len() implies (#[trigger] link_of(after, i) matches Some(
            link,
        ) ==> link.token != x.token) by {
            assert(link_of(after, i) == link_of(cells, i));
        }
    }
}

/// A new cell whose payload owns a live, external handle, or none, keeps
/// the links well formed; its own first handle is external.
pub proof fn lemma_push_keeps_links<T: Linked>(cells: Seq<SharedCellView<T>>, payload: T, token: nat)
    requires
        links_wf(cells),
        forall|i: int| 0 <= i < cells.len() ==> !(#[trigger] cells[i]).owners.contains(token),
        payload.successor() matches Some(next) ==> live_in(cells, next@) && external(cells, next@),
    ensures
        ({
            let after = cells.push(SharedCellView::fresh(payload, token));
            &&& links_wf(after)
            &&& external(after, HandleView { cell: cells.len() as int, token })
            &&& forall|x: HandleView|
                external(cells, x) && (payload.successor() matches Some(next) ==> next@.token
                    != x.token) ==> #[trigger] external(after, x)
        }),
{
    let after = cells.push(SharedCellView::fresh(payload, token));
    let last = cells.len() as int;
    assert forall|i: int| 0 <= i < cells.len() implies #[trigger] link_of(after, i) == link_of(
        cells,
        i,
    ) by {}
    assert forall|i: int| 0 <= i < after.len() implies (#[trigger] link_of(after, i) matches Some(
        link,
    ) ==> live_in(after, link) && link.token != token) by {
        if let Some(link) = link_of(after, i) {
            if i < last {
                assert(link_of(cells, i) == Some(link));
                assert(live_in(cells, link));
            } else {
                assert(live_in(cells, link));
            }
        }
    }
    assert forall|i: int, j: int|
        0 <= i < after.len() && 0 <= j < after.len() && i != j implies (#[trigger] link_of(after, i)
        matches Some(a) ==> (#[trigger] link_of(after, j) matches Some(b) ==> a.token
        != b.token)) by {
        if i < last {
            assert(link_of(after, i) == link_of(cells, i));
        }
        if j < last {
            assert(link_of(after, j) == link_of(cells, j));
        }
    }
    assert forall|x: HandleView|
        external(cells, x) && (payload.successor() matches Some(next) ==> next@.token
            != x.token) implies #[trigger] external(after, x) by {
        assert forall|i: int| 0 <= i < after.len() implies (#[trigger] link_of(after, i) matches Some(
            link,
        ) ==> link.token != x.token) by {
            if i < last {
                assert(link_of(after, i) == link_of(cells, i));
            }
        }
    }
}

/// A cell that a link points to has its payload: as long as the link is
/// there, the count of its target is at least 1.  In a cycle every cell is
/// the target of a link, so no cell of a cycle is ever destroyed.
pub proof fn lemma_linked_cell_is_kept<T: Linked>(cells: Seq<SharedCellView<T>>, index: int)
    requires
        cells_wf(cells),
        links_wf(cells),
        0 <= index < cells.len(),
    ensures
        link_of(cells, index) matches Some(link) ==> cells[link.cell].payload.is_some()
            && cells[link.cell].strong_count() >= 1,
{
    if let Some(link) = link_of(cells, index) {
        assert(live_in(cells, link));
        assert(cells[link.cell].owners.len() > 0);
    }
}

/// Dropping a handle to a cell that has other handles destroys nothing:
/// the cell loses the one handle and every payload stays.
pub proof fn lemma_shared_cell_survives<T: Linked>(cells: Seq<SharedCellView<T>>, h: HandleView)
    requires
        cells_wf(cells),
        live_in(cells, h),
        cells[h.cell].strong_count() >= 2,
    ensures
        cascade(cells, h) == cells.update(h.cell, cells[h.cell].release(h.token)),
        cascade(cells, h)[h.cell].payload == cells[h.cell].payload,
        cascade(cells, h)[h.cell].strong_count() == cells[h.cell].strong_count() - 1,
        alive(cascade(cells, h)) == alive(cells),
{
    lemma_alive_update(cells, h.cell, cells[h.cell].release(h.token));
}

/// Puts `payload` into a cell of its own and returns the first handle to
/// it.  The handle that the payload owns, if any, is a link from now on.
pub fn insert<T: Linked>(store: &mut Store<T>, payload: T) -> (h: Handle)
    requires
        old(store).wf(),
        links_wf(old(store)@),
        payload.successor() matches Some(next) ==> old(store).is_live(next) && external(
            old(store)@,
            next@,
        ),
    ensures
        final(store).wf(),
        links_wf(final(store)@),
        h@.cell == old(store)@.len(),
        old(store).unused(h@.token),
        final(store)@ == old(store)@.push(SharedCellView::fresh(payload, h@.token)),
        final(store).is_live(h),
        external(final(store)@, h@),
        forall|x: HandleView|
            external(old(store)@, x) && (payload.successor() matches Some(next) ==> next@.token
                != x.token) ==> #[trigger] external(final(store)@, x),
        alive(final(store)@) == alive(old(store)@) + 1,
{
    let h = store.new_handle(payload);
    proof {
        lemma_push_keeps_links(old(store)@, payload, h@.token);
        lemma_alive_push(old(store)@, SharedCellView::fresh(payload, h@.token));
    }
    h
}

/// Another handle to the cell of `h`, held from outside the store.
pub fn share<T: Linked>(store: &mut Store<T>, h: &Handle) -> (r: Handle)
    requires
        old(store).wf(),
        links_wf(old(store)@),
        old(store).is_live(*h),
        old(store)@[h@.cell].strong_count() < usize::MAX,
    ensures
        final(store).wf(),
        links_wf(final(store)@),
        r@.cell == h@.cell,
        old(store).unused(r@.token),
        final(store)@ == old(store)@.update(h@.cell, old(store)@[h@.cell].acquire(r@.token)),
        final(store).is_live(r),
        final(store)@[h@.cell].strong_count() == old(store)@[h@.cell].strong_count() + 1,
        external(final(store)@, r@),
        forall|x: HandleView| external(old(store)@, x) ==> #[trigger] external(final(store)@, x),
        alive(final(store)@) == alive(old(store)@),
{
    let r = store.clone_handle(h);
    proof {
        lemma_acquire_keeps_links(old(store)@, h@.cell, r@.token);
        lemma_alive_update(old(store)@, h@.cell, old(store)@[h@.cell].acquire(r@.token));
    }
    r
}

/// Drops the external handle `h` and every link that its end sets free.
/// Returns the number of payloads destroyed on the way.
///
/// The walk ends at the first cell that keeps a handle.  In a cycle that
/// is every cell, so a cycle is never destroyed.
pub fn release<T: Link>(store: &mut Store<T>, h: Handle) -> (destroyed: usize)
    requires
        old(store).wf(),
        links_wf(old(store)@),
        old(store).is_live(h),
        external(old(store)@, h@),
    ensures
        final(store).wf(),
        links_wf(final(store)@),
        final(store)@ == cascade(old(store)@, h@),
        final(store)@[h@.cell].owners == old(store)@[h@.cell].owners.remove(h@.token),
        destroyed + alive(final(store)@) == alive(old(store)@),
        destroyed >= 1 <==> old(store)@[h@.cell].strong_count() == 1,
        forall|x: HandleView| external(old(store)@, x) ==> #[trigger] external(final(store)@, x),
        forall|x: HandleView|
            live_in(old(store)@, x) && external(old(store)@, x) && x.token != h@.token
                ==> #[trigger] live_in(final(store)@, x),
{
    let ghost start = store@;
    let ghost first = h@;
    let mut cursor: Option<Handle> = Some(h);
    let mut destroyed: usize = 0;
    proof {
        lemma_alive_bound(start);
        store.lemma_len_fits();
    }
    while cursor.is_some()
        invariant
            store.wf(),
            links_wf(store@),
            store@.len() == start.len(),
            start.len() <= usize::MAX,
            cells_wf(start),
            live_in(start, first),
            alive(start) <= start.len(),
            cursor matches Some(c) ==> store.is_live(c) && external(store@, c@),
            match cursor {
                Some(c) => cascade(store@, c@) == cascade(start, first),
                None => store@ == cascade(start, first),
            },
            destroyed + alive(store@) == alive(start),
            cursor matches Some(c) ==> (destroyed == 0 ==> c@ == first && store@ == start),
            cursor is None ==> (destroyed >= 1 <==> start[first.cell].strong_count() == 1),
            cursor is Some && destroyed >= 1 ==> start[first.cell].strong_count() == 1,
            cursor is None || destroyed >= 1 ==> store@[first.cell].owners
                == start[first.cell].owners.remove(first.token),
            forall|x: HandleView| external(start, x) ==> #[trigger] external(store@, x),
            forall|x: HandleView|
                live_in(start, x) && external(start, x) && x.token != first.token
                    ==> #[trigger] live_in(store@, x),
            cursor matches Some(c) ==> forall|x: HandleView|
                #[trigger] external(start, x) && x.token != first.token ==> x.token != c@.token,
        decreases
                (if cursor.is_some() {
                    alive(store@) + 1
                } else {
                    0
                }),
    {
        let current = cursor.take().unwrap();
        let ghost before = store@;
        proof {
            if destroyed >= 1 && current@.cell == first.cell {
                assert(before[first.cell].owners.contains(current@.token));
                assert(start[first.cell].owners.remove(first.token).len() == 0);
            }
            lemma_drop_keeps_links(before, current@);
            lemma_alive_update(before, current@.cell, before[current@.cell].release(current@.token));
            assert forall|x: HandleView|
                live_in(start, x) && external(start, x) && x.token != first.token implies live_in(
                before.update(current@.cell, before[current@.cell].release(current@.token)),
                x,
            ) by {
                assert(external(before, x));
                assert(live_in(before, x));
                assert(x.token != current@.token);
            }
        }
        match store.drop_handle(current) {
            Some(payload) => {
                destroyed = destroyed + 1;
                cursor = payload.into_successor();
                proof {
                    if cursor is Some {
                        let next = cursor->0;
                        assert(link_of(before, current@.cell) == Some(next@));
                        assert forall|x: HandleView| #[trigger]
                            external(start, x) && x.token != first.token implies x.token
                            != next@.token by {
                            assert(external(before, x));
                        }
                    }
                }
            },
            None => {},
        }
    }
    destroyed
}

} // verus!
