//! The immutable cons list: nodes are made once and then only shared.
//!
//! A node lives in a [`Store`] and is reached through handles.  Two lists
//! that end in the same nodes share them: each holds a handle to the first
//! common node, and the strong count of that node tells how many do.

use vstd::prelude::*;
use crate::chain::cascade;
use crate::chain::external;
use crate::chain::insert;
use crate::chain::link_of;
use crate::chain::links_wf;
use crate::chain::release;
use crate::chain::share;
use crate::chain::Link;
use crate::chain::Linked;
use crate::shared::alive;
use crate::shared::Handle;
use crate::shared::HandleView;
use crate::shared::SharedCellView;
use crate::shared::Store;

verus! {

/// A node of the immutable list.
pub enum List {
    /// A value and a handle to the rest of the list.
    Cons(i32, Handle),
    /// The end of a list.
    Nil,
}

impl Linked for List {
    open spec fn successor(&self) -> Option<Handle> {
        match self {
            List::Cons(_, next) => Some(*next),
            List::Nil => None,
        }
    }
}

impl Link for List {
    fn into_successor(self) -> (next: Option<Handle>) {
        match self {
            List::Cons(_, next) => Some(next),
            List::Nil => None,
        }
    }
}

/// The values of the first `limit` nodes of the list that starts with
/// `node`, read through the links among `cells`.
pub open spec fn values_of(cells: Seq<SharedCellView<List>>, node: List, limit: nat) -> Seq<i32>
    decreases limit,
{
    if limit == 0 {
        Seq::empty()
    } else {
        match node {
            List::Nil => Seq::empty(),
            List::Cons(value, next) => match cells[next@.cell].payload {
                Some(rest) => seq![value] + values_of(cells, rest, (limit - 1) as nat),
                None => seq![value],
            },
        }
    }
}

impl List {
    /// The value of the node, if it holds one.
    pub fn head(&self) -> (value: Option<i32>)
        ensures
            value == (match *self {
                List::Cons(v, _) => Some(v),
                List::Nil => None,
            }),
    {
        match self {
            List::Cons(v, _) => Some(*v),
            List::Nil => None,
        }
    }

    /// The link to the rest of the list, if the node has one.
    pub fn tail(&self) -> (next: Option<&Handle>)
        ensures
            next == (match *self {
                List::Cons(_, h) => Some(&h),
                List::Nil => None,
            }),
    {
        match self {
            List::Cons(_, h) => Some(h),
            List::Nil => None,
        }
    }

    /// The values of the first `limit` nodes of the list that starts with
    /// this node.  The walk is bounded, so it also ends on a list that
    /// never reaches `Nil`.
    pub fn values(&self, store: &Store<List>, limit: usize) -> (values: Vec<i32>)
        requires
            store.wf(),
            links_wf(store@),
            self.successor() matches Some(next) ==> store.is_live(next),
        ensures
            values@ == values_of(store@, *self, limit as nat),
    {
        let mut values: Vec<i32> = Vec::new();
        let mut node: &List = self;
        let mut remaining: usize = limit;
        while remaining > 0
            invariant
                store.wf(),
                links_wf(store@),
                node.successor() matches Some(next) ==> store.is_live(next),
                values@ + values_of(store@, *node, remaining as nat) == values_of(
                    store@,
                    *self,
                    limit as nat,
                ),
            decreases remaining,
        {
            match node {
                List::Nil => {
                    remaining = 0;
                },
                List::Cons(value, next) => {
                    let ghost before = values@;
                    let rest = store.get(next);
                    assert(link_of(store@, next@.cell) == (match rest.successor() {
                        Some(h) => Some(h@),
                        None => None,
                    }));
                    values.push(*value);
                    assert(values@ + values_of(store@, *rest, (remaining - 1) as nat) =~= before + (
                    seq![*value] + values_of(store@, *rest, (remaining - 1) as nat)));
                    node = rest;
                    remaining = remaining - 1;
                },
            }
        }
        assert(values@ + Seq::<i32>::empty() =~= values@);
        values
    }
}

/// Makes the end of a list and returns the first handle to it.
pub fn nil(store: &mut Store<List>) -> (h: Handle)
    requires
        old(store).wf(),
        links_wf(old(store)@),
    ensures
        final(store).wf(),
        links_wf(final(store)@),
        h@.cell == old(store)@.len(),
        old(store).unused(h@.token),
        final(store)@ == old(store)@.push(SharedCellView::fresh(List::Nil, h@.token)),
        final(store).is_live(h),
        external(final(store)@, h@),
        forall|x: HandleView| external(old(store)@, x) ==> #[trigger] external(final(store)@, x),
{
    insert(store, List::Nil)
}

/// Makes a node that holds `value` in front of the list behind `next` and
/// returns the first handle to the node.  The node owns `next` from now
/// on.
pub fn cons(store: &mut Store<List>, value: i32, next: Handle) -> (h: Handle)
    requires
        old(store).wf(),
        links_wf(old(store)@),
        old(store).is_live(next),
        external(old(store)@, next@),
    ensures
        final(store).wf(),
        links_wf(final(store)@),
        h@.cell == old(store)@.len(),
        old(store).unused(h@.token),
        final(store)@ == old(store)@.push(SharedCellView::fresh(List::Cons(value, next), h@.token)),
        final(store).is_live(h),
        external(final(store)@, h@),
        forall|x: HandleView|
            external(old(store)@, x) && x.token != next@.token ==> #[trigger] external(
                final(store)@,
                x,
            ),
{
    insert(store, List::Cons(value, next))
}

/// Ends a node that is held outside the store: the link it owns is
/// dropped, with all that follows from that.  Returns the number of
/// payloads destroyed.
pub fn discard(store: &mut Store<List>, node: List) -> (destroyed: usize)
    requires
        old(store).wf(),
        links_wf(old(store)@),
        node.successor() matches Some(next) ==> old(store).is_live(next) && external(
            old(store)@,
            next@,
        ),
    ensures
        final(store).wf(),
        links_wf(final(store)@),
        final(store)@ == (match node.successor() {
            Some(next) => cascade(old(store)@, next@),
            None => old(store)@,
        }),
        destroyed + alive(final(store)@) == alive(old(store)@),
        forall|x: HandleView| external(old(store)@, x) ==> #[trigger] external(final(store)@, x),
{
    match node.into_successor() {
        Some(next) => release(store, next),
        None => 0,
    }
}

/// What [`use_rc_create_cons`] observed.
pub struct SharingReport {
    /// Strong count of the list `a` once it is built.
    pub after_a: usize,
    /// The same count once a second list, `b`, has `a` as its tail.
    pub after_b: usize,
    /// The same count once a third list, `c`, has `a` as its tail.
    pub after_c: usize,
    /// The same count once `c` is gone again.
    pub after_drop_c: usize,
    /// The values of `b`, front to back.
    pub b: Vec<i32>,
}

/// Builds the list `a` = 5, 10, puts 3 in front of it as `b` and 4 as `c`,
/// then ends `c`, and reports the strong count of `a` after each step:
/// 1, 2, 3 and 2.  The nodes of `a` are shared, not copied.
pub fn use_rc_create_cons() -> (report: SharingReport)
    ensures
        report.after_a == 1,
        report.after_b == 2,
        report.after_c == 3,
        report.after_drop_c == 2,
        report.b@ == seq![3i32, 5i32, 10i32],
{
    let mut store: Store<List> = Store::new();
    let end = nil(&mut store);
    let ten = cons(&mut store, 10, end);
    let a = cons(&mut store, 5, ten);
    let after_a = store.strong_count(&a);

    let a_for_b = share(&mut store, &a);
    let b = List::Cons(3, a_for_b);
    let after_b = store.strong_count(&a);

    let a_for_c = share(&mut store, &a);
    let c = List::Cons(4, a_for_c);
    let after_c = store.strong_count(&a);

    discard(&mut store, c);
    let after_drop_c = store.strong_count(&a);

    let b_values = b.values(&store, 3);
    proof {
        reveal_with_fuel(values_of, 4);
    }
    SharingReport { after_a, after_b, after_c, after_drop_c, b: b_values }
}

} // verus!
