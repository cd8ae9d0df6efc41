//! The cons list whose values are shared and can be changed.
//!
//! A node holds a handle to a cell with its value, and a handle to the
//! next node.  Values live in one store and nodes in another; a
//! [`MutHeap`] keeps the two together.  Several lists may share nodes, and
//! a value may have owners outside any list.  A change made through one
//! owner is seen by all.
//!
//! A node that is destroyed gives up both handles it owned: its value
//! loses an owner, and so does the next node, which may be destroyed in
//! turn.

use vstd::prelude::*;
use crate::cell::BorrowState;
use crate::cell::Cell;
use crate::cell::CellView;
use crate::chain::cascade;
use crate::chain::external;
use crate::chain::lemma_acquire_keeps_links;
use crate::chain::lemma_drop_keeps_links;
use crate::chain::lemma_push_keeps_links;
use crate::chain::link_of;
use crate::chain::links_wf;
use crate::chain::Linked;
use crate::shared::alive;
use crate::shared::cells_wf;
use crate::shared::lemma_alive_bound;
use crate::shared::lemma_alive_update;
use crate::shared::live_in;
use crate::shared::Handle;
use crate::shared::HandleView;
use crate::shared::SharedCellView;
use crate::shared::Store;

verus! {

/// A node of the list with shared, changeable values.
pub enum MutList {
    /// A handle to the cell with the value, and a handle to the next node.
    MutCons(Handle, Handle),
    /// The end of a list.
    Nil,
}

impl Linked for MutList {
    open spec fn successor(&self) -> Option<Handle> {
        match self {
            MutList::MutCons(_, next) => Some(*next),
            MutList::Nil => None,
        }
    }
}

impl MutList {
    /// The handle to the cell with the value, if the node holds one.
    pub open spec fn spec_value(&self) -> Option<Handle> {
        match self {
            MutList::MutCons(value, _) => Some(*value),
            MutList::Nil => None,
        }
    }

    /// The handle to the cell with the value, if the node holds one.
    pub fn value(&self) -> (value: Option<&Handle>)
        ensures
            value == (match self.spec_value() {
                Some(v) => Some(&v),
                None => None,
            }),
    {
        match self {
            MutList::MutCons(v, _) => Some(v),
            MutList::Nil => None,
        }
    }

    /// The handle to the next node, if the node has one.
    pub fn tail(&self) -> (next: Option<&Handle>)
        ensures
            next == (match self.successor() {
                Some(h) => Some(&h),
                None => None,
            }),
    {
        match self {
            MutList::MutCons(_, h) => Some(h),
            MutList::Nil => None,
        }
    }
}

/// Model of the store of values: for each shared cell the model of the
/// value cell in it and the tokens of its handles.
pub type ValueCells = Seq<SharedCellView<CellView<i32>>>;

/// Model of the store of nodes.
pub type NodeCells = Seq<SharedCellView<MutList>>;

/// The value handle that the node in cell `index` owns, if the cell has a
/// payload and the payload a value.
pub open spec fn value_of(nodes: NodeCells, index: int) -> Option<HandleView> {
    match nodes[index].payload {
        Some(node) => match node.spec_value() {
            Some(h) => Some(h@),
            None => None,
        },
        None => None,
    }
}

/// No node owns the value handle `h`: whoever holds it, holds it from
/// outside the lists.
pub open spec fn unheld(nodes: NodeCells, h: HandleView) -> bool {
    forall|i: int|
        0 <= i < nodes.len() ==> (#[trigger] value_of(nodes, i) matches Some(v) ==> v.token
            != h.token)
}

/// Every value handle that a node owns is alive, and no two nodes own the
/// same one.
pub open spec fn values_held(values: ValueCells, nodes: NodeCells) -> bool {
    &&& forall|i: int|
        0 <= i < nodes.len() ==> (#[trigger] value_of(nodes, i) matches Some(v) ==> live_in(
            values,
            v,
        ))
    &&& forall|i: int, j: int|
        0 <= i < nodes.len() && 0 <= j < nodes.len() && i != j ==> (#[trigger] value_of(nodes, i)
            matches Some(a) ==> (#[trigger] value_of(nodes, j) matches Some(b) ==> a.token
            != b.token))
}

/// Every value cell obeys the borrow rule and is lent to nobody.
pub open spec fn all_idle(values: ValueCells) -> bool {
    forall|i: int|
        0 <= i < values.len() ==> ((#[trigger] values[i]).payload matches Some(cell) ==> cell.wf()
            && cell.state() == BorrowState::Unborrowed)
}

/// The values of the first `limit` nodes of the list that starts with
/// `node`, as the cells hold them.
pub open spec fn values_of(values: ValueCells, nodes: NodeCells, node: MutList, limit: nat) -> Seq<
    i32,
>
    decreases limit,
{
    if limit == 0 {
        Seq::empty()
    } else {
        match node {
            MutList::Nil => Seq::empty(),
            MutList::MutCons(value, next) => match nodes[next@.cell].payload {
                Some(rest) => seq![values[value@.cell].payload.unwrap().value] + values_of(
                    values,
                    nodes,
                    rest,
                    (limit - 1) as nat,
                ),
                None => seq![values[value@.cell].payload.unwrap().value],
            },
        }
    }
}

/// The two stores that the lists with changeable values live in.
pub struct MutHeap {
    values: Store<Cell<i32>>,
    nodes: Store<MutList>,
}

impl MutHeap {
    /// Model of the store of values.
    pub closed spec fn values(&self) -> ValueCells {
        self.values.deep()
    }

    /// Model of the store of nodes.
    pub closed spec fn nodes(&self) -> NodeCells {
        self.nodes@
    }

    /// Both stores are well formed.
    pub closed spec fn rep_inv(&self) -> bool {
        &&& self.values.cells_inv()
        &&& self.nodes.wf()
    }

    /// Well-formedness: the constructor establishes it and every method
    /// keeps it.
    pub open spec fn wf(&self) -> bool {
        &&& self.rep_inv()
        &&& cells_wf(self.values())
        &&& cells_wf(self.nodes())
        &&& all_idle(self.values())
        &&& links_wf(self.nodes())
        &&& values_held(self.values(), self.nodes())
    }

    /// A live value handle that no node owns.
    pub open spec fn holds_value(&self, h: Handle) -> bool {
        &&& live_in(self.values(), h@)
        &&& unheld(self.nodes(), h@)
    }

    /// A live node handle that no node owns.
    pub open spec fn holds_node(&self, h: Handle) -> bool {
        &&& live_in(self.nodes(), h@)
        &&& external(self.nodes(), h@)
    }

    /// No value cell counts `token` among its handles.
    pub open spec fn unused_value(&self, token: nat) -> bool {
        forall|i: int|
            0 <= i < self.values().len() ==> !(#[trigger] self.values()[i]).owners.contains(token)
    }

    /// No node cell counts `token` among its handles.
    pub open spec fn unused_node(&self, token: nat) -> bool {
        forall|i: int|
            0 <= i < self.nodes().len() ==> !(#[trigger] self.nodes()[i]).owners.contains(token)
    }

    /// The invariant of the store of values carries over to its model.
    proof fn lemma_values_model(&self)
        requires
            self.rep_inv(),
        ensures
            cells_wf(self.values()),
            self.values().len() == self.values@.len(),
            forall|i: int|
                0 <= i < self.values().len() ==> (#[trigger] self.values()[i]).owners
                    == self.values@[i].owners,
    {
        assert forall|i: int| 0 <= i < self.values().len() implies {
            &&& (#[trigger] self.values()[i]).owners.finite()
            &&& self.values()[i].payload.is_some() <==> self.values()[i].owners.len() > 0
        } by {
            assert(self.values()[i].owners == self.values@[i].owners);
        }
    }

    /// Two stores without cells.
    pub fn new() -> (heap: Self)
        ensures
            heap.wf(),
            heap.values() == ValueCells::empty(),
            heap.nodes() == NodeCells::empty(),
    {
        let heap = MutHeap { values: Store::new(), nodes: Store::new() };
        assert(heap.values() =~= ValueCells::empty());
        heap
    }

    /// Makes a cell that holds `value` and returns its first handle.
    pub fn new_value(&mut self, value: i32) -> (h: Handle)
        requires
            old(self).wf(),
        ensures
            final(self).wf(),
            h@.cell == old(self).values().len(),
            old(self).unused_value(h@.token),
            final(self).values() == old(self).values().push(
                SharedCellView::fresh(CellView::unborrowed(value), h@.token),
            ),
            final(self).nodes() == old(self).nodes(),
            final(self).holds_value(h),
    {
        let h = self.values.new_cell(value);
        proof {
            self.lemma_values_model();
            let nodes = self.nodes();
            assert forall|i: int| 0 <= i < nodes.len() implies (#[trigger] value_of(nodes, i) matches Some(
                v,
            ) ==> live_in(self.values(), v) && v.token != h@.token) by {
                if let Some(v) = value_of(nodes, i) {
                    assert(live_in(old(self).values(), v));
                }
            }
        }
        h
    }

    /// Another handle to the value cell of `h`, held from outside the
    /// lists: the strong count of the cell grows by exactly 1.
    pub fn share_value(&mut self, h: &Handle) -> (r: Handle)
        requires
            old(self).wf(),
            live_in(old(self).values(), h@),
            old(self).values()[h@.cell].strong_count() < usize::MAX,
        ensures
            final(self).wf(),
            r@.cell == h@.cell,
            old(self).unused_value(r@.token),
            final(self).values() == old(self).values().update(
                h@.cell,
                old(self).values()[h@.cell].acquire(r@.token),
            ),
            final(self).nodes() == old(self).nodes(),
            final(self).holds_value(r),
    {
        let r = self.values.share_cell(h);
        proof {
            self.lemma_values_model();
            let nodes = self.nodes();
            assert forall|i: int| 0 <= i < nodes.len() implies (#[trigger] value_of(nodes, i) matches Some(
                v,
            ) ==> live_in(self.values(), v) && v.token != r@.token) by {
                if let Some(v) = value_of(nodes, i) {
                    assert(live_in(old(self).values(), v));
                }
            }
        }
        r
    }

    /// The number of live handles to the value cell of `h`.
    pub fn value_owners(&self, h: &Handle) -> (n: usize)
        requires
            self.wf(),
            live_in(self.values(), h@),
        ensures
            n == self.values()[h@.cell].strong_count(),
            n >= 1,
    {
        self.values.strong_count_at(h)
    }

    /// The value in the cell of `h`.
    pub fn read_value(&self, h: &Handle) -> (value: i32)
        requires
            self.wf(),
            live_in(self.values(), h@),
        ensures
            self.values()[h@.cell].payload.is_some(),
            value == self.values()[h@.cell].payload.unwrap().value,
    {
        proof {
            self.lemma_values_model();
        }
        *self.values.get(h).peek()
    }

    /// Adds `delta` to the value in the cell of `h`, under an exclusive
    /// borrow that is taken for the change and released again.  Every
    /// owner of the cell sees the sum.
    pub fn add_to(&mut self, h: &Handle, delta: i32)
        requires
            old(self).wf(),
            live_in(old(self).values(), h@),
            i32::MIN <= old(self).values()[h@.cell].payload.unwrap().value + delta <= i32::MAX,
        ensures
            final(self).wf(),
            final(self).values() == old(self).values().update(
                h@.cell,
                SharedCellView {
                    payload: Some(
                        CellView::unborrowed(
                            (old(self).values()[h@.cell].payload.unwrap().value + delta) as i32,
                        ),
                    ),
                    owners: old(self).values()[h@.cell].owners,
                },
            ),
            final(self).nodes() == old(self).nodes(),
    {
        proof {
            self.lemma_values_model();
        }
        let ghost before = self.values();
        assert(before[h@.cell].payload.unwrap().readers =~= Set::<nat>::empty());
        let guard = self.values.borrow_mut_at(h);
        let current = *self.values.read_exclusive_at(h, &guard);
        self.values.write_at(h, &guard, current + delta);
        self.values.release_mut_at(h, guard);
        proof {
            self.lemma_values_model();
            assert(self.values() =~= before.update(
                h@.cell,
                SharedCellView {
                    payload: Some(
                        CellView::unborrowed((before[h@.cell].payload.unwrap().value + delta) as i32),
                    ),
                    owners: before[h@.cell].owners,
                },
            ));
        }
    }

    /// Ends the value handle `h`, which no node owns: the strong count of
    /// its cell falls by exactly 1, and with the last handle the cell is
    /// destroyed and its value returned.
    pub fn drop_value(&mut self, h: Handle) -> (destroyed: Option<i32>)
        requires
            old(self).wf(),
            old(self).holds_value(h),
        ensures
            final(self).wf(),
            final(self).values() == old(self).values().update(
                h@.cell,
                old(self).values()[h@.cell].release(h@.token),
            ),
            final(self).nodes() == old(self).nodes(),
            destroyed == (if old(self).values()[h@.cell].strong_count() == 1 {
                Some(old(self).values()[h@.cell].payload.unwrap().value)
            } else {
                None
            }),
    {
        proof {
            self.lemma_values_model();
        }
        let ghost before = self.values();
        let destroyed = self.values.drop_cell(h);
        proof {
            self.lemma_values_model();
            lemma_value_drop_keeps_held(before, self.nodes(), h@);
        }
        destroyed
    }
}

impl MutHeap {
    /// Makes the end of a list and returns the first handle to it.
    pub fn nil(&mut self) -> (h: Handle)
        requires
            old(self).wf(),
        ensures
            final(self).wf(),
            h@.cell == old(self).nodes().len(),
            old(self).unused_node(h@.token),
            final(self).nodes() == old(self).nodes().push(
                SharedCellView::fresh(MutList::Nil, h@.token),
            ),
            final(self).values() == old(self).values(),
            final(self).holds_node(h),
            forall|x: HandleView|
                external(old(self).nodes(), x) ==> #[trigger] external(final(self).nodes(), x),
            forall|x: HandleView|
                unheld(old(self).nodes(), x) ==> #[trigger] unheld(final(self).nodes(), x),
    {
        let ghost before = self.nodes();
        let h = self.nodes.new_handle(MutList::Nil);
        proof {
            lemma_push_keeps_links(before, MutList::Nil, h@.token);
            lemma_push_keeps_values(self.values(), before, MutList::Nil, h@.token);
        }
        h
    }

    /// Makes a node that holds the value behind `value` in front of the
    /// list behind `next`, and returns the first handle to the node.  The
    /// node owns both handles from now on.
    pub fn cons(&mut self, value: Handle, next: Handle) -> (h: Handle)
        requires
            old(self).wf(),
            old(self).holds_value(value),
            old(self).holds_node(next),
        ensures
            final(self).wf(),
            h@.cell == old(self).nodes().len(),
            old(self).unused_node(h@.token),
            final(self).nodes() == old(self).nodes().push(
                SharedCellView::fresh(MutList::MutCons(value, next), h@.token),
            ),
            final(self).values() == old(self).values(),
            final(self).holds_node(h),
            forall|x: HandleView|
                external(old(self).nodes(), x) && x.token != next@.token ==> #[trigger] external(
                    final(self).nodes(),
                    x,
                ),
            forall|x: HandleView|
                unheld(old(self).nodes(), x) && x.token != value@.token ==> #[trigger] unheld(
                    final(self).nodes(),
                    x,
                ),
    {
        let ghost before = self.nodes();
        let ghost node = MutList::MutCons(value, next);
        let h = self.nodes.new_handle(MutList::MutCons(value, next));
        proof {
            lemma_push_keeps_links(before, node, h@.token);
            lemma_push_keeps_values(self.values(), before, node, h@.token);
        }
        h
    }

    /// Another handle to the node behind `h`, held from outside the lists:
    /// the strong count of the node grows by exactly 1.
    pub fn share(&mut self, h: &Handle) -> (r: Handle)
        requires
            old(self).wf(),
            live_in(old(self).nodes(), h@),
            old(self).nodes()[h@.cell].strong_count() < usize::MAX,
        ensures
            final(self).wf(),
            r@.cell == h@.cell,
            old(self).unused_node(r@.token),
            final(self).nodes() == old(self).nodes().update(
                h@.cell,
                old(self).nodes()[h@.cell].acquire(r@.token),
            ),
            final(self).values() == old(self).values(),
            final(self).holds_node(r),
            forall|x: HandleView|
                external(old(self).nodes(), x) ==> #[trigger] external(final(self).nodes(), x),
            forall|x: HandleView|
                unheld(old(self).nodes(), x) ==> #[trigger] unheld(final(self).nodes(), x),
    {
        let ghost before = self.nodes();
        let r = self.nodes.clone_handle(h);
        proof {
            lemma_acquire_keeps_links(before, h@.cell, r@.token);
            lemma_same_payloads_same_values(
                self.values(),
                before,
                before.update(h@.cell, before[h@.cell].acquire(r@.token)),
            );
        }
        r
    }

    /// The number of live handles to the node behind `h`.
    pub fn owners(&self, h: &Handle) -> (n: usize)
        requires
            self.wf(),
            live_in(self.nodes(), h@),
        ensures
            n == self.nodes()[h@.cell].strong_count(),
            n >= 1,
    {
        self.nodes.strong_count(h)
    }

    /// Read access to the node behind `h`.
    pub fn get(&self, h: &Handle) -> (node: &MutList)
        requires
            self.wf(),
            live_in(self.nodes(), h@),
        ensures
            self.nodes()[h@.cell].payload == Some(*node),
    {
        self.nodes.get(h)
    }

    /// The number of nodes that are alive.
    pub fn live_nodes(&self) -> (n: usize)
        requires
            self.wf(),
        ensures
            n == alive(self.nodes()),
    {
        self.nodes.live_cells()
    }

    /// The number of value cells that are alive.
    pub fn live_values(&self) -> (n: usize)
        requires
            self.wf(),
        ensures
            n == alive(self.values()),
    {
        proof {
            self.lemma_values_model();
            lemma_alive_of_model(self.values@, self.values());
        }
        self.values.live_cells()
    }
}

/// The value cells after the node handle `h` has been dropped: every node
/// that the drop destroys gives up its value handle, so the cell of that
/// value loses one handle.
pub open spec fn values_after(values: ValueCells, nodes: NodeCells, h: HandleView) -> ValueCells
    decreases alive(nodes),
    via values_after_decreases
{
    if 0 <= h.cell < nodes.len() {
        let after = nodes.update(h.cell, nodes[h.cell].release(h.token));
        if nodes[h.cell].payload.is_some() && after[h.cell].payload.is_none() {
            let left = without_value_of(values, nodes, h.cell);
            match link_of(nodes, h.cell) {
                Some(next) => values_after(left, after, next),
                None => left,
            }
        } else {
            values
        }
    } else {
        values
    }
}

#[via_fn]
proof fn values_after_decreases(values: ValueCells, nodes: NodeCells, h: HandleView) {
    if 0 <= h.cell < nodes.len() {
        lemma_alive_update(nodes, h.cell, nodes[h.cell].release(h.token));
    }
}

/// The value cells once the value handle that the node in cell `index`
/// owns has been dropped.
pub open spec fn without_value_of(values: ValueCells, nodes: NodeCells, index: int) -> ValueCells {
    match value_of(nodes, index) {
        Some(v) => values.update(v.cell, values[v.cell].release(v.token)),
        None => values,
    }
}

impl MutHeap {
    /// The values of the first `limit` nodes of the list that starts with
    /// `node`, as the cells hold them now.  The node may be one of the
    /// store or one that is held outside it.
    pub fn values_from(&self, node: &MutList, limit: usize) -> (out: Vec<i32>)
        requires
            self.wf(),
            node.spec_value() matches Some(v) ==> live_in(self.values(), v@),
            node.successor() matches Some(next) ==> live_in(self.nodes(), next@),
        ensures
            out@ == values_of(self.values(), self.nodes(), *node, limit as nat),
    {
        let mut out: Vec<i32> = Vec::new();
        let mut at: &MutList = node;
        let mut remaining: usize = limit;
        while remaining > 0
            invariant
                self.wf(),
                at.spec_value() matches Some(v) ==> live_in(self.values(), v@),
                at.successor() matches Some(next) ==> live_in(self.nodes(), next@),
                out@ + values_of(self.values(), self.nodes(), *at, remaining as nat) == values_of(
                    self.values(),
                    self.nodes(),
                    *node,
                    limit as nat,
                ),
            decreases remaining,
        {
            match at {
                MutList::Nil => {
                    remaining = 0;
                },
                MutList::MutCons(value, next) => {
                    let ghost before = out@;
                    let held = self.read_value(value);
                    let rest = self.nodes.get(next);
                    proof {
                        assert(link_of(self.nodes(), next@.cell) == (match rest.successor() {
                            Some(h) => Some(h@),
                            None => None,
                        }));
                        assert(value_of(self.nodes(), next@.cell) == (match rest.spec_value() {
                            Some(h) => Some(h@),
                            None => None,
                        }));
                    }
                    out.push(held);
                    assert(out@ + values_of(
                        self.values(),
                        self.nodes(),
                        *rest,
                        (remaining - 1) as nat,
                    ) =~= before + (seq![held] + values_of(
                        self.values(),
                        self.nodes(),
                        *rest,
                        (remaining - 1) as nat,
                    )));
                    at = rest;
                    remaining = remaining - 1;
                },
            }
        }
        assert(out@ + Seq::<i32>::empty() =~= out@);
        out
    }

    /// Drops the node handle `h`, which no node owns, and everything that
    /// its end sets free: a node that loses its last handle is destroyed,
    /// its value loses an owner, and its link is dropped in the same way.
    /// Returns the number of nodes destroyed.
    pub fn release(&mut self, h: Handle) -> (destroyed: usize)
        requires
            old(self).wf(),
            old(self).holds_node(h),
        ensures
            final(self).wf(),
            final(self).nodes() == cascade(old(self).nodes(), h@),
            final(self).values() == values_after(old(self).values(), old(self).nodes(), h@),
            destroyed + alive(final(self).nodes()) == alive(old(self).nodes()),
            destroyed >= 1 <==> old(self).nodes()[h@.cell].strong_count() == 1,
            forall|x: HandleView|
                external(old(self).nodes(), x) ==> #[trigger] external(final(self).nodes(), x),
            forall|x: HandleView|
                unheld(old(self).nodes(), x) ==> #[trigger] unheld(final(self).nodes(), x),
            forall|x: HandleView|
                live_in(old(self).nodes(), x) && external(old(self).nodes(), x) && x.token
                    != h@.token ==> #[trigger] live_in(final(self).nodes(), x),
            forall|x: HandleView|
                live_in(old(self).values(), x) && unheld(old(self).nodes(), x)
                    ==> #[trigger] live_in(final(self).values(), x),
    {
        let ghost start_nodes = self.nodes();
        let ghost start_values = self.values();
        let ghost first = h@;
        let mut cursor: Option<Handle> = Some(h);
        let mut destroyed: usize = 0;
        proof {
            lemma_alive_bound(start_nodes);
            self.nodes.lemma_len_fits();
        }
        while cursor.is_some()
            invariant
                self.wf(),
                self.nodes().len() == start_nodes.len(),
                start_nodes.len() <= usize::MAX,
                alive(start_nodes) <= start_nodes.len(),
                cells_wf(start_nodes),
                live_in(start_nodes, first),
                cursor matches Some(c) ==> self.holds_node(c),
                match cursor {
                    Some(c) => {
                        &&& cascade(self.nodes(), c@) == cascade(start_nodes, first)
                        &&& values_after(self.values(), self.nodes(), c@) == values_after(
                            start_values,
                            start_nodes,
                            first,
                        )
                    },
                    None => {
                        &&& self.nodes() == cascade(start_nodes, first)
                        &&& self.values() == values_after(start_values, start_nodes, first)
                    },
                },
                destroyed + alive(self.nodes()) == alive(start_nodes),
                cursor matches Some(c) ==> (destroyed == 0 ==> c@ == first && self.nodes()
                    == start_nodes),
                cursor is None ==> (destroyed >= 1 <==> start_nodes[first.cell].strong_count()
                    == 1),
                cursor is Some && destroyed >= 1 ==> start_nodes[first.cell].strong_count() == 1,
                forall|x: HandleView|
                    external(start_nodes, x) ==> #[trigger] external(self.nodes(), x),
                forall|x: HandleView| unheld(start_nodes, x) ==> #[trigger] unheld(self.nodes(), x),
                forall|x: HandleView|
                    live_in(start_nodes, x) && external(start_nodes, x) && x.token != first.token
                        ==> #[trigger] live_in(self.nodes(), x),
                forall|x: HandleView|
                    live_in(start_values, x) && unheld(start_nodes, x) ==> #[trigger] live_in(
                        self.values(),
                        x,
                    ),
                cursor matches Some(c) ==> forall|x: HandleView|
                    #[trigger] external(start_nodes, x) && x.token != first.token ==> x.token
                        != c@.token,
            decreases
                    (if cursor.is_some() {
                        alive(self.nodes()) + 1
                    } else {
                        0
                    }),
        {
            let current = cursor.take().unwrap();
            let ghost nodes = self.nodes();
            let ghost values = self.values();
            let ghost after = nodes.update(
                current@.cell,
                nodes[current@.cell].release(current@.token),
            );
            let ghost left = if after[current@.cell].payload.is_none() {
                without_value_of(values, nodes, current@.cell)
            } else {
                values
            };
            proof {
                self.lemma_values_model();
                lemma_drop_keeps_links(nodes, current@);
                lemma_drop_keeps_values(values, nodes, current@);
                lemma_alive_update(nodes, current@.cell, nodes[current@.cell].release(current@.token));
                assert forall|x: HandleView|
                    live_in(start_nodes, x) && external(start_nodes, x) && x.token
                        != first.token implies live_in(after, x) by {
                    assert(external(nodes, x));
                    assert(live_in(nodes, x));
                    assert(x.token != current@.token);
                }
                assert forall|x: HandleView|
                    live_in(start_values, x) && unheld(start_nodes, x) implies live_in(left, x) by {
                    assert(unheld(nodes, x));
                    assert(live_in(values, x));
                }
            }
            match self.nodes.drop_handle(current) {
                Some(node) => {
                    destroyed = destroyed + 1;
                    match node {
                        MutList::MutCons(value, next) => {
                            assert(value_of(nodes, current@.cell) == Some(value@));
                            assert(link_of(nodes, current@.cell) == Some(next@));
                            self.values.drop_cell(value);
                            cursor = Some(next);
                            proof {
                                self.lemma_values_model();
                                assert(self.values() == left);
                                assert forall|x: HandleView| #[trigger]
                                    external(start_nodes, x) && x.token != first.token implies x.token
                                    != next@.token by {
                                    assert(external(nodes, x));
                                }
                            }
                        },
                        MutList::Nil => {
                            assert(value_of(nodes, current@.cell) is None);
                            assert(link_of(nodes, current@.cell) is None);
                        },
                    }
                },
                None => {},
            }
        }
        destroyed
    }
}

/// Dropping a node handle keeps the value handles in order: where the drop
/// destroys a node, the value handle of that node is dropped with it, and
/// the value handles of all other nodes stay alive.
proof fn lemma_drop_keeps_values(values: ValueCells, nodes: NodeCells, h: HandleView)
    requires
        cells_wf(values),
        all_idle(values),
        values_held(values, nodes),
        0 <= h.cell < nodes.len(),
    ensures
        ({
            let after = nodes.update(h.cell, nodes[h.cell].release(h.token));
            let left = if after[h.cell].payload.is_none() {
                without_value_of(values, nodes, h.cell)
            } else {
                values
            };
            &&& values_held(left, after)
            &&& all_idle(left)
            &&& forall|x: HandleView| unheld(nodes, x) ==> #[trigger] unheld(after, x)
            &&& forall|x: HandleView|
                live_in(values, x) && unheld(nodes, x) ==> #[trigger] live_in(left, x)
        }),
{
    let after = nodes.update(h.cell, nodes[h.cell].release(h.token));
    let left = if after[h.cell].payload.is_none() {
        without_value_of(values, nodes, h.cell)
    } else {
        values
    };
    assert forall|i: int| 0 <= i < nodes.len() implies (#[trigger] value_of(after, i) matches Some(
        v,
    ) ==> value_of(nodes, i) == Some(v) && live_in(left, v)) by {
        if let Some(v) = value_of(after, i) {
            assert(value_of(nodes, i) == Some(v));
            assert(live_in(values, v));
            if after[h.cell].payload.is_none() {
                assert(i != h.cell);
                if let Some(gone) = value_of(nodes, h.cell) {
                    assert(gone.token != v.token);
                }
            }
        }
    }
    assert forall|i: int, j: int|
        0 <= i < after.len() && 0 <= j < after.len() && i != j implies (#[trigger] value_of(after, i)
        matches Some(a) ==> (#[trigger] value_of(after, j) matches Some(b) ==> a.token
        != b.token)) by {
        if value_of(after, i) is Some && value_of(after, j) is Some {
            assert(value_of(after, i) == value_of(nodes, i));
            assert(value_of(after, j) == value_of(nodes, j));
        }
    }
    assert forall|x: HandleView| unheld(nodes, x) implies #[trigger] unheld(after, x) by {
        assert forall|i: int| 0 <= i < after.len() implies (#[trigger] value_of(after, i) matches Some(
            v,
        ) ==> v.token != x.token) by {
            if let Some(v) = value_of(after, i) {
                assert(value_of(nodes, i) == Some(v));
            }
        }
    }
    assert forall|x: HandleView| live_in(values, x) && unheld(nodes, x) implies #[trigger] live_in(
        left,
        x,
    ) by {
        if after[h.cell].payload.is_none() {
            if let Some(gone) = value_of(nodes, h.cell) {
                assert(gone.token != x.token);
            }
        }
    }
}

/// Two sequences of cells that agree on which cells hold a payload have
/// equally many cells that do.
proof fn lemma_alive_of_model<A, B>(cells: Seq<SharedCellView<A>>, model: Seq<SharedCellView<B>>)
    requires
        cells.len() == model.len(),
        forall|i: int|
            0 <= i < cells.len() ==> (#[trigger] cells[i]).payload.is_some()
                == model[i].payload.is_some(),
    ensures
        alive(cells) == alive(model),
    decreases cells.len(),
{
    if cells.len() > 0 {
        assert(cells.last().payload.is_some() == model.last().payload.is_some()) by {
            assert(cells[cells.len() - 1].payload.is_some() == model[cells.len() - 1].payload.is_some());
        }
        assert forall|i: int| 0 <= i < cells.drop_last().len() implies (#[trigger] cells.drop_last()[i]).payload.is_some()
            == model.drop_last()[i].payload.is_some() by {
            assert(cells[i].payload.is_some() == model[i].payload.is_some());
        }
        lemma_alive_of_model(cells.drop_last(), model.drop_last());
    }
}

/// Nodes that keep their payloads keep their value handles: what holds of
/// the value handles before holds after.
proof fn lemma_same_payloads_same_values(values: ValueCells, before: NodeCells, after: NodeCells)
    requires
        values_held(values, before),
        after.len() == before.len(),
        forall|i: int| 0 <= i < before.len() ==> (#[trigger] after[i]).payload == before[i].payload,
    ensures
        values_held(values, after),
        forall|x: HandleView| unheld(before, x) ==> #[trigger] unheld(after, x),
{
    assert forall|i: int| 0 <= i < before.len() implies #[trigger] value_of(after, i) == value_of(
        before,
        i,
    ) by {
        assert(after[i].payload == before[i].payload);
    }
    assert forall|x: HandleView| unheld(before, x) implies #[trigger] unheld(after, x) by {
        assert forall|i: int| 0 <= i < after.len() implies (#[trigger] value_of(after, i) matches Some(
            v,
        ) ==> v.token != x.token) by {
            assert(value_of(after, i) == value_of(before, i));
        }
    }
    assert forall|i: int, j: int|
        0 <= i < after.len() && 0 <= j < after.len() && i != j implies (#[trigger] value_of(after, i)
        matches Some(a) ==> (#[trigger] value_of(after, j) matches Some(b) ==> a.token
        != b.token)) by {
        assert(value_of(after, i) == value_of(before, i));
        assert(value_of(after, j) == value_of(before, j));
    }
}

/// A new node whose value handle, if it has one, is alive and owned by no
/// node keeps the value handles in order.
proof fn lemma_push_keeps_values(values: ValueCells, nodes: NodeCells, node: MutList, token: nat)
    requires
        values_held(values, nodes),
        node.spec_value() matches Some(v) ==> live_in(values, v@) && unheld(nodes, v@),
    ensures
        ({
            let after = nodes.push(SharedCellView::fresh(node, token));
            &&& values_held(values, after)
            &&& forall|x: HandleView|
                unheld(nodes, x) && (node.spec_value() matches Some(v) ==> v@.token != x.token)
                    ==> #[trigger] unheld(after, x)
        }),
{
    let after = nodes.push(SharedCellView::fresh(node, token));
    let last = nodes.len() as int;
    assert forall|i: int| 0 <= i < nodes.len() implies #[trigger] value_of(after, i) == value_of(
        nodes,
        i,
    ) by {}
    assert forall|i: int| 0 <= i < after.len() implies (#[trigger] value_of(after, i) matches Some(
        v,
    ) ==> live_in(values, v)) by {
        if i < last {
            assert(value_of(after, i) == value_of(nodes, i));
        }
    }
    assert forall|i: int, j: int|
        0 <= i < after.len() && 0 <= j < after.len() && i != j implies (#[trigger] value_of(after, i)
        matches Some(a) ==> (#[trigger] value_of(after, j) matches Some(b) ==> a.token
        != b.token)) by {
        if i < last {
            assert(value_of(after, i) == value_of(nodes, i));
        }
        if j < last {
            assert(value_of(after, j) == value_of(nodes, j));
        }
    }
    assert forall|x: HandleView|
        unheld(nodes, x) && (node.spec_value() matches Some(v) ==> v@.token != x.token) implies #[trigger] unheld(
        after,
        x,
    ) by {
        assert forall|i: int| 0 <= i < after.len() implies (#[trigger] value_of(after, i) matches Some(
            v,
        ) ==> v.token != x.token) by {
            if i < last {
                assert(value_of(after, i) == value_of(nodes, i));
            }
        }
    }
}

/// Dropping a value handle that no node owns leaves every value handle
/// that a node owns alive.
proof fn lemma_value_drop_keeps_held(values: ValueCells, nodes: NodeCells, h: HandleView)
    requires
        cells_wf(values),
        values_held(values, nodes),
        live_in(values, h),
        unheld(nodes, h),
    ensures
        values_held(values.update(h.cell, values[h.cell].release(h.token)), nodes),
{
    let after = values.update(h.cell, values[h.cell].release(h.token));
    assert forall|i: int| 0 <= i < nodes.len() implies (#[trigger] value_of(nodes, i) matches Some(
        v,
    ) ==> live_in(after, v)) by {
        if let Some(v) = value_of(nodes, i) {
            assert(live_in(values, v));
            assert(v.token != h.token);
        }
    }
}

/// What [`multi_owners_mutable_data`] observed.
pub struct MutationReport {
    /// The values of list `a` after the change.
    pub a: Vec<i32>,
    /// The values of list `b` after the change.
    pub b: Vec<i32>,
    /// The values of list `c` after the change.
    pub c: Vec<i32>,
    /// The number of owners of the changed value.
    pub value_owners: usize,
    /// The number of owners of the first node of `a`.
    pub a_owners: usize,
}

/// Builds the list `a` around a shared value 5, puts 6 in front of `a` as
/// `b` and 7 as `c`, and adds 10 to the shared value through the handle
/// that is held outside the lists.  All three lists then show 15.
pub fn multi_owners_mutable_data() -> (report: MutationReport)
    ensures
        report.a@ == seq![15i32],
        report.b@ == seq![6i32, 15i32],
        report.c@ == seq![7i32, 15i32],
        report.value_owners == 2,
        report.a_owners == 3,
{
    let mut heap = MutHeap::new();

    let value = heap.new_value(5);
    let value_for_a = heap.share_value(&value);
    let end = heap.nil();
    let a = heap.cons(value_for_a, end);

    let six = heap.new_value(6);
    let a_for_b = heap.share(&a);
    let b = MutList::MutCons(six, a_for_b);

    let seven = heap.new_value(7);
    let a_for_c = heap.share(&a);
    let c = MutList::MutCons(seven, a_for_c);

    heap.add_to(&value, 10);

    let value_owners = heap.value_owners(&value);
    let a_owners = heap.owners(&a);
    let a_values = heap.values_from(heap.get(&a), 3);
    let b_values = heap.values_from(&b, 3);
    let c_values = heap.values_from(&c, 3);
    proof {
        reveal_with_fuel(values_of, 4);
    }
    MutationReport { a: a_values, b: b_values, c: c_values, value_owners, a_owners }
}

} // verus!
