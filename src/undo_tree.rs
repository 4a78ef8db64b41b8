//! Branching undo history: snapshots of the cells in an arena, linked by index.
use vstd::prelude::*;
use crate::table::{grid_views, CellView, Data};

verus! {

/// One snapshot, with the indices of the snapshots before and after it.
pub struct UndoNode {
    table_rows: Vec<Vec<Data>>,
    previous: Option<usize>,
    next: Option<usize>,
    id: usize,
}

/// The history: every snapshot ever saved, and the active one.
pub struct UndoTree {
    nodes: Vec<UndoNode>,
    current: usize,
}

pub struct NodeView {
    pub state: Seq<Seq<CellView>>,
    pub previous: Option<nat>,
    pub next: Option<nat>,
    pub id: nat,
}

pub struct HistoryView {
    pub nodes: Seq<NodeView>,
    pub active: nat,
}

impl HistoryView {
    /// Links stay inside the arena, the active node exists, and ids fit below the node's
    /// index (so the next id always fits in `usize`).
    pub open spec fn wf(self) -> bool {
        &&& self.active < self.nodes.len()
        &&& forall|i: int| 0 <= i < self.nodes.len() ==> {
            &&& (#[trigger] self.nodes[i]).id <= i
            &&& (self.nodes[i].previous matches Some(p) ==> p < self.nodes.len())
            &&& (self.nodes[i].next matches Some(n) ==> n < self.nodes.len())
        }
    }

    /// A new node after the active one, holding `state`; it becomes the next of the active
    /// node (any branch that was there is no longer reachable) and becomes active.
    pub open spec fn saved(self, state: Seq<Seq<CellView>>) -> HistoryView {
        let cur = self.active as int;
        let fresh = self.nodes.len();
        HistoryView {
            nodes: self.nodes.update(cur, NodeView { next: Some(fresh), ..self.nodes[cur] }).push(
                NodeView { state, previous: Some(self.active), next: None, id: self.nodes[cur].id + 1 },
            ),
            active: fresh,
        }
    }

    /// The history with the previous node active, if the active node has one.
    pub open spec fn undone(self) -> Option<HistoryView> {
        match self.nodes[self.active as int].previous {
            Some(p) => Some(HistoryView { active: p, ..self }),
            None => None,
        }
    }

    /// The history with the next node active, if the active node has one.
    pub open spec fn redone(self) -> Option<HistoryView> {
        match self.nodes[self.active as int].next {
            Some(n) => Some(HistoryView { active: n, ..self }),
            None => None,
        }
    }

    pub open spec fn active_state(self) -> Seq<Seq<CellView>> {
        self.nodes[self.active as int].state
    }
}

impl View for UndoNode {
    type V = NodeView;

    closed spec fn view(&self) -> NodeView {
        NodeView {
            state: grid_views(self.table_rows@),
            previous: match self.previous {
                Some(p) => Some(p as nat),
                None => None,
            },
            next: match self.next {
                Some(n) => Some(n as nat),
                None => None,
            },
            id: self.id as nat,
        }
    }
}

impl View for UndoTree {
    type V = HistoryView;

    closed spec fn view(&self) -> HistoryView {
        HistoryView { nodes: self.nodes@.map_values(|n: UndoNode| n@), active: self.current as nat }
    }
}

fn copy_rows(rows: &Vec<Vec<Data>>) -> (r: Vec<Vec<Data>>)
    ensures
        grid_views(r@) == grid_views(rows@),
{
    let mut out: Vec<Vec<Data>> = Vec::new();
    let mut i: usize = 0;
    while i < rows.len()
        invariant
            i <= rows@.len(),
            out@.len() == i,
            forall|j: int| 0 <= j < i ==> #[trigger] grid_views(out@)[j] == grid_views(rows@)[j],
        decreases rows@.len() - i,
    {
        let mut row: Vec<Data> = Vec::new();
        let mut k: usize = 0;
        while k < rows[i].len()
            invariant
                i < rows@.len(),
                k <= rows@[i as int]@.len(),
                row@.len() == k,
                forall|j: int| 0 <= j < k ==> #[trigger] row@[j]@ == rows@[i as int]@[j]@,
            decreases rows@[i as int]@.len() - k,
        {
            row.push(rows[i][k].copy());
            k += 1;
        }
        let ghost before = out@;
        out.push(row);
        proof {
            assert(grid_views(out@)[i as int] =~= grid_views(rows@)[i as int]);
            assert forall|j: int| 0 <= j < i implies #[trigger] grid_views(out@)[j] == grid_views(rows@)[j] by {
                assert(out@[j] == before[j]);
                assert(grid_views(out@)[j] == grid_views(before)[j]);
            }
        }
        i += 1;
    }
    assert(grid_views(out@) =~= grid_views(rows@));
    out
}

impl UndoTree {
    pub closed spec fn wf(&self) -> bool {
        self@.wf()
    }

    /// A history holding `initial_state` alone, with id 0.
    pub fn new(initial_state: Vec<Vec<Data>>) -> (r: UndoTree)
        ensures
            r.wf(),
            r@.nodes.len() == 1,
            r@.active == 0,
            r@.nodes[0] == (NodeView { state: grid_views(initial_state@), previous: None, next: None, id: 0 }),
    {
        let node = UndoNode { table_rows: initial_state, previous: None, next: None, id: 0 };
        let mut nodes: Vec<UndoNode> = Vec::new();
        nodes.push(node);
        let r = UndoTree { nodes, current: 0 };
        assert(r@.nodes =~= seq![node@]);
        r
    }

    /// Saves `state` as a new node after the active one, and makes it active.
    pub fn save(&mut self, state: Vec<Vec<Data>>)
        requires
            old(self).wf(),
        ensures
            final(self).wf(),
            final(self)@ == old(self)@.saved(grid_views(state@)),
    {
        let ghost pre = self@;
        let cur = self.current;
        let id = self.nodes[cur].id;
        let fresh = self.nodes.len();
        assert(pre.nodes[cur as int].id <= cur);
        assert(pre.nodes[cur as int] == self.nodes@[cur as int]@);
        self.nodes[cur].next = Some(fresh);
        self.nodes.push(UndoNode { table_rows: state, previous: Some(cur), next: None, id: id + 1 });
        self.current = fresh;
        proof {
            let want = pre.saved(grid_views(state@));
            assert(self@.nodes =~= want.nodes) by {
                assert forall|i: int| 0 <= i < want.nodes.len() implies #[trigger] self@.nodes[i] == want.nodes[i] by {
                    if i == cur {
                        assert(self@.nodes[i] == NodeView { next: Some(fresh as nat), ..pre.nodes[i] });
                    }
                }
            }
        }
    }

    /// Makes the previous node active and returns its snapshot; `None`, with nothing
    /// changed, when the active node has no previous one.
    pub fn undo(&mut self) -> (r: Option<Vec<Vec<Data>>>)
        requires
            old(self).wf(),
        ensures
            final(self).wf(),
            match old(self)@.undone() {
                Some(h) => final(self)@ == h && r is Some && grid_views(r.unwrap()@) == h.active_state(),
                None => final(self)@ == old(self)@ && r is None,
            },
    {
        match self.nodes[self.current].previous {
            Some(p) => {
                self.current = p;
                Some(copy_rows(&self.nodes[p].table_rows))
            },
            None => None,
        }
    }

    /// Makes the next node active and returns its snapshot; `None`, with nothing changed,
    /// when the active node has no next one.
    pub fn redo(&mut self) -> (r: Option<Vec<Vec<Data>>>)
        requires
            old(self).wf(),
        ensures
            final(self).wf(),
            match old(self)@.redone() {
                Some(h) => final(self)@ == h && r is Some && grid_views(r.unwrap()@) == h.active_state(),
                None => final(self)@ == old(self)@ && r is None,
            },
    {
        match self.nodes[self.current].next {
            Some(n) => {
                self.current = n;
                Some(copy_rows(&self.nodes[n].table_rows))
            },
            None => None,
        }
    }

    /// A copy of the active snapshot.
    pub fn get_state(&self) -> (r: Vec<Vec<Data>>)
        requires
            self.wf(),
        ensures
            grid_views(r@) == self@.active_state(),
    {
        copy_rows(&self.nodes[self.current].table_rows)
    }

    /// The id of the active node.
    pub fn get_id(&self) -> (r: usize)
        requires
            self.wf(),
        ensures
            r == self@.nodes[self@.active as int].id,
    {
        self.nodes[self.current].id
    }
}

/// Once an undo has moved back and a new state has been saved from there, there is nothing
/// to redo: the branch that followed the undone node is left behind, not brought back.
pub proof fn lemma_save_after_undo_drops_redo(h: HistoryView, state: Seq<Seq<CellView>>)
    requires
        h.wf(),
        h.undone() is Some,
    ensures
        h.undone().unwrap().saved(state).redone() is None,
{
}

} // verus!
