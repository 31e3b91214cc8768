use vstd::prelude::*;
use std::sync::Arc;
use crate::asset::{AssetID, AudioAsset};
use crate::command::Command;
use crate::error::EngineError;
use crate::graph::{index_of, NodeID};
use crate::order::is_topo_order;
use crate::project::ProjectData;
use crate::schedule::{schedule_matches, schedule_size, CompiledGraph};
use crate::store::{node_store, node_store_keys};

verus! {

/// The edit history as values: the current project, the projects that undo
/// steps back to (most recent last), and those that redo steps forward to.
pub struct HistoryView {
    pub current: ProjectData,
    pub undo: Seq<ProjectData>,
    pub redo: Seq<ProjectData>,
}

/// Committing `next` files the current project for undo and forgets redo.
pub open spec fn commit_view(h: HistoryView, next: ProjectData) -> HistoryView {
    HistoryView { current: next, undo: h.undo.push(h.current), redo: Seq::empty() }
}

/// Undo goes back to the last filed project, filing the current one for redo.
pub open spec fn undo_view(h: HistoryView) -> HistoryView {
    if h.undo.len() == 0 {
        h
    } else {
        HistoryView { current: h.undo.last(), undo: h.undo.drop_last(), redo: h.redo.push(h.current) }
    }
}

/// Redo goes forward to the last project undone, filing the current one for
/// undo.
pub open spec fn redo_view(h: HistoryView) -> HistoryView {
    if h.redo.len() == 0 {
        h
    } else {
        HistoryView { current: h.redo.last(), undo: h.undo.push(h.current), redo: h.redo.drop_last() }
    }
}

/// Most buffers the audio side's pool has room for.
pub const MAX_BUFFER_SLOTS: usize = 4096;

/// Most nodes the audio side keeps state for.
pub const MAX_NODES: usize = 1024;

/// What the control side hands the audio side after an edit: the schedule
/// of the current project, and the nodes whose per-node state must be
/// created or dropped.
pub struct GraphUpdatePlan {
    pub schedule: CompiledGraph,
    pub state_additions: Vec<NodeID>,
    pub state_removals: Vec<NodeID>,
}

/// `v` lists the elements of `s`, each once.
pub open spec fn lists_set(v: Seq<NodeID>, s: Set<NodeID>) -> bool {
    v.no_duplicates() && v.to_set() == s
}

/// The elements of `a` that `b` lacks, each once, in the order of `a`.
fn difference(a: &Vec<u64>, b: &Vec<u64>) -> (r: Vec<u64>)
    requires
        a@.no_duplicates(),
    ensures
        lists_set(r@, a@.to_set().difference(b@.to_set())),
{
    let mut r: Vec<u64> = Vec::new();
    let mut i: usize = 0;
    while i < a.len()
        invariant
            i <= a@.len(),
            a@.no_duplicates(),
            r@.no_duplicates(),
            forall|x: u64| r@.contains(x) <==> (a@.take(i as int).contains(x) && !b@.contains(x)),
        decreases a@.len() - i,
    {
        let x = a[i];
        let ghost r0 = r@;
        proof {
            assert(a@.take(i + 1) =~= a@.take(i as int).push(x));
            assert(!a@.take(i as int).contains(x)) by {
                if a@.take(i as int).contains(x) {
                    let q = a@.take(i as int).index_of(x);
                    assert(a@[q] == a@[i as int]);
                }
            }
        }
        if index_of(b, x).is_none() {
            r.push(x);
        }
        proof {
            assert forall|y: u64| r@.contains(y) <==> (a@.take(i + 1).contains(y) && !b@.contains(y)) by {
                if r@.contains(y) && y != x {
                    let q = r@.index_of(y);
                    assert(r0[q] == y);
                }
                if r0.contains(y) {
                    let q = r0.index_of(y);
                    assert(r@[q] == y);
                }
                if a@.take(i + 1).contains(y) && y != x {
                    let q = a@.take(i + 1).index_of(y);
                    assert(a@.take(i as int)[q] == y);
                }
                if a@.take(i as int).contains(y) {
                    let q = a@.take(i as int).index_of(y);
                    assert(a@.take(i + 1)[q] == y);
                }
                if y == x {
                    assert(a@.take(i + 1)[i as int] == y);
                    if r@.len() > r0.len() {
                        assert(r@[r@.len() - 1] == y);
                    }
                }
            }
        }
        i = i + 1;
    }
    proof {
        assert(a@.take(a@.len() as int) =~= a@);
        assert(r@.to_set() =~= a@.to_set().difference(b@.to_set()));
    }
    r
}

/// `Arc::clone`: another pointer to the same project.
#[verifier::external_body]
fn share_project(a: &Arc<ProjectData>) -> (r: Arc<ProjectData>)
    ensures
        *r == **a,
{
    Arc::clone(a)
}

/// The control side of the engine: the current project and the snapshots
/// that undo and redo move between.
pub struct EditHistory {
    current: Arc<ProjectData>,
    undo_stack: Vec<Arc<ProjectData>>,
    redo_stack: Vec<Arc<ProjectData>>,
}

impl View for EditHistory {
    type V = HistoryView;

    closed spec fn view(&self) -> HistoryView {
        HistoryView {
            current: *self.current,
            undo: self.undo_stack@.map_values(|a: Arc<ProjectData>| *a),
            redo: self.redo_stack@.map_values(|a: Arc<ProjectData>| *a),
        }
    }
}

impl EditHistory {
    /// Every project in the history is well formed.
    pub closed spec fn wf(&self) -> bool {
        &&& self@.current.wf()
        &&& forall|i: int| 0 <= i < self@.undo.len() ==> #[trigger] self@.undo[i].wf()
        &&& forall|i: int| 0 <= i < self@.redo.len() ==> #[trigger] self@.redo[i].wf()
    }

    /// A history that starts at `project`, with nothing to undo or redo.
    pub fn new(project: Arc<ProjectData>) -> (h: EditHistory)
        requires
            project.wf(),
        ensures
            h.wf(),
            h@.current == *project,
            h@.undo.len() == 0,
            h@.redo.len() == 0,
    {
        let h = EditHistory { current: project, undo_stack: Vec::new(), redo_stack: Vec::new() };
        proof {
            assert(h@.undo =~= Seq::<ProjectData>::empty());
            assert(h@.redo =~= Seq::<ProjectData>::empty());
        }
        h
    }

    /// The current project.
    pub fn project(&self) -> (p: &ProjectData)
        ensures
            *p == self@.current,
    {
        &self.current
    }

    /// A shared pointer to the current project, for the audio side.
    pub fn shared(&self) -> (p: Arc<ProjectData>)
        ensures
            *p == self@.current,
    {
        share_project(&self.current)
    }

    /// Makes `next` the current project; the current one can be undone back
    /// to, and nothing can be redone.
    pub fn commit(&mut self, next: ProjectData)
        requires
            old(self).wf(),
            next.wf(),
        ensures
            final(self).wf(),
            final(self)@ == commit_view(old(self)@, next),
    {
        let ghost h0 = self@;
        let mut prev = Arc::new(next);
        std::mem::swap(&mut self.current, &mut prev);
        self.undo_stack.push(prev);
        self.redo_stack.clear();
        proof {
            assert(self@.undo =~= h0.undo.push(h0.current));
            assert(self@.redo =~= Seq::<ProjectData>::empty());
            assert forall|i: int| 0 <= i < self@.undo.len() implies #[trigger] self@.undo[i].wf() by {
                if i < h0.undo.len() {
                    assert(self@.undo[i] == h0.undo[i]);
                }
            }
        }
    }

    /// Runs `cmd` on a copy of the current project and answers what the
    /// command answers there. When it succeeds the copy is committed; when it
    /// fails the history is left as it was.
    pub fn apply<T: Command>(&mut self, cmd: T) -> (r: Result<T::Output, EngineError>)
        requires
            old(self).wf(),
            old(self)@.current.has_room(),
            cmd.args_ok(),
        ensures
            final(self).wf(),
            exists|pre: ProjectData, next: ProjectData| {
                &&& pre.same_contents(old(self)@.current)
                &&& cmd.outcome(pre, next, r)
                &&& r is Ok ==> final(self)@ == commit_view(old(self)@, next)
            },
            r is Err ==> final(self)@ == old(self)@,
    {
        let mut next = self.current.snapshot();
        let ghost c = cmd;
        let ghost pre = next;
        match cmd.execute(&mut next) {
            Ok(out) => {
                let ghost next_v = next;
                self.commit(next);
                proof {
                    assert(c.outcome(pre, next_v, Ok(out)));
                }
                Ok(out)
            },
            Err(e) => {
                proof {
                    assert(c.outcome(pre, next, Err(e)));
                }
                Err(e)
            },
        }
    }

    /// Stores an asset in a copy of the current project and commits it.
    pub fn load_asset(&mut self, asset: AudioAsset) -> (id: AssetID)
        requires
            old(self).wf(),
            old(self)@.current.has_room(),
        ensures
            final(self).wf(),
            !old(self)@.current.asset_map().contains_key(id),
            final(self)@.undo == old(self)@.undo.push(old(self)@.current),
            final(self)@.redo.len() == 0,
            final(self)@.current.asset_map() == old(self)@.current.asset_map().insert(id, asset),
            final(self)@.current.track_map() == old(self)@.current.track_map(),
            final(self)@.current.clip_map() == old(self)@.current.clip_map(),
            final(self)@.current.graph.node_map() == old(self)@.current.graph.node_map(),
            final(self)@.current.graph.link_map() == old(self)@.current.graph.link_map(),
            final(self)@.current.master_node_id == old(self)@.current.master_node_id,
    {
        let mut next = self.current.snapshot();
        let id = next.insert_asset(asset);
        self.commit(next);
        id
    }

    /// Steps back to the last filed project; false when there is none.
    pub fn undo(&mut self) -> (changed: bool)
        requires
            old(self).wf(),
        ensures
            final(self).wf(),
            final(self)@ == undo_view(old(self)@),
            changed == (old(self)@.undo.len() > 0),
    {
        let ghost h0 = self@;
        match self.undo_stack.pop() {
            Some(prev) => {
                let mut cur = prev;
                std::mem::swap(&mut self.current, &mut cur);
                self.redo_stack.push(cur);
                proof {
                    assert(self@.undo =~= h0.undo.drop_last());
                    assert(self@.redo =~= h0.redo.push(h0.current));
                    assert(h0.undo[h0.undo.len() - 1].wf());
                    assert forall|i: int| 0 <= i < self@.redo.len() implies #[trigger] self@.redo[i].wf() by {
                        if i < h0.redo.len() {
                            assert(self@.redo[i] == h0.redo[i]);
                        }
                    }
                    assert forall|i: int| 0 <= i < self@.undo.len() implies #[trigger] self@.undo[i].wf() by {
                        assert(self@.undo[i] == h0.undo[i]);
                    }
                }
                true
            },
            None => {
                proof {
                    assert(self@ == h0);
                }
                false
            },
        }
    }

    /// Steps forward to the last project undone; false when there is none.
    pub fn redo(&mut self) -> (changed: bool)
        requires
            old(self).wf(),
        ensures
            final(self).wf(),
            final(self)@ == redo_view(old(self)@),
            changed == (old(self)@.redo.len() > 0),
    {
        let ghost h0 = self@;
        match self.redo_stack.pop() {
            Some(next) => {
                let mut cur = next;
                std::mem::swap(&mut self.current, &mut cur);
                self.undo_stack.push(cur);
                proof {
                    assert(self@.redo =~= h0.redo.drop_last());
                    assert(self@.undo =~= h0.undo.push(h0.current));
                    assert(h0.redo[h0.redo.len() - 1].wf());
                    assert forall|i: int| 0 <= i < self@.undo.len() implies #[trigger] self@.undo[i].wf() by {
                        if i < h0.undo.len() {
                            assert(self@.undo[i] == h0.undo[i]);
                        }
                    }
                    assert forall|i: int| 0 <= i < self@.redo.len() implies #[trigger] self@.redo[i].wf() by {
                        assert(self@.redo[i] == h0.redo[i]);
                    }
                }
                true
            },
            None => {
                proof {
                    assert(self@ == h0);
                }
                false
            },
        }
    }

    /// The update to hand the audio side for the current project: its
    /// schedule, and the nodes that appeared or vanished since the last
    /// filed project (none before the first edit). Nothing exactly when the
    /// graph exceeds the audio side's budget of nodes or buffers (or its
    /// sockets cannot be numbered in a `usize`).
    pub fn publish_plan(&self) -> (r: Option<GraphUpdatePlan>)
        requires
            self.wf(),
        ensures
            ({
                let cur = self@.current;
                r is None <==> (cur.graph.node_map().len() > MAX_NODES || !cur.slots_fit()
                    || schedule_size(cur.graph.node_map(), cur.graph.link_map()) > MAX_BUFFER_SLOTS)
            }),
            match r {
                Some(plan) => {
                    let cur = self@.current;
                    let prev_nodes = if self@.undo.len() > 0 { self@.undo.last().graph.node_map().dom() } else { Set::empty() };
                    &&& exists|o: Seq<u64>| is_topo_order(cur.graph.node_map(), cur.graph.link_map(), o)
                        && schedule_matches(cur.graph.node_map(), cur.graph.link_map(), o, cur.master_node_id, plan.schedule)
                    &&& plan.schedule.buffer_count == schedule_size(cur.graph.node_map(), cur.graph.link_map())
                    &&& lists_set(plan.state_additions@, cur.graph.node_map().dom().difference(prev_nodes))
                    &&& lists_set(plan.state_removals@, prev_nodes.difference(cur.graph.node_map().dom()))
                },
                None => true,
            },
    {
        let cur: &ProjectData = &self.current;
        let ghost nodes = cur.graph.node_map();
        if !cur.slots_fit_exec() {
            return None;
        }
        let schedule = match cur.compile_graph() {
            Ok(s) => s,
            Err(_) => return None,
        };
        let new_ids = node_store_keys(&cur.graph.nodes);
        proof {
            assert(new_ids@.to_set() =~= nodes.dom());
            new_ids@.unique_seq_to_set();
        }
        if schedule.buffer_count > MAX_BUFFER_SLOTS || new_ids.len() > MAX_NODES {
            return None;
        }
        let old_ids: Vec<u64> = if self.undo_stack.len() > 0 {
            let last: &ProjectData = &self.undo_stack[self.undo_stack.len() - 1];
            let ids = node_store_keys(&last.graph.nodes);
            proof {
                assert(*last == self@.undo.last());
                assert(ids@.to_set() =~= self@.undo.last().graph.node_map().dom());
            }
            ids
        } else {
            let ids: Vec<u64> = Vec::new();
            proof {
                assert(ids@.to_set() =~= Set::<u64>::empty());
            }
            ids
        };
        let state_additions = difference(&new_ids, &old_ids);
        let state_removals = difference(&old_ids, &new_ids);
        Some(GraphUpdatePlan { schedule, state_additions, state_removals })
    }
}

/// Undo right after a commit goes back to the project before it, and the
/// committed project becomes the one redo restores.
pub proof fn law_undo_reverts_commit(h: HistoryView, next: ProjectData)
    ensures
        undo_view(commit_view(h, next)) == (HistoryView { current: h.current, undo: h.undo, redo: seq![next] }),
{
    assert(h.undo.push(h.current).drop_last() =~= h.undo);
    assert(Seq::<ProjectData>::empty().push(next) =~= seq![next]);
}

/// Redo undoes an undo.
pub proof fn law_redo_reverts_undo(h: HistoryView)
    requires
        h.undo.len() > 0,
    ensures
        redo_view(undo_view(h)) == h,
{
    assert(h.redo.push(h.current).drop_last() =~= h.redo);
    assert(h.undo.drop_last().push(h.undo.last()) =~= h.undo);
}

/// Undo undoes a redo.
pub proof fn law_undo_reverts_redo(h: HistoryView)
    requires
        h.redo.len() > 0,
    ensures
        undo_view(redo_view(h)) == h,
{
    assert(h.undo.push(h.current).drop_last() =~= h.undo);
    assert(h.redo.drop_last().push(h.redo.last()) =~= h.redo);
}

/// A commit leaves nothing to redo.
pub proof fn law_commit_clears_redo(h: HistoryView, next: ProjectData)
    ensures
        redo_view(commit_view(h, next)) == commit_view(h, next),
{
}

} // verus!
