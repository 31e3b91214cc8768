use vstd::prelude::*;
use crate::asset::AssetID;
use crate::clip::ClipID;
use crate::error::EngineError;
use crate::graph::{link_valid, Node, NodeID, NodePayload, Socket, SocketIndex};
use crate::kind::SignalKind;
use crate::order::is_topo_order;
use crate::project::{
    add_clip_to_track_post, add_link_post, add_routed_track_post, move_clip_post, remove_link_post,
    remove_track_post, ProjectData,
};
use crate::schedule::{
    feeders, lemma_node_total_perm, lemma_out_total_is_node_total, lemma_out_total_prefix,
    lemma_out_total_step, lists_sources, node_total, out_total, outputs_of, slot_of, SlotIndex,
};
use crate::store::{is_key, link_store_keys, node_store_get, SLOT_LIMIT};
use crate::tick::Tick;
use crate::track::TrackID;

verus! {

// A project in the model's earlier shape: its master has the sockets `in`
// and `out`, a new track's reader gets an output of the track's kind and is
// routed straight to the master, and its schedule lists, for each input,
// every buffer that feeds it (outputs are numbered from 0 and no buffer is
// kept for silence).

/// One node's turn in a source schedule.
pub struct SourceStep {
    pub node: NodeID,
    /// For each input socket, the buffers of every link into it.
    pub input_sources: Vec<Vec<SlotIndex>>,
    /// One buffer per output socket.
    pub output_slots: Vec<SlotIndex>,
}

/// The source schedule of a project's graph.
pub struct SourceSchedule {
    pub steps: Vec<SourceStep>,
    pub buffer_count: usize,
    pub master_output_slot: SlotIndex,
}

/// The buffer of output socket `sock`: outputs are numbered from 0 in the
/// order `o`, node after node.
pub open spec fn slot0_of(nodes: Map<u64, Node>, o: Seq<u64>, sock: (NodeID, usize)) -> int {
    out_total(nodes, o.take(o.index_of(sock.0))) + sock.1
}

/// `srcs` lists the buffers (numbered from 0) of the sources of the links in
/// `f`, each link once.
pub open spec fn lists_sources0(nodes: Map<u64, Node>, links: Map<u64, crate::graph::Link>, o: Seq<u64>, f: Set<u64>, srcs: Seq<SlotIndex>) -> bool {
    exists|fs: Seq<u64>| {
        &&& fs.no_duplicates()
        &&& fs.to_set() == f
        &&& srcs.len() == fs.len()
        &&& forall|c: int| 0 <= c < fs.len() ==> #[trigger] srcs[c] == slot0_of(nodes, o, links[fs[c]].from)
    }
}

/// Node `o[k]` runs as `step`.
pub open spec fn source_step_matches(nodes: Map<u64, Node>, links: Map<u64, crate::graph::Link>, o: Seq<u64>, step: SourceStep, k: int) -> bool {
    let n = o[k];
    &&& step.node == n
    &&& step.output_slots@.len() == nodes[n].outputs@.len()
    &&& forall|i: int| 0 <= i < step.output_slots@.len() ==> #[trigger] step.output_slots@[i] == slot0_of(nodes, o, (n, i as usize))
    &&& step.input_sources@.len() == nodes[n].inputs@.len()
    &&& forall|i: int| 0 <= i < step.input_sources@.len()
        ==> #[trigger] lists_sources0(nodes, links, o, feeders(links, n, i), step.input_sources@[i]@)
}

/// `g` is the source schedule of the graph in node order `o`.
pub open spec fn source_schedule_matches(nodes: Map<u64, Node>, links: Map<u64, crate::graph::Link>, o: Seq<u64>, master: NodeID, g: SourceSchedule) -> bool {
    &&& g.steps@.len() == o.len()
    &&& forall|k: int| 0 <= k < o.len() ==> #[trigger] source_step_matches(nodes, links, o, g.steps@[k], k)
    &&& g.buffer_count == out_total(nodes, o)
    &&& g.master_output_slot == slot0_of(nodes, o, (master, 0))
}

/// The number of output sockets of all nodes.
pub open spec fn output_count(nodes: Map<u64, Node>) -> nat {
    let s = choose|s: Seq<u64>| s.no_duplicates() && s.to_set() == nodes.dom();
    node_total(outputs_of(nodes), s)
}

/// Each listed source buffer, numbered from 1, is at least 1.
proof fn lemma_sources_positive(nodes: Map<u64, Node>, links: Map<u64, crate::graph::Link>, o: Seq<u64>, f: Set<u64>, srcs: Seq<SlotIndex>)
    requires
        lists_sources(nodes, links, o, f, srcs),
    ensures
        forall|c: int| 0 <= c < srcs.len() ==> #[trigger] srcs[c] >= 1,
{
    let fs = choose|fs: Seq<u64>| {
        &&& fs.no_duplicates()
        &&& fs.to_set() == f
        &&& srcs.len() == fs.len()
        &&& forall|c: int| 0 <= c < fs.len() ==> #[trigger] srcs[c] == slot_of(nodes, o, links[fs[c]].from)
    };
    assert forall|c: int| 0 <= c < srcs.len() implies #[trigger] srcs[c] >= 1 by {
        assert(srcs[c] == slot_of(nodes, o, links[fs[c]].from));
    }
}

/// Numbering the listed source buffers from 0 instead of 1 lists the same
/// sources.
proof fn lemma_sources_shift(nodes: Map<u64, Node>, links: Map<u64, crate::graph::Link>, o: Seq<u64>, f: Set<u64>, srcs: Seq<SlotIndex>, r: Seq<SlotIndex>)
    requires
        lists_sources(nodes, links, o, f, srcs),
        r.len() == srcs.len(),
        forall|c: int| 0 <= c < r.len() ==> #[trigger] r[c] + 1 == srcs[c],
    ensures
        lists_sources0(nodes, links, o, f, r),
{
    let fs = choose|fs: Seq<u64>| {
        &&& fs.no_duplicates()
        &&& fs.to_set() == f
        &&& srcs.len() == fs.len()
        &&& forall|c: int| 0 <= c < fs.len() ==> #[trigger] srcs[c] == slot_of(nodes, o, links[fs[c]].from)
    };
    assert forall|c: int| 0 <= c < fs.len() implies #[trigger] r[c] == slot0_of(nodes, o, links[fs[c]].from) by {
        assert(srcs[c] == slot_of(nodes, o, links[fs[c]].from));
        assert(r[c] + 1 == srcs[c]);
    }
}

/// The same buffers, numbered one lower.
fn shift_down(srcs: &Vec<SlotIndex>) -> (r: Vec<SlotIndex>)
    requires
        forall|c: int| 0 <= c < srcs@.len() ==> #[trigger] srcs@[c] >= 1,
    ensures
        r@.len() == srcs@.len(),
        forall|c: int| 0 <= c < r@.len() ==> #[trigger] r@[c] + 1 == srcs@[c],
{
    let mut r: Vec<SlotIndex> = Vec::new();
    let mut c: usize = 0;
    while c < srcs.len()
        invariant
            c <= srcs@.len(),
            r@.len() == c,
            forall|q: int| 0 <= q < srcs@.len() ==> #[trigger] srcs@[q] >= 1,
            forall|q: int| 0 <= q < c ==> #[trigger] r@[q] + 1 == srcs@[q],
        decreases srcs@.len() - c,
    {
        r.push(srcs[c] - 1);
        c = c + 1;
    }
    r
}

/// The master of a project in this shape.
pub open spec fn routed_master_inputs() -> Seq<Socket> {
    seq![Socket { kind: SignalKind::Audio, name: "in", visible: true }]
}

pub open spec fn routed_master_outputs() -> Seq<Socket> {
    seq![Socket { kind: SignalKind::Audio, name: "out", visible: false }]
}

/// The master of a project in this shape takes and gives audio: its one
/// input and its one output carry audio, so a control-voltage or MIDI source
/// cannot feed it, while an audio source can.
pub proof fn law_routed_master_is_audio()
    ensures
        routed_master_inputs().len() == 1,
        routed_master_outputs().len() == 1,
        routed_master_inputs()[0].kind == SignalKind::Audio,
        routed_master_outputs()[0].kind == SignalKind::Audio,
        !SignalKind::Cv.connects_to(routed_master_inputs()[0].kind),
        !SignalKind::Midi.connects_to(routed_master_inputs()[0].kind),
        SignalKind::Audio.connects_to(routed_master_inputs()[0].kind),
{
}

/// The reader output of a track of kind `kind`.
pub open spec fn routed_reader_output(kind: SignalKind) -> Socket {
    Socket { kind, name: "out", visible: true }
}

/// A project whose new tracks route straight to the master. Its contents are
/// those of a `ProjectData`. A reader node of such a project records 0
/// channels: it renders at the channel count of the engine.
pub struct Project {
    pub data: ProjectData,
}

impl Project {
    pub open spec fn wf(&self) -> bool {
        self.data.wf()
    }

    /// A project with a master node (sockets `in` and `out`) and nothing else.
    pub fn new() -> (p: Project)
        ensures
            p.wf(),
            p.data.track_map().dom() == Set::<u64>::empty(),
            p.data.clip_map().dom() == Set::<u64>::empty(),
            p.data.asset_map().dom() == Set::<u64>::empty(),
            p.data.graph.node_map().dom() == set![p.data.master_node_id],
            p.data.graph.node_map()[p.data.master_node_id].inputs@ == routed_master_inputs(),
            p.data.graph.node_map()[p.data.master_node_id].outputs@ == routed_master_outputs(),
            p.data.graph.node_map()[p.data.master_node_id].payload == NodePayload::Master,
            p.data.graph.link_map().dom() == Set::<u64>::empty(),
            p.data.graph.node_map()[p.data.master_node_id].inputs@.len() == 1,
            p.data.graph.node_map()[p.data.master_node_id].inputs@[0].kind == SignalKind::Audio,
            p.data.graph.node_map()[p.data.master_node_id].inputs@[0].name@ == seq!['i', 'n'],
            p.data.graph.node_map()[p.data.master_node_id].inputs@[0].visible,
            p.data.graph.node_map()[p.data.master_node_id].outputs@.len() == 1,
            p.data.graph.node_map()[p.data.master_node_id].outputs@[0].kind == SignalKind::Audio,
            p.data.graph.node_map()[p.data.master_node_id].outputs@[0].name@ == seq!['o', 'u', 't'],
            !p.data.graph.node_map()[p.data.master_node_id].outputs@[0].visible,
    {
        proof {
            reveal_strlit("in");
            reveal_strlit("out");
        }
        let master = Node {
            inputs: vec![Socket { kind: SignalKind::Audio, name: "in", visible: true }],
            outputs: vec![Socket { kind: SignalKind::Audio, name: "out", visible: false }],
            payload: NodePayload::Master,
        };
        proof {
            assert(master.inputs@ =~= routed_master_inputs());
            assert(master.outputs@ =~= routed_master_outputs());
        }
        Project { data: ProjectData::with_master(master) }
    }

    /// Adds an empty track of kind `kind`, its reader node with one output of
    /// that kind named `out`, and a link from the reader to the master's input.
    pub fn add_track(&mut self, name: String, kind: SignalKind) -> (r: Result<(), EngineError>)
        requires
            old(self).wf(),
            old(self).data.track_map().len() < SLOT_LIMIT,
            old(self).data.graph.node_map().len() < SLOT_LIMIT,
            old(self).data.graph.link_map().len() < SLOT_LIMIT,
        ensures
            final(self).wf(),
            r == Ok::<(), EngineError>(()),
            exists|ids: (TrackID, NodeID)|
                add_routed_track_post(old(self).data, final(self).data, name, kind, routed_reader_output(kind), 0, ids),
    {
        let ghost pre = self.data;
        let ghost name0 = name;
        let out = Socket { kind, name: "out", visible: true };
        let ids = self.data.add_routed_track(name, kind, out, 0);
        proof {
            assert(add_routed_track_post(pre, self.data, name0, kind, routed_reader_output(kind), 0, ids));
        }
        Ok(())
    }

    /// Removes a track, its reader node with every link touching it, and the
    /// clips on its timeline.
    pub fn remove_track(&mut self, track_id: TrackID) -> (r: Result<(), EngineError>)
        requires
            old(self).wf(),
            is_key(track_id),
        ensures
            final(self).wf(),
            remove_track_post(old(self).data, final(self).data, track_id, r),
    {
        self.data.remove_track(track_id)
    }

    /// Stores a clip and places it on a track (the clip is stored even when
    /// the track is missing).
    pub fn add_clip_to_track(&mut self, track: TrackID, start: Tick, length: Tick, asset: AssetID) -> (r: Result<(), EngineError>)
        requires
            old(self).wf(),
            is_key(track),
            old(self).data.clip_map().len() < SLOT_LIMIT,
        ensures
            final(self).wf(),
            exists|r2: Result<ClipID, EngineError>| {
                &&& add_clip_to_track_post(old(self).data, final(self).data, track, start, length, asset, r2)
                &&& r == match r2 {
                    Ok(_) => Ok::<(), EngineError>(()),
                    Err(e) => Err(e),
                }
            },
    {
        let ghost pre = self.data;
        let r2 = self.data.add_clip_to_track(track, start, length, asset);
        let r = match r2 {
            Ok(_) => Ok(()),
            Err(e) => Err(e),
        };
        proof {
            assert(add_clip_to_track_post(pre, self.data, track, start, length, asset, r2));
        }
        r
    }

    /// Moves a clip to a new start on a track.
    pub fn move_clip(&mut self, track: TrackID, clip: ClipID, new_start: Tick) -> (r: Result<(), EngineError>)
        requires
            old(self).wf(),
            is_key(track),
            is_key(clip),
        ensures
            final(self).wf(),
            move_clip_post(old(self).data, final(self).data, track, clip, new_start, r),
    {
        self.data.move_clip(track, clip, new_start)
    }

    /// Takes out every link between the two sockets.
    pub fn remove_link(&mut self, from: (NodeID, SocketIndex), to: (NodeID, SocketIndex)) -> (r: Result<(), EngineError>)
        requires
            old(self).wf(),
        ensures
            final(self).wf(),
            remove_link_post(old(self).data, final(self).data, from, to, r),
    {
        self.data.remove_link(from, to)
    }

    /// Links an output to an input; refused for a missing socket, kinds that
    /// cannot connect, or a link that would close a cycle.
    pub fn add_link(&mut self, from: (NodeID, SocketIndex), to: (NodeID, SocketIndex)) -> (r: Result<(), EngineError>)
        requires
            old(self).wf(),
            is_key(from.0),
            is_key(to.0),
            old(self).data.graph.link_map().len() < SLOT_LIMIT,
        ensures
            final(self).wf(),
            add_link_post(old(self).data, final(self).data, from, to, r),
    {
        self.data.add_link(from, to)
    }

    /// The kind of a socket: an output of the node when `is_output`, an input
    /// otherwise.
    pub fn socket_kind_of(&self, endpoint: (NodeID, SocketIndex), is_output: bool) -> (r: Result<SignalKind, EngineError>)
        requires
            is_key(endpoint.0),
        ensures
            r == crate::graph::socket_kind_spec(self.data.graph.node_map(), endpoint, is_output),
    {
        self.data.socket_kind_of(endpoint, is_output)
    }
}

impl Project {
    /// Every link joins existing sockets: what a source schedule needs.
    pub open spec fn source_compilable(&self) -> bool {
        &&& self.data.graph.keys_valid()
        &&& forall|l: u64| #[trigger] self.data.graph.link_map().contains_key(l)
            ==> link_valid(self.data.graph.node_map(), self.data.graph.link_map()[l])
    }

    /// The master node is in the graph and has an output.
    pub open spec fn master_ok(&self) -> bool {
        &&& self.data.graph.node_map().contains_key(self.data.master_node_id)
        &&& self.data.graph.node_map()[self.data.master_node_id].outputs@.len() >= 1
    }

    /// Kahn's order of the nodes with a buffer per output socket, numbered
    /// from 0, the buffers of every link into each input, and the master's
    /// first output as the mix. It fails with `WouldCreateCycle` when the
    /// links form a cycle, and otherwise with `NodeNotFound` of the master
    /// when the master has no output.
    pub fn compile_graph(&self) -> (r: Result<SourceSchedule, EngineError>)
        requires
            self.source_compilable(),
            self.data.slots_fit(),
        ensures
            r is Ok <==> (self.data.graph.acyclic() && self.master_ok()),
            match r {
                Ok(g) => {
                    &&& exists|o: Seq<u64>| is_topo_order(self.data.graph.node_map(), self.data.graph.link_map(), o)
                        && source_schedule_matches(self.data.graph.node_map(), self.data.graph.link_map(), o, self.data.master_node_id, g)
                    &&& g.buffer_count == output_count(self.data.graph.node_map())
                },
                Err(e) => if !self.data.graph.acyclic() {
                    e == EngineError::WouldCreateCycle
                } else {
                    e == EngineError::NodeNotFound(self.data.master_node_id)
                },
            },
    {
        let d = &self.data;
        let ghost nodes = d.graph.node_map();
        let ghost links = d.graph.link_map();
        let order = match d.graph.topo_sort() {
            Ok(o) => o,
            Err(e) => {
                proof {
                    if let EngineError::NodeNotFound(x) = e {
                        let l = choose|l: u64| #[trigger] links.contains_key(l) && links[l].to.0 == x && !nodes.contains_key(x);
                        assert(link_valid(nodes, links[l]));
                    }
                }
                return Err(e);
            },
        };
        proof {
            assert(d.graph.acyclic());
        }
        let master_has_output = match d.graph.node(d.master_node_id) {
            Some(m) => m.outputs.len() >= 1,
            None => false,
        };
        if !master_has_output {
            return Err(EngineError::NodeNotFound(d.master_node_id));
        }
        proof {
            assert(d.compilable());
            assert forall|i: int| 0 <= i < order@.len() implies nodes.contains_key(#[trigger] order@[i]) by {
                assert(order@.to_set().contains(order@[i]));
            }
            assert(1 + out_total(nodes, order@) + crate::schedule::in_total(nodes, order@) <= usize::MAX);
            assert(order@.take(order@.len() as int) =~= order@);
        }
        let lids = link_store_keys(&d.graph.links);
        let mut bases: Vec<usize> = Vec::new();
        let mut total: usize = 1;
        let mut k: usize = 0;
        while k < order.len()
            invariant
                d.compilable(),
                d.graph.wf(),
                nodes == d.graph.node_map(),
                is_topo_order(nodes, links, order@),
                forall|i: int| 0 <= i < order@.len() ==> nodes.contains_key(#[trigger] order@[i]),
                1 + out_total(nodes, order@) + crate::schedule::in_total(nodes, order@) <= usize::MAX,
                order@.take(order@.len() as int) == order@,
                k <= order@.len(),
                bases@.len() == k,
                forall|q: int| 0 <= q < k ==> #[trigger] bases@[q] == 1 + out_total(nodes, order@.take(q)),
                total == 1 + out_total(nodes, order@.take(k as int)),
            decreases order@.len() - k,
        {
            bases.push(total);
            let node = match node_store_get(&d.graph.nodes, order[k]) {
                Some(node) => node,
                None => {
                    assert(false);
                    return Err(EngineError::WouldCreateCycle);
                },
            };
            proof {
                lemma_out_total_step(nodes, order@, k as int);
                lemma_out_total_prefix(nodes, order@, k + 1, order@.len() as int);
            }
            total = total + node.outputs.len();
            k = k + 1;
        }
        let mut steps: Vec<SourceStep> = Vec::new();
        let mut k: usize = 0;
        while k < order.len()
            invariant
                crate::compile::compile_context(*d, order@, bases@, lids@),
                nodes == d.graph.node_map(),
                links == d.graph.link_map(),
                k <= order@.len(),
                steps@.len() == k,
                forall|q: int| 0 <= q < k ==> #[trigger] source_step_matches(nodes, links, order@, steps@[q], q),
            decreases order@.len() - k,
        {
            let n = order[k];
            proof {
                assert(order@.to_set().contains(n));
            }
            let node = match node_store_get(&d.graph.nodes, n) {
                Some(node) => node,
                None => {
                    assert(false);
                    return Err(EngineError::WouldCreateCycle);
                },
            };
            let nout = node.outputs.len();
            let nin = node.inputs.len();
            let mut output_slots: Vec<SlotIndex> = Vec::new();
            let mut i: usize = 0;
            while i < nout
                invariant
                    crate::compile::compile_context(*d, order@, bases@, lids@),
                    nodes == d.graph.node_map(),
                    nodes.contains_key(n),
                    nout == nodes[n].outputs@.len(),
                    i <= nout,
                    output_slots@.len() == i,
                    forall|q: int| 0 <= q < i ==> #[trigger] output_slots@[q] == slot0_of(nodes, order@, (n, q as usize)),
                decreases nout - i,
            {
                let slot = d.source_slot(&order, &bases, &lids, n, i);
                output_slots.push(slot - 1);
                i = i + 1;
            }
            let mut input_sources: Vec<Vec<SlotIndex>> = Vec::new();
            let mut i: usize = 0;
            while i < nin
                invariant
                    crate::compile::compile_context(*d, order@, bases@, lids@),
                    nodes == d.graph.node_map(),
                    links == d.graph.link_map(),
                    nodes.contains_key(n),
                    nin == nodes[n].inputs@.len(),
                    i <= nin,
                    input_sources@.len() == i,
                    forall|q: int| 0 <= q < i
                        ==> #[trigger] lists_sources0(nodes, links, order@, feeders(links, n, q), input_sources@[q]@),
                decreases nin - i,
            {
                let srcs = d.input_sources(&order, &bases, &lids, n, i);
                proof {
                    lemma_sources_positive(nodes, links, order@, feeders(links, n, i as int), srcs@);
                }
                let shifted = shift_down(&srcs);
                proof {
                    lemma_sources_shift(nodes, links, order@, feeders(links, n, i as int), srcs@, shifted@);
                }
                input_sources.push(shifted);
                i = i + 1;
            }
            let step = SourceStep { node: n, input_sources, output_slots };
            steps.push(step);
            proof {
                assert forall|q: int| 0 <= q < k + 1 implies #[trigger] source_step_matches(nodes, links, order@, steps@[q], q) by {
                    if q == k {
                        assert(steps@[q] == step);
                    }
                }
            }
            k = k + 1;
        }
        let master_output_slot = d.source_slot(&order, &bases, &lids, d.master_node_id, 0) - 1;
        let g = SourceSchedule { steps, buffer_count: total - 1, master_output_slot };
        proof {
            assert(source_schedule_matches(nodes, links, order@, d.master_node_id, g));
            lemma_out_total_is_node_total(nodes, order@);
            let s = choose|s: Seq<u64>| s.no_duplicates() && s.to_set() == nodes.dom();
            assert(s.no_duplicates() && s.to_set() == nodes.dom());
            lemma_node_total_perm(outputs_of(nodes), order@, s);
        }
        Ok(g)
    }
}

impl Default for Project {
    fn default() -> (p: Project)
        ensures
            p.wf(),
            p.data.graph.node_map().dom() == set![p.data.master_node_id],
            p.data.graph.node_map()[p.data.master_node_id].inputs@ == routed_master_inputs(),
            p.data.graph.node_map()[p.data.master_node_id].outputs@ == routed_master_outputs(),
            p.data.graph.link_map().dom() == Set::<u64>::empty(),
    {
        Project::new()
    }
}

} // verus!
