use vstd::prelude::*;
use std::collections::BTreeMap;
use crate::asset::{AssetID, AudioAsset};
use crate::clip::{AudioClip, Clip, ClipID};
use crate::error::EngineError;
use crate::graph::{
    add_link_outcome, input_label_spec, Socket, link_valid, links_kept, socket_kind_spec, Link, LinkSweep, Node, NodeGraph,
    NodeID, NodePayload, SocketIndex,
};
use crate::kind::SignalKind;
use crate::nodes::{Master, TrackReader};
use crate::order::{acyclic_maps, lemma_acyclic_add_source, lemma_acyclic_within};
use crate::store::{
    asset_store, asset_store_clone, asset_store_insert, asset_store_len, asset_store_new,
    clip_store_clone, clip_store_len, link_store_clone, link_store_len, node_store_clone,
    node_store_len, track_store_clone, track_store_len, clip_store, clip_store_get,
    clip_store_insert, clip_store_new, clip_store_remove, clip_store_set, is_key, link_store_insert,
    track_store, track_store_get, track_store_insert, track_store_new, track_store_remove,
    track_store_set, Store, asset_store_get, is_key_exec, SLOT_LIMIT,
};
use crate::tick::Tick;
use crate::track::{without_clip, Track, TrackID, UNITY_GAIN_BITS};

verus! {

/// A finite store whose keys are all slot-map keys.
pub open spec fn store_ok<V>(m: Map<u64, V>) -> bool {
    &&& m.dom().finite()
    &&& forall|k: u64| #[trigger] m.contains_key(k) ==> is_key(k)
}

/// Node `n` reads track `t`.
pub open spec fn reads_track(nodes: Map<u64, Node>, n: NodeID, t: TrackID) -> bool {
    &&& nodes.contains_key(n)
    &&& nodes[n].payload matches NodePayload::TrackReader { track, .. } && track == t
    &&& nodes[n].outputs@.len() >= 1
}

/// The whole editable state of a song: tracks, clips, assets and the flow
/// graph with its master output node.
pub struct ProjectData {
    pub tracks: Store<Track>,
    pub clips: Store<AudioClip>,
    pub assets: Store<AudioAsset>,
    pub graph: NodeGraph,
    pub master_node_id: NodeID,
}

/// What `add_track` does to a project.
pub open spec fn add_track_post(pre: ProjectData, post: ProjectData, name: String, kind: SignalKind, channels: u16, r: (TrackID, NodeID)) -> bool {
    &&& !pre.track_map().contains_key(r.0)
    &&& post.track_map().dom() == pre.track_map().dom().insert(r.0)
    &&& forall|t: u64| t != r.0 && #[trigger] pre.track_map().contains_key(t) ==> post.track_map()[t] == pre.track_map()[t]
    &&& post.track_map()[r.0].name == name
    &&& post.track_map()[r.0].kind == kind
    &&& post.track_map()[r.0].gain_bits == UNITY_GAIN_BITS
    &&& post.track_map()[r.0].clips@ == Map::<u64, ClipID>::empty()
    &&& post.track_map()[r.0].linked_node_id == Some(r.1)
    &&& !pre.graph.node_map().contains_key(r.1)
    &&& post.graph.node_map().dom() == pre.graph.node_map().dom().insert(r.1)
    &&& forall|n: u64| n != r.1 && #[trigger] pre.graph.node_map().contains_key(n) ==> post.graph.node_map()[n] == pre.graph.node_map()[n]
    &&& post.graph.node_map()[r.1].inputs@.len() == 0
    &&& post.graph.node_map()[r.1].outputs@ == TrackReader::outputs_spec()
    &&& post.graph.node_map()[r.1].payload == (NodePayload::TrackReader { track: r.0, channels })
    &&& post.graph.link_map() == pre.graph.link_map()
    &&& post.clip_map() == pre.clip_map()
    &&& post.asset_map() == pre.asset_map()
    &&& post.master_node_id == pre.master_node_id
}

/// What `add_routed_track` does to a project.
pub open spec fn add_routed_track_post(pre: ProjectData, post: ProjectData, name: String, kind: SignalKind, output: Socket, channels: u16, r: (TrackID, NodeID)) -> bool {
    &&& !pre.track_map().contains_key(r.0)
    &&& post.track_map().dom() == pre.track_map().dom().insert(r.0)
    &&& forall|t: u64| t != r.0 && #[trigger] pre.track_map().contains_key(t) ==> post.track_map()[t] == pre.track_map()[t]
    &&& post.track_map()[r.0].name == name
    &&& post.track_map()[r.0].kind == kind
    &&& post.track_map()[r.0].gain_bits == UNITY_GAIN_BITS
    &&& post.track_map()[r.0].clips@ == Map::<u64, ClipID>::empty()
    &&& post.track_map()[r.0].linked_node_id == Some(r.1)
    &&& !pre.graph.node_map().contains_key(r.1)
    &&& post.graph.node_map().dom() == pre.graph.node_map().dom().insert(r.1)
    &&& forall|n: u64| n != r.1 && #[trigger] pre.graph.node_map().contains_key(n) ==> post.graph.node_map()[n] == pre.graph.node_map()[n]
    &&& post.graph.node_map()[r.1].inputs@.len() == 0
    &&& post.graph.node_map()[r.1].outputs@ == seq![output]
    &&& post.graph.node_map()[r.1].payload == (NodePayload::TrackReader { track: r.0, channels })
    &&& exists|lid: u64| !pre.graph.link_map().contains_key(lid)
        && post.graph.link_map() == pre.graph.link_map().insert(lid, Link { from: (r.1, 0), to: (pre.master_node_id, 0) })
    &&& post.clip_map() == pre.clip_map()
    &&& post.asset_map() == pre.asset_map()
    &&& post.master_node_id == pre.master_node_id
}

/// What `remove_track` does to a project.
pub open spec fn remove_track_post(pre: ProjectData, post: ProjectData, track_id: TrackID, r: Result<(), EngineError>) -> bool {
    &&& post.asset_map() == pre.asset_map()
    &&& post.master_node_id == pre.master_node_id
    &&& match r {
        Ok(()) => {
            &&& pre.track_map().contains_key(track_id)
            &&& pre.track_map()[track_id].linked_node_id matches Some(n)
            &&& post.track_map() == pre.track_map().remove(track_id)
            &&& post.graph.node_map() == pre.graph.node_map().remove(n)
            &&& post.graph.link_map() == links_kept(pre.graph.link_map(), LinkSweep::Touching(n))
            &&& post.clip_map() == pre.clip_map().remove_keys(pre.track_map()[track_id].clips@.values())
        },
        Err(e) => {
            &&& e == EngineError::TrackNotFound
            &&& !pre.track_map().contains_key(track_id)
            &&& post.track_map() == pre.track_map()
            &&& post.clip_map() == pre.clip_map()
            &&& post.graph.node_map() == pre.graph.node_map()
            &&& post.graph.link_map() == pre.graph.link_map()
        },
    }
}

/// What `add_clip_to_track` does to a project.
pub open spec fn add_clip_to_track_post(pre: ProjectData, post: ProjectData, track: TrackID, start: Tick, length: Tick, asset_id: AssetID, r: Result<ClipID, EngineError>) -> bool {
    &&& post.graph.node_map() == pre.graph.node_map()
    &&& post.graph.link_map() == pre.graph.link_map()
    &&& post.asset_map() == pre.asset_map()
    &&& post.master_node_id == pre.master_node_id
    &&& exists|c: ClipID| {
        &&& !pre.clip_map().contains_key(c)
        &&& post.clip_map() == pre.clip_map().insert(c, AudioClip { start, length, asset_id })
        &&& match r {
            Ok(id) => {
                &&& id == c
                &&& pre.track_map().contains_key(track)
                &&& post.track_map().dom() == pre.track_map().dom()
                &&& forall|t: u64| t != track && #[trigger] pre.track_map().contains_key(t)
                    ==> post.track_map()[t] == pre.track_map()[t]
                &&& post.track_map()[track].clips@ == pre.track_map()[track].clips@.insert(start.0, c)
                &&& post.track_map()[track].name == pre.track_map()[track].name
                &&& post.track_map()[track].kind == pre.track_map()[track].kind
                &&& post.track_map()[track].gain_bits == pre.track_map()[track].gain_bits
                &&& post.track_map()[track].linked_node_id == pre.track_map()[track].linked_node_id
            },
            Err(e) => {
                &&& e == EngineError::TrackNotFound
                &&& !pre.track_map().contains_key(track)
                &&& post.track_map() == pre.track_map()
            },
        }
    }
}

/// What `move_clip` does to a project.
pub open spec fn move_clip_post(pre: ProjectData, post: ProjectData, track: TrackID, clip: ClipID, new_start: Tick, r: Result<(), EngineError>) -> bool {
    &&& post.graph.node_map() == pre.graph.node_map()
    &&& post.graph.link_map() == pre.graph.link_map()
    &&& post.asset_map() == pre.asset_map()
    &&& post.master_node_id == pre.master_node_id
    &&& match r {
        Ok(()) => {
            &&& pre.track_map().contains_key(track)
            &&& post.track_map().dom() == pre.track_map().dom()
            &&& forall|t: u64| t != track && #[trigger] pre.track_map().contains_key(t)
                ==> post.track_map()[t] == pre.track_map()[t]
            &&& post.track_map()[track].clips@ == without_clip(pre.track_map()[track].clips@, clip).insert(new_start.0, clip)
            &&& post.track_map()[track].name == pre.track_map()[track].name
            &&& post.track_map()[track].kind == pre.track_map()[track].kind
            &&& post.track_map()[track].gain_bits == pre.track_map()[track].gain_bits
            &&& post.track_map()[track].linked_node_id == pre.track_map()[track].linked_node_id
            &&& post.clip_map() == if pre.clip_map().contains_key(clip) {
                pre.clip_map().insert(clip, AudioClip { start: new_start, ..pre.clip_map()[clip] })
            } else {
                pre.clip_map()
            }
        },
        Err(e) => {
            &&& e == EngineError::TrackNotFound
            &&& !pre.track_map().contains_key(track)
            &&& post.track_map() == pre.track_map()
            &&& post.clip_map() == pre.clip_map()
        },
    }
}

/// What `add_link` does to a project.
pub open spec fn add_link_post(pre: ProjectData, post: ProjectData, from: (NodeID, SocketIndex), to: (NodeID, SocketIndex), r: Result<(), EngineError>) -> bool {
    &&& post.track_map() == pre.track_map()
    &&& post.clip_map() == pre.clip_map()
    &&& post.asset_map() == pre.asset_map()
    &&& post.master_node_id == pre.master_node_id
    &&& post.graph.node_map() == pre.graph.node_map()
    &&& r == add_link_outcome(pre.graph.node_map(), pre.graph.link_map(), from, to)
    &&& r is Ok ==> exists|lid: u64| !pre.graph.link_map().contains_key(lid)
        && post.graph.link_map() == pre.graph.link_map().insert(lid, Link { from, to })
    &&& r is Err ==> post.graph.link_map() == pre.graph.link_map()
}

/// What `remove_link` does to a project.
pub open spec fn remove_link_post(pre: ProjectData, post: ProjectData, from: (NodeID, SocketIndex), to: (NodeID, SocketIndex), r: Result<(), EngineError>) -> bool {
    &&& r is Ok
    &&& post.track_map() == pre.track_map()
    &&& post.clip_map() == pre.clip_map()
    &&& post.asset_map() == pre.asset_map()
    &&& post.master_node_id == pre.master_node_id
    &&& post.graph.node_map() == pre.graph.node_map()
    &&& post.graph.link_map() == links_kept(pre.graph.link_map(), LinkSweep::Between(from, to))
}

/// What `add_node` does to a project.
pub open spec fn add_node_post(pre: ProjectData, post: ProjectData, node: Node, id: NodeID) -> bool {
    &&& post.track_map() == pre.track_map()
    &&& post.clip_map() == pre.clip_map()
    &&& post.asset_map() == pre.asset_map()
    &&& post.master_node_id == pre.master_node_id
    &&& is_key(id)
    &&& !pre.graph.node_map().contains_key(id)
    &&& post.graph.node_map() == pre.graph.node_map().insert(id, node)
    &&& post.graph.link_map() == pre.graph.link_map()
}

/// What `add_node_input` does to a project.
pub open spec fn add_node_input_post(pre: ProjectData, post: ProjectData, id: NodeID, kind: SignalKind, r: Result<SocketIndex, EngineError>) -> bool {
    &&& post.track_map() == pre.track_map()
    &&& post.clip_map() == pre.clip_map()
    &&& post.asset_map() == pre.asset_map()
    &&& post.master_node_id == pre.master_node_id
    &&& post.graph.link_map() == pre.graph.link_map()
    &&& match r {
        Ok(i) => {
            &&& pre.graph.node_map().contains_key(id)
            &&& i == pre.graph.node_map()[id].inputs@.len()
            &&& post.graph.node_map().dom() == pre.graph.node_map().dom()
            &&& forall|k: u64| k != id && #[trigger] pre.graph.node_map().contains_key(k)
                ==> post.graph.node_map()[k] == pre.graph.node_map()[k]
            &&& post.graph.node_map()[id].inputs@ == pre.graph.node_map()[id].inputs@.push(
                Socket { kind, name: post.graph.node_map()[id].inputs@[i as int].name, visible: true })
            &&& post.graph.node_map()[id].inputs@[i as int].name@ == input_label_spec(i as nat)
            &&& post.graph.node_map()[id].outputs@ == pre.graph.node_map()[id].outputs@
            &&& post.graph.node_map()[id].payload == pre.graph.node_map()[id].payload
        },
        Err(e) => {
            &&& !pre.graph.node_map().contains_key(id)
            &&& e == EngineError::NodeNotFound(id)
            &&& post.graph.node_map() == pre.graph.node_map()
        },
    }
}

impl ProjectData {
    pub open spec fn track_map(&self) -> Map<u64, Track> {
        track_store(self.tracks)
    }

    pub open spec fn clip_map(&self) -> Map<u64, AudioClip> {
        clip_store(self.clips)
    }

    pub open spec fn asset_map(&self) -> Map<u64, AudioAsset> {
        asset_store(self.assets)
    }

    /// The graph is well formed and holds the master node; every track is
    /// linked to a node that reads it, and names its clips by slot-map keys.
    pub open spec fn wf(&self) -> bool {
        &&& self.graph.wf()
        &&& store_ok(self.track_map())
        &&& store_ok(self.clip_map())
        &&& store_ok(self.asset_map())
        &&& self.graph.node_map().contains_key(self.master_node_id)
        &&& self.graph.node_map()[self.master_node_id].payload == NodePayload::Master
        &&& self.graph.node_map()[self.master_node_id].inputs@.len() >= 1
        &&& self.graph.node_map()[self.master_node_id].outputs@.len() >= 1
        &&& forall|t: u64| #[trigger] self.track_map().contains_key(t) ==> {
            &&& self.track_map()[t].linked_node_id matches Some(n)
            &&& reads_track(self.graph.node_map(), n, t)
        }
        &&& forall|t: u64, k: u64| #[trigger] self.track_map().contains_key(t) && #[trigger] self.track_map()[t].clips@.contains_key(k)
            ==> is_key(self.track_map()[t].clips@[k])
    }

    /// A project with a master node and nothing else.
    pub fn new() -> (p: ProjectData)
        ensures
            p.wf(),
            p.track_map().dom() == Set::<u64>::empty(),
            p.clip_map().dom() == Set::<u64>::empty(),
            p.asset_map().dom() == Set::<u64>::empty(),
            p.graph.node_map().dom() == set![p.master_node_id],
            p.graph.node_map()[p.master_node_id].inputs@ == Master::inputs_spec(),
            p.graph.node_map()[p.master_node_id].outputs@ == Master::outputs_spec(),
            p.graph.node_map()[p.master_node_id].payload == NodePayload::Master,
            p.graph.link_map().dom() == Set::<u64>::empty(),
            p.graph.node_map()[p.master_node_id].inputs@.len() == 1,
            p.graph.node_map()[p.master_node_id].inputs@[0].kind == SignalKind::Audio,
            p.graph.node_map()[p.master_node_id].outputs@.len() == 1,
            p.graph.node_map()[p.master_node_id].outputs@[0].kind == SignalKind::Audio,
    {
        ProjectData::with_master(Master.node())
    }

    /// A project whose only node is `master`, its master node.
    pub fn with_master(master: Node) -> (p: ProjectData)
        requires
            master.payload == NodePayload::Master,
            master.inputs@.len() >= 1,
            master.outputs@.len() >= 1,
        ensures
            p.wf(),
            p.track_map().dom() == Set::<u64>::empty(),
            p.clip_map().dom() == Set::<u64>::empty(),
            p.asset_map().dom() == Set::<u64>::empty(),
            p.graph.node_map().dom() == set![p.master_node_id],
            p.graph.node_map()[p.master_node_id] == master,
            p.graph.link_map().dom() == Set::<u64>::empty(),
    {
        let mut graph = NodeGraph::new();
        proof {
            assert(graph.node_map().len() == 0);
        }
        let master_node_id = graph.add_node(master);
        let p = ProjectData {
            tracks: track_store_new(),
            clips: clip_store_new(),
            assets: asset_store_new(),
            graph,
            master_node_id,
        };
        proof {
            assert(p.graph.node_map().dom() =~= set![master_node_id]);
        }
        p
    }

    /// Adds an empty track of kind `kind` and its reader node, which nothing
    /// links yet; returns the track and the node.
    pub fn add_track(&mut self, name: String, kind: SignalKind, channels: u16) -> (r: (TrackID, NodeID))
        requires
            old(self).wf(),
            old(self).track_map().len() < SLOT_LIMIT,
            old(self).graph.node_map().len() < SLOT_LIMIT,
        ensures
            final(self).wf(),
            add_track_post(*old(self), *final(self), name, kind, channels, r),
    {
        let ghost nodes0 = self.graph.node_map();
        let ghost links0 = self.graph.link_map();
        let ghost tracks0 = self.track_map();
        let tid = track_store_insert(&mut self.tracks, Track::new(name, kind));
        let node = TrackReader::new(tid, channels).node();
        let nid = self.graph.add_node(node);
        let linked = match track_store_get(&self.tracks, tid) {
            Some(t) => t.with_link(Some(nid)),
            None => {
                assert(false);
                return (tid, nid);
            },
        };
        track_store_set(&mut self.tracks, tid, linked);
        proof {
            let nodes2 = self.graph.node_map();
            assert forall|t: u64| #[trigger] self.track_map().contains_key(t) implies {
                &&& self.track_map()[t].linked_node_id matches Some(n)
                &&& reads_track(nodes2, n, t)
            } by {
                if t != tid {
                    assert(tracks0.contains_key(t));
                }
            }
            assert forall|t: u64, k: u64| #[trigger] self.track_map().contains_key(t) && #[trigger] self.track_map()[t].clips@.contains_key(k)
                implies is_key(self.track_map()[t].clips@[k]) by {
                if t != tid {
                    assert(tracks0.contains_key(t));
                }
            }
            assert(self.track_map().dom() =~= tracks0.dom().insert(tid));
            assert(self.graph.node_map().dom() =~= nodes0.dom().insert(nid));
        }
        (tid, nid)
    }

    /// Adds an empty track of kind `kind`, a reader node for it with the one
    /// output socket `output`, and a link from that output to the master's
    /// first input; returns the track and the node.
    pub fn add_routed_track(&mut self, name: String, kind: SignalKind, output: Socket, channels: u16) -> (r: (TrackID, NodeID))
        requires
            old(self).wf(),
            old(self).track_map().len() < SLOT_LIMIT,
            old(self).graph.node_map().len() < SLOT_LIMIT,
            old(self).graph.link_map().len() < SLOT_LIMIT,
        ensures
            final(self).wf(),
            add_routed_track_post(*old(self), *final(self), name, kind, output, channels, r),
    {
        let ghost nodes0 = self.graph.node_map();
        let ghost links0 = self.graph.link_map();
        let ghost tracks0 = self.track_map();
        let tid = track_store_insert(&mut self.tracks, Track::new(name, kind));
        let node = Node { inputs: Vec::new(), outputs: vec![output], payload: NodePayload::TrackReader { track: tid, channels } };
        let nid = self.graph.add_node(node);
        let linked = match track_store_get(&self.tracks, tid) {
            Some(t) => t.with_link(Some(nid)),
            None => {
                assert(false);
                return (tid, nid);
            },
        };
        track_store_set(&mut self.tracks, tid, linked);
        let link = Link { from: (nid, 0), to: (self.master_node_id, 0) };
        let lid = link_store_insert(&mut self.graph.links, link);
        proof {
            let nodes2 = self.graph.node_map();
            let links2 = self.graph.link_map();
            lemma_acyclic_add_source(nodes0, links0, nid, node, links2);
            assert forall|l: u64| #[trigger] links2.contains_key(l) implies link_valid(nodes2, links2[l]) by {
                if l != lid {
                    assert(links0.contains_key(l));
                    assert(link_valid(nodes0, links0[l]));
                }
            }
            assert forall|t: u64| #[trigger] self.track_map().contains_key(t) implies {
                &&& self.track_map()[t].linked_node_id matches Some(n)
                &&& reads_track(nodes2, n, t)
            } by {
                if t != tid {
                    assert(tracks0.contains_key(t));
                }
            }
            assert forall|t: u64, k: u64| #[trigger] self.track_map().contains_key(t) && #[trigger] self.track_map()[t].clips@.contains_key(k)
                implies is_key(self.track_map()[t].clips@[k]) by {
                if t != tid {
                    assert(tracks0.contains_key(t));
                }
            }
            assert(self.track_map().dom() =~= tracks0.dom().insert(tid));
            assert(self.graph.node_map().dom() =~= nodes0.dom().insert(nid));
            assert(node.outputs@ =~= seq![output]);
        }
        (tid, nid)
    }

    /// Removes a track, its reader node with every link touching it, and the
    /// clips on its timeline.
    pub fn remove_track(&mut self, track_id: TrackID) -> (r: Result<(), EngineError>)
        requires
            old(self).wf(),
            is_key(track_id),
        ensures
            final(self).wf(),
            remove_track_post(*old(self), *final(self), track_id, r),
    {
        let ghost tracks0 = self.track_map();
        let ghost nodes0 = self.graph.node_map();
        let ghost clips0 = self.clip_map();
        let track = match track_store_remove(&mut self.tracks, track_id) {
            Some(t) => t,
            None => {
                proof {
                    assert(self.track_map() =~= tracks0);
                }
                return Err(EngineError::TrackNotFound);
            },
        };
        let linked = match track.linked_node_id {
            Some(n) => n,
            None => {
                assert(false);
                return Err(EngineError::TrackNotFound);
            },
        };
        self.graph.purge(linked);
        proof {
            broadcast use vstd::std_specs::btree::axiom_spec_values_iter;
            assert(tracks0.contains_key(track_id));
            assert forall|x: u64| track.clips@.values().contains(x) implies is_key(x) by {
                let k = choose|k: u64| track.clips@.contains_key(k) && track.clips@[k] == x;
                assert(tracks0[track_id].clips@.contains_key(k));
            }
        }
        let ghost mut seen: Set<u64> = Set::empty();
        let ghost before = *self;
        for c in iter: track.clips.values()
            invariant
                self.tracks == before.tracks,
                self.assets == before.assets,
                self.graph == before.graph,
                self.master_node_id == before.master_node_id,
                store_ok(clips0),
                forall|x: u64| track.clips@.values().contains(x) ==> is_key(x),
                iter.seq().unref().to_set() == track.clips@.values(),
                seen == iter.seq().unref().take(iter.index() as int).to_set(),
                iter.index() == iter.seq().len() ==> seen == track.clips@.values(),
                forall|x: u64| #[trigger] self.clip_map().contains_key(x) <==> (clips0.contains_key(x) && !seen.contains(x)),
                forall|x: u64| #[trigger] self.clip_map().contains_key(x) ==> self.clip_map()[x] == clips0[x],
        {
            proof {
                let s = iter.seq().unref();
                let i = iter.index();
                assert(s.to_set().contains(s[i]));
                assert(s.take(i + 1) =~= s.take(i).push(s[i]));
                s.take(i).lemma_push_to_set_commute(s[i]);
                assert(*c == s[i]);
                seen = seen.insert(*c);
                assert(s.take(s.len() as int) =~= s);
            }
            let ghost cur = self.clip_map();
            clip_store_remove(&mut self.clips, *c);
            proof {
                assert(self.clip_map() == cur.remove(*c));
                assert forall|x: u64| #[trigger] self.clip_map().contains_key(x) <==> (clips0.contains_key(x) && !seen.contains(x)) by {
                    assert(cur.contains_key(x) <==> (clips0.contains_key(x) && !(iter.seq().unref().take(iter.index() as int).to_set().contains(x))));
                }
            }
        }
        proof {
            assert(self.clip_map() =~= clips0.remove_keys(track.clips@.values()));
            let nodes2 = self.graph.node_map();
            assert(nodes0[linked].payload != NodePayload::Master);
            assert(linked != self.master_node_id);
            assert forall|t: u64| #[trigger] self.track_map().contains_key(t) implies {
                &&& self.track_map()[t].linked_node_id matches Some(n)
                &&& reads_track(nodes2, n, t)
            } by {
                assert(tracks0.contains_key(t));
                let n = tracks0[t].linked_node_id->0;
                assert(reads_track(nodes0, n, t));
                assert(n != linked);
            }
            assert forall|t: u64, k: u64| #[trigger] self.track_map().contains_key(t) && #[trigger] self.track_map()[t].clips@.contains_key(k)
                implies is_key(self.track_map()[t].clips@[k]) by {
                assert(tracks0.contains_key(t));
            }
            assert(self.graph.wf());
            assert(store_ok(self.track_map()));
            assert(self.clip_map().dom().subset_of(clips0.dom()));
            vstd::set_lib::lemma_len_subset(self.clip_map().dom(), clips0.dom());
        }
        Ok(())
    }

    /// Places a new clip of `length` frames from `asset_id` at `start` on a
    /// track. The clip is stored before the track is looked up, so a missing
    /// track leaves it stored, on no timeline. A clip already starting at
    /// `start` on that track is dropped from the timeline (not from the
    /// store).
    pub fn add_clip_to_track(&mut self, track: TrackID, start: Tick, length: Tick, asset_id: AssetID) -> (r: Result<ClipID, EngineError>)
        requires
            old(self).wf(),
            is_key(track),
            old(self).clip_map().len() < SLOT_LIMIT,
        ensures
            final(self).wf(),
            add_clip_to_track_post(*old(self), *final(self), track, start, length, asset_id, r),
    {
        let ghost tracks0 = self.track_map();
        let clip_id = clip_store_insert(&mut self.clips, AudioClip::new(start, length, asset_id));
        let updated = match track_store_get(&self.tracks, track) {
            None => {
                proof {
                    assert(self.clip_map().dom().subset_of(self.clip_map().dom()));
                }
                return Err(EngineError::TrackNotFound);
            },
            Some(t) => {
                let mut clips = t.clips.clone();
                clips.insert(start.0, clip_id);
                t.with_clips(clips)
            },
        };
        track_store_set(&mut self.tracks, track, updated);
        proof {
            assert(self.track_map().dom() =~= tracks0.dom());
            assert forall|t: u64| #[trigger] self.track_map().contains_key(t) implies {
                &&& self.track_map()[t].linked_node_id matches Some(n)
                &&& reads_track(self.graph.node_map(), n, t)
            } by {
                assert(tracks0.contains_key(t));
            }
            assert forall|t: u64, k: u64| #[trigger] self.track_map().contains_key(t) && #[trigger] self.track_map()[t].clips@.contains_key(k)
                implies is_key(self.track_map()[t].clips@[k]) by {
                assert(tracks0.contains_key(t));
                if t == track && k != start.0 {
                    assert(tracks0[t].clips@.contains_key(k));
                }
            }
        }
        Ok(clip_id)
    }

    /// Moves a clip on a track's timeline to `new_start`: every entry naming
    /// the clip is dropped, the clip is placed at `new_start` (replacing what
    /// started there), and the stored clip, if any, takes the new start.
    pub fn move_clip(&mut self, track: TrackID, clip: ClipID, new_start: Tick) -> (r: Result<(), EngineError>)
        requires
            old(self).wf(),
            is_key(track),
            is_key(clip),
        ensures
            final(self).wf(),
            move_clip_post(*old(self), *final(self), track, clip, new_start, r),
    {
        let ghost tracks0 = self.track_map();
        let ghost clips0 = self.clip_map();
        let updated = match track_store_get(&self.tracks, track) {
            None => return Err(EngineError::TrackNotFound),
            Some(t) => {
                let mut clips = t.clips_without(clip);
                clips.insert(new_start.0, clip);
                t.with_clips(clips)
            },
        };
        track_store_set(&mut self.tracks, track, updated);
        match clip_store_get(&self.clips, clip) {
            Some(c) => {
                let mut moved = c;
                moved.set_start(new_start);
                clip_store_set(&mut self.clips, clip, moved);
                proof {
                    assert(moved == AudioClip { start: new_start, ..clips0[clip] });
                }
            },
            None => {},
        }
        proof {
            assert(self.track_map().dom() =~= tracks0.dom());
            assert(self.clip_map().dom() =~= clips0.dom());
            assert forall|t: u64| #[trigger] self.track_map().contains_key(t) implies {
                &&& self.track_map()[t].linked_node_id matches Some(n)
                &&& reads_track(self.graph.node_map(), n, t)
            } by {
                assert(tracks0.contains_key(t));
            }
            assert forall|t: u64, k: u64| #[trigger] self.track_map().contains_key(t) && #[trigger] self.track_map()[t].clips@.contains_key(k)
                implies is_key(self.track_map()[t].clips@[k]) by {
                assert(tracks0.contains_key(t));
                if t == track && k != new_start.0 {
                    assert(tracks0[t].clips@.contains_key(k));
                }
            }
        }
        Ok(())
    }

    /// The kind of a node's socket; see `NodeGraph::socket_kind_of`.
    pub fn socket_kind_of(&self, endpoint: (NodeID, SocketIndex), is_output: bool) -> (r: Result<SignalKind, EngineError>)
        requires
            is_key(endpoint.0),
        ensures
            r == socket_kind_spec(self.graph.node_map(), endpoint, is_output),
    {
        self.graph.socket_kind_of(endpoint, is_output)
    }

    /// Links two sockets; see `NodeGraph::add_link`.
    pub fn add_link(&mut self, from: (NodeID, SocketIndex), to: (NodeID, SocketIndex)) -> (r: Result<(), EngineError>)
        requires
            old(self).wf(),
            is_key(from.0),
            is_key(to.0),
            old(self).graph.link_map().len() < SLOT_LIMIT,
        ensures
            final(self).wf(),
            add_link_post(*old(self), *final(self), from, to, r),
    {
        self.graph.add_link(from, to)
    }

    /// Removes every link between the two sockets; there need be none.
    pub fn remove_link(&mut self, from: (NodeID, SocketIndex), to: (NodeID, SocketIndex)) -> (r: Result<(), EngineError>)
        requires
            old(self).wf(),
        ensures
            final(self).wf(),
            remove_link_post(*old(self), *final(self), from, to, r),
    {
        let ghost links0 = self.graph.link_map();
        self.graph.sweep_links(LinkSweep::Between(from, to));
        proof {
            lemma_acyclic_within(self.graph.node_map(), links0, self.graph.node_map(), self.graph.link_map());
            assert forall|l: u64| #[trigger] self.graph.link_map().contains_key(l) implies link_valid(self.graph.node_map(), self.graph.link_map()[l]) by {
                assert(links0.contains_key(l));
            }
        }
        Ok(())
    }

    /// Adds a node without links to the graph.
    pub fn add_node(&mut self, node: Node) -> (id: NodeID)
        requires
            old(self).wf(),
            old(self).graph.node_map().len() < SLOT_LIMIT,
        ensures
            final(self).wf(),
            add_node_post(*old(self), *final(self), node, id),
    {
        let ghost nodes0 = self.graph.node_map();
        let id = self.graph.add_node(node);
        proof {
            assert forall|t: u64| #[trigger] self.track_map().contains_key(t) implies {
                &&& self.track_map()[t].linked_node_id matches Some(n)
                &&& reads_track(self.graph.node_map(), n, t)
            } by {
                let n = self.track_map()[t].linked_node_id->0;
                assert(reads_track(nodes0, n, t));
            }
        }
        id
    }

    /// Appends a labelled input socket of kind `kind` to a node; see
    /// `NodeGraph::add_node_input`.
    pub fn add_node_input(&mut self, id: NodeID, kind: SignalKind) -> (r: Result<SocketIndex, EngineError>)
        requires
            old(self).wf(),
            is_key(id),
        ensures
            final(self).wf(),
            add_node_input_post(*old(self), *final(self), id, kind, r),
    {
        let ghost nodes0 = self.graph.node_map();
        let r = self.graph.add_node_input(id, kind);
        proof {
            assert forall|t: u64| #[trigger] self.track_map().contains_key(t) implies {
                &&& self.track_map()[t].linked_node_id matches Some(n)
                &&& reads_track(self.graph.node_map(), n, t)
            } by {
                let n = self.track_map()[t].linked_node_id->0;
                assert(reads_track(nodes0, n, t));
            }
        }
        r
    }

    /// Appends the input socket `socket` to node `node_id`, which must be in
    /// the graph, and returns its index.
    pub fn add_socket_to_node(&mut self, node_id: NodeID, socket: Socket) -> (r: Result<SocketIndex, EngineError>)
        requires
            old(self).wf(),
            old(self).graph.node_map().contains_key(node_id),
        ensures
            final(self).wf(),
            r == Ok::<SocketIndex, EngineError>(old(self).graph.node_map()[node_id].inputs@.len() as SocketIndex),
            final(self).graph.link_map() == old(self).graph.link_map(),
            final(self).graph.node_map().dom() == old(self).graph.node_map().dom(),
            forall|k: u64| k != node_id && #[trigger] old(self).graph.node_map().contains_key(k)
                ==> final(self).graph.node_map()[k] == old(self).graph.node_map()[k],
            final(self).graph.node_map()[node_id].inputs@ == old(self).graph.node_map()[node_id].inputs@.push(socket),
            final(self).graph.node_map()[node_id].outputs@ == old(self).graph.node_map()[node_id].outputs@,
            final(self).graph.node_map()[node_id].payload == old(self).graph.node_map()[node_id].payload,
            final(self).track_map() == old(self).track_map(),
            final(self).clip_map() == old(self).clip_map(),
            final(self).asset_map() == old(self).asset_map(),
            final(self).master_node_id == old(self).master_node_id,
    {
        let ghost nodes0 = self.graph.node_map();
        let i = self.graph.push_input(node_id, socket);
        proof {
            assert forall|t: u64| #[trigger] self.track_map().contains_key(t) implies {
                &&& self.track_map()[t].linked_node_id matches Some(n)
                &&& reads_track(self.graph.node_map(), n, t)
            } by {
                let n = self.track_map()[t].linked_node_id->0;
                assert(reads_track(nodes0, n, t));
            }
        }
        Ok(i)
    }

    /// The track stored under `id`, if any.
    pub fn track(&self, id: TrackID) -> (r: Option<&Track>)
        requires
            self.wf(),
        ensures
            r == (if self.track_map().contains_key(id) { Some(&self.track_map()[id]) } else { None }),
    {
        if !is_key_exec(id) {
            return None;
        }
        track_store_get(&self.tracks, id)
    }

    /// The clip stored under `id`, if any.
    pub fn clip(&self, id: ClipID) -> (r: Option<AudioClip>)
        requires
            self.wf(),
        ensures
            r == (if self.clip_map().contains_key(id) { Some(self.clip_map()[id]) } else { None }),
    {
        if !is_key_exec(id) {
            return None;
        }
        clip_store_get(&self.clips, id)
    }

    /// The asset stored under `id`, if any.
    pub fn asset(&self, id: AssetID) -> (r: Option<&AudioAsset>)
        requires
            self.wf(),
        ensures
            r == (if self.asset_map().contains_key(id) { Some(&self.asset_map()[id]) } else { None }),
    {
        if !is_key_exec(id) {
            return None;
        }
        asset_store_get(&self.assets, id)
    }

    /// The number of tracks.
    pub fn track_count(&self) -> (n: usize)
        ensures
            n == self.track_map().len(),
    {
        track_store_len(&self.tracks)
    }

    /// The number of clips.
    pub fn clip_count(&self) -> (n: usize)
        ensures
            n == self.clip_map().len(),
    {
        clip_store_len(&self.clips)
    }

    /// The number of assets.
    pub fn asset_count(&self) -> (n: usize)
        ensures
            n == self.asset_map().len(),
    {
        asset_store_len(&self.assets)
    }

    /// Stores an asset and returns its identifier.
    pub fn insert_asset(&mut self, asset: AudioAsset) -> (id: AssetID)
        requires
            old(self).wf(),
            old(self).asset_map().len() < SLOT_LIMIT,
        ensures
            final(self).wf(),
            final(self).track_map() == old(self).track_map(),
            final(self).clip_map() == old(self).clip_map(),
            final(self).graph.node_map() == old(self).graph.node_map(),
            final(self).graph.link_map() == old(self).graph.link_map(),
            final(self).master_node_id == old(self).master_node_id,
            !old(self).asset_map().contains_key(id),
            final(self).asset_map() == old(self).asset_map().insert(id, asset),
    {
        asset_store_insert(&mut self.assets, asset)
    }

    /// Every store can take one more entry (a slot map holds fewer than
    /// `SLOT_LIMIT` entries).
    pub open spec fn has_room(&self) -> bool {
        &&& self.track_map().len() < SLOT_LIMIT
        &&& self.clip_map().len() < SLOT_LIMIT
        &&& self.asset_map().len() < SLOT_LIMIT
        &&& self.graph.node_map().len() < SLOT_LIMIT
        &&& self.graph.link_map().len() < SLOT_LIMIT
    }

    pub fn has_room_exec(&self) -> (b: bool)
        ensures
            b == self.has_room(),
    {
        let max = 0xffff_fffeusize;
        track_store_len(&self.tracks) < max && clip_store_len(&self.clips) < max && asset_store_len(&self.assets) < max
            && node_store_len(&self.graph.nodes) < max && link_store_len(&self.graph.links) < max
    }

    /// Both projects hold the same tracks, clips, assets, nodes and links,
    /// under the same master node.
    pub open spec fn same_contents(&self, other: ProjectData) -> bool {
        &&& self.track_map() == other.track_map()
        &&& self.clip_map() == other.clip_map()
        &&& self.asset_map() == other.asset_map()
        &&& self.graph.node_map() == other.graph.node_map()
        &&& self.graph.link_map() == other.graph.link_map()
        &&& self.master_node_id == other.master_node_id
    }

    /// A copy of the project, with equal contents.
    pub fn snapshot(&self) -> (p: ProjectData)
        ensures
            p.same_contents(*self),
    {
        ProjectData {
            tracks: track_store_clone(&self.tracks),
            clips: clip_store_clone(&self.clips),
            assets: asset_store_clone(&self.assets),
            graph: NodeGraph { nodes: node_store_clone(&self.graph.nodes), links: link_store_clone(&self.graph.links) },
            master_node_id: self.master_node_id,
        }
    }
}

impl Default for ProjectData {
    /// A project with a master node and nothing else; see `new`.
    fn default() -> (p: ProjectData)
        ensures
            p.wf(),
            p.track_map().dom() == Set::<u64>::empty(),
            p.clip_map().dom() == Set::<u64>::empty(),
            p.asset_map().dom() == Set::<u64>::empty(),
            p.graph.node_map().dom() == set![p.master_node_id],
            p.graph.node_map()[p.master_node_id].payload == NodePayload::Master,
            p.graph.link_map().dom() == Set::<u64>::empty(),
    {
        ProjectData::new()
    }
}

} // verus!
