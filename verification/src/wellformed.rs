use vstd::prelude::*;
use crate::graph::{link_valid, NodePayload};
use crate::project::{reads_track, store_ok, ProjectData};
use crate::store::{
    asset_store_keys, clip_store_keys, is_key, is_key_exec, link_store_get, link_store_keys, node_store_keys,
    track_store_get, track_store_keys,
};

verus! {

/// Whether every listed integer is a slot-map key.
fn all_keys(ids: &Vec<u64>) -> (b: bool)
    ensures
        b == (forall|i: int| 0 <= i < ids@.len() ==> is_key(#[trigger] ids@[i])),
{
    let mut i: usize = 0;
    while i < ids.len()
        invariant
            i <= ids@.len(),
            forall|j: int| 0 <= j < i ==> is_key(#[trigger] ids@[j]),
        decreases ids@.len() - i,
    {
        if !is_key_exec(ids[i]) {
            return false;
        }
        i = i + 1;
    }
    true
}

/// A map whose keys are all listed in `ids` (and only those) is a store of
/// slot-map keys exactly when every listed integer is one.
proof fn lemma_store_ok_from_keys<V>(m: Map<u64, V>, ids: Seq<u64>)
    requires
        forall|i: int| 0 <= i < ids.len() ==> m.contains_key(#[trigger] ids[i]),
        forall|k: u64| m.contains_key(k) ==> ids.contains(k),
    ensures
        store_ok(m) <==> (forall|i: int| 0 <= i < ids.len() ==> is_key(#[trigger] ids[i])),
{
    broadcast use vstd::seq_lib::seq_to_set_is_finite;
    assert(m.dom().subset_of(ids.to_set())) by {
        assert forall|k: u64| m.dom().contains(k) implies ids.to_set().contains(k) by {
            assert(ids.contains(k));
        }
    }
    vstd::set_lib::lemma_set_subset_finite(ids.to_set(), m.dom());
    if forall|i: int| 0 <= i < ids.len() ==> is_key(#[trigger] ids[i]) {
        assert forall|k: u64| #[trigger] m.contains_key(k) implies is_key(k) by {
            assert(ids.contains(k));
            let i = choose|i: int| 0 <= i < ids.len() && ids[i] == k;
            assert(is_key(ids[i]));
        }
    }
}

impl ProjectData {
    /// Whether the project is well formed (see `wf`): slot-map keys in every
    /// store, links between existing sockets, no cycle, the master node, and
    /// a reader node for every track.
    pub fn wf_exec(&self) -> (b: bool)
        ensures
            b == self.wf(),
    {
        let ghost nodes = self.graph.node_map();
        let ghost links = self.graph.link_map();
        let nids = node_store_keys(&self.graph.nodes);
        let lids = link_store_keys(&self.graph.links);
        let tids = track_store_keys(&self.tracks);
        let cids = clip_store_keys(&self.clips);
        let aids = asset_store_keys(&self.assets);
        proof {
            lemma_store_ok_from_keys(nodes, nids@);
            lemma_store_ok_from_keys(links, lids@);
            lemma_store_ok_from_keys(self.track_map(), tids@);
            lemma_store_ok_from_keys(self.clip_map(), cids@);
            lemma_store_ok_from_keys(self.asset_map(), aids@);
        }
        if !all_keys(&nids) || !all_keys(&lids) || !all_keys(&tids) || !all_keys(&cids) || !all_keys(&aids) {
            return false;
        }
        assert(self.graph.keys_valid());
        let mut i: usize = 0;
        while i < lids.len()
            invariant
                self.graph.keys_valid(),
                nodes == self.graph.node_map(),
                links == self.graph.link_map(),
                forall|j: int| 0 <= j < lids@.len() ==> links.contains_key(#[trigger] lids@[j]),
                forall|k: u64| links.contains_key(k) ==> lids@.contains(k),
                i <= lids@.len(),
                forall|j: int| 0 <= j < i ==> link_valid(nodes, links[#[trigger] lids@[j]]),
            decreases lids@.len() - i,
        {
            let l = link_store_get(&self.graph.links, lids[i]).unwrap();
            let ok = match self.graph.node(l.from.0) {
                Some(src) => l.from.1 < src.outputs.len(),
                None => false,
            } && match self.graph.node(l.to.0) {
                Some(dst) => l.to.1 < dst.inputs.len(),
                None => false,
            };
            if !ok {
                return false;
            }
            i = i + 1;
        }
        proof {
            assert forall|k: u64| #[trigger] links.contains_key(k) implies link_valid(nodes, links[k]) by {
                let j = lids@.index_of(k);
                assert(link_valid(nodes, links[lids@[j]]));
            }
        }
        match self.graph.topo_sort() {
            Ok(_) => {},
            Err(_) => return false,
        }
        assert(self.graph.wf());
        let master_ok = match self.graph.node(self.master_node_id) {
            Some(m) => match m.payload {
                NodePayload::Master => m.inputs.len() >= 1 && m.outputs.len() >= 1,
                _ => false,
            },
            None => false,
        };
        if !master_ok {
            return false;
        }
        let mut i: usize = 0;
        while i < tids.len()
            invariant
                self.graph.keys_valid(),
                store_ok(self.track_map()),
                nodes == self.graph.node_map(),
                forall|j: int| 0 <= j < tids@.len() ==> self.track_map().contains_key(#[trigger] tids@[j]),
                forall|k: u64| self.track_map().contains_key(k) ==> tids@.contains(k),
                i <= tids@.len(),
                forall|j: int| 0 <= j < i ==> {
                    &&& self.track_map()[#[trigger] tids@[j]].linked_node_id matches Some(n)
                    &&& reads_track(nodes, n, tids@[j])
                    &&& forall|k: u64| #[trigger] self.track_map()[tids@[j]].clips@.contains_key(k)
                        ==> is_key(self.track_map()[tids@[j]].clips@[k])
                },
            decreases tids@.len() - i,
        {
            let t = tids[i];
            let track = track_store_get(&self.tracks, t).unwrap();
            let n = match track.linked_node_id {
                Some(n) => n,
                None => return false,
            };
            let reads = match self.graph.node(n) {
                Some(node) => match node.payload {
                    NodePayload::TrackReader { track: owner, .. } => owner == t && node.outputs.len() >= 1,
                    _ => false,
                },
                None => false,
            };
            if !reads || !track.clips_are_keys() {
                return false;
            }
            i = i + 1;
        }
        proof {
            assert forall|t: u64| #[trigger] self.track_map().contains_key(t) implies {
                &&& self.track_map()[t].linked_node_id matches Some(n)
                &&& reads_track(nodes, n, t)
            } by {
                assert(tids@.contains(t));
                let j = tids@.index_of(t);
                assert(tids@[j] == t);
            }
            assert forall|t: u64, k: u64| #[trigger] self.track_map().contains_key(t) && #[trigger] self.track_map()[t].clips@.contains_key(k)
                implies is_key(self.track_map()[t].clips@[k]) by {
                assert(tids@.contains(t));
                let j = tids@.index_of(t);
                assert(tids@[j] == t);
            }
        }
        true
    }
}

} // verus!
