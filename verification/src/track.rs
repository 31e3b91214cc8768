use vstd::prelude::*;
use std::collections::BTreeMap;
use crate::clip::ClipID;
use crate::graph::NodeID;
use crate::kind::SignalKind;
use crate::store::{is_key, is_key_exec};

verus! {

/// Identifier of a track in a project.
pub type TrackID = u64;

/// The bit pattern of the single-precision gain 1.0 (unity).
pub const UNITY_GAIN_BITS: u32 = 0x3f80_0000u32;

/// A track: a timeline of clips, keyed by their start frame, read into the
/// graph by its linked reader node.
#[derive(Debug, Clone)]
pub struct Track {
    pub name: String,
    pub clips: BTreeMap<u64, ClipID>,
    /// Bit pattern of the track's single-precision gain.
    pub gain_bits: u32,
    pub kind: SignalKind,
    pub linked_node_id: Option<NodeID>,
}

/// The entries of a clip map that name some other clip than `clip`.
pub open spec fn without_clip(m: Map<u64, ClipID>, clip: ClipID) -> Map<u64, ClipID> {
    m.restrict(m.dom().filter(|k: u64| m[k] != clip))
}

impl Track {
    /// This track's clip map without the entries that name `clip`.
    pub fn clips_without(&self, clip: ClipID) -> (m: BTreeMap<u64, ClipID>)
        ensures
            m@ == without_clip(self.clips@, clip),
    {
        broadcast use vstd::std_specs::btree::axiom_spec_keys_iter;
        let mut m: BTreeMap<u64, ClipID> = BTreeMap::new();
        let ghost mut seen: Set<u64> = Set::empty();
        for k in iter: self.clips.keys()
            invariant
                iter.seq().unref().to_set() == self.clips@.dom(),
                seen == iter.seq().unref().take(iter.index() as int).to_set(),
                iter.index() == iter.seq().len() ==> seen == self.clips@.dom(),
                m@ == self.clips@.restrict(seen.filter(|x: u64| self.clips@[x] != clip)),
        {
            proof {
                let s = iter.seq().unref();
                let i = iter.index();
                assert(s.to_set().contains(s[i]));
                assert(s.take(i + 1) =~= s.take(i).push(s[i]));
                s.take(i).lemma_push_to_set_commute(s[i]);
                assert(*k == s[i]);
                seen = seen.insert(*k);
                assert(s.take(s.len() as int) =~= s);
            }
            match self.clips.get(k) {
                Some(v) => {
                    if *v != clip {
                        m.insert(*k, *v);
                    }
                },
                None => {},
            }
            proof {
                assert(m@ =~= self.clips@.restrict(seen.filter(|x: u64| self.clips@[x] != clip)));
            }
        }
        proof {
            assert(m@ =~= without_clip(self.clips@, clip));
        }
        m
    }

    /// Whether every clip of the track is named by a slot-map key.
    pub fn clips_are_keys(&self) -> (b: bool)
        ensures
            b == (forall|k: u64| #[trigger] self.clips@.contains_key(k) ==> is_key(self.clips@[k])),
    {
        broadcast use vstd::std_specs::btree::axiom_spec_keys_iter;
        let ghost mut seen: Set<u64> = Set::empty();
        for k in iter: self.clips.keys()
            invariant
                iter.seq().unref().to_set() == self.clips@.dom(),
                seen == iter.seq().unref().take(iter.index() as int).to_set(),
                iter.index() == iter.seq().len() ==> seen == self.clips@.dom(),
                forall|x: u64| #[trigger] seen.contains(x) ==> self.clips@.contains_key(x) && is_key(self.clips@[x]),
        {
            proof {
                let s = iter.seq().unref();
                let i = iter.index();
                assert(s.to_set().contains(s[i]));
                assert(s.take(i + 1) =~= s.take(i).push(s[i]));
                s.take(i).lemma_push_to_set_commute(s[i]);
                assert(*k == s[i]);
                assert(s.take(s.len() as int) =~= s);
            }
            match self.clips.get(k) {
                Some(v) => {
                    if !is_key_exec(*v) {
                        return false;
                    }
                },
                None => {},
            }
            proof {
                seen = seen.insert(*k);
            }
        }
        true
    }

    /// An empty track of unity gain, not yet linked to a reader node.
    pub fn new(name: String, kind: SignalKind) -> (t: Track)
        ensures
            t.name == name,
            t.clips@ == Map::<u64, ClipID>::empty(),
            t.gain_bits == UNITY_GAIN_BITS,
            t.kind == kind,
            t.linked_node_id == Option::<NodeID>::None,
    {
        Track { name, clips: BTreeMap::new(), gain_bits: UNITY_GAIN_BITS, kind, linked_node_id: None }
    }

    /// The same track with another clip map.
    pub fn with_clips(&self, clips: BTreeMap<u64, ClipID>) -> (t: Track)
        ensures
            t.name == self.name,
            t.clips@ == clips@,
            t.gain_bits == self.gain_bits,
            t.kind == self.kind,
            t.linked_node_id == self.linked_node_id,
    {
        Track { name: self.name.clone(), clips, gain_bits: self.gain_bits, kind: self.kind, linked_node_id: self.linked_node_id }
    }

    /// The same track, linked to another reader node.
    pub fn with_link(&self, node: Option<NodeID>) -> (t: Track)
        ensures
            t.name == self.name,
            t.clips@ == self.clips@,
            t.gain_bits == self.gain_bits,
            t.kind == self.kind,
            t.linked_node_id == node,
    {
        Track { name: self.name.clone(), clips: self.clips.clone(), gain_bits: self.gain_bits, kind: self.kind, linked_node_id: node }
    }
}

} // verus!
