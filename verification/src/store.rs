use vstd::prelude::*;
use slotmap::{DefaultKey, Key, KeyData, SlotMap};
use crate::asset::AudioAsset;
use crate::clip::AudioClip;
use crate::graph::{Link, Node};
use crate::track::Track;

verus! {

// The project keeps its tracks, clips, assets, nodes and links in
// `slotmap::SlotMap`s. Keys cross into this library as the 64-bit integers of
// `KeyData::as_ffi` (version in the high half, slot index in the low half)
// and go back through `KeyData::from_ffi`. Each map's contents are named as a
// `Map` from those integers to the stored values.

/// A `slotmap::SlotMap` keyed by `DefaultKey`. Verus cannot take the
/// declaration of `SlotMap` itself (its key parameter is bound by the outside
/// trait `slotmap::Key`), so the map is held here, out of Verus's sight.
#[verifier::external_body]
#[verifier::reject_recursive_types(V)]
pub struct Store<V> {
    inner: SlotMap<DefaultKey, V>,
}

/// Fewer live entries than this leave room for one more insert: a slot map
/// keeps a sentinel at slot 0, numbers its slots by `u32`, and panics on an
/// insert that finds no vacant slot while `u32::MAX` slots exist.
pub const SLOT_LIMIT: u32 = 0xffff_fffe;

/// The integers that `KeyData::as_ffi` gives for a key: slot versions of keys
/// are always odd (`KeyData::new` sets the low version bit), so bit 32 is set.
pub open spec fn is_key(k: u64) -> bool {
    (k / 0x1_0000_0000u64) % 2 == 1
}

/// Whether `k` is the integer of a slot-map key.
pub fn is_key_exec(k: u64) -> (b: bool)
    ensures
        b == is_key(k),
{
    (k / 0x1_0000_0000u64) % 2 == 1
}

/// The nodes of a flow graph: key integer to stored value.
pub uninterp spec fn node_store(m: Store<Node>) -> Map<u64, Node>;

/// `SlotMap::new`: an empty map of Node values.
#[verifier::external_body]
pub(crate) fn node_store_new() -> (r: Store<Node>)
    ensures
        node_store(r).dom() == Set::<u64>::empty(),
{
    Store { inner: SlotMap::new() }
}

/// `SlotMap::insert`: stores `v` under a key no live entry has and returns
/// that key's integer. It panics when the map has no vacant slot and holds
/// `SLOT_LIMIT` entries, which `requires` rules out.
#[verifier::external_body]
pub(crate) fn node_store_insert(m: &mut Store<Node>, v: Node) -> (k: u64)
    requires
        node_store(*old(m)).len() < SLOT_LIMIT,
    ensures
        !node_store(*old(m)).contains_key(k),
        node_store(*final(m)) == node_store(*old(m)).insert(k, v),
        is_key(k),
{
    m.inner.insert(v).data().as_ffi()
}

/// `SlotMap::get`: the value stored under key `k`, if any.
#[verifier::external_body]
pub(crate) fn node_store_get(m: &Store<Node>, k: u64) -> (r: Option<&Node>)
    requires
        is_key(k),
    ensures
        r == (if node_store(*m).contains_key(k) { Some(&node_store(*m)[k]) } else { None }),
{
    m.inner.get(DefaultKey::from(KeyData::from_ffi(k)))
}

/// `SlotMap` indexing (`IndexMut`): overwrites the value stored under key `k`,
/// which must be present (indexing panics otherwise).
#[verifier::external_body]
pub(crate) fn node_store_set(m: &mut Store<Node>, k: u64, v: Node)
    requires
        is_key(k),
        node_store(*old(m)).contains_key(k),
    ensures
        node_store(*final(m)) == node_store(*old(m)).insert(k, v),
{
    m.inner[DefaultKey::from(KeyData::from_ffi(k))] = v;
}

/// `SlotMap::remove`: takes out the value stored under key `k`, if any.
#[verifier::external_body]
pub(crate) fn node_store_remove(m: &mut Store<Node>, k: u64) -> (r: Option<Node>)
    requires
        is_key(k),
    ensures
        r == (if node_store(*old(m)).contains_key(k) { Some(node_store(*old(m))[k]) } else { None }),
        node_store(*final(m)) == node_store(*old(m)).remove(k),
{
    m.inner.remove(DefaultKey::from(KeyData::from_ffi(k)))
}

/// `SlotMap::keys`: the integers of all live keys, each once, in the
/// map's iteration order.
#[verifier::external_body]
pub(crate) fn node_store_keys(m: &Store<Node>) -> (r: Vec<u64>)
    ensures
        r@.no_duplicates(),
        forall|i: int| 0 <= i < r@.len() ==> node_store(*m).contains_key(#[trigger] r@[i]),
        forall|k: u64| node_store(*m).contains_key(k) ==> r@.contains(k),
{
    m.inner.keys().map(|k| k.data().as_ffi()).collect()
}

/// `SlotMap::clone`: a map with the same keys; each value is cloned with its
/// derived `Clone`, which gives an equal value.
#[verifier::external_body]
pub(crate) fn node_store_clone(m: &Store<Node>) -> (r: Store<Node>)
    ensures
        node_store(r) == node_store(*m),
{
    Store { inner: m.inner.clone() }
}

/// The links of a flow graph: key integer to stored value.
pub uninterp spec fn link_store(m: Store<Link>) -> Map<u64, Link>;

/// `SlotMap::new`: an empty map of Link values.
#[verifier::external_body]
pub(crate) fn link_store_new() -> (r: Store<Link>)
    ensures
        link_store(r).dom() == Set::<u64>::empty(),
{
    Store { inner: SlotMap::new() }
}

/// `SlotMap::insert`: stores `v` under a key no live entry has and returns
/// that key's integer. It panics when the map has no vacant slot and holds
/// `SLOT_LIMIT` entries, which `requires` rules out.
#[verifier::external_body]
pub(crate) fn link_store_insert(m: &mut Store<Link>, v: Link) -> (k: u64)
    requires
        link_store(*old(m)).len() < SLOT_LIMIT,
    ensures
        !link_store(*old(m)).contains_key(k),
        link_store(*final(m)) == link_store(*old(m)).insert(k, v),
        is_key(k),
{
    m.inner.insert(v).data().as_ffi()
}

/// `SlotMap::get`: a copy of the value stored under key `k`, if any.
#[verifier::external_body]
pub(crate) fn link_store_get(m: &Store<Link>, k: u64) -> (r: Option<Link>)
    requires
        is_key(k),
    ensures
        r == (if link_store(*m).contains_key(k) { Some(link_store(*m)[k]) } else { None }),
{
    m.inner.get(DefaultKey::from(KeyData::from_ffi(k))).copied()
}

/// `SlotMap::remove`: takes out the value stored under key `k`, if any.
#[verifier::external_body]
pub(crate) fn link_store_remove(m: &mut Store<Link>, k: u64) -> (r: Option<Link>)
    requires
        is_key(k),
    ensures
        r == (if link_store(*old(m)).contains_key(k) { Some(link_store(*old(m))[k]) } else { None }),
        link_store(*final(m)) == link_store(*old(m)).remove(k),
{
    m.inner.remove(DefaultKey::from(KeyData::from_ffi(k)))
}

/// `SlotMap::keys`: the integers of all live keys, each once, in the
/// map's iteration order.
#[verifier::external_body]
pub(crate) fn link_store_keys(m: &Store<Link>) -> (r: Vec<u64>)
    ensures
        r@.no_duplicates(),
        forall|i: int| 0 <= i < r@.len() ==> link_store(*m).contains_key(#[trigger] r@[i]),
        forall|k: u64| link_store(*m).contains_key(k) ==> r@.contains(k),
{
    m.inner.keys().map(|k| k.data().as_ffi()).collect()
}

/// `SlotMap::clone`: a map with the same keys; each value is cloned with its
/// derived `Clone`, which gives an equal value.
#[verifier::external_body]
pub(crate) fn link_store_clone(m: &Store<Link>) -> (r: Store<Link>)
    ensures
        link_store(r) == link_store(*m),
{
    Store { inner: m.inner.clone() }
}

/// The tracks of a project: key integer to stored value.
pub uninterp spec fn track_store(m: Store<Track>) -> Map<u64, Track>;

/// `SlotMap::new`: an empty map of Track values.
#[verifier::external_body]
pub(crate) fn track_store_new() -> (r: Store<Track>)
    ensures
        track_store(r).dom() == Set::<u64>::empty(),
{
    Store { inner: SlotMap::new() }
}

/// `SlotMap::insert`: stores `v` under a key no live entry has and returns
/// that key's integer. It panics when the map has no vacant slot and holds
/// `SLOT_LIMIT` entries, which `requires` rules out.
#[verifier::external_body]
pub(crate) fn track_store_insert(m: &mut Store<Track>, v: Track) -> (k: u64)
    requires
        track_store(*old(m)).len() < SLOT_LIMIT,
    ensures
        !track_store(*old(m)).contains_key(k),
        track_store(*final(m)) == track_store(*old(m)).insert(k, v),
        is_key(k),
{
    m.inner.insert(v).data().as_ffi()
}

/// `SlotMap::get`: the value stored under key `k`, if any.
#[verifier::external_body]
pub(crate) fn track_store_get(m: &Store<Track>, k: u64) -> (r: Option<&Track>)
    requires
        is_key(k),
    ensures
        r == (if track_store(*m).contains_key(k) { Some(&track_store(*m)[k]) } else { None }),
{
    m.inner.get(DefaultKey::from(KeyData::from_ffi(k)))
}

/// `SlotMap` indexing (`IndexMut`): overwrites the value stored under key `k`,
/// which must be present (indexing panics otherwise).
#[verifier::external_body]
pub(crate) fn track_store_set(m: &mut Store<Track>, k: u64, v: Track)
    requires
        is_key(k),
        track_store(*old(m)).contains_key(k),
    ensures
        track_store(*final(m)) == track_store(*old(m)).insert(k, v),
{
    m.inner[DefaultKey::from(KeyData::from_ffi(k))] = v;
}

/// `SlotMap::remove`: takes out the value stored under key `k`, if any.
#[verifier::external_body]
pub(crate) fn track_store_remove(m: &mut Store<Track>, k: u64) -> (r: Option<Track>)
    requires
        is_key(k),
    ensures
        r == (if track_store(*old(m)).contains_key(k) { Some(track_store(*old(m))[k]) } else { None }),
        track_store(*final(m)) == track_store(*old(m)).remove(k),
{
    m.inner.remove(DefaultKey::from(KeyData::from_ffi(k)))
}

/// `SlotMap::keys`: the integers of all live keys, each once, in the
/// map's iteration order.
#[verifier::external_body]
pub(crate) fn track_store_keys(m: &Store<Track>) -> (r: Vec<u64>)
    ensures
        r@.no_duplicates(),
        forall|i: int| 0 <= i < r@.len() ==> track_store(*m).contains_key(#[trigger] r@[i]),
        forall|k: u64| track_store(*m).contains_key(k) ==> r@.contains(k),
{
    m.inner.keys().map(|k| k.data().as_ffi()).collect()
}

/// `SlotMap::clone`: a map with the same keys; each value is cloned with its
/// derived `Clone`, which gives an equal value.
#[verifier::external_body]
pub(crate) fn track_store_clone(m: &Store<Track>) -> (r: Store<Track>)
    ensures
        track_store(r) == track_store(*m),
{
    Store { inner: m.inner.clone() }
}

/// The clips of a project: key integer to stored value.
pub uninterp spec fn clip_store(m: Store<AudioClip>) -> Map<u64, AudioClip>;

/// `SlotMap::new`: an empty map of AudioClip values.
#[verifier::external_body]
pub(crate) fn clip_store_new() -> (r: Store<AudioClip>)
    ensures
        clip_store(r).dom() == Set::<u64>::empty(),
{
    Store { inner: SlotMap::new() }
}

/// `SlotMap::insert`: stores `v` under a key no live entry has and returns
/// that key's integer. It panics when the map has no vacant slot and holds
/// `SLOT_LIMIT` entries, which `requires` rules out.
#[verifier::external_body]
pub(crate) fn clip_store_insert(m: &mut Store<AudioClip>, v: AudioClip) -> (k: u64)
    requires
        clip_store(*old(m)).len() < SLOT_LIMIT,
    ensures
        !clip_store(*old(m)).contains_key(k),
        clip_store(*final(m)) == clip_store(*old(m)).insert(k, v),
        is_key(k),
{
    m.inner.insert(v).data().as_ffi()
}

/// `SlotMap::get`: a copy of the value stored under key `k`, if any.
#[verifier::external_body]
pub(crate) fn clip_store_get(m: &Store<AudioClip>, k: u64) -> (r: Option<AudioClip>)
    requires
        is_key(k),
    ensures
        r == (if clip_store(*m).contains_key(k) { Some(clip_store(*m)[k]) } else { None }),
{
    m.inner.get(DefaultKey::from(KeyData::from_ffi(k))).copied()
}

/// `SlotMap` indexing (`IndexMut`): overwrites the value stored under key `k`,
/// which must be present (indexing panics otherwise).
#[verifier::external_body]
pub(crate) fn clip_store_set(m: &mut Store<AudioClip>, k: u64, v: AudioClip)
    requires
        is_key(k),
        clip_store(*old(m)).contains_key(k),
    ensures
        clip_store(*final(m)) == clip_store(*old(m)).insert(k, v),
{
    m.inner[DefaultKey::from(KeyData::from_ffi(k))] = v;
}

/// `SlotMap::remove`: takes out the value stored under key `k`, if any.
#[verifier::external_body]
pub(crate) fn clip_store_remove(m: &mut Store<AudioClip>, k: u64) -> (r: Option<AudioClip>)
    requires
        is_key(k),
    ensures
        r == (if clip_store(*old(m)).contains_key(k) { Some(clip_store(*old(m))[k]) } else { None }),
        clip_store(*final(m)) == clip_store(*old(m)).remove(k),
{
    m.inner.remove(DefaultKey::from(KeyData::from_ffi(k)))
}

/// `SlotMap::keys`: the integers of all live keys, each once, in the
/// map's iteration order.
#[verifier::external_body]
pub(crate) fn clip_store_keys(m: &Store<AudioClip>) -> (r: Vec<u64>)
    ensures
        r@.no_duplicates(),
        forall|i: int| 0 <= i < r@.len() ==> clip_store(*m).contains_key(#[trigger] r@[i]),
        forall|k: u64| clip_store(*m).contains_key(k) ==> r@.contains(k),
{
    m.inner.keys().map(|k| k.data().as_ffi()).collect()
}

/// `SlotMap::clone`: a map with the same keys; each value is cloned with its
/// derived `Clone`, which gives an equal value.
#[verifier::external_body]
pub(crate) fn clip_store_clone(m: &Store<AudioClip>) -> (r: Store<AudioClip>)
    ensures
        clip_store(r) == clip_store(*m),
{
    Store { inner: m.inner.clone() }
}

/// The assets of a project: key integer to stored value.
pub uninterp spec fn asset_store(m: Store<AudioAsset>) -> Map<u64, AudioAsset>;

/// `SlotMap::new`: an empty map of AudioAsset values.
#[verifier::external_body]
pub(crate) fn asset_store_new() -> (r: Store<AudioAsset>)
    ensures
        asset_store(r).dom() == Set::<u64>::empty(),
{
    Store { inner: SlotMap::new() }
}

/// `SlotMap::insert`: stores `v` under a key no live entry has and returns
/// that key's integer. It panics when the map has no vacant slot and holds
/// `SLOT_LIMIT` entries, which `requires` rules out.
#[verifier::external_body]
pub(crate) fn asset_store_insert(m: &mut Store<AudioAsset>, v: AudioAsset) -> (k: u64)
    requires
        asset_store(*old(m)).len() < SLOT_LIMIT,
    ensures
        !asset_store(*old(m)).contains_key(k),
        asset_store(*final(m)) == asset_store(*old(m)).insert(k, v),
        is_key(k),
{
    m.inner.insert(v).data().as_ffi()
}

/// `SlotMap::get`: the value stored under key `k`, if any.
#[verifier::external_body]
pub(crate) fn asset_store_get(m: &Store<AudioAsset>, k: u64) -> (r: Option<&AudioAsset>)
    requires
        is_key(k),
    ensures
        r == (if asset_store(*m).contains_key(k) { Some(&asset_store(*m)[k]) } else { None }),
{
    m.inner.get(DefaultKey::from(KeyData::from_ffi(k)))
}

/// `SlotMap::keys`: the integers of all live keys, each once, in the
/// map's iteration order.
#[verifier::external_body]
pub(crate) fn asset_store_keys(m: &Store<AudioAsset>) -> (r: Vec<u64>)
    ensures
        r@.no_duplicates(),
        forall|i: int| 0 <= i < r@.len() ==> asset_store(*m).contains_key(#[trigger] r@[i]),
        forall|k: u64| asset_store(*m).contains_key(k) ==> r@.contains(k),
{
    m.inner.keys().map(|k| k.data().as_ffi()).collect()
}

/// `SlotMap::clone`: a map with the same keys; each value is cloned with its
/// derived `Clone`, which gives an equal value.
#[verifier::external_body]
pub(crate) fn asset_store_clone(m: &Store<AudioAsset>) -> (r: Store<AudioAsset>)
    ensures
        asset_store(r) == asset_store(*m),
{
    Store { inner: m.inner.clone() }
}

/// `SlotMap::len`: the number of live entries.
#[verifier::external_body]
pub(crate) fn node_store_len(m: &Store<Node>) -> (r: usize)
    ensures
        r == node_store(*m).len(),
{
    m.inner.len()
}

/// `SlotMap::len`: the number of live entries.
#[verifier::external_body]
pub(crate) fn link_store_len(m: &Store<Link>) -> (r: usize)
    ensures
        r == link_store(*m).len(),
{
    m.inner.len()
}

/// `SlotMap::len`: the number of live entries.
#[verifier::external_body]
pub(crate) fn track_store_len(m: &Store<Track>) -> (r: usize)
    ensures
        r == track_store(*m).len(),
{
    m.inner.len()
}

/// `SlotMap::len`: the number of live entries.
#[verifier::external_body]
pub(crate) fn clip_store_len(m: &Store<AudioClip>) -> (r: usize)
    ensures
        r == clip_store(*m).len(),
{
    m.inner.len()
}

/// `SlotMap::len`: the number of live entries.
#[verifier::external_body]
pub(crate) fn asset_store_len(m: &Store<AudioAsset>) -> (r: usize)
    ensures
        r == asset_store(*m).len(),
{
    m.inner.len()
}

} // verus!
