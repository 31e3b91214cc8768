use vstd::prelude::*;
use std::collections::BTreeMap;
use vstd::std_specs::btree::{increasing_seq, spec_keys_iter};
use vstd::std_specs::iter::IteratorSpec;
use vstd::std_specs::cmp::OrdSpec;
use crate::asset::{AssetID, AssetState, AudioAsset};
use crate::clip::{AudioClip, ClipID};
use crate::project::{store_ok, ProjectData};
use crate::nodes::TrackReader;
use crate::store::{asset_store_get, clip_store, clip_store_get, is_key, is_key_exec, track_store_get, Store};
use crate::tick::Tick;
use crate::track::Track;

verus! {

// Rendering a block of a track mixes, for each clip that sounds in the block,
// a run of frames of the clip's asset into the block's buffer. The sample
// arithmetic itself is floating point and runs on the audio side; this module
// decides which runs are mixed, from where and to where.

/// A run of frames to mix: `frames` frames of asset `asset_id`, read from
/// frame `source_frame` of the asset and added at frame `dest_frame` of the
/// block.
#[derive(Debug, Clone, Copy, PartialEq, Eq, Structural)]
pub struct ClipSpan {
    pub asset_id: AssetID,
    pub source_frame: u64,
    pub dest_frame: u64,
    pub frames: u64,
}

/// The first frame after a clip.
pub open spec fn clip_end(c: AudioClip) -> int {
    c.start.0 + c.length.0
}

/// The first frame of a block that a clip covers.
pub open spec fn overlap_start(c: AudioClip, block_start: Tick) -> int {
    if block_start.0 >= c.start.0 { block_start.0 as int } else { c.start.0 as int }
}

/// The first frame of a block, or after it, that a clip no longer covers.
pub open spec fn overlap_end(c: AudioClip, block_end: Tick) -> int {
    if block_end.0 <= clip_end(c) { block_end.0 as int } else { clip_end(c) }
}

/// The clip covers some frame of the block `[block_start, block_end)`, and its
/// end is a frame number.
pub open spec fn overlaps(c: AudioClip, block_start: Tick, block_end: Tick) -> bool {
    &&& clip_end(c) <= u64::MAX
    &&& overlap_start(c, block_start) < overlap_end(c, block_end)
}

/// The run that a clip contributes to the block `[block_start, block_end)`.
pub open spec fn span_spec(c: AudioClip, block_start: Tick, block_end: Tick) -> ClipSpan {
    ClipSpan {
        asset_id: c.asset_id,
        source_frame: (overlap_start(c, block_start) - c.start.0) as u64,
        dest_frame: (overlap_start(c, block_start) - block_start.0) as u64,
        frames: (overlap_end(c, block_end) - overlap_start(c, block_start)) as u64,
    }
}

/// The asset is in the project and loaded.
pub open spec fn asset_ready(assets: Map<u64, AudioAsset>, a: AssetID) -> bool {
    &&& assets.contains_key(a)
    &&& assets[a].state is Ready
}

/// What a clip contributes to a block of a project: nothing while its asset
/// is missing or not loaded, else its run.
pub open spec fn clip_render_spec(p: ProjectData, c: AudioClip, block_start: Tick, block_end: Tick) -> Option<ClipSpan> {
    if asset_ready(p.asset_map(), c.asset_id) {
        Some(span_spec(c, block_start, block_end))
    } else {
        None
    }
}

/// Frame `f` lies in the block `[block_start, block_end)` and in the clip.
pub open spec fn shares_frame(c: AudioClip, block_start: Tick, block_end: Tick, f: int) -> bool {
    &&& block_start.0 <= f < block_end.0
    &&& c.start.0 <= f < c.start.0 + c.length.0
}

/// A clip (whose end is a frame number) overlaps a block exactly when some
/// frame lies in both; in particular a clip that started before the block
/// and still sounds at its first frame overlaps it.
pub proof fn law_overlaps_is_shared_frame(c: AudioClip, block_start: Tick, block_end: Tick)
    requires
        c.start.0 + c.length.0 <= u64::MAX,
    ensures
        overlaps(c, block_start, block_end) <==> exists|f: int| #[trigger] shares_frame(c, block_start, block_end, f),
        c.start.0 < block_start.0 < c.start.0 + c.length.0 && block_start.0 < block_end.0
            ==> overlaps(c, block_start, block_end),
{
    if overlaps(c, block_start, block_end) {
        assert(shares_frame(c, block_start, block_end, overlap_start(c, block_start)));
    }
    if exists|f: int| #[trigger] shares_frame(c, block_start, block_end, f) {
        let f = choose|f: int| #[trigger] shares_frame(c, block_start, block_end, f);
        assert(overlap_start(c, block_start) <= f < overlap_end(c, block_end));
    }
    if c.start.0 < block_start.0 < c.start.0 + c.length.0 && block_start.0 < block_end.0 {
        assert(shares_frame(c, block_start, block_end, block_start.0 as int));
    }
}

/// A clip's run stays inside both the block and the clip: it starts at or
/// after the block's first frame and ends by the block's end, and it reads
/// no frame before the clip's start or past its length.
pub proof fn law_span_within_block(c: AudioClip, block_start: Tick, block_end: Tick)
    requires
        overlaps(c, block_start, block_end),
    ensures
        span_spec(c, block_start, block_end).frames > 0,
        span_spec(c, block_start, block_end).dest_frame + span_spec(c, block_start, block_end).frames
            <= block_end.0 - block_start.0,
        span_spec(c, block_start, block_end).source_frame + span_spec(c, block_start, block_end).frames
            <= c.length.0,
        block_start.0 + span_spec(c, block_start, block_end).dest_frame
            == c.start.0 + span_spec(c, block_start, block_end).source_frame,
{
}

impl AudioClip {
    /// The run of this clip that falls in the block `[block_start, block_end)`.
    pub fn span_in_block(&self, block_start: Tick, block_end: Tick) -> (s: ClipSpan)
        requires
            overlaps(*self, block_start, block_end),
        ensures
            s == span_spec(*self, block_start, block_end),
    {
        let clip_end = self.start.0 + self.length.0;
        let first = if block_start.0 >= self.start.0 { block_start.0 } else { self.start.0 };
        let last = if block_end.0 <= clip_end { block_end.0 } else { clip_end };
        ClipSpan {
            asset_id: self.asset_id,
            source_frame: first - self.start.0,
            dest_frame: first - block_start.0,
            frames: last - first,
        }
    }

    /// Whether the clip covers some frame of the block `[block_start,
    /// block_end)`, with an end that is a frame number.
    pub fn overlaps_block(&self, block_start: Tick, block_end: Tick) -> (b: bool)
        ensures
            b == overlaps(*self, block_start, block_end),
    {
        let clip_end = (self.start.0 as u128) + (self.length.0 as u128);
        if clip_end > (u64::MAX as u128) {
            return false;
        }
        let first = if block_start.0 >= self.start.0 { block_start.0 as u128 } else { self.start.0 as u128 };
        let last = if (block_end.0 as u128) <= clip_end { block_end.0 as u128 } else { clip_end };
        first < last
    }

    /// What this clip contributes to the block `[block_start, block_end)` of
    /// `project`: nothing while its asset is missing or still loading, else
    /// the run of the asset that the block covers, which must not be empty.
    pub fn render_span(&self, project: &ProjectData, block_start: Tick, block_end: Tick) -> (r: Option<ClipSpan>)
        requires
            project.wf(),
            asset_ready(project.asset_map(), self.asset_id) ==> overlaps(*self, block_start, block_end),
        ensures
            r == clip_render_spec(*project, *self, block_start, block_end),
    {
        if !is_key_exec(self.asset_id) {
            return None;
        }
        match asset_store_get(&project.assets, self.asset_id) {
            None => None,
            Some(asset) => match &asset.state {
                AssetState::Ready(_) => Some(self.span_in_block(block_start, block_end)),
                _ => None,
            },
        }
    }
}

/// The sequence is strictly increasing.
pub open spec fn ascending(ks: Seq<u64>) -> bool {
    forall|i: int, j: int| 0 <= i < j < ks.len() ==> ks[i] < ks[j]
}

/// The keys of `dom` in `[lo, hi)`.
pub open spec fn keys_between(dom: Set<u64>, lo: u64, hi: u64) -> Set<u64> {
    dom.filter(|k: u64| lo <= k && k < hi)
}

/// `k` is the greatest key of `dom` below `bound`.
pub open spec fn is_last_before(dom: Set<u64>, bound: u64, k: u64) -> bool {
    &&& dom.contains(k)
    &&& k < bound
    &&& forall|j: u64| #[trigger] dom.contains(j) && j < bound ==> j <= k
}

/// The clip that started before the block and may still sound in it: the one
/// placed at the greatest start below `block_start`, when it is in the clip
/// store and ends after `block_start`.
pub open spec fn lookback(clips: Map<u64, ClipID>, store: Map<u64, AudioClip>, block_start: Tick) -> Seq<ClipID> {
    if exists|k: u64| is_last_before(clips.dom(), block_start.0, k) {
        let k = choose|k: u64| is_last_before(clips.dom(), block_start.0, k);
        if store.contains_key(clips[k]) && clip_end(store[clips[k]]) > block_start.0 {
            seq![clips[k]]
        } else {
            Seq::empty()
        }
    } else {
        Seq::empty()
    }
}

/// `ids` are the clips of a track that a block `[block_start, block_end)`
/// plays, in order: the lookback clip, then the clips placed in the block by
/// increasing start.
pub open spec fn active_clips_spec(
    clips: Map<u64, ClipID>,
    store: Map<u64, AudioClip>,
    block_start: Tick,
    block_end: Tick,
    ids: Seq<ClipID>,
) -> bool {
    exists|ks: Seq<u64>| {
        &&& ascending(ks)
        &&& ks.to_set() == keys_between(clips.dom(), block_start.0, block_end.0)
        &&& ids == lookback(clips, store, block_start) + ks.map_values(|k: u64| clips[k])
    }
}

/// Two strictly increasing sequences with the same elements are equal.
proof fn lemma_ascending_unique(a: Seq<u64>, b: Seq<u64>)
    requires
        ascending(a),
        ascending(b),
        a.to_set() == b.to_set(),
    ensures
        a == b,
    decreases a.len(),
{
    if a.len() == 0 {
        if b.len() > 0 {
            assert(b.to_set().contains(b[0]));
        }
        assert(a =~= b);
    } else {
        assert(a.to_set().contains(a[0]));
        if b.len() == 0 {
            assert(false);
        }
        assert(b.to_set().contains(b[0]));
        let j = choose|j: int| 0 <= j < b.len() && b[j] == a[0];
        let k = choose|k: int| 0 <= k < a.len() && a[k] == b[0];
        assert(a[0] == b[0]) by {
            if j > 0 {
                assert(b[0] < b[j]);
            }
            if k > 0 {
                assert(a[0] < a[k]);
            }
        }
        let a1 = a.drop_first();
        let b1 = b.drop_first();
        assert forall|x: u64| a1.to_set().contains(x) <==> b1.to_set().contains(x) by {
            if a1.to_set().contains(x) {
                let i = choose|i: int| 0 <= i < a1.len() && a1[i] == x;
                assert(a[i + 1] == x);
                assert(a.to_set().contains(x));
                let q = choose|q: int| 0 <= q < b.len() && b[q] == x;
                assert(q != 0);
                assert(b1[q - 1] == x);
            }
            if b1.to_set().contains(x) {
                let i = choose|i: int| 0 <= i < b1.len() && b1[i] == x;
                assert(b[i + 1] == x);
                assert(b.to_set().contains(x));
                let q = choose|q: int| 0 <= q < a.len() && a[q] == x;
                assert(q != 0);
                assert(a1[q - 1] == x);
            }
        }
        assert(a1.to_set() =~= b1.to_set());
        lemma_ascending_unique(a1, b1);
        assert(a =~= seq![a[0]] + a1);
        assert(b =~= seq![b[0]] + b1);
    }
}

/// A block plays one list of clips: the list is determined by the track, the
/// clip store and the block.
pub proof fn lemma_active_clips_unique(
    clips: Map<u64, ClipID>,
    store: Map<u64, AudioClip>,
    block_start: Tick,
    block_end: Tick,
    ids1: Seq<ClipID>,
    ids2: Seq<ClipID>,
)
    requires
        active_clips_spec(clips, store, block_start, block_end, ids1),
        active_clips_spec(clips, store, block_start, block_end, ids2),
    ensures
        ids1 == ids2,
{
    let ks1 = choose|ks: Seq<u64>| {
        &&& ascending(ks)
        &&& ks.to_set() == keys_between(clips.dom(), block_start.0, block_end.0)
        &&& ids1 == lookback(clips, store, block_start) + ks.map_values(|k: u64| clips[k])
    };
    let ks2 = choose|ks: Seq<u64>| {
        &&& ascending(ks)
        &&& ks.to_set() == keys_between(clips.dom(), block_start.0, block_end.0)
        &&& ids2 == lookback(clips, store, block_start) + ks.map_values(|k: u64| clips[k])
    };
    lemma_ascending_unique(ks1, ks2);
}

/// The keys of a clip map come out of its key iterator in increasing order.
proof fn lemma_keys_ascending(m: &BTreeMap<u64, ClipID>)
    ensures
        ascending(spec_keys_iter(m).remaining().unref()),
{
    broadcast use vstd::std_specs::btree::axiom_spec_keys_iter;
    broadcast use vstd::std_specs::btree::axiom_increasing_seq_meaning;
    broadcast use vstd::laws_cmp::group_laws_cmp;
    let s = spec_keys_iter(m).remaining();
    assert(vstd::laws_cmp::obeys_cmp::<u64>());
    assert(vstd::laws_cmp::obeys_cmp::<&u64>());
    assert(increasing_seq(s));
    vstd::std_specs::btree::axiom_increasing_seq_meaning::<&u64>(s);
    assert forall|i: int, j: int| 0 <= i < j < s.unref().len() implies s.unref()[i] < s.unref()[j] by {
        assert(OrdSpec::cmp_spec(&s[i], &s[j]) is Less);
    }
}

impl Track {
    /// The clips that the block `[block_start, block_end)` plays: the clip
    /// placed last before the block if it still sounds at `block_start`, then
    /// the clips placed in the block, by start.
    pub fn active_clips(&self, clips: &Store<AudioClip>, block_start: Tick, block_end: Tick) -> (r: Vec<ClipID>)
        requires
            store_ok(clip_store(*clips)),
            forall|k: u64| #[trigger] self.clips@.contains_key(k) ==> is_key(self.clips@[k]),
        ensures
            active_clips_spec(self.clips@, clip_store(*clips), block_start, block_end, r@),
    {
        broadcast use vstd::std_specs::btree::axiom_spec_keys_iter;
        let bs = block_start.0;
        let be = block_end.0;
        let mut in_block: Vec<ClipID> = Vec::new();
        let mut last: Option<u64> = None;
        let ghost mut ks: Seq<u64> = Seq::empty();
        let ghost mut seen: Set<u64> = Set::empty();
        proof {
            lemma_keys_ascending(&self.clips);
        }
        for k in iter: self.clips.keys()
            invariant
                iter.seq().unref().to_set() == self.clips@.dom(),
                ascending(iter.seq().unref()),
                seen == iter.seq().unref().take(iter.index() as int).to_set(),
                iter.index() == iter.seq().len() ==> seen == self.clips@.dom(),
                forall|x: u64, j: int| #[trigger] seen.contains(x) && iter.index() <= j < iter.seq().len()
                    ==> x < #[trigger] iter.seq().unref()[j],
                ascending(ks),
                ks.to_set() == keys_between(seen, bs, be),
                in_block@ == ks.map_values(|x: u64| self.clips@[x]),
                forall|x: u64| #[trigger] seen.contains(x) ==> self.clips@.contains_key(x),
                match last {
                    Some(l) => is_last_before(seen, bs, l),
                    None => forall|x: u64| #[trigger] seen.contains(x) ==> x >= bs,
                },
        {
            let ghost s = iter.seq().unref();
            let ghost i = iter.index() as int;
            proof {
                assert(*k == s[i]);
                assert(s.take(i + 1) =~= s.take(i).push(s[i]));
                s.take(i).lemma_push_to_set_commute(s[i]);
                assert(s.to_set().contains(s[i]));
                assert(s.take(s.len() as int) =~= s);
            }
            if *k < bs {
                last = Some(*k);
            } else if *k < be {
                match self.clips.get(k) {
                    Some(id) => in_block.push(*id),
                    None => {},
                }
                proof {
                    assert forall|a: int| 0 <= a < ks.len() implies ks[a] < s[i] by {
                        assert(ks.to_set().contains(ks[a]));
                    }
                    ks.lemma_push_to_set_commute(*k);
                    ks = ks.push(*k);
                }
            }
            proof {
                let old_seen = seen;
                seen = seen.insert(*k);
                assert(keys_between(seen, bs, be) =~= if bs <= s[i] && s[i] < be {
                    keys_between(old_seen, bs, be).insert(s[i])
                } else {
                    keys_between(old_seen, bs, be)
                });
                assert(in_block@ =~= ks.map_values(|x: u64| self.clips@[x]));
            }
        }
        let ghost dom = self.clips@.dom();
        let ghost store = clip_store(*clips);
        let mut r = in_block;
        match last {
            Some(l) => {
                let id = *self.clips.get(&l).unwrap();
                match clip_store_get(clips, id) {
                    Some(c) => {
                        if (c.start.0 as u128) + (c.length.0 as u128) > (bs as u128) {
                            r.insert(0, id);
                        }
                    },
                    None => {},
                }
                proof {
                    assert(is_last_before(dom, bs, l));
                    let chosen = choose|k: u64| is_last_before(dom, bs, k);
                    assert(is_last_before(dom, bs, chosen));
                    assert(chosen == l);
                }
            },
            None => {
                proof {
                    assert(!exists|k: u64| is_last_before(dom, bs, k));
                }
            },
        }
        proof {
            assert(r@ =~= lookback(self.clips@, store, block_start) + ks.map_values(|x: u64| self.clips@[x]));
        }
        r
    }
}

/// The end of the block of `frames` frames that starts at `block_start`.
pub open spec fn block_end_spec(block_start: Tick, frames: u64) -> Tick {
    Tick((block_start.0 + frames) as u64)
}

/// What each clip of a project contributes to a block, by identifier.
pub open spec fn clip_contribution(p: ProjectData, block_start: Tick, block_end: Tick) -> spec_fn(ClipID) -> Option<ClipSpan> {
    |id: ClipID| clip_render_spec(p, p.clip_map()[id], block_start, block_end)
}

/// The runs that a block mixes for the clips `ids` that it plays, in order.
pub open spec fn plan_spec(p: ProjectData, ids: Seq<ClipID>, block_start: Tick, block_end: Tick) -> Seq<ClipSpan> {
    ids.filter_map(clip_contribution(p, block_start, block_end))
}

/// Rendering the block `[block_start, block_end)` of track `t` in project `p`
/// runs to its end: every clip that the block plays is in the project, and
/// every such clip whose asset is loaded covers part of the block.
pub open spec fn renders(t: Track, p: ProjectData, block_start: Tick, block_end: Tick) -> bool {
    forall|ids: Seq<ClipID>| #[trigger] active_clips_spec(t.clips@, p.clip_map(), block_start, block_end, ids)
        ==> forall|i: int| 0 <= i < ids.len() ==> {
            &&& p.clip_map().contains_key(#[trigger] ids[i])
            &&& asset_ready(p.asset_map(), p.clip_map()[ids[i]].asset_id)
                ==> overlaps(p.clip_map()[ids[i]], block_start, block_end)
        }
}

impl Track {
    /// Whether rendering the block of `frames` frames from `block_start` of
    /// this track of `project` runs to its end (see `renders`).
    pub fn renders_block(&self, project: &ProjectData, block_start: Tick, frames: u64) -> (b: bool)
        requires
            project.wf(),
            forall|k: u64| #[trigger] self.clips@.contains_key(k) ==> is_key(self.clips@[k]),
            block_start.0 + frames <= u64::MAX,
        ensures
            b == renders(*self, *project, block_start, block_end_spec(block_start, frames)),
    {
        let block_end = Tick(block_start.0 + frames);
        let ids = self.active_clips(&project.clips, block_start, block_end);
        let ghost clips = project.clip_map();
        let ghost assets = project.asset_map();
        proof {
            assert(block_end == block_end_spec(block_start, frames));
            assert forall|ids2: Seq<ClipID>| #[trigger] active_clips_spec(self.clips@, clips, block_start, block_end, ids2)
                implies ids2 == ids@ by {
                lemma_active_clips_unique(self.clips@, clips, block_start, block_end, ids2, ids@);
            }
        }
        let mut i: usize = 0;
        while i < ids.len()
            invariant
                project.wf(),
                clips == project.clip_map(),
                assets == project.asset_map(),
                active_clips_spec(self.clips@, clips, block_start, block_end, ids@),
                block_end == block_end_spec(block_start, frames),
                i <= ids.len(),
                forall|j: int| 0 <= j < i ==> {
                    &&& clips.contains_key(#[trigger] ids@[j])
                    &&& asset_ready(assets, clips[ids@[j]].asset_id) ==> overlaps(clips[ids@[j]], block_start, block_end)
                },
            decreases ids.len() - i,
        {
            let id = ids[i];
            if !is_key_exec(id) {
                proof {
                    assert(!clips.contains_key(ids@[i as int]));
                }
                return false;
            }
            let c = match clip_store_get(&project.clips, id) {
                Some(c) => c,
                None => {
                    proof {
                        assert(!clips.contains_key(ids@[i as int]));
                    }
                    return false;
                },
            };
            let ready = if is_key_exec(c.asset_id) {
                match asset_store_get(&project.assets, c.asset_id) {
                    Some(asset) => match &asset.state {
                        AssetState::Ready(_) => true,
                        _ => false,
                    },
                    None => false,
                }
            } else {
                false
            };
            if ready && !c.overlaps_block(block_start, block_end) {
                return false;
            }
            i = i + 1;
        }
        true
    }

    /// The runs that the block of `frames` frames from `block_start` mixes
    /// for this track of `project`: for each clip that the block plays, in
    /// order, the run of its asset that the block covers, skipping clips whose
    /// asset is missing or still loading.
    pub fn render_plan(&self, project: &ProjectData, block_start: Tick, frames: u64) -> (r: Vec<ClipSpan>)
        requires
            project.wf(),
            forall|k: u64| #[trigger] self.clips@.contains_key(k) ==> is_key(self.clips@[k]),
            block_start.0 + frames <= u64::MAX,
            renders(*self, *project, block_start, block_end_spec(block_start, frames)),
        ensures
            exists|ids: Seq<ClipID>| {
                &&& active_clips_spec(self.clips@, project.clip_map(), block_start, block_end_spec(block_start, frames), ids)
                &&& r@ == plan_spec(*project, ids, block_start, block_end_spec(block_start, frames))
            },
    {
        let block_end = Tick(block_start.0 + frames);
        let ids = self.active_clips(&project.clips, block_start, block_end);
        let ghost f = clip_contribution(*project, block_start, block_end);
        assert(active_clips_spec(self.clips@, project.clip_map(), block_start, block_end, ids@));
        let mut out: Vec<ClipSpan> = Vec::new();
        let mut i: usize = 0;
        while i < ids.len()
            invariant
                project.wf(),
                i <= ids.len(),
                f == clip_contribution(*project, block_start, block_end),
                forall|j: int| 0 <= j < ids@.len() ==> {
                    &&& project.clip_map().contains_key(#[trigger] ids@[j])
                    &&& asset_ready(project.asset_map(), project.clip_map()[ids@[j]].asset_id)
                        ==> overlaps(project.clip_map()[ids@[j]], block_start, block_end)
                },
                out@ == ids@.take(i as int).filter_map(f),
            decreases ids.len() - i,
        {
            let id = ids[i];
            proof {
                assert(project.clip_map().contains_key(ids@[i as int]));
                ids@.lemma_filter_map_take_succ(f, i as int);
            }
            match clip_store_get(&project.clips, id) {
                Some(c) => match c.render_span(project, block_start, block_end) {
                    Some(span) => out.push(span),
                    None => {},
                },
                None => {},
            }
            i = i + 1;
        }
        proof {
            assert(ids@.take(ids@.len() as int) =~= ids@);
            assert(block_end == block_end_spec(block_start, frames));
            assert(out@ == plan_spec(*project, ids@, block_start, block_end));
        }
        out
    }
}

impl TrackReader {
    /// The runs that this reader mixes into its output for the block of
    /// `frames` frames from `block_start`: those of the track it reads, or
    /// none when the project holds no such track.
    pub fn render_plan(&self, project: &ProjectData, block_start: Tick, frames: u64) -> (r: Vec<ClipSpan>)
        requires
            project.wf(),
            block_start.0 + frames <= u64::MAX,
            project.track_map().contains_key(self.id)
                ==> renders(project.track_map()[self.id], *project, block_start, block_end_spec(block_start, frames)),
        ensures
            !project.track_map().contains_key(self.id) ==> r@ == Seq::<ClipSpan>::empty(),
            project.track_map().contains_key(self.id) ==> exists|ids: Seq<ClipID>| {
                &&& active_clips_spec(
                    project.track_map()[self.id].clips@,
                    project.clip_map(),
                    block_start,
                    block_end_spec(block_start, frames),
                    ids,
                )
                &&& r@ == plan_spec(*project, ids, block_start, block_end_spec(block_start, frames))
            },
    {
        if !is_key_exec(self.id) {
            return Vec::new();
        }
        match track_store_get(&project.tracks, self.id) {
            Some(track) => track.render_plan(project, block_start, frames),
            None => Vec::new(),
        }
    }
}

} // verus!
