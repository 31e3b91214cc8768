use vstd::prelude::*;
use crate::asset::AssetID;
use crate::tick::Tick;

verus! {

/// Identifier of a clip in a project.
pub type ClipID = u64;

/// A region of material placed on a track's timeline.
pub trait Clip: Sized {
    spec fn start_spec(&self) -> Tick;

    spec fn length_spec(&self) -> Tick;

    spec fn asset_spec(&self) -> AssetID;

    fn new(start: Tick, length: Tick, asset_id: AssetID) -> (c: Self)
        ensures
            c.start_spec() == start,
            c.length_spec() == length,
            c.asset_spec() == asset_id,
    ;

    /// Moves the clip so that it starts at `start`.
    fn set_start(&mut self, start: Tick)
        ensures
            final(self).start_spec() == start,
            final(self).length_spec() == old(self).length_spec(),
            final(self).asset_spec() == old(self).asset_spec(),
    ;
}

/// A clip that plays part of an audio asset.
#[derive(Debug, Clone, Copy, PartialEq, Eq, Structural)]
pub struct AudioClip {
    pub start: Tick,
    pub length: Tick,
    pub asset_id: AssetID,
}

impl Clip for AudioClip {
    open spec fn start_spec(&self) -> Tick {
        self.start
    }

    open spec fn length_spec(&self) -> Tick {
        self.length
    }

    open spec fn asset_spec(&self) -> AssetID {
        self.asset_id
    }

    fn new(start: Tick, length: Tick, asset_id: AssetID) -> (c: AudioClip) {
        AudioClip { start, length, asset_id }
    }

    fn set_start(&mut self, start: Tick) {
        self.start = start;
    }
}

} // verus!
