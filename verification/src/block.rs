use vstd::prelude::*;
use crate::tick::Tick;

verus! {

// The device asks for one buffer of interleaved samples at a time. Whatever
// the transport does, the playhead moves on by the buffer's frames; the
// buffer is mixed from the graph only while the transport plays and a graph
// has been published, and is left silent otherwise.

/// What the audio callback does with one device buffer.
#[derive(Debug, Clone, Copy, PartialEq, Eq, Structural)]
pub enum BlockAction {
    /// Leave the buffer silent.
    Silence,
    /// Run the published schedule for the block and copy out its mix.
    Render,
}

/// The audio callback's decisions for one device buffer.
#[derive(Debug, Clone, Copy, PartialEq, Eq, Structural)]
pub struct BlockStep {
    /// The first frame of the block: the playhead before the buffer.
    pub start: Tick,
    /// The frames in the buffer.
    pub frames: u64,
    /// The playhead after the buffer (it wraps around at the end of `u64`).
    pub next_playhead: u64,
    pub action: BlockAction,
}

/// The decisions for a buffer of `samples` interleaved samples of
/// `channels` channels, with the playhead at `playhead`.
pub fn plan_block(samples: usize, channels: u16, playhead: u64, playing: bool, has_graph: bool) -> (s: BlockStep)
    requires
        channels > 0,
    ensures
        s.start == Tick(playhead),
        s.frames == (samples as int) / (channels as int),
        s.next_playhead == (playhead + s.frames) % 0x1_0000_0000_0000_0000,
        s.action == (if playing && has_graph { BlockAction::Render } else { BlockAction::Silence }),
{
    let frames = (samples / (channels as usize)) as u64;
    let next_playhead = playhead.wrapping_add(frames);
    let action = if playing && has_graph { BlockAction::Render } else { BlockAction::Silence };
    BlockStep { start: Tick(playhead), frames, next_playhead, action }
}

} // verus!
