use vstd::prelude::*;
use crate::asset::AssetID;
use crate::clip::ClipID;
use crate::error::EngineError;
use crate::graph::{Node, NodeID, SocketIndex};
use crate::kind::SignalKind;
use crate::project::{
    add_clip_to_track_post, add_link_post, add_node_input_post, add_node_post, add_track_post,
    move_clip_post, remove_link_post, remove_track_post, ProjectData,
};
use crate::store::{is_key, is_key_exec};
use crate::tick::Tick;
use crate::track::TrackID;

verus! {

/// An edit of a project, applied through the edit history.
pub trait Command: Sized {
    type Output;

    /// The identifiers the command names are slot-map keys.
    spec fn args_ok(&self) -> bool;

    /// Whether the identifiers the command names are slot-map keys.
    fn args_valid(&self) -> (b: bool)
        ensures
            b == self.args_ok(),
    ;

    /// The command turned `pre` into `post` with result `r`.
    spec fn outcome(&self, pre: ProjectData, post: ProjectData, r: Result<Self::Output, EngineError>) -> bool;

    fn execute(self, project: &mut ProjectData) -> (r: Result<Self::Output, EngineError>)
        requires
            old(project).wf(),
            old(project).has_room(),
            self.args_ok(),
        ensures
            final(project).wf(),
            self.outcome(*old(project), *final(project), r),
    ;
}

/// Adds a track with its reader node, which nothing links yet.
pub struct AddTrack {
    pub name: String,
    pub kind: SignalKind,
    pub channels: u16,
}

impl Command for AddTrack {
    type Output = (TrackID, NodeID);

    open spec fn args_ok(&self) -> bool {
        true
    }

    fn args_valid(&self) -> (b: bool) {
        true
    }

    open spec fn outcome(&self, pre: ProjectData, post: ProjectData, r: Result<(TrackID, NodeID), EngineError>) -> bool {
        r matches Ok(ids) && add_track_post(pre, post, self.name, self.kind, self.channels, ids)
    }

    fn execute(self, project: &mut ProjectData) -> (r: Result<(TrackID, NodeID), EngineError>) {
        Ok(project.add_track(self.name, self.kind, self.channels))
    }
}

/// Removes a track, its reader node and its clips.
pub struct RemoveTrack(pub TrackID);

impl Command for RemoveTrack {
    type Output = ();

    open spec fn args_ok(&self) -> bool {
        is_key(self.0)
    }

    fn args_valid(&self) -> (b: bool) {
        is_key_exec(self.0)
    }

    open spec fn outcome(&self, pre: ProjectData, post: ProjectData, r: Result<(), EngineError>) -> bool {
        remove_track_post(pre, post, self.0, r)
    }

    fn execute(self, project: &mut ProjectData) -> (r: Result<(), EngineError>) {
        project.remove_track(self.0)
    }
}

/// Places a new clip on a track. `end` is the clip's length in frames.
pub struct AddClip {
    pub track: TrackID,
    pub start: Tick,
    pub end: Tick,
    pub asset_id: AssetID,
}

impl Command for AddClip {
    type Output = ClipID;

    open spec fn args_ok(&self) -> bool {
        is_key(self.track)
    }

    fn args_valid(&self) -> (b: bool) {
        is_key_exec(self.track)
    }

    open spec fn outcome(&self, pre: ProjectData, post: ProjectData, r: Result<ClipID, EngineError>) -> bool {
        add_clip_to_track_post(pre, post, self.track, self.start, self.end, self.asset_id, r)
    }

    fn execute(self, project: &mut ProjectData) -> (r: Result<ClipID, EngineError>) {
        project.add_clip_to_track(self.track, self.start, self.end, self.asset_id)
    }
}

/// Moves a clip to a new start on a track.
pub struct MoveClip {
    pub track: TrackID,
    pub clip: ClipID,
    pub new_start: Tick,
}

impl Command for MoveClip {
    type Output = ();

    open spec fn args_ok(&self) -> bool {
        is_key(self.track) && is_key(self.clip)
    }

    fn args_valid(&self) -> (b: bool) {
        is_key_exec(self.track) && is_key_exec(self.clip)
    }

    open spec fn outcome(&self, pre: ProjectData, post: ProjectData, r: Result<(), EngineError>) -> bool {
        move_clip_post(pre, post, self.track, self.clip, self.new_start, r)
    }

    fn execute(self, project: &mut ProjectData) -> (r: Result<(), EngineError>) {
        project.move_clip(self.track, self.clip, self.new_start)
    }
}

/// Adds a node to the flow graph.
pub struct AddNode {
    pub node: Node,
}

impl Command for AddNode {
    type Output = NodeID;

    open spec fn args_ok(&self) -> bool {
        true
    }

    fn args_valid(&self) -> (b: bool) {
        true
    }

    open spec fn outcome(&self, pre: ProjectData, post: ProjectData, r: Result<NodeID, EngineError>) -> bool {
        r matches Ok(id) && add_node_post(pre, post, self.node, id)
    }

    fn execute(self, project: &mut ProjectData) -> (r: Result<NodeID, EngineError>) {
        Ok(project.add_node(self.node))
    }
}

/// Links an output socket to an input socket.
pub struct AddLink {
    pub from: (NodeID, SocketIndex),
    pub to: (NodeID, SocketIndex),
}

impl Command for AddLink {
    type Output = ();

    open spec fn args_ok(&self) -> bool {
        is_key(self.from.0) && is_key(self.to.0)
    }

    fn args_valid(&self) -> (b: bool) {
        is_key_exec(self.from.0) && is_key_exec(self.to.0)
    }

    open spec fn outcome(&self, pre: ProjectData, post: ProjectData, r: Result<(), EngineError>) -> bool {
        add_link_post(pre, post, self.from, self.to, r)
    }

    fn execute(self, project: &mut ProjectData) -> (r: Result<(), EngineError>) {
        project.add_link(self.from, self.to)
    }
}

/// Removes the links between two sockets.
pub struct RemoveLink {
    pub from: (NodeID, SocketIndex),
    pub to: (NodeID, SocketIndex),
}

impl Command for RemoveLink {
    type Output = ();

    open spec fn args_ok(&self) -> bool {
        true
    }

    fn args_valid(&self) -> (b: bool) {
        true
    }

    open spec fn outcome(&self, pre: ProjectData, post: ProjectData, r: Result<(), EngineError>) -> bool {
        remove_link_post(pre, post, self.from, self.to, r)
    }

    fn execute(self, project: &mut ProjectData) -> (r: Result<(), EngineError>) {
        project.remove_link(self.from, self.to)
    }
}

/// Appends an input socket of a given kind to a node.
pub struct AddNodeInput {
    pub node_id: NodeID,
    pub kind: SignalKind,
}

impl AddNodeInput {
    pub fn new(node_id: NodeID, kind: SignalKind) -> (c: AddNodeInput)
        ensures
            c.node_id == node_id,
            c.kind == kind,
    {
        AddNodeInput { node_id, kind }
    }
}

impl Command for AddNodeInput {
    type Output = SocketIndex;

    open spec fn args_ok(&self) -> bool {
        is_key(self.node_id)
    }

    fn args_valid(&self) -> (b: bool) {
        is_key_exec(self.node_id)
    }

    open spec fn outcome(&self, pre: ProjectData, post: ProjectData, r: Result<SocketIndex, EngineError>) -> bool {
        add_node_input_post(pre, post, self.node_id, self.kind, r)
    }

    fn execute(self, project: &mut ProjectData) -> (r: Result<SocketIndex, EngineError>) {
        project.add_node_input(self.node_id, self.kind)
    }
}

/// Names the node whose last input would be removed.
pub struct RemoveNodeInput {
    pub node_id: NodeID,
}

} // verus!
