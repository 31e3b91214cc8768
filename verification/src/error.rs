use vstd::prelude::*;
use crate::graph::NodeID;
use crate::kind::SignalKind;

verus! {

/// Why an edit of the project, or the compilation of its graph, was refused.
#[derive(Debug, Clone, Copy, PartialEq, Eq, Structural)]
pub enum EngineError {
    TrackNotFound,
    NodeNotFound(NodeID),
    IncompatibleSockets { from: SignalKind, to: SignalKind },
    WouldCreateCycle,
}

} // verus!
