//! A small digital-audio-workstation core: a project model of tracks, clips,
//! assets and a signal-flow graph, the compiler that turns the graph into a
//! render schedule, and the edit history with undo and redo.

pub mod tick;
pub mod asset;
pub mod clip;
pub mod graph;
pub mod kind;
pub mod track;
pub mod store;
pub mod error;
pub mod order;
pub mod nodes;
pub mod project;
pub mod schedule;
pub mod compile;
pub mod command;
pub mod history;
pub mod transport;
pub mod render;
pub mod block;
pub mod wellformed;
pub mod routed;
