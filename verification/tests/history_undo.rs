use std::sync::Arc;

use autark::asset::{AudioAsset, AudioAssetData};
use autark::command::{
    AddClip, AddLink, AddNode, AddNodeInput, AddTrack, Command, MoveClip, RemoveLink, RemoveTrack,
};
use autark::error::EngineError;
use autark::history::{EditHistory, MAX_BUFFER_SLOTS, MAX_NODES};
use autark::kind::SignalKind;
use autark::nodes::{LowpassFilter, Sum};
use autark::project::ProjectData;
use autark::tick::Tick;

fn fresh() -> EditHistory {
    EditHistory::new(Arc::new(ProjectData::new()))
}

fn add_track(h: &mut EditHistory, name: &str) -> (u64, u64) {
    h.apply(AddTrack { name: name.to_string(), kind: SignalKind::Audio, channels: 2 }).unwrap()
}

#[test]
fn undo_after_commit_restores_previous_project() {
    let mut h = fresh();
    let (t, _) = add_track(&mut h, "Song");
    assert_eq!(h.project().track_count(), 1);
    assert!(h.undo());
    assert_eq!(h.project().track_count(), 0);
    assert!(h.project().track(t).is_none());
}

#[test]
fn redo_after_undo_restores_undone_project() {
    let mut h = fresh();
    let (t, n) = add_track(&mut h, "Song");
    assert!(h.undo());
    assert!(h.redo());
    assert_eq!(h.project().track_count(), 1);
    assert_eq!(h.project().track(t).unwrap().linked_node_id, Some(n));
}

#[test]
fn undo_after_redo_goes_back_again() {
    let mut h = fresh();
    add_track(&mut h, "Song");
    assert!(h.undo());
    assert!(h.redo());
    assert!(h.undo());
    assert_eq!(h.project().track_count(), 0);
}

#[test]
fn commit_clears_redo() {
    let mut h = fresh();
    add_track(&mut h, "A");
    assert!(h.undo());
    add_track(&mut h, "B");
    assert!(!h.redo());
    assert_eq!(h.project().track_count(), 1);
}

#[test]
fn undo_and_redo_with_empty_stacks_do_nothing() {
    let mut h = fresh();
    assert!(!h.undo());
    assert!(!h.redo());
    assert_eq!(h.project().graph.node_count(), 1);
}

#[test]
fn failed_command_leaves_history_unchanged() {
    let mut h = fresh();
    let (t, _) = add_track(&mut h, "Song");
    h.apply(RemoveTrack(t)).unwrap();
    assert_eq!(h.apply(RemoveTrack(t)), Err(EngineError::TrackNotFound));
    // the failed edit was not filed: one undo goes back to the track
    assert!(h.undo());
    assert_eq!(h.project().track_count(), 1);
    assert!(h.undo());
    assert_eq!(h.project().track_count(), 0);
    assert!(!h.undo());
}

#[test]
fn commands_edit_through_the_history() {
    let mut h = fresh();
    let (t, reader) = add_track(&mut h, "Song");
    let asset = h.load_asset(AudioAsset::ready(
        "song.wav".to_string(),
        AudioAssetData { frames: 1000, channels: 2, sample_rate: 44_100 },
    ));
    let c = h.apply(AddClip { track: t, start: Tick(0), end: Tick(1000), asset_id: asset }).unwrap();
    h.apply(MoveClip { track: t, clip: c, new_start: Tick(10) }).unwrap();
    assert_eq!(h.project().clip(c).unwrap().start, Tick(10));
    let m = h.project().master_node_id;
    let sum = h.apply(AddNode { node: Sum::new().node() }).unwrap();
    assert_eq!(h.apply(AddNodeInput::new(sum, SignalKind::Audio)), Ok(0));
    h.apply(RemoveLink { from: (reader, 0), to: (m, 0) }).unwrap();
    h.apply(AddLink { from: (reader, 0), to: (sum, 0) }).unwrap();
    h.apply(AddLink { from: (sum, 0), to: (m, 0) }).unwrap();
    assert_eq!(
        h.apply(AddLink { from: (sum, 0), to: (sum, 0) }),
        Err(EngineError::WouldCreateCycle)
    );
    assert_eq!(h.project().graph.link_count(), 2);
}

#[test]
fn command_execute_runs_on_a_project() {
    let mut p = ProjectData::new();
    let (t, _) = AddTrack { name: "X".to_string(), kind: SignalKind::Midi, channels: 1 }
        .execute(&mut p)
        .unwrap();
    assert_eq!(p.track(t).unwrap().kind, SignalKind::Midi);
    assert_eq!(RemoveTrack(t).execute(&mut p), Ok(()));
    assert_eq!(RemoveTrack(t).execute(&mut p), Err(EngineError::TrackNotFound));
}

#[test]
fn load_asset_is_undoable() {
    let mut h = fresh();
    let a = h.load_asset(AudioAsset::new("x.wav".to_string()));
    assert!(h.project().asset(a).is_some());
    assert!(h.undo());
    assert!(h.project().asset(a).is_none());
}

#[test]
fn shared_points_at_current_project() {
    let mut h = fresh();
    add_track(&mut h, "Song");
    let shared = h.shared();
    assert_eq!(shared.track_count(), 1);
    assert!(h.undo());
    assert_eq!(shared.track_count(), 1);
    assert_eq!(h.project().track_count(), 0);
}

#[test]
fn first_plan_adds_every_node() {
    let h = fresh();
    let plan = h.publish_plan().unwrap();
    assert_eq!(plan.state_additions, vec![h.project().master_node_id]);
    assert!(plan.state_removals.is_empty());
    assert_eq!(plan.schedule.master_output_slot, 1);
}

#[test]
fn plan_after_edit_lists_new_and_gone_nodes() {
    let mut h = fresh();
    let (t, n) = add_track(&mut h, "Song");
    let plan = h.publish_plan().unwrap();
    assert_eq!(plan.state_additions, vec![n]);
    assert!(plan.state_removals.is_empty());
    assert_eq!(plan.schedule.steps.len(), 2);
    h.apply(RemoveTrack(t)).unwrap();
    let plan = h.publish_plan().unwrap();
    assert!(plan.state_additions.is_empty());
    assert_eq!(plan.state_removals, vec![n]);
    assert_eq!(plan.schedule.steps.len(), 1);
}

#[test]
fn plan_is_refused_beyond_the_node_budget() {
    let mut p = ProjectData::new();
    for _ in 0..MAX_NODES {
        p.add_node(LowpassFilter::new(0).node());
    }
    assert_eq!(p.graph.node_count(), MAX_NODES + 1);
    let mut h = EditHistory::new(Arc::new(p));
    assert!(h.publish_plan().is_none());
    let (t, _) = add_track(&mut h, "Song");
    assert!(h.publish_plan().is_none());
    h.apply(RemoveTrack(t)).unwrap();
    assert!(h.publish_plan().is_none());
    assert!(MAX_BUFFER_SLOTS >= MAX_NODES);
}

#[test]
fn plan_fits_at_the_node_budget() {
    let mut p = ProjectData::new();
    for _ in 1..MAX_NODES {
        p.add_node(LowpassFilter::new(0).node());
    }
    let h = EditHistory::new(Arc::new(p));
    let plan = h.publish_plan().unwrap();
    assert_eq!(plan.state_additions.len(), MAX_NODES);
    assert_eq!(plan.schedule.buffer_count, MAX_NODES + 1);
}
