use autark::asset::{AssetState, AudioAsset, AudioAssetData};
use autark::clip::AudioClip;
use autark::error::EngineError;
use autark::graph::NodePayload;
use autark::kind::SignalKind;
use autark::nodes::{LowpassFilter, Master, Sum, TrackReader};
use autark::project::ProjectData;
use autark::tick::Tick;

fn ready_asset(frames: u64) -> AudioAsset {
    AudioAsset::ready(
        "song.wav".to_string(),
        AudioAssetData { frames, channels: 2, sample_rate: 48_000 },
    )
}

#[test]
fn new_project_holds_only_the_master() {
    let p = ProjectData::new();
    assert_eq!(p.graph.node_count(), 1);
    assert_eq!(p.graph.link_count(), 0);
    assert_eq!(p.track_count(), 0);
    assert_eq!(p.clip_count(), 0);
    assert_eq!(p.asset_count(), 0);
    let master = p.graph.node(p.master_node_id).unwrap();
    assert!(matches!(master.payload, NodePayload::Master));
    assert_eq!(master.inputs.len(), 1);
    assert_eq!(master.inputs[0].name, "input");
    assert_eq!(master.outputs[0].name, "output");
    assert!(!master.outputs[0].visible);
}

#[test]
fn default_project_is_a_new_project() {
    let p = ProjectData::default();
    assert_eq!(p.graph.node_count(), 1);
    assert!(p.graph.node(p.master_node_id).is_some());
    assert_eq!(p.track_count(), 0);
}

#[test]
fn add_track_adds_reader_without_links() {
    let mut p = ProjectData::new();
    let (t, n) = p.add_track("Song".to_string(), SignalKind::Audio, 2);
    assert_eq!(p.track_count(), 1);
    let track = p.track(t).unwrap();
    assert_eq!(track.name, "Song");
    assert_eq!(track.kind, SignalKind::Audio);
    assert_eq!(track.linked_node_id, Some(n));
    assert!(track.clips.is_empty());
    assert_eq!(track.gain_bits, 1.0f32.to_bits());
    let reader = p.graph.node(n).unwrap();
    assert!(matches!(reader.payload, NodePayload::TrackReader { track, channels: 2 } if track == t));
    assert_eq!(reader.inputs.len(), 0);
    assert_eq!(reader.outputs[0].name, "audio out");
    assert_eq!(p.graph.link_count(), 0);
    assert!(p.wf_exec());
}

#[test]
fn wf_exec_holds_through_edits() {
    let mut p = ProjectData::new();
    assert!(p.wf_exec());
    let (t, n) = p.add_track("Song".to_string(), SignalKind::Audio, 2);
    p.add_link((n, 0), (p.master_node_id, 0)).unwrap();
    p.add_clip_to_track(t, Tick(0), Tick(10), 1).unwrap();
    assert!(p.wf_exec());
    p.remove_track(t).unwrap();
    assert!(p.wf_exec());
}

#[test]
fn remove_track_drops_reader_links_and_clips() {
    let mut p = ProjectData::new();
    let a = p.insert_asset(ready_asset(100));
    let (t, n) = p.add_track("Song".to_string(), SignalKind::Audio, 2);
    let c = p.add_clip_to_track(t, Tick(0), Tick(100), a).unwrap();
    p.add_link((n, 0), (p.master_node_id, 0)).unwrap();
    assert_eq!(p.graph.link_count(), 1);
    assert_eq!(p.remove_track(t), Ok(()));
    assert_eq!(p.track_count(), 0);
    assert!(p.track(t).is_none());
    assert!(p.graph.node(n).is_none());
    assert_eq!(p.graph.link_count(), 0);
    assert!(p.clip(c).is_none());
    assert_eq!(p.asset_count(), 1);
}

#[test]
fn remove_missing_track_is_refused() {
    let mut p = ProjectData::new();
    let (t, _) = p.add_track("Song".to_string(), SignalKind::Audio, 2);
    assert_eq!(p.remove_track(t), Ok(()));
    assert_eq!(p.remove_track(t), Err(EngineError::TrackNotFound));
    assert_eq!(p.graph.node_count(), 1);
}

#[test]
fn add_clip_places_clip_on_track() {
    let mut p = ProjectData::new();
    let (t, _) = p.add_track("Song".to_string(), SignalKind::Audio, 2);
    let c = p.add_clip_to_track(t, Tick(480), Tick(960), 5).unwrap();
    assert_eq!(p.clip(c), Some(AudioClip { start: Tick(480), length: Tick(960), asset_id: 5 }));
    let track = p.track(t).unwrap();
    assert_eq!(track.clips.len(), 1);
    assert_eq!(track.clips.get(&480), Some(&c));
}

#[test]
fn add_clip_to_missing_track_still_stores_clip() {
    let mut p = ProjectData::new();
    let (t, _) = p.add_track("Song".to_string(), SignalKind::Audio, 2);
    p.remove_track(t).unwrap();
    assert_eq!(p.add_clip_to_track(t, Tick(0), Tick(10), 1), Err(EngineError::TrackNotFound));
    assert_eq!(p.clip_count(), 1);
}

#[test]
fn move_clip_rekeys_track_and_clip() {
    let mut p = ProjectData::new();
    let (t, _) = p.add_track("Song".to_string(), SignalKind::Audio, 2);
    let c = p.add_clip_to_track(t, Tick(100), Tick(50), 1).unwrap();
    assert_eq!(p.move_clip(t, c, Tick(300)), Ok(()));
    let track = p.track(t).unwrap();
    assert_eq!(track.clips.len(), 1);
    assert_eq!(track.clips.get(&300), Some(&c));
    assert_eq!(track.clips.get(&100), None);
    assert_eq!(p.clip(c).unwrap().start, Tick(300));
    assert_eq!(p.clip(c).unwrap().length, Tick(50));
}

#[test]
fn move_clip_on_missing_track_is_refused() {
    let mut p = ProjectData::new();
    let (t, _) = p.add_track("Song".to_string(), SignalKind::Audio, 2);
    let c = p.add_clip_to_track(t, Tick(100), Tick(50), 1).unwrap();
    p.remove_track(t).unwrap();
    assert_eq!(p.move_clip(t, c, Tick(0)), Err(EngineError::TrackNotFound));
}

#[test]
fn socket_kind_of_reports_kinds_and_missing_sockets() {
    let mut p = ProjectData::new();
    let (t, n) = p.add_track("Song".to_string(), SignalKind::Audio, 2);
    assert_eq!(p.socket_kind_of((n, 0), true), Ok(SignalKind::Audio));
    assert_eq!(p.socket_kind_of((p.master_node_id, 0), false), Ok(SignalKind::Audio));
    assert_eq!(p.socket_kind_of((n, 0), false), Err(EngineError::NodeNotFound(n)));
    assert_eq!(p.socket_kind_of((n, 1), true), Err(EngineError::NodeNotFound(n)));
    p.remove_track(t).unwrap();
    assert_eq!(p.socket_kind_of((n, 0), true), Err(EngineError::NodeNotFound(n)));
}

#[test]
fn add_node_and_inputs() {
    let mut p = ProjectData::new();
    let sum = p.add_node(Sum::new().node());
    assert_eq!(p.graph.node_count(), 2);
    assert_eq!(p.add_node_input(sum, SignalKind::Audio), Ok(0));
    assert_eq!(p.add_node_input(sum, SignalKind::Audio), Ok(1));
    let node = p.graph.node(sum).unwrap();
    assert_eq!(node.inputs.len(), 2);
    assert_eq!(node.inputs[0].name, "Input 0");
    assert_eq!(node.inputs[1].name, "Input 1");
    assert!(node.inputs[1].visible);
    assert!(matches!(node.payload, NodePayload::Sum));
}

#[test]
fn add_node_input_to_missing_node_is_refused() {
    let mut p = ProjectData::new();
    let (t, n) = p.add_track("Song".to_string(), SignalKind::Audio, 2);
    p.remove_track(t).unwrap();
    assert_eq!(p.add_node_input(n, SignalKind::Midi), Err(EngineError::NodeNotFound(n)));
}

#[test]
fn add_socket_to_node_appends_given_socket() {
    let mut p = ProjectData::new();
    let m = p.master_node_id;
    let s = autark::graph::Socket::new(SignalKind::Cv, "mod", false);
    assert_eq!(p.add_socket_to_node(m, s), Ok(1));
    let node = p.graph.node(m).unwrap();
    assert_eq!(node.inputs.len(), 2);
    assert_eq!(node.inputs[1].kind, SignalKind::Cv);
    assert_eq!(node.inputs[1].name, "mod");
    assert!(!node.inputs[1].visible);
}

#[test]
fn insert_asset_and_read_it_back() {
    let mut p = ProjectData::new();
    let a = p.insert_asset(ready_asset(44_100));
    let b = p.insert_asset(AudioAsset::new("later.wav".to_string()));
    assert_ne!(a, b);
    assert_eq!(p.asset_count(), 2);
    assert!(matches!(p.asset(a).unwrap().state, AssetState::Ready(d) if d.frames == 44_100));
    assert!(matches!(p.asset(b).unwrap().state, AssetState::Pending));
    assert_eq!(p.asset(b).unwrap().path, "later.wav");
}

#[test]
fn node_builders_give_their_sockets() {
    let master = Master.node();
    assert_eq!(master.inputs.len(), 1);
    assert_eq!(master.outputs.len(), 1);
    let reader = TrackReader::new(7, 2).node();
    assert!(matches!(reader.payload, NodePayload::TrackReader { track: 7, channels: 2 }));
    let filter = LowpassFilter::new(1000.0f32.to_bits());
    let node = filter.node();
    assert_eq!(node.inputs[0].name, "in");
    assert_eq!(node.outputs[0].name, "out");
    assert_eq!(LowpassFilter::AUDIO_IN, 0);
    assert!(matches!(node.payload, NodePayload::Lowpass { .. }));
}

#[test]
fn distinct_ids_for_distinct_entries() {
    let mut p = ProjectData::new();
    let (t1, n1) = p.add_track("A".to_string(), SignalKind::Audio, 2);
    let (t2, n2) = p.add_track("B".to_string(), SignalKind::Audio, 2);
    assert_ne!(t1, t2);
    assert_ne!(n1, n2);
    assert_ne!(n1, p.master_node_id);
    assert_eq!(p.track(t1).unwrap().name, "A");
    assert_eq!(p.track(t2).unwrap().name, "B");
    let ids = p.graph.node_ids();
    assert_eq!(ids.len(), 3);
    assert!(ids.contains(&n1) && ids.contains(&n2) && ids.contains(&p.master_node_id));
}
