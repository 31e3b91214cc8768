use autark::error::EngineError;
use autark::graph::NodePayload;
use autark::kind::SignalKind;
use autark::routed::Project;

fn non_master(p: &Project) -> Vec<u64> {
    p.data.graph.node_ids().into_iter().filter(|id| *id != p.data.master_node_id).collect()
}

#[test]
fn routed_project_master_has_in_and_out() {
    let p = Project::new();
    let m = p.data.graph.node(p.data.master_node_id).unwrap();
    assert_eq!(m.inputs.len(), 1);
    assert_eq!(m.inputs[0].name, "in");
    assert!(m.inputs[0].visible);
    assert_eq!(m.outputs[0].name, "out");
    assert!(!m.outputs[0].visible);
    assert!(matches!(m.payload, NodePayload::Master));
    assert_eq!(p.data.graph.node_count(), 1);
    assert_eq!(p.data.graph.link_count(), 0);
    let d = Project::default();
    assert_eq!(d.data.graph.node(d.data.master_node_id).unwrap().inputs[0].name, "in");
}

#[test]
fn routed_add_track_links_reader_to_master() {
    let mut p = Project::new();
    assert_eq!(p.add_track("Keys".to_string(), SignalKind::Midi), Ok(()));
    assert_eq!(p.data.track_count(), 1);
    let readers = non_master(&p);
    assert_eq!(readers.len(), 1);
    let r = p.data.graph.node(readers[0]).unwrap();
    assert_eq!(r.inputs.len(), 0);
    assert_eq!(r.outputs.len(), 1);
    assert_eq!(r.outputs[0].kind, SignalKind::Midi);
    assert_eq!(r.outputs[0].name, "out");
    assert!(r.outputs[0].visible);
    let NodePayload::TrackReader { track, channels } = r.payload else { panic!("not a reader") };
    assert_eq!(channels, 0);
    assert_eq!(p.data.track(track).unwrap().linked_node_id, Some(readers[0]));
    assert_eq!(p.data.track(track).unwrap().name, "Keys");
    assert_eq!(p.data.graph.link_count(), 1);
    let link = p.data.graph.link(p.data.graph.link_ids()[0]).unwrap();
    assert_eq!(link.from, (readers[0], 0));
    assert_eq!(link.to, (p.data.master_node_id, 0));
    assert!(p.data.wf_exec());
}

#[test]
fn routed_compile_lone_master_numbers_from_zero() {
    let p = Project::new();
    let g = p.compile_graph().unwrap();
    assert_eq!(g.buffer_count, 1);
    assert_eq!(g.master_output_slot, 0);
    assert_eq!(g.steps.len(), 1);
    assert_eq!(g.steps[0].node, p.data.master_node_id);
    assert_eq!(g.steps[0].output_slots, vec![0]);
    assert_eq!(g.steps[0].input_sources, vec![Vec::<usize>::new()]);
}

#[test]
fn routed_compile_lists_every_source_of_an_input() {
    let mut p = Project::new();
    p.add_track("A".to_string(), SignalKind::Audio).unwrap();
    p.add_track("B".to_string(), SignalKind::Audio).unwrap();
    let g = p.compile_graph().unwrap();
    assert_eq!(g.buffer_count, 3);
    assert_eq!(g.steps.len(), 3);
    let master = g.steps.iter().find(|s| s.node == p.data.master_node_id).unwrap();
    assert_eq!(g.master_output_slot, master.output_slots[0]);
    assert_eq!(master.output_slots, vec![2]);
    let mut sources = master.input_sources[0].clone();
    sources.sort();
    assert_eq!(sources, vec![0, 1]);
}

#[test]
fn routed_edits_delegate_to_the_project_data() {
    let mut p = Project::new();
    p.add_track("A".to_string(), SignalKind::Audio).unwrap();
    let reader = non_master(&p)[0];
    let NodePayload::TrackReader { track, .. } = p.data.graph.node(reader).unwrap().payload else { panic!("not a reader") };
    assert_eq!(p.add_clip_to_track(track, autark::tick::Tick(0), autark::tick::Tick(10), 1), Ok(()));
    assert_eq!(p.data.clip_count(), 1);
    let m = p.data.master_node_id;
    assert_eq!(p.socket_kind_of((reader, 0), true), Ok(SignalKind::Audio));
    assert_eq!(p.remove_link((reader, 0), (m, 0)), Ok(()));
    assert_eq!(p.data.graph.link_count(), 0);
    assert_eq!(p.add_link((reader, 0), (m, 0)), Ok(()));
    assert_eq!(p.remove_track(track), Ok(()));
    assert_eq!(p.remove_track(track), Err(EngineError::TrackNotFound));
    assert_eq!(p.add_clip_to_track(track, autark::tick::Tick(0), autark::tick::Tick(10), 1), Err(EngineError::TrackNotFound));
    assert_eq!(p.data.graph.node_count(), 1);
}
