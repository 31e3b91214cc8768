use autark::error::EngineError;
use autark::graph::{Node, NodeGraph, NodePayload, Socket};
use autark::kind::SignalKind;
use autark::nodes::{LowpassFilter, Master, Sum};
use autark::project::ProjectData;

fn midi_source() -> Node {
    Node {
        inputs: vec![],
        outputs: vec![Socket::new(SignalKind::Midi, "midi out", true)],
        payload: NodePayload::Sum,
    }
}

fn cv_sink() -> Node {
    Node {
        inputs: vec![Socket::new(SignalKind::Cv, "cv in", true)],
        outputs: vec![Socket::new(SignalKind::Cv, "cv out", true)],
        payload: NodePayload::Sum,
    }
}

fn position(order: &[u64], id: u64) -> usize {
    order.iter().position(|x| *x == id).unwrap()
}

#[test]
fn add_link_connects_compatible_sockets() {
    let mut p = ProjectData::new();
    let f = p.add_node(LowpassFilter::new(800.0f32.to_bits()).node());
    let m = p.master_node_id;
    assert_eq!(p.add_link((f, 0), (m, 0)), Ok(()));
    assert_eq!(p.graph.link_count(), 1);
}

#[test]
fn audio_feeds_cv_but_not_the_reverse() {
    let mut p = ProjectData::new();
    let (_, reader) = p.add_track("Song".to_string(), SignalKind::Audio, 2);
    let cv = p.add_node(cv_sink());
    assert_eq!(p.add_link((reader, 0), (cv, 0)), Ok(()));
    assert_eq!(
        p.add_link((cv, 0), (p.master_node_id, 0)),
        Err(EngineError::IncompatibleSockets { from: SignalKind::Cv, to: SignalKind::Audio })
    );
}

#[test]
fn incompatible_link_leaves_graph_unchanged() {
    let mut p = ProjectData::new();
    let midi = p.add_node(midi_source());
    let m = p.master_node_id;
    assert_eq!(
        p.add_link((midi, 0), (m, 0)),
        Err(EngineError::IncompatibleSockets { from: SignalKind::Midi, to: SignalKind::Audio })
    );
    assert_eq!(p.graph.link_count(), 0);
}

#[test]
fn link_to_missing_socket_is_refused() {
    let mut p = ProjectData::new();
    let m = p.master_node_id;
    let f = p.add_node(LowpassFilter::new(0).node());
    assert_eq!(p.add_link((f, 1), (m, 0)), Err(EngineError::NodeNotFound(f)));
    assert_eq!(p.add_link((f, 0), (m, 3)), Err(EngineError::NodeNotFound(m)));
    assert_eq!(p.graph.link_count(), 0);
}

#[test]
fn link_closing_a_cycle_is_refused() {
    let mut p = ProjectData::new();
    let a = p.add_node(LowpassFilter::new(0).node());
    let b = p.add_node(LowpassFilter::new(0).node());
    assert_eq!(p.add_link((a, 0), (b, 0)), Ok(()));
    assert_eq!(p.add_link((b, 0), (a, 0)), Err(EngineError::WouldCreateCycle));
    assert_eq!(p.add_link((a, 0), (a, 0)), Err(EngineError::WouldCreateCycle));
    assert_eq!(p.graph.link_count(), 1);
    assert!(p.graph.topo_sort().is_ok());
}

#[test]
fn remove_link_takes_out_links_between_sockets() {
    let mut p = ProjectData::new();
    let (_, reader) = p.add_track("Song".to_string(), SignalKind::Audio, 2);
    let m = p.master_node_id;
    p.add_link((reader, 0), (m, 0)).unwrap();
    assert_eq!(p.graph.link_count(), 1);
    assert_eq!(p.remove_link((reader, 0), (m, 0)), Ok(()));
    assert_eq!(p.graph.link_count(), 0);
    assert_eq!(p.remove_link((reader, 0), (m, 0)), Ok(()));
}

#[test]
fn topo_sort_puts_every_link_forward() {
    let mut p = ProjectData::new();
    let m = p.master_node_id;
    let (_, r1) = p.add_track("A".to_string(), SignalKind::Audio, 2);
    let (_, r2) = p.add_track("B".to_string(), SignalKind::Audio, 2);
    let f = p.add_node(LowpassFilter::new(0).node());
    p.add_link((r1, 0), (m, 0)).unwrap();
    p.add_link((r2, 0), (f, 0)).unwrap();
    p.add_link((f, 0), (m, 0)).unwrap();
    let order = p.graph.topo_sort().unwrap();
    assert_eq!(order.len(), 4);
    for id in p.graph.link_ids() {
        let l = p.graph.link(id).unwrap();
        assert!(position(&order, l.from.0) < position(&order, l.to.0));
    }
    assert!(position(&order, r1) < position(&order, m));
}

#[test]
fn empty_graph_sorts_to_nothing() {
    let g = NodeGraph::new();
    assert_eq!(g.topo_sort(), Ok(vec![]));
    assert_eq!(g.node_count(), 0);
}

#[test]
fn graph_add_node_and_purge() {
    let mut g = NodeGraph::new();
    let m = g.add_node(Master.node());
    let s = g.add_node(Sum::new().node());
    assert_eq!(g.add_node_input(s, SignalKind::Audio), Ok(0));
    assert_eq!(g.add_link((s, 0), (m, 0)), Ok(()));
    assert_eq!(g.link_count(), 1);
    g.purge(s);
    assert_eq!(g.node_count(), 1);
    assert_eq!(g.link_count(), 0);
    assert_eq!(g.topo_sort(), Ok(vec![m]));
}

#[test]
fn compile_single_track_project() {
    let mut p = ProjectData::new();
    let m = p.master_node_id;
    let (_, reader) = p.add_track("Song".to_string(), SignalKind::Audio, 2);
    p.add_link((reader, 0), (m, 0)).unwrap();
    let cg = p.compile_graph().unwrap();
    assert_eq!(cg.buffer_count, 3);
    assert_eq!(cg.master_output_slot, 2);
    assert_eq!(cg.steps.len(), 2);
    assert_eq!(cg.steps[0].node_id, reader);
    assert!(cg.steps[0].input_slots.is_empty());
    assert_eq!(cg.steps[0].output_slots, vec![1]);
    assert!(cg.steps[0].prep_sums.is_empty());
    assert_eq!(cg.steps[1].node_id, m);
    assert_eq!(cg.steps[1].input_slots, vec![1]);
    assert_eq!(cg.steps[1].output_slots, vec![2]);
    assert!(cg.steps[1].prep_sums.is_empty());
}

#[test]
fn compile_routes_unconnected_inputs_to_silence() {
    let p = ProjectData::new();
    let cg = p.compile_graph().unwrap();
    assert_eq!(cg.steps.len(), 1);
    assert_eq!(cg.steps[0].input_slots, vec![0]);
    assert_eq!(cg.steps[0].output_slots, vec![1]);
    assert_eq!(cg.master_output_slot, 1);
    assert_eq!(cg.buffer_count, 2);
}

#[test]
fn compile_sums_fan_in_into_scratch_slot() {
    let mut p = ProjectData::new();
    let (_, r1) = p.add_track("A".to_string(), SignalKind::Audio, 2);
    let (_, r2) = p.add_track("B".to_string(), SignalKind::Audio, 2);
    let m = p.master_node_id;
    p.add_link((r1, 0), (m, 0)).unwrap();
    p.add_link((r2, 0), (m, 0)).unwrap();
    let cg = p.compile_graph().unwrap();
    // two reader outputs, the master output, one scratch buffer, silence
    assert_eq!(cg.buffer_count, 5);
    let master_step = cg.steps.iter().find(|s| s.node_id == p.master_node_id).unwrap();
    assert_eq!(master_step.prep_sums.len(), 1);
    let sum = &master_step.prep_sums[0];
    assert_eq!(master_step.input_slots, vec![sum.target_scratch_slot]);
    assert_eq!(sum.target_scratch_slot, 4);
    let slot_of = |id: u64| cg.steps.iter().find(|s| s.node_id == id).unwrap().output_slots[0];
    let mut sources = sum.source_slots.clone();
    sources.sort();
    let mut expected = vec![slot_of(r1), slot_of(r2)];
    expected.sort();
    assert_eq!(sources, expected);
    assert_eq!(cg.master_output_slot, master_step.output_slots[0]);
}

#[test]
fn compile_takes_one_scratch_slot_per_fan_in_input() {
    let mut p = ProjectData::new();
    let m = p.master_node_id;
    let (_, r1) = p.add_track("A".to_string(), SignalKind::Audio, 2);
    let (_, r2) = p.add_track("B".to_string(), SignalKind::Audio, 2);
    let sum = p.add_node(Sum::new().node());
    assert_eq!(p.add_node_input(sum, SignalKind::Audio), Ok(0));
    assert_eq!(p.add_node_input(sum, SignalKind::Audio), Ok(1));
    for input in 0..2 {
        p.add_link((r1, 0), (sum, input)).unwrap();
        p.add_link((r2, 0), (sum, input)).unwrap();
    }
    p.add_link((sum, 0), (m, 0)).unwrap();
    let cg = p.compile_graph().unwrap();
    // silence, four outputs, two scratch buffers
    assert_eq!(cg.buffer_count, 7);
    let step = cg.steps.iter().find(|s| s.node_id == sum).unwrap();
    assert_eq!(step.prep_sums.len(), 2);
    assert_eq!(step.input_slots, vec![5, 6]);
    assert_eq!(step.prep_sums[0].target_scratch_slot, 5);
    assert_eq!(step.prep_sums[1].target_scratch_slot, 6);
}
