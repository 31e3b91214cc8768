use autark::block::{plan_block, BlockAction};
use autark::command::AddNodeInput;
use autark::graph::Socket;
use autark::nodes::{Sum, TrackReader};
use autark::graph::Param;
use autark::kind::{AudioKind, CvKind, DataKind, MidiKind, SignalKind};
use autark::tick::Tick;
use autark::track::{Track, UNITY_GAIN_BITS};
use autark::transport::{Transport, TransportState};

#[test]
fn tick_arithmetic_and_conversions() {
    assert_eq!(Tick::from_frames(48_000), Tick(48_000));
    assert_eq!(Tick::from_len(12usize), Tick(12));
    assert_eq!(Tick::from(7u64), Tick(7));
    assert_eq!(Tick::from(9usize), Tick(9));
    assert_eq!(Tick(100).add(Tick(28)), Tick(128));
    assert_eq!(Tick(128).sub(Tick(28)), Tick(100));
    assert_eq!(Tick(5).add(Tick(6)).sub(Tick(6)), Tick(5));
    assert!(Tick(3) < Tick(4));
}

#[test]
fn kinds_connect_to_themselves_and_audio_feeds_cv() {
    for k in [SignalKind::Audio, SignalKind::Midi, SignalKind::Cv] {
        assert!(k.can_connect_to(k));
    }
    assert!(SignalKind::Audio.can_connect_to(SignalKind::Cv));
    assert!(!SignalKind::Cv.can_connect_to(SignalKind::Audio));
    assert!(!SignalKind::Audio.can_connect_to(SignalKind::Midi));
    assert!(!SignalKind::Midi.can_connect_to(SignalKind::Audio));
    assert!(!SignalKind::Midi.can_connect_to(SignalKind::Cv));
}

#[test]
fn data_kind_markers() {
    assert_eq!(AudioKind.signal(), SignalKind::Audio);
    assert_eq!(MidiKind.signal(), SignalKind::Midi);
    assert_eq!(CvKind.signal(), SignalKind::Cv);
    assert!(DataKind::can_connect_to(&AudioKind, SignalKind::Cv));
    assert!(!DataKind::can_connect_to(&CvKind, SignalKind::Audio));
    assert!(DataKind::can_connect_to(&MidiKind, SignalKind::Midi));
}

#[test]
fn transport_starts_stopped_and_follows_play_and_stop() {
    let t = Transport::new();
    assert!(!t.is_playing());
    t.play();
    assert!(t.is_playing());
    t.stop();
    assert!(!t.is_playing());
}

#[test]
fn transport_codes_round_trip() {
    for s in [TransportState::Stopped, TransportState::Playing, TransportState::Recording, TransportState::Paused] {
        assert_eq!(TransportState::from_code(s.code()), Some(s));
    }
    assert_eq!(TransportState::Playing.code(), 1);
    assert_eq!(TransportState::from_code(4), None);
    assert!(TransportState::code_is_playing(1));
    assert!(!TransportState::code_is_playing(2));
}

#[test]
fn block_plan_renders_only_when_playing_with_a_graph() {
    let s = plan_block(1024, 2, 100, true, true);
    assert_eq!(s.start, Tick(100));
    assert_eq!(s.frames, 512);
    assert_eq!(s.next_playhead, 612);
    assert_eq!(s.action, BlockAction::Render);
    assert_eq!(plan_block(1024, 2, 100, false, true).action, BlockAction::Silence);
    assert_eq!(plan_block(1024, 2, 100, true, false).action, BlockAction::Silence);
    assert_eq!(plan_block(1024, 2, 100, false, false).next_playhead, 612);
    assert_eq!(plan_block(7, 2, 0, true, true).frames, 3);
    assert_eq!(plan_block(4, 1, u64::MAX, true, true).next_playhead, 3);
}

#[test]
fn param_shares_its_cell_between_handles() {
    let p = Param::new(440.0f32.to_bits());
    let q = p.share();
    let r = p.clone();
    assert_eq!(f32::from_bits(q.get()), 440.0);
    q.set(220.0f32.to_bits());
    assert_eq!(f32::from_bits(p.get()), 220.0);
    assert_eq!(f32::from_bits(r.get()), 220.0);
}

#[test]
fn new_track_is_empty_with_unity_gain() {
    let t = Track::new("Drums".to_string(), SignalKind::Audio);
    assert_eq!(t.name, "Drums");
    assert!(t.clips.is_empty());
    assert_eq!(f32::from_bits(t.gain_bits), 1.0);
    assert_eq!(t.gain_bits, UNITY_GAIN_BITS);
    assert_eq!(t.linked_node_id, None);
    let linked = t.with_link(Some(9));
    assert_eq!(linked.linked_node_id, Some(9));
    assert_eq!(linked.name, "Drums");
}

#[test]
fn sum_makes_inputs_one_past_the_last() {
    let mut s = Sum::new();
    assert!(s.inputs().is_empty());
    let first = s.input(0).unwrap();
    assert_eq!(first.name, "Input 0");
    assert_eq!(first.kind, SignalKind::Audio);
    assert!(first.visible);
    assert_eq!(s.input(0).unwrap().name, "Input 0");
    assert!(s.input(2).is_none());
    assert_eq!(s.input(1).unwrap().name, "Input 1");
    assert_eq!(s.inputs().len(), 2);
    assert_eq!(s.node().inputs.len(), 2);
    let mut r = TrackReader::new(3, 2);
    assert!(r.input(0).is_none());
    assert!(r.inputs().is_empty());
}

#[test]
fn socket_and_command_constructors() {
    let s = Socket::new(SignalKind::Midi, "notes", false);
    assert_eq!(s.kind, SignalKind::Midi);
    assert_eq!(s.name, "notes");
    assert!(!s.visible);
    let c = AddNodeInput::new(11, SignalKind::Cv);
    assert_eq!(c.node_id, 11);
    assert_eq!(c.kind, SignalKind::Cv);
}
