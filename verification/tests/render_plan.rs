use autark::asset::{Asset, AssetState, AudioAsset, AudioAssetData};
use autark::clip::{AudioClip, Clip};
use autark::kind::SignalKind;
use autark::nodes::TrackReader;
use autark::project::ProjectData;
use autark::render::ClipSpan;
use autark::tick::Tick;

fn data(frames: u64) -> AudioAssetData {
    AudioAssetData { frames, channels: 2, sample_rate: 48_000 }
}

#[test]
fn span_in_block_when_clip_starts_inside() {
    let c = AudioClip { start: Tick(100), length: Tick(50), asset_id: 3 };
    assert_eq!(
        c.span_in_block(Tick(64), Tick(128)),
        ClipSpan { asset_id: 3, source_frame: 0, dest_frame: 36, frames: 28 }
    );
}

#[test]
fn span_in_block_when_clip_started_before() {
    let c = AudioClip { start: Tick(10), length: Tick(100), asset_id: 7 };
    assert_eq!(
        c.span_in_block(Tick(50), Tick(200)),
        ClipSpan { asset_id: 7, source_frame: 40, dest_frame: 0, frames: 60 }
    );
}

#[test]
fn span_in_block_when_clip_covers_block() {
    let c = AudioClip { start: Tick(0), length: Tick(1000), asset_id: 1 };
    assert_eq!(
        c.span_in_block(Tick(256), Tick(512)),
        ClipSpan { asset_id: 1, source_frame: 256, dest_frame: 0, frames: 256 }
    );
}

#[test]
fn render_span_skips_missing_or_loading_assets() {
    let mut p = ProjectData::new();
    let pending = p.insert_asset(AudioAsset::new("a.wav".to_string()));
    let ready = p.insert_asset(AudioAsset::ready("b.wav".to_string(), data(500)));
    let c1 = AudioClip { start: Tick(0), length: Tick(500), asset_id: pending };
    assert_eq!(c1.render_span(&p, Tick(0), Tick(64)), None);
    let c2 = AudioClip { start: Tick(0), length: Tick(500), asset_id: ready };
    assert_eq!(
        c2.render_span(&p, Tick(0), Tick(64)),
        Some(ClipSpan { asset_id: ready, source_frame: 0, dest_frame: 0, frames: 64 })
    );
    let c3 = AudioClip { start: Tick(0), length: Tick(500), asset_id: 12345 };
    assert_eq!(c3.render_span(&p, Tick(0), Tick(64)), None);
}

#[test]
fn active_clips_lookback_then_block_clips_in_order() {
    let mut p = ProjectData::new();
    let (t, _) = p.add_track("Song".to_string(), SignalKind::Audio, 2);
    let early = p.add_clip_to_track(t, Tick(0), Tick(10), 1).unwrap();
    let long = p.add_clip_to_track(t, Tick(20), Tick(100), 1).unwrap();
    let in2 = p.add_clip_to_track(t, Tick(90), Tick(5), 1).unwrap();
    let in1 = p.add_clip_to_track(t, Tick(70), Tick(5), 1).unwrap();
    let after = p.add_clip_to_track(t, Tick(200), Tick(5), 1).unwrap();
    let track = p.track(t).unwrap();
    let ids = track.active_clips(&p.clips, Tick(64), Tick(128));
    assert_eq!(ids, vec![long, in1, in2]);
    assert!(!ids.contains(&early));
    assert!(!ids.contains(&after));
}

#[test]
fn active_clips_drop_a_lookback_that_ended() {
    let mut p = ProjectData::new();
    let (t, _) = p.add_track("Song".to_string(), SignalKind::Audio, 2);
    let _old = p.add_clip_to_track(t, Tick(0), Tick(64), 1).unwrap();
    let next = p.add_clip_to_track(t, Tick(64), Tick(64), 1).unwrap();
    let track = p.track(t).unwrap();
    assert_eq!(track.active_clips(&p.clips, Tick(64), Tick(128)), vec![next]);
    assert_eq!(track.active_clips(&p.clips, Tick(200), Tick(264)), Vec::<u64>::new());
}

#[test]
fn render_plan_lists_runs_of_loaded_clips() {
    let mut p = ProjectData::new();
    let ready = p.insert_asset(AudioAsset::ready("b.wav".to_string(), data(1000)));
    let pending = p.insert_asset(AudioAsset::new("c.wav".to_string()));
    let (t, _) = p.add_track("Song".to_string(), SignalKind::Audio, 2);
    p.add_clip_to_track(t, Tick(0), Tick(100), ready).unwrap();
    p.add_clip_to_track(t, Tick(80), Tick(10), pending).unwrap();
    p.add_clip_to_track(t, Tick(100), Tick(100), ready).unwrap();
    let track = p.track(t).unwrap();
    let plan = track.render_plan(&p, Tick(64), 64);
    assert_eq!(
        plan,
        vec![
            ClipSpan { asset_id: ready, source_frame: 64, dest_frame: 0, frames: 36 },
            ClipSpan { asset_id: ready, source_frame: 0, dest_frame: 36, frames: 28 },
        ]
    );
}

#[test]
fn reader_plans_its_track_or_nothing() {
    let mut p = ProjectData::new();
    let ready = p.insert_asset(AudioAsset::ready("b.wav".to_string(), data(1000)));
    let (t, _) = p.add_track("Song".to_string(), SignalKind::Audio, 2);
    p.add_clip_to_track(t, Tick(0), Tick(1000), ready).unwrap();
    let reader = TrackReader::new(t, 2);
    assert_eq!(
        reader.render_plan(&p, Tick(0), 32),
        vec![ClipSpan { asset_id: ready, source_frame: 0, dest_frame: 0, frames: 32 }]
    );
    p.remove_track(t).unwrap();
    assert!(reader.render_plan(&p, Tick(0), 32).is_empty());
}

#[test]
fn clip_trait_new_and_set_start() {
    let mut c = <AudioClip as Clip>::new(Tick(5), Tick(10), 2);
    assert_eq!(c, AudioClip { start: Tick(5), length: Tick(10), asset_id: 2 });
    c.set_start(Tick(40));
    assert_eq!(c, AudioClip { start: Tick(40), length: Tick(10), asset_id: 2 });
}

#[test]
fn asset_data_only_when_ready() {
    let a = AudioAsset::new("x.wav".to_string());
    assert!(a.data().is_none());
    assert!(matches!(a.state(), AssetState::Pending));
    let b = AudioAsset::ready("y.wav".to_string(), data(10));
    assert_eq!(b.data(), Some(&data(10)));
}

#[test]
fn track_without_clip_keeps_other_entries() {
    let mut p = ProjectData::new();
    let (t, _) = p.add_track("Song".to_string(), SignalKind::Audio, 2);
    let a = p.add_clip_to_track(t, Tick(0), Tick(10), 1).unwrap();
    let b = p.add_clip_to_track(t, Tick(20), Tick(10), 1).unwrap();
    let track = p.track(t).unwrap();
    let m = track.clips_without(a);
    assert_eq!(m.len(), 1);
    assert_eq!(m.get(&20), Some(&b));
}

#[test]
fn spans_stay_inside_block_and_clip() {
    let clips = [
        AudioClip { start: Tick(0), length: Tick(70), asset_id: 1 },
        AudioClip { start: Tick(100), length: Tick(10), asset_id: 1 },
        AudioClip { start: Tick(120), length: Tick(500), asset_id: 1 },
    ];
    let (bs, be) = (Tick(64), Tick(128));
    for c in clips {
        let s = c.span_in_block(bs, be);
        assert!(s.frames > 0);
        assert!(s.dest_frame + s.frames <= be.0 - bs.0);
        assert!(s.source_frame + s.frames <= c.length.0);
        assert_eq!(bs.0 + s.dest_frame, c.start.0 + s.source_frame);
    }
}

#[test]
fn active_clips_are_the_same_on_every_call() {
    let mut p = ProjectData::new();
    let (t, _) = p.add_track("Song".to_string(), SignalKind::Audio, 2);
    for start in [5u64, 40, 41, 90, 300] {
        p.add_clip_to_track(t, Tick(start), Tick(30), 1).unwrap();
    }
    let track = p.track(t).unwrap();
    let a = track.active_clips(&p.clips, Tick(32), Tick(96));
    let b = track.active_clips(&p.clips, Tick(32), Tick(96));
    assert_eq!(a, b);
    assert_eq!(a.len(), 4);
}

#[test]
fn renders_block_flags_clips_that_would_stop_rendering() {
    let mut p = ProjectData::new();
    let ready = p.insert_asset(AudioAsset::ready("b.wav".to_string(), data(1000)));
    let (t, _) = p.add_track("Song".to_string(), SignalKind::Audio, 2);
    let c = p.add_clip_to_track(t, Tick(0), Tick(100), ready).unwrap();
    assert!(p.track(t).unwrap().renders_block(&p, Tick(0), 64));
    // moved away from its key's block without a length that reaches it
    p.add_clip_to_track(t, Tick(200), Tick(0), ready).unwrap();
    assert!(!p.track(t).unwrap().renders_block(&p, Tick(192), 64));
    assert!(p.track(t).unwrap().renders_block(&p, Tick(0), 64));
    let _ = c;
}

#[test]
fn overlaps_block_matches_span_rules() {
    let c = AudioClip { start: Tick(100), length: Tick(50), asset_id: 3 };
    assert!(c.overlaps_block(Tick(64), Tick(128)));
    assert!(!c.overlaps_block(Tick(0), Tick(100)));
    assert!(!c.overlaps_block(Tick(150), Tick(200)));
    let end_past = AudioClip { start: Tick(u64::MAX), length: Tick(2), asset_id: 3 };
    assert!(!end_past.overlaps_block(Tick(0), Tick(10)));
}
