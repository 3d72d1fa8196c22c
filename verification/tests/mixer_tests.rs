use padsound::audio::engine::{runtime_update_for_track, track_frame_range, TrackTiming};
use padsound::audio::mixer::{Mixer, Voice};
use padsound::audio::track::{FadeShape, LoadedTrack};
use padsound::command::{Command, TrackRuntimeUpdate};
use padsound::config::{FadeConfig, FadeCurve, PlaybackMode, TrackConfig};

/// The output frame the audio side builds from the voices (linear fades
/// only): each voice adds its sample, scaled by its volume and the smallest
/// fade gain present, clamped to [-1, 1].
fn mix(voices: &[Voice], samples: &[f32], channels: usize, out_channels: usize) -> Vec<f32> {
    let mut out = vec![0.0f32; out_channels];
    for v in voices {
        let mut factor = 1.0f32;
        for fade in [v.fade_in, v.fade_out, v.manual_fade_out].into_iter().flatten() {
            let progress = (fade.position as f64 / fade.length as f64).clamp(0.0, 1.0) as f32;
            factor = factor.min(progress);
        }
        for (ch, sample) in out.iter_mut().enumerate() {
            let source = ch.min(channels - 1);
            *sample += samples[v.frame * channels + source] * f32::from_bits(v.volume) * factor;
        }
    }
    out.into_iter().map(|s| s.clamp(-1.0, 1.0)).collect()
}

fn intro(frame_count: usize, sample_rate: u32) -> LoadedTrack {
    LoadedTrack {
        id: "intro".to_string(),
        name: "Intro".to_string(),
        channels: 2,
        sample_rate,
        frame_count,
        start_frame: 0,
        end_frame: frame_count,
        mode: PlaybackMode::Toggle,
        looping: false,
        fade_in: None,
        fade_out: None,
        default_volume: 1.0f32.to_bits(),
    }
}

fn cmd_toggle() -> Command {
    Command::Toggle { track_id: "intro".to_string() }
}

#[test]
fn toggle_starts_and_stops_track() {
    let samples = [0.5f32, 0.5, 0.25, 0.25];
    let mut mixer = Mixer::new(vec![intro(2, 48_000)]);

    mixer.handle_command(cmd_toggle());
    let voices = mixer.advance_frame();
    assert_eq!(mix(&voices, &samples, 2, 2), vec![0.5, 0.5]);

    mixer.handle_command(cmd_toggle());
    let voices = mixer.advance_frame();
    assert_eq!(mix(&voices, &samples, 2, 2), vec![0.0, 0.0]);
}

#[test]
fn volume_change_applies_to_future_playback() {
    let samples = [1.0f32, 1.0];
    let mut mixer = Mixer::new(vec![intro(1, 48_000)]);

    mixer.handle_command(Command::SetVolume {
        track_id: "intro".to_string(),
        volume: 0.25f32.to_bits(),
    });
    mixer.handle_command(Command::Play { track_id: "intro".to_string() });
    let voices = mixer.advance_frame();

    assert_eq!(mix(&voices, &samples, 2, 2), vec![0.25, 0.25]);
}

#[test]
fn fade_in_scales_start_of_playback() {
    let samples = [1.0f32, 1.0, 1.0, 1.0];
    let mut track = intro(2, 2);
    // 0.5 s at 2 Hz.
    track.fade_in = Some(FadeShape { frames: 1, curve: FadeCurve::Linear });
    let mut mixer = Mixer::new(vec![track]);

    mixer.handle_command(Command::Play { track_id: "intro".to_string() });
    let voices = mixer.advance_frame();
    assert_eq!(mix(&voices, &samples, 2, 2), vec![0.0, 0.0]);
    let voices = mixer.advance_frame();
    assert_eq!(mix(&voices, &samples, 2, 2), vec![1.0, 1.0]);
}

#[test]
fn manual_stop_uses_fade_out() {
    let samples = [1.0f32, 1.0, 1.0, 1.0, 1.0, 1.0];
    let mut track = intro(3, 2);
    // 1.0 s at 2 Hz.
    track.fade_out = Some(FadeShape { frames: 2, curve: FadeCurve::Linear });
    let mut mixer = Mixer::new(vec![track]);

    mixer.handle_command(Command::Play { track_id: "intro".to_string() });
    mixer.handle_command(Command::Stop { track_id: "intro".to_string() });
    let voices = mixer.advance_frame();
    assert_eq!(mix(&voices, &samples, 2, 2), vec![1.0, 1.0]);
    let voices = mixer.advance_frame();
    assert_eq!(mix(&voices, &samples, 2, 2), vec![0.5, 0.5]);
    let voices = mixer.advance_frame();
    assert_eq!(mix(&voices, &samples, 2, 2), vec![0.0, 0.0]);
}

#[test]
fn voices_carry_frame_volume_and_fades() {
    let mut track = intro(4, 48_000);
    track.fade_in = Some(FadeShape { frames: 2, curve: FadeCurve::EqualPower });
    let mut mixer = Mixer::new(vec![track]);
    mixer.handle_command(Command::Play { track_id: "intro".to_string() });
    let v = mixer.advance_frame();
    assert_eq!(v.len(), 1);
    assert_eq!(v[0].track_index, 0);
    assert_eq!(v[0].frame, 0);
    assert_eq!(v[0].volume, 1.0f32.to_bits());
    let fade = v[0].fade_in.expect("fade in");
    assert_eq!((fade.position, fade.length, fade.curve), (0, 2, FadeCurve::EqualPower));
    let v = mixer.advance_frame();
    assert_eq!(v[0].frame, 1);
    assert_eq!(v[0].fade_in.expect("fade in").position, 1);
}

#[test]
fn looping_track_wraps_to_its_start() {
    let mut track = intro(3, 48_000);
    track.looping = true;
    track.start_frame = 1;
    let mut mixer = Mixer::new(vec![track]);
    mixer.handle_command(Command::Play { track_id: "intro".to_string() });
    let frames: Vec<usize> = (0..5).map(|_| mixer.advance_frame()[0].frame).collect();
    assert_eq!(frames, vec![1, 2, 1, 2, 1]);
}

#[test]
fn finished_track_stops_playing() {
    let mut mixer = Mixer::new(vec![intro(1, 48_000)]);
    mixer.handle_command(Command::Play { track_id: "intro".to_string() });
    assert_eq!(mixer.advance_frame().len(), 1);
    assert!(mixer.advance_frame().is_empty());
    assert!(!mixer.runtime_state()[0].is_playing);
}

#[test]
fn stop_all_silences_everything() {
    let mut other = intro(8, 48_000);
    other.id = "other".to_string();
    let mut mixer = Mixer::new(vec![intro(8, 48_000), other]);
    mixer.handle_command(Command::Play { track_id: "intro".to_string() });
    mixer.handle_command(Command::Play { track_id: "other".to_string() });
    assert_eq!(mixer.advance_frame().len(), 2);
    mixer.handle_command(Command::StopAll);
    assert!(mixer.advance_frame().is_empty());
}

#[test]
fn hold_commands_start_and_stop() {
    let mut mixer = Mixer::new(vec![intro(8, 48_000)]);
    mixer.handle_command(Command::HoldStart { track_id: "intro".to_string() });
    assert!(mixer.runtime_state()[0].is_playing);
    mixer.handle_command(Command::HoldEnd { track_id: "intro".to_string() });
    assert!(!mixer.runtime_state()[0].is_playing);
    mixer.handle_command(Command::Play { track_id: "nobody".to_string() });
    assert!(mixer.advance_frame().is_empty());
}

#[test]
fn volume_is_clamped_and_reported() {
    let mut mixer = Mixer::new(vec![intro(8, 48_000)]);
    mixer.handle_command(Command::SetVolume {
        track_id: "intro".to_string(),
        volume: 3.0f32.to_bits(),
    });
    assert_eq!(f32::from_bits(mixer.runtime_state()[0].volume), 1.0);
    mixer.handle_command(Command::SetVolume {
        track_id: "intro".to_string(),
        volume: (-2.0f32).to_bits(),
    });
    assert_eq!(f32::from_bits(mixer.runtime_state()[0].volume), 0.0);
    let state = mixer.runtime_state();
    assert_eq!(state[0].track_id, "intro");
    assert_eq!(state[0].sample_rate, 48_000);
}

#[test]
fn runtime_update_retunes_the_track() {
    let mut mixer = Mixer::new(vec![intro(10, 48_000)]);
    mixer.handle_command(Command::Play { track_id: "intro".to_string() });
    mixer.advance_frame();
    let update = TrackRuntimeUpdate {
        mode: PlaybackMode::Hold,
        looping: true,
        start_frame: 4,
        end_frame: 6,
        fade_in: None,
        fade_out: None,
        default_volume: 0.5f32.to_bits(),
    };
    mixer.handle_command(Command::UpdateTrackRuntime { track_id: "intro".to_string(), update });
    // The playing instance at frame 1 lies outside 4..6 and stops.
    assert!(mixer.advance_frame().is_empty());
    assert_eq!(mixer.tracks()[0].start_frame, 4);
    assert_eq!(mixer.tracks()[0].mode, PlaybackMode::Hold);
    mixer.handle_command(Command::Play { track_id: "intro".to_string() });
    let v = mixer.advance_frame();
    assert_eq!((v[0].frame, f32::from_bits(v[0].volume)), (4, 0.5));
}

#[test]
fn offsets_become_frame_ranges() {
    let timing = TrackTiming {
        start_frames: 10,
        stop_before_frames: 20,
        fade_in_frames: 0,
        fade_out_frames: 5,
    };
    assert_eq!(track_frame_range(100, &timing), Some((10, 80)));
    assert_eq!(track_frame_range(25, &timing), None);
    let mut t = TrackConfig {
        id: "a".to_string(),
        name: "A".to_string(),
        file: "a.wav".to_string(),
        key: Some("1".to_string()),
        mode: PlaybackMode::Toggle,
        looping: false,
        start_at: 0,
        stop_before_end: 0,
        fade_in: None,
        fade_out: Some(FadeConfig { seconds: 1.0f64.to_bits(), curve: FadeCurve::Exponential }),
        volume: 1.0f32.to_bits(),
        midi_note: None,
        midi_volume_cc: None,
    };
    let u = runtime_update_for_track(&t, 100, &timing).expect("range");
    assert_eq!((u.start_frame, u.end_frame), (10, 80));
    assert_eq!(u.fade_out, Some(FadeShape { frames: 5, curve: FadeCurve::Exponential }));
    assert_eq!(u.fade_in, None);
    t.looping = true;
    assert!(runtime_update_for_track(&t, 25, &timing).is_none());
}

#[test]
fn track_without_loop_plays_its_range_once() {
    let mut track = intro(5, 48_000);
    track.start_frame = 1;
    track.end_frame = 4;
    let mut mixer = Mixer::new(vec![track]);
    mixer.handle_command(Command::Play { track_id: "intro".to_string() });
    let frames: Vec<usize> = (0..3).map(|_| mixer.advance_frame()[0].frame).collect();
    assert_eq!(frames, vec![1, 2, 3]);
    assert!(mixer.runtime_state()[0].is_playing);
    assert!(mixer.advance_frame().is_empty());
    assert!(!mixer.runtime_state()[0].is_playing);
    assert!(mixer.advance_frame().is_empty());
}

#[test]
fn runtime_update_keeps_instances_inside_the_range() {
    let mut mixer = Mixer::new(vec![intro(10, 48_000)]);
    mixer.handle_command(Command::Play { track_id: "intro".to_string() });
    mixer.advance_frame();
    mixer.advance_frame();
    let bad = TrackRuntimeUpdate {
        mode: PlaybackMode::Toggle,
        looping: false,
        start_frame: 3,
        end_frame: 11,
        fade_in: None,
        fade_out: None,
        default_volume: 0.5f32.to_bits(),
    };
    mixer.handle_command(Command::UpdateTrackRuntime { track_id: "intro".to_string(), update: bad });
    assert_eq!(mixer.tracks()[0].end_frame, 10);
    let update = TrackRuntimeUpdate { start_frame: 1, end_frame: 5, default_volume: 2.0f32.to_bits(), ..bad };
    mixer.handle_command(Command::UpdateTrackRuntime { track_id: "intro".to_string(), update });
    let v = mixer.advance_frame();
    assert_eq!((v[0].frame, f32::from_bits(v[0].volume)), (2, 1.0));
    assert_eq!(mixer.tracks()[0].default_volume, 1.0f32.to_bits());
}
