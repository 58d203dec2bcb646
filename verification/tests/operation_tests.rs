use ms::operation::{apply_operation, operation_panics, ProjectOperation};
use ms::project::{
    default_project, Clip, ClipKind, DefaultSound, MixerState, OscillatorWave, ProjectState, SampleAsset,
    SynthConfig, SynthPreset, Track, TrackKind,
};

const NOW: u128 = 1_700_000_000_123;

fn mixer(volume: f32) -> MixerState {
    MixerState {
        volume: volume.to_bits(),
        pan: 0.0f32.to_bits(),
        muted: false,
        solo: false,
        delay_send: 0.1f32.to_bits(),
        reverb_send: 0.1f32.to_bits(),
    }
}

fn synth(preset: SynthPreset) -> SynthConfig {
    SynthConfig {
        preset,
        oscillator: OscillatorWave::Square,
        attack: 0.002f32.to_bits(),
        decay: 0.12f32.to_bits(),
        sustain: 0.18f32.to_bits(),
        release: 0.09f32.to_bits(),
        cutoff: 2600.0f32.to_bits(),
        resonance: 4.0f32.to_bits(),
        detune: 0.0f32.to_bits(),
    }
}

fn project() -> ProjectState {
    default_project(
        "jam",
        DefaultSound {
            drums_mixer: mixer(0.88),
            bass_mixer: mixer(0.78),
            chords_mixer: mixer(0.52),
            lead_mixer: mixer(0.5),
            bass_synth: synth(SynthPreset::DeepBass),
            chords_synth: synth(SynthPreset::Pad),
            lead_synth: synth(SynthPreset::Lead),
            master_volume: 0.85f32.to_bits(),
        },
    )
}

fn apply(p: &mut ProjectState, op: ProjectOperation) {
    assert!(!operation_panics(p, &op));
    apply_operation(p, op, NOW);
}

fn sampler_track(id: &str) -> Track {
    Track {
        id: id.to_string(),
        name: "Sampler".to_string(),
        kind: TrackKind::Sampler,
        mixer: mixer(1.0),
        synth: None,
        sample_id: None,
        clips: Vec::new(),
    }
}

fn sample_clip(id: &str) -> Clip {
    Clip {
        id: id.to_string(),
        name: "Hits".to_string(),
        kind: ClipKind::Sample,
        start_bar: 0,
        length_bars: 1,
        looped: true,
        pattern_steps: 16,
        drum_steps: None,
        notes: None,
        sample_triggers: None,
    }
}

#[test]
fn every_operation_moves_the_revision_on() {
    let mut p = project();
    apply(&mut p, ProjectOperation::SetPublic { is_public: true });
    assert!(p.is_public);
    assert_eq!(p.revision, 1);
    apply(&mut p, ProjectOperation::DeleteClip { track_id: "nope".to_string(), clip_id: "x".to_string() });
    assert_eq!(p.revision, 2);
    p.revision = u64::MAX;
    apply(&mut p, ProjectOperation::SetBpm { bpm: 100 });
    assert_eq!(p.revision, u64::MAX);
}

#[test]
fn renaming_the_project_cleans_the_name() {
    let mut p = project();
    apply(&mut p, ProjectOperation::RenameProject { name: format!("  New\u{7} {}  ", "x".repeat(100)) });
    assert_eq!(p.name, format!("New {}", "x".repeat(74)));
}

#[test]
fn tempo_is_clamped() {
    let mut p = project();
    apply(&mut p, ProjectOperation::SetBpm { bpm: 10 });
    assert_eq!(p.bpm, 50);
    apply(&mut p, ProjectOperation::SetBpm { bpm: 300 });
    assert_eq!(p.bpm, 220);
    apply(&mut p, ProjectOperation::SetBpm { bpm: 128 });
    assert_eq!(p.bpm, 128);
}

#[test]
fn bars_are_clamped_and_keep_the_loop_inside() {
    let mut p = project();
    apply(&mut p, ProjectOperation::SetBars { bars: 100 });
    assert_eq!(p.bars, 64);
    assert_eq!((p.loop_start_bar, p.loop_end_bar), (0, 8));
    apply(&mut p, ProjectOperation::SetBars { bars: 0 });
    assert_eq!(p.bars, 1);
    assert_eq!((p.loop_start_bar, p.loop_end_bar), (0, 1));

    let mut q = project();
    apply(&mut q, ProjectOperation::SetLoop { start_bar: 6, end_bar: 8 });
    apply(&mut q, ProjectOperation::SetBars { bars: 4 });
    assert_eq!((q.bars, q.loop_start_bar, q.loop_end_bar), (4, 0, 4));
}

#[test]
fn loops_stay_within_the_bars() {
    let mut p = project();
    apply(&mut p, ProjectOperation::SetLoop { start_bar: 2, end_bar: 5 });
    assert_eq!((p.loop_start_bar, p.loop_end_bar), (2, 5));
    apply(&mut p, ProjectOperation::SetLoop { start_bar: 20, end_bar: 0 });
    assert_eq!((p.loop_start_bar, p.loop_end_bar), (7, 8));
    apply(&mut p, ProjectOperation::SetLoop { start_bar: 3, end_bar: 3 });
    assert_eq!((p.loop_start_bar, p.loop_end_bar), (3, 4));
}

#[test]
fn stopping_forgets_the_start_time() {
    let mut p = project();
    apply(&mut p, ProjectOperation::SetPlaying { playing: true, start_at_ms: Some(99) });
    assert!(p.playing);
    assert_eq!(p.start_at_ms, Some(99));
    apply(&mut p, ProjectOperation::SetPlaying { playing: false, start_at_ms: Some(100) });
    assert!(!p.playing);
    assert_eq!(p.start_at_ms, None);
}

#[test]
fn master_volume_is_stored() {
    let mut p = project();
    apply(&mut p, ProjectOperation::SetMasterVolume { volume: 0.5f32.to_bits() });
    assert_eq!(f32::from_bits(p.master_volume), 0.5);
}

#[test]
fn tracks_are_added_up_to_a_limit() {
    let mut p = project();
    for i in 0..70 {
        apply(&mut p, ProjectOperation::AddTrack { track: sampler_track(&format!("s{i}")) });
    }
    assert_eq!(p.tracks.len(), 64);
    assert_eq!(p.tracks[4].id, "s0");
    assert_eq!(p.tracks[63].id, "s59");
}

#[test]
fn deleting_tracks_keeps_the_last_one() {
    let mut p = project();
    apply(&mut p, ProjectOperation::DeleteTrack { track_id: "bass".to_string() });
    let ids: Vec<&str> = p.tracks.iter().map(|t| t.id.as_str()).collect();
    assert_eq!(ids, vec!["drums", "chords", "lead"]);
    apply(&mut p, ProjectOperation::DeleteTrack { track_id: "chords".to_string() });
    apply(&mut p, ProjectOperation::DeleteTrack { track_id: "lead".to_string() });
    apply(&mut p, ProjectOperation::DeleteTrack { track_id: "drums".to_string() });
    assert_eq!(p.tracks.len(), 1);
    assert_eq!(p.tracks[0].id, "drums");
}

#[test]
fn track_settings() {
    let mut p = project();
    apply(&mut p, ProjectOperation::RenameTrack { track_id: "lead".to_string(), name: "  Hook ".to_string() });
    assert_eq!(p.tracks[3].name, "Hook");
    apply(&mut p, ProjectOperation::SetTrackMixer { track_id: "bass".to_string(), mixer: mixer(0.25) });
    assert_eq!(p.tracks[1].mixer, mixer(0.25));
    apply(&mut p, ProjectOperation::SetSynth { track_id: "drums".to_string(), synth: synth(SynthPreset::Acid) });
    assert_eq!(p.tracks[0].synth, Some(synth(SynthPreset::Acid)));
    apply(&mut p, ProjectOperation::SetSamplerAsset {
        track_id: "chords".to_string(),
        sample_id: Some("sample-1".to_string()),
    });
    assert_eq!(p.tracks[2].sample_id, Some("sample-1".to_string()));
    apply(&mut p, ProjectOperation::RenameTrack { track_id: "ghost".to_string(), name: "X".to_string() });
    let names: Vec<&str> = p.tracks.iter().map(|t| t.name.as_str()).collect();
    assert_eq!(names, vec!["Drums", "Deep Bass", "Chords", "Hook"]);
}

#[test]
fn clips_are_added_moved_resized_renamed_and_deleted() {
    let mut p = project();
    apply(&mut p, ProjectOperation::AddTrack { track: sampler_track("smp") });
    apply(&mut p, ProjectOperation::AddClip { track_id: "smp".to_string(), clip: sample_clip("c1") });
    apply(&mut p, ProjectOperation::AddClip { track_id: "smp".to_string(), clip: sample_clip("c2") });
    assert_eq!(p.tracks[4].clips.len(), 2);

    apply(&mut p, ProjectOperation::MoveClip { track_id: "smp".to_string(), clip_id: "c1".to_string(), start_bar: 50 });
    assert_eq!(p.tracks[4].clips[0].start_bar, 7);
    assert_eq!(p.tracks[4].clips[1].start_bar, 0);
    apply(&mut p, ProjectOperation::ResizeClip {
        track_id: "smp".to_string(),
        clip_id: "c1".to_string(),
        length_bars: 0,
    });
    assert_eq!(p.tracks[4].clips[0].length_bars, 1);
    apply(&mut p, ProjectOperation::ResizeClip {
        track_id: "smp".to_string(),
        clip_id: "c1".to_string(),
        length_bars: 99,
    });
    assert_eq!(p.tracks[4].clips[0].length_bars, 8);
    apply(&mut p, ProjectOperation::RenameClip {
        track_id: "smp".to_string(),
        clip_id: "c2".to_string(),
        name: "\u{1}Fill".to_string(),
    });
    assert_eq!(p.tracks[4].clips[1].name, "Fill");
    apply(&mut p, ProjectOperation::DeleteClip { track_id: "smp".to_string(), clip_id: "c1".to_string() });
    assert_eq!(p.tracks[4].clips.len(), 1);
    assert_eq!(p.tracks[4].clips[0].id, "c2");
}

#[test]
fn a_track_holds_at_most_128_clips() {
    let mut p = project();
    for i in 0..130 {
        apply(&mut p, ProjectOperation::AddClip { track_id: "bass".to_string(), clip: sample_clip(&format!("k{i}")) });
    }
    assert_eq!(p.tracks[1].clips.len(), 128);
}

#[test]
fn drum_steps_toggle() {
    let mut p = project();
    let set = |step: usize, enabled: bool| ProjectOperation::SetDrumStep {
        track_id: "drums".to_string(),
        clip_id: "clip-drums".to_string(),
        voice: "kick".to_string(),
        step,
        enabled,
    };
    let kick = |p: &ProjectState| {
        p.tracks[0].clips[0].drum_steps.as_ref().unwrap().iter().find(|v| v.voice == "kick").unwrap().steps.clone()
    };
    apply(&mut p, set(1, true));
    assert!(kick(&p)[1]);
    apply(&mut p, set(0, false));
    assert!(!kick(&p)[0]);
    apply(&mut p, set(16, true));
    assert_eq!(kick(&p).len(), 16);
    apply(&mut p, ProjectOperation::SetDrumStep {
        track_id: "drums".to_string(),
        clip_id: "clip-drums".to_string(),
        voice: "cowbell".to_string(),
        step: 3,
        enabled: true,
    });
    assert_eq!(p.tracks[0].clips[0].drum_steps.as_ref().unwrap().len(), 4);
}

#[test]
fn note_cells_toggle() {
    let mut p = project();
    let cell = |enabled: bool, velocity: u8, duration_steps: usize| ProjectOperation::SetNoteCell {
        track_id: "bass".to_string(),
        clip_id: "clip-bass".to_string(),
        step: 3,
        note: 40,
        enabled,
        velocity,
        duration_steps,
    };
    apply(&mut p, cell(true, 0, 100));
    let notes = p.tracks[1].clips[0].notes.as_ref().unwrap();
    assert_eq!(notes.len(), 6);
    let added = &notes[5];
    assert_eq!(added.id, "note-1700000000123");
    assert_eq!((added.note, added.start_step, added.duration_steps, added.velocity), (40, 3, 64, 1));

    apply(&mut p, cell(true, 200, 2));
    let notes = p.tracks[1].clips[0].notes.as_ref().unwrap();
    assert_eq!(notes.len(), 6);
    assert_eq!((notes[5].duration_steps, notes[5].velocity), (2, 127));

    apply(&mut p, cell(false, 1, 1));
    assert_eq!(p.tracks[1].clips[0].notes.as_ref().unwrap().len(), 5);

    // Removing the bass note at step 3 (pitch 36) leaves the others.
    apply(&mut p, ProjectOperation::SetNoteCell {
        track_id: "bass".to_string(),
        clip_id: "clip-bass".to_string(),
        step: 3,
        note: 36,
        enabled: false,
        velocity: 1,
        duration_steps: 1,
    });
    let ids: Vec<&str> = p.tracks[1].clips[0].notes.as_ref().unwrap().iter().map(|n| n.id.as_str()).collect();
    assert_eq!(ids, vec!["bass-0", "bass-2", "bass-3", "bass-4"]);
}

#[test]
fn sample_steps_toggle() {
    let mut p = project();
    apply(&mut p, ProjectOperation::AddTrack { track: sampler_track("smp") });
    apply(&mut p, ProjectOperation::AddClip { track_id: "smp".to_string(), clip: sample_clip("c") });
    let step = |step: usize, enabled: bool, velocity: u8| ProjectOperation::SetSampleStep {
        track_id: "smp".to_string(),
        clip_id: "c".to_string(),
        step,
        enabled,
        velocity,
    };
    apply(&mut p, step(4, true, 0));
    apply(&mut p, step(8, true, 255));
    apply(&mut p, step(4, true, 90));
    let triggers = p.tracks[4].clips[0].sample_triggers.clone().unwrap();
    let pairs: Vec<(usize, u8)> = triggers.iter().map(|t| (t.step, t.velocity)).collect();
    assert_eq!(pairs, vec![(8, 127), (4, 90)]);
    apply(&mut p, step(8, false, 1));
    let triggers = p.tracks[4].clips[0].sample_triggers.clone().unwrap();
    assert_eq!(triggers.len(), 1);
    assert_eq!(triggers[0].step, 4);
}

#[test]
fn repeating_a_sample_step_changes_nothing() {
    let mut p = project();
    apply(&mut p, ProjectOperation::AddTrack { track: sampler_track("smp") });
    apply(&mut p, ProjectOperation::AddClip { track_id: "smp".to_string(), clip: sample_clip("c") });
    let step = || ProjectOperation::SetSampleStep {
        track_id: "smp".to_string(),
        clip_id: "c".to_string(),
        step: 2,
        enabled: true,
        velocity: 60,
    };
    apply(&mut p, step());
    let once: Vec<(usize, u8)> =
        p.tracks[4].clips[0].sample_triggers.as_ref().unwrap().iter().map(|t| (t.step, t.velocity)).collect();
    apply(&mut p, step());
    let twice: Vec<(usize, u8)> =
        p.tracks[4].clips[0].sample_triggers.as_ref().unwrap().iter().map(|t| (t.step, t.velocity)).collect();
    assert_eq!(once, vec![(2, 60)]);
    assert_eq!(once, twice);
}

#[test]
fn drum_voice_names_stay_distinct() {
    let mut p = project();
    let names = |p: &ProjectState| {
        let mut v: Vec<String> =
            p.tracks[0].clips[0].drum_steps.as_ref().unwrap().iter().map(|d| d.voice.clone()).collect();
        v.sort();
        v
    };
    assert_eq!(names(&p), vec!["clap", "hat", "kick", "open_hat"]);
    apply(&mut p, ProjectOperation::SetDrumStep {
        track_id: "drums".to_string(),
        clip_id: "clip-drums".to_string(),
        voice: "hat".to_string(),
        step: 3,
        enabled: true,
    });
    assert_eq!(names(&p), vec!["clap", "hat", "kick", "open_hat"]);
}

#[test]
fn sample_assets_are_added_once() {
    let mut p = project();
    let asset = |name: &str| SampleAsset {
        id: "sample-1-1".to_string(),
        name: name.to_string(),
        url: "/samples/1-1.wav".to_string(),
    };
    apply(&mut p, ProjectOperation::AddSampleAsset { asset: asset("first") });
    apply(&mut p, ProjectOperation::AddSampleAsset { asset: asset("second") });
    assert_eq!(p.samples.len(), 1);
    assert_eq!(p.samples[0].name, "first");
}

#[test]
fn resizing_a_clip_of_a_project_without_bars_is_refused() {
    let mut p = project();
    p.bars = 0;
    let resize = ProjectOperation::ResizeClip {
        track_id: "drums".to_string(),
        clip_id: "clip-drums".to_string(),
        length_bars: 2,
    };
    assert!(operation_panics(&p, &resize));
    let missing = ProjectOperation::ResizeClip {
        track_id: "drums".to_string(),
        clip_id: "nope".to_string(),
        length_bars: 2,
    };
    assert!(!operation_panics(&p, &missing));
    p.bars = 1;
    assert!(!operation_panics(&p, &resize));
}
