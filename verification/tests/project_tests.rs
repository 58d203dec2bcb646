use ms::project::{
    adopt_replacement, default_project, note_clip, project_file_name, stop_transport, ClipKind, DefaultSound,
    MixerState, NoteEvent, OscillatorWave, SynthConfig, SynthPreset, TrackKind,
};

fn mixer(volume: f32, pan: f32, delay_send: f32, reverb_send: f32) -> MixerState {
    MixerState {
        volume: volume.to_bits(),
        pan: pan.to_bits(),
        muted: false,
        solo: false,
        delay_send: delay_send.to_bits(),
        reverb_send: reverb_send.to_bits(),
    }
}

fn synth(preset: SynthPreset) -> SynthConfig {
    SynthConfig {
        preset,
        oscillator: OscillatorWave::Sawtooth,
        attack: 0.005f32.to_bits(),
        decay: 0.16f32.to_bits(),
        sustain: 0.45f32.to_bits(),
        release: 0.12f32.to_bits(),
        cutoff: 720.0f32.to_bits(),
        resonance: 5.0f32.to_bits(),
        detune: 0.0f32.to_bits(),
    }
}

fn sound() -> DefaultSound {
    DefaultSound {
        drums_mixer: mixer(0.88, 0.0, 0.08, 0.08),
        bass_mixer: mixer(0.78, 0.0, 0.05, 0.1),
        chords_mixer: mixer(0.52, -0.12, 0.25, 0.35),
        lead_mixer: mixer(0.5, 0.16, 0.28, 0.25),
        bass_synth: synth(SynthPreset::DeepBass),
        chords_synth: synth(SynthPreset::Pad),
        lead_synth: synth(SynthPreset::Lead),
        master_volume: 0.85f32.to_bits(),
    }
}

fn pattern(hits: &[usize]) -> Vec<bool> {
    (0..16).map(|i| hits.contains(&i)).collect()
}

#[test]
fn the_starter_project() {
    let p = default_project("jam-1", sound());
    assert_eq!(p.project_id, "jam-1");
    assert_eq!(p.name, "House Jam");
    assert_eq!(p.bpm, 124);
    assert_eq!(p.bars, 8);
    assert_eq!(p.steps_per_bar, 16);
    assert!(!p.playing);
    assert_eq!(p.start_at_ms, None);
    assert_eq!((p.loop_start_bar, p.loop_end_bar), (0, 8));
    assert_eq!(f32::from_bits(p.master_volume), 0.85);
    assert!(!p.is_public);
    assert_eq!(p.revision, 0);
    assert!(p.samples.is_empty());
    let ids: Vec<&str> = p.tracks.iter().map(|t| t.id.as_str()).collect();
    assert_eq!(ids, vec!["drums", "bass", "chords", "lead"]);
    let names: Vec<&str> = p.tracks.iter().map(|t| t.name.as_str()).collect();
    assert_eq!(names, vec!["Drums", "Deep Bass", "Chords", "Lead"]);
    assert_eq!(p.tracks[0].kind, TrackKind::Drums);
    assert_eq!(p.tracks[1].kind, TrackKind::Synth);
    assert_eq!(p.tracks[0].synth, None);
    assert_eq!(p.tracks[3].synth, Some(synth(SynthPreset::Lead)));
    assert_eq!(p.tracks[2].mixer, mixer(0.52, -0.12, 0.25, 0.35));
}

#[test]
fn the_starter_beat() {
    let p = default_project("jam-1", sound());
    let clip = &p.tracks[0].clips[0];
    assert_eq!(clip.id, "clip-drums");
    assert_eq!(clip.name, "House drums");
    assert_eq!(clip.kind, ClipKind::Drum);
    assert_eq!((clip.start_bar, clip.length_bars, clip.pattern_steps), (0, 8, 16));
    assert!(clip.looped);
    let voices = clip.drum_steps.as_ref().unwrap();
    let find = |name: &str| voices.iter().find(|v| v.voice == name).unwrap().steps.clone();
    assert_eq!(find("kick"), pattern(&[0, 4, 8, 12]));
    assert_eq!(find("clap"), pattern(&[4, 12]));
    assert_eq!(find("hat"), pattern(&[2, 6, 10, 14]));
    assert_eq!(find("open_hat"), pattern(&[6, 14]));
    assert_eq!(voices.len(), 4);
}

#[test]
fn the_starter_notes() {
    let p = default_project("jam-1", sound());
    let bass = &p.tracks[1].clips[0];
    assert_eq!(bass.id, "clip-bass");
    assert_eq!(bass.name, "Bassline");
    let notes = bass.notes.as_ref().unwrap();
    let summary: Vec<(String, u8, usize, usize, u8)> =
        notes.iter().map(|n| (n.id.clone(), n.note, n.start_step, n.duration_steps, n.velocity)).collect();
    assert_eq!(
        summary,
        vec![
            ("bass-0".to_string(), 36, 0, 1, 105),
            ("bass-1".to_string(), 36, 3, 1, 105),
            ("bass-2".to_string(), 36, 6, 1, 105),
            ("bass-3".to_string(), 39, 10, 1, 105),
            ("bass-4".to_string(), 36, 12, 1, 105),
        ]
    );

    let chords = p.tracks[2].clips[0].notes.as_ref().unwrap();
    let ids: Vec<&str> = chords.iter().map(|n| n.id.as_str()).collect();
    assert_eq!(ids, vec!["chord-a-0", "chord-a-1", "chord-a-2", "chord-b-0", "chord-b-1", "chord-b-2"]);
    let pitches: Vec<u8> = chords.iter().map(|n| n.note).collect();
    assert_eq!(pitches, vec![60, 63, 67, 58, 62, 65]);
    assert!(chords.iter().all(|n| n.duration_steps == 4));
    assert_eq!(chords[0].velocity, 78);
    assert_eq!(chords[3].start_step, 8);
    assert_eq!(chords[3].velocity, 76);

    let lead = &p.tracks[3].clips[0];
    assert_eq!(lead.name, "Lead idea");
    assert_eq!((lead.start_bar, lead.length_bars), (4, 4));
    let notes = lead.notes.as_ref().unwrap();
    let pitches: Vec<u8> = notes.iter().map(|n| n.note).collect();
    assert_eq!(pitches, vec![72, 75, 79, 77, 75, 72, 70]);
    let steps: Vec<usize> = notes.iter().map(|n| n.start_step).collect();
    assert_eq!(steps, vec![0, 2, 4, 7, 10, 12, 14]);
    assert_eq!(notes[6].id, "lead-6");
}

#[test]
fn note_clips() {
    let notes = vec![NoteEvent { id: "n".to_string(), note: 1, start_step: 2, duration_steps: 3, velocity: 4 }];
    let clip = note_clip("c", "Clip", 2, 3, notes);
    assert_eq!(clip.id, "c");
    assert_eq!(clip.kind, ClipKind::Notes);
    assert_eq!((clip.start_bar, clip.length_bars, clip.pattern_steps), (2, 3, 16));
    assert!(clip.looped);
    assert!(clip.drum_steps.is_none());
    assert!(clip.sample_triggers.is_none());
    assert_eq!(clip.notes.unwrap()[0].id, "n");
}

#[test]
fn stored_projects_are_stopped() {
    let mut p = default_project("jam-1", sound());
    p.playing = true;
    p.start_at_ms = Some(5);
    stop_transport(&mut p);
    assert!(!p.playing);
    assert_eq!(p.start_at_ms, None);
    assert_eq!(p.bpm, 124);
}

#[test]
fn replacements_take_the_request_id_and_the_next_revision() {
    let mut p = default_project("other", sound());
    p.revision = 41;
    adopt_replacement(&mut p, "jam-1");
    assert_eq!(p.project_id, "jam-1");
    assert_eq!(p.revision, 42);
    p.revision = u64::MAX;
    adopt_replacement(&mut p, "jam-1");
    assert_eq!(p.revision, u64::MAX);
}

#[test]
fn project_files() {
    assert_eq!(project_file_name("jam-1"), "jam-1.json");
    assert_eq!(project_file_name("../x y"), "xy.json");
}
