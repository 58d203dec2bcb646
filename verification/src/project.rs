//! The collaborative project document: tracks of clips on a bar grid, the
//! transport, the mixer and synth settings and the uploaded samples.
//!
//! Levels, pans, sends and synth parameters are 32-bit floats in the wire
//! format. The library never computes with them: it carries each as the bit
//! pattern of the float (`f32::to_bits`), and the server bounds them before
//! they reach an operation.
use vstd::prelude::*;

use crate::text::{clean_name, push_decimal, decimal, spec_clean_name, str_eq};

verus! {

#[derive(Debug, Clone, Copy, PartialEq, Eq, Structural)]
pub enum TrackKind {
    Drums,
    Synth,
    Sampler,
}

#[derive(Debug, Clone, Copy, PartialEq, Eq, Structural)]
pub enum ClipKind {
    Drum,
    Notes,
    Sample,
}

#[derive(Debug, Clone, Copy, PartialEq, Eq, Structural)]
pub enum SynthPreset {
    DeepBass,
    Acid,
    Pad,
    Pluck,
    Lead,
}

#[derive(Debug, Clone, Copy, PartialEq, Eq, Structural)]
pub enum OscillatorWave {
    Sine,
    Square,
    Sawtooth,
    Triangle,
}

/// The mixer strip of a track; `volume`, `pan`, `delay_send` and
/// `reverb_send` are float bit patterns.
#[derive(Debug, Clone, Copy, PartialEq, Eq, Structural)]
pub struct MixerState {
    pub volume: u32,
    pub pan: u32,
    pub muted: bool,
    pub solo: bool,
    pub delay_send: u32,
    pub reverb_send: u32,
}

/// The synth voice of a track; the envelope, filter and detune settings
/// are float bit patterns.
#[derive(Debug, Clone, Copy, PartialEq, Eq, Structural)]
pub struct SynthConfig {
    pub preset: SynthPreset,
    pub oscillator: OscillatorWave,
    pub attack: u32,
    pub decay: u32,
    pub sustain: u32,
    pub release: u32,
    pub cutoff: u32,
    pub resonance: u32,
    pub detune: u32,
}

#[derive(Debug)]
pub struct NoteEvent {
    pub id: String,
    pub note: u8,
    pub start_step: usize,
    pub duration_steps: usize,
    pub velocity: u8,
}

#[derive(Debug, Clone, Copy, PartialEq, Eq, Structural)]
pub struct SampleTrigger {
    pub step: usize,
    pub velocity: u8,
}

#[derive(Debug)]
pub struct SampleAsset {
    pub id: String,
    pub name: String,
    pub url: String,
}

/// The steps of one drum voice of a drum clip, keyed by the voice's name.
#[derive(Debug)]
pub struct DrumVoice {
    pub voice: String,
    pub steps: Vec<bool>,
}

#[derive(Debug)]
pub struct Clip {
    pub id: String,
    pub name: String,
    pub kind: ClipKind,
    pub start_bar: usize,
    pub length_bars: usize,
    pub looped: bool,
    pub pattern_steps: usize,
    pub drum_steps: Option<Vec<DrumVoice>>,
    pub notes: Option<Vec<NoteEvent>>,
    pub sample_triggers: Option<Vec<SampleTrigger>>,
}

#[derive(Debug)]
pub struct Track {
    pub id: String,
    pub name: String,
    pub kind: TrackKind,
    pub mixer: MixerState,
    pub synth: Option<SynthConfig>,
    pub sample_id: Option<String>,
    pub clips: Vec<Clip>,
}

#[derive(Debug)]
pub struct ProjectState {
    pub project_id: String,
    pub name: String,
    pub bpm: u16,
    pub bars: usize,
    pub steps_per_bar: usize,
    pub playing: bool,
    pub start_at_ms: Option<u64>,
    pub loop_start_bar: usize,
    pub loop_end_bar: usize,
    pub master_volume: u32,
    pub is_public: bool,
    pub revision: u64,
    pub tracks: Vec<Track>,
    pub samples: Vec<SampleAsset>,
}

pub struct NoteView {
    pub id: Seq<char>,
    pub note: u8,
    pub start_step: usize,
    pub duration_steps: usize,
    pub velocity: u8,
}

pub struct AssetView {
    pub id: Seq<char>,
    pub name: Seq<char>,
    pub url: Seq<char>,
}

pub struct VoiceView {
    pub voice: Seq<char>,
    pub steps: Seq<bool>,
}

pub struct ClipView {
    pub id: Seq<char>,
    pub name: Seq<char>,
    pub kind: ClipKind,
    pub start_bar: usize,
    pub length_bars: usize,
    pub looped: bool,
    pub pattern_steps: usize,
    pub drum_steps: Option<Seq<VoiceView>>,
    pub notes: Option<Seq<NoteView>>,
    pub sample_triggers: Option<Seq<SampleTrigger>>,
}

pub struct TrackView {
    pub id: Seq<char>,
    pub name: Seq<char>,
    pub kind: TrackKind,
    pub mixer: MixerState,
    pub synth: Option<SynthConfig>,
    pub sample_id: Option<Seq<char>>,
    pub clips: Seq<ClipView>,
}

pub struct ProjectView {
    pub project_id: Seq<char>,
    pub name: Seq<char>,
    pub bpm: u16,
    pub bars: usize,
    pub steps_per_bar: usize,
    pub playing: bool,
    pub start_at_ms: Option<u64>,
    pub loop_start_bar: usize,
    pub loop_end_bar: usize,
    pub master_volume: u32,
    pub is_public: bool,
    pub revision: u64,
    pub tracks: Seq<TrackView>,
    pub samples: Seq<AssetView>,
}

impl View for NoteEvent {
    type V = NoteView;

    open spec fn view(&self) -> NoteView {
        NoteView {
            id: self.id@,
            note: self.note,
            start_step: self.start_step,
            duration_steps: self.duration_steps,
            velocity: self.velocity,
        }
    }
}

impl View for SampleAsset {
    type V = AssetView;

    open spec fn view(&self) -> AssetView {
        AssetView { id: self.id@, name: self.name@, url: self.url@ }
    }
}

impl View for DrumVoice {
    type V = VoiceView;

    open spec fn view(&self) -> VoiceView {
        VoiceView { voice: self.voice@, steps: self.steps@ }
    }
}

pub open spec fn notes_view(v: Seq<NoteEvent>) -> Seq<NoteView> {
    v.map_values(|n: NoteEvent| n@)
}

pub open spec fn voices_view(v: Seq<DrumVoice>) -> Seq<VoiceView> {
    v.map_values(|d: DrumVoice| d@)
}

pub open spec fn assets_view(v: Seq<SampleAsset>) -> Seq<AssetView> {
    v.map_values(|a: SampleAsset| a@)
}

pub open spec fn clips_view(v: Seq<Clip>) -> Seq<ClipView> {
    v.map_values(|c: Clip| c@)
}

pub open spec fn tracks_view(v: Seq<Track>) -> Seq<TrackView> {
    v.map_values(|t: Track| t@)
}

impl View for Clip {
    type V = ClipView;

    open spec fn view(&self) -> ClipView {
        ClipView {
            id: self.id@,
            name: self.name@,
            kind: self.kind,
            start_bar: self.start_bar,
            length_bars: self.length_bars,
            looped: self.looped,
            pattern_steps: self.pattern_steps,
            drum_steps: match self.drum_steps {
                Some(v) => Some(voices_view(v@)),
                None => None,
            },
            notes: match self.notes {
                Some(v) => Some(notes_view(v@)),
                None => None,
            },
            sample_triggers: match self.sample_triggers {
                Some(v) => Some(v@),
                None => None,
            },
        }
    }
}

impl View for Track {
    type V = TrackView;

    open spec fn view(&self) -> TrackView {
        TrackView {
            id: self.id@,
            name: self.name@,
            kind: self.kind,
            mixer: self.mixer,
            synth: self.synth,
            sample_id: match self.sample_id {
                Some(s) => Some(s@),
                None => None,
            },
            clips: clips_view(self.clips@),
        }
    }
}

impl View for ProjectState {
    type V = ProjectView;

    open spec fn view(&self) -> ProjectView {
        ProjectView {
            project_id: self.project_id@,
            name: self.name@,
            bpm: self.bpm,
            bars: self.bars,
            steps_per_bar: self.steps_per_bar,
            playing: self.playing,
            start_at_ms: self.start_at_ms,
            loop_start_bar: self.loop_start_bar,
            loop_end_bar: self.loop_end_bar,
            master_volume: self.master_volume,
            is_public: self.is_public,
            revision: self.revision,
            tracks: tracks_view(self.tracks@),
            samples: assets_view(self.samples@),
        }
    }
}

/// The transport as it is persisted and restored: stopped, with no start time.
pub open spec fn stopped(p: ProjectView) -> ProjectView {
    ProjectView { playing: false, start_at_ms: None, ..p }
}

/// Stops the transport; projects are stored and loaded this way, so that a
/// reload can never start playback.
pub fn stop_transport(project: &mut ProjectState)
    ensures
        final(project)@ == stopped(old(project)@),
{
    project.playing = false;
    project.start_at_ms = None;
}

/// Adopts a document sent to replace a project: it takes the project id of
/// the request and the next revision.
pub fn adopt_replacement(project: &mut ProjectState, project_id: &str)
    ensures
        final(project)@ == (ProjectView {
            project_id: project_id@,
            revision: if old(project).revision == u64::MAX { u64::MAX } else { (old(project).revision + 1) as u64 },
            ..old(project)@
        }),
{
    project.project_id = project_id.to_owned();
    project.revision = project.revision.saturating_add(1);
}

/// The name of the file that stores a project: its sanitised id with `.json`.
pub fn project_file_name(project_id: &str) -> (name: String)
    ensures
        name@ == crate::text::spec_safe_id(project_id@) + ".json"@,
{
    let mut name = crate::text::safe_id(project_id);
    name.append(".json");
    name
}

pub open spec fn spec_note_clip(id: Seq<char>, name: Seq<char>, start_bar: usize, length_bars: usize, notes: Seq<NoteView>) -> ClipView {
    ClipView {
        id,
        name,
        kind: ClipKind::Notes,
        start_bar,
        length_bars,
        looped: true,
        pattern_steps: 16,
        drum_steps: None,
        notes: Some(notes),
        sample_triggers: None,
    }
}

/// A looped sixteen-step clip of notes.
pub fn note_clip(id: &str, name: &str, start_bar: usize, length_bars: usize, notes: Vec<NoteEvent>) -> (clip: Clip)
    ensures
        clip@ == spec_note_clip(id@, name@, start_bar, length_bars, notes_view(notes@)),
{
    Clip {
        id: id.to_owned(),
        name: name.to_owned(),
        kind: ClipKind::Notes,
        start_bar,
        length_bars,
        looped: true,
        pattern_steps: 16,
        drum_steps: None,
        notes: Some(notes),
        sample_triggers: None,
    }
}

/// The sound settings of the starter project: the mixer strips of its four
/// tracks, the synth voices of its three synth tracks and its master volume.
#[derive(Debug, Clone, Copy, PartialEq, Eq, Structural)]
pub struct DefaultSound {
    pub drums_mixer: MixerState,
    pub bass_mixer: MixerState,
    pub chords_mixer: MixerState,
    pub lead_mixer: MixerState,
    pub bass_synth: SynthConfig,
    pub chords_synth: SynthConfig,
    pub lead_synth: SynthConfig,
    pub master_volume: u32,
}

/// Sixteen drum steps, set where the step is one of `hits`.
pub open spec fn pattern(hits: Seq<usize>) -> Seq<bool> {
    Seq::new(16, |i: int| hits.contains(i as usize))
}

fn steps_where(hits: &Vec<usize>) -> (steps: Vec<bool>)
    ensures
        steps@ == pattern(hits@),
{
    let mut steps: Vec<bool> = Vec::new();
    let mut i: usize = 0;
    while i < 16
        invariant
            i <= 16,
            steps@ == pattern(hits@).take(i as int),
        decreases 16 - i,
    {
        let mut hit = false;
        let mut k: usize = 0;
        while k < hits.len()
            invariant
                k <= hits@.len(),
                hit == exists|j: int| 0 <= j < k && hits@[j] == i,
            decreases hits@.len() - k,
        {
            if hits[k] == i {
                hit = true;
            }
            k = k + 1;
        }
        steps.push(hit);
        i = i + 1;
        assert(steps@ =~= pattern(hits@).take(i as int));
    }
    assert(pattern(hits@).take(16) =~= pattern(hits@));
    steps
}

/// A note of the starter project whose id is `prefix` followed by `index`.
pub open spec fn starter_note(prefix: Seq<char>, index: nat, note: u8, start_step: usize, duration_steps: usize, velocity: u8) -> NoteView {
    NoteView { id: prefix + decimal(index), note, start_step, duration_steps, velocity }
}

/// Notes `prefix0`, `prefix1`, ... with the given pitches and steps, all of
/// one duration and velocity.
pub open spec fn starter_notes(
    prefix: Seq<char>,
    pitches: Seq<u8>,
    steps: Seq<usize>,
    duration_steps: usize,
    velocity: u8,
) -> Seq<NoteView> {
    Seq::new(pitches.len(), |i: int| starter_note(prefix, i as nat, pitches[i], steps[i], duration_steps, velocity))
}

fn make_notes(prefix: &str, pitches: &Vec<u8>, steps: &Vec<usize>, duration_steps: usize, velocity: u8) -> (notes: Vec<NoteEvent>)
    requires
        pitches@.len() == steps@.len(),
    ensures
        notes_view(notes@) == starter_notes(prefix@, pitches@, steps@, duration_steps, velocity),
{
    let mut notes: Vec<NoteEvent> = Vec::new();
    let mut i: usize = 0;
    while i < pitches.len()
        invariant
            i <= pitches@.len() == steps@.len(),
            notes_view(notes@) == starter_notes(prefix@, pitches@, steps@, duration_steps, velocity).take(i as int),
        decreases pitches@.len() - i,
    {
        let mut id = prefix.to_owned();
        push_decimal(&mut id, i as u128);
        let ghost before = notes@;
        let e = NoteEvent { id, note: pitches[i], start_step: steps[i], duration_steps, velocity };
        let ghost ev = e@;
        notes.push(e);
        i = i + 1;
        assert(notes_view(notes@) =~= notes_view(before).push(ev));
        assert(notes_view(notes@) =~= starter_notes(prefix@, pitches@, steps@, duration_steps, velocity).take(i as int));
    }
    assert(starter_notes(prefix@, pitches@, steps@, duration_steps, velocity).take(pitches@.len() as int)
        =~= starter_notes(prefix@, pitches@, steps@, duration_steps, velocity));
    notes
}

/// The pitch of each bass note: 39 on step 10, 36 elsewhere.
pub open spec fn bass_pitches() -> Seq<u8> {
    seq![36u8, 36, 36, 39, 36]
}

pub open spec fn bass_steps() -> Seq<usize> {
    seq![0usize, 3, 6, 10, 12]
}

pub open spec fn lead_pitches() -> Seq<u8> {
    seq![72u8, 75, 79, 77, 75, 72, 70]
}

pub open spec fn lead_steps() -> Seq<usize> {
    seq![0usize, 2, 4, 7, 10, 12, 14]
}

/// The drum track of the starter project: a house beat of kick, clap,
/// closed and open hats over eight bars.
pub open spec fn starter_drums(sound: DefaultSound) -> TrackView {
    TrackView {
        id: "drums"@,
        name: "Drums"@,
        kind: TrackKind::Drums,
        mixer: sound.drums_mixer,
        synth: None,
        sample_id: None,
        clips: seq![
            ClipView {
                id: "clip-drums"@,
                name: "House drums"@,
                kind: ClipKind::Drum,
                start_bar: 0,
                length_bars: 8,
                looped: true,
                pattern_steps: 16,
                drum_steps: Some(
                    seq![
                        VoiceView { voice: "kick"@, steps: pattern(seq![0usize, 4, 8, 12]) },
                        VoiceView { voice: "clap"@, steps: pattern(seq![4usize, 12]) },
                        VoiceView { voice: "hat"@, steps: pattern(seq![2usize, 6, 10, 14]) },
                        VoiceView { voice: "open_hat"@, steps: pattern(seq![6usize, 14]) },
                    ],
                ),
                notes: None,
                sample_triggers: None,
            },
        ],
    }
}

/// A synth track of the starter project holding one note clip.
pub open spec fn starter_synth_track(
    id: Seq<char>,
    name: Seq<char>,
    mixer: MixerState,
    synth: SynthConfig,
    clip: ClipView,
) -> TrackView {
    TrackView { id, name, kind: TrackKind::Synth, mixer, synth: Some(synth), sample_id: None, clips: seq![clip] }
}

/// The starter project a new room opens with: "House Jam" at 124 bpm over
/// eight bars of sixteen steps, stopped, private, at revision 0, with drums,
/// bass, chords and lead.
pub open spec fn spec_default_project(project_id: Seq<char>, sound: DefaultSound) -> ProjectView {
    ProjectView {
        project_id,
        name: "House Jam"@,
        bpm: 124,
        bars: 8,
        steps_per_bar: 16,
        playing: false,
        start_at_ms: None,
        loop_start_bar: 0,
        loop_end_bar: 8,
        master_volume: sound.master_volume,
        is_public: false,
        revision: 0,
        tracks: seq![
            starter_drums(sound),
            starter_synth_track(
                "bass"@,
                "Deep Bass"@,
                sound.bass_mixer,
                sound.bass_synth,
                spec_note_clip("clip-bass"@, "Bassline"@, 0, 8, starter_notes("bass-"@, bass_pitches(), bass_steps(), 1, 105)),
            ),
            starter_synth_track(
                "chords"@,
                "Chords"@,
                sound.chords_mixer,
                sound.chords_synth,
                spec_note_clip(
                    "clip-chords"@,
                    "Chords"@,
                    0,
                    8,
                    starter_notes("chord-a-"@, seq![60u8, 63, 67], seq![0usize, 0, 0], 4, 78) + starter_notes(
                        "chord-b-"@,
                        seq![58u8, 62, 65],
                        seq![8usize, 8, 8],
                        4,
                        76,
                    ),
                ),
            ),
            starter_synth_track(
                "lead"@,
                "Lead"@,
                sound.lead_mixer,
                sound.lead_synth,
                spec_note_clip("clip-lead"@, "Lead idea"@, 4, 4, starter_notes("lead-"@, lead_pitches(), lead_steps(), 1, 88)),
            ),
        ],
        samples: Seq::empty(),
    }
}

fn drum_voice(voice: &str, hits: Vec<usize>) -> (d: DrumVoice)
    ensures
        d@ == (VoiceView { voice: voice@, steps: pattern(hits@) }),
{
    DrumVoice { voice: voice.to_owned(), steps: steps_where(&hits) }
}

/// The starter project for a room that has no stored document.
pub fn default_project(project_id: &str, sound: DefaultSound) -> (project: ProjectState)
    ensures
        project@ == spec_default_project(project_id@, sound),
{
    let kick_hits: Vec<usize> = vec![0, 4, 8, 12];
    let clap_hits: Vec<usize> = vec![4, 12];
    let hat_hits: Vec<usize> = vec![2, 6, 10, 14];
    let open_hat_hits: Vec<usize> = vec![6, 14];
    assert(kick_hits@ =~= seq![0usize, 4, 8, 12]);
    assert(clap_hits@ =~= seq![4usize, 12]);
    assert(hat_hits@ =~= seq![2usize, 6, 10, 14]);
    assert(open_hat_hits@ =~= seq![6usize, 14]);
    let kick = drum_voice("kick", kick_hits);
    let clap = drum_voice("clap", clap_hits);
    let hat = drum_voice("hat", hat_hits);
    let open_hat = drum_voice("open_hat", open_hat_hits);
    let ghost drum_views = seq![kick@, clap@, hat@, open_hat@];
    let voices = vec![kick, clap, hat, open_hat];
    assert(voices_view(voices@) =~= drum_views);
    let drum_clip = Clip {
        id: "clip-drums".to_owned(),
        name: "House drums".to_owned(),
        kind: ClipKind::Drum,
        start_bar: 0,
        length_bars: 8,
        looped: true,
        pattern_steps: 16,
        drum_steps: Some(voices),
        notes: None,
        sample_triggers: None,
    };
    assert(drum_clip@ == starter_drums(sound).clips[0]);
    let drums = Track {
        id: "drums".to_owned(),
        name: "Drums".to_owned(),
        kind: TrackKind::Drums,
        mixer: sound.drums_mixer,
        synth: None,
        sample_id: None,
        clips: vec![drum_clip],
    };
    assert(drums@.clips =~= starter_drums(sound).clips);
    assert(drums@ == starter_drums(sound));

    let bass_pitch: Vec<u8> = vec![36, 36, 36, 39, 36];
    let bass_step: Vec<usize> = vec![0, 3, 6, 10, 12];
    assert(bass_pitch@ =~= bass_pitches());
    assert(bass_step@ =~= bass_steps());
    let bass_notes = make_notes("bass-", &bass_pitch, &bass_step, 1, 105);
    let bass = Track {
        id: "bass".to_owned(),
        name: "Deep Bass".to_owned(),
        kind: TrackKind::Synth,
        mixer: sound.bass_mixer,
        synth: Some(sound.bass_synth),
        sample_id: None,
        clips: vec![note_clip("clip-bass", "Bassline", 0, 8, bass_notes)],
    };

    let a_pitch: Vec<u8> = vec![60, 63, 67];
    let a_step: Vec<usize> = vec![0, 0, 0];
    let b_pitch: Vec<u8> = vec![58, 62, 65];
    let b_step: Vec<usize> = vec![8, 8, 8];
    assert(a_pitch@ =~= seq![60u8, 63, 67]);
    assert(a_step@ =~= seq![0usize, 0, 0]);
    assert(b_pitch@ =~= seq![58u8, 62, 65]);
    assert(b_step@ =~= seq![8usize, 8, 8]);
    let mut chord_notes = make_notes("chord-a-", &a_pitch, &a_step, 4, 78);
    let mut chord_b = make_notes("chord-b-", &b_pitch, &b_step, 4, 76);
    let ghost ca = chord_notes@;
    let ghost cb = chord_b@;
    chord_notes.append(&mut chord_b);
    assert(notes_view(chord_notes@) =~= notes_view(ca) + notes_view(cb));
    let chords = Track {
        id: "chords".to_owned(),
        name: "Chords".to_owned(),
        kind: TrackKind::Synth,
        mixer: sound.chords_mixer,
        synth: Some(sound.chords_synth),
        sample_id: None,
        clips: vec![note_clip("clip-chords", "Chords", 0, 8, chord_notes)],
    };

    let lead_pitch: Vec<u8> = vec![72, 75, 79, 77, 75, 72, 70];
    let lead_step: Vec<usize> = vec![0, 2, 4, 7, 10, 12, 14];
    assert(lead_pitch@ =~= lead_pitches());
    assert(lead_step@ =~= lead_steps());
    let lead_notes = make_notes("lead-", &lead_pitch, &lead_step, 1, 88);
    let lead = Track {
        id: "lead".to_owned(),
        name: "Lead".to_owned(),
        kind: TrackKind::Synth,
        mixer: sound.lead_mixer,
        synth: Some(sound.lead_synth),
        sample_id: None,
        clips: vec![note_clip("clip-lead", "Lead idea", 4, 4, lead_notes)],
    };

    let ghost spec = spec_default_project(project_id@, sound);
    assert(drums@ == spec.tracks[0]);
    assert(bass@.clips =~= spec.tracks[1].clips);
    assert(bass@ == spec.tracks[1]);
    assert(chords@.clips =~= spec.tracks[2].clips);
    assert(chords@ == spec.tracks[2]);
    assert(lead@.clips =~= spec.tracks[3].clips);
    assert(lead@ == spec.tracks[3]);
    let ghost track_views = seq![drums@, bass@, chords@, lead@];
    let project = ProjectState {
        project_id: project_id.to_owned(),
        name: "House Jam".to_owned(),
        bpm: 124,
        bars: 8,
        steps_per_bar: 16,
        playing: false,
        start_at_ms: None,
        loop_start_bar: 0,
        loop_end_bar: 8,
        master_volume: sound.master_volume,
        is_public: false,
        revision: 0,
        tracks: vec![drums, bass, chords, lead],
        samples: Vec::new(),
    };
    assert(project@.tracks =~= track_views);
    assert(project@.tracks =~= spec.tracks);
    assert(project@.samples =~= Seq::<AssetView>::empty());
    project
}

} // verus!
