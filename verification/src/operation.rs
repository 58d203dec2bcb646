//! The edits clients make to a project, and how each changes the document.
use vstd::prelude::*;

use crate::project::{
    AssetView, Clip, ClipView, DefaultSound, DrumVoice, MixerState, NoteEvent, NoteView, ProjectState, ProjectView,
    SampleAsset, SampleTrigger, SynthConfig, Track, TrackView, VoiceView, clips_view, notes_view,
    tracks_view, voices_view, assets_view, spec_default_project,
};
use crate::text::{clean_name, decimal, lemma_filter_keeps_all, push_decimal, spec_clean_name, str_eq};

verus! {

/// An edit of the project document.
#[derive(Debug)]
pub enum ProjectOperation {
    RenameProject { name: String },
    SetBpm { bpm: u16 },
    SetBars { bars: usize },
    SetPlaying { playing: bool, start_at_ms: Option<u64> },
    SetLoop { start_bar: usize, end_bar: usize },
    SetMasterVolume { volume: u32 },
    SetPublic { is_public: bool },
    AddTrack { track: Track },
    DeleteTrack { track_id: String },
    RenameTrack { track_id: String, name: String },
    SetTrackMixer { track_id: String, mixer: MixerState },
    SetSynth { track_id: String, synth: SynthConfig },
    SetSamplerAsset { track_id: String, sample_id: Option<String> },
    AddClip { track_id: String, clip: Clip },
    DeleteClip { track_id: String, clip_id: String },
    MoveClip { track_id: String, clip_id: String, start_bar: usize },
    ResizeClip { track_id: String, clip_id: String, length_bars: usize },
    RenameClip { track_id: String, clip_id: String, name: String },
    SetDrumStep { track_id: String, clip_id: String, voice: String, step: usize, enabled: bool },
    SetNoteCell {
        track_id: String,
        clip_id: String,
        step: usize,
        note: u8,
        enabled: bool,
        velocity: u8,
        duration_steps: usize,
    },
    SetSampleStep { track_id: String, clip_id: String, step: usize, enabled: bool, velocity: u8 },
    AddSampleAsset { asset: SampleAsset },
}

pub enum OperationView {
    RenameProject { name: Seq<char> },
    SetBpm { bpm: u16 },
    SetBars { bars: usize },
    SetPlaying { playing: bool, start_at_ms: Option<u64> },
    SetLoop { start_bar: usize, end_bar: usize },
    SetMasterVolume { volume: u32 },
    SetPublic { is_public: bool },
    AddTrack { track: TrackView },
    DeleteTrack { track_id: Seq<char> },
    RenameTrack { track_id: Seq<char>, name: Seq<char> },
    SetTrackMixer { track_id: Seq<char>, mixer: MixerState },
    SetSynth { track_id: Seq<char>, synth: SynthConfig },
    SetSamplerAsset { track_id: Seq<char>, sample_id: Option<Seq<char>> },
    AddClip { track_id: Seq<char>, clip: ClipView },
    DeleteClip { track_id: Seq<char>, clip_id: Seq<char> },
    MoveClip { track_id: Seq<char>, clip_id: Seq<char>, start_bar: usize },
    ResizeClip { track_id: Seq<char>, clip_id: Seq<char>, length_bars: usize },
    RenameClip { track_id: Seq<char>, clip_id: Seq<char>, name: Seq<char> },
    SetDrumStep { track_id: Seq<char>, clip_id: Seq<char>, voice: Seq<char>, step: usize, enabled: bool },
    SetNoteCell {
        track_id: Seq<char>,
        clip_id: Seq<char>,
        step: usize,
        note: u8,
        enabled: bool,
        velocity: u8,
        duration_steps: usize,
    },
    SetSampleStep { track_id: Seq<char>, clip_id: Seq<char>, step: usize, enabled: bool, velocity: u8 },
    AddSampleAsset { asset: AssetView },
}

impl View for ProjectOperation {
    type V = OperationView;

    open spec fn view(&self) -> OperationView {
        match self {
            ProjectOperation::RenameProject { name } => OperationView::RenameProject { name: name@ },
            ProjectOperation::SetBpm { bpm } => OperationView::SetBpm { bpm: *bpm },
            ProjectOperation::SetBars { bars } => OperationView::SetBars { bars: *bars },
            ProjectOperation::SetPlaying { playing, start_at_ms } => OperationView::SetPlaying {
                playing: *playing,
                start_at_ms: *start_at_ms,
            },
            ProjectOperation::SetLoop { start_bar, end_bar } => OperationView::SetLoop {
                start_bar: *start_bar,
                end_bar: *end_bar,
            },
            ProjectOperation::SetMasterVolume { volume } => OperationView::SetMasterVolume { volume: *volume },
            ProjectOperation::SetPublic { is_public } => OperationView::SetPublic { is_public: *is_public },
            ProjectOperation::AddTrack { track } => OperationView::AddTrack { track: track@ },
            ProjectOperation::DeleteTrack { track_id } => OperationView::DeleteTrack { track_id: track_id@ },
            ProjectOperation::RenameTrack { track_id, name } => OperationView::RenameTrack {
                track_id: track_id@,
                name: name@,
            },
            ProjectOperation::SetTrackMixer { track_id, mixer } => OperationView::SetTrackMixer {
                track_id: track_id@,
                mixer: *mixer,
            },
            ProjectOperation::SetSynth { track_id, synth } => OperationView::SetSynth {
                track_id: track_id@,
                synth: *synth,
            },
            ProjectOperation::SetSamplerAsset { track_id, sample_id } => OperationView::SetSamplerAsset {
                track_id: track_id@,
                sample_id: match sample_id {
                    Some(s) => Some(s@),
                    None => None,
                },
            },
            ProjectOperation::AddClip { track_id, clip } => OperationView::AddClip {
                track_id: track_id@,
                clip: clip@,
            },
            ProjectOperation::DeleteClip { track_id, clip_id } => OperationView::DeleteClip {
                track_id: track_id@,
                clip_id: clip_id@,
            },
            ProjectOperation::MoveClip { track_id, clip_id, start_bar } => OperationView::MoveClip {
                track_id: track_id@,
                clip_id: clip_id@,
                start_bar: *start_bar,
            },
            ProjectOperation::ResizeClip { track_id, clip_id, length_bars } => OperationView::ResizeClip {
                track_id: track_id@,
                clip_id: clip_id@,
                length_bars: *length_bars,
            },
            ProjectOperation::RenameClip { track_id, clip_id, name } => OperationView::RenameClip {
                track_id: track_id@,
                clip_id: clip_id@,
                name: name@,
            },
            ProjectOperation::SetDrumStep { track_id, clip_id, voice, step, enabled } => OperationView::SetDrumStep {
                track_id: track_id@,
                clip_id: clip_id@,
                voice: voice@,
                step: *step,
                enabled: *enabled,
            },
            ProjectOperation::SetNoteCell { track_id, clip_id, step, note, enabled, velocity, duration_steps } =>
                OperationView::SetNoteCell {
                track_id: track_id@,
                clip_id: clip_id@,
                step: *step,
                note: *note,
                enabled: *enabled,
                velocity: *velocity,
                duration_steps: *duration_steps,
            },
            ProjectOperation::SetSampleStep { track_id, clip_id, step, enabled, velocity } =>
                OperationView::SetSampleStep {
                track_id: track_id@,
                clip_id: clip_id@,
                step: *step,
                enabled: *enabled,
                velocity: *velocity,
            },
            ProjectOperation::AddSampleAsset { asset } => OperationView::AddSampleAsset { asset: asset@ },
        }
    }
}

/// `x` brought into `lo..=hi` (`Ord::clamp`).
pub open spec fn clamp(x: int, lo: int, hi: int) -> int {
    if x < lo {
        lo
    } else if x > hi {
        hi
    } else {
        x
    }
}

pub open spec fn min(a: int, b: int) -> int {
    if a <= b { a } else { b }
}

pub open spec fn max(a: int, b: int) -> int {
    if a >= b { a } else { b }
}

/// `x - 1`, but 0 for 0.
pub open spec fn pred_sat(x: usize) -> usize {
    if x == 0 { 0 } else { (x - 1) as usize }
}

/// `x + 1`, but `u64::MAX` for `u64::MAX`.
pub open spec fn succ_sat(x: u64) -> u64 {
    if x == u64::MAX { x } else { (x + 1) as u64 }
}

/// `i` is the first track with id `id`.
pub open spec fn is_first_track(ts: Seq<TrackView>, id: Seq<char>, i: int) -> bool {
    0 <= i < ts.len() && ts[i].id == id && forall|j: int| 0 <= j < i ==> ts[j].id != id
}

/// The first track with id `id`, the one an operation on that id edits.
pub open spec fn first_track(ts: Seq<TrackView>, id: Seq<char>) -> Option<int> {
    if exists|i: int| is_first_track(ts, id, i) {
        Some(choose|i: int| is_first_track(ts, id, i))
    } else {
        None
    }
}

/// `i` is the first clip with id `id`.
pub open spec fn is_first_clip(cs: Seq<ClipView>, id: Seq<char>, i: int) -> bool {
    0 <= i < cs.len() && cs[i].id == id && forall|j: int| 0 <= j < i ==> cs[j].id != id
}

pub open spec fn first_clip(cs: Seq<ClipView>, id: Seq<char>) -> Option<int> {
    if exists|i: int| is_first_clip(cs, id, i) {
        Some(choose|i: int| is_first_clip(cs, id, i))
    } else {
        None
    }
}

/// `i` is the first drum voice named `voice`.
pub open spec fn is_first_voice(vs: Seq<VoiceView>, voice: Seq<char>, i: int) -> bool {
    0 <= i < vs.len() && vs[i].voice == voice && forall|j: int| 0 <= j < i ==> vs[j].voice != voice
}

pub open spec fn first_voice(vs: Seq<VoiceView>, voice: Seq<char>) -> Option<int> {
    if exists|i: int| is_first_voice(vs, voice, i) {
        Some(choose|i: int| is_first_voice(vs, voice, i))
    } else {
        None
    }
}

/// `p` with the first track of id `track_id` replaced by `f` of it; `p`
/// itself where there is no such track.
pub open spec fn map_track(p: ProjectView, track_id: Seq<char>, f: spec_fn(TrackView) -> TrackView) -> ProjectView {
    match first_track(p.tracks, track_id) {
        Some(i) => ProjectView { tracks: p.tracks.update(i, f(p.tracks[i])), ..p },
        None => p,
    }
}

/// `p` with the first clip of id `clip_id` in the first track of id
/// `track_id` replaced by `f` of it; `p` itself where there is no such clip.
pub open spec fn map_clip(
    p: ProjectView,
    track_id: Seq<char>,
    clip_id: Seq<char>,
    f: spec_fn(ClipView) -> ClipView,
) -> ProjectView {
    match first_track(p.tracks, track_id) {
        Some(i) => match first_clip(p.tracks[i].clips, clip_id) {
            Some(j) => {
                let t = p.tracks[i];
                ProjectView {
                    tracks: p.tracks.update(i, TrackView { clips: t.clips.update(j, f(t.clips[j])), ..t }),
                    ..p
                }
            },
            None => p,
        },
        None => p,
    }
}

/// Whether the clip that an operation would edit exists.
pub open spec fn clip_found(p: ProjectView, track_id: Seq<char>, clip_id: Seq<char>) -> bool {
    match first_track(p.tracks, track_id) {
        Some(i) => first_clip(p.tracks[i].clips, clip_id) is Some,
        None => false,
    }
}

pub open spec fn other_track(id: Seq<char>) -> spec_fn(TrackView) -> bool {
    |t: TrackView| t.id != id
}

pub open spec fn other_clip(id: Seq<char>) -> spec_fn(ClipView) -> bool {
    |c: ClipView| c.id != id
}

/// Notes that do not sit on `step` with pitch `note`.
pub open spec fn other_cell(step: usize, note: u8) -> spec_fn(NoteView) -> bool {
    |e: NoteView| !(e.start_step == step && e.note == note)
}

pub open spec fn other_step(step: usize) -> spec_fn(SampleTrigger) -> bool {
    |t: SampleTrigger| t.step != step
}

/// The id a note created at time `now` (milliseconds) gets.
pub open spec fn note_id(now: nat) -> Seq<char> {
    "note-"@ + decimal(now)
}

pub open spec fn spec_set_bars(p: ProjectView, bars: usize) -> ProjectView {
    let b = clamp(bars as int, 1, 64) as usize;
    let le = max(min(p.loop_end_bar as int, b as int), 1) as usize;
    if p.loop_start_bar >= le {
        ProjectView { bars: b, loop_start_bar: 0, loop_end_bar: b, ..p }
    } else {
        ProjectView { bars: b, loop_end_bar: le, ..p }
    }
}

pub open spec fn spec_set_loop(p: ProjectView, start_bar: usize, end_bar: usize) -> ProjectView {
    let ls = min(start_bar as int, pred_sat(p.bars) as int) as usize;
    let le = min(max(end_bar as int, ls + 1), p.bars as int) as usize;
    ProjectView { loop_start_bar: ls, loop_end_bar: le, ..p }
}

pub open spec fn spec_set_drum_step(c: ClipView, voice: Seq<char>, step: usize, enabled: bool) -> ClipView {
    match c.drum_steps {
        Some(vs) => match first_voice(vs, voice) {
            Some(k) => if step < vs[k].steps.len() {
                ClipView {
                    drum_steps: Some(vs.update(k, VoiceView { steps: vs[k].steps.update(step as int, enabled), ..vs[k] })),
                    ..c
                }
            } else {
                c
            },
            None => c,
        },
        None => c,
    }
}

pub open spec fn spec_set_note_cell(
    c: ClipView,
    step: usize,
    note: u8,
    enabled: bool,
    velocity: u8,
    duration_steps: usize,
    now: nat,
) -> ClipView {
    let notes = match c.notes {
        Some(n) => n,
        None => Seq::empty(),
    };
    let kept = notes.filter(other_cell(step, note));
    ClipView {
        notes: Some(
            if enabled {
                kept.push(
                    NoteView {
                        id: note_id(now),
                        note,
                        start_step: step,
                        duration_steps: clamp(duration_steps as int, 1, 64) as usize,
                        velocity: clamp(velocity as int, 1, 127) as u8,
                    },
                )
            } else {
                kept
            },
        ),
        ..c
    }
}

pub open spec fn spec_set_sample_step(c: ClipView, step: usize, enabled: bool, velocity: u8) -> ClipView {
    let triggers = match c.sample_triggers {
        Some(t) => t,
        None => Seq::empty(),
    };
    let kept = triggers.filter(other_step(step));
    ClipView {
        sample_triggers: Some(
            if enabled {
                kept.push(SampleTrigger { step, velocity: clamp(velocity as int, 1, 127) as u8 })
            } else {
                kept
            },
        ),
        ..c
    }
}

pub open spec fn spec_rename_track(p: ProjectView, track_id: Seq<char>, name: Seq<char>) -> ProjectView {
    map_track(p, track_id, |t: TrackView| TrackView { name: spec_clean_name(name, 60), ..t })
}

pub open spec fn spec_set_track_mixer(p: ProjectView, track_id: Seq<char>, mixer: MixerState) -> ProjectView {
    map_track(p, track_id, |t: TrackView| TrackView { mixer, ..t })
}

pub open spec fn spec_set_synth(p: ProjectView, track_id: Seq<char>, synth: SynthConfig) -> ProjectView {
    map_track(p, track_id, |t: TrackView| TrackView { synth: Some(synth), ..t })
}

pub open spec fn spec_set_sampler_asset(p: ProjectView, track_id: Seq<char>, sample_id: Option<Seq<char>>) -> ProjectView {
    map_track(p, track_id, |t: TrackView| TrackView { sample_id, ..t })
}

pub open spec fn spec_add_clip(p: ProjectView, track_id: Seq<char>, clip: ClipView) -> ProjectView {
    map_track(
        p,
        track_id,
        |t: TrackView| if t.clips.len() < 128 { TrackView { clips: t.clips.push(clip), ..t } } else { t },
    )
}

pub open spec fn spec_delete_clip(p: ProjectView, track_id: Seq<char>, clip_id: Seq<char>) -> ProjectView {
    map_track(p, track_id, |t: TrackView| TrackView { clips: t.clips.filter(other_clip(clip_id)), ..t })
}

pub open spec fn spec_move_clip(p: ProjectView, track_id: Seq<char>, clip_id: Seq<char>, start_bar: usize) -> ProjectView {
    map_clip(
        p,
        track_id,
        clip_id,
        |c: ClipView| ClipView { start_bar: min(start_bar as int, pred_sat(p.bars) as int) as usize, ..c },
    )
}

pub open spec fn spec_resize_clip(p: ProjectView, track_id: Seq<char>, clip_id: Seq<char>, length_bars: usize) -> ProjectView {
    map_clip(
        p,
        track_id,
        clip_id,
        |c: ClipView| ClipView { length_bars: clamp(length_bars as int, 1, p.bars as int) as usize, ..c },
    )
}

pub open spec fn spec_rename_clip(p: ProjectView, track_id: Seq<char>, clip_id: Seq<char>, name: Seq<char>) -> ProjectView {
    map_clip(p, track_id, clip_id, |c: ClipView| ClipView { name: spec_clean_name(name, 60), ..c })
}

/// The document after an operation at time `now` (milliseconds since the
/// epoch, used for the ids of new notes). Every operation moves the
/// revision on by one.
pub open spec fn spec_apply(p0: ProjectView, op: OperationView, now: nat) -> ProjectView {
    let p = ProjectView { revision: succ_sat(p0.revision), ..p0 };
    match op {
        OperationView::RenameProject { name } => ProjectView { name: spec_clean_name(name, 80), ..p },
        OperationView::SetBpm { bpm } => ProjectView { bpm: clamp(bpm as int, 50, 220) as u16, ..p },
        OperationView::SetBars { bars } => spec_set_bars(p, bars),
        OperationView::SetPlaying { playing, start_at_ms } => ProjectView {
            playing,
            start_at_ms: if playing { start_at_ms } else { None },
            ..p
        },
        OperationView::SetLoop { start_bar, end_bar } => spec_set_loop(p, start_bar, end_bar),
        OperationView::SetMasterVolume { volume } => ProjectView { master_volume: volume, ..p },
        OperationView::SetPublic { is_public } => ProjectView { is_public, ..p },
        OperationView::AddTrack { track } => if p.tracks.len() < 64 {
            ProjectView { tracks: p.tracks.push(track), ..p }
        } else {
            p
        },
        OperationView::DeleteTrack { track_id } => if p.tracks.len() > 1 {
            ProjectView { tracks: p.tracks.filter(other_track(track_id)), ..p }
        } else {
            p
        },
        OperationView::RenameTrack { track_id, name } => spec_rename_track(p, track_id, name),
        OperationView::SetTrackMixer { track_id, mixer } => spec_set_track_mixer(p, track_id, mixer),
        OperationView::SetSynth { track_id, synth } => spec_set_synth(p, track_id, synth),
        OperationView::SetSamplerAsset { track_id, sample_id } => spec_set_sampler_asset(p, track_id, sample_id),
        OperationView::AddClip { track_id, clip } => spec_add_clip(p, track_id, clip),
        OperationView::DeleteClip { track_id, clip_id } => spec_delete_clip(p, track_id, clip_id),
        OperationView::MoveClip { track_id, clip_id, start_bar } => spec_move_clip(p, track_id, clip_id, start_bar),
        OperationView::ResizeClip { track_id, clip_id, length_bars } => spec_resize_clip(
            p,
            track_id,
            clip_id,
            length_bars,
        ),
        OperationView::RenameClip { track_id, clip_id, name } => spec_rename_clip(p, track_id, clip_id, name),
        OperationView::SetDrumStep { track_id, clip_id, voice, step, enabled } => map_clip(
            p,
            track_id,
            clip_id,
            |c: ClipView| spec_set_drum_step(c, voice, step, enabled),
        ),
        OperationView::SetNoteCell { track_id, clip_id, step, note, enabled, velocity, duration_steps } =>
            map_clip(
            p,
            track_id,
            clip_id,
            |c: ClipView| spec_set_note_cell(c, step, note, enabled, velocity, duration_steps, now),
        ),
        OperationView::SetSampleStep { track_id, clip_id, step, enabled, velocity } => map_clip(
            p,
            track_id,
            clip_id,
            |c: ClipView| spec_set_sample_step(c, step, enabled, velocity),
        ),
        OperationView::AddSampleAsset { asset } => if exists|i: int|
            0 <= i < p.samples.len() && #[trigger] p.samples[i].id == asset.id {
            p
        } else {
            ProjectView { samples: p.samples.push(asset), ..p }
        },
    }
}

/// The operations that would panic: resizing an existing clip of a project
/// with no bars, where the clamp range `1..=0` is empty.
pub open spec fn spec_operation_panics(p: ProjectView, op: OperationView) -> bool {
    match op {
        OperationView::ResizeClip { track_id, clip_id, .. } => p.bars == 0 && clip_found(p, track_id, clip_id),
        _ => false,
    }
}

proof fn lemma_first_track(ts: Seq<TrackView>, id: Seq<char>, i: int)
    requires
        is_first_track(ts, id, i),
    ensures
        first_track(ts, id) == Some(i),
{
    let j = choose|j: int| is_first_track(ts, id, j);
    assert(is_first_track(ts, id, j));
    if j < i {
        assert(ts[j].id != id);
    } else if i < j {
        assert(ts[i].id != id);
    }
}

proof fn lemma_first_clip(cs: Seq<ClipView>, id: Seq<char>, i: int)
    requires
        is_first_clip(cs, id, i),
    ensures
        first_clip(cs, id) == Some(i),
{
    let j = choose|j: int| is_first_clip(cs, id, j);
    assert(is_first_clip(cs, id, j));
    if j < i {
        assert(cs[j].id != id);
    } else if i < j {
        assert(cs[i].id != id);
    }
}

proof fn lemma_first_voice(vs: Seq<VoiceView>, voice: Seq<char>, i: int)
    requires
        is_first_voice(vs, voice, i),
    ensures
        first_voice(vs, voice) == Some(i),
{
    let j = choose|j: int| is_first_voice(vs, voice, j);
    assert(is_first_voice(vs, voice, j));
    if j < i {
        assert(vs[j].voice != voice);
    } else if i < j {
        assert(vs[i].voice != voice);
    }
}

/// The position of the first track with id `id`.
fn find_track(tracks: &Vec<Track>, id: &str) -> (res: Option<usize>)
    ensures
        match res {
            Some(i) => first_track(tracks_view(tracks@), id@) == Some(i as int) && i < tracks@.len(),
            None => first_track(tracks_view(tracks@), id@) is None,
        },
{
    let ghost ts = tracks_view(tracks@);
    let mut i: usize = 0;
    while i < tracks.len()
        invariant
            i <= tracks@.len(),
            ts == tracks_view(tracks@),
            forall|j: int| 0 <= j < i ==> ts[j].id != id@,
        decreases tracks@.len() - i,
    {
        if str_eq(tracks[i].id.as_str(), id) {
            proof {
                lemma_first_track(ts, id@, i as int);
            }
            return Some(i);
        }
        i = i + 1;
    }
    assert forall|k: int| !is_first_track(ts, id@, k) by {
        if 0 <= k < ts.len() {
            assert(ts[k].id != id@);
        }
    }
    None
}

/// The position of the first clip with id `id`.
fn find_clip(clips: &Vec<Clip>, id: &str) -> (res: Option<usize>)
    ensures
        match res {
            Some(i) => first_clip(clips_view(clips@), id@) == Some(i as int) && i < clips@.len(),
            None => first_clip(clips_view(clips@), id@) is None,
        },
{
    let ghost cs = clips_view(clips@);
    let mut i: usize = 0;
    while i < clips.len()
        invariant
            i <= clips@.len(),
            cs == clips_view(clips@),
            forall|j: int| 0 <= j < i ==> cs[j].id != id@,
        decreases clips@.len() - i,
    {
        if str_eq(clips[i].id.as_str(), id) {
            proof {
                lemma_first_clip(cs, id@, i as int);
            }
            return Some(i);
        }
        i = i + 1;
    }
    assert forall|k: int| !is_first_clip(cs, id@, k) by {
        if 0 <= k < cs.len() {
            assert(cs[k].id != id@);
        }
    }
    None
}

/// The position of the first drum voice named `voice`.
fn find_voice(voices: &Vec<DrumVoice>, voice: &str) -> (res: Option<usize>)
    ensures
        match res {
            Some(i) => first_voice(voices_view(voices@), voice@) == Some(i as int) && i < voices@.len(),
            None => first_voice(voices_view(voices@), voice@) is None,
        },
{
    let ghost vs = voices_view(voices@);
    let mut i: usize = 0;
    while i < voices.len()
        invariant
            i <= voices@.len(),
            vs == voices_view(voices@),
            forall|j: int| 0 <= j < i ==> vs[j].voice != voice@,
        decreases voices@.len() - i,
    {
        if str_eq(voices[i].voice.as_str(), voice) {
            proof {
                lemma_first_voice(vs, voice@, i as int);
            }
            return Some(i);
        }
        i = i + 1;
    }
    assert forall|k: int| !is_first_voice(vs, voice@, k) by {
        if 0 <= k < vs.len() {
            assert(vs[k].voice != voice@);
        }
    }
    None
}

proof fn lemma_tracks_replace(v: Seq<Track>, i: int, t: Track)
    requires
        0 <= i < v.len(),
    ensures
        tracks_view(v.remove(i).insert(i, t)) == tracks_view(v).update(i, t@),
{
    assert(tracks_view(v.remove(i).insert(i, t)) =~= tracks_view(v).update(i, t@));
}

proof fn lemma_clips_replace(v: Seq<Clip>, i: int, c: Clip)
    requires
        0 <= i < v.len(),
    ensures
        clips_view(v.remove(i).insert(i, c)) == clips_view(v).update(i, c@),
{
    assert(clips_view(v.remove(i).insert(i, c)) =~= clips_view(v).update(i, c@));
}

proof fn lemma_voices_replace(v: Seq<DrumVoice>, i: int, d: DrumVoice)
    requires
        0 <= i < v.len(),
    ensures
        voices_view(v.remove(i).insert(i, d)) == voices_view(v).update(i, d@),
{
    assert(voices_view(v.remove(i).insert(i, d)) =~= voices_view(v).update(i, d@));
}

/// Keeps the tracks whose id is not `id`, in order.
fn without_track(tracks: Vec<Track>, id: &str) -> (out: Vec<Track>)
    ensures
        tracks_view(out@) == tracks_view(tracks@).filter(other_track(id@)),
{
    let ghost orig = tracks@;
    let mut out: Vec<Track> = Vec::new();
    for t in it: tracks.into_iter()
        invariant
            it.seq() == orig,
            tracks_view(out@) == tracks_view(orig.take(it.index() as int)).filter(other_track(id@)),
    {
        let ghost k = it.index() as int;
        proof {
            reveal_with_fuel(Seq::<_>::filter, 1);
            assert(tracks_view(orig.take(k + 1)).drop_last() =~= tracks_view(orig.take(k)));
            assert(tracks_view(orig.take(k + 1)).last() == t@);
        }
        let ghost before = out@;
        if !str_eq(t.id.as_str(), id) {
            out.push(t);
            assert(tracks_view(out@) =~= tracks_view(before).push(t@));
        }
    }
    assert(orig.take(orig.len() as int) =~= orig);
    out
}

/// Keeps the clips whose id is not `id`, in order.
fn without_clip(clips: Vec<Clip>, id: &str) -> (out: Vec<Clip>)
    ensures
        clips_view(out@) == clips_view(clips@).filter(other_clip(id@)),
{
    let ghost orig = clips@;
    let mut out: Vec<Clip> = Vec::new();
    for c in it: clips.into_iter()
        invariant
            it.seq() == orig,
            clips_view(out@) == clips_view(orig.take(it.index() as int)).filter(other_clip(id@)),
    {
        let ghost k = it.index() as int;
        proof {
            reveal_with_fuel(Seq::<_>::filter, 1);
            assert(clips_view(orig.take(k + 1)).drop_last() =~= clips_view(orig.take(k)));
            assert(clips_view(orig.take(k + 1)).last() == c@);
        }
        let ghost before = out@;
        if !str_eq(c.id.as_str(), id) {
            out.push(c);
            assert(clips_view(out@) =~= clips_view(before).push(c@));
        }
    }
    assert(orig.take(orig.len() as int) =~= orig);
    out
}

/// Keeps the notes that do not sit on `step` with pitch `note`, in order.
fn without_cell(notes: Vec<NoteEvent>, step: usize, note: u8) -> (out: Vec<NoteEvent>)
    ensures
        notes_view(out@) == notes_view(notes@).filter(other_cell(step, note)),
{
    let ghost orig = notes@;
    let mut out: Vec<NoteEvent> = Vec::new();
    for e in it: notes.into_iter()
        invariant
            it.seq() == orig,
            notes_view(out@) == notes_view(orig.take(it.index() as int)).filter(other_cell(step, note)),
    {
        let ghost k = it.index() as int;
        proof {
            reveal_with_fuel(Seq::<_>::filter, 1);
            assert(notes_view(orig.take(k + 1)).drop_last() =~= notes_view(orig.take(k)));
            assert(notes_view(orig.take(k + 1)).last() == e@);
        }
        let ghost before = out@;
        if !(e.start_step == step && e.note == note) {
            out.push(e);
            assert(notes_view(out@) =~= notes_view(before).push(e@));
        }
    }
    assert(orig.take(orig.len() as int) =~= orig);
    out
}

/// Keeps the triggers that are not on `step`, in order.
fn without_step(triggers: Vec<SampleTrigger>, step: usize) -> (out: Vec<SampleTrigger>)
    ensures
        out@ == triggers@.filter(other_step(step)),
{
    let ghost orig = triggers@;
    let mut out: Vec<SampleTrigger> = Vec::new();
    for t in it: triggers.into_iter()
        invariant
            it.seq() == orig,
            out@ == orig.take(it.index() as int).filter(other_step(step)),
    {
        let ghost k = it.index() as int;
        proof {
            reveal_with_fuel(Seq::<_>::filter, 1);
            assert(orig.take(k + 1).drop_last() =~= orig.take(k));
        }
        if t.step != step {
            out.push(t);
        }
    }
    assert(orig.take(orig.len() as int) =~= orig);
    out
}

/// Renames the first track with id `track_id`.
fn rename_track(project: &mut ProjectState, track_id: &str, name: &str)
    ensures
        final(project)@ == spec_rename_track(old(project)@, track_id@, name@),
{
    match find_track(&project.tracks, track_id) {
        Some(i) => {
            let ghost v0 = project.tracks@;
            let mut t = project.tracks.remove(i);
            t.name = clean_name(name, 60);
            let ghost snap = t;
            project.tracks.insert(i, t);
            proof {
                lemma_tracks_replace(v0, i as int, snap);
            }
        },
        None => {},
    }
}

/// Sets the mixer strip of the first track with id `track_id`.
fn set_track_mixer(project: &mut ProjectState, track_id: &str, mixer: MixerState)
    ensures
        final(project)@ == spec_set_track_mixer(old(project)@, track_id@, mixer),
{
    match find_track(&project.tracks, track_id) {
        Some(i) => {
            let ghost v0 = project.tracks@;
            let mut t = project.tracks.remove(i);
            t.mixer = mixer;
            let ghost snap = t;
            project.tracks.insert(i, t);
            proof {
                lemma_tracks_replace(v0, i as int, snap);
            }
        },
        None => {},
    }
}

/// Sets the synth voice of the first track with id `track_id`.
fn set_synth(project: &mut ProjectState, track_id: &str, synth: SynthConfig)
    ensures
        final(project)@ == spec_set_synth(old(project)@, track_id@, synth),
{
    match find_track(&project.tracks, track_id) {
        Some(i) => {
            let ghost v0 = project.tracks@;
            let mut t = project.tracks.remove(i);
            t.synth = Some(synth);
            let ghost snap = t;
            project.tracks.insert(i, t);
            proof {
                lemma_tracks_replace(v0, i as int, snap);
            }
        },
        None => {},
    }
}

/// Sets the sample played by the first track with id `track_id`.
fn set_sampler_asset(project: &mut ProjectState, track_id: &str, sample_id: Option<String>)
    ensures
        final(project)@ == spec_set_sampler_asset(
            old(project)@,
            track_id@,
            match sample_id {
                Some(s) => Some(s@),
                None => None,
            },
        ),
{
    match find_track(&project.tracks, track_id) {
        Some(i) => {
            let ghost v0 = project.tracks@;
            let mut t = project.tracks.remove(i);
            t.sample_id = sample_id;
            let ghost snap = t;
            project.tracks.insert(i, t);
            proof {
                lemma_tracks_replace(v0, i as int, snap);
            }
        },
        None => {},
    }
}

/// Adds a clip to the first track with id `track_id`, unless it holds 128 clips.
fn add_clip(project: &mut ProjectState, track_id: &str, clip: Clip)
    ensures
        final(project)@ == spec_add_clip(old(project)@, track_id@, clip@),
{
    match find_track(&project.tracks, track_id) {
        Some(i) => {
            let ghost v0 = project.tracks@;
            let mut t = project.tracks.remove(i);
            if t.clips.len() < 128 {
                t.clips.push(clip);
                assert(clips_view(t.clips@) =~= clips_view(v0[i as int].clips@).push(clip@));
            }
            let ghost snap = t;
            project.tracks.insert(i, t);
            proof {
                lemma_tracks_replace(v0, i as int, snap);
            }
        },
        None => {},
    }
}

/// Removes the clips with id `clip_id` from the first track with id `track_id`.
fn delete_clip(project: &mut ProjectState, track_id: &str, clip_id: &str)
    ensures
        final(project)@ == spec_delete_clip(old(project)@, track_id@, clip_id@),
{
    match find_track(&project.tracks, track_id) {
        Some(i) => {
            let ghost v0 = project.tracks@;
            let mut t = project.tracks.remove(i);
            let mut clips: Vec<Clip> = Vec::new();
            std::mem::swap(&mut clips, &mut t.clips);
            t.clips = without_clip(clips, clip_id);
            let ghost snap = t;
            project.tracks.insert(i, t);
            proof {
                lemma_tracks_replace(v0, i as int, snap);
            }
        },
        None => {},
    }
}

/// Moves a clip to `start_bar`, at most the last bar.
fn move_clip(project: &mut ProjectState, track_id: &str, clip_id: &str, start_bar: usize)
    ensures
        final(project)@ == spec_move_clip(old(project)@, track_id@, clip_id@, start_bar),
{
    let ti = match find_track(&project.tracks, track_id) {
        Some(i) => i,
        None => return,
    };
    let ci = match find_clip(&project.tracks[ti].clips, clip_id) {
        Some(j) => j,
        None => return,
    };
    let ghost v0 = project.tracks@;
    let ghost cs0 = v0[ti as int].clips@;
    let bars = project.bars;
    let mut t = project.tracks.remove(ti);
    let mut c = t.clips.remove(ci);
    let max_start = if bars == 0 { 0 } else { bars - 1 };
    c.start_bar = if start_bar <= max_start { start_bar } else { max_start };
    let ghost csnap = c;
    t.clips.insert(ci, c);
    let ghost tsnap = t;
    project.tracks.insert(ti, t);
    proof {
        lemma_clips_replace(cs0, ci as int, csnap);
        lemma_tracks_replace(v0, ti as int, tsnap);
    }
}

/// Sets a clip's length to `length_bars`, at least 1 and at most the project's bars.
fn resize_clip(project: &mut ProjectState, track_id: &str, clip_id: &str, length_bars: usize)
    requires
        old(project).bars >= 1,
    ensures
        final(project)@ == spec_resize_clip(old(project)@, track_id@, clip_id@, length_bars),
{
    let ti = match find_track(&project.tracks, track_id) {
        Some(i) => i,
        None => return,
    };
    let ci = match find_clip(&project.tracks[ti].clips, clip_id) {
        Some(j) => j,
        None => return,
    };
    let ghost v0 = project.tracks@;
    let ghost cs0 = v0[ti as int].clips@;
    let bars = project.bars;
    let mut t = project.tracks.remove(ti);
    let mut c = t.clips.remove(ci);
    c.length_bars = if length_bars < 1 { 1 } else if length_bars > bars { bars } else { length_bars };
    let ghost csnap = c;
    t.clips.insert(ci, c);
    let ghost tsnap = t;
    project.tracks.insert(ti, t);
    proof {
        lemma_clips_replace(cs0, ci as int, csnap);
        lemma_tracks_replace(v0, ti as int, tsnap);
    }
}

/// Renames a clip.
fn rename_clip(project: &mut ProjectState, track_id: &str, clip_id: &str, name: &str)
    ensures
        final(project)@ == spec_rename_clip(old(project)@, track_id@, clip_id@, name@),
{
    let ti = match find_track(&project.tracks, track_id) {
        Some(i) => i,
        None => return,
    };
    let ci = match find_clip(&project.tracks[ti].clips, clip_id) {
        Some(j) => j,
        None => return,
    };
    let ghost v0 = project.tracks@;
    let ghost cs0 = v0[ti as int].clips@;
    let bars = project.bars;
    let mut t = project.tracks.remove(ti);
    let mut c = t.clips.remove(ci);
    c.name = clean_name(name, 60);
    let ghost csnap = c;
    t.clips.insert(ci, c);
    let ghost tsnap = t;
    project.tracks.insert(ti, t);
    proof {
        lemma_clips_replace(cs0, ci as int, csnap);
        lemma_tracks_replace(v0, ti as int, tsnap);
    }
}

/// Sets step `step` of drum voice `voice` of a drum clip, where the clip
/// has such a voice and the step lies within it.
fn set_drum_step(project: &mut ProjectState, track_id: &str, clip_id: &str, voice: &str, step: usize, enabled: bool)
    ensures
        final(project)@ == map_clip(
            old(project)@,
            track_id@,
            clip_id@,
            |c: ClipView| spec_set_drum_step(c, voice@, step, enabled),
        ),
{
    let ti = match find_track(&project.tracks, track_id) {
        Some(i) => i,
        None => return,
    };
    let ci = match find_clip(&project.tracks[ti].clips, clip_id) {
        Some(j) => j,
        None => return,
    };
    let ghost v0 = project.tracks@;
    let ghost cs0 = v0[ti as int].clips@;
    let mut t = project.tracks.remove(ti);
    let mut c = t.clips.remove(ci);
    let ghost c0 = c@;
    let mut ds: Option<Vec<DrumVoice>> = None;
    std::mem::swap(&mut ds, &mut c.drum_steps);
    match ds {
        Some(mut voices) => {
            let ghost vs0 = voices@;
            match find_voice(&voices, voice) {
                Some(k) => {
                    if step < voices[k].steps.len() {
                        let mut d = voices.remove(k);
                        d.steps.set(step, enabled);
                        let ghost dsnap = d;
                        voices.insert(k, d);
                        proof {
                            lemma_voices_replace(vs0, k as int, dsnap);
                        }
                    }
                },
                None => {},
            }
            c.drum_steps = Some(voices);
        },
        None => {
            c.drum_steps = None;
        },
    }
    assert(c@ == spec_set_drum_step(c0, voice@, step, enabled));
    let ghost csnap = c;
    t.clips.insert(ci, c);
    let ghost tsnap = t;
    project.tracks.insert(ti, t);
    proof {
        lemma_clips_replace(cs0, ci as int, csnap);
        lemma_tracks_replace(v0, ti as int, tsnap);
    }
}

/// Sets or clears the note of pitch `note` at step `step` of a clip: any
/// note there goes, and a new one is written when `enabled`.
fn set_note_cell(
    project: &mut ProjectState,
    track_id: &str,
    clip_id: &str,
    step: usize,
    note: u8,
    enabled: bool,
    velocity: u8,
    duration_steps: usize,
    now_ms: u128,
)
    ensures
        final(project)@ == map_clip(
            old(project)@,
            track_id@,
            clip_id@,
            |c: ClipView| spec_set_note_cell(c, step, note, enabled, velocity, duration_steps, now_ms as nat),
        ),
{
    let ti = match find_track(&project.tracks, track_id) {
        Some(i) => i,
        None => return,
    };
    let ci = match find_clip(&project.tracks[ti].clips, clip_id) {
        Some(j) => j,
        None => return,
    };
    let ghost v0 = project.tracks@;
    let ghost cs0 = v0[ti as int].clips@;
    let mut t = project.tracks.remove(ti);
    let mut c = t.clips.remove(ci);
    let ghost c0 = c@;
    let mut existing: Option<Vec<NoteEvent>> = None;
    std::mem::swap(&mut existing, &mut c.notes);
    let notes = match existing {
        Some(v) => v,
        None => Vec::new(),
    };
    assert(notes_view(notes@) == match c0.notes {
        Some(n) => n,
        None => Seq::<NoteView>::empty(),
    }) by {
        if c0.notes is None {
            assert(notes_view(notes@) =~= Seq::<NoteView>::empty());
        }
    }
    let mut kept = without_cell(notes, step, note);
    if enabled {
        let mut id = "note-".to_owned();
        push_decimal(&mut id, now_ms);
        let duration = if duration_steps < 1 { 1 } else if duration_steps > 64 { 64 } else { duration_steps };
        let vel = if velocity < 1 { 1 } else if velocity > 127 { 127 } else { velocity };
        let ghost before = kept@;
        let e = NoteEvent { id, note, start_step: step, duration_steps: duration, velocity: vel };
        let ghost esnap = e@;
        kept.push(e);
        assert(notes_view(kept@) =~= notes_view(before).push(esnap));
    }
    c.notes = Some(kept);
    assert(c@ == spec_set_note_cell(c0, step, note, enabled, velocity, duration_steps, now_ms as nat));
    let ghost csnap = c;
    t.clips.insert(ci, c);
    let ghost tsnap = t;
    project.tracks.insert(ti, t);
    proof {
        lemma_clips_replace(cs0, ci as int, csnap);
        lemma_tracks_replace(v0, ti as int, tsnap);
    }
}

/// Sets or clears the sample trigger at step `step` of a clip: any trigger
/// there goes, and a new one is written when `enabled`.
fn set_sample_step(project: &mut ProjectState, track_id: &str, clip_id: &str, step: usize, enabled: bool, velocity: u8)
    ensures
        final(project)@ == map_clip(
            old(project)@,
            track_id@,
            clip_id@,
            |c: ClipView| spec_set_sample_step(c, step, enabled, velocity),
        ),
{
    let ti = match find_track(&project.tracks, track_id) {
        Some(i) => i,
        None => return,
    };
    let ci = match find_clip(&project.tracks[ti].clips, clip_id) {
        Some(j) => j,
        None => return,
    };
    let ghost v0 = project.tracks@;
    let ghost cs0 = v0[ti as int].clips@;
    let mut t = project.tracks.remove(ti);
    let mut c = t.clips.remove(ci);
    let ghost c0 = c@;
    let mut existing: Option<Vec<SampleTrigger>> = None;
    std::mem::swap(&mut existing, &mut c.sample_triggers);
    let triggers = match existing {
        Some(v) => v,
        None => Vec::new(),
    };
    let mut kept = without_step(triggers, step);
    if enabled {
        let vel = if velocity < 1 { 1 } else if velocity > 127 { 127 } else { velocity };
        kept.push(SampleTrigger { step, velocity: vel });
    }
    c.sample_triggers = Some(kept);
    assert(c@ == spec_set_sample_step(c0, step, enabled, velocity));
    let ghost csnap = c;
    t.clips.insert(ci, c);
    let ghost tsnap = t;
    project.tracks.insert(ti, t);
    proof {
        lemma_clips_replace(cs0, ci as int, csnap);
        lemma_tracks_replace(v0, ti as int, tsnap);
    }
}

/// Whether a sample with id `id` is already listed.
fn has_sample(samples: &Vec<SampleAsset>, id: &str) -> (res: bool)
    ensures
        res == exists|i: int| 0 <= i < samples@.len() && #[trigger] assets_view(samples@)[i].id == id@,
{
    let ghost av = assets_view(samples@);
    let mut i: usize = 0;
    while i < samples.len()
        invariant
            i <= samples@.len(),
            av == assets_view(samples@),
            forall|j: int| 0 <= j < i ==> av[j].id != id@,
        decreases samples@.len() - i,
    {
        if str_eq(samples[i].id.as_str(), id) {
            assert(av[i as int].id == id@);
            return true;
        }
        i = i + 1;
    }
    false
}

/// Whether applying `operation` to `project` would panic (see
/// `spec_operation_panics`); the server checks this before applying.
pub fn operation_panics(project: &ProjectState, operation: &ProjectOperation) -> (res: bool)
    ensures
        res == spec_operation_panics(project@, operation@),
{
    match operation {
        ProjectOperation::ResizeClip { track_id, clip_id, .. } => {
            if project.bars != 0 {
                return false;
            }
            match find_track(&project.tracks, track_id.as_str()) {
                Some(i) => find_clip(&project.tracks[i].clips, clip_id.as_str()).is_some(),
                None => false,
            }
        },
        _ => false,
    }
}

#[verifier::spinoff_prover]
#[verifier::rlimit(40)]
/// Applies a client's edit to the project document; `now_ms` is the time
/// in milliseconds since the epoch, which names new notes.
pub fn apply_operation(project: &mut ProjectState, operation: ProjectOperation, now_ms: u128)
    requires
        !spec_operation_panics(old(project)@, operation@),
    ensures
        final(project)@ == spec_apply(old(project)@, operation@, now_ms as nat),
{
    let ghost op = operation@;
    project.revision = project.revision.saturating_add(1);
    match operation {
        ProjectOperation::RenameProject { name } => {
            project.name = clean_name(name.as_str(), 80);
        },
        ProjectOperation::SetBpm { bpm } => {
            project.bpm = if bpm < 50 { 50 } else if bpm > 220 { 220 } else { bpm };
        },
        ProjectOperation::SetBars { bars } => {
            let b = if bars < 1 { 1 } else if bars > 64 { 64 } else { bars };
            project.bars = b;
            let le = if project.loop_end_bar <= b { project.loop_end_bar } else { b };
            project.loop_end_bar = if le >= 1 { le } else { 1 };
            if project.loop_start_bar >= project.loop_end_bar {
                project.loop_start_bar = 0;
                project.loop_end_bar = b;
            }
        },
        ProjectOperation::SetPlaying { playing, start_at_ms } => {
            project.playing = playing;
            project.start_at_ms = if playing { start_at_ms } else { None };
        },
        ProjectOperation::SetLoop { start_bar, end_bar } => {
            let last = if project.bars == 0 { 0 } else { project.bars - 1 };
            let ls = if start_bar <= last { start_bar } else { last };
            project.loop_start_bar = ls;
            let e = if end_bar >= ls + 1 { end_bar } else { ls + 1 };
            project.loop_end_bar = if e <= project.bars { e } else { project.bars };
        },
        ProjectOperation::SetMasterVolume { volume } => {
            project.master_volume = volume;
        },
        ProjectOperation::SetPublic { is_public } => {
            project.is_public = is_public;
        },
        ProjectOperation::AddTrack { track } => {
            if project.tracks.len() < 64 {
                let ghost before = project.tracks@;
                let ghost tsnap = track@;
                project.tracks.push(track);
                assert(tracks_view(project.tracks@) =~= tracks_view(before).push(tsnap));
            }
        },
        ProjectOperation::DeleteTrack { track_id } => {
            if project.tracks.len() > 1 {
                let mut tracks: Vec<Track> = Vec::new();
                std::mem::swap(&mut tracks, &mut project.tracks);
                project.tracks = without_track(tracks, track_id.as_str());
            }
        },
        ProjectOperation::RenameTrack { track_id, name } => {
            rename_track(project, track_id.as_str(), name.as_str());
        },
        ProjectOperation::SetTrackMixer { track_id, mixer } => {
            set_track_mixer(project, track_id.as_str(), mixer);
        },
        ProjectOperation::SetSynth { track_id, synth } => {
            set_synth(project, track_id.as_str(), synth);
        },
        ProjectOperation::SetSamplerAsset { track_id, sample_id } => {
            set_sampler_asset(project, track_id.as_str(), sample_id);
        },
        ProjectOperation::AddClip { track_id, clip } => {
            add_clip(project, track_id.as_str(), clip);
        },
        ProjectOperation::DeleteClip { track_id, clip_id } => {
            delete_clip(project, track_id.as_str(), clip_id.as_str());
        },
        ProjectOperation::MoveClip { track_id, clip_id, start_bar } => {
            move_clip(project, track_id.as_str(), clip_id.as_str(), start_bar);
        },
        ProjectOperation::ResizeClip { track_id, clip_id, length_bars } => {
            if project.bars >= 1 {
                resize_clip(project, track_id.as_str(), clip_id.as_str(), length_bars);
            }
        },
        ProjectOperation::RenameClip { track_id, clip_id, name } => {
            rename_clip(project, track_id.as_str(), clip_id.as_str(), name.as_str());
        },
        ProjectOperation::SetDrumStep { track_id, clip_id, voice, step, enabled } => {
            set_drum_step(project, track_id.as_str(), clip_id.as_str(), voice.as_str(), step, enabled);
        },
        ProjectOperation::SetNoteCell { track_id, clip_id, step, note, enabled, velocity, duration_steps } => {
            set_note_cell(
                project,
                track_id.as_str(),
                clip_id.as_str(),
                step,
                note,
                enabled,
                velocity,
                duration_steps,
                now_ms,
            );
        },
        ProjectOperation::SetSampleStep { track_id, clip_id, step, enabled, velocity } => {
            set_sample_step(project, track_id.as_str(), clip_id.as_str(), step, enabled, velocity);
        },
        ProjectOperation::AddSampleAsset { asset } => {
            if !has_sample(&project.samples, asset.id.as_str()) {
                let ghost before = project.samples@;
                let ghost asnap = asset@;
                project.samples.push(asset);
                assert(assets_view(project.samples@) =~= assets_view(before).push(asnap));
            }
        },
    }
}

/// The loop window lies inside a project of at least one bar.
pub open spec fn loop_window_ok(p: ProjectView) -> bool {
    1 <= p.bars && p.loop_start_bar < p.loop_end_bar && p.loop_end_bar <= p.bars
}

proof fn lemma_map_track_fields(p: ProjectView, id: Seq<char>, f: spec_fn(TrackView) -> TrackView)
    ensures
        map_track(p, id, f).bars == p.bars,
        map_track(p, id, f).loop_start_bar == p.loop_start_bar,
        map_track(p, id, f).loop_end_bar == p.loop_end_bar,
        map_track(p, id, f).project_id == p.project_id,
        map_track(p, id, f).playing == p.playing,
        map_track(p, id, f).start_at_ms == p.start_at_ms,
        map_track(p, id, f).revision == p.revision,
        map_track(p, id, f).samples == p.samples,
        map_track(p, id, f).tracks.len() == p.tracks.len(),
{
}

proof fn lemma_map_clip_fields(p: ProjectView, tid: Seq<char>, cid: Seq<char>, f: spec_fn(ClipView) -> ClipView)
    ensures
        map_clip(p, tid, cid, f).bars == p.bars,
        map_clip(p, tid, cid, f).loop_start_bar == p.loop_start_bar,
        map_clip(p, tid, cid, f).loop_end_bar == p.loop_end_bar,
        map_clip(p, tid, cid, f).project_id == p.project_id,
        map_clip(p, tid, cid, f).playing == p.playing,
        map_clip(p, tid, cid, f).start_at_ms == p.start_at_ms,
        map_clip(p, tid, cid, f).revision == p.revision,
        map_clip(p, tid, cid, f).samples == p.samples,
        map_clip(p, tid, cid, f).tracks.len() == p.tracks.len(),
        forall|k: int| 0 <= k < p.tracks.len() ==> (#[trigger] map_clip(p, tid, cid, f).tracks[k]).clips.len()
            == p.tracks[k].clips.len(),
{
    match first_track(p.tracks, tid) {
        Some(i) => {
            assert(is_first_track(p.tracks, tid, i));
        },
        None => {},
    }
}

/// Setting the number of bars always leaves 1 to 64 bars and a loop window
/// inside them.
pub proof fn lemma_set_bars_loop_window(p: ProjectView, bars: usize, now: nat)
    ensures
        1 <= spec_apply(p, OperationView::SetBars { bars }, now).bars <= 64,
        loop_window_ok(spec_apply(p, OperationView::SetBars { bars }, now)),
{
}

/// Setting the loop of a project that has bars leaves a loop window inside them.
pub proof fn lemma_set_loop_window(p: ProjectView, start_bar: usize, end_bar: usize, now: nat)
    requires
        p.bars >= 1,
    ensures
        loop_window_ok(spec_apply(p, OperationView::SetLoop { start_bar, end_bar }, now)),
{
}

/// Every operation keeps a loop window that lies inside the project there.
pub proof fn lemma_apply_keeps_loop_window(p: ProjectView, op: OperationView, now: nat)
    requires
        loop_window_ok(p),
    ensures
        loop_window_ok(spec_apply(p, op, now)),
{
    let q = ProjectView { revision: succ_sat(p.revision), ..p };
    match op {
        OperationView::RenameTrack { track_id, name } => {
            lemma_map_track_fields(q, track_id, |t: TrackView| TrackView { name: spec_clean_name(name, 60), ..t });
        },
        OperationView::SetTrackMixer { track_id, mixer } => {
            lemma_map_track_fields(q, track_id, |t: TrackView| TrackView { mixer, ..t });
        },
        OperationView::SetSynth { track_id, synth } => {
            lemma_map_track_fields(q, track_id, |t: TrackView| TrackView { synth: Some(synth), ..t });
        },
        OperationView::SetSamplerAsset { track_id, sample_id } => {
            lemma_map_track_fields(q, track_id, |t: TrackView| TrackView { sample_id, ..t });
        },
        OperationView::AddClip { track_id, clip } => {
            lemma_map_track_fields(
                q,
                track_id,
                |t: TrackView| if t.clips.len() < 128 { TrackView { clips: t.clips.push(clip), ..t } } else { t },
            );
        },
        OperationView::DeleteClip { track_id, clip_id } => {
            lemma_map_track_fields(q, track_id, |t: TrackView| TrackView { clips: t.clips.filter(other_clip(clip_id)), ..t });
        },
        OperationView::MoveClip { track_id, clip_id, start_bar } => {
            lemma_map_clip_fields(
                q,
                track_id,
                clip_id,
                |c: ClipView| ClipView { start_bar: min(start_bar as int, pred_sat(q.bars) as int) as usize, ..c },
            );
        },
        OperationView::ResizeClip { track_id, clip_id, length_bars } => {
            lemma_map_clip_fields(
                q,
                track_id,
                clip_id,
                |c: ClipView| ClipView { length_bars: clamp(length_bars as int, 1, q.bars as int) as usize, ..c },
            );
        },
        OperationView::RenameClip { track_id, clip_id, name } => {
            lemma_map_clip_fields(q, track_id, clip_id, |c: ClipView| ClipView { name: spec_clean_name(name, 60), ..c });
        },
        OperationView::SetDrumStep { track_id, clip_id, voice, step, enabled } => {
            lemma_map_clip_fields(q, track_id, clip_id, |c: ClipView| spec_set_drum_step(c, voice, step, enabled));
        },
        OperationView::SetNoteCell { track_id, clip_id, step, note, enabled, velocity, duration_steps } => {
            lemma_map_clip_fields(
                q,
                track_id,
                clip_id,
                |c: ClipView| spec_set_note_cell(c, step, note, enabled, velocity, duration_steps, now),
            );
        },
        OperationView::SetSampleStep { track_id, clip_id, step, enabled, velocity } => {
            lemma_map_clip_fields(q, track_id, clip_id, |c: ClipView| spec_set_sample_step(c, step, enabled, velocity));
        },
        _ => {},
    }
}

/// No operation changes which project the document is, every operation
/// moves the revision on by one (up to `u64::MAX`), and only `SetPlaying`
/// touches the transport.
#[verifier::spinoff_prover]
#[verifier::rlimit(40)]
pub proof fn lemma_apply_keeps_identity(p: ProjectView, op: OperationView, now: nat)
    ensures
        spec_apply(p, op, now).project_id == p.project_id,
        spec_apply(p, op, now).revision == succ_sat(p.revision),
        !(op is SetPlaying) ==> spec_apply(p, op, now).playing == p.playing && spec_apply(p, op, now).start_at_ms
            == p.start_at_ms,
        spec_apply(p, op, now).playing == false ==> spec_apply(p, op, now).start_at_ms is None || p.playing == false,
{
    let q = ProjectView { revision: succ_sat(p.revision), ..p };
    match op {
        OperationView::RenameTrack { track_id, name } => {
            lemma_map_track_fields(q, track_id, |t: TrackView| TrackView { name: spec_clean_name(name, 60), ..t });
        },
        OperationView::SetTrackMixer { track_id, mixer } => {
            lemma_map_track_fields(q, track_id, |t: TrackView| TrackView { mixer, ..t });
        },
        OperationView::SetSynth { track_id, synth } => {
            lemma_map_track_fields(q, track_id, |t: TrackView| TrackView { synth: Some(synth), ..t });
        },
        OperationView::SetSamplerAsset { track_id, sample_id } => {
            lemma_map_track_fields(q, track_id, |t: TrackView| TrackView { sample_id, ..t });
        },
        OperationView::AddClip { track_id, clip } => {
            lemma_map_track_fields(
                q,
                track_id,
                |t: TrackView| if t.clips.len() < 128 { TrackView { clips: t.clips.push(clip), ..t } } else { t },
            );
        },
        OperationView::DeleteClip { track_id, clip_id } => {
            lemma_map_track_fields(q, track_id, |t: TrackView| TrackView { clips: t.clips.filter(other_clip(clip_id)), ..t });
        },
        OperationView::MoveClip { track_id, clip_id, start_bar } => {
            lemma_map_clip_fields(
                q,
                track_id,
                clip_id,
                |c: ClipView| ClipView { start_bar: min(start_bar as int, pred_sat(q.bars) as int) as usize, ..c },
            );
        },
        OperationView::ResizeClip { track_id, clip_id, length_bars } => {
            lemma_map_clip_fields(
                q,
                track_id,
                clip_id,
                |c: ClipView| ClipView { length_bars: clamp(length_bars as int, 1, q.bars as int) as usize, ..c },
            );
        },
        OperationView::RenameClip { track_id, clip_id, name } => {
            lemma_map_clip_fields(q, track_id, clip_id, |c: ClipView| ClipView { name: spec_clean_name(name, 60), ..c });
        },
        OperationView::SetDrumStep { track_id, clip_id, voice, step, enabled } => {
            lemma_map_clip_fields(q, track_id, clip_id, |c: ClipView| spec_set_drum_step(c, voice, step, enabled));
        },
        OperationView::SetNoteCell { track_id, clip_id, step, note, enabled, velocity, duration_steps } => {
            lemma_map_clip_fields(
                q,
                track_id,
                clip_id,
                |c: ClipView| spec_set_note_cell(c, step, note, enabled, velocity, duration_steps, now),
            );
        },
        OperationView::SetSampleStep { track_id, clip_id, step, enabled, velocity } => {
            lemma_map_clip_fields(q, track_id, clip_id, |c: ClipView| spec_set_sample_step(c, step, enabled, velocity));
        },
        _ => {},
    }
}

/// No operation takes a project of at most 64 tracks past 64 tracks.
pub proof fn lemma_apply_track_limit(p: ProjectView, op: OperationView, now: nat)
    requires
        p.tracks.len() <= 64,
    ensures
        spec_apply(p, op, now).tracks.len() <= 64,
{
    broadcast use vstd::seq_lib::group_filter_ensures;
    let q = ProjectView { revision: succ_sat(p.revision), ..p };
    match op {
        OperationView::DeleteTrack { track_id } => {
            q.tracks.lemma_filter_len(other_track(track_id));
        },
        OperationView::AddTrack { .. } => {},
        _ => {
            lemma_apply_keeps_track_count(p, op, now);
        },
    }
}

proof fn lemma_apply_keeps_track_count(p: ProjectView, op: OperationView, now: nat)
    requires
        !(op is DeleteTrack) && !(op is AddTrack),
    ensures
        spec_apply(p, op, now).tracks.len() == p.tracks.len(),
{
    let q = ProjectView { revision: succ_sat(p.revision), ..p };
    match op {
        OperationView::RenameTrack { track_id, name } => {
            lemma_map_track_fields(q, track_id, |t: TrackView| TrackView { name: spec_clean_name(name, 60), ..t });
        },
        OperationView::SetTrackMixer { track_id, mixer } => {
            lemma_map_track_fields(q, track_id, |t: TrackView| TrackView { mixer, ..t });
        },
        OperationView::SetSynth { track_id, synth } => {
            lemma_map_track_fields(q, track_id, |t: TrackView| TrackView { synth: Some(synth), ..t });
        },
        OperationView::SetSamplerAsset { track_id, sample_id } => {
            lemma_map_track_fields(q, track_id, |t: TrackView| TrackView { sample_id, ..t });
        },
        OperationView::AddClip { track_id, clip } => {
            lemma_map_track_fields(
                q,
                track_id,
                |t: TrackView| if t.clips.len() < 128 { TrackView { clips: t.clips.push(clip), ..t } } else { t },
            );
        },
        OperationView::DeleteClip { track_id, clip_id } => {
            lemma_map_track_fields(q, track_id, |t: TrackView| TrackView { clips: t.clips.filter(other_clip(clip_id)), ..t });
        },
        OperationView::MoveClip { track_id, clip_id, start_bar } => {
            lemma_map_clip_fields(
                q,
                track_id,
                clip_id,
                |c: ClipView| ClipView { start_bar: min(start_bar as int, pred_sat(q.bars) as int) as usize, ..c },
            );
        },
        OperationView::ResizeClip { track_id, clip_id, length_bars } => {
            lemma_map_clip_fields(
                q,
                track_id,
                clip_id,
                |c: ClipView| ClipView { length_bars: clamp(length_bars as int, 1, q.bars as int) as usize, ..c },
            );
        },
        OperationView::RenameClip { track_id, clip_id, name } => {
            lemma_map_clip_fields(q, track_id, clip_id, |c: ClipView| ClipView { name: spec_clean_name(name, 60), ..c });
        },
        OperationView::SetDrumStep { track_id, clip_id, voice, step, enabled } => {
            lemma_map_clip_fields(q, track_id, clip_id, |c: ClipView| spec_set_drum_step(c, voice, step, enabled));
        },
        OperationView::SetNoteCell { track_id, clip_id, step, note, enabled, velocity, duration_steps } => {
            lemma_map_clip_fields(
                q,
                track_id,
                clip_id,
                |c: ClipView| spec_set_note_cell(c, step, note, enabled, velocity, duration_steps, now),
            );
        },
        OperationView::SetSampleStep { track_id, clip_id, step, enabled, velocity } => {
            lemma_map_clip_fields(q, track_id, clip_id, |c: ClipView| spec_set_sample_step(c, step, enabled, velocity));
        },
        _ => {},
    }
}

/// No two tracks share an id.
pub open spec fn distinct_track_ids(ts: Seq<TrackView>) -> bool {
    forall|i: int, j: int| 0 <= i < ts.len() && 0 <= j < ts.len() && i != j ==> ts[i].id != ts[j].id
}

proof fn lemma_filter_drops_at_most_one(ts: Seq<TrackView>, id: Seq<char>)
    requires
        distinct_track_ids(ts),
    ensures
        ts.filter(other_track(id)).len() + 1 >= ts.len(),
    decreases ts.len(),
{
    reveal_with_fuel(Seq::<_>::filter, 1);
    if ts.len() > 0 {
        let rest = ts.drop_last();
        assert(distinct_track_ids(rest)) by {
            assert forall|i: int, j: int| 0 <= i < rest.len() && 0 <= j < rest.len() && i != j implies rest[i].id
                != rest[j].id by {
                assert(rest[i] == ts[i] && rest[j] == ts[j]);
            }
        }
        if ts.last().id == id {
            assert forall|i: int| 0 <= i < rest.len() implies rest[i].id != id by {
                assert(rest[i] == ts[i]);
                assert(ts[i].id != ts[ts.len() - 1].id);
            }
            lemma_filter_keeps_all(rest, other_track(id));
        } else {
            lemma_filter_drops_at_most_one(rest, id);
        }
    }
}

/// Deleting a track never leaves a project whose track ids are distinct
/// without tracks.
pub proof fn lemma_delete_track_keeps_one(p: ProjectView, track_id: Seq<char>, now: nat)
    requires
        p.tracks.len() >= 1,
        distinct_track_ids(p.tracks),
    ensures
        spec_apply(p, OperationView::DeleteTrack { track_id }, now).tracks.len() >= 1,
{
    if p.tracks.len() > 1 {
        lemma_filter_drops_at_most_one(p.tracks, track_id);
    }
}

/// Notes that sit on `step` with pitch `note`.
pub open spec fn same_cell(step: usize, note: u8) -> spec_fn(NoteView) -> bool {
    |e: NoteView| e.start_step == step && e.note == note
}

/// How many notes of a clip sit on `step` with pitch `note`.
pub open spec fn notes_on_cell(c: ClipView, step: usize, note: u8) -> nat {
    match c.notes {
        Some(n) => n.filter(same_cell(step, note)).len(),
        None => 0,
    }
}

/// How many sample triggers of a clip are on `step`.
pub open spec fn triggers_on_step(c: ClipView, step: usize) -> nat {
    match c.sample_triggers {
        Some(t) => t.filter(|x: SampleTrigger| x.step == step).len(),
        None => 0,
    }
}

proof fn lemma_cell_toggle(c: ClipView, step: usize, note: u8, enabled: bool, velocity: u8, duration_steps: usize, now: nat)
    ensures
        notes_on_cell(spec_set_note_cell(c, step, note, enabled, velocity, duration_steps, now), step, note)
            == if enabled { 1nat } else { 0nat },
{
    broadcast use vstd::seq_lib::group_filter_ensures;
    let notes = match c.notes {
        Some(n) => n,
        None => Seq::empty(),
    };
    let kept = notes.filter(other_cell(step, note));
    assert forall|i: int| 0 <= i < kept.len() implies !same_cell(step, note)(#[trigger] kept[i]) by {
        notes.lemma_filter_pred(other_cell(step, note), i);
    }
    assert(kept.all(|x: NoteView| !same_cell(step, note)(x)));
    kept.lemma_all_neg_filter_empty(same_cell(step, note));
    if enabled {
        let e = NoteView {
            id: note_id(now),
            note,
            start_step: step,
            duration_steps: clamp(duration_steps as int, 1, 64) as usize,
            velocity: clamp(velocity as int, 1, 127) as u8,
        };
        kept.lemma_filter_push(e, same_cell(step, note));
    }
}

proof fn lemma_step_toggle(c: ClipView, step: usize, enabled: bool, velocity: u8)
    ensures
        triggers_on_step(spec_set_sample_step(c, step, enabled, velocity), step) == if enabled { 1nat } else { 0nat },
{
    broadcast use vstd::seq_lib::group_filter_ensures;
    let triggers = match c.sample_triggers {
        Some(t) => t,
        None => Seq::empty(),
    };
    let kept = triggers.filter(other_step(step));
    let on = |x: SampleTrigger| x.step == step;
    assert forall|i: int| 0 <= i < kept.len() implies !on(#[trigger] kept[i]) by {
        triggers.lemma_filter_pred(other_step(step), i);
    }
    assert(kept.all(|x: SampleTrigger| !on(x)));
    kept.lemma_all_neg_filter_empty(on);
    if enabled {
        kept.lemma_filter_push(SampleTrigger { step, velocity: clamp(velocity as int, 1, 127) as u8 }, on);
    }
}

/// Setting a note cell leaves exactly one note on that step and pitch of the
/// clip when enabled, and none when disabled.
pub proof fn lemma_note_cell_toggles(
    p: ProjectView,
    track_id: Seq<char>,
    clip_id: Seq<char>,
    step: usize,
    note: u8,
    enabled: bool,
    velocity: u8,
    duration_steps: usize,
    now: nat,
)
    requires
        clip_found(p, track_id, clip_id),
    ensures
        ({
            let q = spec_apply(
                p,
                OperationView::SetNoteCell { track_id, clip_id, step, note, enabled, velocity, duration_steps },
                now,
            );
            let i = first_track(p.tracks, track_id)->0;
            let j = first_clip(p.tracks[i].clips, clip_id)->0;
            notes_on_cell(q.tracks[i].clips[j], step, note) == if enabled { 1nat } else { 0nat }
        }),
{
    let i = first_track(p.tracks, track_id)->0;
    let j = first_clip(p.tracks[i].clips, clip_id)->0;
    assert(is_first_track(p.tracks, track_id, i));
    assert(is_first_clip(p.tracks[i].clips, clip_id, j));
    lemma_cell_toggle(p.tracks[i].clips[j], step, note, enabled, velocity, duration_steps, now);
}

/// Setting a sample step leaves exactly one trigger on that step of the clip
/// when enabled, and none when disabled.
pub proof fn lemma_sample_step_toggles(
    p: ProjectView,
    track_id: Seq<char>,
    clip_id: Seq<char>,
    step: usize,
    enabled: bool,
    velocity: u8,
    now: nat,
)
    requires
        clip_found(p, track_id, clip_id),
    ensures
        ({
            let q = spec_apply(p, OperationView::SetSampleStep { track_id, clip_id, step, enabled, velocity }, now);
            let i = first_track(p.tracks, track_id)->0;
            let j = first_clip(p.tracks[i].clips, clip_id)->0;
            triggers_on_step(q.tracks[i].clips[j], step) == if enabled { 1nat } else { 0nat }
        }),
{
    let i = first_track(p.tracks, track_id)->0;
    let j = first_clip(p.tracks[i].clips, clip_id)->0;
    assert(is_first_track(p.tracks, track_id, i));
    assert(is_first_clip(p.tracks[i].clips, clip_id, j));
    lemma_step_toggle(p.tracks[i].clips[j], step, enabled, velocity);
}

/// No two samples share an id.
pub open spec fn distinct_sample_ids(s: Seq<AssetView>) -> bool {
    forall|i: int, j: int| 0 <= i < s.len() && 0 <= j < s.len() && i != j ==> s[i].id != s[j].id
}

/// Adding a sample twice lists it once.
pub proof fn lemma_add_sample_idempotent(p: ProjectView, asset: AssetView, now1: nat, now2: nat)
    ensures
        spec_apply(
            spec_apply(p, OperationView::AddSampleAsset { asset }, now1),
            OperationView::AddSampleAsset { asset },
            now2,
        ).samples == spec_apply(p, OperationView::AddSampleAsset { asset }, now1).samples,
{
    let q = spec_apply(p, OperationView::AddSampleAsset { asset }, now1);
    if !(exists|i: int| 0 <= i < p.samples.len() && #[trigger] p.samples[i].id == asset.id) {
        let k = q.samples.len() - 1;
        assert(q.samples[k].id == asset.id);
    }
}

/// Every operation keeps the sample ids of a project distinct.
pub proof fn lemma_apply_keeps_sample_ids_distinct(p: ProjectView, op: OperationView, now: nat)
    requires
        distinct_sample_ids(p.samples),
    ensures
        distinct_sample_ids(spec_apply(p, op, now).samples),
{
    let q = ProjectView { revision: succ_sat(p.revision), ..p };
    match op {
        OperationView::AddSampleAsset { asset } => {},
        OperationView::RenameTrack { track_id, name } => {
            lemma_map_track_fields(q, track_id, |t: TrackView| TrackView { name: spec_clean_name(name, 60), ..t });
        },
        OperationView::SetTrackMixer { track_id, mixer } => {
            lemma_map_track_fields(q, track_id, |t: TrackView| TrackView { mixer, ..t });
        },
        OperationView::SetSynth { track_id, synth } => {
            lemma_map_track_fields(q, track_id, |t: TrackView| TrackView { synth: Some(synth), ..t });
        },
        OperationView::SetSamplerAsset { track_id, sample_id } => {
            lemma_map_track_fields(q, track_id, |t: TrackView| TrackView { sample_id, ..t });
        },
        OperationView::AddClip { track_id, clip } => {
            lemma_map_track_fields(
                q,
                track_id,
                |t: TrackView| if t.clips.len() < 128 { TrackView { clips: t.clips.push(clip), ..t } } else { t },
            );
        },
        OperationView::DeleteClip { track_id, clip_id } => {
            lemma_map_track_fields(q, track_id, |t: TrackView| TrackView { clips: t.clips.filter(other_clip(clip_id)), ..t });
        },
        OperationView::MoveClip { track_id, clip_id, start_bar } => {
            lemma_map_clip_fields(
                q,
                track_id,
                clip_id,
                |c: ClipView| ClipView { start_bar: min(start_bar as int, pred_sat(q.bars) as int) as usize, ..c },
            );
        },
        OperationView::ResizeClip { track_id, clip_id, length_bars } => {
            lemma_map_clip_fields(
                q,
                track_id,
                clip_id,
                |c: ClipView| ClipView { length_bars: clamp(length_bars as int, 1, q.bars as int) as usize, ..c },
            );
        },
        OperationView::RenameClip { track_id, clip_id, name } => {
            lemma_map_clip_fields(q, track_id, clip_id, |c: ClipView| ClipView { name: spec_clean_name(name, 60), ..c });
        },
        OperationView::SetDrumStep { track_id, clip_id, voice, step, enabled } => {
            lemma_map_clip_fields(q, track_id, clip_id, |c: ClipView| spec_set_drum_step(c, voice, step, enabled));
        },
        OperationView::SetNoteCell { track_id, clip_id, step, note, enabled, velocity, duration_steps } => {
            lemma_map_clip_fields(
                q,
                track_id,
                clip_id,
                |c: ClipView| spec_set_note_cell(c, step, note, enabled, velocity, duration_steps, now),
            );
        },
        OperationView::SetSampleStep { track_id, clip_id, step, enabled, velocity } => {
            lemma_map_clip_fields(q, track_id, clip_id, |c: ClipView| spec_set_sample_step(c, step, enabled, velocity));
        },
        _ => {},
    }
}

/// No track holds more than 128 clips.
pub open spec fn clips_within_limit(ts: Seq<TrackView>) -> bool {
    forall|k: int| 0 <= k < ts.len() ==> (#[trigger] ts[k]).clips.len() <= 128
}

proof fn lemma_map_track_limit(p: ProjectView, id: Seq<char>, f: spec_fn(TrackView) -> TrackView)
    requires
        clips_within_limit(p.tracks),
        forall|t: TrackView| t.clips.len() <= 128 ==> (#[trigger] f(t)).clips.len() <= 128,
    ensures
        clips_within_limit(map_track(p, id, f).tracks),
{
    match first_track(p.tracks, id) {
        Some(i) => {
            assert(is_first_track(p.tracks, id, i));
            assert(p.tracks[i].clips.len() <= 128);
        },
        None => {},
    }
}

/// No operation takes a track past 128 clips, provided a track that is
/// added does not come with more.
pub proof fn lemma_apply_clip_limit(p: ProjectView, op: OperationView, now: nat)
    requires
        clips_within_limit(p.tracks),
        op matches OperationView::AddTrack { track } ==> track.clips.len() <= 128,
    ensures
        clips_within_limit(spec_apply(p, op, now).tracks),
{
    broadcast use vstd::seq_lib::group_filter_ensures;
    let q = ProjectView { revision: succ_sat(p.revision), ..p };
    match op {
        OperationView::AddTrack { track } => {
            if q.tracks.len() < 64 {
                let r = q.tracks.push(track);
                assert forall|k: int| 0 <= k < r.len() implies (#[trigger] r[k]).clips.len() <= 128 by {
                    if k < q.tracks.len() {
                        assert(r[k] == q.tracks[k]);
                    }
                }
            }
        },
        OperationView::DeleteTrack { track_id } => {
            if q.tracks.len() > 1 {
                let r = q.tracks.filter(other_track(track_id));
                assert forall|k: int| 0 <= k < r.len() implies (#[trigger] r[k]).clips.len() <= 128 by {
                    assert(r.contains(r[k]));
                    q.tracks.lemma_filter_contains_rev(other_track(track_id), r[k]);
                }
            }
        },
        OperationView::RenameTrack { track_id, name } => {
            lemma_map_track_limit(q, track_id, |t: TrackView| TrackView { name: spec_clean_name(name, 60), ..t });
        },
        OperationView::SetTrackMixer { track_id, mixer } => {
            lemma_map_track_limit(q, track_id, |t: TrackView| TrackView { mixer, ..t });
        },
        OperationView::SetSynth { track_id, synth } => {
            lemma_map_track_limit(q, track_id, |t: TrackView| TrackView { synth: Some(synth), ..t });
        },
        OperationView::SetSamplerAsset { track_id, sample_id } => {
            lemma_map_track_limit(q, track_id, |t: TrackView| TrackView { sample_id, ..t });
        },
        OperationView::AddClip { track_id, clip } => {
            lemma_map_track_limit(
                q,
                track_id,
                |t: TrackView| if t.clips.len() < 128 { TrackView { clips: t.clips.push(clip), ..t } } else { t },
            );
        },
        OperationView::DeleteClip { track_id, clip_id } => {
            let f = |t: TrackView| TrackView { clips: t.clips.filter(other_clip(clip_id)), ..t };
            assert forall|t: TrackView| t.clips.len() <= 128 implies (#[trigger] f(t)).clips.len() <= 128 by {
                t.clips.lemma_filter_len(other_clip(clip_id));
            }
            lemma_map_track_limit(q, track_id, f);
        },
        OperationView::MoveClip { track_id, clip_id, start_bar } => {
            lemma_map_clip_fields(
                q,
                track_id,
                clip_id,
                |c: ClipView| ClipView { start_bar: min(start_bar as int, pred_sat(q.bars) as int) as usize, ..c },
            );
        },
        OperationView::ResizeClip { track_id, clip_id, length_bars } => {
            lemma_map_clip_fields(
                q,
                track_id,
                clip_id,
                |c: ClipView| ClipView { length_bars: clamp(length_bars as int, 1, q.bars as int) as usize, ..c },
            );
        },
        OperationView::RenameClip { track_id, clip_id, name } => {
            lemma_map_clip_fields(q, track_id, clip_id, |c: ClipView| ClipView { name: spec_clean_name(name, 60), ..c });
        },
        OperationView::SetDrumStep { track_id, clip_id, voice, step, enabled } => {
            lemma_map_clip_fields(q, track_id, clip_id, |c: ClipView| spec_set_drum_step(c, voice, step, enabled));
        },
        OperationView::SetNoteCell { track_id, clip_id, step, note, enabled, velocity, duration_steps } => {
            lemma_map_clip_fields(
                q,
                track_id,
                clip_id,
                |c: ClipView| spec_set_note_cell(c, step, note, enabled, velocity, duration_steps, now),
            );
        },
        OperationView::SetSampleStep { track_id, clip_id, step, enabled, velocity } => {
            lemma_map_clip_fields(q, track_id, clip_id, |c: ClipView| spec_set_sample_step(c, step, enabled, velocity));
        },
        _ => {},
    }
}

/// No two voices of a drum clip share a name.
pub open spec fn distinct_voices(vs: Seq<VoiceView>) -> bool {
    forall|i: int, j: int| 0 <= i < vs.len() && 0 <= j < vs.len() && i != j ==> vs[i].voice != vs[j].voice
}

/// The drum voices of a clip, if it has any, have distinct names.
pub open spec fn clip_voices_distinct(c: ClipView) -> bool {
    c.drum_steps matches Some(vs) ==> distinct_voices(vs)
}

/// Every clip of a track has drum voices of distinct names.
pub open spec fn track_voices_distinct(t: TrackView) -> bool {
    forall|k: int| 0 <= k < t.clips.len() ==> clip_voices_distinct(#[trigger] t.clips[k])
}

/// Every drum clip of every track has voices of distinct names.
pub open spec fn voices_distinct(ts: Seq<TrackView>) -> bool {
    forall|k: int| 0 <= k < ts.len() ==> track_voices_distinct(#[trigger] ts[k])
}

proof fn lemma_map_track_voices(p: ProjectView, id: Seq<char>, f: spec_fn(TrackView) -> TrackView)
    requires
        voices_distinct(p.tracks),
        forall|t: TrackView| track_voices_distinct(t) ==> track_voices_distinct(#[trigger] f(t)),
    ensures
        voices_distinct(map_track(p, id, f).tracks),
{
    match first_track(p.tracks, id) {
        Some(i) => {
            assert(is_first_track(p.tracks, id, i));
            assert(track_voices_distinct(p.tracks[i]));
            let r = map_track(p, id, f).tracks;
            assert forall|k: int| 0 <= k < r.len() implies track_voices_distinct(#[trigger] r[k]) by {
                if k != i {
                    assert(r[k] == p.tracks[k]);
                }
            }
        },
        None => {},
    }
}

proof fn lemma_map_clip_voices(p: ProjectView, tid: Seq<char>, cid: Seq<char>, f: spec_fn(ClipView) -> ClipView)
    requires
        voices_distinct(p.tracks),
        forall|c: ClipView| clip_voices_distinct(c) ==> clip_voices_distinct(#[trigger] f(c)),
    ensures
        voices_distinct(map_clip(p, tid, cid, f).tracks),
{
    match first_track(p.tracks, tid) {
        Some(i) => {
            assert(is_first_track(p.tracks, tid, i));
            let t = p.tracks[i];
            assert(track_voices_distinct(t));
            match first_clip(t.clips, cid) {
                Some(j) => {
                    assert(is_first_clip(t.clips, cid, j));
                    assert(clip_voices_distinct(t.clips[j]));
                    let cs = t.clips.update(j, f(t.clips[j]));
                    assert forall|k: int| 0 <= k < cs.len() implies clip_voices_distinct(#[trigger] cs[k]) by {
                        if k != j {
                            assert(cs[k] == t.clips[k]);
                        }
                    }
                    let r = map_clip(p, tid, cid, f).tracks;
                    assert forall|k: int| 0 <= k < r.len() implies track_voices_distinct(#[trigger] r[k]) by {
                        if k != i {
                            assert(r[k] == p.tracks[k]);
                        } else {
                            assert(r[k].clips == cs);
                        }
                    }
                },
                None => {},
            }
        },
        None => {},
    }
}

/// Editing a drum step keeps the names of the clip's voices.
proof fn lemma_drum_step_keeps_voices(c: ClipView, voice: Seq<char>, step: usize, enabled: bool)
    requires
        clip_voices_distinct(c),
    ensures
        clip_voices_distinct(spec_set_drum_step(c, voice, step, enabled)),
{
    match c.drum_steps {
        Some(vs) => match first_voice(vs, voice) {
            Some(k) => {
                assert(is_first_voice(vs, voice, k));
                let ws = vs.update(k, VoiceView { steps: vs[k].steps.update(step as int, enabled), ..vs[k] });
                assert forall|i: int| 0 <= i < ws.len() implies #[trigger] ws[i].voice == vs[i].voice by {}
            },
            None => {},
        },
        None => {},
    }
}

/// Every operation keeps the voice names of each drum clip distinct,
/// provided a track or clip that it adds has distinct voice names.
pub proof fn lemma_apply_keeps_voices_distinct(p: ProjectView, op: OperationView, now: nat)
    requires
        voices_distinct(p.tracks),
        op matches OperationView::AddTrack { track } ==> track_voices_distinct(track),
        op matches OperationView::AddClip { clip, .. } ==> clip_voices_distinct(clip),
    ensures
        voices_distinct(spec_apply(p, op, now).tracks),
{
    broadcast use vstd::seq_lib::group_filter_ensures;
    let q = ProjectView { revision: succ_sat(p.revision), ..p };
    match op {
        OperationView::AddTrack { track } => {
            if q.tracks.len() < 64 {
                let r = q.tracks.push(track);
                assert forall|k: int| 0 <= k < r.len() implies track_voices_distinct(#[trigger] r[k]) by {
                    if k < q.tracks.len() {
                        assert(r[k] == q.tracks[k]);
                    }
                }
            }
        },
        OperationView::DeleteTrack { track_id } => {
            if q.tracks.len() > 1 {
                let r = q.tracks.filter(other_track(track_id));
                assert forall|k: int| 0 <= k < r.len() implies track_voices_distinct(#[trigger] r[k]) by {
                    assert(r.contains(r[k]));
                    q.tracks.lemma_filter_contains_rev(other_track(track_id), r[k]);
                }
            }
        },
        OperationView::RenameTrack { track_id, name } => {
            lemma_map_track_voices(q, track_id, |t: TrackView| TrackView { name: spec_clean_name(name, 60), ..t });
        },
        OperationView::SetTrackMixer { track_id, mixer } => {
            lemma_map_track_voices(q, track_id, |t: TrackView| TrackView { mixer, ..t });
        },
        OperationView::SetSynth { track_id, synth } => {
            lemma_map_track_voices(q, track_id, |t: TrackView| TrackView { synth: Some(synth), ..t });
        },
        OperationView::SetSamplerAsset { track_id, sample_id } => {
            lemma_map_track_voices(q, track_id, |t: TrackView| TrackView { sample_id, ..t });
        },
        OperationView::AddClip { track_id, clip } => {
            let f = |t: TrackView| if t.clips.len() < 128 { TrackView { clips: t.clips.push(clip), ..t } } else { t };
            assert forall|t: TrackView| track_voices_distinct(t) implies track_voices_distinct(#[trigger] f(t)) by {
                if t.clips.len() < 128 {
                    let cs = t.clips.push(clip);
                    assert forall|k: int| 0 <= k < cs.len() implies clip_voices_distinct(#[trigger] cs[k]) by {
                        if k < t.clips.len() {
                            assert(cs[k] == t.clips[k]);
                        }
                    }
                }
            }
            lemma_map_track_voices(q, track_id, f);
        },
        OperationView::DeleteClip { track_id, clip_id } => {
            let f = |t: TrackView| TrackView { clips: t.clips.filter(other_clip(clip_id)), ..t };
            assert forall|t: TrackView| track_voices_distinct(t) implies track_voices_distinct(#[trigger] f(t)) by {
                let cs = t.clips.filter(other_clip(clip_id));
                assert forall|k: int| 0 <= k < cs.len() implies clip_voices_distinct(#[trigger] cs[k]) by {
                    assert(cs.contains(cs[k]));
                    t.clips.lemma_filter_contains_rev(other_clip(clip_id), cs[k]);
                }
            }
            lemma_map_track_voices(q, track_id, f);
        },
        OperationView::MoveClip { track_id, clip_id, start_bar } => {
            lemma_map_clip_voices(
                q,
                track_id,
                clip_id,
                |c: ClipView| ClipView { start_bar: min(start_bar as int, pred_sat(q.bars) as int) as usize, ..c },
            );
        },
        OperationView::ResizeClip { track_id, clip_id, length_bars } => {
            lemma_map_clip_voices(
                q,
                track_id,
                clip_id,
                |c: ClipView| ClipView { length_bars: clamp(length_bars as int, 1, q.bars as int) as usize, ..c },
            );
        },
        OperationView::RenameClip { track_id, clip_id, name } => {
            lemma_map_clip_voices(q, track_id, clip_id, |c: ClipView| ClipView { name: spec_clean_name(name, 60), ..c });
        },
        OperationView::SetDrumStep { track_id, clip_id, voice, step, enabled } => {
            let f = |c: ClipView| spec_set_drum_step(c, voice, step, enabled);
            assert forall|c: ClipView| clip_voices_distinct(c) implies clip_voices_distinct(#[trigger] f(c)) by {
                lemma_drum_step_keeps_voices(c, voice, step, enabled);
            }
            lemma_map_clip_voices(q, track_id, clip_id, f);
        },
        OperationView::SetNoteCell { track_id, clip_id, step, note, enabled, velocity, duration_steps } => {
            lemma_map_clip_voices(
                q,
                track_id,
                clip_id,
                |c: ClipView| spec_set_note_cell(c, step, note, enabled, velocity, duration_steps, now),
            );
        },
        OperationView::SetSampleStep { track_id, clip_id, step, enabled, velocity } => {
            lemma_map_clip_voices(q, track_id, clip_id, |c: ClipView| spec_set_sample_step(c, step, enabled, velocity));
        },
        _ => {},
    }
}

/// Setting a sample step twice is the same as setting it once.
pub proof fn lemma_sample_step_idempotent(c: ClipView, step: usize, enabled: bool, velocity: u8)
    ensures
        spec_set_sample_step(spec_set_sample_step(c, step, enabled, velocity), step, enabled, velocity)
            == spec_set_sample_step(c, step, enabled, velocity),
{
    broadcast use vstd::seq_lib::group_filter_ensures;
    let triggers = match c.sample_triggers {
        Some(t) => t,
        None => Seq::empty(),
    };
    let kept = triggers.filter(other_step(step));
    assert forall|i: int| 0 <= i < kept.len() implies (other_step(step))(#[trigger] kept[i]) by {
        triggers.lemma_filter_pred(other_step(step), i);
    }
    lemma_filter_keeps_all(kept, other_step(step));
    if enabled {
        let t = SampleTrigger { step, velocity: clamp(velocity as int, 1, 127) as u8 };
        kept.lemma_filter_push(t, other_step(step));
    }
}

/// The starter project's drum voices have distinct names.
pub proof fn lemma_default_voices_distinct(project_id: Seq<char>, sound: DefaultSound)
    ensures
        voices_distinct(spec_default_project(project_id, sound).tracks),
{
    reveal_strlit("kick");
    reveal_strlit("clap");
    reveal_strlit("hat");
    reveal_strlit("open_hat");
    let ts = spec_default_project(project_id, sound).tracks;
    let vs = ts[0].clips[0].drum_steps->0;
    assert forall|i: int, j: int| 0 <= i < vs.len() && 0 <= j < vs.len() && i != j implies vs[i].voice
        != vs[j].voice by {
        assert(vs[i].voice[0] != vs[j].voice[0]);
    }
    assert forall|k: int| 0 <= k < ts.len() implies track_voices_distinct(#[trigger] ts[k]) by {
        assert forall|m: int| 0 <= m < ts[k].clips.len() implies clip_voices_distinct(#[trigger] ts[k].clips[m]) by {}
    }
}

/// Setting a track's mixer gives the first track of that id exactly the
/// mixer sent, every field of it, and leaves every other track and every
/// other setting of that track as it was.
pub proof fn lemma_set_track_mixer_takes_mixer(p: ProjectView, track_id: Seq<char>, mixer: MixerState, now: nat, i: int)
    requires
        is_first_track(p.tracks, track_id, i),
    ensures
        spec_apply(p, OperationView::SetTrackMixer { track_id, mixer }, now).tracks.len() == p.tracks.len(),
        spec_apply(p, OperationView::SetTrackMixer { track_id, mixer }, now).tracks[i] == (TrackView {
            mixer,
            ..p.tracks[i]
        }),
        forall|k: int|
            0 <= k < p.tracks.len() && k != i ==> spec_apply(p, OperationView::SetTrackMixer { track_id, mixer }, now).tracks[k]
                == p.tracks[k],
{
    lemma_first_track(p.tracks, track_id, i);
}

/// Setting a track's synth gives the first track of that id the synth sent,
/// whatever synth it had, and leaves every other track and every other
/// setting of that track as it was.
pub proof fn lemma_set_synth_takes_synth(p: ProjectView, track_id: Seq<char>, synth: SynthConfig, now: nat, i: int)
    requires
        is_first_track(p.tracks, track_id, i),
    ensures
        spec_apply(p, OperationView::SetSynth { track_id, synth }, now).tracks.len() == p.tracks.len(),
        spec_apply(p, OperationView::SetSynth { track_id, synth }, now).tracks[i] == (TrackView {
            synth: Some(synth),
            ..p.tracks[i]
        }),
        forall|k: int|
            0 <= k < p.tracks.len() && k != i ==> spec_apply(p, OperationView::SetSynth { track_id, synth }, now).tracks[k]
                == p.tracks[k],
{
    lemma_first_track(p.tracks, track_id, i);
}

/// Assigning a sample to a track gives the first track of that id the
/// sample id sent (or none, where none is sent), whatever it had, and leaves
/// every other track and every other setting of that track as it was.
pub proof fn lemma_set_sampler_asset_takes_sample(
    p: ProjectView,
    track_id: Seq<char>,
    sample_id: Option<Seq<char>>,
    now: nat,
    i: int,
)
    requires
        is_first_track(p.tracks, track_id, i),
    ensures
        spec_apply(p, OperationView::SetSamplerAsset { track_id, sample_id }, now).tracks.len() == p.tracks.len(),
        spec_apply(p, OperationView::SetSamplerAsset { track_id, sample_id }, now).tracks[i] == (TrackView {
            sample_id,
            ..p.tracks[i]
        }),
        forall|k: int|
            0 <= k < p.tracks.len() && k != i ==> spec_apply(
                p,
                OperationView::SetSamplerAsset { track_id, sample_id },
                now,
            ).tracks[k] == p.tracks[k],
{
    lemma_first_track(p.tracks, track_id, i);
}

/// Renaming a track gives the first track of that id the cleaned name (at
/// most 60 characters), and changes nothing else.
pub proof fn lemma_rename_track_takes_name(p: ProjectView, track_id: Seq<char>, name: Seq<char>, now: nat, i: int)
    requires
        is_first_track(p.tracks, track_id, i),
    ensures
        spec_apply(p, OperationView::RenameTrack { track_id, name }, now).tracks.len() == p.tracks.len(),
        spec_apply(p, OperationView::RenameTrack { track_id, name }, now).tracks[i] == (TrackView {
            name: spec_clean_name(name, 60),
            ..p.tracks[i]
        }),
        forall|k: int|
            0 <= k < p.tracks.len() && k != i ==> spec_apply(p, OperationView::RenameTrack { track_id, name }, now).tracks[k]
                == p.tracks[k],
{
    lemma_first_track(p.tracks, track_id, i);
}

/// An edit of a track that the project does not hold changes no track.
pub proof fn lemma_missing_track_is_not_edited(p: ProjectView, op: OperationView, now: nat)
    requires
        match op {
            OperationView::RenameTrack { track_id, .. } => forall|k: int| 0 <= k < p.tracks.len() ==> p.tracks[k].id != track_id,
            OperationView::SetTrackMixer { track_id, .. } => forall|k: int| 0 <= k < p.tracks.len() ==> p.tracks[k].id != track_id,
            OperationView::SetSynth { track_id, .. } => forall|k: int| 0 <= k < p.tracks.len() ==> p.tracks[k].id != track_id,
            OperationView::SetSamplerAsset { track_id, .. } => forall|k: int| 0 <= k < p.tracks.len() ==> p.tracks[k].id != track_id,
            OperationView::MoveClip { track_id, .. } => forall|k: int| 0 <= k < p.tracks.len() ==> p.tracks[k].id != track_id,
            OperationView::ResizeClip { track_id, .. } => forall|k: int| 0 <= k < p.tracks.len() ==> p.tracks[k].id != track_id,
            OperationView::RenameClip { track_id, .. } => forall|k: int| 0 <= k < p.tracks.len() ==> p.tracks[k].id != track_id,
            OperationView::SetDrumStep { track_id, .. } => forall|k: int| 0 <= k < p.tracks.len() ==> p.tracks[k].id != track_id,
            _ => false,
        },
    ensures
        spec_apply(p, op, now).tracks == p.tracks,
{
}

/// The clip edits of an operation: the first clip of id `clip_id` in the
/// first track of id `track_id` becomes `edited`; every other clip and
/// track, and the track's own settings, stay as they were.
pub open spec fn only_clip_changed(
    before: Seq<TrackView>,
    after: Seq<TrackView>,
    i: int,
    j: int,
    edited: ClipView,
) -> bool {
    &&& after.len() == before.len()
    &&& forall|k: int| 0 <= k < before.len() && k != i ==> after[k] == before[k]
    &&& after[i] == (TrackView { clips: after[i].clips, ..before[i] })
    &&& after[i].clips.len() == before[i].clips.len()
    &&& forall|m: int| 0 <= m < before[i].clips.len() && m != j ==> after[i].clips[m] == before[i].clips[m]
    &&& after[i].clips[j] == edited
}

/// Moving a clip puts it at the requested bar, or at the last bar where the
/// request lies past the end (bar 0 in a project of no bars), wherever it
/// started; nothing else changes.
pub proof fn lemma_move_clip_puts_clip_at_bar(
    p: ProjectView,
    track_id: Seq<char>,
    clip_id: Seq<char>,
    start_bar: usize,
    now: nat,
    i: int,
    j: int,
)
    requires
        is_first_track(p.tracks, track_id, i),
        is_first_clip(p.tracks[i].clips, clip_id, j),
    ensures
        only_clip_changed(
            p.tracks,
            spec_apply(p, OperationView::MoveClip { track_id, clip_id, start_bar }, now).tracks,
            i,
            j,
            ClipView {
                start_bar: if p.bars == 0 {
                    0
                } else if start_bar < p.bars {
                    start_bar
                } else {
                    (p.bars - 1) as usize
                },
                ..p.tracks[i].clips[j]
            },
        ),
{
    lemma_first_track(p.tracks, track_id, i);
    lemma_first_clip(p.tracks[i].clips, clip_id, j);
}

/// Resizing a clip of a project with bars gives it the requested length,
/// at least one bar and at most the project's bars; nothing else changes.
pub proof fn lemma_resize_clip_sets_length(
    p: ProjectView,
    track_id: Seq<char>,
    clip_id: Seq<char>,
    length_bars: usize,
    now: nat,
    i: int,
    j: int,
)
    requires
        p.bars >= 1,
        is_first_track(p.tracks, track_id, i),
        is_first_clip(p.tracks[i].clips, clip_id, j),
    ensures
        only_clip_changed(
            p.tracks,
            spec_apply(p, OperationView::ResizeClip { track_id, clip_id, length_bars }, now).tracks,
            i,
            j,
            ClipView {
                length_bars: if length_bars == 0 {
                    1
                } else if length_bars > p.bars {
                    p.bars
                } else {
                    length_bars
                },
                ..p.tracks[i].clips[j]
            },
        ),
{
    lemma_first_track(p.tracks, track_id, i);
    lemma_first_clip(p.tracks[i].clips, clip_id, j);
}

/// Renaming a clip gives it the cleaned name (at most 60 characters);
/// nothing else changes.
pub proof fn lemma_rename_clip_takes_name(
    p: ProjectView,
    track_id: Seq<char>,
    clip_id: Seq<char>,
    name: Seq<char>,
    now: nat,
    i: int,
    j: int,
)
    requires
        is_first_track(p.tracks, track_id, i),
        is_first_clip(p.tracks[i].clips, clip_id, j),
    ensures
        only_clip_changed(
            p.tracks,
            spec_apply(p, OperationView::RenameClip { track_id, clip_id, name }, now).tracks,
            i,
            j,
            ClipView { name: spec_clean_name(name, 60), ..p.tracks[i].clips[j] },
        ),
{
    lemma_first_track(p.tracks, track_id, i);
    lemma_first_clip(p.tracks[i].clips, clip_id, j);
}

/// `ws` is `vs` with step `step` of the voice named `voice` set to
/// `enabled`: every voice keeps its name, a voice of another name keeps its
/// steps, and the first voice of that name (the only one, where names are
/// distinct) gets the step set where it lies in its pattern.
pub open spec fn named_voice_edited(
    vs: Seq<VoiceView>,
    ws: Seq<VoiceView>,
    voice: Seq<char>,
    step: usize,
    enabled: bool,
) -> bool {
    &&& ws.len() == vs.len()
    &&& forall|m: int| 0 <= m < vs.len() ==> (#[trigger] ws[m]).voice == vs[m].voice
    &&& forall|m: int| 0 <= m < vs.len() && vs[m].voice != voice ==> (#[trigger] ws[m]).steps == vs[m].steps
    &&& forall|m: int|
        0 <= m < vs.len() && (is_first_voice(vs, voice, m) || (distinct_voices(vs) && vs[m].voice == voice))
            ==> (#[trigger] ws[m]).steps == if step < vs[m].steps.len() {
            vs[m].steps.update(step as int, enabled)
        } else {
            vs[m].steps
        }
}

/// Setting a drum step changes only the voice named `voice`: that voice (the
/// first of that name) gets `step` set to `enabled` when the step lies in
/// its pattern; every voice of another name keeps its steps, and every
/// voice keeps its name. With distinct voice names, the voice named `voice`
/// is the one that changes.
pub proof fn lemma_drum_step_sets_named_voice(
    p: ProjectView,
    track_id: Seq<char>,
    clip_id: Seq<char>,
    voice: Seq<char>,
    step: usize,
    enabled: bool,
    now: nat,
    i: int,
    j: int,
)
    requires
        is_first_track(p.tracks, track_id, i),
        is_first_clip(p.tracks[i].clips, clip_id, j),
        p.tracks[i].clips[j].drum_steps is Some,
    ensures
        ({
            let vs = p.tracks[i].clips[j].drum_steps->0;
            let after = spec_apply(p, OperationView::SetDrumStep { track_id, clip_id, voice, step, enabled }, now).tracks;
            &&& only_clip_changed(p.tracks, after, i, j, ClipView { drum_steps: after[i].clips[j].drum_steps, ..p.tracks[i].clips[j] })
            &&& after[i].clips[j].drum_steps is Some
            &&& after[i].clips[j].drum_steps->0.len() == vs.len()
            &&& named_voice_edited(vs, after[i].clips[j].drum_steps->0, voice, step, enabled)
        }),
{
    lemma_first_track(p.tracks, track_id, i);
    lemma_first_clip(p.tracks[i].clips, clip_id, j);
    let vs = p.tracks[i].clips[j].drum_steps->0;
    let c = p.tracks[i].clips[j];
    let c2 = spec_set_drum_step(c, voice, step, enabled);
    let after = spec_apply(p, OperationView::SetDrumStep { track_id, clip_id, voice, step, enabled }, now).tracks;
    assert(after[i].clips[j] == c2);
    let ws = c2.drum_steps->0;
    assert forall|m: int| 0 <= m < vs.len() && distinct_voices(vs) && vs[m].voice == voice implies is_first_voice(
        vs,
        voice,
        m,
    ) by {
        assert forall|l: int| 0 <= l < m implies vs[l].voice != voice by {
            assert(vs[l].voice != vs[m].voice);
        }
    }
    if exists|k: int| is_first_voice(vs, voice, k) {
        let k = choose|k: int| is_first_voice(vs, voice, k);
        lemma_first_voice(vs, voice, k);
        assert forall|m: int| 0 <= m < vs.len() && is_first_voice(vs, voice, m) implies m == k by {
            if m < k {
                assert(vs[m].voice != voice);
            } else if k < m {
                assert(vs[k].voice != voice);
            }
        }
        if step < vs[k].steps.len() {
            assert(ws == vs.update(k, VoiceView { steps: vs[k].steps.update(step as int, enabled), ..vs[k] }));
            assert forall|m: int| 0 <= m < vs.len() implies (#[trigger] ws[m]).voice == vs[m].voice by {}
            assert forall|m: int| 0 <= m < vs.len() && vs[m].voice != voice implies (#[trigger] ws[m]).steps
                == vs[m].steps by {}
            assert forall|m: int|
                0 <= m < vs.len() && (is_first_voice(vs, voice, m) || (distinct_voices(vs) && vs[m].voice == voice))
                    implies (#[trigger] ws[m]).steps == vs[m].steps.update(step as int, enabled) by {
                assert(m == k);
            }
        } else {
            assert(ws == vs);
            assert forall|m: int|
                0 <= m < vs.len() && (is_first_voice(vs, voice, m) || (distinct_voices(vs) && vs[m].voice == voice))
                    implies (#[trigger] ws[m]).steps == vs[m].steps by {
                assert(m == k);
            }
        }
    } else {
        assert(first_voice(vs, voice) is None);
        assert(ws == vs);
        assert forall|m: int| 0 <= m < vs.len() implies !is_first_voice(vs, voice, m) by {}
        assert forall|m: int| 0 <= m < vs.len() implies !(distinct_voices(vs) && vs[m].voice == voice) by {
            if distinct_voices(vs) && vs[m].voice == voice {
                assert(is_first_voice(vs, voice, m));
            }
        }
    }
    assert(c2 == ClipView { drum_steps: c2.drum_steps, ..c });
    assert(named_voice_edited(vs, ws, voice, step, enabled));
}

/// The project-wide settings: each operation sets its own setting as sent,
/// bounded where the server bounds it, and keeps the tracks and samples.
pub proof fn lemma_project_settings(p: ProjectView, op: OperationView, now: nat)
    ensures
        ({
            let r = spec_apply(p, op, now);
            &&& op matches OperationView::RenameProject { name } ==> r.name == spec_clean_name(name, 80)
                && r.tracks == p.tracks
            &&& op matches OperationView::SetBpm { bpm } ==> r.bpm == (if bpm < 50 {
                50u16
            } else if bpm > 220 {
                220u16
            } else {
                bpm
            }) && r.tracks == p.tracks
            &&& op matches OperationView::SetPlaying { playing, start_at_ms } ==> r.playing == playing && r.start_at_ms
                == (if playing {
                start_at_ms
            } else {
                None
            }) && r.tracks == p.tracks
            &&& op matches OperationView::SetMasterVolume { volume } ==> r.master_volume == volume && r.tracks
                == p.tracks
            &&& op matches OperationView::SetPublic { is_public } ==> r.is_public == is_public && r.tracks == p.tracks
            &&& op matches OperationView::SetBars { bars } ==> {
                let b: int = if bars < 1 {
                    1
                } else if bars > 64 {
                    64
                } else {
                    bars as int
                };
                let end: int = if p.loop_end_bar == 0 {
                    1
                } else if p.loop_end_bar > b {
                    b
                } else {
                    p.loop_end_bar as int
                };
                &&& r.bars == b
                &&& p.loop_start_bar >= end ==> r.loop_start_bar == 0 && r.loop_end_bar == b
                &&& p.loop_start_bar < end ==> r.loop_start_bar == p.loop_start_bar && r.loop_end_bar == end
                &&& r.tracks == p.tracks
            }
            &&& op matches OperationView::SetLoop { start_bar, end_bar } ==> {
                let start: int = if p.bars == 0 {
                    0
                } else if start_bar < p.bars {
                    start_bar as int
                } else {
                    p.bars - 1
                };
                &&& r.loop_start_bar == start
                &&& r.loop_end_bar == (if end_bar <= start {
                    if start + 1 > p.bars {
                        p.bars as int
                    } else {
                        start + 1
                    }
                } else if end_bar > p.bars {
                    p.bars as int
                } else {
                    end_bar as int
                })
                &&& r.tracks == p.tracks
            }
            &&& op matches OperationView::AddTrack { track } ==> r.tracks == (if p.tracks.len() < 64 {
                p.tracks.push(track)
            } else {
                p.tracks
            })
            &&& op matches OperationView::AddSampleAsset { asset } ==> {
                &&& (exists|k: int| 0 <= k < p.samples.len() && p.samples[k].id == asset.id) ==> r.samples == p.samples
                &&& (forall|k: int| 0 <= k < p.samples.len() ==> p.samples[k].id != asset.id) ==> r.samples
                    == p.samples.push(asset)
            }
        }),
{
}

/// Deleting a track, where more than one is left to delete from, removes
/// every track of that id and keeps every other; with a single track the
/// project keeps it.
pub proof fn lemma_delete_track_removes_id(p: ProjectView, track_id: Seq<char>, now: nat)
    ensures
        ({
            let r = spec_apply(p, OperationView::DeleteTrack { track_id }, now).tracks;
            &&& p.tracks.len() <= 1 ==> r == p.tracks
            &&& p.tracks.len() > 1 ==> {
                &&& forall|k: int| 0 <= k < r.len() ==> (#[trigger] r[k]).id != track_id && p.tracks.contains(r[k])
                &&& forall|k: int| 0 <= k < p.tracks.len() && (#[trigger] p.tracks[k]).id != track_id ==> r.contains(p.tracks[k])
            }
        }),
{
    broadcast use vstd::seq_lib::group_filter_ensures;
    let r = spec_apply(p, OperationView::DeleteTrack { track_id }, now).tracks;
    if p.tracks.len() > 1 {
        assert forall|k: int| 0 <= k < r.len() implies (#[trigger] r[k]).id != track_id && p.tracks.contains(r[k]) by {
            p.tracks.lemma_filter_pred(other_track(track_id), k);
            assert(r.contains(r[k]));
            p.tracks.lemma_filter_contains_rev(other_track(track_id), r[k]);
        }
        assert forall|k: int| 0 <= k < p.tracks.len() && (#[trigger] p.tracks[k]).id != track_id implies r.contains(p.tracks[k]) by {
            p.tracks.lemma_filter_contains(other_track(track_id), k);
        }
    }
}

/// Adding a clip appends it to the first track of that id, unless the
/// track already holds 128 clips; deleting a clip removes every clip of
/// that id from the track and keeps every other. Other tracks, and the
/// track's own settings, stay as they were.
pub proof fn lemma_clip_list_edits(p: ProjectView, op: OperationView, now: nat, i: int)
    requires
        match op {
            OperationView::AddClip { track_id, .. } => is_first_track(p.tracks, track_id, i),
            OperationView::DeleteClip { track_id, .. } => is_first_track(p.tracks, track_id, i),
            _ => false,
        },
    ensures
        ({
            let r = spec_apply(p, op, now).tracks;
            let cs = p.tracks[i].clips;
            &&& r.len() == p.tracks.len()
            &&& forall|k: int| 0 <= k < p.tracks.len() && k != i ==> r[k] == p.tracks[k]
            &&& r[i] == (TrackView { clips: r[i].clips, ..p.tracks[i] })
            &&& op matches OperationView::AddClip { clip, .. } ==> r[i].clips == (if cs.len() < 128 {
                cs.push(clip)
            } else {
                cs
            })
            &&& op matches OperationView::DeleteClip { clip_id, .. } ==> {
                &&& forall|m: int|
                    0 <= m < r[i].clips.len() ==> (#[trigger] r[i].clips[m]).id != clip_id && cs.contains(r[i].clips[m])
                &&& forall|m: int| 0 <= m < cs.len() && (#[trigger] cs[m]).id != clip_id ==> r[i].clips.contains(cs[m])
            }
        }),
{
    broadcast use vstd::seq_lib::group_filter_ensures;
    match op {
        OperationView::AddClip { track_id, .. } => {
            lemma_first_track(p.tracks, track_id, i);
        },
        OperationView::DeleteClip { track_id, clip_id } => {
            lemma_first_track(p.tracks, track_id, i);
            let cs = p.tracks[i].clips;
            let kept = cs.filter(other_clip(clip_id));
            let r = spec_apply(p, op, now).tracks;
            assert(r[i].clips == kept);
            assert forall|m: int| 0 <= m < kept.len() implies (#[trigger] kept[m]).id != clip_id && cs.contains(kept[m]) by {
                cs.lemma_filter_pred(other_clip(clip_id), m);
                assert(kept.contains(kept[m]));
                cs.lemma_filter_contains_rev(other_clip(clip_id), kept[m]);
            }
            assert forall|m: int| 0 <= m < cs.len() && (#[trigger] cs[m]).id != clip_id implies kept.contains(cs[m]) by {
                cs.lemma_filter_contains(other_clip(clip_id), m);
            }
        },
        _ => {},
    }
}

/// The note a note cell gets at time `now`: id `note-` and the time in
/// milliseconds, length 1 to 64 steps, velocity 1 to 127.
pub open spec fn cell_note(step: usize, note: u8, velocity: u8, duration_steps: usize, now: nat) -> NoteView {
    NoteView {
        id: "note-"@ + decimal(now),
        note,
        start_step: step,
        duration_steps: if duration_steps < 1 {
            1
        } else if duration_steps > 64 {
            64
        } else {
            duration_steps
        },
        velocity: if velocity < 1 {
            1
        } else if velocity > 127 {
            127
        } else {
            velocity
        },
    }
}

/// Setting a note cell of a clip: the notes on other cells stay, and the
/// cell holds the new note when enabled, nothing when disabled. Nothing
/// else of the project changes.
pub proof fn lemma_note_cell_contents(
    p: ProjectView,
    track_id: Seq<char>,
    clip_id: Seq<char>,
    step: usize,
    note: u8,
    enabled: bool,
    velocity: u8,
    duration_steps: usize,
    now: nat,
    i: int,
    j: int,
)
    requires
        is_first_track(p.tracks, track_id, i),
        is_first_clip(p.tracks[i].clips, clip_id, j),
    ensures
        ({
            let c = p.tracks[i].clips[j];
            let old_notes = match c.notes {
                Some(n) => n,
                None => Seq::empty(),
            };
            let after = spec_apply(
                p,
                OperationView::SetNoteCell { track_id, clip_id, step, note, enabled, velocity, duration_steps },
                now,
            ).tracks;
            &&& only_clip_changed(p.tracks, after, i, j, ClipView { notes: after[i].clips[j].notes, ..c })
            &&& after[i].clips[j].notes is Some
            &&& cell_edited(old_notes, after[i].clips[j].notes->0, step, note, enabled, cell_note(step, note, velocity, duration_steps, now))
        }),
{
    broadcast use vstd::seq_lib::group_filter_ensures;
    lemma_first_track(p.tracks, track_id, i);
    lemma_first_clip(p.tracks[i].clips, clip_id, j);
    let c = p.tracks[i].clips[j];
    let old_notes = match c.notes {
        Some(n) => n,
        None => Seq::empty(),
    };
    let kept = old_notes.filter(other_cell(step, note));
    let added = cell_note(step, note, velocity, duration_steps, now);
    let ns = if enabled { kept.push(added) } else { kept };
    let after = spec_apply(
        p,
        OperationView::SetNoteCell { track_id, clip_id, step, note, enabled, velocity, duration_steps },
        now,
    ).tracks;
    assert(after[i].clips[j].notes->0 == ns);
    assert forall|m: int| 0 <= m < kept.len() implies !((#[trigger] kept[m]).start_step == step && kept[m].note == note)
        && old_notes.contains(kept[m]) by {
        old_notes.lemma_filter_pred(other_cell(step, note), m);
        assert(kept.contains(kept[m]));
        old_notes.lemma_filter_contains_rev(other_cell(step, note), kept[m]);
    }
    assert forall|m: int| 0 <= m < old_notes.len() && !((#[trigger] old_notes[m]).start_step == step && old_notes[m].note == note)
        implies kept.contains(old_notes[m]) by {
        old_notes.lemma_filter_contains(other_cell(step, note), m);
    }
    assert forall|m: int| 0 <= m < ns.len() implies if (#[trigger] ns[m]).start_step == step && ns[m].note == note {
        enabled && ns[m] == added
    } else {
        old_notes.contains(ns[m])
    } by {
        if m < kept.len() {
            assert(ns[m] == kept[m]);
        }
    }
    assert forall|m: int| 0 <= m < old_notes.len() && !((#[trigger] old_notes[m]).start_step == step && old_notes[m].note == note)
        implies ns.contains(old_notes[m]) by {
        let e = old_notes[m];
        assert(kept.contains(e));
        let x = choose|x: int| 0 <= x < kept.len() && kept[x] == e;
        assert(ns[x] == e);
    }
    if enabled {
        assert(ns[kept.len() as int] == added);
    }
}

/// `after` holds the notes of `before` that are not on the cell (`step`,
/// `note`), and on that cell exactly `added` when enabled, nothing when
/// disabled.
pub open spec fn cell_edited(
    before: Seq<NoteView>,
    after: Seq<NoteView>,
    step: usize,
    note: u8,
    enabled: bool,
    added: NoteView,
) -> bool {
    &&& forall|m: int|
        0 <= m < after.len() ==> if (#[trigger] after[m]).start_step == step && after[m].note == note {
            enabled && after[m] == added
        } else {
            before.contains(after[m])
        }
    &&& forall|m: int|
        0 <= m < before.len() && !((#[trigger] before[m]).start_step == step && before[m].note == note)
            ==> after.contains(before[m])
    &&& enabled ==> after.contains(added)
}

/// `after` holds the triggers of `before` on other steps, and on `step`
/// exactly `added` when enabled, nothing when disabled.
pub open spec fn step_edited(
    before: Seq<SampleTrigger>,
    after: Seq<SampleTrigger>,
    step: usize,
    enabled: bool,
    added: SampleTrigger,
) -> bool {
    &&& forall|m: int|
        0 <= m < after.len() ==> if (#[trigger] after[m]).step == step {
            enabled && after[m] == added
        } else {
            before.contains(after[m])
        }
    &&& forall|m: int| 0 <= m < before.len() && (#[trigger] before[m]).step != step ==> after.contains(before[m])
    &&& enabled ==> after.contains(added)
}

/// Setting a sample step of a clip: the triggers on other steps stay, and
/// the step holds a trigger of velocity 1 to 127 when enabled, none when
/// disabled. Nothing else of the project changes.
pub proof fn lemma_sample_step_contents(
    p: ProjectView,
    track_id: Seq<char>,
    clip_id: Seq<char>,
    step: usize,
    enabled: bool,
    velocity: u8,
    now: nat,
    i: int,
    j: int,
)
    requires
        is_first_track(p.tracks, track_id, i),
        is_first_clip(p.tracks[i].clips, clip_id, j),
    ensures
        ({
            let c = p.tracks[i].clips[j];
            let old_triggers = match c.sample_triggers {
                Some(t) => t,
                None => Seq::empty(),
            };
            let after = spec_apply(
                p,
                OperationView::SetSampleStep { track_id, clip_id, step, enabled, velocity },
                now,
            ).tracks;
            &&& only_clip_changed(p.tracks, after, i, j, ClipView { sample_triggers: after[i].clips[j].sample_triggers, ..c })
            &&& after[i].clips[j].sample_triggers is Some
            &&& step_edited(
                old_triggers,
                after[i].clips[j].sample_triggers->0,
                step,
                enabled,
                SampleTrigger {
                    step,
                    velocity: if velocity < 1 {
                        1
                    } else if velocity > 127 {
                        127
                    } else {
                        velocity
                    },
                },
            )
        }),
{
    broadcast use vstd::seq_lib::group_filter_ensures;
    lemma_first_track(p.tracks, track_id, i);
    lemma_first_clip(p.tracks[i].clips, clip_id, j);
    let c = p.tracks[i].clips[j];
    let old_triggers = match c.sample_triggers {
        Some(t) => t,
        None => Seq::empty(),
    };
    let kept = old_triggers.filter(other_step(step));
    let added = SampleTrigger { step, velocity: clamp(velocity as int, 1, 127) as u8 };
    let ts = if enabled { kept.push(added) } else { kept };
    let after = spec_apply(p, OperationView::SetSampleStep { track_id, clip_id, step, enabled, velocity }, now).tracks;
    assert(after[i].clips[j].sample_triggers->0 == ts);
    assert forall|m: int| 0 <= m < kept.len() implies (#[trigger] kept[m]).step != step && old_triggers.contains(kept[m]) by {
        old_triggers.lemma_filter_pred(other_step(step), m);
        assert(kept.contains(kept[m]));
        old_triggers.lemma_filter_contains_rev(other_step(step), kept[m]);
    }
    assert forall|m: int| 0 <= m < ts.len() implies if (#[trigger] ts[m]).step == step {
        enabled && ts[m] == added
    } else {
        old_triggers.contains(ts[m])
    } by {
        if m < kept.len() {
            assert(ts[m] == kept[m]);
        }
    }
    assert forall|m: int| 0 <= m < old_triggers.len() && (#[trigger] old_triggers[m]).step != step implies ts.contains(
        old_triggers[m],
    ) by {
        old_triggers.lemma_filter_contains(other_step(step), m);
        let e = old_triggers[m];
        let x = choose|x: int| 0 <= x < kept.len() && kept[x] == e;
        assert(ts[x] == e);
    }
    if enabled {
        assert(ts[kept.len() as int] == added);
    }
}

} // verus!
