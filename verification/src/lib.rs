//! Verified core of the MIDICOLLAB realtime studio backend: the MIDI wire
//! formats and the per-room note tracker, token checking, text sanitising,
//! the collaborative project document and its operations, and the room and
//! request decisions that the server makes.

pub mod midi;
pub mod operation;
pub mod project;
pub mod relay;
pub mod requests;
pub mod room;
pub mod text;
pub mod token;
