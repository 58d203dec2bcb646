//! The MIDI events the collaboration relays: their wire forms, and which
//! notes each client holds in each room.
use std::collections::HashMap;
use vstd::prelude::*;

verus! {

/// Identifies one connected client.
pub type ClientId = u64;

/// Identifies one room of the TCP relay.
pub type RoomId = u64;

/// A normalised MIDI event: the three kinds of message the collaboration
/// relays between clients.
#[derive(Debug, Clone, Copy, PartialEq, Eq, Structural)]
pub enum MidiEvent {
    NoteOn { channel: u8, note: u8, velocity: u8 },
    NoteOff { channel: u8, note: u8, velocity: u8 },
    ControlChange { channel: u8, controller: u8, value: u8 },
}

/// The four-byte wire form of an event: a kind tag (1, 2 or 3) and the
/// three payload bytes in declaration order.
pub open spec fn spec_event_bytes(e: MidiEvent) -> Seq<u8> {
    match e {
        MidiEvent::NoteOn { channel, note, velocity } => seq![1u8, channel, note, velocity],
        MidiEvent::NoteOff { channel, note, velocity } => seq![2u8, channel, note, velocity],
        MidiEvent::ControlChange { channel, controller, value } => seq![3u8, channel, controller, value],
    }
}

/// What `event_from_bytes` gives for a byte sequence.
pub open spec fn spec_event_from_bytes(b: Seq<u8>) -> Option<MidiEvent> {
    if b.len() != 4 {
        None
    } else if b[0] == 1 {
        Some(MidiEvent::NoteOn { channel: b[1], note: b[2], velocity: b[3] })
    } else if b[0] == 2 {
        Some(MidiEvent::NoteOff { channel: b[1], note: b[2], velocity: b[3] })
    } else if b[0] == 3 {
        Some(MidiEvent::ControlChange { channel: b[1], controller: b[2], value: b[3] })
    } else {
        None
    }
}

/// The three-byte MIDI message of an event: status byte (kind nibble and the
/// low four bits of the channel) followed by the two data bytes.
pub open spec fn spec_midi_bytes(e: MidiEvent) -> Seq<u8> {
    match e {
        MidiEvent::NoteOn { channel, note, velocity } => seq![(0x90u8 | (channel & 0x0Fu8)) as u8, note, velocity],
        MidiEvent::NoteOff { channel, note, velocity } => seq![(0x80u8 | (channel & 0x0Fu8)) as u8, note, velocity],
        MidiEvent::ControlChange { channel, controller, value } => seq![(0xB0u8 | (channel & 0x0Fu8)) as u8, controller, value],
    }
}

/// What `parse_midi` gives for a raw MIDI message: only the first three
/// bytes are read; a note-on with velocity 0 is a note-off.
pub open spec fn spec_parse_midi(m: Seq<u8>) -> Option<MidiEvent> {
    if m.len() < 3 {
        None
    } else {
        let kind = m[0] & 0xF0u8;
        let channel = m[0] & 0x0Fu8;
        if kind == 0x90u8 && m[2] == 0 {
            Some(MidiEvent::NoteOff { channel, note: m[1], velocity: m[2] })
        } else if kind == 0x90u8 {
            Some(MidiEvent::NoteOn { channel, note: m[1], velocity: m[2] })
        } else if kind == 0x80u8 {
            Some(MidiEvent::NoteOff { channel, note: m[1], velocity: m[2] })
        } else if kind == 0xB0u8 {
            Some(MidiEvent::ControlChange { channel, controller: m[1], value: m[2] })
        } else {
            None
        }
    }
}

impl MidiEvent {
    pub const BYTE_LEN: usize = 4;

    pub fn to_bytes(&self) -> (bytes: [u8; 4])
        ensures
            bytes@ == spec_event_bytes(*self),
    {
        match self {
            MidiEvent::NoteOn { channel, note, velocity } => [1, *channel, *note, *velocity],
            MidiEvent::NoteOff { channel, note, velocity } => [2, *channel, *note, *velocity],
            MidiEvent::ControlChange { channel, controller, value } => [3, *channel, *controller, *value],
        }
    }

    /// Converts the normalised event back into a real three-byte MIDI
    /// message, so a remote event can be emitted to a synth, DAW or virtual
    /// MIDI port.
    pub fn to_midi_bytes(&self) -> (bytes: [u8; 3])
        ensures
            bytes@ == spec_midi_bytes(*self),
    {
        match self {
            MidiEvent::NoteOn { channel, note, velocity } => [0x90 | (*channel & 0x0F), *note, *velocity],
            MidiEvent::NoteOff { channel, note, velocity } => [0x80 | (*channel & 0x0F), *note, *velocity],
            MidiEvent::ControlChange { channel, controller, value } => [0xB0 | (*channel & 0x0F), *controller, *value],
        }
    }
}

pub fn event_from_bytes(bytes: &[u8]) -> (event: Option<MidiEvent>)
    ensures
        event == spec_event_from_bytes(bytes@),
{
    if bytes.len() != 4 {
        return None;
    }
    let kind = bytes[0];
    if kind == 1 {
        Some(MidiEvent::NoteOn { channel: bytes[1], note: bytes[2], velocity: bytes[3] })
    } else if kind == 2 {
        Some(MidiEvent::NoteOff { channel: bytes[1], note: bytes[2], velocity: bytes[3] })
    } else if kind == 3 {
        Some(MidiEvent::ControlChange { channel: bytes[1], controller: bytes[2], value: bytes[3] })
    } else {
        None
    }
}

pub fn parse_midi(message: &[u8]) -> (event: Option<MidiEvent>)
    ensures
        event == spec_parse_midi(message@),
{
    if message.len() < 3 {
        return None;
    }
    let status = message[0];
    let kind = status & 0xF0;
    let channel = status & 0x0F;
    let data1 = message[1];
    let data2 = message[2];
    if kind == 0x90 && data2 == 0 {
        Some(MidiEvent::NoteOff { channel, note: data1, velocity: data2 })
    } else if kind == 0x90 {
        Some(MidiEvent::NoteOn { channel, note: data1, velocity: data2 })
    } else if kind == 0x80 {
        Some(MidiEvent::NoteOff { channel, note: data1, velocity: data2 })
    } else if kind == 0xB0 {
        Some(MidiEvent::ControlChange { channel, controller: data1, value: data2 })
    } else {
        None
    }
}

/// The big-endian bytes of a 64-bit identifier, most significant first.
pub open spec fn spec_be_bytes(x: u64) -> Seq<u8> {
    seq![
        (x >> 56u64) as u8, (x >> 48u64) as u8, (x >> 40u64) as u8, (x >> 32u64) as u8,
        (x >> 24u64) as u8, (x >> 16u64) as u8, (x >> 8u64) as u8, x as u8,
    ]
}

/// The 64-bit identifier whose big-endian bytes are the first eight of `b`.
pub open spec fn spec_from_be(b: Seq<u8>) -> u64 {
    ((b[0] as u64) << 56u64) | ((b[1] as u64) << 48u64) | ((b[2] as u64) << 40u64)
        | ((b[3] as u64) << 32u64) | ((b[4] as u64) << 24u64) | ((b[5] as u64) << 16u64)
        | ((b[6] as u64) << 8u64) | (b[7] as u64)
}

/// An event together with the client that produced it, as the relay
/// forwards it to the other clients of a room.
#[derive(Debug, Clone, Copy, PartialEq, Eq, Structural)]
pub struct NetworkEvent {
    pub sender_id: ClientId,
    pub event: MidiEvent,
}

/// The twelve-byte wire form: sender id big-endian, then the event bytes.
pub open spec fn spec_network_bytes(n: NetworkEvent) -> Seq<u8> {
    spec_be_bytes(n.sender_id) + spec_event_bytes(n.event)
}

/// What `NetworkEvent::from_bytes` gives for a byte sequence.
pub open spec fn spec_network_from_bytes(b: Seq<u8>) -> Option<NetworkEvent> {
    if b.len() != 12 {
        None
    } else {
        match spec_event_from_bytes(b.subrange(8, 12)) {
            Some(event) => Some(NetworkEvent { sender_id: spec_from_be(b), event }),
            None => None,
        }
    }
}

impl NetworkEvent {
    pub const BYTE_LEN: usize = 12;

    pub fn to_bytes(&self) -> (bytes: [u8; 12])
        ensures
            bytes@ == spec_network_bytes(*self),
    {
        let x = self.sender_id;
        let e = self.event.to_bytes();
        let bytes: [u8; 12] = [
            (x >> 56) as u8, (x >> 48) as u8, (x >> 40) as u8, (x >> 32) as u8,
            (x >> 24) as u8, (x >> 16) as u8, (x >> 8) as u8, x as u8,
            e[0], e[1], e[2], e[3],
        ];
        assert(bytes@ =~= spec_network_bytes(*self));
        bytes
    }

    pub fn from_bytes(bytes: &[u8]) -> (res: Option<NetworkEvent>)
        ensures
            res == spec_network_from_bytes(bytes@),
    {
        if bytes.len() != 12 {
            return None;
        }
        let sender_id: u64 = ((bytes[0] as u64) << 56) | ((bytes[1] as u64) << 48)
            | ((bytes[2] as u64) << 40) | ((bytes[3] as u64) << 32) | ((bytes[4] as u64) << 24)
            | ((bytes[5] as u64) << 16) | ((bytes[6] as u64) << 8) | (bytes[7] as u64);
        let tail: [u8; 4] = [bytes[8], bytes[9], bytes[10], bytes[11]];
        assert(tail@ =~= bytes@.subrange(8, 12));
        match event_from_bytes(&tail) {
            Some(event) => Some(NetworkEvent { sender_id, event }),
            None => None,
        }
    }
}

/// Decoding the wire form of an event gives the event back.
pub proof fn lemma_event_bytes_roundtrip(e: MidiEvent)
    ensures
        spec_event_from_bytes(spec_event_bytes(e)) == Some(e),
{
}

/// A byte sequence that decodes to an event is exactly that event's wire form.
pub proof fn lemma_event_bytes_canonical(b: Seq<u8>)
    ensures
        spec_event_from_bytes(b) matches Some(e) ==> spec_event_bytes(e) == b,
{
    if let Some(e) = spec_event_from_bytes(b) {
        assert(spec_event_bytes(e) =~= b);
    }
}

proof fn lemma_be_roundtrip(x: u64)
    ensures
        spec_from_be(spec_be_bytes(x)) == x,
{
    let b = spec_be_bytes(x);
    let (b0, b1, b2, b3, b4, b5, b6, b7) = (b[0], b[1], b[2], b[3], b[4], b[5], b[6], b[7]);
    assert(b0 == (x >> 56u64) as u8 && b1 == (x >> 48u64) as u8 && b2 == (x >> 40u64) as u8
        && b3 == (x >> 32u64) as u8 && b4 == (x >> 24u64) as u8 && b5 == (x >> 16u64) as u8
        && b6 == (x >> 8u64) as u8 && b7 == x as u8);
    assert(
        b0 == (x >> 56u64) as u8 && b1 == (x >> 48u64) as u8 && b2 == (x >> 40u64) as u8
        && b3 == (x >> 32u64) as u8 && b4 == (x >> 24u64) as u8 && b5 == (x >> 16u64) as u8
        && b6 == (x >> 8u64) as u8 && b7 == x as u8
        ==> ((b0 as u64) << 56u64) | ((b1 as u64) << 48u64) | ((b2 as u64) << 40u64)
        | ((b3 as u64) << 32u64) | ((b4 as u64) << 24u64) | ((b5 as u64) << 16u64)
        | ((b6 as u64) << 8u64) | (b7 as u64) == x
    ) by (bit_vector);
}

/// Decoding the wire form of a network event gives the network event back.
pub proof fn lemma_network_bytes_roundtrip(n: NetworkEvent)
    ensures
        spec_network_from_bytes(spec_network_bytes(n)) == Some(n),
{
    let b = spec_network_bytes(n);
    assert(b.subrange(8, 12) =~= spec_event_bytes(n.event));
    assert(b.subrange(0, 8) =~= spec_be_bytes(n.sender_id));
    assert(forall|i: int| 0 <= i < 8 ==> b[i] == spec_be_bytes(n.sender_id)[i]);
    lemma_be_roundtrip(n.sender_id);
    assert(spec_from_be(b) == spec_from_be(spec_be_bytes(n.sender_id)));
}

/// Turning a normalised event into a MIDI message and parsing it again gives
/// the event back, when the channel fits in four bits and the event is not a
/// note-on of velocity 0 (MIDI reads that as a note-off).
pub proof fn lemma_midi_bytes_roundtrip(e: MidiEvent)
    requires
        match e {
            MidiEvent::NoteOn { channel, velocity, .. } => channel < 16 && velocity != 0,
            MidiEvent::NoteOff { channel, .. } => channel < 16,
            MidiEvent::ControlChange { channel, .. } => channel < 16,
        },
    ensures
        spec_parse_midi(spec_midi_bytes(e)) == Some(e),
{
    match e {
        MidiEvent::NoteOn { channel, .. } => {
            assert(channel < 16 ==> ((0x90u8 | (channel & 0x0Fu8)) & 0xF0u8) == 0x90u8
                && ((0x90u8 | (channel & 0x0Fu8)) & 0x0Fu8) == channel) by (bit_vector);
        },
        MidiEvent::NoteOff { channel, .. } => {
            assert(channel < 16 ==> ((0x80u8 | (channel & 0x0Fu8)) & 0xF0u8) == 0x80u8
                && ((0x80u8 | (channel & 0x0Fu8)) & 0x0Fu8) == channel) by (bit_vector);
        },
        MidiEvent::ControlChange { channel, .. } => {
            assert(channel < 16 ==> ((0xB0u8 | (channel & 0x0Fu8)) & 0xF0u8) == 0xB0u8
                && ((0xB0u8 | (channel & 0x0Fu8)) & 0x0Fu8) == channel) by (bit_vector);
        },
    }
}

/// Re-encoding a parsed MIDI message gives its first three bytes back, but
/// for a note-on of velocity 0, which is read as a note-off.
pub proof fn lemma_parse_midi_reencodes(m: Seq<u8>)
    requires
        spec_parse_midi(m) is Some,
        !((m[0] & 0xF0u8) == 0x90u8 && m[2] == 0),
    ensures
        spec_midi_bytes(spec_parse_midi(m)->0) == m.take(3),
{
    let b = m[0];
    assert((b & 0xF0u8) == 0x90u8 ==> (0x90u8 | ((b & 0x0Fu8) & 0x0Fu8)) == b) by (bit_vector);
    assert((b & 0xF0u8) == 0x80u8 ==> (0x80u8 | ((b & 0x0Fu8) & 0x0Fu8)) == b) by (bit_vector);
    assert((b & 0xF0u8) == 0xB0u8 ==> (0xB0u8 | ((b & 0x0Fu8) & 0x0Fu8)) == b) by (bit_vector);
    assert(spec_midi_bytes(spec_parse_midi(m)->0) =~= m.take(3));
}

/// The notes held by each client of each room, as a nested map of sets of
/// `(channel, note)` pairs.
pub open spec fn notes_view(m: HashMap<RoomId, HashMap<ClientId, Vec<(u8, u8)>>>) -> Map<
    RoomId,
    Map<ClientId, Set<(u8, u8)>>,
> {
    m@.map_values(|clients: HashMap<ClientId, Vec<(u8, u8)>>| clients_view(clients))
}

/// The notes held by each client of one room.
pub open spec fn clients_view(c: HashMap<ClientId, Vec<(u8, u8)>>) -> Map<ClientId, Set<(u8, u8)>> {
    c@.map_values(|notes: Vec<(u8, u8)>| notes@.to_set())
}

/// The notes of `client` in `room`, empty where there are none.
pub open spec fn held(v: Map<RoomId, Map<ClientId, Set<(u8, u8)>>>, room: RoomId, client: ClientId) -> Set<(u8, u8)> {
    if v.contains_key(room) && v[room].contains_key(client) {
        v[room][client]
    } else {
        Set::empty()
    }
}

/// Stores `notes` for `client` in `room`, dropping the client when the set is
/// empty and the room when it has no client left.
pub open spec fn spec_with_held(
    v: Map<RoomId, Map<ClientId, Set<(u8, u8)>>>,
    room: RoomId,
    client: ClientId,
    notes: Set<(u8, u8)>,
) -> Map<RoomId, Map<ClientId, Set<(u8, u8)>>> {
    let clients = if v.contains_key(room) { v[room] } else { Map::empty() };
    let clients2 = if notes.is_empty() { clients.remove(client) } else { clients.insert(client, notes) };
    if clients2.is_empty() { v.remove(room) } else { v.insert(room, clients2) }
}

/// The note tracker after `event` from `client` in `room`: a note-on adds
/// the note, a note-off removes it, a control change leaves the tracker alone.
pub open spec fn spec_apply(
    v: Map<RoomId, Map<ClientId, Set<(u8, u8)>>>,
    room: RoomId,
    client: ClientId,
    event: MidiEvent,
) -> Map<RoomId, Map<ClientId, Set<(u8, u8)>>> {
    match event {
        MidiEvent::NoteOn { channel, note, .. } => spec_with_held(v, room, client, held(v, room, client).insert((channel, note))),
        MidiEvent::NoteOff { channel, note, .. } => {
            if v.contains_key(room) && v[room].contains_key(client) {
                spec_with_held(v, room, client, held(v, room, client).remove((channel, note)))
            } else {
                v
            }
        },
        MidiEvent::ControlChange { .. } => v,
    }
}

/// The note tracker after `client` leaves `room`.
pub open spec fn spec_remove_client(
    v: Map<RoomId, Map<ClientId, Set<(u8, u8)>>>,
    room: RoomId,
    client: ClientId,
) -> Map<RoomId, Map<ClientId, Set<(u8, u8)>>> {
    if v.contains_key(room) {
        spec_with_held(v, room, client, Set::empty())
    } else {
        v
    }
}

/// No room without clients and no client without notes is kept.
pub open spec fn no_empty_entries(v: Map<RoomId, Map<ClientId, Set<(u8, u8)>>>) -> bool {
    forall|r: RoomId|
        #![trigger v[r]]
        v.contains_key(r) ==> !v[r].is_empty() && forall|c: ClientId|
            #![trigger v[r][c]]
            v[r].contains_key(c) ==> !v[r][c].is_empty()
}

/// Which notes each client of each room currently holds down.
#[derive(Debug)]
pub struct MidiState {
    active_notes: HashMap<RoomId, HashMap<ClientId, Vec<(u8, u8)>>>,
}

impl View for MidiState {
    type V = Map<RoomId, Map<ClientId, Set<(u8, u8)>>>;

    closed spec fn view(&self) -> Self::V {
        notes_view(self.active_notes)
    }
}

spec fn wf_notes(m: HashMap<RoomId, HashMap<ClientId, Vec<(u8, u8)>>>) -> bool {
    forall|r: RoomId|
        #![trigger m@[r]]
        m@.contains_key(r) ==> !m@[r]@.is_empty() && forall|c: ClientId|
            #![trigger m@[r]@[c]]
            m@[r]@.contains_key(c) ==> m@[r]@[c]@.len() > 0 && m@[r]@[c]@.no_duplicates()
}

fn position_of(notes: &Vec<(u8, u8)>, key: (u8, u8)) -> (pos: Option<usize>)
    ensures
        match pos {
            Some(i) => i < notes@.len() && notes@[i as int] == key,
            None => !notes@.contains(key),
        },
{
    let mut i: usize = 0;
    while i < notes.len()
        invariant
            i <= notes@.len(),
            forall|j: int| 0 <= j < i ==> notes@[j] != key,
        decreases notes@.len() - i,
    {
        if notes[i].0 == key.0 && notes[i].1 == key.1 {
            return Some(i);
        }
        i = i + 1;
    }
    None
}

impl MidiState {
    #[verifier::type_invariant]
    spec fn inv(self) -> bool {
        wf_notes(self.active_notes)
    }

    pub fn new() -> (s: Self)
        ensures
            s@ == Map::<RoomId, Map<ClientId, Set<(u8, u8)>>>::empty(),
    {
        let s = Self { active_notes: HashMap::new() };
        assert(notes_view(s.active_notes) =~= Map::empty());
        s
    }

    pub fn apply(&mut self, room_id: RoomId, client_id: ClientId, event: &MidiEvent)
        ensures
            final(self)@ == spec_apply(old(self)@, room_id, client_id, *event),
            no_empty_entries(final(self)@),
    {
        proof {
            use_type_invariant(&*self);
        }
        broadcast use vstd::std_specs::hash::group_hash_axioms;

        let ghost v0 = self@;
        let ghost m0 = self.active_notes;
        match event {
            MidiEvent::NoteOn { channel, note, .. } => {
                let key: (u8, u8) = (*channel, *note);
                let mut rooms: HashMap<RoomId, HashMap<ClientId, Vec<(u8, u8)>>> = HashMap::new();
                std::mem::swap(&mut rooms, &mut self.active_notes);
                let mut clients = match rooms.remove(&room_id) {
                    Some(c) => c,
                    None => HashMap::new(),
                };
                let mut notes = match clients.remove(&client_id) {
                    Some(n) => n,
                    None => Vec::new(),
                };
                let ghost n0 = notes@;
                if position_of(&notes, key).is_none() {
                    notes.push(key);
                    proof {
                        lemma_push_absent(n0, key);
                    }
                } else {
                    proof {
                        lemma_push_present(n0, key);
                    }
                }
                proof {
                    lemma_set_nonempty(notes@);
                    assert(n0.to_set() == held(v0, room_id, client_id)) by {
                        if !(v0.contains_key(room_id) && v0[room_id].contains_key(client_id)) {
                            lemma_set_empty(n0);
                        }
                    }
                }
                let ghost rooms1 = rooms;
                let ghost clients1 = clients;
                clients.insert(client_id, notes);
                let ghost clients2 = clients;
                rooms.insert(room_id, clients);
                self.active_notes = rooms;
                proof {
                    lemma_clients_insert(clients1, clients2, client_id, notes);
                    lemma_rooms_insert(rooms1, self.active_notes, room_id, clients2);
                    lemma_rooms_remove(m0, rooms1, room_id);
                    if m0@.contains_key(room_id) {
                        lemma_clients_remove(m0@[room_id], clients1, client_id);
                        assert(clients_view(clients1).insert(client_id, notes@.to_set())
                            =~= v0[room_id].insert(client_id, notes@.to_set()));
                    } else {
                        assert(clients_view(clients1).insert(client_id, notes@.to_set())
                            =~= Map::<ClientId, Set<(u8, u8)>>::empty().insert(client_id, notes@.to_set()));
                    }
                    assert(notes_view(m0).remove(room_id).insert(room_id, clients_view(clients2))
                        =~= spec_apply(v0, room_id, client_id, *event));
                }
            },
            MidiEvent::NoteOff { channel, note, .. } => {
                let key: (u8, u8) = (*channel, *note);
                let mut rooms: HashMap<RoomId, HashMap<ClientId, Vec<(u8, u8)>>> = HashMap::new();
                std::mem::swap(&mut rooms, &mut self.active_notes);
                match rooms.remove(&room_id) {
                    None => {
                        self.active_notes = rooms;
                        assert(self.active_notes@ =~= m0@);
                    },
                    Some(mut clients) => {
                        let ghost rooms1 = rooms;
                        let ghost c0 = clients;
                        match clients.remove(&client_id) {
                            None => {
                                assert(clients@ =~= c0@);
                                rooms.insert(room_id, clients);
                                self.active_notes = rooms;
                                proof {
                                    lemma_rooms_remove(m0, rooms1, room_id);
                                    lemma_rooms_insert(rooms1, self.active_notes, room_id, clients);
                                    assert(clients_view(clients) =~= clients_view(c0));
                                    assert(notes_view(self.active_notes) =~= notes_view(m0));
                                }
                            },
                            Some(mut notes) => {
                                let ghost clients1 = clients;
                                let ghost n0 = notes@;
                                match position_of(&notes, key) {
                                    Some(i) => {
                                        notes.remove(i);
                                        proof {
                                            lemma_remove_at(n0, i as int);
                                        }
                                    },
                                    None => {
                                        assert(n0.to_set().remove(key) =~= n0.to_set());
                                    },
                                }
                                if notes.len() > 0 {
                                    proof {
                                        lemma_set_nonempty(notes@);
                                    }
                                    let ghost before = clients;
                                    clients.insert(client_id, notes);
                                    proof {
                                        lemma_clients_insert(before, clients, client_id, notes);
                                    }
                                } else {
                                    proof {
                                        lemma_set_empty(notes@);
                                    }
                                }
                                let ghost clients2 = clients;
                                proof {
                                    lemma_rooms_remove(m0, rooms1, room_id);
                                    lemma_clients_remove(c0, clients1, client_id);
                                    assert(clients_view(clients2).dom() =~= clients2@.dom());
                                    let s1 = n0.to_set().remove(key);
                                    assert(notes@.to_set() == s1);
                                    let inner = if s1.is_empty() {
                                        v0[room_id].remove(client_id)
                                    } else {
                                        v0[room_id].insert(client_id, s1)
                                    };
                                    assert(clients_view(clients2) =~= inner);
                                }
                                if !clients.is_empty() {
                                    rooms.insert(room_id, clients);
                                    self.active_notes = rooms;
                                    proof {
                                        lemma_rooms_insert(rooms1, self.active_notes, room_id, clients2);
                                    }
                                } else {
                                    self.active_notes = rooms;
                                }
                                proof {
                                    assert(notes_view(self.active_notes) =~= spec_apply(v0, room_id, client_id, *event));
                                }
                            },
                        }
                    },
                }
            },
            MidiEvent::ControlChange { .. } => {},
        }
        proof {
            use_type_invariant(&*self);
            lemma_no_empty(self.active_notes);
        }
    }

    pub fn remove_client(&mut self, room_id: RoomId, client_id: ClientId)
        ensures
            final(self)@ == spec_remove_client(old(self)@, room_id, client_id),
            no_empty_entries(final(self)@),
    {
        proof {
            use_type_invariant(&*self);
        }
        broadcast use vstd::std_specs::hash::group_hash_axioms;

        let ghost m0 = self.active_notes;
        let mut rooms: HashMap<RoomId, HashMap<ClientId, Vec<(u8, u8)>>> = HashMap::new();
        std::mem::swap(&mut rooms, &mut self.active_notes);
        match rooms.remove(&room_id) {
            None => {
                self.active_notes = rooms;
                assert(self.active_notes@ =~= m0@);
            },
            Some(mut clients) => {
                let ghost rooms1 = rooms;
                let ghost c0 = clients;
                clients.remove(&client_id);
                let ghost clients1 = clients;
                proof {
                    lemma_rooms_remove(m0, rooms1, room_id);
                    lemma_clients_remove(c0, clients1, client_id);
                    assert(clients_view(clients1).dom() =~= clients1@.dom());
                }
                if !clients.is_empty() {
                    rooms.insert(room_id, clients);
                    self.active_notes = rooms;
                    proof {
                        lemma_rooms_insert(rooms1, self.active_notes, room_id, clients1);
                    }
                } else {
                    self.active_notes = rooms;
                }
                proof {
                    assert(Set::<(u8, u8)>::empty().is_empty());
                    assert(notes_view(self.active_notes) =~= spec_remove_client(notes_view(m0), room_id, client_id));
                }
            },
        }
        proof {
            use_type_invariant(&*self);
            lemma_no_empty(self.active_notes);
        }
    }

    pub fn active_notes(&self) -> (notes: &HashMap<RoomId, HashMap<ClientId, Vec<(u8, u8)>>>)
        ensures
            notes_view(*notes) == self@,
    {
        &self.active_notes
    }
}

proof fn lemma_with_held(
    v: Map<RoomId, Map<ClientId, Set<(u8, u8)>>>,
    room: RoomId,
    client: ClientId,
    notes: Set<(u8, u8)>,
    r2: RoomId,
    c2: ClientId,
)
    ensures
        held(spec_with_held(v, room, client, notes), room, client) == notes,
        (r2, c2) != (room, client) ==> held(spec_with_held(v, room, client, notes), r2, c2) == held(v, r2, c2),
{
    let w = spec_with_held(v, room, client, notes);
    let clients = if v.contains_key(room) { v[room] } else { Map::empty() };
    let clients2 = if notes.is_empty() { clients.remove(client) } else { clients.insert(client, notes) };
    if notes.is_empty() {
        assert(notes =~= Set::empty());
        assert(!clients2.contains_key(client));
    } else {
        assert(clients2.dom().contains(client));
        assert(!clients2.is_empty());
    }
    if r2 == room && c2 != client {
        if clients2.is_empty() {
            assert(!clients2.contains_key(c2));
        }
    }
}

/// A note-on makes the note held by that client in that room, a note-off
/// releases it, a control change changes nothing, and what other clients
/// hold is left as it was.
pub proof fn lemma_apply_held(
    v: Map<RoomId, Map<ClientId, Set<(u8, u8)>>>,
    room: RoomId,
    client: ClientId,
    event: MidiEvent,
    other_room: RoomId,
    other_client: ClientId,
)
    ensures
        match event {
            MidiEvent::NoteOn { channel, note, .. } => held(spec_apply(v, room, client, event), room, client)
                == held(v, room, client).insert((channel, note)),
            MidiEvent::NoteOff { channel, note, .. } => held(spec_apply(v, room, client, event), room, client)
                == held(v, room, client).remove((channel, note)),
            MidiEvent::ControlChange { .. } => spec_apply(v, room, client, event) == v,
        },
        (other_room, other_client) != (room, client) ==> held(spec_apply(v, room, client, event), other_room, other_client)
            == held(v, other_room, other_client),
{
    match event {
        MidiEvent::NoteOn { channel, note, .. } => {
            lemma_with_held(v, room, client, held(v, room, client).insert((channel, note)), other_room, other_client);
        },
        MidiEvent::NoteOff { channel, note, .. } => {
            if v.contains_key(room) && v[room].contains_key(client) {
                lemma_with_held(v, room, client, held(v, room, client).remove((channel, note)), other_room, other_client);
            } else {
                assert(held(v, room, client).remove((channel, note)) =~= held(v, room, client));
            }
        },
        MidiEvent::ControlChange { .. } => {},
    }
}

/// After a client leaves a room it holds no note there, and every other
/// client keeps what it held.
pub proof fn lemma_remove_client_held(
    v: Map<RoomId, Map<ClientId, Set<(u8, u8)>>>,
    room: RoomId,
    client: ClientId,
    other_room: RoomId,
    other_client: ClientId,
)
    ensures
        held(spec_remove_client(v, room, client), room, client) == Set::<(u8, u8)>::empty(),
        (other_room, other_client) != (room, client) ==> held(spec_remove_client(v, room, client), other_room, other_client)
            == held(v, other_room, other_client),
{
    if v.contains_key(room) {
        lemma_with_held(v, room, client, Set::empty(), other_room, other_client);
    }
}

proof fn lemma_clients_insert(c: HashMap<ClientId, Vec<(u8, u8)>>, c2: HashMap<ClientId, Vec<(u8, u8)>>, k: ClientId, n: Vec<(u8, u8)>)
    requires
        c2@ == c@.insert(k, n),
    ensures
        clients_view(c2) == clients_view(c).insert(k, n@.to_set()),
{
    assert(clients_view(c2) =~= clients_view(c).insert(k, n@.to_set()));
}

proof fn lemma_clients_remove(c: HashMap<ClientId, Vec<(u8, u8)>>, c2: HashMap<ClientId, Vec<(u8, u8)>>, k: ClientId)
    requires
        c2@ == c@.remove(k),
    ensures
        clients_view(c2) == clients_view(c).remove(k),
{
    assert(clients_view(c2) =~= clients_view(c).remove(k));
}

proof fn lemma_rooms_insert(
    m: HashMap<RoomId, HashMap<ClientId, Vec<(u8, u8)>>>,
    m2: HashMap<RoomId, HashMap<ClientId, Vec<(u8, u8)>>>,
    r: RoomId,
    c: HashMap<ClientId, Vec<(u8, u8)>>,
)
    requires
        m2@ == m@.insert(r, c),
    ensures
        notes_view(m2) == notes_view(m).insert(r, clients_view(c)),
{
    assert(notes_view(m2) =~= notes_view(m).insert(r, clients_view(c)));
}

proof fn lemma_rooms_remove(
    m: HashMap<RoomId, HashMap<ClientId, Vec<(u8, u8)>>>,
    m2: HashMap<RoomId, HashMap<ClientId, Vec<(u8, u8)>>>,
    r: RoomId,
)
    requires
        m2@ == m@.remove(r),
    ensures
        notes_view(m2) == notes_view(m).remove(r),
{
    assert(notes_view(m2) =~= notes_view(m).remove(r));
}

proof fn lemma_no_empty(m: HashMap<RoomId, HashMap<ClientId, Vec<(u8, u8)>>>)
    requires
        wf_notes(m),
    ensures
        no_empty_entries(notes_view(m)),
{
    let v = notes_view(m);
    assert forall|r: RoomId| #[trigger] v.contains_key(r) implies !v[r].is_empty() && forall|c: ClientId|
        #![trigger v[r][c]]
        v[r].contains_key(c) ==> !v[r][c].is_empty() by {
        let inner = m@[r];
        assert(!inner@.is_empty());
        let k = inner@.dom().choose();
        assert(inner@.dom().contains(k));
        assert(v[r].contains_key(k));
        assert forall|c: ClientId| #[trigger] v[r].contains_key(c) implies !v[r][c].is_empty() by {
            lemma_set_nonempty(inner@[c]@);
        }
    }
}

proof fn lemma_push_absent(v: Seq<(u8, u8)>, k: (u8, u8))
    requires
        v.no_duplicates(),
        !v.contains(k),
    ensures
        v.push(k).no_duplicates(),
        v.push(k).to_set() == v.to_set().insert(k),
{
    let w = v.push(k);
    assert forall|i: int, j: int| 0 <= i < w.len() && 0 <= j < w.len() && i != j implies w[i] != w[j] by {
        if i < v.len() && j < v.len() {
        } else if i == v.len() {
            assert(v.contains(w[j]));
        } else {
            assert(v.contains(w[i]));
        }
    }
    assert forall|x: (u8, u8)| w.to_set().contains(x) <==> v.to_set().insert(k).contains(x) by {
        if w.contains(x) {
            let i = choose|i: int| 0 <= i < w.len() && w[i] == x;
            if i < v.len() {
                assert(v.contains(x));
            }
        }
        if v.contains(x) {
            let i = choose|i: int| 0 <= i < v.len() && v[i] == x;
            assert(w[i] == x);
        }
        if x == k {
            assert(w[v.len() as int] == k);
        }
    }
    assert(w.to_set() =~= v.to_set().insert(k));
}

proof fn lemma_push_present(v: Seq<(u8, u8)>, k: (u8, u8))
    requires
        v.contains(k),
    ensures
        v.to_set() == v.to_set().insert(k),
{
    assert(v.to_set() =~= v.to_set().insert(k));
}

proof fn lemma_remove_at(v: Seq<(u8, u8)>, i: int)
    requires
        v.no_duplicates(),
        0 <= i < v.len(),
    ensures
        v.remove(i).no_duplicates(),
        v.remove(i).to_set() == v.to_set().remove(v[i]),
        v.remove(i).len() == v.len() - 1,
{
    let w = v.remove(i);
    assert forall|a: int, b: int| 0 <= a < w.len() && 0 <= b < w.len() && a != b implies w[a] != w[b] by {
        let a2 = if a < i { a } else { a + 1 };
        let b2 = if b < i { b } else { b + 1 };
        assert(w[a] == v[a2] && w[b] == v[b2]);
    }
    assert forall|x: (u8, u8)| w.to_set().contains(x) <==> v.to_set().remove(v[i]).contains(x) by {
        if w.contains(x) {
            let a = choose|a: int| 0 <= a < w.len() && w[a] == x;
            let a2 = if a < i { a } else { a + 1 };
            assert(v[a2] == x);
        }
        if v.contains(x) && x != v[i] {
            let a = choose|a: int| 0 <= a < v.len() && v[a] == x;
            if a < i {
                assert(w[a] == x);
            } else {
                assert(a != i);
                assert(w[a - 1] == x);
            }
        }
    }
    assert(w.to_set() =~= v.to_set().remove(v[i]));
}

proof fn lemma_set_nonempty(v: Seq<(u8, u8)>)
    requires
        v.len() > 0,
    ensures
        !v.to_set().is_empty(),
{
    assert(v.to_set().contains(v[0]));
}

proof fn lemma_set_empty(v: Seq<(u8, u8)>)
    requires
        v.len() == 0,
    ensures
        v.to_set().is_empty(),
{
    assert(v.to_set() =~= Set::empty());
}

} // verus!
