use ms::midi::{event_from_bytes, parse_midi, MidiEvent, MidiState, NetworkEvent};

fn note_on(channel: u8, note: u8, velocity: u8) -> MidiEvent {
    MidiEvent::NoteOn { channel, note, velocity }
}

fn note_off(channel: u8, note: u8, velocity: u8) -> MidiEvent {
    MidiEvent::NoteOff { channel, note, velocity }
}

#[test]
fn event_wire_bytes_per_kind() {
    assert_eq!(note_on(0, 60, 100).to_bytes(), [1, 0, 60, 100]);
    assert_eq!(note_off(2, 61, 0).to_bytes(), [2, 2, 61, 0]);
    let cc = MidiEvent::ControlChange { channel: 15, controller: 7, value: 127 };
    assert_eq!(cc.to_bytes(), [3, 15, 7, 127]);
    assert_eq!(MidiEvent::BYTE_LEN, 4);
}

#[test]
fn event_bytes_round_trip() {
    let events = [
        note_on(3, 64, 90),
        note_off(255, 0, 255),
        MidiEvent::ControlChange { channel: 9, controller: 64, value: 0 },
    ];
    for event in events {
        assert_eq!(event_from_bytes(&event.to_bytes()), Some(event));
    }
}

#[test]
fn event_from_bytes_rejects_bad_input() {
    assert_eq!(event_from_bytes(&[1, 0, 60]), None);
    assert_eq!(event_from_bytes(&[1, 0, 60, 100, 0]), None);
    assert_eq!(event_from_bytes(&[]), None);
    assert_eq!(event_from_bytes(&[0, 0, 60, 100]), None);
    assert_eq!(event_from_bytes(&[4, 0, 60, 100]), None);
}

#[test]
fn midi_bytes_carry_status_and_low_channel_bits() {
    assert_eq!(note_on(0, 60, 100).to_midi_bytes(), [0x90, 60, 100]);
    assert_eq!(note_off(5, 60, 64).to_midi_bytes(), [0x85, 60, 64]);
    let cc = MidiEvent::ControlChange { channel: 2, controller: 1, value: 33 };
    assert_eq!(cc.to_midi_bytes(), [0xB2, 1, 33]);
    // Only the low four bits of the channel reach the status byte.
    assert_eq!(note_on(0x1F, 1, 2).to_midi_bytes(), [0x9F, 1, 2]);
}

#[test]
fn parse_midi_kinds() {
    assert_eq!(parse_midi(&[0x93, 60, 100]), Some(note_on(3, 60, 100)));
    assert_eq!(parse_midi(&[0x85, 61, 40]), Some(note_off(5, 61, 40)));
    assert_eq!(
        parse_midi(&[0xB2, 7, 127]),
        Some(MidiEvent::ControlChange { channel: 2, controller: 7, value: 127 })
    );
}

#[test]
fn parse_midi_note_on_without_velocity_is_note_off() {
    assert_eq!(parse_midi(&[0x90, 60, 0]), Some(note_off(0, 60, 0)));
}

#[test]
fn parse_midi_ignores_other_messages_and_short_input() {
    assert_eq!(parse_midi(&[0xC0, 1, 2]), None);
    assert_eq!(parse_midi(&[0xE0, 0, 64]), None);
    assert_eq!(parse_midi(&[0x90, 60]), None);
    assert_eq!(parse_midi(&[]), None);
    // Bytes after the first three are not read.
    assert_eq!(parse_midi(&[0x90, 60, 100, 0xFF]), Some(note_on(0, 60, 100)));
}

#[test]
fn midi_bytes_round_trip_through_parse() {
    let events = [
        note_on(15, 127, 1),
        note_off(0, 0, 0),
        note_off(7, 50, 99),
        MidiEvent::ControlChange { channel: 4, controller: 10, value: 20 },
    ];
    for event in events {
        assert_eq!(parse_midi(&event.to_midi_bytes()), Some(event));
    }
    // A note-on of velocity 0 comes back as a note-off.
    assert_eq!(parse_midi(&note_on(1, 60, 0).to_midi_bytes()), Some(note_off(1, 60, 0)));
}

#[test]
fn parsed_messages_encode_back_to_their_bytes() {
    for message in [[0x93u8, 60, 100], [0x85, 61, 40], [0xB2, 7, 127], [0x80, 0, 0]] {
        assert_eq!(parse_midi(&message).unwrap().to_midi_bytes(), message);
    }
    // A note-on of velocity 0 comes back as a note-off.
    assert_eq!(parse_midi(&[0x91, 60, 0]).unwrap().to_midi_bytes(), [0x81, 60, 0]);
}

#[test]
fn network_event_bytes() {
    let n = NetworkEvent { sender_id: 0x0102030405060708, event: note_on(1, 2, 3) };
    assert_eq!(n.to_bytes(), [1, 2, 3, 4, 5, 6, 7, 8, 1, 1, 2, 3]);
    assert_eq!(NetworkEvent::BYTE_LEN, 12);
}

#[test]
fn network_event_round_trip() {
    let n = NetworkEvent {
        sender_id: u64::MAX,
        event: MidiEvent::ControlChange { channel: 1, controller: 2, value: 3 },
    };
    assert_eq!(NetworkEvent::from_bytes(&n.to_bytes()), Some(n));
    let m = NetworkEvent { sender_id: 42, event: note_off(0, 60, 0) };
    assert_eq!(NetworkEvent::from_bytes(&m.to_bytes()), Some(m));
}

#[test]
fn network_event_rejects_bad_input() {
    assert_eq!(NetworkEvent::from_bytes(&[0; 11]), None);
    assert_eq!(NetworkEvent::from_bytes(&[0; 13]), None);
    assert_eq!(NetworkEvent::from_bytes(&[0, 0, 0, 0, 0, 0, 0, 1, 9, 0, 0, 0]), None);
}

fn held(state: &MidiState, room: u64, client: u64) -> Vec<(u8, u8)> {
    let mut notes = state
        .active_notes()
        .get(&room)
        .and_then(|clients| clients.get(&client))
        .cloned()
        .unwrap_or_default();
    notes.sort();
    notes
}

#[test]
fn tracker_starts_empty() {
    let state = MidiState::new();
    assert!(state.active_notes().is_empty());
}

#[test]
fn tracker_holds_notes_until_released() {
    let mut state = MidiState::new();
    state.apply(1, 10, &note_on(0, 60, 100));
    state.apply(1, 10, &note_on(0, 64, 100));
    state.apply(1, 10, &note_on(0, 60, 90));
    assert_eq!(held(&state, 1, 10), vec![(0, 60), (0, 64)]);

    state.apply(1, 10, &note_off(0, 60, 0));
    assert_eq!(held(&state, 1, 10), vec![(0, 64)]);

    state.apply(1, 10, &note_off(0, 64, 0));
    assert!(state.active_notes().is_empty());
}

#[test]
fn tracker_ignores_control_changes_and_unknown_releases() {
    let mut state = MidiState::new();
    state.apply(1, 10, &MidiEvent::ControlChange { channel: 0, controller: 1, value: 2 });
    assert!(state.active_notes().is_empty());
    state.apply(1, 10, &note_off(0, 60, 0));
    assert!(state.active_notes().is_empty());
    state.apply(1, 10, &note_on(0, 60, 100));
    state.apply(1, 11, &note_off(0, 60, 0));
    state.apply(2, 10, &note_off(0, 60, 0));
    assert_eq!(held(&state, 1, 10), vec![(0, 60)]);
}

#[test]
fn tracker_keeps_rooms_and_clients_apart() {
    let mut state = MidiState::new();
    state.apply(1, 10, &note_on(0, 60, 100));
    state.apply(1, 11, &note_on(1, 60, 100));
    state.apply(2, 10, &note_on(0, 62, 100));
    assert_eq!(held(&state, 1, 10), vec![(0, 60)]);
    assert_eq!(held(&state, 1, 11), vec![(1, 60)]);
    assert_eq!(held(&state, 2, 10), vec![(0, 62)]);
}

#[test]
fn removing_a_client_drops_its_notes_and_empty_rooms() {
    let mut state = MidiState::new();
    state.apply(1, 10, &note_on(0, 60, 100));
    state.apply(1, 11, &note_on(0, 61, 100));
    state.remove_client(1, 10);
    assert_eq!(held(&state, 1, 10), Vec::<(u8, u8)>::new());
    assert_eq!(held(&state, 1, 11), vec![(0, 61)]);
    state.remove_client(1, 11);
    assert!(state.active_notes().is_empty());
    state.remove_client(5, 5);
    assert!(state.active_notes().is_empty());
}
