# ms

The realtime studio backend of MIDICOLLAB, with its logic verified by Verus.

- `src/` is the verified library: the MIDI wire formats and the note
  tracker (`midi`), invite tokens (`token`), text rules (`text`), the
  project document (`project`) and its operations (`operation`), room
  membership and permissions (`room`), the decisions of the HTTP endpoints
  (`requests`) and the rooms of the TCP relay (`relay`).
- `app/` holds the programs around it: the studio server (default), the TCP
  and WebSocket relays and the MIDI tools, selected by the first argument
  (`studio`, `relay`, `web-relay`, `midi`, `send-chord`, `send-note`).
- `tests/` runs the library on concrete values.

Floats (mixer levels, synth settings) live only in `app/`; the library
carries their bit patterns.
