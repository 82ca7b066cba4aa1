# droplets

The verified core of Simply Droplets, a MIDI plugin whose fugues (pre-composed
note and controller sequences queued by an LLM or the GUI) play in sync with the
host transport.

`src/` is checked by Verus:

- `import`, `smf`, `sort`: reading Standard MIDI Files (through `midly`) into
  timed note and controller events, with the pairing of note-offs and the
  closing of notes left open.
- `export`, `roundtrip`: grouping fugues by tag, naming tracks, delta-encoding
  events and writing files (through `midly`); what importing gives back of an
  export.
- `bridge`, `channels`: the registry of plugin instances, and the command
  ring buffers (`rtrb`) and snapshot cells (`arc-swap`) shared with the audio
  thread, with a ghost record of what the main thread sent, read and wrote.
- `sequencer`, `timed_notes`, `notes`, `types`, `hacks`, `midi`: scheduler
  decisions, the ring of pending note-offs behind timed notes, the
  sounding-note bitset, loop bookkeeping and MIDI bytes.
- `routes`, `webview`, `api`, `settings`, `server`, `state`, `instance_param`:
  the GUI protocol and its responses, settings, plugin state and host
  parameters.
- `arith`, `text`: gcd/lcm over tick durations and string helpers.

`app/` holds what Verus does not check: the process-wide registry and the
waits that poll it, settings files, beat-time conversion of MIDI import and
export, and the JSON shapes of the API.
