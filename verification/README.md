# magenta-dj

The shell-side logic of a two-deck generative DJ instrument driven from a
Pioneer DDJ-FLX4, as a Verus-verified library.

- `src/` is the verified library: the controller's MIDI translation and LED
  frames, the key/scale note model and the note-steering state machine, the
  sidecar wire framing, the style pad's edit rules and send lanes, the media
  library's naming, registry and file-name rules, the MCP token rules, the
  onset scheduler's queue, and the output device choice and channel spread.
- `tests/` exercises the library on concrete values.
- `app/` is the host around it: file and socket I/O, the serde shapes the
  view exchanges, and the floating-point audio work (beat analysis, decode
  and resampling, pad geometry) that the library cannot hold.
