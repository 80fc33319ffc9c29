# karbeat_core

The decision logic of the karbeat audio engine, written in Verus and proved
against its contracts.

- `src/` — the verified library: mixer routing order and latency
  compensation, the transport, generator voices and MIDI scheduling, the
  plugin instance state (generator arena, id table, effect chains), hosted
  plugin installation, the engine's structural command handler, the offline
  export plan, the plugin catalog, the project-state feedback router, and the
  output-stream configuration rules.
- `tests/` — tests run against the compiled library.
- `app/` — the parts that need the audio device, files or serde: stream
  setup and output callbacks, WAV writing, the export render loop, and the
  serialisable copies of the settings types.
