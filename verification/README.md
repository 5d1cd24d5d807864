# game_stream

Host side of a Godot game streamer: it captures the root viewport, encodes it
with a hardware encoder and sends a raw Annex-B/OBU elementary stream over TCP
or UDP, while clients send keyboard and mouse events back over the GSI1 input
protocol.

- `src/` is the verified library. Every decision the host takes on plain
  values lives here with a contract checked by Verus: Annex-B NAL splitting and
  parameter-set caching, GSI1 framing and parsing, the bounded input queue,
  stream configuration and bitrate, the capture throttle, readback layouts,
  GPU preprocessing slots, encoder candidates and options, timestamps,
  telemetry SEI and AV1 delimiters, access-unit assembly, the key-frame gate
  of TCP clients, UDP datagram splitting and latency percentiles. Laws that
  span several calls are public proof functions named `lemma_*`.
- `app/` is the GDExtension around it: Godot signals and RenderingDevice
  calls, FFmpeg, sockets, threads and the statistics dictionary. It hands the
  library plain values and acts on what the library decides.
- `tests/` exercises the library on concrete values.
