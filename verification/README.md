# sim_server

A Modbus TCP slave that a PLC connects to in order to read and write a bank of
1000 holding registers (D0..D999) and 1000 coils (M0..M999), plus the integer
codes that the shoe-insole vision pipeline reports to that PLC.

- `src/` — the verified library (Verus):
  - `bytes.rs`: big-endian words.
  - `frames.rs`: MBAP header and the reply frames of functions 0x01, 0x03,
    0x05, 0x06, 0x0F, 0x10 and exceptions; coil packing; framing laws.
  - `state.rs`: the slave's memory, its start-up presets, status selection.
  - `server.rs`: header check, request decoding, request handling, and the
    read-after-write and framing laws.
  - `vision_rules.rs`: stack-state and damage-flag codes.
- `tests/` — tests of the library.
- `app/` — the program: sockets, threads, logging, and the OpenCV image
  pipeline (`sim_server vision <image>`), which works on floating point.
