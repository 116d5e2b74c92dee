# Phantom

A tunnel whose traffic looks like a game's. The library under `src/` is written in Rust and
verified with Verus; `app/` is the program around it.

- `src/utils`: bytes, text, words, statistics and digests.
- `src/masking`: packets, sessions, game profiles, traffic models, morphing, bursts, timing,
  blending of protocols, learning, and a simulated inspector.
- `src/crypto`: the cipher and when its keys are changed.
- `src/transport`: browser fingerprints and the states of a connection.
- `src/proxy`, `src/relay`, `src/signaling`, `src/phantom_core`, `src/tauri_cmds`: what the
  proxy, the worker pool, the discovery of workers, the engine and the commands decide.
- `app/`: sockets, files, clocks, and draws from real distributions.

Fractions are integers: millionths where a name ends in `_micro`, thousandths for `_milli`,
hundredths for `_x100`. Times carry their unit: `_us`, `_ms`, `_ns`. What is drawn at random
or measured on a clock comes in as an argument, so that each function's contract holds for
every draw.
