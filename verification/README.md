# azure_sapi

An Azure neural text-to-speech voice for SAPI5, with its logic verified in
Verus.

- `src/` — the verified library:
  - `sentence.rs`: sentence splitting and word offsets (UTF-16) for
    word-boundary events;
  - `azure.rs`: SSML building and escaping, the HTTP request, response
    checking, 16-bit PCM decoding and encoding;
  - `engine.rs`: voice configuration, fragments, action flags, silence,
    write chunks, pacing, word-boundary event offsets, output format;
  - `speak.rs`: the speaking loop as a state machine (what to read, synthesize,
    queue and write next, and when to stop);
  - `config.rs`, `logger.rs`: assets directory and log records;
  - `registry.rs`, `cli.rs`: the setup tool's voice table, registry layout,
    commands and answers;
  - `text.rs`: character and string primitives.
- `app/` — the setup program and the COM engine object around the library:
  WinHTTP, the registry, SAPI calls (it performs the work the speaking loop
  asks for), the clock, files and floating-point audio work.
- `tests/` — tests of the library on concrete values.
